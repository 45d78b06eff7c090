use kolom::paths::{dir_name, extension, file_name, join};

#[test]
fn joining_paths() {
    let sep = std::path::MAIN_SEPARATOR;
    assert_eq!(join("a", "b"), format!("a{}b", sep));
    assert_eq!(join("a/", "b"), "a/b");
    assert_eq!(join("", "b"), "b");
    assert_eq!(join("a", "/b"), "/b");
}

#[test]
fn file_and_directory_names() {
    assert_eq!(file_name("tmp/foo.txt"), "foo.txt");
    assert_eq!(file_name("/usr/bin/"), "bin");
    assert_eq!(file_name("a/.."), "");
    assert_eq!(file_name("/"), "");
    assert_eq!(dir_name("/usr/bin"), "/usr");
    assert_eq!(dir_name("foo"), "");
    assert_eq!(dir_name("/"), "");
}

#[test]
fn extensions() {
    assert_eq!(extension("a/b.tar.gz"), "gz");
    assert_eq!(extension(".bashrc"), "");
    assert_eq!(extension("foo."), "");
    assert_eq!(extension("noext"), "");
    assert_eq!(extension("dir.d/"), "d");
}
