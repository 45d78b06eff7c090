use kolom::cli::{
    display_file_name, new_project_source, parse_add_args, parse_command, project_name, render_diags, AddError,
    CommandKind,
};
use kolom::lexer::Diagnostic;

fn args(v: &[&str]) -> Vec<String> {
    v.iter().map(|s| s.to_string()).collect()
}

#[test]
fn commands_are_named_in_english_or_bengali() {
    let c = parse_command(&args(&["চালাও", "main.ক", "x", "--y"]));
    assert_eq!(c.kind, CommandKind::Run);
    assert_eq!(c.operands, args(&["main.ক", "x", "--y"]));
    let c = parse_command(&args(&["build", "--release", "main.ক", "linux"]));
    assert_eq!(c.kind, CommandKind::Build);
    assert_eq!(c.operands, args(&["main.ক", "linux"]));
    assert_eq!(parse_command(&args(&["-V"])).kind, CommandKind::Version);
    assert_eq!(parse_command(&args(&["সাহায্য"])).kind, CommandKind::Help);
    assert_eq!(parse_command(&args(&["টার্গেট"])).kind, CommandKind::Targets);
    let c = parse_command(&args(&["উড়ো", "x"]));
    assert_eq!(c.kind, CommandKind::Unknown);
    assert!(c.operands.is_empty());
    assert_eq!(parse_command(&Vec::new()).kind, CommandKind::Unknown);
}

#[test]
fn add_reads_name_url_and_reference() {
    let r = parse_add_args(&args(&["লাইব", "https://x/y.git", "--রেফ", "v1.0.0"])).unwrap();
    assert_eq!((r.name.as_str(), r.url.as_str(), r.reference.as_str()), ("লাইব", "https://x/y.git", "v1.0.0"));
    let r = parse_add_args(&args(&["--ref", "v2", "n", "u"])).unwrap();
    assert_eq!((r.name.as_str(), r.url.as_str(), r.reference.as_str()), ("n", "u", "v2"));
    assert_eq!(parse_add_args(&args(&["n", "--ref", "v"])).err(), Some(AddError::Usage));
    assert_eq!(parse_add_args(&args(&["n", "u"])).err(), Some(AddError::MissingRef));
    assert_eq!(parse_add_args(&args(&["n", "u", "--ref", "v", "--ref"])).err(), Some(AddError::MissingRef));
    assert_eq!(AddError::MissingRef.message(), "ত্রুটি: --রেফ <tag> দিতে হবে (যেমন: --রেফ v1.0.0)");
}

#[test]
fn a_new_project_is_named_and_greets() {
    assert_eq!(project_name(Some("  আমার_অ্যাপ ")).as_deref(), Some("আমার_অ্যাপ"));
    assert_eq!(project_name(Some("   ")), None);
    assert_eq!(project_name(None), None);
    assert_eq!(new_project_source("কলম"), "অ্যাপ কলম {\n\n    লেখো(\"হ্যালো, কলম!\")\n\n}\n");
}

#[test]
fn diagnostics_are_shown_under_their_line() {
    let src = "অ্যাপ {\n    লেখো(ক)\n}\n";
    let diags = vec![
        Diagnostic { line: 2, col: 10, message: "অজানা নাম".to_string() },
        Diagnostic { line: 9, col: 1, message: "শেষ".to_string() },
    ];
    let shown = render_diags("ত্রুটি", "main.ক", src, &diags);
    assert_eq!(
        shown,
        "ত্রুটি: main.ক:২:১০\n\nঅজানা নাম\n\n      লেখো(ক)\n           ^\nত্রুটি: main.ক:৯:১\n\nশেষ\n"
    );
}

#[test]
fn file_names_lose_their_directories() {
    assert_eq!(display_file_name("a/b/main.ক"), "main.ক");
    assert_eq!(display_file_name("main.ক"), "main.ক");
    assert_eq!(display_file_name(".."), "..");
}

#[test]
fn file_names_follow_the_final_component() {
    assert_eq!(display_file_name("tmp/foo.txt"), "foo.txt");
    assert_eq!(display_file_name("/usr/bin/"), "bin");
    assert_eq!(display_file_name("foo.txt/."), "foo.txt");
    assert_eq!(display_file_name("foo.txt/.."), "foo.txt/..");
    assert_eq!(display_file_name("./a/./"), "a");
    assert_eq!(display_file_name("/"), "/");
    assert_eq!(display_file_name(""), "");
    assert_eq!(display_file_name("."), ".");
}
