use kolom::link::{
    find_lib_dirs, link_executable_for, link_outcome, linker_not_started, wanted_objects, LinkInputs, Target,
    TARGET_TRIPLE, WINDOWS_LIBS,
};
use kolom::messages::{CRT1_MISSING, LINKER_MISSING, MINGW_MISSING, NDK_LINKER_MISSING};

fn s(v: &[&str]) -> Vec<String> {
    v.iter().map(|x| x.to_string()).collect()
}

fn inputs(objects: &[(&str, &str)]) -> LinkInputs {
    LinkInputs {
        linker: Some("/sr/bin/rust-lld".to_string()),
        runtime: Some("/sr/rt.a".to_string()),
        lib_dirs: s(&["/l1", "/l2"]),
        objects: objects.iter().map(|(a, b)| (a.to_string(), b.to_string())).collect(),
        ndk_extras: Vec::new(),
    }
}

#[test]
fn targets_have_names_triples_and_suffixes() {
    assert_eq!(Target::from_name("windows"), Some(Target::WindowsGnu));
    assert_eq!(Target::from_name("linux"), Some(Target::LinuxMusl));
    assert_eq!(Target::from_name("android"), Some(Target::AndroidArm64));
    assert_eq!(Target::from_name("macos"), None);
    assert_eq!(Target::LinuxMusl.triple(), "x86_64-unknown-linux-musl");
    assert_eq!(Target::WindowsGnu.exe_suffix(), ".exe");
    assert_eq!(Target::AndroidArm64.exe_suffix(), "");
    let h = Target::host();
    assert!(h == Target::WindowsGnu || h == Target::LinuxMusl);
}

#[test]
fn linux_links_statically_with_the_objects_found() {
    let inp = inputs(&[("crt1.o", "/l1/crt1.o"), ("crtn.o", "/l2/crtn.o")]);
    let cmd = link_executable_for(Target::LinuxMusl, &inp, "out.obj", "app").unwrap();
    assert_eq!(cmd.program, "/sr/bin/rust-lld");
    assert_eq!(
        cmd.args,
        s(&[
            "-flavor", "gnu", "-o", "app", "-L/l1", "-L/l2", "-m", "elf_x86_64", "-static", "/l1/crt1.o", "out.obj",
            "/sr/rt.a", "-lc", "/l2/crtn.o",
        ])
    );
}

#[test]
fn windows_adds_the_system_libraries_in_order() {
    let inp = inputs(&[("crt2.o", "/l1/crt2.o"), ("crtend.o", "/l1/crtend.o")]);
    let cmd = link_executable_for(Target::WindowsGnu, &inp, "o", "a.exe").unwrap();
    let mut expected = s(&[
        "-flavor", "gnu", "-o", "a.exe", "-L/l1", "-L/l2", "-m", "i386pep", "--subsystem", "console", "--stack",
        "67108864", "/l1/crt2.o", "o", "/sr/rt.a",
    ]);
    expected.extend(WINDOWS_LIBS.iter().map(|l| l.to_string()));
    expected.push("/l1/crtend.o".to_string());
    assert_eq!(cmd.args, expected);
}

#[test]
fn android_uses_the_ndk_linker_and_its_extras() {
    let mut inp = inputs(&[("crtbegin_static.o", "/n/cb.o"), ("crtend_android.o", "/n/ce.o")]);
    inp.ndk_extras = s(&["/n/builtins.a", "/n/libunwind.a"]);
    let cmd = link_executable_for(Target::AndroidArm64, &inp, "o", "a").unwrap();
    assert_eq!(
        cmd.args,
        s(&[
            "-o", "a", "-L/l1", "-L/l2", "-m", "aarch64linux", "-static", "--strip-debug", "/n/cb.o", "o", "/sr/rt.a",
            "-lc", "-lm", "-ldl", "/n/builtins.a", "/n/libunwind.a", "/n/ce.o",
        ])
    );
}

#[test]
fn missing_pieces_are_reported_in_order() {
    let mut inp = inputs(&[]);
    inp.linker = None;
    inp.runtime = None;
    assert_eq!(link_executable_for(Target::LinuxMusl, &inp, "o", "a").err().unwrap().message(), LINKER_MISSING);
    assert_eq!(link_executable_for(Target::AndroidArm64, &inp, "o", "a").err().unwrap().message(), NDK_LINKER_MISSING);
    inp.linker = Some("ld".to_string());
    let m = link_executable_for(Target::LinuxMusl, &inp, "o", "a").err().unwrap();
    assert_eq!(
        m.message(),
        "'x86_64-unknown-linux-musl' টার্গেটের কলম রানটাইম পাওয়া যায়নি — বিল্ড করো:\n                     cargo build --release -p kolom-runtime --target x86_64-unknown-linux-musl"
    );
    inp.runtime = Some("rt".to_string());
    inp.lib_dirs.clear();
    assert_eq!(link_executable_for(Target::WindowsGnu, &inp, "o", "a").err().unwrap().message(), MINGW_MISSING);
    assert_eq!(
        link_executable_for(Target::LinuxMusl, &inp, "o", "a").err().unwrap().message(),
        "musl লাইব্রেরি পাওয়া যায়নি — যোগ করো:\n    rustup target add x86_64-unknown-linux-musl"
    );
    inp.lib_dirs.push("/l".to_string());
    assert_eq!(link_executable_for(Target::LinuxMusl, &inp, "o", "a").err().unwrap().message(), CRT1_MISSING);
}

#[test]
fn link_results_are_reported() {
    assert!(link_outcome(true, Some(0), "").is_ok());
    assert_eq!(link_outcome(false, Some(1), "  bad\n").err().unwrap().message(), "লিংক ব্যর্থ (কোড 1):\nbad");
    assert_eq!(link_outcome(false, None, "x").err().unwrap().message(), "লিংক ব্যর্থ (কোড -1):\nx");
    assert_eq!(linker_not_started("ld", "nope").message(), "লিংকার 'ld' চালানো যায়নি: nope");
}

#[test]
fn library_directories_prefer_the_sysroot() {
    let fb = s(&["/fallback"]);
    assert_eq!(
        find_lib_dirs(Target::LinuxMusl, Target::LinuxMusl, Some("/sr/t/lib".into()), Some("/sr/lib".into()), fb.clone()),
        s(&["/sr/t/lib"])
    );
    assert_eq!(find_lib_dirs(Target::LinuxMusl, Target::LinuxMusl, None, Some("/sr/lib".into()), fb.clone()), s(&["/sr/lib"]));
    assert_eq!(find_lib_dirs(Target::AndroidArm64, Target::LinuxMusl, None, Some("/sr/lib".into()), fb.clone()), fb);
    assert_eq!(wanted_objects(Target::LinuxMusl), vec!["crt1.o", "crti.o", "libunwind.a", "crtn.o"]);
}

#[test]
fn host_follows_the_path_separator() {
    assert_eq!(Target::host_from(true), Target::WindowsGnu);
    assert_eq!(Target::host_from(false), Target::LinuxMusl);
    assert_eq!(Target::host(), Target::host_from(std::path::is_separator('\\')));
}

#[test]
fn default_triple_is_the_windows_triple() {
    assert_eq!(TARGET_TRIPLE, Target::WindowsGnu.triple());
    assert_eq!(TARGET_TRIPLE, "x86_64-pc-windows-gnu");
}
