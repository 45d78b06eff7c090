//! Targets for native executables, and the linker command line for one.
//!
//! Looking things up on disk (the linker, the runtime library, the C runtime
//! objects) is left to the caller; what is decided here is which of them a
//! target needs, which missing piece is reported first and how, and the exact
//! argument list handed to the linker.

use vstd::prelude::*;
use crate::text::{push_str, chars_of, string_from, str_is};
use crate::calendar::{padded, push_padded};
use crate::strlib::{trimmed, trim};
use crate::messages::{
    NDK_LINKER_MISSING, LINKER_MISSING, MINGW_MISSING, NDK_MISSING, CRT2_MISSING, CRT1_MISSING, CRTBEGIN_STATIC_MISSING, RUNTIME_MISSING_OPEN, RUNTIME_MISSING_BUILD, MUSL_MISSING, LINK_FAILED_CODE, LINK_FAILED_OUTPUT, LINKER_START_OPEN, LINKER_START_FAILED,
};

verus! {

/// A platform Kolom can produce native executables for.
#[derive(Debug, Clone, Copy, PartialEq, Eq, Structural)]
pub enum Target {
    /// x86_64 Windows, MinGW-w64 ABI.
    WindowsGnu,
    /// x86_64 Linux, statically linked against musl.
    LinuxMusl,
    /// aarch64 Android, statically linked against Bionic; needs an NDK.
    AndroidArm64,
}

pub open spec fn triple_of(t: Target) -> Seq<char> {
    match t {
        Target::WindowsGnu => "x86_64-pc-windows-gnu"@,
        Target::LinuxMusl => "x86_64-unknown-linux-musl"@,
        Target::AndroidArm64 => "aarch64-linux-android"@,
    }
}

pub open spec fn target_named(name: Seq<char>) -> Option<Target> {
    if name == "windows"@ {
        Some(Target::WindowsGnu)
    } else if name == "linux"@ {
        Some(Target::LinuxMusl)
    } else if name == "android"@ {
        Some(Target::AndroidArm64)
    } else {
        None
    }
}

pub open spec fn suffix_of(t: Target) -> Seq<char> {
    match t {
        Target::WindowsGnu => ".exe"@,
        _ => ""@,
    }
}

/// `std::path::is_separator`: whether `c` separates path components on
/// this platform. `/` does everywhere; `\` does on Windows only, which is
/// what tells the two hosts apart. Nothing is stated of `\`.
#[verifier::external_body]
fn is_path_separator(c: char) -> (b: bool)
    ensures
        c == '/' ==> b,
{
    std::path::is_separator(c)
}

impl Target {
    pub fn triple(self) -> (s: &'static str)
        ensures
            s@ == triple_of(self),
    {
        match self {
            Target::WindowsGnu => "x86_64-pc-windows-gnu",
            Target::LinuxMusl => "x86_64-unknown-linux-musl",
            Target::AndroidArm64 => "aarch64-linux-android",
        }
    }

    /// Maps a `কলম বিল্ড <file> <target>` name to a target.
    pub fn from_name(name: &str) -> (t: Option<Target>)
        ensures
            t == target_named(name@),
    {
        if str_is(name, "windows") {
            Some(Target::WindowsGnu)
        } else if str_is(name, "linux") {
            Some(Target::LinuxMusl)
        } else if str_is(name, "android") {
            Some(Target::AndroidArm64)
        } else {
            None
        }
    }

    /// The platform this build of kolom runs on: Windows or Linux (never
    /// Android, which is only a cross target).
    pub fn host() -> (t: Target)
        ensures
            t == Target::WindowsGnu || t == Target::LinuxMusl,
    {
        let backslash_separates = is_path_separator('\\');
        Target::host_from(backslash_separates)
    }

    /// The host platform, told apart by whether `\` separates path
    /// components there: Windows where it does, Linux elsewhere.
    pub fn host_from(backslash_separates: bool) -> (t: Target)
        ensures
            t == (if backslash_separates { Target::WindowsGnu } else { Target::LinuxMusl }),
    {
        if backslash_separates {
            Target::WindowsGnu
        } else {
            Target::LinuxMusl
        }
    }

    pub fn exe_suffix(self) -> (s: &'static str)
        ensures
            s@ == suffix_of(self),
    {
        match self {
            Target::WindowsGnu => ".exe",
            Target::LinuxMusl | Target::AndroidArm64 => "",
        }
    }
}

/// The triple of the default target, Windows.
pub const TARGET_TRIPLE: &'static str = "x86_64-pc-windows-gnu";

/// [`TARGET_TRIPLE`] is the triple of the default target.
pub proof fn law_default_triple()
    ensures
        TARGET_TRIPLE@ == triple_of(Target::WindowsGnu),
{
}

/// What a link attempt needed but could not find, with a Bengali message
/// aimed at the person running `কলম বিল্ড`.
#[derive(Debug)]
pub struct LinkError(pub String);

impl LinkError {
    pub fn message(&self) -> (s: &str)
        ensures
            s@ == self.0@,
    {
        self.0.as_str()
    }
}

// ---------------------------------------------------------------------------
// The link command
// ---------------------------------------------------------------------------

/// Windows system libraries, in GNU link order. The UI engine needs
/// gdi32/user32; the rest back Rust's `std`.
pub const WINDOWS_LIBS: [&'static str; 18] = [
    "-lmingw32",
    "-lgcc",
    "-lgcc_eh",
    "-lmoldname",
    "-lmingwex",
    "-lucrt",
    "-lkernel32",
    "-luser32",
    "-lgdi32",
    "-ladvapi32",
    "-lshell32",
    "-luserenv",
    "-lws2_32",
    "-lbcrypt",
    "-lntdll",
    "-lsynchronization",
    "-lole32",
    "-loleaut32",
];

pub open spec fn strs(v: Seq<String>) -> Seq<Seq<char>> {
    v.map_values(|s: String| s@)
}

/// What a link for some target found on disk, as display paths.
pub struct LinkInputs {
    /// The linker: the bundled `rust-lld`, or the NDK's `ld.lld` for Android.
    pub linker: Option<String>,
    /// The Kolom runtime library for the target.
    pub runtime: Option<String>,
    /// The directories holding the CRT objects and libraries, in search order.
    pub lib_dirs: Vec<String>,
    /// For each name of [`wanted_objects`] that some library directory
    /// holds: the name, and its path in the first directory that holds it.
    pub objects: Vec<(String, String)>,
    /// Android only: compiler-rt's builtins and libunwind, those of the two
    /// found in the NDK, in that order.
    pub ndk_extras: Vec<String>,
}

/// The path that `objects` gives for `name`.
pub open spec fn lookup(objects: Seq<(String, String)>, name: Seq<char>) -> Option<Seq<char>>
    decreases objects.len(),
{
    if objects.len() == 0 {
        None
    } else if objects[0].0@ == name {
        Some(objects[0].1@)
    } else {
        lookup(objects.skip(1), name)
    }
}

pub open spec fn opt_arg(o: Option<Seq<char>>) -> Seq<Seq<char>> {
    match o {
        Some(p) => seq![p],
        None => seq![],
    }
}

/// The CRT start object without which a target cannot link.
pub open spec fn start_object(t: Target) -> Seq<char> {
    match t {
        Target::WindowsGnu => "crt2.o"@,
        Target::LinuxMusl => "crt1.o"@,
        Target::AndroidArm64 => "crtbegin_static.o"@,
    }
}

/// The object and library names to look up in the library directories.
pub open spec fn wanted(t: Target) -> Seq<Seq<char>> {
    match t {
        Target::WindowsGnu => seq!["crt2.o"@, "crtbegin.o"@, "crtend.o"@],
        Target::LinuxMusl => seq!["crt1.o"@, "crti.o"@, "libunwind.a"@, "crtn.o"@],
        Target::AndroidArm64 => seq!["crtbegin_static.o"@, "crtend_android.o"@],
    }
}

/// What a link is missing, in the order the pieces are looked for: the
/// linker, the runtime, any library directory, the start object.
pub open spec fn link_problem(t: Target, inp: LinkInputs) -> Option<Seq<char>> {
    if inp.linker is None {
        Some(
            if t == Target::AndroidArm64 {
                NDK_LINKER_MISSING@
            } else {
                LINKER_MISSING@
            },
        )
    } else if inp.runtime is None {
        Some(RUNTIME_MISSING_OPEN@ + triple_of(t) + RUNTIME_MISSING_BUILD@ + triple_of(t))
    } else if inp.lib_dirs.len() == 0 {
        Some(
            match t {
                Target::WindowsGnu => MINGW_MISSING@,
                Target::LinuxMusl => MUSL_MISSING@ + triple_of(t),
                Target::AndroidArm64 => NDK_MISSING@,
            },
        )
    } else if lookup(inp.objects@, start_object(t)) is None {
        Some(
            match t {
                Target::WindowsGnu => CRT2_MISSING@,
                Target::LinuxMusl => CRT1_MISSING@,
                Target::AndroidArm64 => CRTBEGIN_STATIC_MISSING@,
            },
        )
    } else {
        None
    }
}

/// The first linker arguments: the flavour (for `rust-lld`), the output
/// and the library directories.
pub open spec fn link_head(t: Target, dirs: Seq<Seq<char>>, exe: Seq<char>) -> Seq<Seq<char>> {
    let flavor = if t == Target::AndroidArm64 {
        seq![]
    } else {
        seq!["-flavor"@, "gnu"@]
    };
    flavor + seq!["-o"@, exe] + dirs.map_values(|d: Seq<char>| "-L"@ + d)
}

/// The rest of the linker arguments: the target's emulation and options,
/// the CRT objects around the program's object and the runtime, and the
/// system libraries.
pub open spec fn link_tail(
    t: Target,
    objs: Seq<(String, String)>,
    rt: Seq<char>,
    extras: Seq<Seq<char>>,
    obj: Seq<char>,
) -> Seq<Seq<char>> {
    let start = lookup(objs, start_object(t))->0;
    match t {
        Target::WindowsGnu => seq!["-m"@, "i386pep"@, "--subsystem"@, "console"@, "--stack"@, "67108864"@, start]
            + opt_arg(lookup(objs, "crtbegin.o"@)) + seq![obj, rt] + WINDOWS_LIBS@.map_values(|l: &str| l@)
            + opt_arg(lookup(objs, "crtend.o"@)),
        Target::LinuxMusl => seq!["-m"@, "elf_x86_64"@, "-static"@, start] + opt_arg(lookup(objs, "crti.o"@))
            + seq![obj, rt, "-lc"@] + opt_arg(lookup(objs, "libunwind.a"@)) + opt_arg(lookup(objs, "crtn.o"@)),
        Target::AndroidArm64 => seq![
            "-m"@,
            "aarch64linux"@,
            "-static"@,
            "--strip-debug"@,
            start,
            obj,
            rt,
            "-lc"@,
            "-lm"@,
            "-ldl"@,
        ] + extras + opt_arg(lookup(objs, "crtend_android.o"@)),
    }
}

/// The arguments handed to the linker, when nothing is missing.
pub open spec fn link_args(t: Target, inp: LinkInputs, obj: Seq<char>, exe: Seq<char>) -> Seq<Seq<char>> {
    link_head(t, strs(inp.lib_dirs@), exe) + link_tail(t, inp.objects@, inp.runtime->0@, strs(inp.ndk_extras@), obj)
}

/// On Linux, the found `crti.o` goes to the linker right after `crt1.o`
/// and right before the program's object, and the found `crtn.o` comes
/// last: the C runtime's init and fini sections bracket the program.
pub proof fn law_linux_crt_order(inp: LinkInputs, obj: Seq<char>, exe: Seq<char>)
    requires
        link_problem(Target::LinuxMusl, inp) is None,
    ensures
        ({
            let a = link_args(Target::LinuxMusl, inp, obj, exe);
            let h = 4 + inp.lib_dirs@.len() as int;
            let crt1 = lookup(inp.objects@, "crt1.o"@);
            let crti = lookup(inp.objects@, "crti.o"@);
            let crtn = lookup(inp.objects@, "crtn.o"@);
            &&& crt1 is Some && a[h + 3] == crt1->0
            &&& crti matches Some(p) ==> a[h + 4] == p && a[h + 5] == obj
            &&& crti is None ==> a[h + 4] == obj
            &&& crtn matches Some(p) ==> a.last() == p
        }),
{
    let t = Target::LinuxMusl;
    let dirs = strs(inp.lib_dirs@);
    let head = link_head(t, dirs, exe);
    assert(head.len() == 4 + inp.lib_dirs@.len());
}

/// Every object of [`wanted_objects`] that was found goes to the linker:
/// its path is among the linker's arguments.
pub proof fn law_found_objects_are_linked(t: Target, inp: LinkInputs, obj: Seq<char>, exe: Seq<char>, name: Seq<char>)
    requires
        link_problem(t, inp) is None,
        wanted(t).contains(name),
        lookup(inp.objects@, name) is Some,
    ensures
        link_args(t, inp, obj, exe).contains(lookup(inp.objects@, name)->0),
{
    let a = link_args(t, inp, obj, exe);
    let objs = inp.objects@;
    let h = link_head(t, strs(inp.lib_dirs@), exe).len() as int;
    let tail = link_tail(t, objs, inp.runtime->0@, strs(inp.ndk_extras@), obj);
    assert(a.len() == h + tail.len());
    assert forall|q: int| 0 <= q < tail.len() implies a[h + q] == #[trigger] tail[q] by {}
    let p = lookup(objs, name)->0;
    let k = choose|k: int| 0 <= k < wanted(t).len() && wanted(t)[k] == name;
    match t {
        Target::WindowsGnu => {
            if k == 0 {
                assert(a[h + 6] == p);
            } else if k == 1 {
                assert(a[h + 7] == p);
            } else {
                assert(a[a.len() - 1] == tail[tail.len() - 1]);
                assert(a[a.len() - 1] == p);
            }
        },
        Target::LinuxMusl => {
            let ci = opt_arg(lookup(objs, "crti.o"@)).len() as int;
            let cu = opt_arg(lookup(objs, "libunwind.a"@)).len() as int;
            if k == 0 {
                assert(a[h + 3] == p);
            } else if k == 1 {
                assert(a[h + 4] == p);
            } else if k == 2 {
                assert(tail[4 + ci + 3] == p);
                assert(a[h + 4 + ci + 3] == p);
            } else {
                assert(tail[4 + ci + 3 + cu] == p);
                assert(a[h + 4 + ci + 3 + cu] == p);
            }
        },
        Target::AndroidArm64 => {
            if k == 0 {
                assert(a[h + 4] == p);
            } else {
                assert(tail[tail.len() - 1] == p);
                assert(a[h + tail.len() - 1] == p);
            }
        },
    }
}

/// A linker invocation: the program and its arguments.
pub struct LinkCommand {
    pub program: String,
    pub args: Vec<String>,
}

/// The names that a link for `target` looks up in its library directories.
pub fn wanted_objects(target: Target) -> (v: Vec<&'static str>)
    ensures
        v@.map_values(|s: &str| s@) == wanted(target),
{
    let mut v: Vec<&'static str> = Vec::new();
    match target {
        Target::WindowsGnu => {
            v.push("crt2.o");
            v.push("crtbegin.o");
            v.push("crtend.o");
        },
        Target::LinuxMusl => {
            v.push("crt1.o");
            v.push("crti.o");
            v.push("libunwind.a");
            v.push("crtn.o");
        },
        Target::AndroidArm64 => {
            v.push("crtbegin_static.o");
            v.push("crtend_android.o");
        },
    }
    assert(v@.map_values(|s: &str| s@) =~= wanted(target));
    v
}

fn find_object(objects: &Vec<(String, String)>, name: &str) -> (r: Option<String>)
    ensures
        match r {
            Some(p) => lookup(objects@, name@) == Some(p@),
            None => lookup(objects@, name@) is None,
        },
{
    let mut i: usize = 0;
    assert(objects@.skip(0) =~= objects@);
    while i < objects.len()
        invariant
            i <= objects.len(),
            lookup(objects@.skip(i as int), name@) == lookup(objects@, name@),
        decreases objects.len() - i,
    {
        assert(objects@.skip(i as int)[0] == objects@[i as int]);
        assert(objects@.skip(i as int).skip(1) =~= objects@.skip(i as int + 1));
        if str_is(objects[i].0.as_str(), name) {
            return Some(objects[i].1.clone());
        }
        i += 1;
    }
    None
}

fn arg(v: &mut Vec<String>, a: &str)
    ensures
        strs(final(v)@) == strs(old(v)@).push(a@),
{
    v.push(a.to_owned());
    assert(strs(v@) =~= strs(old(v)@).push(a@));
}

fn opt(v: &mut Vec<String>, a: &Option<String>)
    ensures
        strs(final(v)@) == strs(old(v)@) + opt_arg(match a {
            Some(p) => Some(p@),
            None => None,
        }),
{
    match a {
        Some(p) => {
            arg(v, p.as_str());
        },
        None => {},
    }
    assert(strs(v@) =~= strs(old(v)@) + opt_arg(match a {
        Some(p) => Some(p@),
        None => None,
    }));
}

fn err1(a: &str) -> (e: LinkError)
    ensures
        e.0@ == a@,
{
    LinkError(a.to_owned())
}

fn err2(a: &str, b: &str) -> (e: LinkError)
    ensures
        e.0@ == a@ + b@,
{
    let mut s = a.to_owned();
    push_str(&mut s, b);
    LinkError(s)
}

fn err_text(a: &str, b: &str, c: &str, d: &str) -> (e: LinkError)
    ensures
        e.0@ == a@ + b@ + c@ + d@,
{
    let mut s = String::new();
    push_str(&mut s, a);
    push_str(&mut s, b);
    push_str(&mut s, c);
    push_str(&mut s, d);
    LinkError(s)
}

fn head_args(target: Target, dirs: &Vec<String>, exe: &str) -> (args: Vec<String>)
    ensures
        strs(args@) == link_head(target, strs(dirs@), exe@),
{
    let mut args: Vec<String> = Vec::new();
    if target != Target::AndroidArm64 {
        arg(&mut args, "-flavor");
        arg(&mut args, "gnu");
    }
    arg(&mut args, "-o");
    arg(&mut args, exe);
    let mut i: usize = 0;
    let ghost before = strs(args@);
    while i < dirs.len()
        invariant
            i <= dirs.len(),
            strs(args@) == before + strs(dirs@).take(i as int).map_values(|d: Seq<char>| "-L"@ + d),
        decreases dirs.len() - i,
    {
        let mut a = String::new();
        push_str(&mut a, "-L");
        push_str(&mut a, dirs[i].as_str());
        arg(&mut args, a.as_str());
        assert(strs(dirs@).take(i as int + 1).map_values(|d: Seq<char>| "-L"@ + d) =~= strs(dirs@).take(
            i as int,
        ).map_values(|d: Seq<char>| "-L"@ + d).push("-L"@ + dirs@[i as int]@));
        i += 1;
    }
    assert(strs(dirs@).take(dirs.len() as int) =~= strs(dirs@));
    proof {
        if target == Target::AndroidArm64 {
            assert(strs(args@) =~= link_head(target, strs(dirs@), exe@));
        } else {
            assert(strs(args@) =~= link_head(target, strs(dirs@), exe@));
        }
    }
    args
}

fn windows_tail(objects: &Vec<(String, String)>, start: &String, runtime: &String, obj: &str) -> (args: Vec<String>)
    requires
        lookup(objects@, start_object(Target::WindowsGnu)) == Some(start@),
    ensures
        strs(args@) == link_tail(Target::WindowsGnu, objects@, runtime@, seq![], obj@),
{
    let mut args: Vec<String> = Vec::new();
    arg(&mut args, "-m");
    arg(&mut args, "i386pep");
    arg(&mut args, "--subsystem");
    arg(&mut args, "console");
    arg(&mut args, "--stack");
    arg(&mut args, "67108864");
    arg(&mut args, start.as_str());
    opt(&mut args, &find_object(objects, "crtbegin.o"));
    arg(&mut args, obj);
    arg(&mut args, runtime.as_str());
    let ghost mid = strs(args@);
    let mut k: usize = 0;
    while k < 18
        invariant
            k <= 18,
            strs(args@) == mid + WINDOWS_LIBS@.map_values(|l: &str| l@).take(k as int),
        decreases 18 - k,
    {
        arg(&mut args, WINDOWS_LIBS[k]);
        assert(WINDOWS_LIBS@.map_values(|l: &str| l@).take(k as int + 1) =~= WINDOWS_LIBS@.map_values(
            |l: &str| l@,
        ).take(k as int).push(WINDOWS_LIBS@[k as int]@));
        k += 1;
    }
    assert(WINDOWS_LIBS@.map_values(|l: &str| l@).take(18) =~= WINDOWS_LIBS@.map_values(|l: &str| l@));
    opt(&mut args, &find_object(objects, "crtend.o"));
    assert(strs(args@) =~= link_tail(Target::WindowsGnu, objects@, runtime@, seq![], obj@));
    args
}

fn linux_tail(objects: &Vec<(String, String)>, start: &String, runtime: &String, obj: &str) -> (args: Vec<String>)
    requires
        lookup(objects@, start_object(Target::LinuxMusl)) == Some(start@),
    ensures
        strs(args@) == link_tail(Target::LinuxMusl, objects@, runtime@, seq![], obj@),
{
    let mut args: Vec<String> = Vec::new();
    arg(&mut args, "-m");
    arg(&mut args, "elf_x86_64");
    arg(&mut args, "-static");
    arg(&mut args, start.as_str());
    opt(&mut args, &find_object(objects, "crti.o"));
    arg(&mut args, obj);
    arg(&mut args, runtime.as_str());
    arg(&mut args, "-lc");
    opt(&mut args, &find_object(objects, "libunwind.a"));
    opt(&mut args, &find_object(objects, "crtn.o"));
    assert(strs(args@) =~= link_tail(Target::LinuxMusl, objects@, runtime@, seq![], obj@));
    args
}

fn android_tail(
    objects: &Vec<(String, String)>,
    start: &String,
    runtime: &String,
    extras: &Vec<String>,
    obj: &str,
) -> (args: Vec<String>)
    requires
        lookup(objects@, start_object(Target::AndroidArm64)) == Some(start@),
    ensures
        strs(args@) == link_tail(Target::AndroidArm64, objects@, runtime@, strs(extras@), obj@),
{
    let mut args: Vec<String> = Vec::new();
    arg(&mut args, "-m");
    arg(&mut args, "aarch64linux");
    arg(&mut args, "-static");
    arg(&mut args, "--strip-debug");
    arg(&mut args, start.as_str());
    arg(&mut args, obj);
    arg(&mut args, runtime.as_str());
    arg(&mut args, "-lc");
    arg(&mut args, "-lm");
    arg(&mut args, "-ldl");
    let ghost mid = strs(args@);
    let mut k: usize = 0;
    while k < extras.len()
        invariant
            k <= extras.len(),
            strs(args@) == mid + strs(extras@).take(k as int),
        decreases extras.len() - k,
    {
        arg(&mut args, extras[k].as_str());
        assert(strs(extras@).take(k as int + 1) =~= strs(extras@).take(k as int).push(extras@[k as int]@));
        k += 1;
    }
    assert(strs(extras@).take(extras.len() as int) =~= strs(extras@));
    opt(&mut args, &find_object(objects, "crtend_android.o"));
    assert(strs(args@) =~= link_tail(Target::AndroidArm64, objects@, runtime@, strs(extras@), obj@));
    args
}

/// The linker command that links `obj` into `exe` for `target` from what
/// was found on disk, or what is missing, reported in the order the
/// pieces are looked for. Running the command is left to the caller.
pub fn link_executable_for(target: Target, inputs: &LinkInputs, obj: &str, exe: &str) -> (r: Result<LinkCommand, LinkError>)
    ensures
        match link_problem(target, *inputs) {
            Some(m) => r matches Err(e) && e.0@ == m,
            None => r matches Ok(c) && c.program@ == inputs.linker->0@ && strs(c.args@) == link_args(
                target,
                *inputs,
                obj@,
                exe@,
            ),
        },
{
    let linker = match &inputs.linker {
        Some(l) => l,
        None => {
            return Err(err1(if target == Target::AndroidArm64 { NDK_LINKER_MISSING } else { LINKER_MISSING }));
        },
    };
    let runtime = match &inputs.runtime {
        Some(r) => r,
        None => {
            return Err(err_text(RUNTIME_MISSING_OPEN, target.triple(), RUNTIME_MISSING_BUILD, target.triple()));
        },
    };
    if inputs.lib_dirs.len() == 0 {
        return Err(
            match target {
                Target::WindowsGnu => err1(MINGW_MISSING),
                Target::LinuxMusl => err2(MUSL_MISSING, target.triple()),
                Target::AndroidArm64 => err1(NDK_MISSING),
            },
        );
    }
    let first = match target {
        Target::WindowsGnu => "crt2.o",
        Target::LinuxMusl => "crt1.o",
        Target::AndroidArm64 => "crtbegin_static.o",
    };
    let start = match find_object(&inputs.objects, first) {
        Some(p) => p,
        None => {
            return Err(
                match target {
                    Target::WindowsGnu => err1(CRT2_MISSING),
                    Target::LinuxMusl => err1(CRT1_MISSING),
                    Target::AndroidArm64 => err1(CRTBEGIN_STATIC_MISSING),
                },
            );
        },
    };
    let mut args = head_args(target, &inputs.lib_dirs, exe);
    let mut tail = match target {
        Target::WindowsGnu => windows_tail(&inputs.objects, &start, runtime, obj),
        Target::LinuxMusl => linux_tail(&inputs.objects, &start, runtime, obj),
        Target::AndroidArm64 => android_tail(&inputs.objects, &start, runtime, &inputs.ndk_extras, obj),
    };
    let ghost h = args@;
    let ghost t = tail@;
    args.append(&mut tail);
    assert(strs(args@) =~= strs(h) + strs(t));
    let program = linker.clone();
    Ok(LinkCommand { program, args })
}

/// [`link_executable_for`] for the platform this build of kolom runs on.
pub fn link_executable(inputs: &LinkInputs, obj: &str, exe: &str) -> (r: Result<LinkCommand, LinkError>)
    ensures
        exists|t: Target|
            (t == Target::WindowsGnu || t == Target::LinuxMusl) && match #[trigger] link_problem(t, *inputs) {
                Some(m) => r matches Err(e) && e.0@ == m,
                None => r matches Ok(c) && c.program@ == inputs.linker->0@ && strs(c.args@) == link_args(
                    t,
                    *inputs,
                    obj@,
                    exe@,
                ),
            },
{
    let t = Target::host();
    let r = link_executable_for(t, inputs, obj, exe);
    assert(t == Target::WindowsGnu || t == Target::LinuxMusl);
    r
}

/// The report of a linker run that exited with `code` (none when a signal
/// ended it) and wrote `stderr`.
pub open spec fn failure_text(code: Option<i32>, stderr: Seq<char>) -> Seq<char> {
    LINK_FAILED_CODE@ + padded(
        match code {
            Some(c) => c as int,
            None => -1,
        },
        1,
    ) + LINK_FAILED_OUTPUT@ + trimmed(stderr)
}

/// What a finished linker run means: success, or a report with its exit
/// code and its error output without surrounding white space.
pub fn link_outcome(success: bool, code: Option<i32>, stderr: &str) -> (r: Result<(), LinkError>)
    ensures
        success ==> r is Ok,
        !success ==> (r matches Err(e) && e.0@ == failure_text(code, stderr@)),
{
    if success {
        return Ok(());
    }
    let c: i64 = match code {
        Some(c) => c as i64,
        None => -1,
    };
    let mut s = LINK_FAILED_CODE.to_owned();
    push_padded(&mut s, c, 1);
    push_str(&mut s, LINK_FAILED_OUTPUT);
    let t = trim(stderr);
    push_str(&mut s, t.as_str());
    Err(LinkError(s))
}

/// The report for a linker that could not be started at all.
pub fn linker_not_started(linker: &str, error: &str) -> (e: LinkError)
    ensures
        e.0@ == LINKER_START_OPEN@ + linker@ + LINKER_START_FAILED@ + error@,
{
    err_text(LINKER_START_OPEN, linker, LINKER_START_FAILED, error)
}

/// The directories that hold the CRT objects and libraries for `target`:
/// the sysroot's directory for the target if there is one, else (for the
/// host only) the sysroot's flat `lib/`, else what the toolchain or an
/// installed SDK offers.
pub fn find_lib_dirs(
    target: Target,
    host: Target,
    per_target: Option<String>,
    flat: Option<String>,
    fallback: Vec<String>,
) -> (dirs: Vec<String>)
    ensures
        strs(dirs@) == (match per_target {
            Some(p) => seq![p@],
            None => match flat {
                Some(f) => if target == host {
                    seq![f@]
                } else {
                    strs(fallback@)
                },
                None => strs(fallback@),
            },
        }),
{
    let mut v: Vec<String> = Vec::new();
    match per_target {
        Some(p) => {
            v.push(p);
            assert(strs(v@) =~= seq![p@]);
            return v;
        },
        None => {},
    }
    if target == host {
        match flat {
            Some(f) => {
                v.push(f);
                assert(strs(v@) =~= seq![f@]);
                return v;
            },
            None => {},
        }
    }
    fallback
}

} // verus!
