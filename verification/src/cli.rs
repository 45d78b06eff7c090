//! What the `kolom` command line decides: which command the arguments
//! name, how `যোগ`/`add` reads its arguments, the name and first source of
//! a new project, and how diagnostics are shown under their source line.

use vstd::prelude::*;
use crate::text::{push_char, push_str, str_is, chars_of};
use crate::lexer::{Diagnostic, error_text, format_error};
use crate::editor::{lines_from, split_lines};
use crate::strlib::{trimmed, trim};
use crate::link::strs;
use crate::messages::{ADD_USAGE, ADD_NEEDS_REF, APP_OPEN, APP_GREETING, APP_CLOSE};

verus! {

/// The subcommands of `kolom`.
#[derive(Debug, Clone, Copy, PartialEq, Eq, Structural)]
pub enum CommandKind {
    Run,
    Build,
    New,
    Edit,
    Add,
    Install,
    Remove,
    Targets,
    Lex,
    Version,
    Help,
    /// No subcommand, or one that is not known: the help text goes to
    /// standard error.
    Unknown,
}

/// The subcommand that the word `a` names, in English or in Bengali.
pub open spec fn kind_of(a: Seq<char>) -> CommandKind {
    if a == "run"@ || a == "চালাও"@ {
        CommandKind::Run
    } else if a == "build"@ || a == "বিল্ড"@ {
        CommandKind::Build
    } else if a == "new"@ || a == "নতুন"@ {
        CommandKind::New
    } else if a == "edit"@ || a == "পাতা"@ {
        CommandKind::Edit
    } else if a == "add"@ || a == "যোগ"@ {
        CommandKind::Add
    } else if a == "install"@ || a == "ইনস্টল"@ {
        CommandKind::Install
    } else if a == "remove"@ || a == "মুছো"@ {
        CommandKind::Remove
    } else if a == "target"@ || a == "টার্গেট"@ {
        CommandKind::Targets
    } else if a == "lex"@ {
        CommandKind::Lex
    } else if a == "version"@ || a == "--version"@ || a == "-V"@ || a == "সংস্করণ"@ {
        CommandKind::Version
    } else if a == "help"@ || a == "--help"@ || a == "-h"@ || a == "সাহায্য"@ {
        CommandKind::Help
    } else {
        CommandKind::Unknown
    }
}

/// Whether an argument is an option (`--something`), which `বিল্ড` skips.
pub open spec fn is_flag(a: Seq<char>) -> bool {
    a.len() >= 2 && a[0] == '-' && a[1] == '-'
}

/// The arguments that are not options, in order.
pub open spec fn non_flags(s: Seq<Seq<char>>) -> Seq<Seq<char>>
    decreases s.len(),
{
    if s.len() == 0 {
        seq![]
    } else if is_flag(s.last()) {
        non_flags(s.drop_last())
    } else {
        non_flags(s.drop_last()).push(s.last())
    }
}

/// A subcommand and its operands: the arguments after the subcommand's
/// word (for `বিল্ড`, those that are not options).
pub struct Command {
    pub kind: CommandKind,
    pub operands: Vec<String>,
}

pub open spec fn operands_of(kind: CommandKind, rest: Seq<Seq<char>>) -> Seq<Seq<char>> {
    if kind == CommandKind::Build {
        non_flags(rest)
    } else if kind == CommandKind::Unknown {
        seq![]
    } else {
        rest
    }
}

fn kind_of_word(a: &str) -> (k: CommandKind)
    ensures
        k == kind_of(a@),
{
    if str_is(a, "run") || str_is(a, "চালাও") {
        CommandKind::Run
    } else if str_is(a, "build") || str_is(a, "বিল্ড") {
        CommandKind::Build
    } else if str_is(a, "new") || str_is(a, "নতুন") {
        CommandKind::New
    } else if str_is(a, "edit") || str_is(a, "পাতা") {
        CommandKind::Edit
    } else if str_is(a, "add") || str_is(a, "যোগ") {
        CommandKind::Add
    } else if str_is(a, "install") || str_is(a, "ইনস্টল") {
        CommandKind::Install
    } else if str_is(a, "remove") || str_is(a, "মুছো") {
        CommandKind::Remove
    } else if str_is(a, "target") || str_is(a, "টার্গেট") {
        CommandKind::Targets
    } else if str_is(a, "lex") {
        CommandKind::Lex
    } else if str_is(a, "version") || str_is(a, "--version") || str_is(a, "-V") || str_is(a, "সংস্করণ") {
        CommandKind::Version
    } else if str_is(a, "help") || str_is(a, "--help") || str_is(a, "-h") || str_is(a, "সাহায্য") {
        CommandKind::Help
    } else {
        CommandKind::Unknown
    }
}

/// Every subcommand has its English and its Bengali word, and each word
/// names its own subcommand: `new` and `নতুন` both ask for a new project,
/// and so on for every subcommand the command line knows.
pub proof fn law_subcommand_words()
    ensures
        kind_of("run"@) == CommandKind::Run,
        kind_of("চালাও"@) == CommandKind::Run,
        kind_of("build"@) == CommandKind::Build,
        kind_of("বিল্ড"@) == CommandKind::Build,
        kind_of("new"@) == CommandKind::New,
        kind_of("নতুন"@) == CommandKind::New,
        kind_of("edit"@) == CommandKind::Edit,
        kind_of("পাতা"@) == CommandKind::Edit,
        kind_of("add"@) == CommandKind::Add,
        kind_of("যোগ"@) == CommandKind::Add,
        kind_of("install"@) == CommandKind::Install,
        kind_of("ইনস্টল"@) == CommandKind::Install,
        kind_of("remove"@) == CommandKind::Remove,
        kind_of("মুছো"@) == CommandKind::Remove,
        kind_of("target"@) == CommandKind::Targets,
        kind_of("টার্গেট"@) == CommandKind::Targets,
        kind_of("lex"@) == CommandKind::Lex,
        kind_of("version"@) == CommandKind::Version,
        kind_of("--version"@) == CommandKind::Version,
        kind_of("-V"@) == CommandKind::Version,
        kind_of("সংস্করণ"@) == CommandKind::Version,
        kind_of("help"@) == CommandKind::Help,
        kind_of("--help"@) == CommandKind::Help,
        kind_of("-h"@) == CommandKind::Help,
        kind_of("সাহায্য"@) == CommandKind::Help,
{
    assert(kind_of("run"@) == CommandKind::Run) by {
        reveal_strlit("run");
    }
    assert(kind_of("চালাও"@) == CommandKind::Run) by {
        reveal_strlit("চালাও");
    }
    assert(kind_of("build"@) == CommandKind::Build) by {
        reveal_strlit("build");
        reveal_strlit("run");
        assert("build"@.len() != "run"@.len());
        reveal_strlit("চালাও");
        assert("build"@[0] != "চালাও"@[0]);
    }
    assert(kind_of("বিল্ড"@) == CommandKind::Build) by {
        reveal_strlit("বিল্ড");
        reveal_strlit("run");
        assert("বিল্ড"@.len() != "run"@.len());
        reveal_strlit("চালাও");
        assert("বিল্ড"@[0] != "চালাও"@[0]);
    }
    assert(kind_of("new"@) == CommandKind::New) by {
        reveal_strlit("new");
        reveal_strlit("run");
        assert("new"@[0] != "run"@[0]);
        reveal_strlit("চালাও");
        assert("new"@.len() != "চালাও"@.len());
        reveal_strlit("build");
        assert("new"@.len() != "build"@.len());
        reveal_strlit("বিল্ড");
        assert("new"@.len() != "বিল্ড"@.len());
    }
    assert(kind_of("নতুন"@) == CommandKind::New) by {
        reveal_strlit("নতুন");
        reveal_strlit("run");
        assert("নতুন"@.len() != "run"@.len());
        reveal_strlit("চালাও");
        assert("নতুন"@.len() != "চালাও"@.len());
        reveal_strlit("build");
        assert("নতুন"@.len() != "build"@.len());
        reveal_strlit("বিল্ড");
        assert("নতুন"@.len() != "বিল্ড"@.len());
    }
    assert(kind_of("edit"@) == CommandKind::Edit) by {
        reveal_strlit("edit");
        reveal_strlit("run");
        assert("edit"@.len() != "run"@.len());
        reveal_strlit("চালাও");
        assert("edit"@.len() != "চালাও"@.len());
        reveal_strlit("build");
        assert("edit"@.len() != "build"@.len());
        reveal_strlit("বিল্ড");
        assert("edit"@.len() != "বিল্ড"@.len());
        reveal_strlit("new");
        assert("edit"@.len() != "new"@.len());
        reveal_strlit("নতুন");
        assert("edit"@[0] != "নতুন"@[0]);
    }
    assert(kind_of("পাতা"@) == CommandKind::Edit) by {
        reveal_strlit("পাতা");
        reveal_strlit("run");
        assert("পাতা"@.len() != "run"@.len());
        reveal_strlit("চালাও");
        assert("পাতা"@.len() != "চালাও"@.len());
        reveal_strlit("build");
        assert("পাতা"@.len() != "build"@.len());
        reveal_strlit("বিল্ড");
        assert("পাতা"@.len() != "বিল্ড"@.len());
        reveal_strlit("new");
        assert("পাতা"@.len() != "new"@.len());
        reveal_strlit("নতুন");
        assert("পাতা"@[0] != "নতুন"@[0]);
    }
    assert(kind_of("add"@) == CommandKind::Add) by {
        reveal_strlit("add");
        reveal_strlit("run");
        assert("add"@[0] != "run"@[0]);
        reveal_strlit("চালাও");
        assert("add"@.len() != "চালাও"@.len());
        reveal_strlit("build");
        assert("add"@.len() != "build"@.len());
        reveal_strlit("বিল্ড");
        assert("add"@.len() != "বিল্ড"@.len());
        reveal_strlit("new");
        assert("add"@[0] != "new"@[0]);
        reveal_strlit("নতুন");
        assert("add"@.len() != "নতুন"@.len());
        reveal_strlit("edit");
        assert("add"@.len() != "edit"@.len());
        reveal_strlit("পাতা");
        assert("add"@.len() != "পাতা"@.len());
    }
    assert(kind_of("যোগ"@) == CommandKind::Add) by {
        reveal_strlit("যোগ");
        reveal_strlit("run");
        assert("যোগ"@[0] != "run"@[0]);
        reveal_strlit("চালাও");
        assert("যোগ"@.len() != "চালাও"@.len());
        reveal_strlit("build");
        assert("যোগ"@.len() != "build"@.len());
        reveal_strlit("বিল্ড");
        assert("যোগ"@.len() != "বিল্ড"@.len());
        reveal_strlit("new");
        assert("যোগ"@[0] != "new"@[0]);
        reveal_strlit("নতুন");
        assert("যোগ"@.len() != "নতুন"@.len());
        reveal_strlit("edit");
        assert("যোগ"@.len() != "edit"@.len());
        reveal_strlit("পাতা");
        assert("যোগ"@.len() != "পাতা"@.len());
    }
    assert(kind_of("install"@) == CommandKind::Install) by {
        reveal_strlit("install");
        reveal_strlit("run");
        assert("install"@.len() != "run"@.len());
        reveal_strlit("চালাও");
        assert("install"@.len() != "চালাও"@.len());
        reveal_strlit("build");
        assert("install"@.len() != "build"@.len());
        reveal_strlit("বিল্ড");
        assert("install"@.len() != "বিল্ড"@.len());
        reveal_strlit("new");
        assert("install"@.len() != "new"@.len());
        reveal_strlit("নতুন");
        assert("install"@.len() != "নতুন"@.len());
        reveal_strlit("edit");
        assert("install"@.len() != "edit"@.len());
        reveal_strlit("পাতা");
        assert("install"@.len() != "পাতা"@.len());
        reveal_strlit("add");
        assert("install"@.len() != "add"@.len());
        reveal_strlit("যোগ");
        assert("install"@.len() != "যোগ"@.len());
    }
    assert(kind_of("ইনস্টল"@) == CommandKind::Install) by {
        reveal_strlit("ইনস্টল");
        reveal_strlit("run");
        assert("ইনস্টল"@.len() != "run"@.len());
        reveal_strlit("চালাও");
        assert("ইনস্টল"@.len() != "চালাও"@.len());
        reveal_strlit("build");
        assert("ইনস্টল"@.len() != "build"@.len());
        reveal_strlit("বিল্ড");
        assert("ইনস্টল"@.len() != "বিল্ড"@.len());
        reveal_strlit("new");
        assert("ইনস্টল"@.len() != "new"@.len());
        reveal_strlit("নতুন");
        assert("ইনস্টল"@.len() != "নতুন"@.len());
        reveal_strlit("edit");
        assert("ইনস্টল"@.len() != "edit"@.len());
        reveal_strlit("পাতা");
        assert("ইনস্টল"@.len() != "পাতা"@.len());
        reveal_strlit("add");
        assert("ইনস্টল"@.len() != "add"@.len());
        reveal_strlit("যোগ");
        assert("ইনস্টল"@.len() != "যোগ"@.len());
    }
    assert(kind_of("remove"@) == CommandKind::Remove) by {
        reveal_strlit("remove");
        reveal_strlit("run");
        assert("remove"@.len() != "run"@.len());
        reveal_strlit("চালাও");
        assert("remove"@.len() != "চালাও"@.len());
        reveal_strlit("build");
        assert("remove"@.len() != "build"@.len());
        reveal_strlit("বিল্ড");
        assert("remove"@.len() != "বিল্ড"@.len());
        reveal_strlit("new");
        assert("remove"@.len() != "new"@.len());
        reveal_strlit("নতুন");
        assert("remove"@.len() != "নতুন"@.len());
        reveal_strlit("edit");
        assert("remove"@.len() != "edit"@.len());
        reveal_strlit("পাতা");
        assert("remove"@.len() != "পাতা"@.len());
        reveal_strlit("add");
        assert("remove"@.len() != "add"@.len());
        reveal_strlit("যোগ");
        assert("remove"@.len() != "যোগ"@.len());
        reveal_strlit("install");
        assert("remove"@.len() != "install"@.len());
        reveal_strlit("ইনস্টল");
        assert("remove"@[0] != "ইনস্টল"@[0]);
    }
    assert(kind_of("মুছো"@) == CommandKind::Remove) by {
        reveal_strlit("মুছো");
        reveal_strlit("run");
        assert("মুছো"@.len() != "run"@.len());
        reveal_strlit("চালাও");
        assert("মুছো"@.len() != "চালাও"@.len());
        reveal_strlit("build");
        assert("মুছো"@.len() != "build"@.len());
        reveal_strlit("বিল্ড");
        assert("মুছো"@.len() != "বিল্ড"@.len());
        reveal_strlit("new");
        assert("মুছো"@.len() != "new"@.len());
        reveal_strlit("নতুন");
        assert("মুছো"@[0] != "নতুন"@[0]);
        reveal_strlit("edit");
        assert("মুছো"@[0] != "edit"@[0]);
        reveal_strlit("পাতা");
        assert("মুছো"@[0] != "পাতা"@[0]);
        reveal_strlit("add");
        assert("মুছো"@.len() != "add"@.len());
        reveal_strlit("যোগ");
        assert("মুছো"@.len() != "যোগ"@.len());
        reveal_strlit("install");
        assert("মুছো"@.len() != "install"@.len());
        reveal_strlit("ইনস্টল");
        assert("মুছো"@.len() != "ইনস্টল"@.len());
    }
    assert(kind_of("target"@) == CommandKind::Targets) by {
        reveal_strlit("target");
        reveal_strlit("run");
        assert("target"@.len() != "run"@.len());
        reveal_strlit("চালাও");
        assert("target"@.len() != "চালাও"@.len());
        reveal_strlit("build");
        assert("target"@.len() != "build"@.len());
        reveal_strlit("বিল্ড");
        assert("target"@.len() != "বিল্ড"@.len());
        reveal_strlit("new");
        assert("target"@.len() != "new"@.len());
        reveal_strlit("নতুন");
        assert("target"@.len() != "নতুন"@.len());
        reveal_strlit("edit");
        assert("target"@.len() != "edit"@.len());
        reveal_strlit("পাতা");
        assert("target"@.len() != "পাতা"@.len());
        reveal_strlit("add");
        assert("target"@.len() != "add"@.len());
        reveal_strlit("যোগ");
        assert("target"@.len() != "যোগ"@.len());
        reveal_strlit("install");
        assert("target"@.len() != "install"@.len());
        reveal_strlit("ইনস্টল");
        assert("target"@[0] != "ইনস্টল"@[0]);
        reveal_strlit("remove");
        assert("target"@[0] != "remove"@[0]);
        reveal_strlit("মুছো");
        assert("target"@.len() != "মুছো"@.len());
    }
    assert(kind_of("টার্গেট"@) == CommandKind::Targets) by {
        reveal_strlit("টার্গেট");
        reveal_strlit("run");
        assert("টার্গেট"@.len() != "run"@.len());
        reveal_strlit("চালাও");
        assert("টার্গেট"@.len() != "চালাও"@.len());
        reveal_strlit("build");
        assert("টার্গেট"@.len() != "build"@.len());
        reveal_strlit("বিল্ড");
        assert("টার্গেট"@.len() != "বিল্ড"@.len());
        reveal_strlit("new");
        assert("টার্গেট"@.len() != "new"@.len());
        reveal_strlit("নতুন");
        assert("টার্গেট"@.len() != "নতুন"@.len());
        reveal_strlit("edit");
        assert("টার্গেট"@.len() != "edit"@.len());
        reveal_strlit("পাতা");
        assert("টার্গেট"@.len() != "পাতা"@.len());
        reveal_strlit("add");
        assert("টার্গেট"@.len() != "add"@.len());
        reveal_strlit("যোগ");
        assert("টার্গেট"@.len() != "যোগ"@.len());
        reveal_strlit("install");
        assert("টার্গেট"@[0] != "install"@[0]);
        reveal_strlit("ইনস্টল");
        assert("টার্গেট"@.len() != "ইনস্টল"@.len());
        reveal_strlit("remove");
        assert("টার্গেট"@.len() != "remove"@.len());
        reveal_strlit("মুছো");
        assert("টার্গেট"@.len() != "মুছো"@.len());
    }
    assert(kind_of("lex"@) == CommandKind::Lex) by {
        reveal_strlit("lex");
        reveal_strlit("run");
        assert("lex"@[0] != "run"@[0]);
        reveal_strlit("চালাও");
        assert("lex"@.len() != "চালাও"@.len());
        reveal_strlit("build");
        assert("lex"@.len() != "build"@.len());
        reveal_strlit("বিল্ড");
        assert("lex"@.len() != "বিল্ড"@.len());
        reveal_strlit("new");
        assert("lex"@[0] != "new"@[0]);
        reveal_strlit("নতুন");
        assert("lex"@.len() != "নতুন"@.len());
        reveal_strlit("edit");
        assert("lex"@.len() != "edit"@.len());
        reveal_strlit("পাতা");
        assert("lex"@.len() != "পাতা"@.len());
        reveal_strlit("add");
        assert("lex"@[0] != "add"@[0]);
        reveal_strlit("যোগ");
        assert("lex"@[0] != "যোগ"@[0]);
        reveal_strlit("install");
        assert("lex"@.len() != "install"@.len());
        reveal_strlit("ইনস্টল");
        assert("lex"@.len() != "ইনস্টল"@.len());
        reveal_strlit("remove");
        assert("lex"@.len() != "remove"@.len());
        reveal_strlit("মুছো");
        assert("lex"@.len() != "মুছো"@.len());
        reveal_strlit("target");
        assert("lex"@.len() != "target"@.len());
        reveal_strlit("টার্গেট");
        assert("lex"@.len() != "টার্গেট"@.len());
    }
    assert(kind_of("version"@) == CommandKind::Version) by {
        reveal_strlit("version");
        reveal_strlit("run");
        assert("version"@.len() != "run"@.len());
        reveal_strlit("চালাও");
        assert("version"@.len() != "চালাও"@.len());
        reveal_strlit("build");
        assert("version"@.len() != "build"@.len());
        reveal_strlit("বিল্ড");
        assert("version"@.len() != "বিল্ড"@.len());
        reveal_strlit("new");
        assert("version"@.len() != "new"@.len());
        reveal_strlit("নতুন");
        assert("version"@.len() != "নতুন"@.len());
        reveal_strlit("edit");
        assert("version"@.len() != "edit"@.len());
        reveal_strlit("পাতা");
        assert("version"@.len() != "পাতা"@.len());
        reveal_strlit("add");
        assert("version"@.len() != "add"@.len());
        reveal_strlit("যোগ");
        assert("version"@.len() != "যোগ"@.len());
        reveal_strlit("install");
        assert("version"@[0] != "install"@[0]);
        reveal_strlit("ইনস্টল");
        assert("version"@.len() != "ইনস্টল"@.len());
        reveal_strlit("remove");
        assert("version"@.len() != "remove"@.len());
        reveal_strlit("মুছো");
        assert("version"@.len() != "মুছো"@.len());
        reveal_strlit("target");
        assert("version"@.len() != "target"@.len());
        reveal_strlit("টার্গেট");
        assert("version"@[0] != "টার্গেট"@[0]);
        reveal_strlit("lex");
        assert("version"@.len() != "lex"@.len());
    }
    assert(kind_of("--version"@) == CommandKind::Version) by {
        reveal_strlit("--version");
        reveal_strlit("run");
        assert("--version"@.len() != "run"@.len());
        reveal_strlit("চালাও");
        assert("--version"@.len() != "চালাও"@.len());
        reveal_strlit("build");
        assert("--version"@.len() != "build"@.len());
        reveal_strlit("বিল্ড");
        assert("--version"@.len() != "বিল্ড"@.len());
        reveal_strlit("new");
        assert("--version"@.len() != "new"@.len());
        reveal_strlit("নতুন");
        assert("--version"@.len() != "নতুন"@.len());
        reveal_strlit("edit");
        assert("--version"@.len() != "edit"@.len());
        reveal_strlit("পাতা");
        assert("--version"@.len() != "পাতা"@.len());
        reveal_strlit("add");
        assert("--version"@.len() != "add"@.len());
        reveal_strlit("যোগ");
        assert("--version"@.len() != "যোগ"@.len());
        reveal_strlit("install");
        assert("--version"@.len() != "install"@.len());
        reveal_strlit("ইনস্টল");
        assert("--version"@.len() != "ইনস্টল"@.len());
        reveal_strlit("remove");
        assert("--version"@.len() != "remove"@.len());
        reveal_strlit("মুছো");
        assert("--version"@.len() != "মুছো"@.len());
        reveal_strlit("target");
        assert("--version"@.len() != "target"@.len());
        reveal_strlit("টার্গেট");
        assert("--version"@.len() != "টার্গেট"@.len());
        reveal_strlit("lex");
        assert("--version"@.len() != "lex"@.len());
    }
    assert(kind_of("-V"@) == CommandKind::Version) by {
        reveal_strlit("-V");
        reveal_strlit("run");
        assert("-V"@.len() != "run"@.len());
        reveal_strlit("চালাও");
        assert("-V"@.len() != "চালাও"@.len());
        reveal_strlit("build");
        assert("-V"@.len() != "build"@.len());
        reveal_strlit("বিল্ড");
        assert("-V"@.len() != "বিল্ড"@.len());
        reveal_strlit("new");
        assert("-V"@.len() != "new"@.len());
        reveal_strlit("নতুন");
        assert("-V"@.len() != "নতুন"@.len());
        reveal_strlit("edit");
        assert("-V"@.len() != "edit"@.len());
        reveal_strlit("পাতা");
        assert("-V"@.len() != "পাতা"@.len());
        reveal_strlit("add");
        assert("-V"@.len() != "add"@.len());
        reveal_strlit("যোগ");
        assert("-V"@.len() != "যোগ"@.len());
        reveal_strlit("install");
        assert("-V"@.len() != "install"@.len());
        reveal_strlit("ইনস্টল");
        assert("-V"@.len() != "ইনস্টল"@.len());
        reveal_strlit("remove");
        assert("-V"@.len() != "remove"@.len());
        reveal_strlit("মুছো");
        assert("-V"@.len() != "মুছো"@.len());
        reveal_strlit("target");
        assert("-V"@.len() != "target"@.len());
        reveal_strlit("টার্গেট");
        assert("-V"@.len() != "টার্গেট"@.len());
        reveal_strlit("lex");
        assert("-V"@.len() != "lex"@.len());
    }
    assert(kind_of("সংস্করণ"@) == CommandKind::Version) by {
        reveal_strlit("সংস্করণ");
        reveal_strlit("run");
        assert("সংস্করণ"@.len() != "run"@.len());
        reveal_strlit("চালাও");
        assert("সংস্করণ"@.len() != "চালাও"@.len());
        reveal_strlit("build");
        assert("সংস্করণ"@.len() != "build"@.len());
        reveal_strlit("বিল্ড");
        assert("সংস্করণ"@.len() != "বিল্ড"@.len());
        reveal_strlit("new");
        assert("সংস্করণ"@.len() != "new"@.len());
        reveal_strlit("নতুন");
        assert("সংস্করণ"@.len() != "নতুন"@.len());
        reveal_strlit("edit");
        assert("সংস্করণ"@.len() != "edit"@.len());
        reveal_strlit("পাতা");
        assert("সংস্করণ"@.len() != "পাতা"@.len());
        reveal_strlit("add");
        assert("সংস্করণ"@.len() != "add"@.len());
        reveal_strlit("যোগ");
        assert("সংস্করণ"@.len() != "যোগ"@.len());
        reveal_strlit("install");
        assert("সংস্করণ"@[0] != "install"@[0]);
        reveal_strlit("ইনস্টল");
        assert("সংস্করণ"@.len() != "ইনস্টল"@.len());
        reveal_strlit("remove");
        assert("সংস্করণ"@.len() != "remove"@.len());
        reveal_strlit("মুছো");
        assert("সংস্করণ"@.len() != "মুছো"@.len());
        reveal_strlit("target");
        assert("সংস্করণ"@.len() != "target"@.len());
        reveal_strlit("টার্গেট");
        assert("সংস্করণ"@[0] != "টার্গেট"@[0]);
        reveal_strlit("lex");
        assert("সংস্করণ"@.len() != "lex"@.len());
    }
    assert(kind_of("help"@) == CommandKind::Help) by {
        reveal_strlit("help");
        reveal_strlit("run");
        assert("help"@.len() != "run"@.len());
        reveal_strlit("চালাও");
        assert("help"@.len() != "চালাও"@.len());
        reveal_strlit("build");
        assert("help"@.len() != "build"@.len());
        reveal_strlit("বিল্ড");
        assert("help"@.len() != "বিল্ড"@.len());
        reveal_strlit("new");
        assert("help"@.len() != "new"@.len());
        reveal_strlit("নতুন");
        assert("help"@[0] != "নতুন"@[0]);
        reveal_strlit("edit");
        assert("help"@[0] != "edit"@[0]);
        reveal_strlit("পাতা");
        assert("help"@[0] != "পাতা"@[0]);
        reveal_strlit("add");
        assert("help"@.len() != "add"@.len());
        reveal_strlit("যোগ");
        assert("help"@.len() != "যোগ"@.len());
        reveal_strlit("install");
        assert("help"@.len() != "install"@.len());
        reveal_strlit("ইনস্টল");
        assert("help"@.len() != "ইনস্টল"@.len());
        reveal_strlit("remove");
        assert("help"@.len() != "remove"@.len());
        reveal_strlit("মুছো");
        assert("help"@[0] != "মুছো"@[0]);
        reveal_strlit("target");
        assert("help"@.len() != "target"@.len());
        reveal_strlit("টার্গেট");
        assert("help"@.len() != "টার্গেট"@.len());
        reveal_strlit("lex");
        assert("help"@.len() != "lex"@.len());
        reveal_strlit("version");
        assert("help"@.len() != "version"@.len());
        reveal_strlit("--version");
        assert("help"@.len() != "--version"@.len());
        reveal_strlit("-V");
        assert("help"@.len() != "-V"@.len());
        reveal_strlit("সংস্করণ");
        assert("help"@.len() != "সংস্করণ"@.len());
    }
    assert(kind_of("--help"@) == CommandKind::Help) by {
        reveal_strlit("--help");
        reveal_strlit("run");
        assert("--help"@.len() != "run"@.len());
        reveal_strlit("চালাও");
        assert("--help"@.len() != "চালাও"@.len());
        reveal_strlit("build");
        assert("--help"@.len() != "build"@.len());
        reveal_strlit("বিল্ড");
        assert("--help"@.len() != "বিল্ড"@.len());
        reveal_strlit("new");
        assert("--help"@.len() != "new"@.len());
        reveal_strlit("নতুন");
        assert("--help"@.len() != "নতুন"@.len());
        reveal_strlit("edit");
        assert("--help"@.len() != "edit"@.len());
        reveal_strlit("পাতা");
        assert("--help"@.len() != "পাতা"@.len());
        reveal_strlit("add");
        assert("--help"@.len() != "add"@.len());
        reveal_strlit("যোগ");
        assert("--help"@.len() != "যোগ"@.len());
        reveal_strlit("install");
        assert("--help"@.len() != "install"@.len());
        reveal_strlit("ইনস্টল");
        assert("--help"@[0] != "ইনস্টল"@[0]);
        reveal_strlit("remove");
        assert("--help"@[0] != "remove"@[0]);
        reveal_strlit("মুছো");
        assert("--help"@.len() != "মুছো"@.len());
        reveal_strlit("target");
        assert("--help"@[0] != "target"@[0]);
        reveal_strlit("টার্গেট");
        assert("--help"@.len() != "টার্গেট"@.len());
        reveal_strlit("lex");
        assert("--help"@.len() != "lex"@.len());
        reveal_strlit("version");
        assert("--help"@.len() != "version"@.len());
        reveal_strlit("--version");
        assert("--help"@.len() != "--version"@.len());
        reveal_strlit("-V");
        assert("--help"@.len() != "-V"@.len());
        reveal_strlit("সংস্করণ");
        assert("--help"@.len() != "সংস্করণ"@.len());
    }
    assert(kind_of("-h"@) == CommandKind::Help) by {
        reveal_strlit("-h");
        reveal_strlit("run");
        assert("-h"@.len() != "run"@.len());
        reveal_strlit("চালাও");
        assert("-h"@.len() != "চালাও"@.len());
        reveal_strlit("build");
        assert("-h"@.len() != "build"@.len());
        reveal_strlit("বিল্ড");
        assert("-h"@.len() != "বিল্ড"@.len());
        reveal_strlit("new");
        assert("-h"@.len() != "new"@.len());
        reveal_strlit("নতুন");
        assert("-h"@.len() != "নতুন"@.len());
        reveal_strlit("edit");
        assert("-h"@.len() != "edit"@.len());
        reveal_strlit("পাতা");
        assert("-h"@.len() != "পাতা"@.len());
        reveal_strlit("add");
        assert("-h"@.len() != "add"@.len());
        reveal_strlit("যোগ");
        assert("-h"@.len() != "যোগ"@.len());
        reveal_strlit("install");
        assert("-h"@.len() != "install"@.len());
        reveal_strlit("ইনস্টল");
        assert("-h"@.len() != "ইনস্টল"@.len());
        reveal_strlit("remove");
        assert("-h"@.len() != "remove"@.len());
        reveal_strlit("মুছো");
        assert("-h"@.len() != "মুছো"@.len());
        reveal_strlit("target");
        assert("-h"@.len() != "target"@.len());
        reveal_strlit("টার্গেট");
        assert("-h"@.len() != "টার্গেট"@.len());
        reveal_strlit("lex");
        assert("-h"@.len() != "lex"@.len());
        reveal_strlit("version");
        assert("-h"@.len() != "version"@.len());
        reveal_strlit("--version");
        assert("-h"@.len() != "--version"@.len());
        reveal_strlit("-V");
        assert("-h"@[1] != "-V"@[1]);
        reveal_strlit("সংস্করণ");
        assert("-h"@.len() != "সংস্করণ"@.len());
    }
    assert(kind_of("সাহায্য"@) == CommandKind::Help) by {
        reveal_strlit("সাহায্য");
        reveal_strlit("run");
        assert("সাহায্য"@.len() != "run"@.len());
        reveal_strlit("চালাও");
        assert("সাহায্য"@.len() != "চালাও"@.len());
        reveal_strlit("build");
        assert("সাহায্য"@.len() != "build"@.len());
        reveal_strlit("বিল্ড");
        assert("সাহায্য"@.len() != "বিল্ড"@.len());
        reveal_strlit("new");
        assert("সাহায্য"@.len() != "new"@.len());
        reveal_strlit("নতুন");
        assert("সাহায্য"@.len() != "নতুন"@.len());
        reveal_strlit("edit");
        assert("সাহায্য"@.len() != "edit"@.len());
        reveal_strlit("পাতা");
        assert("সাহায্য"@.len() != "পাতা"@.len());
        reveal_strlit("add");
        assert("সাহায্য"@.len() != "add"@.len());
        reveal_strlit("যোগ");
        assert("সাহায্য"@.len() != "যোগ"@.len());
        reveal_strlit("install");
        assert("সাহায্য"@[0] != "install"@[0]);
        reveal_strlit("ইনস্টল");
        assert("সাহায্য"@.len() != "ইনস্টল"@.len());
        reveal_strlit("remove");
        assert("সাহায্য"@.len() != "remove"@.len());
        reveal_strlit("মুছো");
        assert("সাহায্য"@.len() != "মুছো"@.len());
        reveal_strlit("target");
        assert("সাহায্য"@.len() != "target"@.len());
        reveal_strlit("টার্গেট");
        assert("সাহায্য"@[0] != "টার্গেট"@[0]);
        reveal_strlit("lex");
        assert("সাহায্য"@.len() != "lex"@.len());
        reveal_strlit("version");
        assert("সাহায্য"@[0] != "version"@[0]);
        reveal_strlit("--version");
        assert("সাহায্য"@.len() != "--version"@.len());
        reveal_strlit("-V");
        assert("সাহায্য"@.len() != "-V"@.len());
        reveal_strlit("সংস্করণ");
        assert("সাহায্য"@[1] != "সংস্করণ"@[1]);
    }
}

/// A known subcommand other than `বিল্ড` takes every argument after its
/// word as an operand, whatever they are; `বিল্ড` takes those that are not
/// options, and an unknown word takes none.
pub proof fn law_operands_follow_the_word(rest: Seq<Seq<char>>, k: CommandKind)
    ensures
        k != CommandKind::Build && k != CommandKind::Unknown ==> operands_of(k, rest) == rest,
        k == CommandKind::Unknown ==> operands_of(k, rest).len() == 0,
        k == CommandKind::Build ==> forall|i: int|
            0 <= i < operands_of(k, rest).len() ==> rest.contains(#[trigger] operands_of(k, rest)[i])
                && !is_flag(operands_of(k, rest)[i]),
{
    if k == CommandKind::Build {
        lemma_non_flags(rest);
    }
}

proof fn lemma_non_flags(s: Seq<Seq<char>>)
    ensures
        forall|i: int| 0 <= i < non_flags(s).len() ==> s.contains(#[trigger] non_flags(s)[i]) && !is_flag(non_flags(s)[i]),
    decreases s.len(),
{
    if s.len() > 0 {
        let d = s.drop_last();
        lemma_non_flags(d);
        assert forall|i: int| 0 <= i < non_flags(s).len() implies s.contains(#[trigger] non_flags(s)[i]) && !is_flag(non_flags(s)[i]) by {
            if i < non_flags(d).len() {
                assert(non_flags(s)[i] == non_flags(d)[i]);
                let j = choose|j: int| 0 <= j < d.len() && d[j] == non_flags(d)[i];
                assert(s[j] == d[j]);
            } else {
                assert(s[s.len() - 1] == s.last());
            }
        }
    }
}

fn flag(a: &str) -> (b: bool)
    ensures
        b == is_flag(a@),
{
    let cs = chars_of(a);
    cs.len() >= 2 && cs[0] == '-' && cs[1] == '-'
}

/// Reads the command line (without the program's own name).
pub fn parse_command(args: &Vec<String>) -> (c: Command)
    ensures
        args.len() == 0 ==> c.kind == CommandKind::Unknown,
        args.len() > 0 ==> c.kind == kind_of(args@[0]@),
        strs(c.operands@) == (if args.len() == 0 {
            seq![]
        } else {
            operands_of(kind_of(args@[0]@), strs(args@).skip(1))
        }),
{
    if args.len() == 0 {
        let operands: Vec<String> = Vec::new();
        assert(strs(operands@) =~= seq![]);
        return Command { kind: CommandKind::Unknown, operands };
    }
    let kind = kind_of_word(args[0].as_str());
    let mut operands: Vec<String> = Vec::new();
    if kind == CommandKind::Unknown {
        assert(strs(operands@) =~= seq![]);
        return Command { kind, operands };
    }
    let mut i: usize = 1;
    let ghost rest = strs(args@).skip(1);
    while i < args.len()
        invariant
            1 <= i <= args.len(),
            rest == strs(args@).skip(1),
            kind != CommandKind::Unknown,
            strs(operands@) == operands_of(kind, rest.take(i - 1)),
        decreases args.len() - i,
    {
        let a = &args[i];
        let keep = kind != CommandKind::Build || !flag(a.as_str());
        proof {
            assert(rest.take(i as int).drop_last() =~= rest.take(i - 1));
            assert(rest.take(i as int).last() == args@[i as int]@);
        }
        let ghost before = strs(operands@);
        if keep {
            operands.push(a.clone());
            assert(strs(operands@) =~= before.push(a@));
        }
        i += 1;
    }
    assert(rest.take(args.len() - 1) =~= rest);
    Command { kind, operands }
}

// ---------------------------------------------------------------------------
// `যোগ <নাম> <git-url> --রেফ <tag>`
// ---------------------------------------------------------------------------

pub open spec fn is_ref_flag(a: Seq<char>) -> bool {
    a == "--রেফ"@ || a == "--ref"@
}

/// Reading the arguments of `যোগ` from `i` on, with the reference and the
/// positional arguments seen so far. A `--রেফ` takes the next argument as
/// the reference (none when it is the last), replacing any earlier one.
pub open spec fn add_scan(rest: Seq<Seq<char>>, i: int, reference: Option<Seq<char>>, pos: Seq<Seq<char>>) -> (
    Option<Seq<char>>,
    Seq<Seq<char>>,
)
    decreases rest.len() + 1 - i,
{
    if i < 0 || i >= rest.len() {
        (reference, pos)
    } else if is_ref_flag(rest[i]) {
        add_scan(
            rest,
            i + 2,
            if i + 1 < rest.len() {
                Some(rest[i + 1])
            } else {
                None
            },
            pos,
        )
    } else {
        add_scan(rest, i + 1, reference, pos.push(rest[i]))
    }
}

/// Why `যোগ` refused its arguments.
#[derive(Debug, Clone, Copy, PartialEq, Eq, Structural)]
pub enum AddError {
    /// Fewer than two positional arguments.
    Usage,
    /// No `--রেফ <tag>`.
    MissingRef,
}

impl AddError {
    pub fn message(&self) -> (s: &'static str)
        ensures
            s@ == (match self {
                AddError::Usage => ADD_USAGE@,
                AddError::MissingRef => ADD_NEEDS_REF@,
            }),
    {
        match self {
            AddError::Usage => ADD_USAGE,
            AddError::MissingRef => ADD_NEEDS_REF,
        }
    }
}

/// A dependency to add: its name, its git URL and the tag to pin.
pub struct AddRequest {
    pub name: String,
    pub url: String,
    pub reference: String,
}

/// Reads the arguments of `যোগ`: the first two positional arguments are
/// the name and the URL, and `--রেফ`/`--ref` gives the tag.
pub fn parse_add_args(rest: &Vec<String>) -> (r: Result<AddRequest, AddError>)
    ensures
        ({
            let (reference, pos) = add_scan(strs(rest@), 0, None, seq![]);
            &&& pos.len() < 2 ==> r == Err::<AddRequest, AddError>(AddError::Usage)
            &&& pos.len() >= 2 && reference is None ==> r == Err::<AddRequest, AddError>(AddError::MissingRef)
            &&& pos.len() >= 2 && reference is Some ==> (r matches Ok(q) && q.name@ == pos[0] && q.url@ == pos[1]
                && q.reference@ == reference->0)
        }),
{
    let ghost rs = strs(rest@);
    let mut reference: Option<String> = None;
    let mut positional: Vec<String> = Vec::new();
    let mut i: usize = 0;
    assert(strs(positional@) =~= seq![]);
    while i < rest.len()
        invariant
            rs == strs(rest@),
            i <= rest.len(),
            add_scan(rs, i as int, match reference {
                Some(s) => Some(s@),
                None => None,
            }, strs(positional@)) == add_scan(rs, 0, None, seq![]),
        decreases rest.len() - i,
    {
        let a = rest[i].as_str();
        assert(rs[i as int] == a@);
        if str_is(a, "--রেফ") || str_is(a, "--ref") {
            if i + 1 < rest.len() {
                assert(rs[i + 1] == rest@[i + 1]@);
                reference = Some(rest[i + 1].clone());
                i = i + 2;
            } else {
                reference = None;
                assert(add_scan(rs, i + 2, None, strs(positional@)) == (None::<Seq<char>>, strs(positional@)));
                i = rest.len();
            }
        } else {
            let ghost before = strs(positional@);
            positional.push(rest[i].clone());
            assert(strs(positional@) =~= before.push(rs[i as int]));
            i += 1;
        }
    }
    assert(strs(positional@).len() == positional.len());
    if positional.len() < 2 {
        return Err(AddError::Usage);
    }
    match reference {
        None => Err(AddError::MissingRef),
        Some(reference) => Ok(AddRequest { name: positional[0].clone(), url: positional[1].clone(), reference }),
    }
}

// ---------------------------------------------------------------------------
// `নতুন <নাম>`
// ---------------------------------------------------------------------------

/// The name of a new project: the argument without surrounding white
/// space, when that leaves something.
pub fn project_name(arg: Option<&str>) -> (r: Option<String>)
    ensures
        match arg {
            Some(a) => if trimmed(a@).len() > 0 {
                r matches Some(n) && n@ == trimmed(a@)
            } else {
                r is None
            },
            None => r is None,
        },
{
    match arg {
        Some(a) => {
            let t = trim(a);
            if t.as_str().unicode_len() > 0 {
                Some(t)
            } else {
                None
            }
        },
        None => None,
    }
}

/// The `main.ক` of a new project named `name`: an app that greets.
pub open spec fn starter_source(name: Seq<char>) -> Seq<char> {
    APP_OPEN@ + name + APP_GREETING@ + name + APP_CLOSE@
}

pub fn new_project_source(name: &str) -> (s: String)
    ensures
        s@ == starter_source(name@),
{
    let mut s = APP_OPEN.to_owned();
    push_str(&mut s, name);
    push_str(&mut s, APP_GREETING);
    push_str(&mut s, name);
    push_str(&mut s, APP_CLOSE);
    s
}

// ---------------------------------------------------------------------------
// Diagnostics under their source line
// ---------------------------------------------------------------------------

/// `n` spaces.
pub open spec fn spaces(n: int) -> Seq<char> {
    Seq::new(if n > 0 { n as nat } else { 0 }, |i: int| ' ')
}

/// One diagnostic as shown: the error report, and when its line exists,
/// that line indented by two spaces with a caret under the column.
pub open spec fn diag_block(prefix: Seq<char>, file: Seq<char>, lines: Seq<Seq<char>>, d: Diagnostic) -> Seq<char> {
    let head = error_text(prefix, file, d.line as nat, d.col as nat, d.message@) + seq!['\n'];
    if 1 <= d.line <= lines.len() {
        head + seq!['\n', ' ', ' '] + lines[d.line - 1] + seq!['\n', ' ', ' '] + spaces(d.col - 1) + seq!['^', '\n']
    } else {
        head
    }
}

pub open spec fn diag_blocks(prefix: Seq<char>, file: Seq<char>, lines: Seq<Seq<char>>, ds: Seq<Diagnostic>) -> Seq<char>
    decreases ds.len(),
{
    if ds.len() == 0 {
        seq![]
    } else {
        diag_blocks(prefix, file, lines, ds.drop_last()) + diag_block(prefix, file, lines, ds.last())
    }
}

fn push_diag(out: &mut String, prefix: &str, file: &str, lines: &Vec<String>, d: &Diagnostic)
    ensures
        final(out)@ == old(out)@ + diag_block(prefix@, file@, lines@.map_values(|l: String| l@), *d),
{
    let ghost ls = lines@.map_values(|l: String| l@);
    let ghost before = out@;
    let e = format_error(prefix, file, d.line, d.col, d.message.as_str());
    push_str(out, e.as_str());
    push_char(out, '\n');
    if d.line >= 1 && ((d.line - 1) as usize) < lines.len() {
        let li = (d.line - 1) as usize;
        push_char(out, '\n');
        push_char(out, ' ');
        push_char(out, ' ');
        push_str(out, lines[li].as_str());
        push_char(out, '\n');
        push_char(out, ' ');
        push_char(out, ' ');
        let ghost mid = out@;
        let pad: u32 = if d.col >= 1 {
            d.col - 1
        } else {
            0
        };
        let mut p: u32 = 0;
        while p < pad
            invariant
                p <= pad,
                out@ == mid + spaces(p as int),
            decreases pad - p,
        {
            push_char(out, ' ');
            assert(spaces(p + 1) =~= spaces(p as int).push(' '));
            p += 1;
        }
        push_char(out, '^');
        push_char(out, '\n');
        assert(spaces(pad as int) =~= spaces(d.col - 1));
        assert(ls[li as int] == lines@[li as int]@);
        assert(out@ =~= before + diag_block(prefix@, file@, ls, *d));
    } else {
        assert(out@ =~= before + diag_block(prefix@, file@, ls, *d));
    }
}

/// The diagnostics of a source text as they are written to standard error.
pub fn render_diags(prefix: &str, file: &str, src: &str, diags: &Vec<Diagnostic>) -> (s: String)
    ensures
        s@ == diag_blocks(prefix@, file@, lines_from(src@, 0), diags@),
{
    let lines = split_lines(src);
    let ghost ls = lines@.map_values(|l: String| l@);
    let mut out = String::new();
    let mut k: usize = 0;
    while k < diags.len()
        invariant
            k <= diags.len(),
            ls == lines@.map_values(|l: String| l@),
            ls == lines_from(src@, 0),
            out@ == diag_blocks(prefix@, file@, ls, diags@.take(k as int)),
        decreases diags.len() - k,
    {
        let d = &diags[k];
        let ghost before = out@;
        push_diag(&mut out, prefix, file, &lines, d);
        proof {
            assert(diags@.take(k as int + 1).drop_last() =~= diags@.take(k as int));
            assert(diags@.take(k as int + 1).last() == *d);
            assert(out@ =~= before + diag_block(prefix@, file@, ls, *d));
        }
        k += 1;
    }
    assert(diags@.take(diags.len() as int) =~= diags@);
    out
}

// ---------------------------------------------------------------------------
// File names in messages
// ---------------------------------------------------------------------------

/// A path that every platform splits into components alike: it holds no
/// `\` and no `:`, and does not start with `//`.
pub open spec fn plain_path(p: Seq<char>) -> bool {
    &&& !p.contains('\\')
    &&& !p.contains(':')
    &&& !(p.len() >= 2 && p[0] == '/' && p[1] == '/')
}

/// `p` without its trailing `/` and its trailing `.` components.
pub open spec fn path_trimmed(p: Seq<char>) -> Seq<char>
    decreases p.len(),
{
    if p.len() == 0 {
        p
    } else if p.last() == '/' {
        path_trimmed(p.drop_last())
    } else if p.last() == '.' && (p.len() == 1 || p[p.len() - 2] == '/') {
        path_trimmed(p.drop_last())
    } else {
        p
    }
}

/// The text after the last `/` of `p`, or all of `p` when it has none.
pub open spec fn after_last_slash(p: Seq<char>) -> Seq<char>
    decreases p.len(),
{
    if p.len() == 0 {
        p
    } else if p.last() == '/' {
        seq![]
    } else {
        after_last_slash(p.drop_last()).push(p.last())
    }
}

/// The last component of a plain path: what follows its last `/` once
/// trailing `/` and `.` components are dropped.
pub open spec fn final_component(p: Seq<char>) -> Seq<char> {
    after_last_slash(path_trimmed(p))
}

/// Whether the last component of a plain path names a file or directory:
/// it is there and is not `..`.
pub open spec fn names_an_entry(p: Seq<char>) -> bool {
    final_component(p).len() > 0 && final_component(p) != seq!['.', '.']
}

/// A nonempty stretch of `path` without `/`.
pub open spec fn part_of(name: Seq<char>, path: Seq<char>) -> bool {
    &&& name.len() > 0
    &&& !name.contains('/')
    &&& exists|i: int| 0 <= i && i + name.len() <= path.len() && #[trigger] path.subrange(i, i + name.len()) == name
}

/// `Path::file_name`, its result as text: the final component of the path
/// `file`, if there is one. Of a plain path it is the last component when
/// that names an entry, and there is none when the path is empty, a root,
/// `.` or ends in `..`. Of any path, a component is a nonempty stretch of
/// its text without `/`. How paths with `\`, `:` or a leading `//` split
/// is left unsaid: Windows reads prefixes and separators there.
#[verifier::external_body]
pub(crate) fn path_file_name(file: &str) -> (r: Option<String>)
    ensures
        r matches Some(n) ==> part_of(n@, file@),
        plain_path(file@) ==> (r is Some <==> names_an_entry(file@)),
        plain_path(file@) ==> (r matches Some(n) ==> n@ == final_component(file@)),
{
    match std::path::Path::new(file).file_name() {
        Some(n) => Some(n.to_string_lossy().into_owned()),
        None => None,
    }
}

/// The name a file is reported under: its final path component, or the
/// whole path when it has none.
pub fn display_file_name(file: &str) -> (r: String)
    ensures
        r@ == file@ || part_of(r@, file@),
        plain_path(file@) ==> r@ == (if names_an_entry(file@) { final_component(file@) } else { file@ }),
{
    match path_file_name(file) {
        Some(n) => n,
        None => file.to_owned(),
    }
}

} // verus!
