//! The messages shown to the person using kolom. Where a lexer message
//! names a character, the constant holds the text before it and `QUOTE`
//! closes it; where another message takes a value, the constants hold the
//! text around it.

use vstd::prelude::*;

verus! {

pub const COMMENT_UNCLOSED: &'static str = "কমেন্ট বন্ধ হয়নি — '*/' পাওয়া যায়নি";
pub const ESCAPE_INCOMPLETE: &'static str = "এস্কেপ সিকোয়েন্স অসম্পূর্ণ — লিটারেল বন্ধ হয়নি";
pub const ESCAPE_UNKNOWN: &'static str = "অজানা এস্কেপ সিকোয়েন্স '\\";
pub const U_ESCAPE_BRACE: &'static str = "'\\u'-এর পরে '{' প্রত্যাশিত";
pub const U_ESCAPE_INVALID: &'static str = "অবৈধ \\u{...} এস্কেপ সিকোয়েন্স";
pub const U_ESCAPE_SCALAR: &'static str = "\\u{...}-এ অবৈধ ইউনিকোড স্কেলার ভ্যালু";
pub const STRING_UNCLOSED: &'static str = "লেখা লিটারেল বন্ধ হয়নি — '\"' পাওয়া যায়নি";
pub const STRING_NEWLINE: &'static str = "লেখা লিটারেলে সরাসরি নিউলাইন আসতে পারে না — '\\n' ব্যবহার করুন";
pub const CHAR_UNCLOSED: &'static str = "ক্যারেক্টার লিটারেল বন্ধ হয়নি";
pub const CHAR_NEWLINE: &'static str = "ক্যারেক্টার লিটারেলে নিউলাইন আসতে পারে না";
pub const CHAR_ONE: &'static str = "ক্যারেক্টার লিটারেলে ঠিক একটি ক্যারেক্টার থাকতে হবে";
pub const CHAR_QUOTE_MISSING: &'static str = "ক্যারেক্টার লিটারেল বন্ধ হয়নি — \"'\" পাওয়া যায়নি";
pub const MIXED_DIGITS: &'static str = "একটি সংখ্যা লিটারেলে বাংলা ও ইংরেজি অঙ্ক মেশানো যাবে না";
pub const NUMBER_RANGE: &'static str = "সংখ্যাটি 'সংখ্যা' টাইপের সীমার বাইরে";
pub const BANG: &'static str = "অপ্রত্যাশিত ক্যারেক্টর '!' — অসমতা চিহ্ন '!='";
pub const MISMATCH: &'static str = "অমিল বন্ধকরণ '";
pub const UNEXPECTED: &'static str = "অপ্রত্যাশিত ক্যারেক্টর '";
pub const OPEN_AT_END: &'static str = "' খোলা অবস্থায় ফাইল শেষ — বন্ধ হয়নি";
pub const QUOTE: &'static str = "'";

pub const EMPTY_SEPARATOR: &'static str = "খালি বিভাজক দেওয়া যাবে না";
pub const EMPTY_PATTERN: &'static str = "খালি অনুসন্ধান-লেখা দেওয়া যাবে না";
pub const INT_OVERFLOW: &'static str = "পূর্ণসংখ্যা ওভারফ্লো";
pub const DIV_BY_ZERO: &'static str = "শূন্য দিয়ে ভাগ করা যাবে না";
pub const MOD_BY_ZERO: &'static str = "শূন্য দিয়ে ভাগ (মডুলো) করা যাবে না";
pub const RANGE_INVERTED: &'static str = "'মধ্যে'-তে নিম্নসীমা উচ্চসীমার বেশি";

pub const NDK_LINKER_MISSING: &'static str = "NDK-এর 'ld.lld' পাওয়া যায়নি — ANDROID_NDK_HOME ঠিক আছে কিনা দেখো";
pub const LINKER_MISSING: &'static str = "লিংকার পাওয়া যায়নি — kolom sysroot-এ 'bin/rust-lld' রাখো,                  অথবা Rust টুলচেইন ইনস্টল করো (KOLOM_SYSROOT দিয়ে পথ বদলানো যায়)";
pub const MINGW_MISSING: &'static str = "MinGW-w64 লাইব্রেরি পাওয়া যায়নি — kolom sysroot-এ 'lib/' ফোল্ডারে রাখো, অথবা MinGW-w64 ইনস্টল করো (MINGW64_ROOT দিয়ে পথ দেওয়া যায়)";
pub const NDK_MISSING: &'static str = "Android NDK পাওয়া যায়নি — ANDROID_NDK_HOME (বা ANDROID_HOME/ANDROID_SDK_ROOT) সেট করো";
pub const CRT2_MISSING: &'static str = "MinGW-এর 'crt2.o' পাওয়া যায়নি — sysroot/lib অসম্পূর্ণ";
pub const CRT1_MISSING: &'static str = "musl-এর 'crt1.o' পাওয়া যায়নি — sysroot/lib অসম্পূর্ণ";
pub const CRTBEGIN_STATIC_MISSING: &'static str = "NDK-এর 'crtbegin_static.o' পাওয়া যায়নি — sysroot অসম্পূর্ণ বা ANDROID_NDK_HOME ভুল";
pub const RUNTIME_MISSING_OPEN: &'static str = "'";
pub const RUNTIME_MISSING_BUILD: &'static str = "' টার্গেটের কলম রানটাইম পাওয়া যায়নি — বিল্ড করো:\n                     cargo build --release -p kolom-runtime --target ";
pub const MUSL_MISSING: &'static str = "musl লাইব্রেরি পাওয়া যায়নি — যোগ করো:\n    rustup target add ";
pub const LINK_FAILED_CODE: &'static str = "লিংক ব্যর্থ (কোড ";
pub const LINK_FAILED_OUTPUT: &'static str = "):\n";
pub const LINKER_START_OPEN: &'static str = "লিংকার '";
pub const LINKER_START_FAILED: &'static str = "' চালানো যায়নি: ";


pub const ADD_USAGE: &'static str = "ব্যবহার: kolom যোগ <নাম> <git-url> --রেফ <tag>";
pub const ADD_NEEDS_REF: &'static str = "ত্রুটি: --রেফ <tag> দিতে হবে (যেমন: --রেফ v1.0.0)";
pub const APP_OPEN: &'static str = "অ্যাপ ";
pub const APP_GREETING: &'static str = " {\n\n    লেখো(\"হ্যালো, ";
pub const APP_CLOSE: &'static str = "!\")\n\n}\n";

pub const KEYS_HINT: &'static str = "  [^S সেভ ^R চালাও ^Q প্রস্থান]";
pub const NO_ERRORS: &'static str = " — ত্রুটি নেই";

pub const INDEX_OPEN: &'static str = "ইনডেক্স ";
pub const INDEX_OUT: &'static str = " সীমার বাইরে (দৈর্ঘ্য ";

} // verus!
