use kolom::lexer::{bn_num, format_error, lex, word_token, NumTok, Token, TokenKind, KEYWORDS};
use kolom::messages::{MIXED_DIGITS, NUMBER_RANGE, OPEN_AT_END, QUOTE, STRING_UNCLOSED};
use unicode_normalization::UnicodeNormalization;

const PAIRS: &[(&str, &str)] = &[
    ("\u{09DF}", "\u{09AF}\u{09BC}"),
    ("\u{09DC}", "\u{09A1}\u{09BC}"),
    ("\u{09DD}", "\u{09A2}\u{09BC}"),
];

fn precompose(s: &str) -> String {
    let mut out = s.to_string();
    for (pre, decomp) in PAIRS {
        out = out.replace(decomp, pre);
    }
    out
}

fn kinds(ts: &[Token]) -> Vec<TokenKind> {
    ts.iter().map(|t| t.kind.clone()).collect()
}

#[test]
fn keyword_table_is_nfc() {
    for kw in KEYWORDS.iter() {
        let nfc: String = kw.nfc().collect();
        assert_eq!(nfc, **kw, "keyword {kw:?} is not NFC");
    }
}

#[test]
fn affected_keywords_are_recognized_either_way() {
    for kw in ["শেয়ার", "ডায়ালগ"] {
        let precomposed = precompose(kw);
        assert_ne!(precomposed, kw, "{kw} should differ once precomposed");
        let (toks, errs) = lex(&precomposed);
        assert!(errs.is_empty(), "{kw}: lex errors: {errs:?}");
        assert!(
            matches!(toks.first().map(|t| &t.kind), Some(TokenKind::Kw(k)) if *k == kw),
            "{kw}: precomposed spelling did not lex as the keyword, got {:?}",
            toks.first().map(|t| &t.kind)
        );
    }
}

#[test]
fn precomposed_source_lexes_identically() {
    let decomposed = "ধরি ক : শেয়ার সংখ্যা = শেয়ার_করো(১০)";
    let precomposed = precompose(decomposed);
    assert_ne!(precomposed, decomposed, "the two spellings should differ in bytes");
    let (a, ea) = lex(decomposed);
    let (b, eb) = lex(&precomposed);
    assert!(ea.is_empty() && eb.is_empty(), "lex errors: {ea:?} / {eb:?}");
    assert_eq!(kinds(&a), kinds(&b), "token streams differ between spellings");
}

#[test]
fn string_literals_are_left_alone() {
    let precomposed = format!("\"{}\"", precompose("যায়নি"));
    let (toks, errs) = lex(&precomposed);
    assert!(errs.is_empty(), "lex errors: {errs:?}");
    match toks.first().map(|t| &t.kind) {
        Some(TokenKind::Str(s)) => assert!(s.contains('\u{09DF}'), "rewritten: {s:?}"),
        other => panic!("expected a string literal, got {other:?}"),
    }
}

#[test]
fn bengali_and_ascii_numerals_lex_the_same() {
    let (a, ea) = lex("২৫");
    let (b, eb) = lex("25");
    assert_eq!(a, b);
    assert!(ea.is_empty() && eb.is_empty());
    assert_eq!(a[0].kind, TokenKind::Num(NumTok::Int(25)));
}

#[test]
fn a_fraction_keeps_its_ascii_spelling() {
    let (a, ea) = lex("৩.৫");
    assert!(ea.is_empty());
    assert_eq!(a[0].kind, TokenKind::Num(NumTok::Float("3.5".to_string())));
}

#[test]
fn mixed_digits_are_refused() {
    let (_, errs) = lex("২5");
    assert_eq!(errs.len(), 1);
    assert_eq!(errs[0].message, MIXED_DIGITS);
    assert_eq!((errs[0].line, errs[0].col), (1, 1));
}

#[test]
fn a_number_past_i64_is_refused() {
    let (toks, errs) = lex("9223372036854775808");
    assert!(toks.is_empty());
    assert_eq!(errs[0].message, NUMBER_RANGE);
    let (toks, errs) = lex("9223372036854775807");
    assert!(errs.is_empty());
    assert_eq!(toks[0].kind, TokenKind::Num(NumTok::Int(i64::MAX)));
}

#[test]
fn tokens_carry_line_and_column() {
    let (toks, errs) = lex("ধরি ক = ১০\nলেখো(ক)");
    assert!(errs.is_empty());
    assert_eq!(toks[0].kind, TokenKind::Kw("ধরি"));
    assert_eq!((toks[0].line, toks[0].col), (1, 1));
    assert_eq!(toks[1].kind, TokenKind::Ident("ক".to_string()));
    assert_eq!((toks[1].line, toks[1].col), (1, 5));
    assert_eq!(toks[2].kind, TokenKind::Op("="));
    assert_eq!(toks[3].kind, TokenKind::Num(NumTok::Int(10)));
    assert_eq!(toks[4].kind, TokenKind::Newline);
    assert_eq!((toks[5].line, toks[5].col), (2, 1));
}

#[test]
fn a_line_break_inside_brackets_is_not_a_token() {
    let (toks, errs) = lex("(\n)");
    assert!(errs.is_empty());
    assert_eq!(kinds(&toks), vec![TokenKind::Op("("), TokenKind::Op(")")]);
}

#[test]
fn an_unclosed_bracket_is_reported_at_the_end() {
    let (_, errs) = lex("(ক");
    assert_eq!(errs.len(), 1);
    assert_eq!(errs[0].message, format!("{QUOTE}({OPEN_AT_END}"));
    assert_eq!((errs[0].line, errs[0].col), (1, 1));
}

#[test]
fn string_escapes_are_decoded() {
    let (toks, errs) = lex("\"a\\nb\\u{9A8}\"");
    assert!(errs.is_empty(), "{errs:?}");
    assert_eq!(toks[0].kind, TokenKind::Str("a\nbন".to_string()));
}

#[test]
fn an_unclosed_string_is_reported() {
    let (_, errs) = lex("\"abc");
    assert_eq!(errs[0].message, STRING_UNCLOSED);
}

#[test]
fn two_char_operators_and_comments() {
    let (toks, errs) = lex("a == b // note\nc != d /* x */");
    assert!(errs.is_empty(), "{errs:?}");
    assert_eq!(toks[1].kind, TokenKind::Op("=="));
    assert_eq!(toks[3].kind, TokenKind::Newline);
    assert_eq!(toks[5].kind, TokenKind::Op("!="));
    assert_eq!(toks.len(), 7);
}

#[test]
fn bn_num_writes_bengali_digits() {
    assert_eq!(bn_num(0), "০");
    assert_eq!(bn_num(1234567890), "১২৩৪৫৬৭৮৯০");
}

#[test]
fn format_error_names_file_line_and_column() {
    assert_eq!(format_error("ত্রুটি", "main.ক", 3, 12, "বার্তা"), "ত্রুটি: main.ক:৩:১২\n\nবার্তা");
}

#[test]
fn words_become_keywords_or_identifiers() {
    assert_eq!(word_token("ধরি".to_string()), TokenKind::Kw("ধরি"));
    assert_eq!(word_token("ফাংশন".to_string()), TokenKind::Kw("ফাংশন"));
    assert_eq!(word_token("নাম".to_string()), TokenKind::Ident("নাম".to_string()));
}

#[test]
fn token_positions_start_at_one_and_ascend() {
    let (toks, diags) = lex("ধরি ক = \"x\\ty\" + ২\n  (খ /* c\n */ ! '৩')");
    assert!(!toks.is_empty());
    for w in toks.windows(2) {
        assert!((w[0].line, w[0].col) <= (w[1].line, w[1].col));
    }
    assert!(toks.iter().all(|t| t.line >= 1 && t.col >= 1));
    assert!(diags.iter().all(|d| d.line >= 1 && d.col >= 1));
    assert_eq!(bn_num(2024), "২০২৪");
    assert_eq!(bn_num(0), "০");
}
