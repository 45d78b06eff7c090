use kolom::calendar::{civil_from_days, civil_of_ms, date_time_text, time_of_day};
use kolom::json::{json_escape, json_num_field, json_string_field, json_valid};
use kolom::sorting::{sort_ints, sort_texts, text_le_exec};
use kolom::numlib::{int_abs, int_arith, int_max, int_min, ArithError, ArithOp, Rng, FALLBACK_SEED, SEED_MIX};
use kolom::strlib::{
    char_at, element_at, ends_with, find, int_to_text, join, replace, slice, split, starts_with, to_lower, to_upper, trim, TextError,
};

#[test]
fn json_validator_accepts_json_and_refuses_the_rest() {
    assert!(json_valid("{\"a\": [1, 2.5e3, -4], \"b\": {\"c\": null}, \"d\": true}"));
    assert!(json_valid("  \"x\"  "));
    assert!(json_valid("[]"));
    assert!(json_valid("{}"));
    assert!(!json_valid(""));
    assert!(!json_valid("{\"a\" 1}"));
    assert!(!json_valid("[1,]"));
    assert!(!json_valid("[1] 2"));
    assert!(!json_valid("\"\\u12\""));
    assert!(!json_valid("\"\\ud800\""));
    assert!(!json_valid("tru"));
}

#[test]
fn json_escape_quotes_and_escapes() {
    assert_eq!(json_escape("a\"b\\c\nd\te\r\u{1}"), "\"a\\\"b\\\\c\\nd\\te\\r\\u0001\"");
    assert_eq!(json_escape("কলম"), "\"কলম\"");
    assert_eq!(json_escape("\u{1f}"), "\"\\u001f\"");
}

#[test]
fn escaped_text_is_valid_json_and_reads_back() {
    for s in ["", "plain", "কলম \"উদ্ধৃতি\" \\ \n\t\r\u{0}\u{1b}"] {
        let e = json_escape(s);
        assert!(json_valid(&e), "{e}");
        let doc = format!("{{\"k\": {}}}", e);
        assert_eq!(json_string_field(&doc, "k").as_deref(), Some(s));
    }
}

#[test]
fn fields_are_read_without_a_full_parse() {
    let doc = "{\"নাম\": \"কলম\", \"সংখ্যা\": -42, \"বড়\": 99999999999999999999, \"x\": 1.5}";
    assert_eq!(json_string_field(doc, "নাম").as_deref(), Some("কলম"));
    assert_eq!(json_num_field(doc, "সংখ্যা"), Some(-42));
    assert_eq!(json_num_field(doc, "বড়"), None);
    assert_eq!(json_num_field(doc, "x"), None);
    assert_eq!(json_num_field(doc, "নেই"), None);
    assert_eq!(json_string_field(doc, "সংখ্যা"), None);
    assert_eq!(json_num_field("{\"n\":+7}", "n"), Some(7));
    assert_eq!(json_string_field("{\"s\": \"a\\u0041\\n\"}", "s").as_deref(), Some("aA\n"));
}

#[test]
fn text_case_trim_and_tests() {
    assert_eq!(to_upper("abcক"), "ABCক");
    assert_eq!(to_lower("ABCক"), "abcক");
    assert_eq!(trim("  \t কলম \n"), "কলম");
    assert_eq!(trim(" \n "), "");
    assert!(starts_with("কলম", "ক"));
    assert!(!starts_with("ক", "কলম"));
    assert!(ends_with("কলম", "লম"));
    assert!(!ends_with("কলম", "ক"));
}

#[test]
fn split_join_replace() {
    assert_eq!(split("a,b,,c", ","), Ok(vec!["a".to_string(), "b".into(), "".into(), "c".into()]));
    assert_eq!(split("abc", ""), Err(TextError::EmptySeparator));
    assert_eq!(split("", ","), Ok(vec!["".to_string()]));
    let parts = split("এক::দুই::তিন", "::").unwrap();
    assert_eq!(join(&parts, "::"), "এক::দুই::তিন");
    assert_eq!(join(&Vec::new(), "-"), "");
    assert_eq!(replace("aaa", "aa", "b"), Ok("ba".to_string()));
    assert_eq!(replace("কলম কলম", "কলম", "পাতা"), Ok("পাতা পাতা".to_string()));
    assert_eq!(replace("x", "", "y"), Err(TextError::EmptyPattern));
    assert_eq!(TextError::EmptySeparator.message(), "খালি বিভাজক দেওয়া যাবে না");
}

#[test]
fn find_counts_characters_and_slice_clamps() {
    assert_eq!(find("কলম পাতা", "পাতা"), Some(4));
    assert_eq!(find("abc", "x"), None);
    assert_eq!(find("abc", ""), Some(0));
    assert_eq!(slice("কলমপাতা", 3, 2), "পা");
    assert_eq!(slice("abc", -5, 2), "ab");
    assert_eq!(slice("abc", 2, 100), "c");
    assert_eq!(slice("abc", 9, 1), "");
    assert_eq!(slice("abc", 1, -1), "");
}

#[test]
fn integer_arithmetic_is_exact_or_refused() {
    assert_eq!(int_arith(ArithOp::Add, 2, 3), Ok(5));
    assert_eq!(int_arith(ArithOp::Sub, i64::MIN, 1), Err(ArithError::Overflow));
    assert_eq!(int_arith(ArithOp::Mul, i64::MAX, 2), Err(ArithError::Overflow));
    assert_eq!(int_arith(ArithOp::Div, -7, 2), Ok(-3));
    assert_eq!(int_arith(ArithOp::Mod, -7, 2), Ok(-1));
    assert_eq!(int_arith(ArithOp::Mod, 7, -2), Ok(1));
    assert_eq!(int_arith(ArithOp::Div, 1, 0), Err(ArithError::DivByZero));
    assert_eq!(int_arith(ArithOp::Mod, 1, 0), Err(ArithError::ModByZero));
    assert_eq!(int_arith(ArithOp::Div, i64::MIN, -1), Err(ArithError::Overflow));
    assert_eq!(int_arith(ArithOp::Mod, i64::MIN, -1), Err(ArithError::Overflow));
    assert_eq!(ArithError::DivByZero.message(), "শূন্য দিয়ে ভাগ করা যাবে না");
}

#[test]
fn the_generator_is_a_fixed_sequence_from_a_seed() {
    let mut g = Rng { state: 0 };
    g.seed(42);
    assert_eq!(g.state, 42 ^ SEED_MIX);
    let expected = (42u64 ^ SEED_MIX).wrapping_mul(6364136223846793005).wrapping_add(1442695040888963407);
    assert_eq!(g.next(), expected >> 33);
    assert_eq!(g.state, expected);
    let mut h = Rng { state: 0 };
    h.seed(42);
    h.next();
    assert_eq!(g.next(), h.next());
    assert_eq!(Rng::from_clock(None).state, SEED_MIX ^ FALLBACK_SEED);
    assert_eq!(Rng::from_clock(Some(5)).state, SEED_MIX ^ 5);
}

#[test]
fn draws_between_bounds_stay_inside() {
    let mut g = Rng { state: 7 };
    for _ in 0..200 {
        let v = g.between(-3, 3).unwrap();
        assert!((-3..=3).contains(&v));
    }
    assert!(g.between(5, 4).is_err());
    assert_eq!(g.between(9, 9), Ok(9));
    assert!(g.next_millionths() < 1_000_000);
}

#[test]
fn days_become_dates() {
    assert_eq!(civil_from_days(0), (1970, 1, 1));
    assert_eq!(civil_from_days(-1), (1969, 12, 31));
    assert_eq!(civil_from_days(19723), (2024, 1, 1));
    assert_eq!(civil_from_days(19782), (2024, 2, 29));
    assert_eq!(civil_from_days(-719468), (0, 3, 1));
    assert_eq!(civil_from_days(11016), (2000, 2, 29));
}

#[test]
fn moments_become_dates_and_times() {
    assert_eq!(civil_of_ms(86_400_000 - 1), (1970, 1, 1));
    assert_eq!(civil_of_ms(-1), (1969, 12, 31));
    assert_eq!(time_of_day(3_723_000), (1, 2, 3));
    assert_eq!(time_of_day(-1_000), (23, 59, 59));
    assert_eq!(date_time_text(1_704_067_200_000 + 3_723_000), "2024-01-01 01:02:03");
    assert_eq!(date_time_text(0), "1970-01-01 00:00:00");
    assert_eq!(date_time_text(-62_167_219_200_000), "0000-01-01 00:00:00");
    assert_eq!(date_time_text(-62_198_755_200_000), "-001-01-01 00:00:00");
}

#[test]
fn sorting_orders_integers_and_texts() {
    assert_eq!(sort_ints(&vec![3, -1, 2, -1, i64::MAX, i64::MIN]), vec![i64::MIN, -1, -1, 2, 3, i64::MAX]);
    assert_eq!(sort_ints(&Vec::new()), Vec::<i64>::new());
    let v: Vec<String> = ["খ", "ক", "কখ", "b", "a", "B", ""].iter().map(|s| s.to_string()).collect();
    let mut expected = v.clone();
    expected.sort();
    assert_eq!(sort_texts(&v), expected);
    assert!(text_le_exec("ক", "কখ"));
    assert!(!text_le_exec("খ", "কখ"));
    assert!(text_le_exec("", ""));
}

#[test]
fn characters_by_position_and_numbers_as_text() {
    assert_eq!(char_at("কলম", 1), Ok('ল'));
    assert_eq!(char_at("কলম", 3), Err("ইনডেক্স ৩ সীমার বাইরে (দৈর্ঘ্য ৩)".to_string()));
    assert_eq!(char_at("ক", -1), Err("ইনডেক্স ৪২৯৪৯৬৭২৯৫ সীমার বাইরে (দৈর্ঘ্য ১)".to_string()));
    assert_eq!(int_to_text(0), "0");
    assert_eq!(int_to_text(-42), "-42");
    assert_eq!(int_to_text(i64::MIN), i64::MIN.to_string());
    assert_eq!(int_to_text(i64::MAX), i64::MAX.to_string());
}

#[test]
fn array_index_inside_and_outside() {
    let v = vec![10i64, 20, 30];
    assert_eq!(element_at(&v, 2), Ok(&30));
    assert_eq!(element_at(&v, 3), Err("ইনডেক্স ৩ সীমার বাইরে (দৈর্ঘ্য ৩)".to_string()));
    assert_eq!(element_at(&v, -1), Err("ইনডেক্স ৪২৯৪৯৬৭২৯৫ সীমার বাইরে (দৈর্ঘ্য ৩)".to_string()));
    let empty: Vec<i64> = Vec::new();
    assert_eq!(element_at(&empty, 0), Err("ইনডেক্স ০ সীমার বাইরে (দৈর্ঘ্য ০)".to_string()));
}

#[test]
fn integer_absolute_value_minimum_and_maximum() {
    assert_eq!(int_abs(-5), 5);
    assert_eq!(int_abs(7), 7);
    assert_eq!(int_abs(i64::MAX), i64::MAX);
    assert_eq!(int_abs(-i64::MAX), i64::MAX);
    assert_eq!(int_min(3, -4), -4);
    assert_eq!(int_max(3, -4), 3);
    assert_eq!(int_min(i64::MIN, i64::MAX), i64::MIN);
    assert_eq!(int_max(2, 2), 2);
}
