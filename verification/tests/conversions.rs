use poprako_repo::error::{BaseError, ExpectedVariant};
use poprako_repo::numeric::{i32_from_usize, search_fetch_count, u32_from_i64, usize_from_i32};
use poprako_repo::pattern::{escape_ilike_pattern, fuzzy_pattern, str_eq};

fn unrecoverable_message(error: BaseError) -> String {
    match error {
        BaseError::Unrecoverable { message } => message,
        other => panic!("unexpected error {:?}", other),
    }
}

#[test]
fn usize_from_i32_accepts_non_negative_values() {
    assert_eq!(usize_from_i32(0, "t.f").unwrap(), 0);
    assert_eq!(usize_from_i32(i32::MAX, "t.f").unwrap(), i32::MAX as usize);
    assert_eq!(
        unrecoverable_message(usize_from_i32(-1, "t_page.f_index").unwrap_err()),
        "database field t_page.f_index must be non-negative"
    );
}

#[test]
fn i32_from_usize_rejects_overflow() {
    assert_eq!(i32_from_usize(42, "t.f").unwrap(), 42);
    assert_eq!(
        unrecoverable_message(i32_from_usize(i32::MAX as usize + 1, "t.f").unwrap_err()),
        "database field t.f exceeds INTEGER range"
    );
}

#[test]
fn u32_from_i64_checks_both_bounds() {
    assert_eq!(u32_from_i64(7, "mask").unwrap(), 7);
    assert_eq!(u32_from_i64(u32::MAX as i64, "mask").unwrap(), u32::MAX);
    assert_eq!(
        unrecoverable_message(u32_from_i64(-3, "mask").unwrap_err()),
        "database field mask must fit u32"
    );
    assert!(u32_from_i64(u32::MAX as i64 + 1, "mask").is_err());
}

#[test]
fn integer_round_trip_keeps_value() {
    for value in [0, 1, 1000, i32::MAX] {
        let business = usize_from_i32(value, "f").unwrap();
        assert_eq!(i32_from_usize(business, "f").unwrap(), value);
    }
}

#[test]
fn search_fetch_count_fits_bigint() {
    assert_eq!(search_fetch_count(25).unwrap(), 25);
    if usize::BITS >= 64 {
        assert_eq!(
            unrecoverable_message(search_fetch_count(usize::MAX).unwrap_err()),
            "Unit search fetch count exceeds BIGINT"
        );
    }
}

#[test]
fn escape_ilike_pattern_escapes_wildcards() {
    assert_eq!(escape_ilike_pattern("plain"), "plain");
    assert_eq!(escape_ilike_pattern("50%_off\\"), "50\\%\\_off\\\\");
    assert_eq!(escape_ilike_pattern(""), "");
    assert_eq!(escape_ilike_pattern("译者_%"), "译者\\_\\%");
}

fn unescape(s: &str) -> String {
    let mut out = String::new();
    let mut chars = s.chars();
    while let Some(c) = chars.next() {
        if c == '\\' {
            if let Some(n) = chars.next() {
                out.push(n);
                continue;
            }
        }
        out.push(c);
    }
    out
}

#[test]
fn escaped_pattern_reads_back_literally() {
    for input in ["a%b", "\\_\\", "%%__", "名字", ""] {
        assert_eq!(unescape(&escape_ilike_pattern(input)), input);
    }
}

#[test]
fn fuzzy_pattern_wraps_the_escaped_input() {
    assert_eq!(fuzzy_pattern("nick_1"), "%nick\\_1%");
}

#[test]
fn str_eq_compares_characters() {
    assert!(str_eq("jpg", "jpg"));
    assert!(!str_eq("jpg", "png"));
    assert!(!str_eq("jp", "jpg"));
}

#[test]
fn expected_variant_is_comparable() {
    assert_ne!(ExpectedVariant::Args, ExpectedVariant::Perm);
}
