use tff::fields::{FieldMap, FlagSet};
use tff::line::char_byte_offset;
use tff::text::{
    code_point, contains, is_white, join, less, number, signed_number, split, starts_with,
    three_digits, trim, trim_start, two_digits, words,
};

const SAMPLES: [&str; 14] = [
    "",
    " ",
    "a",
    " a b ",
    "a:b::c",
    "::",
    "\t\u{2003}é ü\n",
    "abcabc",
    "aab",
    "ÄÖ",
    "z",
    "Z",
    "\u{10ffff}",
    "\u{ffff}x",
];

#[test]
fn whitespace_is_that_of_std() {
    for n in 0..=0x10ffffu32 {
        if let Some(c) = char::from_u32(n) {
            assert_eq!(is_white(c), c.is_whitespace(), "{n:#x}");
        }
    }
}

#[test]
fn text_functions_agree_with_std() {
    for s in SAMPLES {
        assert_eq!(trim(s), s.trim());
        assert_eq!(trim_start(s), s.trim_start());
        assert_eq!(words(s), s.split_whitespace().collect::<Vec<_>>());
        assert_eq!(split(s, ':'), s.split(':').collect::<Vec<_>>());
        let parts: Vec<String> = s.split(':').map(|p| p.to_string()).collect();
        assert_eq!(join(&parts, "--"), parts.join("--"));
        for t in SAMPLES {
            assert_eq!(contains(s, t), s.contains(t), "{s:?} {t:?}");
            assert_eq!(starts_with(s, t), s.starts_with(t), "{s:?} {t:?}");
            assert_eq!(less(s, t), s < t, "{s:?} {t:?}");
        }
        for i in 0..=s.chars().count() + 1 {
            let expected = s.char_indices().nth(i).map(|(b, _)| b).unwrap_or(s.len());
            assert_eq!(char_byte_offset(s, i), expected, "{s:?} {i}");
        }
    }
    assert_eq!(code_point('é'), 0xe9);
}

#[test]
fn numerals_agree_with_std() {
    for n in [0u128, 7, 10, 99, 100, 12345, u64::MAX as u128, u128::MAX] {
        assert_eq!(number(n), format!("{n}"));
    }
    for n in [0i64, 5, -5, 10, -100, i64::MAX, i64::MIN] {
        assert_eq!(signed_number(n), format!("{n}"));
    }
    for n in [0u64, 7, 42, 99, 100, 12345] {
        assert_eq!(two_digits(n), format!("{n:02}"));
    }
    for n in [0u64, 7, 42, 999] {
        assert_eq!(three_digits(n), format!("{n:03}"));
    }
}

#[test]
fn field_maps_keep_their_keys_in_order() {
    let mut m = FieldMap::new();
    for (k, v) in [("b", "1"), ("a", "2"), ("c", "3"), ("b", "4")] {
        m.insert(k.to_string(), v.to_string());
    }
    let all: Vec<(&str, &str)> = (0..m.len()).map(|i| (m.key(i), m.value(i))).collect();
    assert_eq!(all, vec![("a", "2"), ("b", "4"), ("c", "3")]);
    assert!(m.remove("b"));
    assert!(!m.remove("b"));
    assert!(!m.contains_key("b"));
    let mut n = m.clone();
    m.insert("a".to_string(), "9".to_string());
    assert_eq!(n.get("a"), Some("2"));
    n.insert("z".to_string(), "5".to_string());
    m.fill(&n);
    assert_eq!(m.get("a"), Some("9"), "what is there stays");
    assert_eq!(m.get("z"), Some("5"), "what is missing is filled in");
}

#[test]
fn flag_sets_keep_their_names_in_order() {
    let mut s = FlagSet::new();
    assert!(s.is_empty());
    for f in ["forced", "default", "forced"] {
        s.insert(f.to_string());
    }
    assert_eq!(*s.names(), vec!["default".to_string(), "forced".to_string()]);
    assert_eq!(s.clone().len(), 2);
    assert!(s.remove("forced"));
    assert!(!s.remove("forced"));
    assert!(s.contains("default"));
}
