//! Text, numerals, order, maps, binary64 numbers.

use io_thread_controller::binary64::Binary64;
use io_thread_controller::collate::{sort_numbers, sort_texts, text_at_or_before};
use io_thread_controller::engines::threshold::{DEFAULT_THRESHOLD_BITS, DEFAULT_TOLERANCE_BITS};
use io_thread_controller::numerals::{decimal_text, parse_i32, signed_text};
use io_thread_controller::ordered::OrderedMap;
use io_thread_controller::registry::Registry;
use io_thread_controller::text::{
    contains, find_char, from_chars, is_blank, is_whitespace, lines, same_text, split, starts_with,
    strip_char, to_chars, trim, trim_end, trim_start,
};

fn text(chars: Vec<char>) -> String {
    from_chars(&chars)
}

#[test]
fn whitespace_is_that_of_char() {
    for n in 0..=0x10ffffu32 {
        if let Some(c) = char::from_u32(n) {
            assert_eq!(is_whitespace(c), c.is_whitespace(), "{n:x}");
        }
    }
}

const SAMPLES: [&str; 12] = [
    "",
    " ",
    "a",
    " a b ",
    "\u{3000}x\u{a0}",
    "a,b,,c,",
    ",",
    "line\n",
    "one\r\ntwo\rthree\n\nfour\r",
    "\r\n",
    "\"\"q\"uo\"te\"\"",
    "héllo wörld",
];

#[test]
fn text_operations_agree_with_std() {
    for s in SAMPLES {
        let chars = to_chars(s);
        assert_eq!(text(to_chars(s)), s);
        assert_eq!(text(trim(&chars)), s.trim());
        assert_eq!(text(trim_start(&chars)), s.trim_start());
        assert_eq!(text(trim_end(&chars)), s.trim_end());
        assert_eq!(text(strip_char(&chars, '"')), s.trim_matches('"'));
        assert_eq!(is_blank(s), s.trim().is_empty());
        let pieces: Vec<String> = split(&chars, ',').into_iter().map(text).collect();
        assert_eq!(pieces, s.split(',').collect::<Vec<_>>());
        let found: Vec<String> = lines(&chars).into_iter().map(text).collect();
        assert_eq!(found, s.lines().collect::<Vec<_>>());
        for pattern in SAMPLES {
            assert_eq!(contains(&chars, pattern), s.contains(pattern));
            assert_eq!(starts_with(&chars, pattern), s.starts_with(pattern));
            assert_eq!(same_text(s, pattern), s == pattern);
            assert_eq!(text_at_or_before(s, pattern), s <= pattern);
        }
        assert_eq!(find_char(&chars, 0, 'b'), s.chars().position(|c| c == 'b').unwrap_or(chars.len()));
    }
}

#[test]
fn numerals_agree_with_std() {
    for n in [0, 1, 9, 10, 99, 1024, u64::from(u32::MAX), u64::MAX] {
        assert_eq!(decimal_text(n), n.to_string());
    }
    for n in [0, -1, 1, i32::MIN, i32::MAX] {
        assert_eq!(signed_text(n), n.to_string());
    }
    for s in [
        "", "+", "-", "0", "-0", "+0", "007", "2147483647", "2147483648", "-2147483648",
        "-2147483649", "99999999999999999999999999", " 1", "1 ", "1.0", "+-1", "٣", "12a",
    ] {
        assert_eq!(parse_i32(&to_chars(s)), s.parse::<i32>().ok(), "{s}");
    }
}

#[test]
fn sorting_agrees_with_std() {
    let mut list: Vec<String> = SAMPLES.iter().map(|s| s.to_string()).collect();
    list.push("a".to_string());
    let sorted = sort_texts(list.clone());
    list.sort();
    assert_eq!(sorted, list);
    let mut numbers = vec![5u128, 1, u128::MAX, 0, 5, 2];
    let sorted = sort_numbers(numbers.clone());
    numbers.sort();
    assert_eq!(sorted, numbers);
}

#[test]
fn registries_keep_their_order() {
    let mut registry: Registry<u32> = Registry::new();
    assert!(registry.is_empty());
    registry.insert("b".to_string(), 1);
    registry.insert("a".to_string(), 2);
    registry.insert("b".to_string(), 3);
    assert_eq!(registry.len(), 2);
    assert_eq!(registry.id_at(0), "b");
    assert_eq!(*registry.value_at(0), 3);
    assert_eq!(registry.get("a"), Some(&2));
    assert_eq!(registry.position("a"), Some(1));
    *registry.get_mut("a").unwrap() = 9;
    assert!(registry.get_mut("c").is_none());
    assert!(registry.contains_key("b"));
    assert_eq!(registry.remove("b"), Some(3));
    assert_eq!(registry.remove("b"), None);
    assert_eq!(registry.get("a"), Some(&9));
    assert_eq!(registry.get("b"), None);
}

#[test]
fn ordered_maps_sort_their_keys() {
    let mut map: OrderedMap<u32> = OrderedMap::new();
    let mut wanted = std::collections::BTreeMap::new();
    for (i, key) in ["m", "a", "z", "m", "", "b", "aa"].iter().enumerate() {
        map.insert(key.to_string(), i as u32);
        wanted.insert(key.to_string(), i as u32);
    }
    assert_eq!(map.len(), wanted.len());
    for (i, (key, value)) in wanted.iter().enumerate() {
        assert_eq!(map.id_at(i), key);
        assert_eq!(map.value_at(i), value);
        assert_eq!(map.get(key), Some(value));
    }
    assert_eq!(map.get("q"), None);
}

const NUMBERS: [f64; 14] = [
    0.0,
    -0.0,
    1.0,
    -1.0,
    0.5,
    0.95,
    1.0000000000000002,
    f64::MIN_POSITIVE,
    5e-324,
    -5e-324,
    f64::MAX,
    f64::INFINITY,
    f64::NEG_INFINITY,
    f64::NAN,
];

#[test]
fn binary64_agrees_with_the_hardware() {
    let pattern = |x: f64| Binary64::from_bits(x.to_bits());
    for a in NUMBERS {
        assert_eq!(pattern(a).is_nan(), a.is_nan());
        assert_eq!(pattern(a).is_finite(), a.is_finite());
        assert_eq!(pattern(a).is_positive(), a > 0.0);
        assert_eq!(pattern(a).is_unit(), (0.0..=1.0).contains(&a));
        assert_eq!(pattern(a).clamp_unit().bits, a.clamp(0.0, 1.0).to_bits(), "{a}");
        for b in NUMBERS {
            assert_eq!(pattern(a).less_than(pattern(b)), a < b, "{a} {b}");
            assert_eq!(pattern(a).no_more_than(pattern(b)), a <= b, "{a} {b}");
        }
    }
    assert_eq!(Binary64::zero().bits, 0.0f64.to_bits());
    assert_eq!(Binary64::one().bits, 1.0f64.to_bits());
    assert_eq!(DEFAULT_THRESHOLD_BITS, 0.95f64.to_bits());
    assert_eq!(DEFAULT_TOLERANCE_BITS, 0.05f64.to_bits());
}
