use nono_guard::order::{is_le, sort_texts, sort_unique};
use nono_guard::table::Table;
use nono_guard::text::{
    contains_char, join, parse_number, split, strip_prefix, strip_suffix, write_bool,
    write_decimal, write_numeral, write_padded, write_signed,
};

fn strings(v: &[&str]) -> Vec<String> {
    v.iter().map(|s| String::from(*s)).collect()
}

#[test]
fn numbers_are_written_as_format_writes_them() {
    for n in [0u64, 1, 9, 10, 99, 100, 12345, u64::MAX] {
        assert_eq!(write_decimal(n), format!("{}", n));
        assert_eq!(write_numeral(n, 8), format!("{:o}", n));
        assert_eq!(write_numeral(n, 2), format!("{:b}", n));
        assert_eq!(write_padded(n, 4), format!("{:04}", n));
    }
    for n in [0i64, -1, 1, i64::MIN, i64::MAX] {
        assert_eq!(write_signed(n), format!("{}", n));
    }
    assert_eq!(write_bool(true), "true");
    assert_eq!(write_bool(false), "false");
}

#[test]
fn numbers_are_read_as_std_reads_them() {
    for t in [
        "0", "7", "007", "+7", "+", "", "-0", "-1", " 7", "7 ", "1_0", "4294967295", "4294967296",
        "99999999999999999999999", "0x1", "++1", "+00000000000000000000000001",
    ] {
        let expected = t.parse::<u32>().ok().map(|n| n as u64);
        assert_eq!(parse_number(t, 0xffff_ffff), expected, "{:?}", t);
    }
    assert_eq!(parse_number("18446744073709551615", u64::MAX), Some(u64::MAX));
    assert_eq!(parse_number("18446744073709551616", u64::MAX), None);
    assert_eq!(parse_number("0", 0), Some(0));
    assert_eq!(parse_number("1", 0), None);
}

#[test]
fn writing_and_reading_a_number_agree() {
    for n in [0u64, 5, 10, 4321, u64::MAX] {
        assert_eq!(parse_number(&write_decimal(n), u64::MAX), Some(n));
    }
}

#[test]
fn splitting_and_joining() {
    assert_eq!(split("a:b::c", ':'), strings(&["a", "b", "", "c"]));
    assert_eq!(split("", ':'), strings(&[""]));
    assert_eq!(split(":", ':'), strings(&["", ""]));
    assert_eq!(join(&strings(&["a", "b", "c"]), ", "), "a, b, c");
    assert_eq!(join(&[], ", "), "");
    assert!(contains_char("a/b", '/'));
    assert!(!contains_char("ab", '/'));
}

#[test]
fn prefixes_and_suffixes() {
    assert_eq!(strip_prefix("~/x", "~/"), Some(String::from("x")));
    assert_eq!(strip_prefix("~x", "~/"), None);
    assert_eq!(strip_suffix("3.json", ".json"), Some(String::from("3")));
    assert_eq!(strip_suffix("json", ".json"), None);
}

#[test]
fn texts_are_ordered_as_strings_are() {
    let samples = ["", "a", "aa", "ab", "b", "Z", "ä", "z", "\u{10000}", "\u{ffff}"];
    for a in samples {
        for b in samples {
            assert_eq!(is_le(a, b), a <= b, "{:?} {:?}", a, b);
        }
    }
    let given = strings(&["b", "a", "c", "a"]);
    assert_eq!(sort_texts(&given), strings(&["a", "a", "b", "c"]));
    assert_eq!(sort_unique(&given), strings(&["a", "b", "c"]));
}

#[test]
fn a_table_keeps_one_row_for_each_key() {
    let mut t: Table<u32> = Table::new();
    t.insert(String::from("x"), 1);
    t.insert(String::from("y"), 2);
    t.insert(String::from("x"), 3);
    assert_eq!(t.len(), 2);
    assert_eq!(t.get("x"), Some(&3));
    assert_eq!(t.get("y"), Some(&2));
    assert_eq!(t.get("z"), None);
    assert_eq!(t.keys(), strings(&["x", "y"]));
    assert_eq!(t.key_at(1), "y");
    assert_eq!(*t.value_at(0), 3);
}

#[test]
fn a_table_is_made_of_ascending_rows() {
    let rows = |keys: &[&str]| keys.iter().map(|k| (String::from(*k), k.len())).collect();
    let t: Option<Table<usize>> = Table::of_sorted(rows(&["", "a", "ab", "b"]));
    let t = match t {
        Some(t) => t,
        None => panic!("refused"),
    };
    assert_eq!(t.len(), 4);
    assert_eq!(t.get("ab"), Some(&2));
    let c = t.copy();
    assert_eq!(c.keys(), t.keys());
    assert_eq!(c.get("b"), Some(&1));
    let empty: Option<Table<usize>> = Table::of_sorted(Vec::new());
    assert!(matches!(empty, Some(t) if t.len() == 0));
    let swapped: Option<Table<usize>> = Table::of_sorted(rows(&["b", "a"]));
    assert!(swapped.is_none());
    let twice: Option<Table<usize>> = Table::of_sorted(rows(&["a", "a"]));
    assert!(twice.is_none());
}

#[test]
fn sorting_does_not_depend_on_the_order_given() {
    let a = sort_texts(&strings(&["c", "a", "b", "a"]));
    let b = sort_texts(&strings(&["a", "a", "b", "c"]));
    assert_eq!(a, b);
    let a = sort_unique(&strings(&["c", "a", "b", "a"]));
    let b = sort_unique(&strings(&["b", "c", "c", "a"]));
    assert_eq!(a, b);
}
