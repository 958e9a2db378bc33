use cta_collectthemall::text::{
    before_char_exec, chars_of, decimal_chars, find_seq_exec, parse_canonical_u32, parse_u32_exec,
    replace_all_exec, split_char_exec, string_from_chars, trim_end_char_exec, trim_start_char_exec,
    trim_ws_exec,
};

fn cs(s: &str) -> Vec<char> {
    s.chars().collect()
}

fn st(v: &Vec<char>) -> String {
    v.iter().collect()
}

#[test]
fn chars_round_trip() {
    assert_eq!(chars_of("aé🙂"), vec!['a', 'é', '🙂']);
    assert_eq!(string_from_chars(&vec!['x', 'ÿ']), "xÿ");
}

#[test]
fn parse_u32_like_std() {
    for s in ["0", "7", "007", "+5", "4294967295", "4294967296", "", "+", "-1", " 1", "1 ", "12a", "99999999999999999999"] {
        assert_eq!(parse_u32_exec(&cs(s)), s.parse::<u32>().ok(), "input {:?}", s);
    }
}

#[test]
fn canonical_u32_only_accepts_to_string_forms() {
    assert_eq!(parse_canonical_u32(&cs("0")), Some(0));
    assert_eq!(parse_canonical_u32(&cs("12")), Some(12));
    assert_eq!(parse_canonical_u32(&cs("4294967295")), Some(u32::MAX));
    assert_eq!(parse_canonical_u32(&cs("012")), None);
    assert_eq!(parse_canonical_u32(&cs("+12")), None);
    assert_eq!(parse_canonical_u32(&cs("4294967296")), None);
    assert_eq!(parse_canonical_u32(&cs("")), None);
    assert_eq!(parse_canonical_u32(&cs("z3")), None);
}

#[test]
fn decimal_matches_to_string() {
    for n in [0u64, 9, 10, 99, 100, 12345, u32::MAX as u64, u64::MAX] {
        assert_eq!(st(&decimal_chars(n)), n.to_string());
    }
}

#[test]
fn replace_like_std() {
    for (s, p, r) in [
        ("{z}/{x}/{y}.png", "{z}", "3"),
        ("aaaa", "aa", "b"),
        ("abc", "d", "x"),
        ("", "a", "b"),
        ("{z}{z}", "{z}", ""),
        ("x{z", "{z}", "1"),
    ] {
        assert_eq!(st(&replace_all_exec(&cs(s), &cs(p), &cs(r))), s.replace(p, r));
    }
}

#[test]
fn split_like_std() {
    for s in ["1/2/3/4/5.png", "", "/", "a//b", "abc/"] {
        let parts: Vec<String> = split_char_exec(&cs(s), '/').iter().map(st).collect();
        let expected: Vec<String> = s.split('/').map(|p| p.to_string()).collect();
        assert_eq!(parts, expected);
    }
}

#[test]
fn trims_like_std() {
    for s in ["", "///a//", "a", "//"] {
        assert_eq!(st(&trim_end_char_exec(&cs(s), '/')), s.trim_end_matches('/'));
        assert_eq!(st(&trim_start_char_exec(&cs(s), '/')), s.trim_start_matches('/'));
    }
    for s in ["  window.mapData = ", "\u{3000}x\u{2028}", "\t\n", "a b", ""] {
        assert_eq!(st(&trim_ws_exec(&cs(s))), s.trim());
    }
}

#[test]
fn find_and_before() {
    assert_eq!(find_seq_exec(&cs("abcabc"), &cs("ca")), Some(2));
    assert_eq!(find_seq_exec(&cs("abc"), &cs("")), Some(0));
    assert_eq!(find_seq_exec(&cs("ab"), &cs("abc")), None);
    assert_eq!(st(&before_char_exec(&cs("5.png.bak"), '.')), "5");
    assert_eq!(st(&before_char_exec(&cs("5"), '.')), "5");
}
