use zw_mcp_server::score::{is_printable, score, Score};

fn value(s: Score) -> f64 {
    s.num as f64 / s.den as f64
}

#[test]
fn score_of_empty_text_is_zero() {
    let s = score("");
    assert_eq!(s.num, 0);
    assert!(s.den > 0);
    assert_eq!(value(s), 0.0);
}

#[test]
fn score_of_a_flag() {
    // 30 * 9/9 + 30 * 7/9 + 9 + 50
    let s = score("flag{abc}");
    assert_eq!(s, Score { num: 1011, den: 9 });
    assert!((value(s) - 112.33333).abs() < 1e-4);
}

#[test]
fn score_of_a_sentence() {
    // 30 * 11/11 + 30 * 10/11 + 11 + 10
    let s = score("hello world");
    assert_eq!(s, Score { num: 861, den: 11 });
}

#[test]
fn score_length_bonus_is_capped_at_20() {
    // 25 letters: 30 + 30 + 20
    let s = score("abcdefghijklmnopqrstuvwxy");
    assert_eq!(s, Score { num: 25 * 80, den: 25 });
    // two letters: no length bonus
    assert_eq!(score("ab"), Score { num: 120, den: 2 });
    // three letters: bonus 3
    assert_eq!(score("abc"), Score { num: 3 * 63, den: 3 });
}

#[test]
fn score_subtracts_five_per_control_character_of_the_longest_run() {
    // 30 * 2/5 + 30 * 2/5 + 5 - 5 * 3 = 14
    let s = score("\u{1}\u{2}\u{3}ab");
    assert_eq!(s, Score { num: 70, den: 5 });
    // tab, line feed and carriage return do not count towards a run
    let t = score("a\u{1}\t\u{2}b");
    // 30 * 2/5 + 30 * 2/5 + 5 - 5 * 1 = 24
    assert_eq!(t, Score { num: 120, den: 5 });
}

#[test]
fn score_is_never_negative() {
    let s = score("\u{1}\u{2}\u{3}\u{4}\u{5}\u{6}\u{7}\u{8}");
    assert_eq!(s.num, 0);
    assert_eq!(s.den, 8);
    let long: String = std::iter::repeat('\u{1}').take(100).collect();
    assert_eq!(score(&long).num, 0);
}

#[test]
fn score_every_flag_marker_counts() {
    for marker in ["flag{", "ctf{", "FLAG{", "CTF{", "key{", "KEY{"] {
        let with = score(&format!("x{}", marker));
        let n = marker.chars().count() as u128 + 1;
        // all but the brace are letters
        assert_eq!(with.num, 30 * n + 30 * (n - 1) + n * (n + 50), "{}", marker);
    }
    // the markers are case sensitive
    let s = score("Flag{");
    assert_eq!(s, Score { num: 30 * 5 + 30 * 4 + 5 * 5, den: 5 });
}

#[test]
fn printability_gate() {
    assert!(!is_printable(""));
    assert!(is_printable("a"));
    assert!(is_printable("ab\u{1}"));
    assert!(!is_printable("a\u{1}"));
    assert!(!is_printable("\u{1}\u{2}a"));
    assert!(is_printable("\n\r\t"));
    assert!(!is_printable("\u{7f}\u{80}\u{9f}"));
}

#[test]
fn scores_compare_as_fractions() {
    let half = Score { num: 1, den: 2 };
    let two_quarters = Score { num: 2, den: 4 };
    let third = Score { num: 1, den: 3 };
    assert!(half.ge(&two_quarters));
    assert!(two_quarters.ge(&half));
    assert!(half.ge(&third));
    assert!(!third.ge(&half));
    assert!(Score { num: 31, den: 2 }.exceeds(15));
    assert!(!Score { num: 30, den: 2 }.exceeds(15));
    assert!(!Score { num: 29, den: 2 }.exceeds(15));
    let big = Score { num: 139 * (u64::MAX as u128) + 5, den: u64::MAX as u128 };
    let bigger = Score { num: 139 * (u64::MAX as u128) + 6, den: u64::MAX as u128 };
    assert!(bigger.ge(&big));
    assert!(!big.ge(&bigger));
}
