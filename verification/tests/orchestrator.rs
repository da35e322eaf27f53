use std::collections::BTreeMap;
use zw_mcp_server::auto::{auto_decode, rank_results};
use zw_mcp_server::decode::DecodeResult;
use zw_mcp_server::encode::{encode_330k, encode_binary, encode_steganographr, encode_tags};
use zw_mcp_server::ranking::rank_symbols;
use zw_mcp_server::score::{score, Score};

fn result(method: &str, decoded: &str) -> DecodeResult {
    DecodeResult { method: method.to_string(), decoded: decoded.to_string(), score: score(decoded) }
}

fn sorted_and_distinct(results: &[DecodeResult]) {
    for pair in results.windows(2) {
        assert!(pair[0].score.ge(&pair[1].score), "{:?} before {:?}", pair[0], pair[1]);
    }
    for (i, a) in results.iter().enumerate() {
        for b in &results[i + 1..] {
            assert_ne!(a.decoded, b.decoded);
        }
    }
}

#[test]
fn auto_decode_finds_nothing_without_zero_width_characters() {
    assert!(auto_decode("").is_empty());
    assert!(auto_decode("just some text").is_empty());
    assert!(auto_decode("line\nbreaks\tand tabs").is_empty());
    assert!(auto_decode("flag{not hidden}").is_empty());
}

#[test]
fn auto_decode_finds_a_binary_message() {
    let payload = encode_binary("flag{zw}", '\u{200B}', '\u{200C}', 8);
    let text = format!("Nothing to see{} here.", payload);
    let results = auto_decode(&text);
    assert!(!results.is_empty());
    assert_eq!(results[0].decoded, "flag{zw}");
    // 30 + 30 * 6/8 + 8 + 50
    assert_eq!(results[0].score, Score { num: 240 + 180 + 8 * 58, den: 8 });
    sorted_and_distinct(&results);
}

#[test]
fn auto_decode_finds_a_steganographr_message() {
    let text = encode_steganographr("the key{42}", "an innocent sentence");
    let results = auto_decode(&text);
    assert_eq!(results[0].decoded, "the key{42}");
    assert_eq!(results[0].method, "Steganographr (WJ+ZWSP+ZWNJ)");
    sorted_and_distinct(&results);
}

#[test]
fn auto_decode_finds_a_tags_message() {
    let text = encode_tags("CTF{tags}", "cover");
    let results = auto_decode(&text);
    assert_eq!(results[0].decoded, "CTF{tags}");
    assert_eq!(results[0].method, "Unicode Tags (U+E0000-U+E007F)");
    sorted_and_distinct(&results);
}

#[test]
fn auto_decode_finds_a_base_four_message() {
    let charset = ['\u{200C}', '\u{200D}', '\u{202C}', '\u{FEFF}'];
    let text = encode_330k("flag{330k}", "cover text", &charset);
    let results = auto_decode(&text);
    assert_eq!(results[0].decoded, "flag{330k}");
    assert_eq!(results[0].method, "4进制 (U+200C+U+200D+U+202C+U+FEFF, 分组=8)");
    sorted_and_distinct(&results);
}

#[test]
fn auto_decode_keeps_each_text_once() {
    // the same text is found with 8 bits by the direct and by the preset
    // strategies
    let payload = encode_binary("Hi there", '\u{200B}', '\u{200C}', 8);
    let results = auto_decode(&payload);
    let count = results.iter().filter(|r| r.decoded == "Hi there").count();
    assert_eq!(count, 1);
    sorted_and_distinct(&results);
}

#[test]
fn symbols_are_ranked_by_frequency_then_code_point() {
    let mut dist: BTreeMap<u32, usize> = BTreeMap::new();
    dist.insert(0x200B, 3);
    dist.insert(0x200C, 5);
    dist.insert(0x200D, 3);
    dist.insert(0xFEFF, 1);
    dist.insert(0x2060, 7);
    assert_eq!(
        rank_symbols(&dist),
        vec!['\u{2060}', '\u{200C}', '\u{200B}', '\u{200D}', '\u{FEFF}']
    );
    assert_eq!(rank_symbols(&BTreeMap::new()), Vec::<char>::new());
}

#[test]
fn ranking_leaves_out_keys_that_are_no_characters() {
    let mut dist: BTreeMap<u32, usize> = BTreeMap::new();
    dist.insert(0xD800, 9);
    dist.insert(0x110000, 9);
    dist.insert(0x200B, 1);
    assert_eq!(rank_symbols(&dist), vec!['\u{200B}']);
}

#[test]
fn results_are_ranked_by_descending_score() {
    let ranked = rank_results(vec![
        result("a", "zz"),
        result("b", "flag{x}"),
        result("c", "hello world"),
    ]);
    let texts: Vec<&str> = ranked.iter().map(|r| r.decoded.as_str()).collect();
    assert_eq!(texts, vec!["flag{x}", "hello world", "zz"]);
}

#[test]
fn results_of_equal_score_keep_their_order() {
    let ranked = rank_results(vec![
        result("first", "ab"),
        result("second", "cd"),
        result("third", "flag{x}"),
        result("fourth", "ef"),
    ]);
    let methods: Vec<&str> = ranked.iter().map(|r| r.method.as_str()).collect();
    assert_eq!(methods, vec!["third", "first", "second", "fourth"]);
}

#[test]
fn the_first_result_with_a_text_is_kept() {
    let ranked = rank_results(vec![
        result("first", "same"),
        result("second", "other text"),
        result("third", "same"),
        result("fourth", "same"),
    ]);
    let methods: Vec<&str> = ranked.iter().map(|r| r.method.as_str()).collect();
    assert_eq!(methods, vec!["second", "first"]);
    assert!(rank_results(Vec::new()).is_empty());
}
