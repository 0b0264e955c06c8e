use tab_picker::score::score;
use tab_picker::score::SCORE_ONE;

fn chars_of(s: &str) -> Vec<char> {
    s.chars().collect()
}

#[test]
fn exact_match_is_maximal() {
    // An exact match scores exactly 1.0, the greatest possible key.
    let q = chars_of("apple");
    assert_eq!(score(&q, "apple"), SCORE_ONE);
    let q = chars_of("a");
    assert_eq!(score(&q, "a"), SCORE_ONE);
    let q = chars_of("zellij tab");
    assert_eq!(score(&q, "zellij tab"), SCORE_ONE);
}

#[test]
fn empty_query_scores_zero() {
    let q: Vec<char> = Vec::new();
    assert_eq!(score(&q, "anything"), 0);
    assert_eq!(score(&q, "x"), 0);
}

#[test]
fn score_key_matches_the_metric() {
    // The key is the bit pattern of the Jaro-Winkler similarity.
    let q = chars_of("app");
    assert_eq!(score(&q, "apple"), strsim::jaro_winkler("app", "apple").to_bits());
    assert_eq!(score(&q, "banana"), strsim::jaro_winkler("app", "banana").to_bits());
}

#[test]
fn score_is_bounded() {
    let samples = ["", "a", "apple", "application", "banana", "ba na"];
    for a in samples.iter() {
        for b in samples.iter() {
            let q = chars_of(a);
            assert!(score(&q, b) <= SCORE_ONE);
        }
    }
}

#[test]
fn prefix_match_beats_unrelated_name() {
    let q = chars_of("app");
    assert!(score(&q, "apple") > score(&q, "banana"));
    assert!(score(&q, "application") > score(&q, "banana"));
}

#[test]
fn score_handles_non_ascii_text() {
    let q = chars_of("caf\u{e9}");
    assert_eq!(score(&q, "caf\u{e9}"), SCORE_ONE);
    assert!(score(&q, "cafe") <= SCORE_ONE);
    let q = chars_of("\u{1f980}");
    assert_eq!(score(&q, "\u{1f980}"), SCORE_ONE);
}
