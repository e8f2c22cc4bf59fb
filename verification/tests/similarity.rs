use dups::edit::{levenshtein_similarity, Similarity, Threshold};

fn as_f64(s: Similarity) -> f64 {
    s.num as f64 / s.den as f64
}

// two equal strings
#[test]
fn test_levenshtein_similarity_1() {
    let s1 = "hello".as_bytes();
    let s2 = "hello".as_bytes();
    let similarity = as_f64(levenshtein_similarity(s1, s2));
    assert_eq!(similarity, 1.0);
}

// almost the same (swap)
#[test]
fn test_levenshtein_similarity_09() {
    let s1 = "hello hello hello".as_bytes();
    let s2 = "hello hello hellu".as_bytes();
    let similarity = as_f64(levenshtein_similarity(s1, s2));
    assert!(similarity >= 0.9);
    assert!(similarity < 1.0);
}

// almost the same (insertion)
#[test]
fn test_levenshtein_similarity_09_2() {
    let s1 = "hello hello hello".as_bytes();
    let s2 = "hello hell o hello".as_bytes();
    let similarity = as_f64(levenshtein_similarity(s1, s2));
    assert!(similarity >= 0.9);
    assert!(similarity < 1.0);
}

// totally different
#[test]
fn test_levenshtein_similarity_0() {
    let s1 = "hello".as_bytes();
    let s2 = "world".as_bytes();
    let similarity = as_f64(levenshtein_similarity(s1, s2));
    assert_eq!(similarity, 0.2);
}

#[test]
fn threshold_comparison_is_exact() {
    let s = levenshtein_similarity("hello".as_bytes(), "world".as_bytes());
    assert!(s.at_least(&Threshold { num: 1, den: 5 }));
    assert!(!s.at_least(&Threshold { num: 21, den: 100 }));
}
