use autotagger::distance::{levenshtein, levenshtein_chars};

#[test]
fn classic_kitten_sitting() {
    assert_eq!(levenshtein("kitten", "sitting"), 3);
}

#[test]
fn three_substitutions() {
    assert_eq!(levenshtein("abc", "xyz"), 3);
}

#[test]
fn distance_to_empty_is_length() {
    assert_eq!(levenshtein("", "hello"), 5);
    assert_eq!(levenshtein("hello", ""), 5);
    assert_eq!(levenshtein("", ""), 0);
}

#[test]
fn zero_iff_equal() {
    assert_eq!(levenshtein("same text", "same text"), 0);
    assert!(levenshtein("same text", "same text!") > 0);
}

#[test]
fn symmetric_on_samples() {
    let pairs = [
        ("Hello world", "Goodbye world"),
        ("abc", "xyz"),
        ("", "nonempty"),
        ("flaw", "lawn"),
    ];
    for (a, b) in pairs {
        assert_eq!(levenshtein(a, b), levenshtein(b, a));
    }
}

#[test]
fn triangle_on_samples() {
    let triples = [
        ("kitten", "sitting", "sitter"),
        ("abc", "xyz", "axc"),
        ("", "ab", "abcd"),
    ];
    for (a, b, c) in triples {
        assert!(levenshtein(a, c) <= levenshtein(a, b) + levenshtein(b, c));
    }
}

#[test]
fn single_insert_and_delete() {
    assert_eq!(levenshtein("flaw", "flaws"), 1);
    assert_eq!(levenshtein("flaws", "flaw"), 1);
}

#[test]
fn char_vector_variant_agrees() {
    let a: Vec<char> = "kitten".chars().collect();
    let b: Vec<char> = "sitting".chars().collect();
    assert_eq!(levenshtein_chars(&a, &b), 3);
}
