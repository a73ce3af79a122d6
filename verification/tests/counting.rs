use ngram_reader::dispatch::{
    count_combinatorial_loaded, count_combinatorial_text, count_for_word, count_in_loaded_text,
    count_in_loaded_text_parallel, count_in_text, count_in_text_parallel,
};
use ngram_reader::errors::CountError;
use ngram_reader::matching::count_occurrences;
use ngram_reader::results::{NestedMap, ResultMap};

fn strings(items: &[&str]) -> Vec<String> {
    items.iter().map(|s| s.to_string()).collect()
}

#[test]
fn counts_simple_literal() {
    let r = count_in_text(&strings(&["dog"]), "dog dog dog").unwrap();
    assert_eq!(r.get("dog"), Some(3));
}

#[test]
fn counter_counts_directly() {
    assert_eq!(count_occurrences("cat", "cat CAT cats"), Some(2));
    assert_eq!(count_occurrences("(", "anything"), None);
}

#[test]
fn case_insensitive_matching() {
    let r = count_in_text(&strings(&["Cat"]), "I saw a cat and a CAT.").unwrap();
    assert_eq!(r.get("Cat"), Some(2));
}

#[test]
fn word_boundaries_enforced() {
    let r = count_in_text(&strings(&["cat"]), "concatenate cats category").unwrap();
    assert_eq!(r.get("cat"), Some(0));
}

#[test]
fn nonoverlapping_matches() {
    // Candidate occurrences of "a a" start at offsets 0 and 2 and overlap;
    // the scan resumes after a found match, so only the first is counted.
    let r = count_in_text(&strings(&["a a"]), "a a a").unwrap();
    assert_eq!(r.get("a a"), Some(1));
    // A run of word characters has no inner word boundary, so an anchored
    // pattern never matches inside one.
    let r = count_in_text(&strings(&["aa"]), "aaaa").unwrap();
    assert_eq!(r.get("aa"), Some(0));
}

#[test]
fn pattern_is_matching_syntax() {
    // Pattern text is embedded unescaped, so metacharacters act as syntax:
    // "cat|dog" anchors as \bcat|dog\b and matches the prefix of "catalog".
    let r = count_in_text(&strings(&["cat|dog"]), "catalog dog").unwrap();
    assert_eq!(r.get("cat|dog"), Some(2));
}

#[test]
fn parallel_agrees_with_sequential() {
    let patterns = strings(&["cat", "dog", "cat|dog", "missing"]);
    let corpus = "cat dog catalog cat";
    let sequential = count_in_text(&patterns, corpus);
    let parallel = count_in_text_parallel(&patterns, corpus);
    assert_eq!(sequential, parallel);
    let r = sequential.unwrap();
    assert_eq!(r.get("cat"), Some(2));
    assert_eq!(r.get("dog"), Some(1));
    assert_eq!(r.get("missing"), Some(0));
}

#[test]
fn parallel_agrees_on_errors() {
    let patterns = strings(&["fine", "(", ")"]);
    let corpus = "fine";
    let sequential = count_in_text(&patterns, corpus);
    let parallel = count_in_text_parallel(&patterns, corpus);
    assert_eq!(sequential, parallel);
    assert_eq!(sequential, Err(CountError::InvalidPattern("(".to_string())));
}

#[test]
fn invalid_pattern_aborts_whole_call() {
    let patterns = strings(&["good", "[bad"]);
    let r = count_in_text(&patterns, "good text");
    assert_eq!(r, Err(CountError::InvalidPattern("[bad".to_string())));
}

#[test]
fn empty_pattern_list_yields_empty_table() {
    let r = count_in_text(&strings(&[]), "any corpus at all").unwrap();
    assert_eq!(r, ResultMap::new());
    let r = count_in_text_parallel(&strings(&[]), "another corpus").unwrap();
    assert_eq!(r, ResultMap::new());
}

#[test]
fn repeated_invocation_is_identical() {
    let patterns = strings(&["cat", "dog"]);
    let corpus = "cat dog cat";
    let first = count_in_text(&patterns, corpus);
    let second = count_in_text(&patterns, corpus);
    assert_eq!(first, second);
    let first_par = count_in_text_parallel(&patterns, corpus);
    let second_par = count_in_text_parallel(&patterns, corpus);
    assert_eq!(first_par, second_par);
}

#[test]
fn duplicate_pattern_last_write_wins() {
    let r = count_in_text(&strings(&["cat", "cat"]), "cat cat").unwrap();
    assert_eq!(r.get("cat"), Some(2));
}

#[test]
fn missing_key_is_absent() {
    let r = count_in_text(&strings(&["cat"]), "cat").unwrap();
    assert_eq!(r.get("dog"), None);
}

#[test]
fn loaded_text_is_normalized() {
    let patterns = strings(&["a b"]);
    let loaded = count_in_loaded_text(&patterns, "a    b").unwrap();
    let direct = count_in_text(&patterns, "a b").unwrap();
    assert_eq!(loaded, direct);
    assert_eq!(loaded.get("a b"), Some(1));
    let loaded_par = count_in_loaded_text_parallel(&patterns, "a    b").unwrap();
    assert_eq!(loaded_par.get("a b"), Some(1));
}

#[test]
fn direct_text_is_not_normalized() {
    let patterns = strings(&["a b"]);
    let direct = count_in_text(&patterns, "a    b").unwrap();
    assert_eq!(direct.get("a b"), Some(0));
}

#[test]
fn combinatorial_expansion() {
    let templates = strings(&["the {{word}} is big"]);
    let words = strings(&["dog", "cat"]);
    let corpus = "the dog is big. the cat is big.";
    let nested = count_combinatorial_loaded(&templates, corpus, &words).unwrap();
    let dog = nested.get("dog").unwrap();
    assert_eq!(dog.get("the dog is big"), Some(1));
    assert_eq!(dog.get("the cat is big"), None);
    let cat = nested.get("cat").unwrap();
    assert_eq!(cat.get("the cat is big"), Some(1));
    assert_eq!(nested.get("fish"), None);
}

#[test]
fn combinatorial_mixes_plain_and_templated() {
    let templates = strings(&["cat", "{{word}}"]);
    let r = count_for_word(&templates, "cat dog", "dog").unwrap();
    assert_eq!(r.get("cat"), Some(1));
    assert_eq!(r.get("dog"), Some(1));
}

#[test]
fn empty_word_list_yields_empty_nested_table() {
    let templates = strings(&["the {{word}} is big"]);
    let nested = count_combinatorial_text(&templates, "any corpus", &strings(&[])).unwrap();
    assert_eq!(nested, NestedMap::new());
}

#[test]
fn malformed_template_aborts_combinatorial_call() {
    let templates = strings(&["the {{word is big"]);
    let words = strings(&["dog"]);
    let r = count_combinatorial_text(&templates, "corpus", &words);
    assert_eq!(
        r,
        Err(CountError::TemplateRender("the {{word is big".to_string()))
    );
}

#[test]
fn invalid_expanded_pattern_aborts_combinatorial_call() {
    let templates = strings(&["{{word}}"]);
    let words = strings(&["("]);
    let r = count_combinatorial_text(&templates, "corpus", &words);
    assert_eq!(r, Err(CountError::InvalidPattern("(".to_string())));
}

#[test]
fn combinatorial_repeated_invocation_is_identical() {
    let templates = strings(&["the {{word}} is big"]);
    let words = strings(&["dog", "cat"]);
    let corpus = "the dog is big. the cat is big.";
    let first = count_combinatorial_loaded(&templates, corpus, &words);
    let second = count_combinatorial_loaded(&templates, corpus, &words);
    assert_eq!(first, second);
}
