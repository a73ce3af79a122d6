use ngram_reader::errors::CountError;
use ngram_reader::normalize::normalize;
use ngram_reader::template::expand_template;

#[test]
fn expands_placeholder() {
    let r = expand_template("the {{word}} is big", "dog").unwrap();
    assert_eq!(r, "the dog is big");
}

#[test]
fn template_without_marker_is_unchanged() {
    let r = expand_template("plain cat", "dog").unwrap();
    assert_eq!(r, "plain cat");
}

#[test]
fn malformed_template_is_reported() {
    let r = expand_template("the {{word is big", "dog");
    assert_eq!(
        r,
        Err(CountError::TemplateRender("the {{word is big".to_string()))
    );
}

#[test]
fn collapses_space_runs() {
    assert_eq!(normalize("a    b"), "a b");
    assert_eq!(normalize("  a  b   c "), " a b c ");
}

#[test]
fn leaves_single_spaces_and_other_text() {
    assert_eq!(normalize("a b c"), "a b c");
    assert_eq!(normalize(""), "");
    assert_eq!(normalize("word"), "word");
}

#[test]
fn normalization_is_idempotent() {
    let once = normalize("a    b  c ");
    assert_eq!(normalize(&once), once);
}

#[test]
fn touches_only_the_space_character() {
    assert_eq!(normalize("a \t\t b"), "a \t\t b");
    assert_eq!(normalize("a\n\n  b"), "a\n\n b");
    assert_eq!(normalize("h\u{e9}llo   w\u{f6}rld"), "h\u{e9}llo w\u{f6}rld");
}
