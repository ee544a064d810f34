use one_word_story::moderation::{evaluate, Verdict};
use one_word_story::rules::RuleSet;

fn rules_of(words: &[&str]) -> RuleSet {
    let owned: Vec<String> = words.iter().map(|w| w.to_string()).collect();
    RuleSet::from_words(&owned)
}

#[test]
fn banned_word_rejected_exactly() {
    let rules = rules_of(&["foo"]);
    assert!(rules.matches("foo"));
    assert!(!rules.matches("bar"));
    assert_eq!(evaluate("foo", &rules), Verdict::Reject);
    assert_eq!(evaluate("bar", &rules), Verdict::Allow);
}

#[test]
fn two_tokens_allowed_with_one_short() {
    let rules = rules_of(&[]);
    assert_eq!(evaluate("a b", &rules), Verdict::Allow);
}

#[test]
fn two_long_tokens_rejected() {
    let rules = rules_of(&[]);
    assert_eq!(evaluate("alpha beta", &rules), Verdict::Reject);
}

#[test]
fn three_tokens_rejected() {
    let rules = rules_of(&[]);
    assert_eq!(evaluate("alpha beta gamma", &rules), Verdict::Reject);
}

#[test]
fn single_token_never_length_rejected() {
    let rules = rules_of(&[]);
    assert_eq!(evaluate("supercalifragilistic", &rules), Verdict::Allow);
    assert_eq!(evaluate("word", &rules), Verdict::Allow);
    assert_eq!(evaluate("", &rules), Verdict::Allow);
}

#[test]
fn short_connective_with_long_word_allowed() {
    let rules = rules_of(&[]);
    assert_eq!(evaluate("a banana", &rules), Verdict::Allow);
    assert_eq!(evaluate("to the", &rules), Verdict::Allow);
}

#[test]
fn empty_rule_set_checks_nothing() {
    let rules = rules_of(&[]);
    assert!(!rules.matches("anything"));
}

#[test]
fn token_lengths_counted_in_characters() {
    let rules = rules_of(&[]);
    // Two characters each, whatever their encoded size.
    assert_eq!(evaluate("日本 語よ", &rules), Verdict::Allow);
    assert_eq!(evaluate("ひらがな カタカナ", &rules), Verdict::Reject);
}

#[test]
fn unicode_whitespace_separates_tokens() {
    let rules = rules_of(&[]);
    // An ideographic space splits just as an ASCII space does.
    assert_eq!(evaluate("alpha\u{3000}beta\u{3000}gamma", &rules), Verdict::Reject);
    assert_eq!(evaluate("alpha\u{a0}beta", &rules), Verdict::Reject);
}

#[test]
fn banned_word_inside_two_token_message() {
    let rules = rules_of(&["foo"]);
    assert_eq!(evaluate("a foo", &rules), Verdict::Reject);
}
