use one_word_story::command::Command;
use one_word_story::config::{ConfigStore, Configuration};
use one_word_story::moderation::{evaluate, Verdict};

#[test]
fn initial_configuration_is_empty() {
    let c = Configuration::initial();
    assert_eq!(c.channel_id, 0);
    assert!(c.banned_words.is_empty());
}

#[test]
fn read_after_set_channel_sees_new_value() {
    let mut store = ConfigStore::new(Configuration::initial());
    store.apply(&Command::SetChannel(42));
    assert_eq!(store.read().channel_id, 42);
    store.apply(&Command::SetChannel(7));
    assert_eq!(store.read().channel_id, 7);
}

#[test]
fn read_after_ban_sees_new_word() {
    let mut store = ConfigStore::new(Configuration::initial());
    store.apply(&Command::BanWord("foo".to_string()));
    let cfg = store.read();
    assert_eq!(cfg.banned_words, vec!["foo".to_string()]);
}

#[test]
fn rule_set_rebuilt_with_each_mutation() {
    let mut store = ConfigStore::new(Configuration::initial());
    assert_eq!(evaluate("foo", store.rules()), Verdict::Allow);
    store.apply(&Command::BanWord("foo".to_string()));
    assert_eq!(evaluate("foo", store.rules()), Verdict::Reject);
    assert_eq!(evaluate("bar", store.rules()), Verdict::Allow);
    store.apply(&Command::UnbanWord("foo".to_string()));
    assert_eq!(evaluate("foo", store.rules()), Verdict::Allow);
}

#[test]
fn ban_is_idempotent_on_the_set() {
    let mut store = ConfigStore::new(Configuration::initial());
    store.apply(&Command::BanWord("foo".to_string()));
    store.apply(&Command::BanWord("foo".to_string()));
    assert_eq!(store.read().banned_words.len(), 1);
}

#[test]
fn unban_of_absent_word_changes_nothing() {
    let mut store = ConfigStore::new(Configuration::initial());
    store.apply(&Command::BanWord("foo".to_string()));
    store.apply(&Command::UnbanWord("bar".to_string()));
    assert_eq!(store.read().banned_words, vec!["foo".to_string()]);
}

#[test]
fn channel_survives_word_mutations() {
    let mut store = ConfigStore::new(Configuration::initial());
    store.apply(&Command::SetChannel(9));
    store.apply(&Command::BanWord("foo".to_string()));
    store.apply(&Command::UnbanWord("foo".to_string()));
    assert_eq!(store.read().channel_id, 9);
}
