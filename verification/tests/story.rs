use one_word_story::story::{aggregate, HistoryMessage, OutputBlock};

fn msg(text: &str) -> HistoryMessage {
    HistoryMessage { text: text.to_string(), author_is_bot: false }
}

fn bot(text: &str) -> HistoryMessage {
    HistoryMessage { text: text.to_string(), author_is_bot: true }
}

fn pairs(blocks: &[OutputBlock]) -> Vec<(String, String)> {
    blocks.iter().map(|b| (b.title.clone(), b.body.clone())).collect()
}

#[test]
fn three_messages_one_block_chronological() {
    let oldest = "abcdefghij"; // 10 chars
    let middle = "klmnopqrstuvwxyzABCD"; // 20 chars
    let newest = "EFGHIJKLMNOPQRSTUVWXYZ01234567"; // 30 chars
    // History arrives most-recent-first.
    let history = vec![msg(newest), msg(middle), msg(oldest)];
    let blocks = aggregate(&history);
    assert_eq!(blocks.len(), 1);
    assert_eq!(blocks[0].title, "Story so far");
    assert_eq!(
        blocks[0].body,
        format!("{} {} {}", oldest, middle, newest)
    );
}

#[test]
fn terminator_stops_consumption() {
    let history = vec![msg("new1"), msg("new2"), msg("."), msg("old1"), msg("old2")];
    let blocks = aggregate(&history);
    assert_eq!(blocks.len(), 1);
    assert_eq!(blocks[0].body, "new2 new1");

    // Everything older than the terminator is as good as absent.
    let truncated = vec![msg("new1"), msg("new2")];
    assert_eq!(pairs(&aggregate(&history)), pairs(&aggregate(&truncated)));
}

#[test]
fn terminator_first_yields_no_block() {
    let history = vec![msg("."), msg("old1"), msg("old2")];
    let blocks = aggregate(&history);
    assert!(blocks.is_empty());
}

#[test]
fn empty_history_yields_no_block() {
    let blocks = aggregate(&Vec::new());
    assert!(blocks.is_empty());
}

#[test]
fn bot_messages_skipped_entirely() {
    let history = vec![msg("c"), bot("ignored"), msg("b"), bot("noise"), msg("a")];
    let blocks = aggregate(&history);
    assert_eq!(blocks.len(), 1);
    assert_eq!(blocks[0].body, "a b c");
}

#[test]
fn bot_terminator_still_stops() {
    let history = vec![msg("new"), bot("."), msg("old")];
    let blocks = aggregate(&history);
    assert_eq!(blocks.len(), 1);
    assert_eq!(blocks[0].body, "new");
}

#[test]
fn budget_overflow_splits_into_titled_blocks() {
    let m1 = "a".repeat(2000);
    let m2 = "b".repeat(2000);
    let m3 = "c".repeat(2000);
    let m4 = "d".repeat(2000);
    // Newest first: m4 is the most recent message.
    let history = vec![msg(&m4), msg(&m3), msg(&m2), msg(&m1)];
    let blocks = aggregate(&history);
    assert_eq!(blocks.len(), 2);
    assert_eq!(blocks[0].title, "Story so far");
    assert_eq!(blocks[0].body, format!("{} {}", m3, m4));
    assert_eq!(blocks[1].title, "continued");
    assert_eq!(blocks[1].body, format!("{} {}", m1, m2));
}

#[test]
fn at_most_250_messages_consumed() {
    let mut history = Vec::new();
    for _ in 0..251 {
        history.push(msg("x"));
    }
    let blocks = aggregate(&history);
    assert_eq!(blocks.len(), 1);
    // 250 single-character fragments joined by 249 spaces.
    assert_eq!(blocks[0].body.len(), 499);
}

#[test]
fn rerun_on_unchanged_history_is_identical() {
    let history = vec![msg("c"), msg("."), msg("b"), msg("a")];
    let first = aggregate(&history);
    let second = aggregate(&history);
    assert_eq!(pairs(&first), pairs(&second));
}
