//! The configuration store: the owned target channel and banned-word set,
//! republished together with a freshly derived rule set on every mutation.
use vstd::prelude::*;

use crate::command::{Command, CommandView};
use crate::rules::RuleSet;

verus! {

/// The owned settings: target channel and banned words. Banned words are a
/// set: each is held at most once, their order carries no meaning.
pub struct Configuration {
    pub channel_id: u64,
    pub banned_words: Vec<String>,
}

impl Configuration {
    /// The banned words as a set of character sequences.
    pub open spec fn banned_set(&self) -> Set<Seq<char>> {
        self.banned_words.deep_view().to_set()
    }

    /// Uniqueness of the banned words.
    pub open spec fn wf(&self) -> bool {
        self.banned_words.deep_view().no_duplicates()
    }

    /// The startup default: no target channel, nothing banned.
    pub fn initial() -> (c: Configuration)
        ensures
            c.channel_id == 0,
            c.banned_set() =~= Set::<Seq<char>>::empty(),
            c.wf(),
    {
        Configuration { channel_id: 0, banned_words: Vec::new() }
    }
}

/// Appending a word to a word list adds exactly it to the word set.
proof fn lemma_push_word_set(s: Seq<Seq<char>>, x: Seq<char>)
    ensures
        s.push(x).to_set() == s.to_set().insert(x),
{
    assert forall|y: Seq<char>| s.push(x).to_set().contains(y) implies s.to_set().insert(
        x,
    ).contains(y) by {
        let i = choose|i: int| 0 <= i < s.push(x).len() && s.push(x)[i] == y;
        if i < s.len() {
            assert(s[i] == y);
        } else {
            assert(y == x);
        }
    }
    assert forall|y: Seq<char>| s.to_set().insert(x).contains(y) implies s.push(
        x,
    ).to_set().contains(y) by {
        if y == x {
            assert(s.push(x)[s.len() as int] == y);
        } else {
            let i = choose|i: int| 0 <= i < s.len() && s[i] == y;
            assert(s.push(x)[i] == y);
        }
    }
    assert(s.push(x).to_set() =~= s.to_set().insert(x));
}

/// Removing the only occurrence of a word removes exactly it from the set.
proof fn lemma_remove_word_set(s: Seq<Seq<char>>, i: int)
    requires
        0 <= i < s.len(),
        s.no_duplicates(),
    ensures
        s.remove(i).to_set() == s.to_set().remove(s[i]),
        s.remove(i).no_duplicates(),
{
    s.remove_ensures(i);
    let r = s.remove(i);
    assert forall|y: Seq<char>| r.to_set().contains(y) implies s.to_set().remove(s[i]).contains(
        y,
    ) by {
        let j = choose|j: int| 0 <= j < r.len() && r[j] == y;
        if j < i {
            assert(s[j] == y);
            assert(s[j] != s[i]);
        } else {
            assert(s[j + 1] == y);
            assert(s[j + 1] != s[i]);
        }
    }
    assert forall|y: Seq<char>| s.to_set().remove(s[i]).contains(y) implies r.to_set().contains(
        y,
    ) by {
        let j = choose|j: int| 0 <= j < s.len() && s[j] == y;
        if j < i {
            assert(r[j] == y);
        } else {
            assert(j != i);
            assert(r[j - 1] == y);
        }
    }
    assert(r.to_set() =~= s.to_set().remove(s[i]));
}

fn copy_words(ws: &Vec<String>) -> (r: Vec<String>)
    ensures
        r.deep_view() == ws.deep_view(),
{
    let mut copy: Vec<String> = Vec::new();
    let mut i: usize = 0;
    proof {
        assert(copy.deep_view() =~= ws.deep_view().take(0));
    }
    while i < ws.len()
        invariant
            i <= ws.len(),
            copy.deep_view() == ws.deep_view().take(i as int),
        decreases ws.len() - i,
    {
        let ghost prev = copy.deep_view();
        let w = ws[i].clone();
        assert(w@ == ws.deep_view()[i as int]);
        copy.push(w);
        proof {
            assert(copy.deep_view() =~= prev.push(w@));
            assert(copy.deep_view() =~= ws.deep_view().take(i + 1 as int));
        }
        i = i + 1;
    }
    proof {
        assert(copy.deep_view() =~= ws.deep_view());
    }
    copy
}

fn find_word(ws: &Vec<String>, w: &String) -> (r: Option<usize>)
    ensures
        match r {
            Some(i) => i < ws@.len() && ws.deep_view()[i as int] == w@,
            None => !ws.deep_view().contains(w@),
        },
{
    let mut i: usize = 0;
    while i < ws.len()
        invariant
            i <= ws.len(),
            forall|j: int| 0 <= j < i ==> ws.deep_view()[j] != w@,
        decreases ws.len() - i,
    {
        if ws[i].eq(w) {
            assert(ws.deep_view()[i as int] == w@);
            return Some(i);
        }
        i = i + 1;
    }
    proof {
        assert forall|j: int| 0 <= j < ws.deep_view().len() implies ws.deep_view()[j] != w@ by {}
        assert(!ws.deep_view().contains(w@));
    }
    None
}

/// What a command does to the published pair (target channel, banned set).
pub open spec fn spec_apply(chan: u64, banned: Set<Seq<char>>, cmd: CommandView) -> (u64, Set<
    Seq<char>,
>) {
    match cmd {
        CommandView::SetChannel(id) => (id, banned),
        CommandView::BanWord(w) => (chan, banned.insert(w)),
        CommandView::UnbanWord(w) => (chan, banned.remove(w)),
    }
}

/// A read performed after a mutation observes the new value. `apply`
/// publishes the pair `spec_apply` names before it returns, and `read`
/// reports exactly the published configuration, so there is no stale-read
/// window after a mutation completes.
pub proof fn lemma_read_after_apply(before: ConfigStore, after: ConfigStore, cmd: CommandView)
    requires
        after.observed() == spec_apply(
            before.spec_config().channel_id,
            before.spec_config().banned_set(),
            cmd,
        ),
    ensures
        (after.spec_config().channel_id, after.spec_config().banned_set()) == spec_apply(
            before.spec_config().channel_id,
            before.spec_config().banned_set(),
            cmd,
        ),
{
}

/// The versioned cell: configuration and derived rule set, always published
/// as a consistent pair.
pub struct ConfigStore {
    config: Configuration,
    rules: RuleSet,
}

impl ConfigStore {
    pub closed spec fn spec_config(&self) -> Configuration {
        self.config
    }

    pub closed spec fn spec_rules(&self) -> RuleSet {
        self.rules
    }

    /// The published pair a reader observes.
    pub open spec fn observed(&self) -> (u64, Set<Seq<char>>) {
        (self.spec_config().channel_id, self.spec_config().banned_set())
    }

    /// Well-formedness: the words are unique and the rule set is the one
    /// derived from them — no reader ever sees a mismatched pair.
    pub open spec fn wf(&self) -> bool {
        self.spec_config().wf() && self.spec_rules().words() == self.spec_config().banned_set()
    }

    /// Builds the store, deriving the initial rule set from the loaded
    /// configuration.
    pub fn new(config: Configuration) -> (s: ConfigStore)
        requires
            config.wf(),
        ensures
            s.wf(),
            s.spec_config() == config,
    {
        let rules = RuleSet::from_words(&config.banned_words);
        ConfigStore { config, rules }
    }

    /// A non-blocking read: a copy of the current configuration.
    pub fn read(&self) -> (c: Configuration)
        ensures
            c.channel_id == self.spec_config().channel_id,
            c.banned_words.deep_view() == self.spec_config().banned_words.deep_view(),
            c.banned_set() == self.spec_config().banned_set(),
            c.wf() == self.spec_config().wf(),
    {
        Configuration {
            channel_id: self.config.channel_id,
            banned_words: copy_words(&self.config.banned_words),
        }
    }

    pub fn channel_id(&self) -> (id: u64)
        ensures
            id == self.spec_config().channel_id,
    {
        self.config.channel_id
    }

    /// The current rule-set snapshot, consistent with the configuration.
    pub fn rules(&self) -> (r: &RuleSet)
        ensures
            r == self.spec_rules(),
    {
        &self.rules
    }

    /// Applies one administrative command under exclusive access and
    /// republishes the freshly rebuilt rule set with it.
    pub fn apply(&mut self, cmd: &Command)
        requires
            old(self).wf(),
        ensures
            final(self).wf(),
            final(self).observed() == spec_apply(
                old(self).spec_config().channel_id,
                old(self).spec_config().banned_set(),
                cmd@,
            ),
    {
        match cmd {
            Command::SetChannel(id) => {
                self.config.channel_id = *id;
            },
            Command::BanWord(w) => {
                let ghost before = self.config.banned_words.deep_view();
                match find_word(&self.config.banned_words, w) {
                    Some(_) => {
                        proof {
                            assert(before.contains(w@));
                            assert(before.to_set().insert(w@) =~= before.to_set());
                        }
                    },
                    None => {
                        let word = w.clone();
                        self.config.banned_words.push(word);
                        proof {
                            assert(self.config.banned_words.deep_view() =~= before.push(w@));
                            lemma_push_word_set(before, w@);
                        }
                    },
                }
            },
            Command::UnbanWord(w) => {
                let ghost before = self.config.banned_words.deep_view();
                match find_word(&self.config.banned_words, w) {
                    Some(i) => {
                        self.config.banned_words.remove(i);
                        proof {
                            assert(self.config.banned_words.deep_view() =~= before.remove(
                                i as int,
                            ));
                            lemma_remove_word_set(before, i as int);
                        }
                    },
                    None => {
                        proof {
                            assert(before.to_set().remove(w@) =~= before.to_set());
                        }
                    },
                }
            },
        }
        self.rules = RuleSet::from_words(&self.config.banned_words);
    }
}

} // verus!
