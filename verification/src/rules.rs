//! The banned-word filter: an immutable rule-set snapshot built from the
//! configured banned words, backed by the `censor` profanity filter.
use vstd::prelude::*;

verus! {

/// What the `censor` filter answers for a given word set and text. The
/// filter's matching (lowercasing, character aliases, separator stripping,
/// substring search) is a pure function of the two, so its outcome gets a
/// name rather than a restatement.
pub uninterp spec fn censor_hit(words: Set<Seq<char>>, text: Seq<char>) -> bool;

/// Relies on `censor::Censor::check`: for `Censor::Custom(set)` it reports
/// whether the text matches the filter built from exactly those words — a
/// deterministic function of the word set and the text, with no panic.
#[verifier::external_body]
fn censor_check(banned: &Vec<String>, text: &str) -> (r: bool)
    ensures
        r == censor_hit(banned.deep_view().to_set(), text@),
{
    let words: std::collections::HashSet<String> = banned.iter().cloned().collect();
    censor::Censor::Custom(words).check(text)
}

/// An immutable validation policy derived from the banned words at the
/// moment of a configuration mutation.
pub struct RuleSet {
    banned: Vec<String>,
}

impl RuleSet {
    /// The set of banned words this rule set was built from.
    pub closed spec fn words(&self) -> Set<Seq<char>> {
        self.banned.deep_view().to_set()
    }

    /// Builds the filter snapshot for the given banned words.
    pub fn from_words(banned: &Vec<String>) -> (rs: RuleSet)
        ensures
            rs.words() == banned.deep_view().to_set(),
    {
        let mut copy: Vec<String> = Vec::new();
        let mut i: usize = 0;
        proof {
            assert(copy.deep_view() =~= banned.deep_view().take(0));
        }
        while i < banned.len()
            invariant
                i <= banned.len(),
                copy.deep_view() == banned.deep_view().take(i as int),
            decreases banned.len() - i,
        {
            let ghost prev = copy.deep_view();
            let w = banned[i].clone();
            assert(w@ == banned.deep_view()[i as int]);
            copy.push(w);
            proof {
                assert(copy.deep_view() =~= prev.push(w@));
                assert(copy.deep_view() =~= banned.deep_view().take(i + 1 as int));
            }
            i = i + 1;
        }
        proof {
            assert(copy.deep_view() =~= banned.deep_view());
        }
        RuleSet { banned: copy }
    }

    /// Whether the text matches the banned-word filter.
    pub fn matches(&self, text: &str) -> (r: bool)
        ensures
            r == censor_hit(self.words(), text@),
    {
        censor_check(&self.banned, text)
    }
}

} // verus!
