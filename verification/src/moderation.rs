//! The moderator: decides for each inbound message in the story channel
//! whether it may stay or must be deleted.
use vstd::prelude::*;

use crate::rules::{censor_hit, RuleSet};
use crate::text::{token_split, tokens_of};

verus! {

/// The moderator's decision for one message.
#[derive(Debug, PartialEq, Eq, Structural, Clone, Copy)]
pub enum Verdict {
    Allow,
    Reject,
}

/// The structural constraints: at most two whitespace-separated tokens, and
/// a two-token message only when at least one token has at most two
/// characters.
pub open spec fn length_rules_ok(s: Seq<char>) -> bool {
    let toks = token_split(s);
    toks.len() <= 2 && (toks.len() == 2 ==> toks[0].len() <= 2 || toks[1].len() <= 2)
}

/// The whole policy: structural constraints first, then the banned-word
/// filter; anything not caught passes.
pub open spec fn spec_verdict(s: Seq<char>, words: Set<Seq<char>>) -> Verdict {
    if !length_rules_ok(s) {
        Verdict::Reject
    } else if censor_hit(words, s) {
        Verdict::Reject
    } else {
        Verdict::Allow
    }
}

/// Applies the rule set to a message text.
pub fn evaluate(text: &str, rules: &RuleSet) -> (v: Verdict)
    ensures
        v == spec_verdict(text@, rules.words()),
{
    let toks = tokens_of(text);
    proof {
        assert(toks.deep_view().len() == toks@.len());
    }
    if toks.len() > 2 {
        return Verdict::Reject;
    }
    if toks.len() == 2 {
        proof {
            assert(toks.deep_view()[0] == toks@[0]@);
            assert(toks.deep_view()[1] == toks@[1]@);
        }
        if toks[0].len() > 2 && toks[1].len() > 2 {
            return Verdict::Reject;
        }
    }
    if rules.matches(text) {
        return Verdict::Reject;
    }
    Verdict::Allow
}

/// A message of at most one whitespace-separated token is never rejected by
/// the structural length rules.
pub proof fn lemma_single_token_length_ok(s: Seq<char>)
    requires
        token_split(s).len() <= 1,
    ensures
        length_rules_ok(s),
{
}

} // verus!
