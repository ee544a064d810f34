//! The command interpreter: parses administrative directives out of plain
//! message text into typed intents, independent of any transport.
use vstd::prelude::*;

use crate::text::{chars_to_string, str_chars, token_split, tokenize_chars};

verus! {

/// A typed administrative intent.
#[derive(Debug)]
pub enum Command {
    SetChannel(u64),
    BanWord(String),
    UnbanWord(String),
}

/// The mathematical shape of a command, with words as character sequences.
pub enum CommandView {
    SetChannel(u64),
    BanWord(Seq<char>),
    UnbanWord(Seq<char>),
}

impl View for Command {
    type V = CommandView;

    open spec fn view(&self) -> CommandView {
        match self {
            Command::SetChannel(id) => CommandView::SetChannel(*id),
            Command::BanWord(w) => CommandView::BanWord(w@),
            Command::UnbanWord(w) => CommandView::UnbanWord(w@),
        }
    }
}

/// Why a recognized command was refused.
#[derive(Debug, PartialEq, Eq, Structural, Clone, Copy)]
pub enum ParseError {
    /// Fewer than three whitespace-separated tokens.
    Usage,
    /// An unrecognized sub-command keyword.
    InvalidCommand,
    /// A `set-channel` argument that is no channel identifier.
    InvalidChannel,
}

/// The user-visible reply for a refused command.
pub fn parse_error_text(e: &ParseError) -> (r: &'static str)
    ensures
        e is Usage ==> r@ == "Usage: one-word <set-channel|ban|unban> <arg>"@,
        e is InvalidCommand ==> r@ == "Invalid command"@,
        e is InvalidChannel ==> r@ == "Invalid channel"@,
{
    match e {
        ParseError::Usage => "Usage: one-word <set-channel|ban|unban> <arg>",
        ParseError::InvalidCommand => "Invalid command",
        ParseError::InvalidChannel => "Invalid channel",
    }
}

pub open spec fn has_prefix(s: Seq<char>, p: Seq<char>) -> bool {
    p.len() <= s.len() && s.take(p.len() as int) == p
}

/// ASCII-case-insensitive equality of a token against a lower-case keyword.
pub open spec fn lower_u32(u: u32) -> u32 {
    if 0x41 <= u && u <= 0x5A {
        (u + 0x20) as u32
    } else {
        u
    }
}

pub open spec fn keyword_eq(t: Seq<char>, k: Seq<char>) -> bool {
    t.len() == k.len() && (forall|i: int|
        0 <= i < t.len() ==> lower_u32(t[i] as u32) == k[i] as u32)
}

/// Strips every occurrence of the two-character opener `<#`, leftmost first.
pub open spec fn strip_mention_open(s: Seq<char>) -> Seq<char>
    decreases s.len(),
{
    if s.len() == 0 {
        Seq::empty()
    } else if s.len() >= 2 && s[0] == '<' && s[1] == '#' {
        strip_mention_open(s.skip(2))
    } else {
        seq![s[0]] + strip_mention_open(s.skip(1))
    }
}

/// Strips every `>` character.
pub open spec fn strip_gt(s: Seq<char>) -> Seq<char>
    decreases s.len(),
{
    if s.len() == 0 {
        Seq::empty()
    } else if s[0] == '>' {
        strip_gt(s.skip(1))
    } else {
        seq![s[0]] + strip_gt(s.skip(1))
    }
}

/// The channel-mention decoration removal: `<#` openers first, then `>`.
pub open spec fn strip_channel_decoration(s: Seq<char>) -> Seq<char> {
    strip_gt(strip_mention_open(s))
}

pub open spec fn is_digit(c: char) -> bool {
    0x30 <= c as u32 && c as u32 <= 0x39
}

pub open spec fn digit_val(c: char) -> nat {
    if is_digit(c) {
        (c as u32 - 0x30) as nat
    } else {
        0
    }
}

/// The value of a digit string, most significant first.
pub open spec fn digits_value(s: Seq<char>) -> nat
    decreases s.len(),
{
    if s.len() == 0 {
        0
    } else {
        digits_value(s.drop_last()) * 10 + digit_val(s.last())
    }
}

pub open spec fn all_digits(s: Seq<char>) -> bool {
    forall|i: int| 0 <= i < s.len() ==> is_digit(#[trigger] s[i])
}

/// What `u64` parsing accepts: an optional leading `+`, then at least one
/// ASCII digit, and a value that fits.
pub open spec fn u64_numeral(s: Seq<char>) -> Option<u64> {
    let d = if s.len() >= 1 && s[0] == '+' {
        s.skip(1)
    } else {
        s
    };
    if d.len() >= 1 && all_digits(d) && digits_value(d) <= u64::MAX {
        Some(digits_value(d) as u64)
    } else {
        None
    }
}

/// A longer digit prefix never has a smaller value.
proof fn lemma_digits_value_take_le(s: Seq<char>, k: int)
    requires
        0 <= k <= s.len(),
    ensures
        digits_value(s.take(k)) <= digits_value(s),
    decreases s.len(),
{
    if k < s.len() {
        assert(s.drop_last().take(k) =~= s.take(k));
        lemma_digits_value_take_le(s.drop_last(), k);
        assert(digits_value(s) == digits_value(s.drop_last()) * 10 + digit_val(s.last()));
        assert(digits_value(s.drop_last()) * 10 >= digits_value(s.drop_last()))
            by (nonlinear_arith);
    } else {
        assert(s.take(k) =~= s);
    }
}

/// What parsing the whole text yields, by the grammar
/// `one-word <set-channel|ban|unban> <argument>`.
pub open spec fn spec_parse(s: Seq<char>) -> Option<Result<CommandView, ParseError>> {
    if !has_prefix(s, "one-word"@) {
        None
    } else {
        let toks = token_split(s);
        if toks.len() < 3 {
            Some(Err(ParseError::Usage))
        } else if keyword_eq(toks[1], "set-channel"@) {
            match u64_numeral(strip_channel_decoration(toks[2])) {
                Some(id) => Some(Ok(CommandView::SetChannel(id))),
                None => Some(Err(ParseError::InvalidChannel)),
            }
        } else if keyword_eq(toks[1], "ban"@) {
            Some(Ok(CommandView::BanWord(toks[2])))
        } else if keyword_eq(toks[1], "unban"@) {
            Some(Ok(CommandView::UnbanWord(toks[2])))
        } else {
            Some(Err(ParseError::InvalidCommand))
        }
    }
}

/// The parse result with its command taken to the mathematical shape.
pub open spec fn parse_result_view(r: Option<Result<Command, ParseError>>) -> Option<
    Result<CommandView, ParseError>,
> {
    match r {
        None => None,
        Some(Ok(c)) => Some(Ok(c@)),
        Some(Err(e)) => Some(Err(e)),
    }
}

fn keyword_matches(t: &Vec<char>, k: &str) -> (r: bool)
    ensures
        r == keyword_eq(t@, k@),
{
    let kc = str_chars(k);
    if t.len() != kc.len() {
        return false;
    }
    let mut i: usize = 0;
    while i < t.len()
        invariant
            i <= t.len(),
            t@.len() == kc@.len(),
            kc@ == k@,
            forall|j: int| 0 <= j < i ==> lower_u32(t@[j] as u32) == k@[j] as u32,
        decreases t.len() - i,
    {
        let u = t[i] as u32;
        let l = if 0x41 <= u && u <= 0x5A {
            u + 0x20
        } else {
            u
        };
        if l != kc[i] as u32 {
            return false;
        }
        i = i + 1;
    }
    true
}

fn strip_decoration(v: &Vec<char>) -> (r: Vec<char>)
    ensures
        r@ == strip_channel_decoration(v@),
{
    let mut open_removed: Vec<char> = Vec::new();
    let mut i: usize = 0;
    proof {
        assert(v@.skip(0) =~= v@);
        assert(open_removed@ + strip_mention_open(v@) =~= strip_mention_open(v@));
    }
    while i < v.len()
        invariant
            i <= v.len(),
            strip_mention_open(v@) == open_removed@ + strip_mention_open(v@.skip(i as int)),
        decreases v.len() - i,
    {
        let ghost suf = v@.skip(i as int);
        proof {
            assert(suf.len() == v@.len() - i);
            assert(suf[0] == v@[i as int]);
            if i + 1 < v.len() {
                assert(suf[1] == v@[i + 1 as int]);
                assert(suf.skip(2) =~= v@.skip(i + 2 as int));
            }
            assert(suf.skip(1) =~= v@.skip(i + 1 as int));
        }
        if v[i] == '<' && i + 1 < v.len() && v[i + 1] == '#' {
            i = i + 2;
        } else {
            open_removed.push(v[i]);
            proof {
                assert(open_removed@ + strip_mention_open(v@.skip(i + 1 as int)) =~= (
                open_removed@.drop_last() + (seq![suf[0]] + strip_mention_open(suf.skip(1)))));
            }
            i = i + 1;
        }
    }
    proof {
        assert(strip_mention_open(v@.skip(v@.len() as int)) =~= Seq::<char>::empty());
        assert(open_removed@ =~= strip_mention_open(v@));
    }
    let mut out: Vec<char> = Vec::new();
    let mut j: usize = 0;
    proof {
        assert(open_removed@.skip(0) =~= open_removed@);
        assert(out@ + strip_gt(open_removed@) =~= strip_gt(open_removed@));
    }
    while j < open_removed.len()
        invariant
            j <= open_removed.len(),
            strip_gt(open_removed@) == out@ + strip_gt(open_removed@.skip(j as int)),
        decreases open_removed.len() - j,
    {
        let ghost suf = open_removed@.skip(j as int);
        proof {
            assert(suf[0] == open_removed@[j as int]);
            assert(suf.skip(1) =~= open_removed@.skip(j + 1 as int));
        }
        if open_removed[j] != '>' {
            out.push(open_removed[j]);
            proof {
                assert(out@ + strip_gt(open_removed@.skip(j + 1 as int)) =~= (out@.drop_last() + (
                seq![suf[0]] + strip_gt(suf.skip(1)))));
            }
        }
        j = j + 1;
    }
    proof {
        assert(strip_gt(open_removed@.skip(open_removed@.len() as int)) =~= Seq::<char>::empty());
        assert(out@ =~= strip_gt(open_removed@));
    }
    out
}

fn parse_u64_chars(v: &Vec<char>) -> (r: Option<u64>)
    ensures
        r == u64_numeral(v@),
{
    let start: usize = if v.len() >= 1 && v[0] == '+' {
        1
    } else {
        0
    };
    let ghost d = if v@.len() >= 1 && v@[0] == '+' {
        v@.skip(1)
    } else {
        v@
    };
    proof {
        assert(d =~= v@.skip(start as int));
    }
    if v.len() == start {
        return None;
    }
    let mut acc: u64 = 0;
    let mut i: usize = start;
    proof {
        assert(d.take(0) =~= Seq::<char>::empty());
    }
    while i < v.len()
        invariant
            start <= i <= v.len(),
            start == 1 <==> v@.len() >= 1 && v@[0] == '+',
            d == (if v@.len() >= 1 && v@[0] == '+' {
                v@.skip(1)
            } else {
                v@
            }),
            d == v@.skip(start as int),
            d.len() == v@.len() - start,
            forall|j: int| 0 <= j < i - start ==> is_digit(#[trigger] d[j]),
            acc as nat == digits_value(d.take(i - start)),
        decreases v.len() - i,
    {
        let c = v[i];
        proof {
            assert(d[i - start] == v@[i as int]);
        }
        let u = c as u32;
        if !(0x30 <= u && u <= 0x39) {
            proof {
                assert(!is_digit(d[i - start]));
                assert(!all_digits(d));
            }
            return None;
        }
        let dig: u64 = (u - 0x30) as u64;
        let ghost grown = d.take(i - start + 1);
        proof {
            assert(grown.drop_last() =~= d.take(i - start));
            assert(grown.last() == d[i - start]);
            assert(digits_value(grown) == acc as nat * 10 + dig as nat);
        }
        let next = match acc.checked_mul(10) {
            Some(x) => x.checked_add(dig),
            None => None,
        };
        match next {
            Some(x) => {
                acc = x;
            },
            None => {
                proof {
                    assert(digits_value(grown) > u64::MAX);
                    lemma_digits_value_take_le(d, i - start + 1);
                }
                return None;
            },
        }
        i = i + 1;
    }
    proof {
        assert(d.take(v@.len() - start) =~= d);
        assert(all_digits(d));
    }
    Some(acc)
}

/// Parses message text. `None` means the text is no command at all; a
/// recognized command comes back typed, a malformed one with its error.
pub fn parse(text: &str) -> (r: Option<Result<Command, ParseError>>)
    ensures
        parse_result_view(r) == spec_parse(text@),
{
    let chars = str_chars(text);
    let prefix = str_chars("one-word");
    proof {
        reveal_strlit("one-word");
    }
    if chars.len() < prefix.len() {
        return None;
    }
    let mut i: usize = 0;
    while i < prefix.len()
        invariant
            i <= prefix.len(),
            chars@ == text@,
            prefix@ == "one-word"@,
            prefix@.len() <= chars@.len(),
            forall|j: int| 0 <= j < i ==> chars@[j] == prefix@[j],
        decreases prefix.len() - i,
    {
        if chars[i] != prefix[i] {
            proof {
                assert(text@.take(prefix@.len() as int)[i as int] != prefix@[i as int]);
            }
            return None;
        }
        i = i + 1;
    }
    proof {
        assert(text@.take(prefix@.len() as int) =~= prefix@);
        assert(has_prefix(text@, "one-word"@));
    }
    let toks = tokenize_chars(&chars);
    proof {
        assert(toks.deep_view().len() == toks@.len());
    }
    if toks.len() < 3 {
        return Some(Err(ParseError::Usage));
    }
    proof {
        assert(toks.deep_view()[1] == toks@[1]@);
        assert(toks.deep_view()[2] == toks@[2]@);
    }
    if keyword_matches(&toks[1], "set-channel") {
        proof {
            reveal_strlit("set-channel");
        }
        let stripped = strip_decoration(&toks[2]);
        match parse_u64_chars(&stripped) {
            Some(id) => Some(Ok(Command::SetChannel(id))),
            None => Some(Err(ParseError::InvalidChannel)),
        }
    } else if keyword_matches(&toks[1], "ban") {
        proof {
            reveal_strlit("ban");
        }
        let word = chars_to_string(&toks[2]);
        Some(Ok(Command::BanWord(word)))
    } else if keyword_matches(&toks[1], "unban") {
        proof {
            reveal_strlit("unban");
        }
        let word = chars_to_string(&toks[2]);
        Some(Ok(Command::UnbanWord(word)))
    } else {
        Some(Err(ParseError::InvalidCommand))
    }
}

} // verus!
