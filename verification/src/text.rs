//! Character-level text utilities: whitespace splitting shared by the
//! moderator and the command interpreter.
use vstd::prelude::*;
use vstd::string::*;

verus! {

/// The Unicode whitespace characters, as `str::split_whitespace` sees them.
pub open spec fn is_space_char(c: char) -> bool {
    let u = c as u32;
    ||| u == 0x09
    ||| u == 0x0A
    ||| u == 0x0B
    ||| u == 0x0C
    ||| u == 0x0D
    ||| u == 0x20
    ||| u == 0x85
    ||| u == 0xA0
    ||| u == 0x1680
    ||| (0x2000 <= u && u <= 0x200A)
    ||| u == 0x2028
    ||| u == 0x2029
    ||| u == 0x202F
    ||| u == 0x205F
    ||| u == 0x3000
}

fn is_space(c: char) -> (r: bool)
    ensures
        r == is_space_char(c),
{
    let u = c as u32;
    u == 0x09 || u == 0x0A || u == 0x0B || u == 0x0C || u == 0x0D || u == 0x20 || u == 0x85
        || u == 0xA0 || u == 0x1680 || (0x2000 <= u && u <= 0x200A) || u == 0x2028 || u == 0x2029
        || u == 0x202F || u == 0x205F || u == 0x3000
}

/// The whitespace-separated tokens of `s`, in order, each one non-empty.
pub open spec fn token_split(s: Seq<char>) -> Seq<Seq<char>>
    decreases s.len(),
{
    if s.len() == 0 {
        Seq::empty()
    } else if is_space_char(s[0]) {
        token_split(s.skip(1))
    } else if s.len() == 1 || is_space_char(s[1]) {
        seq![seq![s[0]]] + token_split(s.skip(1))
    } else {
        let rest = token_split(s.skip(1));
        seq![seq![s[0]] + rest[0]] + rest.skip(1)
    }
}

pub proof fn lemma_token_split_head(s: Seq<char>)
    requires
        s.len() > 0,
        !is_space_char(s[0]),
    ensures
        token_split(s).len() >= 1,
        token_split(s)[0].len() >= 1,
{
}

/// The characters of a string slice, in order.
pub fn str_chars(s: &str) -> (v: Vec<char>)
    ensures
        v@ == s@,
{
    let n = s.unicode_len();
    let mut v: Vec<char> = Vec::new();
    let mut i: usize = 0;
    while i < n
        invariant
            i <= n,
            n == s@.len(),
            v@ == s@.take(i as int),
        decreases n - i,
    {
        let c = s.get_char(i);
        v.push(c);
        proof {
            assert(s@.take(i as int).push(s@[i as int]) =~= s@.take(i + 1 as int));
        }
        i = i + 1;
    }
    proof {
        assert(s@.take(n as int) =~= s@);
    }
    v
}

/// Splits a character sequence at whitespace, walking backward so that each
/// step mirrors one unfolding of `token_split`.
pub fn tokenize_chars(chars: &Vec<char>) -> (toks: Vec<Vec<char>>)
    ensures
        toks.deep_view() == token_split(chars@),
{
    let n = chars.len();
    let mut toks: Vec<Vec<char>> = Vec::new();
    let mut i: usize = n;
    proof {
        assert(chars@.skip(n as int) =~= Seq::<char>::empty());
        assert(toks.deep_view() =~= token_split(chars@.skip(n as int)));
    }
    while i > 0
        invariant
            i <= n,
            n == chars.len(),
            toks.deep_view() == token_split(chars@.skip(i as int)),
        decreases i,
    {
        i = i - 1;
        let c = chars[i];
        proof {
            assert(chars@.skip(i as int).len() == n - i);
            assert(chars@.skip(i as int)[0] == c);
            assert(chars@.skip(i as int).skip(1) =~= chars@.skip(i + 1 as int));
            if i + 1 < n {
                assert(chars@.skip(i as int)[1] == chars@[i + 1 as int]);
            }
        }
        if is_space(c) {
            // a space extends no token: the split is that of the suffix
        } else if i + 1 == n || is_space(chars[i + 1]) {
            let ghost old_toks = toks.deep_view();
            let mut t: Vec<char> = Vec::new();
            t.push(c);
            toks.insert(0, t);
            proof {
                assert(toks.deep_view() =~~= seq![seq![c]] + old_toks);
            }
        } else {
            proof {
                lemma_token_split_head(chars@.skip(i + 1 as int));
            }
            let ghost old_toks = toks.deep_view();
            let mut t = toks.remove(0);
            t.insert(0, c);
            toks.insert(0, t);
            proof {
                assert(t@ =~= seq![c] + old_toks[0]);
                assert(toks.deep_view() =~~= seq![seq![c] + old_toks[0]] + old_toks.skip(1));
            }
        }
    }
    proof {
        assert(chars@.skip(0) =~= chars@);
    }
    toks
}

/// The whitespace-separated tokens of `s`.
pub fn tokens_of(s: &str) -> (toks: Vec<Vec<char>>)
    ensures
        toks.deep_view() == token_split(s@),
{
    let chars = str_chars(s);
    tokenize_chars(&chars)
}

/// Whether the text is exactly the single-character token `.`.
pub fn is_dot(s: &str) -> (r: bool)
    ensures
        r == (s@ == "."@),
{
    proof {
        reveal_strlit(".");
    }
    let n = s.unicode_len();
    if n != 1 {
        return false;
    }
    let c = s.get_char(0);
    if c == '.' {
        proof {
            assert(s@ =~= "."@);
        }
        true
    } else {
        false
    }
}

/// Relies on std's `FromIterator for String`: collecting characters yields
/// the string made of exactly those characters in order.
#[verifier::external_body]
pub(crate) fn chars_to_string(v: &Vec<char>) -> (s: String)
    ensures
        s@ == v@,
{
    v.iter().collect()
}

} // verus!
