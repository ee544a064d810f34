//! The story aggregator: walks recent channel history newest-first,
//! reconstructs the story in budget-bounded chunks, and emits the output
//! blocks in the order they are to be posted.
use vstd::prelude::*;
use vstd::string::*;

use crate::text::is_dot;

verus! {

/// At most this many history entries are consumed per run.
pub const HISTORY_LIMIT: usize = 250;

/// A chunk is flushed before its joined body would pass this many
/// characters.
pub const CHUNK_BUDGET: usize = 4096;

/// One entry of the channel history, newest first.
pub struct HistoryMessage {
    pub text: String,
    pub author_is_bot: bool,
}

/// The mathematical shape of a history entry.
pub struct MessageView {
    pub text: Seq<char>,
    pub bot: bool,
}

impl View for HistoryMessage {
    type V = MessageView;

    open spec fn view(&self) -> MessageView {
        MessageView { text: self.text@, bot: self.author_is_bot }
    }
}

impl DeepView for HistoryMessage {
    type V = MessageView;

    open spec fn deep_view(&self) -> MessageView {
        self@
    }
}

/// One block to post and pin.
pub struct OutputBlock {
    pub title: String,
    pub body: String,
}

/// The mathematical shape of an output block.
pub struct BlockView {
    pub title: Seq<char>,
    pub body: Seq<char>,
}

impl View for OutputBlock {
    type V = BlockView;

    open spec fn view(&self) -> BlockView {
        BlockView { title: self.title@, body: self.body@ }
    }
}

impl DeepView for OutputBlock {
    type V = BlockView;

    open spec fn deep_view(&self) -> BlockView {
        self@
    }
}

/// Texts joined by single spaces, in the given order.
pub open spec fn join_spaced(ts: Seq<Seq<char>>) -> Seq<char>
    decreases ts.len(),
{
    if ts.len() == 0 {
        Seq::empty()
    } else if ts.len() == 1 {
        ts[0]
    } else {
        ts[0] + seq![' '] + join_spaced(ts.skip(1))
    }
}

/// The first flush is titled `Story so far`, every later one `continued`.
pub open spec fn spec_title(first: bool) -> Seq<char> {
    if first {
        "Story so far"@
    } else {
        "continued"@
    }
}

/// Flushing a chunk: an empty chunk yields no block; a non-empty one yields
/// one block whose body reads chronologically, oldest fragment first — the
/// chunk, collected newest-first, is reversed before joining.
pub open spec fn spec_flush(chunk: Seq<Seq<char>>, first: bool) -> Seq<BlockView> {
    if chunk.len() == 0 {
        Seq::empty()
    } else {
        seq![BlockView { title: spec_title(first), body: join_spaced(chunk.reverse()) }]
    }
}

/// The blocks emitted from position `i` on, carrying the chunk collected so
/// far, its running character count, and whether no flush has happened yet.
/// The walk stops at the consumption cap or at the terminator message;
/// bot-authored entries are skipped; a message that would push the budget
/// past the cap flushes the chunk first and starts a new one with just that
/// message.
pub open spec fn spec_collect(
    h: Seq<MessageView>,
    i: int,
    chunk: Seq<Seq<char>>,
    count: int,
    first: bool,
) -> Seq<BlockView>
    decreases h.len() - i,
{
    if i < 0 || i >= h.len() || i >= HISTORY_LIMIT {
        spec_flush(chunk, first)
    } else if h[i].text == "."@ {
        spec_flush(chunk, first)
    } else if h[i].bot {
        spec_collect(h, i + 1, chunk, count, first)
    } else {
        let len = h[i].text.len() as int;
        if count + len + 1 > CHUNK_BUDGET {
            spec_flush(chunk, first) + spec_collect(h, i + 1, seq![h[i].text], len, false)
        } else {
            spec_collect(h, i + 1, chunk.push(h[i].text), count + len + 1, first)
        }
    }
}

/// The blocks owed for a history, newest entry first.
pub open spec fn spec_aggregate(h: Seq<MessageView>) -> Seq<BlockView> {
    spec_collect(h, 0, Seq::empty(), 0, true)
}

/// Joins the chunk's fragments with single spaces in chronological order,
/// newest-first input reversed.
fn join_reversed(chunk: &Vec<String>) -> (s: String)
    ensures
        s@ == join_spaced(chunk.deep_view().reverse()),
{
    let ghost rev = chunk.deep_view().reverse();
    let n = chunk.len();
    let mut body = String::new();
    let mut k: usize = 0;
    proof {
        assert(rev.len() == n);
        if n == 0 {
            assert(body@ =~= join_spaced(rev));
        } else {
            assert(rev.skip(0) =~= rev);
            assert(body@ + join_spaced(rev) =~= join_spaced(rev));
        }
    }
    while k < n
        invariant
            k <= n,
            n == chunk.len(),
            rev == chunk.deep_view().reverse(),
            rev.len() == n,
            k < n ==> join_spaced(rev) == body@ + join_spaced(rev.skip(k as int)),
            k == n ==> body@ == join_spaced(rev),
        decreases n - k,
    {
        let ghost prev = body@;
        proof {
            assert(rev[k as int] == chunk.deep_view()[n - 1 - k as int]);
            assert(rev.skip(k as int)[0] == rev[k as int]);
            assert(rev.skip(k as int).skip(1) =~= rev.skip(k + 1 as int));
        }
        body.append(chunk[n - 1 - k].as_str());
        proof {
            assert(body@ == prev + rev[k as int]);
        }
        if k + 1 < n {
            body.append(" ");
            proof {
                reveal_strlit(" ");
                assert(" "@ =~= seq![' ']);
                assert(rev.skip(k as int).len() >= 2);
                assert(join_spaced(rev.skip(k as int)) == rev.skip(k as int)[0] + seq![' ']
                    + join_spaced(rev.skip(k as int).skip(1)));
                assert(body@ + join_spaced(rev.skip(k + 1 as int)) =~= prev + join_spaced(
                    rev.skip(k as int),
                ));
            }
        } else {
            proof {
                assert(rev.skip(k as int).len() == 1);
                assert(join_spaced(rev.skip(k as int)) == rev.skip(k as int)[0]);
                assert(body@ =~= prev + join_spaced(rev.skip(k as int)));
            }
        }
        k = k + 1;
    }
    body
}

/// Builds the block for a flush.
fn make_block(chunk: &Vec<String>, first: bool) -> (b: OutputBlock)
    requires
        chunk@.len() > 0,
    ensures
        b@ == spec_flush(chunk.deep_view(), first)[0],
        spec_flush(chunk.deep_view(), first).len() == 1,
{
    let title = if first {
        "Story so far"
    } else {
        "continued"
    };
    proof {
        reveal_strlit("Story so far");
        reveal_strlit("continued");
    }
    let body = join_reversed(chunk);
    OutputBlock { title: title.to_owned(), body }
}

/// Reconstructs the story from the channel history (newest entry first,
/// already cut to the entries strictly before the trigger). Emits the
/// ordered blocks to post and pin.
pub fn aggregate(history: &Vec<HistoryMessage>) -> (blocks: Vec<OutputBlock>)
    ensures
        blocks.deep_view() == spec_aggregate(history.deep_view()),
{
    let ghost h = history.deep_view();
    let mut blocks: Vec<OutputBlock> = Vec::new();
    let mut chunk: Vec<String> = Vec::new();
    let mut count: u128 = 0;
    let mut first: bool = true;
    let mut stopped: bool = false;
    let mut i: usize = 0;
    proof {
        assert(blocks.deep_view() =~= Seq::<BlockView>::empty());
        assert(chunk.deep_view() =~= Seq::<Seq<char>>::empty());
        assert(Seq::<BlockView>::empty() + spec_collect(h, 0, chunk.deep_view(), 0, true)
            =~= spec_collect(h, 0, chunk.deep_view(), 0, true));
    }
    while i < history.len() && i < HISTORY_LIMIT && !stopped
        invariant
            i <= history.len(),
            h == history.deep_view(),
            h.len() == history.len(),
            count <= u64::MAX,
            spec_aggregate(h) == blocks.deep_view() + spec_collect(
                h,
                i as int,
                chunk.deep_view(),
                count as int,
                first,
            ),
            stopped ==> i < h.len() && h[i as int].text == "."@,
        decreases history.len() - i, (if stopped { 0int } else { 1int }),
    {
        let m = &history[i];
        proof {
            assert(m@ == h[i as int]);
        }
        if is_dot(m.text.as_str()) {
            stopped = true;
        } else if m.author_is_bot {
            i = i + 1;
        } else {
            let len = m.text.as_str().unicode_len();
            let ghost prev_chunk = chunk.deep_view();
            let ghost prev_blocks = blocks.deep_view();
            let ghost was_first = first;
            if count + (len as u128) + 1 > CHUNK_BUDGET as u128 {
                if chunk.len() > 0 {
                    let b = make_block(&chunk, first);
                    blocks.push(b);
                    proof {
                        assert(blocks.deep_view() =~= prev_blocks + spec_flush(prev_chunk, first));
                    }
                } else {
                    proof {
                        assert(prev_chunk.len() == 0);
                        assert(blocks.deep_view() =~= prev_blocks + spec_flush(prev_chunk, first));
                    }
                }
                let mut fresh: Vec<String> = Vec::new();
                fresh.push(m.text.clone());
                chunk = fresh;
                count = len as u128;
                first = false;
                proof {
                    assert(chunk.deep_view() =~= seq![h[i as int].text]);
                    assert((prev_blocks + spec_flush(prev_chunk, was_first)) + spec_collect(
                        h,
                        i + 1 as int,
                        chunk.deep_view(),
                        count as int,
                        false,
                    ) =~= prev_blocks + (spec_flush(prev_chunk, was_first) + spec_collect(
                        h,
                        i + 1 as int,
                        chunk.deep_view(),
                        count as int,
                        false,
                    )));
                }
            } else {
                chunk.push(m.text.clone());
                count = count + (len as u128) + 1;
                proof {
                    assert(chunk.deep_view() =~= prev_chunk.push(h[i as int].text));
                }
            }
            i = i + 1;
        }
    }
    proof {
        assert(spec_collect(h, i as int, chunk.deep_view(), count as int, first) == spec_flush(
            chunk.deep_view(),
            first,
        ));
    }
    if chunk.len() > 0 {
        let ghost prev_blocks = blocks.deep_view();
        let b = make_block(&chunk, first);
        blocks.push(b);
        proof {
            assert(blocks.deep_view() =~= prev_blocks + spec_flush(chunk.deep_view(), first));
        }
    } else {
        proof {
            assert(blocks.deep_view() =~= blocks.deep_view() + spec_flush(
                chunk.deep_view(),
                first,
            ));
        }
    }
    blocks
}

/// Once the terminator is met, nothing older contributes: the blocks for a
/// history with the terminator at position `k` are those for the history
/// cut off there.
pub proof fn lemma_collect_stops_at_terminator(
    h: Seq<MessageView>,
    k: int,
    i: int,
    chunk: Seq<Seq<char>>,
    count: int,
    first: bool,
)
    requires
        0 <= i <= k < h.len(),
        h[k].text == "."@,
    ensures
        spec_collect(h, i, chunk, count, first) == spec_collect(h.take(k), i, chunk, count, first),
    decreases k - i,
{
    let ht = h.take(k);
    assert(ht.len() == k);
    if i >= HISTORY_LIMIT {
    } else if i == k {
    } else {
        assert(ht[i] == h[i]);
        if h[i].text == "."@ {
        } else if h[i].bot {
            lemma_collect_stops_at_terminator(h, k, i + 1, chunk, count, first);
        } else {
            let len = h[i].text.len() as int;
            if count + len + 1 > CHUNK_BUDGET {
                lemma_collect_stops_at_terminator(h, k, i + 1, seq![h[i].text], len, false);
            } else {
                lemma_collect_stops_at_terminator(h, k, i + 1, chunk.push(h[i].text), count + len
                    + 1, first);
            }
        }
    }
}

/// Messages older than the terminator are excluded from all blocks.
pub proof fn lemma_terminator_stops(h: Seq<MessageView>, k: int)
    requires
        0 <= k < h.len(),
        h[k].text == "."@,
    ensures
        spec_aggregate(h) == spec_aggregate(h.take(k)),
{
    lemma_collect_stops_at_terminator(h, k, 0, Seq::empty(), 0, true);
}

/// Aggregation is a pure function of the history: re-running it against an
/// unchanged history yields identical output blocks.
pub proof fn lemma_aggregate_idempotent(h1: Seq<MessageView>, h2: Seq<MessageView>)
    requires
        h1 == h2,
    ensures
        spec_aggregate(h1) == spec_aggregate(h2),
{
}

} // verus!
