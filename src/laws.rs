use vstd::prelude::*;

use crate::dataset::{channel_pairs, pair_at, pairs_upto};
use crate::message::Message;
use crate::order::sorted_by_time;
use crate::window::{
    anchor_time, context_of, find_id, join_lines, prompt_of, resolved, texts, walk, walk_continues,
    walk_start,
    MAX_LINES, WINDOW_MICROS,
};

verus! {

/// `s` lists positions newest first, each in `lo+1..=hi`, none of them of
/// `who`, none empty, each within the window that ends at `anchor`, and no
/// more than the line limit of them.
spec fn well_taken(msgs: Seq<Message>, s: Seq<int>, who: u64, anchor: i64, lo: int, hi: int) -> bool {
    &&& s.len() <= MAX_LINES
    &&& forall|q: int|
        0 <= q < s.len() ==> {
            &&& lo < #[trigger] s[q] <= hi
            &&& msgs[s[q]].author != who
            &&& msgs[s[q]].content@.len() > 0
            &&& anchor - msgs[s[q]].timestamp <= WINDOW_MICROS
        }
    &&& forall|a: int, b: int| 0 <= a < b < s.len() ==> s[a] > s[b]
}

/// The walk only ever adds positions that keep `well_taken`.
proof fn lemma_walk(msgs: Seq<Message>, c: int, who: u64, anchor: i64, taken: Seq<int>, hi: int)
    requires
        0 <= c <= hi < msgs.len(),
        well_taken(msgs, taken, who, anchor, c, hi),
    ensures
        well_taken(msgs, walk(msgs, c, who, anchor, taken), who, anchor, 0, hi),
    decreases c,
{
    if c > 0 && walk_continues(msgs, c, who, anchor, taken) {
        if msgs[c].content@.len() == 0 {
            lemma_walk(msgs, c - 1, who, anchor, taken, hi);
        } else {
            let next = taken.push(c);
            assert(well_taken(msgs, next, who, anchor, c - 1, hi));
            lemma_walk(msgs, c - 1, who, anchor, next, hi);
        }
    }
}

/// A position found by `find_id` lies in the range searched.
proof fn lemma_find_id(msgs: Seq<Message>, id: u64, lo: int, end: int)
    requires
        0 <= lo,
    ensures
        match find_id(msgs, id, lo, end) {
            Some(p) => lo <= p < end,
            None => true,
        },
    decreases end - lo,
{
    if lo < end && msgs[lo].id != id {
        lemma_find_id(msgs, id, lo + 1, end);
    }
}

/// The context of a reply at `i > 0` is what the walk from its start
/// collects, seen oldest first, and the start lies before the reply.
proof fn lemma_context(msgs: Seq<Message>, i: int, who: u64)
    requires
        0 < i < msgs.len(),
    ensures
        0 <= walk_start(msgs, i) < i,
        well_taken(
            msgs,
            context_of(msgs, i, who).reverse(),
            who,
            anchor_time(msgs, i),
            0,
            walk_start(msgs, i),
        ),
{
    match msgs[i].reference {
        Some(id) => lemma_find_id(msgs, id, 0, i - 1),
        None => {},
    }
    let w = walk(msgs, walk_start(msgs, i), who, anchor_time(msgs, i), Seq::empty());
    lemma_walk(msgs, walk_start(msgs, i), who, anchor_time(msgs, i), Seq::empty(), walk_start(msgs, i));
    assert(context_of(msgs, i, who).reverse() =~= w);
}

/// No context line of any reply was written by the target author.
pub proof fn self_exclusion(msgs: Seq<Message>, i: int, who: u64)
    requires
        0 <= i < msgs.len(),
    ensures
        forall|k: int|
            0 <= k < context_of(msgs, i, who).len() ==> msgs[#[trigger] context_of(
                msgs,
                i,
                who,
            )[k]].author != who,
{
    if i > 0 {
        lemma_context(msgs, i, who);
        let ctx = context_of(msgs, i, who);
        assert forall|k: int| 0 <= k < ctx.len() implies msgs[#[trigger] ctx[k]].author != who by {
            assert(ctx[k] == ctx.reverse()[ctx.len() - 1 - k]);
        }
    }
}

/// The number of newline characters in `s`.
pub open spec fn newlines(s: Seq<char>) -> nat {
    s.filter(|c: char| c == '\n').len()
}

/// A text without a newline character counts none.
proof fn lemma_no_newline(s: Seq<char>)
    requires
        !s.contains('\n'),
    ensures
        newlines(s) == 0,
    decreases s.len(),
{
    reveal(Seq::filter);
    if s.len() > 0 {
        assert(!s.drop_last().contains('\n')) by {
            if s.drop_last().contains('\n') {
                let k = choose|k: int| 0 <= k < s.drop_last().len() && s.drop_last()[k] == '\n';
                assert(s[k] == '\n');
            }
        }
        lemma_no_newline(s.drop_last());
        assert(s.last() != '\n') by {
            if s.last() == '\n' {
                assert(s[s.len() - 1] == '\n');
            }
        }
    }
}

/// Joining lines that hold no newline of their own adds one between each two.
proof fn lemma_join_newlines(lines: Seq<Seq<char>>)
    requires
        lines.len() > 0,
        forall|k: int| 0 <= k < lines.len() ==> !(#[trigger] lines[k]).contains('\n'),
    ensures
        newlines(join_lines(lines)) + 1 == lines.len(),
    decreases lines.len(),
{
    if lines.len() == 1 {
        lemma_no_newline(lines[0]);
    } else {
        let init = lines.drop_last();
        assert forall|k: int| 0 <= k < init.len() implies !(#[trigger] init[k]).contains('\n') by {
            assert(init[k] == lines[k]);
        }
        lemma_join_newlines(init);
        let f = |c: char| c == '\n';
        let nl = seq!['\n'];
        reveal_with_fuel(Seq::filter, 2);
        assert(nl.drop_last() =~= Seq::<char>::empty());
        assert(nl.filter(f).len() == 1);
        Seq::filter_distributes_over_add(join_lines(init), nl, f);
        Seq::filter_distributes_over_add(join_lines(init) + nl, lines.last(), f);
        assert(!lines[lines.len() - 1].contains('\n'));
        lemma_no_newline(lines.last());
    }
}

/// A reply's context has at most five lines; where none of those lines holds
/// a newline of its own, the prompt has at most five newline-separated lines.
pub proof fn length_bound(msgs: Seq<Message>, i: int, who: u64)
    requires
        0 <= i < msgs.len(),
    ensures
        context_of(msgs, i, who).len() <= MAX_LINES,
        (forall|k: int|
            0 <= k < context_of(msgs, i, who).len() ==> !msgs[#[trigger] context_of(
                msgs,
                i,
                who,
            )[k]].content@.contains('\n')) ==> match prompt_of(msgs, i, who) {
            Some(p) => newlines(p) + 1 <= MAX_LINES,
            None => true,
        },
{
    if i > 0 {
        lemma_context(msgs, i, who);
        let ctx = context_of(msgs, i, who);
        let lines = texts(msgs, ctx);
        if ctx.len() > 0 && forall|k: int|
            0 <= k < ctx.len() ==> !msgs[#[trigger] ctx[k]].content@.contains('\n') {
            assert forall|k: int| 0 <= k < lines.len() implies !(#[trigger] lines[k]).contains('\n') by {
                assert(lines[k] == msgs[ctx[k]].content@);
            }
            lemma_join_newlines(lines);
        }
    }
}

/// Every context line was written before the reply, within ten minutes of
/// the anchor (the referenced message, or else the reply itself), and, in a
/// time-sorted timeline, no later than the anchor.
pub proof fn time_bound(msgs: Seq<Message>, i: int, who: u64)
    requires
        0 <= i < msgs.len(),
    ensures
        forall|k: int|
            0 <= k < context_of(msgs, i, who).len() ==> {
                let p = #[trigger] context_of(msgs, i, who)[k];
                &&& 0 < p < i
                &&& anchor_time(msgs, i) - msgs[p].timestamp <= WINDOW_MICROS
                &&& sorted_by_time(msgs) ==> msgs[p].timestamp <= anchor_time(msgs, i)
            },
{
    if i > 0 {
        lemma_context(msgs, i, who);
        let ctx = context_of(msgs, i, who);
        assert forall|k: int| 0 <= k < ctx.len() implies {
            let p = #[trigger] ctx[k];
            &&& 0 < p < i
            &&& anchor_time(msgs, i) - msgs[p].timestamp <= WINDOW_MICROS
            &&& sorted_by_time(msgs) ==> msgs[p].timestamp <= anchor_time(msgs, i)
        } by {
            assert(ctx[k] == ctx.reverse()[ctx.len() - 1 - k]);
            if sorted_by_time(msgs) {
                match resolved(msgs, i) {
                    Some(r) => {
                        if ctx[k] < r {
                            assert(msgs[ctx[k]].timestamp <= msgs[r].timestamp);
                        }
                    },
                    None => {
                        assert(msgs[ctx[k]].timestamp <= msgs[i].timestamp);
                    },
                }
            }
        }
    }
}

/// A reply with empty content gives no pair, and neither does one whose
/// walk back finds no line.
pub proof fn emptiness_rule(msgs: Seq<Message>, i: int, who: u64)
    requires
        0 <= i < msgs.len(),
    ensures
        msgs[i].content@.len() == 0 ==> pair_at(msgs, i, who) is None,
        context_of(msgs, i, who).len() == 0 ==> prompt_of(msgs, i, who) is None && pair_at(
            msgs,
            i,
            who,
        ) is None,
{
}

/// The first message of a timeline gives no pair.
pub proof fn first_position_rule(msgs: Seq<Message>, who: u64)
    requires
        msgs.len() > 0,
    ensures
        context_of(msgs, 0, who).len() == 0,
        prompt_of(msgs, 0, who) is None,
        pair_at(msgs, 0, who) is None,
{
}

/// The prompt lists its lines oldest first: it joins the texts of the
/// context positions, and those positions increase (so, in a time-sorted
/// timeline, their timestamps never decrease).
pub proof fn oldest_first(msgs: Seq<Message>, i: int, who: u64)
    requires
        0 <= i < msgs.len(),
    ensures
        context_of(msgs, i, who).len() > 0 ==> prompt_of(msgs, i, who) == Some(
            join_lines(texts(msgs, context_of(msgs, i, who))),
        ),
        forall|a: int, b: int|
            0 <= a < b < context_of(msgs, i, who).len() ==> #[trigger] context_of(msgs, i, who)[a]
                < #[trigger] context_of(msgs, i, who)[b],
        sorted_by_time(msgs) ==> forall|a: int, b: int|
            0 <= a < b < context_of(msgs, i, who).len() ==> msgs[#[trigger] context_of(
                msgs,
                i,
                who,
            )[a]].timestamp <= msgs[#[trigger] context_of(msgs, i, who)[b]].timestamp,
{
    if i > 0 {
        lemma_context(msgs, i, who);
        let ctx = context_of(msgs, i, who);
        let rev = ctx.reverse();
        assert forall|a: int, b: int| 0 <= a < b < ctx.len() implies #[trigger] ctx[a] < #[trigger] ctx[b] by {
            assert(ctx[a] == rev[ctx.len() - 1 - a]);
            assert(ctx[b] == rev[ctx.len() - 1 - b]);
            assert(0 < ctx[a] && ctx[b] < msgs.len()) by {
                assert(0 < rev[ctx.len() - 1 - a]);
                assert(rev[ctx.len() - 1 - b] <= walk_start(msgs, i));
            }
        }
    }
}

/// The message at `i` is a non-empty message of `who`, and `p` is its
/// prompt and its text.
pub open spec fn gives_pair(msgs: Seq<Message>, who: u64, i: int, p: (Seq<char>, Seq<char>)) -> bool {
    &&& pair_at(msgs, i, who) == Some(p)
    &&& msgs[i].author == who
    &&& msgs[i].content@.len() > 0
    &&& prompt_of(msgs, i, who) == Some(p.0)
    &&& msgs[i].content@ == p.1
}

/// The position of the message that gives the `k`-th pair among the first
/// `n` messages.
proof fn pair_source(msgs: Seq<Message>, who: u64, n: int, k: int) -> (i: int)
    requires
        0 <= n <= msgs.len(),
        0 <= k < pairs_upto(msgs, who, n).len(),
    ensures
        0 < i < n,
        gives_pair(msgs, who, i, pairs_upto(msgs, who, n)[k]),
    decreases n,
{
    let prev = pairs_upto(msgs, who, n - 1);
    if k < prev.len() {
        pair_source(msgs, who, n - 1, k)
    } else {
        assert(context_of(msgs, 0, who).len() == 0);
        n - 1
    }
}

/// Some message of the timeline, other than the first, gives the pair `p`.
pub open spec fn has_source(msgs: Seq<Message>, who: u64, p: (Seq<char>, Seq<char>)) -> bool {
    exists|i: int| 0 < i < msgs.len() && #[trigger] gives_pair(msgs, who, i, p)
}

/// Every pair that a timeline gives comes from a non-empty message of the
/// target author that is not the first of the timeline, and is that
/// message's prompt and text; so the laws above on context lines hold of
/// every emitted prompt.
pub proof fn pairs_come_from_replies(msgs: Seq<Message>, who: u64)
    ensures
        forall|k: int|
            0 <= k < channel_pairs(msgs, who).len() ==> has_source(
                msgs,
                who,
                #[trigger] channel_pairs(msgs, who)[k],
            ),
{
    assert forall|k: int| 0 <= k < channel_pairs(msgs, who).len() implies has_source(
        msgs,
        who,
        #[trigger] channel_pairs(msgs, who)[k],
    ) by {
        let i = pair_source(msgs, who, msgs.len() as int, k);
        assert(gives_pair(msgs, who, i, channel_pairs(msgs, who)[k]));
    }
}

} // verus!
