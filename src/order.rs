use vstd::prelude::*;

use crate::message::Message;

verus! {

/// Timestamps never decrease along `s`.
pub open spec fn sorted_by_time(s: Seq<Message>) -> bool {
    forall|a: int, b: int| 0 <= a < b < s.len() ==> s[a].timestamp <= s[b].timestamp
}

/// The predicate "was sent at instant `t`".
pub open spec fn at_time(t: i64) -> spec_fn(Message) -> bool {
    |m: Message| m.timestamp == t
}

/// `r` holds, for every instant, exactly the messages of `s` sent at that
/// instant, in the order in which `s` holds them.
pub open spec fn same_per_instant(r: Seq<Message>, s: Seq<Message>) -> bool {
    forall|t: i64| #[trigger] r.filter(at_time(t)) == s.filter(at_time(t))
}

/// Filtering by instant after a push.
proof fn lemma_filter_push(s: Seq<Message>, x: Message, t: i64)
    ensures
        s.push(x).filter(at_time(t)) == if x.timestamp == t {
            s.filter(at_time(t)).push(x)
        } else {
            s.filter(at_time(t))
        },
{
    reveal(Seq::filter);
    assert(s.push(x).drop_last() =~= s);
}

/// Merges two time-sorted runs; on equal instants the messages of `a` come
/// first.
fn merge(a: &Vec<Message>, b: &Vec<Message>) -> (r: Vec<Message>)
    requires
        sorted_by_time(a@),
        sorted_by_time(b@),
    ensures
        sorted_by_time(r@),
        forall|t: i64| #[trigger]
            r@.filter(at_time(t)) == a@.filter(at_time(t)) + b@.filter(at_time(t)),
{
    let mut r: Vec<Message> = Vec::new();
    let mut i: usize = 0;
    let mut j: usize = 0;
    while i < a.len() || j < b.len()
        invariant
            i <= a@.len(),
            j <= b@.len(),
            sorted_by_time(a@),
            sorted_by_time(b@),
            sorted_by_time(r@),
            r@.len() == i + j,
            r@.len() > 0 && i < a@.len() ==> r@.last().timestamp <= a@[i as int].timestamp,
            r@.len() > 0 && j < b@.len() ==> r@.last().timestamp <= b@[j as int].timestamp,
            i < a@.len() ==> forall|k: int| 0 <= k < j ==> b@[k].timestamp < a@[i as int].timestamp,
            forall|t: i64| #[trigger]
                r@.filter(at_time(t)) == a@.subrange(0, i as int).filter(at_time(t)) + b@.subrange(
                    0,
                    j as int,
                ).filter(at_time(t)),
        decreases a@.len() + b@.len() - i - j,
    {
        let ghost r0 = r@;
        let take_a = i < a.len() && (j >= b.len() || a[i].timestamp <= b[j].timestamp);
        if take_a {
            let x = a[i].duplicate();
            r.push(x);
            assert forall|t: i64| #[trigger]
                r@.filter(at_time(t)) == a@.subrange(0, i + 1).filter(at_time(t)) + b@.subrange(
                    0,
                    j as int,
                ).filter(at_time(t)) by {
                lemma_filter_push(r0, x, t);
                lemma_filter_push(a@.subrange(0, i as int), x, t);
                assert(a@.subrange(0, i as int).push(x) =~= a@.subrange(0, i + 1));
                if x.timestamp == t {
                    lemma_no_instant(b@.subrange(0, j as int), t);
                }
            }
            i = i + 1;
        } else {
            let x = b[j].duplicate();
            r.push(x);
            assert forall|t: i64| #[trigger]
                r@.filter(at_time(t)) == a@.subrange(0, i as int).filter(at_time(t)) + b@.subrange(
                    0,
                    j + 1,
                ).filter(at_time(t)) by {
                lemma_filter_push(r0, x, t);
                lemma_filter_push(b@.subrange(0, j as int), x, t);
                assert(b@.subrange(0, j as int).push(x) =~= b@.subrange(0, j + 1));
            }
            j = j + 1;
        }
    }
    assert(a@.subrange(0, i as int) =~= a@);
    assert(b@.subrange(0, j as int) =~= b@);
    r
}

/// No message of `s` was sent at `t`, so nothing passes the filter.
proof fn lemma_no_instant(s: Seq<Message>, t: i64)
    requires
        forall|k: int| 0 <= k < s.len() ==> s[k].timestamp != t,
    ensures
        s.filter(at_time(t)) == Seq::<Message>::empty(),
    decreases s.len(),
{
    reveal(Seq::filter);
    if s.len() > 0 {
        lemma_no_instant(s.drop_last(), t);
    }
}

/// Stable sort of `s[lo..hi]` by timestamp.
fn sort_range(s: &[Message], lo: usize, hi: usize) -> (r: Vec<Message>)
    requires
        lo <= hi <= s@.len(),
    ensures
        sorted_by_time(r@),
        same_per_instant(r@, s@.subrange(lo as int, hi as int)),
    decreases hi - lo,
{
    if hi - lo <= 1 {
        let mut r: Vec<Message> = Vec::new();
        if hi > lo {
            r.push(s[lo].duplicate());
        }
        assert(r@ =~= s@.subrange(lo as int, hi as int));
        r
    } else {
        let mid = lo + (hi - lo) / 2;
        let left = sort_range(s, lo, mid);
        let right = sort_range(s, mid, hi);
        let r = merge(&left, &right);
        assert forall|t: i64| #[trigger]
            r@.filter(at_time(t)) == s@.subrange(lo as int, hi as int).filter(at_time(t)) by {
            assert(s@.subrange(lo as int, hi as int) =~= s@.subrange(lo as int, mid as int)
                + s@.subrange(mid as int, hi as int));
            Seq::filter_distributes_over_add(
                s@.subrange(lo as int, mid as int),
                s@.subrange(mid as int, hi as int),
                at_time(t),
            );
        }
        r
    }
}

/// Sorts a channel's messages by timestamp, oldest first, keeping messages
/// with equal timestamps in the order in which they came.
pub fn sort_by_timestamp(messages: &[Message]) -> (r: Vec<Message>)
    ensures
        sorted_by_time(r@),
        same_per_instant(r@, messages@),
{
    let r = sort_range(messages, 0, messages.len());
    assert(messages@.subrange(0, messages@.len() as int) =~= messages@);
    r
}

} // verus!
