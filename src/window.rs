use vstd::prelude::*;

use crate::message::Message;

verus! {

/// Ten minutes, in microseconds: the widest gap allowed between a context
/// line and the instant that anchors the context.
pub const WINDOW_MICROS: i64 = 600_000_000;

/// At most this many lines make up a prompt.
pub const MAX_LINES: usize = 5;

/// The first position in `lo..end` whose message has id `id`.
pub open spec fn find_id(msgs: Seq<Message>, id: u64, lo: int, end: int) -> Option<int>
    decreases end - lo,
{
    if lo >= end {
        None
    } else if msgs[lo].id == id {
        Some(lo)
    } else {
        find_id(msgs, id, lo + 1, end)
    }
}

/// The position of the message that the reply at `i` refers to, looked up
/// among `msgs[0..i-1]`.
pub open spec fn resolved(msgs: Seq<Message>, i: int) -> Option<int> {
    match msgs[i].reference {
        Some(id) => find_id(msgs, id, 0, i - 1),
        None => None,
    }
}

/// Where the backward walk for the reply at `i` starts.
pub open spec fn walk_start(msgs: Seq<Message>, i: int) -> int {
    match resolved(msgs, i) {
        Some(r) => r,
        None => i - 1,
    }
}

/// The instant that the ten-minute window for the reply at `i` ends at.
pub open spec fn anchor_time(msgs: Seq<Message>, i: int) -> i64 {
    match resolved(msgs, i) {
        Some(r) => msgs[r].timestamp,
        None => msgs[i].timestamp,
    }
}

/// Whether the walk may step onto position `c`.
pub open spec fn walk_continues(
    msgs: Seq<Message>,
    c: int,
    who: u64,
    anchor: i64,
    taken: Seq<int>,
) -> bool {
    &&& c != 0
    &&& taken.len() < MAX_LINES
    &&& msgs[c].author != who
    &&& anchor - msgs[c].timestamp <= WINDOW_MICROS
}

/// The positions, newest first, that the backward walk from `c` collects
/// after it has already collected `taken`.
pub open spec fn walk(msgs: Seq<Message>, c: int, who: u64, anchor: i64, taken: Seq<int>) -> Seq<
    int,
>
    decreases c,
{
    if c <= 0 || !walk_continues(msgs, c, who, anchor, taken) {
        taken
    } else if msgs[c].content@.len() == 0 {
        walk(msgs, c - 1, who, anchor, taken)
    } else {
        walk(msgs, c - 1, who, anchor, taken.push(c))
    }
}

/// The positions of the context lines for the reply at `i`, oldest first.
pub open spec fn context_of(msgs: Seq<Message>, i: int, who: u64) -> Seq<int> {
    if i <= 0 {
        Seq::empty()
    } else {
        walk(msgs, walk_start(msgs, i), who, anchor_time(msgs, i), Seq::empty()).reverse()
    }
}

/// The text of the messages at `positions`.
pub open spec fn texts(msgs: Seq<Message>, positions: Seq<int>) -> Seq<Seq<char>> {
    positions.map_values(|p: int| msgs[p].content@)
}

/// `lines` joined with a newline between each two.
pub open spec fn join_lines(lines: Seq<Seq<char>>) -> Seq<char>
    decreases lines.len(),
{
    if lines.len() == 0 {
        Seq::empty()
    } else if lines.len() == 1 {
        lines[0]
    } else {
        join_lines(lines.drop_last()) + seq!['\n'] + lines.last()
    }
}

/// The prompt for the reply at `i`: its context lines joined, or nothing
/// when there is no context.
pub open spec fn prompt_of(msgs: Seq<Message>, i: int, who: u64) -> Option<Seq<char>> {
    let ctx = context_of(msgs, i, who);
    if ctx.len() == 0 {
        None
    } else {
        Some(join_lines(texts(msgs, ctx)))
    }
}

/// The text of `s`, if any.
pub open spec fn opt_view(s: Option<String>) -> Option<Seq<char>> {
    match s {
        Some(s) => Some(s@),
        None => None,
    }
}

/// Whether a message at `ts` lies in the window that ends at `anchor`.
pub fn within_window(anchor: i64, ts: i64) -> (r: bool)
    ensures
        r == (anchor - ts <= WINDOW_MICROS),
{
    (anchor as i128) - (ts as i128) <= WINDOW_MICROS as i128
}

/// Joins `newest_first` in reverse, oldest line first, with newlines.
fn join_oldest_first(newest_first: &Vec<String>) -> (r: String)
    ensures
        r@ == join_lines(newest_first@.map_values(|s: String| s@).reverse()),
{
    let ghost lines = newest_first@.map_values(|s: String| s@).reverse();
    let nl = "\n";
    proof {
        reveal_strlit("\n");
    }
    let mut r = String::new();
    let n = newest_first.len();
    let mut k: usize = 0;
    while k < n
        invariant
            n == newest_first@.len(),
            lines.len() == n,
            k <= n,
            forall|q: int| 0 <= q < n ==> #[trigger] lines[q] == newest_first@[n - 1 - q]@,
            r@ == join_lines(lines.take(k as int)),
            nl@ == seq!['\n'],
        decreases n - k,
    {
        let line = &newest_first[n - 1 - k];
        proof {
            assert(lines.take(k + 1).drop_last() =~= lines.take(k as int));
        }
        if k > 0 {
            r.append(nl);
        } else {
            assert(lines.take(0) =~= Seq::<Seq<char>>::empty());
        }
        r.append(line.as_str());
        k = k + 1;
    }
    assert(lines.take(n as int) =~= lines);
    r
}

/// The first position before `end` whose message has id `id`.
fn find_position(messages: &[Message], id: u64, end: usize) -> (r: Option<usize>)
    requires
        end <= messages@.len(),
    ensures
        match r {
            Some(p) => p < end && find_id(messages@, id, 0, end as int) == Some(p as int),
            None => find_id(messages@, id, 0, end as int) is None,
        },
{
    let mut j: usize = 0;
    while j < end
        invariant
            j <= end <= messages@.len(),
            find_id(messages@, id, j as int, end as int) == find_id(messages@, id, 0, end as int),
        decreases end - j,
    {
        if messages[j].id == id {
            return Some(j);
        }
        j = j + 1;
    }
    None
}

/// The prompt for the message at `index`: the lines that others wrote just
/// before it, oldest first and joined with newlines, or `None` when there
/// are none.
///
/// The walk back starts at the message that the reply refers to, when that
/// message stands before `index - 1`, and otherwise at `index - 1`. It stops
/// at position 0, after five lines, at a message of `who`, or at a message
/// more than ten minutes older than the anchor (the referenced message, or
/// the reply itself). Empty messages count as steps but give no line.
pub fn get_prompt(messages: &[Message], index: usize, who: u64) -> (r: Option<String>)
    requires
        index < messages@.len(),
    ensures
        opt_view(r) == prompt_of(messages@, index as int, who),
{
    if index == 0 {
        return None;
    }
    let ghost msgs = messages@;
    let mut cursor: usize = index - 1;
    let mut reference_time = messages[index].timestamp;
    if let Some(reference) = messages[index].reference {
        if let Some(r) = find_position(messages, reference, index - 1) {
            cursor = r;
            reference_time = messages[r].timestamp;
        }
    }
    assert(cursor == walk_start(msgs, index as int));
    assert(reference_time == anchor_time(msgs, index as int));
    let ghost start = cursor as int;
    let ghost mut taken: Seq<int> = Seq::empty();
    let mut outputs: Vec<String> = Vec::new();
    while cursor != 0 && outputs.len() < MAX_LINES && messages[cursor].author != who
        && within_window(reference_time, messages[cursor].timestamp)
        invariant
            msgs == messages@,
            cursor < msgs.len(),
            outputs@.len() == taken.len(),
            forall|q: int| 0 <= q < taken.len() ==> 0 <= #[trigger] taken[q] < msgs.len(),
            forall|q: int| 0 <= q < taken.len() ==> #[trigger] outputs@[q]@ == msgs[taken[q]].content@,
            walk(msgs, cursor as int, who, reference_time, taken) == walk(
                msgs,
                start,
                who,
                reference_time,
                Seq::empty(),
            ),
        decreases cursor,
    {
        let prompt = &messages[cursor];
        if prompt.content.as_str().is_empty() {
            cursor = cursor - 1;
        } else {
            proof {
                taken = taken.push(cursor as int);
            }
            outputs.push(prompt.content.clone());
            cursor = cursor - 1;
        }
    }
    let ghost ctx = context_of(msgs, index as int, who);
    assert(taken.reverse() == ctx);
    if outputs.len() == 0 {
        None
    } else {
        let r = join_oldest_first(&outputs);
        assert(outputs@.map_values(|s: String| s@).reverse() =~= texts(msgs, ctx));
        Some(r)
    }
}

} // verus!
