use vstd::prelude::*;

use crate::message::{Message, Reply};
use crate::window::{get_prompt, prompt_of};

verus! {

/// The (prompt, reply) pair that the message at `i` gives: only a non-empty
/// message of `who` that has a prompt gives one.
pub open spec fn pair_at(msgs: Seq<Message>, i: int, who: u64) -> Option<(Seq<char>, Seq<char>)> {
    if msgs[i].author == who && msgs[i].content@.len() > 0 {
        match prompt_of(msgs, i, who) {
            Some(p) => Some((p, msgs[i].content@)),
            None => None,
        }
    } else {
        None
    }
}

/// The pairs that the first `n` messages of a channel give, in order.
pub open spec fn pairs_upto(msgs: Seq<Message>, who: u64, n: int) -> Seq<(Seq<char>, Seq<char>)>
    decreases n,
{
    if n <= 0 {
        Seq::empty()
    } else {
        let prev = pairs_upto(msgs, who, n - 1);
        match pair_at(msgs, n - 1, who) {
            Some(p) => prev.push(p),
            None => prev,
        }
    }
}

/// The pairs that a whole channel gives, in order.
pub open spec fn channel_pairs(msgs: Seq<Message>, who: u64) -> Seq<(Seq<char>, Seq<char>)> {
    pairs_upto(msgs, who, msgs.len() as int)
}

/// The pairs of the first `n` channels, channel after channel.
pub open spec fn dataset_upto(chs: Seq<Vec<Message>>, who: u64, n: int) -> Seq<
    (Seq<char>, Seq<char>),
>
    decreases n,
{
    if n <= 0 {
        Seq::empty()
    } else {
        dataset_upto(chs, who, n - 1) + channel_pairs(chs[n - 1]@, who)
    }
}

/// The (prompt, reply) texts of `r`.
pub open spec fn pair_views(r: Seq<Reply>) -> Seq<(Seq<char>, Seq<char>)> {
    r.map_values(|p: Reply| p@)
}

/// Every pair that one channel's timeline gives, in the order of the
/// replies.
pub fn channel_replies(channel: &[Message], who: u64) -> (r: Vec<Reply>)
    ensures
        pair_views(r@) == channel_pairs(channel@, who),
{
    let mut r: Vec<Reply> = Vec::new();
    let mut index: usize = 0;
    while index < channel.len()
        invariant
            index <= channel@.len(),
            pair_views(r@) == pairs_upto(channel@, who, index as int),
        decreases channel@.len() - index,
    {
        let message = &channel[index];
        if message.author == who && !message.content.as_str().is_empty() {
            if let Some(prompt) = get_prompt(channel, index, who) {
                let reply = message.content.clone();
                let ghost before = r@;
                r.push(Reply { prompt, reply });
                assert(pair_views(r@) =~= pair_views(before).push(r@.last()@));
            }
        }
        index = index + 1;
    }
    r
}

/// The pairs of every channel, channel after channel.
pub fn collect_replies(channels: &Vec<Vec<Message>>, who: u64) -> (r: Vec<Reply>)
    ensures
        pair_views(r@) == dataset_upto(channels@, who, channels@.len() as int),
{
    let mut r: Vec<Reply> = Vec::new();
    let mut k: usize = 0;
    while k < channels.len()
        invariant
            k <= channels@.len(),
            pair_views(r@) == dataset_upto(channels@, who, k as int),
        decreases channels@.len() - k,
    {
        let mut part = channel_replies(channels[k].as_slice(), who);
        let ghost before = r@;
        let ghost added = part@;
        r.append(&mut part);
        assert(pair_views(r@) =~= pair_views(before) + pair_views(added));
        k = k + 1;
    }
    r
}

} // verus!
