use chat_pairs::dataset::{channel_replies, collect_replies};
use chat_pairs::message::Message;

const MIN: i64 = 60_000_000;
const WHO: u64 = 7;

fn msg(id: u64, author: u64, minute: i64, content: &str) -> Message {
    Message {
        id,
        content: content.to_string(),
        timestamp: minute * MIN,
        author,
        reference: None,
    }
}

fn pairs(r: &[chat_pairs::message::Reply]) -> Vec<(String, String)> {
    r.iter().map(|p| (p.prompt.clone(), p.reply.clone())).collect()
}

#[test]
fn one_pair_per_answered_reply() {
    let msgs = vec![
        msg(1, 5, 0, "filler"),
        msg(2, 1, 1, "a"),
        msg(3, WHO, 2, "mine"),
        msg(4, 2, 3, "b"),
        msg(5, WHO, 4, "r"),
    ];
    assert_eq!(
        pairs(&channel_replies(&msgs, WHO)),
        vec![
            ("a".to_string(), "mine".to_string()),
            ("b".to_string(), "r".to_string())
        ]
    );
}

#[test]
fn empty_reply_gives_no_pair() {
    let msgs = vec![msg(1, 5, 0, "filler"), msg(2, 1, 1, "a"), msg(3, WHO, 2, "")];
    assert!(channel_replies(&msgs, WHO).is_empty());
}

#[test]
fn reply_without_context_gives_no_pair() {
    let msgs = vec![msg(1, 5, 0, "filler"), msg(2, 1, 1, "a"), msg(3, WHO, 30, "late")];
    assert!(channel_replies(&msgs, WHO).is_empty());
}

#[test]
fn first_message_gives_no_pair() {
    let msgs = vec![msg(1, WHO, 0, "hello"), msg(2, 1, 1, "a")];
    assert!(channel_replies(&msgs, WHO).is_empty());
}

#[test]
fn other_authors_give_no_pair() {
    let msgs = vec![msg(1, 5, 0, "filler"), msg(2, 1, 1, "a"), msg(3, 2, 2, "b")];
    assert!(channel_replies(&msgs, WHO).is_empty());
}

#[test]
fn channels_are_concatenated_in_order() {
    let first = vec![msg(1, 5, 0, "filler"), msg(2, 1, 1, "x"), msg(3, WHO, 2, "one")];
    let second = vec![msg(4, 5, 0, "filler"), msg(5, 2, 1, "y"), msg(6, WHO, 2, "two")];
    let empty: Vec<Message> = Vec::new();
    let all = collect_replies(&vec![first, empty, second], WHO);
    assert_eq!(
        pairs(&all),
        vec![
            ("x".to_string(), "one".to_string()),
            ("y".to_string(), "two".to_string())
        ]
    );
    assert!(collect_replies(&Vec::new(), WHO).is_empty());
}
