use chat_pairs::message::Message;
use chat_pairs::window::{get_prompt, within_window, WINDOW_MICROS};

const MIN: i64 = 60_000_000;

fn msg(id: u64, author: u64, minute: i64, content: &str, reference: Option<u64>) -> Message {
    Message {
        id,
        content: content.to_string(),
        timestamp: minute * MIN,
        author,
        reference,
    }
}

const WHO: u64 = 7;

#[test]
fn prompt_joins_lines_oldest_first() {
    let msgs = vec![
        msg(1, 5, 0, "filler", None),
        msg(2, 1, 1, "hi", None),
        msg(3, 2, 2, "yo", None),
        msg(4, WHO, 3, "sup", None),
        msg(5, WHO, 4, "ok", None),
    ];
    assert_eq!(get_prompt(&msgs, 3, WHO), Some("hi\nyo".to_string()));
    // The previous message is the target author's own: the walk stops at once.
    assert_eq!(get_prompt(&msgs, 4, WHO), None);
}

#[test]
fn position_zero_never_in_context() {
    let msgs = vec![
        msg(1, 1, 0, "hi", None),
        msg(2, 2, 1, "yo", None),
        msg(3, WHO, 2, "sup", None),
    ];
    assert_eq!(get_prompt(&msgs, 2, WHO), Some("yo".to_string()));
}

#[test]
fn first_position_gives_no_prompt() {
    let msgs = vec![msg(1, WHO, 0, "first", None), msg(2, 1, 1, "x", None)];
    assert_eq!(get_prompt(&msgs, 0, WHO), None);
}

#[test]
fn reference_anchors_the_window() {
    let msgs = vec![
        msg(1, 5, 0, "filler", None),
        msg(2, 1, 12, "context", None),
        msg(3, 2, 15, "question", None),
        msg(4, 3, 30, "noise", None),
        msg(5, WHO, 35, "answer", Some(3)),
    ];
    assert_eq!(get_prompt(&msgs, 4, WHO), Some("context\nquestion".to_string()));
}

#[test]
fn without_reference_the_reply_anchors() {
    let msgs = vec![
        msg(1, 5, 0, "filler", None),
        msg(2, 1, 12, "context", None),
        msg(3, 2, 15, "question", None),
        msg(4, 3, 30, "noise", None),
        msg(5, WHO, 35, "answer", None),
    ];
    assert_eq!(get_prompt(&msgs, 4, WHO), Some("noise".to_string()));
}

#[test]
fn unknown_reference_falls_back() {
    let msgs = vec![
        msg(1, 5, 0, "filler", None),
        msg(2, 1, 12, "context", None),
        msg(3, 2, 15, "question", None),
        msg(4, 3, 30, "noise", None),
        msg(5, WHO, 35, "answer", Some(999)),
    ];
    assert_eq!(get_prompt(&msgs, 4, WHO), Some("noise".to_string()));
}

#[test]
fn reference_to_previous_message_is_not_resolved() {
    // Resolving the reference would anchor at minute 20 and take "a" too.
    let msgs = vec![
        msg(1, 5, 0, "filler", None),
        msg(2, 1, 12, "a", None),
        msg(3, 2, 20, "b", None),
        msg(4, WHO, 25, "r", Some(3)),
    ];
    assert_eq!(get_prompt(&msgs, 3, WHO), Some("b".to_string()));
}

#[test]
fn at_most_five_lines() {
    let mut msgs = vec![msg(1, 5, 0, "filler", None)];
    for k in 1..=7u64 {
        msgs.push(msg(1 + k, 10 + k, k as i64, &format!("l{k}"), None));
    }
    msgs.push(msg(20, WHO, 8, "r", None));
    let p = get_prompt(&msgs, 8, WHO).unwrap();
    assert_eq!(p, "l3\nl4\nl5\nl6\nl7");
    assert_eq!(p.split('\n').count(), 5);
}

#[test]
fn exactly_ten_minutes_is_inside() {
    let mut msgs = vec![msg(1, 5, 0, "filler", None), msg(2, 1, 0, "edge", None)];
    msgs.push(Message {
        id: 3,
        content: "r".to_string(),
        timestamp: WINDOW_MICROS,
        author: WHO,
        reference: None,
    });
    assert_eq!(get_prompt(&msgs, 2, WHO), Some("edge".to_string()));
    msgs[2].timestamp = WINDOW_MICROS + 1;
    assert_eq!(get_prompt(&msgs, 2, WHO), None);
}

#[test]
fn own_lines_stop_the_walk() {
    let msgs = vec![
        msg(1, 5, 0, "filler", None),
        msg(2, 1, 1, "a", None),
        msg(3, WHO, 2, "mine", None),
        msg(4, 2, 3, "b", None),
        msg(5, WHO, 4, "r", None),
    ];
    let p = get_prompt(&msgs, 4, WHO).unwrap();
    assert_eq!(p, "b");
    assert!(!p.contains("mine"));
}

#[test]
fn empty_messages_give_no_line() {
    let msgs = vec![
        msg(1, 5, 0, "filler", None),
        msg(2, 1, 1, "a", None),
        msg(3, 2, 2, "", None),
        msg(4, WHO, 3, "r", None),
    ];
    assert_eq!(get_prompt(&msgs, 3, WHO), Some("a".to_string()));
}

#[test]
fn only_empty_context_gives_none() {
    let msgs = vec![
        msg(1, 5, 0, "filler", None),
        msg(2, 1, 1, "", None),
        msg(3, 2, 2, "", None),
        msg(4, WHO, 3, "r", None),
    ];
    assert_eq!(get_prompt(&msgs, 3, WHO), None);
}

#[test]
fn window_bounds_at_extremes() {
    assert!(within_window(0, 0));
    assert!(within_window(WINDOW_MICROS, 0));
    assert!(!within_window(WINDOW_MICROS + 1, 0));
    assert!(within_window(i64::MIN, i64::MAX));
    assert!(!within_window(i64::MAX, i64::MIN));
}
