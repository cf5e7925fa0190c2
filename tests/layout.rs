use chat_pairs::layout::{
    channel_files, channel_messages_file, join_path, thread_messages_file, threads_dir, walkdir,
    ChannelDir, ThreadDir,
};

#[test]
fn joins_with_one_separator() {
    assert_eq!(join_path("root", "x"), "root/x");
    assert_eq!(join_path("root/", "x"), "root/x");
    assert_eq!(join_path("", "x"), "x");
    assert_eq!(threads_dir("c"), "c/threads");
    assert_eq!(channel_messages_file("c"), "c/channel_messages.json");
    assert_eq!(thread_messages_file("t"), "t/thread_messages.json");
}

#[test]
fn walkdir_keeps_listing_order() {
    let names = vec!["b".to_string(), "a".to_string()];
    assert_eq!(walkdir("r", &names), vec!["r/b".to_string(), "r/a".to_string()]);
    assert!(walkdir("r", &Vec::new()).is_empty());
}

fn thread(path: &str, has_messages: bool) -> ThreadDir {
    ThreadDir {
        path: path.to_string(),
        has_messages,
    }
}

#[test]
fn channel_files_come_before_thread_files() {
    let channels = vec![
        ChannelDir {
            path: "c1".to_string(),
            has_messages: true,
            threads: Some(vec![thread("c1/threads/t1", true), thread("c1/threads/t2", false)]),
        },
        ChannelDir {
            path: "c2".to_string(),
            has_messages: false,
            threads: None,
        },
        ChannelDir {
            path: "c3".to_string(),
            has_messages: true,
            threads: Some(vec![thread("c3/threads/t3", true)]),
        },
    ];
    assert_eq!(
        channel_files(&channels),
        vec![
            "c1/channel_messages.json".to_string(),
            "c3/channel_messages.json".to_string(),
            "c1/threads/t1/thread_messages.json".to_string(),
            "c3/threads/t3/thread_messages.json".to_string(),
        ]
    );
    assert!(channel_files(&Vec::new()).is_empty());
}
