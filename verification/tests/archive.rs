use amardiscord::db::build;
use amardiscord::{Category, Channel, Content, Message, MessageContent, PAGE_SIZE};

fn msg(text: &str, user: &str, sent_at: i64) -> Message {
    Message {
        content: MessageContent::from_raw(text),
        username: user.to_string(),
        avatar: format!("https://example.org/{user}.png"),
        sent_at,
        rowid: 0,
    }
}

fn one_channel_content(n: i64) -> Content {
    // Messages arrive oldest-first; the store must end up newest-first.
    let messages: Vec<Message> = (0..n).map(|i| msg(&format!("message {i}"), "amar", i)).collect();
    Content {
        categories: vec![Category {
            name: "General".to_string(),
            children: vec![Channel {
                channel_id: 0,
                channel_type: 0,
                name: "chat".to_string(),
                messages: Some(messages),
            }],
        }],
        channels: vec![],
    }
}

#[test]
fn empty_build_has_no_channels() {
    let db = build(Content { categories: vec![], channels: vec![] }).unwrap();
    let list = db.get_channel_list().unwrap();
    assert!(list.categories.is_empty());
}

#[test]
fn page_zero_is_newest_first() {
    let db = build(one_channel_content(250)).unwrap();
    let page = db.get_page(1, 0).unwrap();
    assert_eq!(page.len(), PAGE_SIZE as usize);
    for w in page.windows(2) {
        assert!(w[0].sent_at >= w[1].sent_at);
    }
    assert_eq!(page[0].sent_at, 249);
}

#[test]
fn pages_split_two_hundred_fifty_messages() {
    let db = build(one_channel_content(250)).unwrap();
    assert_eq!(db.get_page(1, 0).unwrap().len(), 100);
    assert_eq!(db.get_page(1, 1).unwrap().len(), 100);
    let last = db.get_page(1, 2).unwrap();
    assert_eq!(last.len(), 50);
    // The last page holds the oldest messages.
    assert_eq!(last.last().unwrap().sent_at, 0);
    assert!(db.get_page(1, 3).unwrap().is_empty());
}

#[test]
fn go_to_message_page_contains_the_message() {
    let db = build(one_channel_content(250)).unwrap();
    for rowid in [1u64, 77, 100, 101, 250] {
        let (channel_id, channel_name, page) = db.go_to_message(rowid).unwrap();
        assert_eq!(channel_id, 1);
        assert_eq!(channel_name, "chat");
        let messages = db.get_page(channel_id, page).unwrap();
        assert!(messages.iter().any(|m| m.rowid == rowid));
    }
}

#[test]
fn go_to_message_unknown_rowid_is_not_found() {
    let db = build(one_channel_content(3)).unwrap();
    assert!(matches!(db.go_to_message(0), Err(amardiscord::Error::NotFound)));
    assert!(matches!(db.go_to_message(4), Err(amardiscord::Error::NotFound)));
}

#[test]
fn get_channel_returns_the_row() {
    let db = build(one_channel_content(1)).unwrap();
    let ch = db.get_channel(1).unwrap();
    assert_eq!(ch.channel_id, 1);
    assert_eq!(ch.channel_type, 0);
    assert_eq!(ch.name, "chat");
    assert!(ch.messages.is_none());
    assert!(matches!(db.get_channel(2), Err(amardiscord::Error::NotFound)));
    assert!(matches!(db.get_channel(0), Err(amardiscord::Error::NotFound)));
}

#[test]
fn non_text_channels_are_skipped_entirely() {
    let content = Content {
        categories: vec![Category {
            name: "General".to_string(),
            children: vec![
                Channel {
                    channel_id: 0,
                    channel_type: 2,
                    name: "voice".to_string(),
                    messages: Some(vec![msg("should not be stored", "amar", 1)]),
                },
                Channel {
                    channel_id: 0,
                    channel_type: 0,
                    name: "chat".to_string(),
                    messages: Some(vec![msg("kept", "amar", 1)]),
                },
            ],
        }],
        channels: vec![],
    };
    let db = build(content).unwrap();
    let list = db.get_channel_list().unwrap();
    assert_eq!(list.categories.len(), 1);
    assert_eq!(list.categories[0].name, "General");
    assert_eq!(list.categories[0].channels.len(), 1);
    assert_eq!(list.categories[0].channels[0].name, "chat");
    // The voice channel's messages were never materialized.
    assert_eq!(db.get_page(1, 0).unwrap().len(), 1);
    assert!(matches!(db.get_channel(2), Err(amardiscord::Error::NotFound)));
}

#[test]
fn other_channels_get_a_synthetic_category() {
    let content = Content {
        categories: vec![],
        channels: vec![Channel {
            channel_id: 0,
            channel_type: 0,
            name: "stray".to_string(),
            messages: Some(vec![msg("hello", "amar", 5)]),
        }],
    };
    let db = build(content).unwrap();
    let list = db.get_channel_list().unwrap();
    assert_eq!(list.categories.len(), 1);
    assert_eq!(list.categories[0].name, "Other channels");
    assert_eq!(list.categories[0].channels[0].name, "stray");
}

#[test]
fn adjacent_categories_with_equal_names_merge_in_the_listing() {
    let cat = |name: &str, chan: &str| Category {
        name: name.to_string(),
        children: vec![Channel {
            channel_id: 0,
            channel_type: 0,
            name: chan.to_string(),
            messages: None,
        }],
    };
    let content = Content {
        categories: vec![cat("A", "one"), cat("A", "two"), cat("B", "three")],
        channels: vec![],
    };
    let db = build(content).unwrap();
    let list = db.get_channel_list().unwrap();
    assert_eq!(list.categories.len(), 2);
    assert_eq!(list.categories[0].name, "A");
    assert_eq!(list.categories[0].channels.len(), 2);
    assert_eq!(list.categories[1].name, "B");
    assert_eq!(list.categories[1].channels.len(), 1);
}

#[test]
fn rebuilding_from_the_same_export_is_identical() {
    let db1 = build(one_channel_content(123)).unwrap();
    let db2 = build(one_channel_content(123)).unwrap();
    let l1 = db1.get_channel_list().unwrap();
    let l2 = db2.get_channel_list().unwrap();
    assert_eq!(l1.categories.len(), l2.categories.len());
    for (c1, c2) in l1.categories.iter().zip(l2.categories.iter()) {
        assert_eq!(c1.name, c2.name);
        assert_eq!(c1.channels.len(), c2.channels.len());
        for (e1, e2) in c1.channels.iter().zip(c2.channels.iter()) {
            assert_eq!(e1.name, e2.name);
            assert_eq!(e1.id, e2.id);
            assert_eq!(e1.channel_type, e2.channel_type);
        }
    }
    for page in 0..3u64 {
        let p1 = db1.get_page(1, page).unwrap();
        let p2 = db2.get_page(1, page).unwrap();
        assert_eq!(p1.len(), p2.len());
        for (m1, m2) in p1.iter().zip(p2.iter()) {
            assert_eq!(m1.content.as_str(), m2.content.as_str());
            assert_eq!(m1.rowid, m2.rowid);
            assert_eq!(m1.sent_at, m2.sent_at);
        }
    }
    for rowid in 1..=123u64 {
        let r1 = db1.go_to_message(rowid).unwrap();
        let r2 = db2.go_to_message(rowid).unwrap();
        assert_eq!(r1, r2);
    }
}

#[test]
fn equal_timestamps_keep_ingestion_order() {
    let messages = vec![msg("first", "amar", 7), msg("second", "amar", 7), msg("third", "amar", 7)];
    let content = Content {
        categories: vec![Category {
            name: "General".to_string(),
            children: vec![Channel {
                channel_id: 0,
                channel_type: 0,
                name: "chat".to_string(),
                messages: Some(messages),
            }],
        }],
        channels: vec![],
    };
    let db = build(content).unwrap();
    let page = db.get_page(1, 0).unwrap();
    let texts: Vec<&str> = page.iter().map(|m| m.content.as_str()).collect();
    assert_eq!(texts, vec!["first", "second", "third"]);
}

#[test]
fn incremental_build_pipeline() {
    let mut db = amardiscord::db::Database::new();
    db.insert_category(&Category {
        name: "General".to_string(),
        children: vec![Channel {
            channel_id: 0,
            channel_type: 0,
            name: "chat".to_string(),
            messages: Some(vec![msg("b", "amar", 2), msg("a", "amar", 1)]),
        }],
    })
    .unwrap();
    // Before the caching pass there is no page index to resolve against.
    assert!(matches!(db.go_to_message(1), Err(amardiscord::Error::NotFound)));
    db.cache();
    let (channel_id, name, page) = db.go_to_message(1).unwrap();
    assert_eq!((channel_id, name.as_str(), page), (1, "chat", 0));
    // The caching pass is a rebuild: running it again changes nothing.
    db.cache();
    let again = db.go_to_message(1).unwrap();
    assert_eq!(again.0, 1);
    assert_eq!(again.2, 0);
}

#[test]
fn sort_messages_desc_is_newest_first_and_stable() {
    let v = vec![msg("one", "a", 1), msg("three", "a", 3), msg("two", "a", 3)];
    let sorted = amardiscord::db::sort_messages_desc(&v);
    let texts: Vec<&str> = sorted.iter().map(|m| m.content.as_str()).collect();
    assert_eq!(texts, vec!["three", "two", "one"]);
}
