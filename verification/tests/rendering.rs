use amardiscord::search::SearchResult;
use amardiscord::templates::{
    wrap_partial, ChannelListTemplate, IndexTemplate, LayoutTemplate, MessagePageTemplate,
    SearchTemplate,
};
use amardiscord::{
    ChannelCategory, ChannelList, ChannelListEntry, Message, MessageContent, ScrollDirection,
};

fn msg(text: &str, user: &str, sent_at: i64, rowid: u64) -> Message {
    Message {
        content: MessageContent::from_raw(text),
        username: user.to_string(),
        avatar: String::new(),
        sent_at,
        rowid,
    }
}

#[test]
fn index_page_is_fixed() {
    let page = IndexTemplate::render();
    assert!(page.starts_with("<!DOCTYPE html>"));
    assert!(page.contains("<div id=\"channels\"></div>"));
}

#[test]
fn layout_escapes_the_title_and_keeps_the_content() {
    let page = LayoutTemplate::render("a < b", "<p>hi</p>");
    assert_eq!(
        page,
        "<!DOCTYPE html>\n<html>\n<head><title>a &#60; b</title></head>\n<body>\n<p>hi</p>\n</body>\n</html>\n"
    );
}

fn sample_list() -> ChannelList {
    ChannelList {
        categories: vec![ChannelCategory {
            name: "Gen & Misc".to_string(),
            channels: vec![
                ChannelListEntry { name: "chat".to_string(), id: 1, channel_type: 0 },
                ChannelListEntry { name: "a<b".to_string(), id: 2, channel_type: 0 },
            ],
        }],
    }
}

#[test]
fn channel_list_renders_links_and_escapes_names() {
    let html = ChannelListTemplate::render(&sample_list(), Some(2));
    assert!(html.contains("Gen &#38; Misc"));
    assert!(html.contains("<li class=\"channel\"><a href=\"/channel/1/0\">chat</a></li>"));
    assert!(html.contains("<li class=\"channel current\"><a href=\"/channel/2/0\">a&#60;b</a></li>"));
}

#[test]
fn message_page_groups_consecutive_authors() {
    // Pages arrive newest first; the rendering shows oldest first.
    let messages = vec![
        msg("third", "bob", 3, 13),
        msg("second", "alice", 2, 12),
        msg("first", "alice", 1, 11),
    ];
    let html = MessagePageTemplate::render(
        &messages,
        7,
        "chat".to_string(),
        0,
        ScrollDirection::Down,
        None,
    );
    assert!(html.starts_with(
        "<section class=\"message-page\" data-channel-id=\"7\" data-page=\"0\" data-direction=\"down\" data-channel-name=\"chat\">"
    ));
    let alice = html.find("data-username=\"alice\"").unwrap();
    let bob = html.find("data-username=\"bob\"").unwrap();
    assert!(alice < bob, "oldest author group comes first");
    let first = html.find("id=\"message-11\"").unwrap();
    let second = html.find("id=\"message-12\"").unwrap();
    assert!(first < second, "messages are shown oldest first");
    assert_eq!(html.matches("message-group").count(), 2);
    assert!(!html.contains("highlighted"));
}

#[test]
fn message_page_highlights_the_target_group() {
    let messages = vec![msg("b", "bob", 2, 22), msg("a", "alice", 1, 21)];
    let html = MessagePageTemplate::render(
        &messages,
        1,
        "chat".to_string(),
        0,
        ScrollDirection::Both,
        Some(22),
    );
    assert!(html.contains("<div class=\"message-group highlighted\" data-username=\"bob\">"));
    assert!(html.contains("<div class=\"message-group\" data-username=\"alice\">"));
}

#[test]
fn empty_message_page_renders_nothing() {
    let html = MessagePageTemplate::render(
        &vec![],
        1,
        "chat".to_string(),
        5,
        ScrollDirection::Unspecified,
        None,
    );
    assert_eq!(html, "");
}

#[test]
fn search_results_render_jump_links() {
    let hits = vec![
        SearchResult { message_rowid: 9, channel_id: 2, message: msg("newer", "zoe", 8, 9) },
        SearchResult { message_rowid: 4, channel_id: 1, message: msg("older", "zoe", 3, 4) },
    ];
    let html = SearchTemplate::render(&hits);
    assert!(html.starts_with("<section class=\"search-results\">"));
    assert_eq!(html.matches("search-group").count(), 1);
    let older = html.find("/message/4").unwrap();
    let newer = html.find("/message/9").unwrap();
    assert!(older < newer, "hits are shown oldest first");
}

#[test]
fn wrap_partial_skips_the_layout_for_in_page_requests() {
    let partial = wrap_partial(true, "title", "<p>x</p>".to_string());
    assert_eq!(partial, "<p>x</p>");
    let full = wrap_partial(false, "title", "<p>x</p>".to_string());
    assert!(full.starts_with("<!DOCTYPE html>"));
    assert!(full.contains("<p>x</p>"));
}
