use amardiscord::content::{parse_ordinal, sort_by_ordinal, u64_to_string};
use amardiscord::db::build;
use amardiscord::search::{fts_filter, fts_query, SearchQuery};
use amardiscord::{Category, Channel, Content, Message, MessageContent};

#[test]
fn test_fts_query() {
    assert_eq!(
        fts_query(r#"I *search* """ for"  STUFF! 山İ"#),
        "\"i\" AND \"search\" AND \"for\" AND \"stuff\" AND \"山i\u{307}\""
    )
}

#[test]
fn test_deserialize_with_emotes() {
    let message_content: MessageContent =
        MessageContent::from_raw("FrankerZ looks like <:FrankerZ:245226326636757002>");

    assert_eq!(
        message_content.as_str(),
        r#"FrankerZ looks like <img class="emote" alt="FrankerZ" src="https://cdn.discordapp.com/emojis/245226326636757002.png"/>"#
    );
}

#[test]
fn animated_emotes_use_gif() {
    let rendered = MessageContent::from_raw("look <a:party:12345> go");
    assert_eq!(
        rendered.as_str(),
        r#"look <img class="emote" alt="party" src="https://cdn.discordapp.com/emojis/12345.gif"/> go"#
    );
}

#[test]
fn markup_is_escaped() {
    let rendered = MessageContent::from_raw(r#"<script>alert("hi & bye")</script>"#);
    assert_eq!(
        rendered.as_str(),
        "&#60;script&#62;alert(&#34;hi &#38; bye&#34;)&#60;/script&#62;"
    );
}

#[test]
fn malformed_emote_tags_stay_escaped() {
    assert_eq!(MessageContent::from_raw("<:noid:>").as_str(), "&#60;:noid:&#62;");
    assert_eq!(MessageContent::from_raw("<:1 2:3>").as_str(), "&#60;:1 2:3&#62;");
    assert_eq!(MessageContent::from_raw("<ab:x:1>").as_str(), "&#60;ab:x:1&#62;");
}

#[test]
fn fts_filter_strips_and_lowercases() {
    assert_eq!(fts_filter("He*LLO, W-orld 9!"), "hello world 9");
    assert_eq!(fts_filter("***"), "");
}

#[test]
fn fts_query_of_blank_input_is_empty() {
    assert_eq!(fts_query("   "), "");
    assert_eq!(fts_query("!!! ???"), "");
}

#[test]
fn build_constructs_the_statement_and_parameters() {
    let q = SearchQuery { username: None, content: "hello world".to_string() };
    let (sql, params) = q.build().unwrap();
    assert!(sql.starts_with("\nSELECT"));
    assert!(sql.contains("messages_fts.content MATCH ?1\n"));
    assert!(!sql.contains("username MATCH"));
    assert!(sql.ends_with("ORDER BY messages.sent_at DESC;\n"));
    assert_eq!(params, vec!["\"hello\" AND \"world\"".to_string()]);

    let q = SearchQuery { username: Some("Amar".to_string()), content: "hi".to_string() };
    let (sql, params) = q.build().unwrap();
    assert!(sql.contains("messages_fts.username MATCH ?1 OR\n"));
    assert!(sql.contains("messages_fts.content MATCH ?2\n"));
    assert_eq!(params, vec!["*\"\"amar\"\"*".to_string(), "\"hi\"".to_string()]);
}

fn searchable_content() -> Content {
    let m = |text: &str, user: &str, at: i64| Message {
        content: MessageContent::from_raw(text),
        username: user.to_string(),
        avatar: String::new(),
        sent_at: at,
        rowid: 0,
    };
    Content {
        categories: vec![Category {
            name: "General".to_string(),
            children: vec![Channel {
                channel_id: 0,
                channel_type: 0,
                name: "chat".to_string(),
                messages: Some(vec![
                    m("the quick brown fox", "Renard", 1),
                    m("lazy dogs sleep", "Azor", 2),
                    m("quick dogs bark", "Renard", 3),
                ]),
            }],
        }],
        channels: vec![],
    }
}

#[test]
fn empty_search_filter_returns_nothing() {
    let db = build(searchable_content()).unwrap();
    let hits = db.get_search(SearchQuery { username: None, content: String::new() }).unwrap();
    assert!(hits.is_empty());
}

#[test]
fn search_requires_every_token_newest_first() {
    let db = build(searchable_content()).unwrap();
    let hits =
        db.get_search(SearchQuery { username: None, content: "QUICK!".to_string() }).unwrap();
    assert_eq!(hits.len(), 2);
    assert!(hits[0].message.sent_at >= hits[1].message.sent_at);
    assert!(hits[0].message.content.as_str().contains("bark"));
    assert!(hits[1].message.content.as_str().contains("fox"));

    let hits =
        db.get_search(SearchQuery { username: None, content: "quick dogs".to_string() }).unwrap();
    assert_eq!(hits.len(), 1);
    assert!(hits[0].message.content.as_str().contains("bark"));

    let hits =
        db.get_search(SearchQuery { username: None, content: "nothing here".to_string() }).unwrap();
    assert!(hits.is_empty());
}

#[test]
fn search_hits_carry_channel_and_rowid() {
    let db = build(searchable_content()).unwrap();
    let hits = db.get_search(SearchQuery { username: None, content: "fox".to_string() }).unwrap();
    assert_eq!(hits.len(), 1);
    assert_eq!(hits[0].channel_id, 1);
    assert_eq!(hits[0].message_rowid, 3);
    assert_eq!(hits[0].message.rowid, 3);
}

#[test]
fn username_filter_matches_substrings() {
    let db = build(searchable_content()).unwrap();
    let q = SearchQuery { username: Some("nar".to_string()), content: "zzz".to_string() };
    let hits = db.get_search(q).unwrap();
    assert_eq!(hits.len(), 2);
    assert!(hits.iter().all(|h| h.message.username == "Renard"));
}

#[test]
fn parse_ordinal_accepts_decimal_digits_only() {
    assert_eq!(parse_ordinal("17"), Some(17));
    assert_eq!(parse_ordinal("0"), Some(0));
    assert_eq!(parse_ordinal(""), None);
    assert_eq!(parse_ordinal("12a"), None);
    assert_eq!(parse_ordinal("-3"), None);
    assert_eq!(parse_ordinal("4294967295"), Some(u32::MAX));
    assert_eq!(parse_ordinal("4294967296"), None);
}

#[test]
fn sort_by_ordinal_orders_ascending() {
    let cat = |name: &str| Category { name: name.to_string(), children: vec![] };
    let sorted = sort_by_ordinal(vec![(3, cat("c")), (1, cat("a")), (2, cat("b"))]);
    let names: Vec<&str> = sorted.iter().map(|(_, c)| c.name.as_str()).collect();
    assert_eq!(names, vec!["a", "b", "c"]);
    assert_eq!(sorted[0].0, 1);
}

#[test]
fn u64_to_string_renders_decimal() {
    assert_eq!(u64_to_string(0), "0");
    assert_eq!(u64_to_string(7), "7");
    assert_eq!(u64_to_string(1234567890), "1234567890");
    assert_eq!(u64_to_string(u64::MAX), "18446744073709551615");
}

#[test]
fn degenerate_search_input_matches_nothing() {
    let db = build(searchable_content()).unwrap();
    let hits = db.get_search(SearchQuery { username: None, content: "!!! ???".to_string() }).unwrap();
    assert!(hits.is_empty());
    let q = SearchQuery { username: Some("***".to_string()), content: "???".to_string() };
    assert!(db.get_search(q).unwrap().is_empty());
}
