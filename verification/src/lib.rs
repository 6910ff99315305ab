//! A read-only chat archive engine: categories of channels, channels of
//! messages, with paginated retrieval, a precomputed message-to-page index,
//! and a sanitized full-text search.
//!
//! The archive is built once from loaded export content and is then queried;
//! there is no update or delete path.

use vstd::prelude::*;

pub mod content;
pub mod order;
pub mod db;
pub mod search;
pub mod templates;
pub mod text;

verus! {

/// Number of messages on one page of a channel's history.
pub const PAGE_SIZE: u64 = 100;

/// Everything loaded from an export: the ordered categories, and the
/// channels that sat under no category.
pub struct Content {
    pub categories: Vec<Category>,
    pub channels: Vec<Channel>,
}

/// A named, ordered grouping of channels.
pub struct Category {
    pub name: String,
    pub children: Vec<Channel>,
}

/// A message stream. Only channels of kind 0 (text) carry message history
/// into the archive; other kinds are skipped at ingestion.
pub struct Channel {
    pub channel_id: u64,
    pub channel_type: u64,
    pub name: String,
    pub messages: Option<Vec<Message>>,
}

/// One message: rendered content, author, avatar URL, send time, and the
/// stable row identifier the archive assigned to it (0 before ingestion).
pub struct Message {
    pub content: MessageContent,
    pub username: String,
    pub avatar: String,
    pub sent_at: i64,
    pub rowid: u64,
}

/// Message body after load-time rendering: HTML-escaped, with emote tags
/// replaced by inline image references.
pub struct MessageContent(pub String);

/// The grouped channel listing: one entry per run of channels whose
/// categories share a name, in storage order.
pub struct ChannelList {
    pub categories: Vec<ChannelCategory>,
}

/// One group of the channel listing.
pub struct ChannelCategory {
    pub name: String,
    pub channels: Vec<ChannelListEntry>,
}

/// One channel of the channel listing.
pub struct ChannelListEntry {
    pub name: String,
    pub id: u64,
    pub channel_type: u64,
}

/// Which way a page request scrolls; only the presentation layer reads it.
#[derive(Clone, Copy, PartialEq, Eq, Structural, Debug)]
pub enum ScrollDirection {
    Up,
    Down,
    Both,
    Unspecified,
}

impl Default for ScrollDirection {
    fn default() -> (r: Self)
        ensures
            r == ScrollDirection::Unspecified,
    {
        ScrollDirection::Unspecified
    }
}

/// What can go wrong in the archive: a lookup that found nothing, or a
/// failure described by a message.
#[derive(Debug)]
pub enum Error {
    NotFound,
    Generic(String),
}

impl View for MessageContent {
    type V = Seq<char>;

    open spec fn view(&self) -> Seq<char> {
        self.0@
    }
}

impl MessageContent {
    /// The rendered message body.
    pub fn as_str(&self) -> (r: &str)
        ensures
            r@ == self@,
    {
        self.0.as_str()
    }
}

/// The mathematical value of a message: its field contents.
#[verifier::ext_equal]
pub struct MessageV {
    pub content: Seq<char>,
    pub username: Seq<char>,
    pub avatar: Seq<char>,
    pub sent_at: i64,
    pub rowid: u64,
}

impl View for Message {
    type V = MessageV;

    open spec fn view(&self) -> MessageV {
        MessageV {
            content: self.content@,
            username: self.username@,
            avatar: self.avatar@,
            sent_at: self.sent_at,
            rowid: self.rowid,
        }
    }
}

impl DeepView for Message {
    type V = MessageV;

    open spec fn deep_view(&self) -> MessageV {
        self@
    }
}

/// The mathematical value of a channel.
#[verifier::ext_equal]
pub struct ChannelV {
    pub channel_id: u64,
    pub channel_type: u64,
    pub name: Seq<char>,
    pub messages: Option<Seq<MessageV>>,
}

impl View for Channel {
    type V = ChannelV;

    open spec fn view(&self) -> ChannelV {
        ChannelV {
            channel_id: self.channel_id,
            channel_type: self.channel_type,
            name: self.name@,
            messages: match self.messages {
                Some(v) => Some(v.deep_view()),
                None => None,
            },
        }
    }
}

impl DeepView for Channel {
    type V = ChannelV;

    open spec fn deep_view(&self) -> ChannelV {
        self@
    }
}

/// The mathematical value of a category.
#[verifier::ext_equal]
pub struct CategoryV {
    pub name: Seq<char>,
    pub children: Seq<ChannelV>,
}

impl View for Category {
    type V = CategoryV;

    open spec fn view(&self) -> CategoryV {
        CategoryV { name: self.name@, children: self.children.deep_view() }
    }
}

impl DeepView for Category {
    type V = CategoryV;

    open spec fn deep_view(&self) -> CategoryV {
        self@
    }
}

/// The mathematical value of one channel of the listing.
#[verifier::ext_equal]
pub struct ChannelListEntryV {
    pub name: Seq<char>,
    pub id: u64,
    pub channel_type: u64,
}

impl View for ChannelListEntry {
    type V = ChannelListEntryV;

    open spec fn view(&self) -> ChannelListEntryV {
        ChannelListEntryV { name: self.name@, id: self.id, channel_type: self.channel_type }
    }
}

impl DeepView for ChannelListEntry {
    type V = ChannelListEntryV;

    open spec fn deep_view(&self) -> ChannelListEntryV {
        self@
    }
}

/// The mathematical value of one group of the listing.
#[verifier::ext_equal]
pub struct ChannelCategoryV {
    pub name: Seq<char>,
    pub channels: Seq<ChannelListEntryV>,
}

impl View for ChannelCategory {
    type V = ChannelCategoryV;

    open spec fn view(&self) -> ChannelCategoryV {
        ChannelCategoryV { name: self.name@, channels: self.channels.deep_view() }
    }
}

impl DeepView for ChannelCategory {
    type V = ChannelCategoryV;

    open spec fn deep_view(&self) -> ChannelCategoryV {
        self@
    }
}

/// The mathematical value of the channel listing.
#[verifier::ext_equal]
pub struct ChannelListV {
    pub categories: Seq<ChannelCategoryV>,
}

impl View for ChannelList {
    type V = ChannelListV;

    open spec fn view(&self) -> ChannelListV {
        ChannelListV { categories: self.categories.deep_view() }
    }
}

/// The mathematical value of loaded content.
#[verifier::ext_equal]
pub struct ContentV {
    pub categories: Seq<CategoryV>,
    pub channels: Seq<ChannelV>,
}

impl View for Content {
    type V = ContentV;

    open spec fn view(&self) -> ContentV {
        ContentV { categories: self.categories.deep_view(), channels: self.channels.deep_view() }
    }
}

} // verus!
