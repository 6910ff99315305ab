//! The archive store: relational tables for categories, channels and
//! messages, a full-text projection, and a precomputed message-to-page
//! index.
//!
//! The store is built once — categories in order, each channel inserted
//! with its messages newest-first, then one caching pass that fills the
//! full-text projection and the page index — and is read-only afterwards.
//! Surrogate identifiers are assigned in insertion order, starting at 1.

use vstd::prelude::*;
use vstd::string::StringExecFns;

use crate::order::insert_ord;
use crate::order::lemma_insert_ord_split;
use crate::order::sort_ord;
use crate::Category;
use crate::CategoryV;
use crate::Channel;
use crate::ChannelV;
use crate::Content;
use crate::ContentV;
use crate::Message;
use crate::MessageV;
use crate::PAGE_SIZE;

verus! {

/// A stored category: its assigned identifier and name.
pub struct CategoryRow {
    pub category_id: u64,
    pub name: String,
}

/// The mathematical value of a stored category.
#[verifier::ext_equal]
pub struct CategoryRowV {
    pub category_id: u64,
    pub name: Seq<char>,
}

impl View for CategoryRow {
    type V = CategoryRowV;

    open spec fn view(&self) -> CategoryRowV {
        CategoryRowV { category_id: self.category_id, name: self.name@ }
    }
}

impl DeepView for CategoryRow {
    type V = CategoryRowV;

    open spec fn deep_view(&self) -> CategoryRowV {
        self@
    }
}

/// A stored channel: its assigned identifier, kind, name, and the category
/// it belongs to.
pub struct ChannelRow {
    pub channel_id: u64,
    pub channel_type: u64,
    pub name: String,
    pub category_id: u64,
}

/// The mathematical value of a stored channel.
#[verifier::ext_equal]
pub struct ChannelRowV {
    pub channel_id: u64,
    pub channel_type: u64,
    pub name: Seq<char>,
    pub category_id: u64,
}

impl View for ChannelRow {
    type V = ChannelRowV;

    open spec fn view(&self) -> ChannelRowV {
        ChannelRowV {
            channel_id: self.channel_id,
            channel_type: self.channel_type,
            name: self.name@,
            category_id: self.category_id,
        }
    }
}

impl DeepView for ChannelRow {
    type V = ChannelRowV;

    open spec fn deep_view(&self) -> ChannelRowV {
        self@
    }
}

/// A stored message: its assigned row identifier, rendered content, author,
/// avatar, send time, and the channel it belongs to.
pub struct MessageRow {
    pub rowid: u64,
    pub content: String,
    pub username: String,
    pub avatar: String,
    pub sent_at: i64,
    pub channel_id: u64,
}

/// The mathematical value of a stored message.
#[verifier::ext_equal]
pub struct MessageRowV {
    pub rowid: u64,
    pub content: Seq<char>,
    pub username: Seq<char>,
    pub avatar: Seq<char>,
    pub sent_at: i64,
    pub channel_id: u64,
}

impl View for MessageRow {
    type V = MessageRowV;

    open spec fn view(&self) -> MessageRowV {
        MessageRowV {
            rowid: self.rowid,
            content: self.content@,
            username: self.username@,
            avatar: self.avatar@,
            sent_at: self.sent_at,
            channel_id: self.channel_id,
        }
    }
}

impl DeepView for MessageRow {
    type V = MessageRowV;

    open spec fn deep_view(&self) -> MessageRowV {
        self@
    }
}

/// One row of the page index: which page of which channel a message row
/// stands on.
#[derive(Clone, Copy, PartialEq, Eq, Structural, Debug)]
pub struct PageRow {
    pub page: u64,
    pub messages_rowid: u64,
    pub channel_id: u64,
}

/// One row of the full-text projection: the searchable columns of a
/// message, keyed by its row identifier.
pub struct FtsRow {
    pub content: String,
    pub username: String,
    pub avatar: String,
    pub messages_rowid: u64,
}

/// The mathematical value of a full-text row.
#[verifier::ext_equal]
pub struct FtsRowV {
    pub content: Seq<char>,
    pub username: Seq<char>,
    pub avatar: Seq<char>,
    pub messages_rowid: u64,
}

impl View for FtsRow {
    type V = FtsRowV;

    open spec fn view(&self) -> FtsRowV {
        FtsRowV {
            content: self.content@,
            username: self.username@,
            avatar: self.avatar@,
            messages_rowid: self.messages_rowid,
        }
    }
}

impl DeepView for FtsRow {
    type V = FtsRowV;

    open spec fn deep_view(&self) -> FtsRowV {
        self@
    }
}

/// The mathematical value of the whole store.
#[verifier::ext_equal]
pub struct DbV {
    pub categories: Seq<CategoryRowV>,
    pub channels: Seq<ChannelRowV>,
    pub messages: Seq<MessageRowV>,
    pub fts: Seq<FtsRowV>,
    pub pages: Seq<PageRow>,
}

/// The archive store.
pub struct Database {
    categories: Vec<CategoryRow>,
    channels: Vec<ChannelRow>,
    messages: Vec<MessageRow>,
    fts: Vec<FtsRow>,
    pages: Vec<PageRow>,
}

impl View for Database {
    type V = DbV;

    closed spec fn view(&self) -> DbV {
        DbV {
            categories: self.categories.deep_view(),
            channels: self.channels.deep_view(),
            messages: self.messages.deep_view(),
            fts: self.fts.deep_view(),
            pages: self.pages@,
        }
    }
}

/// The indices, in storage order, of the first `k` messages that belong to
/// channel `cid`.
pub open spec fn chan_idxs_upto(msgs: Seq<MessageRowV>, cid: u64, k: int) -> Seq<int>
    decreases k when 0 <= k <= msgs.len()
{
    if k <= 0 {
        Seq::empty()
    } else if msgs[k - 1].channel_id == cid {
        chan_idxs_upto(msgs, cid, k - 1).push(k - 1)
    } else {
        chan_idxs_upto(msgs, cid, k - 1)
    }
}

/// The indices, in storage order, of all messages of channel `cid`.
pub open spec fn chan_idxs(db: DbV, cid: u64) -> Seq<int> {
    chan_idxs_upto(db.messages, cid, db.messages.len() as int)
}

/// The full-text row derived from the message at index `k`.
pub open spec fn fts_of(m: MessageRowV, k: int) -> FtsRowV {
    FtsRowV {
        content: m.content,
        username: m.username,
        avatar: m.avatar,
        messages_rowid: (k + 1) as u64,
    }
}

/// The page-index row derived from the message at index `k`: its rank
/// within its channel, newest first, divided by the page size.
pub open spec fn page_of(msgs: Seq<MessageRowV>, k: int) -> PageRow {
    PageRow {
        page: (chan_idxs_upto(msgs, msgs[k].channel_id, k).len() as int / (PAGE_SIZE as int)) as u64,
        messages_rowid: (k + 1) as u64,
        channel_id: msgs[k].channel_id,
    }
}

/// Well-formedness of the store: identifiers are assigned in order from 1;
/// every channel references an existing category and every message an
/// existing channel; within a channel, stored order is newest first; and
/// the full-text projection and page index are exactly derived from the
/// messages they cover.
pub open spec fn db_wf(db: DbV) -> bool {
    &&& db.categories.len() <= usize::MAX
    &&& db.channels.len() <= usize::MAX
    &&& db.messages.len() <= usize::MAX
    &&& forall|i: int|
        0 <= i < db.categories.len() ==> (#[trigger] db.categories[i]).category_id == i + 1
    &&& forall|j: int|
        0 <= j < db.channels.len() ==> (#[trigger] db.channels[j]).channel_id == j + 1 && 1
            <= db.channels[j].category_id <= db.categories.len()
    &&& forall|k: int|
        0 <= k < db.messages.len() ==> (#[trigger] db.messages[k]).rowid == k + 1 && 1
            <= db.messages[k].channel_id <= db.channels.len()
    &&& forall|k1: int, k2: int|
        0 <= k1 < k2 < db.messages.len() && (#[trigger] db.messages[k1]).channel_id == (
        #[trigger] db.messages[k2]).channel_id ==> db.messages[k1].sent_at
            >= db.messages[k2].sent_at
    &&& db.fts.len() <= db.messages.len()
    &&& forall|k: int| 0 <= k < db.fts.len() ==> #[trigger] db.fts[k] == fts_of(db.messages[k], k)
    &&& db.pages.len() <= db.messages.len()
    &&& forall|k: int|
        0 <= k < db.pages.len() ==> #[trigger] db.pages[k] == page_of(db.messages, k)
}

/// Newest first: one message may precede another when it was sent no
/// earlier.
pub open spec fn msg_desc_leq() -> spec_fn(MessageV, MessageV) -> bool {
    |a: MessageV, b: MessageV| a.sent_at >= b.sent_at
}

/// The store with no rows at all.
pub open spec fn empty_db() -> DbV {
    DbV {
        categories: Seq::empty(),
        channels: Seq::empty(),
        messages: Seq::empty(),
        fts: Seq::empty(),
        pages: Seq::empty(),
    }
}

/// The store after appending one message row for channel `cid`.
pub open spec fn spec_insert_message(db: DbV, m: MessageV, cid: u64) -> DbV {
    DbV {
        categories: db.categories,
        channels: db.channels,
        messages: db.messages.push(
            MessageRowV {
                rowid: (db.messages.len() + 1) as u64,
                content: m.content,
                username: m.username,
                avatar: m.avatar,
                sent_at: m.sent_at,
                channel_id: cid,
            },
        ),
        fts: db.fts,
        pages: db.pages,
    }
}

/// The store after appending a batch of message rows for channel `cid`, in
/// the order given.
pub open spec fn spec_insert_messages(db: DbV, ms: Seq<MessageV>, cid: u64) -> DbV
    decreases ms.len(),
{
    if ms.len() == 0 {
        db
    } else {
        spec_insert_messages(spec_insert_message(db, ms[0], cid), ms.drop_first(), cid)
    }
}

/// The messages a channel carries into the store: its list, if any, sorted
/// newest first.
pub open spec fn channel_batch(ch: ChannelV) -> Seq<MessageV> {
    match ch.messages {
        Some(ms) => sort_ord(ms, msg_desc_leq()),
        None => Seq::empty(),
    }
}

/// The store after inserting one channel under category `category_id`:
/// nothing for a non-text channel; otherwise a channel row followed by its
/// message batch, newest first, in one step.
pub open spec fn spec_insert_channel(db: DbV, ch: ChannelV, category_id: u64) -> DbV {
    if ch.channel_type != 0 {
        db
    } else {
        spec_insert_messages(
            spec_insert_channel_row(db, ch, category_id),
            channel_batch(ch),
            (db.channels.len() + 1) as u64,
        )
    }
}

/// The store after inserting a list of channels, in order, under one
/// category.
pub open spec fn spec_insert_channels(db: DbV, chs: Seq<ChannelV>, category_id: u64) -> DbV
    decreases chs.len(),
{
    if chs.len() == 0 {
        db
    } else {
        spec_insert_channels(spec_insert_channel(db, chs[0], category_id), chs.drop_first(), category_id)
    }
}

/// The store after appending one category row.
pub open spec fn spec_insert_cat_row(db: DbV, name: Seq<char>) -> DbV {
    DbV {
        categories: db.categories.push(
            CategoryRowV { category_id: (db.categories.len() + 1) as u64, name },
        ),
        channels: db.channels,
        messages: db.messages,
        fts: db.fts,
        pages: db.pages,
    }
}

/// The store after inserting one category with all its channels.
pub open spec fn spec_insert_category(db: DbV, cat: CategoryV) -> DbV {
    spec_insert_channels(
        spec_insert_cat_row(db, cat.name),
        cat.children,
        (db.categories.len() + 1) as u64,
    )
}

/// The store after inserting a list of categories, in order.
pub open spec fn spec_insert_categories(db: DbV, cats: Seq<CategoryV>) -> DbV
    decreases cats.len(),
{
    if cats.len() == 0 {
        db
    } else {
        spec_insert_categories(spec_insert_category(db, cats[0]), cats.drop_first())
    }
}

/// The caching pass: the full-text projection and the page index, each
/// derived row for row from the stored messages.
pub open spec fn spec_cache(db: DbV) -> DbV {
    DbV {
        categories: db.categories,
        channels: db.channels,
        messages: db.messages,
        fts: Seq::new(db.messages.len(), |k: int| fts_of(db.messages[k], k)),
        pages: Seq::new(db.messages.len(), |k: int| page_of(db.messages, k)),
    }
}

/// The categories a build ingests: those of the content, with the
/// uncategorized channels appended under a synthetic category when there
/// are any.
pub open spec fn all_categories(c: ContentV) -> Seq<CategoryV> {
    if c.channels.len() > 0 {
        c.categories.push(CategoryV { name: "Other channels"@, children: c.channels })
    } else {
        c.categories
    }
}

/// The whole build: every category inserted in order into an empty store,
/// then the caching pass.
pub open spec fn spec_build(c: ContentV) -> DbV {
    spec_cache(spec_insert_categories(empty_db(), all_categories(c)))
}

/// Whether one channel's insertion stays within the machine's counting
/// limits.
pub open spec fn channel_fits(db: DbV, ch: ChannelV) -> bool {
    ch.channel_type != 0 || (db.channels.len() < usize::MAX && db.messages.len()
        + channel_batch(ch).len() <= usize::MAX)
}

/// Whether a list of channels, inserted in order, stays within the
/// machine's counting limits.
pub open spec fn channels_fit(db: DbV, chs: Seq<ChannelV>, category_id: u64) -> bool
    decreases chs.len(),
{
    chs.len() == 0 || (channel_fits(db, chs[0]) && channels_fit(
        spec_insert_channel(db, chs[0], category_id),
        chs.drop_first(),
        category_id,
    ))
}

/// Whether one category's insertion stays within the machine's counting
/// limits.
pub open spec fn category_fits(db: DbV, cat: CategoryV) -> bool {
    db.categories.len() < usize::MAX && channels_fit(
        spec_insert_cat_row(db, cat.name),
        cat.children,
        (db.categories.len() + 1) as u64,
    )
}

/// Whether a list of categories, inserted in order, stays within the
/// machine's counting limits.
pub open spec fn categories_fit(db: DbV, cats: Seq<CategoryV>) -> bool
    decreases cats.len(),
{
    cats.len() == 0 || (category_fits(db, cats[0]) && categories_fit(
        spec_insert_category(db, cats[0]),
        cats.drop_first(),
    ))
}

/// Whether a whole build stays within the machine's counting limits.
pub open spec fn content_fits(c: ContentV) -> bool {
    categories_fit(empty_db(), all_categories(c))
}

/// The first `k` messages contain at most `k` messages of any channel.
pub proof fn lemma_chan_idxs_upto_len(msgs: Seq<MessageRowV>, cid: u64, k: int)
    requires
        0 <= k <= msgs.len(),
    ensures
        chan_idxs_upto(msgs, cid, k).len() <= k,
    decreases k,
{
    if k > 0 {
        lemma_chan_idxs_upto_len(msgs, cid, k - 1);
    }
}

/// Which messages of a channel stand among the first `k` depends only on
/// those first `k` messages.
pub proof fn lemma_chan_idxs_prefix(
    m1: Seq<MessageRowV>,
    m2: Seq<MessageRowV>,
    cid: u64,
    k: int,
)
    requires
        0 <= k <= m1.len(),
        k <= m2.len(),
        forall|j: int| 0 <= j < k ==> m1[j] == m2[j],
    ensures
        chan_idxs_upto(m1, cid, k) == chan_idxs_upto(m2, cid, k),
    decreases k,
{
    if k > 0 {
        lemma_chan_idxs_prefix(m1, m2, cid, k - 1);
    }
}

/// What a batch insertion does to the store, row for row: everything but
/// the message table stays, and the batch is appended in order with
/// consecutive row identifiers.
pub proof fn lemma_insert_messages_shape(db: DbV, ms: Seq<MessageV>, cid: u64)
    ensures
        ({
            let r = spec_insert_messages(db, ms, cid);
            &&& r.categories == db.categories
            &&& r.channels == db.channels
            &&& r.fts == db.fts
            &&& r.pages == db.pages
            &&& r.messages.len() == db.messages.len() + ms.len()
            &&& forall|k: int|
                0 <= k < db.messages.len() ==> #[trigger] r.messages[k] == db.messages[k]
            &&& forall|t: int|
                0 <= t < ms.len() ==> #[trigger] r.messages[db.messages.len() + t] == MessageRowV {
                    rowid: (db.messages.len() + t + 1) as u64,
                    content: ms[t].content,
                    username: ms[t].username,
                    avatar: ms[t].avatar,
                    sent_at: ms[t].sent_at,
                    channel_id: cid,
                }
        }),
    decreases ms.len(),
{
    if ms.len() > 0 {
        let db1 = spec_insert_message(db, ms[0], cid);
        lemma_insert_messages_shape(db1, ms.drop_first(), cid);
        let r = spec_insert_messages(db, ms, cid);
        let n = db.messages.len() as int;
        assert(db1.messages.len() == n + 1);
        assert(db1.messages[n] == MessageRowV {
            rowid: (n + 1) as u64,
            content: ms[0].content,
            username: ms[0].username,
            avatar: ms[0].avatar,
            sent_at: ms[0].sent_at,
            channel_id: cid,
        });
        assert forall|t: int| 0 <= t < ms.len() implies #[trigger] r.messages[n + t] == (
        MessageRowV {
            rowid: (n + t + 1) as u64,
            content: ms[t].content,
            username: ms[t].username,
            avatar: ms[t].avatar,
            sent_at: ms[t].sent_at,
            channel_id: cid,
        }) by {
            if t == 0 {
                assert(r.messages[n] == db1.messages[n]);
            } else {
                assert(ms.drop_first()[t - 1] == ms[t]);
                assert(r.messages[db1.messages.len() as int + (t - 1)] == MessageRowV {
                    rowid: (db1.messages.len() + (t - 1) + 1) as u64,
                    content: ms.drop_first()[t - 1].content,
                    username: ms.drop_first()[t - 1].username,
                    avatar: ms.drop_first()[t - 1].avatar,
                    sent_at: ms.drop_first()[t - 1].sent_at,
                    channel_id: cid,
                });
            }
        }
    }
}

/// A batch insertion preserves well-formedness when the channel exists, no
/// earlier message belongs to it, the batch is newest-first, and the row
/// count stays within the machine's limits.
pub proof fn lemma_insert_messages_wf(db: DbV, ms: Seq<MessageV>, cid: u64)
    requires
        db_wf(db),
        1 <= cid <= db.channels.len(),
        forall|k: int| 0 <= k < db.messages.len() ==> (#[trigger] db.messages[k]).channel_id != cid,
        crate::order::ordered(ms, msg_desc_leq()),
        db.messages.len() + ms.len() <= usize::MAX,
    ensures
        db_wf(spec_insert_messages(db, ms, cid)),
{
    lemma_insert_messages_shape(db, ms, cid);
    let r = spec_insert_messages(db, ms, cid);
    let n = db.messages.len() as int;
    assert forall|k1: int, k2: int|
        0 <= k1 < k2 < r.messages.len() && (#[trigger] r.messages[k1]).channel_id == (
        #[trigger] r.messages[k2]).channel_id implies r.messages[k1].sent_at
        >= r.messages[k2].sent_at by {
        if k1 < n && k2 < n {
        } else if k1 >= n && k2 >= n {
            let t1 = k1 - n;
            let t2 = k2 - n;
            assert(r.messages[n + t1].sent_at == ms[t1].sent_at);
            assert(r.messages[n + t2].sent_at == ms[t2].sent_at);
            let leq = msg_desc_leq();
            assert(leq(ms[t1], ms[t2]));
            assert(leq(ms[t1], ms[t2]) == (ms[t1].sent_at >= ms[t2].sent_at));
        } else {
            let t2 = k2 - n;
            assert(r.messages[n + t2].channel_id == cid);
            assert(db.messages[k1].channel_id != cid);
            assert(r.messages[k1] == db.messages[k1]);
        }
    }
    assert forall|k: int|
        0 <= k < r.messages.len() implies (#[trigger] r.messages[k]).rowid == k + 1 && 1
        <= r.messages[k].channel_id <= r.channels.len() by {
        if k < n {
            assert(r.messages[k] == db.messages[k]);
        } else {
            let t = k - n;
            assert(r.messages[n + t].rowid == (n + t + 1) as u64);
        }
    }
    assert forall|k: int| 0 <= k < r.fts.len() implies #[trigger] r.fts[k] == fts_of(
        r.messages[k],
        k,
    ) by {
        assert(r.messages[k] == db.messages[k]);
    }
    assert forall|k: int| 0 <= k < r.pages.len() implies #[trigger] r.pages[k] == page_of(
        r.messages,
        k,
    ) by {
        assert(r.messages[k] == db.messages[k]);
        lemma_chan_idxs_prefix(db.messages, r.messages, db.messages[k].channel_id, k);
    }
}

/// Clones one loaded message.
fn clone_message(m: &Message) -> (r: Message)
    ensures
        r@ == m@,
{
    Message {
        content: crate::MessageContent(m.content.0.clone()),
        username: m.username.clone(),
        avatar: m.avatar.clone(),
        sent_at: m.sent_at,
        rowid: m.rowid,
    }
}

/// Inserts a message into an already newest-first list, before the first
/// message sent no later than it, so equal send times keep their order.
fn insert_message_ord(r: &mut Vec<Message>, x: Message)
    ensures
        final(r).deep_view() == insert_ord(x@, old(r).deep_view(), msg_desc_leq()),
{
    let ghost old_dv = r.deep_view();
    let mut pos: usize = 0;
    while pos < r.len() && x.sent_at < r[pos].sent_at
        invariant
            pos <= r@.len(),
            r.deep_view() == old_dv,
            forall|k: int| 0 <= k < pos ==> x@.sent_at < (#[trigger] old_dv[k]).sent_at,
        decreases r@.len() - pos,
    {
        pos = pos + 1;
    }
    r.insert(pos, x);
    proof {
        let leq = msg_desc_leq();
        assert forall|k: int| 0 <= k < pos implies !leq(x@, old_dv[k]) by {
            assert(x@.sent_at < old_dv[k].sent_at);
        }
        if (pos as int) < old_dv.len() {
            assert(leq(x@, old_dv[pos as int]));
        }
        lemma_insert_ord_split(x@, old_dv, leq, pos as int);
        assert(r.deep_view() =~= old_dv.take(pos as int) + seq![x@] + old_dv.skip(pos as int));
    }
}

/// The given messages, sorted newest first; messages with equal send times
/// keep the order they were given in.
pub fn sort_messages_desc(v: &Vec<Message>) -> (r: Vec<Message>)
    ensures
        r.deep_view() == sort_ord(v.deep_view(), msg_desc_leq()),
{
    let mut r: Vec<Message> = Vec::new();
    let mut t = v.len();
    while t > 0
        invariant
            t <= v@.len(),
            r.deep_view() == sort_ord(v.deep_view().skip(t as int), msg_desc_leq()),
        decreases t,
    {
        t = t - 1;
        let x = clone_message(&v[t]);
        insert_message_ord(&mut r, x);
        proof {
            let dv = v.deep_view();
            assert(dv.skip(t as int)[0] == dv[t as int]);
            assert(dv.skip(t as int).drop_first() =~= dv.skip(t + 1));
        }
    }
    proof {
        assert(v.deep_view().skip(0) =~= v.deep_view());
    }
    r
}

impl Database {
    /// A store with no rows.
    pub fn new() -> (r: Database)
        ensures
            r@ == empty_db(),
            db_wf(r@),
    {
        let r = Database {
            categories: Vec::new(),
            channels: Vec::new(),
            messages: Vec::new(),
            fts: Vec::new(),
            pages: Vec::new(),
        };
        proof {
            assert(r@ =~= empty_db());
        }
        r
    }

    /// Appends a batch of messages, in the order given, as rows of channel
    /// `cid`.
    fn insert_messages(&mut self, msgs: &Vec<Message>, cid: u64)
        requires
            db_wf(old(self)@),
            1 <= cid <= old(self)@.channels.len(),
            forall|k: int|
                0 <= k < old(self)@.messages.len() ==> (#[trigger] old(
                    self,
                )@.messages[k]).channel_id != cid,
            crate::order::ordered(msgs.deep_view(), msg_desc_leq()),
            old(self)@.messages.len() + msgs@.len() <= usize::MAX,
        ensures
            final(self)@ == spec_insert_messages(old(self)@, msgs.deep_view(), cid),
            db_wf(final(self)@),
    {
        proof {
            lemma_insert_messages_wf(old(self)@, msgs.deep_view(), cid);
        }
        let ghost orig = self@;
        let ghost full = msgs.deep_view();
        proof {
            assert(full.skip(0) =~= full);
        }
        let mut idx: usize = 0;
        while idx < msgs.len()
            invariant
                idx <= msgs@.len(),
                full == msgs.deep_view(),
                self@.messages.len() == orig.messages.len() + idx,
                orig.messages.len() + full.len() <= usize::MAX,
                spec_insert_messages(orig, full, cid) == spec_insert_messages(
                    self@,
                    full.skip(idx as int),
                    cid,
                ),
                self@.categories == orig.categories,
                self@.channels == orig.channels,
                self@.fts == orig.fts,
                self@.pages == orig.pages,
            decreases msgs@.len() - idx,
        {
            let ghost cur = self@;
            let m = &msgs[idx];
            let rowid = (self.messages.len() as u64) + 1;
            self.messages.push(
                MessageRow {
                    rowid,
                    content: m.content.0.clone(),
                    username: m.username.clone(),
                    avatar: m.avatar.clone(),
                    sent_at: m.sent_at,
                    channel_id: cid,
                },
            );
            proof {
                assert(self@.messages =~= cur.messages.push(
                    MessageRowV {
                        rowid: (cur.messages.len() + 1) as u64,
                        content: full[idx as int].content,
                        username: full[idx as int].username,
                        avatar: full[idx as int].avatar,
                        sent_at: full[idx as int].sent_at,
                        channel_id: cid,
                    },
                ));
                assert(self@ =~= spec_insert_message(cur, full[idx as int], cid));
                assert(full.skip(idx as int)[0] == full[idx as int]);
                assert(full.skip(idx as int).drop_first() =~= full.skip(idx + 1));
                assert(spec_insert_messages(cur, full.skip(idx as int), cid)
                    == spec_insert_messages(self@, full.skip(idx + 1), cid));
            }
            idx = idx + 1;
        }
        proof {
            assert(full.skip(full.len() as int) =~= Seq::<MessageV>::empty());
        }
    }

    /// Inserts one channel under category `category_id`: skips it entirely
    /// when its kind is not text; otherwise inserts the channel row and its
    /// whole message batch, newest first, as one step. Fails, leaving the
    /// store unchanged, only when the machine's counting limits would be
    /// exceeded.
    pub fn insert_channel(&mut self, channel: &Channel, category_id: u64) -> (r: Result<
        (),
        crate::Error,
    >)
        requires
            db_wf(old(self)@),
            1 <= category_id <= old(self)@.categories.len(),
        ensures
            db_wf(final(self)@),
            r is Ok <==> channel_fits(old(self)@, channel@),
            r is Ok ==> final(self)@ == spec_insert_channel(old(self)@, channel@, category_id),
            r is Err ==> final(self)@ == old(self)@,
    {
        proof {
            if channel@.messages is Some {
                crate::order::lemma_sort_ord_len(channel@.messages->Some_0, msg_desc_leq());
            }
        }
        if channel.channel_type != 0 {
            return Ok(());
        }
        if self.channels.len() == usize::MAX {
            return Err(crate::Error::Generic(String::from_str("archive is full")));
        }
        let batch_len = match &channel.messages {
            Some(v) => v.len(),
            None => 0,
        };
        if batch_len > usize::MAX - self.messages.len() {
            return Err(crate::Error::Generic(String::from_str("archive is full")));
        }
        let ghost orig = self@;
        let cid = (self.channels.len() as u64) + 1;
        self.channels.push(
            ChannelRow {
                channel_id: cid,
                channel_type: channel.channel_type,
                name: channel.name.clone(),
                category_id,
            },
        );
        let ghost db1 = spec_insert_channel_row(orig, channel@, category_id);
        proof {
            assert(self@.channels =~= orig.channels.push(
                ChannelRowV {
                    channel_id: cid,
                    channel_type: channel@.channel_type,
                    name: channel@.name,
                    category_id,
                },
            ));
            assert(self@ =~= db1);
            assert(db_wf(db1));
        }
        let sorted = match &channel.messages {
            Some(v) => sort_messages_desc(v),
            None => Vec::new(),
        };
        proof {
            assert(sorted.deep_view() == channel_batch(channel@));
            crate::order::lemma_sort_ord_ordered(
                match channel@.messages {
                    Some(ms) => ms,
                    None => Seq::empty(),
                },
                msg_desc_leq(),
            );
            assert(forall|k: int|
                0 <= k < db1.messages.len() ==> (#[trigger] db1.messages[k]).channel_id != cid);
        }
        self.insert_messages(&sorted, cid);
        proof {
            assert(self@ == spec_insert_channel(orig, channel@, category_id));
        }
        Ok(())
    }
}

impl Database {
    /// Inserts one category: its row, then each of its channels in order.
    /// Fails only when the machine's counting limits would be exceeded;
    /// categories and channels committed before the failure stay.
    #[verifier::loop_isolation(false)]
    pub fn insert_category(&mut self, category: &Category) -> (r: Result<(), crate::Error>)
        requires
            db_wf(old(self)@),
        ensures
            db_wf(final(self)@),
            r is Ok <==> category_fits(old(self)@, category@),
            r is Ok ==> final(self)@ == spec_insert_category(old(self)@, category@),
    {
        if self.categories.len() == usize::MAX {
            return Err(crate::Error::Generic(String::from_str("archive is full")));
        }
        let ghost orig = self@;
        let cat_id = (self.categories.len() as u64) + 1;
        self.categories.push(CategoryRow { category_id: cat_id, name: category.name.clone() });
        let ghost db1 = spec_insert_cat_row(orig, category@.name);
        proof {
            assert(orig.categories.len() < usize::MAX);
            assert(cat_id == (orig.categories.len() + 1) as u64);
            assert(self@.categories =~= orig.categories.push(
                CategoryRowV { category_id: cat_id, name: category@.name },
            ));
            assert(self@ =~= db1);
            assert(db_wf(self@));
            assert(category@.children.skip(0) =~= category@.children);
        }
        let ghost children = category@.children;
        let mut j: usize = 0;
        while j < category.children.len()
            invariant
                db_wf(self@),
                j <= category.children@.len(),
                children == category.children.deep_view(),
                children == category@.children,
                orig.categories.len() < usize::MAX,
                cat_id == (orig.categories.len() + 1) as u64,
                db1 == spec_insert_cat_row(orig, category@.name),
                1 <= cat_id <= self@.categories.len(),
                spec_insert_channels(db1, children, cat_id) == spec_insert_channels(
                    self@,
                    children.skip(j as int),
                    cat_id,
                ),
                channels_fit(db1, children, cat_id) == channels_fit(
                    self@,
                    children.skip(j as int),
                    cat_id,
                ),
            decreases category.children@.len() - j,
        {
            let ghost cur = self@;
            let res = self.insert_channel(&category.children[j], cat_id);
            proof {
                assert(children.skip(j as int)[0] == children[j as int]);
                assert(children.skip(j as int).drop_first() =~= children.skip(j + 1));
            }
            match res {
                Ok(u) => {
                    proof {
                        let ch = children[j as int];
                        lemma_insert_messages_shape(
                            spec_insert_channel_row(cur, ch, cat_id),
                            channel_batch(ch),
                            (cur.channels.len() + 1) as u64,
                        );
                        assert(self@.categories == cur.categories);
                        assert(spec_insert_channels(cur, children.skip(j as int), cat_id)
                            == spec_insert_channels(self@, children.skip(j + 1), cat_id));
                        assert(channels_fit(cur, children.skip(j as int), cat_id) == channels_fit(
                            self@,
                            children.skip(j + 1),
                            cat_id,
                        ));
                    }
                },
                Err(e) => {
                    proof {
                        assert(!channel_fits(cur, children[j as int]));
                        assert(!channels_fit(cur, children.skip(j as int), cat_id));
                        assert(!channels_fit(db1, children, cat_id));
                        assert(!category_fits(orig, category@));
                    }
                    return Err(e);
                },
            }
            j = j + 1;
        }
        proof {
            assert(children.skip(children.len() as int) =~= Seq::<ChannelV>::empty());
        }
        Ok(())
    }

    /// The caching pass: rebuilds the full-text projection and the page
    /// index from the stored messages, one derived row per message. The
    /// page of a message is its zero-based rank within its channel, newest
    /// first, divided by the page size.
    pub fn cache(&mut self)
        requires
            db_wf(old(self)@),
        ensures
            db_wf(final(self)@),
            final(self)@ == spec_cache(old(self)@),
    {
        let n = self.messages.len();
        let mut fts_new: Vec<FtsRow> = Vec::new();
        let mut k: usize = 0;
        while k < n
            invariant
                self@ == old(self)@,
                db_wf(self@),
                n == self@.messages.len(),
                k <= n,
                fts_new@.len() == k,
                forall|j: int|
                    0 <= j < k ==> fts_new.deep_view()[j] == fts_of(
                        (#[trigger] self@.messages[j]),
                        j,
                    ),
            decreases n - k,
        {
            let row = &self.messages[k];
            fts_new.push(
                FtsRow {
                    content: row.content.clone(),
                    username: row.username.clone(),
                    avatar: row.avatar.clone(),
                    messages_rowid: (k as u64) + 1,
                },
            );
            proof {
                assert(fts_new.deep_view()[k as int] == fts_of(self@.messages[k as int], k as int));
            }
            k = k + 1;
        }
        let cn = self.channels.len();
        let mut counts: Vec<u64> = Vec::new();
        let mut c: usize = 0;
        while c < cn
            invariant
                c <= cn,
                counts@.len() == c,
                forall|x: int| 0 <= x < c ==> counts@[x] == 0,
            decreases cn - c,
        {
            counts.push(0);
            c = c + 1;
        }
        let mut pages_new: Vec<PageRow> = Vec::new();
        k = 0;
        proof {
            assert(forall|x: int|
                0 <= x < cn ==> counts@[x] as int == chan_idxs_upto(
                    self@.messages,
                    (x + 1) as u64,
                    0,
                ).len());
        }
        while k < n
            invariant
                self@ == old(self)@,
                db_wf(self@),
                n == self@.messages.len(),
                cn == self@.channels.len(),
                k <= n,
                counts@.len() == cn,
                forall|x: int|
                    0 <= x < cn ==> counts@[x] as int == chan_idxs_upto(
                        self@.messages,
                        (x + 1) as u64,
                        k as int,
                    ).len(),
                pages_new@.len() == k,
                forall|j: int|
                    0 <= j < k ==> pages_new@[j] == page_of(self@.messages, j),
            decreases n - k,
        {
            let cid = self.messages[k].channel_id;
            proof {
                assert(self@.messages[k as int].channel_id == cid);
                lemma_chan_idxs_upto_len(self@.messages, cid, k as int);
            }
            let ci = (cid - 1) as usize;
            let cnt = counts[ci];
            let page = cnt / PAGE_SIZE;
            pages_new.push(PageRow { page, messages_rowid: (k as u64) + 1, channel_id: cid });
            proof {
                assert(pages_new@[k as int] == page_of(self@.messages, k as int));
            }
            counts.set(ci, cnt + 1);
            proof {
                assert forall|x: int|
                    0 <= x < cn implies counts@[x] as int == chan_idxs_upto(
                        self@.messages,
                        (x + 1) as u64,
                        k + 1,
                    ).len() by {
                    if x == ci {
                        assert(self@.messages[k as int].channel_id == (x + 1) as u64);
                    } else {
                        assert(self@.messages[k as int].channel_id != (x + 1) as u64);
                    }
                }
            }
            k = k + 1;
        }
        self.fts = fts_new;
        self.pages = pages_new;
        proof {
            let want = spec_cache(old(self)@);
            assert(self@.fts =~= want.fts);
            assert(self@.pages =~= want.pages);
            assert(self@ =~= want);
            assert(db_wf(self@));
        }
    }
}

/// Builds the whole archive from loaded content: every category in order,
/// the uncategorized channels appended under a synthetic category, then
/// the caching pass. Fails only when the machine's counting limits would
/// be exceeded.
#[verifier::loop_isolation(false)]
pub fn build(content: Content) -> (r: Result<Database, crate::Error>)
    ensures
        r is Ok <==> content_fits(content@),
        r is Ok ==> db_wf(r->Ok_0@) && r->Ok_0@ == spec_build(content@),
{
    let ghost cv = content@;
    let mut db = Database::new();
    let Content { categories, channels } = content;
    let mut cats = categories;
    if channels.len() > 0 {
        cats.push(Category { name: String::from_str("Other channels"), children: channels });
        proof {
            assert(cats.deep_view() =~= all_categories(cv));
        }
    } else {
        proof {
            assert(cats.deep_view() =~= all_categories(cv));
        }
    }
    let ghost allc = cats.deep_view();
    proof {
        assert(allc == all_categories(cv));
        assert(allc.skip(0) =~= allc);
    }
    let mut i: usize = 0;
    while i < cats.len()
        invariant
            db_wf(db@),
            i <= cats@.len(),
            allc == cats.deep_view(),
            allc == all_categories(cv),
            spec_insert_categories(empty_db(), allc) == spec_insert_categories(
                db@,
                allc.skip(i as int),
            ),
            categories_fit(empty_db(), allc) == categories_fit(db@, allc.skip(i as int)),
        decreases cats@.len() - i,
    {
        let ghost cur = db@;
        let res = db.insert_category(&cats[i]);
        proof {
            assert(allc.skip(i as int)[0] == allc[i as int]);
            assert(allc.skip(i as int).drop_first() =~= allc.skip(i + 1));
        }
        match res {
            Ok(u) => {},
            Err(e) => {
                proof {
                    assert(!category_fits(cur, allc[i as int]));
                    assert(!categories_fit(cur, allc.skip(i as int)));
                    assert(!categories_fit(empty_db(), allc));
                    assert(!content_fits(cv));
                }
                return Err(e);
            },
        }
        i = i + 1;
    }
    proof {
        assert(allc.skip(allc.len() as int) =~= Seq::<CategoryV>::empty());
    }
    db.cache();
    Ok(db)
}

/// The value a stored message is handed out as: its fields, with the row
/// identifier made explicit.
pub open spec fn msg_out(msgs: Seq<MessageRowV>, k: int) -> MessageV {
    MessageV {
        content: msgs[k].content,
        username: msgs[k].username,
        avatar: msgs[k].avatar,
        sent_at: msgs[k].sent_at,
        rowid: (k + 1) as u64,
    }
}

/// The messages of page `page` of channel `cid`: the window of up to
/// `PAGE_SIZE` of the channel's messages, in storage order, starting at
/// `page * PAGE_SIZE`; empty beyond the last message.
pub open spec fn page_slice(db: DbV, cid: u64, page: int) -> Seq<MessageV> {
    let ks = chan_idxs(db, cid);
    let start = page * (PAGE_SIZE as int);
    let stop = if start + (PAGE_SIZE as int) <= ks.len() {
        start + (PAGE_SIZE as int)
    } else {
        ks.len() as int
    };
    if 0 <= start < ks.len() {
        ks.subrange(start, stop).map_values(|k: int| msg_out(db.messages, k))
    } else {
        Seq::empty()
    }
}

/// The category name a channel row is joined with.
pub open spec fn joined_name(db: DbV, j: int) -> Seq<char> {
    db.categories[db.channels[j].category_id as int - 1].name
}

/// A channel row as the listing hands it out.
pub open spec fn entry_of(db: DbV, j: int) -> crate::ChannelListEntryV {
    crate::ChannelListEntryV {
        name: db.channels[j].name,
        id: (j + 1) as u64,
        channel_type: db.channels[j].channel_type,
    }
}

/// Length of the run of channels from `i` on whose joined category name
/// equals that of channel `base`.
pub open spec fn same_run(db: DbV, base: int, i: int) -> int
    decreases db.channels.len() - i when 0 <= i <= db.channels.len()
{
    if i < db.channels.len() && joined_name(db, i) == joined_name(db, base) {
        1 + same_run(db, base, i + 1)
    } else {
        0
    }
}

/// A run stays inside the table and is non-empty at its own base.
pub proof fn lemma_same_run_range(db: DbV, base: int, i: int)
    requires
        0 <= i <= db.channels.len(),
    ensures
        0 <= same_run(db, base, i),
        i + same_run(db, base, i) <= db.channels.len(),
        i < db.channels.len() && joined_name(db, i) == joined_name(db, base) ==> same_run(
            db,
            base,
            i,
        ) >= 1,
    decreases db.channels.len() - i,
{
    if i < db.channels.len() && joined_name(db, i) == joined_name(db, base) {
        lemma_same_run_range(db, base, i + 1);
    }
}

/// The channel listing from channel `j` on: channel rows in storage order,
/// grouped into runs that share a joined category name.
pub open spec fn groups_from(db: DbV, j: int) -> Seq<crate::ChannelCategoryV>
    decreases db.channels.len() - j when 0 <= j <= db.channels.len() via groups_from_decreases
{
    if j >= db.channels.len() {
        Seq::empty()
    } else {
        let r = same_run(db, j, j);
        seq![
            crate::ChannelCategoryV {
                name: joined_name(db, j),
                channels: Seq::new(r as nat, |t: int| entry_of(db, j + t)),
            },
        ] + groups_from(db, j + r)
    }
}

#[via_fn]
proof fn groups_from_decreases(db: DbV, j: int) {
    if 0 <= j < db.channels.len() {
        lemma_same_run_range(db, j, j);
    }
}

/// The whole channel listing.
pub open spec fn channel_list_of(db: DbV) -> Seq<crate::ChannelCategoryV> {
    groups_from(db, 0)
}

impl Database {
    /// Fetches one channel by identifier, without its messages.
    pub fn get_channel(&self, channel_id: u64) -> (r: Result<Channel, crate::Error>)
        requires
            db_wf(self@),
        ensures
            r is Ok <==> 1 <= channel_id <= self@.channels.len(),
            r is Ok ==> r->Ok_0@ == (ChannelV {
                channel_id,
                channel_type: self@.channels[channel_id as int - 1].channel_type,
                name: self@.channels[channel_id as int - 1].name,
                messages: None,
            }),
    {
        if channel_id >= 1 && channel_id <= self.channels.len() as u64 {
            let row = &self.channels[(channel_id - 1) as usize];
            Ok(
                Channel {
                    channel_id: row.channel_id,
                    channel_type: row.channel_type,
                    name: row.name.clone(),
                    messages: None,
                },
            )
        } else {
            Err(crate::Error::NotFound)
        }
    }

    /// Resolves a message row identifier through the page index: the
    /// channel it belongs to, that channel's name, and the page it stands
    /// on. Fails exactly when the identifier is not in the index.
    pub fn go_to_message(&self, message_rowid: u64) -> (r: Result<(u64, String, u64), crate::Error>)
        requires
            db_wf(self@),
        ensures
            r is Ok <==> 1 <= message_rowid <= self@.pages.len(),
            r is Ok ==> ({
                let p = self@.pages[message_rowid as int - 1];
                &&& r->Ok_0.0 == p.channel_id
                &&& r->Ok_0.1@ == self@.channels[p.channel_id as int - 1].name
                &&& r->Ok_0.2 == p.page
            }),
    {
        if message_rowid >= 1 && message_rowid <= self.pages.len() as u64 {
            let p = self.pages[(message_rowid - 1) as usize];
            let nc = self.channels.len();
            proof {
                let k = message_rowid as int - 1;
                assert(nc == self@.channels.len());
                assert(self@.pages[k] == page_of(self@.messages, k));
                assert(1 <= self@.messages[k].channel_id <= self@.channels.len());
            }
            let name = self.channels[(p.channel_id - 1) as usize].name.clone();
            Ok((p.channel_id, name, p.page))
        } else {
            Err(crate::Error::NotFound)
        }
    }

    /// Fetches one page of a channel's messages: up to `PAGE_SIZE`
    /// messages, in storage order, starting at `page * PAGE_SIZE`. A page
    /// beyond the last message is an empty list, not an error.
    #[verifier::loop_isolation(false)]
    pub fn get_page(&self, channel_id: u64, page: u64) -> (r: Result<Vec<Message>, crate::Error>)
        requires
            db_wf(self@),
        ensures
            r is Ok,
            r->Ok_0.deep_view() == page_slice(self@, channel_id, page as int),
    {
        let mut out: Vec<Message> = Vec::new();
        let ghost msgs = self@.messages;
        let start: u64 = match page.checked_mul(PAGE_SIZE) {
            Some(s) => s,
            None => {
                proof {
                    lemma_chan_idxs_upto_len(msgs, channel_id, msgs.len() as int);
                    assert(out.deep_view() =~= page_slice(self@, channel_id, page as int));
                }
                return Ok(out);
            },
        };
        let n = self.messages.len();
        let mut cnt: u64 = 0;
        let mut k: usize = 0;
        while k < n
            invariant
                k <= n,
                cnt as int == chan_idxs_upto(msgs, channel_id, k as int).len(),
                out@.len() == ({
                    let c = cnt as int;
                    let s = start as int;
                    if c <= s {
                        0
                    } else if c - s <= PAGE_SIZE as int {
                        c - s
                    } else {
                        PAGE_SIZE as int
                    }
                }),
                forall|t: int|
                    0 <= t < out@.len() ==> #[trigger] out.deep_view()[t] == msg_out(
                        msgs,
                        chan_idxs_upto(msgs, channel_id, k as int)[start as int + t],
                    ),
            decreases n - k,
        {
            let row = &self.messages[k];
            proof {
                lemma_chan_idxs_upto_len(msgs, channel_id, k as int);
            }
            let ghost oldd = out.deep_view();
            if row.channel_id == channel_id {
                if cnt >= start && out.len() < PAGE_SIZE as usize {
                    out.push(
                        Message {
                            content: crate::MessageContent(row.content.clone()),
                            username: row.username.clone(),
                            avatar: row.avatar.clone(),
                            sent_at: row.sent_at,
                            rowid: (k as u64) + 1,
                        },
                    );
                    proof {
                        assert(out.deep_view()[oldd.len() as int] == msg_out(msgs, k as int));
                    }
                }
                cnt = cnt + 1;
            }
            proof {
                let ks0 = chan_idxs_upto(msgs, channel_id, k as int);
                let ks1 = chan_idxs_upto(msgs, channel_id, k + 1);
                if msgs[k as int].channel_id == channel_id {
                    assert(ks1 == ks0.push(k as int));
                } else {
                    assert(ks1 == ks0);
                }
                assert forall|t: int| 0 <= t < out@.len() implies #[trigger] out.deep_view()[t]
                    == msg_out(msgs, ks1[start as int + t]) by {
                    if t < oldd.len() {
                        assert(out.deep_view()[t] == oldd[t]);
                        assert(oldd[t] == msg_out(msgs, ks0[start as int + t]));
                        assert(start as int + t < ks0.len());
                        assert(ks1[start as int + t] == ks0[start as int + t]);
                    } else {
                        assert(t == oldd.len());
                        assert(start as int + t == ks0.len());
                        assert(ks1[start as int + t] == k as int);
                    }
                }
            }
            k = k + 1;
        }
        proof {
            let ks = chan_idxs(self@, channel_id);
            let s = start as int;
            if s < ks.len() {
                let stop = if s + (PAGE_SIZE as int) <= ks.len() {
                    s + (PAGE_SIZE as int)
                } else {
                    ks.len() as int
                };
                assert(out.deep_view() =~= ks.subrange(s, stop).map_values(
                    |k: int| msg_out(self@.messages, k),
                ));
            } else {
                assert(out.deep_view() =~= Seq::<MessageV>::empty());
            }
        }
        Ok(out)
    }

    /// Length of the run of channels, starting at channel index `j`, whose
    /// joined category names all equal that of channel `j`.
    fn same_run_len(&self, j: usize, n: usize) -> (r: usize)
        requires
            db_wf(self@),
            n == self@.channels.len(),
            j < n,
        ensures
            r as int == same_run(self@, j as int, j as int),
            1 <= r,
            j + r <= n,
    {
        let ncat = self.categories.len();
        proof {
            assert(ncat == self@.categories.len());
            assert(1 <= self@.channels[j as int].category_id <= self@.categories.len());
        }
        let base_ci = (self.channels[j].category_id - 1) as usize;
        let mut l = j;
        loop
            invariant
                db_wf(self@),
                n == self@.channels.len(),
                ncat == self@.categories.len(),
                j < n,
                j <= l <= n,
                base_ci == self@.channels[j as int].category_id - 1,
                same_run(self@, j as int, j as int) == (l - j) + same_run(
                    self@,
                    j as int,
                    l as int,
                ),
            ensures
                j <= l <= n,
                same_run(self@, j as int, j as int) == l - j,
            decreases n - l,
        {
            if l >= n {
                assert(same_run(self@, j as int, l as int) == 0);
                break ;
            }
            assert(1 <= self@.channels[l as int].category_id <= self@.categories.len());
            assert(1 <= self@.channels[j as int].category_id <= self@.categories.len());
            let ci = (self.channels[l].category_id - 1) as usize;
            assert(self@.categories[ci as int].name == joined_name(self@, l as int));
            assert(self@.categories[base_ci as int].name == joined_name(self@, j as int));
            if !(self.categories[ci].name == self.categories[base_ci].name) {
                assert(joined_name(self@, l as int) != joined_name(self@, j as int));
                assert(same_run(self@, j as int, l as int) == 0);
                break ;
            }
            assert(joined_name(self@, l as int) == joined_name(self@, j as int));
            assert(same_run(self@, j as int, l as int) == 1 + same_run(self@, j as int, l + 1));
            l = l + 1;
        }
        proof {
            lemma_same_run_range(self@, j as int, j as int);
        }
        l - j
    }

    /// The grouped channel listing: channels in storage order, each under
    /// its category's name, consecutive channels whose category names are
    /// equal forming one group.
    #[verifier::loop_isolation(false)]
    pub fn get_channel_list(&self) -> (r: Result<crate::ChannelList, crate::Error>)
        requires
            db_wf(self@),
        ensures
            r is Ok,
            r->Ok_0@.categories == channel_list_of(self@),
    {
        let n = self.channels.len();
        let mut groups: Vec<crate::ChannelCategory> = Vec::new();
        let mut j: usize = 0;
        while j < n
            invariant
                j <= n,
                groups.deep_view() + groups_from(self@, j as int) == channel_list_of(self@),
            decreases n - j,
        {
            let run = self.same_run_len(j, n);
            let mut entries: Vec<crate::ChannelListEntry> = Vec::new();
            let mut t: usize = 0;
            while t < run
                invariant
                    t <= run,
                    entries@.len() == t,
                    forall|x: int|
                        0 <= x < t ==> #[trigger] entries.deep_view()[x] == entry_of(
                            self@,
                            j + x,
                        ),
                decreases run - t,
            {
                let row = &self.channels[j + t];
                let ghost oldd = entries.deep_view();
                entries.push(
                    crate::ChannelListEntry {
                        name: row.name.clone(),
                        id: ((j + t) as u64) + 1,
                        channel_type: row.channel_type,
                    },
                );
                proof {
                    assert(entries.deep_view()[t as int] == entry_of(self@, j + t));
                    assert forall|x: int| 0 <= x < t implies #[trigger] entries.deep_view()[x]
                        == entry_of(self@, j + x) by {
                        assert(entries.deep_view()[x] == oldd[x]);
                    }
                }
                t = t + 1;
            }
            let ncat = self.categories.len();
            proof {
                assert(ncat == self@.categories.len());
                assert(1 <= self@.channels[j as int].category_id <= self@.categories.len());
            }
            let base_ci = (self.channels[j].category_id - 1) as usize;
            proof {
                assert(self@.categories[base_ci as int].name == joined_name(self@, j as int));
            }
            let group = crate::ChannelCategory {
                name: self.categories[base_ci].name.clone(),
                channels: entries,
            };
            let ghost gv = crate::ChannelCategoryV {
                name: joined_name(self@, j as int),
                channels: Seq::new(run as nat, |x: int| entry_of(self@, j as int + x)),
            };
            proof {
                assert(group@.channels =~= gv.channels);
                assert(group@ =~= gv);
                assert(groups_from(self@, j as int) == seq![gv] + groups_from(self@, j + run));
            }
            let ghost old_groups = groups.deep_view();
            groups.push(group);
            proof {
                assert(groups.deep_view() =~= old_groups.push(gv));
                assert(old_groups.push(gv) =~= old_groups + seq![gv]);
                assert((old_groups + seq![gv]) + groups_from(self@, j + run) =~= old_groups + (
                seq![gv] + groups_from(self@, j + run)));
            }
            j = j + run;
        }
        proof {
            assert(groups_from(self@, n as int) =~= Seq::<crate::ChannelCategoryV>::empty());
            assert(groups.deep_view() + Seq::<crate::ChannelCategoryV>::empty()
                =~= groups.deep_view());
        }
        Ok(crate::ChannelList { categories: groups })
    }
}

/// Whether the full-text row at `k` matches the filter: its content
/// matches the free-text clause, or — when an author filter is present —
/// its author matches the wildcard author clause. A clause whose filter
/// sanitizes to no tokens at all is degenerate and matches nothing.
pub open spec fn row_matches(db: DbV, k: int, q: crate::search::SearchQueryV) -> bool {
    ||| crate::search::query_tokens(q.content).len() > 0 && crate::search::content_match(
        db.fts[k].content,
        q.content,
    )
    ||| q.username is Some && crate::search::query_tokens(q.username->Some_0).len() > 0
        && crate::search::username_match(db.fts[k].username, q.username->Some_0)
}

/// The search hit handed out for the message at index `k`.
pub open spec fn result_of(db: DbV, k: int) -> crate::search::SearchResultV {
    crate::search::SearchResultV {
        message_rowid: (k + 1) as u64,
        channel_id: db.messages[k].channel_id,
        message: msg_out(db.messages, k),
    }
}

/// The hits among the first `k` full-text rows, in storage order.
pub open spec fn matching_upto(db: DbV, q: crate::search::SearchQueryV, k: int) -> Seq<
    crate::search::SearchResultV,
>
    decreases k when 0 <= k <= db.fts.len()
{
    if k <= 0 {
        Seq::empty()
    } else if row_matches(db, k - 1, q) {
        matching_upto(db, q, k - 1).push(result_of(db, k - 1))
    } else {
        matching_upto(db, q, k - 1)
    }
}

/// Newest first, for search hits.
pub open spec fn res_desc_leq() -> spec_fn(
    crate::search::SearchResultV,
    crate::search::SearchResultV,
) -> bool {
    |a: crate::search::SearchResultV, b: crate::search::SearchResultV|
        a.message.sent_at >= b.message.sent_at
}

/// What a non-empty search returns: the matching rows, ordered by send
/// time, newest first; hits with equal send times keep storage order.
pub open spec fn search_hits(db: DbV, q: crate::search::SearchQueryV) -> Seq<
    crate::search::SearchResultV,
> {
    sort_ord(matching_upto(db, q, db.fts.len() as int), res_desc_leq())
}

/// Inserts a search hit into an already newest-first list, before the
/// first hit sent no later than it.
fn insert_result_ord(r: &mut Vec<crate::search::SearchResult>, x: crate::search::SearchResult)
    ensures
        final(r).deep_view() == insert_ord(x@, old(r).deep_view(), res_desc_leq()),
{
    let ghost old_dv = r.deep_view();
    let mut pos: usize = 0;
    while pos < r.len() && x.message.sent_at < r[pos].message.sent_at
        invariant
            pos <= r@.len(),
            r.deep_view() == old_dv,
            forall|k: int|
                0 <= k < pos ==> x@.message.sent_at < (#[trigger] old_dv[k]).message.sent_at,
        decreases r@.len() - pos,
    {
        pos = pos + 1;
    }
    r.insert(pos, x);
    proof {
        let leq = res_desc_leq();
        assert forall|k: int| 0 <= k < pos implies !leq(x@, old_dv[k]) by {
            assert(x@.message.sent_at < old_dv[k].message.sent_at);
        }
        if (pos as int) < old_dv.len() {
            assert(leq(x@, old_dv[pos as int]));
        }
        lemma_insert_ord_split(x@, old_dv, leq, pos as int);
        assert(r.deep_view() =~= old_dv.take(pos as int) + seq![x@] + old_dv.skip(pos as int));
    }
}

/// The given search hits, sorted newest first; hits with equal send times
/// keep the order they were given in.
fn sort_results_desc(v: Vec<crate::search::SearchResult>) -> (r: Vec<crate::search::SearchResult>)
    ensures
        r.deep_view() == sort_ord(v.deep_view(), res_desc_leq()),
{
    let ghost full = v.deep_view();
    let mut v = v;
    let mut r: Vec<crate::search::SearchResult> = Vec::new();
    while v.len() > 0
        invariant
            v@.len() <= full.len(),
            v.deep_view() == full.take(v@.len() as int),
            r.deep_view() == sort_ord(full.skip(v@.len() as int), res_desc_leq()),
        decreases v@.len(),
    {
        let ghost t = v@.len() as int;
        let x = v.pop().unwrap();
        proof {
            assert(x@ == full.take(t)[t - 1]);
            assert(full.skip(t - 1)[0] == full[t - 1]);
            assert(full.skip(t - 1).drop_first() =~= full.skip(t));
            assert(v.deep_view() =~= full.take(t - 1));
        }
        insert_result_ord(&mut r, x);
    }
    proof {
        assert(full.skip(0) =~= full);
    }
    r
}

impl Database {
    /// Runs a search. An empty filter returns an empty result set without
    /// touching the store; otherwise the hits are the messages whose
    /// indexed content matches every sanitized token of the filter — or,
    /// when an author filter is present, whose indexed author contains
    /// every one of its sanitized tokens — ordered newest first.
    #[verifier::loop_isolation(false)]
    pub fn get_search(&self, query: crate::search::SearchQuery) -> (r: Result<
        Vec<crate::search::SearchResult>,
        crate::Error,
    >)
        requires
            db_wf(self@),
        ensures
            r is Ok,
            query.spec_is_empty() ==> r->Ok_0@.len() == 0,
            !query.spec_is_empty() ==> r->Ok_0.deep_view() == search_hits(self@, query@),
    {
        let empty: Vec<crate::search::SearchResult> = Vec::new();
        if query.is_empty() {
            return Ok(empty);
        }
        let ctoks = crate::search::tokenize_query(query.content.as_str());
        let utoks: Option<Vec<String>> = match &query.username {
            Some(u) => Some(crate::search::tokenize_query(u.as_str())),
            None => None,
        };
        let n = self.fts.len();
        let mut hits: Vec<crate::search::SearchResult> = Vec::new();
        let mut k: usize = 0;
        while k < n
            invariant
                k <= n,
                hits.deep_view() == matching_upto(self@, query@, k as int),
            decreases n - k,
        {
            let row = &self.fts[k];
            let m_content = ctoks.len() > 0 && crate::search::text_has_all_tokens(
                row.content.as_str(),
                &ctoks,
            );
            let matched = if m_content {
                true
            } else {
                match &utoks {
                    Some(ut) => ut.len() > 0 && crate::search::name_has_all_infixes(
                        row.username.as_str(),
                        ut,
                    ),
                    None => false,
                }
            };
            proof {
                assert(matched == row_matches(self@, k as int, query@));
            }
            if matched {
                let m = &self.messages[k];
                let ghost oldd = hits.deep_view();
                hits.push(
                    crate::search::SearchResult {
                        message_rowid: (k as u64) + 1,
                        channel_id: m.channel_id,
                        message: Message {
                            content: crate::MessageContent(m.content.clone()),
                            username: m.username.clone(),
                            avatar: m.avatar.clone(),
                            sent_at: m.sent_at,
                            rowid: (k as u64) + 1,
                        },
                    },
                );
                proof {
                    assert(hits.deep_view() =~= oldd.push(result_of(self@, k as int)));
                }
            }
            k = k + 1;
        }
        let sorted = sort_results_desc(hits);
        Ok(sorted)
    }
}

/// Every listed index of a channel lies among the first `k` messages and
/// belongs to the channel, and the list is strictly increasing.
pub proof fn lemma_chan_idxs_elems(msgs: Seq<MessageRowV>, cid: u64, k: int)
    requires
        0 <= k <= msgs.len(),
    ensures
        forall|t: int|
            0 <= t < chan_idxs_upto(msgs, cid, k).len() ==> 0 <= #[trigger] chan_idxs_upto(
                msgs,
                cid,
                k,
            )[t] < k && msgs[chan_idxs_upto(msgs, cid, k)[t]].channel_id == cid,
        forall|t1: int, t2: int|
            0 <= t1 < t2 < chan_idxs_upto(msgs, cid, k).len() ==> #[trigger] chan_idxs_upto(
                msgs,
                cid,
                k,
            )[t1] < #[trigger] chan_idxs_upto(msgs, cid, k)[t2],
    decreases k,
{
    if k > 0 {
        lemma_chan_idxs_elems(msgs, cid, k - 1);
        let prev = chan_idxs_upto(msgs, cid, k - 1);
        let cur = chan_idxs_upto(msgs, cid, k);
        if msgs[k - 1].channel_id == cid {
            assert forall|t1: int, t2: int| 0 <= t1 < t2 < cur.len() implies #[trigger] cur[t1]
                < #[trigger] cur[t2] by {
                if t2 == cur.len() - 1 {
                    assert(cur[t2] == k - 1);
                    assert(cur[t1] == prev[t1]);
                    assert(prev[t1] < k - 1);
                } else {
                    assert(cur[t1] == prev[t1] && cur[t2] == prev[t2]);
                }
            }
        }
    }
}

/// The index list over a longer prefix of the messages extends that over
/// a shorter one.
pub proof fn lemma_chan_idxs_prefix_of(msgs: Seq<MessageRowV>, cid: u64, k1: int, k2: int)
    requires
        0 <= k1 <= k2 <= msgs.len(),
    ensures
        chan_idxs_upto(msgs, cid, k1).len() <= chan_idxs_upto(msgs, cid, k2).len(),
        forall|t: int|
            0 <= t < chan_idxs_upto(msgs, cid, k1).len() ==> #[trigger] chan_idxs_upto(
                msgs,
                cid,
                k2,
            )[t] == chan_idxs_upto(msgs, cid, k1)[t],
    decreases k2 - k1,
{
    if k1 < k2 {
        lemma_chan_idxs_prefix_of(msgs, cid, k1, k2 - 1);
    }
}

/// A message of a channel stands in the channel's full index list exactly
/// at the position given by how many of the channel's messages precede it.
pub proof fn lemma_chan_idxs_position(msgs: Seq<MessageRowV>, cid: u64, k: int)
    requires
        0 <= k < msgs.len(),
        msgs[k].channel_id == cid,
    ensures
        chan_idxs_upto(msgs, cid, k).len() < chan_idxs_upto(msgs, cid, msgs.len() as int).len(),
        chan_idxs_upto(msgs, cid, msgs.len() as int)[chan_idxs_upto(msgs, cid, k).len() as int]
            == k,
{
    let pos = chan_idxs_upto(msgs, cid, k).len() as int;
    assert(chan_idxs_upto(msgs, cid, k + 1) == chan_idxs_upto(msgs, cid, k).push(k));
    lemma_chan_idxs_prefix_of(msgs, cid, k + 1, msgs.len() as int);
    assert(chan_idxs_upto(msgs, cid, msgs.len() as int)[pos] == chan_idxs_upto(
        msgs,
        cid,
        k + 1,
    )[pos]);
}

/// Every page of every channel lists its messages newest first.
pub proof fn lemma_page_sorted(db: DbV, cid: u64, page: int)
    requires
        db_wf(db),
        0 <= page,
    ensures
        forall|t1: int, t2: int|
            0 <= t1 < t2 < page_slice(db, cid, page).len() ==> (#[trigger] page_slice(
                db,
                cid,
                page,
            )[t1]).sent_at >= (#[trigger] page_slice(db, cid, page)[t2]).sent_at,
{
    lemma_chan_idxs_elems(db.messages, cid, db.messages.len() as int);
    let sl = page_slice(db, cid, page);
    let ks = chan_idxs(db, cid);
    let start = page * (PAGE_SIZE as int);
    assert forall|t1: int, t2: int| 0 <= t1 < t2 < sl.len() implies (#[trigger] sl[t1]).sent_at
        >= (#[trigger] sl[t2]).sent_at by {
        assert(sl[t1] == msg_out(db.messages, ks[start + t1]));
        assert(sl[t2] == msg_out(db.messages, ks[start + t2]));
        let i1 = ks[start + t1];
        let i2 = ks[start + t2];
        assert(i1 < i2);
        assert(db.messages[i1].channel_id == cid && db.messages[i2].channel_id == cid);
        assert(db.messages[i1].sent_at >= db.messages[i2].sent_at);
    }
}

/// A channel with at least one message has a non-empty last page of at
/// most `PAGE_SIZE` messages, and every page beyond it is empty.
pub proof fn lemma_last_page_size(db: DbV, cid: u64)
    requires
        db_wf(db),
    ensures
        ({
            let n = chan_idxs(db, cid).len() as int;
            &&& n >= 1 ==> 1 <= page_slice(db, cid, (n - 1) / (PAGE_SIZE as int)).len()
                <= PAGE_SIZE as int
            &&& forall|p: int|
                p >= 0 && #[trigger] (p * (PAGE_SIZE as int)) >= n ==> page_slice(
                    db,
                    cid,
                    p,
                ).len() == 0
        }),
{
    let ps = PAGE_SIZE as int;
    let n = chan_idxs(db, cid).len() as int;
    if n >= 1 {
        let last = (n - 1) / ps;
        vstd::arithmetic::div_mod::lemma_fundamental_div_mod(n - 1, ps);
        vstd::arithmetic::div_mod::lemma_mod_division_less_than_divisor(n - 1, ps);
        assert(last * ps <= n - 1 < last * ps + ps);
        assert(0 <= last) by {
            vstd::arithmetic::div_mod::lemma_div_pos_is_pos(n - 1, ps);
        };
        let start = last * ps;
        assert(page_slice(db, cid, last).len() == if start + ps <= n {
            ps
        } else {
            n - start
        });
    }
}

/// The page the index reports for a message indeed contains it: fetching
/// that page of that channel yields a message with that row identifier.
pub proof fn lemma_go_to_message_page(db: DbV, rowid: u64)
    requires
        db_wf(db),
        1 <= rowid <= db.pages.len(),
    ensures
        ({
            let p = db.pages[rowid as int - 1];
            exists|t: int|
                0 <= t < page_slice(db, p.channel_id, p.page as int).len() && (
                #[trigger] page_slice(db, p.channel_id, p.page as int)[t]).rowid == rowid
        }),
{
    let ps = PAGE_SIZE as int;
    let k = rowid as int - 1;
    let p = db.pages[k];
    assert(p == page_of(db.messages, k));
    let cid = db.messages[k].channel_id;
    let pos = chan_idxs_upto(db.messages, cid, k).len() as int;
    lemma_chan_idxs_upto_len(db.messages, cid, k);
    assert(p.page as int == pos / ps);
    lemma_chan_idxs_position(db.messages, cid, k);
    let ks = chan_idxs(db, cid);
    assert(ks[pos] == k);
    vstd::arithmetic::div_mod::lemma_fundamental_div_mod(pos, ps);
    vstd::arithmetic::div_mod::lemma_mod_division_less_than_divisor(pos, ps);
    assert(0 <= pos / ps) by {
        vstd::arithmetic::div_mod::lemma_div_pos_is_pos(pos, ps);
    };
    let start = (p.page as int) * ps;
    assert(start == (pos / ps) * ps);
    assert(start <= pos < start + ps);
    let t = pos - start;
    let sl = page_slice(db, cid, p.page as int);
    assert(0 <= start < ks.len());
    assert(t < sl.len());
    assert(sl[t] == msg_out(db.messages, ks[start + t]));
    assert(ks[start + t] == k);
    assert(sl[t].rowid == rowid);
    assert(page_slice(db, p.channel_id, p.page as int)[t].rowid == rowid);
    assert(0 <= t < page_slice(db, p.channel_id, p.page as int).len());
}

/// A build leaves no message uncovered: the caching pass derives one
/// full-text row and one page-index row for every stored message, so
/// `go_to_message` resolves every row identifier the archive assigned.
pub proof fn lemma_build_fully_cached(c: ContentV, d: DbV)
    requires
        d == spec_build(c),
    ensures
        d.pages.len() == d.messages.len(),
        d.fts.len() == d.messages.len(),
{
}

/// Rebuilding from the same content yields the same archive: the same
/// channel listing, the same page contents everywhere, and the same page
/// index. The build's result is a function of the content alone.
pub proof fn lemma_build_deterministic(c: ContentV, d1: DbV, d2: DbV)
    requires
        d1 == spec_build(c),
        d2 == spec_build(c),
    ensures
        channel_list_of(d1) == channel_list_of(d2),
        forall|cid: u64, page: int| #[trigger] page_slice(d1, cid, page) == page_slice(
            d2,
            cid,
            page,
        ),
        d1.pages == d2.pages,
{
}

/// The store after appending just the channel row of a text channel.
pub open spec fn spec_insert_channel_row(db: DbV, ch: ChannelV, category_id: u64) -> DbV {
    DbV {
        categories: db.categories,
        channels: db.channels.push(
            ChannelRowV {
                channel_id: (db.channels.len() + 1) as u64,
                channel_type: ch.channel_type,
                name: ch.name,
                category_id,
            },
        ),
        messages: db.messages,
        fts: db.fts,
        pages: db.pages,
    }
}

} // verus!
