//! HTML rendering of archive views.
//!
//! Each renderer's output is stated exactly: the page is a function of the
//! values rendered into it. Names and titles are HTML-escaped on the way
//! in; already-rendered content is passed through unchanged.

use vstd::prelude::*;
use vstd::string::StringExecFns;

use crate::content::dec_str;
use crate::content::u64_to_string;
use crate::text::escape_html_text;
use crate::text::html_escaped;
use crate::ChannelCategoryV;
use crate::ChannelList;
use crate::ChannelListEntryV;
use crate::ChannelListV;

verus! {

/// The landing page.
pub struct IndexTemplate;

/// The landing page's markup.
pub open spec fn index_html() -> Seq<char> {
    "<!DOCTYPE html>\n<html>\n<head><title>amardiscord</title></head>\n<body>\n<div id=\"channels\"></div>\n<div id=\"messages\"></div>\n</body>\n</html>\n"@
}

impl IndexTemplate {
    /// Renders the landing page.
    pub fn render() -> (r: String)
        ensures
            r@ == index_html(),
    {
        String::from_str(
            "<!DOCTYPE html>\n<html>\n<head><title>amardiscord</title></head>\n<body>\n<div id=\"channels\"></div>\n<div id=\"messages\"></div>\n</body>\n</html>\n",
        )
    }
}

/// The page frame around already-rendered content.
pub struct LayoutTemplate;

/// A full page: the escaped title in the head, the content in the body.
pub open spec fn layout_html(title: Seq<char>, content: Seq<char>) -> Seq<char> {
    "<!DOCTYPE html>\n<html>\n<head><title>"@ + html_escaped(title)
        + "</title></head>\n<body>\n"@ + content + "\n</body>\n</html>\n"@
}

impl LayoutTemplate {
    /// Renders a full page around already-rendered content.
    pub fn render(title: &str, content: &str) -> (r: String)
        ensures
            r@ == layout_html(title@, content@),
    {
        let mut out = String::new();
        out.append("<!DOCTYPE html>\n<html>\n<head><title>");
        let t = escape_html_text(title);
        out.append(t.as_str());
        out.append("</title></head>\n<body>\n");
        out.append(content);
        out.append("\n</body>\n</html>\n");
        proof {
            assert(out@ =~= layout_html(title@, content@));
        }
        out
    }
}

/// The channel listing view.
pub struct ChannelListTemplate;

/// One channel of the listing: a link to its first page, marked when it is
/// the channel currently shown.
pub open spec fn entry_html(e: ChannelListEntryV, current: Option<u64>) -> Seq<char> {
    "<li class=\""@ + (if current == Some(e.id) {
        "channel current"@
    } else {
        "channel"@
    }) + "\"><a href=\"/channel/"@ + dec_str(e.id as int) + "/0\">"@ + html_escaped(e.name)
        + "</a></li>\n"@
}

/// The channels of one group, in order.
pub open spec fn entries_html(es: Seq<ChannelListEntryV>, current: Option<u64>) -> Seq<char>
    decreases es.len(),
{
    if es.len() == 0 {
        Seq::empty()
    } else {
        entry_html(es[0], current) + entries_html(es.drop_first(), current)
    }
}

/// One group of the listing: its escaped category name, then its channels.
pub open spec fn category_html(c: ChannelCategoryV, current: Option<u64>) -> Seq<char> {
    "<li class=\"category\"><span>"@ + html_escaped(c.name) + "</span>\n<ul>\n"@ + entries_html(
        c.channels,
        current,
    ) + "</ul></li>\n"@
}

/// The groups of the listing, in order.
pub open spec fn categories_html(cs: Seq<ChannelCategoryV>, current: Option<u64>) -> Seq<char>
    decreases cs.len(),
{
    if cs.len() == 0 {
        Seq::empty()
    } else {
        category_html(cs[0], current) + categories_html(cs.drop_first(), current)
    }
}

/// The whole channel listing.
pub open spec fn channel_list_html(l: ChannelListV, current: Option<u64>) -> Seq<char> {
    "<ul class=\"channels\">\n"@ + categories_html(l.categories, current) + "</ul>\n"@
}

impl ChannelListTemplate {
    /// Renders the channel listing; `current_channel_id` marks the channel
    /// currently shown.
    #[verifier::loop_isolation(false)]
    #[verifier::rlimit(80)]
    pub fn render(channel_list: &ChannelList, current_channel_id: Option<u64>) -> (r: String)
        ensures
            r@ == channel_list_html(channel_list@, current_channel_id),
    {
        let cur = current_channel_id;
        let mut out = String::new();
        out.append("<ul class=\"channels\">\n");
        let ghost cats = channel_list@.categories;
        let nc = channel_list.categories.len();
        proof {
            assert(cats.skip(0) =~= cats);
            assert(out@ =~= "<ul class=\"channels\">\n"@);
        }
        let mut i: usize = 0;
        while i < nc
            invariant
                i <= nc,
                out@ + categories_html(cats.skip(i as int), cur) == "<ul class=\"channels\">\n"@
                    + categories_html(cats, cur),
            decreases nc - i,
        {
            let cat = &channel_list.categories[i];
            let ghost catv = cats[i as int];
            let ghost before = out@;
            out.append("<li class=\"category\"><span>");
            let cn = escape_html_text(cat.name.as_str());
            out.append(cn.as_str());
            out.append("</span>\n<ul>\n");
            let ghost mid = before + "<li class=\"category\"><span>"@ + html_escaped(catv.name)
                + "</span>\n<ul>\n"@;
            proof {
                assert(out@ =~= mid);
            }
            let ghost es = catv.channels;
            let ne = cat.channels.len();
            proof {
                assert(es.skip(0) =~= es);
            }
            let mut j: usize = 0;
            while j < ne
                invariant
                    j <= ne,
                    out@ + entries_html(es.skip(j as int), cur) == mid + entries_html(es, cur),
                decreases ne - j,
            {
                let e = &cat.channels[j];
                let ghost ev = es[j as int];
                let ghost ebefore = out@;
                out.append("<li class=\"");
                let is_cur = match &cur {
                    Some(c) => *c == e.id,
                    None => false,
                };
                if is_cur {
                    out.append("channel current");
                } else {
                    out.append("channel");
                }
                out.append("\"><a href=\"/channel/");
                let ids = u64_to_string(e.id);
                out.append(ids.as_str());
                out.append("/0\">");
                let en = escape_html_text(e.name.as_str());
                out.append(en.as_str());
                out.append("</a></li>\n");
                proof {
                    assert(is_cur == (cur == Some(ev.id)));
                    assert(out@ =~= ebefore + entry_html(ev, cur));
                    assert(es.skip(j as int)[0] == ev);
                    assert(es.skip(j as int).drop_first() =~= es.skip(j + 1));
                    assert((ebefore + entry_html(ev, cur)) + entries_html(es.skip(j + 1), cur)
                        =~= ebefore + (entry_html(ev, cur) + entries_html(es.skip(j + 1), cur)));
                }
                j = j + 1;
            }
            proof {
                assert(es.skip(ne as int) =~= Seq::<ChannelListEntryV>::empty());
            }
            let ghost entries_done = out@;
            out.append("</ul></li>\n");
            proof {
                assert(entries_done =~= mid + entries_html(es, cur));
                assert(out@ =~= before + category_html(catv, cur));
                assert(cats.skip(i as int)[0] == catv);
                assert(cats.skip(i as int).drop_first() =~= cats.skip(i + 1));
                assert((before + category_html(catv, cur)) + categories_html(
                    cats.skip(i + 1),
                    cur,
                ) =~= before + (category_html(catv, cur) + categories_html(cats.skip(i + 1), cur)));
            }
            i = i + 1;
        }
        proof {
            assert(cats.skip(nc as int) =~= Seq::<ChannelCategoryV>::empty());
        }
        out.append("</ul>\n");
        proof {
            assert(out@ =~= channel_list_html(channel_list@, current_channel_id));
        }
        out
    }
}

/// The message page view.
pub struct MessagePageTemplate;

/// The attribute value naming a scroll direction.
pub open spec fn direction_name(d: crate::ScrollDirection) -> Seq<char> {
    match d {
        crate::ScrollDirection::Up => "up"@,
        crate::ScrollDirection::Down => "down"@,
        crate::ScrollDirection::Both => "both"@,
        crate::ScrollDirection::Unspecified => "unspecified"@,
    }
}

/// Length of the run of messages from `i` on whose authors all equal that
/// of message `base`.
pub open spec fn author_run(ms: Seq<crate::MessageV>, base: int, i: int) -> int
    decreases ms.len() - i when 0 <= i <= ms.len() && 0 <= base < ms.len()
{
    if i < ms.len() && ms[i].username == ms[base].username {
        1 + author_run(ms, base, i + 1)
    } else {
        0
    }
}

/// An author run stays inside the list and is non-empty at its own base.
pub proof fn lemma_author_run_range(ms: Seq<crate::MessageV>, base: int, i: int)
    requires
        0 <= i <= ms.len(),
        0 <= base < ms.len(),
    ensures
        0 <= author_run(ms, base, i),
        i + author_run(ms, base, i) <= ms.len(),
        i < ms.len() && ms[i].username == ms[base].username ==> author_run(ms, base, i) >= 1,
    decreases ms.len() - i,
{
    if i < ms.len() && ms[i].username == ms[base].username {
        lemma_author_run_range(ms, base, i + 1);
    }
}

/// Whether a run of messages holds the jump target.
pub open spec fn run_highlighted(ms: Seq<crate::MessageV>, target: Option<u64>) -> bool {
    target is Some && exists|t: int|
        0 <= t < ms.len() && (#[trigger] ms[t]).rowid == target->Some_0
}

/// One message: its row identifier as an anchor, its rendered body as is.
pub open spec fn message_html(m: crate::MessageV) -> Seq<char> {
    "<div class=\"message\" id=\"message-"@ + dec_str(m.rowid as int) + "\">"@ + m.content
        + "</div>\n"@
}

/// A run of messages, in order.
pub open spec fn messages_html(ms: Seq<crate::MessageV>) -> Seq<char>
    decreases ms.len(),
{
    if ms.len() == 0 {
        Seq::empty()
    } else {
        message_html(ms[0]) + messages_html(ms.drop_first())
    }
}

/// One group of consecutive messages by the same author, marked when it
/// holds the jump target.
pub open spec fn group_html(ms: Seq<crate::MessageV>, author: Seq<char>, target: Option<u64>) -> Seq<
    char,
> {
    "<div class=\""@ + (if run_highlighted(ms, target) {
        "message-group highlighted"@
    } else {
        "message-group"@
    }) + "\" data-username=\""@ + html_escaped(author) + "\">\n"@ + messages_html(ms)
        + "</div>\n"@
}

/// The messages from `j` on, grouped into runs that share an author.
pub open spec fn groups_html(ms: Seq<crate::MessageV>, j: int, target: Option<u64>) -> Seq<char>
    decreases ms.len() - j when 0 <= j <= ms.len() via groups_html_decreases
{
    if j >= ms.len() {
        Seq::empty()
    } else {
        let r = author_run(ms, j, j);
        group_html(ms.subrange(j, j + r), ms[j].username, target) + groups_html(ms, j + r, target)
    }
}

#[via_fn]
proof fn groups_html_decreases(ms: Seq<crate::MessageV>, j: int, target: Option<u64>) {
    if 0 <= j < ms.len() {
        lemma_author_run_range(ms, j, j);
    }
}

/// A page of messages: a header naming the channel and page, then the
/// messages oldest first, grouped by author; an empty page renders as
/// nothing.
pub open spec fn message_page_html(
    ms: Seq<crate::MessageV>,
    channel_id: u64,
    channel_name: Seq<char>,
    page: u64,
    direction: crate::ScrollDirection,
    target: Option<u64>,
) -> Seq<char> {
    if ms.len() == 0 {
        Seq::empty()
    } else {
        "<section class=\"message-page\" data-channel-id=\""@ + dec_str(channel_id as int)
            + "\" data-page=\""@ + dec_str(page as int) + "\" data-direction=\""@
            + direction_name(direction) + "\" data-channel-name=\""@ + html_escaped(channel_name)
            + "\">\n"@ + groups_html(ms.reverse(), 0, target) + "</section>\n"@
    }
}

impl MessagePageTemplate {
    /// Renders one page of a channel's messages, oldest first, grouped by
    /// author; `target_message_id` marks the group holding the message a
    /// permalink jumped to.
    #[verifier::loop_isolation(false)]
    #[verifier::rlimit(80)]
    pub fn render(
        messages: &Vec<crate::Message>,
        channel_id: u64,
        channel_name: String,
        page: u64,
        direction: crate::ScrollDirection,
        target_message_id: Option<u64>,
    ) -> (r: String)
        ensures
            r@ == message_page_html(
                messages.deep_view(),
                channel_id,
                channel_name@,
                page,
                direction,
                target_message_id,
            ),
    {
        let n = messages.len();
        let mut out = String::new();
        if n == 0 {
            return out;
        }
        let ghost ms = messages.deep_view().reverse();
        out.append("<section class=\"message-page\" data-channel-id=\"");
        let cids = u64_to_string(channel_id);
        out.append(cids.as_str());
        out.append("\" data-page=\"");
        let pages = u64_to_string(page);
        out.append(pages.as_str());
        out.append("\" data-direction=\"");
        match direction {
            crate::ScrollDirection::Up => out.append("up"),
            crate::ScrollDirection::Down => out.append("down"),
            crate::ScrollDirection::Both => out.append("both"),
            crate::ScrollDirection::Unspecified => out.append("unspecified"),
        }
        out.append("\" data-channel-name=\"");
        let cn = escape_html_text(channel_name.as_str());
        out.append(cn.as_str());
        out.append("\">\n");
        let ghost head = out@;
        proof {
            assert(head =~= "<section class=\"message-page\" data-channel-id=\""@ + dec_str(
                channel_id as int,
            ) + "\" data-page=\""@ + dec_str(page as int) + "\" data-direction=\""@
                + direction_name(direction) + "\" data-channel-name=\""@ + html_escaped(
                channel_name@,
            ) + "\">\n"@);
        }
        let target = target_message_id;
        let mut j: usize = 0;
        while j < n
            invariant
                j <= n,
                out@ + groups_html(ms, j as int, target) == head + groups_html(ms, 0, target),
            decreases n - j,
        {
            let r = author_run_len(messages, j, n);
            let ghost grp = ms.subrange(j as int, j + r);
            let ghost gbefore = out@;
            let highlighted = run_has_target(messages, j, r, n, target);
            out.append("<div class=\"");
            if highlighted {
                out.append("message-group highlighted");
            } else {
                out.append("message-group");
            }
            out.append("\" data-username=\"");
            let un = escape_html_text(messages[n - 1 - j].username.as_str());
            out.append(un.as_str());
            out.append("\">\n");
            let ghost mid = out@;
            proof {
                assert(ms[j as int] == messages.deep_view()[n - 1 - j]);
                assert(mid =~= gbefore + "<div class=\""@ + (if run_highlighted(grp, target) {
                    "message-group highlighted"@
                } else {
                    "message-group"@
                }) + "\" data-username=\""@ + html_escaped(ms[j as int].username) + "\">\n"@);
                assert(grp.skip(0) =~= grp);
            }
            let mut t: usize = 0;
            while t < r
                invariant
                    t <= r,
                    out@ + messages_html(grp.skip(t as int)) == mid + messages_html(grp),
                decreases r - t,
            {
                let m = &messages[n - 1 - (j + t)];
                let ghost mbefore = out@;
                out.append("<div class=\"message\" id=\"message-");
                let ids = u64_to_string(m.rowid);
                out.append(ids.as_str());
                out.append("\">");
                out.append(m.content.as_str());
                out.append("</div>\n");
                proof {
                    assert(grp[t as int] == ms[j + t]);
                    assert(ms[j + t] == messages.deep_view()[n - 1 - (j + t)]);
                    assert(out@ =~= mbefore + message_html(grp[t as int]));
                    assert(grp.skip(t as int)[0] == grp[t as int]);
                    assert(grp.skip(t as int).drop_first() =~= grp.skip(t + 1));
                    assert((mbefore + message_html(grp[t as int])) + messages_html(
                        grp.skip(t + 1),
                    ) =~= mbefore + (message_html(grp[t as int]) + messages_html(grp.skip(t + 1))));
                }
                t = t + 1;
            }
            proof {
                assert(grp.skip(r as int) =~= Seq::<crate::MessageV>::empty());
            }
            let ghost msgs_done = out@;
            out.append("</div>\n");
            proof {
                assert(msgs_done =~= mid + messages_html(grp));
                assert(out@ =~= gbefore + group_html(grp, ms[j as int].username, target));
                assert(groups_html(ms, j as int, target) == group_html(
                    grp,
                    ms[j as int].username,
                    target,
                ) + groups_html(ms, j + r, target));
                assert((gbefore + group_html(grp, ms[j as int].username, target)) + groups_html(
                    ms,
                    j + r,
                    target,
                ) =~= gbefore + (group_html(grp, ms[j as int].username, target) + groups_html(
                    ms,
                    j + r,
                    target,
                )));
            }
            j = j + r;
        }
        proof {
            assert(groups_html(ms, n as int, target) =~= Seq::<char>::empty());
            assert(out@ =~= head + groups_html(ms, 0, target));
        }
        out.append("</section>\n");
        proof {
            assert(out@ =~= message_page_html(
                messages.deep_view(),
                channel_id,
                channel_name@,
                page,
                direction,
                target,
            ));
        }
        out
    }
}

/// Length of the run of messages, in display order (oldest first), from
/// position `j` on, that share the author of the message at `j`.
fn author_run_len(messages: &Vec<crate::Message>, j: usize, n: usize) -> (r: usize)
    requires
        n == messages.deep_view().len(),
        j < n,
    ensures
        r as int == author_run(
            messages.deep_view().reverse(),
            j as int,
            j as int,
        ),
        1 <= r,
        j + r <= n,
{
    let ghost ms = messages.deep_view().reverse();
    let mut l = j;
    loop
        invariant
            n == messages.deep_view().len(),
            ms == messages.deep_view().reverse(),
            j < n,
            j <= l <= n,
            author_run(ms, j as int, j as int) == (l - j) + author_run(ms, j as int, l as int),
        ensures
            j <= l <= n,
            author_run(ms, j as int, j as int) == l - j,
        decreases n - l,
    {
        if l >= n {
            assert(author_run(ms, j as int, l as int) == 0);
            break ;
        }
        proof {
            assert(ms[l as int] == messages.deep_view()[n - 1 - l]);
            assert(ms[j as int] == messages.deep_view()[n - 1 - j]);
        }
        if !(messages[n - 1 - l].username == messages[n - 1 - j].username) {
            assert(ms[l as int].username != ms[j as int].username);
            assert(author_run(ms, j as int, l as int) == 0);
            break ;
        }
        assert(ms[l as int].username == ms[j as int].username);
        assert(author_run(ms, j as int, l as int) == 1 + author_run(ms, j as int, l + 1));
        l = l + 1;
    }
    proof {
        lemma_author_run_range(ms, j as int, j as int);
    }
    l - j
}

/// Whether the run of `r` messages at display position `j` holds the jump
/// target.
fn run_has_target(
    messages: &Vec<crate::Message>,
    j: usize,
    r: usize,
    n: usize,
    target: Option<u64>,
) -> (res: bool)
    requires
        n == messages.deep_view().len(),
        j + r <= n,
    ensures
        res == run_highlighted(
            messages.deep_view().reverse().subrange(j as int, j + r),
            target,
        ),
{
    let ghost grp = messages.deep_view().reverse().subrange(j as int, j + r);
    let tg: u64 = match target {
        Some(t) => t,
        None => {
            return false;
        },
    };
    let mut t: usize = 0;
    while t < r
        invariant
            t <= r,
            j + r <= n,
            n == messages.deep_view().len(),
            grp == messages.deep_view().reverse().subrange(j as int, j + r as int),
            target == Some(tg),
            forall|x: int| 0 <= x < t ==> (#[trigger] grp[x]).rowid != tg,
        decreases r - t,
    {
        proof {
            assert(grp[t as int] == messages.deep_view().reverse()[j + t]);
            assert(messages.deep_view().reverse()[j + t] == messages.deep_view()[n - 1 - (j
                + t)]);
        }
        if messages[n - 1 - (j + t)].rowid == tg {
            proof {
                assert(grp[t as int].rowid == tg);
            }
            return true;
        }
        t = t + 1;
    }
    false
}

/// The search results view.
pub struct SearchTemplate;

/// Length of the run of search hits from `i` on whose authors all equal
/// that of the hit at `base`.
pub open spec fn hit_run(rs: Seq<crate::search::SearchResultV>, base: int, i: int) -> int
    decreases rs.len() - i when 0 <= i <= rs.len() && 0 <= base < rs.len()
{
    if i < rs.len() && rs[i].message.username == rs[base].message.username {
        1 + hit_run(rs, base, i + 1)
    } else {
        0
    }
}

/// A hit run stays inside the list and is non-empty at its own base.
pub proof fn lemma_hit_run_range(rs: Seq<crate::search::SearchResultV>, base: int, i: int)
    requires
        0 <= i <= rs.len(),
        0 <= base < rs.len(),
    ensures
        0 <= hit_run(rs, base, i),
        i + hit_run(rs, base, i) <= rs.len(),
        i < rs.len() && rs[i].message.username == rs[base].message.username ==> hit_run(
            rs,
            base,
            i,
        ) >= 1,
    decreases rs.len() - i,
{
    if i < rs.len() && rs[i].message.username == rs[base].message.username {
        lemma_hit_run_range(rs, base, i + 1);
    }
}

/// One search hit: its rendered body, linking to the message's place in
/// its channel.
pub open spec fn hit_html(h: crate::search::SearchResultV) -> Seq<char> {
    "<div class=\"search-result\"><a href=\"/message/"@ + dec_str(h.message_rowid as int)
        + "\">"@ + h.message.content + "</a></div>\n"@
}

/// A run of search hits, in order.
pub open spec fn hits_html(rs: Seq<crate::search::SearchResultV>) -> Seq<char>
    decreases rs.len(),
{
    if rs.len() == 0 {
        Seq::empty()
    } else {
        hit_html(rs[0]) + hits_html(rs.drop_first())
    }
}

/// One group of consecutive hits by the same author.
pub open spec fn hit_group_html(rs: Seq<crate::search::SearchResultV>, author: Seq<char>) -> Seq<
    char,
> {
    "<div class=\"search-group\" data-username=\""@ + html_escaped(author) + "\">\n"@ + hits_html(
        rs,
    ) + "</div>\n"@
}

/// The hits from `j` on, grouped into runs that share an author.
pub open spec fn hit_groups_html(rs: Seq<crate::search::SearchResultV>, j: int) -> Seq<char>
    decreases rs.len() - j when 0 <= j <= rs.len() via hit_groups_html_decreases
{
    if j >= rs.len() {
        Seq::empty()
    } else {
        let r = hit_run(rs, j, j);
        hit_group_html(rs.subrange(j, j + r), rs[j].message.username) + hit_groups_html(rs, j + r)
    }
}

#[via_fn]
proof fn hit_groups_html_decreases(rs: Seq<crate::search::SearchResultV>, j: int) {
    if 0 <= j < rs.len() {
        lemma_hit_run_range(rs, j, j);
    }
}

/// The search results page: the hits oldest first, grouped by author.
pub open spec fn search_html(rs: Seq<crate::search::SearchResultV>) -> Seq<char> {
    "<section class=\"search-results\">\n"@ + hit_groups_html(rs.reverse(), 0) + "</section>\n"@
}

impl SearchTemplate {
    /// Renders search results, oldest first, grouped by author.
    #[verifier::loop_isolation(false)]
    #[verifier::rlimit(80)]
    pub fn render(search_results: &Vec<crate::search::SearchResult>) -> (r: String)
        ensures
            r@ == search_html(search_results.deep_view()),
    {
        let n = search_results.len();
        let ghost rs = search_results.deep_view().reverse();
        let mut out = String::new();
        out.append("<section class=\"search-results\">\n");
        let ghost head = out@;
        proof {
            assert(head =~= "<section class=\"search-results\">\n"@);
        }
        let mut j: usize = 0;
        while j < n
            invariant
                j <= n,
                out@ + hit_groups_html(rs, j as int) == head + hit_groups_html(rs, 0),
            decreases n - j,
        {
            let r = hit_run_len(search_results, j, n);
            let ghost grp = rs.subrange(j as int, j + r);
            let ghost gbefore = out@;
            out.append("<div class=\"search-group\" data-username=\"");
            let un = escape_html_text(search_results[n - 1 - j].message.username.as_str());
            out.append(un.as_str());
            out.append("\">\n");
            let ghost mid = out@;
            proof {
                assert(rs[j as int] == search_results.deep_view()[n - 1 - j]);
                assert(mid =~= gbefore + "<div class=\"search-group\" data-username=\""@
                    + html_escaped(rs[j as int].message.username) + "\">\n"@);
                assert(grp.skip(0) =~= grp);
            }
            let mut t: usize = 0;
            while t < r
                invariant
                    t <= r,
                    out@ + hits_html(grp.skip(t as int)) == mid + hits_html(grp),
                decreases r - t,
            {
                let h = &search_results[n - 1 - (j + t)];
                let ghost hbefore = out@;
                out.append("<div class=\"search-result\"><a href=\"/message/");
                let ids = u64_to_string(h.message_rowid);
                out.append(ids.as_str());
                out.append("\">");
                out.append(h.message.content.as_str());
                out.append("</a></div>\n");
                proof {
                    assert(grp[t as int] == rs[j + t]);
                    assert(rs[j + t] == search_results.deep_view()[n - 1 - (j + t)]);
                    assert(out@ =~= hbefore + hit_html(grp[t as int]));
                    assert(grp.skip(t as int)[0] == grp[t as int]);
                    assert(grp.skip(t as int).drop_first() =~= grp.skip(t + 1));
                    assert((hbefore + hit_html(grp[t as int])) + hits_html(grp.skip(t + 1)) =~= (
                    hbefore + (hit_html(grp[t as int]) + hits_html(grp.skip(t + 1)))));
                }
                t = t + 1;
            }
            proof {
                assert(grp.skip(r as int) =~= Seq::<crate::search::SearchResultV>::empty());
            }
            let ghost hits_done = out@;
            out.append("</div>\n");
            proof {
                assert(hits_done =~= mid + hits_html(grp));
                assert(out@ =~= gbefore + hit_group_html(grp, rs[j as int].message.username));
                assert(hit_groups_html(rs, j as int) == hit_group_html(
                    grp,
                    rs[j as int].message.username,
                ) + hit_groups_html(rs, j + r));
                assert((gbefore + hit_group_html(grp, rs[j as int].message.username))
                    + hit_groups_html(rs, j + r) =~= gbefore + (hit_group_html(
                    grp,
                    rs[j as int].message.username,
                ) + hit_groups_html(rs, j + r)));
            }
            j = j + r;
        }
        proof {
            assert(hit_groups_html(rs, n as int) =~= Seq::<char>::empty());
            assert(out@ =~= head + hit_groups_html(rs, 0));
        }
        out.append("</section>\n");
        proof {
            assert(out@ =~= search_html(search_results.deep_view()));
        }
        out
    }
}

/// Length of the run of search hits, in display order (oldest first), from
/// position `j` on, that share the author of the hit at `j`.
fn hit_run_len(search_results: &Vec<crate::search::SearchResult>, j: usize, n: usize) -> (r:
    usize)
    requires
        n == search_results.deep_view().len(),
        j < n,
    ensures
        r as int == hit_run(search_results.deep_view().reverse(), j as int, j as int),
        1 <= r,
        j + r <= n,
{
    let ghost rs = search_results.deep_view().reverse();
    let mut l = j;
    loop
        invariant
            n == search_results.deep_view().len(),
            rs == search_results.deep_view().reverse(),
            j < n,
            j <= l <= n,
            hit_run(rs, j as int, j as int) == (l - j) + hit_run(rs, j as int, l as int),
        ensures
            j <= l <= n,
            hit_run(rs, j as int, j as int) == l - j,
        decreases n - l,
    {
        if l >= n {
            assert(hit_run(rs, j as int, l as int) == 0);
            break ;
        }
        proof {
            assert(rs[l as int] == search_results.deep_view()[n - 1 - l]);
            assert(rs[j as int] == search_results.deep_view()[n - 1 - j]);
        }
        if !(search_results[n - 1 - l].message.username == search_results[n - 1
            - j].message.username) {
            assert(rs[l as int].message.username != rs[j as int].message.username);
            assert(hit_run(rs, j as int, l as int) == 0);
            break ;
        }
        assert(rs[l as int].message.username == rs[j as int].message.username);
        assert(hit_run(rs, j as int, l as int) == 1 + hit_run(rs, j as int, l + 1));
        l = l + 1;
    }
    proof {
        lemma_hit_run_range(rs, j as int, j as int);
    }
    l - j
}

/// Wraps rendered content in the page frame, unless the request asked for
/// a partial in-page refresh, in which case the content stands alone.
pub fn wrap_partial(hx_request: bool, title: &str, content: String) -> (r: String)
    ensures
        r@ == if hx_request {
            content@
        } else {
            layout_html(title@, content@)
        },
{
    if hx_request {
        content
    } else {
        LayoutTemplate::render(title, content.as_str())
    }
}

} // verus!
