//! The full-text search: input sanitization, query construction, and the
//! token-matching semantics the archive searches by.
//!
//! Untrusted search input is defended by a whitelist: every character that
//! is not alphanumeric or whitespace is stripped before the input reaches
//! the query, and what survives is lower-cased with full Unicode case
//! mapping.

use vstd::prelude::*;
use vstd::string::StrSliceExecFns;
use vstd::string::StringExecFns;

use crate::text::lower_chars;
use crate::text::to_lower;
use crate::text::unicode_alphanumeric;
use crate::text::unicode_whitespace;
use crate::Error;

verus! {

/// Whether the sanitizer keeps a character.
pub open spec fn fts_keep(c: char) -> bool {
    unicode_alphanumeric(c) || unicode_whitespace(c)
}

/// The sanitized text from position `i` on: kept characters, each replaced
/// by its lowercase mapping.
pub open spec fn filter_from(s: Seq<char>, i: int) -> Seq<char>
    decreases s.len() - i when 0 <= i <= s.len()
{
    if i >= s.len() {
        Seq::empty()
    } else if fts_keep(s[i]) {
        lower_chars(s[i]) + filter_from(s, i + 1)
    } else {
        filter_from(s, i + 1)
    }
}

/// The sanitized form of a text: non-alphanumeric, non-whitespace
/// characters stripped, the rest lower-cased.
pub open spec fn spec_fts_filter(s: Seq<char>) -> Seq<char> {
    filter_from(s, 0)
}

/// Strips every character that is not alphanumeric or whitespace and
/// lower-cases the rest.
pub fn fts_filter(input: &str) -> (r: String)
    ensures
        r@ == spec_fts_filter(input@),
{
    let n = input.unicode_len();
    let mut out = String::new();
    let mut i: usize = 0;
    while i < n
        invariant
            n == input@.len(),
            i <= n,
            out@ + filter_from(input@, i as int) == filter_from(input@, 0),
        decreases n - i,
    {
        let c = input.get_char(i);
        let ghost prev = out@;
        if c.is_alphanumeric() || c.is_whitespace() {
            let low = to_lower(c);
            out.append(low.as_str());
            proof {
                assert((prev + lower_chars(c)) + filter_from(input@, i + 1) =~= prev + (
                lower_chars(c) + filter_from(input@, i + 1)));
            }
        }
        i = i + 1;
    }
    proof {
        assert(out@ + filter_from(input@, n as int) =~= out@);
    }
    out
}

/// Length of the run of non-whitespace characters starting at `i`.
pub open spec fn nonws_run(s: Seq<char>, i: int) -> int
    decreases s.len() - i when 0 <= i <= s.len()
{
    if i < s.len() && !unicode_whitespace(s[i]) {
        1 + nonws_run(s, i + 1)
    } else {
        0
    }
}

/// A run of non-whitespace characters stays inside the text, and is
/// non-empty exactly where a non-whitespace character stands.
pub proof fn lemma_nonws_run_range(s: Seq<char>, i: int)
    requires
        0 <= i <= s.len(),
    ensures
        0 <= nonws_run(s, i),
        i + nonws_run(s, i) <= s.len(),
        i < s.len() && !unicode_whitespace(s[i]) ==> nonws_run(s, i) >= 1,
    decreases s.len() - i,
{
    if i < s.len() && !unicode_whitespace(s[i]) {
        lemma_nonws_run_range(s, i + 1);
    }
}

/// The sanitized tokens of a search input from position `i` on: the input
/// is split on whitespace, each word is sanitized, and words whose
/// sanitized form is empty are discarded.
pub open spec fn query_tokens_from(s: Seq<char>, i: int) -> Seq<Seq<char>>
    decreases s.len() - i when 0 <= i <= s.len() via query_tokens_from_decreases
{
    if i >= s.len() {
        Seq::empty()
    } else if unicode_whitespace(s[i]) {
        query_tokens_from(s, i + 1)
    } else {
        let r = nonws_run(s, i);
        let t = spec_fts_filter(s.subrange(i, i + r));
        if t.len() > 0 {
            seq![t] + query_tokens_from(s, i + r)
        } else {
            query_tokens_from(s, i + r)
        }
    }
}

#[via_fn]
proof fn query_tokens_from_decreases(s: Seq<char>, i: int) {
    if 0 <= i < s.len() && !unicode_whitespace(s[i]) {
        lemma_nonws_run_range(s, i);
    }
}

/// The sanitized tokens of a search input.
pub open spec fn query_tokens(s: Seq<char>) -> Seq<Seq<char>> {
    query_tokens_from(s, 0)
}

/// A token quoted as an exact full-text term.
pub open spec fn quoted(t: Seq<char>) -> Seq<char> {
    "\""@ + t + "\""@
}

/// Quoted tokens joined with boolean AND.
pub open spec fn join_and(ts: Seq<Seq<char>>) -> Seq<char>
    decreases ts.len(),
{
    if ts.len() == 0 {
        Seq::empty()
    } else if ts.len() == 1 {
        quoted(ts[0])
    } else {
        quoted(ts[0]) + " AND "@ + join_and(ts.drop_first())
    }
}

/// The full-text match expression for a search input: its sanitized tokens,
/// quoted and joined with AND.
pub open spec fn spec_fts_query(s: Seq<char>) -> Seq<char> {
    join_and(query_tokens(s))
}

/// Appending one more token extends the joined expression with a separator,
/// unless it is the first.
proof fn lemma_join_and_push(ts: Seq<Seq<char>>, t: Seq<char>)
    ensures
        join_and(ts.push(t)) == if ts.len() == 0 {
            quoted(t)
        } else {
            join_and(ts) + " AND "@ + quoted(t)
        },
    decreases ts.len(),
{
    if ts.len() == 0 {
        assert(ts.push(t) =~= seq![t]);
    } else {
        assert(ts.push(t).drop_first() =~= ts.drop_first().push(t));
        assert(ts.push(t)[0] == ts[0]);
        lemma_join_and_push(ts.drop_first(), t);
        if ts.len() == 1 {
            assert(join_and(ts.push(t)) == quoted(ts[0]) + " AND "@ + quoted(t));
        } else {
            assert(join_and(ts.push(t)) == quoted(ts[0]) + " AND "@ + (join_and(ts.drop_first())
                + " AND "@ + quoted(t)));
            assert(quoted(ts[0]) + " AND "@ + (join_and(ts.drop_first()) + " AND "@ + quoted(t))
                =~= (quoted(ts[0]) + " AND "@ + join_and(ts.drop_first())) + " AND "@ + quoted(t));
        }
    }
}

/// Length of the run of non-whitespace characters of `s` starting at `p`.
fn nonws_run_len(s: &str, p: usize, n: usize) -> (r: usize)
    requires
        n == s@.len(),
        p <= n,
    ensures
        r as int == nonws_run(s@, p as int),
        p + r <= n,
{
    let mut j = p;
    loop
        invariant
            p <= j <= n,
            n == s@.len(),
            nonws_run(s@, p as int) == j - p + nonws_run(s@, j as int),
        ensures
            p <= j <= n,
            nonws_run(s@, p as int) == j - p,
        decreases n - j,
    {
        if j >= n {
            assert(nonws_run(s@, j as int) == 0);
            break ;
        }
        let c = s.get_char(j);
        if c.is_whitespace() {
            assert(nonws_run(s@, j as int) == 0);
            break ;
        }
        assert(nonws_run(s@, j as int) == 1 + nonws_run(s@, j + 1));
        j = j + 1;
    }
    j - p
}

/// Builds the full-text match expression for a search input: splits it on
/// whitespace, sanitizes each word, discards words that sanitize to
/// nothing, quotes the rest and joins them with AND.
pub fn fts_query(input: &str) -> (r: String)
    ensures
        r@ == spec_fts_query(input@),
{
    let n = input.unicode_len();
    let mut out = String::new();
    let ghost mut toks: Seq<Seq<char>> = Seq::empty();
    let mut first: bool = true;
    let mut i: usize = 0;
    while i < n
        invariant
            n == input@.len(),
            i <= n,
            query_tokens_from(input@, 0) == toks + query_tokens_from(input@, i as int),
            out@ == join_and(toks),
            first <==> toks.len() == 0,
        decreases n - i,
    {
        let c = input.get_char(i);
        if c.is_whitespace() {
            i = i + 1;
        } else {
            let r = nonws_run_len(input, i, n);
            assert(r >= 1) by {
                lemma_nonws_run_range(input@, i as int);
            };
            let word = input.substring_char(i, i + r);
            let t = fts_filter(word);
            let ghost tv = t@;
            assert(tv == spec_fts_filter(input@.subrange(i as int, i + r)));
            if !t.as_str().is_empty() {
                let ghost prev_toks = toks;
                if !first {
                    out.append(" AND ");
                }
                out.append("\"");
                out.append(t.as_str());
                out.append("\"");
                proof {
                    lemma_join_and_push(prev_toks, tv);
                    toks = toks.push(tv);
                    if prev_toks.len() == 0 {
                        assert(out@ =~= quoted(tv));
                    } else {
                        assert(out@ =~= join_and(prev_toks) + " AND "@ + quoted(tv));
                    }
                    assert((prev_toks + seq![tv]) + query_tokens_from(input@, i + r) =~= prev_toks
                        + (seq![tv] + query_tokens_from(input@, i + r)));
                    assert(toks =~= prev_toks + seq![tv]);
                }
                first = false;
            }
            i = i + r;
        }
    }
    proof {
        assert(toks + query_tokens_from(input@, n as int) =~= toks);
    }
    out
}

/// Length of the run of alphanumeric characters starting at `i`.
pub open spec fn alnum_run(s: Seq<char>, i: int) -> int
    decreases s.len() - i when 0 <= i <= s.len()
{
    if i < s.len() && unicode_alphanumeric(s[i]) {
        1 + alnum_run(s, i + 1)
    } else {
        0
    }
}

/// An alphanumeric run stays inside the text, and is non-empty exactly
/// where an alphanumeric character stands.
pub proof fn lemma_alnum_run_range(s: Seq<char>, i: int)
    requires
        0 <= i <= s.len(),
    ensures
        0 <= alnum_run(s, i),
        i + alnum_run(s, i) <= s.len(),
        i < s.len() && unicode_alphanumeric(s[i]) ==> alnum_run(s, i) >= 1,
    decreases s.len() - i,
{
    if i < s.len() && unicode_alphanumeric(s[i]) {
        lemma_alnum_run_range(s, i + 1);
    }
}

/// The tokens of a stored text from position `i` on: its maximal runs of
/// alphanumeric characters, each lower-cased. This is how the archive
/// tokenizes indexed text when it matches search terms against it.
pub open spec fn text_tokens_from(s: Seq<char>, i: int) -> Seq<Seq<char>>
    decreases s.len() - i when 0 <= i <= s.len() via text_tokens_from_decreases
{
    if i >= s.len() {
        Seq::empty()
    } else if !unicode_alphanumeric(s[i]) {
        text_tokens_from(s, i + 1)
    } else {
        let r = alnum_run(s, i);
        seq![spec_fts_filter(s.subrange(i, i + r))] + text_tokens_from(s, i + r)
    }
}

#[via_fn]
proof fn text_tokens_from_decreases(s: Seq<char>, i: int) {
    if 0 <= i < s.len() && unicode_alphanumeric(s[i]) {
        lemma_alnum_run_range(s, i);
    }
}

/// The tokens of a stored text.
pub open spec fn text_tokens(s: Seq<char>) -> Seq<Seq<char>> {
    text_tokens_from(s, 0)
}

/// Whether `t` is one of the tokens of a stored text.
pub open spec fn has_token(text: Seq<char>, t: Seq<char>) -> bool {
    text_tokens(text).contains(t)
}

/// Whether a stored text matches a free-text filter: every sanitized token
/// of the filter occurs as a token of the text.
pub open spec fn content_match(text: Seq<char>, q: Seq<char>) -> bool {
    forall|x: int|
        0 <= x < query_tokens(q).len() ==> has_token(text, #[trigger] query_tokens(q)[x])
}

/// Whether `t` occurs contiguously inside `w`.
pub open spec fn is_infix(w: Seq<char>, t: Seq<char>) -> bool {
    exists|o: int| 0 <= o && o + t.len() <= w.len() && #[trigger] w.subrange(o, o + t.len()) == t
}

/// Whether `t` occurs inside some token of a stored text.
pub open spec fn infix_in_tokens(u: Seq<char>, t: Seq<char>) -> bool {
    exists|y: int| 0 <= y < text_tokens(u).len() && is_infix(#[trigger] text_tokens(u)[y], t)
}

/// Whether a stored author name matches an author filter: every sanitized
/// token of the filter occurs inside some token of the name — the author
/// clause is a wildcard substring match, not an exact term match.
pub open spec fn username_match(u: Seq<char>, q: Seq<char>) -> bool {
    forall|x: int|
        0 <= x < query_tokens(q).len() ==> infix_in_tokens(u, #[trigger] query_tokens(q)[x])
}

/// The sanitized tokens of a search input, as a list.
pub(crate) fn tokenize_query(input: &str) -> (r: Vec<String>)
    ensures
        r.deep_view() == query_tokens(input@),
{
    let n = input.unicode_len();
    let mut out: Vec<String> = Vec::new();
    let mut i: usize = 0;
    proof {
        assert(query_tokens_from(input@, 0).skip(0) =~= query_tokens_from(input@, 0));
    }
    while i < n
        invariant
            n == input@.len(),
            i <= n,
            query_tokens_from(input@, 0) == out.deep_view() + query_tokens_from(
                input@,
                i as int,
            ),
        decreases n - i,
    {
        let c = input.get_char(i);
        if c.is_whitespace() {
            i = i + 1;
        } else {
            let r = nonws_run_len(input, i, n);
            assert(r >= 1) by {
                lemma_nonws_run_range(input@, i as int);
            };
            let word = input.substring_char(i, i + r);
            let t = fts_filter(word);
            let ghost tv = t@;
            if !t.as_str().is_empty() {
                let ghost oldd = out.deep_view();
                out.push(t);
                proof {
                    assert(out.deep_view() =~= oldd.push(tv));
                    assert(oldd.push(tv) =~= oldd + seq![tv]);
                    assert((oldd + seq![tv]) + query_tokens_from(input@, i + r) =~= oldd + (
                    seq![tv] + query_tokens_from(input@, i + r)));
                }
            }
            i = i + r;
        }
    }
    proof {
        assert(out.deep_view() + query_tokens_from(input@, n as int) =~= out.deep_view());
    }
    out
}

/// The tokens of a stored text, as a list.
pub(crate) fn tokenize_text(input: &str) -> (r: Vec<String>)
    ensures
        r.deep_view() == text_tokens(input@),
{
    let n = input.unicode_len();
    let mut out: Vec<String> = Vec::new();
    let mut i: usize = 0;
    while i < n
        invariant
            n == input@.len(),
            i <= n,
            text_tokens_from(input@, 0) == out.deep_view() + text_tokens_from(input@, i as int),
        decreases n - i,
    {
        let c = input.get_char(i);
        if !c.is_alphanumeric() {
            i = i + 1;
        } else {
            let r = alnum_run_len(input, i, n);
            assert(r >= 1) by {
                lemma_alnum_run_range(input@, i as int);
            };
            let word = input.substring_char(i, i + r);
            let t = fts_filter(word);
            let ghost tv = t@;
            let ghost oldd = out.deep_view();
            out.push(t);
            proof {
                assert(out.deep_view() =~= oldd.push(tv));
                assert(oldd.push(tv) =~= oldd + seq![tv]);
                assert((oldd + seq![tv]) + text_tokens_from(input@, i + r) =~= oldd + (seq![tv]
                    + text_tokens_from(input@, i + r)));
            }
            i = i + r;
        }
    }
    proof {
        assert(out.deep_view() + text_tokens_from(input@, n as int) =~= out.deep_view());
    }
    out
}

/// Length of the run of alphanumeric characters of `s` starting at `p`.
fn alnum_run_len(s: &str, p: usize, n: usize) -> (r: usize)
    requires
        n == s@.len(),
        p <= n,
    ensures
        r as int == alnum_run(s@, p as int),
        p + r <= n,
{
    let mut j = p;
    loop
        invariant
            p <= j <= n,
            n == s@.len(),
            alnum_run(s@, p as int) == j - p + alnum_run(s@, j as int),
        ensures
            p <= j <= n,
            alnum_run(s@, p as int) == j - p,
        decreases n - j,
    {
        if j >= n {
            assert(alnum_run(s@, j as int) == 0);
            break ;
        }
        let c = s.get_char(j);
        if !c.is_alphanumeric() {
            assert(alnum_run(s@, j as int) == 0);
            break ;
        }
        assert(alnum_run(s@, j as int) == 1 + alnum_run(s@, j + 1));
        j = j + 1;
    }
    j - p
}

/// Whether a list of texts holds one equal to `t`.
fn list_contains(v: &Vec<String>, t: &String) -> (r: bool)
    ensures
        r == v.deep_view().contains(t@),
{
    let mut i: usize = 0;
    while i < v.len()
        invariant
            i <= v@.len(),
            forall|x: int| 0 <= x < i ==> #[trigger] v.deep_view()[x] != t@,
        decreases v@.len() - i,
    {
        if v[i] == *t {
            proof {
                assert(v.deep_view()[i as int] == t@);
            }
            return true;
        }
        i = i + 1;
    }
    false
}

/// Whether `t` occurs contiguously inside `w`.
fn string_has_infix(w: &String, t: &String) -> (r: bool)
    ensures
        r == is_infix(w@, t@),
{
    let wn = w.as_str().unicode_len();
    let tn = t.as_str().unicode_len();
    if tn > wn {
        return false;
    }
    if tn == 0 {
        proof {
            assert(t@.len() == 0);
            assert(w@.subrange(0, 0 + t@.len() as int) =~= t@);
            assert(is_infix(w@, t@));
        }
        return true;
    }
    let mut o: usize = 0;
    while o <= wn - tn
        invariant
            1 <= tn <= wn,
            wn == w@.len(),
            tn == t@.len(),
            o <= wn - tn + 1,
            forall|p: int| 0 <= p < o ==> #[trigger] w@.subrange(p, p + tn as int) != t@,
        decreases wn - tn - o + 1,
    {
        let mut x: usize = 0;
        let mut hit = true;
        while x < tn
            invariant
                tn <= wn,
                wn == w@.len(),
                tn == t@.len(),
                o <= wn - tn,
                x <= tn,
                hit ==> forall|y: int| 0 <= y < x ==> w@[o + y] == t@[y],
                !hit ==> w@.subrange(o as int, o + tn as int) != t@,
            decreases tn - x,
        {
            if w.as_str().get_char(o + x) != t.as_str().get_char(x) {
                proof {
                    assert(w@.subrange(o as int, o + tn as int)[x as int] == w@[o + x]);
                }
                hit = false;
                x = tn;
            } else {
                x = x + 1;
            }
        }
        if hit {
            proof {
                assert(w@.subrange(o as int, o + tn as int) =~= t@);
            }
            return true;
        }
        o = o + 1;
    }
    proof {
        assert forall|p: int| 0 <= p && p + t@.len() <= w@.len() implies #[trigger] w@.subrange(
            p,
            p + t@.len(),
        ) != t@ by {
            assert(p < o);
        }
    }
    false
}

/// Whether every filter token occurs as a token of the text.
pub(crate) fn text_has_all_tokens(text: &str, qtoks: &Vec<String>) -> (r: bool)
    ensures
        r == (forall|x: int|
            0 <= x < qtoks.deep_view().len() ==> has_token(
                text@,
                #[trigger] qtoks.deep_view()[x],
            )),
{
    let ttoks = tokenize_text(text);
    let mut x: usize = 0;
    while x < qtoks.len()
        invariant
            x <= qtoks@.len(),
            ttoks.deep_view() == text_tokens(text@),
            forall|y: int| 0 <= y < x ==> has_token(text@, #[trigger] qtoks.deep_view()[y]),
        decreases qtoks@.len() - x,
    {
        if !list_contains(&ttoks, &qtoks[x]) {
            proof {
                assert(!has_token(text@, qtoks.deep_view()[x as int]));
            }
            return false;
        }
        x = x + 1;
    }
    true
}

/// Whether every filter token occurs inside some token of the name.
pub(crate) fn name_has_all_infixes(uname: &str, qtoks: &Vec<String>) -> (r: bool)
    ensures
        r == (forall|x: int|
            0 <= x < qtoks.deep_view().len() ==> infix_in_tokens(
                uname@,
                #[trigger] qtoks.deep_view()[x],
            )),
{
    let utoks = tokenize_text(uname);
    let mut x: usize = 0;
    while x < qtoks.len()
        invariant
            x <= qtoks@.len(),
            utoks.deep_view() == text_tokens(uname@),
            forall|z: int|
                0 <= z < x ==> infix_in_tokens(uname@, #[trigger] qtoks.deep_view()[z]),
        decreases qtoks@.len() - x,
    {
        let t = &qtoks[x];
        let mut y: usize = 0;
        let mut found = false;
        while y < utoks.len() && !found
            invariant
                y <= utoks@.len(),
                utoks.deep_view() == text_tokens(uname@),
                t@ == qtoks.deep_view()[x as int],
                found ==> infix_in_tokens(uname@, t@),
                !found ==> forall|w: int|
                    0 <= w < y ==> !is_infix(#[trigger] text_tokens(uname@)[w], t@),
            decreases utoks@.len() - y,
        {
            if string_has_infix(&utoks[y], t) {
                proof {
                    assert(is_infix(text_tokens(uname@)[y as int], t@));
                }
                found = true;
            }
            y = y + 1;
        }
        if !found {
            proof {
                assert(!infix_in_tokens(uname@, qtoks.deep_view()[x as int]));
            }
            return false;
        }
        x = x + 1;
    }
    true
}

/// One search hit: the matching message, with its row identifier and its
/// channel, as callers need them to build a link to the message.
pub struct SearchResult {
    pub message_rowid: u64,
    pub channel_id: u64,
    pub message: crate::Message,
}

/// The mathematical value of a search hit.
#[verifier::ext_equal]
pub struct SearchResultV {
    pub message_rowid: u64,
    pub channel_id: u64,
    pub message: crate::MessageV,
}

impl View for SearchResult {
    type V = SearchResultV;

    open spec fn view(&self) -> SearchResultV {
        SearchResultV {
            message_rowid: self.message_rowid,
            channel_id: self.channel_id,
            message: self.message@,
        }
    }
}

impl DeepView for SearchResult {
    type V = SearchResultV;

    open spec fn deep_view(&self) -> SearchResultV {
        self@
    }
}

/// A search filter as the user supplies it: free text, and optionally an
/// author name.
pub struct SearchQuery {
    pub username: Option<String>,
    pub content: String,
}

/// The view of a search filter.
#[verifier::ext_equal]
pub struct SearchQueryV {
    pub username: Option<Seq<char>>,
    pub content: Seq<char>,
}

impl View for SearchQuery {
    type V = SearchQueryV;

    open spec fn view(&self) -> SearchQueryV {
        SearchQueryV {
            username: match self.username {
                Some(u) => Some(u@),
                None => None,
            },
            content: self.content@,
        }
    }
}

/// The fixed head of the search statement: the selected columns and the
/// join of the full-text index with the message table.
pub open spec fn query_head() -> Seq<char> {
    "\nSELECT\n    messages.content, messages.username,\n    messages.avatar, messages.sent_at,\n    messages.channel_id, messages.rowid\nFROM messages_fts JOIN messages ON messages_fts.messages_rowid = messages.rowid\nWHERE\n"@
}

impl SearchQuery {
    /// Whether the filter is empty: no free text and no author name.
    pub open spec fn spec_is_empty(&self) -> bool {
        self@.content.len() == 0 && self@.username is None
    }

    /// Whether the filter is empty.
    pub fn is_empty(&self) -> (r: bool)
        ensures
            r == self.spec_is_empty(),
    {
        self.content.as_str().is_empty() && self.username.is_none()
    }

    /// Builds a prepared full-text search statement.
    ///
    /// Returns the statement text and, separately, the match expressions as
    /// its parameter list: the author clause's wildcard term first when an
    /// author name is present, then the free-text expression. Building
    /// cannot fail; the fallible shape is kept for callers.
    pub fn build(self) -> (r: Result<(String, Vec<String>), Error>)
        ensures
            r is Ok,
            ({
                let q = r->Ok_0.0;
                let ps = r->Ok_0.1;
                match self@.username {
                    Some(u) => {
                        &&& q@ == query_head() + "messages_fts.username MATCH ?1 OR\n"@
                            + "messages_fts.content MATCH ?2\n"@
                            + "ORDER BY messages.sent_at DESC;\n"@
                        &&& ps.deep_view() == seq![
                            "*\""@ + spec_fts_query(u) + "\"*"@,
                            spec_fts_query(self@.content),
                        ]
                    },
                    None => {
                        &&& q@ == query_head() + "messages_fts.content MATCH ?1\n"@
                            + "ORDER BY messages.sent_at DESC;\n"@
                        &&& ps.deep_view() == seq![spec_fts_query(self@.content)]
                    },
                }
            }),
    {
        let mut query = String::new();
        let mut params: Vec<String> = Vec::new();
        query.append(
            "\nSELECT\n    messages.content, messages.username,\n    messages.avatar, messages.sent_at,\n    messages.channel_id, messages.rowid\nFROM messages_fts JOIN messages ON messages_fts.messages_rowid = messages.rowid\nWHERE\n",
        );
        match &self.username {
            Some(u) => {
                query.append("messages_fts.username MATCH ?1 OR\n");
                let uq = fts_query(u.as_str());
                let mut p = String::new();
                p.append("*\"");
                p.append(uq.as_str());
                p.append("\"*");
                proof {
                    assert(p@ =~= "*\""@ + spec_fts_query(u@) + "\"*"@);
                }
                params.push(p);
                query.append("messages_fts.content MATCH ?2\n");
            },
            None => {
                query.append("messages_fts.content MATCH ?1\n");
            },
        }
        let cq = fts_query(self.content.as_str());
        params.push(cq);
        query.append("ORDER BY messages.sent_at DESC;\n");
        proof {
            match self@.username {
                Some(u) => {
                    assert(query@ =~= query_head() + "messages_fts.username MATCH ?1 OR\n"@
                        + "messages_fts.content MATCH ?2\n"@
                        + "ORDER BY messages.sent_at DESC;\n"@);
                    assert(params.deep_view() =~= seq![
                        "*\""@ + spec_fts_query(u) + "\"*"@,
                        spec_fts_query(self@.content),
                    ]);
                },
                None => {
                    assert(query@ =~= query_head() + "messages_fts.content MATCH ?1\n"@
                        + "ORDER BY messages.sent_at DESC;\n"@);
                    assert(params.deep_view() =~= seq![spec_fts_query(self@.content)]);
                },
            }
        }
        Ok((query, params))
    }
}

} // verus!
