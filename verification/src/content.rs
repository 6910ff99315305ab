//! Load-time rendering of message bodies, and parsing of category file
//! ordinals.
//!
//! A raw message body is HTML-escaped and then every emote tag of the form
//! `<:name:id>` (or `<a:name:id>` for an animated emote) — which after
//! escaping reads `&#60;...&#62;` — is replaced by an inline image
//! reference: `.gif` for animated emotes, `.png` otherwise. The emote name
//! is one or more word characters, the identifier one or more decimal
//! digits.

use vstd::prelude::*;
use vstd::string::StrSliceExecFns;
use vstd::string::StringExecFns;

use crate::text::html_escaped;
use crate::text::unicode_alphanumeric;
use crate::MessageContent;

verus! {

/// A character an emote name may contain.
pub open spec fn word_char(c: char) -> bool {
    unicode_alphanumeric(c) || c == '_'
}

/// A decimal digit.
pub open spec fn digit_char(c: char) -> bool {
    ('0' as u32) <= (c as u32) <= ('9' as u32)
}

/// Length of the run of word characters starting at `i`.
pub open spec fn word_run(s: Seq<char>, i: int) -> int
    decreases s.len() - i when 0 <= i <= s.len()
{
    if i < s.len() && word_char(s[i]) {
        1 + word_run(s, i + 1)
    } else {
        0
    }
}

/// Length of the run of decimal digits starting at `i`.
pub open spec fn digit_run(s: Seq<char>, i: int) -> int
    decreases s.len() - i when 0 <= i <= s.len()
{
    if i < s.len() && digit_char(s[i]) {
        1 + digit_run(s, i + 1)
    } else {
        0
    }
}

/// An emote tag found in escaped text: whether it is animated, its name,
/// its identifier, and the position just past its closing delimiter.
#[verifier::ext_equal]
pub struct EmoteV {
    pub animated: bool,
    pub name: Seq<char>,
    pub id: Seq<char>,
    pub end: int,
}

/// The rest of an emote tag once the opening `&#60;`, the optional `a` and
/// the first `:` have been read; `p` is the position after that `:`.
pub open spec fn emote_after_colon(s: Seq<char>, animated: bool, p: int) -> Option<EmoteV> {
    let nl = word_run(s, p);
    if nl >= 1 && p + nl < s.len() && s[p + nl] == ':' {
        let q = p + nl + 1;
        let dl = digit_run(s, q);
        if dl >= 1 && q + dl + 5 <= s.len() && s[q + dl] == '&' && s[q + dl + 1] == '#' && s[q + dl
            + 2] == '6' && s[q + dl + 3] == '2' && s[q + dl + 4] == ';' {
            Some(
                EmoteV {
                    animated,
                    name: s.subrange(p, p + nl),
                    id: s.subrange(q, q + dl),
                    end: q + dl + 5,
                },
            )
        } else {
            None
        }
    } else {
        None
    }
}

/// The emote tag starting exactly at position `i` of escaped text, if any.
pub open spec fn emote_at(s: Seq<char>, i: int) -> Option<EmoteV> {
    if 0 <= i && i + 5 <= s.len() && s[i] == '&' && s[i + 1] == '#' && s[i + 2] == '6' && s[i + 3]
        == '0' && s[i + 4] == ';' {
        if i + 5 < s.len() && s[i + 5] == ':' {
            emote_after_colon(s, false, i + 6)
        } else if i + 6 < s.len() && s[i + 5] == 'a' && s[i + 6] == ':' {
            emote_after_colon(s, true, i + 7)
        } else {
            None
        }
    } else {
        None
    }
}

/// The inline image reference an emote tag is replaced by.
pub open spec fn img_tag(animated: bool, name: Seq<char>, id: Seq<char>) -> Seq<char> {
    "<img class=\"emote\" alt=\""@ + name + "\" src=\"https://cdn.discordapp.com/emojis/"@ + id
        + "."@ + (if animated {
        "gif"@
    } else {
        "png"@
    }) + "\"/>"@
}

/// Escaped text with every emote tag at or after position `i` replaced,
/// scanning left to right over non-overlapping tags.
pub open spec fn subst_from(s: Seq<char>, i: int) -> Seq<char>
    decreases s.len() - i when 0 <= i <= s.len()
{
    if i >= s.len() {
        Seq::empty()
    } else {
        let m = emote_at(s, i);
        if m is Some && i < m->Some_0.end <= s.len() {
            img_tag(m->Some_0.animated, m->Some_0.name, m->Some_0.id) + subst_from(
                s,
                m->Some_0.end,
            )
        } else {
            seq![s[i]] + subst_from(s, i + 1)
        }
    }
}

/// Escaped text with every emote tag replaced.
pub open spec fn substitute_emotes(s: Seq<char>) -> Seq<char> {
    subst_from(s, 0)
}

/// A raw message body as the archive stores it: HTML-escaped, emote tags
/// replaced.
pub open spec fn rendered(raw: Seq<char>) -> Seq<char> {
    substitute_emotes(html_escaped(raw))
}

/// Whether the character of an escaped text at `j` is a word character.
fn is_word_char(c: char) -> (r: bool)
    ensures
        r == word_char(c),
{
    c.is_alphanumeric() || c == '_'
}

/// Whether a character is a decimal digit.
fn is_digit_char(c: char) -> (r: bool)
    ensures
        r == digit_char(c),
{
    let u = c as u32;
    48 <= u && u <= 57
}

/// Length of the run of word characters of `s` starting at `p`.
fn word_run_len(s: &str, p: usize, n: usize) -> (r: usize)
    requires
        n == s@.len(),
        p <= n,
    ensures
        r as int == word_run(s@, p as int),
        p + r <= n,
{
    let mut j = p;
    loop
        invariant
            p <= j <= n,
            n == s@.len(),
            word_run(s@, p as int) == j - p + word_run(s@, j as int),
        ensures
            p <= j <= n,
            word_run(s@, p as int) == j - p,
        decreases n - j,
    {
        if j >= n {
            assert(word_run(s@, j as int) == 0);
            break ;
        }
        let c = s.get_char(j);
        if !is_word_char(c) {
            assert(word_run(s@, j as int) == 0);
            break ;
        }
        assert(word_run(s@, j as int) == 1 + word_run(s@, j + 1));
        j = j + 1;
    }
    j - p
}

/// Length of the run of decimal digits of `s` starting at `p`.
fn digit_run_len(s: &str, p: usize, n: usize) -> (r: usize)
    requires
        n == s@.len(),
        p <= n,
    ensures
        r as int == digit_run(s@, p as int),
        p + r <= n,
{
    let mut j = p;
    loop
        invariant
            p <= j <= n,
            n == s@.len(),
            digit_run(s@, p as int) == j - p + digit_run(s@, j as int),
        ensures
            p <= j <= n,
            digit_run(s@, p as int) == j - p,
        decreases n - j,
    {
        if j >= n {
            assert(digit_run(s@, j as int) == 0);
            break ;
        }
        let c = s.get_char(j);
        if !is_digit_char(c) {
            assert(digit_run(s@, j as int) == 0);
            break ;
        }
        assert(digit_run(s@, j as int) == 1 + digit_run(s@, j + 1));
        j = j + 1;
    }
    j - p
}

/// An emote tag located in executable terms: positions and lengths of the
/// name and identifier inside the text.
struct EmoteParts {
    animated: bool,
    name_start: usize,
    name_len: usize,
    id_start: usize,
    id_len: usize,
    end: usize,
}

/// Locates the emote tag starting exactly at `i`, if any.
fn emote_match_at(s: &str, i: usize, n: usize) -> (r: Option<EmoteParts>)
    requires
        n == s@.len(),
        i < n,
    ensures
        match r {
            Some(p) => {
                &&& p.name_start + p.name_len <= n
                &&& p.id_start + p.id_len <= n
                &&& i < p.end <= n
                &&& emote_at(s@, i as int) == Some(
                    EmoteV {
                        animated: p.animated,
                        name: s@.subrange(p.name_start as int, p.name_start + p.name_len),
                        id: s@.subrange(p.id_start as int, p.id_start + p.id_len),
                        end: p.end as int,
                    },
                )
            },
            None => emote_at(s@, i as int) is None,
        },
{
    if n - i < 6 {
        return None;
    }
    if !(s.get_char(i) == '&' && s.get_char(i + 1) == '#' && s.get_char(i + 2) == '6' && s.get_char(
        i + 3,
    ) == '0' && s.get_char(i + 4) == ';') {
        return None;
    }
    let c5 = s.get_char(i + 5);
    let animated: bool;
    let p: usize;
    if c5 == ':' {
        animated = false;
        p = i + 6;
    } else if c5 == 'a' && i + 6 < n && s.get_char(i + 6) == ':' {
        animated = true;
        p = i + 7;
    } else {
        return None;
    }
    let nl = word_run_len(s, p, n);
    if nl < 1 || p + nl >= n {
        return None;
    }
    if s.get_char(p + nl) != ':' {
        return None;
    }
    let q = p + nl + 1;
    let dl = digit_run_len(s, q, n);
    if dl < 1 || n - (q + dl) < 5 {
        return None;
    }
    if s.get_char(q + dl) == '&' && s.get_char(q + dl + 1) == '#' && s.get_char(q + dl + 2) == '6'
        && s.get_char(q + dl + 3) == '2' && s.get_char(q + dl + 4) == ';' {
        Some(
            EmoteParts {
                animated,
                name_start: p,
                name_len: nl,
                id_start: q,
                id_len: dl,
                end: q + dl + 5,
            },
        )
    } else {
        None
    }
}

impl MessageContent {
    /// Renders a raw message body: HTML-escapes it, then replaces every
    /// emote tag by its inline image reference.
    pub fn from_raw(input: &str) -> (r: MessageContent)
        ensures
            r@ == rendered(input@),
    {
        let escaped = crate::text::escape_html_text(input);
        let s = escaped.as_str();
        let n = s.unicode_len();
        let mut out = String::new();
        let mut i: usize = 0;
        while i < n
            invariant
                n == s@.len(),
                i <= n,
                s@ == html_escaped(input@),
                out@ + subst_from(s@, i as int) == subst_from(s@, 0),
            decreases n - i,
        {
            match emote_match_at(s, i, n) {
                Some(p) => {
                    let ghost prev = out@;
                    let ghost m = emote_at(s@, i as int)->Some_0;
                    out.append("<img class=\"emote\" alt=\"");
                    out.append(s.substring_char(p.name_start, p.name_start + p.name_len));
                    out.append("\" src=\"https://cdn.discordapp.com/emojis/");
                    out.append(s.substring_char(p.id_start, p.id_start + p.id_len));
                    out.append(".");
                    if p.animated {
                        out.append("gif");
                    } else {
                        out.append("png");
                    }
                    out.append("\"/>");
                    proof {
                        assert(out@ =~= prev + img_tag(m.animated, m.name, m.id));
                        assert(subst_from(s@, i as int) == img_tag(m.animated, m.name, m.id)
                            + subst_from(s@, m.end));
                    }
                    i = p.end;
                },
                None => {
                    let ghost prev = out@;
                    out.append(s.substring_char(i, i + 1));
                    proof {
                        assert(s@.subrange(i as int, i + 1) =~= seq![s@[i as int]]);
                        assert(out@ =~= prev + seq![s@[i as int]]);
                        assert(subst_from(s@, i as int) == seq![s@[i as int]] + subst_from(
                            s@,
                            i + 1,
                        ));
                    }
                    i = i + 1;
                },
            }
        }
        proof {
            assert(subst_from(s@, n as int) == Seq::<char>::empty());
            assert(out@ =~= out@ + Seq::<char>::empty());
        }
        MessageContent(out)
    }
}

/// Value of a decimal digit character.
pub open spec fn digit_val(c: char) -> int {
    (c as u32) - 48
}

/// Whether a text is one or more decimal digits.
pub open spec fn is_digit_seq(s: Seq<char>) -> bool {
    s.len() >= 1 && forall|k: int| 0 <= k < s.len() ==> digit_char(#[trigger] s[k])
}

/// The value of a text of decimal digits.
pub open spec fn decimal_value(s: Seq<char>) -> int
    decreases s.len(),
{
    if s.len() == 0 {
        0
    } else {
        decimal_value(s.drop_last()) * 10 + digit_val(s.last())
    }
}

/// Parses a category file ordinal: one or more decimal digits whose value
/// fits the result type. Anything else is rejected.
pub fn parse_ordinal(s: &str) -> (r: Option<u32>)
    ensures
        match r {
            Some(v) => is_digit_seq(s@) && v as int == decimal_value(s@),
            None => !is_digit_seq(s@) || decimal_value(s@) > u32::MAX,
        },
{
    let n = s.unicode_len();
    if n == 0 {
        return None;
    }
    let mut acc: u32 = 0;
    let mut i: usize = 0;
    while i < n
        invariant
            n == s@.len(),
            0 <= i <= n,
            forall|k: int| 0 <= k < i ==> digit_char(#[trigger] s@[k]),
            acc as int == decimal_value(s@.subrange(0, i as int)),
        decreases n - i,
    {
        let c = s.get_char(i);
        if !is_digit_char(c) {
            return None;
        }
        let d = (c as u32) - 48;
        if acc > (u32::MAX - d) / 10 {
            proof {
                lemma_decimal_value_monotonic(s@, i as int);
            }
            return None;
        }
        acc = acc * 10 + d;
        proof {
            assert(s@.subrange(0, i + 1).drop_last() =~= s@.subrange(0, i as int));
            assert(s@.subrange(0, i + 1).last() == s@[i as int]);
        }
        i = i + 1;
    }
    proof {
        assert(s@.subrange(0, n as int) =~= s@);
    }
    Some(acc)
}

/// The decimal text of a number, most significant digit first, without
/// leading zeroes.
pub open spec fn dec_str(n: int) -> Seq<char>
    decreases n when n >= 0
{
    if n < 10 {
        seq![digit_char_of(n)]
    } else {
        dec_str(n / 10) + seq![digit_char_of(n % 10)]
    }
}

/// The character of one decimal digit.
pub open spec fn digit_char_of(d: int) -> char {
    if d == 0 {
        '0'
    } else if d == 1 {
        '1'
    } else if d == 2 {
        '2'
    } else if d == 3 {
        '3'
    } else if d == 4 {
        '4'
    } else if d == 5 {
        '5'
    } else if d == 6 {
        '6'
    } else if d == 7 {
        '7'
    } else if d == 8 {
        '8'
    } else {
        '9'
    }
}

/// Appends the character of one decimal digit.
fn push_digit(out: &mut String, d: u64)
    requires
        d < 10,
    ensures
        final(out)@ == old(out)@ + seq![digit_char_of(d as int)],
{
    let s: &str = if d == 0 {
        "0"
    } else if d == 1 {
        "1"
    } else if d == 2 {
        "2"
    } else if d == 3 {
        "3"
    } else if d == 4 {
        "4"
    } else if d == 5 {
        "5"
    } else if d == 6 {
        "6"
    } else if d == 7 {
        "7"
    } else if d == 8 {
        "8"
    } else {
        "9"
    };
    proof {
        reveal_strlit("0");
        reveal_strlit("1");
        reveal_strlit("2");
        reveal_strlit("3");
        reveal_strlit("4");
        reveal_strlit("5");
        reveal_strlit("6");
        reveal_strlit("7");
        reveal_strlit("8");
        reveal_strlit("9");
        assert(s@ =~= seq![digit_char_of(d as int)]);
    }
    out.append(s);
}

/// Writes a number in decimal onto the end of a text.
fn append_decimal(out: &mut String, v: u64)
    ensures
        final(out)@ == old(out)@ + dec_str(v as int),
    decreases v,
{
    if v < 10 {
        push_digit(out, v);
    } else {
        append_decimal(out, v / 10);
        push_digit(out, v % 10);
        proof {
            assert((old(out)@ + dec_str(v as int / 10)) + seq![digit_char_of(v as int % 10)]
                =~= old(out)@ + (dec_str(v as int / 10) + seq![digit_char_of(v as int % 10)]));
        }
    }
}

/// The decimal text of a number.
pub fn u64_to_string(v: u64) -> (r: String)
    ensures
        r@ == dec_str(v as int),
{
    let mut out = String::new();
    append_decimal(&mut out, v);
    proof {
        assert(Seq::<char>::empty() + dec_str(v as int) =~= dec_str(v as int));
    }
    out
}

/// Ascending ordinal order for loaded category files.
pub open spec fn ord_leq() -> spec_fn((u32, crate::CategoryV), (u32, crate::CategoryV)) -> bool {
    |a: (u32, crate::CategoryV), b: (u32, crate::CategoryV)| a.0 <= b.0
}

/// Inserts one numbered category into an already ordinal-sorted list,
/// before the first entry with a larger ordinal.
fn insert_by_ordinal(r: &mut Vec<(u32, crate::Category)>, x: (u32, crate::Category))
    ensures
        final(r).deep_view() == crate::order::insert_ord(
            x.deep_view(),
            old(r).deep_view(),
            ord_leq(),
        ),
{
    let ghost old_dv = r.deep_view();
    let key = x.0;
    let mut pos: usize = 0;
    while pos < r.len() && r[pos].0 < key
        invariant
            pos <= r@.len(),
            key == x.0,
            r.deep_view() == old_dv,
            forall|k: int| 0 <= k < pos ==> (#[trigger] old_dv[k]).0 < key,
        decreases r@.len() - pos,
    {
        pos = pos + 1;
    }
    r.insert(pos, x);
    proof {
        let leq = ord_leq();
        assert forall|k: int| 0 <= k < pos implies !leq(x.deep_view(), old_dv[k]) by {
            assert(old_dv[k].0 < key);
        }
        if (pos as int) < old_dv.len() {
            assert(leq(x.deep_view(), old_dv[pos as int]));
        }
        crate::order::lemma_insert_ord_split(x.deep_view(), old_dv, leq, pos as int);
        assert(r.deep_view() =~= old_dv.take(pos as int) + seq![x.deep_view()] + old_dv.skip(
            pos as int,
        ));
    }
}

/// Sorts loaded categories by their file ordinal, ascending — the order
/// the server originally listed them in. Entries with equal ordinals keep
/// the order they were given in.
pub fn sort_by_ordinal(v: Vec<(u32, crate::Category)>) -> (r: Vec<(u32, crate::Category)>)
    ensures
        r.deep_view() == crate::order::sort_ord(v.deep_view(), ord_leq()),
{
    let ghost full = v.deep_view();
    let mut v = v;
    let mut r: Vec<(u32, crate::Category)> = Vec::new();
    while v.len() > 0
        invariant
            v@.len() <= full.len(),
            v.deep_view() == full.take(v@.len() as int),
            r.deep_view() == crate::order::sort_ord(full.skip(v@.len() as int), ord_leq()),
        decreases v@.len(),
    {
        let ghost t = v@.len() as int;
        let x = v.pop().unwrap();
        proof {
            assert(x.deep_view() == full.take(t)[t - 1]);
            assert(full.skip(t - 1)[0] == full[t - 1]);
            assert(full.skip(t - 1).drop_first() =~= full.skip(t));
            assert(v.deep_view() =~= full.take(t - 1));
        }
        insert_by_ordinal(&mut r, x);
    }
    proof {
        assert(full.skip(0) =~= full);
    }
    r
}

/// If the first `i + 1` digits already overflow, then either the text is
/// not all digits, or its whole value overflows too: appending digits
/// never shrinks the value.
proof fn lemma_decimal_value_monotonic(s: Seq<char>, i: int)
    requires
        0 <= i < s.len(),
        forall|k: int| 0 <= k <= i ==> digit_char(#[trigger] s[k]),
        decimal_value(s.subrange(0, i)) * 10 + digit_val(s[i]) > u32::MAX,
    ensures
        !is_digit_seq(s) || decimal_value(s) > u32::MAX,
    decreases s.len() - i,
{
    assert(s.subrange(0, i + 1).drop_last() =~= s.subrange(0, i));
    assert(s.subrange(0, i + 1).last() == s[i]);
    if i + 1 == s.len() {
        assert(s.subrange(0, i + 1) =~= s);
    } else if !digit_char(s[i + 1]) {
        assert(!is_digit_seq(s));
    } else {
        assert(decimal_value(s.subrange(0, i + 1)) * 10 + digit_val(s[i + 1]) > u32::MAX) by {
            assert(digit_val(s[i + 1]) >= 0);
            assert(decimal_value(s.subrange(0, i + 1)) > u32::MAX);
        };
        lemma_decimal_value_monotonic(s, i + 1);
    }
}

} // verus!
