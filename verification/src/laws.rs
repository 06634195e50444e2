//! Properties that hold across the library's functions.

use vstd::prelude::*;
use crate::text::{first_match, is_ws, last_match, lemma_first_match, lemma_first_match_is, matches_at};
use crate::attr::attr_position;
use crate::attr::{
    attr_lead, attr_position_from, attr_span, attr_text, blank_start, remove_attr, attr_valid_at, attr_value, attr_value_start,
    insert_position, is_quote, lemma_attr_position_from, lemma_attr_span, lemma_last_match_bound,
    lemma_value_end,
    replace_or_insert_attr, value_end,
};
use crate::text::{lemma_trim_end_len, trim_end};
use crate::store::{
    chunk_range, first_older, insert_by_update, lemma_first_older, lex_less, sorted_by_update,
    CustomTemplateSummary,
};
use crate::fingerprint::distinct_paths;
use crate::workspace::{deletable_project_id, requested_ids};
use crate::text::trim;
use crate::text::{decimal, decimal_i64, digit_char, digits_value, is_digit, parse_u64_spec};
use crate::custom::template_status;
use crate::paths::{
    absolute_resource, forward_slashes, has_prefix, key_char, map_chars, name_char, or_default,
    url_resource,
};
use crate::resource::{joined, resolved_resource, strip_dot_slash, xml_filepath, PathStyle};
use crate::workspace::dir_name;
use crate::subtitle::{with_default, with_subtitle_default_from};
use crate::scan::self_closing;
use crate::area::remove_children;
use crate::props::{
    area_indent, area_piece, opened_tag, with_properties_from, outdent, property_lines_xml, property_number, property_values, property_xml, with_area_property,
    ProjectAssetProperties,
};
use crate::edit::{blank_end, indent_only, line_start, removal_end, removal_start};
use crate::xml::{char_at, close_pat, lemma_next_tag, name_boundary, next_tag, open_pat, tag_candidate};
use crate::template::{
    project_file, render_project, template_clips, template_media, template_tag, ClipsV,
    MediaV,
};
use crate::edit::{area_name, asset_id_name, attr_or_empty, id_name};
use crate::speed::{
    adapt_areas_from, adapted_area, auto_attr, original_attr, pad3, required_ms, speed_text, speed_thousandths,
    transform_indent,
};
use crate::scan::{first_range_from, lemma_first_range_from};
use crate::reply::{inbox_after, remembered, PR_BRIDGE_INBOX_LIMIT, PR_BRIDGE_REMEMBERED_EVENTS};
use crate::xml::{
    ent_amp, ent_apos, ent_gt, ent_lt, ent_quot, escape_attr, escape_attr_char, escape_text,
    escape_text_char, lemma_ws_end, starts_with, unescape, ws_end,
};

verus! {

// ---------------------------------------------------------------------------
// Escaping
// ---------------------------------------------------------------------------

proof fn lemma_unescape_plain(c: char, rest: Seq<char>)
    requires
        c != '&',
    ensures
        unescape(seq![c] + rest) == seq![c] + unescape(rest),
{
    let s = seq![c] + rest;
    assert(s[0] == c);
    assert(!starts_with(s, ent_quot())) by {
        assert(ent_quot()[0] == '&');
        if starts_with(s, ent_quot()) {
            assert(s.take(6)[0] == s[0]);
        }
    }
    assert(!starts_with(s, ent_apos())) by {
        if starts_with(s, ent_apos()) {
            assert(s.take(6)[0] == s[0]);
        }
    }
    assert(!starts_with(s, ent_lt())) by {
        if starts_with(s, ent_lt()) {
            assert(s.take(4)[0] == s[0]);
        }
    }
    assert(!starts_with(s, ent_gt())) by {
        if starts_with(s, ent_gt()) {
            assert(s.take(4)[0] == s[0]);
        }
    }
    assert(!starts_with(s, ent_amp())) by {
        if starts_with(s, ent_amp()) {
            assert(s.take(5)[0] == s[0]);
        }
    }
    assert(s.drop_first() =~= rest);
}

proof fn lemma_unescape_entity(e: Seq<char>, c: char, rest: Seq<char>)
    requires
        (e == ent_amp() && c == '&') || (e == ent_quot() && c == '"') || (e == ent_lt() && c
            == '<') || (e == ent_gt() && c == '>'),
    ensures
        unescape(e + rest) == seq![c] + unescape(rest),
{
    let s = e + rest;
    assert(s.take(e.len() as int) =~= e);
    assert(s.skip(e.len() as int) =~= rest);
    if e == ent_amp() {
        assert(!starts_with(s, ent_quot())) by {
            if starts_with(s, ent_quot()) {
                assert(s.take(6)[1] == s[1]);
            }
        }
        assert(!starts_with(s, ent_apos())) by {
            if starts_with(s, ent_apos()) {
                assert(s.take(6)[2] == s[2]);
            }
        }
        assert(!starts_with(s, ent_lt())) by {
            if starts_with(s, ent_lt()) {
                assert(s.take(4)[1] == s[1]);
            }
        }
        assert(!starts_with(s, ent_gt())) by {
            if starts_with(s, ent_gt()) {
                assert(s.take(4)[1] == s[1]);
            }
        }
    } else if e == ent_lt() {
        assert(!starts_with(s, ent_quot())) by {
            if starts_with(s, ent_quot()) {
                assert(s.take(6)[1] == s[1]);
            }
        }
        assert(!starts_with(s, ent_apos())) by {
            if starts_with(s, ent_apos()) {
                assert(s.take(6)[1] == s[1]);
            }
        }
    } else if e == ent_gt() {
        assert(!starts_with(s, ent_quot())) by {
            if starts_with(s, ent_quot()) {
                assert(s.take(6)[1] == s[1]);
            }
        }
        assert(!starts_with(s, ent_apos())) by {
            if starts_with(s, ent_apos()) {
                assert(s.take(6)[1] == s[1]);
            }
        }
        assert(!starts_with(s, ent_lt())) by {
            if starts_with(s, ent_lt()) {
                assert(s.take(4)[1] == s[1]);
            }
        }
    }
}

/// Decoding a value escaped for an attribute gives the value back.
pub proof fn law_unescape_escape_attr(v: Seq<char>)
    ensures
        unescape(escape_attr(v)) == v,
    decreases v.len(),
{
    if v.len() > 0 {
        law_unescape_escape_attr(v.drop_first());
        let c = v[0];
        let rest = escape_attr(v.drop_first());
        if c == '&' {
            lemma_unescape_entity(ent_amp(), c, rest);
        } else if c == '"' {
            lemma_unescape_entity(ent_quot(), c, rest);
        } else if c == '<' {
            lemma_unescape_entity(ent_lt(), c, rest);
        } else if c == '>' {
            lemma_unescape_entity(ent_gt(), c, rest);
        } else {
            lemma_unescape_plain(c, rest);
        }
        assert(seq![c] + v.drop_first() =~= v);
    } else {
        assert(escape_attr(v) =~= v);
    }
}

/// Decoding a value escaped as element text gives the value back.
pub proof fn law_unescape_escape_text(v: Seq<char>)
    ensures
        unescape(escape_text(v)) == v,
    decreases v.len(),
{
    if v.len() > 0 {
        law_unescape_escape_text(v.drop_first());
        let c = v[0];
        let rest = escape_text(v.drop_first());
        if c == '&' {
            lemma_unescape_entity(ent_amp(), c, rest);
        } else if c == '<' {
            lemma_unescape_entity(ent_lt(), c, rest);
        } else if c == '>' {
            lemma_unescape_entity(ent_gt(), c, rest);
        } else {
            lemma_unescape_plain(c, rest);
        }
        assert(seq![c] + v.drop_first() =~= v);
    } else {
        assert(escape_text(v) =~= v);
    }
}

/// A value escaped for an attribute holds no `"`, `<` or `>`.
pub proof fn law_escape_attr_clean(v: Seq<char>)
    ensures
        forall|i: int|
            0 <= i < escape_attr(v).len() ==> #[trigger] escape_attr(v)[i] != '"' && escape_attr(
                v,
            )[i] != '<' && escape_attr(v)[i] != '>',
    decreases v.len(),
{
    if v.len() > 0 {
        law_escape_attr_clean(v.drop_first());
        let e = escape_attr_char(v[0]);
        let r = escape_attr(v.drop_first());
        assert forall|i: int| 0 <= i < (e + r).len() implies #[trigger] (e + r)[i] != '"' && (e
            + r)[i] != '<' && (e + r)[i] != '>' by {
            if i < e.len() {
                assert((e + r)[i] == e[i]);
            } else {
                assert((e + r)[i] == r[i - e.len()]);
            }
        }
    }
}

/// A value escaped as element text holds no `<` or `>`.
pub proof fn law_escape_text_clean(v: Seq<char>)
    ensures
        forall|i: int|
            0 <= i < escape_text(v).len() ==> #[trigger] escape_text(v)[i] != '<' && escape_text(
                v,
            )[i] != '>',
    decreases v.len(),
{
    if v.len() > 0 {
        law_escape_text_clean(v.drop_first());
        let e = escape_text_char(v[0]);
        let r = escape_text(v.drop_first());
        assert forall|i: int| 0 <= i < (e + r).len() implies #[trigger] (e + r)[i] != '<' && (e
            + r)[i] != '>' by {
            if i < e.len() {
                assert((e + r)[i] == e[i]);
            } else {
                assert((e + r)[i] == r[i - e.len()]);
            }
        }
    }
}


// ---------------------------------------------------------------------------
// Reading an attribute back
// ---------------------------------------------------------------------------

/// `s1` and `s2` have the same first `n` characters.
pub open spec fn agree(s1: Seq<char>, s2: Seq<char>, n: int) -> bool {
    &&& 0 <= n <= s1.len()
    &&& n <= s2.len()
    &&& forall|k: int| 0 <= k < n ==> #[trigger] s1[k] == s2[k]
}

proof fn lemma_matches_agree(s1: Seq<char>, s2: Seq<char>, a: Seq<char>, n: int, j: int)
    requires
        agree(s1, s2, n),
        0 <= j,
        j + a.len() <= n,
    ensures
        matches_at(s1, a, j) == matches_at(s2, a, j),
{
    if matches_at(s1, a, j) {
        assert(s2.subrange(j, j + a.len()) =~= s1.subrange(j, j + a.len()));
    }
    if matches_at(s2, a, j) {
        assert(s2.subrange(j, j + a.len()) =~= s1.subrange(j, j + a.len()));
    }
}

/// The search for the attribute `a` runs alike in two texts that agree up to the
/// end of the name where it ends in the first, when the name is valid there in
/// the second too.
proof fn lemma_attr_position_agree(
    s1: Seq<char>,
    s2: Seq<char>,
    a: Seq<char>,
    from: int,
    p: int,
)
    requires
        a.len() > 0,
        0 <= from <= p,
        attr_position_from(s1, a, from) == Some(p),
        agree(s1, s2, p + a.len()),
        attr_valid_at(s2, a, p),
    ensures
        attr_position_from(s2, a, from) == Some(p),
    decreases p - from,
{
    lemma_first_match(s1, a, from);
    let i = first_match(s1, a, from)->0;
    assert(matches_at(s1, a, i));
    if i > p {
        lemma_attr_position_from(s1, a, i + a.len());
        assert(false);
    }
    lemma_matches_agree(s1, s2, a, p + a.len(), i);
    assert forall|j: int| from <= j < i implies !matches_at(s2, a, j) by {
        lemma_matches_agree(s1, s2, a, p + a.len(), j);
    }
    lemma_first_match_is(s2, a, from, i);
    if i == p {
    } else {
        assert(!attr_valid_at(s1, a, i)) by {
            if attr_valid_at(s1, a, i) {
                assert(attr_position_from(s1, a, from) == Some(i));
            }
        }
        assert(i + a.len() < p + a.len());
        if i > 0 {
            assert(s1[i - 1] == s2[i - 1]);
        }
        assert(s1[i + a.len()] == s2[i + a.len()]);
        assert(!attr_valid_at(s2, a, i));
        lemma_attr_position_from(s1, a, i + a.len());
        lemma_attr_position_agree(s1, s2, a, i + a.len(), p);
    }
}

/// Writing an attribute that the tag already has with a complete value, then
/// reading it, gives the written value.
pub proof fn law_attr_read_after_replace(s: Seq<char>, a: Seq<char>, val: Seq<char>)
    requires
        a.len() > 0,
        attr_span(s, a) is Some,
    ensures
        attr_value(replace_or_insert_attr(s, a, val), a) == Some(val),
{
    lemma_attr_span(s, a);
    let (p, e) = attr_span(s, a)->0;
    let esc = escape_attr(val);
    let t = s.take(p) + attr_text(a, val) + s.skip(e);
    assert(replace_or_insert_attr(s, a, val) == t);
    let n = p + a.len();
    assert(t.len() == p + a.len() + 3 + esc.len() + (s.len() - e));
    assert forall|k: int| 0 <= k < n implies #[trigger] s[k] == t[k] by {
        if k < p {
        } else {
            assert(s.subrange(p, p + a.len())[k - p] == s[k]);
        }
    }
    assert(agree(s, t, n));
    assert(t[n] == '=');
    assert(t[n + 1] == '"');
    assert(t.subrange(p, p + a.len()) =~= a);
    assert(attr_valid_at(t, a, p)) by {
        if p > 0 {
            assert(t[p - 1] == s[p - 1]);
        }
    }
    lemma_attr_position_agree(s, t, a, 0, p);
    assert(ws_end(t, n) == n);
    assert(ws_end(t, n + 1) == n + 1);
    assert(attr_value_start(t, a) == Some(n + 1));
    law_escape_attr_clean(val);
    let v = n + 1;
    let q = v + 1 + esc.len();
    assert(t[q] == '"');
    assert(t.subrange(q, q + 1) =~= seq![t[v]]);
    assert forall|j: int| v + 1 <= j < q implies !matches_at(t, seq![t[v]], j) by {
        assert(t[j] == esc[j - v - 1]);
        if matches_at(t, seq![t[v]], j) {
            assert(t.subrange(j, j + 1)[0] == t[j]);
        }
    }
    lemma_first_match_is(t, seq![t[v]], v + 1, q);
    assert(value_end(t, v) == Some(q + 1));
    assert(t.subrange(v + 1, q) =~= esc);
    law_unescape_escape_attr(val);
}


/// Where an inserted attribute's text begins: past the tag's text before its
/// end, with the whitespace there trimmed.
pub open spec fn insert_text_start(s: Seq<char>) -> int {
    trim_end(s.take(insert_position(s))).len() as int
}

/// `a` stands as a whole name right before where an attribute would be
/// inserted, as the tag's own name does in `<a>` or `<a/>`.
pub open spec fn name_before_insert(s: Seq<char>, a: Seq<char>) -> bool {
    let j = insert_text_start(s) - a.len();
    matches_at(s, a, j) && (j == 0 || attr_lead(s[j - 1]))
}

/// What an inserting write needs of the tag and the name: the name has no
/// whitespace, the tag has no attribute of that name, and the name does not
/// stand right before the insertion point.
pub open spec fn insertable(s: Seq<char>, a: Seq<char>) -> bool {
    &&& a.len() > 0
    &&& forall|k: int| 0 <= k < a.len() ==> !is_ws(#[trigger] a[k])
    &&& attr_position(s, a) is None
    &&& !name_before_insert(s, a)
}

proof fn lemma_scan_to_inserted(s: Seq<char>, t: Seq<char>, a: Seq<char>, f: int, te: int)
    requires
        a.len() > 0,
        forall|k: int| 0 <= k < a.len() ==> !is_ws(#[trigger] a[k]),
        0 <= f <= te <= s.len(),
        agree(s, t, te),
        te + 1 + a.len() < t.len(),
        t[te] == ' ',
        attr_valid_at(t, a, te + 1),
        attr_position_from(s, a, f) is None,
        !(matches_at(s, a, te - a.len()) && (te - a.len() == 0 || attr_lead(s[te - a.len() - 1]))),
    ensures
        attr_position_from(t, a, f) == Some(te + 1),
    decreases te - f,
{
    lemma_first_match(s, a, f);
    let m = te + 1;
    match first_match(s, a, f) {
        Some(i) => {
            if i + a.len() <= te {
                lemma_matches_agree(s, t, a, te, i);
                assert forall|j: int| f <= j < i implies !matches_at(t, a, j) by {
                    lemma_matches_agree(s, t, a, te, j);
                }
                lemma_first_match_is(t, a, f, i);
                assert(!attr_valid_at(s, a, i));
                if i > 0 {
                    assert(t[i - 1] == s[i - 1]);
                }
                if i + a.len() < te {
                    assert(t[i + a.len()] == s[i + a.len()]);
                }
                assert(!attr_valid_at(t, a, i));
                lemma_scan_to_inserted(s, t, a, i + a.len(), te);
            } else {
                assert forall|j: int| f <= j < m implies !matches_at(t, a, j) by {
                    if j + a.len() <= te {
                        lemma_matches_agree(s, t, a, te, j);
                    } else if matches_at(t, a, j) {
                        assert(t.subrange(j, j + a.len())[te - j] == t[te]);
                        assert(is_ws(a[te - j]));
                    }
                }
                lemma_first_match_is(t, a, f, m);
            }
        },
        None => {
            assert forall|j: int| f <= j < m implies !matches_at(t, a, j) by {
                if j + a.len() <= te {
                    lemma_matches_agree(s, t, a, te, j);
                } else if matches_at(t, a, j) {
                    assert(t.subrange(j, j + a.len())[te - j] == t[te]);
                    assert(is_ws(a[te - j]));
                }
            }
            lemma_first_match_is(t, a, f, m);
        },
    }
}

/// An inserting write puts `a="…"` right after a space at `insert_text_start`,
/// and reading `a` back finds it there, with the written value.
proof fn lemma_inserted_attr(s: Seq<char>, a: Seq<char>, val: Seq<char>)
    requires
        insertable(s, a),
    ensures
        ({
            let m = insert_text_start(s) + 1;
            let q = m + a.len() + 2 + escape_attr(val).len();
            let t = replace_or_insert_attr(s, a, val);
            &&& attr_span(s, a) is None
            &&& t == s.take(insert_text_start(s)) + seq![' '] + attr_text(a, val) + s.skip(
                insert_position(s),
            )
            &&& attr_span(t, a) == Some((m, q + 1))
            &&& attr_value(t, a) == Some(val)
        }),
{
    assert(attr_span(s, a) is None);
    let ip = insert_position(s);
    assert(0 <= ip <= s.len()) by {
        lemma_last_match_bound(s, seq!['/', '>'], s.len() as int);
        lemma_last_match_bound(s, seq!['>'], s.len() as int);
    }
    let pre = trim_end(s.take(ip));
    lemma_trim_end_len(s.take(ip));
    let te = pre.len() as int;
    assert(pre == s.take(te));
    let esc = escape_attr(val);
    let t = pre + seq![' '] + attr_text(a, val) + s.skip(ip);
    assert(replace_or_insert_attr(s, a, val) == t);
    let m: int = te + 1;
    let n: int = m + a.len();
    assert(t.len() == m + a.len() + 3 + esc.len() + (s.len() - ip));
    assert(t[te] == ' ');
    assert(t.subrange(m, n) =~= a);
    assert(t[n] == '=');
    assert(t[n + 1] == '"');
    assert(attr_valid_at(t, a, m));
    assert forall|k: int| 0 <= k < te implies #[trigger] s[k] == t[k] by {
        assert(pre[k] == s.take(ip)[k]);
    }
    assert(agree(s, t, te));
    lemma_scan_to_inserted(s, t, a, 0, te);
    assert(attr_position_from(t, a, 0) == Some(m));
    assert(ws_end(t, n) == n);
    assert(ws_end(t, n + 1) == n + 1);
    assert(attr_value_start(t, a) == Some(n + 1));
    law_escape_attr_clean(val);
    let v = n + 1;
    let q = v + 1 + esc.len();
    assert(t[q] == '"');
    assert(t.subrange(q, q + 1) =~= seq![t[v]]);
    assert forall|j: int| v + 1 <= j < q implies !matches_at(t, seq![t[v]], j) by {
        assert(t[j] == esc[j - v - 1]);
        if matches_at(t, seq![t[v]], j) {
            assert(t.subrange(j, j + 1)[0] == t[j]);
        }
    }
    lemma_first_match_is(t, seq![t[v]], v + 1, q);
    assert(value_end(t, v) == Some(q + 1));
    assert(attr_span(t, a) == Some((m, q + 1)));
    assert(t.subrange(v + 1, q) =~= esc);
    law_unescape_escape_attr(val);
}

/// Writing an attribute the tag does not have, then reading it, gives the
/// written value.  The name has no whitespace and does not stand as a whole
/// name right before the tag's end (as the tag's own name does in `<a>`,
/// where the read finds the tag's name instead).
pub proof fn law_attr_read_after_insert(s: Seq<char>, a: Seq<char>, val: Seq<char>)
    requires
        insertable(s, a),
    ensures
        attr_value(replace_or_insert_attr(s, a, val), a) == Some(val),
{
    lemma_inserted_attr(s, a, val);
}

proof fn lemma_ws_end_agree(s: Seq<char>, t: Seq<char>, i: int, n: int)
    requires
        0 <= i <= s.len(),
        agree(s, t, n),
        ws_end(s, i) < n,
    ensures
        ws_end(t, i) == ws_end(s, i),
    decreases s.len() - i,
{
    lemma_ws_end(s, i);
    if i < s.len() && is_ws(s[i]) {
        assert(t[i] == s[i]);
        lemma_ws_end_agree(s, t, i + 1, n);
    } else {
        assert(t[i] == s[i]);
    }
}

/// A quoted attribute whose value ends within the first `n` characters reads
/// alike in two texts that agree on those characters.
proof fn lemma_quoted_attr_agree(s: Seq<char>, t: Seq<char>, b: Seq<char>, n: int)
    requires
        b.len() > 0,
        agree(s, t, n),
        n < t.len(),
        attr_span(s, b) matches Some((pb, eb)) && eb <= n,
        attr_value_start(s, b) matches Some(v) && is_quote(s[v]),
    ensures
        attr_value(t, b) == attr_value(s, b),
        attr_span(t, b) == attr_span(s, b),
{
    lemma_attr_span(s, b);
    let (pb, eb) = attr_span(s, b)->0;
    let v = attr_value_start(s, b)->0;
    lemma_value_end(s, v);
    lemma_attr_position_from(s, b, 0);
    lemma_matches_agree(s, t, b, n, pb);
    assert(attr_valid_at(t, b, pb)) by {
        if pb > 0 {
            assert(t[pb - 1] == s[pb - 1]);
        }
        assert(t[pb + b.len()] == s[pb + b.len()]);
    }
    lemma_attr_position_agree(s, t, b, 0, pb);
    let k = ws_end(s, pb + b.len());
    lemma_ws_end(s, pb + b.len());
    assert(k < v);
    lemma_ws_end_agree(s, t, pb + b.len(), n);
    assert(t[k] == s[k]);
    lemma_ws_end(s, k + 1);
    lemma_ws_end_agree(s, t, k + 1, n);
    assert(attr_value_start(t, b) == Some(v));
    let qc = s[v];
    assert(t[v] == qc);
    lemma_first_match(s, seq![qc], v + 1);
    let q = eb - 1;
    assert(first_match(s, seq![qc], v + 1) == Some(q));
    lemma_matches_agree(s, t, seq![qc], n, q);
    assert forall|j: int| v + 1 <= j < q implies !matches_at(t, seq![qc], j) by {
        lemma_matches_agree(s, t, seq![qc], n, j);
    }
    lemma_first_match_is(t, seq![qc], v + 1, q);
    assert(value_end(t, v) == Some(eb));
    assert(t.subrange(v + 1, eb - 1) =~= s.subrange(v + 1, eb - 1));
}

/// Where writing the attribute `a` into the tag `s` starts changing it: at the
/// attribute when the tag has it with a complete value, else where the
/// whitespace before the tag's end begins.
pub open spec fn written_from(s: Seq<char>, a: Seq<char>) -> int {
    match attr_span(s, a) {
        Some((p, _)) => p,
        None => trim_end(s.take(insert_position(s))).len() as int,
    }
}

/// Writing the attribute `a` leaves every other attribute that has a quoted
/// value and comes before the written one reading as before, in the same place.
/// When `a` is inserted, that is every quoted attribute of the tag.
pub proof fn law_attr_others_unchanged(s: Seq<char>, a: Seq<char>, val: Seq<char>, b: Seq<char>)
    requires
        a.len() > 0,
        b.len() > 0,
        attr_span(s, b) matches Some((pb, eb)) && eb <= written_from(s, a),
        attr_value_start(s, b) matches Some(v) && is_quote(s[v]),
    ensures
        attr_value(replace_or_insert_attr(s, a, val), b) == attr_value(s, b),
        attr_span(replace_or_insert_attr(s, a, val), b) == attr_span(s, b),
{
    let t = replace_or_insert_attr(s, a, val);
    lemma_attr_span(s, a);
    match attr_span(s, a) {
        Some((p, e)) => {
            assert(t == s.take(p) + attr_text(a, val) + s.skip(e));
            assert forall|k: int| 0 <= k < p implies #[trigger] s[k] == t[k] by {}
            assert(agree(s, t, p));
            assert(t.len() > p);
            lemma_quoted_attr_agree(s, t, b, p);
        },
        None => {
            let ip = insert_position(s);
            assert(0 <= ip <= s.len()) by {
                lemma_last_match_bound(s, seq!['/', '>'], s.len() as int);
                lemma_last_match_bound(s, seq!['>'], s.len() as int);
            }
            let pre = trim_end(s.take(ip));
            lemma_trim_end_len(s.take(ip));
            assert(t == pre + seq![' '] + attr_text(a, val) + s.skip(ip));
            let te = pre.len() as int;
            assert forall|k: int| 0 <= k < te implies #[trigger] s[k] == t[k] by {
                assert(pre[k] == s.take(ip)[k]);
            }
            assert(agree(s, t, te));
            lemma_quoted_attr_agree(s, t, b, te);
        },
    }
}

/// `t` is `s` with everything from `e` on moved by `d`.
pub open spec fn moved_tail(s: Seq<char>, t: Seq<char>, e: int, d: int) -> bool {
    &&& 0 <= e <= s.len()
    &&& 0 <= e + d
    &&& t.len() == s.len() + d
    &&& forall|k: int| e <= k < s.len() ==> #[trigger] t[k + d] == s[k]
}

proof fn lemma_matches_moved(s: Seq<char>, t: Seq<char>, b: Seq<char>, e: int, d: int, j: int)
    requires
        moved_tail(s, t, e, d),
        e <= j,
    ensures
        matches_at(t, b, j + d) == matches_at(s, b, j),
{
    if matches_at(s, b, j) {
        assert forall|k: int| 0 <= k < b.len() implies #[trigger] t.subrange(j + d, j + d + b.len())[k]
            == s.subrange(j, j + b.len())[k] by {
            assert(t[j + k + d] == s[j + k]);
        }
        assert(t.subrange(j + d, j + d + b.len()) =~= s.subrange(j, j + b.len()));
    }
    if matches_at(t, b, j + d) {
        assert forall|k: int| 0 <= k < b.len() implies #[trigger] t.subrange(j + d, j + d + b.len())[k]
            == s.subrange(j, j + b.len())[k] by {
            assert(t[j + k + d] == s[j + k]);
        }
        assert(t.subrange(j + d, j + d + b.len()) =~= s.subrange(j, j + b.len()));
    }
}

proof fn lemma_valid_moved(s: Seq<char>, t: Seq<char>, b: Seq<char>, e: int, d: int, j: int)
    requires
        moved_tail(s, t, e, d),
        e < j,
    ensures
        attr_valid_at(t, b, j + d) == attr_valid_at(s, b, j),
{
    lemma_matches_moved(s, t, b, e, d, j);
    if matches_at(s, b, j) {
        assert(t[j - 1 + d] == s[j - 1]);
        if j + b.len() < s.len() {
            assert(t[j + b.len() + d] == s[j + b.len()]);
        }
    }
}

proof fn lemma_first_match_moved(s: Seq<char>, t: Seq<char>, b: Seq<char>, e: int, d: int, f: int)
    requires
        moved_tail(s, t, e, d),
        e <= f,
    ensures
        first_match(t, b, f + d) == match first_match(s, b, f) {
            Some(i) => Some(i + d),
            None => None,
        },
{
    lemma_first_match(s, b, f);
    lemma_first_match(t, b, f + d);
    match first_match(s, b, f) {
        Some(i) => {
            lemma_matches_moved(s, t, b, e, d, i);
            assert forall|j: int| f + d <= j < i + d implies !matches_at(t, b, j) by {
                lemma_matches_moved(s, t, b, e, d, j - d);
            }
            lemma_first_match_is(t, b, f + d, i + d);
        },
        None => {
            if let Some(i) = first_match(t, b, f + d) {
                lemma_matches_moved(s, t, b, e, d, i - d);
            }
        },
    }
}

proof fn lemma_scan_moved(s: Seq<char>, t: Seq<char>, b: Seq<char>, e: int, d: int, f: int)
    requires
        b.len() > 0,
        moved_tail(s, t, e, d),
        e < f,
    ensures
        attr_position_from(t, b, f + d) == match attr_position_from(s, b, f) {
            Some(x) => Some(x + d),
            None => None,
        },
    decreases s.len() - f,
{
    lemma_first_match_moved(s, t, b, e, d, f);
    lemma_first_match(s, b, f);
    if let Some(i) = first_match(s, b, f) {
        lemma_valid_moved(s, t, b, e, d, i);
        if !attr_valid_at(s, b, i) {
            lemma_scan_moved(s, t, b, e, d, i + b.len());
            assert(i + b.len() + d == (i + d) + b.len());
        }
    }
}

proof fn lemma_ws_end_moved(s: Seq<char>, t: Seq<char>, e: int, d: int, i: int)
    requires
        moved_tail(s, t, e, d),
        e <= i <= s.len(),
    ensures
        ws_end(t, i + d) == ws_end(s, i) + d,
    decreases s.len() - i,
{
    if i < s.len() {
        assert(t[i + d] == s[i]);
        if is_ws(s[i]) {
            lemma_ws_end_moved(s, t, e, d, i + 1);
        }
    }
}

/// The scan for the attribute `b` over a tag whose text from `p` to `e` was
/// replaced (and the rest moved by `d`), where `b` starts nowhere in the
/// replaced stretch of either text, finds the same attribute, moved.
proof fn lemma_scan_spliced(
    s: Seq<char>,
    t: Seq<char>,
    b: Seq<char>,
    p: int,
    e: int,
    d: int,
    from: int,
)
    requires
        b.len() > 0,
        0 <= from <= p < e,
        agree(s, t, p),
        forall|i: int| i + b.len() == p ==> attr_valid_at(s, b, i) == attr_valid_at(t, b, i),
        moved_tail(s, t, e, d),
        p < e + d,
        forall|j: int| p - b.len() < j <= e ==> !matches_at(s, b, j),
        forall|j: int| p - b.len() < j <= e + d ==> !matches_at(t, b, j),
    ensures
        attr_position_from(t, b, from) == match attr_position_from(s, b, from) {
            Some(x) => Some(if x < p { x } else { x + d }),
            None => None,
        },
    decreases p - from,
{
    lemma_first_match(s, b, from);
    lemma_first_match(t, b, from);
    match first_match(s, b, from) {
        Some(i) => {
            if i <= p - b.len() {
                lemma_matches_agree(s, t, b, p, i);
                assert forall|j: int| from <= j < i implies !matches_at(t, b, j) by {
                    lemma_matches_agree(s, t, b, p, j);
                }
                lemma_first_match_is(t, b, from, i);
                if i > 0 {
                    assert(t[i - 1] == s[i - 1]);
                }
                if i + b.len() < p {
                    assert(t[i + b.len()] == s[i + b.len()]);
                }
                assert(attr_valid_at(t, b, i) == attr_valid_at(s, b, i));
                if !attr_valid_at(s, b, i) {
                    lemma_scan_spliced(s, t, b, p, e, d, i + b.len());
                }
            } else {
                assert(i > e);
                lemma_matches_moved(s, t, b, e, d, i);
                assert forall|j: int| from <= j < i + d implies !matches_at(t, b, j) by {
                    if j <= p - b.len() {
                        lemma_matches_agree(s, t, b, p, j);
                    } else if j > e + d {
                        lemma_matches_moved(s, t, b, e, d, j - d);
                    }
                }
                lemma_first_match_is(t, b, from, i + d);
                lemma_valid_moved(s, t, b, e, d, i);
                if !attr_valid_at(s, b, i) {
                    lemma_scan_moved(s, t, b, e, d, i + b.len());
                    assert(i + b.len() + d == (i + d) + b.len());
                    lemma_attr_position_from(s, b, i + b.len());
                }
            }
        },
        None => {
            if let Some(k) = first_match(t, b, from) {
                if k <= p - b.len() {
                    lemma_matches_agree(s, t, b, p, k);
                } else if k > e + d {
                    lemma_matches_moved(s, t, b, e, d, k - d);
                }
            }
        },
    }
}

/// `b` holds none of the characters that may surround an attribute name.
pub open spec fn plain_name(b: Seq<char>) -> bool {
    forall|k: int| 0 <= k < b.len() ==> !attr_lead(#[trigger] b[k]) && b[k] != '=' && b[k] != '"'
}

/// Rewriting the attribute `a` in place leaves every attribute `b` after it
/// that has a quoted value reading as before.  The names hold no whitespace,
/// `<`, `/`, `=` or `"`; `b` occurs neither in the escaped new value (where it
/// could read as an attribute of its own) nor in the old text of `a` after its
/// name.
pub proof fn law_attr_later_unchanged(s: Seq<char>, a: Seq<char>, val: Seq<char>, b: Seq<char>)
    requires
        a.len() > 0,
        b.len() > 0,
        plain_name(a),
        plain_name(b),
        first_match(escape_attr(val), b, 0) is None,
        ({
            &&& attr_span(s, a) matches Some((p, e))
            &&& forall|j: int| p + a.len() <= j <= e ==> !matches_at(s, b, j)
            &&& attr_span(s, b) matches Some((pb, eb))
            &&& pb >= e
        }),
        attr_value_start(s, b) matches Some(v) && is_quote(s[v]),
    ensures
        attr_value(replace_or_insert_attr(s, a, val), b) == attr_value(s, b),
{
    lemma_attr_span(s, a);
    lemma_attr_span(s, b);
    let (p, e) = attr_span(s, a)->0;
    let (pb, eb) = attr_span(s, b)->0;
    let x = attr_text(a, val);
    let esc = escape_attr(val);
    let t = s.take(p) + x + s.skip(e);
    assert(replace_or_insert_attr(s, a, val) == t);
    let d = x.len() - (e - p);
    let pp = p + a.len();
    assert(x.len() == a.len() + 3 + esc.len());
    assert forall|k: int| 0 <= k < pp implies #[trigger] s[k] == t[k] by {
        if k >= p {
            assert(s.subrange(p, p + a.len())[k - p] == s[k]);
        }
    }
    assert(agree(s, t, pp));
    assert forall|k: int| e <= k < s.len() implies #[trigger] t[k + d] == s[k] by {}
    assert(moved_tail(s, t, e, d));
    // Names ending where `a` ends are not valid in either text.
    assert forall|i: int| i + b.len() == pp implies attr_valid_at(s, b, i) == attr_valid_at(t, b, i) by {
        if i >= 0 {
            lemma_matches_agree(s, t, b, pp, i);
        }
        if matches_at(s, b, i) {
            if b.len() < a.len() {
                assert(s[i - 1] == a[i - 1 - p]);
                assert(s.subrange(p, p + a.len())[i - 1 - p] == s[i - 1]);
                assert(t[i - 1] == s[i - 1]);
            } else if b.len() == a.len() {
                assert(b =~= a) by {
                    assert(s.subrange(i, i + b.len()) == b);
                    assert(s.subrange(p, p + a.len()) == a);
                }
            } else {
                assert(p > 0);
                assert(attr_lead(s[p - 1]));
                assert(s.subrange(i, i + b.len())[p - 1 - i] == s[p - 1]);
            }
        }
    }
    // `b` starts nowhere in the rest of the old attribute text of `a`.
    assert forall|j: int| pp - b.len() < j <= e implies !matches_at(s, b, j) by {
        if j < pp && matches_at(s, b, j) {
            assert(s.subrange(j, j + b.len())[pp - j] == s[pp]);
        }
    }
    // `b` starts nowhere in the new attribute text.
    lemma_first_match(esc, b, 0);
    assert forall|j: int| pp - b.len() < j <= e + d implies !matches_at(t, b, j) by {
        if matches_at(t, b, j) {
            let q = p + x.len();
            if j <= pp {
                assert(t.subrange(j, j + b.len())[pp - j] == t[pp]);
                assert(t[pp] == '=');
            } else if j == q {
                lemma_matches_moved(s, t, b, e, d, e);
            } else if j == pp + 1 {
                assert(t.subrange(j, j + b.len())[0] == t[j]);
                assert(t[j] == '"');
            } else if j + b.len() <= q - 1 {
                let o = p + a.len() + 2;
                assert(t.subrange(j, j + b.len()) =~= esc.subrange(j - o, j - o + b.len()));
                assert(matches_at(esc, b, j - o));
            } else {
                assert(t.subrange(j, j + b.len())[q - 1 - j] == t[q - 1]);
                assert(t[q - 1] == '"');
            }
        }
    }
    lemma_attr_position_from(s, b, 0);
    assert(pb > e);
    lemma_scan_spliced(s, t, b, pp, e, d, 0);
    assert(attr_position_from(t, b, 0) == Some(pb + d));
    // The value is read from the moved tail.
    let k = ws_end(s, pb + b.len());
    lemma_ws_end(s, pb + b.len());
    lemma_ws_end_moved(s, t, e, d, pb + b.len());
    assert(t[k + d] == s[k]);
    lemma_ws_end(s, k + 1);
    lemma_ws_end_moved(s, t, e, d, k + 1);
    let v = attr_value_start(s, b)->0;
    assert(attr_value_start(t, b) == Some(v + d));
    lemma_value_end(s, v);
    assert(t[v + d] == s[v]);
    lemma_first_match_moved(s, t, seq![s[v]], e, d, v + 1);
    assert(value_end(t, v + d) == Some(eb + d));
    assert forall|k2: int| 0 <= k2 < eb - 1 - (v + 1) implies #[trigger] t.subrange(v + d + 1, eb + d - 1)[k2]
        == s.subrange(v + 1, eb - 1)[k2] by {
        assert(t[v + 1 + k2 + d] == s[v + 1 + k2]);
    }
    assert(t.subrange(v + d + 1, eb + d - 1) =~= s.subrange(v + 1, eb - 1));
}

/// Removing an attribute that was just inserted gives the tag back, and
/// removing an attribute the tag does not have changes nothing.  The tag ends
/// in `>` with no whitespace before it and holds no `/>`; the name is one an
/// inserting write accepts (see `insertable`: not the tag's own name in
/// `<speed>`, but `x` inside `data-x` is fine).
pub proof fn law_attr_remove_after_insert(s: Seq<char>, a: Seq<char>, val: Seq<char>)
    requires
        insertable(s, a),
        s.len() >= 2,
        s.last() == '>',
        !is_ws(s[s.len() - 2]),
        last_match(s, seq!['/', '>'], s.len() as int) is None,
    ensures
        remove_attr(replace_or_insert_attr(s, a, val), a) == s,
        remove_attr(s, a) == s,
{
    lemma_inserted_attr(s, a, val);
    let ip = s.len() - 1;
    assert(s.subrange(ip, ip + 1) =~= seq!['>']);
    assert(last_match(s, seq!['>'], s.len() as int) == Some(ip));
    assert(insert_position(s) == ip);
    let pre = s.take(ip);
    assert(pre.last() == s[s.len() - 2]);
    assert(trim_end(pre) == pre);
    assert(insert_text_start(s) == ip);
    let t = replace_or_insert_attr(s, a, val);
    let esc = escape_attr(val);
    let m = ip + 1;
    let q = m + a.len() + 2 + esc.len();
    assert(t == pre + seq![' '] + attr_text(a, val) + s.skip(ip));
    assert(t[ip] == ' ');
    assert(t[ip - 1] == s[ip - 1]);
    assert(blank_start(t, ip) == ip);
    assert(blank_start(t, m) == ip);
    assert(t.len() == q + 2);
    assert(t.take(ip) + t.skip(q + 1) =~= s);
}

// ---------------------------------------------------------------------------
// The template bridge
// ---------------------------------------------------------------------------

/// An export id that was just remembered is answered as a duplicate when it
/// comes again.
pub proof fn law_remembered_export_is_duplicate(ids: Seq<Seq<char>>, id: Seq<char>)
    ensures
        remembered(remembered(ids, id).1, id).0,
{
    if !ids.contains(id) {
        if ids.len() >= PR_BRIDGE_REMEMBERED_EVENTS {
            assert(seq![id][0] == id);
        } else {
            assert(ids.push(id)[ids.len() as int] == id);
        }
    }
}

/// The remembered export ids stay distinct and at most 256.
pub proof fn law_remembered_bounded(ids: Seq<Seq<char>>, id: Seq<char>)
    requires
        ids.no_duplicates(),
        ids.len() <= PR_BRIDGE_REMEMBERED_EVENTS,
    ensures
        remembered(ids, id).1.no_duplicates(),
        remembered(ids, id).1.len() <= PR_BRIDGE_REMEMBERED_EVENTS,
{
    if !ids.contains(id) && ids.len() < PR_BRIDGE_REMEMBERED_EVENTS {
        let r = ids.push(id);
        assert forall|i: int, j: int| 0 <= i < r.len() && 0 <= j < r.len() && i != j implies r[i]
            != r[j] by {
            if i < ids.len() && j < ids.len() {
                assert(r[i] == ids[i] && r[j] == ids[j]);
            } else if i == ids.len() {
                assert(r[j] == ids[j]);
            } else {
                assert(r[i] == ids[i]);
            }
        }
    }
}

/// The inbox never holds more than 16 pending exports, and the export that
/// just arrived is the newest one in it.
pub proof fn law_inbox_bounded<T>(inbox: Seq<T>, event: T)
    requires
        inbox.len() <= PR_BRIDGE_INBOX_LIMIT,
    ensures
        inbox_after(inbox, event).len() <= PR_BRIDGE_INBOX_LIMIT,
        inbox_after(inbox, event).last() == event,
{
}

/// An export that arrives while the inbox has room leaves every pending export
/// in place, in order.
pub proof fn law_inbox_keeps_pending<T>(inbox: Seq<T>, event: T)
    requires
        inbox.len() < PR_BRIDGE_INBOX_LIMIT,
    ensures
        inbox_after(inbox, event).take(inbox.len() as int) == inbox,
{
    assert(inbox.push(event).take(inbox.len() as int) =~= inbox);
}

// ---------------------------------------------------------------------------
// The order of the editor's own templates
// ---------------------------------------------------------------------------

proof fn lemma_lex_irreflexive(a: Seq<char>)
    ensures
        !lex_less(a, a),
    decreases a.len(),
{
    if a.len() > 0 {
        lemma_lex_irreflexive(a.drop_first());
    }
}

proof fn lemma_lex_asymmetric(a: Seq<char>, b: Seq<char>)
    requires
        lex_less(a, b),
    ensures
        !lex_less(b, a),
    decreases a.len(),
{
    if a.len() > 0 && b.len() > 0 && a[0] == b[0] {
        lemma_lex_asymmetric(a.drop_first(), b.drop_first());
    }
}

proof fn lemma_lex_transitive(a: Seq<char>, b: Seq<char>, c: Seq<char>)
    requires
        lex_less(a, b),
        lex_less(b, c),
    ensures
        lex_less(a, c),
    decreases a.len(),
{
    if a.len() > 0 && a[0] == b[0] && b[0] == c[0] {
        lemma_lex_transitive(a.drop_first(), b.drop_first(), c.drop_first());
    }
}

proof fn lemma_lex_total(a: Seq<char>, b: Seq<char>)
    requires
        a != b,
    ensures
        lex_less(a, b) || lex_less(b, a),
    decreases a.len(),
{
    if a.len() > 0 && b.len() > 0 {
        if a[0] == b[0] {
            if a.drop_first() == b.drop_first() {
                assert(a =~= seq![a[0]] + a.drop_first());
                assert(b =~= seq![b[0]] + b.drop_first());
            }
            lemma_lex_total(a.drop_first(), b.drop_first());
        }
    } else if a.len() == 0 && b.len() == 0 {
        assert(a =~= b);
    }
}

/// Newest first: no template is listed before one updated later.
pub open spec fn newest_first(s: Seq<CustomTemplateSummary>) -> bool {
    forall|i: int, j: int|
        0 <= i < j < s.len() ==> !lex_less(#[trigger] s[i].updated_at@, #[trigger] s[j].updated_at@)
}

proof fn lemma_insert_by_update(s: Seq<CustomTemplateSummary>, t: CustomTemplateSummary)
    requires
        newest_first(s),
    ensures
        newest_first(insert_by_update(s, t)),
        insert_by_update(s, t).to_multiset() == s.to_multiset().insert(t),
{
    let key = t.updated_at@;
    let p = first_older(s, key, 0);
    lemma_first_older(s, key, 0);
    let r = s.insert(p, t);
    assert forall|i: int, j: int| 0 <= i < j < r.len() implies !lex_less(
        #[trigger] r[i].updated_at@,
        #[trigger] r[j].updated_at@,
    ) by {
        if j < p {
            assert(r[i] == s[i] && r[j] == s[j]);
        } else if j == p {
            assert(r[i] == s[i] && r[j] == t);
        } else if i < p {
            assert(r[i] == s[i] && r[j] == s[j - 1]);
        } else if i == p {
            assert(r[i] == t && r[j] == s[j - 1]);
            let kp = s[p].updated_at@;
            let kj = s[j - 1].updated_at@;
            assert(lex_less(kp, key));
            if j - 1 > p {
                assert(!lex_less(kp, kj));
                if kj != kp {
                    lemma_lex_total(kj, kp);
                    lemma_lex_transitive(kj, kp, key);
                }
            }
            assert(lex_less(kj, key));
            lemma_lex_asymmetric(kj, key);
        } else {
            assert(r[i] == s[i - 1] && r[j] == s[j - 1]);
        }
    }
    broadcast use vstd::seq_lib::group_to_multiset_ensures;

    assert(r.remove(p) =~= s);
    assert(r[p] == t);
    assert(r.to_multiset().count(t) > 0);
    assert(r.to_multiset() =~= s.to_multiset().insert(t));
}

/// The list of the editor's own templates is ordered newest first, and it
/// holds exactly the templates it was given.
pub proof fn law_templates_listed_newest_first(s: Seq<CustomTemplateSummary>)
    ensures
        newest_first(sorted_by_update(s)),
        sorted_by_update(s).to_multiset() == s.to_multiset(),
    decreases s.len(),
{
    if s.len() > 0 {
        law_templates_listed_newest_first(s.drop_last());
        lemma_insert_by_update(sorted_by_update(s.drop_last()), s.last());
        broadcast use vstd::seq_lib::group_to_multiset_ensures;

        assert(s =~= s.drop_last().push(s.last()));
    } else {
        assert(newest_first(s));
    }
}

// ---------------------------------------------------------------------------
// Upload chunks
// ---------------------------------------------------------------------------

/// A chunk handed out lies inside the file, is not empty and is no longer than
/// the chunk size; it starts where the chunks before it, all full, end.
pub proof fn law_upload_chunk_inside_file(chunk_index: u64, chunk_size: u64, file_size: u64)
    requires
        chunk_size > 0,
    ensures
        chunk_range(chunk_index, chunk_size, file_size) matches Ok((start, length)) ==> {
            &&& start == chunk_index * chunk_size
            &&& 0 < length <= chunk_size
            &&& start + length <= file_size
        },
{
}

// ---------------------------------------------------------------------------
// Asset fingerprints
// ---------------------------------------------------------------------------

/// Each file is hashed once: the distinct paths hold no path twice, and every
/// asset whose file exists finds its path among them.
pub proof fn law_each_file_hashed_once(paths: Seq<Option<Seq<char>>>)
    ensures
        distinct_paths(paths).no_duplicates(),
        forall|i: int|
            0 <= i < paths.len() ==> (#[trigger] paths[i] matches Some(p) ==> distinct_paths(
                paths,
            ).contains(p)),
    decreases paths.len(),
{
    if paths.len() > 0 {
        let prefix = paths.drop_last();
        law_each_file_hashed_once(prefix);
        let d = distinct_paths(prefix);
        assert forall|i: int| 0 <= i < paths.len() implies (#[trigger] paths[i] matches Some(p)
            ==> distinct_paths(paths).contains(p)) by {
            if i < paths.len() - 1 {
                assert(prefix[i] == paths[i]);
                if let Some(p) = paths[i] {
                    let k = choose|k: int| 0 <= k < d.len() && d[k] == p;
                    if let Some(q) = paths.last() {
                        if !d.contains(q) {
                            assert(d.push(q)[k] == p);
                        }
                    }
                }
            } else {
                if let Some(p) = paths[i] {
                    if !d.contains(p) {
                        assert(d.push(p)[d.len() as int] == p);
                    }
                }
            }
        }
        if let Some(q) = paths.last() {
            if !d.contains(q) {
                let e = d.push(q);
                assert forall|a: int, b: int| 0 <= a < e.len() && 0 <= b < e.len() && a != b implies e[a]
                    != e[b] by {
                    if a < d.len() && b < d.len() {
                    } else if a == d.len() {
                        assert(e[b] == d[b]);
                    } else {
                        assert(e[a] == d[a]);
                    }
                }
            }
        }
    }
}

// ---------------------------------------------------------------------------
// Deleting workspaces
// ---------------------------------------------------------------------------

/// A deletion names each project at most once, and only by an id made of
/// digits.
pub proof fn law_deleted_ids_distinct_digits(ids: Seq<Seq<char>>)
    ensures
        requested_ids(ids).no_duplicates(),
        forall|i: int|
            0 <= i < requested_ids(ids).len() ==> deletable_project_id(#[trigger] requested_ids(ids)[i]),
    decreases ids.len(),
{
    if ids.len() > 0 {
        law_deleted_ids_distinct_digits(ids.drop_last());
        let r = requested_ids(ids.drop_last());
        let t = trim(ids.last());
        if deletable_project_id(t) && !r.contains(t) {
            let e = r.push(t);
            assert forall|a: int, b: int| 0 <= a < e.len() && 0 <= b < e.len() && a != b implies e[a]
                != e[b] by {
                if a < r.len() && b < r.len() {
                } else if a == r.len() {
                    assert(e[b] == r[b]);
                } else {
                    assert(e[a] == r[a]);
                }
            }
            assert forall|i: int| 0 <= i < e.len() implies deletable_project_id(#[trigger] e[i]) by {
                if i < r.len() {
                    assert(e[i] == r[i]);
                }
            }
        }
    }
}

// ---------------------------------------------------------------------------
// Names and numbers
// ---------------------------------------------------------------------------

/// The status shown for a custom template is always 0, 1 or 2, and a status
/// the editor saved in that range is kept.
pub proof fn law_template_status_in_range(editor_status: Option<u8>, upload_finalized: bool)
    ensures
        template_status(editor_status, upload_finalized) <= 2,
        (editor_status matches Some(s) && s <= 2) ==> template_status(
            editor_status,
            upload_finalized,
        ) == editor_status->0,
{
}

/// A directory name made from an id is its own directory name: naming twice
/// changes nothing.
pub proof fn law_dir_name_idempotent(v: Seq<char>)
    ensures
        dir_name(dir_name(v)) == dir_name(v),
{
    let m = map_chars(v, |c: char| name_char(c));
    if m.len() == 0 {
        let t = "template"@;
        assert(t =~= seq!['t', 'e', 'm', 'p', 'l', 'a', 't', 'e']) by {
            reveal_strlit("template");
        }
        assert(map_chars(t, |c: char| name_char(c)) =~= t);
    } else {
        assert(map_chars(m, |c: char| name_char(c)) =~= m);
    }
}

/// A template key made from a non-empty id is its own key: sanitising a key
/// again changes nothing.
pub proof fn law_template_key_idempotent(v: Seq<char>)
    requires
        v.len() > 0,
    ensures
        or_default(
            map_chars(or_default(map_chars(v, |c: char| key_char(c)), "template"@), |c: char| key_char(c)),
            "template"@,
        ) == or_default(map_chars(v, |c: char| key_char(c)), "template"@),
{
    let m = map_chars(v, |c: char| key_char(c));
    assert(m.len() > 0);
    assert(map_chars(m, |c: char| key_char(c)) =~= m);
}

proof fn lemma_digit_char(d: nat)
    requires
        d < 10,
    ensures
        is_digit(digit_char(d)),
        digit_char(d) as int - '0' as int == d,
{
}

proof fn lemma_decimal_digits(n: nat)
    ensures
        decimal(n).len() > 0,
        forall|i: int| 0 <= i < decimal(n).len() ==> is_digit(#[trigger] decimal(n)[i]),
        digits_value(decimal(n)) == n,
    decreases n,
{
    if n >= 10 {
        lemma_decimal_digits(n / 10);
        let d = decimal(n / 10);
        let c = digit_char(n % 10);
        assert(decimal(n) == d.push(c));
        assert(d.push(c).drop_last() =~= d);
        lemma_digit_char(n % 10);
        assert(n == (n / 10) * 10 + n % 10) by (nonlinear_arith);
        assert(d.push(c).last() == c);
        assert(digits_value(d.push(c)) == digits_value(d) * 10 + ((c as int - '0' as int) as nat));
        assert(forall|i: int| 0 <= i < d.push(c).len() ==> is_digit(#[trigger] d.push(c)[i])) by {
            assert forall|i: int| 0 <= i < d.push(c).len() implies is_digit(#[trigger] d.push(c)[i]) by {
                if i < d.len() {
                    assert(d.push(c)[i] == d[i]);
                }
            }
        }
    } else {
        lemma_digit_char(n);
        assert(decimal(n) =~= seq![digit_char(n)]);
        assert(seq![digit_char(n)].drop_last() =~= Seq::<char>::empty());
        assert(digits_value(Seq::<char>::empty()) == 0);
        assert(digits_value(seq![digit_char(n)]) == n);
    }
}

/// A number written in decimal parses back to itself.
pub proof fn law_decimal_parses_back(n: u64)
    ensures
        parse_u64_spec(decimal(n as nat)) == Some(n),
{
    lemma_decimal_digits(n as nat);
    assert(is_digit(decimal(n as nat)[0]));
}

// ---------------------------------------------------------------------------
// Speeds
// ---------------------------------------------------------------------------

/// A replacement video shorter than its area slows the area down: the speed
/// written is below normal speed, `0.ttt` with at least one thousandth.
pub proof fn law_slowdown_below_normal_speed(video: u64, required: u64)
    requires
        0 < video < required,
    ensures
        1 <= speed_thousandths(video, required) < 1000,
        speed_text(video, required) == seq!['0', '.'] + pad3(speed_thousandths(video, required)),
{
    let t = (video * 1000) / (required as int);
    assert(t < 1000) by (nonlinear_arith)
        requires
            0 < video < required,
            t == (video * 1000) / (required as int),
    {
        assert(video * 1000 < required * 1000);
    }
    assert(0 <= t) by (nonlinear_arith)
        requires
            0 < video < required,
            t == (video * 1000) / (required as int),
    ;
    let n = speed_thousandths(video, required);
    assert(n / 1000 == 0);
    assert(n % 1000 == n);
    assert(decimal(0) =~= seq!['0']);
}

/// An area is left slowed down exactly when its replacement video, of known
/// length, is shorter than the area needs; an area whose length or video length
/// is unknown is left as it is.
pub proof fn law_slowed_exactly_when_video_short(s: Seq<char>, video: u64)
    ensures
        adapted_area(s, video).1 <==> (0 < video < required_ms(s)),
        (required_ms(s) == 0 || video == 0) ==> adapted_area(s, video) == (s, false),
{
    reveal(adapted_area);
}

// ---------------------------------------------------------------------------
// An area's property element
// ---------------------------------------------------------------------------

/// `s` holds only spaces and tabs.
pub open spec fn blanks(s: Seq<char>) -> bool {
    forall|k: int| 0 <= k < s.len() ==> #[trigger] s[k] == ' ' || s[k] == '\t'
}

proof fn lemma_trim_end_last(s: Seq<char>)
    ensures
        trim_end(s).len() > 0 ==> !is_ws(trim_end(s).last()),
        trim_end(trim_end(s)) == trim_end(s),
    decreases s.len(),
{
    if s.len() > 0 && is_ws(s.last()) {
        lemma_trim_end_last(s.drop_last());
    }
}

proof fn lemma_trim_end_ws_tail(x: Seq<char>, y: Seq<char>)
    requires
        forall|k: int| 0 <= k < y.len() ==> is_ws(#[trigger] y[k]),
    ensures
        trim_end(x + y) == trim_end(x),
    decreases y.len(),
{
    if y.len() > 0 {
        assert((x + y).last() == y.last());
        assert((x + y).drop_last() =~= x + y.drop_last());
        lemma_trim_end_ws_tail(x, y.drop_last());
    } else {
        assert(x + y =~= x);
    }
}

proof fn lemma_last_newline(s: Seq<char>, lo: int, hi: int)
    requires
        0 <= lo < hi <= s.len(),
        s[lo] == '\n',
        forall|k: int| lo < k < hi ==> s[k] != '\n',
    ensures
        last_match(s, seq!['\n'], hi) == Some(lo),
    decreases hi - lo,
{
    if hi - 1 == lo {
        assert(s.subrange(lo, lo + 1) =~= seq!['\n']);
    } else {
        assert(!matches_at(s, seq!['\n'], hi - 1)) by {
            if matches_at(s, seq!['\n'], hi - 1) {
                assert(s.subrange(hi - 1, hi)[0] == s[hi - 1]);
            }
        }
        lemma_last_newline(s, lo, hi - 1);
    }
}

/// No occurrence of `pat`, whose characters are not whitespace, starts in
/// `[lo, hi)` of `s` when `s` has none of it within `[0, w)` and holds only
/// whitespace in `[w, hi + pat.len() - 1)`... stated for the cases used below.
proof fn lemma_no_match_ws(s: Seq<char>, pat: Seq<char>, j: int, q: int)
    requires
        0 <= j <= q < j + pat.len(),
        q < s.len(),
        is_ws(s[q]),
        forall|k: int| 0 <= k < pat.len() ==> !is_ws(#[trigger] pat[k]),
    ensures
        !matches_at(s, pat, j),
{
    if matches_at(s, pat, j) {
        assert(s.subrange(j, j + pat.len())[q - j] == s[q]);
    }
}

pub open spec fn prop_open() -> Seq<char> {
    open_pat("property"@)
}

pub open spec fn prop_close() -> Seq<char> {
    close_pat("property"@)
}

/// What the stored property element needs of itself.
pub open spec fn property_element_ok(px: Seq<char>) -> bool {
    &&& px.len() >= 21
    &&& px.take(10) == "<property>"@
    &&& first_match(px, prop_close(), 0) == Some(px.len() - 11)
    &&& first_match(px, prop_open(), 1) is None
}

proof fn lemma_prop_pats()
    ensures
        prop_open() =~= seq!['<', 'p', 'r', 'o', 'p', 'e', 'r', 't', 'y'],
        prop_close() =~= seq!['<', '/', 'p', 'r', 'o', 'p', 'e', 'r', 't', 'y', '>'],
        "<property>"@ =~= seq!['<', 'p', 'r', 'o', 'p', 'e', 'r', 't', 'y', '>'],
        "\n"@ =~= seq!['\n'],
        "    "@ =~= seq![' ', ' ', ' ', ' '],
        forall|k: int| 0 <= k < prop_open().len() ==> !is_ws(#[trigger] prop_open()[k]),
{
    reveal_strlit("property");
    reveal_strlit("<property>");
    reveal_strlit("\n");
    reveal_strlit("    ");
}

/// The area text after storing: its other content `tu` (no `<property` in it),
/// a line break, the indentation, the element, a line break and `o`.
pub open spec fn stored_text(tu: Seq<char>, ind: Seq<char>, px: Seq<char>, o: Seq<char>) -> Seq<char> {
    tu.push('\n') + ind + px + "\n"@ + o
}

proof fn lemma_stored_first(tu: Seq<char>, ind: Seq<char>, px: Seq<char>, o: Seq<char>)
    requires
        forall|j: int| !matches_at(tu, prop_open(), j),
        blanks(ind),
        blanks(o),
        property_element_ok(px),
    ensures
        first_match(stored_text(tu, ind, px, o), prop_open(), 0) == Some((tu.len() + 1 + ind.len()) as int),
        first_match(stored_text(tu, ind, px, o), prop_open(), (tu.len() + 2 + ind.len()) as int) is None,
{
    lemma_prop_pats();
    let open = prop_open();
    let w = stored_text(tu, ind, px, o);
    let k0: int = (tu.len() + 1 + ind.len()) as int;
    let ee: int = k0 + px.len();
    assert(w.len() == ee + 1 + o.len());
    assert forall|k: int| tu.len() <= k < k0 implies is_ws(#[trigger] w[k]) by {
        if k > tu.len() {
            assert(w[k] == ind[k - tu.len() - 1]);
        }
    }
    assert forall|j: int| 0 <= j < k0 implies !matches_at(w, open, j) by {
        if j + open.len() <= tu.len() {
            if matches_at(w, open, j) {
                assert(w.subrange(j, j + open.len()) =~= tu.subrange(j, j + open.len()));
                assert(matches_at(tu, open, j));
            }
        } else {
            let q = if j >= tu.len() { j } else { tu.len() as int };
            assert(is_ws(w[q]));
            lemma_no_match_ws(w, open, j, q);
        }
    }
    assert(w.subrange(k0, k0 + 9) =~= open) by {
        assert forall|k: int| 0 <= k < 9 implies w.subrange(k0, k0 + 9)[k] == open[k] by {
            assert(px.take(10)[k] == px[k]);
            assert(w[k0 + k] == px[k]);
        }
    }
    lemma_first_match_is(w, open, 0, k0);
    lemma_first_match(px, open, 1);
    assert forall|j: int| k0 + 1 <= j implies !matches_at(w, open, j) by {
        if j + open.len() <= ee {
            if matches_at(w, open, j) {
                assert(w.subrange(j, j + open.len()) =~= px.subrange(j - k0, j - k0 + open.len()));
                assert(matches_at(px, open, j - k0));
            }
        } else if j + open.len() <= w.len() {
            let q = if j >= ee { j } else { ee };
            if q > ee {
                assert(w[q] == o[q - ee - 1]);
            }
            lemma_no_match_ws(w, open, j, q);
        }
    }
    lemma_first_match(w, open, k0 + 1);
}

proof fn lemma_stored_element(tu: Seq<char>, ind: Seq<char>, px: Seq<char>, o: Seq<char>)
    requires
        blanks(ind),
        property_element_ok(px),
    ensures
        ({
            let w = stored_text(tu, ind, px, o);
            let k0: int = (tu.len() + 1 + ind.len()) as int;
            &&& name_boundary(char_at(w, k0 + prop_open().len()))
            &&& first_match(w, seq!['>'], k0) == Some(k0 + 9)
            &&& first_match(w, prop_close(), k0 + 10) == Some(k0 + px.len() - 11)
            &&& removal_start(w, k0) == tu.len() + 1
            &&& removal_end(w, k0 + px.len()) == k0 + px.len() + 1
            &&& w.take((tu.len() + 1) as int) + w.skip(k0 + px.len() + 1) =~= tu.push('\n') + o
        }),
{
    lemma_prop_pats();
    let close = prop_close();
    let w = stored_text(tu, ind, px, o);
    let k0: int = (tu.len() + 1 + ind.len()) as int;
    let ee: int = k0 + px.len();
    assert(w.len() == ee + 1 + o.len());
    assert forall|k: int| 0 <= k < px.len() implies #[trigger] w[k0 + k] == px[k] by {}
    assert(w[ee] == '\n');
    assert(w[k0 + 9] == '>') by {
        assert(px.take(10)[9] == px[9]);
    }
    assert(char_at(w, k0 + 9) == Some('>'));
    assert forall|j: int| k0 <= j < k0 + 9 implies !matches_at(w, seq!['>'], j) by {
        assert(px.take(10)[j - k0] == px[j - k0]);
        if matches_at(w, seq!['>'], j) {
            assert(w.subrange(j, j + 1)[0] == w[j]);
        }
    }
    assert(w.subrange(k0 + 9, k0 + 10) =~= seq!['>']);
    lemma_first_match_is(w, seq!['>'], k0, k0 + 9);
    lemma_first_match(px, close, 0);
    let c: int = k0 + px.len() - 11;
    assert(w.subrange(c, c + 11) =~= px.subrange(px.len() - 11, px.len() as int));
    assert forall|j: int| k0 + 10 <= j < c implies !matches_at(w, close, j) by {
        if matches_at(w, close, j) {
            assert(w.subrange(j, j + 11) =~= px.subrange(j - k0, j - k0 + 11));
            assert(matches_at(px, close, j - k0));
        }
    }
    lemma_first_match_is(w, close, k0 + 10, c);
    assert forall|k: int| tu.len() < k < k0 implies w[k] != '\n' by {
        assert(w[k] == ind[k - tu.len() - 1]);
    }
    assert(w[tu.len() as int] == '\n');
    lemma_last_newline(w, tu.len() as int, k0);
    assert(line_start(w, k0) == tu.len() + 1);
    assert(w.subrange((tu.len() + 1) as int, k0) =~= ind);
    assert(removal_start(w, k0) == tu.len() + 1);
    assert(blank_end(w, ee) == ee);
    assert(removal_end(w, ee) == ee + 1);
}

proof fn lemma_stored_removed(tu: Seq<char>, ind: Seq<char>, px: Seq<char>, o: Seq<char>)
    requires
        forall|j: int| !matches_at(tu, prop_open(), j),
        blanks(ind),
        blanks(o),
        property_element_ok(px),
    ensures
        remove_children(stored_text(tu, ind, px, o), "property"@) == tu.push('\n') + o,
{
    reveal(remove_children);
    lemma_prop_pats();
    lemma_stored_first(tu, ind, px, o);
    lemma_stored_element(tu, ind, px, o);
    let open = prop_open();
    let z = tu.push('\n') + o;
    assert forall|j: int| 0 <= j implies !matches_at(z, open, j) by {
        if j + open.len() <= tu.len() {
            if matches_at(z, open, j) {
                assert(z.subrange(j, j + open.len()) =~= tu.subrange(j, j + open.len()));
                assert(matches_at(tu, open, j));
            }
        } else if j + open.len() <= z.len() {
            let q = if j >= tu.len() { j } else { tu.len() as int };
            if q > tu.len() {
                assert(z[q] == o[q - tu.len() - 1]);
            } else {
                assert(z[q] == '\n');
            }
            assert(is_ws(z[q]));
            lemma_no_match_ws(z, open, j, q);
        }
    }
    assert(first_match(z, open, 0) is None) by {
        lemma_first_match(z, open, 0);
    }
    assert(remove_children(z, "property"@) == z);
}

/// Storing a property element in an area twice gives what storing it once
/// gives, and the area then holds that one property element, on a line of its
/// own after the area's other content and before its closing indentation.  The
/// element starts with `<property>`, ends with its only `</property>` and holds
/// no other `<property`; the indentation is spaces and tabs; removing the
/// area's property elements leaves no `<property` behind.
pub proof fn law_area_property_stored_once(x: Seq<char>, px: Seq<char>, ind: Seq<char>)
    requires
        property_element_ok(px),
        blanks(ind),
        first_match(remove_children(x, "property"@), prop_open(), 0) is None,
    ensures
        ({
            let w = with_area_property(x, px, ind);
            let tu = trim_end(remove_children(x, "property"@));
            let k0: int = (tu.len() + 1 + ind.len()) as int;
            &&& w == tu.push('\n') + ind + px + "\n"@ + outdent(ind)
            &&& first_match(w, prop_open(), 0) == Some(k0)
            &&& first_match(w, prop_open(), k0 + 1) is None
            &&& with_area_property(w, px, ind) == w
        }),
{
    reveal(with_area_property);
    lemma_prop_pats();
    let u = remove_children(x, "property"@);
    let tu = trim_end(u);
    lemma_trim_end_len(u);
    lemma_trim_end_last(u);
    lemma_first_match(u, prop_open(), 0);
    assert forall|j: int| !matches_at(tu, prop_open(), j) by {
        if matches_at(tu, prop_open(), j) {
            assert(tu.subrange(j, j + prop_open().len()) =~= u.subrange(j, j + prop_open().len()));
            assert(matches_at(u, prop_open(), j));
        }
    }
    let o = outdent(ind);
    assert(blanks(o)) by {
        if ind.len() >= 4 && ind.skip(ind.len() - 4) == "    "@ {
            assert forall|k: int| 0 <= k < o.len() implies #[trigger] o[k] == ' ' || o[k] == '\t' by {
                assert(o[k] == ind[k]);
            }
        }
    }
    let w = stored_text(tu, ind, px, o);
    assert(with_area_property(x, px, ind) == w);
    lemma_stored_first(tu, ind, px, o);
    assert(first_match(w, prop_open(), (tu.len() + 1 + ind.len() + 1) as int) is None);
    lemma_stored_removed(tu, ind, px, o);
    let tail = seq!['\n'] + o;
    assert forall|k: int| 0 <= k < tail.len() implies is_ws(#[trigger] tail[k]) by {
        if k > 0 {
            assert(tail[k] == o[k - 1]);
        }
    }
    assert(tu.push('\n') + o =~= tu + tail);
    lemma_trim_end_ws_tail(tu, tail);
    assert(trim_end(remove_children(w, "property"@)) == tu);
}

// ---------------------------------------------------------------------------
// Resource paths of a template
// ---------------------------------------------------------------------------

/// A resource path that is resolved against a directory: not blank, not a URL
/// and not absolute.
pub open spec fn relative_resource(filepath: Seq<char>) -> bool {
    let t = trim(filepath);
    t.len() > 0 && !url_resource(t) && !absolute_resource(t)
}

/// The relative resource path as the resolution reads it: forward slashes,
/// leading `./` dropped.
pub open spec fn resource_rel(filepath: Seq<char>) -> Seq<char> {
    strip_dot_slash(forward_slashes(trim(filepath)))
}

/// A relative path under `template/` (but not `template/assets/`) points into
/// the template directory: where the assets directory is plays no part, and it
/// is the template directory joined with the rest of the path.  Every other
/// relative path points into the assets directory: where the template
/// directory is plays no part.  Blank, URL and absolute paths depend on
/// neither.
pub proof fn law_resource_directories(
    td: Seq<char>,
    td2: Seq<char>,
    ad: Seq<char>,
    ad2: Seq<char>,
    filepath: Seq<char>,
    style: PathStyle,
)
    ensures
        ({
            let n = resource_rel(filepath);
            if !relative_resource(filepath) {
                &&& resolved_resource(td, ad, filepath, style) == trim(filepath)
                &&& resolved_resource(td2, ad2, filepath, style) == trim(filepath)
            } else if has_prefix(n, "template/"@) && !has_prefix(n, "template/assets/"@) {
                &&& resolved_resource(td, ad, filepath, style) == resolved_resource(td, ad2, filepath, style)
                &&& resolved_resource(td, ad, filepath, style) == xml_filepath(
                    joined(td, n.skip(9), style),
                    style,
                )
            } else {
                resolved_resource(td, ad, filepath, style) == resolved_resource(td2, ad, filepath, style)
            }
        }),
{
    let n = resource_rel(filepath);
    let t = trim(filepath);
    assert(strip_dot_slash(forward_slashes(t)) == n);
    if relative_resource(filepath) {
        if has_prefix(n, "template/"@) && !has_prefix(n, "template/assets/"@) {
            assert(!has_prefix(n, "assets/"@)) by {
                reveal_strlit("template/");
                reveal_strlit("assets/");
                if has_prefix(n, "assets/"@) {
                    assert(n.subrange(0, 7) == "assets/"@);
                    assert(n.subrange(0, 7)[0] == n[0]);
                    assert(n.subrange(0, 9) == "template/"@);
                    assert(n.subrange(0, 9)[0] == n[0]);
                    assert(false);
                }
            }
        }
    }
}

// ---------------------------------------------------------------------------
// A subtitle's default text
// ---------------------------------------------------------------------------

proof fn lemma_default_pats()
    ensures
        "<default>"@ =~= seq!['<', 'd', 'e', 'f', 'a', 'u', 'l', 't', '>'],
        "</default>"@ =~= seq!['<', '/', 'd', 'e', 'f', 'a', 'u', 'l', 't', '>'],
{
    reveal_strlit("<default>");
    reveal_strlit("</default>");
}

/// No pattern starting with `<` starts in `[lo, hi)` of `s` when that stretch
/// holds no `<`.
proof fn lemma_no_lt_match(s: Seq<char>, pat: Seq<char>, lo: int, hi: int, j: int)
    requires
        pat.len() > 0,
        pat[0] == '<',
        lo <= j < hi,
        forall|k: int| lo <= k < hi ==> s[k] != '<',
    ensures
        !matches_at(s, pat, j),
{
    if matches_at(s, pat, j) {
        assert(s.subrange(j, j + pat.len())[0] == s[j]);
    }
}

#[verifier::spinoff_prover]
proof fn lemma_default_replaced(inner: Seq<char>, text: Seq<char>, d: int, de: int)
    requires
        first_match(inner, "<default>"@, 0) == Some(d),
        first_match(inner, "</default>"@, d + 9) == Some(de),
    ensures
        ({
            let r = with_default(inner, text);
            let e = escape_text(text);
            &&& first_match(r, "<default>"@, 0) == Some(d)
            &&& first_match(r, "</default>"@, d + 9) == Some(d + 9 + e.len())
            &&& r.subrange(d + 9, d + 9 + e.len()) == e
        }),
{
    lemma_default_pats();
    let op = "<default>"@;
    let cl = "</default>"@;
    let e = escape_text(text);
    let r = with_default(inner, text);
    law_escape_text_clean(text);
    lemma_first_match(inner, op, 0);
    let dcs = d + 9;
    lemma_first_match(inner, cl, dcs);
    assert(r == inner.take(dcs) + e + inner.skip(de));
    assert(r.subrange(d, d + 9) =~= inner.subrange(d, d + 9));
    assert forall|j: int| 0 <= j < d implies !matches_at(r, op, j) by {
        if matches_at(r, op, j) {
            assert(r.subrange(j, j + 9) =~= inner.subrange(j, j + 9));
            assert(matches_at(inner, op, j));
        }
    }
    lemma_first_match_is(r, op, 0, d);
    let q = dcs + e.len();
    assert(r.subrange(q, q + 10) =~= inner.subrange(de, de + 10));
    assert forall|j: int| dcs <= j < q implies !matches_at(r, cl, j) by {
        assert(r[j] == e[j - dcs]);
        lemma_no_lt_match(r, cl, dcs, q, j);
    }
    lemma_first_match_is(r, cl, dcs, q);
    assert(r.subrange(dcs, q) =~= e);
}

#[verifier::spinoff_prover]
proof fn lemma_appended_open(inner: Seq<char>, op: Seq<char>, rest: Seq<char>, r: Seq<char>)
    requires
        op.len() == 9,
        op[0] == '<',
        forall|k: int| 1 <= k < 9 ==> #[trigger] op[k] != '<',
        forall|j: int| 0 <= j ==> !matches_at(inner, op, j),
        r == inner + op + rest,
    ensures
        first_match(r, op, 0) == Some(inner.len() as int),
{
    let n = inner.len() as int;
    assert(r.subrange(n, n + 9) =~= op);
    assert forall|j: int| 0 <= j < n implies !matches_at(r, op, j) by {
        if matches_at(r, op, j) {
            if j + 9 <= n {
                assert(r.subrange(j, j + 9) =~= inner.subrange(j, j + 9));
                assert(matches_at(inner, op, j));
            } else {
                assert(r.subrange(j, j + 9)[n - j] == r[n]);
                assert(r[n] == op[0]);
                assert(op[n - j] == '<');
            }
        }
    }
    lemma_first_match_is(r, op, 0, n);
}

#[verifier::spinoff_prover]
proof fn lemma_appended_close(inner: Seq<char>, e: Seq<char>, r: Seq<char>)
    requires
        forall|i: int| 0 <= i < e.len() ==> e[i] != '<',
        r == inner + "<default>"@ + e + "</default>"@,
    ensures
        first_match(r, "</default>"@, inner.len() + 9int) == Some(inner.len() + 9int + e.len()),
        r.subrange(inner.len() + 9int, inner.len() + 9int + e.len()) == e,
{
    lemma_default_pats();
    let cl = "</default>"@;
    let dcs: int = inner.len() + 9int;
    let q: int = dcs + e.len();
    assert(r.subrange(q, q + 10) =~= cl);
    assert forall|j: int| dcs <= j < q implies !matches_at(r, cl, j) by {
        assert(r[j] == e[j - dcs]);
        lemma_no_lt_match(r, cl, dcs, q, j);
    }
    lemma_first_match_is(r, cl, dcs, q);
    assert(r.subrange(dcs, q) =~= e);
}

#[verifier::spinoff_prover]
proof fn lemma_default_appended(inner: Seq<char>, text: Seq<char>)
    requires
        without_default_tag(inner),
    ensures
        ({
            let r = with_default(inner, text);
            let e = escape_text(text);
            let n = inner.len() as int;
            &&& first_match(r, "<default>"@, 0) == Some(n)
            &&& first_match(r, "</default>"@, n + 9) == Some(n + 9 + e.len())
            &&& r.subrange(n + 9, n + 9 + e.len()) == e
        }),
{
    let e = escape_text(text);
    let r = with_default(inner, text);
    law_escape_text_clean(text);
    lemma_first_match(inner, "<default>"@, 0);
    assert(r == inner + "<default>"@ + e + "</default>"@);
    lemma_default_pats();
    assert(r =~= inner + "<default>"@ + (e + "</default>"@));
    lemma_appended_open(inner, "<default>"@, e + "</default>"@, r);
    lemma_appended_close(inner, e, r);
}

/// The subtitle text has no `<default>` start tag.
pub open spec fn without_default_tag(inner: Seq<char>) -> bool {
    match first_match(inner, "<default>"@, 0) {
        None => true,
        Some(d) => false,
    }
}

/// Setting a subtitle's default text writes it as the content of the
/// subtitle's first `<default>` element, whether the subtitle had one or not:
/// reading that element back gives the escaped text, which unescapes to the
/// text.  (A `<default>` without a closing tag after it is not an element; a
/// new one is then appended after it, and the first one reads differently.)
pub proof fn law_default_text_reads_back(inner: Seq<char>, text: Seq<char>)
    requires
        !(first_match(inner, "<default>"@, 0) matches Some(d) && first_match(
            inner,
            "</default>"@,
            d + 9,
        ) is None),
    ensures
        ({
            let r = with_default(inner, text);
            let e = escape_text(text);
            &&& first_match(r, "<default>"@, 0) matches Some(d)
            &&& first_match(r, "</default>"@, d + 9) == Some(d + 9 + e.len())
            &&& r.subrange(d + 9, d + 9 + e.len()) == e
            &&& unescape(e) == text
        }),
{
    law_unescape_escape_text(text);
    match first_match(inner, "<default>"@, 0) {
        Some(d) => {
            let de = first_match(inner, "</default>"@, d + 9)->0;
            lemma_default_replaced(inner, text, d, de);
        },
        None => {
            lemma_default_appended(inner, text);
        },
    }
}

// ---------------------------------------------------------------------------
// The values in a property element
// ---------------------------------------------------------------------------

/// The element `<name>value</name>`, the value escaped.
pub open spec fn element_text_of(name: Seq<char>, value: Seq<char>) -> Seq<char> {
    "<"@ + name + ">"@ + escape_text(value) + "</"@ + name + ">"@
}

/// `x` holds the element `<name>value</name>`.
pub open spec fn holds_element(x: Seq<char>, name: Seq<char>, value: Seq<char>) -> bool {
    exists|off: int| matches_at(x, element_text_of(name, value), off)
}

#[verifier::spinoff_prover]
proof fn lemma_lines_hold(v: Seq<(Seq<char>, Seq<char>)>, ind: Seq<char>, k: int)
    requires
        0 <= k < v.len(),
    ensures
        holds_element(property_lines_xml(v, ind), v[k].0, v[k].1),
    decreases v.len(),
{
    let lines = property_lines_xml(v, ind);
    let prev = property_lines_xml(v.drop_last(), ind);
    let (name, value) = v.last();
    let el = element_text_of(name, value);
    let line = "\n"@ + ind + "    "@ + el;
    assert(lines =~= prev + line);
    reveal_strlit("\n");
    reveal_strlit("    ");
    if k == v.len() - 1 {
        let off: int = (prev.len() + 1 + ind.len() + 4) as int;
        assert(lines.subrange(off, off + el.len()) =~= el);
        assert(matches_at(lines, el, off));
    } else {
        lemma_lines_hold(v.drop_last(), ind, k);
        assert(v.drop_last()[k] == v[k]);
        let el2 = element_text_of(v[k].0, v[k].1);
        let off = choose|off: int| matches_at(prev, el2, off);
        assert(lines.subrange(off, off + el2.len()) =~= prev.subrange(off, off + el2.len()));
        assert(matches_at(lines, el2, off));
    }
}

#[verifier::spinoff_prover]
proof fn lemma_property_holds(p: ProjectAssetProperties, ind: Seq<char>, k: int)
    requires
        0 <= k < property_values(p).len(),
    ensures
        holds_element(property_xml(p, ind), property_values(p)[k].0, property_values(p)[k].1),
{
    reveal(property_xml);
    let v = property_values(p);
    let lines = property_lines_xml(v, ind);
    lemma_lines_hold(v, ind, k);
    let el = element_text_of(v[k].0, v[k].1);
    let off = choose|off: int| matches_at(lines, el, off);
    let x = property_xml(p, ind);
    let head = "<property>"@;
    assert(x =~= head + lines + ("\n"@ + ind + "</property>"@));
    assert(x.subrange(head.len() + off, head.len() + off + el.len()) =~= lines.subrange(off, off + el.len()));
    assert(matches_at(x, el, head.len() + off));
}

/// `x` holds each property of `p` as the element named after it, with that
/// property's own value: `<whiteness>` the whiteness, `<positionY>` the
/// vertical position, and so on, and `<generatepath>` the generated path when
/// there is one.
pub open spec fn holds_property_values(x: Seq<char>, p: ProjectAssetProperties) -> bool {
    &&& holds_element(x, "whiteness"@, property_number(p.whiteness as int))
    &&& holds_element(x, "smoothing"@, property_number(p.smoothing as int))
    &&& holds_element(x, "saturation"@, property_number(p.saturation as int))
    &&& holds_element(x, "skin_tone"@, property_number(p.skin_tone as int))
    &&& holds_element(x, "face_detect"@, decimal_i64(p.face_detect as int))
    &&& holds_element(x, "rotation"@, property_number(p.rotation as int))
    &&& holds_element(x, "lut_style"@, p.lut_style@)
    &&& holds_element(x, "lut_intensity"@, property_number(p.lut_intensity as int))
    &&& holds_element(x, "positionX"@, property_number(p.position_x as int))
    &&& holds_element(x, "positionY"@, property_number(p.position_y as int))
    &&& holds_element(x, "scale"@, property_number(p.scale as int))
    &&& holds_element(x, "canvas_width"@, decimal(p.canvas_width as nat))
    &&& holds_element(x, "canvas_height"@, decimal(p.canvas_height as nat))
    &&& holds_element(x, "transform_origin"@, p.transform_origin@)
    &&& holds_element(x, "stabilization"@, if p.stabilization { "true"@ } else { "false"@ })
    &&& holds_element(x, "one_click_beauty"@, if p.one_click_beauty { "true"@ } else { "false"@ })
    &&& p.generatepath matches Some(g) ==> holds_element(x, "generatepath"@, g@)
}

/// The `<property>` element written for the properties `p` holds each
/// property as the element named after it, with that property's own value
/// (see `holds_property_values`).
pub proof fn law_property_element_values(p: ProjectAssetProperties, ind: Seq<char>)
    ensures
        holds_property_values(property_xml(p, ind), p),
{
    let v = property_values(p);
    assert(v.len() >= 16);
    lemma_property_holds(p, ind, 0);
    lemma_property_holds(p, ind, 1);
    lemma_property_holds(p, ind, 2);
    lemma_property_holds(p, ind, 3);
    lemma_property_holds(p, ind, 4);
    lemma_property_holds(p, ind, 5);
    lemma_property_holds(p, ind, 6);
    lemma_property_holds(p, ind, 7);
    lemma_property_holds(p, ind, 8);
    lemma_property_holds(p, ind, 9);
    lemma_property_holds(p, ind, 10);
    lemma_property_holds(p, ind, 11);
    lemma_property_holds(p, ind, 12);
    lemma_property_holds(p, ind, 13);
    lemma_property_holds(p, ind, 14);
    lemma_property_holds(p, ind, 15);
    if p.generatepath is Some {
        lemma_property_holds(p, ind, 16);
    }
}

// ---------------------------------------------------------------------------
// The speed written for a short replacement video
// ---------------------------------------------------------------------------

/// An area whose replacement video is shorter than it needs is slowed down,
/// and the adapted area holds the speed `video / required` (in thousandths,
/// below 1) as the content of a `<speed>` element: `speed_text(video,
/// required)` followed by `</speed>`, whether an existing `<speed>` was
/// rewritten, a missing one inserted into the `<transform>`, or a missing
/// `<transform>` added.
proof fn lemma_splice_keeps(
    s: Seq<char>,
    out: Seq<char>,
    toe: int,
    tcs: int,
    a: int,
    b: int,
    mid: Seq<char>,
)
    requires
        0 <= toe <= a <= b <= tcs <= s.len(),
        out == s.take(a) + mid + s.skip(b),
    ensures
        out.take(toe) == s.take(toe),
        out.len() >= s.len() - tcs,
        out.skip(out.len() - (s.len() - tcs)) == s.skip(tcs),
        a + mid.len() <= out.len() - (s.len() - tcs),
{
    assert(out.take(toe) =~= s.take(toe));
    assert(out.skip(out.len() - (s.len() - tcs)) =~= s.skip(tcs));
}

#[verifier::spinoff_prover]
#[verifier::rlimit(60)]
pub proof fn law_short_video_writes_speed(s: Seq<char>, video: u64)
    requires
        0 < video < required_ms(s),
    ensures
        ({
            let r = adapted_area(s, video);
            let st = speed_text(video, required_ms(s));
            &&& r.1
            &&& exists|k: int| matches_at(r.0, st + "</speed>"@, k)
            &&& first_range_from(s, "transform"@, 0) matches Some((ts, toe, tcs, te)) ==> {
                let tail = s.len() - tcs;
                &&& r.0.take(toe) == s.take(toe)
                &&& r.0.len() >= tail
                &&& r.0.skip(r.0.len() - tail) == s.skip(tcs)
                &&& exists|k: int| toe <= k && k + st.len() + 8 <= r.0.len() - tail && matches_at(
                    r.0,
                    st + "</speed>"@,
                    k,
                )
            }
        }),
{
    reveal(adapted_area);
    law_slowdown_below_normal_speed(video, required_ms(s));
    let req = required_ms(s);
    let st = speed_text(video, req);
    let pat = st + "</speed>"@;
    let r = adapted_area(s, video);
    reveal_strlit("</speed>");
    reveal_strlit("</speed></transform>\n");
    match first_range_from(s, "transform"@, 0) {
        Some((ts, toe, tcs, te)) => {
            lemma_first_range_from(s, "transform"@, 0);
            let ti = s.subrange(toe, tcs);
            lemma_first_range_from(ti, "speed"@, 0);
            lemma_trim_end_len(ti);
            match first_range_from(ti, "speed"@, 0) {
                Some((ss, soe, scs, se)) => {
                    let stag = ti.subrange(ss, soe);
                    let cur = trim(ti.subrange(soe, scs));
                    let was = attr_value(stag, auto_attr()) == Some("true"@);
                    let orig0 = if was {
                        match attr_value(stag, original_attr()) {
                            Some(v) => v,
                            None => cur,
                        }
                    } else {
                        cur
                    };
                    let orig = if trim(orig0).len() == 0 {
                        "1"@
                    } else {
                        orig0
                    };
                    let utag = replace_or_insert_attr(
                        replace_or_insert_attr(stag, auto_attr(), "true"@),
                        original_attr(),
                        orig,
                    );
                    let mid = utag + st + "</speed>"@;
                    let out = s.take(toe + ss) + mid + s.skip(toe + se);
                    assert(r.0 == out);
                    let k = toe + ss + utag.len();
                    assert(out.subrange(k, k + pat.len()) =~= pat);
                    assert(matches_at(r.0, pat, k));
                    lemma_splice_keeps(s, out, toe, tcs, toe + ss, toe + se, mid);
                },
                None => {
                    let ins = "\n"@ + transform_indent(s, ts) + "    "@
                        + "<speed data-auto-slowdown=\"true\" data-original-speed=\"1\">"@ + st
                        + "</speed>"@;
                    let at = toe + trim_end(ti).len();
                    let out = s.take(at) + ins + s.skip(at);
                    assert(r.0 == out);
                    let k = at + ins.len() - pat.len();
                    assert(out.subrange(k, k + pat.len()) =~= pat);
                    assert(matches_at(r.0, pat, k));
                    lemma_splice_keeps(s, out, toe, tcs, at, at, ins);
                },
            }
        },
        None => {
            let at = match first_range_from(s, "destination"@, 0) {
                Some((d, _, _, _)) => d,
                None => match first_range_from(s, "property"@, 0) {
                    Some((p, _, _, _)) => p,
                    None => s.len() as int,
                },
            };
            let head = s.take(at) + "<transform><speed data-auto-slowdown=\"true\" data-original-speed=\"1\">"@;
            let tail = "</speed></transform>\n"@;
            let out = head + st + tail + s.skip(at);
            assert(r.0 == out);
            let k = head.len() as int;
            assert(tail.subrange(0, 8) =~= "</speed>"@);
            assert(out.subrange(k, k + pat.len()) =~= pat);
            assert(matches_at(r.0, pat, k));
        },
    }
}

// ---------------------------------------------------------------------------
// The new project's start tag
// ---------------------------------------------------------------------------

/// The first `<name…>` start tag of `x`, if any.
pub open spec fn start_tag_of(x: Seq<char>, name: Seq<char>) -> Option<Seq<char>> {
    match next_tag(x, open_pat(name), 0) {
        Some((t, e)) => Some(x.subrange(t, e)),
        None => None,
    }
}

/// Reading the attribute `a` of `t`, where `a="escaped val"` stands at `k`
/// after a lead character and `a` occurs nowhere before `k`, gives `val`.
#[verifier::spinoff_prover]
proof fn lemma_read_quoted(t: Seq<char>, a: Seq<char>, val: Seq<char>, k: int)
    requires
        a.len() > 0,
        0 < k,
        attr_lead(t[k - 1]),
        k + a.len() + 3 + escape_attr(val).len() <= t.len(),
        t.subrange(k, k + a.len() + 3 + escape_attr(val).len()) == attr_text(a, val),
        forall|j: int| 0 <= j < k ==> !matches_at(t, a, j),
    ensures
        attr_value(t, a) == Some(val),
{
    let esc = escape_attr(val);
    let n = k + a.len();
    assert forall|i: int| 0 <= i < a.len() + 3 + esc.len() implies t[k + i] == attr_text(a, val)[i] by {
        assert(t.subrange(k, k + a.len() + 3 + esc.len())[i] == t[k + i]);
    }
    assert(t.subrange(k, n) =~= a) by {
        assert forall|i: int| 0 <= i < a.len() implies t.subrange(k, n)[i] == a[i] by {
            assert(t[k + i] == attr_text(a, val)[i]);
        }
    }
    assert(t[n] == attr_text(a, val)[a.len() as int]);
    assert(t[n] == '=');
    assert(t[n + 1] == attr_text(a, val)[(a.len() + 1) as int]);
    assert(t[n + 1] == '"');
    lemma_first_match_is(t, a, 0, k);
    assert(attr_valid_at(t, a, k));
    assert(attr_position_from(t, a, 0) == Some(k));
    assert(ws_end(t, n) == n);
    assert(ws_end(t, n + 1) == n + 1);
    assert(attr_value_start(t, a) == Some(n + 1));
    law_escape_attr_clean(val);
    let v = n + 1;
    let q = v + 1 + esc.len();
    assert(t[q] == attr_text(a, val)[(a.len() + 2 + esc.len()) as int]);
    assert(t[q] == '"');
    assert(t.subrange(q, q + 1) =~= seq![t[v]]);
    assert forall|j: int| v + 1 <= j < q implies !matches_at(t, seq![t[v]], j) by {
        assert(t[j] == attr_text(a, val)[j - k]);
        assert(t[j] == esc[j - v - 1]);
        if matches_at(t, seq![t[v]], j) {
            assert(t.subrange(j, j + 1)[0] == t[j]);
        }
    }
    lemma_first_match_is(t, seq![t[v]], v + 1, q);
    assert(value_end(t, v) == Some(q + 1));
    assert(t.subrange(v + 1, q) =~= esc) by {
        assert forall|i: int| 0 <= i < esc.len() implies t.subrange(v + 1, q)[i] == esc[i] by {
            assert(t[v + 1 + i] == attr_text(a, val)[a.len() + 2 + i]);
        }
    }
    law_unescape_escape_attr(val);
}

/// The `<project …>` start tag a new project file is written with.
pub open spec fn project_tag_text(
    project_id: Seq<char>,
    name: Seq<char>,
    version: Seq<char>,
    timeunit: Seq<char>,
) -> Seq<char> {
    "<project id=\""@ + escape_attr(project_id) + "\" name=\""@ + escape_attr(name) + "\" version=\""@
        + escape_attr(version) + "\" timeunit=\""@ + escape_attr(timeunit) + "\">"@
}

proof fn lemma_project_header()
    ensures
        ({
            let h = "<?xml version=\"1.0\" encoding=\"UTF-8\"?>\n"@ + "<!DOCTYPE xmeml>\n"@
                + "<xmeml version=\"5\">\n\n"@ + "    "@;
            &&& forall|j: int| 0 <= j < h.len() - 1 ==> !(#[trigger] h[j] == '<' && h[j + 1] == 'p')
            &&& h.last() != '<'
            &&& h.len() >= 1
        }),
{
    reveal_strlit("<?xml version=\"1.0\" encoding=\"UTF-8\"?>\n");
    reveal_strlit("<!DOCTYPE xmeml>\n");
    reveal_strlit("<xmeml version=\"5\">\n\n");
    reveal_strlit("    ");
}

proof fn lemma_project_pieces()
    ensures
        "    <project id=\""@ =~= "    "@ + "<project id=\""@,
        "\">\n"@ =~= "\">"@ + "\n"@,
        "<project id=\""@ =~= seq!['<', 'p', 'r', 'o', 'j', 'e', 'c', 't', ' ', 'i', 'd', '=', '"'],
        "\" name=\""@ =~= seq!['"', ' ', 'n', 'a', 'm', 'e', '=', '"'],
        "\" version=\""@ =~= seq!['"', ' ', 'v', 'e', 'r', 's', 'i', 'o', 'n', '=', '"'],
        "\" timeunit=\""@ =~= seq!['"', ' ', 't', 'i', 'm', 'e', 'u', 'n', 'i', 't', '=', '"'],
        "\">"@ =~= seq!['"', '>'],
        "project"@ =~= seq!['p', 'r', 'o', 'j', 'e', 'c', 't'],
{
    reveal_strlit("    <project id=\"");
    reveal_strlit("    ");
    reveal_strlit("<project id=\"");
    reveal_strlit("\">\n");
    reveal_strlit("\">");
    reveal_strlit("\n");
    reveal_strlit("\" name=\"");
    reveal_strlit("\" version=\"");
    reveal_strlit("\" timeunit=\"");
    reveal_strlit("project");
}

#[verifier::spinoff_prover]
proof fn lemma_render_starts(
    project_id: Seq<char>,
    template_id: Seq<char>,
    name: Seq<char>,
    version: Seq<char>,
    timeunit: Seq<char>,
    time: Seq<char>,
    media: Seq<MediaV>,
    groups: Seq<ClipsV>,
)
    ensures
        ({
            let h = "<?xml version=\"1.0\" encoding=\"UTF-8\"?>\n"@ + "<!DOCTYPE xmeml>\n"@
                + "<xmeml version=\"5\">\n\n"@ + "    "@;
            let tag = project_tag_text(project_id, name, version, timeunit);
            let out = render_project(project_id, template_id, name, version, timeunit, time, media, groups);
            &&& out.len() >= h.len() + tag.len()
            &&& out.take(h.len() + tag.len() as int) == h + tag
        }),
{
    lemma_project_pieces();
    let h = "<?xml version=\"1.0\" encoding=\"UTF-8\"?>\n"@ + "<!DOCTYPE xmeml>\n"@
        + "<xmeml version=\"5\">\n\n"@ + "    "@;
    let tag = project_tag_text(project_id, name, version, timeunit);
    let out = render_project(project_id, template_id, name, version, timeunit, time, media, groups);
    let rest = out.skip((h.len() + tag.len()) as int);
    assert(out =~= h + tag + rest);
    assert(out.take(h.len() + tag.len() as int) =~= h + tag);
}

#[verifier::spinoff_prover]
proof fn lemma_project_tag_gt(project_id: Seq<char>, name: Seq<char>, version: Seq<char>, timeunit: Seq<char>)
    ensures
        ({
            let tag = project_tag_text(project_id, name, version, timeunit);
            &&& tag.len() >= 15
            &&& tag.last() == '>'
            &&& forall|i: int| 0 <= i < tag.len() - 1 ==> tag[i] != '>'
            &&& tag.take(9) =~= seq!['<', 'p', 'r', 'o', 'j', 'e', 'c', 't', ' ']
        }),
{
    lemma_project_pieces();
    let tag = project_tag_text(project_id, name, version, timeunit);
    let e1 = escape_attr(project_id);
    let e2 = escape_attr(name);
    let e3 = escape_attr(version);
    let e4 = escape_attr(timeunit);
    law_escape_attr_clean(project_id);
    law_escape_attr_clean(name);
    law_escape_attr_clean(version);
    law_escape_attr_clean(timeunit);
    let a1 = 13 + e1.len();
    let a2 = a1 + 8 + e2.len();
    let a3 = a2 + 11 + e3.len();
    assert(tag.len() == a3 + 12 + e4.len() + 2);
    assert forall|i: int| 0 <= i < tag.len() - 1 implies tag[i] != '>' by {
        if i < 13 {
        } else if i < a1 {
            assert(tag[i] == e1[i - 13]);
        } else if i < a1 + 8 {
        } else if i < a2 {
            assert(tag[i] == e2[i - a1 - 8]);
        } else if i < a2 + 11 {
        } else if i < a3 {
            assert(tag[i] == e3[i - a2 - 11]);
        } else if i < a3 + 12 {
        } else if i < a3 + 12 + e4.len() {
            assert(tag[i] == e4[i - a3 - 12]);
        } else {
        }
    }
}

#[verifier::spinoff_prover]
proof fn lemma_tag_found_after(out: Seq<char>, h: Seq<char>, tag: Seq<char>)
    requires
        h.len() >= 1,
        forall|j: int| 0 <= j < h.len() - 1 ==> !(#[trigger] h[j] == '<' && h[j + 1] == 'p'),
        h.last() != '<',
        tag.len() >= 15,
        tag.last() == '>',
        forall|i: int| 0 <= i < tag.len() - 1 ==> tag[i] != '>',
        tag.take(9) =~= seq!['<', 'p', 'r', 'o', 'j', 'e', 'c', 't', ' '],
        out.len() >= h.len() + tag.len(),
        out.take(h.len() + tag.len() as int) == h + tag,
    ensures
        start_tag_of(out, "project"@) == Some(tag),
{
    lemma_project_pieces();
    let ht = h.len() as int;
    let n = ht + tag.len();
    let pre = out.take(n);
    assert forall|j: int| 0 <= j < ht implies #[trigger] out[j] == h[j] by {
        assert(pre[j] == out[j]);
        assert((h + tag)[j] == h[j]);
    }
    assert forall|j: int| ht <= j < n implies #[trigger] out[j] == tag[j - ht] by {
        assert(pre[j] == out[j]);
        assert((h + tag)[j] == tag[j - ht]);
    }
    let open = open_pat("project"@);
    assert(open =~= seq!['<', 'p', 'r', 'o', 'j', 'e', 'c', 't']);
    assert forall|j: int| 0 <= j < ht implies !matches_at(out, open, j) by {
        if matches_at(out, open, j) {
            assert(out.subrange(j, j + 8)[0] == out[j]);
            assert(out.subrange(j, j + 8)[1] == out[j + 1]);
            if j + 1 < ht {
                assert(out[j + 1] == h[j + 1]);
                assert(h[j] == '<' && h[j + 1] == 'p');
            } else {
                assert(out[j] == h[ht - 1]);
            }
        }
    }
    assert forall|i: int| 0 <= i < 9 implies out[ht + i] == tag.take(9)[i] by {
        assert(out[ht + i] == tag[i]);
    }
    assert(out.subrange(ht, ht + 8) =~= open);
    lemma_first_match_is(out, open, 0, ht);
    assert(char_at(out, ht + 8) == Some(' '));
    assert(tag_candidate(out, open, 0) == Some(ht));
    let g = n - 1;
    assert(out[g] == tag[tag.len() - 1]);
    assert forall|j: int| ht <= j < g implies !matches_at(out, seq!['>'], j) by {
        if matches_at(out, seq!['>'], j) {
            assert(out.subrange(j, j + 1)[0] == out[j]);
            assert(out[j] == tag[j - ht]);
        }
    }
    assert(out.subrange(g, g + 1) =~= seq!['>']);
    lemma_first_match_is(out, seq!['>'], ht, g);
    assert(next_tag(out, open, 0) == Some((ht, g + 1)));
    assert(out.subrange(ht, g + 1) =~= tag);
}

/// The first `<project` start tag of a new project file is the one written
/// for the project.
#[verifier::spinoff_prover]
proof fn lemma_project_tag_found(
    project_id: Seq<char>,
    template_id: Seq<char>,
    name: Seq<char>,
    version: Seq<char>,
    timeunit: Seq<char>,
    time: Seq<char>,
    media: Seq<MediaV>,
    groups: Seq<ClipsV>,
)
    ensures
        start_tag_of(
            render_project(project_id, template_id, name, version, timeunit, time, media, groups),
            "project"@,
        ) == Some(project_tag_text(project_id, name, version, timeunit)),
{
    lemma_project_header();
    lemma_render_starts(project_id, template_id, name, version, timeunit, time, media, groups);
    lemma_project_tag_gt(project_id, name, version, timeunit);
    let h = "<?xml version=\"1.0\" encoding=\"UTF-8\"?>\n"@ + "<!DOCTYPE xmeml>\n"@
        + "<xmeml version=\"5\">\n\n"@ + "    "@;
    lemma_tag_found_after(
        render_project(project_id, template_id, name, version, timeunit, time, media, groups),
        h,
        project_tag_text(project_id, name, version, timeunit),
    );
}

proof fn lemma_project_tag_shape(project_id: Seq<char>, name: Seq<char>, version: Seq<char>, timeunit: Seq<char>)
    ensures
        project_tag_text(project_id, name, version, timeunit) =~= seq!['<', 'p', 'r', 'o', 'j', 'e', 'c', 't', ' ']
            + attr_text(id_name(), project_id) + seq![' '] + attr_text("name"@, name) + (
        "\" version=\""@ + escape_attr(version) + "\" timeunit=\""@ + escape_attr(timeunit) + "\">"@).skip(1),
{
    lemma_project_pieces();
    reveal_strlit("name");
}

#[verifier::spinoff_prover]
proof fn lemma_reads_id(pid: Seq<char>, tail: Seq<char>)
    ensures
        attr_value(seq!['<', 'p', 'r', 'o', 'j', 'e', 'c', 't', ' '] + attr_text(id_name(), pid) + tail, id_name())
            == Some(pid),
{
    let t = seq!['<', 'p', 'r', 'o', 'j', 'e', 'c', 't', ' '] + attr_text(id_name(), pid) + tail;
    let idn = id_name();
    let e1 = escape_attr(pid);
    assert(t.subrange(9, (9 + 2 + 3 + e1.len()) as int) =~= attr_text(idn, pid));
    assert forall|j: int| 0 <= j < 9 implies !matches_at(t, idn, j) by {
        if matches_at(t, idn, j) {
            assert(t.subrange(j, j + 2)[0] == t[j]);
        }
    }
    lemma_read_quoted(t, idn, pid, 9);
}

#[verifier::spinoff_prover]
proof fn lemma_reads_name(head: Seq<char>, pid: Seq<char>, name: Seq<char>, tail: Seq<char>)
    requires
        head.len() == 9,
        forall|k: int| 0 <= k < 9 ==> head[k] != 'n',
        first_match(escape_attr(pid), "name"@, 0) is None,
    ensures
        attr_value(head + attr_text(id_name(), pid) + seq![' '] + attr_text("name"@, name) + tail, "name"@)
            == Some(name),
{
    reveal_strlit("name");
    let nm = "name"@;
    assert(nm =~= seq!['n', 'a', 'm', 'e']);
    let e1 = escape_attr(pid);
    let e2 = escape_attr(name);
    let t = head + attr_text(id_name(), pid) + seq![' '] + attr_text(nm, name) + tail;
    lemma_first_match(e1, nm, 0);
    let k: int = (9 + 5 + e1.len() + 1) as int;
    assert(t.subrange(k, k + 4 + 3 + e2.len()) =~= attr_text(nm, name));
    assert(t[k - 1] == ' ');
    assert forall|j: int| 0 <= j < k implies !matches_at(t, nm, j) by {
        if matches_at(t, nm, j) {
            assert(t.subrange(j, j + 4)[0] == t[j]);
            if j < 9 {
                assert(t[j] == head[j]);
            } else if j < 13 {
                assert(t[j] == attr_text(id_name(), pid)[j - 9]);
            } else if j + 4 <= 13 + e1.len() {
                assert(t.subrange(j, j + 4) =~= e1.subrange(j - 13, j - 13 + 4));
                assert(matches_at(e1, nm, j - 13));
            } else {
                let q: int = (13 + e1.len()) as int;
                if j <= q {
                    assert(t.subrange(j, j + 4)[q - j] == t[q]);
                }
            }
        }
    }
    lemma_read_quoted(t, nm, name, k);
}

proof fn lemma_no_match_join(x: Seq<char>, y: Seq<char>, a: Seq<char>)
    requires
        a.len() > 0,
        forall|j: int| !matches_at(x, a, j),
        forall|j: int| !matches_at(y, a, j),
        (y.len() > 0 && forall|k: int| 0 <= k < a.len() ==> a[k] != y[0]) || (x.len() > 0 && forall|k: int|
            0 <= k < a.len() ==> a[k] != x.last()),
    ensures
        forall|j: int| !matches_at(x + y, a, j),
{
    let z = x + y;
    assert forall|j: int| !matches_at(z, a, j) by {
        if matches_at(z, a, j) {
            if j + a.len() <= x.len() {
                assert(z.subrange(j, j + a.len()) =~= x.subrange(j, j + a.len()));
                assert(matches_at(x, a, j));
            } else if j >= x.len() {
                assert(z.subrange(j, j + a.len()) =~= y.subrange(j - x.len(), j - x.len() + a.len()));
                assert(matches_at(y, a, j - x.len()));
            } else {
                assert(z.subrange(j, j + a.len())[x.len() - j] == z[x.len() as int]);
                assert(z[x.len() as int] == y[0]);
                assert(z.subrange(j, j + a.len())[x.len() - 1 - j] == z[x.len() - 1]);
                assert(z[x.len() - 1] == x.last());
            }
        }
    }
}

proof fn lemma_first_match_none_all(x: Seq<char>, a: Seq<char>)
    requires
        first_match(x, a, 0) is None,
    ensures
        forall|j: int| !matches_at(x, a, j),
{
    lemma_first_match(x, a, 0);
    assert forall|j: int| !matches_at(x, a, j) by {
        if j < 0 {
        }
    }
}

/// No occurrence of `a` in `lit` where `a` starts with `c` and `lit` holds no
/// `c`.
proof fn lemma_lit_no_match(lit: Seq<char>, a: Seq<char>, c: char)
    requires
        a.len() > 0,
        a[0] == c,
        forall|k: int| 0 <= k < lit.len() ==> #[trigger] lit[k] != c,
    ensures
        forall|j: int| !matches_at(lit, a, j),
{
    assert forall|j: int| !matches_at(lit, a, j) by {
        if matches_at(lit, a, j) {
            assert(lit.subrange(j, j + a.len())[0] == lit[j]);
        }
    }
}

/// Reading `a` from `pre + a="val" + rest`, where `pre` ends in a space and
/// holds no `a`, and `a` has no space, gives `val`.
#[verifier::spinoff_prover]
proof fn lemma_read_after(t: Seq<char>, pre: Seq<char>, a: Seq<char>, val: Seq<char>, rest: Seq<char>)
    requires
        a.len() > 0,
        forall|k: int| 0 <= k < a.len() ==> a[k] != ' ',
        pre.len() > 0,
        pre.last() == ' ',
        forall|j: int| !matches_at(pre, a, j),
        t == pre + attr_text(a, val) + rest,
    ensures
        attr_value(t, a) == Some(val),
{
    let k = pre.len() as int;
    let x = attr_text(a, val);
    assert(t.subrange(k, k + x.len()) =~= x);
    assert(t[k - 1] == ' ');
    assert forall|j: int| 0 <= j < k implies !matches_at(t, a, j) by {
        if matches_at(t, a, j) {
            if j + a.len() <= k {
                assert(t.subrange(j, j + a.len()) =~= pre.subrange(j, j + a.len()));
                assert(matches_at(pre, a, j));
            } else {
                assert(t.subrange(j, j + a.len())[k - 1 - j] == t[k - 1]);
            }
        }
    }
    lemma_read_quoted(t, a, val, k);
}

proof fn lemma_project_tag_layout(project_id: Seq<char>, name: Seq<char>, version: Seq<char>, timeunit: Seq<char>)
    ensures
        ({
            let pv = "<project id=\""@ + escape_attr(project_id) + "\" name=\""@ + escape_attr(name) + seq!['"', ' '];
            let vt = attr_text("version"@, version);
            let tag = project_tag_text(project_id, name, version, timeunit);
            &&& tag =~= pv + vt + (seq![' '] + attr_text("timeunit"@, timeunit) + seq!['>'])
            &&& tag =~= (pv + vt + seq![' ']) + attr_text("timeunit"@, timeunit) + seq!['>']
        }),
{
    lemma_project_pieces();
    reveal_strlit("version");
    reveal_strlit("timeunit");
}

/// No occurrence of a name starting with `c` in `<project id="e1" name="e2" `
/// when neither escaped value holds it and the literal text holds no `c`.
proof fn lemma_head_no_match(e1: Seq<char>, e2: Seq<char>, a: Seq<char>, c: char)
    requires
        a.len() > 1,
        a[0] == c,
        c != '<' && c != 'p' && c != 'r' && c != 'o' && c != 'j' && c != 'e' && c != 'c' && c != 't'
            && c != ' ' && c != 'i' && c != 'd' && c != '=' && c != '"' && c != 'n' && c != 'a' && c
            != 'm',
        forall|k: int| 0 <= k < a.len() ==> a[k] != '"',
        forall|j: int| !matches_at(e1, a, j),
        forall|j: int| !matches_at(e2, a, j),
    ensures
        forall|j: int| !matches_at(
            "<project id=\""@ + e1 + "\" name=\""@ + e2 + seq!['"', ' '],
            a,
            j,
        ),
{
    lemma_project_pieces();
    let l1 = "<project id=\""@;
    let l2 = "\" name=\""@;
    let l3 = seq!['"', ' '];
    lemma_lit_no_match(l1, a, c);
    lemma_lit_no_match(l2, a, c);
    lemma_lit_no_match(l3, a, c);
    lemma_no_match_join(l1, e1, a);
    lemma_no_match_join(l1 + e1, l2, a);
    lemma_no_match_join(l1 + e1 + l2, e2, a);
    lemma_no_match_join(l1 + e1 + l2 + e2, l3, a);
}

/// The `version` of a new project's start tag reads back as the template's,
/// when neither escaped value written before it holds `version`.
#[verifier::spinoff_prover]
proof fn lemma_project_tag_reads_version(project_id: Seq<char>, name: Seq<char>, version: Seq<char>, timeunit: Seq<char>)
    requires
        first_match(escape_attr(project_id), "version"@, 0) is None,
        first_match(escape_attr(name), "version"@, 0) is None,
    ensures
        attr_value(project_tag_text(project_id, name, version, timeunit), "version"@) == Some(version),
{
    reveal_strlit("version");
    let vn = "version"@;
    assert(vn =~= seq!['v', 'e', 'r', 's', 'i', 'o', 'n']);
    let e1 = escape_attr(project_id);
    let e2 = escape_attr(name);
    lemma_first_match_none_all(e1, vn);
    lemma_first_match_none_all(e2, vn);
    lemma_head_no_match(e1, e2, vn, 'v');
    lemma_project_tag_layout(project_id, name, version, timeunit);
    let pv = "<project id=\""@ + e1 + "\" name=\""@ + e2 + seq!['"', ' '];
    lemma_read_after(
        project_tag_text(project_id, name, version, timeunit),
        pv,
        vn,
        version,
        seq![' '] + attr_text("timeunit"@, timeunit) + seq!['>'],
    );
}

/// The `timeunit` of a new project's start tag reads back as the template's,
/// when none of the escaped values written before it holds `timeunit`.
#[verifier::spinoff_prover]
proof fn lemma_project_tag_reads_timeunit(project_id: Seq<char>, name: Seq<char>, version: Seq<char>, timeunit: Seq<char>)
    requires
        first_match(escape_attr(project_id), "timeunit"@, 0) is None,
        first_match(escape_attr(name), "timeunit"@, 0) is None,
        first_match(escape_attr(version), "timeunit"@, 0) is None,
    ensures
        attr_value(project_tag_text(project_id, name, version, timeunit), "timeunit"@) == Some(timeunit),
{
    reveal_strlit("timeunit");
    reveal_strlit("version");
    let tn = "timeunit"@;
    assert(tn =~= seq!['t', 'i', 'm', 'e', 'u', 'n', 'i', 't']);
    let e1 = escape_attr(project_id);
    let e2 = escape_attr(name);
    let e3 = escape_attr(version);
    lemma_first_match_none_all(e1, tn);
    lemma_first_match_none_all(e2, tn);
    lemma_first_match_none_all(e3, tn);
    lemma_project_pieces();
    let l1 = "<project id=\""@;
    let l2 = "\" name=\""@;
    let l3 = seq!['"', ' '];
    assert forall|j: int| !matches_at(l1, tn, j) by {
        if matches_at(l1, tn, j) {
            assert(l1.subrange(j, j + 8)[0] == l1[j]);
            assert(l1.subrange(j, j + 8)[1] == l1[j + 1]);
        }
    }
    lemma_lit_no_match(l2, tn, 't');
    lemma_lit_no_match(l3, tn, 't');
    lemma_no_match_join(l1, e1, tn);
    lemma_no_match_join(l1 + e1, l2, tn);
    lemma_no_match_join(l1 + e1 + l2, e2, tn);
    lemma_no_match_join(l1 + e1 + l2 + e2, l3, tn);
    let pv = l1 + e1 + l2 + e2 + l3;
    let d1 = seq!['v', 'e', 'r', 's', 'i', 'o', 'n', '=', '"'];
    let d2 = seq!['"', ' '];
    lemma_lit_no_match(d1, tn, 't');
    lemma_lit_no_match(d2, tn, 't');
    lemma_no_match_join(pv, d1, tn);
    lemma_no_match_join(pv + d1, e3, tn);
    lemma_no_match_join(pv + d1 + e3, d2, tn);
    let pt = pv + attr_text("version"@, version) + seq![' '];
    assert(pt =~= pv + d1 + e3 + d2);
    lemma_project_tag_layout(project_id, name, version, timeunit);
    lemma_read_after(project_tag_text(project_id, name, version, timeunit), pt, tn, timeunit, seq!['>']);
}

/// A new project file's `<project>` start tag carries the project's id and is
/// named after the template: its `name` reads back as the template's `name`
/// when the template has one, else as the template's id.  Its `version` reads
/// back as the template's (empty when it has none) and its `timeunit` as the
/// template's, else `millisecond`.  (Where an escaped value written before an
/// attribute itself holds that attribute's name, it could read as it first.)
#[verifier::spinoff_prover]
#[verifier::rlimit(100)]
pub proof fn law_project_named_after_template(s: Seq<char>, project_id: Seq<char>, time: Seq<char>)
    requires
        project_file(s, project_id, time) is Some,
    ensures
        ({
            let out = project_file(s, project_id, time)->0;
            let tag = template_tag(s)->0;
            let tid = attr_value(tag, id_name())->0;
            &&& start_tag_of(out, "project"@) matches Some(pt)
            &&& attr_value(pt, id_name()) == Some(project_id)
            &&& first_match(escape_attr(project_id), "name"@, 0) is None ==> attr_value(pt, "name"@) == Some(
                match attr_value(tag, "name"@) {
                    Some(n) => n,
                    None => tid,
                },
            )
            &&& ({
                let name = match attr_value(tag, "name"@) {
                    Some(n) => n,
                    None => tid,
                };
                let version = attr_or_empty(tag, "version"@);
                &&& first_match(escape_attr(project_id), "version"@, 0) is None
                    && first_match(escape_attr(name), "version"@, 0) is None ==> attr_value(
                    pt,
                    "version"@,
                ) == Some(version)
                &&& first_match(escape_attr(project_id), "timeunit"@, 0) is None
                    && first_match(escape_attr(name), "timeunit"@, 0) is None
                    && first_match(escape_attr(version), "timeunit"@, 0) is None ==> attr_value(
                    pt,
                    "timeunit"@,
                ) == Some(
                    match attr_value(tag, "timeunit"@) {
                        Some(t) => t,
                        None => "millisecond"@,
                    },
                )
            })
        }),
{
    let tag = template_tag(s)->0;
    let tid = attr_value(tag, id_name())->0;
    let name = match attr_value(tag, "name"@) {
        Some(n) => n,
        None => tid,
    };
    let version = attr_or_empty(tag, "version"@);
    let timeunit = match attr_value(tag, "timeunit"@) {
        Some(t) => t,
        None => "millisecond"@,
    };
    lemma_project_tag_found(project_id, tid, name, version, timeunit, time, template_media(s), template_clips(s));
    lemma_project_tag_shape(project_id, name, version, timeunit);
    let tail = ("\" version=\""@ + escape_attr(version) + "\" timeunit=\""@ + escape_attr(timeunit) + "\">"@).skip(1);
    let head = seq!['<', 'p', 'r', 'o', 'j', 'e', 'c', 't', ' '];
    assert(head + attr_text(id_name(), project_id) + seq![' '] + attr_text("name"@, name) + tail
        =~= head + attr_text(id_name(), project_id) + (seq![' '] + attr_text("name"@, name) + tail));
    lemma_reads_id(project_id, seq![' '] + attr_text("name"@, name) + tail);
    if first_match(escape_attr(project_id), "name"@, 0) is None {
        lemma_reads_name(head, project_id, name, tail);
    }
    if first_match(escape_attr(project_id), "version"@, 0) is None
        && first_match(escape_attr(name), "version"@, 0) is None {
        lemma_project_tag_reads_version(project_id, name, version, timeunit);
    }
    if first_match(escape_attr(project_id), "timeunit"@, 0) is None
        && first_match(escape_attr(name), "timeunit"@, 0) is None
        && first_match(escape_attr(version), "timeunit"@, 0) is None {
        lemma_project_tag_reads_timeunit(project_id, name, version, timeunit);
    }
}

/// The original speed recorded on the first `<speed>` of the area's first
/// `<transform>` when it was slowed down: its non-blank `data-original-speed`
/// when it is marked `data-auto-slowdown="true"`.
pub open spec fn recorded_original_speed(s: Seq<char>) -> Option<Seq<char>> {
    match first_range_from(s, "transform"@, 0) {
        Some((ts, toe, tcs, te)) => {
            let ti = s.subrange(toe, tcs);
            match first_range_from(ti, "speed"@, 0) {
                Some((ss, soe, scs, se)) => {
                    let tag = ti.subrange(ss, soe);
                    if attr_value(tag, auto_attr()) == Some("true"@) {
                        match attr_value(tag, original_attr()) {
                            Some(o) => if trim(o).len() > 0 {
                                Some(o)
                            } else {
                                None
                            },
                            None => None,
                        }
                    } else {
                        None
                    }
                },
                None => None,
            }
        },
        None => None,
    }
}

/// A replacement video at least as long as the area needs restores a speed
/// that was slowed down: the adapted area holds the recorded original speed
/// as the content of a `<speed>` element, and it is not slowed down.
#[verifier::spinoff_prover]
pub proof fn law_long_video_restores_speed(s: Seq<char>, video: u64)
    requires
        0 < required_ms(s) <= video,
        recorded_original_speed(s) is Some,
    ensures
        !adapted_area(s, video).1,
        exists|k: int| matches_at(
            adapted_area(s, video).0,
            recorded_original_speed(s)->0 + "</speed>"@,
            k,
        ),
{
    reveal(adapted_area);
    let (ts, toe, tcs, te) = first_range_from(s, "transform"@, 0)->0;
    lemma_first_range_from(s, "transform"@, 0);
    let ti = s.subrange(toe, tcs);
    lemma_first_range_from(ti, "speed"@, 0);
    let (ss, soe, scs, se) = first_range_from(ti, "speed"@, 0)->0;
    let stag = ti.subrange(ss, soe);
    let o = recorded_original_speed(s)->0;
    let utag = remove_attr(remove_attr(stag, auto_attr()), original_attr());
    let mid = utag + o + "</speed>"@;
    let out = s.take(toe + ss) + mid + s.skip(toe + se);
    let r = adapted_area(s, video);
    assert(r.0 == out);
    let pat = o + "</speed>"@;
    let k = toe + ss + utag.len();
    assert(out.subrange(k, k + pat.len()) =~= pat);
    assert(matches_at(r.0, pat, k));
}

/// `x` holds `pat` somewhere.
pub open spec fn holds_text(x: Seq<char>, pat: Seq<char>) -> bool {
    exists|k: int| matches_at(x, pat, k)
}

proof fn lemma_holds_within(a: Seq<char>, x: Seq<char>, b: Seq<char>, pat: Seq<char>)
    requires
        holds_text(x, pat),
    ensures
        holds_text(a + x + b, pat),
{
    let k = choose|k: int| matches_at(x, pat, k);
    let y = a + x + b;
    assert(y.subrange(a.len() + k, a.len() + k + pat.len()) =~= x.subrange(k, k + pat.len()));
    assert(matches_at(y, pat, a.len() + k));
}

/// The default text element `<default>escaped text</default>`.
pub open spec fn default_element(text: Seq<char>) -> Seq<char> {
    "<default>"@ + escape_text(text) + "</default>"@
}

#[verifier::spinoff_prover]
proof fn lemma_with_default_holds(inner: Seq<char>, text: Seq<char>)
    ensures
        holds_text(with_default(inner, text), default_element(text)),
{
    lemma_default_pats();
    let e = escape_text(text);
    let r = with_default(inner, text);
    let pat = default_element(text);
    match first_match(inner, "<default>"@, 0) {
        Some(d) => {
            lemma_first_match(inner, "<default>"@, 0);
            let dcs = d + 9;
            match first_match(inner, "</default>"@, dcs) {
                Some(de) => {
                    lemma_first_match(inner, "</default>"@, dcs);
                    assert(r == inner.take(dcs) + e + inner.skip(de));
                    assert(inner.subrange(d, dcs) == "<default>"@);
                    assert(inner.subrange(de, de + 10) == "</default>"@);
                    assert(r.subrange(d, d + pat.len()) =~= pat);
                    assert(matches_at(r, pat, d));
                },
                None => {
                    assert(r =~= inner + pat);
                    assert(r.subrange(inner.len() as int, r.len() as int) =~= pat);
                    assert(matches_at(r, pat, inner.len() as int));
                },
            }
        },
        None => {
            assert(r =~= inner + pat);
            assert(r.subrange(inner.len() as int, r.len() as int) =~= pat);
            assert(matches_at(r, pat, inner.len() as int));
        },
    }
}

/// When setting a template's subtitle default text finds the subtitle, the
/// result holds the text: as a `<default>` element holding the escaped text
/// (a subtitle with content), or as a `text="…"` attribute (a self-closing
/// subtitle).
#[verifier::spinoff_prover]
pub proof fn law_subtitle_default_written(s: Seq<char>, id: Seq<char>, text: Seq<char>, from: int)
    requires
        with_subtitle_default_from(s, id, text, from).1,
    ensures
        holds_text(with_subtitle_default_from(s, id, text, from).0, default_element(text))
            || holds_text(with_subtitle_default_from(s, id, text, from).0, attr_text("text"@, text)),
    decreases s.len() - from,
{
    let r = with_subtitle_default_from(s, id, text, from);
    lemma_next_tag(s, open_pat("subtitle"@), from);
    let (t, e) = next_tag(s, open_pat("subtitle"@), from)->0;
    let tag = s.subrange(t, e);
    lemma_first_match(s, close_pat("subtitle"@), e);
    if attr_value(tag, id_name()) != Some(id) {
        let r2 = with_subtitle_default_from(s, id, text, e);
        law_subtitle_default_written(s, id, text, e);
        if holds_text(r2.0, default_element(text)) {
            lemma_holds_within(s.subrange(from, e), r2.0, seq![], default_element(text));
            assert(s.subrange(from, e) + r2.0 + seq![] =~= r.0);
        } else {
            lemma_holds_within(s.subrange(from, e), r2.0, seq![], attr_text("text"@, text));
            assert(s.subrange(from, e) + r2.0 + seq![] =~= r.0);
        }
    } else if self_closing(tag) {
        let w = replace_or_insert_attr(tag, "text"@, text);
        let x = attr_text("text"@, text);
        let r2 = with_subtitle_default_from(s, id, text, e);
        assert(holds_text(w, x)) by {
            lemma_attr_span(tag, "text"@);
            match attr_span(tag, "text"@) {
                Some((p, q)) => {
                    assert(w.subrange(p, p + x.len()) =~= x);
                    assert(matches_at(w, x, p));
                },
                None => {
                    let ip = insert_position(tag);
                    let pre = trim_end(tag.take(ip));
                    let m: int = pre.len() + 1int;
                    assert(w.subrange(m, m + x.len()) =~= x);
                    assert(matches_at(w, x, m));
                },
            }
        }
        lemma_holds_within(s.subrange(from, t), w, r2.0, x);
    } else {
        let c = first_match(s, close_pat("subtitle"@), e)->0;
        let r2 = with_subtitle_default_from(s, id, text, c + close_pat("subtitle"@).len());
        lemma_with_default_holds(s.subrange(e, c), text);
        lemma_holds_within(
            s.subrange(from, e),
            with_default(s.subrange(e, c), text),
            close_pat("subtitle"@) + r2.0,
            default_element(text),
        );
        assert(s.subrange(from, e) + with_default(s.subrange(e, c), text) + (close_pat("subtitle"@)
            + r2.0) =~= r.0);
    }
}

proof fn lemma_holds_prop_within(a: Seq<char>, x: Seq<char>, b: Seq<char>, p: ProjectAssetProperties)
    requires
        holds_property_values(x, p),
    ensures
        holds_property_values(a + x + b, p),
{
    let y = a + x + b;
    assert forall|pat: Seq<char>| holds_text(x, pat) implies holds_text(y, pat) by {
        lemma_holds_within(a, x, b, pat);
    }
    assert(forall|n: Seq<char>, v: Seq<char>| holds_element(x, n, v) ==> #[trigger] holds_element(y, n, v)) by {
        assert forall|n: Seq<char>, v: Seq<char>| holds_element(x, n, v) implies #[trigger] holds_element(y, n, v) by {
            lemma_holds_within(a, x, b, element_text_of(n, v));
        }
    }
}

proof fn lemma_wap_around(inner: Seq<char>, px: Seq<char>, ind: Seq<char>)
    ensures
        exists|a: Seq<char>, b: Seq<char>| with_area_property(inner, px, ind) == a + px + b,
{
    reveal(with_area_property);
    let tt = trim_end(remove_children(inner, "property"@));
    let t2 = if tt.len() > 0 && tt.last() == '\n' {
        tt
    } else {
        tt.push('\n')
    };
    let a = t2 + ind;
    let b = "\n"@ + outdent(ind);
    assert(with_area_property(inner, px, ind) == a + px + b);
}

proof fn lemma_piece_around(s: Seq<char>, t: int, e: int, c: Option<int>, p: ProjectAssetProperties)
    ensures
        exists|a: Seq<char>, ind: Seq<char>, b: Seq<char>| area_piece(s, t, e, c, p) == a + property_xml(p, ind) + b,
{
    reveal(area_piece);
    let ai = area_indent(s, t);
    let pi = ai + "    "@;
    let px = property_xml(p, pi);
    match c {
        None => {
            let a = opened_tag(s.subrange(t, e)) + ">\n"@ + pi;
            let b = "\n"@ + ai + "</area>"@;
            assert(area_piece(s, t, e, c, p) =~= a + px + b);
        },
        Some(cc) => {
            let inner = s.subrange(e, cc);
            lemma_wap_around(inner, px, pi);
            let (a0, b0) = choose|a: Seq<char>, b: Seq<char>| with_area_property(inner, px, pi) == a + px + b;
            let a = s.subrange(t, e) + a0;
            let b = b0 + "</area>"@;
            assert(area_piece(s, t, e, c, p) =~= a + px + b);
        },
    }
}

proof fn lemma_area_piece_holds(s: Seq<char>, t: int, e: int, c: Option<int>, p: ProjectAssetProperties)
    ensures
        holds_property_values(area_piece(s, t, e, c, p), p),
{
    lemma_piece_around(s, t, e, c, p);
    let (a, ind, b) = choose|a: Seq<char>, ind: Seq<char>, b: Seq<char>| area_piece(s, t, e, c, p) == a
        + property_xml(p, ind) + b;
    law_property_element_values(p, ind);
    lemma_holds_prop_within(a, property_xml(p, ind), b, p);
}

/// The document with the properties stored (see `with_properties_from`).
pub open spec fn properties_stored_text(
    s: Seq<char>,
    id: Seq<char>,
    p: ProjectAssetProperties,
    from: int,
) -> Seq<char> {
    match with_properties_from(s, id, p, from) {
        Some((x, _)) => x,
        None => seq![],
    }
}

/// When storing the properties `p` in the areas of an asset finds such an area,
/// the resulting document holds each property as the element named after it,
/// with that property's own value (see `holds_property_values`).
#[verifier::spinoff_prover]
pub proof fn law_stored_properties_hold_values(
    s: Seq<char>,
    id: Seq<char>,
    p: ProjectAssetProperties,
    from: int,
)
    requires
        with_properties_from(s, id, p, from) matches Some((x, m)) && m,
    ensures
        holds_property_values(properties_stored_text(s, id, p, from), p),
    decreases s.len() - from,
{
    lemma_next_tag(s, open_pat(area_name()), from);
    let (t, e) = next_tag(s, open_pat(area_name()), from)->0;
    lemma_first_match(s, close_pat(area_name()), e);
    let tag = s.subrange(t, e);
    let x = properties_stored_text(s, id, p, from);
    if attr_value(tag, asset_id_name()) != Some(id) {
        let r2 = with_properties_from(s, id, p, e)->0;
        law_stored_properties_hold_values(s, id, p, e);
        lemma_holds_prop_within(s.subrange(from, e), r2.0, seq![], p);
        assert(s.subrange(from, e) + r2.0 + seq![] =~= x);
    } else if self_closing(tag) {
        let r2 = with_properties_from(s, id, p, e)->0;
        lemma_area_piece_holds(s, t, e, None, p);
        lemma_holds_prop_within(s.subrange(from, t), area_piece(s, t, e, None, p), r2.0, p);
    } else {
        let c = first_match(s, close_pat(area_name()), e)->0;
        let r2 = with_properties_from(s, id, p, c + close_pat(area_name()).len())->0;
        lemma_area_piece_holds(s, t, e, Some(c), p);
        lemma_holds_prop_within(s.subrange(from, t), area_piece(s, t, e, Some(c), p), r2.0, p);
    }
}

/// The document with the areas adapted (see `adapt_areas_from`).
pub open spec fn areas_adapted_text(s: Seq<char>, id: Seq<char>, video: u64, from: int) -> Seq<char> {
    match adapt_areas_from(s, id, video, from) {
        Some((x, _, _)) => x,
        None => seq![],
    }
}

/// When adapting a template's areas to a replacement video reports an area
/// slowed down, that area needed more than the video, and the document holds
/// the speed `video / required` for it as the content of a `<speed>` element.
#[verifier::spinoff_prover]
pub proof fn law_slowed_template_holds_speed(s: Seq<char>, id: Seq<char>, video: u64, from: int)
    requires
        adapt_areas_from(s, id, video, from) matches Some((x, m, a)) && a,
    ensures
        exists|req: u64| 0 < video < req && holds_text(
            areas_adapted_text(s, id, video, from),
            speed_text(video, req) + "</speed>"@,
        ),
    decreases s.len() - from,
{
    lemma_next_tag(s, open_pat(area_name()), from);
    let (t, e) = next_tag(s, open_pat(area_name()), from)->0;
    let tag = s.subrange(t, e);
    let x = areas_adapted_text(s, id, video, from);
    if attr_value(tag, asset_id_name()) != Some(id) || self_closing(tag) {
        let r2 = areas_adapted_text(s, id, video, e);
        law_slowed_template_holds_speed(s, id, video, e);
        let req = choose|req: u64| 0 < video < req && holds_text(r2, speed_text(video, req) + "</speed>"@);
        lemma_holds_within(s.subrange(from, e), r2, seq![], speed_text(video, req) + "</speed>"@);
        assert(s.subrange(from, e) + r2 + seq![] =~= x);
    } else {
        lemma_first_match(s, close_pat(area_name()), e);
        let c = first_match(s, close_pat(area_name()), e)->0;
        let inner0 = s.subrange(e, c);
        let (inner, ad) = adapted_area(inner0, video);
        let next = c + close_pat(area_name()).len();
        let r2 = areas_adapted_text(s, id, video, next);
        assert(x == s.subrange(from, e) + inner + close_pat(area_name()) + r2);
        if ad {
            law_slowed_exactly_when_video_short(inner0, video);
            law_short_video_writes_speed(inner0, video);
            let req = required_ms(inner0);
            lemma_holds_within(
                s.subrange(from, e),
                inner,
                close_pat(area_name()) + r2,
                speed_text(video, req) + "</speed>"@,
            );
            assert(s.subrange(from, e) + inner + (close_pat(area_name()) + r2) =~= x);
        } else {
            law_slowed_template_holds_speed(s, id, video, next);
            let req = choose|req: u64| 0 < video < req && holds_text(r2, speed_text(video, req) + "</speed>"@);
            lemma_holds_within(
                s.subrange(from, e) + inner + close_pat(area_name()),
                r2,
                seq![],
                speed_text(video, req) + "</speed>"@,
            );
            assert(s.subrange(from, e) + inner + close_pat(area_name()) + r2 + seq![] =~= x);
        }
    }
}

} // verus!
