//! Slowing an area's playback down when a replacement video is shorter than the
//! area needs, and restoring the original speed when it no longer is.

use vstd::prelude::*;
use crate::text::{
    chars_of, decimal, digit_char, first_match, is_ws, last_match, lemma_first_match, opt_int,
    parse_u64, parse_u64_spec, push_all, push_range, push_str, push_u64, rfind_before,
    string_from_chars, trim, trim_end, trim_end_pos, trim_range, copy_range, find_from,
};
use crate::xml::{close_pat, lemma_next_tag, next_tag, open_pat, open_pattern, find_next_tag};
use crate::attr::{
    attr_value, attr_value_chars, remove_attr, remove_attr_chars, replace_or_insert_attr,
    replace_or_insert_attr_chars,
};
use crate::scan::{
    child_values_chars, child_values_from, first_range_from, element_range_chars,
    lemma_first_range_from, self_closing, is_self_closing, char_views,
};
use crate::edit::{area_name, asset_id_name, chars_eq};

verus! {

broadcast use vstd::string::group_string_axioms;

/// How long the area needs its video to be: the first non-empty `<duration>` of
/// its first `<source>` element, as a whole number, or 0.
pub open spec fn required_ms(s: Seq<char>) -> u64 {
    match first_range_from(s, "source"@, 0) {
        None => 0,
        Some((_, oe, cs, _)) => {
            let vals = child_values_from(s.subrange(oe, cs), "duration"@, 0);
            if vals.len() == 0 {
                0
            } else {
                match parse_u64_spec(vals[0]) {
                    Some(n) => n,
                    None => 0,
                }
            }
        },
    }
}

/// Three decimal digits of `n < 1000`, with leading zeros.
pub open spec fn pad3(n: nat) -> Seq<char> {
    seq![digit_char(n / 100), digit_char((n / 10) % 10), digit_char(n % 10)]
}

/// The speed `video / required` in thousandths, at least one thousandth.
pub open spec fn speed_thousandths(video: u64, required: u64) -> nat {
    let t = (video * 1000) / (required as int);
    if t >= 1 {
        t as nat
    } else {
        1
    }
}

/// The speed written as `units.ttt`.
pub open spec fn speed_text(video: u64, required: u64) -> Seq<char> {
    let t = speed_thousandths(video, required);
    decimal(t / 1000) + seq!['.'] + pad3(t % 1000)
}

/// The indentation before the `<transform>` that starts at `ts`: the text after
/// the last line break before it, when that text is all whitespace.
pub open spec fn transform_indent(s: Seq<char>, ts: int) -> Seq<char> {
    match last_match(s, seq!['\n'], ts) {
        None => seq![],
        Some(i) => {
            let ind = s.subrange(i + 1, ts);
            if forall|k: int| 0 <= k < ind.len() ==> is_ws(#[trigger] ind[k]) {
                ind
            } else {
                seq![]
            }
        },
    }
}

pub open spec fn auto_attr() -> Seq<char> {
    "data-auto-slowdown"@
}

pub open spec fn original_attr() -> Seq<char> {
    "data-original-speed"@
}

/// The area with its `<speed>` element (at `ss..se` of the transform's inner
/// text `ti`, which starts at `toe`) rewritten: slowed down to `st`, or restored
/// to its original speed.  Unchanged when it needs neither.
pub open spec fn speed_rewritten(
    s: Seq<char>,
    toe: int,
    ti: Seq<char>,
    ss: int,
    soe: int,
    scs: int,
    se: int,
    slow: bool,
    st: Seq<char>,
) -> (Seq<char>, bool) {
    let stag = ti.subrange(ss, soe);
    let cur = trim(ti.subrange(soe, scs));
    let was = attr_value(stag, auto_attr()) == Some("true"@);
    if !slow && !was {
        (s, false)
    } else {
        let orig0 = if was {
            match attr_value(stag, original_attr()) {
                Some(v) => v,
                None => cur,
            }
        } else {
            cur
        };
        let orig = if trim(orig0).len() == 0 {
            "1"@
        } else {
            orig0
        };
        let utag = if slow {
            replace_or_insert_attr(
                replace_or_insert_attr(stag, auto_attr(), "true"@),
                original_attr(),
                orig,
            )
        } else {
            remove_attr(remove_attr(stag, auto_attr()), original_attr())
        };
        let uval = if slow {
            st
        } else {
            orig
        };
        (s.take(toe + ss) + utag + uval + "</speed>"@ + s.skip(toe + se), slow)
    }
}

/// The area with a slowed-down `<speed>` added at the end of the content of its
/// `<transform>` (which starts at `ts`, its inner text `ti` at `toe`), on a line
/// of its own indented one step deeper than the transform.
pub open spec fn speed_inserted(s: Seq<char>, ts: int, toe: int, ti: Seq<char>, st: Seq<char>) -> Seq<
    char,
> {
    let ins = "\n"@ + transform_indent(s, ts) + "    "@
        + "<speed data-auto-slowdown=\"true\" data-original-speed=\"1\">"@ + st + "</speed>"@;
    let at = toe + trim_end(ti).len();
    s.take(at) + ins + s.skip(at)
}

/// The area with a new `<transform>` holding a slowed-down `<speed>`, added
/// before its first `<destination>`, else its first `<property>`, else at the end.
pub open spec fn transform_inserted(s: Seq<char>, st: Seq<char>) -> Seq<char> {
    let at = match first_range_from(s, "destination"@, 0) {
        Some((d, _, _, _)) => d,
        None => match first_range_from(s, "property"@, 0) {
            Some((p, _, _, _)) => p,
            None => s.len() as int,
        },
    };
    s.take(at) + "<transform><speed data-auto-slowdown=\"true\" data-original-speed=\"1\">"@ + st
        + "</speed></transform>\n"@ + s.skip(at)
}

/// The area's inner text adapted to a video of `video` milliseconds, and whether
/// the area is slowed down afterwards.
///
/// When the video is shorter than the area requires, the first `<speed>` of the
/// first `<transform>` is set to the ratio and marked with the original speed;
/// a missing `<speed>` or `<transform>` is added.  When it is not shorter, a speed
/// that was slowed down this way gets its original value back.  Otherwise, or
/// when either duration is unknown, the text is unchanged.
#[verifier::opaque]
pub open spec fn adapted_area(s: Seq<char>, video: u64) -> (Seq<char>, bool) {
    let req = required_ms(s);
    if req == 0 || video == 0 {
        (s, false)
    } else {
        let slow = video < req;
        let st = speed_text(video, req);
        match first_range_from(s, "transform"@, 0) {
            Some((ts, toe, tcs, _)) => {
                let ti = s.subrange(toe, tcs);
                match first_range_from(ti, "speed"@, 0) {
                    Some((ss, soe, scs, se)) => speed_rewritten(s, toe, ti, ss, soe, scs, se, slow, st),
                    None => if slow {
                        (speed_inserted(s, ts, toe, ti, st), true)
                    } else {
                        (s, false)
                    },
                }
            },
            None => if !slow {
                (s, false)
            } else {
                (transform_inserted(s, st), true)
            },
        }
    }
}

fn required_ms_exec(s: &[char]) -> (r: u64)
    ensures
        r == required_ms(s@),
{
    let source = chars_of("source");
    let duration = chars_of("duration");
    proof {
        lemma_first_range_from(s@, "source"@, 0);
    }
    match element_range_chars(s, &source) {
        None => 0,
        Some((_, oe, cs, _)) => {
            let inner = copy_range(s, oe, cs);
            let vals = child_values_chars(&inner, &duration);
            if vals.len() == 0 {
                0
            } else {
                assert(char_views(vals@)[0] == vals@[0]@);
                match parse_u64(&vals[0], 0, vals[0].len()) {
                    Some(n) => {
                        assert(vals@[0]@.subrange(0, vals@[0]@.len() as int) =~= vals@[0]@);
                        n
                    },
                    None => {
                        assert(vals@[0]@.subrange(0, vals@[0]@.len() as int) =~= vals@[0]@);
                        0
                    },
                }
            }
        },
    }
}

fn push_pad3(out: &mut Vec<char>, n: u64)
    requires
        n < 1000,
    ensures
        final(out)@ == old(out)@ + pad3(n as nat),
{
    let mut d: Vec<char> = Vec::new();
    push_u64(&mut d, n / 100);
    push_u64(&mut d, (n / 10) % 10);
    push_u64(&mut d, n % 10);
    assert(d@ =~= pad3(n as nat));
    push_all(out, &d);
}

fn speed_text_exec(video: u64, required: u64) -> (r: Vec<char>)
    requires
        required > 0,
    ensures
        r@ == speed_text(video, required),
{
    let t0: u128 = (video as u128 * 1000) / (required as u128);
    let t: u128 = if t0 >= 1 {
        t0
    } else {
        1
    };
    assert(t == speed_thousandths(video, required));
    assert(t / 1000 <= video) by (nonlinear_arith)
        requires
            t0 == (video * 1000) / (required as int),
            required >= 1,
            t == if t0 >= 1 {
                t0
            } else {
                1
            },
    ;
    let mut out: Vec<char> = Vec::new();
    push_u64(&mut out, (t / 1000) as u64);
    out.push('.');
    push_pad3(&mut out, (t % 1000) as u64);
    assert(out@ =~= speed_text(video, required));
    out
}

fn transform_indent_exec(s: &[char], ts: usize) -> (r: Vec<char>)
    requires
        ts <= s@.len(),
    ensures
        r@ == transform_indent(s@, ts as int),
{
    let nl = vec!['\n'];
    assert(nl@ =~= seq!['\n']);
    proof {
        crate::attr::lemma_last_match_bound(s@, seq!['\n'], ts as int);
    }
    match rfind_before(s, &nl, ts) {
        None => Vec::new(),
        Some(i) => {
            let ind = copy_range(s, i + 1, ts);
            let mut k: usize = 0;
            while k < ind.len()
                invariant
                    k <= ind@.len(),
                    i + 1 <= ts <= s@.len(),
                    ind@ == s@.subrange(i + 1, ts as int),
                    opt_int(Some(i)) == last_match(s@, seq!['\n'], ts as int),
                    forall|j: int| 0 <= j < k ==> is_ws(#[trigger] ind@[j]),
                decreases ind@.len() - k,
            {
                if !crate::text::is_whitespace(ind[k]) {
                    assert(!is_ws(s@.subrange(i + 1, ts as int)[k as int]));
                    let r: Vec<char> = Vec::new();
                    assert(r@ =~= transform_indent(s@, ts as int));
                    return r;
                }
                k += 1;
            }
            ind
        },
    }
}

fn push_speed_open(out: &mut Vec<char>)
    ensures
        final(out)@ == old(out)@ + "<speed data-auto-slowdown=\"true\" data-original-speed=\"1\">"@,
{
    push_str(out, "<speed data-auto-slowdown=\"true\" data-original-speed=\"1\">");
}

fn copy_all(s: &[char]) -> (out: Vec<char>)
    ensures
        out@ == s@,
{
    let mut out: Vec<char> = Vec::new();
    push_all(&mut out, s);
    assert(out@ =~= s@);
    out
}

fn rewrite_speed(
    s: &[char],
    toe: usize,
    ti: &[char],
    ss: usize,
    soe: usize,
    scs: usize,
    se: usize,
    slow: bool,
    st: &[char],
) -> (r: (Vec<char>, bool))
    requires
        ss <= soe <= scs <= se <= ti@.len(),
        toe + ti@.len() <= s@.len(),
    ensures
        (r.0@, r.1) == speed_rewritten(s@, toe as int, ti@, ss as int, soe as int, scs as int, se as int, slow, st@),
{
    let slen = s.len();
    let stag = copy_range(ti, ss, soe);
    let (ca, cb) = trim_range(ti, soe, scs);
    let cur = copy_range(ti, ca, cb);
    let auto = chars_of("data-auto-slowdown");
    let original = chars_of("data-original-speed");
    let true_text = chars_of("true");
    proof {
        reveal_strlit("data-auto-slowdown");
        reveal_strlit("data-original-speed");
    }
    let was = match attr_value_chars(&stag, &auto) {
        Some(v) => chars_eq(&v, &true_text),
        None => false,
    };
    if !slow && !was {
        return (copy_all(s), false);
    }
    let orig0 = if was {
        match attr_value_chars(&stag, &original) {
            Some(v) => v,
            None => cur,
        }
    } else {
        cur
    };
    let (oa, ob) = trim_range(&orig0, 0, orig0.len());
    assert(orig0@.subrange(0, orig0@.len() as int) =~= orig0@);
    let orig = if oa == ob {
        chars_of("1")
    } else {
        orig0
    };
    let utag = if slow {
        let t1 = replace_or_insert_attr_chars(&stag, &auto, &true_text);
        replace_or_insert_attr_chars(&t1, &original, &orig)
    } else {
        let t1 = remove_attr_chars(&stag, &auto);
        remove_attr_chars(&t1, &original)
    };
    let mut out: Vec<char> = Vec::new();
    push_range(&mut out, s, 0, toe + ss);
    push_all(&mut out, &utag);
    if slow {
        push_all(&mut out, st);
    } else {
        push_all(&mut out, &orig);
    }
    push_str(&mut out, "</speed>");
    push_range(&mut out, s, toe + se, s.len());
    assert(s@.subrange(0, toe + ss) =~= s@.take(toe + ss));
    assert(s@.subrange(toe + se, s@.len() as int) =~= s@.skip(toe + se));
    assert(out@ =~= speed_rewritten(s@, toe as int, ti@, ss as int, soe as int, scs as int, se as int, slow, st@).0);
    (out, slow)
}

fn insert_speed(s: &[char], ts: usize, toe: usize, ti: &[char], st: &[char]) -> (r: Vec<char>)
    requires
        ts <= toe,
        toe + ti@.len() <= s@.len(),
    ensures
        r@ == speed_inserted(s@, ts as int, toe as int, ti@, st@),
{
    let slen = s.len();
    let indent = transform_indent_exec(s, ts);
    let te = trim_end_pos(ti, 0, ti.len());
    proof {
        assert(ti@.subrange(0, ti@.len() as int) =~= ti@);
    }
    let at = toe + te;
    let mut out: Vec<char> = Vec::new();
    push_range(&mut out, s, 0, at);
    push_str(&mut out, "\n");
    push_all(&mut out, &indent);
    push_str(&mut out, "    ");
    push_speed_open(&mut out);
    push_all(&mut out, st);
    push_str(&mut out, "</speed>");
    push_range(&mut out, s, at, s.len());
    assert(s@.subrange(0, at as int) =~= s@.take(at as int));
    assert(s@.subrange(at as int, s@.len() as int) =~= s@.skip(at as int));
    assert(out@ =~= speed_inserted(s@, ts as int, toe as int, ti@, st@));
    out
}

fn insert_transform(s: &[char], st: &[char]) -> (r: Vec<char>)
    ensures
        r@ == transform_inserted(s@, st@),
{
    let destination = chars_of("destination");
    let property = chars_of("property");
    proof {
        lemma_first_range_from(s@, "destination"@, 0);
        lemma_first_range_from(s@, "property"@, 0);
    }
    let at = match element_range_chars(s, &destination) {
        Some((d, _, _, _)) => d,
        None => match element_range_chars(s, &property) {
            Some((p, _, _, _)) => p,
            None => s.len(),
        },
    };
    let mut out: Vec<char> = Vec::new();
    push_range(&mut out, s, 0, at);
    push_str(&mut out, "<transform><speed data-auto-slowdown=\"true\" data-original-speed=\"1\">");
    push_all(&mut out, st);
    push_str(&mut out, "</speed></transform>\n");
    push_range(&mut out, s, at, s.len());
    assert(s@.subrange(0, at as int) =~= s@.take(at as int));
    assert(s@.subrange(at as int, s@.len() as int) =~= s@.skip(at as int));
    assert(out@ =~= transform_inserted(s@, st@));
    out
}

/// `area_inner` adapted to a replacement video of `video_duration_ms`
/// milliseconds (see `adapted_area`), and whether the area is slowed down.
pub fn adapt_area_transform_speed(area_inner: &[char], video_duration_ms: u64) -> (r: (
    Vec<char>,
    bool,
))
    ensures
        (r.0@, r.1) == adapted_area(area_inner@, video_duration_ms),
{
    reveal(adapted_area);
    let s = area_inner;
    let req = required_ms_exec(s);
    if req == 0 || video_duration_ms == 0 {
        return (copy_all(s), false);
    }
    let slow = video_duration_ms < req;
    let st = speed_text_exec(video_duration_ms, req);
    let transform = chars_of("transform");
    let speed = chars_of("speed");
    proof {
        lemma_first_range_from(s@, "transform"@, 0);
    }
    match element_range_chars(s, &transform) {
        Some((ts, toe, tcs, _)) => {
            let ti = copy_range(s, toe, tcs);
            proof {
                lemma_first_range_from(ti@, "speed"@, 0);
            }
            match element_range_chars(&ti, &speed) {
                Some((ss, soe, scs, se)) => rewrite_speed(s, toe, &ti, ss, soe, scs, se, slow, &st),
                None => {
                    if slow {
                        (insert_speed(s, ts, toe, &ti, &st), true)
                    } else {
                        (copy_all(s), false)
                    }
                },
            }
        },
        None => {
            if !slow {
                (copy_all(s), false)
            } else {
                (insert_transform(s, &st), true)
            }
        },
    }
}


/// Prepends text and flags to the result of a scan.
pub open spec fn prefixed(
    prefix: Seq<char>,
    m0: bool,
    a0: bool,
    r: Option<(Seq<char>, bool, bool)>,
) -> Option<(Seq<char>, bool, bool)> {
    match r {
        None => None,
        Some((rest, m, a)) => Some((prefix + rest, m0 || m, a0 || a)),
    }
}

/// `s` from `from` on with every `<area>` of the asset `id` that has content
/// adapted to a video of `video` milliseconds; with whether there was such an
/// area and whether one is slowed down.  `None` when such an area has no end tag.
pub open spec fn adapt_areas_from(s: Seq<char>, id: Seq<char>, video: u64, from: int) -> Option<
    (Seq<char>, bool, bool),
>
    decreases s.len() - from,
{
    if from < 0 || from > s.len() {
        Some((seq![], false, false))
    } else {
        match next_tag(s, open_pat(area_name()), from) {
            None => Some((s.skip(from), false, false)),
            Some((t, e)) => {
                proof {
                    lemma_next_tag(s, open_pat(area_name()), from);
                }
                let tag = s.subrange(t, e);
                if attr_value(tag, asset_id_name()) != Some(id) || self_closing(tag) {
                    prefixed(s.subrange(from, e), false, false, adapt_areas_from(s, id, video, e))
                } else {
                    match first_match(s, close_pat(area_name()), e) {
                        None => None,
                        Some(c) => {
                            proof {
                                lemma_first_match(s, close_pat(area_name()), e);
                            }
                            let (inner, ad) = adapted_area(s.subrange(e, c), video);
                            prefixed(
                                s.subrange(from, e) + inner + close_pat(area_name()),
                                true,
                                ad,
                                adapt_areas_from(s, id, video, c + close_pat(area_name()).len()),
                            )
                        },
                    }
                }
            },
        }
    }
}

proof fn lemma_prefixed_assoc(
    a: Seq<char>,
    m0: bool,
    a0: bool,
    b: Seq<char>,
    m1: bool,
    a1: bool,
    r: Option<(Seq<char>, bool, bool)>,
)
    ensures
        prefixed(a, m0, a0, prefixed(b, m1, a1, r)) == prefixed(a + b, m0 || m1, a0 || a1, r),
{
    if let Some((rest, m, x)) = r {
        assert(a + (b + rest) =~= (a + b) + rest);
    }
}

/// `template_xml` with each `<area>` of the asset `asset_id` adapted to a
/// replacement video of `video_duration_ms` milliseconds, and whether any area is
/// slowed down.  An error when such an area has no end tag, or there is none.
fn adapt_areas_chars(s: &[char], id: &[char], video_duration_ms: u64) -> (r: Option<
    (Vec<char>, bool, bool),
>)
    ensures
        match r {
            None => adapt_areas_from(s@, id@, video_duration_ms, 0) is None,
            Some((x, m, a)) => adapt_areas_from(s@, id@, video_duration_ms, 0) == Some(
                (x@, m, a),
            ),
        },
{
    let area = vec!['a', 'r', 'e', 'a'];
    assert(area@ =~= area_name());
    let open = open_pattern(&area);
    let close = crate::xml::close_pattern(&area);
    let aid = chars_of("asset-id");
    proof {
        reveal_strlit("asset-id");
        assert(aid@ =~= asset_id_name());
    }
    let slen = s.len();
    let mut out: Vec<char> = Vec::new();
    let mut matched = false;
    let mut adapted = false;
    let mut pos: usize = 0;
    loop
        invariant
            slen == s@.len(),
            pos <= s@.len(),
            open@ == open_pat(area_name()),
            close@ == close_pat(area_name()),
            aid@ == asset_id_name(),
            adapt_areas_from(s@, id@, video_duration_ms, 0) == prefixed(
                out@,
                matched,
                adapted,
                adapt_areas_from(s@, id@, video_duration_ms, pos as int),
            ),
        decreases s@.len() - pos,
    {
        match find_next_tag(s, &open, pos) {
            None => {
                let ghost before = out@;
                assert(adapt_areas_from(s@, id@, video_duration_ms, pos as int) == Some(
                    (s@.skip(pos as int), false, false),
                ));
                push_range(&mut out, s, pos, s.len());
                assert(out@ =~= before + s@.skip(pos as int));
                return Some((out, matched, adapted));
            },
            Some((t, e)) => {
                proof {
                    lemma_next_tag(s@, open@, pos as int);
                }
                let tag = copy_range(s, t, e);
                let same = match attr_value_chars(&tag, &aid) {
                    Some(v) => chars_eq(&v, id),
                    None => false,
                };
                let ghost before = out@;
                let ghost tg = s@.subrange(t as int, e as int);
                assert(tag@ == tg);
                assert(same == (attr_value(tg, asset_id_name()) == Some(id@)));
                if !same || is_self_closing(s, t, e) {
                    push_range(&mut out, s, pos, e);
                    proof {
                        lemma_prefixed_assoc(
                            before,
                            matched,
                            adapted,
                            s@.subrange(pos as int, e as int),
                            false,
                            false,
                            adapt_areas_from(s@, id@, video_duration_ms, e as int),
                        );
                    }
                    pos = e;
                } else {
                    match find_from(s, &close, e) {
                        None => {
                            assert(adapt_areas_from(s@, id@, video_duration_ms, pos as int) is None);
                            return None;
                        },
                        Some(c) => {
                            proof {
                                lemma_first_match(s@, close@, e as int);
                            }
                            let inner = copy_range(s, e, c);
                            let (updated, ad) = adapt_area_transform_speed(&inner, video_duration_ms);
                            push_range(&mut out, s, pos, e);
                            push_all(&mut out, &updated);
                            push_all(&mut out, &close);
                            assert(out@ =~= before + (s@.subrange(pos as int, e as int) + updated@
                                + close_pat(area_name())));
                            proof {
                                lemma_prefixed_assoc(
                                    before,
                                    matched,
                                    adapted,
                                    s@.subrange(pos as int, e as int) + updated@ + close_pat(
                                        area_name(),
                                    ),
                                    true,
                                    ad,
                                    adapt_areas_from(s@, id@, video_duration_ms, c + close@.len()),
                                );
                            }
                            matched = true;
                            adapted = adapted || ad;
                            pos = c + close.len();
                        },
                    }
                }
            },
        }
    }
}

/// `template_xml` with each `<area>` of the asset `asset_id` adapted to a
/// replacement video of `video_duration_ms` milliseconds, and whether any area is
/// slowed down.  An error when such an area has no end tag, or there is none.
pub fn adapt_template_asset_speeds(template_xml: &str, asset_id: &str, video_duration_ms: u64) -> (r:
    Result<(String, bool), String>)
    ensures
        match adapt_areas_from(template_xml@, asset_id@, video_duration_ms, 0) {
            None => r matches Err(m) && m@ == "template.xml 中的 area 节点未正确闭合"@,
            Some((x, matched, adapted)) => if matched {
                r matches Ok((y, b)) && y@ == x && b == adapted
            } else {
                r matches Err(m) && m@ == "template.xml 中未找到使用当前 assetId 的 area"@
            },
        },
{
    let s = chars_of(template_xml);
    let id = chars_of(asset_id);
    match adapt_areas_chars(&s, &id, video_duration_ms) {
        None => Err("template.xml 中的 area 节点未正确闭合".to_string()),
        Some((x, matched, adapted)) => {
            if matched {
                Ok((string_from_chars(x), adapted))
            } else {
                Err("template.xml 中未找到使用当前 assetId 的 area".to_string())
            }
        },
    }
}

} // verus!
