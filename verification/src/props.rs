//! An asset's display properties: normalising them, writing them as a
//! `<property>` element, and storing that element in every area of the asset.
//!
//! Numbers are kept in millionths, the precision the project file writes.

use vstd::prelude::*;
use crate::text::{
    opt_int, chars_of, copy_range, decimal, decimal_i64, find_from, first_match, is_ws, lemma_first_match,
    push_all, push_i32, push_range, push_str, push_u64, string_from_chars, trim, trim_end,
    trim_end_pos, trim_range,
};
use crate::xml::{
    close_pat, close_pattern, escape_text, find_next_tag, lemma_next_tag, next_tag, open_pat,
    open_pattern, push_escaped_text,
};
use crate::attr::{attr_value, attr_value_chars};
use crate::scan::{is_self_closing, self_closing};
use crate::edit::{area_name, asset_id_name, chars_eq, line_start};
use crate::area::{remove_children, remove_children_chars};

verus! {

broadcast use vstd::string::group_string_axioms;

// ---------------------------------------------------------------------------
// Numbers
// ---------------------------------------------------------------------------

/// Six decimal digits of `n < 1_000_000`, with leading zeros.
pub open spec fn pad6(n: nat) -> Seq<char> {
    let d = decimal(n);
    Seq::new((6 - d.len()) as nat, |i: int| '0') + d
}

/// `m` millionths written with six decimals, as `{:.6}` writes the number.
pub open spec fn fixed6(m: int) -> Seq<char> {
    let a = if m < 0 {
        -m
    } else {
        m
    };
    (if m < 0 {
        seq!['-']
    } else {
        seq![]
    }) + decimal((a / 1_000_000) as nat) + seq!['.'] + pad6((a % 1_000_000) as nat)
}

/// `s` without its trailing zeros.
pub open spec fn strip_zeros(s: Seq<char>) -> Seq<char>
    decreases s.len(),
{
    if s.len() > 0 && s.last() == '0' {
        strip_zeros(s.drop_last())
    } else {
        s
    }
}

/// `m` millionths written with at most six decimals and at least one: trailing
/// zeros dropped, a bare `.` completed with `0`.
pub open spec fn property_number(m: int) -> Seq<char> {
    let t = strip_zeros(fixed6(m));
    if t.len() > 0 && t.last() == '.' {
        t.push('0')
    } else {
        t
    }
}

proof fn lemma_decimal_len(n: nat)
    ensures
        1 <= decimal(n).len(),
        n < 10 ==> decimal(n).len() <= 1,
        n < 100 ==> decimal(n).len() <= 2,
        n < 1000 ==> decimal(n).len() <= 3,
        n < 10000 ==> decimal(n).len() <= 4,
        n < 100000 ==> decimal(n).len() <= 5,
        n < 1_000_000 ==> decimal(n).len() <= 6,
    decreases n,
{
    if n >= 10 {
        lemma_decimal_len(n / 10);
    }
}

fn push_pad6(out: &mut Vec<char>, n: u64)
    requires
        n < 1_000_000,
    ensures
        final(out)@ == old(out)@ + pad6(n as nat),
{
    let mut d: Vec<char> = Vec::new();
    push_u64(&mut d, n);
    proof {
        lemma_decimal_len(n as nat);
    }
    assert(d@ =~= decimal(n as nat));
    let mut k = d.len();
    let ghost start = out@;
    while k < 6
        invariant
            d@.len() <= k <= 6,
            out@ == start + Seq::new((k - d@.len()) as nat, |i: int| '0'),
        decreases 6 - k,
    {
        out.push('0');
        k += 1;
        assert(out@ =~= start + Seq::new((k - d@.len()) as nat, |i: int| '0'));
    }
    push_all(out, &d);
    assert(out@ =~= start + pad6(n as nat));
}

/// `value` millionths written as the project file writes a property number:
/// six decimals with trailing zeros dropped, at least one decimal kept.
pub fn format_property_number(value: i64) -> (r: String)
    ensures
        r@ == property_number(value as int),
{
    let mut out: Vec<char> = Vec::new();
    let a: u64 = if value < 0 {
        (0i128 - value as i128) as u64
    } else {
        value as u64
    };
    if value < 0 {
        out.push('-');
    }
    push_u64(&mut out, a / 1_000_000);
    out.push('.');
    push_pad6(&mut out, a % 1_000_000);
    assert(out@ =~= fixed6(value as int));
    let ghost full = out@;
    while out.len() > 0 && out[out.len() - 1] == '0'
        invariant
            strip_zeros(out@) == strip_zeros(full),
        decreases out@.len(),
    {
        let ghost before = out@;
        out.pop();
        assert(out@ =~= before.drop_last());
    }
    assert(out@ == strip_zeros(full));
    if out.len() > 0 && out[out.len() - 1] == '.' {
        out.push('0');
    }
    string_from_chars(out)
}

// ---------------------------------------------------------------------------
// Properties
// ---------------------------------------------------------------------------

/// The display properties of an asset.  Fractional values are in millionths.
pub struct ProjectAssetProperties {
    pub whiteness: i64,
    pub smoothing: i64,
    pub saturation: i64,
    pub skin_tone: i64,
    pub face_detect: i32,
    pub rotation: i64,
    pub lut_style: String,
    pub lut_intensity: i64,
    pub position_x: i64,
    pub position_y: i64,
    pub scale: i64,
    pub canvas_width: u32,
    pub canvas_height: u32,
    pub transform_origin: String,
    pub stabilization: bool,
    pub one_click_beauty: bool,
    pub generatepath: Option<String>,
}

/// `v` within `[lo, hi]`.
pub open spec fn clamp(v: int, lo: int, hi: int) -> int {
    if v < lo {
        lo
    } else if v > hi {
        hi
    } else {
        v
    }
}

fn clamp_i64(v: i64, lo: i64, hi: i64) -> (r: i64)
    requires
        lo <= hi,
    ensures
        r == clamp(v as int, lo as int, hi as int),
{
    if v < lo {
        lo
    } else if v > hi {
        hi
    } else {
        v
    }
}

/// `a` is `b` once its ASCII capitals are lowered.
pub open spec fn ascii_lower_eq(a: Seq<char>, b: Seq<char>) -> bool {
    a.len() == b.len() && forall|i: int|
        0 <= i < a.len() ==> #[trigger] a[i] == b[i] || ('A' <= a[i] && a[i] <= 'Z' && a[i] as u32
            + 32 == b[i] as u32)
}

/// The transform origin is supported: blank or `center` in any ASCII case.
pub open spec fn origin_ok(o: Seq<char>) -> bool {
    trim(o).len() == 0 || ascii_lower_eq(trim(o), "center"@)
}

pub fn ascii_lower_eq_exec(a: &[char], b: &[char]) -> (r: bool)
    ensures
        r == ascii_lower_eq(a@, b@),
{
    if a.len() != b.len() {
        return false;
    }
    let mut i: usize = 0;
    while i < a.len()
        invariant
            a@.len() == b@.len(),
            i <= a@.len(),
            forall|j: int|
                0 <= j < i ==> #[trigger] a@[j] == b@[j] || ('A' <= a@[j] && a@[j] <= 'Z' && a@[j]
                    as u32 + 32 == b@[j] as u32),
        decreases a@.len() - i,
    {
        let c = a[i];
        let d = b[i];
        if !(c == d || ('A' <= c && c <= 'Z' && (c as u32) + 32 == (d as u32))) {
            return false;
        }
        i += 1;
    }
    true
}

/// The properties with every value brought into its range: whiteness,
/// smoothing and LUT intensity within 0..1, saturation within 0..200, skin tone
/// within -1..1, scale within 0.01..10, the canvas within 1..16384 pixels; face
/// detection as 0 or 1; a blank LUT style as `none`; the trimmed generated path,
/// or none when blank.  An error when the transform origin is not `center`.
pub fn normalize_project_asset_properties(properties: ProjectAssetProperties) -> (r: Result<
    ProjectAssetProperties,
    String,
>)
    ensures
        r is Ok <==> origin_ok(properties.transform_origin@),
        r matches Err(m) ==> m@ == "当前仅支持以 center 作为视频变换原点"@,
        r matches Ok(q) ==> {
            &&& q.whiteness == clamp(properties.whiteness as int, 0, 1_000_000)
            &&& q.smoothing == clamp(properties.smoothing as int, 0, 1_000_000)
            &&& q.saturation == clamp(properties.saturation as int, 0, 200_000_000)
            &&& q.skin_tone == clamp(properties.skin_tone as int, -1_000_000, 1_000_000)
            &&& q.face_detect == (if properties.face_detect != 0 {
                1i32
            } else {
                0i32
            })
            &&& q.rotation == properties.rotation
            &&& q.lut_style@ == (if trim(properties.lut_style@).len() == 0 {
                "none"@
            } else {
                trim(properties.lut_style@)
            })
            &&& q.lut_intensity == clamp(properties.lut_intensity as int, 0, 1_000_000)
            &&& q.position_x == properties.position_x
            &&& q.position_y == properties.position_y
            &&& q.scale == clamp(properties.scale as int, 10_000, 10_000_000)
            &&& q.canvas_width == clamp(properties.canvas_width as int, 1, 16_384)
            &&& q.canvas_height == clamp(properties.canvas_height as int, 1, 16_384)
            &&& q.transform_origin@ == "center"@
            &&& q.stabilization == properties.stabilization
            &&& q.one_click_beauty == properties.one_click_beauty
            &&& q.generatepath matches Some(g) ==> properties.generatepath matches Some(h) && g@
                == trim(h@) && g@.len() > 0
            &&& q.generatepath is None ==> (properties.generatepath matches Some(h) ==> trim(
                h@,
            ).len() == 0)
        },
{
    let origin = chars_of(properties.transform_origin.as_str());
    let (oa, ob) = trim_range(&origin, 0, origin.len());
    assert(origin@.subrange(0, origin@.len() as int) =~= origin@);
    let ot = copy_range(&origin, oa, ob);
    if !(oa == ob || ascii_lower_eq_exec(&ot, &chars_of("center"))) {
        return Err("当前仅支持以 center 作为视频变换原点".to_string());
    }
    let lut = chars_of(properties.lut_style.as_str());
    let (la, lb) = trim_range(&lut, 0, lut.len());
    assert(lut@.subrange(0, lut@.len() as int) =~= lut@);
    let lut_style = if la == lb {
        "none".to_string()
    } else {
        string_from_chars(copy_range(&lut, la, lb))
    };
    let generatepath = match &properties.generatepath {
        Some(g) => {
            let gc = chars_of(g.as_str());
            let (ga, gb) = trim_range(&gc, 0, gc.len());
            assert(gc@.subrange(0, gc@.len() as int) =~= gc@);
            if ga == gb {
                None
            } else {
                Some(string_from_chars(copy_range(&gc, ga, gb)))
            }
        },
        None => None,
    };
    let cw = if properties.canvas_width < 1 {
        1
    } else if properties.canvas_width > 16_384 {
        16_384
    } else {
        properties.canvas_width
    };
    let ch = if properties.canvas_height < 1 {
        1
    } else if properties.canvas_height > 16_384 {
        16_384
    } else {
        properties.canvas_height
    };
    Ok(
        ProjectAssetProperties {
            whiteness: clamp_i64(properties.whiteness, 0, 1_000_000),
            smoothing: clamp_i64(properties.smoothing, 0, 1_000_000),
            saturation: clamp_i64(properties.saturation, 0, 200_000_000),
            skin_tone: clamp_i64(properties.skin_tone, -1_000_000, 1_000_000),
            face_detect: if properties.face_detect != 0 {
                1
            } else {
                0
            },
            rotation: properties.rotation,
            lut_style,
            lut_intensity: clamp_i64(properties.lut_intensity, 0, 1_000_000),
            position_x: properties.position_x,
            position_y: properties.position_y,
            scale: clamp_i64(properties.scale, 10_000, 10_000_000),
            canvas_width: cw,
            canvas_height: ch,
            transform_origin: "center".to_string(),
            stabilization: properties.stabilization,
            one_click_beauty: properties.one_click_beauty,
            generatepath,
        },
    )
}


// ---------------------------------------------------------------------------
// The property element
// ---------------------------------------------------------------------------

/// `true` or `false`.
pub open spec fn bool_text(b: bool) -> Seq<char> {
    if b {
        "true"@
    } else {
        "false"@
    }
}

/// The property elements, name and text, in the order the project file keeps
/// them; the generated path last, when there is one.
pub open spec fn property_values(p: ProjectAssetProperties) -> Seq<(Seq<char>, Seq<char>)> {
    let base = seq![
        ("whiteness"@, property_number(p.whiteness as int)),
        ("smoothing"@, property_number(p.smoothing as int)),
        ("saturation"@, property_number(p.saturation as int)),
        ("skin_tone"@, property_number(p.skin_tone as int)),
        ("face_detect"@, decimal_i64(p.face_detect as int)),
        ("rotation"@, property_number(p.rotation as int)),
        ("lut_style"@, p.lut_style@),
        ("lut_intensity"@, property_number(p.lut_intensity as int)),
        ("positionX"@, property_number(p.position_x as int)),
        ("positionY"@, property_number(p.position_y as int)),
        ("scale"@, property_number(p.scale as int)),
        ("canvas_width"@, decimal(p.canvas_width as nat)),
        ("canvas_height"@, decimal(p.canvas_height as nat)),
        ("transform_origin"@, p.transform_origin@),
        ("stabilization"@, bool_text(p.stabilization)),
        ("one_click_beauty"@, bool_text(p.one_click_beauty)),
    ];
    match p.generatepath {
        Some(g) => base.push(("generatepath"@, g@)),
        None => base,
    }
}

/// The element lines `\n{indent}    <name>text</name>` of the values.
pub open spec fn property_lines_xml(values: Seq<(Seq<char>, Seq<char>)>, indent: Seq<char>) -> Seq<
    char,
>
    decreases values.len(),
{
    if values.len() == 0 {
        seq![]
    } else {
        let (name, value) = values.last();
        property_lines_xml(values.drop_last(), indent) + "\n"@ + indent + "    "@ + "<"@ + name
            + ">"@ + escape_text(value) + "</"@ + name + ">"@
    }
}

/// The `<property>` element of the properties, its lines indented under
/// `indent`.
#[verifier::opaque]
pub open spec fn property_xml(p: ProjectAssetProperties, indent: Seq<char>) -> Seq<char> {
    "<property>"@ + property_lines_xml(property_values(p), indent) + "\n"@ + indent
        + "</property>"@
}

fn push_number(out: &mut Vec<char>, v: i64)
    ensures
        final(out)@ == old(out)@ + property_number(v as int),
{
    let t = format_property_number(v);
    crate::text::push_str(out, t.as_str());
}

fn push_bool(out: &mut Vec<char>, b: bool)
    ensures
        final(out)@ == old(out)@ + bool_text(b),
{
    if b {
        push_str(out, "true");
    } else {
        push_str(out, "false");
    }
}

/// The text of each property element, in order.
fn property_value_texts(p: &ProjectAssetProperties) -> (r: Vec<(Vec<char>, Vec<char>)>)
    ensures
        r@.map_values(|x: (Vec<char>, Vec<char>)| (x.0@, x.1@)) == property_values(*p),
{
    let mut r: Vec<(Vec<char>, Vec<char>)> = Vec::new();
    let mut v: Vec<char> = Vec::new();
    push_number(&mut v, p.whiteness);
    r.push((chars_of("whiteness"), v));
    let mut v: Vec<char> = Vec::new();
    push_number(&mut v, p.smoothing);
    r.push((chars_of("smoothing"), v));
    let mut v: Vec<char> = Vec::new();
    push_number(&mut v, p.saturation);
    r.push((chars_of("saturation"), v));
    let mut v: Vec<char> = Vec::new();
    push_number(&mut v, p.skin_tone);
    r.push((chars_of("skin_tone"), v));
    let mut v: Vec<char> = Vec::new();
    push_i32(&mut v, p.face_detect);
    r.push((chars_of("face_detect"), v));
    let mut v: Vec<char> = Vec::new();
    push_number(&mut v, p.rotation);
    r.push((chars_of("rotation"), v));
    r.push((chars_of("lut_style"), chars_of(p.lut_style.as_str())));
    let mut v: Vec<char> = Vec::new();
    push_number(&mut v, p.lut_intensity);
    r.push((chars_of("lut_intensity"), v));
    let mut v: Vec<char> = Vec::new();
    push_number(&mut v, p.position_x);
    r.push((chars_of("positionX"), v));
    let mut v: Vec<char> = Vec::new();
    push_number(&mut v, p.position_y);
    r.push((chars_of("positionY"), v));
    let mut v: Vec<char> = Vec::new();
    push_number(&mut v, p.scale);
    r.push((chars_of("scale"), v));
    let mut v: Vec<char> = Vec::new();
    push_u64(&mut v, p.canvas_width as u64);
    r.push((chars_of("canvas_width"), v));
    let mut v: Vec<char> = Vec::new();
    push_u64(&mut v, p.canvas_height as u64);
    r.push((chars_of("canvas_height"), v));
    r.push((chars_of("transform_origin"), chars_of(p.transform_origin.as_str())));
    let mut v: Vec<char> = Vec::new();
    push_bool(&mut v, p.stabilization);
    r.push((chars_of("stabilization"), v));
    let mut v: Vec<char> = Vec::new();
    push_bool(&mut v, p.one_click_beauty);
    r.push((chars_of("one_click_beauty"), v));
    match &p.generatepath {
        Some(g) => {
            r.push((chars_of("generatepath"), chars_of(g.as_str())));
        },
        None => {},
    }
    assert(r@.map_values(|x: (Vec<char>, Vec<char>)| (x.0@, x.1@)) =~= property_values(*p));
    r
}

fn property_xml_chars(p: &ProjectAssetProperties, indent: &[char]) -> (r: Vec<char>)
    ensures
        r@ == property_xml(*p, indent@),
{
    reveal(property_xml);
    let values = property_value_texts(p);
    let ghost vs = values@.map_values(|x: (Vec<char>, Vec<char>)| (x.0@, x.1@));
    let mut out: Vec<char> = Vec::new();
    push_str(&mut out, "<property>");
    let ghost start = out@;
    let mut i: usize = 0;
    while i < values.len()
        invariant
            i <= values@.len(),
            vs == values@.map_values(|x: (Vec<char>, Vec<char>)| (x.0@, x.1@)),
            out@ == start + property_lines_xml(vs.take(i as int), indent@),
        decreases values@.len() - i,
    {
        assert(vs.take(i + 1).drop_last() =~= vs.take(i as int));
        assert(vs.take(i + 1).last() == (values@[i as int].0@, values@[i as int].1@));
        push_str(&mut out, "\n");
        push_all(&mut out, indent);
        push_str(&mut out, "    ");
        push_str(&mut out, "<");
        push_all(&mut out, &values[i].0);
        push_str(&mut out, ">");
        push_escaped_text(&mut out, &values[i].1);
        push_str(&mut out, "</");
        push_all(&mut out, &values[i].0);
        push_str(&mut out, ">");
        assert(out@ =~= start + property_lines_xml(vs.take(i + 1), indent@));
        i += 1;
    }
    assert(vs.take(i as int) =~= vs);
    push_str(&mut out, "\n");
    push_all(&mut out, indent);
    push_str(&mut out, "</property>");
    assert(out@ =~= property_xml(*p, indent@));
    out
}

/// The `<property>` element of `properties`, each value on a line of its own
/// indented one step under `indent`, the end tag indented by `indent`.
pub fn project_asset_property_xml(properties: &ProjectAssetProperties, indent: &str) -> (r: String)
    ensures
        r@ == property_xml(*properties, indent@),
{
    string_from_chars(property_xml_chars(properties, &chars_of(indent)))
}

// ---------------------------------------------------------------------------
// Storing the property element in areas
// ---------------------------------------------------------------------------

/// `indent` without four trailing spaces, or empty when it does not end so.
pub open spec fn outdent(indent: Seq<char>) -> Seq<char> {
    if indent.len() >= 4 && indent.skip(indent.len() - 4) == "    "@ {
        indent.take(indent.len() - 4)
    } else {
        seq![]
    }
}

/// An area's inner text with its `<property>` elements removed and `property`
/// appended on a line of its own, indented by `indent`, followed by the area's
/// own indentation.
#[verifier::opaque]
pub open spec fn with_area_property(inner: Seq<char>, property: Seq<char>, indent: Seq<char>) -> Seq<
    char,
> {
    let t = trim_end(remove_children(inner, "property"@));
    let t2 = if t.len() > 0 && t.last() == '\n' {
        t
    } else {
        t.push('\n')
    };
    t2 + indent + property + "\n"@ + outdent(indent)
}

fn outdent_chars(indent: &[char]) -> (r: Vec<char>)
    ensures
        r@ == outdent(indent@),
{
    let four = chars_of("    ");
    proof {
        reveal_strlit("    ");
    }
    if indent.len() >= 4 && crate::text::matches_at_exec(indent, &four, indent.len() - 4) {
        assert(indent@.skip(indent@.len() - 4) =~= indent@.subrange(
            indent@.len() - 4,
            indent@.len() as int,
        ));
        copy_range(indent, 0, indent.len() - 4)
    } else {
        proof {
            if indent@.len() >= 4 && indent@.skip(indent@.len() - 4) == "    "@ {
                assert(indent@.subrange(indent@.len() - 4, indent@.len() as int) =~= indent@.skip(
                    indent@.len() - 4,
                ));
            }
        }
        Vec::new()
    }
}

fn with_area_property_chars(inner: &[char], property: &[char], indent: &[char]) -> (r: Vec<char>)
    ensures
        r@ == with_area_property(inner@, property@, indent@),
{
    reveal(with_area_property);
    let removed = remove_children_chars(inner, &chars_of("property"));
    let te = trim_end_pos(&removed, 0, removed.len());
    assert(removed@.subrange(0, removed@.len() as int) =~= removed@);
    let mut out = copy_range(&removed, 0, te);
    if !(out.len() > 0 && out[out.len() - 1] == '\n') {
        out.push('\n');
    }
    push_all(&mut out, indent);
    push_all(&mut out, property);
    push_str(&mut out, "\n");
    push_all(&mut out, &outdent_chars(indent));
    out
}

/// `area_inner` with its `<property>` elements removed and `property_xml`
/// appended on a line of its own, indented by `property_indent`.
pub fn replace_or_append_area_property(area_inner: &str, property_xml: &str, property_indent: &str) -> (r:
    String)
    ensures
        r@ == with_area_property(area_inner@, property_xml@, property_indent@),
{
    string_from_chars(
        with_area_property_chars(
            &chars_of(area_inner),
            &chars_of(property_xml),
            &chars_of(property_indent),
        ),
    )
}

/// The indentation of an area that starts at `t`: the text before it on its line
/// when that is all whitespace, else nothing.
#[verifier::opaque]
pub open spec fn area_indent(s: Seq<char>, t: int) -> Seq<char> {
    let p = s.subrange(line_start(s, t), t);
    if forall|k: int| 0 <= k < p.len() ==> is_ws(#[trigger] p[k]) {
        p
    } else {
        seq![]
    }
}

/// A self-closing area start tag opened up: `/>` and the whitespace around it
/// removed.
#[verifier::opaque]
pub open spec fn opened_tag(tag: Seq<char>) -> Seq<char> {
    let t = trim_end(tag);
    trim_end(t.take(t.len() - 2))
}

/// What replaces the area whose start tag is `s[t..e]`: the tag opened up to
/// hold the property element when self-closing (`c` is `None`), else the tag,
/// its inner text up to `c` with the property element stored, and the end tag.
#[verifier::opaque]
pub open spec fn area_piece(s: Seq<char>, t: int, e: int, c: Option<int>, p: ProjectAssetProperties) -> Seq<
    char,
> {
    let ai = area_indent(s, t);
    let pi = ai + "    "@;
    let px = property_xml(p, pi);
    match c {
        None => opened_tag(s.subrange(t, e)) + ">\n"@ + pi + px + "\n"@ + ai + "</area>"@,
        Some(c) => s.subrange(t, e) + with_area_property(s.subrange(e, c), px, pi) + "</area>"@,
    }
}

/// `s` from `from` on with the properties `p` stored in every `<area>` of the
/// asset `id`; with whether there was such an area.  `None` when such an area,
/// not self-closing, has no end tag.
pub open spec fn with_properties_from(
    s: Seq<char>,
    id: Seq<char>,
    p: ProjectAssetProperties,
    from: int,
) -> Option<(Seq<char>, bool)>
    decreases s.len() - from,
{
    if from < 0 || from > s.len() {
        Some((seq![], false))
    } else {
        match next_tag(s, open_pat(area_name()), from) {
            None => Some((s.skip(from), false)),
            Some((t, e)) => {
                proof {
                    lemma_next_tag(s, open_pat(area_name()), from);
                    lemma_first_match(s, close_pat(area_name()), e);
                }
                let tag = s.subrange(t, e);
                if attr_value(tag, asset_id_name()) != Some(id) {
                    crate::area::prefixed2(s.subrange(from, e), false, with_properties_from(s, id, p, e))
                } else if self_closing(tag) {
                    crate::area::prefixed2(
                        s.subrange(from, t) + area_piece(s, t, e, None, p),
                        true,
                        with_properties_from(s, id, p, e),
                    )
                } else {
                    match first_match(s, close_pat(area_name()), e) {
                        None => None,
                        Some(c) => crate::area::prefixed2(
                            s.subrange(from, t) + area_piece(s, t, e, Some(c), p),
                            true,
                            with_properties_from(s, id, p, c + close_pat(area_name()).len()),
                        ),
                    }
                }
            },
        }
    }
}

fn area_indent_chars(s: &[char], t: usize) -> (r: Vec<char>)
    requires
        t <= s@.len(),
    ensures
        r@ == area_indent(s@, t as int),
{
    reveal(area_indent);
    let nl = vec!['\n'];
    assert(nl@ =~= seq!['\n']);
    proof {
        crate::attr::lemma_last_match_bound(s@, seq!['\n'], t as int);
    }
    let ls = match crate::text::rfind_before(s, &nl, t) {
        Some(i) => i + 1,
        None => 0,
    };
    let p = copy_range(s, ls, t);
    let mut k: usize = 0;
    while k < p.len()
        invariant
            k <= p@.len(),
            p@ == s@.subrange(line_start(s@, t as int), t as int),
            forall|j: int| 0 <= j < k ==> is_ws(#[trigger] p@[j]),
        decreases p@.len() - k,
    {
        proof {
            reveal(area_indent);
        }
        if !crate::text::is_whitespace(p[k]) {
            assert(!is_ws(p@[k as int]));
            let r: Vec<char> = Vec::new();
            assert(r@ =~= area_indent(s@, t as int));
            return r;
        }
        k += 1;
    }
    p
}

fn opened_tag_chars(s: &[char], t: usize, e: usize) -> (r: Vec<char>)
    requires
        t <= e <= s@.len(),
        self_closing(s@.subrange(t as int, e as int)),
    ensures
        r@ == opened_tag(s@.subrange(t as int, e as int)),
{
    reveal(opened_tag);
    let a = trim_end_pos(s, t, e);
    let b = trim_end_pos(s, t, a - 2);
    assert(s@.subrange(t as int, a as int).take(a - t - 2) =~= s@.subrange(t as int, a - 2));
    copy_range(s, t, b)
}

fn area_piece_chars(s: &[char], t: usize, e: usize, c: Option<usize>, p: &ProjectAssetProperties) -> (r: Vec<char>)
    requires
        t <= e <= s@.len(),
        c is None ==> self_closing(s@.subrange(t as int, e as int)),
        c matches Some(c) ==> e <= c <= s@.len(),
    ensures
        r@ == area_piece(s@, t as int, e as int, opt_int(c), *p),
{
    reveal(area_piece);
    let ai = area_indent_chars(s, t);
    let mut pi: Vec<char> = Vec::new();
    push_all(&mut pi, &ai);
    push_str(&mut pi, "    ");
    let px = property_xml_chars(p, &pi);
    let mut out: Vec<char> = Vec::new();
    match c {
        None => {
            push_all(&mut out, &opened_tag_chars(s, t, e));
            push_str(&mut out, ">\n");
            push_all(&mut out, &pi);
            push_all(&mut out, &px);
            push_str(&mut out, "\n");
            push_all(&mut out, &ai);
            push_str(&mut out, "</area>");
        },
        Some(c) => {
            let inner = copy_range(s, e, c);
            let updated = with_area_property_chars(&inner, &px, &pi);
            push_range(&mut out, s, t, e);
            push_all(&mut out, &updated);
            push_str(&mut out, "</area>");
        },
    }
    out
}

fn with_properties_chars(s: &[char], id: &[char], p: &ProjectAssetProperties) -> (r: Option<
    (Vec<char>, bool),
>)
    ensures
        match r {
            None => with_properties_from(s@, id@, *p, 0) is None,
            Some((x, m)) => with_properties_from(s@, id@, *p, 0) == Some((x@, m)),
        },
{
    let area = chars_of("area");
    let open = open_pattern(&area);
    let close = close_pattern(&area);
    let aid = chars_of("asset-id");
    proof {
        reveal_strlit("area");
        reveal_strlit("asset-id");
        assert(area@ =~= area_name());
        assert(aid@ =~= asset_id_name());
    }
    let slen = s.len();
    let mut out: Vec<char> = Vec::new();
    let mut matched = false;
    let mut pos: usize = 0;
    loop
        invariant
            slen == s@.len(),
            pos <= s@.len(),
            open@ == open_pat(area_name()),
            close@ == close_pat(area_name()),
            aid@ == asset_id_name(),
            with_properties_from(s@, id@, *p, 0) == crate::area::prefixed2(
                out@,
                matched,
                with_properties_from(s@, id@, *p, pos as int),
            ),
        decreases s@.len() - pos,
    {
        let ghost before = out@;
        match find_next_tag(s, &open, pos) {
            None => {
                push_range(&mut out, s, pos, s.len());
                assert(out@ =~= before + s@.skip(pos as int));
                return Some((out, matched));
            },
            Some((t, e)) => {
                proof {
                    lemma_next_tag(s@, open@, pos as int);
                    lemma_first_match(s@, close@, e as int);
                }
                let tag = copy_range(s, t, e);
                if !crate::area::attr_is(&tag, &aid, id) {
                    push_range(&mut out, s, pos, e);
                    proof {
                        crate::area::lemma_prefixed2_assoc(before, matched, s@.subrange(pos as int, e as int), false, with_properties_from(s@, id@, *p, e as int));
                    }
                    pos = e;
                } else if is_self_closing(s, t, e) {
                    let piece = area_piece_chars(s, t, e, None, p);
                    push_range(&mut out, s, pos, t);
                    push_all(&mut out, &piece);
                    proof {
                        crate::area::lemma_prefixed2_assoc(before, matched, s@.subrange(pos as int, t as int) + piece@, true, with_properties_from(s@, id@, *p, e as int));
                    }
                    matched = true;
                    pos = e;
                } else {
                    match find_from(s, &close, e) {
                        None => {
                            return None;
                        },
                        Some(c) => {
                            let piece = area_piece_chars(s, t, e, Some(c), p);
                            push_range(&mut out, s, pos, t);
                            push_all(&mut out, &piece);
                            proof {
                                crate::area::lemma_prefixed2_assoc(before, matched, s@.subrange(pos as int, t as int) + piece@, true, with_properties_from(s@, id@, *p, c + close@.len()));
                            }
                            matched = true;
                            pos = c + close.len();
                        },
                    }
                }
            },
        }
    }
}

/// `template_xml` with the `<property>` element of `properties` stored in every
/// `<area>` of the asset `asset_id`: replacing its property elements, or opening
/// a self-closing area to hold it.  An error when such an area has no end tag, or
/// there is none.
pub fn update_template_asset_properties(
    template_xml: &str,
    asset_id: &str,
    properties: &ProjectAssetProperties,
) -> (r: Result<String, String>)
    ensures
        match with_properties_from(template_xml@, asset_id@, *properties, 0) {
            None => r matches Err(m) && m@ == "template.xml 中的 area 节点未正确闭合"@,
            Some((x, matched)) => if matched {
                r matches Ok(y) && y@ == x
            } else {
                r matches Err(m) && m@ == "template.xml 中未找到使用当前 assetId 的 area"@
            },
        },
{
    let s = chars_of(template_xml);
    let id = chars_of(asset_id);
    match with_properties_chars(&s, &id, properties) {
        None => Err("template.xml 中的 area 节点未正确闭合".to_string()),
        Some((x, matched)) => {
            if matched {
                Ok(string_from_chars(x))
            } else {
                Err("template.xml 中未找到使用当前 assetId 的 area".to_string())
            }
        },
    }
}

} // verus!
