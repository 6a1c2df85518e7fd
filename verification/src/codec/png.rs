//! The PNG export model: the options of a grid atlas, where each exported
//! frame lands, and the sidecar manifest in its JSON form.
//!
//! Packing is deliberately boring: a fixed-cell grid with a caller-chosen
//! column count and derived row count. No bin-packing, no trimming, no
//! rotation — a consumer can compute a frame's rect from its index alone,
//! and the manifest spells it out anyway.
use vstd::prelude::*;
use vstd::arithmetic::div_mod::lemma_fundamental_div_mod_converse;
use vstd::string::{StrSliceExecFns, StringExecFns};

use crate::document::sprite::SpriteModel;
use crate::document::tag::TagModel;
use crate::document::{FrameIndex, Sprite};
use crate::text::same_chars;

verus! {

/// Errors raised by the PNG export path.
#[derive(Debug)]
pub enum ExportError {
    /// The `png` encoder rejected the buffer or failed while writing.
    Encode(String),
    /// The selected frame range is empty — either the sprite has no frames
    /// at all, or the requested tag covers none.
    NoFrames,
    /// `AtlasOptions::columns` was zero. A grid needs at least one column.
    InvalidColumns,
    /// [`AtlasOptions::tag`] named a tag that is not on the sprite.
    TagNotFound {
        /// The requested tag name.
        name: String,
    },
    /// A tag's `from..=to` range is not a valid range over the sprite's
    /// frames (inverted, or reaching past the last frame).
    TagRangeInvalid {
        /// The requested tag name.
        name: String,
        /// The tag's first frame.
        from: u32,
        /// The tag's last frame.
        to: u32,
        /// Number of frames on the sprite.
        frames: u32,
    },
    /// The derived atlas is larger than an addressable RGBA8 buffer.
    AtlasTooLarge {
        /// Derived atlas width in pixels.
        width: u64,
        /// Derived atlas height in pixels.
        height: u64,
    },
}

/// Knobs for a grid atlas export.
#[derive(Debug, Clone, PartialEq, Eq)]
pub struct AtlasOptions {
    /// Requested number of grid columns, clamped down to the number of
    /// exported frames; rows are derived as `ceil(frames / columns)`.
    pub columns: u32,
    /// When `Some`, export only the frames covered by the named tag
    /// (inclusive of both endpoints); when `None`, every frame in playback
    /// order.
    pub tag: Option<String>,
}

impl AtlasOptions {
    /// Options for an every-frame atlas with the given column count.
    pub fn new(columns: u32) -> (o: Self)
        ensures
            o.columns == columns,
            o.tag is None,
    {
        AtlasOptions { columns, tag: None }
    }

    /// Restrict the export to the frames of the named tag.
    pub fn with_tag(self, name: &str) -> (o: Self)
        ensures
            o.columns == self.columns,
            o.tag is Some,
            o.tag->0@ == name@,
    {
        AtlasOptions { tag: Some(name.to_owned()), ..self }
    }
}

/// Where one frame landed in the atlas, in atlas pixel coordinates.
#[derive(Debug, Clone, PartialEq, Eq)]
pub struct AtlasFrame {
    /// Source frame index in `Sprite::frames`.
    pub frame: FrameIndex,
    /// Left edge of the frame's cell.
    pub x: u32,
    /// Top edge of the frame's cell.
    pub y: u32,
    /// Cell width — always the sprite's canvas width (no trimming).
    pub w: u32,
    /// Cell height — always the sprite's canvas height (no trimming).
    pub h: u32,
    /// Name of the tag the frame was exported under, if any.
    pub tag: Option<String>,
}

/// The sidecar description of an atlas: everything a game engine needs to
/// slice the PNG back into frames.
#[derive(Debug, Clone, PartialEq, Eq)]
pub struct AtlasManifest {
    /// Atlas width in pixels (`columns * frame_width`).
    pub width: u32,
    /// Atlas height in pixels (`rows * frame_height`).
    pub height: u32,
    /// Effective column count.
    pub columns: u32,
    /// Derived row count, `ceil(frames.len() / columns)`.
    pub rows: u32,
    /// Cell width — the sprite's canvas width.
    pub frame_width: u32,
    /// Cell height — the sprite's canvas height.
    pub frame_height: u32,
    /// One entry per exported frame, in row-major placement order.
    pub frames: Vec<AtlasFrame>,
}

/// An encoded atlas image with its manifest.
#[derive(Debug, Clone, PartialEq, Eq)]
pub struct AtlasOutput {
    /// Encoded PNG bytes (RGBA8, 8 bits per channel).
    pub png: Vec<u8>,
    /// Placement description for every exported frame.
    pub manifest: AtlasManifest,
}

/// The text of decimal digit `d`.
pub open spec fn digit_text(d: int) -> Seq<char> {
    if d == 0 {
        "0"@
    } else if d == 1 {
        "1"@
    } else if d == 2 {
        "2"@
    } else if d == 3 {
        "3"@
    } else if d == 4 {
        "4"@
    } else if d == 5 {
        "5"@
    } else if d == 6 {
        "6"@
    } else if d == 7 {
        "7"@
    } else if d == 8 {
        "8"@
    } else {
        "9"@
    }
}

/// The text of lowercase hexadecimal digit `d`.
pub open spec fn hex_text(d: int) -> Seq<char> {
    if d < 10 {
        digit_text(d)
    } else if d == 10 {
        "a"@
    } else if d == 11 {
        "b"@
    } else if d == 12 {
        "c"@
    } else if d == 13 {
        "d"@
    } else if d == 14 {
        "e"@
    } else {
        "f"@
    }
}

/// The decimal text of `n`, without leading zeros.
pub open spec fn decimal(n: nat) -> Seq<char>
    decreases n,
{
    if n < 10 {
        digit_text(n as int)
    } else {
        decimal(n / 10) + digit_text((n % 10) as int)
    }
}

/// How one character is written inside a JSON string literal.
pub open spec fn escaped_char(c: char) -> Seq<char> {
    if c == '"' {
        "\\\""@
    } else if c == '\\' {
        "\\\\"@
    } else if c == '\n' {
        "\\n"@
    } else if c == '\r' {
        "\\r"@
    } else if c == '\t' {
        "\\t"@
    } else if c == '\u{8}' {
        "\\b"@
    } else if c == '\u{c}' {
        "\\f"@
    } else if (c as u32) < 0x20 {
        "\\u"@ + hex_text(((c as u32) / 4096 % 16) as int) + hex_text(((c as u32) / 256 % 16) as int)
            + hex_text(((c as u32) / 16 % 16) as int) + hex_text(((c as u32) % 16) as int)
    } else {
        seq![c]
    }
}

/// `s` escaped for embedding in a JSON string literal.
pub open spec fn json_escaped(s: Seq<char>) -> Seq<char>
    decreases s.len(),
{
    if s.len() == 0 {
        Seq::empty()
    } else {
        json_escaped(s.drop_last()) + escaped_char(s.last())
    }
}

/// The JSON object of one frame placement.
pub open spec fn frame_json(f: AtlasFrame) -> Seq<char> {
    "{\"frame\":"@ + decimal(f.frame.0 as nat) + ",\"x\":"@ + decimal(f.x as nat) + ",\"y\":"@
        + decimal(f.y as nat) + ",\"w\":"@ + decimal(f.w as nat) + ",\"h\":"@ + decimal(
        f.h as nat,
    ) + ",\"tag\":"@ + match f.tag {
        Some(name) => "\""@ + json_escaped(name@) + "\""@,
        None => "null"@,
    } + "}"@
}

/// `c` is a decimal digit.
pub open spec fn is_digit(c: char) -> bool {
    '0' <= c <= '9'
}

/// The number a run of decimal digits reads as.
pub open spec fn digits_value(d: Seq<char>) -> nat
    decreases d.len(),
{
    if d.len() == 0 {
        0
    } else {
        digits_value(d.drop_last()) * 10 + ((d.last() as int) - ('0' as int)) as nat
    }
}

/// `s` splits as `a`, then the quoted `key` and a colon, then the non-empty
/// run of digits `d`, then `b`, which does not go on with a digit.
pub open spec fn number_field_at(s: Seq<char>, key: Seq<char>, a: Seq<char>, d: Seq<char>, b: Seq<char>) -> bool {
    &&& s == a + ("\""@ + key + "\":"@) + d + b
    &&& d.len() > 0
    &&& forall|i: int| 0 <= i < d.len() ==> is_digit(#[trigger] d[i])
    &&& b.len() > 0
    &&& !is_digit(b[0])
}

/// A JSON reader finds the number `v` under `key` in `s`: the quoted key and
/// a colon are followed by a run of digits that reads as `v`.
pub open spec fn json_number_field(s: Seq<char>, key: Seq<char>, v: nat) -> bool {
    exists|a: Seq<char>, d: Seq<char>, b: Seq<char>|
        #[trigger] number_field_at(s, key, a, d, b) && digits_value(d) == v
}

/// The decimal text of `n` is a non-empty run of digits that reads as `n`.
pub proof fn lemma_decimal_reads_back(n: nat)
    ensures
        decimal(n).len() > 0,
        forall|i: int| 0 <= i < decimal(n).len() ==> is_digit(#[trigger] decimal(n)[i]),
        digits_value(decimal(n)) == n,
    decreases n,
{
    reveal_strlit("0");
    reveal_strlit("1");
    reveal_strlit("2");
    reveal_strlit("3");
    reveal_strlit("4");
    reveal_strlit("5");
    reveal_strlit("6");
    reveal_strlit("7");
    reveal_strlit("8");
    reveal_strlit("9");
    let t = digit_text((n % 10) as int);
    assert(t.len() == 1 && is_digit(t[0]) && (t[0] as int) - ('0' as int) == n % 10);
    if n < 10 {
        assert(t.drop_last() =~= Seq::<char>::empty());
        assert(digits_value(t) == digits_value(t.drop_last()) * 10 + ((t.last() as int) - ('0' as int)) as nat);
    } else {
        lemma_decimal_reads_back(n / 10);
        let s = decimal(n / 10) + t;
        assert(s.drop_last() =~= decimal(n / 10));
        assert(s.last() == t[0]);
        assert(digits_value(s) == digits_value(s.drop_last()) * 10 + ((s.last() as int) - ('0' as int)) as nat);
        assert((n / 10) * 10 + n % 10 == n);
        assert forall|i: int| 0 <= i < s.len() implies is_digit(#[trigger] s[i]) by {
            if i < decimal(n / 10).len() {
                assert(s[i] == decimal(n / 10)[i]);
            }
        }
    }
}

/// Regrouping a chain of thirteen texts around each of its numbers.
proof fn lemma_frame_text_shape(
    a0: Seq<char>,
    d0: Seq<char>,
    a1: Seq<char>,
    d1: Seq<char>,
    a2: Seq<char>,
    d2: Seq<char>,
    a3: Seq<char>,
    d3: Seq<char>,
    a4: Seq<char>,
    d4: Seq<char>,
    t1: Seq<char>,
    t2: Seq<char>,
    t3: Seq<char>,
)
    ensures
        ({
            let s = a0 + d0 + a1 + d1 + a2 + d2 + a3 + d3 + a4 + d4 + t1 + t2 + t3;
            &&& s =~= a0 + d0 + (a1 + d1 + a2 + d2 + a3 + d3 + a4 + d4 + t1 + t2 + t3)
            &&& s =~= (a0 + d0 + a1) + d1 + (a2 + d2 + a3 + d3 + a4 + d4 + t1 + t2 + t3)
            &&& s =~= (a0 + d0 + a1 + d1 + a2) + d2 + (a3 + d3 + a4 + d4 + t1 + t2 + t3)
            &&& s =~= (a0 + d0 + a1 + d1 + a2 + d2 + a3) + d3 + (a4 + d4 + t1 + t2 + t3)
            &&& s =~= (a0 + d0 + a1 + d1 + a2 + d2 + a3 + d3 + a4) + d4 + (t1 + t2 + t3)
        }),
{
}

/// A prefix ending in the separator `c` and the key token `tok` is a prefix
/// followed by the token.
proof fn lemma_token_tail(x: Seq<char>, c: Seq<char>, tok: Seq<char>, lit: Seq<char>, d: Seq<char>, r: Seq<char>)
    requires
        lit == c + tok,
    ensures
        x + lit + d + r == (x + c) + tok + d + r,
{
    assert(x + lit =~= (x + c) + tok);
}

/// The manifest text of a frame reads back: a JSON reader finds the
/// frame's index under `frame`, its cell's corner under `x` and `y`, and
/// its cell's size under `w` and `h`.
pub proof fn lemma_frame_json_reads_back(f: AtlasFrame)
    ensures
        json_number_field(frame_json(f), "frame"@, f.frame.0 as nat),
        json_number_field(frame_json(f), "x"@, f.x as nat),
        json_number_field(frame_json(f), "y"@, f.y as nat),
        json_number_field(frame_json(f), "w"@, f.w as nat),
        json_number_field(frame_json(f), "h"@, f.h as nat),
{
    let l0 = "{\"frame\":"@;
    let lx = ",\"x\":"@;
    let ly = ",\"y\":"@;
    let lw = ",\"w\":"@;
    let lh = ",\"h\":"@;
    let t1 = ",\"tag\":"@;
    let t2 = match f.tag {
        Some(name) => "\""@ + json_escaped(name@) + "\""@,
        None => "null"@,
    };
    let t3 = "}"@;
    let d0 = decimal(f.frame.0 as nat);
    let dx = decimal(f.x as nat);
    let dy = decimal(f.y as nat);
    let dw = decimal(f.w as nat);
    let dh = decimal(f.h as nat);
    lemma_decimal_reads_back(f.frame.0 as nat);
    lemma_decimal_reads_back(f.x as nat);
    lemma_decimal_reads_back(f.y as nat);
    lemma_decimal_reads_back(f.w as nat);
    lemma_decimal_reads_back(f.h as nat);
    let s = frame_json(f);
    assert(s == l0 + d0 + lx + dx + ly + dy + lw + dw + lh + dh + t1 + t2 + t3);
    lemma_frame_text_shape(l0, d0, lx, dx, ly, dy, lw, dw, lh, dh, t1, t2, t3);
    reveal_strlit("{\"frame\":");
    reveal_strlit(",\"x\":");
    reveal_strlit(",\"y\":");
    reveal_strlit(",\"w\":");
    reveal_strlit(",\"h\":");
    reveal_strlit(",\"tag\":");
    reveal_strlit("\"");
    reveal_strlit("\":");
    reveal_strlit("{");
    reveal_strlit(",");
    reveal_strlit("frame");
    reveal_strlit("x");
    reveal_strlit("y");
    reveal_strlit("w");
    reveal_strlit("h");
    let sep = ","@;
    let tok0 = "\""@ + "frame"@ + "\":"@;
    let tokx = "\""@ + "x"@ + "\":"@;
    let toky = "\""@ + "y"@ + "\":"@;
    let tokw = "\""@ + "w"@ + "\":"@;
    let tokh = "\""@ + "h"@ + "\":"@;
    assert(l0 =~= "{"@ + tok0);
    assert(lx =~= sep + tokx);
    assert(ly =~= sep + toky);
    assert(lw =~= sep + tokw);
    assert(lh =~= sep + tokh);
    assert(t1[0] == ',');
    let r0 = lx + dx + ly + dy + lw + dw + lh + dh + t1 + t2 + t3;
    let rx = ly + dy + lw + dw + lh + dh + t1 + t2 + t3;
    let ry = lw + dw + lh + dh + t1 + t2 + t3;
    let rw = lh + dh + t1 + t2 + t3;
    let rh = t1 + t2 + t3;
    assert(r0[0] == lx[0]);
    assert(rx[0] == ly[0]);
    assert(ry[0] == lw[0]);
    assert(rw[0] == lh[0]);
    assert(rh[0] == t1[0]);
    lemma_token_tail(Seq::empty(), "{"@, tok0, l0, d0, r0);
    assert(Seq::<char>::empty() + l0 =~= l0);
    assert(number_field_at(s, "frame"@, "{"@, d0, r0));
    let px = l0 + d0;
    lemma_token_tail(px, sep, tokx, lx, dx, rx);
    assert(number_field_at(s, "x"@, px + sep, dx, rx));
    let py = l0 + d0 + lx + dx;
    lemma_token_tail(py, sep, toky, ly, dy, ry);
    assert(number_field_at(s, "y"@, py + sep, dy, ry));
    let pw = l0 + d0 + lx + dx + ly + dy;
    lemma_token_tail(pw, sep, tokw, lw, dw, rw);
    assert(number_field_at(s, "w"@, pw + sep, dw, rw));
    let ph = l0 + d0 + lx + dx + ly + dy + lw + dw;
    lemma_token_tail(ph, sep, tokh, lh, dh, rh);
    assert(number_field_at(s, "h"@, ph + sep, dh, rh));
}

/// The JSON objects of frame placements, separated by commas.
pub open spec fn frames_json(fs: Seq<AtlasFrame>) -> Seq<char>
    decreases fs.len(),
{
    if fs.len() == 0 {
        Seq::empty()
    } else if fs.len() == 1 {
        frame_json(fs[0])
    } else {
        frames_json(fs.drop_last()) + ","@ + frame_json(fs.last())
    }
}

/// The single-line JSON object of a manifest, with camelCase keys.
pub open spec fn manifest_json(m: AtlasManifest) -> Seq<char> {
    "{\"width\":"@ + decimal(m.width as nat) + ",\"height\":"@ + decimal(m.height as nat)
        + ",\"columns\":"@ + decimal(m.columns as nat) + ",\"rows\":"@ + decimal(m.rows as nat)
        + ",\"frameWidth\":"@ + decimal(m.frame_width as nat) + ",\"frameHeight\":"@ + decimal(
        m.frame_height as nat,
    ) + ",\"frames\":["@ + frames_json(m.frames@) + "]}"@
}

/// Regrouping a chain of fifteen texts around each of its numbers.
proof fn lemma_manifest_text_shape(
    a0: Seq<char>,
    d0: Seq<char>,
    a1: Seq<char>,
    d1: Seq<char>,
    a2: Seq<char>,
    d2: Seq<char>,
    a3: Seq<char>,
    d3: Seq<char>,
    a4: Seq<char>,
    d4: Seq<char>,
    a5: Seq<char>,
    d5: Seq<char>,
    t1: Seq<char>,
    t2: Seq<char>,
    t3: Seq<char>,
)
    ensures
        ({
            let s = a0 + d0 + a1 + d1 + a2 + d2 + a3 + d3 + a4 + d4 + a5 + d5 + t1 + t2 + t3;
            &&& s =~= a0 + d0 + (a1 + d1 + a2 + d2 + a3 + d3 + a4 + d4 + a5 + d5 + t1 + t2 + t3)
            &&& s =~= (a0 + d0 + a1) + d1 + (a2 + d2 + a3 + d3 + a4 + d4 + a5 + d5 + t1 + t2 + t3)
            &&& s =~= (a0 + d0 + a1 + d1 + a2) + d2 + (a3 + d3 + a4 + d4 + a5 + d5 + t1 + t2 + t3)
            &&& s =~= (a0 + d0 + a1 + d1 + a2 + d2 + a3) + d3 + (a4 + d4 + a5 + d5 + t1 + t2 + t3)
            &&& s =~= (a0 + d0 + a1 + d1 + a2 + d2 + a3 + d3 + a4) + d4 + (a5 + d5 + t1 + t2 + t3)
            &&& s =~= (a0 + d0 + a1 + d1 + a2 + d2 + a3 + d3 + a4 + d4 + a5) + d5 + (t1 + t2 + t3)
        }),
{
}

/// The manifest text reads back: a JSON reader finds the atlas size under
/// `width` and `height`, the grid under `columns` and `rows`, and the cell
/// size under `frameWidth` and `frameHeight`.
#[verifier::spinoff_prover]
#[verifier::rlimit(80)]
pub proof fn lemma_manifest_json_reads_back(m: AtlasManifest)
    ensures
        json_number_field(manifest_json(m), "width"@, m.width as nat),
        json_number_field(manifest_json(m), "height"@, m.height as nat),
        json_number_field(manifest_json(m), "columns"@, m.columns as nat),
        json_number_field(manifest_json(m), "rows"@, m.rows as nat),
        json_number_field(manifest_json(m), "frameWidth"@, m.frame_width as nat),
        json_number_field(manifest_json(m), "frameHeight"@, m.frame_height as nat),
{
    let l0 = "{\"width\":"@;
    let l1 = ",\"height\":"@;
    let l2 = ",\"columns\":"@;
    let l3 = ",\"rows\":"@;
    let l4 = ",\"frameWidth\":"@;
    let l5 = ",\"frameHeight\":"@;
    let t1 = ",\"frames\":["@;
    let t2 = frames_json(m.frames@);
    let t3 = "]}"@;
    let d0 = decimal(m.width as nat);
    let d1 = decimal(m.height as nat);
    let d2 = decimal(m.columns as nat);
    let d3 = decimal(m.rows as nat);
    let d4 = decimal(m.frame_width as nat);
    let d5 = decimal(m.frame_height as nat);
    lemma_decimal_reads_back(m.width as nat);
    lemma_decimal_reads_back(m.height as nat);
    lemma_decimal_reads_back(m.columns as nat);
    lemma_decimal_reads_back(m.rows as nat);
    lemma_decimal_reads_back(m.frame_width as nat);
    lemma_decimal_reads_back(m.frame_height as nat);
    let s = manifest_json(m);
    assert(s == l0 + d0 + l1 + d1 + l2 + d2 + l3 + d3 + l4 + d4 + l5 + d5 + t1 + t2 + t3);
    lemma_manifest_text_shape(l0, d0, l1, d1, l2, d2, l3, d3, l4, d4, l5, d5, t1, t2, t3);
    reveal_strlit("{\"width\":");
    reveal_strlit(",\"height\":");
    reveal_strlit(",\"columns\":");
    reveal_strlit(",\"rows\":");
    reveal_strlit(",\"frameWidth\":");
    reveal_strlit(",\"frameHeight\":");
    reveal_strlit(",\"frames\":[");
    reveal_strlit("\"");
    reveal_strlit("\":");
    reveal_strlit("{");
    reveal_strlit(",");
    reveal_strlit("width");
    reveal_strlit("height");
    reveal_strlit("columns");
    reveal_strlit("rows");
    reveal_strlit("frameWidth");
    reveal_strlit("frameHeight");
    let sep = ","@;
    let k0 = "\""@ + "width"@ + "\":"@;
    let k1 = "\""@ + "height"@ + "\":"@;
    let k2 = "\""@ + "columns"@ + "\":"@;
    let k3 = "\""@ + "rows"@ + "\":"@;
    let k4 = "\""@ + "frameWidth"@ + "\":"@;
    let k5 = "\""@ + "frameHeight"@ + "\":"@;
    assert(l0 =~= "{"@ + k0);
    assert(l1 =~= sep + k1);
    assert(l2 =~= sep + k2);
    assert(l3 =~= sep + k3);
    assert(l4 =~= sep + k4);
    assert(l5 =~= sep + k5);
    let r0 = l1 + d1 + l2 + d2 + l3 + d3 + l4 + d4 + l5 + d5 + t1 + t2 + t3;
    let r1 = l2 + d2 + l3 + d3 + l4 + d4 + l5 + d5 + t1 + t2 + t3;
    let r2 = l3 + d3 + l4 + d4 + l5 + d5 + t1 + t2 + t3;
    let r3 = l4 + d4 + l5 + d5 + t1 + t2 + t3;
    let r4 = l5 + d5 + t1 + t2 + t3;
    let r5 = t1 + t2 + t3;
    assert(r0[0] == l1[0]);
    assert(r1[0] == l2[0]);
    assert(r2[0] == l3[0]);
    assert(r3[0] == l4[0]);
    assert(r4[0] == l5[0]);
    assert(r5[0] == t1[0]);
    lemma_token_tail(Seq::empty(), "{"@, k0, l0, d0, r0);
    assert(Seq::<char>::empty() + l0 =~= l0);
    assert(number_field_at(s, "width"@, "{"@, d0, r0));
    let p1 = l0 + d0;
    lemma_token_tail(p1, sep, k1, l1, d1, r1);
    assert(number_field_at(s, "height"@, p1 + sep, d1, r1));
    let p2 = l0 + d0 + l1 + d1;
    lemma_token_tail(p2, sep, k2, l2, d2, r2);
    assert(number_field_at(s, "columns"@, p2 + sep, d2, r2));
    let p3 = l0 + d0 + l1 + d1 + l2 + d2;
    lemma_token_tail(p3, sep, k3, l3, d3, r3);
    assert(number_field_at(s, "rows"@, p3 + sep, d3, r3));
    let p4 = l0 + d0 + l1 + d1 + l2 + d2 + l3 + d3;
    lemma_token_tail(p4, sep, k4, l4, d4, r4);
    assert(number_field_at(s, "frameWidth"@, p4 + sep, d4, r4));
    let p5 = l0 + d0 + l1 + d1 + l2 + d2 + l3 + d3 + l4 + d4;
    lemma_token_tail(p5, sep, k5, l5, d5, r5);
    assert(number_field_at(s, "frameHeight"@, p5 + sep, d5, r5));
}

/// Append the text of decimal digit `d`.
fn push_digit(out: &mut String, d: u64)
    requires
        d < 10,
    ensures
        final(out)@ == old(out)@ + digit_text(d as int),
{
    match d {
        0 => out.append("0"),
        1 => out.append("1"),
        2 => out.append("2"),
        3 => out.append("3"),
        4 => out.append("4"),
        5 => out.append("5"),
        6 => out.append("6"),
        7 => out.append("7"),
        8 => out.append("8"),
        _ => out.append("9"),
    }
}

/// Append the text of lowercase hexadecimal digit `d`.
fn push_hex(out: &mut String, d: u32)
    requires
        d < 16,
    ensures
        final(out)@ == old(out)@ + hex_text(d as int),
{
    if d < 10 {
        push_digit(out, d as u64);
    } else {
        match d {
            10 => out.append("a"),
            11 => out.append("b"),
            12 => out.append("c"),
            13 => out.append("d"),
            14 => out.append("e"),
            _ => out.append("f"),
        }
    }
}

/// Append the decimal text of `n`.
pub(crate) fn push_decimal(out: &mut String, n: u64)
    ensures
        final(out)@ == old(out)@ + decimal(n as nat),
    decreases n,
{
    if n >= 10 {
        push_decimal(out, n / 10);
        push_digit(out, n % 10);
        proof {
            assert(old(out)@ + decimal((n / 10) as nat) + digit_text((n % 10) as int) =~= old(out)@
                + decimal(n as nat));
        }
    } else {
        push_digit(out, n);
    }
}

/// Append `value` escaped for embedding in a JSON string literal.
fn push_escaped(out: &mut String, value: &str)
    ensures
        final(out)@ == old(out)@ + json_escaped(value@),
{
    let n = value.unicode_len();
    let mut i: usize = 0;
    proof {
        assert(value@.take(0) =~= Seq::<char>::empty());
        assert(old(out)@ + json_escaped(value@.take(0)) =~= old(out)@);
    }
    while i < n
        invariant
            i <= n == value@.len(),
            out@ == old(out)@ + json_escaped(value@.take(i as int)),
        decreases n - i,
    {
        let c = value.get_char(i);
        let ghost before = out@;
        if c == '"' {
            out.append("\\\"");
        } else if c == '\\' {
            out.append("\\\\");
        } else if c == '\n' {
            out.append("\\n");
        } else if c == '\r' {
            out.append("\\r");
        } else if c == '\t' {
            out.append("\\t");
        } else if c == '\u{8}' {
            out.append("\\b");
        } else if c == '\u{c}' {
            out.append("\\f");
        } else if (c as u32) < 0x20 {
            let v = c as u32;
            out.append("\\u");
            push_hex(out, v / 4096 % 16);
            push_hex(out, v / 256 % 16);
            push_hex(out, v / 16 % 16);
            push_hex(out, v % 16);
        } else {
            out.append(value.substring_char(i, i + 1));
            proof {
                assert(value@.subrange(i as int, i + 1) =~= seq![c]);
            }
        }
        proof {
            assert(value@.take(i + 1).drop_last() =~= value@.take(i as int));
            assert(value@.take(i + 1).last() == c);
            assert(out@ =~= before + escaped_char(c));
            assert(out@ =~= old(out)@ + json_escaped(value@.take(i + 1)));
        }
        i = i + 1;
    }
    proof {
        assert(value@.take(n as int) =~= value@);
    }
}

/// Append the JSON object of one frame placement.
#[verifier::rlimit(60)]
fn push_frame(out: &mut String, f: &AtlasFrame)
    ensures
        final(out)@ == old(out)@ + frame_json(*f),
{
    out.append("{\"frame\":");
    push_decimal(out, f.frame.0 as u64);
    out.append(",\"x\":");
    push_decimal(out, f.x as u64);
    out.append(",\"y\":");
    push_decimal(out, f.y as u64);
    out.append(",\"w\":");
    push_decimal(out, f.w as u64);
    out.append(",\"h\":");
    push_decimal(out, f.h as u64);
    out.append(",\"tag\":");
    match &f.tag {
        Some(name) => {
            out.append("\"");
            push_escaped(out, name.as_str());
            out.append("\"");
        },
        None => out.append("null"),
    }
    out.append("}");
    proof {
        assert(out@ =~= old(out)@ + frame_json(*f));
    }
}

impl AtlasManifest {
    /// Serialize the manifest as a single-line JSON object with camelCase
    /// keys. `tag` is `null` for frames outside every tag.
    #[verifier::rlimit(60)]
    pub fn to_json(&self) -> (s: String)
        ensures
            s@ == manifest_json(*self),
    {
        let mut out = String::new();
        out.append("{\"width\":");
        push_decimal(&mut out, self.width as u64);
        out.append(",\"height\":");
        push_decimal(&mut out, self.height as u64);
        out.append(",\"columns\":");
        push_decimal(&mut out, self.columns as u64);
        out.append(",\"rows\":");
        push_decimal(&mut out, self.rows as u64);
        out.append(",\"frameWidth\":");
        push_decimal(&mut out, self.frame_width as u64);
        out.append(",\"frameHeight\":");
        push_decimal(&mut out, self.frame_height as u64);
        out.append(",\"frames\":[");
        let ghost head = out@;
        let mut j: usize = 0;
        proof {
            assert(frames_json(self.frames@.take(0)) =~= Seq::<char>::empty());
            assert(out@ =~= head + frames_json(self.frames@.take(0)));
        }
        while j < self.frames.len()
            invariant
                j <= self.frames@.len(),
                out@ == head + frames_json(self.frames@.take(j as int)),
            decreases self.frames@.len() - j,
        {
            let ghost before = out@;
            if j > 0 {
                out.append(",");
            }
            push_frame(&mut out, &self.frames[j]);
            proof {
                let t = self.frames@.take(j + 1);
                assert(t.drop_last() =~= self.frames@.take(j as int));
                assert(t.last() == self.frames@[j as int]);
                if j == 0 {
                    assert(t.len() == 1);
                    assert(t[0] == self.frames@[0]);
                    assert(out@ =~= head + frames_json(t));
                } else {
                    assert(out@ =~= head + frames_json(t));
                }
            }
            j = j + 1;
        }
        out.append("]}");
        proof {
            assert(self.frames@.take(j as int) =~= self.frames@);
            assert(out@ =~= manifest_json(*self));
        }
        out
    }
}

/// The frame count as the export sees it: saturated at `u32::MAX`.
pub open spec fn export_frame_count(frames: nat) -> u32 {
    if frames > u32::MAX {
        u32::MAX
    } else {
        frames as u32
    }
}

/// The position of the first tag from `i` on named `name`.
pub open spec fn first_tag_named(tags: Seq<TagModel>, name: Seq<char>, i: int) -> Option<int>
    decreases tags.len() - i,
{
    if i < 0 || i >= tags.len() {
        None
    } else if tags[i].name == name {
        Some(i)
    } else {
        first_tag_named(tags, name, i + 1)
    }
}

/// The frames `from..=to`, in order.
pub open spec fn frame_range(from: u32, to: u32) -> Seq<FrameIndex> {
    Seq::new((to - from + 1) as nat, |k: int| FrameIndex((from + k) as u32))
}

/// `r` is what selecting the frames of `sprite` to export gives: every
/// frame in playback order without a tag, else the frames of the first tag
/// named `tag`; an unknown tag, or a tag whose range is inverted or
/// reaches past the last frame, is refused.
pub open spec fn selection_is(
    sprite: SpriteModel,
    tag: Option<Seq<char>>,
    r: Result<Vec<FrameIndex>, ExportError>,
) -> bool {
    let count = export_frame_count(sprite.frames.len());
    match tag {
        None => r matches Ok(v) && v@ == Seq::new(count as nat, |k: int| FrameIndex(k as u32)),
        Some(name) => match first_tag_named(sprite.tags, name, 0) {
            None => r matches Err(ExportError::TagNotFound { name: n }) && n@ == name,
            Some(i) => {
                let t = sprite.tags[i];
                if t.from.0 > t.to.0 || t.to.0 >= count {
                    r matches Err(ExportError::TagRangeInvalid { name: n, from, to, frames })
                        && n@ == t.name && from == t.from.0 && to == t.to.0 && frames == count
                } else {
                    r matches Ok(v) && v@ == frame_range(t.from.0, t.to.0)
                }
            },
        },
    }
}

/// The frames to export, in playback order: every frame, or those of the
/// first tag named `tag`. An unknown tag, or a tag whose range is inverted
/// or reaches past the last frame, is refused.
pub fn select_frames(sprite: &Sprite, tag: Option<&str>) -> (r: Result<Vec<FrameIndex>, ExportError>)
    ensures
        selection_is(
            sprite@,
            match tag {
                Some(name) => Some(name@),
                None => None,
            },
            r,
        ),
{
    let frame_count: u32 = if sprite.frames.len() >= 4294967295 {
        4294967295
    } else {
        sprite.frames.len() as u32
    };
    let name = match tag {
        None => {
            let mut out: Vec<FrameIndex> = Vec::new();
            let mut k: u32 = 0;
            while k < frame_count
                invariant
                    k <= frame_count,
                    out@ == Seq::new(k as nat, |j: int| FrameIndex(j as u32)),
                decreases frame_count - k,
            {
                out.push(FrameIndex(k));
                proof {
                    assert(out@ =~= Seq::new((k + 1) as nat, |j: int| FrameIndex(j as u32)));
                }
                k = k + 1;
            }
            return Ok(out);
        },
        Some(n) => n,
    };
    let ghost tags = sprite@.tags;
    let nt = sprite.tags.len();
    let mut i: usize = 0;
    while i < nt
        invariant
            nt == sprite.tags@.len(),
            tags == sprite@.tags,
            tags == sprite.tags@.map_values(|t: crate::document::Tag| t@),
            i <= nt,
            tag == Some(name),
            frame_count == export_frame_count(sprite@.frames.len()),
            first_tag_named(tags, name@, 0) == first_tag_named(tags, name@, i as int),
        decreases nt - i,
    {
        let t = &sprite.tags[i];
        assert(tags[i as int] == t@);
        if same_chars(t.name.as_str(), name) {
            if t.from.0 > t.to.0 || t.to.0 >= frame_count {
                return Err(
                    ExportError::TagRangeInvalid {
                        name: t.name.clone(),
                        from: t.from.0,
                        to: t.to.0,
                        frames: frame_count,
                    },
                );
            }
            let mut out: Vec<FrameIndex> = Vec::new();
            let mut k: u32 = t.from.0;
            while k <= t.to.0
                invariant
                    t.from.0 <= k,
                    k <= t.to.0 + 1,
                    t.to.0 < frame_count,
                    out@ == Seq::new((k - t.from.0) as nat, |j: int| FrameIndex((t.from.0 + j) as u32)),
                decreases t.to.0 + 1 - k,
            {
                out.push(FrameIndex(k));
                proof {
                    assert(out@ =~= Seq::new(
                        (k + 1 - t.from.0) as nat,
                        |j: int| FrameIndex((t.from.0 + j) as u32),
                    ));
                }
                k = k + 1;
            }
            return Ok(out);
        }
        i = i + 1;
    }
    Err(ExportError::TagNotFound { name: name.to_owned() })
}

/// The position of the first tag from `i` on whose range covers `frame`.
pub open spec fn first_tag_covering(tags: Seq<TagModel>, frame: u32, i: int) -> Option<int>
    decreases tags.len() - i,
{
    if i < 0 || i >= tags.len() {
        None
    } else if tags[i].from.0 <= frame <= tags[i].to.0 {
        Some(i)
    } else {
        first_tag_covering(tags, frame, i + 1)
    }
}

/// Name of the first tag whose range covers `frame`, if any. Tags may
/// overlap; the lowest-index one wins.
pub fn tag_for_frame(sprite: &Sprite, frame: FrameIndex) -> (r: Option<&str>)
    ensures
        match first_tag_covering(sprite@.tags, frame.0, 0) {
            None => r is None,
            Some(i) => r matches Some(n) && n@ == sprite@.tags[i].name,
        },
{
    let ghost tags = sprite@.tags;
    let nt = sprite.tags.len();
    let mut i: usize = 0;
    while i < nt
        invariant
            nt == sprite.tags@.len(),
            tags == sprite@.tags,
            tags == sprite.tags@.map_values(|t: crate::document::Tag| t@),
            i <= nt,
            first_tag_covering(tags, frame.0, 0) == first_tag_covering(tags, frame.0, i as int),
        decreases nt - i,
    {
        let t = &sprite.tags[i];
        assert(tags[i as int] == t@);
        if t.from.0 <= frame.0 && frame.0 <= t.to.0 {
            return Some(t.name.as_str());
        }
        i = i + 1;
    }
    None
}

/// The grid of an atlas: `columns × rows` cells of `frame_width ×
/// frame_height` pixels, `width × height` pixels in all.
#[derive(Debug, Clone, Copy, PartialEq, Eq)]
pub struct AtlasGrid {
    pub columns: u32,
    pub rows: u32,
    pub frame_width: u32,
    pub frame_height: u32,
    pub width: u32,
    pub height: u32,
}

/// The effective column count for `frames` frames: the requested count,
/// clamped down to the number of frames.
pub open spec fn grid_columns(frames: int, requested: int) -> int {
    if requested < frames {
        requested
    } else {
        frames
    }
}

/// The rows `frames` frames fill at `columns` per row, the last row
/// possibly partial.
pub open spec fn grid_rows(frames: int, columns: int) -> int {
    (frames + columns - 1) / columns
}

impl AtlasGrid {
    /// The grid's sizes agree: the atlas is the cells laid side by side, and
    /// its RGBA8 buffer is addressable.
    pub open spec fn wf(&self) -> bool {
        &&& self.columns > 0
        &&& self.width == self.columns * self.frame_width
        &&& self.height == self.rows * self.frame_height
        &&& self.width * self.height * 4 <= usize::MAX
    }

    /// The top-left corner of the cell of export slot `slot`: cells fill
    /// the grid row by row.
    pub fn cell_origin(&self, slot: u32) -> (r: (u32, u32))
        requires
            self.wf(),
            slot < self.columns * self.rows,
        ensures
            r.0 == (slot % self.columns) * self.frame_width,
            r.1 == (slot / self.columns) * self.frame_height,
            r.0 + self.frame_width <= self.width,
            r.1 + self.frame_height <= self.height,
    {
        let column = slot % self.columns;
        let row = slot / self.columns;
        assert(column < self.columns);
        assert(row < self.rows) by (nonlinear_arith)
            requires
                row == slot / self.columns,
                slot < self.columns * self.rows,
                self.columns > 0,
        ;
        assert(column * self.frame_width + self.frame_width <= self.columns * self.frame_width)
            by (nonlinear_arith)
            requires
                column < self.columns,
        ;
        assert(row * self.frame_height + self.frame_height <= self.rows * self.frame_height)
            by (nonlinear_arith)
            requires
                row < self.rows,
        ;
        (column * self.frame_width, row * self.frame_height)
    }
}

/// `r` is what laying `frames` frames of a `cell_w × cell_h` sprite out on
/// at most `columns` columns gives.
pub open spec fn atlas_grid_is(
    frames: u32,
    columns: u32,
    cell_w: u32,
    cell_h: u32,
    r: Result<AtlasGrid, ExportError>,
) -> bool {
    let c = grid_columns(frames as int, columns as int);
    let rows = grid_rows(frames as int, c);
    let w = c * cell_w;
    let h = rows * cell_h;
    if columns == 0 {
        r == Err::<AtlasGrid, ExportError>(ExportError::InvalidColumns)
    } else if frames == 0 {
        r == Err::<AtlasGrid, ExportError>(ExportError::NoFrames)
    } else if w > u32::MAX || h > u32::MAX || w * h * 4 > usize::MAX {
        r == Err::<AtlasGrid, ExportError>(
            ExportError::AtlasTooLarge { width: w as u64, height: h as u64 },
        )
    } else {
        &&& r matches Ok(g)
        &&& g.wf()
        &&& g.columns == c
        &&& g.rows == rows
        &&& g.frame_width == cell_w
        &&& g.frame_height == cell_h
        &&& frames <= g.columns * g.rows
    }
}

/// Lay `frames` exported frames of a `cell_w × cell_h` sprite out on a grid
/// of (at most) `columns` columns.
///
/// Refuses zero columns, then an empty frame list, then an atlas whose
/// width or height does not fit in `u32` or whose RGBA8 buffer is not
/// addressable.
pub fn atlas_grid(frames: u32, columns: u32, cell_w: u32, cell_h: u32) -> (r: Result<AtlasGrid, ExportError>)
    ensures
        atlas_grid_is(frames, columns, cell_w, cell_h, r),
{
    if columns == 0 {
        return Err(ExportError::InvalidColumns);
    }
    if frames == 0 {
        return Err(ExportError::NoFrames);
    }
    let c = if columns < frames {
        columns
    } else {
        frames
    };
    let q = frames / c;
    let rows = if frames % c == 0 {
        q
    } else {
        assert(q < u32::MAX) by (nonlinear_arith)
            requires
                q == frames / c,
                frames % c != 0,
                c > 0,
                frames <= u32::MAX,
        {
            assert(frames == c * q + frames % c);
            if c == 1 {
                assert(frames % c == 0);
            }
        }
        q + 1
    };
    assert(rows == grid_rows(frames as int, c as int)) by (nonlinear_arith)
        requires
            c > 0,
            rows == frames / c + if frames % c == 0 {
                0int
            } else {
                1int
            },
    {
        assert(frames == c * (frames / c) + frames % c);
    }
    assert(frames <= c * rows) by (nonlinear_arith)
        requires
            c > 0,
            rows == frames / c + if frames % c == 0 {
                0int
            } else {
                1int
            },
    {
        assert(frames == c * (frames / c) + frames % c);
    }
    assert(rows <= frames) by (nonlinear_arith)
        requires
            c > 0,
            frames > 0,
            rows == frames / c + if frames % c == 0 {
                0int
            } else {
                1int
            },
    {
        assert(frames == c * (frames / c) + frames % c);
    }
    assert((c as u64) * (cell_w as u64) <= u64::MAX) by (nonlinear_arith)
        requires
            c <= u32::MAX,
            cell_w <= u32::MAX,
    ;
    assert((rows as u64) * (cell_h as u64) <= u64::MAX) by (nonlinear_arith)
        requires
            rows <= u32::MAX,
            cell_h <= u32::MAX,
    ;
    let w = (c as u64) * (cell_w as u64);
    let h = (rows as u64) * (cell_h as u64);
    if w > u32::MAX as u64 || h > u32::MAX as u64 {
        return Err(ExportError::AtlasTooLarge { width: w, height: h });
    }
    assert(w * h <= u64::MAX) by (nonlinear_arith)
        requires
            w <= u32::MAX,
            h <= u32::MAX,
    ;
    let area = w * h;
    if area > (usize::MAX / 4) as u64 {
        return Err(ExportError::AtlasTooLarge { width: w, height: h });
    }
    Ok(
        AtlasGrid {
            columns: c,
            rows,
            frame_width: cell_w,
            frame_height: cell_h,
            width: w as u32,
            height: h as u32,
        },
    )
}

/// The byte at index `i` of the atlas that `grid` lays `frames` out on:
/// pixel `(x, y)` lies in the cell of column `x / frame_width` and row
/// `y / frame_height`; the cell of export slot `row * columns + column`
/// shows that slot's frame, pixel for pixel at the same place within the
/// cell, and a cell past the last frame is fully transparent.
pub open spec fn atlas_byte(grid: AtlasGrid, frames: Seq<Vec<u8>>, i: int) -> u8 {
    let p = i / 4;
    let c = i % 4;
    let x = p % (grid.width as int);
    let y = p / (grid.width as int);
    let slot = (y / (grid.frame_height as int)) * grid.columns + x / (grid.frame_width as int);
    if slot < frames.len() {
        frames[slot]@[((y % (grid.frame_height as int)) * grid.frame_width + x % (
        grid.frame_width as int)) * 4 + c]
    } else {
        0
    }
}

/// The RGBA8 pixels of the atlas that `grid` lays `frames` out on.
pub open spec fn atlas_pixels(grid: AtlasGrid, frames: Seq<Vec<u8>>) -> Seq<u8> {
    Seq::new((grid.width * grid.height * 4) as nat, |i: int| atlas_byte(grid, frames, i))
}

/// Each frame holds one cell's RGBA8 pixels.
pub open spec fn frames_fit(grid: AtlasGrid, frames: Seq<Vec<u8>>) -> bool {
    forall|k: int|
        0 <= k < frames.len() ==> (#[trigger] frames[k])@.len() == grid.frame_width
            * grid.frame_height * 4
}

/// Lay the composed pixels of the exported frames, in export order, out on
/// the atlas `grid`: frame `k` fills the cell at `grid.cell_origin(k)`, and
/// cells past the last frame stay fully transparent.
pub fn assemble_atlas(grid: &AtlasGrid, frames: &Vec<Vec<u8>>) -> (r: Vec<u8>)
    requires
        grid.wf(),
        frames_fit(*grid, frames@),
    ensures
        r@ == atlas_pixels(*grid, frames@),
{
    let w = grid.width as usize;
    let h = grid.height as usize;
    let fw = grid.frame_width as usize;
    let fh = grid.frame_height as usize;
    let cols = grid.columns as usize;
    assert(w * h <= usize::MAX) by (nonlinear_arith)
        requires
            w * h * 4 <= usize::MAX,
    ;
    let n = w * h * 4;
    let mut out: Vec<u8> = Vec::new();
    let mut i: usize = 0;
    while i < n
        invariant
            grid.wf(),
            frames_fit(*grid, frames@),
            w == grid.width,
            h == grid.height,
            fw == grid.frame_width,
            fh == grid.frame_height,
            cols == grid.columns,
            n == w * h * 4,
            i <= n,
            out@.len() == i,
            forall|j: int| 0 <= j < i ==> out@[j] == atlas_byte(*grid, frames@, j),
        decreases n - i,
    {
        let p = i / 4;
        let c = i % 4;
        assert(w > 0 && h > 0 && p < w * h) by (nonlinear_arith)
            requires
                i < w * h * 4,
                p == i / 4,
        ;
        assert(fw > 0 && fh > 0) by (nonlinear_arith)
            requires
                w > 0,
                h > 0,
                w == cols * fw,
                h == grid.rows * fh,
        ;
        let x = p % w;
        let y = p / w;
        assert(y < h) by (nonlinear_arith)
            requires
                p < w * h,
                y == p / w,
                w > 0,
        ;
        let col = x / fw;
        let row = y / fh;
        assert(col < cols && row < grid.rows) by (nonlinear_arith)
            requires
                x < w,
                y < h,
                col == x / fw,
                row == y / fh,
                fw > 0,
                fh > 0,
                w == cols * fw,
                h == grid.rows * fh,
        ;
        assert(row * cols + col < w * h) by (nonlinear_arith)
            requires
                col < cols,
                row < grid.rows,
                fw > 0,
                fh > 0,
                w == cols * fw,
                h == grid.rows * fh,
        {
            assert(row * cols + col < grid.rows * cols);
            assert(grid.rows * cols <= (grid.rows * fh) * (cols * fw));
        }
        let slot = row * cols + col;
        let b = if slot < frames.len() {
            let ly = y % fh;
            let lx = x % fw;
            let flen = frames[slot].len();
            assert(flen == fw * fh * 4);
            assert(ly * fw <= (fh - 1) * fw) by (nonlinear_arith)
                requires
                    ly < fh,
            ;
            assert((fh - 1) * fw + fw == fw * fh) by (nonlinear_arith);
            assert((ly * fw + lx) * 4 + c < flen);
            frames[slot][(ly * fw + lx) * 4 + c]
        } else {
            0
        };
        assert(b == atlas_byte(*grid, frames@, i as int));
        out.push(b);
        i = i + 1;
    }
    assert(out@ =~= atlas_pixels(*grid, frames@));
    out
}

/// Where a cell lands: the pixel at `(lx, ly)` within the cell of export
/// slot `k`, whose top-left corner is at column `k % columns` and row
/// `k / columns`, shows frame `k`'s pixel at `(lx, ly)`, or is transparent
/// when no frame has that slot.
pub proof fn lemma_atlas_cell(grid: AtlasGrid, frames: Seq<Vec<u8>>, k: int, lx: int, ly: int, c: int)
    requires
        grid.wf(),
        0 <= k < grid.columns * grid.rows,
        0 <= lx < grid.frame_width,
        0 <= ly < grid.frame_height,
        0 <= c < 4,
    ensures
        ({
            let ox = (k % (grid.columns as int)) * grid.frame_width;
            let oy = (k / (grid.columns as int)) * grid.frame_height;
            let i = ((oy + ly) * grid.width + ox + lx) * 4 + c;
            &&& 0 <= i < atlas_pixels(grid, frames).len()
            &&& atlas_pixels(grid, frames)[i] == if k < frames.len() {
                frames[k]@[(ly * grid.frame_width + lx) * 4 + c]
            } else {
                0
            }
        }),
{
    let cols = grid.columns as int;
    let fw = grid.frame_width as int;
    let fh = grid.frame_height as int;
    let w = grid.width as int;
    let h = grid.height as int;
    let col = k % cols;
    let row = k / cols;
    let ox = col * fw;
    let oy = row * fh;
    let x = ox + lx;
    let y = oy + ly;
    let p = y * w + x;
    let i = p * 4 + c;
    assert(0 <= col < cols && 0 <= row && k == row * cols + col) by (nonlinear_arith)
        requires
            cols > 0,
            k >= 0,
            col == k % cols,
            row == k / cols,
    ;
    assert(row < grid.rows) by (nonlinear_arith)
        requires
            k < cols * grid.rows,
            k == row * cols + col,
            0 <= col,
            cols > 0,
    ;
    assert(x < w) by (nonlinear_arith)
        requires
            col < cols,
            lx < fw,
            fw >= 0,
            w == cols * fw,
            x == col * fw + lx,
    {
        assert(col * fw <= (cols - 1) * fw);
    }
    assert(y < h) by (nonlinear_arith)
        requires
            row < grid.rows,
            ly < fh,
            fh >= 0,
            h == grid.rows * fh,
            y == row * fh + ly,
    {
        assert(row * fh <= (grid.rows - 1) * fh);
    }
    assert(0 <= x && 0 <= y) by (nonlinear_arith)
        requires
            col >= 0,
            row >= 0,
            lx >= 0,
            ly >= 0,
            fw > 0,
            fh > 0,
            x == col * fw + lx,
            y == row * fh + ly,
    ;
    assert(0 <= p < w * h) by (nonlinear_arith)
        requires
            0 <= x < w,
            0 <= y < h,
            p == y * w + x,
    {
        assert(y * w + x < (h - 1) * w + w);
    }
    lemma_fundamental_div_mod_converse(i, 4, p, c);
    lemma_fundamental_div_mod_converse(p, w, y, x);
    lemma_fundamental_div_mod_converse(x, fw, col, lx);
    lemma_fundamental_div_mod_converse(y, fh, row, ly);
    assert(atlas_pixels(grid, frames)[i] == atlas_byte(grid, frames, i));
}

/// The PNG file that the `png` crate's encoder writes for `pixels` as an
/// RGBA8 image of `width × height` pixels, or its error message.
pub uninterp spec fn png_encoded(pixels: Seq<u8>, width: u32, height: u32) -> Result<Vec<u8>, String>;

/// Calls `png::Encoder` into an in-memory buffer: RGBA colour, 8 bits per
/// channel, header, image data, end. Claimed: the result is
/// [`png_encoded`] of the arguments. The encoder multiplies a row's length
/// by the height unchecked, so the image's byte count must be addressable.
#[verifier::external_body]
fn encode_png(pixels: &[u8], width: u32, height: u32) -> (r: Result<Vec<u8>, String>)
    requires
        width * height * 4 <= usize::MAX,
    ensures
        r == png_encoded(pixels@, width, height),
{
    let mut out = Vec::new();
    let mut encoder = ::png::Encoder::new(&mut out, width, height);
    encoder.set_color(::png::ColorType::Rgba);
    encoder.set_depth(::png::BitDepth::Eight);
    let mut writer = encoder.write_header().map_err(|e| e.to_string())?;
    writer.write_image_data(pixels).map_err(|e| e.to_string())?;
    writer.finish().map_err(|e| e.to_string())?;
    Ok(out)
}

/// Encode an RGBA8 buffer of `width × height` pixels as a PNG file; the
/// encoder's complaint, if any, comes back as [`ExportError::Encode`].
pub fn encode_rgba8(pixels: &[u8], width: u32, height: u32) -> (r: Result<Vec<u8>, ExportError>)
    requires
        width * height * 4 <= usize::MAX,
    ensures
        match png_encoded(pixels@, width, height) {
            Ok(b) => r == Ok::<Vec<u8>, ExportError>(b),
            Err(m) => r == Err::<Vec<u8>, ExportError>(ExportError::Encode(m)),
        },
{
    match encode_png(pixels, width, height) {
        Ok(b) => Ok(b),
        Err(m) => Err(ExportError::Encode(m)),
    }
}

/// The atlas image of `grid` with `frames` laid out on it, encoded as a
/// PNG file.
pub fn atlas_png(grid: &AtlasGrid, frames: &Vec<Vec<u8>>) -> (r: Result<Vec<u8>, ExportError>)
    requires
        grid.wf(),
        frames_fit(*grid, frames@),
    ensures
        match png_encoded(atlas_pixels(*grid, frames@), grid.width, grid.height) {
            Ok(b) => r == Ok::<Vec<u8>, ExportError>(b),
            Err(m) => r == Err::<Vec<u8>, ExportError>(ExportError::Encode(m)),
        },
{
    let pixels = assemble_atlas(grid, frames);
    encode_rgba8(pixels.as_slice(), grid.width, grid.height)
}

/// The tag filter of `opts`, as text.
pub open spec fn tag_filter(opts: AtlasOptions) -> Option<Seq<char>> {
    match opts.tag {
        Some(t) => Some(t@),
        None => None,
    }
}

/// Decide what an atlas of `sprite` under `opts` holds, before any frame is
/// composed: the exported frames, in placement order, and the grid they
/// are laid out on. Refuses zero columns, then a bad tag filter, then an
/// empty selection, then an atlas too large to address.
pub fn plan_atlas(sprite: &Sprite, opts: &AtlasOptions) -> (r: Result<
    (Vec<FrameIndex>, AtlasGrid),
    ExportError,
>)
    ensures
        match r {
            Ok((frames, grid)) => {
                &&& opts.columns != 0
                &&& selection_is(sprite@, tag_filter(*opts), Ok(frames))
                &&& atlas_grid_is(
                    export_frame_count(frames@.len()),
                    opts.columns,
                    sprite@.width,
                    sprite@.height,
                    Ok(grid),
                )
            },
            Err(e) => {
                ||| opts.columns == 0 && e == ExportError::InvalidColumns
                ||| opts.columns != 0 && selection_is(sprite@, tag_filter(*opts), Err(e))
                ||| opts.columns != 0 && exists|v: Vec<FrameIndex>|
                    #[trigger] selection_is(sprite@, tag_filter(*opts), Ok(v)) && atlas_grid_is(
                        export_frame_count(v@.len()),
                        opts.columns,
                        sprite@.width,
                        sprite@.height,
                        Err(e),
                    )
            },
        },
{
    if opts.columns == 0 {
        return Err(ExportError::InvalidColumns);
    }
    let tag: Option<&str> = match &opts.tag {
        Some(t) => Some(t.as_str()),
        None => None,
    };
    assert(match tag {
        Some(name) => Some(name@),
        None => None,
    } == tag_filter(*opts));
    let frames = match select_frames(sprite, tag) {
        Ok(v) => v,
        Err(e) => {
            return Err(e);
        },
    };
    let n = frames.len();
    let count: u32 = if n >= 4294967295 {
        4294967295
    } else {
        n as u32
    };
    assert(count == export_frame_count(frames@.len()));
    match atlas_grid(count, opts.columns, sprite.width, sprite.height) {
        Ok(g) => Ok((frames, g)),
        Err(e) => Err(e),
    }
}

/// The manifest entry of the frame exported in slot `k`: the frame, its
/// cell, and the requested tag's name, or else the name of the first tag
/// covering the frame.
pub open spec fn atlas_entry_is(
    sprite: SpriteModel,
    opts: AtlasOptions,
    grid: AtlasGrid,
    k: int,
    frame: FrameIndex,
    e: AtlasFrame,
) -> bool {
    &&& e.frame == frame
    &&& e.x == (k % (grid.columns as int)) * grid.frame_width
    &&& e.y == (k / (grid.columns as int)) * grid.frame_height
    &&& e.w == grid.frame_width
    &&& e.h == grid.frame_height
    &&& match opts.tag {
        Some(t) => e.tag matches Some(n) && n@ == t@,
        None => match first_tag_covering(sprite.tags, frame.0, 0) {
            None => e.tag is None,
            Some(i) => e.tag matches Some(n) && n@ == sprite.tags[i].name,
        },
    }
}

/// Finish an atlas planned by [`plan_atlas`]: `composed` holds the
/// composed pixels of each exported frame, in placement order. Gives the
/// encoded atlas and its manifest.
pub fn finish_atlas(
    sprite: &Sprite,
    opts: &AtlasOptions,
    frames: &Vec<FrameIndex>,
    grid: &AtlasGrid,
    composed: &Vec<Vec<u8>>,
) -> (r: Result<AtlasOutput, ExportError>)
    requires
        grid.wf(),
        frames@.len() <= grid.columns * grid.rows,
        frames@.len() <= u32::MAX,
        composed@.len() == frames@.len(),
        frames_fit(*grid, composed@),
    ensures
        match png_encoded(atlas_pixels(*grid, composed@), grid.width, grid.height) {
            Err(m) => r == Err::<AtlasOutput, ExportError>(ExportError::Encode(m)),
            Ok(b) => {
                &&& r matches Ok(out)
                &&& out.png == b
                &&& out.manifest.width == grid.width
                &&& out.manifest.height == grid.height
                &&& out.manifest.columns == grid.columns
                &&& out.manifest.rows == grid.rows
                &&& out.manifest.frame_width == grid.frame_width
                &&& out.manifest.frame_height == grid.frame_height
                &&& out.manifest.frames@.len() == frames@.len()
                &&& forall|k: int|
                    0 <= k < frames@.len() ==> atlas_entry_is(
                        sprite@,
                        *opts,
                        *grid,
                        k,
                        frames@[k],
                        #[trigger] out.manifest.frames@[k],
                    )
            },
        },
{
    let mut entries: Vec<AtlasFrame> = Vec::new();
    let n = frames.len();
    let mut k: usize = 0;
    while k < n
        invariant
            grid.wf(),
            n == frames@.len(),
            n <= grid.columns * grid.rows,
            n <= u32::MAX,
            k <= n,
            entries@.len() == k,
            forall|j: int|
                0 <= j < k ==> atlas_entry_is(sprite@, *opts, *grid, j, frames@[j], #[trigger] entries@[j]),
        decreases n - k,
    {
        let frame = frames[k];
        let (x, y) = grid.cell_origin(k as u32);
        let tag: Option<String> = match &opts.tag {
            Some(t) => Some(t.clone()),
            None => match tag_for_frame(sprite, frame) {
                Some(name) => Some(name.to_owned()),
                None => None,
            },
        };
        let entry = AtlasFrame { frame, x, y, w: grid.frame_width, h: grid.frame_height, tag };
        assert(atlas_entry_is(sprite@, *opts, *grid, k as int, frames@[k as int], entry));
        entries.push(entry);
        k = k + 1;
    }
    let png = atlas_png(grid, composed)?;
    Ok(
        AtlasOutput {
            png,
            manifest: AtlasManifest {
                width: grid.width,
                height: grid.height,
                columns: grid.columns,
                rows: grid.rows,
                frame_width: grid.frame_width,
                frame_height: grid.frame_height,
                frames: entries,
            },
        },
    )
}

} // verus!
