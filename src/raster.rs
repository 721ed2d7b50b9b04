//! The vector rasterizer: renders a vector document into an ink bitmap, and
//! cleans up polylines before they are drawn.
use vstd::prelude::*;
use vstd::arithmetic::div_mod::lemma_fundamental_div_mod_converse;

use resvg::usvg::fontdb::Database;
use resvg::usvg::{Error as SvgError, Tree};
use std::sync::Arc;

use crate::device::DeviceModel;
use crate::pen::{polyline_actions, segments_upto};

verus! {

#[verifier::external_type_specification]
#[verifier::external_body]
pub struct ExTree(Tree);

#[verifier::external_type_specification]
#[verifier::external_body]
pub struct ExSvgError(SvgError);

#[verifier::external_type_specification]
#[verifier::external_body]
pub struct ExDatabase(Database);

/// Why rasterizing produced no bitmap.
#[derive(Clone, Copy, Debug, PartialEq, Eq, Structural)]
pub enum RasterError {
    /// Neither the document nor the fallback drawing could be parsed.
    DocumentParseFailure,
    /// No canvas of the requested size can be made.
    InvalidSize,
}

/// Drawn in place of a document that cannot be parsed, so that the user still
/// sees a response: a short annotation inside the drawing canvas.
pub const FALLBACK_SVG: &'static str = "<svg width='768' height='1024' xmlns='http://www.w3.org/2000/svg'><text x='164' y='703' font-family='Noto Sans' font-size='24'>ERROR!</text></svg>";

/// Largest side of a canvas that resvg can render onto: it unwraps a bounding
/// rectangle five times the canvas size in `i32`.
pub const MAX_CANVAS_SIDE: u32 = 429496729;

/// Whether tiny-skia can make a canvas of this size: both sides positive, and
/// the whole buffer of four-byte pixels within `usize` (its row limit of
/// `i32::MAX / 4` bytes lies above `MAX_CANVAS_SIDE`).
pub open spec fn pixmap_size_ok(width: u32, height: u32) -> bool {
    &&& 0 < width
    &&& 0 < height
    &&& width as int * height as int * 4 <= usize::MAX
}

/// Whether a bitmap of this size can be rendered.
pub open spec fn canvas_size_ok(width: u32, height: u32) -> bool {
    &&& pixmap_size_ok(width, height)
    &&& width <= MAX_CANVAS_SIDE
    &&& height <= MAX_CANVAS_SIDE
}

/// Relies on usvg's `Tree::from_str`: parses a vector document, with its text
/// laid out in the given fonts. It fails only on malformed XML, a missing or
/// non-positive size, or too many elements, none of which the fallback drawing has.
#[verifier::external_body]
fn parse_document(text: &str, fonts: &Arc<Database>) -> (r: Result<Tree, SvgError>)
    ensures
        text@ == FALLBACK_SVG@ ==> r is Ok,
{
    let mut opt = resvg::usvg::Options::default();
    opt.fontdb = fonts.clone();
    Tree::from_str(text, &opt)
}

/// Relies on tiny-skia's `Pixmap::new`, which makes a canvas exactly when
/// `pixmap_size_ok` holds, and on `resvg::render`, which draws the tree on it
/// and panics when five times a side exceeds `i32::MAX`; hands back the
/// opacity of each pixel, row-major.
#[verifier::external_body]
fn render_alpha(tree: &Tree, width: u32, height: u32) -> (r: Option<Vec<u8>>)
    requires
        width <= MAX_CANVAS_SIDE,
        height <= MAX_CANVAS_SIDE,
    ensures
        r is Some <==> pixmap_size_ok(width, height),
        r matches Some(a) ==> a@.len() == width as int * height as int,
{
    let mut pixmap = resvg::tiny_skia::Pixmap::new(width, height)?;
    resvg::render(tree, resvg::tiny_skia::Transform::default(), &mut pixmap.as_mut());
    Some(pixmap.pixels().iter().map(|p| p.alpha()).collect())
}

/// A pixel is ink once its coverage exceeds one half.
pub open spec fn is_ink(alpha: u8) -> bool {
    2 * alpha > 255
}

/// Cuts per-pixel opacities into rows of `width` pixels, each marked ink or not.
pub fn alpha_to_bitmap(alpha: &Vec<u8>, width: usize, height: usize) -> (r: Vec<Vec<bool>>)
    requires
        alpha@.len() == width * height,
    ensures
        r@.len() == height,
        forall|y: int| 0 <= y < height ==> (#[trigger] r@[y])@.len() == width,
        forall|y: int, x: int|
            0 <= y < height && 0 <= x < width ==> r@[y]@[x] == is_ink(alpha@[y * width + x]),
{
    let total = alpha.len();
    let mut rows: Vec<Vec<bool>> = Vec::new();
    let mut y: usize = 0;
    while y < height
        invariant
            y <= height,
            alpha@.len() == width * height,
            total == width * height,
            rows@.len() == y,
            forall|j: int| 0 <= j < y ==> (#[trigger] rows@[j])@.len() == width,
            forall|j: int, x: int| 0 <= j < y && 0 <= x < width ==> rows@[j]@[x] == is_ink(alpha@[j * width + x]),
        decreases height - y,
    {
        assert(y * width + width <= width * height) by (nonlinear_arith)
            requires y < height;
        let base = y * width;
        let mut row: Vec<bool> = Vec::new();
        let mut x: usize = 0;
        while x < width
            invariant
                x <= width,
                y < height,
                base == y * width,
                base + width <= alpha@.len(),
                total == alpha@.len(),
                row@.len() == x,
                forall|i: int| 0 <= i < x ==> row@[i] == is_ink(alpha@[base + i]),
            decreases width - x,
        {
            let a = alpha[base + x];
            row.push(2 * (a as u32) > 255);
            x = x + 1;
        }
        let ghost old_rows = rows@;
        rows.push(row);
        assert forall|j: int, x: int| 0 <= j < y + 1 && 0 <= x < width implies rows@[j]@[x] == is_ink(
            alpha@[j * width + x],
        ) by {
            if j < y {
                assert(rows@[j] == old_rows[j]);
            } else {
                assert(rows@[j]@ == row@);
            }
        }
        y = y + 1;
    }
    rows
}

/// Renders a vector document onto a `width` by `height` canvas and marks each
/// pixel ink or not. A document that cannot be parsed is replaced by the
/// fallback drawing rather than failing the call: on any canvas that can be
/// made, the call succeeds.
pub fn svg_to_bitmap(svg: &str, width: u32, height: u32, fonts: &Arc<Database>) -> (r: Result<
    Vec<Vec<bool>>,
    RasterError,
>)
    ensures
        r is Ok <==> canvas_size_ok(width, height),
        !canvas_size_ok(width, height) ==> r == Err::<Vec<Vec<bool>>, RasterError>(RasterError::InvalidSize),
        r matches Ok(b) ==> b@.len() == height && forall|y: int| 0 <= y < height ==> (#[trigger] b@[y])@.len() == width,
{
    if width == 0 || height == 0 || width > MAX_CANVAS_SIDE || height > MAX_CANVAS_SIDE {
        return Err(RasterError::InvalidSize);
    }
    let tree = match parse_document(svg, fonts) {
        Ok(t) => t,
        Err(_) => match parse_document(FALLBACK_SVG, fonts) {
            Ok(t) => t,
            Err(_) => {
                assert(false);
                return Err(RasterError::DocumentParseFailure);
            },
        },
    };
    match render_alpha(&tree, width, height) {
        Some(alpha) => Ok(alpha_to_bitmap(&alpha, width as usize, height as usize)),
        None => Err(RasterError::InvalidSize),
    }
}

/// The grayscale image of a bitmap, row-major: ink is black, the rest white.
pub open spec fn gray_of(bitmap: Seq<Seq<bool>>, width: int, i: int) -> u8 {
    if bitmap[i / width][i % width] {
        0
    } else {
        255
    }
}

/// Pixels of a grayscale image of the bitmap, for saving it: ink black, the
/// rest white. All rows must have the width of the first.
pub fn bitmap_to_gray(bitmap: &Vec<Vec<bool>>) -> (r: Vec<u8>)
    requires
        bitmap@.len() > 0,
        forall|y: int| 0 <= y < bitmap@.len() ==> (#[trigger] bitmap@[y])@.len() == bitmap@[0]@.len(),
        bitmap@.len() * bitmap@[0]@.len() <= usize::MAX,
    ensures
        r@.len() == bitmap@.len() * bitmap@[0]@.len(),
        forall|i: int| 0 <= i < r@.len() ==> #[trigger] r@[i] == gray_of(bitmap.deep_view(), bitmap@[0]@.len() as int, i),
{
    let width = bitmap[0].len();
    let ghost rows = bitmap.deep_view();
    let mut out: Vec<u8> = Vec::new();
    let mut y: usize = 0;
    while y < bitmap.len()
        invariant
            y <= bitmap@.len(),
            width == bitmap@[0]@.len(),
            rows == bitmap.deep_view(),
            bitmap@.len() * width <= usize::MAX,
            forall|j: int| 0 <= j < bitmap@.len() ==> (#[trigger] bitmap@[j])@.len() == width,
            out@.len() == y * width,
            forall|i: int| 0 <= i < out@.len() ==> #[trigger] out@[i] == gray_of(rows, width as int, i),
        decreases bitmap@.len() - y,
    {
        let row = &bitmap[y];
        assert(rows[y as int] == row@);
        let mut x: usize = 0;
        while x < width
            invariant
                x <= width,
                y < bitmap@.len(),
                row@.len() == width,
                rows[y as int] == row@,
                out@.len() == y * width + x,
                forall|i: int| 0 <= i < out@.len() ==> #[trigger] out@[i] == gray_of(rows, width as int, i),
            decreases width - x,
        {
            proof {
                lemma_fundamental_div_mod_converse((y * width + x) as int, width as int, y as int, x as int);
            }
            out.push(if row[x] { 0 } else { 255 });
            x = x + 1;
        }
        assert(out@.len() == (y + 1) * width) by (nonlinear_arith)
            requires out@.len() == y * width + width;
        y = y + 1;
    }
    assert(out@.len() == bitmap@.len() * width) by (nonlinear_arith)
        requires out@.len() == y * width, y == bitmap@.len();
    out
}

// ---------------------------------------------------------------------------
// Polylines

/// `s` with every point that repeats its predecessor removed.
pub open spec fn dedup(s: Seq<(i32, i32)>) -> Seq<(i32, i32)>
    decreases s.len(),
{
    if s.len() == 0 {
        s
    } else if s.len() >= 2 && s[s.len() - 2] == s.last() {
        dedup(s.drop_last())
    } else {
        dedup(s.drop_last()).push(s.last())
    }
}

pub open spec fn no_consecutive_repeats(s: Seq<(i32, i32)>) -> bool {
    forall|i: int| 0 < i < s.len() ==> #[trigger] s[i] != s[i - 1]
}

proof fn lemma_dedup_shape(s: Seq<(i32, i32)>)
    ensures
        no_consecutive_repeats(dedup(s)),
        s.len() > 0 ==> dedup(s).len() > 0 && dedup(s).last() == s.last() && dedup(s)[0] == s[0],
        dedup(s).len() <= s.len(),
    decreases s.len(),
{
    if s.len() > 0 {
        lemma_dedup_shape(s.drop_last());
        if s.len() >= 2 {
            assert(s.drop_last().last() == s[s.len() - 2]);
            assert(s.drop_last()[0] == s[0]);
        }
    }
}

proof fn lemma_segments_prefix(m: DeviceModel, s: Seq<(i32, i32)>, t: Seq<(i32, i32)>, k: nat)
    requires
        k <= s.len(),
        k <= t.len(),
        s.subrange(0, k as int) == t.subrange(0, k as int),
    ensures
        segments_upto(m, s, k) == segments_upto(m, t, k),
    decreases k,
{
    if k > 1 {
        assert(s[k - 2] == s.subrange(0, k as int)[k - 2]);
        assert(t[k - 2] == t.subrange(0, k as int)[k - 2]);
        assert(s[k - 1] == s.subrange(0, k as int)[k - 1]);
        assert(t[k - 1] == t.subrange(0, k as int)[k - 1]);
        assert(s.subrange(0, k - 1) =~= s.subrange(0, k as int).subrange(0, k - 1));
        assert(t.subrange(0, k - 1) =~= t.subrange(0, k as int).subrange(0, k - 1));
        lemma_segments_prefix(m, s, t, (k - 1) as nat);
    }
}

proof fn lemma_segments_of_dedup(m: DeviceModel, s: Seq<(i32, i32)>)
    ensures
        segments_upto(m, dedup(s), dedup(s).len()) == segments_upto(m, s, s.len()),
    decreases s.len(),
{
    if s.len() > 1 {
        let p = s.drop_last();
        lemma_segments_of_dedup(m, p);
        lemma_dedup_shape(p);
        assert(s.subrange(0, p.len() as int) =~= p.subrange(0, p.len() as int));
        lemma_segments_prefix(m, s, p, p.len());
        if s[s.len() - 2] == s.last() {
            assert(segments_upto(m, s, s.len()) =~= segments_upto(m, s, p.len()));
        } else {
            let d = dedup(p);
            let dd = dedup(s);
            assert(dd == d.push(s.last()));
            assert(dd.subrange(0, d.len() as int) =~= d.subrange(0, d.len() as int));
            lemma_segments_prefix(m, dd, d, d.len());
            assert(dd[dd.len() - 2] == d.last());
            assert(d.last() == p.last());
        }
    } else if s.len() == 1 {
        assert(s.drop_last() =~= Seq::<(i32, i32)>::empty());
        assert(dedup(s.drop_last()) == s.drop_last());
        assert(dedup(s) =~= s);
    }
}

/// Removing consecutive repeats loses nothing of a drawing: a polyline and its
/// pruned form give the same pen actions, since the pen draws no segment
/// between equal points; the pruned form has no such pair left.
pub proof fn lemma_pruning_keeps_drawing(m: DeviceModel, pl: Seq<(i32, i32)>)
    ensures
        polyline_actions(m, dedup(pl)) == polyline_actions(m, pl),
        no_consecutive_repeats(dedup(pl)),
{
    lemma_dedup_shape(pl);
    lemma_segments_of_dedup(m, pl);
}

/// Removes consecutive repeats of a point, so that no zero-length segment is
/// handed to the pen.
pub fn dedup_polyline(points: &Vec<(i32, i32)>) -> (r: Vec<(i32, i32)>)
    ensures
        r@ == dedup(points@),
        no_consecutive_repeats(r@),
{
    let mut out: Vec<(i32, i32)> = Vec::new();
    let mut i: usize = 0;
    while i < points.len()
        invariant
            i <= points@.len(),
            out@ == dedup(points@.subrange(0, i as int)),
        decreases points@.len() - i,
    {
        let p = points[i];
        let ghost pre = points@.subrange(0, i as int);
        let ghost next = points@.subrange(0, i + 1);
        assert(next.drop_last() =~= pre);
        proof {
            lemma_dedup_shape(pre);
        }
        if i > 0 && points[i - 1].0 == p.0 && points[i - 1].1 == p.1 {
            assert(next[next.len() - 2] == next.last());
        } else {
            if i > 0 {
                assert(next[next.len() - 2] != next.last());
            }
            out.push(p);
        }
        i = i + 1;
    }
    assert(points@.subrange(0, points@.len() as int) =~= points@);
    proof {
        lemma_dedup_shape(points@);
    }
    out
}

/// The polylines of a vector drawing, each cleaned of consecutive repeats.
pub fn prune_polylines(polylines: &Vec<Vec<(i32, i32)>>) -> (r: Vec<Vec<(i32, i32)>>)
    ensures
        r@.len() == polylines@.len(),
        forall|k: int| 0 <= k < r@.len() ==> (#[trigger] r@[k])@ == dedup(polylines@[k]@),
        forall|k: int| 0 <= k < r@.len() ==> no_consecutive_repeats(#[trigger] r@[k]@),
{
    let mut out: Vec<Vec<(i32, i32)>> = Vec::new();
    let mut k: usize = 0;
    while k < polylines.len()
        invariant
            k <= polylines@.len(),
            out@.len() == k,
            forall|j: int| 0 <= j < k ==> (#[trigger] out@[j])@ == dedup(polylines@[j]@),
            forall|j: int| 0 <= j < k ==> no_consecutive_repeats(#[trigger] out@[j]@),
        decreases polylines@.len() - k,
    {
        let pl = dedup_polyline(&polylines[k]);
        out.push(pl);
        k = k + 1;
    }
    out
}

} // verus!
