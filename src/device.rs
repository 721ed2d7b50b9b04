//! Hardware variants and their calibration constants.
use vstd::prelude::*;

verus! {

/// Width of the logical drawing canvas, in canvas pixels.
pub const VIRTUAL_WIDTH: i32 = 768;

/// Height of the logical drawing canvas, in canvas pixels.
pub const VIRTUAL_HEIGHT: i32 = 1024;

/// The supported tablets. `Unknown` falls back to the constants of `Remarkable2`.
#[derive(Clone, Copy, Debug, PartialEq, Eq, Structural)]
pub enum DeviceModel {
    Remarkable2,
    RemarkablePaperPro,
    Unknown,
}

/// Integer division rounding toward zero, as a cast of a quotient to an integer does.
pub open spec fn div_trunc(a: int, b: int) -> int {
    if a >= 0 {
        a / b
    } else {
        -((-a) / b)
    }
}

/// Clamps `v` into the range of `i32`.
pub open spec fn saturate_i32(v: int) -> int {
    if v < i32::MIN {
        i32::MIN as int
    } else if v > i32::MAX {
        i32::MAX as int
    } else {
        v
    }
}

pub open spec fn spec_pen_max_x(m: DeviceModel) -> int {
    match m {
        DeviceModel::RemarkablePaperPro => 11180,
        _ => 15725,
    }
}

pub open spec fn spec_pen_max_y(m: DeviceModel) -> int {
    match m {
        DeviceModel::RemarkablePaperPro => 15340,
        _ => 20966,
    }
}

pub open spec fn spec_screen_width(m: DeviceModel) -> int {
    match m {
        DeviceModel::RemarkablePaperPro => 1620,
        _ => 1404,
    }
}

pub open spec fn spec_screen_height(m: DeviceModel) -> int {
    match m {
        DeviceModel::RemarkablePaperPro => 2160,
        _ => 1872,
    }
}

/// Canvas point to raw pen-digitizer units. The Paper Pro maps both axes by
/// direct scaling; the other variants swap the axes and invert the canvas y axis.
pub open spec fn pen_transform(m: DeviceModel, x: int, y: int) -> (int, int) {
    match m {
        DeviceModel::RemarkablePaperPro => (
            saturate_i32(div_trunc(x * spec_pen_max_x(m), VIRTUAL_WIDTH as int)),
            saturate_i32(div_trunc(y * spec_pen_max_y(m), VIRTUAL_HEIGHT as int)),
        ),
        _ => (
            saturate_i32(div_trunc((VIRTUAL_HEIGHT - y) * spec_pen_max_y(m), VIRTUAL_HEIGHT as int)),
            saturate_i32(div_trunc(x * spec_pen_max_x(m), VIRTUAL_WIDTH as int)),
        ),
    }
}

/// Canvas point to raw touch-digitizer units: x scaled, y scaled and inverted.
pub open spec fn touch_transform(m: DeviceModel, x: int, y: int) -> (int, int) {
    (
        saturate_i32(div_trunc(x * spec_screen_width(m), VIRTUAL_WIDTH as int)),
        saturate_i32(div_trunc((VIRTUAL_HEIGHT - y) * spec_screen_height(m), VIRTUAL_HEIGHT as int)),
    )
}

/// Rounds `a / b` toward zero and clamps the quotient into `i32`.
fn scale_to_i32(a: i64, b: i64) -> (r: i32)
    requires
        b > 0,
        -0x7fff_ffff_ffff_ffff <= a,
    ensures
        r as int == saturate_i32(div_trunc(a as int, b as int)),
{
    let q: i64 = if a >= 0 {
        a / b
    } else {
        -((-a) / b)
    };
    if q > i32::MAX as i64 {
        i32::MAX
    } else if q < i32::MIN as i64 {
        i32::MIN
    } else {
        q as i32
    }
}

impl DeviceModel {
    /// Chooses the variant named by the contents of the hardware revision file.
    pub fn from_hardware_revision(text: &[u8]) -> (r: DeviceModel)
        ensures
            r == model_of_revision(text@),
    {
        let ferrari: [u8; 7] = [102u8, 101, 114, 114, 97, 114, 105];
        let rm2: [u8; 11] = [114u8, 101, 77, 97, 114, 107, 97, 98, 108, 101, 50];
        if contains_bytes(text, &ferrari) {
            DeviceModel::RemarkablePaperPro
        } else if contains_bytes(text, &rm2) {
            DeviceModel::Remarkable2
        } else {
            DeviceModel::Unknown
        }
    }

    pub fn name(&self) -> (r: &'static str)
        ensures
            r@ == model_name(*self),
    {
        match self {
            DeviceModel::Remarkable2 => "Remarkable2",
            DeviceModel::RemarkablePaperPro => "RemarkablePaperPro",
            DeviceModel::Unknown => "Unknown",
        }
    }

    /// Display width in physical pixels; also the touch digitizer's x range.
    pub fn screen_width(&self) -> (r: u32)
        ensures
            r as int == spec_screen_width(*self),
    {
        match self {
            DeviceModel::RemarkablePaperPro => 1620,
            _ => 1404,
        }
    }

    /// Display height in physical pixels; also the touch digitizer's y range.
    pub fn screen_height(&self) -> (r: u32)
        ensures
            r as int == spec_screen_height(*self),
    {
        match self {
            DeviceModel::RemarkablePaperPro => 2160,
            _ => 1872,
        }
    }

    /// Largest raw value of the pen digitizer's x axis.
    pub fn pen_max_x(&self) -> (r: i32)
        ensures
            r as int == spec_pen_max_x(*self),
    {
        match self {
            DeviceModel::RemarkablePaperPro => 11180,
            _ => 15725,
        }
    }

    /// Largest raw value of the pen digitizer's y axis.
    pub fn pen_max_y(&self) -> (r: i32)
        ensures
            r as int == spec_pen_max_y(*self),
    {
        match self {
            DeviceModel::RemarkablePaperPro => 15340,
            _ => 20966,
        }
    }

    /// Largest raw value of the touch digitizer's x axis.
    pub fn touch_max_x(&self) -> (r: i32)
        ensures
            r as int == spec_screen_width(*self),
    {
        self.screen_width() as i32
    }

    /// Largest raw value of the touch digitizer's y axis.
    pub fn touch_max_y(&self) -> (r: i32)
        ensures
            r as int == spec_screen_height(*self),
    {
        self.screen_height() as i32
    }

    pub fn pen_input_device(&self) -> (r: &'static str)
        ensures
            r@ == pen_device_path(*self),
    {
        match self {
            DeviceModel::RemarkablePaperPro => "/dev/input/event2",
            _ => "/dev/input/event1",
        }
    }

    pub fn touch_input_device(&self) -> (r: &'static str)
        ensures
            r@ == touch_device_path(*self),
    {
        match self {
            DeviceModel::RemarkablePaperPro => "/dev/input/event3",
            _ => "/dev/input/event2",
        }
    }

    /// Maps a canvas point to raw pen-digitizer units.
    pub fn pen_to_input(&self, p: (i32, i32)) -> (r: (i32, i32))
        ensures
            (r.0 as int, r.1 as int) == pen_transform(*self, p.0 as int, p.1 as int),
    {
        let x = p.0 as i64;
        let y = p.1 as i64;
        let mx = self.pen_max_x() as i64;
        let my = self.pen_max_y() as i64;
        match self {
            DeviceModel::RemarkablePaperPro => {
                assert(-0x8000_0000 * 11180 <= x * mx <= 0x7fff_ffff * 11180) by (nonlinear_arith)
                    requires -0x8000_0000 <= x <= 0x7fff_ffff, mx == 11180;
                assert(-0x8000_0000 * 15340 <= y * my <= 0x7fff_ffff * 15340) by (nonlinear_arith)
                    requires -0x8000_0000 <= y <= 0x7fff_ffff, my == 15340;
                (scale_to_i32(x * mx, VIRTUAL_WIDTH as i64), scale_to_i32(y * my, VIRTUAL_HEIGHT as i64))
            },
            _ => {
                let inv = VIRTUAL_HEIGHT as i64 - y;
                assert(-0x8000_0000 * 20966 <= inv * my <= 0x8000_0400 * 20966) by (nonlinear_arith)
                    requires -0x8000_0000 <= inv <= 0x8000_0400, my == 20966;
                assert(-0x8000_0000 * 15725 <= x * mx <= 0x7fff_ffff * 15725) by (nonlinear_arith)
                    requires -0x8000_0000 <= x <= 0x7fff_ffff, mx == 15725;
                (scale_to_i32(inv * my, VIRTUAL_HEIGHT as i64), scale_to_i32(x * mx, VIRTUAL_WIDTH as i64))
            },
        }
    }
}

/// Maps a canvas point to raw touch-digitizer units of the given model.
pub fn screen_to_input(model: DeviceModel, p: (i32, i32)) -> (r: (i32, i32))
    ensures
        (r.0 as int, r.1 as int) == touch_transform(model, p.0 as int, p.1 as int),
{
    let x = p.0 as i64;
    let inv = VIRTUAL_HEIGHT as i64 - p.1 as i64;
    let w = model.screen_width() as i64;
    let h = model.screen_height() as i64;
    assert(-0x8000_0000 * 1620 <= x * w <= 0x7fff_ffff * 1620) by (nonlinear_arith)
        requires -0x8000_0000 <= x <= 0x7fff_ffff, 0 <= w <= 1620;
    assert(-0x8000_0000 * 2160 <= inv * h <= 0x8000_0400 * 2160) by (nonlinear_arith)
        requires -0x8000_0000 <= inv <= 0x8000_0400, 0 <= h <= 2160;
    (scale_to_i32(x * w, VIRTUAL_WIDTH as i64), scale_to_i32(inv * h, VIRTUAL_HEIGHT as i64))
}

pub open spec fn model_name(m: DeviceModel) -> Seq<char> {
    match m {
        DeviceModel::Remarkable2 => "Remarkable2"@,
        DeviceModel::RemarkablePaperPro => "RemarkablePaperPro"@,
        DeviceModel::Unknown => "Unknown"@,
    }
}

pub open spec fn pen_device_path(m: DeviceModel) -> Seq<char> {
    match m {
        DeviceModel::RemarkablePaperPro => "/dev/input/event2"@,
        _ => "/dev/input/event1"@,
    }
}

pub open spec fn touch_device_path(m: DeviceModel) -> Seq<char> {
    match m {
        DeviceModel::RemarkablePaperPro => "/dev/input/event3"@,
        _ => "/dev/input/event2"@,
    }
}

/// Whether `pat` occurs in `s` starting at index `i`.
pub open spec fn occurs_at(s: Seq<u8>, pat: Seq<u8>, i: int) -> bool {
    0 <= i && i + pat.len() <= s.len() && s.subrange(i, i + pat.len()) == pat
}

pub open spec fn has_substring(s: Seq<u8>, pat: Seq<u8>) -> bool {
    exists|i: int| occurs_at(s, pat, i)
}

pub open spec fn ferrari_tag() -> Seq<u8> {
    seq![102u8, 101, 114, 114, 97, 114, 105]
}

pub open spec fn remarkable2_tag() -> Seq<u8> {
    seq![114u8, 101, 77, 97, 114, 107, 97, 98, 108, 101, 50]
}

/// The Paper Pro reports itself as "ferrari", the second generation as
/// "reMarkable2" (the tags below are their ASCII bytes); anything else is unknown.
pub open spec fn model_of_revision(text: Seq<u8>) -> DeviceModel {
    if has_substring(text, ferrari_tag()) {
        DeviceModel::RemarkablePaperPro
    } else if has_substring(text, remarkable2_tag()) {
        DeviceModel::Remarkable2
    } else {
        DeviceModel::Unknown
    }
}

/// Whether `pat` occurs in `s` starting at `i`, compared byte by byte.
fn matches_at(s: &[u8], pat: &[u8], i: usize) -> (r: bool)
    requires
        i + pat@.len() <= s@.len(),
    ensures
        r == occurs_at(s@, pat@, i as int),
{
    let mut k: usize = 0;
    while k < pat.len()
        invariant
            k <= pat@.len(),
            i + pat@.len() <= s@.len(),
            s@.len() == s.len(),
            pat@.len() == pat.len(),
            forall|j: int| 0 <= j < k ==> s@[i + j] == pat@[j],
        decreases pat@.len() - k,
    {
        if s[i + k] != pat[k] {
            assert(s@.subrange(i as int, i + pat@.len())[k as int] != pat@[k as int]);
            return false;
        }
        k = k + 1;
    }
    assert(s@.subrange(i as int, i + pat@.len()) =~= pat@);
    true
}

/// Whether `pat` occurs anywhere in `s`.
pub fn contains_bytes(s: &[u8], pat: &[u8]) -> (r: bool)
    ensures
        r == has_substring(s@, pat@),
{
    if pat.len() > s.len() {
        return false;
    }
    let last = s.len() - pat.len();
    let mut i: usize = 0;
    while i <= last
        invariant
            last == s@.len() - pat@.len(),
            pat@.len() <= s@.len(),
            i <= s@.len() - pat@.len() + 1,
            forall|j: int| 0 <= j < i ==> !occurs_at(s@, pat@, j),
        decreases s@.len() - i,
    {
        if matches_at(s, pat, i) {
            return true;
        }
        if i == last {
            return false;
        }
        i = i + 1;
    }
    false
}

proof fn lemma_scaled_within(v: int, full: int, max: int)
    requires
        0 <= v <= full,
        0 < full,
        0 <= max,
    ensures
        0 <= div_trunc(v * max, full) <= max,
{
    assert(0 <= v * max <= full * max) by (nonlinear_arith)
        requires 0 <= v <= full, 0 <= max;
    assert(0 <= (v * max) / full <= max) by (nonlinear_arith)
        requires 0 <= v * max <= full * max, 0 < full;
}

/// Every canvas point, corners included, lands inside the raw axes of both
/// digitizers. The pen's raw x axis spans `[0, pen_max_y]` and its y axis
/// `[0, pen_max_x]` on the models that swap axes, and `[0, pen_max_x]`,
/// `[0, pen_max_y]` on the Paper Pro; the touch axes span `[0, screen_width]`
/// and `[0, screen_height]`.
pub proof fn lemma_transforms_within_axes(m: DeviceModel, x: int, y: int)
    requires
        0 <= x <= VIRTUAL_WIDTH,
        0 <= y <= VIRTUAL_HEIGHT,
    ensures
        ({
            let p = pen_transform(m, x, y);
            match m {
                DeviceModel::RemarkablePaperPro => 0 <= p.0 <= spec_pen_max_x(m) && 0 <= p.1 <= spec_pen_max_y(m),
                _ => 0 <= p.0 <= spec_pen_max_y(m) && 0 <= p.1 <= spec_pen_max_x(m),
            }
        }),
        0 <= touch_transform(m, x, y).0 <= spec_screen_width(m),
        0 <= touch_transform(m, x, y).1 <= spec_screen_height(m),
{
    lemma_scaled_within(x, VIRTUAL_WIDTH as int, spec_pen_max_x(m));
    lemma_scaled_within(y, VIRTUAL_HEIGHT as int, spec_pen_max_y(m));
    lemma_scaled_within(VIRTUAL_HEIGHT - y, VIRTUAL_HEIGHT as int, spec_pen_max_y(m));
    lemma_scaled_within(x, VIRTUAL_WIDTH as int, spec_screen_width(m));
    lemma_scaled_within(VIRTUAL_HEIGHT - y, VIRTUAL_HEIGHT as int, spec_screen_height(m));
}

} // verus!
