//! Frame capture: the read-length check on raw display memory, and the
//! decoding of a raw framebuffer into an upright grayscale image.
use vstd::prelude::*;
use vstd::arithmetic::div_mod::lemma_fundamental_div_mod_converse;

use base64::Engine;

use crate::device::{spec_screen_height, spec_screen_width, DeviceModel, VIRTUAL_HEIGHT, VIRTUAL_WIDTH};

verus! {

/// Why a capture cycle was abandoned.
#[derive(Clone, Copy, Debug, PartialEq, Eq, Structural)]
pub enum CaptureError {
    /// No display process, or no framebuffer mapping in it.
    ProcessNotFound,
    /// Fewer bytes were available than one whole frame.
    ShortRead,
    /// The raw frame does not have the size of the panel.
    DecodeFailure,
    /// The decoded image could not be encoded for the model.
    EncodeFailure,
}

/// Bytes per pixel of the raw framebuffer.
pub const BYTES_PER_PIXEL: usize = 2;

/// Bytes of header that precede the pixels in the framebuffer mapping.
pub const FRAMEBUFFER_HEADER_SKIP: u64 = 7;

/// The tone curve that restores contrast to the washed-out panel signal, on an
/// intensity `v` in `0..=255` seen as the fraction `v / 255`: below 0.045 it is
/// black, from 0.06 up it is white, and in between it is stretched linearly
/// over the full range, `(v / 255 - 0.045) / 0.015 * 255`, rounded down.
pub open spec fn tone(v: int) -> int {
    if 200 * v < 2295 {
        0
    } else if 10 * v < 153 {
        (1000 * v - 11475) / 15
    } else {
        255
    }
}

/// Applies the tone curve to one intensity.
pub fn apply_curves(v: u8) -> (r: u8)
    ensures
        r as int == tone(v as int),
{
    if 200 * (v as u32) < 2295 {
        0
    } else if 10 * (v as u32) < 153 {
        ((1000 * (v as u32) - 11475) / 15) as u8
    } else {
        255
    }
}

/// The tone curve is black below the low threshold, white from the high one,
/// stays within `0..=255`, and never decreases.
pub proof fn lemma_tone_curve_monotone(a: int, b: int)
    requires
        0 <= a <= b <= 255,
    ensures
        200 * a < 2295 ==> tone(a) == 0,
        10 * a >= 153 ==> tone(a) == 255,
        0 <= tone(a) <= 255,
        tone(a) <= tone(b),
{
    if 200 * a >= 2295 && 10 * a < 153 {
        assert(35 <= (1000 * a - 11475) / 15 <= 235) by (nonlinear_arith)
            requires 12 <= a <= 15;
    }
    if 200 * b >= 2295 && 10 * b < 153 {
        assert(35 <= (1000 * b - 11475) / 15 <= 235) by (nonlinear_arith)
            requires 12 <= b <= 15;
        if 200 * a >= 2295 {
            assert((1000 * a - 11475) / 15 <= (1000 * b - 11475) / 15) by (nonlinear_arith)
                requires 12 <= a <= b;
        }
    }
}

/// Capturing again what was decoded keeps every black or white pixel: when
/// the intensity sample behind pixel `i` of a second frame holds the decoded
/// value of that pixel from a first frame, and that value is 0 or 255, the
/// second frame decodes to the same value there.
pub proof fn lemma_recapture_keeps_black_and_white(raw: Seq<u8>, raw2: Seq<u8>, width: int, height: int, i: int)
    requires
        0 < width,
        0 < height,
        0 <= i < width * height,
        decoded_pixel(raw, width, height, i) == 0 || decoded_pixel(raw, width, height, i) == 255,
        raw2[2 * ((height - 1 - i / width) + (width - 1 - i % width) * height) + 1] as int == decoded_pixel(
            raw,
            width,
            height,
            i,
        ),
    ensures
        decoded_pixel(raw2, width, height, i) == decoded_pixel(raw, width, height, i),
{
}

/// Only the high byte of each sample matters: two frames whose second bytes
/// agree decode to the same pixels.
pub proof fn lemma_low_bytes_ignored(raw: Seq<u8>, raw2: Seq<u8>, width: int, height: int, i: int)
    requires
        raw.len() == raw2.len(),
        forall|j: int| 0 <= j < raw.len() && j % 2 == 1 ==> #[trigger] raw[j] == raw2[j],
        0 < width,
        0 < height,
        0 <= i < width * height,
        raw.len() == frame_len(width, height),
    ensures
        decoded_pixel(raw2, width, height, i) == decoded_pixel(raw, width, height, i),
{
    let x = i % width;
    let y = i / width;
    let src = (height - 1 - y) + (width - 1 - x) * height;
    assert(0 <= x < width && 0 <= y < height) by (nonlinear_arith)
        requires 0 <= i < width * height, 0 < width, x == i % width, y == i / width;
    assert(0 <= src <= width * height - 1) by (nonlinear_arith)
        requires 0 <= x < width, 0 <= y < height, src == (height - 1 - y) + (width - 1 - x) * height;
    assert((2 * src + 1) % 2 == 1);
    assert(raw[2 * src + 1] == raw2[2 * src + 1]);
}

/// A frame of zero bytes decodes to an entirely black image.
pub proof fn lemma_zero_frame_is_black(raw: Seq<u8>, width: int, height: int, i: int)
    requires
        forall|j: int| 0 <= j < raw.len() ==> #[trigger] raw[j] == 0,
        0 < width,
        0 < height,
        0 <= i < width * height,
        raw.len() == frame_len(width, height),
    ensures
        decoded_pixel(raw, width, height, i) == 0,
{
    let x = i % width;
    let y = i / width;
    let src = (height - 1 - y) + (width - 1 - x) * height;
    assert(0 <= x < width && 0 <= y < height) by (nonlinear_arith)
        requires 0 <= i < width * height, 0 < width, x == i % width, y == i / width;
    assert(0 <= src <= width * height - 1) by (nonlinear_arith)
        requires 0 <= x < width, 0 <= y < height, src == (height - 1 - y) + (width - 1 - x) * height;
    assert(raw[2 * src + 1] == 0);
}

/// Raw display memory as read: one frame of two-byte pixels.
pub struct RawFrame {
    bytes: Vec<u8>,
}

impl View for RawFrame {
    type V = Seq<u8>;

    closed spec fn view(&self) -> Seq<u8> {
        self.bytes@
    }
}

impl RawFrame {
    pub fn new(bytes: Vec<u8>) -> (r: RawFrame)
        ensures
            r@ == bytes@,
    {
        RawFrame { bytes }
    }

    /// Checks what a read of display memory returned against the size of one
    /// frame: too few bytes is a short read; otherwise the frame is the first
    /// `expected` bytes.
    pub fn from_read(mut buf: Vec<u8>, expected: usize) -> (r: Result<RawFrame, CaptureError>)
        ensures
            buf@.len() < expected ==> r == Err::<RawFrame, CaptureError>(CaptureError::ShortRead),
            buf@.len() >= expected ==> r is Ok && r->Ok_0@ == buf@.subrange(0, expected as int),
    {
        if buf.len() < expected {
            return Err(CaptureError::ShortRead);
        }
        buf.truncate(expected);
        Ok(RawFrame { bytes: buf })
    }

    pub fn len(&self) -> (r: usize)
        ensures
            r == self@.len(),
    {
        self.bytes.len()
    }
}

/// Number of bytes in a raw frame of a `width` by `height` panel.
pub open spec fn frame_len(width: int, height: int) -> int {
    width * height * BYTES_PER_PIXEL
}

/// Pixel `i` (row-major, top-left origin) of the decoded image. The panel is
/// mounted rotated: destination `(x, y)` comes from sample
/// `(height - 1 - y) + (width - 1 - x) * height`, and of each two-byte sample
/// only the high byte (the second) holds intensity.
pub open spec fn decoded_pixel(raw: Seq<u8>, width: int, height: int, i: int) -> int {
    let x = i % width;
    let y = i / width;
    tone(raw[2 * ((height - 1 - y) + (width - 1 - x) * height) + 1] as int)
}

/// An upright 8-bit grayscale image, row-major with the origin top left.
pub struct DecodedImage {
    width: usize,
    height: usize,
    pixels: Vec<u8>,
}

impl View for DecodedImage {
    type V = Seq<u8>;

    closed spec fn view(&self) -> Seq<u8> {
        self.pixels@
    }
}

impl DecodedImage {
    /// One byte per pixel.
    pub closed spec fn wf(&self) -> bool {
        self.pixels@.len() == self.width * self.height
    }

    pub closed spec fn spec_width(&self) -> nat {
        self.width as nat
    }

    pub closed spec fn spec_height(&self) -> nat {
        self.height as nat
    }

    pub fn width(&self) -> (r: usize)
        ensures
            r == self.spec_width(),
    {
        self.width
    }

    pub fn height(&self) -> (r: usize)
        ensures
            r == self.spec_height(),
    {
        self.height
    }

    pub fn pixels(&self) -> (r: &Vec<u8>)
        ensures
            r@ == self@,
    {
        &self.pixels
    }
}

/// Decodes a raw frame of a `width` by `height` panel. A frame of any other
/// size than `width * height * 2` bytes is a decode failure, and no image is made.
pub fn decode(raw: &RawFrame, width: usize, height: usize) -> (r: Result<DecodedImage, CaptureError>)
    ensures
        raw@.len() != frame_len(width as int, height as int) ==> r == Err::<DecodedImage, CaptureError>(
            CaptureError::DecodeFailure,
        ),
        raw@.len() == frame_len(width as int, height as int) ==> {
            &&& r is Ok
            &&& r->Ok_0.wf()
            &&& r->Ok_0.spec_width() == width
            &&& r->Ok_0.spec_height() == height
            &&& r->Ok_0@.len() == width * height
            &&& forall|i: int|
                0 <= i < width * height ==> #[trigger] r->Ok_0@[i] as int == decoded_pixel(raw@, width as int, height as int, i)
        },
{
    let len = raw.len();
    let n = match width.checked_mul(height) {
        Some(n) => n,
        None => {
            assert(len != frame_len(width as int, height as int)) by (nonlinear_arith)
                requires len <= usize::MAX, width * height > usize::MAX;
            return Err(CaptureError::DecodeFailure);
        },
    };
    if n > usize::MAX / 2 || len != n * 2 {
        return Err(CaptureError::DecodeFailure);
    }
    let mut pixels: Vec<u8> = Vec::with_capacity(n);
    let mut y: usize = 0;
    while y < height
        invariant
            n == width * height,
            raw@.len() == 2 * n,
            2 * n <= usize::MAX,
            y <= height,
            pixels@.len() == y * width,
            forall|i: int|
                0 <= i < pixels@.len() ==> #[trigger] pixels@[i] as int == decoded_pixel(raw@, width as int, height as int, i),
        decreases height - y,
    {
        let mut x: usize = 0;
        while x < width
            invariant
                n == width * height,
                raw@.len() == 2 * n,
                2 * n <= usize::MAX,
                y < height,
                x <= width,
                pixels@.len() == y * width + x,
                forall|i: int|
                    0 <= i < pixels@.len() ==> #[trigger] pixels@[i] as int == decoded_pixel(raw@, width as int, height as int, i),
            decreases width - x,
        {
            assert((width - 1 - x) * height + (height - 1 - y) <= width * height - 1) by (nonlinear_arith)
                requires x < width, y < height;
            let src = (height - 1 - y) + (width - 1 - x) * height;
            let v = apply_curves(raw.bytes[2 * src + 1]);
            proof {
                lemma_fundamental_div_mod_converse((y * width + x) as int, width as int, y as int, x as int);
            }
            pixels.push(v);
            x = x + 1;
        }
        assert(pixels@.len() == (y + 1) * width) by (nonlinear_arith)
            requires pixels@.len() == y * width + width;
        y = y + 1;
    }
    assert(pixels@.len() == width * height) by (nonlinear_arith)
        requires pixels@.len() == y * width, y == height;
    Ok(DecodedImage { width, height, pixels })
}

// ---------------------------------------------------------------------------
// Locating the framebuffer in a process's memory map

/// Index of the first `b` in `s` at or after `from`, or `s.len()` if there is none.
pub open spec fn find_byte(s: Seq<u8>, b: u8, from: int) -> int
    decreases s.len() - from,
{
    if from < 0 || from >= s.len() {
        s.len() as int
    } else if s[from] == b {
        from
    } else {
        find_byte(s, b, from + 1)
    }
}

/// A mapping line names the device when its pathname field, the end of the
/// line after a space, is the device path.
pub open spec fn names_device(line: Seq<u8>, dev: Seq<u8>) -> bool {
    &&& dev.len() > 0
    &&& line.len() > dev.len()
    &&& line.subrange(line.len() - dev.len(), line.len() as int) == dev
    &&& line[line.len() - dev.len() - 1] == 32
}

/// Start and end of the first line at or after `from` that names the device.
pub open spec fn device_line_from(maps: Seq<u8>, dev: Seq<u8>, from: int) -> Option<(int, int)>
    decreases maps.len() - from,
{
    if from < 0 || from >= maps.len() {
        None
    } else {
        let end = find_byte(maps, 10, from);
        if names_device(maps.subrange(from, end), dev) {
            Some((from, end))
        } else if from <= end < maps.len() {
            device_line_from(maps, dev, end + 1)
        } else {
            None
        }
    }
}

pub open spec fn hex_digit_value(c: u8) -> int {
    if 48 <= c <= 57 {
        c - 48
    } else if 97 <= c <= 102 {
        c - 87
    } else if 65 <= c <= 70 {
        c - 55
    } else {
        -1
    }
}

pub open spec fn all_hex(s: Seq<u8>) -> bool {
    forall|i: int| 0 <= i < s.len() ==> hex_digit_value(#[trigger] s[i]) >= 0
}

pub open spec fn hex_value(s: Seq<u8>) -> int
    decreases s.len(),
{
    if s.len() == 0 {
        0
    } else {
        hex_value(s.drop_last()) * 16 + hex_digit_value(s.last())
    }
}

/// The usable offset of a mapping line: its start address, the hexadecimal
/// number before the first `-`, plus the header skip. A line whose start is
/// empty, not hexadecimal, or longer than sixteen digits has none.
pub open spec fn mapping_offset(line: Seq<u8>) -> Option<int> {
    let dash = find_byte(line, 45, 0);
    let start = line.subrange(0, dash);
    if dash < line.len() && 0 < dash <= 16 && all_hex(start) && hex_value(start) + FRAMEBUFFER_HEADER_SKIP
        <= u64::MAX {
        Some(hex_value(start) + FRAMEBUFFER_HEADER_SKIP)
    } else {
        None
    }
}

/// The framebuffer offset that a memory map gives for a device: that of the
/// first line naming the device.
pub open spec fn framebuffer_offset_in(maps: Seq<u8>, dev: Seq<u8>) -> Option<int> {
    match device_line_from(maps, dev, 0) {
        Some(l) => mapping_offset(maps.subrange(l.0, l.1)),
        None => None,
    }
}

fn find_byte_exec(s: &[u8], b: u8, from: usize) -> (r: usize)
    requires
        from <= s@.len(),
    ensures
        r as int == find_byte(s@, b, from as int),
        from <= r <= s@.len(),
{
    let mut i = from;
    while i < s.len()
        invariant
            from <= i <= s@.len(),
            find_byte(s@, b, from as int) == find_byte(s@, b, i as int),
        decreases s@.len() - i,
    {
        if s[i] == b {
            return i;
        }
        i = i + 1;
    }
    i
}

fn names_device_exec(s: &[u8], from: usize, end: usize, dev: &[u8]) -> (r: bool)
    requires
        from <= end <= s@.len(),
    ensures
        r == names_device(s@.subrange(from as int, end as int), dev@),
{
    let ghost line = s@.subrange(from as int, end as int);
    let n = dev.len();
    if n == 0 || end - from <= n {
        return false;
    }
    let base = end - n;
    if s[base - 1] != 32 {
        return false;
    }
    let mut k: usize = 0;
    while k < n
        invariant
            n == dev@.len(),
            base == end - n,
            from < base,
            end <= s@.len(),
            k <= n,
            line == s@.subrange(from as int, end as int),
            forall|j: int| 0 <= j < k ==> s@[base + j] == dev@[j],
        decreases n - k,
    {
        if s[base + k] != dev[k] {
            assert(line.subrange(line.len() - n, line.len() as int)[k as int] != dev@[k as int]);
            return false;
        }
        k = k + 1;
    }
    assert(line.subrange(line.len() - n, line.len() as int) =~= dev@);
    true
}

/// Start and end of the first line of `maps` that names `dev`.
pub fn find_device_line(maps: &[u8], dev: &[u8]) -> (r: Option<(usize, usize)>)
    ensures
        match r {
            Some(l) => device_line_from(maps@, dev@, 0) == Some((l.0 as int, l.1 as int)),
            None => device_line_from(maps@, dev@, 0) is None,
        },
        r matches Some(l) ==> l.0 <= l.1 <= maps@.len(),
{
    let mut from: usize = 0;
    while from < maps.len()
        invariant
            from <= maps@.len(),
            device_line_from(maps@, dev@, 0) == device_line_from(maps@, dev@, from as int),
        decreases maps@.len() - from,
    {
        let end = find_byte_exec(maps, 10, from);
        if names_device_exec(maps, from, end, dev) {
            return Some((from, end));
        }
        if end == maps.len() {
            assert(device_line_from(maps@, dev@, end + 1) is None);
            return None;
        }
        from = end + 1;
    }
    None
}

fn hex_digit(c: u8) -> (r: i32)
    ensures
        r as int == hex_digit_value(c),
{
    if 48 <= c && c <= 57 {
        (c - 48) as i32
    } else if 97 <= c && c <= 102 {
        (c - 87) as i32
    } else if 65 <= c && c <= 70 {
        (c - 55) as i32
    } else {
        -1
    }
}

proof fn lemma_hex_value_bound(s: Seq<u8>)
    requires
        all_hex(s),
    ensures
        0 <= hex_value(s) < pow16(s.len()),
    decreases s.len(),
{
    if s.len() > 0 {
        assert(all_hex(s.drop_last())) by {
            assert forall|i: int| 0 <= i < s.drop_last().len() implies hex_digit_value(#[trigger] s.drop_last()[i]) >= 0 by {
                assert(s.drop_last()[i] == s[i]);
            }
        }
        lemma_hex_value_bound(s.drop_last());
        assert(hex_digit_value(s[s.len() - 1]) >= 0);
        let h = hex_value(s.drop_last());
        let p = pow16((s.len() - 1) as nat);
        assert(h * 16 + hex_digit_value(s.last()) < p * 16) by (nonlinear_arith)
            requires 0 <= h < p, 0 <= hex_digit_value(s.last()) < 16;
    }
}

pub open spec fn pow16(n: nat) -> int
    decreases n,
{
    if n == 0 {
        1
    } else {
        16 * pow16((n - 1) as nat)
    }
}

proof fn lemma_pow16_16()
    ensures
        pow16(16) == 0x1_0000_0000_0000_0000,
{
    reveal_with_fuel(pow16, 17);
}

proof fn lemma_pow16_mono(a: nat, b: nat)
    requires
        a <= b,
    ensures
        pow16(a) <= pow16(b),
    decreases b,
{
    if a < b {
        lemma_pow16_mono(a, (b - 1) as nat);
        assert(pow16((b - 1) as nat) >= 1) by {
            lemma_pow16_pos((b - 1) as nat);
        }
    }
}

proof fn lemma_pow16_pos(n: nat)
    ensures
        pow16(n) >= 1,
    decreases n,
{
    if n > 0 {
        lemma_pow16_pos((n - 1) as nat);
    }
}

/// The offset of the mapping line `s[from..end]`.
fn parse_mapping_offset(s: &[u8], from: usize, end: usize) -> (r: Option<u64>)
    requires
        from <= end <= s@.len(),
    ensures
        match r {
            Some(v) => mapping_offset(s@.subrange(from as int, end as int)) == Some(v as int),
            None => mapping_offset(s@.subrange(from as int, end as int)) is None,
        },
{
    let ghost line = s@.subrange(from as int, end as int);
    let mut dash = from;
    while dash < end && s[dash] != 45
        invariant
            from <= dash <= end,
            end <= s@.len(),
            line == s@.subrange(from as int, end as int),
            find_byte(line, 45, 0) == find_byte(line, 45, dash - from),
        decreases end - dash,
    {
        assert(line[dash - from] == s@[dash as int]);
        dash = dash + 1;
    }
    if dash < end {
        assert(line[dash - from] == s@[dash as int]);
        assert(find_byte(line, 45, (dash - from) as int) == dash - from);
    } else {
        assert(find_byte(line, 45, (dash - from) as int) == line.len());
    }
    let ghost start = line.subrange(0, dash - from);
    if dash == end || dash == from || dash - from > 16 {
        return None;
    }
    let mut acc: u64 = 0;
    let mut i = from;
    while i < dash
        invariant
            from <= i <= dash,
            dash - from <= 16,
            dash <= end <= s@.len(),
            line == s@.subrange(from as int, end as int),
            start == line.subrange(0, dash - from),
            find_byte(line, 45, 0) == dash - from,
            dash < end,
            all_hex(start.subrange(0, i - from)),
            acc as int == hex_value(start.subrange(0, i - from)),
        decreases dash - i,
    {
        let d = hex_digit(s[i]);
        assert(start[i - from] == s@[i as int]);
        if d < 0 {
            assert(!all_hex(start));
            return None;
        }
        let ghost pre = start.subrange(0, i - from);
        let ghost next = start.subrange(0, i - from + 1);
        assert(next.drop_last() =~= pre);
        assert(all_hex(next)) by {
            assert forall|k: int| 0 <= k < next.len() implies hex_digit_value(#[trigger] next[k]) >= 0 by {
                if k < pre.len() {
                    assert(next[k] == pre[k]);
                }
            }
        }
        proof {
            lemma_hex_value_bound(next);
            lemma_pow16_mono(next.len(), 16);
            lemma_pow16_16();
        }
        acc = acc * 16 + d as u64;
        i = i + 1;
    }
    assert(start.subrange(0, dash - from) =~= start);
    if acc > u64::MAX - FRAMEBUFFER_HEADER_SKIP {
        return None;
    }
    Some(acc + FRAMEBUFFER_HEADER_SKIP)
}

/// Finds where the pixels of the framebuffer device `dev` lie in a process's
/// memory, from that process's memory-map listing (lines of the form
/// `<start>-<end> <perms> <offset> <dev> <inode> <pathname>`): the start of
/// the first mapping of `dev`, plus the header skip. No such mapping, or an
/// unreadable start address, means the display process was not found.
pub fn framebuffer_offset(maps: &[u8], dev: &[u8]) -> (r: Result<u64, CaptureError>)
    ensures
        match framebuffer_offset_in(maps@, dev@) {
            Some(v) => r == Ok::<u64, CaptureError>(v as u64),
            None => r == Err::<u64, CaptureError>(CaptureError::ProcessNotFound),
        },
{
    match find_device_line(maps, dev) {
        Some((from, end)) => match parse_mapping_offset(maps, from, end) {
            Some(v) => Ok(v),
            None => Err(CaptureError::ProcessNotFound),
        },
        None => Err(CaptureError::ProcessNotFound),
    }
}

/// Picks the display process: the first candidate, a process id with its
/// memory-map listing, that maps the framebuffer device.
pub fn select_display_process(candidates: &Vec<(u32, Vec<u8>)>, dev: &[u8]) -> (r: Result<u32, CaptureError>)
    ensures
        match r {
            Ok(pid) => exists|k: int|
                0 <= k < candidates@.len() && #[trigger] candidates@[k].0 == pid
                    && device_line_from(candidates@[k].1@, dev@, 0) is Some
                    && forall|j: int| 0 <= j < k ==> device_line_from(#[trigger] candidates@[j].1@, dev@, 0) is None,
            Err(e) => e == CaptureError::ProcessNotFound && forall|j: int|
                0 <= j < candidates@.len() ==> device_line_from(#[trigger] candidates@[j].1@, dev@, 0) is None,
        },
{
    let mut k: usize = 0;
    while k < candidates.len()
        invariant
            k <= candidates@.len(),
            forall|j: int| 0 <= j < k ==> device_line_from(#[trigger] candidates@[j].1@, dev@, 0) is None,
        decreases candidates@.len() - k,
    {
        let c = &candidates[k];
        if find_device_line(c.1.as_slice(), dev).is_some() {
            return Ok(c.0);
        }
        k = k + 1;
    }
    Err(CaptureError::ProcessNotFound)
}

// ---------------------------------------------------------------------------
// The screenshot handed to the vision model

/// The image `imageops::resize` of the image crate makes of a grayscale image.
pub uninterp spec fn resampled_of(pixels: Seq<u8>, width: nat, height: nat, new_width: nat, new_height: nat) -> Seq<u8>;

/// The PNG file the image crate's `PngEncoder` writes for a grayscale image.
pub uninterp spec fn png_of(pixels: Seq<u8>, width: nat, height: nat) -> Seq<u8>;

/// The standard, padded base64 text of some bytes.
pub uninterp spec fn base64_of(data: Seq<u8>) -> Seq<char>;

/// Relies on the image crate's `imageops::resize` with a triangle filter: an
/// image of the new size, one byte per pixel.
#[verifier::external_body]
fn resample(pixels: &Vec<u8>, width: u32, height: u32, new_width: u32, new_height: u32) -> (r: Vec<u8>)
    requires
        pixels@.len() == width * height,
    ensures
        r@ == resampled_of(pixels@, width as nat, height as nat, new_width as nat, new_height as nat),
        r@.len() == new_width * new_height,
{
    let img = image::GrayImage::from_raw(width, height, pixels.clone()).unwrap();
    image::imageops::resize(&img, new_width, new_height, image::imageops::FilterType::Triangle).into_raw()
}

/// Relies on the image crate's `PngEncoder::write_image`, which panics unless
/// the buffer holds one byte per pixel; the png encoder refuses only a zero
/// width or height, and writing into a `Vec` does not fail.
#[verifier::external_body]
fn encode_png(pixels: &Vec<u8>, width: u32, height: u32) -> (r: Option<Vec<u8>>)
    requires
        pixels@.len() == width * height,
    ensures
        r is Some <==> (0 < width && 0 < height),
        r matches Some(png) ==> png@ == png_of(pixels@, width as nat, height as nat),
{
    let mut png = Vec::new();
    let encoder = image::codecs::png::PngEncoder::new(&mut png);
    match image::ImageEncoder::write_image(encoder, pixels, width, height, image::ExtendedColorType::L8) {
        Ok(()) => Some(png),
        Err(_) => None,
    }
}

/// Relies on base64's `STANDARD` engine: padded output, four characters for
/// each started group of three bytes.
#[verifier::external_body]
fn to_base64(data: &Vec<u8>) -> (r: String)
    ensures
        r@ == base64_of(data@),
        r@.len() == 4 * ((data@.len() + 2) / 3),
{
    base64::engine::general_purpose::STANDARD.encode(data)
}

/// The decoded image of a raw frame, pixel by pixel.
pub open spec fn decoded_image(raw: Seq<u8>, width: int, height: int) -> Seq<u8> {
    Seq::new((width * height) as nat, |i: int| decoded_pixel(raw, width, height, i) as u8)
}

/// A capture of the display, as the PNG file given to the vision model.
pub struct Screenshot {
    png: Vec<u8>,
}

impl View for Screenshot {
    type V = Seq<u8>;

    closed spec fn view(&self) -> Seq<u8> {
        self.png@
    }
}

impl Screenshot {
    /// Decodes a raw frame of the model's panel, scales it down to the canvas
    /// size, and encodes it as PNG.
    pub fn from_frame(raw: &RawFrame, model: DeviceModel) -> (r: Result<Screenshot, CaptureError>)
        ensures
            raw@.len() != frame_len(spec_screen_width(model), spec_screen_height(model)) ==> r == Err::<
                Screenshot,
                CaptureError,
            >(CaptureError::DecodeFailure),
            raw@.len() == frame_len(spec_screen_width(model), spec_screen_height(model)) ==> r is Ok,
            r matches Ok(s) ==> s@ == png_of(
                resampled_of(
                    decoded_image(raw@, spec_screen_width(model), spec_screen_height(model)),
                    spec_screen_width(model) as nat,
                    spec_screen_height(model) as nat,
                    VIRTUAL_WIDTH as nat,
                    VIRTUAL_HEIGHT as nat,
                ),
                VIRTUAL_WIDTH as nat,
                VIRTUAL_HEIGHT as nat,
            ),
    {
        let w = model.screen_width();
        let h = model.screen_height();
        let img = decode(raw, w as usize, h as usize)?;
        let ghost expected = decoded_image(raw@, w as int, h as int);
        assert(img@ =~= expected);
        let small = resample(img.pixels(), w, h, VIRTUAL_WIDTH as u32, VIRTUAL_HEIGHT as u32);
        match encode_png(&small, VIRTUAL_WIDTH as u32, VIRTUAL_HEIGHT as u32) {
            Some(png) => Ok(Screenshot { png }),
            None => {
                assert(false);
                Err(CaptureError::EncodeFailure)
            },
        }
    }

    /// A screenshot taken from a PNG file that is already at hand.
    pub fn from_png(png: Vec<u8>) -> (r: Screenshot)
        ensures
            r@ == png@,
    {
        Screenshot { png }
    }

    /// The PNG file.
    pub fn data(&self) -> (r: &Vec<u8>)
        ensures
            r@ == self@,
    {
        &self.png
    }

    /// The PNG file as base64 text, as image payloads of model requests carry it.
    pub fn base64(&self) -> (r: String)
        ensures
            r@ == base64_of(self@),
    {
        to_base64(&self.png)
    }
}

} // verus!
