//! The stroke actuator: turns canvas points, lines, bitmaps and polylines into
//! a sequence of pen actions that a digitizer-emulation device replays.
use vstd::prelude::*;

use crate::device::{pen_transform, spec_pen_max_x, spec_pen_max_y, DeviceModel};
use crate::events::{rec, record, syn_report, InputRecord, EV_ABS, EV_KEY, EV_SYN};

verus! {

/// Pressure reported while the pen touches the surface.
pub const FULL_PRESSURE: i32 = 2630;

/// Hover distance reported after the pen is lifted.
pub const LIFT_DISTANCE: i32 = 100;

/// Number of line samples between two short pauses.
pub const LINE_PAUSE_EVERY: u64 = 200;

/// One thing the pen does: move to a raw digitizer position, touch down,
/// lift, or wait the given number of milliseconds.
#[derive(Clone, Copy, Debug, PartialEq, Eq, Structural)]
pub enum PenAction {
    Goto(i32, i32),
    Down,
    Up,
    Pause(u32),
}

/// The records that make the hardware perform an action; a pause sends none.
pub open spec fn action_records(a: PenAction) -> Seq<InputRecord> {
    match a {
        PenAction::Goto(x, y) => seq![rec(EV_ABS, 0, x), rec(EV_ABS, 1, y), syn_report()],
        PenAction::Down => seq![
            rec(EV_KEY, 320, 1),
            rec(EV_KEY, 330, 1),
            rec(EV_ABS, 24, FULL_PRESSURE),
            rec(EV_ABS, 25, 0),
            syn_report(),
        ],
        PenAction::Up => seq![
            rec(EV_ABS, 24, 0),
            rec(EV_ABS, 25, LIFT_DISTANCE),
            rec(EV_KEY, 330, 0),
            rec(EV_KEY, 320, 0),
            syn_report(),
        ],
        PenAction::Pause(_) => seq![],
    }
}

/// Builds the records of `action_records`: position axes for a move; tool,
/// touch, pressure and distance for a touch-down or a lift.
pub fn pen_action_records(a: PenAction) -> (r: Vec<InputRecord>)
    ensures
        r@ == action_records(a),
{
    let r = match a {
        PenAction::Goto(x, y) => vec![record(EV_ABS, 0, x), record(EV_ABS, 1, y), record(EV_SYN, 0, 0)],
        PenAction::Down => vec![
            record(EV_KEY, 320, 1),
            record(EV_KEY, 330, 1),
            record(EV_ABS, 24, FULL_PRESSURE),
            record(EV_ABS, 25, 0),
            record(EV_SYN, 0, 0),
        ],
        PenAction::Up => vec![
            record(EV_ABS, 24, 0),
            record(EV_ABS, 25, LIFT_DISTANCE),
            record(EV_KEY, 330, 0),
            record(EV_KEY, 320, 0),
            record(EV_SYN, 0, 0),
        ],
        PenAction::Pause(_) => Vec::new(),
    };
    assert(r@ =~= action_records(a));
    r
}

// ---------------------------------------------------------------------------
// Lines

pub open spec fn abs_diff(a: int, b: int) -> int {
    if a >= b {
        a - b
    } else {
        b - a
    }
}

/// The least `n >= 0` with `n * n >= s`: the straight-line length of a
/// segment whose squared length is `s`, rounded up.
pub open spec fn ceil_sqrt(s: int) -> int
    decreases s,
{
    if s <= 0 {
        0
    } else {
        let r = ceil_sqrt(s - 1);
        if r * r >= s {
            r
        } else {
            r + 1
        }
    }
}

pub open spec fn is_ceil_sqrt(n: int, s: int) -> bool {
    &&& n >= 0
    &&& n * n >= s
    &&& (n == 0 || (n - 1) * (n - 1) < s)
}

proof fn lemma_ceil_sqrt(s: int)
    requires
        s >= 0,
    ensures
        is_ceil_sqrt(ceil_sqrt(s), s),
    decreases s,
{
    if s > 0 {
        lemma_ceil_sqrt(s - 1);
        let r = ceil_sqrt(s - 1);
        if r * r < s {
            assert((r + 1) * (r + 1) >= s) by (nonlinear_arith)
                requires r * r >= s - 1, r >= 0;
        }
    }
}

proof fn lemma_ceil_sqrt_unique(n: int, s: int)
    requires
        s >= 0,
        is_ceil_sqrt(n, s),
    ensures
        n == ceil_sqrt(s),
{
    lemma_ceil_sqrt(s);
    let c = ceil_sqrt(s);
    if n < c {
        assert((c - 1) * (c - 1) >= n * n) by (nonlinear_arith)
            requires 0 <= n <= c - 1;
    }
    if c < n {
        assert((n - 1) * (n - 1) >= c * c) by (nonlinear_arith)
            requires 0 <= c <= n - 1;
    }
}

/// Number of samples of a line: its length rounded up, so that consecutive
/// samples are at most one unit apart.
pub open spec fn line_steps(x1: int, y1: int, x2: int, y2: int) -> int {
    ceil_sqrt((x2 - x1) * (x2 - x1) + (y2 - y1) * (y2 - y1))
}

/// Sample `i` of `n` evenly spaced ones from `a` toward `b`, rounded toward `a`.
pub open spec fn interp(a: int, b: int, i: int, n: int) -> int {
    if n == 0 {
        a
    } else if b >= a {
        a + (b - a) * i / n
    } else {
        a - (a - b) * i / n
    }
}

pub open spec fn line_sample(x1: i32, y1: i32, x2: i32, y2: i32, i: int) -> PenAction {
    let n = line_steps(x1 as int, y1 as int, x2 as int, y2 as int);
    PenAction::Goto(interp(x1 as int, x2 as int, i, n) as i32, interp(y1 as int, y2 as int, i, n) as i32)
}

/// The move to sample `i`, followed by a short pause every `LINE_PAUSE_EVERY` samples.
pub open spec fn line_step(x1: i32, y1: i32, x2: i32, y2: i32, i: int) -> Seq<PenAction> {
    if i % (LINE_PAUSE_EVERY as int) == 0 {
        seq![line_sample(x1, y1, x2, y2, i), PenAction::Pause(1)]
    } else {
        seq![line_sample(x1, y1, x2, y2, i)]
    }
}

pub open spec fn line_actions_upto(x1: i32, y1: i32, x2: i32, y2: i32, k: nat) -> Seq<PenAction>
    decreases k,
{
    if k == 0 {
        seq![]
    } else {
        line_actions_upto(x1, y1, x2, y2, (k - 1) as nat) + line_step(x1, y1, x2, y2, k - 1)
    }
}

/// Moves through the samples `i` in `0..n` of the segment from `p1` toward
/// `p2`, `n` being its length rounded up: the start is visited, the end is not.
pub open spec fn line_actions(p1: (i32, i32), p2: (i32, i32)) -> Seq<PenAction> {
    let n = line_steps(p1.0 as int, p1.1 as int, p2.0 as int, p2.1 as int);
    line_actions_upto(p1.0, p1.1, p2.0, p2.1, n as nat)
}

/// Sample `i` of `n` between two `i32` values, computed without overflow.
fn interp_exec(a: i32, b: i32, i: u64, n: u64) -> (r: i32)
    requires
        0 < n <= 0x2_0000_0000,
        i <= n,
    ensures
        r as int == interp(a as int, b as int, i as int, n as int),
{
    let d: u128 = if b >= a {
        (b as i64 - a as i64) as u128
    } else {
        (a as i64 - b as i64) as u128
    };
    let ii = i as u128;
    let nn = n as u128;
    assert(d * ii <= 0xffff_ffff * 0x2_0000_0000) by (nonlinear_arith)
        requires d <= 0xffff_ffff, ii <= 0x2_0000_0000;
    let off = d * ii / nn;
    assert((d as int) * (ii as int) / (nn as int) <= d as int) by (nonlinear_arith)
        requires ii <= nn, 0 < nn, d >= 0;
    if b >= a {
        (a as i64 + off as i64) as i32
    } else {
        (a as i64 - off as i64) as i32
    }
}

/// Number of samples of the line between two points.
fn line_steps_exec(x1: i32, y1: i32, x2: i32, y2: i32) -> (n: u64)
    ensures
        n as int == line_steps(x1 as int, y1 as int, x2 as int, y2 as int),
        n <= 0x2_0000_0000,
{
    let dx: u128 = if x2 >= x1 {
        (x2 as i64 - x1 as i64) as u128
    } else {
        (x1 as i64 - x2 as i64) as u128
    };
    let dy: u128 = if y2 >= y1 {
        (y2 as i64 - y1 as i64) as u128
    } else {
        (y1 as i64 - y2 as i64) as u128
    };
    assert(dx * dx <= 0xffff_ffff * 0xffff_ffff) by (nonlinear_arith)
        requires dx <= 0xffff_ffff;
    assert(dy * dy <= 0xffff_ffff * 0xffff_ffff) by (nonlinear_arith)
        requires dy <= 0xffff_ffff;
    let s: u128 = dx * dx + dy * dy;
    assert(s as int == (x2 - x1) * (x2 - x1) + (y2 - y1) * (y2 - y1)) by (nonlinear_arith)
        requires
            dx as int == abs_diff(x1 as int, x2 as int),
            dy as int == abs_diff(y1 as int, y2 as int),
            s == dx * dx + dy * dy;
    let mut lo: u128 = 0;
    let mut hi: u128 = 0x2_0000_0000;
    assert(hi * hi >= s);
    while lo < hi
        invariant
            lo <= hi <= 0x2_0000_0000,
            hi * hi >= s,
            lo == 0 || (lo - 1) * (lo - 1) < s,
        decreases hi - lo,
    {
        let mid = lo + (hi - lo) / 2;
        assert(mid * mid <= 0x2_0000_0000 * 0x2_0000_0000) by (nonlinear_arith)
            requires mid <= 0x2_0000_0000;
        if mid * mid >= s {
            hi = mid;
        } else {
            lo = mid + 1;
        }
    }
    proof {
        lemma_ceil_sqrt_unique(hi as int, s as int);
    }
    hi as u64
}

// ---------------------------------------------------------------------------
// Bitmaps

/// A move to the raw position of a canvas point.
pub open spec fn canvas_goto(m: DeviceModel, x: int, y: int) -> PenAction {
    let t = pen_transform(m, x, y);
    PenAction::Goto(t.0 as i32, t.1 as i32)
}

/// Actions for the first `k` pixels of row `y`, and whether the pen is left down.
/// A run of ink is entered with a touch-down and left with a lift.
pub open spec fn row_scan(m: DeviceModel, row: Seq<bool>, y: int, k: nat) -> (Seq<PenAction>, bool)
    decreases k,
{
    if k == 0 {
        (seq![], false)
    } else {
        let prev = row_scan(m, row, y, (k - 1) as nat);
        let x = k - 1;
        if row[x] {
            let start = if prev.1 {
                seq![]
            } else {
                seq![canvas_goto(m, x, y), PenAction::Down, PenAction::Pause(1)]
            };
            (prev.0 + start + seq![canvas_goto(m, x, y), canvas_goto(m, x + 1, y)], true)
        } else if prev.1 {
            (prev.0 + seq![PenAction::Up, PenAction::Pause(1)], false)
        } else {
            (prev.0, false)
        }
    }
}

/// A whole row: its runs, then a lift and a longer pause.
pub open spec fn row_actions(m: DeviceModel, row: Seq<bool>, y: int) -> Seq<PenAction> {
    row_scan(m, row, y, row.len()).0 + seq![PenAction::Up, PenAction::Pause(5)]
}

pub open spec fn bitmap_actions_upto(m: DeviceModel, rows: Seq<Seq<bool>>, k: nat) -> Seq<PenAction>
    decreases k,
{
    if k == 0 {
        seq![]
    } else {
        bitmap_actions_upto(m, rows, (k - 1) as nat) + row_actions(m, rows[k - 1], k - 1)
    }
}

/// The row-by-row scan of a whole bitmap.
pub open spec fn bitmap_actions(m: DeviceModel, rows: Seq<Seq<bool>>) -> Seq<PenAction> {
    bitmap_actions_upto(m, rows, rows.len())
}

/// Every pixel coordinate of the bitmap, and the one past each row's end, fits in `i32`.
pub open spec fn bitmap_fits(rows: Seq<Seq<bool>>) -> bool {
    &&& rows.len() <= i32::MAX
    &&& forall|y: int| 0 <= y < rows.len() ==> #[trigger] rows[y].len() < i32::MAX
}

// ---------------------------------------------------------------------------
// Polylines

pub open spec fn canvas_point(m: DeviceModel, p: (i32, i32)) -> (i32, i32) {
    let t = pen_transform(m, p.0 as int, p.1 as int);
    (t.0 as i32, t.1 as i32)
}

/// The lines between consecutive points among the first `k`, skipping zero-length ones.
pub open spec fn segments_upto(m: DeviceModel, pl: Seq<(i32, i32)>, k: nat) -> Seq<PenAction>
    decreases k,
{
    if k <= 1 {
        seq![]
    } else {
        let a = pl[k - 2];
        let b = pl[k - 1];
        let seg = if a != b {
            line_actions(canvas_point(m, a), canvas_point(m, b))
        } else {
            seq![]
        };
        segments_upto(m, pl, (k - 1) as nat) + seg
    }
}

/// One polyline: lift, move to its start, touch down, draw, lift.
pub open spec fn polyline_actions(m: DeviceModel, pl: Seq<(i32, i32)>) -> Seq<PenAction> {
    if pl.len() == 0 {
        seq![]
    } else {
        seq![PenAction::Up, PenAction::Pause(10), canvas_goto(m, pl[0].0 as int, pl[0].1 as int),
            PenAction::Down, PenAction::Pause(50)] + segments_upto(m, pl, pl.len()) + seq![PenAction::Up]
    }
}

pub open spec fn polylines_actions_upto(m: DeviceModel, pls: Seq<Seq<(i32, i32)>>, k: nat) -> Seq<PenAction>
    decreases k,
{
    if k == 0 {
        seq![]
    } else {
        polylines_actions_upto(m, pls, (k - 1) as nat) + polyline_actions(m, pls[k - 1])
    }
}

pub open spec fn polylines_actions(m: DeviceModel, pls: Seq<Seq<(i32, i32)>>) -> Seq<PenAction> {
    polylines_actions_upto(m, pls, pls.len())
}

// ---------------------------------------------------------------------------
// Pen state over a sequence of actions

/// Whether the pen touches the surface after `s`, having started in state `start`.
pub open spec fn pen_is_down_after(s: Seq<PenAction>, start: bool) -> bool
    decreases s.len(),
{
    if s.len() == 0 {
        start
    } else {
        match s.last() {
            PenAction::Down => true,
            PenAction::Up => false,
            _ => pen_is_down_after(s.drop_last(), start),
        }
    }
}

/// How many times `a` occurs in `s`.
pub open spec fn count_of(s: Seq<PenAction>, a: PenAction) -> nat
    decreases s.len(),
{
    if s.len() == 0 {
        0
    } else {
        count_of(s.drop_last(), a) + if s.last() == a {
            1nat
        } else {
            0nat
        }
    }
}

proof fn lemma_count_concat(s: Seq<PenAction>, t: Seq<PenAction>, a: PenAction)
    ensures
        count_of(s + t, a) == count_of(s, a) + count_of(t, a),
    decreases t.len(),
{
    if t.len() == 0 {
        assert(s + t =~= s);
    } else {
        assert((s + t).drop_last() =~= s + t.drop_last());
        lemma_count_concat(s, t.drop_last(), a);
    }
}

proof fn lemma_row_scan_balance(m: DeviceModel, row: Seq<bool>, y: int, k: nat)
    requires
        k <= row.len(),
    ensures
        count_of(row_scan(m, row, y, k).0, PenAction::Down) <= count_of(row_scan(m, row, y, k).0, PenAction::Up)
            + if row_scan(m, row, y, k).1 {
            1nat
        } else {
            0nat
        },
    decreases k,
{
    if k > 0 {
        lemma_row_scan_balance(m, row, y, (k - 1) as nat);
        let prev = row_scan(m, row, y, (k - 1) as nat);
        let x = k - 1;
        let g = seq![canvas_goto(m, x, y), canvas_goto(m, x + 1, y)];
        let start = seq![canvas_goto(m, x, y), PenAction::Down, PenAction::Pause(1)];
        let lift = seq![PenAction::Up, PenAction::Pause(1)];
        reveal_with_fuel(count_of, 4);
        lemma_count_concat(prev.0, g, PenAction::Down);
        lemma_count_concat(prev.0, g, PenAction::Up);
        lemma_count_concat(prev.0 + start, g, PenAction::Down);
        lemma_count_concat(prev.0 + start, g, PenAction::Up);
        lemma_count_concat(prev.0, start, PenAction::Down);
        lemma_count_concat(prev.0, start, PenAction::Up);
        lemma_count_concat(prev.0, lift, PenAction::Down);
        lemma_count_concat(prev.0, lift, PenAction::Up);
        if row[x] && !prev.1 {
            assert(prev.0 + seq![] =~= prev.0);
        }
        if row[x] && prev.1 {
            assert(prev.0 + Seq::<PenAction>::empty() =~= prev.0);
        }
    }
}

proof fn lemma_bitmap_balance(m: DeviceModel, rows: Seq<Seq<bool>>, k: nat)
    requires
        k <= rows.len(),
    ensures
        count_of(bitmap_actions_upto(m, rows, k), PenAction::Down)
            <= count_of(bitmap_actions_upto(m, rows, k), PenAction::Up),
    decreases k,
{
    if k > 0 {
        lemma_bitmap_balance(m, rows, (k - 1) as nat);
        let row = rows[k - 1];
        let scan = row_scan(m, row, k - 1, row.len());
        let tail = seq![PenAction::Up, PenAction::Pause(5)];
        lemma_row_scan_balance(m, row, k - 1, row.len());
        reveal_with_fuel(count_of, 3);
        lemma_count_concat(scan.0, tail, PenAction::Down);
        lemma_count_concat(scan.0, tail, PenAction::Up);
        let prev = bitmap_actions_upto(m, rows, (k - 1) as nat);
        lemma_count_concat(prev, row_actions(m, row, k - 1), PenAction::Down);
        lemma_count_concat(prev, row_actions(m, row, k - 1), PenAction::Up);
    }
}

/// A full bitmap scan leaves the pen lifted: a non-empty bitmap ends with the
/// pen up whatever its state before, and the scan lifts the pen at least as
/// many times as it lowers it.
pub proof fn lemma_bitmap_scan_ends_lifted(m: DeviceModel, rows: Seq<Seq<bool>>, start: bool)
    ensures
        rows.len() > 0 ==> !pen_is_down_after(bitmap_actions(m, rows), start),
        count_of(bitmap_actions(m, rows), PenAction::Down) <= count_of(bitmap_actions(m, rows), PenAction::Up),
{
    lemma_bitmap_balance(m, rows, rows.len());
    if rows.len() > 0 {
        let k = rows.len();
        let prev = bitmap_actions_upto(m, rows, (k - 1) as nat);
        let row = rows[k - 1];
        let s = bitmap_actions(m, rows);
        let scan = row_scan(m, row, k - 1, row.len()).0;
        assert(s =~= prev + scan + seq![PenAction::Up, PenAction::Pause(5)]);
        assert(s.drop_last() =~= prev + scan + seq![PenAction::Up]);
        assert(s.drop_last().last() == PenAction::Up);
        assert(!pen_is_down_after(s.drop_last(), start));
        assert(s.last() == PenAction::Pause(5));
    }
}

proof fn lemma_polylines_upto_end_lifted(m: DeviceModel, pls: Seq<Seq<(i32, i32)>>, k: nat, start: bool)
    requires
        k <= pls.len(),
        exists|j: int| 0 <= j < k && #[trigger] pls[j].len() > 0,
    ensures
        !pen_is_down_after(polylines_actions_upto(m, pls, k), start),
    decreases k,
{
    let prev = polylines_actions_upto(m, pls, (k - 1) as nat);
    let pl = pls[k - 1];
    if pl.len() > 0 {
        let s = polylines_actions_upto(m, pls, k);
        assert(s.last() == PenAction::Up);
    } else {
        assert(polylines_actions_upto(m, pls, k) =~= prev);
        let j = choose|j: int| 0 <= j < k && #[trigger] pls[j].len() > 0;
        assert(j < k - 1);
        lemma_polylines_upto_end_lifted(m, pls, (k - 1) as nat, start);
    }
}

/// Drawing polylines never leaves the pen down: once any non-empty polyline
/// has been drawn, the pen ends lifted, whatever its state before.
pub proof fn lemma_polylines_end_lifted(m: DeviceModel, pls: Seq<Seq<(i32, i32)>>, start: bool)
    requires
        exists|j: int| 0 <= j < pls.len() && #[trigger] pls[j].len() > 0,
    ensures
        !pen_is_down_after(polylines_actions(m, pls), start),
{
    lemma_polylines_upto_end_lifted(m, pls, pls.len(), start);
}

/// No touch-down in `s` happens while the pen is already down, starting from `start`.
pub open spec fn downs_alternate(s: Seq<PenAction>, start: bool) -> bool
    decreases s.len(),
{
    if s.len() == 0 {
        true
    } else {
        downs_alternate(s.drop_last(), start) && (s.last() == PenAction::Down ==> !pen_is_down_after(
            s.drop_last(),
            start,
        ))
    }
}

proof fn lemma_concat_state(a: Seq<PenAction>, b: Seq<PenAction>, start: bool)
    ensures
        pen_is_down_after(a + b, start) == pen_is_down_after(b, pen_is_down_after(a, start)),
        downs_alternate(a + b, start) == (downs_alternate(a, start) && downs_alternate(
            b,
            pen_is_down_after(a, start),
        )),
    decreases b.len(),
{
    if b.len() == 0 {
        assert(a + b =~= a);
    } else {
        assert((a + b).drop_last() =~= a + b.drop_last());
        lemma_concat_state(a, b.drop_last(), start);
    }
}

proof fn lemma_row_scan_alternates(m: DeviceModel, row: Seq<bool>, y: int, k: nat)
    requires
        k <= row.len(),
    ensures
        pen_is_down_after(row_scan(m, row, y, k).0, false) == row_scan(m, row, y, k).1,
        downs_alternate(row_scan(m, row, y, k).0, false),
    decreases k,
{
    if k > 0 {
        lemma_row_scan_alternates(m, row, y, (k - 1) as nat);
        let prev = row_scan(m, row, y, (k - 1) as nat);
        let x = k - 1;
        let st = prev.1;
        let g = seq![canvas_goto(m, x, y), canvas_goto(m, x + 1, y)];
        let start = seq![canvas_goto(m, x, y), PenAction::Down, PenAction::Pause(1)];
        let lift = seq![PenAction::Up, PenAction::Pause(1)];
        reveal_with_fuel(pen_is_down_after, 4);
        reveal_with_fuel(downs_alternate, 4);
        assert(g.drop_last().drop_last() =~= Seq::<PenAction>::empty());
        assert(start.drop_last().drop_last().drop_last() =~= Seq::<PenAction>::empty());
        assert(lift.drop_last().drop_last() =~= Seq::<PenAction>::empty());
        if row[x] {
            if st {
                assert(prev.0 + seq![] =~= prev.0);
                lemma_concat_state(prev.0, g, false);
            } else {
                lemma_concat_state(prev.0, start, false);
                lemma_concat_state(prev.0 + start, g, false);
            }
        } else if st {
            lemma_concat_state(prev.0, lift, false);
        }
    }
}

proof fn lemma_bitmap_rows_alternate(m: DeviceModel, rows: Seq<Seq<bool>>, k: nat)
    requires
        k <= rows.len(),
    ensures
        !pen_is_down_after(bitmap_actions_upto(m, rows, k), false),
        downs_alternate(bitmap_actions_upto(m, rows, k), false),
    decreases k,
{
    if k > 0 {
        lemma_bitmap_rows_alternate(m, rows, (k - 1) as nat);
        let prev = bitmap_actions_upto(m, rows, (k - 1) as nat);
        let row = rows[k - 1];
        let scan = row_scan(m, row, k - 1, row.len()).0;
        let tail = seq![PenAction::Up, PenAction::Pause(5)];
        lemma_row_scan_alternates(m, row, k - 1, row.len());
        reveal_with_fuel(pen_is_down_after, 3);
        reveal_with_fuel(downs_alternate, 3);
        assert(tail.drop_last().drop_last() =~= Seq::<PenAction>::empty());
        lemma_concat_state(scan, tail, false);
        lemma_concat_state(prev, scan + tail, false);
    }
}

/// Scanning a bitmap with the pen up beforehand, the pen is lifted again at the
/// end of every row, before anything of the next row is drawn, and it is never
/// lowered while already down: each touch-down is matched by a later lift.
pub proof fn lemma_bitmap_rows_balance(m: DeviceModel, rows: Seq<Seq<bool>>)
    ensures
        forall|y: nat| y <= rows.len() ==> !#[trigger] pen_is_down_after(bitmap_actions_upto(m, rows, y), false),
        downs_alternate(bitmap_actions(m, rows), false),
{
    assert forall|y: nat| y <= rows.len() implies !#[trigger] pen_is_down_after(bitmap_actions_upto(m, rows, y), false) by {
        lemma_bitmap_rows_alternate(m, rows, y);
    }
    lemma_bitmap_rows_alternate(m, rows, rows.len());
}

// ---------------------------------------------------------------------------
// The pen

/// A simulated stylus for one device model. Every call appends the actions it
/// performs to the pen's queue; `take_actions` hands them out in order.
pub struct Pen {
    device_model: DeviceModel,
    actions: Vec<PenAction>,
}

impl View for Pen {
    type V = Seq<PenAction>;

    closed spec fn view(&self) -> Seq<PenAction> {
        self.actions@
    }
}

impl Pen {
    pub closed spec fn model(&self) -> DeviceModel {
        self.device_model
    }

    pub fn new(device_model: DeviceModel) -> (r: Pen)
        ensures
            r.model() == device_model,
            r@ == Seq::<PenAction>::empty(),
    {
        Pen { device_model, actions: Vec::new() }
    }

    pub fn device_model(&self) -> (r: DeviceModel)
        ensures
            r == self.model(),
    {
        self.device_model
    }

    /// Hands out the queued actions, oldest first, and empties the queue.
    pub fn take_actions(&mut self) -> (r: Vec<PenAction>)
        ensures
            r@ == old(self)@,
            final(self)@ == Seq::<PenAction>::empty(),
            final(self).model() == old(self).model(),
    {
        let mut taken = Vec::new();
        std::mem::swap(&mut taken, &mut self.actions);
        taken
    }

    fn push(&mut self, a: PenAction)
        ensures
            final(self)@ == old(self)@.push(a),
            final(self).model() == old(self).model(),
    {
        self.actions.push(a);
    }

    /// Waits `ms` milliseconds before the next action.
    pub fn pause(&mut self, ms: u32)
        ensures
            final(self)@ == old(self)@.push(PenAction::Pause(ms)),
            final(self).model() == old(self).model(),
    {
        self.push(PenAction::Pause(ms));
    }

    pub fn max_x_value(&self) -> (r: i32)
        ensures
            r as int == spec_pen_max_x(self.model()),
    {
        self.device_model.pen_max_x()
    }

    pub fn max_y_value(&self) -> (r: i32)
        ensures
            r as int == spec_pen_max_y(self.model()),
    {
        self.device_model.pen_max_y()
    }

    /// Maps a canvas point to raw digitizer units of this pen's model.
    pub fn virtual_to_input(&self, p: (i32, i32)) -> (r: (i32, i32))
        ensures
            r == canvas_point(self.model(), p),
    {
        self.device_model.pen_to_input(p)
    }

    /// Touches the surface at full pressure.
    pub fn pen_down(&mut self)
        ensures
            final(self)@ == old(self)@.push(PenAction::Down),
            final(self).model() == old(self).model(),
    {
        self.push(PenAction::Down);
    }

    /// Lifts the pen to hover distance, with no pressure.
    pub fn pen_up(&mut self)
        ensures
            final(self)@ == old(self)@.push(PenAction::Up),
            final(self).model() == old(self).model(),
    {
        self.push(PenAction::Up);
    }

    /// Moves to a raw digitizer position.
    pub fn goto_xy(&mut self, p: (i32, i32))
        ensures
            final(self)@ == old(self)@.push(PenAction::Goto(p.0, p.1)),
            final(self).model() == old(self).model(),
    {
        self.push(PenAction::Goto(p.0, p.1));
    }

    /// Moves to a canvas point.
    pub fn goto_xy_virtual(&mut self, p: (i32, i32))
        ensures
            final(self)@ == old(self)@.push(canvas_goto(old(self).model(), p.0 as int, p.1 as int)),
            final(self).model() == old(self).model(),
    {
        let t = self.virtual_to_input(p);
        self.goto_xy(t);
    }

    /// Moves along the segment from one raw position toward another, one unit
    /// at a time, pausing briefly every `LINE_PAUSE_EVERY` samples. The start is
    /// visited and the end is not; the pen state is unchanged.
    pub fn draw_line(&mut self, p1: (i32, i32), p2: (i32, i32))
        ensures
            final(self)@ == old(self)@ + line_actions(p1, p2),
            final(self).model() == old(self).model(),
    {
        let (x1, y1) = p1;
        let (x2, y2) = p2;
        let n = line_steps_exec(x1, y1, x2, y2);
        let ghost start = self@;
        let mut i: u64 = 0;
        while i < n
            invariant
                i <= n,
                n <= 0x2_0000_0000,
                n as int == line_steps(x1 as int, y1 as int, x2 as int, y2 as int),
                self@ == start + line_actions_upto(x1, y1, x2, y2, i as nat),
                self.model() == old(self).model(),
                start == old(self)@,
            decreases n - i,
        {
            let x = interp_exec(x1, x2, i, n);
            let y = interp_exec(y1, y2, i, n);
            assert(PenAction::Goto(x, y) == line_sample(x1, y1, x2, y2, i as int));
            self.goto_xy((x, y));
            if i % LINE_PAUSE_EVERY == 0 {
                self.pause(1);
            }
            assert(self@ =~= start + line_actions_upto(x1, y1, x2, y2, (i + 1) as nat));
            i = i + 1;
        }
    }

    /// `draw_line` between two canvas points.
    pub fn draw_line_virtual(&mut self, p1: (i32, i32), p2: (i32, i32))
        ensures
            final(self)@ == old(self)@ + line_actions(canvas_point(old(self).model(), p1), canvas_point(old(self).model(), p2)),
            final(self).model() == old(self).model(),
    {
        let a = self.virtual_to_input(p1);
        let b = self.virtual_to_input(p2);
        self.draw_line(a, b);
    }

    /// Scans the bitmap row by row: each run of ink pixels is drawn as one
    /// stroke (touch down at its start, drag across, lift at its end), and the
    /// pen is lifted at the end of every row.
    pub fn draw_bitmap(&mut self, bitmap: &Vec<Vec<bool>>)
        requires
            bitmap_fits(bitmap.deep_view()),
        ensures
            final(self)@ == old(self)@ + bitmap_actions(old(self).model(), bitmap.deep_view()),
            final(self).model() == old(self).model(),
    {
        let ghost rows = bitmap.deep_view();
        let ghost m = self.model();
        let mut y: usize = 0;
        while y < bitmap.len()
            invariant
                y <= bitmap@.len(),
                rows == bitmap.deep_view(),
                bitmap_fits(rows),
                m == old(self).model(),
                self.model() == m,
                self@ == old(self)@ + bitmap_actions_upto(m, rows, y as nat),
            decreases bitmap@.len() - y,
        {
            let row = &bitmap[y];
            assert(rows[y as int] == row@);
            assert(row@.len() < i32::MAX);
            let ghost base = self@;
            let mut is_pen_down = false;
            let mut x: usize = 0;
            while x < row.len()
                invariant
                    x <= row@.len(),
                    row@.len() < i32::MAX,
                    y < rows.len() <= i32::MAX,
                    self.model() == m,
                    self@ == base + row_scan(m, row@, y as int, x as nat).0,
                    is_pen_down == row_scan(m, row@, y as int, x as nat).1,
                decreases row@.len() - x,
            {
                if row[x] {
                    if !is_pen_down {
                        self.goto_xy_virtual((x as i32, y as i32));
                        self.pen_down();
                        is_pen_down = true;
                        self.pause(1);
                    }
                    self.goto_xy_virtual((x as i32, y as i32));
                    self.goto_xy_virtual((x as i32 + 1, y as i32));
                } else if is_pen_down {
                    self.pen_up();
                    is_pen_down = false;
                    self.pause(1);
                }
                assert(self@ =~= base + row_scan(m, row@, y as int, (x + 1) as nat).0);
                x = x + 1;
            }
            self.pen_up();
            self.pause(5);
            assert(self@ =~= old(self)@ + bitmap_actions_upto(m, rows, (y + 1) as nat));
            y = y + 1;
        }
    }

    /// Draws polylines of canvas points: for each one the pen is lifted, moved
    /// to its first point and lowered, draws the lines between consecutive
    /// points that differ, and is lifted after the last point. An empty
    /// polyline draws nothing.
    pub fn draw_svg(&mut self, polylines: &Vec<Vec<(i32, i32)>>)
        ensures
            final(self)@ == old(self)@ + polylines_actions(old(self).model(), polylines.deep_view()),
            final(self).model() == old(self).model(),
    {
        let ghost pls = polylines.deep_view();
        let ghost m = self.model();
        let mut k: usize = 0;
        while k < polylines.len()
            invariant
                k <= polylines@.len(),
                pls == polylines.deep_view(),
                m == old(self).model(),
                self.model() == m,
                self@ == old(self)@ + polylines_actions_upto(m, pls, k as nat),
            decreases polylines@.len() - k,
        {
            let pl = &polylines[k];
            assert(pls[k as int] == pl@);
            let ghost base = self@;
            if pl.len() > 0 {
                let first = pl[0];
                self.pen_up();
                self.pause(10);
                self.goto_xy_virtual(first);
                self.pen_down();
                self.pause(50);
                let ghost head = self@;
                assert(head =~= base + seq![PenAction::Up, PenAction::Pause(10),
                    canvas_goto(m, pl@[0].0 as int, pl@[0].1 as int), PenAction::Down, PenAction::Pause(50)]);
                let mut j: usize = 1;
                assert(segments_upto(m, pl@, 1) == Seq::<PenAction>::empty());
                assert(head =~= head + segments_upto(m, pl@, 1));
                while j < pl.len()
                    invariant
                        1 <= j <= pl@.len(),
                        self.model() == m,
                        self@ == head + segments_upto(m, pl@, j as nat),
                    decreases pl@.len() - j,
                {
                    let a = pl[j - 1];
                    let b = pl[j];
                    if a.0 != b.0 || a.1 != b.1 {
                        self.draw_line_virtual(a, b);
                    }
                    assert(self@ =~= head + segments_upto(m, pl@, (j + 1) as nat));
                    j = j + 1;
                }
                self.pen_up();
                assert(self@ =~= base + polyline_actions(m, pl@));
            } else {
                assert(polyline_actions(m, pl@) =~= Seq::<PenAction>::empty());
                assert(self@ =~= base + polyline_actions(m, pl@));
            }
            assert(self@ =~= old(self)@ + polylines_actions_upto(m, pls, (k + 1) as nat));
            k = k + 1;
        }
    }
}

} // verus!
