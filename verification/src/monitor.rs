//! Choosing the monitor for a point on the virtual desktop.
use vstd::prelude::*;

verus! {

/// A monitor's bounds in physical pixels.
#[derive(Clone, Copy, Debug, PartialEq, Eq)]
pub struct MonitorRect {
    pub x: i32,
    pub y: i32,
    pub width: u32,
    pub height: u32,
}

/// A size as `size as i32` gives it: sizes above `i32::MAX` wrap to negative
/// values.
pub open spec fn wrap_i32(v: u32) -> int {
    if v <= 0x7fff_ffff {
        v as int
    } else {
        v - 0x1_0000_0000
    }
}

pub open spec fn in_i32(v: int) -> bool {
    i32::MIN <= v <= i32::MAX
}

/// Integer halving that rounds toward zero, as `/ 2` on `i32` does.
pub open spec fn half_toward_zero(v: int) -> int {
    if v >= 0 {
        v / 2
    } else {
        -((-v) / 2)
    }
}

pub open spec fn abs(v: int) -> int {
    if v < 0 {
        -v
    } else {
        v
    }
}

/// The monitor's bounds contain the point.
pub open spec fn contains_point(m: MonitorRect, px: int, py: int) -> bool {
    m.x <= px < m.x + wrap_i32(m.width) && m.y <= py < m.y + wrap_i32(m.height)
}

pub open spec fn center_x(m: MonitorRect) -> int {
    m.x + half_toward_zero(wrap_i32(m.width))
}

pub open spec fn center_y(m: MonitorRect) -> int {
    m.y + half_toward_zero(wrap_i32(m.height))
}

/// The Manhattan distance from the point to the monitor's center.
pub open spec fn center_distance(m: MonitorRect, px: int, py: int) -> int {
    abs(px - center_x(m)) + abs(py - center_y(m))
}

/// The `i32` sums of the containment test do not overflow, for the parts of
/// the test that are evaluated (`&&` stops at the first false part).
pub open spec fn containment_ok(m: MonitorRect, px: int, py: int) -> bool {
    &&& m.x <= px ==> in_i32(m.x + wrap_i32(m.width))
    &&& (m.x <= px < m.x + wrap_i32(m.width) && m.y <= py) ==> in_i32(m.y + wrap_i32(m.height))
}

/// The `i32` arithmetic of the distance does not overflow: centers,
/// differences, their absolute values and their sum.
pub open spec fn distance_ok(m: MonitorRect, px: int, py: int) -> bool {
    &&& in_i32(center_x(m))
    &&& in_i32(center_y(m))
    &&& in_i32(px - center_x(m)) && px - center_x(m) != i32::MIN
    &&& in_i32(py - center_y(m)) && py - center_y(m) != i32::MIN
    &&& in_i32(center_distance(m, px, py))
}

/// The search for the point's monitor does not overflow `i32`: every monitor
/// tested for containment (those up to the first that contains the point)
/// passes its test without overflow, and when none contains the point, the
/// distance of every monitor is computed without overflow.
pub open spec fn search_ok(ms: Seq<MonitorRect>, px: int, py: int) -> bool {
    &&& forall|j: int|
        0 <= j < ms.len() && (forall|i: int| 0 <= i < j ==> !contains_point(#[trigger] ms[i], px, py))
            ==> containment_ok(#[trigger] ms[j], px, py)
    &&& (forall|j: int| 0 <= j < ms.len() ==> !contains_point(#[trigger] ms[j], px, py)) ==> (
    forall|j: int| 0 <= j < ms.len() ==> distance_ok(#[trigger] ms[j], px, py))
}

/// `r` is the monitor for the point: the first one that contains it, or, when
/// none does, the first of those whose center is closest to it.
pub open spec fn is_monitor_at(ms: Seq<MonitorRect>, px: int, py: int, r: Option<int>) -> bool {
    match r {
        None => ms.len() == 0,
        Some(i) => {
            &&& 0 <= i < ms.len()
            &&& if contains_point(ms[i], px, py) {
                forall|j: int| 0 <= j < i ==> !contains_point(#[trigger] ms[j], px, py)
            } else {
                &&& forall|j: int| 0 <= j < ms.len() ==> !contains_point(#[trigger] ms[j], px, py)
                &&& forall|j: int|
                    0 <= j < ms.len() ==> center_distance(ms[i], px, py) <= center_distance(
                        #[trigger] ms[j],
                        px,
                        py,
                    )
                &&& forall|j: int|
                    0 <= j < i ==> center_distance(ms[i], px, py) < center_distance(
                        #[trigger] ms[j],
                        px,
                        py,
                    )
            }
        },
    }
}

pub open spec fn opt_index(r: Option<usize>) -> Option<int> {
    match r {
        Some(i) => Some(i as int),
        None => None,
    }
}

fn wrapped(v: u32) -> (r: i64)
    ensures
        r == wrap_i32(v),
{
    let w = v as i32;
    assert(v <= 0x7fff_ffff ==> (v as i32) as i64 == v as i64) by (bit_vector);
    assert(v > 0x7fff_ffff ==> (v as i32) as i64 == (v as i64) - 0x1_0000_0000i64) by (bit_vector);
    w as i64
}

fn half(v: i64) -> (r: i64)
    requires
        -0x1_0000_0000 <= v <= 0x1_0000_0000,
    ensures
        r == half_toward_zero(v as int),
{
    if v >= 0 {
        ((v as u64) / 2) as i64
    } else {
        0 - (((0 - v) as u64) / 2) as i64
    }
}

fn contains_exec(m: &MonitorRect, px: i32, py: i32) -> (b: bool)
    ensures
        b == contains_point(*m, px as int, py as int),
{
    let x = m.x as i64;
    let y = m.y as i64;
    let p = px as i64;
    let q = py as i64;
    p >= x && p < x + wrapped(m.width) && q >= y && q < y + wrapped(m.height)
}

fn containment_ok_exec(m: &MonitorRect, px: i32, py: i32) -> (b: bool)
    ensures
        b == containment_ok(*m, px as int, py as int),
{
    let x = m.x as i64;
    let y = m.y as i64;
    let p = px as i64;
    let q = py as i64;
    let right = x + wrapped(m.width);
    let bottom = y + wrapped(m.height);
    let min = i32::MIN as i64;
    let max = i32::MAX as i64;
    let first = !(x <= p) || (min <= right && right <= max);
    let second = !(x <= p && p < right && y <= q) || (min <= bottom && bottom <= max);
    first && second
}

fn distance_exec(m: &MonitorRect, px: i32, py: i32) -> (d: i64)
    ensures
        d == center_distance(*m, px as int, py as int),
{
    let mx = m.x as i64 + half(wrapped(m.width));
    let my = m.y as i64 + half(wrapped(m.height));
    let dx = px as i64 - mx;
    let dy = py as i64 - my;
    let ax = if dx < 0 {
        0 - dx
    } else {
        dx
    };
    let ay = if dy < 0 {
        0 - dy
    } else {
        dy
    };
    ax + ay
}

fn distance_ok_exec(m: &MonitorRect, px: i32, py: i32) -> (b: bool)
    ensures
        b == distance_ok(*m, px as int, py as int),
{
    let min = i32::MIN as i64;
    let max = i32::MAX as i64;
    let mx = m.x as i64 + half(wrapped(m.width));
    let my = m.y as i64 + half(wrapped(m.height));
    let dx = px as i64 - mx;
    let dy = py as i64 - my;
    let d = distance_exec(m, px, py);
    min <= mx && mx <= max && min <= my && my <= max && min < dx && dx <= max && min < dy && dy
        <= max && min <= d && d <= max
}

/// Whether the search for the point's monitor stays within `i32` arithmetic,
/// as `monitor_at` requires.
pub fn geometry_fits(monitors: &Vec<MonitorRect>, px: i32, py: i32) -> (r: bool)
    ensures
        r == search_ok(monitors@, px as int, py as int),
{
    let n = monitors.len();
    let mut i: usize = 0;
    while i < n
        invariant
            i <= n,
            n == monitors@.len(),
            forall|j: int| 0 <= j < i ==> !contains_point(#[trigger] monitors@[j], px as int, py as int),
            forall|j: int| 0 <= j < i ==> containment_ok(#[trigger] monitors@[j], px as int, py as int),
        decreases n - i,
    {
        if !containment_ok_exec(&monitors[i], px, py) {
            return false;
        }
        if contains_exec(&monitors[i], px, py) {
            assert forall|j: int|
                0 <= j < n && (forall|k: int| 0 <= k < j ==> !contains_point(#[trigger] monitors@[k], px as int, py as int))
                    implies containment_ok(#[trigger] monitors@[j], px as int, py as int) by {
                if j > i {
                    assert(!contains_point(monitors@[i as int], px as int, py as int));
                }
            }
            return true;
        }
        i += 1;
    }
    let mut k: usize = 0;
    while k < n
        invariant
            k <= n,
            n == monitors@.len(),
            forall|j: int| 0 <= j < n ==> !contains_point(#[trigger] monitors@[j], px as int, py as int),
            forall|j: int| 0 <= j < n ==> containment_ok(#[trigger] monitors@[j], px as int, py as int),
            forall|j: int| 0 <= j < k ==> distance_ok(#[trigger] monitors@[j], px as int, py as int),
        decreases n - k,
    {
        if !distance_ok_exec(&monitors[k], px, py) {
            return false;
        }
        k += 1;
    }
    true
}

/// The index of the monitor whose bounds contain the physical point
/// `(px, py)`; when none does, that of the monitor whose center is closest
/// (the first of equals); `None` when there is no monitor.
pub fn monitor_at(monitors: &Vec<MonitorRect>, px: i32, py: i32) -> (r: Option<usize>)
    requires
        search_ok(monitors@, px as int, py as int),
    ensures
        is_monitor_at(monitors@, px as int, py as int, opt_index(r)),
{
    let n = monitors.len();
    let mut i: usize = 0;
    while i < n
        invariant
            i <= n,
            n == monitors@.len(),
            forall|j: int| 0 <= j < i ==> !contains_point(#[trigger] monitors@[j], px as int, py as int),
        decreases n - i,
    {
        if contains_exec(&monitors[i], px, py) {
            return Some(i);
        }
        i += 1;
    }
    if n == 0 {
        return None;
    }
    let mut best: usize = 0;
    let mut best_d = distance_exec(&monitors[0], px, py);
    let mut k: usize = 1;
    while k < n
        invariant
            1 <= k <= n,
            n == monitors@.len(),
            best < k,
            best_d == center_distance(monitors@[best as int], px as int, py as int),
            forall|j: int| 0 <= j < k ==> best_d <= center_distance(#[trigger] monitors@[j], px as int, py as int),
            forall|j: int| 0 <= j < best ==> best_d < center_distance(#[trigger] monitors@[j], px as int, py as int),
        decreases n - k,
    {
        let d = distance_exec(&monitors[k], px, py);
        if d < best_d {
            best = k;
            best_d = d;
        }
        k += 1;
    }
    Some(best)
}

/// There is a monitor for the point exactly when there is a monitor at all.
pub proof fn law_monitor_found_iff_any(ms: Seq<MonitorRect>, px: int, py: int, r: Option<int>)
    requires
        is_monitor_at(ms, px, py, r),
    ensures
        r is None <==> ms.len() == 0,
{
}

/// When some monitor's rectangle (`x` to `x + width`, `y` to `y + height`)
/// holds the point, the chosen monitor is the first such one: its rectangle
/// holds the point and no earlier monitor's does.
pub proof fn law_chosen_monitor_holds_point(ms: Seq<MonitorRect>, px: int, py: int, i: int)
    requires
        is_monitor_at(ms, px, py, Some(i)),
        exists|j: int|
            0 <= j < ms.len() && #[trigger] ms[j].x <= px < ms[j].x + wrap_i32(ms[j].width) && ms[j].y
                <= py < ms[j].y + wrap_i32(ms[j].height),
    ensures
        ms[i].x <= px < ms[i].x + wrap_i32(ms[i].width),
        ms[i].y <= py < ms[i].y + wrap_i32(ms[i].height),
        forall|j: int|
            0 <= j < i ==> !(#[trigger] ms[j].x <= px < ms[j].x + wrap_i32(ms[j].width) && ms[j].y
                <= py < ms[j].y + wrap_i32(ms[j].height)),
{
    let j = choose|j: int|
        0 <= j < ms.len() && #[trigger] ms[j].x <= px < ms[j].x + wrap_i32(ms[j].width) && ms[j].y
            <= py < ms[j].y + wrap_i32(ms[j].height);
    assert(contains_point(ms[j], px, py));
    assert forall|k: int| 0 <= k < i implies !(#[trigger] ms[k].x <= px < ms[k].x + wrap_i32(ms[k].width) && ms[k].y
        <= py < ms[k].y + wrap_i32(ms[k].height)) by {
        assert(!contains_point(ms[k], px, py));
    }
}

/// The rectangle of a monitor that holds the point wins over closeness: a
/// monitor whose rectangle does not hold the point is chosen only when no
/// monitor's rectangle does.
pub proof fn law_outside_monitor_only_when_none_holds(ms: Seq<MonitorRect>, px: int, py: int, i: int)
    requires
        is_monitor_at(ms, px, py, Some(i)),
        !(ms[i].x <= px < ms[i].x + wrap_i32(ms[i].width) && ms[i].y <= py < ms[i].y + wrap_i32(
            ms[i].height,
        )),
    ensures
        forall|j: int|
            0 <= j < ms.len() ==> !(#[trigger] ms[j].x <= px < ms[j].x + wrap_i32(ms[j].width)
                && ms[j].y <= py < ms[j].y + wrap_i32(ms[j].height)),
{
    assert forall|j: int| 0 <= j < ms.len() implies !(#[trigger] ms[j].x <= px < ms[j].x + wrap_i32(ms[j].width)
        && ms[j].y <= py < ms[j].y + wrap_i32(ms[j].height)) by {
        assert(!contains_point(ms[j], px, py));
    }
}

/// When no monitor's rectangle holds the point, the chosen monitor is the
/// first of those whose center (`x + width / 2`, `y + height / 2`, halves
/// rounded toward zero) is nearest to the point in Manhattan distance.
pub proof fn law_nearest_center_when_outside(ms: Seq<MonitorRect>, px: int, py: int, i: int)
    requires
        is_monitor_at(ms, px, py, Some(i)),
        forall|j: int|
            0 <= j < ms.len() ==> !(#[trigger] ms[j].x <= px < ms[j].x + wrap_i32(ms[j].width)
                && ms[j].y <= py < ms[j].y + wrap_i32(ms[j].height)),
    ensures
        forall|j: int|
            0 <= j < ms.len() ==> abs(px - (ms[i].x + half_toward_zero(wrap_i32(ms[i].width))))
                + abs(py - (ms[i].y + half_toward_zero(wrap_i32(ms[i].height)))) <= abs(
                px - (#[trigger] ms[j].x + half_toward_zero(wrap_i32(ms[j].width))),
            ) + abs(py - (ms[j].y + half_toward_zero(wrap_i32(ms[j].height)))),
        forall|j: int|
            0 <= j < i ==> abs(px - (ms[i].x + half_toward_zero(wrap_i32(ms[i].width)))) + abs(
                py - (ms[i].y + half_toward_zero(wrap_i32(ms[i].height))),
            ) < abs(px - (#[trigger] ms[j].x + half_toward_zero(wrap_i32(ms[j].width)))) + abs(
                py - (ms[j].y + half_toward_zero(wrap_i32(ms[j].height))),
            ),
{
    assert(!contains_point(ms[i], px, py));
    assert forall|j: int| 0 <= j < ms.len() implies center_distance(ms[i], px, py) <= center_distance(#[trigger] ms[j], px, py) by {}
    assert forall|j: int| 0 <= j < i implies center_distance(ms[i], px, py) < center_distance(#[trigger] ms[j], px, py) by {}
}

} // verus!
