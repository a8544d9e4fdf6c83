//! Integer decisions of the pinch-zoom hooks: when a wheel message is
//! swallowed after a two-finger gesture, how the zoom-gesture baseline moves,
//! which touch-pad collections carry fingers, and when a hook is installed.
use vstd::prelude::*;

verus! {

/// `WM_MOUSEWHEEL`.
pub const WM_MOUSEWHEEL: u32 = 0x020A;

/// `WM_MOUSEHWHEEL`.
pub const WM_MOUSEHWHEEL: u32 = 0x020E;

/// Wheel messages this long after a two-finger gesture are swallowed.
pub const WHEEL_SUPPRESS_MS: u64 = 250;

/// HID usage page "generic desktop".
pub const HID_USAGE_PAGE_GENERIC_DESKTOP: u16 = 0x01;

/// HID usage "X".
pub const HID_USAGE_X: u16 = 0x30;

/// HID usage "tip switch" (a finger touches the pad).
pub const HID_USAGE_TIP_SWITCH: u16 = 0x42;

/// `a - b`, or 0 when `b` is larger (`u64::saturating_sub`).
pub open spec fn saturating_diff(a: u64, b: u64) -> int {
    if a >= b {
        a - b
    } else {
        0
    }
}

/// A wheel message is swallowed when a two-finger gesture was seen
/// (`last_two_finger_ms != 0`) less than 250 ms ago.
pub open spec fn suppress_wheel_spec(msg: u32, last_two_finger_ms: u64, now_ms: u64) -> bool {
    (msg == WM_MOUSEWHEEL || msg == WM_MOUSEHWHEEL) && last_two_finger_ms != 0 && saturating_diff(
        now_ms,
        last_two_finger_ms,
    ) < WHEEL_SUPPRESS_MS
}

/// Whether the window procedure swallows message `msg`.
pub fn suppress_wheel(msg: u32, last_two_finger_ms: u64, now_ms: u64) -> (res: bool)
    ensures
        res == suppress_wheel_spec(msg, last_two_finger_ms, now_ms),
{
    (msg == WM_MOUSEWHEEL || msg == WM_MOUSEHWHEEL) && last_two_finger_ms != 0
        && now_ms.saturating_sub(last_two_finger_ms) < WHEEL_SUPPRESS_MS
}

/// One zoom-gesture message: from the baseline `base` and the message
/// (distance, begins, ends), the zoom step to apply (new and previous
/// distance) and the next baseline.
pub open spec fn zoom_step(base: Option<u64>, distance: u64, begin: bool, end: bool) -> (
    Option<(u64, u64)>,
    Option<u64>,
) {
    let (step, next) = if begin || base is None {
        (None, Some(distance))
    } else if base->0 > 0 && distance > 0 {
        (Some((distance, base->0)), Some(distance))
    } else {
        (None, base)
    };
    (step, if end {
        None
    } else {
        next
    })
}

/// After a message that ends the gesture, the next message applies no zoom
/// step; and every zoom step has both distances positive.
pub proof fn law_zoom_end_resets(
    base: Option<u64>,
    d1: u64,
    begin1: bool,
    d2: u64,
    begin2: bool,
    end2: bool,
)
    ensures
        zoom_step(zoom_step(base, d1, begin1, true).1, d2, begin2, end2).0 is None,
        zoom_step(base, d1, begin1, true).1 is None,
        zoom_step(base, d1, begin1, false).0 matches Some(p) ==> p.0 > 0 && p.1 > 0,
{
}

/// The finger distance at the previous step of a Windows zoom gesture.
pub struct ZoomGesture {
    pub base: Option<u64>,
}

impl ZoomGesture {
    /// No gesture in progress.
    pub fn new() -> (res: ZoomGesture)
        ensures
            res.base is None,
    {
        ZoomGesture { base: None }
    }

    /// One zoom-gesture message with finger distance `distance`.
    /// Returns `(distance, previous distance)` when the zoom factor between
    /// them is to be applied: a gesture in progress with both distances
    /// positive. A beginning (or a first message) only sets the baseline;
    /// an end clears it.
    pub fn on_zoom(&mut self, distance: u64, begin: bool, end: bool) -> (res: Option<(u64, u64)>)
        ensures
            (res, final(self).base) == zoom_step(old(self).base, distance, begin, end),
    {
        let mut res: Option<(u64, u64)> = None;
        if begin || self.base.is_none() {
            self.base = Some(distance);
        } else {
            match self.base {
                Some(prev) => {
                    if prev > 0 && distance > 0 {
                        res = Some((distance, prev));
                        self.base = Some(distance);
                    }
                },
                None => {},
            }
        }
        if end {
            self.base = None;
        }
        res
    }
}

/// Some of the first `count` usages is the tip switch.
pub fn tip_pressed(usages: &[u16], count: u32) -> (res: bool)
    requires
        count <= usages@.len(),
    ensures
        res == exists|i: int| 0 <= i < count && usages@[i] == HID_USAGE_TIP_SWITCH,
{
    let n = count as usize;
    for i in 0..n
        invariant
            n == count,
            n <= usages@.len(),
            forall|j: int| 0 <= j < i ==> usages@[j] != HID_USAGE_TIP_SWITCH,
    {
        if usages[i] == HID_USAGE_TIP_SWITCH {
            return true;
        }
    }
    false
}

/// One input value capability of a touch-pad report.
#[derive(Clone, Copy, Debug)]
pub struct ValueCap {
    pub usage_page: u16,
    pub is_range: bool,
    /// The usage, meaningful when the capability is not a range.
    pub usage: u16,
    pub link_collection: u16,
}

/// The capability reports an X coordinate of one finger.
pub open spec fn is_finger_x(c: ValueCap) -> bool {
    c.usage_page == HID_USAGE_PAGE_GENERIC_DESKTOP && !c.is_range && c.usage == HID_USAGE_X
}

/// The link collections of the X-coordinate capabilities, each once, in
/// order of first appearance.
pub open spec fn finger_collections_spec(caps: Seq<ValueCap>) -> Seq<u16>
    decreases caps.len(),
{
    if caps.len() == 0 {
        Seq::<u16>::empty()
    } else {
        let p = finger_collections_spec(caps.drop_last());
        if is_finger_x(caps.last()) && !p.contains(caps.last().link_collection) {
            p.push(caps.last().link_collection)
        } else {
            p
        }
    }
}

/// Each finger collection is listed once, and only collections that carry
/// an X coordinate are listed.
pub proof fn law_finger_collections(caps: Seq<ValueCap>)
    ensures
        forall|i: int, j: int|
            0 <= i < j < finger_collections_spec(caps).len() ==> finger_collections_spec(caps)[i]
                != finger_collections_spec(caps)[j],
        forall|i: int|
            0 <= i < finger_collections_spec(caps).len() ==> exists|k: int|
                0 <= k < caps.len() && is_finger_x(caps[k]) && caps[k].link_collection
                    == #[trigger] finger_collections_spec(caps)[i],
    decreases caps.len(),
{
    if caps.len() > 0 {
        let d = caps.drop_last();
        law_finger_collections(d);
        let p = finger_collections_spec(d);
        let q = finger_collections_spec(caps);
        assert forall|i: int|
            0 <= i < q.len() implies exists|k: int|
            0 <= k < caps.len() && is_finger_x(caps[k]) && caps[k].link_collection == #[trigger] q[i] by {
            if i < p.len() {
                assert(q[i] == p[i]);
                let k = choose|k: int|
                    0 <= k < d.len() && is_finger_x(d[k]) && d[k].link_collection == p[i];
                assert(caps[k] == d[k]);
            } else {
                assert(caps[caps.len() - 1] == caps.last());
            }
        }
        assert forall|i: int, j: int| 0 <= i < j < q.len() implies q[i] != q[j] by {
            if j < p.len() {
                assert(q[i] == p[i] && q[j] == p[j]);
            } else {
                assert(q[i] == p[i]);
                assert(p.contains(p[i]));
            }
        }
    }
}

/// Every link collection that carries a finger's X coordinate is listed.
pub proof fn law_finger_collections_complete(caps: Seq<ValueCap>)
    ensures
        forall|k: int|
            0 <= k < caps.len() && #[trigger] is_finger_x(caps[k]) ==> finger_collections_spec(
                caps,
            ).contains(caps[k].link_collection),
    decreases caps.len(),
{
    if caps.len() > 0 {
        let d = caps.drop_last();
        law_finger_collections_complete(d);
        let p = finger_collections_spec(d);
        let q = finger_collections_spec(caps);
        assert forall|k: int|
            0 <= k < caps.len() && #[trigger] is_finger_x(caps[k]) implies q.contains(
            caps[k].link_collection,
        ) by {
            if k < d.len() {
                assert(caps[k] == d[k]);
                assert(is_finger_x(d[k]));
                assert(p.contains(d[k].link_collection));
                let a = choose|a: int| 0 <= a < p.len() && p[a] == d[k].link_collection;
                assert(q[a] == p[a]);
            } else {
                assert(caps[k] == caps.last());
                if p.contains(caps.last().link_collection) {
                    let a = choose|a: int| 0 <= a < p.len() && p[a] == caps.last().link_collection;
                    assert(q[a] == p[a]);
                } else {
                    assert(q[p.len() as int] == caps.last().link_collection);
                }
            }
        }
    }
}

/// The collections that report finger positions on a touch pad.
pub fn finger_collections(caps: &Vec<ValueCap>) -> (res: Vec<u16>)
    ensures
        res@ == finger_collections_spec(caps@),
{
    let n = caps.len();
    let mut res: Vec<u16> = Vec::new();
    for i in 0..n
        invariant
            n == caps@.len(),
            res@ == finger_collections_spec(caps@.take(i as int)),
    {
        let c = caps[i];
        assert(caps@.take(i + 1).drop_last() =~= caps@.take(i as int));
        if c.usage_page == HID_USAGE_PAGE_GENERIC_DESKTOP && !c.is_range && c.usage == HID_USAGE_X {
            let mut seen = false;
            let m = res.len();
            for j in 0..m
                invariant
                    m == res@.len(),
                    seen == exists|q: int| 0 <= q < j && res@[q] == c.link_collection,
            {
                if res[j] == c.link_collection {
                    seen = true;
                }
            }
            if !seen {
                res.push(c.link_collection);
            }
        }
    }
    assert(caps@.take(n as int) =~= caps@);
    res
}

/// A hook is installed once, and only for a real window handle.
pub fn should_install(handle_is_null: bool, already_installed: bool) -> (res: bool)
    ensures
        res == (!handle_is_null && !already_installed),
{
    !handle_is_null && !already_installed
}

} // verus!
