//! Scroll wheel events: decoding what a device delivers, and passing on at
//! most one scroll per debounce interval.

use crate::text::{has_prefix, starts_with};
use vstd::prelude::*;

verus! {

/// The least time between two scrolls that are passed on, in nanoseconds.
pub const DEBOUNCE: u64 = 50_000_000;

/// The bytes of one event, as the kernel delivers it.
pub const EVENT_SIZE: usize = 24;

/// How many events are read at once.
pub const EVENT_BATCH: usize = 64;

/// The type of the events of relative axes.
pub const EV_REL: u16 = 2;

/// The axis of a wheel that counts notches.
pub const REL_WHEEL: u16 = 0x08;

/// The axis of a wheel that counts 120ths of a notch.
pub const REL_WHEEL_HI_RES: u16 = 0x0b;

/// How far a high-resolution wheel has to turn to count: half a notch.
pub const HI_RES_THRESHOLD: i32 = 60;

/// How long to wait, in milliseconds, where a device has nothing to read.
pub const IDLE_MS: u64 = 10;

/// An event of a device.
#[derive(Debug, Clone, Copy, PartialEq, Eq, Structural)]
pub struct RawEvent {
    pub kind: u16,
    pub code: u16,
    pub value: i32,
}

/// The number that two bytes denote.
pub open spec fn u16_of(a: u8, b: u8, little: bool) -> u16 {
    (if little {
        a + 256 * b
    } else {
        256 * a + b
    }) as u16
}

/// The signed number that four bytes denote, in two's complement.
pub open spec fn i32_of(a: u8, b: u8, c: u8, d: u8, little: bool) -> i32 {
    let n = if little {
        a + 256 * b + 65536 * c + 16777216 * d
    } else {
        16777216 * a + 65536 * b + 256 * c + d
    };
    (if n >= 0x8000_0000 {
        n - 0x1_0000_0000
    } else {
        n
    }) as i32
}

/// The event at a place of a buffer; its first sixteen bytes are a time.
pub open spec fn event_at(buf: Seq<u8>, at: int, little: bool) -> RawEvent {
    RawEvent {
        kind: u16_of(buf[at + 16], buf[at + 17], little),
        code: u16_of(buf[at + 18], buf[at + 19], little),
        value: i32_of(buf[at + 20], buf[at + 21], buf[at + 22], buf[at + 23], little),
    }
}

/// The events that the first `n` bytes of a buffer hold; what does not fill
/// an event is dropped.
pub open spec fn events_of(buf: Seq<u8>, n: nat, little: bool) -> Seq<RawEvent> {
    Seq::new(n / EVENT_SIZE as nat, |i: int| event_at(buf, EVENT_SIZE * i, little))
}

/// Bytes that start with the type, the code and the value of an event, as they
/// are written down: the lowest byte of each number first where `little` holds,
/// and last otherwise.
pub open spec fn holds_event(bytes: Seq<u8>, event: RawEvent, little: bool) -> bool {
    let value: int = if event.value < 0 {
        event.value + 0x1_0000_0000
    } else {
        event.value as int
    };
    &&& bytes.len() >= 8
    &&& bytes[if little { 0 } else { 1 }] == event.kind % 256
    &&& bytes[if little { 1 } else { 0 }] == event.kind / 256
    &&& bytes[if little { 2 } else { 3 }] == event.code % 256
    &&& bytes[if little { 3 } else { 2 }] == event.code / 256
    &&& bytes[if little { 4 } else { 7 }] == value % 256
    &&& bytes[if little { 5 } else { 6 }] == value / 256 % 256
    &&& bytes[if little { 6 } else { 5 }] == value / 65536 % 256
    &&& bytes[if little { 7 } else { 4 }] == value / 16777216
}

/// A number below 2^16 and its two bytes.
proof fn lemma_two_bytes(n: int, a: int, b: int)
    requires
        0 <= n < 0x1_0000,
        0 <= a < 256,
        0 <= b < 256,
    ensures
        n == a + 256 * b <==> a == n % 256 && b == n / 256,
{
}

/// A number below 2^32 and its four bytes.
proof fn lemma_four_bytes(n: int, a: int, b: int, c: int, d: int)
    requires
        0 <= n < 0x1_0000_0000,
        0 <= a < 256,
        0 <= b < 256,
        0 <= c < 256,
        0 <= d < 256,
    ensures
        n == a + 256 * b + 65536 * c + 16777216 * d <==> a == n % 256 && b == n / 256 % 256 && c == n
            / 65536 % 256 && d == n / 16777216,
{
    assert(n / 65536 == n / 256 / 256);
    assert(n / 16777216 == n / 65536 / 256);
}

/// The event that is read at a place of a buffer is the one whose bytes stand
/// there, behind the time.
pub proof fn decoding_undoes_encoding(buf: Seq<u8>, at: int, event: RawEvent, little: bool)
    requires
        0 <= at,
        at + 24 <= buf.len(),
    ensures
        event == event_at(buf, at, little) <==> holds_event(buf.skip(at + 16), event, little),
{
    let bytes = buf.skip(at + 16);
    let read = event_at(buf, at, little);
    assert(bytes[0] == buf[at + 16] && bytes[1] == buf[at + 17] && bytes[2] == buf[at + 18]
        && bytes[3] == buf[at + 19]);
    assert(bytes[4] == buf[at + 20] && bytes[5] == buf[at + 21] && bytes[6] == buf[at + 22]
        && bytes[7] == buf[at + 23]);
    let value: int = if event.value < 0 {
        event.value + 0x1_0000_0000
    } else {
        event.value as int
    };
    if little {
        lemma_two_bytes(event.kind as int, bytes[0] as int, bytes[1] as int);
        lemma_two_bytes(event.code as int, bytes[2] as int, bytes[3] as int);
        lemma_four_bytes(
            value,
            bytes[4] as int,
            bytes[5] as int,
            bytes[6] as int,
            bytes[7] as int,
        );
    } else {
        lemma_two_bytes(event.kind as int, bytes[1] as int, bytes[0] as int);
        lemma_two_bytes(event.code as int, bytes[3] as int, bytes[2] as int);
        lemma_four_bytes(
            value,
            bytes[7] as int,
            bytes[6] as int,
            bytes[5] as int,
            bytes[4] as int,
        );
    }
}

fn u16_at(buf: &[u8], at: usize, little: bool) -> (r: u16)
    requires
        at + 1 < buf@.len(),
    ensures
        r == u16_of(buf@[at as int], buf@[at + 1], little),
{
    let a: u16 = buf[at] as u16;
    let b: u16 = buf[at + 1] as u16;
    if little {
        a + 256 * b
    } else {
        256 * a + b
    }
}

fn i32_at(buf: &[u8], at: usize, little: bool) -> (r: i32)
    requires
        at + 3 < buf@.len(),
    ensures
        r == i32_of(buf@[at as int], buf@[at + 1], buf@[at + 2], buf@[at + 3], little),
{
    let a: i64 = buf[at] as i64;
    let b: i64 = buf[at + 1] as i64;
    let c: i64 = buf[at + 2] as i64;
    let d: i64 = buf[at + 3] as i64;
    let n: i64 = if little {
        a + 256 * b + 65536 * c + 16777216 * d
    } else {
        16777216 * a + 65536 * b + 256 * c + d
    };
    if n >= 0x8000_0000 {
        (n - 0x1_0000_0000) as i32
    } else {
        n as i32
    }
}

/// Decodes the events that the first `n` bytes of a buffer hold, in the byte
/// order of the machine that delivered them.
pub fn decode_events(buf: &[u8], n: usize, little: bool) -> (r: Vec<RawEvent>)
    requires
        n <= buf@.len(),
    ensures
        r@ == events_of(buf@, n as nat, little),
        r@.len() == n / 24,
        forall|i: int|
            0 <= i < r@.len() ==> holds_event(buf@.skip(24 * i + 16), #[trigger] r@[i], little),
{
    let mut events: Vec<RawEvent> = Vec::new();
    let count: usize = n / EVENT_SIZE;
    let mut i: usize = 0;
    while i < count
        invariant
            i <= count,
            count == n / EVENT_SIZE,
            n <= buf@.len(),
            events@.len() == i,
            forall|j: int|
                0 <= j < i ==> #[trigger] events@[j] == event_at(buf@, EVENT_SIZE * j, little),
        decreases count - i,
    {
        let at: usize = i * EVENT_SIZE;
        events.push(
            RawEvent {
                kind: u16_at(buf, at + 16, little),
                code: u16_at(buf, at + 18, little),
                value: i32_at(buf, at + 20, little),
            },
        );
        i = i + 1;
    }
    assert(events@ =~= events_of(buf@, n as nat, little));
    assert forall|i: int| 0 <= i < events@.len() implies holds_event(
        buf@.skip(24 * i + 16),
        #[trigger] events@[i],
        little,
    ) by {
        decoding_undoes_encoding(buf@, 24 * i, events@[i], little);
    }
    events
}

/// The relative axis that an event belongs to, by `evdev::InputEvent::new` and
/// `InputEvent::kind`: the code of an event of type `EV_REL`, and none for an
/// event of any other type.
#[verifier::external_body]
fn relative_axis(kind: u16, code: u16, value: i32) -> (axis: Option<u16>)
    ensures
        axis == (if kind == EV_REL {
            Some(code)
        } else {
            None
        }),
{
    match evdev::InputEvent::new(evdev::EventType(kind), code, value).kind() {
        evdev::InputEventKind::RelAxis(axis) => Some(axis.0),
        _ => None,
    }
}

/// The negated value of an event; the least value gives the greatest one.
pub open spec fn reversed(value: int) -> int {
    if -value > i32::MAX {
        i32::MAX as int
    } else {
        -value
    }
}

/// Which way an event scrolls, down where it is positive, if the wheel turned
/// far enough to count: by the notches of an ordinary wheel, and by one notch of
/// a high-resolution wheel.  A device reports a turn that scrolls down with a
/// negative value.  The least value that a high-resolution wheel could report
/// has no positive counterpart, and does not count.
pub open spec fn turn(event: RawEvent) -> Option<i32> {
    if event.kind == EV_REL && event.code == REL_WHEEL {
        Some(reversed(event.value as int) as i32)
    } else if event.kind == EV_REL && event.code == REL_WHEEL_HI_RES {
        if event.value >= HI_RES_THRESHOLD {
            Some(-1i32)
        } else if i32::MIN < event.value <= -HI_RES_THRESHOLD {
            Some(1)
        } else {
            None
        }
    } else {
        None
    }
}

/// Passes scrolls on, one per debounce interval; times count nanoseconds from
/// a fixed moment.
#[derive(Debug, Clone, Copy, PartialEq, Eq, Structural)]
pub struct ScrollFilter {
    pub last: u64,
}

/// What a filter passes on of an event.
pub open spec fn passed(filter: ScrollFilter, event: RawEvent, now: u64) -> Option<i32> {
    if now - filter.last >= DEBOUNCE {
        turn(event)
    } else {
        None
    }
}

/// The filter after an event.
pub open spec fn filter_step(filter: ScrollFilter, event: RawEvent, now: u64) -> ScrollFilter {
    if passed(filter, event, now) is Some {
        ScrollFilter { last: now }
    } else {
        filter
    }
}

impl ScrollFilter {
    /// A filter that starts now: nothing passes during the first interval.
    pub fn new(now: u64) -> (r: ScrollFilter)
        ensures
            r.last == now,
    {
        ScrollFilter { last: now }
    }

    /// Takes in an event; returns the direction of the scroll to pass on, if
    /// any.
    pub fn on_event(&mut self, event: &RawEvent, now: u64) -> (r: Option<i32>)
        ensures
            r == passed(*old(self), *event, now),
            *final(self) == filter_step(*old(self), *event, now),
            r is Some ==> event.kind == 2 && (event.code == 8 || event.code == 11 && (event.value
                >= 60 || event.value <= -60)),
            r is None ==> final(self).last == old(self).last,
            r is Some ==> final(self).last == now && now >= old(self).last + 50_000_000,
    {
        match relative_axis(event.kind, event.code, event.value) {
            Some(axis) => {
                if axis == REL_WHEEL {
                    if now.saturating_sub(self.last) < DEBOUNCE {
                        return None;
                    }
                    self.last = now;
                    Some(
                        if event.value == i32::MIN {
                            i32::MAX
                        } else {
                            -event.value
                        },
                    )
                } else if axis == REL_WHEEL_HI_RES {
                    if now.saturating_sub(self.last) < DEBOUNCE {
                        return None;
                    }
                    if event.value >= HI_RES_THRESHOLD {
                        self.last = now;
                        Some(-1)
                    } else if event.value <= -HI_RES_THRESHOLD && event.value != i32::MIN {
                        self.last = now;
                        Some(1)
                    } else {
                        None
                    }
                } else {
                    None
                }
            },
            None => None,
        }
    }
}

/// Whether the name of a file is that of an event device.
pub fn is_event_node(name: &str) -> (r: bool)
    ensures
        r == starts_with(name@, "event"@),
        r <==> name@.len() >= 5 && name@[0] == 'e' && name@[1] == 'v' && name@[2] == 'e' && name@[3]
            == 'n' && name@[4] == 't',
{
    proof {
        reveal_strlit("event");
        let start = name@.take(5);
        if name@.len() >= 5 {
            if start == "event"@ {
                assert(start[0] == 'e' && start[1] == 'v' && start[2] == 'e' && start[3] == 'n'
                    && start[4] == 't');
            }
            if name@[0] == 'e' && name@[1] == 'v' && name@[2] == 'e' && name@[3] == 'n' && name@[4]
                == 't' {
                assert(start =~= "event"@);
            }
        }
    }
    has_prefix(name, "event")
}

/// A scroll wheel is among the relative axes of a device; one that was not
/// opened has none.
pub open spec fn has_wheel(axes: Option<Vec<u16>>) -> bool {
    axes matches Some(codes) && (codes@.contains(REL_WHEEL) || codes@.contains(REL_WHEEL_HI_RES))
}

/// Whether a device with these relative axes has a scroll wheel.
pub fn is_scroll_device(axes: &Option<Vec<u16>>) -> (r: bool)
    ensures
        r == has_wheel(*axes),
        r <==> (axes matches Some(codes) && exists|j: int|
            0 <= j < codes@.len() && (#[trigger] codes@[j] == 8 || codes@[j] == 11)),
{
    match axes {
        None => false,
        Some(codes) => {
            proof {
                wheels_are_known_by_axis(*codes);
            }
            let mut i: usize = 0;
            while i < codes.len()
                invariant
                    *axes == Some(*codes),
                    i <= codes@.len(),
                    forall|j: int|
                        0 <= j < i ==> #[trigger] codes@[j] != REL_WHEEL && codes@[j]
                            != REL_WHEEL_HI_RES,
                decreases codes@.len() - i,
            {
                if codes[i] == REL_WHEEL || codes[i] == REL_WHEEL_HI_RES {
                    assert(codes@.contains(codes@[i as int]));
                    return true;
                }
                i = i + 1;
            }
            false
        },
    }
}

/// Which entries of a directory are event devices with a scroll wheel, each
/// once and in the order of the listing.
///
/// `names` are the names of the entries, and `axes` the relative axes of the
/// devices behind them, where they could be opened and have any.
pub fn scroll_entries(names: &Vec<String>, axes: &Vec<Option<Vec<u16>>>) -> (r: Vec<usize>)
    requires
        names@.len() == axes@.len(),
    ensures
        forall|j: int, k: int| 0 <= j < k < r@.len() ==> #[trigger] r@[j] < #[trigger] r@[k],
        forall|j: int| 0 <= j < r@.len() ==> #[trigger] r@[j] < names@.len(),
        forall|i: usize|
            i < names@.len() ==> (#[trigger] r@.contains(i) <==> starts_with(
                names@[i as int]@,
                "event"@,
            ) && has_wheel(axes@[i as int])),
{
    let mut found: Vec<usize> = Vec::new();
    let mut n: usize = 0;
    while n < names.len()
        invariant
            names@.len() == axes@.len(),
            n <= names@.len(),
            forall|j: int, k: int|
                0 <= j < k < found@.len() ==> #[trigger] found@[j] < #[trigger] found@[k],
            forall|j: int| 0 <= j < found@.len() ==> #[trigger] found@[j] < n,
            forall|i: usize|
                i < n ==> (#[trigger] found@.contains(i) <==> starts_with(
                    names@[i as int]@,
                    "event"@,
                ) && has_wheel(axes@[i as int])),
        decreases names@.len() - n,
    {
        let ghost before = found@;
        let wanted: bool = is_event_node(names[n].as_str()) && is_scroll_device(&axes[n]);
        if wanted {
            found.push(n);
        }
        assert forall|i: usize| i < n + 1 implies (#[trigger] found@.contains(i) <==> starts_with(
            names@[i as int]@,
            "event"@,
        ) && has_wheel(axes@[i as int])) by {
            if before.contains(i) {
                let j = choose|j: int| 0 <= j < before.len() && before[j] == i;
                assert(found@[j] == i);
            }
            if wanted {
                assert(found@[before.len() as int] == n);
            }
            if found@.contains(i) && i < n {
                let j = choose|j: int| 0 <= j < found@.len() && found@[j] == i;
                assert(before[j] == i);
            }
        }
        n = n + 1;
    }
    found
}

/// How many milliseconds to wait before a device is read again after a read
/// failed; a device that did not just lack data is given up.
pub fn after_failed_read(would_block: bool) -> (r: Option<u64>)
    ensures
        r == (if would_block {
            Some(10u64)
        } else {
            None
        }),
{
    if would_block {
        Some(IDLE_MS)
    } else {
        None
    }
}

/// The filter after a run of events.
pub open spec fn filter_run(filter: ScrollFilter, events: Seq<(RawEvent, u64)>) -> ScrollFilter
    decreases events.len(),
{
    if events.len() == 0 {
        filter
    } else {
        let (event, now) = events.last();
        filter_step(filter_run(filter, events.drop_last()), event, now)
    }
}

/// The times at which a filter passes a scroll on, of a run of events.
pub open spec fn passed_times(filter: ScrollFilter, events: Seq<(RawEvent, u64)>) -> Seq<u64>
    decreases events.len(),
{
    if events.len() == 0 {
        seq![]
    } else {
        let (event, now) = events.last();
        let before = passed_times(filter, events.drop_last());
        if passed(filter_run(filter, events.drop_last()), event, now) is Some {
            before.push(now)
        } else {
            before
        }
    }
}

/// Whatever a device delivers, and when, a filter passes scrolls on no closer
/// together than the debounce interval, and none within the first interval.
pub proof fn scrolls_are_debounced(filter: ScrollFilter, events: Seq<(RawEvent, u64)>)
    ensures
        ({
            let times = passed_times(filter, events);
            &&& forall|i: int| 0 <= i < times.len() ==> #[trigger] times[i] >= filter.last + 50_000_000
            &&& forall|i: int, j: int|
                0 <= i < j < times.len() ==> #[trigger] times[j] - #[trigger] times[i] >= 50_000_000
            &&& filter_run(filter, events).last == (if times.len() == 0 {
                filter.last
            } else {
                times.last()
            })
        }),
    decreases events.len(),
{
    if events.len() > 0 {
        let (event, now) = events.last();
        let first = events.drop_last();
        scrolls_are_debounced(filter, first);
        let before = passed_times(filter, first);
        let times = passed_times(filter, events);
        if passed(filter_run(filter, first), event, now) is Some {
            assert(times == before.push(now));
            assert forall|i: int, j: int| 0 <= i < j < times.len() implies #[trigger] times[j]
                - #[trigger] times[i] >= DEBOUNCE by {
                if j == before.len() {
                    assert(before[i] == times[i]);
                    assert(before.last() == before[before.len() - 1]);
                    if i < before.len() - 1 {
                        assert(before[before.len() - 1] - before[i] >= DEBOUNCE);
                    }
                }
            }
            assert forall|i: int| 0 <= i < times.len() implies #[trigger] times[i] >= filter.last
                + DEBOUNCE by {
                if i == before.len() && before.len() > 0 {
                    assert(before[before.len() - 1] >= filter.last + DEBOUNCE);
                }
            }
        }
    }
}

/// A scroll that comes at least a debounce interval after the last one that
/// was passed on is passed on, as one down where the device reports a negative
/// value, and as one up where it reports a positive one.
pub proof fn late_scrolls_pass(filter: ScrollFilter, event: RawEvent, now: u64)
    requires
        now >= filter.last + 50_000_000,
        event.kind == 2,
        event.code == 8 || event.code == 11 && event.value != i32::MIN && (
        event.value >= 60 || event.value <= -60),
    ensures
        passed(filter, event, now) matches Some(direction) && (direction > 0 <==> event.value < 0)
            && (direction < 0 <==> event.value > 0),
{
}

/// Only wheels scroll.  An event that is passed on comes from an ordinary wheel,
/// and its direction is the opposite of its value, or from a high-resolution
/// wheel that turned by at least half a notch, and its direction is one notch
/// against the turn.  Every other event, such as a motion of the mouse, is
/// dropped, and the filter is as if it had not come.
pub proof fn only_wheels_scroll(filter: ScrollFilter, event: RawEvent, now: u64)
    ensures
        match passed(filter, event, now) {
            Some(direction) => {
                &&& event.kind == 2
                &&& now >= filter.last + 50_000_000
                &&& event.code == 8 && (direction + event.value == 0 || event.value == i32::MIN
                    && direction == i32::MAX) || event.code == 11 && (event.value >= 60
                    && direction == -1 || event.value <= -60 && direction == 1)
                &&& filter_step(filter, event, now).last == now
            },
            None => filter_step(filter, event, now) == filter,
        },
{
}

/// What a filter makes of an event depends on its time alone: an event is
/// passed on from the end of the interval on, and then always in the same way.
pub proof fn waiting_does_not_change_scrolls(
    filter: ScrollFilter,
    event: RawEvent,
    soon: u64,
    late: u64,
)
    requires
        soon <= late,
    ensures
        passed(filter, event, soon) is Some ==> passed(filter, event, late) == passed(
            filter,
            event,
            soon,
        ),
        soon < filter.last + 50_000_000 ==> passed(filter, event, soon) is None,
        soon >= filter.last + 50_000_000 ==> passed(filter, event, late) == passed(
            filter,
            event,
            soon,
        ),
{
}

/// Turning an ordinary wheel back by as much as it was turned scrolls back by as
/// much.
pub proof fn turning_back_scrolls_back(filter: ScrollFilter, value: i32, now: u64)
    requires
        now >= filter.last + 50_000_000,
        value > i32::MIN,
    ensures
        ({
            let there = RawEvent { kind: 2, code: 8, value };
            let back = RawEvent { kind: 2, code: 8, value: (-value) as i32 };
            &&& passed(filter, there, now) == Some((-value) as i32)
            &&& passed(filter, back, now) == Some(value)
        }),
{
}

/// A wheel is known by its axis, among whatever other axes its device has.
pub proof fn wheels_are_known_by_axis(codes: Vec<u16>)
    ensures
        has_wheel(Some(codes)) <==> exists|j: int|
            0 <= j < codes@.len() && (#[trigger] codes@[j] == 8 || codes@[j] == 11),
        !has_wheel(None),
{
    if codes@.contains(REL_WHEEL) {
        let j = codes@.index_of(REL_WHEEL);
        assert(codes@[j] == 8);
    }
    if codes@.contains(REL_WHEEL_HI_RES) {
        let j = codes@.index_of(REL_WHEEL_HI_RES);
        assert(codes@[j] == 11);
    }
}

} // verus!
