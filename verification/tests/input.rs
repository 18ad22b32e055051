use long_shot_rs::input::{
    after_failed_read, decode_events, is_event_node, is_scroll_device, scroll_entries, RawEvent,
    ScrollFilter, DEBOUNCE, EV_REL, REL_WHEEL, REL_WHEEL_HI_RES,
};

const MS: u64 = 1_000_000;

fn wheel(value: i32) -> RawEvent {
    RawEvent { kind: EV_REL, code: REL_WHEEL, value }
}

fn hi_res(value: i32) -> RawEvent {
    RawEvent { kind: EV_REL, code: REL_WHEEL_HI_RES, value }
}

#[test]
fn axis_numbers_are_those_of_evdev() {
    assert_eq!(evdev::EventType::RELATIVE.0, EV_REL);
    assert_eq!(evdev::RelativeAxisType::REL_WHEEL.0, REL_WHEEL);
    assert_eq!(evdev::RelativeAxisType::REL_WHEEL_HI_RES.0, REL_WHEEL_HI_RES);
}

#[test]
fn events_are_decoded() {
    let mut buf = vec![0xaau8; 60];
    buf[16..24].copy_from_slice(&[2, 0, 8, 0, 0xff, 0xff, 0xff, 0xff]);
    buf[40..48].copy_from_slice(&[2, 1, 0x0b, 0, 0, 0, 0, 0x80]);
    assert_eq!(
        decode_events(&buf, 60, true),
        vec![wheel(-1), RawEvent { kind: 258, code: 11, value: i32::MIN }],
    );
    assert_eq!(
        decode_events(&buf, 48, false)[1],
        RawEvent { kind: 513, code: 0x0b00, value: 0x80 },
    );
    assert_eq!(decode_events(&buf, 47, true).len(), 1);
    assert_eq!(decode_events(&buf, 23, true), vec![]);
}

#[test]
fn native_events_are_decoded() {
    let mut buf = vec![0u8; 24];
    buf[16..18].copy_from_slice(&2u16.to_ne_bytes());
    buf[18..20].copy_from_slice(&11u16.to_ne_bytes());
    buf[20..24].copy_from_slice(&(-120i32).to_ne_bytes());
    let little = 1u16.to_ne_bytes()[0] == 1;
    assert_eq!(decode_events(&buf, 24, little), vec![hi_res(-120)]);
}

#[test]
fn wheel_turns_are_passed_on() {
    let mut filter = ScrollFilter::new(0);
    // A device reports a turn that scrolls down with a negative value.
    assert_eq!(filter.on_event(&wheel(-3), 50 * MS), Some(3));
    assert_eq!(filter.on_event(&hi_res(120), 100 * MS), Some(-1));
    assert_eq!(filter.on_event(&hi_res(-60), 150 * MS), Some(1));
    assert_eq!(filter.on_event(&hi_res(60), 200 * MS), Some(-1));
    assert_eq!(filter.on_event(&hi_res(59), 250 * MS), None);
    assert_eq!(filter.on_event(&hi_res(-59), 250 * MS), None);
    assert_eq!(filter.on_event(&hi_res(i32::MIN), 250 * MS), None);
    assert_eq!(filter.last, 200 * MS);
}

#[test]
fn other_events_are_ignored() {
    let mut filter = ScrollFilter::new(0);
    for kind in [0u16, 1, 3, 4, 0x15, 0x17, 0x101, 77] {
        let event = RawEvent { kind, code: REL_WHEEL, value: 1 };
        assert_eq!(filter.on_event(&event, 1000 * MS), None);
    }
    for code in [0u16, 6, 9, 12] {
        let event = RawEvent { kind: EV_REL, code, value: 1 };
        assert_eq!(filter.on_event(&event, 1000 * MS), None);
    }
    assert_eq!(filter.last, 0);
}

#[test]
fn scrolls_come_at_most_once_per_interval() {
    let mut filter = ScrollFilter::new(7);
    let mut passed: Vec<u64> = vec![];
    for step in 0..100u64 {
        let now = 7 + step * 13 * MS;
        if filter.on_event(&wheel(1), now).is_some() {
            passed.push(now);
        }
    }
    assert_eq!(passed.len(), 24);
    assert!(passed[0] >= 7 + DEBOUNCE);
    for pair in passed.windows(2) {
        assert!(pair[1] - pair[0] >= DEBOUNCE);
    }
    assert_eq!(ScrollFilter::new(0).on_event(&wheel(1), DEBOUNCE - 1), None);
    assert_eq!(ScrollFilter::new(0).on_event(&wheel(1), DEBOUNCE), Some(-1));
    assert_eq!(ScrollFilter::new(0).on_event(&wheel(0), DEBOUNCE), Some(0));
    assert_eq!(ScrollFilter::new(0).on_event(&wheel(i32::MIN), DEBOUNCE), Some(i32::MAX));
}

#[test]
fn scroll_devices_are_recognised() {
    assert!(is_event_node("event0"));
    assert!(!is_event_node("mice"));
    assert!(is_scroll_device(&Some(vec![0, 1, 8])));
    assert!(is_scroll_device(&Some(vec![11])));
    assert!(!is_scroll_device(&Some(vec![0, 1, 6, 12])));
    assert!(!is_scroll_device(&Some(vec![])));
    assert!(!is_scroll_device(&None));
}

#[test]
fn scroll_devices_are_listed_in_order() {
    let names: Vec<String> =
        ["event3", "mouse0", "event1", "by-id", "event7", "event10"].map(String::from).to_vec();
    let axes = vec![
        Some(vec![0, 1, 8, 11]),
        Some(vec![8]),
        Some(vec![0, 1]),
        None,
        None,
        Some(vec![11]),
    ];
    assert_eq!(scroll_entries(&names, &axes), vec![0, 5]);
    assert_eq!(scroll_entries(&vec![], &vec![]), Vec::<usize>::new());
}

#[test]
fn failed_reads_are_retried_where_data_was_lacking() {
    assert_eq!(after_failed_read(true), Some(10));
    assert_eq!(after_failed_read(false), None);
}
