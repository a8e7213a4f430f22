use midi_cc_convert::event::{
    cc_channel, cc_status, is_control_change, remap_batch, remap_event, MidiEvent,
};
use midi_cc_convert::mapping_file::parse_mapping;
use midi_cc_convert::table::{CCMap, CCMapElem};

fn ev(status: u8, data1: u8, data2: u8, timestamp: u32) -> MidiEvent {
    MidiEvent { status, data1, data2, timestamp }
}

#[test]
fn exact_rule_rewrites_channel_and_controller() {
    let m = parse_mapping(b"1:10,2:20").unwrap();
    let out = remap_event(&m, ev(0xB0, 10, 64, 5));
    assert_eq!(out, ev(0xB1, 20, 64, 5));
}

#[test]
fn double_wildcard_rule_keeps_channel() {
    let m = parse_mapping(b":10,:30").unwrap();
    let out = remap_event(&m, ev(0xB4, 10, 99, 7));
    assert_eq!(out, ev(0xB4, 30, 99, 7));
}

#[test]
fn empty_mapping_passes_cc_through() {
    let m = parse_mapping(b"").unwrap();
    for status in 0xB0u8..=0xBF {
        for data1 in [0u8, 1, 64, 127] {
            let out = remap_event(&m, ev(status, data1, 33, 1000));
            assert_eq!(out, ev(status, data1, 33, 1000));
        }
    }
}

#[test]
fn single_field_line_is_skipped() {
    let m = parse_mapping(b"5:7").unwrap();
    assert_eq!(m.get_cc_elem(5, 7), CCMapElem { ch: Some(5), num: 7 });
    let out = remap_event(&m, ev(0xB4, 7, 1, 2));
    assert_eq!(out, ev(0xB4, 7, 1, 2));
}

#[test]
fn wildcard_entry_on_channel_five() {
    let mut m = CCMap::new();
    m.insert(CCMapElem { ch: None, num: 10 }, CCMapElem { ch: None, num: 20 });
    assert_eq!(remap_event(&m, ev(0xB4, 10, 3, 4)), ev(0xB4, 20, 3, 4));
}

#[test]
fn non_cc_events_pass_through() {
    let mut m = CCMap::new();
    m.insert(CCMapElem { ch: None, num: 10 }, CCMapElem { ch: Some(3), num: 20 });
    for status in [0x00u8, 0x80, 0x90, 0xAF, 0xC0, 0xE5, 0xF8, 0xFF] {
        let e = ev(status, 10, 20, 123456);
        assert_eq!(remap_event(&m, e), e);
    }
}

#[test]
fn status_round_trip() {
    for c in 1u8..=16 {
        let s = 0xB0 + (c - 1);
        assert_eq!(cc_channel(s), c);
        assert_eq!(cc_status(cc_channel(s)), s);
        assert_eq!(cc_channel(cc_status(c)), c);
    }
    assert_eq!(cc_status(16), 0xBF);
    assert_eq!(cc_channel(0xB9), 10);
}

#[test]
fn batch_keeps_order() {
    let m = parse_mapping(b"1:10,2:20\n:11,16:0").unwrap();
    let batch = vec![
        ev(0xB0, 10, 1, 1),
        ev(0x90, 60, 100, 2),
        ev(0xB3, 11, 2, 3),
        ev(0xB0, 12, 3, 4),
    ];
    let out = remap_batch(&m, &batch);
    assert_eq!(
        out,
        vec![ev(0xB1, 20, 1, 1), ev(0x90, 60, 100, 2), ev(0xBF, 0, 2, 3), ev(0xB0, 12, 3, 4)]
    );
    let mut all = batch.clone();
    all.extend(batch.iter().cloned());
    let mut twice = out.clone();
    twice.extend(out.iter().cloned());
    assert_eq!(remap_batch(&m, &all), twice);
}

#[test]
fn empty_batch() {
    let m = CCMap::new();
    assert_eq!(remap_batch(&m, &Vec::new()), Vec::new());
}

#[test]
fn control_change_range() {
    assert!(!is_control_change(0xAF));
    assert!(is_control_change(0xB0));
    assert!(is_control_change(0xBF));
    assert!(!is_control_change(0xC0));
}
