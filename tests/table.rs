use midi_cc_convert::table::{CCMap, CCMapElem};

fn elem(ch: Option<u8>, num: u8) -> CCMapElem {
    CCMapElem { ch, num }
}

#[test]
fn empty_table_is_identity() {
    let m = CCMap::new();
    for ch in 1u8..=16 {
        for num in 0u8..=127 {
            assert_eq!(m.get_cc_elem(ch, num), elem(Some(ch), num));
        }
    }
}

#[test]
fn every_lookup_resolves_to_a_concrete_channel() {
    let mut m = CCMap::new();
    m.insert(elem(None, 3), elem(None, 4));
    m.insert(elem(Some(2), 5), elem(Some(9), 6));
    for ch in 1u8..=16 {
        for num in 0u8..=127 {
            let r = m.get_cc_elem(ch, num);
            let c = r.ch.expect("channel");
            assert!(1 <= c && c <= 16);
            assert!(r.num <= 127);
        }
    }
}

#[test]
fn unmatched_lookup_falls_back_to_identity() {
    let mut m = CCMap::new();
    m.insert(elem(Some(1), 10), elem(Some(2), 20));
    m.insert(elem(None, 11), elem(Some(3), 30));
    assert_eq!(m.get_cc_elem(1, 12), elem(Some(1), 12));
    assert_eq!(m.get_cc_elem(4, 10), elem(Some(4), 10));
}

#[test]
fn exact_entry_wins_over_wildcard() {
    let mut m = CCMap::new();
    m.insert(elem(None, 10), elem(Some(7), 70));
    m.insert(elem(Some(3), 10), elem(Some(8), 80));
    assert_eq!(m.get_cc_elem(3, 10), elem(Some(8), 80));
    assert_eq!(m.get_cc_elem(4, 10), elem(Some(7), 70));
}

#[test]
fn wildcard_value_keeps_caller_channel() {
    let mut m = CCMap::new();
    m.insert(elem(None, 10), elem(None, 20));
    assert_eq!(m.get_cc_elem(5, 10), elem(Some(5), 20));
}

#[test]
fn exact_key_with_wildcard_value_keeps_channel() {
    let mut m = CCMap::new();
    m.insert(elem(Some(2), 1), elem(None, 2));
    assert_eq!(m.get_cc_elem(2, 1), elem(Some(2), 2));
}

#[test]
fn insert_replaces_same_key() {
    let mut m = CCMap::new();
    m.insert(elem(Some(1), 1), elem(Some(2), 2));
    m.insert(elem(Some(1), 1), elem(Some(3), 3));
    assert_eq!(m.get_cc_elem(1, 1), elem(Some(3), 3));
}

#[test]
fn with_channel_replaces_only_wildcard() {
    assert_eq!(elem(None, 9).with_channel(4), elem(Some(4), 9));
    assert_eq!(elem(Some(6), 9).with_channel(4), elem(Some(6), 9));
}

#[test]
fn largest_channel_and_controller() {
    let mut m = CCMap::new();
    m.insert(elem(Some(16), 127), elem(Some(1), 0));
    assert_eq!(m.get_cc_elem(16, 127), elem(Some(1), 0));
    assert_eq!(m.get_cc_elem(15, 127), elem(Some(15), 127));
}
