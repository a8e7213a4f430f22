use midi_cc_convert::config::Config;
use midi_cc_convert::device::{find_by_id, find_by_name, preferred_device, DeviceDesc};
use midi_cc_convert::table::{CCMap, CCMapElem};

fn dev(id: i32, name: &str) -> DeviceDesc {
    DeviceDesc { id, name: name.to_string(), is_input: true }
}

#[test]
fn name_lookup_takes_first_match() {
    let ds = vec![dev(0, "a"), dev(3, "b"), dev(5, "b")];
    assert_eq!(find_by_name(&ds, &"b".to_string()), Some(1));
    assert_eq!(find_by_name(&ds, &"c".to_string()), None);
}

#[test]
fn id_lookup() {
    let ds = vec![dev(0, "a"), dev(3, "b")];
    assert_eq!(find_by_id(&ds, 3), Some(1));
    assert_eq!(find_by_id(&ds, 1), None);
    assert_eq!(find_by_id(&Vec::new(), 0), None);
}

#[test]
fn preferred_device_needs_a_name() {
    let ds = vec![dev(0, "a"), dev(3, "b")];
    assert_eq!(preferred_device(&ds, &None), None);
    assert_eq!(preferred_device(&ds, &Some("a".to_string())), Some(0));
    assert_eq!(preferred_device(&ds, &Some("z".to_string())), None);
}

#[test]
fn default_config() {
    let mut m = CCMap::new();
    m.insert(CCMapElem { ch: None, num: 1 }, CCMapElem { ch: None, num: 2 });
    let c = Config::new(m);
    assert!(!c.debug);
    assert!(c.in_device_name.is_none());
    assert!(c.out_device_name.is_none());
    assert_eq!(c.mapping.get_cc_elem(4, 1), CCMapElem { ch: Some(4), num: 2 });
}
