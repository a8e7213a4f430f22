//! Choosing a device from the list that the MIDI system reports.

use vstd::prelude::*;

verus! {

/// A MIDI device as the system lists it.
#[derive(Debug, Clone)]
pub struct DeviceDesc {
    pub id: i32,
    pub name: String,
    pub is_input: bool,
}

/// The index of the first device named `name`, if any.
pub fn find_by_name(devices: &Vec<DeviceDesc>, name: &String) -> (r: Option<usize>)
    ensures
        match r {
            Some(i) => i < devices.len() && devices[i as int].name@ == name@ && forall|j: int|
                0 <= j < i ==> (#[trigger] devices[j]).name@ != name@,
            None => forall|j: int| 0 <= j < devices.len() ==> (#[trigger] devices[j]).name@ != name@,
        },
{
    let mut i: usize = 0;
    while i < devices.len()
        invariant
            i <= devices.len(),
            forall|j: int| 0 <= j < i ==> (#[trigger] devices[j]).name@ != name@,
        decreases devices.len() - i,
    {
        if devices[i].name == *name {
            return Some(i);
        }
        i += 1;
    }
    None
}

/// The index of the first device with id `id`, if any.
pub fn find_by_id(devices: &Vec<DeviceDesc>, id: i32) -> (r: Option<usize>)
    ensures
        match r {
            Some(i) => i < devices.len() && devices[i as int].id == id && forall|j: int|
                0 <= j < i ==> (#[trigger] devices[j]).id != id,
            None => forall|j: int| 0 <= j < devices.len() ==> (#[trigger] devices[j]).id != id,
        },
{
    let mut i: usize = 0;
    while i < devices.len()
        invariant
            i <= devices.len(),
            forall|j: int| 0 <= j < i ==> (#[trigger] devices[j]).id != id,
        decreases devices.len() - i,
    {
        if devices[i].id == id {
            return Some(i);
        }
        i += 1;
    }
    None
}

/// The device chosen without asking: the first one with the preferred name.
/// `None` means the user has to pick one by id.
pub fn preferred_device(devices: &Vec<DeviceDesc>, preferred: &Option<String>) -> (r: Option<usize>)
    ensures
        match preferred {
            Some(n) => match r {
                Some(i) => i < devices.len() && devices[i as int].name@ == n@ && forall|j: int|
                    0 <= j < i ==> (#[trigger] devices[j]).name@ != n@,
                None => forall|j: int| 0 <= j < devices.len() ==> (#[trigger] devices[j]).name@ != n@,
            },
            None => r is None,
        },
{
    match preferred {
        Some(n) => find_by_name(devices, n),
        None => None,
    }
}

} // verus!
