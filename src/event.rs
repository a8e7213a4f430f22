//! The remap engine: Control-Change events are rewritten through the mapping
//! table, every other event passes through unchanged.

use crate::table::{lemma_resolve_total, resolve, CCMap, CCMapElem};
use vstd::prelude::*;

verus! {

/// A MIDI event: a status byte, two data bytes and a timestamp.
#[derive(Debug, Clone, Copy, PartialEq, Eq, Structural)]
pub struct MidiEvent {
    pub status: u8,
    pub data1: u8,
    pub data2: u8,
    pub timestamp: u32,
}

/// The status byte is a Control-Change (0xB0 to 0xBF).
pub open spec fn is_cc_status(status: u8) -> bool {
    0xB0 <= status <= 0xBF
}

/// The channel (1 to 16) that a Control-Change status byte carries.
pub open spec fn status_channel(status: u8) -> u8 {
    (status - 0xB0 + 1) as u8
}

/// The Control-Change status byte for channel `ch` (1 to 16).
pub open spec fn channel_status(ch: u8) -> u8 {
    (0xB0 + ch - 1) as u8
}

/// The event that the engine emits for `e` under table `m`.
pub open spec fn remapped(m: Map<CCMapElem, CCMapElem>, e: MidiEvent) -> MidiEvent {
    if is_cc_status(e.status) {
        let r = resolve(m, status_channel(e.status), e.data1);
        MidiEvent {
            status: channel_status(r.ch.unwrap()),
            data1: r.num,
            data2: e.data2,
            timestamp: e.timestamp,
        }
    } else {
        e
    }
}

/// Each event of a batch remapped, in the batch's order.
pub open spec fn remapped_all(m: Map<CCMapElem, CCMapElem>, s: Seq<MidiEvent>) -> Seq<MidiEvent> {
    s.map_values(|e: MidiEvent| remapped(m, e))
}

/// Whether a status byte is a Control-Change.
pub fn is_control_change(status: u8) -> (r: bool)
    ensures
        r == is_cc_status(status),
{
    0xB0 <= status && status <= 0xBF
}

/// The channel of a Control-Change status byte.
pub fn cc_channel(status: u8) -> (r: u8)
    requires
        is_cc_status(status),
    ensures
        r == status_channel(status),
        1 <= r <= 16,
{
    status - 0xB0 + 1
}

/// The Control-Change status byte of a channel.
pub fn cc_status(ch: u8) -> (r: u8)
    requires
        1 <= ch <= 16,
    ensures
        r == channel_status(ch),
        is_cc_status(r),
{
    0xB0 + (ch - 1)
}

/// Decoding a Control-Change status byte and encoding the channel again
/// gives the same byte, and encoding a channel then decoding it gives the
/// same channel.
pub proof fn lemma_status_round_trip(status: u8, ch: u8)
    ensures
        is_cc_status(status) ==> channel_status(status_channel(status)) == status,
        1 <= ch <= 16 ==> is_cc_status(channel_status(ch)) && status_channel(channel_status(ch)) == ch,
{
}

/// An event whose status byte is not a Control-Change is emitted unchanged,
/// whatever the table holds: status, data bytes and timestamp.
pub proof fn lemma_non_cc_passthrough(m: Map<CCMapElem, CCMapElem>, e: MidiEvent)
    requires
        !is_cc_status(e.status),
    ensures
        remapped(m, e) == e,
{
}

/// Remaps one event: a Control-Change event gets the channel and controller
/// that the table resolves, with its value and timestamp kept; any other
/// event comes back unchanged.
pub fn remap_event(map: &CCMap, event: MidiEvent) -> (r: MidiEvent)
    requires
        map.wf(),
    ensures
        r == remapped(map@, event),
        !is_cc_status(event.status) ==> r == event,
        is_cc_status(event.status) ==> is_cc_status(r.status),
{
    if is_control_change(event.status) {
        let ch = cc_channel(event.status);
        let elem = map.get_cc_elem(ch, event.data1);
        proof {
            lemma_resolve_total(map@, ch, event.data1);
        }
        let out_ch = match elem.ch {
            Some(c) => c,
            None => ch,
        };
        MidiEvent {
            status: cc_status(out_ch),
            data1: elem.num,
            data2: event.data2,
            timestamp: event.timestamp,
        }
    } else {
        event
    }
}

/// Remaps a batch: one output per input, in the same order.
pub fn remap_batch(map: &CCMap, events: &Vec<MidiEvent>) -> (r: Vec<MidiEvent>)
    requires
        map.wf(),
    ensures
        r@ == remapped_all(map@, events@),
{
    let mut out: Vec<MidiEvent> = Vec::with_capacity(events.len());
    let mut i: usize = 0;
    while i < events.len()
        invariant
            map.wf(),
            i <= events.len(),
            out@ == remapped_all(map@, events@.take(i as int)),
        decreases events.len() - i,
    {
        out.push(remap_event(map, events[i]));
        i += 1;
        assert(events@.take(i as int) == events@.take(i - 1).push(events@[i - 1]));
        assert(remapped_all(map@, events@.take(i as int)) =~= remapped_all(map@, events@.take(i - 1)).push(remapped(map@, events@[i - 1])));
    }
    assert(events@.take(i as int) =~= events@);
    out
}

/// Remapping two batches one after the other gives the events of the first,
/// then those of the second, each remapped: order is kept within and across
/// batches.
pub proof fn lemma_batches_keep_order(m: Map<CCMapElem, CCMapElem>, a: Seq<MidiEvent>, b: Seq<MidiEvent>)
    ensures
        remapped_all(m, a + b) == remapped_all(m, a) + remapped_all(m, b),
        remapped_all(m, a).len() == a.len(),
        forall|i: int| 0 <= i < a.len() ==> #[trigger] remapped_all(m, a)[i] == remapped(m, a[i]),
{
    assert(remapped_all(m, a + b) =~= remapped_all(m, a) + remapped_all(m, b));
}

} // verus!
