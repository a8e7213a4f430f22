//! The mapping table: (channel, controller) keys to (channel, controller)
//! values, with a wildcard channel and an identity fallback.

use std::collections::HashMap;
use vstd::prelude::*;

verus! {

broadcast use vstd::std_specs::hash::group_hash_axioms;

/// A channel (1 to 16, or `None` for "any channel") and a controller number.
#[derive(Debug, Clone, Copy, PartialEq, Eq, Structural, Hash)]
pub struct CCMapElem {
    pub ch: Option<u8>,
    pub num: u8,
}

impl CCMapElem {
    /// The channel is absent or in 1..=16, and the controller is in 0..=127.
    pub open spec fn wf(self) -> bool {
        &&& match self.ch {
            Some(c) => 1 <= c <= 16,
            None => true,
        }
        &&& self.num <= 127
    }
}

/// The integer under which an element is stored: distinct elements get
/// distinct codes.
pub open spec fn key_code(k: CCMapElem) -> u32 {
    match k.ch {
        Some(c) => ((c as u32 + 1) * 256 + k.num as u32) as u32,
        None => k.num as u32,
    }
}

/// An entry's value made concrete for a lookup on channel `ch`: a wildcard
/// channel becomes the caller's channel.
pub open spec fn concretize(v: CCMapElem, ch: u8) -> CCMapElem {
    match v.ch {
        Some(_) => v,
        None => CCMapElem { ch: Some(ch), num: v.num },
    }
}

/// What a lookup of (`ch`, `num`) yields on table `m`: the exact entry, else
/// the wildcard entry, else the input itself.
pub open spec fn resolve(m: Map<CCMapElem, CCMapElem>, ch: u8, num: u8) -> CCMapElem {
    let exact = CCMapElem { ch: Some(ch), num };
    let wild = CCMapElem { ch: None, num };
    if m.contains_key(exact) {
        concretize(m[exact], ch)
    } else if m.contains_key(wild) {
        concretize(m[wild], ch)
    } else {
        exact
    }
}

/// Every key and every value of the table is well formed.
pub open spec fn table_wf(m: Map<CCMapElem, CCMapElem>) -> bool {
    forall|k: CCMapElem| #[trigger] m.contains_key(k) ==> k.wf() && m[k].wf()
}

proof fn lemma_key_code_injective(a: CCMapElem, b: CCMapElem)
    ensures
        key_code(a) == key_code(b) ==> a == b,
{
}

fn code_of(k: CCMapElem) -> (r: u32)
    ensures
        r == key_code(k),
{
    match k.ch {
        Some(c) => (c as u32 + 1) * 256 + k.num as u32,
        None => k.num as u32,
    }
}

/// The mapping table.
pub struct CCMap {
    map: HashMap<u32, CCMapElem>,
}

impl View for CCMap {
    type V = Map<CCMapElem, CCMapElem>;

    closed spec fn view(&self) -> Map<CCMapElem, CCMapElem> {
        Map::new(
            |k: CCMapElem| self.map@.contains_key(key_code(k)),
            |k: CCMapElem| self.map@[key_code(k)],
        )
    }
}

impl CCMap {
    /// Every entry of the table is well formed.
    pub open spec fn wf(&self) -> bool {
        table_wf(self@)
    }

    /// An empty table.
    pub fn new() -> (r: CCMap)
        ensures
            r@ == Map::<CCMapElem, CCMapElem>::empty(),
            r.wf(),
    {
        let r = CCMap { map: HashMap::new() };
        assert(r@ =~= Map::<CCMapElem, CCMapElem>::empty());
        r
    }

    /// Adds an entry, replacing any entry with the same key.
    pub fn insert(&mut self, key: CCMapElem, value: CCMapElem)
        requires
            old(self).wf(),
            key.wf(),
            value.wf(),
        ensures
            final(self).wf(),
            final(self)@ == old(self)@.insert(key, value),
    {
        self.map.insert(code_of(key), value);
        proof {
            assert forall|k: CCMapElem| key_code(k) == key_code(key) implies k == key by {
                lemma_key_code_injective(k, key);
            }
            assert(self@ =~= old(self)@.insert(key, value));
        }
    }

    /// Resolves channel `ch` and controller `num`: the entry keyed by both,
    /// else the entry keyed by the wildcard channel and `num`, else the input
    /// unchanged. A wildcard channel in the chosen entry's value stands for
    /// `ch`. Every input resolves.
    pub fn get_cc_elem(&self, ch: u8, num: u8) -> (r: CCMapElem)
        ensures
            r == resolve(self@, ch, num),
    {
        if let Some(elem) = self.map.get(&code_of(CCMapElem { ch: Some(ch), num })) {
            elem.with_channel(ch)
        } else if let Some(elem) = self.map.get(&code_of(CCMapElem { ch: None, num })) {
            elem.with_channel(ch)
        } else {
            CCMapElem { ch: Some(ch), num }
        }
    }
}

impl CCMapElem {
    /// This element, with a wildcard channel replaced by `ch`.
    pub fn with_channel(&self, ch: u8) -> (r: CCMapElem)
        ensures
            r == concretize(*self, ch),
    {
        match self.ch {
            Some(_) => *self,
            None => CCMapElem { ch: Some(ch), num: self.num },
        }
    }
}

/// On a well-formed table every lookup on a channel in 1..=16 resolves to a
/// concrete channel in 1..=16, and one on a controller in 0..=127 to a
/// controller in 0..=127.
pub proof fn lemma_resolve_total(m: Map<CCMapElem, CCMapElem>, ch: u8, num: u8)
    requires
        table_wf(m),
        1 <= ch <= 16,
    ensures
        resolve(m, ch, num).ch is Some,
        1 <= resolve(m, ch, num).ch.unwrap() <= 16,
        num <= 127 ==> resolve(m, ch, num).wf(),
{
    let exact = CCMapElem { ch: Some(ch), num };
    let wild = CCMapElem { ch: None, num };
    assert(m.contains_key(exact) ==> m[exact].wf());
    assert(m.contains_key(wild) ==> m[wild].wf());
}

/// With neither an exact nor a wildcard entry for the controller, a lookup
/// returns its input.
pub proof fn lemma_resolve_identity(m: Map<CCMapElem, CCMapElem>, ch: u8, num: u8)
    requires
        !m.contains_key(CCMapElem { ch: Some(ch), num }),
        !m.contains_key(CCMapElem { ch: None, num }),
    ensures
        resolve(m, ch, num) == (CCMapElem { ch: Some(ch), num }),
{
}

/// An exact entry wins over a wildcard entry for the same controller.
pub proof fn lemma_resolve_exact_first(m: Map<CCMapElem, CCMapElem>, ch: u8, num: u8)
    requires
        m.contains_key(CCMapElem { ch: Some(ch), num }),
        m.contains_key(CCMapElem { ch: None, num }),
    ensures
        resolve(m, ch, num) == concretize(m[CCMapElem { ch: Some(ch), num }], ch),
{
}

/// A wildcard entry whose value has a wildcard channel keeps the caller's
/// channel and remaps the controller.
pub proof fn lemma_resolve_wildcard_keeps_channel(
    m: Map<CCMapElem, CCMapElem>,
    ch: u8,
    num: u8,
    out: u8,
)
    requires
        !m.contains_key(CCMapElem { ch: Some(ch), num }),
        m.contains_key(CCMapElem { ch: None, num }),
        m[CCMapElem { ch: None, num }] == (CCMapElem { ch: None, num: out }),
    ensures
        resolve(m, ch, num) == (CCMapElem { ch: Some(ch), num: out }),
{
}

} // verus!
