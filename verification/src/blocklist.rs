//! The table of blocked source addresses that the packet filter consults:
//! a hash map from an IPv4 address (as a `u32` in host order) to a value,
//! holding at most `BLOCKLIST_MAX_ENTRIES` entries, as the kernel map
//! `BLOCKLIST` does.
use std::collections::HashMap;
use vstd::prelude::*;

verus! {

broadcast use vstd::std_specs::hash::group_hash_axioms;

/// The number of entries the table was created with room for.
pub const BLOCKLIST_MAX_ENTRIES: usize = 1024;

/// An update the table refused.
#[derive(Clone, Copy, Debug, PartialEq, Eq, Structural)]
pub enum MapError {
    /// The key is new and the table already holds `BLOCKLIST_MAX_ENTRIES` entries.
    Full,
}

/// The table of blocked addresses.
pub struct Blocklist {
    entries: HashMap<u32, u32>,
}

impl View for Blocklist {
    type V = Map<u32, u32>;

    closed spec fn view(&self) -> Map<u32, u32> {
        self.entries@
    }
}

/// What an update of key `k` to value `v` leaves in table `m`: the key is
/// set when it is already present or the table has room; otherwise the
/// table stays as it was.
pub open spec fn map_update(m: Map<u32, u32>, k: u32, v: u32) -> Map<u32, u32> {
    if m.contains_key(k) || m.len() < BLOCKLIST_MAX_ENTRIES {
        m.insert(k, v)
    } else {
        m
    }
}

/// An update of `k` in `m` succeeds.
pub open spec fn update_succeeds(m: Map<u32, u32>, k: u32) -> bool {
    m.contains_key(k) || m.len() < BLOCKLIST_MAX_ENTRIES
}

impl Blocklist {
    /// The table is finite and within its capacity.
    pub open spec fn wf(&self) -> bool {
        &&& self@.dom().finite()
        &&& self@.len() <= BLOCKLIST_MAX_ENTRIES
    }

    /// An empty table with room for `BLOCKLIST_MAX_ENTRIES` entries.
    pub fn new() -> (r: Blocklist)
        ensures
            r.wf(),
            r@ == Map::<u32, u32>::empty(),
    {
        Blocklist { entries: HashMap::new() }
    }

    /// The number of entries.
    pub fn len(&self) -> (r: usize)
        requires
            self.wf(),
        ensures
            r == self@.len(),
    {
        self.entries.len()
    }

    /// The value stored for `key`, if any.
    pub fn get(&self, key: u32) -> (r: Option<u32>)
        ensures
            r == (if self@.contains_key(key) {
                Some(self@[key])
            } else {
                None::<u32>
            }),
    {
        match self.entries.get(&key) {
            Some(v) => Some(*v),
            None => None,
        }
    }

    /// Sets `key` to `value`; a new key is refused when the table is full.
    pub fn insert(&mut self, key: u32, value: u32) -> (r: Result<(), MapError>)
        requires
            old(self).wf(),
        ensures
            final(self).wf(),
            final(self)@ == map_update(old(self)@, key, value),
            r is Ok <==> update_succeeds(old(self)@, key),
            r matches Err(e) ==> e == MapError::Full,
    {
        if self.entries.contains_key(&key) || self.entries.len() < BLOCKLIST_MAX_ENTRIES {
            self.entries.insert(key, value);
            proof {
                if !old(self)@.contains_key(key) {
                    assert(self@.len() == old(self)@.len() + 1);
                } else {
                    assert(self@.dom() =~= old(self)@.dom());
                }
            }
            Ok(())
        } else {
            Err(MapError::Full)
        }
    }
}

/// Whether packets from `address` are to be dropped: the address is in the table.
pub fn block_ip(list: &Blocklist, address: u32) -> (r: bool)
    ensures
        r == list@.contains_key(address),
{
    list.get(address).is_some()
}

/// Adds `block_addr` to the table with value 0.
///
/// A refusal of the table (it is full) is not reported: the result is
/// always `Ok`, and the table is then unchanged.
pub fn blockip(map: &mut Blocklist, block_addr: u32) -> (r: Result<(), MapError>)
    requires
        old(map).wf(),
    ensures
        final(map).wf(),
        final(map)@ == map_update(old(map)@, block_addr, 0),
        r is Ok,
{
    let _ = map.insert(block_addr, 0);
    Ok(())
}

/// An update never removes a key, and never changes the value of another key.
pub proof fn lemma_update_keeps_others(m: Map<u32, u32>, k: u32, v: u32, other: u32)
    requires
        m.contains_key(other),
    ensures
        map_update(m, k, v).contains_key(other),
        other != k ==> map_update(m, k, v)[other] == m[other],
{
}

/// After a successful update the key is present with the value written.
pub proof fn lemma_update_then_lookup(m: Map<u32, u32>, k: u32, v: u32)
    requires
        update_succeeds(m, k),
    ensures
        map_update(m, k, v).contains_key(k),
        map_update(m, k, v)[k] == v,
{
}

/// Writing the same key and value twice leaves the table as writing it once.
pub proof fn lemma_update_idempotent(m: Map<u32, u32>, k: u32, v: u32)
    requires
        m.dom().finite(),
    ensures
        map_update(map_update(m, k, v), k, v) == map_update(m, k, v),
{
    if update_succeeds(m, k) {
        assert(map_update(map_update(m, k, v), k, v) =~= map_update(m, k, v));
    }
}

/// An update keeps a table within its capacity.
pub proof fn lemma_update_bounded(m: Map<u32, u32>, k: u32, v: u32)
    requires
        m.dom().finite(),
        m.len() <= BLOCKLIST_MAX_ENTRIES,
    ensures
        map_update(m, k, v).dom().finite(),
        map_update(m, k, v).len() <= BLOCKLIST_MAX_ENTRIES,
{
    if m.contains_key(k) {
        assert(m.insert(k, v).dom() =~= m.dom());
    }
}

} // verus!
