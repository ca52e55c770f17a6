//! Liveness table of the peer devices that have been heard from.

use vstd::prelude::*;

verus! {

/// One known device.
#[derive(Debug, Clone, Copy, PartialEq, Eq, Structural)]
pub struct Device {
    /// Address of the device.
    pub addr: u32,
    /// Time of the last frame from it, on the caller's monotonic clock.
    pub last_seen: u64,
}

/// A record last refreshed at `last_seen` has been silent, at `now`, for
/// longer than `ttl`.
pub open spec fn expired(last_seen: u64, now: u64, ttl: u64) -> bool {
    now - last_seen > ttl
}

/// The records of `table` that a sweep at `now` with window `ttl` leaves.
pub open spec fn swept(table: Map<u32, u64>, now: u64, ttl: u64) -> Map<u32, u64> {
    Map::new(
        |addr: u32| table.contains_key(addr) && !expired(table[addr], now, ttl),
        |addr: u32| table[addr],
    )
}

/// The addresses of `table` that a sweep at `now` with window `ttl` evicts.
pub open spec fn expired_addrs(table: Map<u32, u64>, now: u64, ttl: u64) -> Set<u32> {
    Set::new(|addr: u32| table.contains_key(addr) && expired(table[addr], now, ttl))
}

/// A sweep parts the table: each record either stays, untouched, or is
/// among the evicted, never both; and it is evicted exactly when it has been
/// silent for longer than the window.
pub proof fn lemma_sweep_parts(table: Map<u32, u64>, now: u64, ttl: u64, addr: u32)
    requires
        table.contains_key(addr),
    ensures
        swept(table, now, ttl).contains_key(addr) != expired_addrs(table, now, ttl).contains(addr),
        expired_addrs(table, now, ttl).contains(addr) <==> now - table[addr] > ttl,
        swept(table, now, ttl).contains_key(addr) ==> swept(table, now, ttl)[addr] == table[addr],
{
}

/// A sweep evicts nothing that is not in the table and adds nothing to it.
pub proof fn lemma_sweep_shrinks(table: Map<u32, u64>, now: u64, ttl: u64)
    ensures
        swept(table, now, ttl).dom().subset_of(table.dom()),
        expired_addrs(table, now, ttl).subset_of(table.dom()),
{
}

/// A second sweep at the same time finds nothing left to evict.
pub proof fn lemma_sweep_idempotent(table: Map<u32, u64>, now: u64, ttl: u64)
    ensures
        swept(swept(table, now, ttl), now, ttl) == swept(table, now, ttl),
        expired_addrs(swept(table, now, ttl), now, ttl) == Set::<u32>::empty(),
{
    assert(swept(swept(table, now, ttl), now, ttl) =~= swept(table, now, ttl));
    assert(expired_addrs(swept(table, now, ttl), now, ttl) =~= Set::<u32>::empty());
}

/// A device heard from at `seen` outlives every sweep up to `seen + ttl`
/// and no later one.
pub proof fn lemma_touched_survives(
    table: Map<u32, u64>,
    addr: u32,
    seen: u64,
    now: u64,
    ttl: u64,
)
    ensures
        swept(table.insert(addr, seen), now, ttl).contains_key(addr) <==> now <= seen + ttl,
{
}

/// No address stands twice in `devices`.
spec fn distinct(devices: Seq<Device>) -> bool {
    forall|i: int, j: int|
        0 <= i < j < devices.len() ==> (#[trigger] devices[i]).addr != (#[trigger] devices[j]).addr
}

/// `devices` has a record for `addr` at index `i`.
spec fn recorded_at(devices: Seq<Device>, addr: u32, i: int) -> bool {
    0 <= i < devices.len() && devices[i].addr == addr
}

/// The table that a list of records stands for.
spec fn table_of(devices: Seq<Device>) -> Map<u32, u64> {
    Map::new(
        |addr: u32| exists|i: int| recorded_at(devices, addr, i),
        |addr: u32| devices[choose|i: int| recorded_at(devices, addr, i)].last_seen,
    )
}

/// Each record of a list without repeated addresses is an entry of its
/// table.
proof fn lemma_entry(devices: Seq<Device>, i: int)
    requires
        distinct(devices),
        0 <= i < devices.len(),
    ensures
        table_of(devices).contains_key(devices[i].addr),
        table_of(devices)[devices[i].addr] == devices[i].last_seen,
{
    let addr = devices[i].addr;
    assert(recorded_at(devices, addr, i));
    let chosen = choose|k: int| recorded_at(devices, addr, k);
    assert(recorded_at(devices, addr, chosen));
    if chosen < i {
        assert(devices[chosen].addr != devices[i].addr);
    } else if i < chosen {
        assert(devices[i].addr != devices[chosen].addr);
    }
}

/// The liveness table: for each known address the time it was last heard
/// from. Its model is the map from address to that time.
pub struct DeviceRegistry {
    devices: Vec<Device>,
}

impl View for DeviceRegistry {
    type V = Map<u32, u64>;

    closed spec fn view(&self) -> Map<u32, u64> {
        table_of(self.devices@)
    }
}

impl DeviceRegistry {
    #[verifier::type_invariant]
    spec fn well_formed(&self) -> bool {
        distinct(self.devices@)
    }

    /// A table without records.
    pub fn new() -> (registry: Self)
        ensures
            registry@ == Map::<u32, u64>::empty(),
    {
        let registry = DeviceRegistry { devices: Vec::new() };
        assert(registry@ =~= Map::<u32, u64>::empty());
        registry
    }

    /// Records that `addr` was heard from at `now`: a new record for an
    /// address not known yet, a refreshed time for a known one.
    pub fn touch(&mut self, addr: u32, now: u64)
        ensures
            final(self)@ == old(self)@.insert(addr, now),
    {
        proof {
            use_type_invariant(&*self);
        }
        let mut devices: Vec<Device> = Vec::new();
        std::mem::swap(&mut self.devices, &mut devices);
        refresh(&mut devices, Device { addr, last_seen: now });
        std::mem::swap(&mut self.devices, &mut devices);
    }

    /// Removes every record that has been silent for longer than `ttl` at
    /// `now`, and returns the addresses removed. The other records stay as
    /// they are.
    pub fn sweep(&mut self, now: u64, ttl: u64) -> (evicted: Vec<u32>)
        ensures
            final(self)@ == swept(old(self)@, now, ttl),
            evicted@.to_set() == expired_addrs(old(self)@, now, ttl),
            evicted@.no_duplicates(),
    {
        proof {
            use_type_invariant(&*self);
        }
        let mut devices: Vec<Device> = Vec::new();
        std::mem::swap(&mut self.devices, &mut devices);
        let (mut kept, evicted) = partition(&devices, now, ttl);
        std::mem::swap(&mut self.devices, &mut kept);
        evicted
    }

    /// The time `addr` was last heard from, if it is known.
    pub fn last_seen(&self, addr: u32) -> (time: Option<u64>)
        ensures
            time == (if self@.contains_key(addr) {
                Some(self@[addr])
            } else {
                None
            }),
    {
        proof {
            use_type_invariant(self);
        }
        match position(&self.devices, addr) {
            Some(i) => {
                proof {
                    lemma_entry(self.devices@, i as int);
                }
                Some(self.devices[i].last_seen)
            },
            None => None,
        }
    }

    /// The number of records.
    pub fn len(&self) -> (count: usize)
        ensures
            self@.dom().finite(),
            count == self@.dom().len(),
    {
        proof {
            use_type_invariant(self);
            lemma_table_size(self.devices@);
        }
        self.devices.len()
    }

    /// Whether the table has no record.
    pub fn is_empty(&self) -> (empty: bool)
        ensures
            empty <==> self@ == Map::<u32, u64>::empty(),
            empty <==> self@.dom() == Set::<u32>::empty(),
    {
        proof {
            use_type_invariant(self);
            if self.devices@.len() > 0 {
                lemma_entry(self.devices@, 0);
                assert(self@.dom().contains(self.devices@[0].addr));
            } else {
                assert(self@ =~= Map::<u32, u64>::empty());
            }
        }
        self.devices.len() == 0
    }
}

/// The index of the record for `addr`.
fn position(devices: &Vec<Device>, addr: u32) -> (found: Option<usize>)
    ensures
        found matches Some(i) ==> recorded_at(devices@, addr, i as int),
        found is None ==> forall|i: int| !recorded_at(devices@, addr, i),
{
    let mut i: usize = 0;
    while i < devices.len()
        invariant
            i <= devices@.len(),
            forall|k: int| 0 <= k < i ==> !recorded_at(devices@, addr, k),
        decreases devices@.len() - i,
    {
        if devices[i].addr == addr {
            return Some(i);
        }
        i += 1;
    }
    None
}

/// Puts `device` in the place of the record for its address, or behind the
/// last record where there is none.
fn refresh(devices: &mut Vec<Device>, device: Device)
    requires
        distinct(old(devices)@),
    ensures
        distinct(final(devices)@),
        table_of(final(devices)@) == table_of(old(devices)@).insert(device.addr, device.last_seen),
{
    let ghost before = devices@;
    match position(devices, device.addr) {
        Some(i) => {
            devices[i] = device;
            proof {
                let after = devices@;
                assert forall|a: int, b: int| 0 <= a < b < after.len() implies (
                #[trigger] after[a]).addr != (#[trigger] after[b]).addr by {
                    assert(after[a].addr == before[a].addr);
                    assert(after[b].addr == before[b].addr);
                }
                lemma_table_after_refresh(before, after, i as int, device);
            }
        },
        None => {
            devices.push(device);
            proof {
                let after = devices@;
                assert forall|a: int, b: int| 0 <= a < b < after.len() implies (
                #[trigger] after[a]).addr != (#[trigger] after[b]).addr by {
                    if b == before.len() {
                        assert(!recorded_at(before, device.addr, a));
                    } else {
                        assert(after[a] == before[a]);
                        assert(after[b] == before[b]);
                    }
                }
                lemma_table_after_append(before, after, device);
            }
        },
    }
}

/// Whether a record last refreshed at `last_seen` has expired.
fn is_expired(last_seen: u64, now: u64, ttl: u64) -> (gone: bool)
    ensures
        gone == expired(last_seen, now, ttl),
{
    now > last_seen && now - last_seen > ttl
}

/// Parts the records into those that stay and the addresses of those that
/// have expired.
fn partition(devices: &Vec<Device>, now: u64, ttl: u64) -> (parts: (Vec<Device>, Vec<u32>))
    requires
        distinct(devices@),
    ensures
        distinct(parts.0@),
        table_of(parts.0@) == swept(table_of(devices@), now, ttl),
        parts.1@.to_set() == expired_addrs(table_of(devices@), now, ttl),
        parts.1@.no_duplicates(),
{
    let mut kept: Vec<Device> = Vec::new();
    let mut evicted: Vec<u32> = Vec::new();
    let ghost mut kept_from: Seq<int> = Seq::empty();
    let ghost mut evicted_from: Seq<int> = Seq::empty();
    let mut i: usize = 0;
    while i < devices.len()
        invariant
            i <= devices@.len(),
            distinct(devices@),
            kept_from.len() == kept@.len(),
            evicted_from.len() == evicted@.len(),
            forall|k: int|
                0 <= k < kept@.len() ==> 0 <= #[trigger] kept_from[k] < i && kept@[k]
                    == devices@[kept_from[k]] && !expired(kept@[k].last_seen, now, ttl),
            forall|k: int|
                0 <= k < evicted@.len() ==> 0 <= #[trigger] evicted_from[k] < i && evicted@[k]
                    == devices@[evicted_from[k]].addr && expired(
                    devices@[evicted_from[k]].last_seen,
                    now,
                    ttl,
                ),
            forall|k: int, l: int|
                0 <= k < l < kept_from.len() ==> #[trigger] kept_from[k] < #[trigger] kept_from[l],
            forall|k: int, l: int|
                0 <= k < l < evicted_from.len() ==> #[trigger] evicted_from[k]
                    < #[trigger] evicted_from[l],
            forall|j: int|
                0 <= j < i ==> if expired((#[trigger] devices@[j]).last_seen, now, ttl) {
                    exists|k: int| 0 <= k < evicted_from.len() && evicted_from[k] == j
                } else {
                    exists|k: int| 0 <= k < kept_from.len() && kept_from[k] == j
                },
        decreases devices@.len() - i,
    {
        let device = devices[i];
        let ghost kept_before = kept_from;
        let ghost evicted_before = evicted_from;
        if is_expired(device.last_seen, now, ttl) {
            evicted.push(device.addr);
            proof {
                evicted_from = evicted_from.push(i as int);
            }
        } else {
            kept.push(device);
            proof {
                kept_from = kept_from.push(i as int);
            }
        }
        proof {
            assert forall|j: int| 0 <= j < i + 1 implies if expired(
                (#[trigger] devices@[j]).last_seen,
                now,
                ttl,
            ) {
                exists|k: int| 0 <= k < evicted_from.len() && evicted_from[k] == j
            } else {
                exists|k: int| 0 <= k < kept_from.len() && kept_from[k] == j
            } by {
                if expired(devices@[j].last_seen, now, ttl) {
                    let k = if j < i {
                        choose|k: int| 0 <= k < evicted_before.len() && evicted_before[k] == j
                    } else {
                        evicted_before.len() as int
                    };
                    assert(0 <= k < evicted_from.len() && evicted_from[k] == j);
                } else {
                    let k = if j < i {
                        choose|k: int| 0 <= k < kept_before.len() && kept_before[k] == j
                    } else {
                        kept_before.len() as int
                    };
                    assert(0 <= k < kept_from.len() && kept_from[k] == j);
                }
            }
        }
        i += 1;
    }
    proof {
        lemma_partition(devices@, kept@, evicted@, kept_from, evicted_from, now, ttl);
    }
    (kept, evicted)
}

/// What the parts of a list of records stand for, where `kept` holds the
/// records that have not expired and `evicted` the addresses of the others,
/// each in the order of the list.
proof fn lemma_partition(
    devices: Seq<Device>,
    kept: Seq<Device>,
    evicted: Seq<u32>,
    kept_from: Seq<int>,
    evicted_from: Seq<int>,
    now: u64,
    ttl: u64,
)
    requires
        distinct(devices),
        kept_from.len() == kept.len(),
        evicted_from.len() == evicted.len(),
        forall|k: int|
            0 <= k < kept.len() ==> 0 <= #[trigger] kept_from[k] < devices.len() && kept[k]
                == devices[kept_from[k]] && !expired(kept[k].last_seen, now, ttl),
        forall|k: int|
            0 <= k < evicted.len() ==> 0 <= #[trigger] evicted_from[k] < devices.len()
                && evicted[k] == devices[evicted_from[k]].addr && expired(
                devices[evicted_from[k]].last_seen,
                now,
                ttl,
            ),
        forall|k: int, l: int|
            0 <= k < l < kept_from.len() ==> #[trigger] kept_from[k] < #[trigger] kept_from[l],
        forall|k: int, l: int|
            0 <= k < l < evicted_from.len() ==> #[trigger] evicted_from[k]
                < #[trigger] evicted_from[l],
        forall|j: int|
            0 <= j < devices.len() ==> if expired((#[trigger] devices[j]).last_seen, now, ttl) {
                exists|k: int| 0 <= k < evicted_from.len() && evicted_from[k] == j
            } else {
                exists|k: int| 0 <= k < kept_from.len() && kept_from[k] == j
            },
    ensures
        distinct(kept),
        table_of(kept) == swept(table_of(devices), now, ttl),
        evicted.to_set() == expired_addrs(table_of(devices), now, ttl),
        evicted.no_duplicates(),
{
    assert forall|a: int, b: int| 0 <= a < b < kept.len() implies (#[trigger] kept[a]).addr != (
    #[trigger] kept[b]).addr by {
        assert(kept_from[a] < kept_from[b]);
        assert(devices[kept_from[a]].addr != devices[kept_from[b]].addr);
    }
    assert forall|a: int, b: int| 0 <= a < evicted.len() && 0 <= b < evicted.len() && a
        != b implies evicted[a] != evicted[b] by {
        if a < b {
            assert(evicted_from[a] < evicted_from[b]);
            assert(devices[evicted_from[a]].addr != devices[evicted_from[b]].addr);
        } else {
            assert(evicted_from[b] < evicted_from[a]);
            assert(devices[evicted_from[b]].addr != devices[evicted_from[a]].addr);
        }
    }
    let table = table_of(devices);
    let goal = swept(table, now, ttl);
    assert forall|addr: u32| table_of(kept).contains_key(addr) <==> goal.contains_key(addr) by {
        if table_of(kept).contains_key(addr) {
            let k = choose|k: int| recorded_at(kept, addr, k);
            lemma_entry(devices, kept_from[k]);
        }
        if goal.contains_key(addr) {
            let j = choose|j: int| recorded_at(devices, addr, j);
            lemma_entry(devices, j);
            assert(!expired(devices[j].last_seen, now, ttl));
            let k = choose|k: int| 0 <= k < kept_from.len() && kept_from[k] == j;
            assert(recorded_at(kept, addr, k));
        }
    }
    assert forall|addr: u32| table_of(kept).contains_key(addr) implies table_of(kept)[addr]
        == goal[addr] by {
        let k = choose|k: int| recorded_at(kept, addr, k);
        lemma_entry(kept, k);
        lemma_entry(devices, kept_from[k]);
    }
    assert(table_of(kept) =~= goal);
    let gone = expired_addrs(table, now, ttl);
    assert forall|addr: u32| evicted.to_set().contains(addr) <==> gone.contains(addr) by {
        if evicted.to_set().contains(addr) {
            let k = choose|k: int| 0 <= k < evicted.len() && evicted[k] == addr;
            lemma_entry(devices, evicted_from[k]);
        }
        if gone.contains(addr) {
            let j = choose|j: int| recorded_at(devices, addr, j);
            lemma_entry(devices, j);
            assert(expired(devices[j].last_seen, now, ttl));
            let k = choose|k: int| 0 <= k < evicted_from.len() && evicted_from[k] == j;
            assert(evicted[k] == addr);
            assert(evicted.contains(addr));
        }
    }
    assert(evicted.to_set() =~= gone);
}

/// A list without repeated addresses has as many records as its table has
/// entries.
proof fn lemma_table_size(devices: Seq<Device>)
    requires
        distinct(devices),
    ensures
        table_of(devices).dom().finite(),
        table_of(devices).dom().len() == devices.len(),
    decreases devices.len(),
{
    if devices.len() == 0 {
        assert(table_of(devices).dom() =~= Set::<u32>::empty());
    } else {
        let front = devices.drop_last();
        let device = devices.last();
        assert(distinct(front)) by {
            assert forall|a: int, b: int| 0 <= a < b < front.len() implies (
            #[trigger] front[a]).addr != (#[trigger] front[b]).addr by {
                assert(front[a] == devices[a]);
                assert(front[b] == devices[b]);
            }
        }
        lemma_table_size(front);
        assert(devices =~= front.push(device));
        lemma_table_after_append(front, devices, device);
        assert(!table_of(front).contains_key(device.addr)) by {
            if table_of(front).contains_key(device.addr) {
                let k = choose|k: int| recorded_at(front, device.addr, k);
                assert(devices[k].addr != devices[devices.len() - 1].addr);
            }
        }
        assert(table_of(devices).dom() =~= table_of(front).dom().insert(device.addr));
    }
}

/// The table after the record at index `i` got a new time.
proof fn lemma_table_after_refresh(before: Seq<Device>, after: Seq<Device>, i: int, device: Device)
    requires
        distinct(before),
        distinct(after),
        0 <= i < before.len(),
        before[i].addr == device.addr,
        after == before.update(i, device),
    ensures
        table_of(after) == table_of(before).insert(device.addr, device.last_seen),
{
    let goal = table_of(before).insert(device.addr, device.last_seen);
    assert forall|addr: u32| table_of(after).contains_key(addr) <==> goal.contains_key(addr) by {
        if table_of(after).contains_key(addr) {
            let k = choose|k: int| recorded_at(after, addr, k);
            assert(recorded_at(before, before[k].addr, k));
        }
        if table_of(before).contains_key(addr) {
            let k = choose|k: int| recorded_at(before, addr, k);
            assert(recorded_at(after, after[k].addr, k));
        }
        if addr == device.addr {
            assert(recorded_at(after, addr, i));
        }
    }
    assert forall|addr: u32| table_of(after).contains_key(addr) implies table_of(after)[addr]
        == goal[addr] by {
        let k = choose|k: int| recorded_at(after, addr, k);
        lemma_entry(after, k);
        if k != i {
            assert(before[k].addr != before[i].addr);
            lemma_entry(before, k);
        }
    }
    assert(table_of(after) =~= goal);
}

/// The table after a record for a new address was appended.
proof fn lemma_table_after_append(before: Seq<Device>, after: Seq<Device>, device: Device)
    requires
        distinct(before),
        distinct(after),
        after == before.push(device),
    ensures
        table_of(after) == table_of(before).insert(device.addr, device.last_seen),
{
    let goal = table_of(before).insert(device.addr, device.last_seen);
    let last = before.len() as int;
    assert forall|addr: u32| table_of(after).contains_key(addr) <==> goal.contains_key(addr) by {
        if table_of(after).contains_key(addr) {
            let k = choose|k: int| recorded_at(after, addr, k);
            if k < last {
                assert(recorded_at(before, addr, k));
            }
        }
        if table_of(before).contains_key(addr) {
            let k = choose|k: int| recorded_at(before, addr, k);
            assert(recorded_at(after, addr, k));
        }
        if addr == device.addr {
            assert(recorded_at(after, addr, last));
        }
    }
    assert forall|addr: u32| table_of(after).contains_key(addr) implies table_of(after)[addr]
        == goal[addr] by {
        let k = choose|k: int| recorded_at(after, addr, k);
        lemma_entry(after, k);
        if k < last {
            assert(after[k].addr != after[last].addr);
            lemma_entry(before, k);
        }
    }
    assert(table_of(after) =~= goal);
}

} // verus!
