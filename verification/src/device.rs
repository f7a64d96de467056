//! Observations of peripherals and the registry that keeps one record for
//! each hardware address seen in a scan cycle.

use vstd::prelude::*;
use crate::address::HardwareAddress;

verus! {

/// What one advertisement says of a peripheral. The registry keeps its
/// records in the same form: a record is what the observations of one
/// address add up to.
pub struct Observation {
    /// The hardware address, by which a peripheral is known.
    pub address: HardwareAddress,
    /// The advertised name.
    pub name: Option<String>,
    /// The advertised transmit power, in dBm.
    pub tx_power: Option<i16>,
    /// The signal strength at which the advertisement was received, in dBm.
    pub signal_strength: Option<i16>,
    /// The advertised service identifiers.
    pub service_ids: Vec<u128>,
}

/// An observation as a mathematical value.
pub ghost struct ObservationView {
    pub address: HardwareAddress,
    pub name: Option<Seq<char>>,
    pub tx_power: Option<i16>,
    pub signal_strength: Option<i16>,
    pub service_ids: Seq<u128>,
}

/// The characters of an optional string.
pub open spec fn text_of(s: Option<String>) -> Option<Seq<char>> {
    match s {
        Some(t) => Some(t@),
        None => None,
    }
}

impl View for Observation {
    type V = ObservationView;

    open spec fn view(&self) -> ObservationView {
        ObservationView {
            address: self.address,
            name: text_of(self.name),
            tx_power: self.tx_power,
            signal_strength: self.signal_strength,
            service_ids: self.service_ids@,
        }
    }
}

/// What a peripheral advertises of itself.
pub struct RawProperties {
    /// The advertised name.
    pub name: Option<String>,
    /// The advertised transmit power, in dBm.
    pub tx_power: Option<i16>,
    /// The signal strength at which the advertisement was received, in dBm.
    pub signal_strength: Option<i16>,
    /// The advertised service identifiers.
    pub service_ids: Vec<u128>,
}

/// The properties of a peripheral could not be read.
#[derive(Clone, Copy, PartialEq, Eq, Structural, Debug)]
pub struct PropertyError {}

/// The observation that a cycle takes from a peripheral: its properties
/// under its address. A peripheral whose properties could not be read, or
/// of which none are known, gives no observation and is left out of the
/// cycle.
pub fn observe(address: HardwareAddress, properties: Result<Option<RawProperties>, PropertyError>) -> (r:
    Option<Observation>)
    ensures
        r is Some <==> properties is Ok && properties->Ok_0 is Some,
        r is Some ==> r->0 == (Observation {
            address,
            name: properties->Ok_0->0.name,
            tx_power: properties->Ok_0->0.tx_power,
            signal_strength: properties->Ok_0->0.signal_strength,
            service_ids: properties->Ok_0->0.service_ids,
        }),
{
    match properties {
        Ok(Some(p)) => Some(
            Observation {
                address,
                name: p.name,
                tx_power: p.tx_power,
                signal_strength: p.signal_strength,
                service_ids: p.service_ids,
            },
        ),
        _ => None,
    }
}

/// `base` followed by those items of `extra` that stand neither in `base`
/// nor earlier in `extra`, in the order of `extra`.
pub open spec fn extend_unique(base: Seq<u128>, extra: Seq<u128>) -> Seq<u128>
    decreases extra.len(),
{
    if extra.len() == 0 {
        base
    } else {
        let before = extend_unique(base, extra.drop_last());
        if before.contains(extra.last()) {
            before
        } else {
            before.push(extra.last())
        }
    }
}

/// Extending a list without repetitions gives one without repetitions, which
/// starts with the list that was extended.
pub proof fn lemma_extend_unique(base: Seq<u128>, extra: Seq<u128>)
    requires
        base.no_duplicates(),
    ensures
        extend_unique(base, extra).no_duplicates(),
        base.len() <= extend_unique(base, extra).len(),
        extend_unique(base, extra).take(base.len() as int) == base,
        forall|x: u128| base.contains(x) ==> extend_unique(base, extra).contains(x),
    decreases extra.len(),
{
    if extra.len() > 0 {
        let before = extend_unique(base, extra.drop_last());
        lemma_extend_unique(base, extra.drop_last());
        let after = extend_unique(base, extra);
        assert(after.take(base.len() as int) =~= before.take(base.len() as int));
        assert forall|x: u128| base.contains(x) implies after.contains(x) by {
            let i = choose|i: int| 0 <= i < before.len() && before[i] == x;
            assert(after[i] == x);
        }
    } else {
        assert(base.take(base.len() as int) =~= base);
    }
}

/// The record with the given address and nothing else known.
pub open spec fn blank(address: HardwareAddress) -> ObservationView {
    ObservationView {
        address,
        name: None,
        tx_power: None,
        signal_strength: None,
        service_ids: Seq::empty(),
    }
}

/// The record that results when `seen` is observed of a peripheral with
/// record `known`: name, transmit power and signal strength are those of
/// `seen` where it has them and stay as they were where it has not; the
/// service identifiers grow by those that are new.
pub open spec fn merged(known: ObservationView, seen: ObservationView) -> ObservationView {
    ObservationView {
        address: known.address,
        name: if seen.name is Some {
            seen.name
        } else {
            known.name
        },
        tx_power: if seen.tx_power is Some {
            seen.tx_power
        } else {
            known.tx_power
        },
        signal_strength: if seen.signal_strength is Some {
            seen.signal_strength
        } else {
            known.signal_strength
        },
        service_ids: extend_unique(known.service_ids, seen.service_ids),
    }
}

/// The first index at or after `from` of a record with the given address,
/// or the number of records where there is none.
pub open spec fn position_from(
    records: Seq<ObservationView>,
    address: HardwareAddress,
    from: int,
) -> int
    decreases records.len() - from,
{
    if from < 0 || from >= records.len() {
        records.len() as int
    } else if records[from].address == address {
        from
    } else {
        position_from(records, address, from + 1)
    }
}

/// The index of the first record with the given address, or the number of
/// records.
pub open spec fn position(records: Seq<ObservationView>, address: HardwareAddress) -> int {
    position_from(records, address, 0)
}

/// A position lies between its start and the number of records, at a
/// record with the address, and no record between has the address.
pub proof fn lemma_position_from(
    records: Seq<ObservationView>,
    address: HardwareAddress,
    from: int,
)
    requires
        0 <= from <= records.len(),
    ensures
        from <= position_from(records, address, from) <= records.len(),
        position_from(records, address, from) < records.len() ==> records[position_from(
            records,
            address,
            from,
        )].address == address,
        forall|i: int|
            from <= i < position_from(records, address, from) ==> (#[trigger] records[i]).address
                != address,
    decreases records.len() - from,
{
    if from < records.len() && records[from].address != address {
        lemma_position_from(records, address, from + 1);
    }
}

/// The records after one more observation: the record of its address is
/// merged with it where there is one, and a new record is added at the end
/// where there is none.
pub open spec fn upserted(records: Seq<ObservationView>, seen: ObservationView) -> Seq<
    ObservationView,
> {
    let at = position(records, seen.address);
    if 0 <= at < records.len() {
        records.update(at, merged(records[at], seen))
    } else {
        records.push(merged(blank(seen.address), seen))
    }
}

/// The records after a run of observations, taken in order.
pub open spec fn upserted_all(records: Seq<ObservationView>, seen: Seq<ObservationView>) -> Seq<
    ObservationView,
>
    decreases seen.len(),
{
    if seen.len() == 0 {
        records
    } else {
        upserted(upserted_all(records, seen.drop_last()), seen.last())
    }
}

/// No two records have the same address, and no record names a service
/// twice.
pub open spec fn records_valid(records: Seq<ObservationView>) -> bool {
    &&& forall|i: int, j: int|
        0 <= i < j < records.len() ==> (#[trigger] records[i]).address != (
        #[trigger] records[j]).address
    &&& forall|i: int| 0 <= i < records.len() ==> (#[trigger] records[i]).service_ids.no_duplicates()
}

/// One more observation keeps the records valid, adds at most one record,
/// and leaves a record for its address.
pub proof fn lemma_upserted(records: Seq<ObservationView>, seen: ObservationView)
    requires
        records_valid(records),
    ensures
        records_valid(upserted(records, seen)),
        records.len() <= upserted(records, seen).len() <= records.len() + 1,
        position(upserted(records, seen), seen.address) < upserted(records, seen).len(),
        forall|i: int|
            0 <= i < records.len() ==> (#[trigger] upserted(records, seen)[i]).address
                == records[i].address,
{
    let at = position(records, seen.address);
    let after = upserted(records, seen);
    lemma_position_from(records, seen.address, 0);
    if at < records.len() {
        lemma_extend_unique(records[at].service_ids, seen.service_ids);
        assert(after[at].address == seen.address);
    } else {
        lemma_extend_unique(Seq::empty(), seen.service_ids);
        assert(after[records.len() as int].address == seen.address);
    }
    lemma_position_from(after, seen.address, 0);
    assert forall|i: int, j: int| 0 <= i < j < after.len() implies (#[trigger] after[i]).address
        != (#[trigger] after[j]).address by {
        if j < records.len() {
            assert(records[i].address != records[j].address);
        } else {
            assert(records[i].address != seen.address);
        }
    }
}

/// However often one address is observed in a cycle, the registry ends with
/// exactly one record for it: after any run of one or more observations of
/// the address, the records are valid, one of them has the address, and no
/// other has.
pub proof fn law_one_record_per_address(
    records: Seq<ObservationView>,
    seen: Seq<ObservationView>,
    address: HardwareAddress,
)
    requires
        records_valid(records),
        seen.len() > 0,
        forall|k: int| 0 <= k < seen.len() ==> (#[trigger] seen[k]).address == address,
    ensures
        records_valid(upserted_all(records, seen)),
        0 <= position(upserted_all(records, seen), address) < upserted_all(records, seen).len(),
        forall|i: int|
            0 <= i < upserted_all(records, seen).len() && (#[trigger] upserted_all(
                records,
                seen,
            )[i]).address == address ==> i == position(upserted_all(records, seen), address),
        upserted_all(records, seen).len() <= records.len() + 1,
    decreases seen.len(),
{
    let earlier = upserted_all(records, seen.drop_last());
    let after = upserted_all(records, seen);
    lemma_upserted_all_valid(records, seen.drop_last());
    lemma_upserted(earlier, seen.last());
    lemma_position_from(after, address, 0);
    if seen.len() > 1 {
        law_one_record_per_address(records, seen.drop_last(), address);
        lemma_position_from(earlier, address, 0);
    }
}

/// A run of observations keeps the records valid.
pub proof fn lemma_upserted_all_valid(records: Seq<ObservationView>, seen: Seq<ObservationView>)
    requires
        records_valid(records),
    ensures
        records_valid(upserted_all(records, seen)),
        records.len() <= upserted_all(records, seen).len() <= records.len() + seen.len(),
    decreases seen.len(),
{
    if seen.len() > 0 {
        lemma_upserted_all_valid(records, seen.drop_last());
        lemma_upserted(upserted_all(records, seen.drop_last()), seen.last());
    }
}

/// The views of some records.
pub open spec fn views_of(records: Seq<Observation>) -> Seq<ObservationView> {
    Seq::new(records.len(), |i: int| records[i]@)
}

/// Tells whether `x` stands in `v`.
pub fn holds(v: &Vec<u128>, x: u128) -> (b: bool)
    ensures
        b == v@.contains(x),
{
    let n: usize = v.len();
    let mut i: usize = 0;
    while i < n
        invariant
            i <= n,
            n == v@.len(),
            forall|k: int| 0 <= k < i ==> v@[k] != x,
        decreases n - i,
    {
        if v[i] == x {
            return true;
        }
        i = i + 1;
    }
    false
}

/// Appends to `base` the items of `extra` that it does not hold yet.
pub fn extend_with_new(base: &mut Vec<u128>, extra: &Vec<u128>)
    ensures
        final(base)@ == extend_unique(old(base)@, extra@),
{
    let n: usize = extra.len();
    let mut i: usize = 0;
    assert(extra@.take(0) =~= Seq::<u128>::empty());
    while i < n
        invariant
            i <= n,
            n == extra@.len(),
            base@ == extend_unique(old(base)@, extra@.take(i as int)),
        decreases n - i,
    {
        assert(extra@.take(i + 1).drop_last() =~= extra@.take(i as int));
        let x: u128 = extra[i];
        if !holds(base, x) {
            base.push(x);
        }
        i = i + 1;
    }
    assert(extra@.take(n as int) =~= extra@);
}

/// Merges an observation into the record of its peripheral.
pub fn merge(known: Observation, seen: Observation) -> (r: Observation)
    ensures
        r@ == merged(known@, seen@),
{
    let mut service_ids: Vec<u128> = known.service_ids;
    extend_with_new(&mut service_ids, &seen.service_ids);
    Observation {
        address: known.address,
        name: match seen.name {
            Some(n) => Some(n),
            None => known.name,
        },
        tx_power: match seen.tx_power {
            Some(t) => Some(t),
            None => known.tx_power,
        },
        signal_strength: match seen.signal_strength {
            Some(s) => Some(s),
            None => known.signal_strength,
        },
        service_ids,
    }
}

/// The registry of a scan cycle: one record for each address observed.
pub struct DeviceRegistry {
    records: Vec<Observation>,
}

impl View for DeviceRegistry {
    type V = Seq<ObservationView>;

    /// The records, in the order in which their addresses were first seen.
    closed spec fn view(&self) -> Seq<ObservationView> {
        views_of(self.records@)
    }
}

impl DeviceRegistry {
    /// Whether the registry is in order: see `records_valid`.
    pub open spec fn wf(&self) -> bool {
        records_valid(self@)
    }

    /// The registry without records.
    pub fn new() -> (r: DeviceRegistry)
        ensures
            r@ == Seq::<ObservationView>::empty(),
            r.wf(),
    {
        let r = DeviceRegistry { records: Vec::new() };
        assert(r@ =~= Seq::<ObservationView>::empty());
        r
    }

    /// The number of records.
    pub fn len(&self) -> (n: usize)
        ensures
            n == self@.len(),
    {
        self.records.len()
    }

    /// The index of the record with the given address, or the number of
    /// records where there is none.
    pub fn find(&self, address: &HardwareAddress) -> (at: usize)
        ensures
            at == position(self@, *address),
            at <= self@.len(),
    {
        let n: usize = self.records.len();
        let mut i: usize = 0;
        proof {
            lemma_position_from(self@, *address, 0);
        }
        while i < n
            invariant
                i <= n,
                n == self@.len(),
                n == self.records@.len(),
                position(self@, *address) == position_from(self@, *address, i as int),
            decreases n - i,
        {
            assert(self@[i as int] == self.records@[i as int]@);
            if self.records[i].address.same(address) {
                return i;
            }
            i = i + 1;
        }
        n
    }

    /// Takes in an observation: the record of its address is merged with
    /// it, or a record is made for it where the address is new.
    pub fn upsert(&mut self, seen: Observation)
        requires
            old(self).wf(),
        ensures
            final(self).wf(),
            final(self)@ == upserted(old(self)@, seen@),
            old(self)@.len() <= final(self)@.len() <= old(self)@.len() + 1,
    {
        proof {
            lemma_upserted(self@, seen@);
        }
        let ghost before = self@;
        let at: usize = self.find(&seen.address);
        if at < self.records.len() {
            let known: Observation = self.records.remove(at);
            assert(known@ == before[at as int]);
            let record: Observation = merge(known, seen);
            self.records.insert(at, record);
            assert(self@ =~= upserted(before, seen@));
        } else {
            let fresh = Observation {
                address: seen.address,
                name: None,
                tx_power: None,
                signal_strength: None,
                service_ids: Vec::new(),
            };
            assert(fresh@ == blank(seen@.address));
            let record: Observation = merge(fresh, seen);
            self.records.push(record);
            assert(self@ =~= upserted(before, seen@));
        }
    }

    /// Ends the cycle: hands out the records, in the order in which their
    /// addresses were first seen. The registry is used up.
    pub fn finalize(self) -> (records: Vec<Observation>)
        ensures
            views_of(records@) == self@,
    {
        self.records
    }
}

} // verus!
