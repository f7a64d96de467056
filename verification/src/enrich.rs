//! Enrichment: from the record of a peripheral to the device that is
//! published, with the vendor of its address and a description for each of
//! its services.

use vstd::prelude::*;
use crate::address::HardwareAddress;
use crate::device::{extend_unique, extend_with_new, lemma_extend_unique, text_of, Observation, ObservationView};
use crate::service::{description_of, short_form, short_service_id, ServiceDescriptorIndex};
use crate::vendor::VendorTable;

verus! {

/// A peripheral as it is published.
#[derive(Debug)]
pub struct Device {
    /// The hardware address.
    pub address: HardwareAddress,
    /// The name that the peripheral last advertised.
    pub display_name: Option<String>,
    /// The transmit power that it last advertised, in dBm.
    pub transmit_power: Option<i16>,
    /// The vendor that the address prefix stands for.
    pub vendor: Option<String>,
    /// The signal strength of the last observation, in dBm.
    pub signal_strength: Option<i16>,
    /// The services of the peripheral, each once, in the order first seen.
    pub service_ids: Vec<u128>,
    /// The description of each service, at the index of the service.
    pub service_descriptions: Vec<Option<String>>,
}

/// A device as a mathematical value.
pub ghost struct DeviceView {
    pub address: HardwareAddress,
    pub display_name: Option<Seq<char>>,
    pub transmit_power: Option<i16>,
    pub vendor: Option<Seq<char>>,
    pub signal_strength: Option<i16>,
    pub service_ids: Seq<u128>,
    pub service_descriptions: Seq<Option<Seq<char>>>,
}

/// The characters of each of some optional strings.
pub open spec fn texts_of(v: Seq<Option<String>>) -> Seq<Option<Seq<char>>> {
    Seq::new(v.len(), |i: int| text_of(v[i]))
}

impl View for Device {
    type V = DeviceView;

    open spec fn view(&self) -> DeviceView {
        DeviceView {
            address: self.address,
            display_name: text_of(self.display_name),
            transmit_power: self.transmit_power,
            vendor: text_of(self.vendor),
            signal_strength: self.signal_strength,
            service_ids: self.service_ids@,
            service_descriptions: texts_of(self.service_descriptions@),
        }
    }
}

/// The views of some devices.
pub open spec fn device_views(devices: Seq<Device>) -> Seq<DeviceView> {
    Seq::new(devices.len(), |i: int| devices[i]@)
}

impl DeviceView {
    /// No service is named twice, and each has its place among the
    /// descriptions.
    pub open spec fn wf(self) -> bool {
        &&& self.service_ids.no_duplicates()
        &&& self.service_ids.len() == self.service_descriptions.len()
    }
}

/// What the table says of a prefix.
pub open spec fn vendor_of(vendors: Map<int, Seq<char>>, prefix: int) -> Option<Seq<char>> {
    if vendors.contains_key(prefix) {
        Some(vendors[prefix])
    } else {
        None
    }
}

/// What the index says of each of some services, by their short forms.
pub open spec fn descriptions_of(files: Seq<Seq<Seq<char>>>, ids: Seq<u128>) -> Seq<
    Option<Seq<char>>,
> {
    Seq::new(ids.len(), |i: int| description_of(files, short_form(ids[i])))
}

/// The device that a record becomes: name, transmit power and signal
/// strength are the record's; the vendor is what the table says of the
/// address prefix; the services are the record's, each once; and each has
/// the description that the index gives for its short form, or none.
pub open spec fn enriched(
    raw: ObservationView,
    vendors: Map<int, Seq<char>>,
    files: Seq<Seq<Seq<char>>>,
) -> DeviceView {
    let ids = extend_unique(Seq::empty(), raw.service_ids);
    DeviceView {
        address: raw.address,
        display_name: raw.name,
        transmit_power: raw.tx_power,
        vendor: vendor_of(vendors, raw.address.prefix()),
        signal_strength: raw.signal_strength,
        service_ids: ids,
        service_descriptions: descriptions_of(files, ids),
    }
}

/// A record whose services are named once each keeps its list of services
/// when it is enriched.
pub proof fn law_enriched_keeps_services(
    raw: ObservationView,
    vendors: Map<int, Seq<char>>,
    files: Seq<Seq<Seq<char>>>,
)
    requires
        raw.service_ids.no_duplicates(),
    ensures
        enriched(raw, vendors, files).service_ids == raw.service_ids,
{
    lemma_unique_is_fixed(raw.service_ids);
}

/// A list without repetitions is what remains of it when repetitions are
/// left out.
pub proof fn lemma_unique_is_fixed(ids: Seq<u128>)
    requires
        ids.no_duplicates(),
    ensures
        extend_unique(Seq::empty(), ids) == ids,
    decreases ids.len(),
{
    if ids.len() > 0 {
        lemma_unique_is_fixed(ids.drop_last());
        let before = ids.drop_last();
        if before.contains(ids.last()) {
            let i = choose|i: int| 0 <= i < before.len() && before[i] == ids.last();
            assert(ids[i] == ids[ids.len() - 1]);
        }
        assert(before.push(ids.last()) =~= ids);
    } else {
        assert(ids =~= Seq::<u128>::empty());
    }
}

/// Every enriched device is well formed.
pub proof fn law_enriched_wf(
    raw: ObservationView,
    vendors: Map<int, Seq<char>>,
    files: Seq<Seq<Seq<char>>>,
)
    ensures
        enriched(raw, vendors, files).wf(),
{
    lemma_extend_unique(Seq::empty(), raw.service_ids);
}

/// Looks up the description of each service.
pub fn describe_services(index: &ServiceDescriptorIndex, ids: &Vec<u128>) -> (out: Vec<
    Option<String>,
>)
    ensures
        texts_of(out@) == descriptions_of(index@, ids@),
{
    let n: usize = ids.len();
    let mut out: Vec<Option<String>> = Vec::new();
    let mut i: usize = 0;
    while i < n
        invariant
            i <= n,
            n == ids@.len(),
            out@.len() == i,
            forall|k: int|
                0 <= k < i ==> text_of(#[trigger] out@[k]) == description_of(
                    index@,
                    short_form(ids@[k]),
                ),
        decreases n - i,
    {
        let short: String = short_service_id(ids[i]);
        let found: Option<String> = index.lookup(short.as_str());
        out.push(found);
        i = i + 1;
    }
    assert(texts_of(out@) =~= descriptions_of(index@, ids@));
    out
}

/// Enriches a record.
pub fn enrich(raw: Observation, vendors: &VendorTable, index: &ServiceDescriptorIndex) -> (d:
    Device)
    ensures
        d@ == enriched(raw@, vendors@, index@),
        d@.wf(),
{
    proof {
        law_enriched_wf(raw@, vendors@, index@);
    }
    let vendor: Option<String> = vendors.lookup(&raw.address);
    let mut service_ids: Vec<u128> = Vec::new();
    extend_with_new(&mut service_ids, &raw.service_ids);
    let service_descriptions: Vec<Option<String>> = describe_services(index, &service_ids);
    Device {
        address: raw.address,
        display_name: raw.name,
        transmit_power: raw.tx_power,
        vendor,
        signal_strength: raw.signal_strength,
        service_ids,
        service_descriptions,
    }
}

} // verus!
