//! The capture store: packets, transactions, transfers, endpoints, devices
//! and endpoint-state snapshots, with the navigation and summary queries the
//! row model asks.

use vstd::prelude::*;
use vstd::string::*;

use crate::CaptureError;
use crate::file_vec::FileVec;
use crate::hybrid_index::HybridIndex;
use crate::text::{dec_digits, grouped_decimal, human_size, fmt_count, fmt_size, push_dec};
use crate::usb::{PID, PacketFields, Direction, DeviceDescriptor, Configuration, SetupFields,
    ControlTransfer, spec_packet_pid, spec_setup_fields};

verus! {

broadcast use crate::file_vec::lemma_file_vec_len_bound;

/// 2 to the 52nd: the span of the low id field of a packed record.
pub const LOW_52_SPAN: u64 = 0x10000000000000;

/// 2 to the 59th: where an endpoint record's number field starts.
pub const ENDPOINT_NUMBER_SPAN: u64 = 0x800000000000000;

/// 2 to the 63rd: the top bit of a packed record.
pub const TOP_BIT: u64 = 0x8000000000000000;

/// The packed word of an endpoint record.
pub open spec fn spec_endpoint(device_id: u64, device_address: u8, number: u8) -> Endpoint {
    Endpoint {
        word: (device_id + device_address * LOW_52_SPAN
            + number * ENDPOINT_NUMBER_SPAN) as u64,
    }
}

/// The packed word of a transfer index entry.
pub open spec fn spec_entry(transfer_id: u64, endpoint_id: u16, is_start: bool)
    -> TransferIndexEntry {
    TransferIndexEntry {
        word: (transfer_id + endpoint_id * LOW_52_SPAN + if is_start {
            TOP_BIT as int
        } else {
            0
        }) as u64,
    }
}

/// A node of the capture tree: a top-level transfer row, a transaction
/// under it, or a packet under that. Each variant carries the ids on the
/// path from the root.
#[derive(Copy, Clone, PartialEq, Eq, Structural, Debug)]
pub enum Item {
    Transfer(u64),
    Transaction(u64, u64),
    Packet(u64, u64, u64),
}

/// A node of the device tree: a device, its descriptor and configurations,
/// down to single descriptor fields.
#[derive(Copy, Clone, PartialEq, Eq, Structural, Debug)]
pub enum DeviceItem {
    Device(u64),
    DeviceDescriptor(u64),
    DeviceDescriptorField(u64, u8),
    Configuration(u64, u8),
    ConfigurationDescriptor(u64, u8),
    ConfigurationDescriptorField(u64, u8, u8),
    Interface(u64, u8, u8),
    InterfaceDescriptor(u64, u8, u8),
    InterfaceDescriptorField(u64, u8, u8, u8),
    EndpointDescriptor(u64, u8, u8, u8),
    EndpointDescriptorField(u64, u8, u8, u8, u8),
}

/// A device on the bus, by its current address.
#[derive(Copy, Clone, PartialEq, Eq, Structural, Debug)]
pub struct Device {
    pub address: u8,
}

/// An endpoint record: device id in bits 0 to 51, device address in bits
/// 52 to 58, endpoint number in bits 59 to 63.
#[derive(Copy, Clone, PartialEq, Eq, Structural, Debug)]
pub struct Endpoint {
    pub word: u64,
}

impl Endpoint {
    pub open spec fn spec_device_id(self) -> u64 {
        self.word % LOW_52_SPAN
    }

    pub open spec fn spec_device_address(self) -> u8 {
        ((self.word / LOW_52_SPAN) % 128) as u8
    }

    pub open spec fn spec_number(self) -> u8 {
        (self.word / ENDPOINT_NUMBER_SPAN) as u8
    }

    /// Packs the three fields; each getter returns its argument back.
    pub fn new(device_id: u64, device_address: u8, number: u8) -> (r: Endpoint)
        requires
            device_id < LOW_52_SPAN,
            device_address < 128,
            number < 32,
        ensures
            r == spec_endpoint(device_id, device_address, number),
            r.spec_device_id() == device_id,
            r.spec_device_address() == device_address,
            r.spec_number() == number,
    {
        let word = device_id
            + (device_address as u64) * LOW_52_SPAN
            + (number as u64) * ENDPOINT_NUMBER_SPAN;
        let r = Endpoint { word };
        proof {
            let d = device_id;
            let a = device_address as u64;
            let n = number as u64;
            assert(word % 0x10000000000000u64 == d
                && (word / 0x10000000000000u64) % 128 == a
                && word / 0x800000000000000u64 == n) by (bit_vector)
                requires
                    word == d + a * 0x10000000000000u64 + n * 0x800000000000000u64,
                    d < 0x10000000000000u64,
                    a < 128u64,
                    n < 32u64,
            ;
        }
        r
    }

    pub fn device_id(&self) -> (r: u64)
        ensures
            r == self.spec_device_id(),
    {
        self.word % LOW_52_SPAN
    }

    pub fn device_address(&self) -> (r: u8)
        ensures
            r == self.spec_device_address(),
    {
        ((self.word / LOW_52_SPAN) % 128) as u8
    }

    pub fn number(&self) -> (r: u8)
        ensures
            r == self.spec_number(),
    {
        (self.word / ENDPOINT_NUMBER_SPAN) as u8
    }
}

/// One entry of the global transfer index: transfer id in bits 0 to 51,
/// endpoint id in bits 52 to 62, the start flag in bit 63. A start entry
/// opens a transfer on its endpoint; an end entry closes one.
#[derive(Copy, Clone, PartialEq, Eq, Structural, Debug)]
pub struct TransferIndexEntry {
    pub word: u64,
}

impl TransferIndexEntry {
    pub open spec fn spec_transfer_id(self) -> u64 {
        self.word % LOW_52_SPAN
    }

    pub open spec fn spec_endpoint_id(self) -> u16 {
        ((self.word / LOW_52_SPAN) % 2048) as u16
    }

    pub open spec fn spec_is_start(self) -> bool {
        self.word / TOP_BIT == 1
    }

    /// Packs the three fields; each getter returns its argument back.
    pub fn new(transfer_id: u64, endpoint_id: u16, is_start: bool) -> (r: TransferIndexEntry)
        requires
            transfer_id < LOW_52_SPAN,
            endpoint_id < 2048,
        ensures
            r == spec_entry(transfer_id, endpoint_id, is_start),
            r.spec_transfer_id() == transfer_id,
            r.spec_endpoint_id() == endpoint_id,
            r.spec_is_start() == is_start,
    {
        let word = transfer_id
            + (endpoint_id as u64) * LOW_52_SPAN
            + if is_start { TOP_BIT } else { 0 };
        let r = TransferIndexEntry { word };
        proof {
            let t = transfer_id;
            let e = endpoint_id as u64;
            let s: u64 = if is_start { 1 } else { 0 };
            assert(word % 0x10000000000000u64 == t
                && (word / 0x10000000000000u64) % 2048 == e
                && word / 0x8000000000000000u64 == s) by (bit_vector)
                requires
                    word == t + e * 0x10000000000000u64 + s * 0x8000000000000000u64,
                    t < 0x10000000000000u64,
                    e < 2048u64,
                    s == 0u64 || s == 1u64,
            ;
        }
        r
    }

    pub fn transfer_id(&self) -> (r: u64)
        ensures
            r == self.spec_transfer_id(),
    {
        self.word % LOW_52_SPAN
    }

    pub fn endpoint_id(&self) -> (r: u16)
        ensures
            r == self.spec_endpoint_id(),
    {
        ((self.word / LOW_52_SPAN) % 2048) as u16
    }

    pub fn is_start(&self) -> (r: bool)
        ensures
            r == self.spec_is_start(),
    {
        self.word / TOP_BIT == 1
    }

    /// Sets the start flag, leaving the other fields as they were.
    pub fn set_is_start(&mut self, value: bool)
        ensures
            final(self).spec_is_start() == value,
            final(self).spec_transfer_id() == old(self).spec_transfer_id(),
            final(self).spec_endpoint_id() == old(self).spec_endpoint_id(),
    {
        let low = self.word % TOP_BIT;
        self.word = low + if value { TOP_BIT } else { 0 };
        proof {
            let w = old(self).word;
            let v = self.word;
            let s: u64 = if value { 1 } else { 0 };
            assert((v % 0x10000000000000u64) == (w % 0x10000000000000u64)
                && ((v / 0x10000000000000u64) % 2048) == ((w / 0x10000000000000u64) % 2048)
                && v / 0x8000000000000000u64 == s) by (bit_vector)
                requires
                    v == w % 0x8000000000000000u64 + s * 0x8000000000000000u64,
                    s == 0u64 || s == 1u64,
            ;
        }
    }
}

/// Per-endpoint transfer state at one snapshot.
#[derive(Copy, Clone, PartialEq, Eq, Structural, Debug)]
pub enum EndpointState {
    Idle,
    Starting,
    Ongoing,
    Ending,
}

impl EndpointState {
    pub open spec fn spec_to_byte(self) -> u8 {
        match self {
            EndpointState::Idle => 0,
            EndpointState::Starting => 1,
            EndpointState::Ongoing => 2,
            EndpointState::Ending => 3,
        }
    }

    pub fn to_byte(self) -> (r: u8)
        ensures
            r == self.spec_to_byte(),
    {
        match self {
            EndpointState::Idle => 0,
            EndpointState::Starting => 1,
            EndpointState::Ongoing => 2,
            EndpointState::Ending => 3,
        }
    }

    /// Any byte outside the four states reads as `Idle`.
    pub open spec fn spec_from_byte(b: u8) -> EndpointState {
        if b == 1 {
            EndpointState::Starting
        } else if b == 2 {
            EndpointState::Ongoing
        } else if b == 3 {
            EndpointState::Ending
        } else {
            EndpointState::Idle
        }
    }

    pub fn from_byte(b: u8) -> (r: EndpointState)
        ensures
            r == EndpointState::spec_from_byte(b),
    {
        match b {
            1 => EndpointState::Starting,
            2 => EndpointState::Ongoing,
            3 => EndpointState::Ending,
            _ => EndpointState::Idle,
        }
    }
}

/// The transfer type of an endpoint, with the two synthetic kinds this
/// store adds for framing and unparseable traffic.
#[derive(Copy, Clone, PartialEq, Eq, Structural, Debug)]
pub enum EndpointType {
    Control,
    Isochronous,
    Bulk,
    Interrupt,
    Unidentified,
    Framing,
    Invalid,
}

impl EndpointType {
    /// The low two bits of an endpoint descriptor's attributes.
    pub open spec fn spec_from_attributes(b: u8) -> EndpointType {
        if b % 4 == 0 {
            EndpointType::Control
        } else if b % 4 == 1 {
            EndpointType::Isochronous
        } else if b % 4 == 2 {
            EndpointType::Bulk
        } else {
            EndpointType::Interrupt
        }
    }

    pub fn from_attributes(b: u8) -> (r: EndpointType)
        ensures
            r == EndpointType::spec_from_attributes(b),
    {
        match b % 4 {
            0 => EndpointType::Control,
            1 => EndpointType::Isochronous,
            2 => EndpointType::Bulk,
            _ => EndpointType::Interrupt,
        }
    }

    /// The type's name as displayed in summaries.
    pub open spec fn spec_name(self) -> Seq<char> {
        match self {
            EndpointType::Control => "Control"@,
            EndpointType::Isochronous => "Isochronous"@,
            EndpointType::Bulk => "Bulk"@,
            EndpointType::Interrupt => "Interrupt"@,
            EndpointType::Unidentified => "Unidentified"@,
            EndpointType::Framing => "Framing"@,
            EndpointType::Invalid => "Invalid"@,
        }
    }

    pub fn name(&self) -> (r: &'static str)
        ensures
            r@ == self.spec_name(),
    {
        match self {
            EndpointType::Control => "Control",
            EndpointType::Isochronous => "Isochronous",
            EndpointType::Bulk => "Bulk",
            EndpointType::Interrupt => "Interrupt",
            EndpointType::Unidentified => "Unidentified",
            EndpointType::Framing => "Framing",
            EndpointType::Invalid => "Invalid",
        }
    }
}

/// Per-endpoint indices: the transaction ids belonging to the endpoint, and
/// the offsets into them where each of its transfers begins.
pub struct EndpointTraffic {
    pub transaction_ids: HybridIndex,
    pub transfer_index: HybridIndex,
}

/// What has been learned about one device: its descriptor, configurations,
/// the selected configuration, derived endpoint types, and cached string
/// descriptors.
pub struct DeviceData {
    pub device_descriptor: Option<DeviceDescriptor>,
    pub configurations: Vec<Option<Configuration>>,
    pub configuration_id: Option<usize>,
    pub endpoint_types: Vec<EndpointType>,
    pub strings: Vec<Option<Vec<u8>>>,
}

/// The sixteen endpoint numbers an address can carry.
pub const ENDPOINT_NUMBERS: usize = 16;

/// The synthetic endpoint number of the framing endpoint.
pub const FRAMING_NUMBER: u8 = 0x10;

/// The synthetic endpoint number of the invalid endpoint.
pub const INVALID_NUMBER: u8 = 0x11;

impl DeviceData {
    /// A device record always carries one endpoint type per endpoint
    /// number, and its selected configuration id stays in range.
    pub open spec fn wf(&self) -> bool {
        &&& self.endpoint_types@.len() == ENDPOINT_NUMBERS
        &&& self.configuration_id matches Some(id) ==> id < self.configurations@.len()
    }

    pub fn new() -> (r: DeviceData)
        ensures
            r.wf(),
            r.device_descriptor is None,
            r.configurations@.len() == 0,
            r.configuration_id is None,
            r.strings@.len() == 0,
            forall|i: int| 0 <= i < ENDPOINT_NUMBERS
                ==> r.endpoint_types@[i] == EndpointType::Unidentified,
    {
        let mut endpoint_types: Vec<EndpointType> = Vec::new();
        let mut i: usize = 0;
        while i < ENDPOINT_NUMBERS
            invariant
                i <= ENDPOINT_NUMBERS,
                endpoint_types@.len() == i,
                forall|j: int| 0 <= j < i
                    ==> endpoint_types@[j] == EndpointType::Unidentified,
            decreases ENDPOINT_NUMBERS - i,
        {
            endpoint_types.push(EndpointType::Unidentified);
            i = i + 1;
        }
        DeviceData {
            device_descriptor: None,
            configurations: Vec::new(),
            configuration_id: None,
            endpoint_types,
            strings: Vec::new(),
        }
    }

    /// The transfer type of one endpoint number: zero is always control,
    /// the synthetic numbers map to their synthetic types, everything else
    /// reads the derived table.
    pub open spec fn spec_endpoint_type(&self, number: usize) -> EndpointType {
        if number == 0 {
            EndpointType::Control
        } else if number == FRAMING_NUMBER as usize {
            EndpointType::Framing
        } else if number == INVALID_NUMBER as usize {
            EndpointType::Invalid
        } else {
            self.endpoint_types@[number as int]
        }
    }

    pub fn endpoint_type(&self, number: usize) -> (r: EndpointType)
        requires
            self.wf(),
            number < ENDPOINT_NUMBERS || number == FRAMING_NUMBER as usize
                || number == INVALID_NUMBER as usize,
        ensures
            r == self.spec_endpoint_type(number),
    {
        if number == 0 {
            EndpointType::Control
        } else if number == FRAMING_NUMBER as usize {
            EndpointType::Framing
        } else if number == INVALID_NUMBER as usize {
            EndpointType::Invalid
        } else {
            self.endpoint_types[number]
        }
    }
}

/// Every value of `s` is below `total`.
pub open spec fn bounded_by(s: Seq<u64>, total: int) -> bool {
    forall|i: int| 0 <= i < s.len() ==> #[trigger] s[i] < total
}

/// `s` indexes spans of at least one unit within `total` units: each id's
/// span is non-empty.
pub open spec fn strictly_bounded(s: Seq<u64>, total: int) -> bool {
    forall|i: int| 0 <= i < s.len()
        ==> (#[trigger] spec_range(s, total, i)).0 < spec_range(s, total, i).1
}

/// The span an offset index assigns to `id`: from its offset to the next
/// offset, or to the end for the last id.
pub open spec fn spec_range(s: Seq<u64>, total: int, id: int) -> (int, int) {
    (s[id] as int, if id + 1 < s.len() { s[id + 1] as int } else { total })
}

/// The span of `id` in `index`: its offset up to the next offset, or to
/// `length` for the last id.
pub fn get_index_range(index: &HybridIndex, length: u64, id: u64) -> (r: (u64, u64))
    requires
        index.wf(),
        id < index@.len(),
        forall|i: int| 0 <= i < index@.len() ==> #[trigger] index@[i] <= length,
    ensures
        (r.0 as int, r.1 as int) == spec_range(index@, length as int, id as int),
        r.0 <= r.1 <= length,
{
    let n = index.len();
    let start = index.get_at(id);
    let end = if id + 1 < n {
        proof {
            index.lemma_monotone(id as int, id as int + 1);
        }
        index.get_at(id + 1)
    } else {
        length
    };
    (start, end)
}

/// The capture store: all the append-only sequences the decoder fills and
/// the row model reads.
pub struct Capture {
    pub item_index: HybridIndex,
    pub packet_index: HybridIndex,
    pub packet_data: FileVec<u8>,
    pub transaction_index: HybridIndex,
    pub transfer_index: FileVec<TransferIndexEntry>,
    pub devices: FileVec<Device>,
    pub device_data: Vec<DeviceData>,
    pub endpoints: FileVec<Endpoint>,
    pub endpoint_traffic: Vec<EndpointTraffic>,
    pub endpoint_states: FileVec<u8>,
    pub endpoint_state_index: HybridIndex,
}

impl Capture {
    /// Structural soundness of the store: every index is well formed and
    /// every stored id or offset refers into the sequence it indexes.
    pub open spec fn wf(&self) -> bool {
        &&& self.item_index.wf()
        &&& self.packet_index.wf()
        &&& self.transaction_index.wf()
        &&& self.endpoint_state_index.wf()
        &&& bounded_by(self.item_index@, self.transfer_index@.len() as int)
        &&& strictly_bounded(self.packet_index@, self.packet_data@.len() as int)
        &&& bounded_by(self.packet_index@, self.packet_data@.len() as int)
        &&& strictly_bounded(self.transaction_index@, self.packet_index@.len() as int)
        &&& bounded_by(self.transaction_index@, self.packet_index@.len() as int)
        &&& self.endpoint_state_index@.len() == self.transfer_index@.len()
        &&& strictly_bounded(self.endpoint_state_index@, self.endpoint_states@.len() as int)
        &&& bounded_by(self.endpoint_state_index@, self.endpoint_states@.len() as int)
        &&& self.endpoint_state_index@.len() == 0 ==> self.endpoint_states@.len() == 0
        &&& self.endpoint_state_index@.len() > 0 ==> self.endpoint_state_index@[0] == 0
        &&& forall|i: int| 0 <= i < self.endpoint_states@.len()
            ==> #[trigger] self.endpoint_states@[i] <= 3
        &&& self.endpoint_traffic@.len() == self.endpoints@.len()
        &&& self.device_data@.len() == self.devices@.len()
        &&& forall|k: int| 0 <= k < self.transfer_index@.len() ==> {
            let en = #[trigger] self.transfer_index@[k];
            &&& (en.spec_endpoint_id() as int) < self.endpoints@.len()
            &&& (en.spec_transfer_id() as int)
                < self.endpoint_traffic@[en.spec_endpoint_id() as int].transfer_index@.len()
        }
        &&& forall|e: int| 0 <= e < self.endpoints@.len() ==> {
            let ep = #[trigger] self.endpoints@[e];
            &&& (ep.spec_device_id() as int) < self.devices@.len()
            &&& ((ep.spec_number() as usize) < ENDPOINT_NUMBERS
                || ep.spec_number() == FRAMING_NUMBER
                || ep.spec_number() == INVALID_NUMBER)
        }
        &&& forall|e: int| 0 <= e < self.endpoint_traffic@.len() ==> {
            let t = #[trigger] self.endpoint_traffic@[e];
            &&& t.transaction_ids.wf()
            &&& t.transfer_index.wf()
            &&& bounded_by(t.transaction_ids@, self.transaction_index@.len() as int)
            &&& forall|i: int| 0 <= i < t.transfer_index@.len()
                ==> #[trigger] t.transfer_index@[i] <= t.transaction_ids@.len()
        }
        &&& forall|d: int| 0 <= d < self.device_data@.len()
            ==> (#[trigger] self.device_data@[d]).wf()
    }

    /// An empty store.
    pub fn new() -> (r: Capture)
        ensures
            r.wf(),
            r.item_index@.len() == 0,
            r.packet_index@.len() == 0,
            r.packet_data@.len() == 0,
            r.transaction_index@.len() == 0,
            r.transfer_index@.len() == 0,
            r.devices@.len() == 0,
            r.device_data@.len() == 0,
            r.endpoints@.len() == 0,
            r.endpoint_traffic@.len() == 0,
            r.endpoint_states@.len() == 0,
            r.endpoint_state_index@.len() == 0,
    {
        Capture {
            item_index: HybridIndex::new(1),
            packet_index: HybridIndex::new(2),
            packet_data: FileVec::new(),
            transaction_index: HybridIndex::new(1),
            transfer_index: FileVec::new(),
            devices: FileVec::new(),
            device_data: Vec::new(),
            endpoints: FileVec::new(),
            endpoint_traffic: Vec::new(),
            endpoint_states: FileVec::new(),
            endpoint_state_index: HybridIndex::new(1),
        }
    }

    /// The transactions a transfer entry spans, as offsets into its
    /// endpoint's transaction list.
    pub open spec fn spec_transfer_range(&self, transfer_index_id: int) -> (int, int) {
        let en = self.transfer_index@[transfer_index_id];
        let t = self.endpoint_traffic@[en.spec_endpoint_id() as int];
        spec_range(t.transfer_index@, t.transaction_ids@.len() as int,
            en.spec_transfer_id() as int)
    }

    /// The packet ids a transaction spans.
    pub open spec fn spec_transaction_range(&self, transaction_id: int) -> (int, int) {
        spec_range(self.transaction_index@, self.packet_index@.len() as int, transaction_id)
    }

    /// The bytes a packet spans.
    pub open spec fn spec_packet_range(&self, packet_id: int) -> (int, int) {
        spec_range(self.packet_index@, self.packet_data@.len() as int, packet_id)
    }

    /// Whether the ids an item carries all refer into the store.
    pub open spec fn spec_item_valid(&self, item: Item) -> bool {
        match item {
            Item::Transfer(t) => t < self.transfer_index@.len(),
            Item::Transaction(t, x) => t < self.transfer_index@.len()
                && x < self.transaction_index@.len(),
            Item::Packet(t, x, p) => t < self.transfer_index@.len()
                && x < self.transaction_index@.len()
                && p < self.packet_index@.len(),
        }
    }

    /// How many children an item shows: an expandable transfer entry spans
    /// its transactions, a transaction its packets, an end entry and a
    /// packet nothing.
    pub open spec fn spec_child_count(&self, item: Item) -> int {
        match item {
            Item::Transfer(t) => if self.transfer_index@[t as int].spec_is_start() {
                let r = self.spec_transfer_range(t as int);
                r.1 - r.0
            } else {
                0
            },
            Item::Transaction(t, x) => {
                let r = self.spec_transaction_range(x as int);
                r.1 - r.0
            },
            Item::Packet(t, x, p) => 0,
        }
    }

    /// The child of `parent` at `index`: a transfer descends to its
    /// `index`-th transaction, a transaction to its `index`-th packet.
    pub open spec fn spec_child(&self, parent: Item, index: u64) -> Item {
        match parent {
            Item::Transfer(t) => {
                let en = self.transfer_index@[t as int];
                let traf = self.endpoint_traffic@[en.spec_endpoint_id() as int];
                let offset = traf.transfer_index@[en.spec_transfer_id() as int];
                Item::Transaction(t, traf.transaction_ids@[offset + index])
            },
            Item::Transaction(t, x) => Item::Packet(t, x,
                (self.transaction_index@[x as int] + index) as u64),
            Item::Packet(t, x, p) => parent,
        }
    }

    /// Whether descending from `parent` at `index` stays inside the store:
    /// the parent is valid, not a packet, and `index` is below its child
    /// count.
    pub open spec fn spec_child_valid(&self, parent: Item, index: u64) -> bool {
        &&& self.spec_item_valid(parent)
        &&& !(parent is Packet)
        &&& index < self.spec_child_count(parent)
        &&& parent matches Item::Transfer(t)
            ==> self.transfer_index@[t as int].spec_is_start()
    }

    /// A child reached by a valid descent is itself a valid item.
    pub proof fn lemma_child_item_valid(&self, parent: Item, index: u64)
        requires
            self.wf(),
            self.spec_child_valid(parent, index),
        ensures
            self.spec_item_valid(self.spec_child(parent, index)),
    {
        match parent {
            Item::Transfer(t) => {
                let en = self.transfer_index@[t as int];
                let traf = self.endpoint_traffic@[en.spec_endpoint_id() as int];
                let offset = traf.transfer_index@[en.spec_transfer_id() as int];
                assert(traf.transaction_ids@[offset + index]
                    < self.transaction_index@.len());
            },
            Item::Transaction(t, x) => {
                let rg = self.spec_transaction_range(x as int);
                assert(self.transaction_index@[x as int] < self.packet_index@.len());
                if x as int + 1 < self.transaction_index@.len() {
                    assert(self.transaction_index@[x as int + 1]
                        < self.packet_index@.len());
                }
            },
            Item::Packet(..) => {},
        }
    }

    /// Descends one level; `OutOfRange` if and only if the parent is a
    /// packet, an end entry, or out of range itself, or `index` is not
    /// below the parent's child count.
    pub fn get_child(&self, parent: &Item, index: u64) -> (r: Result<Item, CaptureError>)
        requires
            self.wf(),
        ensures
            self.spec_child_valid(*parent, index)
                ==> r == Ok::<Item, CaptureError>(self.spec_child(*parent, index)),
            !self.spec_child_valid(*parent, index)
                ==> r == Err::<Item, CaptureError>(CaptureError::OutOfRange),
    {
        match parent {
            Item::Transfer(t) => {
                let entry = match self.transfer_index.get(*t) {
                    Ok(en) => en,
                    Err(e) => {
                        return Err(e);
                    },
                };
                if !entry.is_start() {
                    return Err(CaptureError::OutOfRange);
                }
                let endpoint_id = entry.endpoint_id() as usize;
                let transfer_id = entry.transfer_id();
                let ep_traf = &self.endpoint_traffic[endpoint_id];
                let (start, end) = get_index_range(&ep_traf.transfer_index,
                    ep_traf.transaction_ids.len(), transfer_id);
                if index >= end - start {
                    return Err(CaptureError::OutOfRange);
                }
                let transaction_id = ep_traf.transaction_ids.get_at(start + index);
                Ok(Item::Transaction(*t, transaction_id))
            },
            Item::Transaction(t, x) => {
                if *t >= self.transfer_index.len() {
                    return Err(CaptureError::OutOfRange);
                }
                let start = match self.transaction_index.get(*x) {
                    Ok(s) => s,
                    Err(e) => {
                        return Err(e);
                    },
                };
                let (start, end) = get_index_range(&self.transaction_index,
                    self.packet_index.len(), *x);
                if index >= end - start {
                    return Err(CaptureError::OutOfRange);
                }
                Ok(Item::Packet(*t, *x, start + index))
            },
            Item::Packet(..) => Err(CaptureError::OutOfRange),
        }
    }

    /// The top-level row at `index`, or the child of `parent` at `index`.
    pub fn get_item(&self, parent: &Option<Item>, index: u64) -> (r: Result<
        Item,
        CaptureError,
    >)
        requires
            self.wf(),
        ensures
            parent is None ==> {
                &&& index < self.item_index@.len() ==> r == Ok::<Item, CaptureError>(
                    Item::Transfer(self.item_index@[index as int]))
                &&& index >= self.item_index@.len() ==> r == Err::<Item, CaptureError>(
                    CaptureError::OutOfRange)
            },
            parent matches Some(p) ==> {
                &&& self.spec_child_valid(*p, index) ==> r == Ok::<Item, CaptureError>(
                    self.spec_child(*p, index))
                &&& !self.spec_child_valid(*p, index) ==> r == Err::<Item, CaptureError>(
                    CaptureError::OutOfRange)
            },
    {
        match parent {
            None => match self.item_index.get(index) {
                Ok(id) => Ok(Item::Transfer(id)),
                Err(e) => Err(e),
            },
            Some(item) => self.get_child(item, index),
        }
    }

    /// How many children `parent` shows; `OutOfRange` if and only if the
    /// item's ids do not refer into the store.
    pub fn child_count(&self, parent: &Item) -> (r: Result<u64, CaptureError>)
        requires
            self.wf(),
        ensures
            self.spec_item_valid(*parent) ==> (r matches Ok(n)
                && n == self.spec_child_count(*parent)),
            !self.spec_item_valid(*parent) ==> r == Err::<u64, CaptureError>(
                CaptureError::OutOfRange),
    {
        match parent {
            Item::Transfer(t) => {
                let entry = match self.transfer_index.get(*t) {
                    Ok(en) => en,
                    Err(e) => {
                        return Err(e);
                    },
                };
                if !entry.is_start() {
                    return Ok(0);
                }
                let endpoint_id = entry.endpoint_id() as usize;
                let ep_traf = &self.endpoint_traffic[endpoint_id];
                let (start, end) = get_index_range(&ep_traf.transfer_index,
                    ep_traf.transaction_ids.len(), entry.transfer_id());
                Ok(end - start)
            },
            Item::Transaction(t, x) => {
                if *t >= self.transfer_index.len() {
                    return Err(CaptureError::OutOfRange);
                }
                if *x >= self.transaction_index.len() {
                    return Err(CaptureError::OutOfRange);
                }
                let (start, end) = get_index_range(&self.transaction_index,
                    self.packet_index.len(), *x);
                Ok(end - start)
            },
            Item::Packet(t, x, p) => {
                if *t >= self.transfer_index.len()
                    || *x >= self.transaction_index.len()
                    || *p >= self.packet_index.len() {
                    return Err(CaptureError::OutOfRange);
                }
                Ok(0)
            },
        }
    }

    /// The number of top-level rows, or the child count of `parent`.
    pub fn item_count(&self, parent: &Option<Item>) -> (r: Result<u64, CaptureError>)
        requires
            self.wf(),
        ensures
            parent is None ==> r == Ok::<u64, CaptureError>(self.item_index@.len() as u64),
            parent matches Some(p) ==> {
                &&& self.spec_item_valid(*p) ==> (r matches Ok(n)
                    && n == self.spec_child_count(*p))
                &&& !self.spec_item_valid(*p) ==> r == Err::<u64, CaptureError>(
                    CaptureError::OutOfRange)
            },
    {
        match parent {
            None => Ok(self.item_index.len()),
            Some(item) => self.child_count(item),
        }
    }
}

/// Appends every byte of `src` to `dst`, in order.
fn extend_bytes(dst: &mut Vec<u8>, src: &Vec<u8>)
    ensures
        final(dst)@ == old(dst)@ + src@,
{
    let mut j: usize = 0;
    while j < src.len()
        invariant
            j <= src@.len(),
            dst@ == old(dst)@ + src@.subrange(0, j as int),
        decreases src@.len() - j,
    {
        dst.push(src[j]);
        j = j + 1;
        proof {
            assert(src@.subrange(0, j as int)
                == src@.subrange(0, j - 1 as int).push(src@[j - 1]));
        }
    }
    proof {
        assert(src@.subrange(0, src@.len() as int) =~= src@);
        assert(final(dst)@ =~= old(dst)@ + src@);
    }
}

/// A transaction as read back from the store: its opening packet id span
/// and, for a successful data stage, the byte span of its payload.
pub struct Transaction {
    pub pid: PID,
    pub packet_id_range: (u64, u64),
    pub payload_byte_range: Option<(u64, u64)>,
}

impl Transaction {
    pub open spec fn spec_packet_count(&self) -> int {
        self.packet_id_range.1 - self.packet_id_range.0
    }

    pub fn packet_count(&self) -> (r: u64)
        requires
            self.packet_id_range.0 <= self.packet_id_range.1,
        ensures
            r == self.spec_packet_count(),
    {
        self.packet_id_range.1 - self.packet_id_range.0
    }

    pub open spec fn spec_payload_size(&self) -> Option<int> {
        match self.payload_byte_range {
            Some(r) => Some(r.1 - r.0),
            None => None,
        }
    }

    pub fn payload_size(&self) -> (r: Option<u64>)
        requires
            self.payload_byte_range matches Some(p) ==> p.0 <= p.1,
        ensures
            match r {
                Some(n) => self.spec_payload_size() == Some(n as int),
                None => self.spec_payload_size() is None,
            },
    {
        match &self.payload_byte_range {
            Some(range) => Some(range.1 - range.0),
            None => None,
        }
    }
}

impl Capture {
    /// The bytes of packet `id`.
    pub open spec fn spec_packet_bytes(&self, id: int) -> Seq<u8> {
        let r = self.spec_packet_range(id);
        self.packet_data@.subrange(r.0, r.1)
    }

    /// The identifier of packet `id`.
    pub open spec fn spec_pid_of_packet(&self, id: int) -> PID {
        spec_packet_pid(self.spec_packet_bytes(id))
    }

    /// The bytes of packet `index`; `OutOfRange` if and only if the id is.
    pub fn get_packet(&self, index: u64) -> (r: Result<Vec<u8>, CaptureError>)
        requires
            self.wf(),
        ensures
            index < self.packet_index@.len() ==> (r matches Ok(v)
                && v@ == self.spec_packet_bytes(index as int)
                && v@.len() >= 1),
            index >= self.packet_index@.len() ==> r == Err::<Vec<u8>, CaptureError>(
                CaptureError::OutOfRange),
    {
        if index >= self.packet_index.len() {
            return Err(CaptureError::OutOfRange);
        }
        let (start, end) = get_index_range(&self.packet_index, self.packet_data.len(), index);
        self.packet_data.get_range(start, end)
    }

    /// The identifier of packet `index`; `OutOfRange` if and only if the
    /// id is.
    pub fn get_packet_pid(&self, index: u64) -> (r: Result<PID, CaptureError>)
        requires
            self.wf(),
        ensures
            index < self.packet_index@.len() ==> r == Ok::<PID, CaptureError>(
                self.spec_pid_of_packet(index as int)),
            index >= self.packet_index@.len() ==> r == Err::<PID, CaptureError>(
                CaptureError::OutOfRange),
    {
        if index >= self.packet_index.len() {
            return Err(CaptureError::OutOfRange);
        }
        let offset = self.packet_index.get_at(index);
        let byte = match self.packet_data.get(offset) {
            Ok(b) => b,
            Err(e) => {
                return Err(e);
            },
        };
        proof {
            let rg = self.spec_packet_range(index as int);
            assert(self.spec_packet_bytes(index as int)[0] == self.packet_data@[rg.0]);
        }
        Ok(PID::from_byte(byte))
    }

    /// The transaction record at `id`: its identifier is its first
    /// packet's; an `IN` or `OUT` transaction of at least two packets whose
    /// second packet is a data packet of at least three bytes carries that
    /// packet's bytes, less identifier and checksum, as payload.
    pub open spec fn spec_transaction(&self, id: int) -> Transaction {
        let rg = self.spec_transaction_range(id);
        let pid = self.spec_pid_of_packet(rg.0);
        let payload = if (pid == PID::IN || pid == PID::OUT) && rg.1 - rg.0 >= 2 {
            let brg = self.spec_packet_range(rg.0 + 1);
            let data_pid = self.spec_pid_of_packet(rg.0 + 1);
            if (data_pid == PID::DATA0 || data_pid == PID::DATA1) && brg.1 - brg.0 >= 3 {
                Some(((brg.0 + 1) as u64, (brg.1 - 2) as u64))
            } else {
                None
            }
        } else {
            None
        };
        Transaction {
            pid,
            packet_id_range: (rg.0 as u64, rg.1 as u64),
            payload_byte_range: payload,
        }
    }

    /// Reads transaction `index` back; `OutOfRange` if and only if the id
    /// is out of range.
    pub fn get_transaction(&self, index: u64) -> (r: Result<Transaction, CaptureError>)
        requires
            self.wf(),
        ensures
            index < self.transaction_index@.len() ==> (r matches Ok(t)
                && t == self.spec_transaction(index as int)),
            index >= self.transaction_index@.len() ==> r == Err::<Transaction, CaptureError>(
                CaptureError::OutOfRange),
    {
        if index >= self.transaction_index.len() {
            return Err(CaptureError::OutOfRange);
        }
        let (start, end) = get_index_range(&self.transaction_index, self.packet_index.len(),
            index);
        let pid = match self.get_packet_pid(start) {
            Ok(p) => p,
            Err(e) => {
                return Err(e);
            },
        };
        let payload_byte_range: Option<(u64, u64)> = match pid {
            PID::IN | PID::OUT => if end - start >= 2 {
                let data_packet_id = start + 1;
                let (bstart, bend) = get_index_range(&self.packet_index,
                    self.packet_data.len(), data_packet_id);
                let data_pid = match self.get_packet_pid(data_packet_id) {
                    Ok(p) => p,
                    Err(e) => {
                        return Err(e);
                    },
                };
                match data_pid {
                    PID::DATA0 | PID::DATA1 => if bend - bstart >= 3 {
                        Some((bstart + 1, bend - 2))
                    } else {
                        None
                    },
                    _ => None,
                }
            } else {
                None
            },
            _ => None,
        };
        Ok(Transaction {
            pid,
            packet_id_range: (start, end),
            payload_byte_range,
        })
    }

    /// The data a control transfer carried: the payloads of its `IN` or
    /// `OUT` data transactions matching the setup stage's direction,
    /// concatenated in order.
    pub open spec fn spec_control_data(&self, tids: Seq<u64>, dir: Direction) -> Seq<u8>
        decreases tids.len(),
    {
        if tids.len() == 0 {
            Seq::empty()
        } else {
            let rest = self.spec_control_data(tids.drop_last(), dir);
            let t = self.spec_transaction(tids.last() as int);
            let matching = match (dir, t.pid) {
                (Direction::In, PID::IN) => true,
                (Direction::Out, PID::OUT) => true,
                _ => false,
            };
            match t.payload_byte_range {
                Some(brg) => if matching {
                    rest + self.packet_data@.subrange(brg.0 as int, brg.1 as int)
                } else {
                    rest
                },
                None => rest,
            }
        }
    }

    /// The setup fields governing the transfer whose first transaction is
    /// `setup_tid`: the fields of the data packet right after that
    /// transaction's first packet, if there is one and it is long enough.
    pub open spec fn spec_setup_of(&self, setup_tid: int) -> Option<SetupFields> {
        let setup_packet_id = self.transaction_index@[setup_tid] as int;
        if setup_packet_id + 1 < self.packet_index@.len() {
            spec_setup_fields(self.spec_packet_bytes(setup_packet_id + 1))
        } else {
            None
        }
    }

    /// Reassembles the control transfer spanning `start .. end` of an
    /// endpoint's transaction list: `None` when no parseable setup stage is
    /// there.
    #[verifier::rlimit(100)]
    #[verifier::spinoff_prover]
    pub fn get_control_transfer(&self, address: u8, endpoint_id: u16, start: u64, end: u64)
        -> (r: Option<ControlTransfer>)
        requires
            self.wf(),
            (endpoint_id as int) < self.endpoint_traffic@.len(),
            start < end,
            end <= self.endpoint_traffic@[endpoint_id as int].transaction_ids@.len(),
        ensures
            ({
                let tids = self.endpoint_traffic@[endpoint_id as int].transaction_ids@
                    .subrange(start as int, end as int);
                match self.spec_setup_of(tids[0] as int) {
                    Some(fields) => r matches Some(c)
                        && c.address == address
                        && c.fields == fields
                        && c.data@ == self.spec_control_data(tids,
                            fields.type_fields.spec_direction()),
                    None => r is None,
                }
            }),
    {
        let ep_traf = &self.endpoint_traffic[endpoint_id as usize];
        let ghost tids = ep_traf.transaction_ids@.subrange(start as int, end as int);
        let setup_tid = ep_traf.transaction_ids.get_at(start);
        proof {
            let t = self.endpoint_traffic@[endpoint_id as int];
            assert(t.transaction_ids@[start as int] < self.transaction_index@.len());
        }
        let setup_packet_id = self.transaction_index.get_at(setup_tid);
        let n_packets = self.packet_index.len();
        proof {
            assert(self.transaction_index@[setup_tid as int]
                < self.packet_index@.len());
        }
        if setup_packet_id + 1 >= n_packets {
            return None;
        }
        let data_packet = match self.get_packet(setup_packet_id + 1) {
            Ok(p) => p,
            Err(..) => {
                return None;
            },
        };
        let fields = match SetupFields::from_data_packet(data_packet.as_slice()) {
            Some(f) => f,
            None => {
                return None;
            },
        };
        let direction = fields.type_fields.direction();
        let mut data: Vec<u8> = Vec::new();
        let mut i: u64 = start;
        proof {
            assert(tids.subrange(0, 0) =~= Seq::<u64>::empty());
            assert(data@ =~= self.spec_control_data(tids.subrange(0, 0), direction));
        }
        while i < end
            invariant
                self.wf(),
                start <= i <= end,
                end <= self.endpoint_traffic@[endpoint_id as int].transaction_ids@.len(),
                (endpoint_id as int) < self.endpoint_traffic@.len(),
                tids == self.endpoint_traffic@[endpoint_id as int].transaction_ids@
                    .subrange(start as int, end as int),
                data@ == self.spec_control_data(tids.subrange(0, i - start), direction),
            decreases end - i,
        {
            let ep_traf = &self.endpoint_traffic[endpoint_id as usize];
            let tid = ep_traf.transaction_ids.get_at(i);
            proof {
                let t = self.endpoint_traffic@[endpoint_id as int];
                assert(t.transaction_ids@[i as int] < self.transaction_index@.len());
            }
            let transaction = match self.get_transaction(tid) {
                Ok(t) => t,
                Err(..) => {
                    proof {
                        assert(false);
                    }
                    return None;
                },
            };
            let matching = match (direction, transaction.pid) {
                (Direction::In, PID::IN) => true,
                (Direction::Out, PID::OUT) => true,
                _ => false,
            };
            match transaction.payload_byte_range {
                Some((bstart, bend)) => if matching {
                    proof {
                        let rg = self.spec_transaction_range(tid as int);
                        assert(self.transaction_index@[tid as int] < self.packet_index@.len());
                        let brg = self.spec_packet_range(rg.0 + 1);
                        if rg.0 + 1 + 1 < self.packet_index@.len() {
                            assert(self.packet_index@[rg.0 + 2] < self.packet_data@.len());
                        }
                        assert(bstart <= bend <= self.packet_data@.len());
                    }
                    match self.packet_data.get_range(bstart, bend) {
                        Ok(payload) => {
                            extend_bytes(&mut data, &payload);
                        },
                        Err(..) => {
                            proof {
                                assert(false);
                            }
                            return None;
                        },
                    }
                },
                None => {},
            }
            i = i + 1;
            proof {
                let pref = tids.subrange(0, i - start);
                assert(pref.drop_last() =~= tids.subrange(0, i - 1 - start));
                assert(pref.last() == tids[i - 1 - start]);
                assert(tids[i - 1 - start] == self.endpoint_traffic@[
                    endpoint_id as int].transaction_ids@[i - 1]);
                assert(data@ =~= self.spec_control_data(pref, direction));
            }
        }
        proof {
            assert(tids.subrange(0, end - start) =~= tids);
        }
        Some(ControlTransfer { address, fields, data })
    }
}

/// The hex dump of bytes from `i` on: two digits per byte, separated by
/// commas.
pub open spec fn spec_hex_dump_from(b: Seq<u8>, i: int) -> Seq<char>
    decreases b.len() - i,
{
    if i < 0 || i >= b.len() {
        Seq::empty()
    } else if i + 1 == b.len() {
        crate::text::hex_digits_2(b[i] as int)
    } else {
        crate::text::hex_digits_2(b[i] as int) + ", "@ + spec_hex_dump_from(b, i + 1)
    }
}

/// The bracketed hex dump of a byte string.
pub open spec fn spec_hex_dump(b: Seq<u8>) -> Seq<char> {
    "["@ + spec_hex_dump_from(b, 0) + "]"@
}

/// Appends the bracketed hex dump of `bytes` to `out`.
fn push_hex_dump(out: &mut String, bytes: &Vec<u8>)
    ensures
        final(out)@ == old(out)@ + spec_hex_dump(bytes@),
{
    out.append("[");
    let ghost base = out@;
    let n = bytes.len();
    let mut i: usize = 0;
    while i < n
        invariant
            i <= n,
            n == bytes@.len(),
            base + spec_hex_dump_from(bytes@, 0) == out@ + spec_hex_dump_from(bytes@, i as int),
        decreases n - i,
    {
        crate::text::push_hex_2(out, bytes[i]);
        if i + 1 < n {
            out.append(", ");
        }
        i = i + 1;
        proof {
            assert(base + spec_hex_dump_from(bytes@, 0)
                =~= out@ + spec_hex_dump_from(bytes@, i as int));
        }
    }
    out.append("]");
    proof {
        assert(spec_hex_dump_from(bytes@, n as int) =~= Seq::<char>::empty());
        assert(final(out)@ =~= old(out)@ + spec_hex_dump(bytes@));
    }
}

impl Capture {
    /// The trailer a packet's fields add to its summary line.
    pub open spec fn spec_packet_fields_text(p: Seq<u8>) -> Seq<char> {
        match crate::usb::spec_packet_fields(p) {
            PacketFields::SOF(s) => " with frame number "@ + dec_digits(s.frame_number as int)
                + ", CRC "@ + crate::text::hex_digits_2(s.crc as int),
            PacketFields::Token(t) => " on "@ + dec_digits(t.device_address as int) + "."@
                + dec_digits(t.endpoint_number as int) + ", CRC "@
                + crate::text::hex_digits_2(t.crc as int),
            PacketFields::Data(d) => " with "@ + dec_digits(p.len() - 3)
                + " data bytes and CRC "@ + crate::text::hex_digits_4(d.crc as int),
            PacketFields::NoFields => Seq::empty(),
        }
    }

    /// The summary line of one packet: its identifier, its fields, and a
    /// hex dump of its bytes.
    pub open spec fn spec_packet_summary(&self, p: int) -> Seq<char> {
        let bytes = self.spec_packet_bytes(p);
        spec_packet_pid(bytes).spec_name() + " packet"@
            + Self::spec_packet_fields_text(bytes) + ": "@ + spec_hex_dump(bytes)
    }

    /// The summary line of one transaction: a SOF count, or its identifier
    /// with packet and payload counts.
    pub open spec fn spec_transaction_summary(&self, x: int) -> Seq<char> {
        let t = self.spec_transaction(x);
        let count = t.spec_packet_count();
        if t.pid == PID::SOF {
            dec_digits(count) + " SOF packets"@
        } else {
            match t.spec_payload_size() {
                None => t.pid.spec_name() + " transaction, "@ + dec_digits(count)
                    + " packets"@,
                Some(size) => t.pid.spec_name() + " transaction, "@ + dec_digits(count)
                    + " packets with "@ + dec_digits(size) + " data bytes"@,
            }
        }
    }

    /// The summary line of one transfer entry. An end entry names what is
    /// closing; a start entry counts its groups or transactions, and a
    /// control transfer renders its setup stage in words.
    pub open spec fn spec_transfer_summary(&self, t: int) -> Seq<char> {
        let en = self.transfer_index@[t];
        let ep = self.endpoints@[en.spec_endpoint_id() as int];
        let dd = self.device_data@[ep.spec_device_id() as int];
        let ty = dd.spec_endpoint_type(ep.spec_number() as usize);
        let addr = ep.spec_device_address();
        let num = ep.spec_number();
        if !en.spec_is_start() {
            if ty == EndpointType::Invalid {
                "End of invalid groups"@
            } else if ty == EndpointType::Framing {
                "End of SOF groups"@
            } else {
                ty.spec_name() + " transfer ending on endpoint "@ + dec_digits(addr as int)
                    + "."@ + dec_digits(num as int)
            }
        } else {
            let rg = self.spec_transfer_range(t);
            let count = rg.1 - rg.0;
            if ty == EndpointType::Invalid {
                dec_digits(count) + " invalid groups"@
            } else if ty == EndpointType::Framing {
                dec_digits(count) + " SOF groups"@
            } else if ty == EndpointType::Control {
                let traf = self.endpoint_traffic@[en.spec_endpoint_id() as int];
                let tids = traf.transaction_ids@.subrange(rg.0, rg.1);
                if count > 0 && self.spec_setup_of(tids[0] as int) is Some {
                    let fields = self.spec_setup_of(tids[0] as int)->0;
                    crate::usb::spec_control_summary(addr, fields,
                        self.spec_control_data(tids,
                            fields.type_fields.spec_direction()).len() as int)
                } else {
                    "Incomplete control transfer on device "@ + dec_digits(addr as int)
                }
            } else {
                ty.spec_name() + " transfer with "@ + dec_digits(count)
                    + " transactions on endpoint "@ + dec_digits(addr as int) + "."@
                    + dec_digits(num as int)
            }
        }
    }

    /// The summary line of any item.
    pub open spec fn spec_summary(&self, item: Item) -> Seq<char> {
        match item {
            Item::Packet(t, x, p) => self.spec_packet_summary(p as int),
            Item::Transaction(t, x) => self.spec_transaction_summary(x as int),
            Item::Transfer(t) => self.spec_transfer_summary(t as int),
        }
    }

    /// Builds the summary line of `item`; `OutOfRange` if and only if the
    /// item's ids do not refer into the store.
    #[verifier::rlimit(100)]
    #[verifier::spinoff_prover]
    pub fn get_summary(&self, item: &Item) -> (r: Result<String, CaptureError>)
        requires
            self.wf(),
        ensures
            self.spec_item_valid(*item) ==> (r matches Ok(s)
                && s@ == self.spec_summary(*item)),
            !self.spec_item_valid(*item) ==> r == Err::<String, CaptureError>(
                CaptureError::OutOfRange),
    {
        let mut out = String::new();
        match item {
            Item::Packet(t, x, p) => {
                if *t >= self.transfer_index.len() || *x >= self.transaction_index.len() {
                    return Err(CaptureError::OutOfRange);
                }
                let packet = match self.get_packet(*p) {
                    Ok(b) => b,
                    Err(e) => {
                        return Err(e);
                    },
                };
                let pid = PID::from_byte(packet[0]);
                out.append(pid.name());
                out.append(" packet");
                match PacketFields::from_packet(packet.as_slice()) {
                    PacketFields::SOF(sof) => {
                        out.append(" with frame number ");
                        push_dec(&mut out, sof.frame_number as u64);
                        out.append(", CRC ");
                        crate::text::push_hex_2(&mut out, sof.crc);
                    },
                    PacketFields::Token(token) => {
                        out.append(" on ");
                        push_dec(&mut out, token.device_address as u64);
                        out.append(".");
                        push_dec(&mut out, token.endpoint_number as u64);
                        out.append(", CRC ");
                        crate::text::push_hex_2(&mut out, token.crc);
                    },
                    PacketFields::Data(data) => {
                        out.append(" with ");
                        push_dec(&mut out, packet.len() as u64 - 3);
                        out.append(" data bytes and CRC ");
                        crate::text::push_hex_4(&mut out, data.crc);
                    },
                    PacketFields::NoFields => {},
                }
                out.append(": ");
                push_hex_dump(&mut out, &packet);
                proof {
                    assert(out@ =~= self.spec_summary(*item));
                }
                Ok(out)
            },
            Item::Transaction(t, x) => {
                if *t >= self.transfer_index.len() {
                    return Err(CaptureError::OutOfRange);
                }
                let transaction = match self.get_transaction(*x) {
                    Ok(tr) => tr,
                    Err(e) => {
                        return Err(e);
                    },
                };
                proof {
                    self.packet_index.lemma_len_bound();
                    self.transaction_index.lemma_len_bound();
                    if *x as int + 1 < self.transaction_index@.len() {
                        self.transaction_index.lemma_monotone(*x as int, *x as int + 1);
                    }
                    assert(self.transaction_index@[*x as int] < self.packet_index@.len());
                    let rg = self.spec_transaction_range(*x as int);
                    if 0 <= rg.0 + 2 < self.packet_index@.len() {
                        assert(self.packet_index@[rg.0 + 2] < self.packet_data@.len());
                    }
                    if 0 <= rg.0 + 1 < self.packet_index@.len() {
                        assert(self.packet_index@[rg.0 + 1] < self.packet_data@.len());
                    }
                }
                let count = transaction.packet_count();
                proof {
                    assert(transaction == self.spec_transaction(*x as int));
                    assert(count as int
                        == self.spec_transaction(*x as int).spec_packet_count());
                }
                if let PID::SOF = transaction.pid {
                    push_dec(&mut out, count);
                    out.append(" SOF packets");
                    proof {
                        assert(out@ =~= dec_digits(count as int) + " SOF packets"@);
                        assert(self.spec_transaction_summary(*x as int)
                            == dec_digits(self.spec_transaction(*x as int).spec_packet_count())
                                + " SOF packets"@);
                    }
                } else {
                    out.append(transaction.pid.name());
                    out.append(" transaction, ");
                    push_dec(&mut out, count);
                    match transaction.payload_size() {
                        Some(size) => {
                            out.append(" packets with ");
                            push_dec(&mut out, size);
                            out.append(" data bytes");
                        },
                        None => {
                            out.append(" packets");
                        },
                    }
                }
                proof {
                    assert(out@ =~= self.spec_summary(*item));
                }
                Ok(out)
            },
            Item::Transfer(t) => {
                let entry = match self.transfer_index.get(*t) {
                    Ok(en) => en,
                    Err(e) => {
                        return Err(e);
                    },
                };
                let endpoint_id = entry.endpoint_id();
                let endpoint = self.endpoints.at(endpoint_id as usize);
                let device_id = endpoint.device_id();
                let dev_data = &self.device_data[device_id as usize];
                let num = endpoint.number();
                let ep_type = dev_data.endpoint_type(num as usize);
                let addr = endpoint.device_address();
                if !entry.is_start() {
                    match ep_type {
                        EndpointType::Invalid => {
                            out.append("End of invalid groups");
                        },
                        EndpointType::Framing => {
                            out.append("End of SOF groups");
                        },
                        _ => {
                            out.append(ep_type.name());
                            out.append(" transfer ending on endpoint ");
                            push_dec(&mut out, addr as u64);
                            out.append(".");
                            push_dec(&mut out, num as u64);
                        },
                    }
                    proof {
                        assert(out@ =~= self.spec_summary(*item));
                    }
                    return Ok(out);
                }
                let ep_traf = &self.endpoint_traffic[endpoint_id as usize];
                let (start, end) = get_index_range(&ep_traf.transfer_index,
                    ep_traf.transaction_ids.len(), entry.transfer_id());
                let count = end - start;
                match ep_type {
                    EndpointType::Invalid => {
                        push_dec(&mut out, count);
                        out.append(" invalid groups");
                    },
                    EndpointType::Framing => {
                        push_dec(&mut out, count);
                        out.append(" SOF groups");
                    },
                    EndpointType::Control => {
                        let transfer = if count > 0 {
                            self.get_control_transfer(addr, endpoint_id, start, end)
                        } else {
                            None
                        };
                        match transfer {
                            Some(transfer) => {
                                let s = transfer.summary();
                                out.append(s.as_str());
                            },
                            None => {
                                out.append("Incomplete control transfer on device ");
                                push_dec(&mut out, addr as u64);
                            },
                        }
                    },
                    _ => {
                        out.append(ep_type.name());
                        out.append(" transfer with ");
                        push_dec(&mut out, count);
                        out.append(" transactions on endpoint ");
                        push_dec(&mut out, addr as u64);
                        out.append(".");
                        push_dec(&mut out, num as u64);
                    },
                }
                proof {
                    assert(out@ =~= self.spec_summary(*item));
                }
                Ok(out)
            },
        }
    }
}

impl Capture {
    /// The endpoint-state snapshot recorded with transfer entry `k`.
    pub open spec fn spec_endpoint_state_bytes(&self, k: int) -> Seq<u8> {
        let rg = spec_range(self.endpoint_state_index@, self.endpoint_states@.len() as int, k);
        self.endpoint_states@.subrange(rg.0, rg.1)
    }

    /// The snapshot recorded with entry `index`; `OutOfRange` if and only
    /// if the entry id is out of range.
    pub fn get_endpoint_state(&self, index: u64) -> (r: Result<Vec<u8>, CaptureError>)
        requires
            self.wf(),
        ensures
            index < self.endpoint_state_index@.len() ==> (r matches Ok(v)
                && v@ == self.spec_endpoint_state_bytes(index as int)
                && forall|i: int| 0 <= i < v@.len() ==> #[trigger] v@[i] <= 3),
            index >= self.endpoint_state_index@.len() ==> r == Err::<Vec<u8>, CaptureError>(
                CaptureError::OutOfRange),
    {
        if index >= self.endpoint_state_index.len() {
            return Err(CaptureError::OutOfRange);
        }
        let (start, end) = get_index_range(&self.endpoint_state_index,
            self.endpoint_states.len(), index);
        self.endpoint_states.get_range(start, end)
    }

    /// Whether the transfer shown at entry `index` continues past it: the
    /// next snapshot still shows its endpoint ongoing.
    pub open spec fn spec_transfer_extended(&self, endpoint_id: int, index: int) -> bool {
        if index + 1 >= self.transfer_index@.len() {
            false
        } else {
            let state = self.spec_endpoint_state_bytes(index + 1);
            if endpoint_id >= state.len() {
                false
            } else {
                EndpointState::spec_from_byte(state[endpoint_id]) == EndpointState::Ongoing
            }
        }
    }

    /// Whether the transfer at `index` on `endpoint_id` extends past that
    /// entry; `OutOfRange` if and only if the entry id is out of range.
    pub fn transfer_extended(&self, endpoint_id: usize, index: u64) -> (r: Result<
        bool,
        CaptureError,
    >)
        requires
            self.wf(),
        ensures
            index < self.transfer_index@.len() ==> r == Ok::<bool, CaptureError>(
                self.spec_transfer_extended(endpoint_id as int, index as int)),
            index >= self.transfer_index@.len() ==> r == Err::<bool, CaptureError>(
                CaptureError::OutOfRange),
    {
        let count = self.transfer_index.len();
        if index >= count {
            return Err(CaptureError::OutOfRange);
        }
        if index + 1 >= count {
            return Ok(false);
        }
        let state = match self.get_endpoint_state(index + 1) {
            Ok(s) => s,
            Err(e) => {
                return Err(e);
            },
        };
        if endpoint_id >= state.len() {
            Ok(false)
        } else {
            let s = EndpointState::from_byte(state[endpoint_id]);
            Ok(s == EndpointState::Ongoing)
        }
    }

    /// The glyph one snapshot column contributes to a row, and whether the
    /// running `thru` flag is set after it.
    pub open spec fn spec_connector_glyph(item: Item, state: EndpointState, on_endpoint: bool,
        thru: bool, last: bool) -> char {
        match item {
            Item::Transfer(..) => match (state, thru) {
                (EndpointState::Idle, _) => ' ',
                (EndpointState::Starting, _) => '\u{25CB}',
                (EndpointState::Ongoing, false) => '\u{2502}',
                (EndpointState::Ongoing, true) => '\u{253C}',
                (EndpointState::Ending, _) => '\u{2514}',
            },
            Item::Transaction(..) => {
                let active = state != EndpointState::Idle;
                match (on_endpoint, active, thru, last) {
                    (false, false, false, _) => ' ',
                    (false, false, true, _) => '\u{2500}',
                    (false, true, false, _) => '\u{2502}',
                    (false, true, true, _) => '\u{253C}',
                    (true, _, _, false) => '\u{251C}',
                    (true, _, _, true) => '\u{2514}',
                }
            },
            Item::Packet(..) => {
                let active = state != EndpointState::Idle;
                match (on_endpoint, active, last) {
                    (false, false, _) => ' ',
                    (false, true, _) => '\u{2502}',
                    (true, _, false) => '\u{2502}',
                    (true, _, true) => ' ',
                }
            },
        }
    }

    /// Whether column `i` flips the running `thru` flag for this row.
    pub open spec fn spec_connector_thru(item: Item, state: EndpointState, on_endpoint: bool)
        -> bool {
        match item {
            Item::Transfer(..) => state == EndpointState::Starting
                || state == EndpointState::Ending,
            Item::Transaction(..) | Item::Packet(..) => on_endpoint,
        }
    }

    /// The glyph columns of a row from snapshot column `i` on, with the
    /// running `thru` flag.
    pub open spec fn spec_connector_chars(item: Item, bytes: Seq<u8>, endpoint_id: int,
        last: bool, i: int, thru: bool) -> Seq<char>
        decreases bytes.len() - i,
    {
        if i < 0 || i >= bytes.len() {
            Seq::empty()
        } else {
            let state = EndpointState::spec_from_byte(bytes[i]);
            let on_endpoint = i == endpoint_id;
            let thru2 = thru || Self::spec_connector_thru(item, state, on_endpoint);
            seq![Self::spec_connector_glyph(item, state, on_endpoint, thru2, last)]
                + Self::spec_connector_chars(item, bytes, endpoint_id, last, i + 1, thru2)
        }
    }

    /// The padding glyph of a row for endpoints younger than its snapshot.
    pub open spec fn spec_connector_pad(item: Item) -> char {
        match item {
            Item::Transfer(..) => '\u{2500}',
            Item::Transaction(..) => '\u{2500}',
            Item::Packet(..) => ' ',
        }
    }

    /// The suffix drawn after a row's glyph columns.
    pub open spec fn spec_connector_suffix(item: Item, is_start: bool, last_packet: bool)
        -> Seq<char> {
        match item {
            Item::Transfer(..) => if is_start {
                "\u{2500}"@
            } else {
                "\u{2500}\u{2500}\u{25A1} "@
            },
            Item::Transaction(..) => "\u{2500}\u{2500}\u{2500}"@,
            Item::Packet(..) => if last_packet {
                "    \u{2514}\u{2500}\u{2500}"@
            } else {
                "    \u{251C}\u{2500}\u{2500}"@
            },
        }
    }

    /// Whether the item is the last transaction of its transfer (for
    /// transaction and packet rows).
    pub open spec fn spec_last_transaction(&self, item: Item) -> bool {
        match item {
            Item::Transaction(t, x) | Item::Packet(t, x, _) => {
                let en = self.transfer_index@[t as int];
                let traf = self.endpoint_traffic@[en.spec_endpoint_id() as int];
                let rg = spec_range(traf.transfer_index@, traf.transaction_ids@.len() as int,
                    en.spec_transfer_id() as int);
                rg.1 > rg.0 && x == traf.transaction_ids@[rg.1 - 1]
            },
            _ => false,
        }
    }

    /// Whether the item is the last packet of its transaction (for packet
    /// rows).
    pub open spec fn spec_last_packet(&self, item: Item) -> bool {
        match item {
            Item::Packet(_, x, p) => {
                let rg = self.spec_transaction_range(x as int);
                p == rg.1 - 1
            },
            _ => false,
        }
    }

    /// The whole connector column of a row: one glyph per endpoint known at
    /// its snapshot, padding for endpoints known now, and the row suffix.
    pub open spec fn spec_connectors(&self, item: Item) -> Seq<char> {
        let t = match item {
            Item::Transfer(t) => t,
            Item::Transaction(t, _) => t,
            Item::Packet(t, _, _) => t,
        };
        let en = self.transfer_index@[t as int];
        let endpoint_id = en.spec_endpoint_id() as int;
        let bytes = self.spec_endpoint_state_bytes(t as int);
        let extended = self.spec_transfer_extended(endpoint_id, t as int);
        let last = self.spec_last_transaction(item) && !extended;
        let glyphs = Self::spec_connector_chars(item, bytes, endpoint_id, last, 0, false);
        let pad_count = if self.endpoints@.len() >= bytes.len() {
            self.endpoints@.len() - bytes.len()
        } else {
            0
        };
        glyphs + seq_repeat(Self::spec_connector_pad(item), pad_count as int)
            + Self::spec_connector_suffix(item, en.spec_is_start(),
                self.spec_last_packet(item))
    }

    /// Draws the connector column of `item`; `OutOfRange` if and only if
    /// the item's ids do not refer into the store.
    #[verifier::rlimit(100)]
    #[verifier::spinoff_prover]
    pub fn get_connectors(&self, item: &Item) -> (r: Result<String, CaptureError>)
        requires
            self.wf(),
        ensures
            self.spec_item_valid(*item) ==> (r matches Ok(s)
                && s@ == self.spec_connectors(*item)),
            !self.spec_item_valid(*item) ==> r == Err::<String, CaptureError>(
                CaptureError::OutOfRange),
    {
        let endpoint_count = self.endpoints.len();
        let transfer_index_id: u64 = match item {
            Item::Transfer(i) => *i,
            Item::Transaction(i, _) => *i,
            Item::Packet(i, ..) => *i,
        };
        let entry = match self.transfer_index.get(transfer_index_id) {
            Ok(en) => en,
            Err(e) => {
                return Err(e);
            },
        };
        match item {
            Item::Transaction(_, x) | Item::Packet(_, x, _) => if *x
                >= self.transaction_index.len() {
                return Err(CaptureError::OutOfRange);
            },
            _ => {},
        }
        match item {
            Item::Packet(_, _, p) => if *p >= self.packet_index.len() {
                return Err(CaptureError::OutOfRange);
            },
            _ => {},
        }
        let endpoint_id = entry.endpoint_id() as usize;
        let endpoint_state = match self.get_endpoint_state(transfer_index_id) {
            Ok(s) => s,
            Err(..) => {
                proof {
                    assert(false);
                }
                return Err(CaptureError::OutOfRange);
            },
        };
        let state_length = endpoint_state.len();
        let extended = match self.transfer_extended(endpoint_id, transfer_index_id) {
            Ok(b) => b,
            Err(..) => {
                proof {
                    assert(false);
                }
                return Err(CaptureError::OutOfRange);
            },
        };
        let ep_traf = &self.endpoint_traffic[endpoint_id];
        let last_transaction: bool = match item {
            Item::Transaction(_, transaction_id) | Item::Packet(_, transaction_id, _) => {
                proof {
                    ep_traf.transaction_ids.lemma_len_bound();
                }
                let (start, end) = get_index_range(&ep_traf.transfer_index,
                    ep_traf.transaction_ids.len(), entry.transfer_id());
                if end > start {
                    let last_transaction_id = ep_traf.transaction_ids.get_at(end - 1);
                    *transaction_id == last_transaction_id
                } else {
                    false
                }
            },
            _ => false,
        };
        let last_packet: bool = match item {
            Item::Packet(_, transaction_id, packet_id) => {
                proof {
                    self.packet_index.lemma_len_bound();
                }
                let (_, end) = get_index_range(&self.transaction_index,
                    self.packet_index.len(), *transaction_id);
                *packet_id == end - 1
            },
            _ => false,
        };
        let last = last_transaction && !extended;
        let ghost bytes = endpoint_state@;
        let mut connectors = String::new();
        let mut thru: bool = false;
        let mut i: usize = 0;
        while i < state_length
            invariant
                i <= state_length,
                state_length == bytes.len(),
                endpoint_state@ == bytes,
                Self::spec_connector_chars(*item, bytes, endpoint_id as int, last, 0, false)
                    == connectors@ + Self::spec_connector_chars(*item, bytes,
                        endpoint_id as int, last, i as int, thru),
            decreases state_length - i,
        {
            let state = EndpointState::from_byte(endpoint_state[i]);
            let active = state != EndpointState::Idle;
            let on_endpoint = i == endpoint_id;
            let flip: bool = match item {
                Item::Transfer(..) => match state {
                    EndpointState::Starting | EndpointState::Ending => true,
                    _ => false,
                },
                Item::Transaction(..) | Item::Packet(..) => on_endpoint,
            };
            thru = thru || flip;
            let glyph: char = match item {
                Item::Transfer(..) => match (state, thru) {
                    (EndpointState::Idle, _) => ' ',
                    (EndpointState::Starting, _) => '\u{25CB}',
                    (EndpointState::Ongoing, false) => '\u{2502}',
                    (EndpointState::Ongoing, true) => '\u{253C}',
                    (EndpointState::Ending, _) => '\u{2514}',
                },
                Item::Transaction(..) => match (on_endpoint, active, thru, last) {
                    (false, false, false, _) => ' ',
                    (false, false, true, _) => '\u{2500}',
                    (false, true, false, _) => '\u{2502}',
                    (false, true, true, _) => '\u{253C}',
                    (true, _, _, false) => '\u{251C}',
                    (true, _, _, true) => '\u{2514}',
                },
                Item::Packet(..) => match (on_endpoint, active, last) {
                    (false, false, _) => ' ',
                    (false, true, _) => '\u{2502}',
                    (true, _, false) => '\u{2502}',
                    (true, _, true) => ' ',
                },
            };
            crate::text::push_char(&mut connectors, glyph);
            i = i + 1;
            proof {
                assert(Self::spec_connector_chars(*item, bytes, endpoint_id as int, last,
                    0, false)
                    =~= connectors@ + Self::spec_connector_chars(*item, bytes,
                        endpoint_id as int, last, i as int, thru));
            }
        }
        proof {
            assert(Self::spec_connector_chars(*item, bytes, endpoint_id as int, last,
                state_length as int, thru) =~= Seq::<char>::empty());
        }
        let ghost glyph_part = connectors@;
        let mut j: usize = state_length;
        while j < endpoint_count as usize
            invariant
                j >= state_length,
                state_length < endpoint_count as usize ==> j <= endpoint_count as usize,
                state_length >= endpoint_count as usize ==> j == state_length,
                state_length == bytes.len(),
                endpoint_count == self.endpoints@.len(),
                connectors@ == glyph_part + seq_repeat(Self::spec_connector_pad(*item),
                    j - state_length),
            decreases endpoint_count as usize - j,
        {
            let pad: char = match item {
                Item::Transfer(..) => '\u{2500}',
                Item::Transaction(..) => '\u{2500}',
                Item::Packet(..) => ' ',
            };
            crate::text::push_char(&mut connectors, pad);
            j = j + 1;
            proof {
                assert(seq_repeat(Self::spec_connector_pad(*item), j - state_length)
                    =~= seq_repeat(Self::spec_connector_pad(*item),
                        j - 1 - state_length).push(Self::spec_connector_pad(*item)));
                assert(connectors@ =~= glyph_part + seq_repeat(
                    Self::spec_connector_pad(*item), j - state_length));
            }
        }
        let ghost prefix = connectors@;
        match (item, last_packet) {
            (Item::Transfer(..), _) => if entry.is_start() {
                connectors.append("\u{2500}");
            } else {
                connectors.append("\u{2500}\u{2500}\u{25A1} ");
            },
            (Item::Transaction(..), _) => {
                connectors.append("\u{2500}\u{2500}\u{2500}");
            },
            (Item::Packet(..), false) => {
                connectors.append("    \u{251C}\u{2500}\u{2500}");
            },
            (Item::Packet(..), true) => {
                connectors.append("    \u{2514}\u{2500}\u{2500}");
            },
        }
        proof {
            let t = transfer_index_id as int;
            let en = self.transfer_index@[t];
            let sbytes = self.spec_endpoint_state_bytes(t);
            assert(bytes == sbytes);
            assert(endpoint_id as int == en.spec_endpoint_id() as int);
            assert(extended == self.spec_transfer_extended(endpoint_id as int, t));
            assert(last_transaction == self.spec_last_transaction(*item));
            assert(last == (self.spec_last_transaction(*item) && !extended));
            assert(last_packet == self.spec_last_packet(*item));
            assert(glyph_part == Self::spec_connector_chars(*item, sbytes,
                endpoint_id as int, last, 0, false));
            let pad_count: int = if self.endpoints@.len() >= sbytes.len() {
                self.endpoints@.len() - sbytes.len()
            } else {
                0
            };
            assert(prefix == glyph_part + seq_repeat(Self::spec_connector_pad(*item),
                pad_count));
            assert(connectors@ =~= self.spec_connectors(*item));
        }
        Ok(connectors)
    }
}

/// The endpoint types after applying one interface's endpoint descriptors
/// in order: each sets the type of its endpoint number from its attributes.
pub open spec fn spec_types_after_endpoints(types: Seq<EndpointType>,
    eps: Seq<crate::usb::EndpointDescriptor>) -> Seq<EndpointType>
    decreases eps.len(),
{
    if eps.len() == 0 {
        types
    } else {
        let prev = spec_types_after_endpoints(types, eps.drop_last());
        let d = eps.last();
        prev.update((d.endpoint_address % 16) as int,
            EndpointType::spec_from_attributes(d.attributes))
    }
}

/// The endpoint types after applying every interface of a configuration.
pub open spec fn spec_types_after_interfaces(types: Seq<EndpointType>,
    ifaces: Seq<(crate::usb::InterfaceDescriptor, Seq<crate::usb::EndpointDescriptor>)>)
    -> Seq<EndpointType>
    decreases ifaces.len(),
{
    if ifaces.len() == 0 {
        types
    } else {
        spec_types_after_endpoints(spec_types_after_interfaces(types, ifaces.drop_last()),
            ifaces.last().1)
    }
}

impl DeviceData {
    /// Rebuilds the endpoint-type table from the selected configuration's
    /// endpoint descriptors; without a selected configuration nothing
    /// changes.
    pub fn update_endpoint_types(&mut self)
        requires
            old(self).wf(),
        ensures
            final(self).wf(),
            final(self).device_descriptor == old(self).device_descriptor,
            final(self).configuration_id == old(self).configuration_id,
            final(self).strings@ == old(self).strings@,
            final(self).configurations@ == old(self).configurations@,
            match old(self).configuration_id {
                Some(id) => match old(self).configurations@[id as int] {
                    Some(config) => final(self).endpoint_types@
                        == spec_types_after_interfaces(old(self).endpoint_types@,
                            crate::usb::spec_interfaces_view(config.interfaces@)),
                    None => final(self).endpoint_types@ == old(self).endpoint_types@,
                },
                None => final(self).endpoint_types@ == old(self).endpoint_types@,
            },
    {
        let id = match self.configuration_id {
            Some(id) => id,
            None => {
                return ;
            },
        };
        match &self.configurations[id] {
            Some(config) => {
                let ghost ifview = crate::usb::spec_interfaces_view(config.interfaces@);
                let ghost types0 = self.endpoint_types@;
                let n = config.interfaces.len();
                let mut i: usize = 0;
                while i < n
                    invariant
                        i <= n,
                        n == config.interfaces@.len(),
                        self.configurations@ == old(self).configurations@,
                        self.configurations@[id as int] matches Some(c)
                            && c.interfaces@ == config.interfaces@,
                        ifview == crate::usb::spec_interfaces_view(config.interfaces@),
                        self.endpoint_types@ == spec_types_after_interfaces(types0,
                            ifview.subrange(0, i as int)),
                        self.endpoint_types@.len() == types0.len(),
                        types0.len() == ENDPOINT_NUMBERS,
                        self.device_descriptor == old(self).device_descriptor,
                        self.configuration_id == old(self).configuration_id,
                        self.strings@ == old(self).strings@,
                    decreases n - i,
                {
                    let eps = &config.interfaces[i].endpoint_descriptors;
                    let ghost epview = eps@;
                    let ghost types_i = self.endpoint_types@;
                    let m = eps.len();
                    let mut j: usize = 0;
                    while j < m
                        invariant
                            j <= m,
                            m == epview.len(),
                            eps@ == epview,
                            self.endpoint_types@ == spec_types_after_endpoints(types_i,
                                epview.subrange(0, j as int)),
                            self.endpoint_types@.len() == types_i.len(),
                            types_i.len() == ENDPOINT_NUMBERS,
                            self.configurations@ == old(self).configurations@,
                            self.device_descriptor == old(self).device_descriptor,
                            self.configuration_id == old(self).configuration_id,
                            self.strings@ == old(self).strings@,
                        decreases m - j,
                    {
                        let d = eps[j];
                        let number = (d.endpoint_address % 16) as usize;
                        let ty = EndpointType::from_attributes(d.attributes);
                        self.endpoint_types[number] = ty;
                        j = j + 1;
                        proof {
                            assert(epview.subrange(0, j as int).drop_last()
                                =~= epview.subrange(0, j - 1 as int));
                            assert(epview.subrange(0, j as int).last() == epview[j - 1]);
                        }
                    }
                    i = i + 1;
                    proof {
                        assert(epview.subrange(0, m as int) =~= epview);
                        let pref = ifview.subrange(0, i as int);
                        assert(pref.drop_last() =~= ifview.subrange(0, i - 1 as int));
                        assert(pref.last() == ifview[i - 1]);
                        assert(ifview[i - 1].1 == epview);
                    }
                }
                proof {
                    assert(ifview.subrange(0, n as int) =~= ifview);
                }
            },
            None => {},
        }
    }
}

impl Capture {
    /// Whether a device-tree item's ids all refer into the store, with
    /// whatever record each summary or count reads present.
    pub open spec fn spec_device_item_valid(&self, item: DeviceItem) -> bool {
        match item {
            DeviceItem::Device(dev) => dev < self.device_data@.len(),
            DeviceItem::DeviceDescriptor(dev) => dev < self.device_data@.len(),
            DeviceItem::DeviceDescriptorField(dev, f) => dev < self.device_data@.len()
                && f < 13 && self.device_data@[dev as int].device_descriptor is Some,
            DeviceItem::Configuration(dev, conf) => dev < self.device_data@.len()
                && conf < self.device_data@[dev as int].configurations@.len()
                && (self.device_data@[dev as int].configurations@[conf as int] matches
                    Some(c) ==> c.interfaces@.len() < 0xFFFFFFFF),
            DeviceItem::ConfigurationDescriptor(dev, conf) => dev < self.device_data@.len()
                && conf < self.device_data@[dev as int].configurations@.len(),
            DeviceItem::ConfigurationDescriptorField(dev, conf, f) => dev
                < self.device_data@.len()
                && conf < self.device_data@[dev as int].configurations@.len()
                && self.device_data@[dev as int].configurations@[conf as int] is Some
                && f < 8,
            DeviceItem::Interface(dev, conf, iface) => dev < self.device_data@.len()
                && conf < self.device_data@[dev as int].configurations@.len()
                && (self.device_data@[dev as int].configurations@[conf as int] matches
                    Some(c) && iface < c.interfaces@.len()
                    && c.interfaces@[iface as int].endpoint_descriptors@.len()
                        < 0xFFFFFFFF),
            DeviceItem::InterfaceDescriptor(dev, conf, iface) => dev
                < self.device_data@.len()
                && conf < self.device_data@[dev as int].configurations@.len()
                && (self.device_data@[dev as int].configurations@[conf as int] matches
                    Some(c) && iface < c.interfaces@.len()),
            DeviceItem::InterfaceDescriptorField(dev, conf, iface, f) => dev
                < self.device_data@.len()
                && conf < self.device_data@[dev as int].configurations@.len()
                && (self.device_data@[dev as int].configurations@[conf as int] matches
                    Some(c) && iface < c.interfaces@.len())
                && f < 9,
            DeviceItem::EndpointDescriptor(dev, conf, iface, ep) => dev
                < self.device_data@.len()
                && conf < self.device_data@[dev as int].configurations@.len()
                && (self.device_data@[dev as int].configurations@[conf as int] matches
                    Some(c) && iface < c.interfaces@.len()
                    && ep < c.interfaces@[iface as int].endpoint_descriptors@.len()),
            DeviceItem::EndpointDescriptorField(dev, conf, iface, ep, f) => dev
                < self.device_data@.len()
                && conf < self.device_data@[dev as int].configurations@.len()
                && (self.device_data@[dev as int].configurations@[conf as int] matches
                    Some(c) && iface < c.interfaces@.len()
                    && ep < c.interfaces@[iface as int].endpoint_descriptors@.len())
                && f < 6,
        }
    }

    /// How many children a device-tree item shows.
    pub open spec fn spec_device_child_count(&self, item: DeviceItem) -> int {
        let data = self.device_data@;
        match item {
            DeviceItem::Device(dev) => data[dev as int].configurations@.len() as int,
            DeviceItem::DeviceDescriptor(dev) => match data[dev as int].device_descriptor {
                Some(_) => 13,
                None => 0,
            },
            DeviceItem::Configuration(dev, conf) => match data[
                dev as int].configurations@[conf as int] {
                Some(c) => 1 + c.interfaces@.len() as int,
                None => 0,
            },
            DeviceItem::ConfigurationDescriptor(dev, conf) => match data[
                dev as int].configurations@[conf as int] {
                Some(_) => 8,
                None => 0,
            },
            DeviceItem::Interface(dev, conf, iface) => match data[
                dev as int].configurations@[conf as int] {
                Some(c) => 1 + c.interfaces@[iface as int].endpoint_descriptors@.len() as int,
                None => 0,
            },
            DeviceItem::InterfaceDescriptor(..) => 9,
            DeviceItem::EndpointDescriptor(..) => 6,
            _ => 0,
        }
    }

    /// How many children a device-tree item shows; `OutOfRange` if and
    /// only if the item is not valid.
    pub fn device_child_count(&self, item: &DeviceItem) -> (r: Result<u64, CaptureError>)
        requires
            self.wf(),
        ensures
            self.spec_device_item_valid(*item) ==> (r matches Ok(n)
                && n == self.spec_device_child_count(*item)),
            !self.spec_device_item_valid(*item) ==> r == Err::<u64, CaptureError>(
                CaptureError::OutOfRange),
    {
        let data = &self.device_data;
        let n = data.len() as u64;
        match item {
            DeviceItem::Device(dev) => {
                if *dev >= n {
                    return Err(CaptureError::OutOfRange);
                }
                Ok(data[*dev as usize].configurations.len() as u64)
            },
            DeviceItem::DeviceDescriptor(dev) => {
                if *dev >= n {
                    return Err(CaptureError::OutOfRange);
                }
                match data[*dev as usize].device_descriptor {
                    Some(_) => Ok(13),
                    None => Ok(0),
                }
            },
            DeviceItem::DeviceDescriptorField(dev, f) => {
                if *dev >= n || *f >= 13 {
                    return Err(CaptureError::OutOfRange);
                }
                match data[*dev as usize].device_descriptor {
                    Some(_) => Ok(0),
                    None => Err(CaptureError::OutOfRange),
                }
            },
            DeviceItem::Configuration(dev, conf) => {
                if *dev >= n || *conf as usize >= data[*dev as usize].configurations.len() {
                    return Err(CaptureError::OutOfRange);
                }
                match &data[*dev as usize].configurations[*conf as usize] {
                    Some(c) => {
                        if c.interfaces.len() as u64 >= 0xFFFFFFFF {
                            return Err(CaptureError::OutOfRange);
                        }
                        Ok(1 + c.interfaces.len() as u64)
                    },
                    None => Ok(0),
                }
            },
            DeviceItem::ConfigurationDescriptor(dev, conf) => {
                if *dev >= n || *conf as usize >= data[*dev as usize].configurations.len() {
                    return Err(CaptureError::OutOfRange);
                }
                match &data[*dev as usize].configurations[*conf as usize] {
                    Some(_) => Ok(8),
                    None => Ok(0),
                }
            },
            DeviceItem::ConfigurationDescriptorField(dev, conf, f) => {
                if *dev >= n || *conf as usize >= data[*dev as usize].configurations.len()
                    || *f >= 8 {
                    return Err(CaptureError::OutOfRange);
                }
                match &data[*dev as usize].configurations[*conf as usize] {
                    Some(_) => Ok(0),
                    None => Err(CaptureError::OutOfRange),
                }
            },
            DeviceItem::Interface(dev, conf, iface) => {
                if *dev >= n || *conf as usize >= data[*dev as usize].configurations.len() {
                    return Err(CaptureError::OutOfRange);
                }
                match &data[*dev as usize].configurations[*conf as usize] {
                    Some(c) => {
                        if *iface as usize >= c.interfaces.len()
                            || c.interfaces[*iface as usize].endpoint_descriptors.len()
                                as u64 >= 0xFFFFFFFF {
                            return Err(CaptureError::OutOfRange);
                        }
                        Ok(1 + c.interfaces[*iface as usize].endpoint_descriptors.len()
                            as u64)
                    },
                    None => Err(CaptureError::OutOfRange),
                }
            },
            DeviceItem::InterfaceDescriptor(dev, conf, iface) => {
                if *dev >= n || *conf as usize >= data[*dev as usize].configurations.len() {
                    return Err(CaptureError::OutOfRange);
                }
                match &data[*dev as usize].configurations[*conf as usize] {
                    Some(c) => {
                        if *iface as usize >= c.interfaces.len() {
                            return Err(CaptureError::OutOfRange);
                        }
                        Ok(9)
                    },
                    None => Err(CaptureError::OutOfRange),
                }
            },
            DeviceItem::InterfaceDescriptorField(dev, conf, iface, f) => {
                if *dev >= n || *conf as usize >= data[*dev as usize].configurations.len()
                    || *f >= 9 {
                    return Err(CaptureError::OutOfRange);
                }
                match &data[*dev as usize].configurations[*conf as usize] {
                    Some(c) => {
                        if *iface as usize >= c.interfaces.len() {
                            return Err(CaptureError::OutOfRange);
                        }
                        Ok(0)
                    },
                    None => Err(CaptureError::OutOfRange),
                }
            },
            DeviceItem::EndpointDescriptor(dev, conf, iface, ep) => {
                if *dev >= n || *conf as usize >= data[*dev as usize].configurations.len() {
                    return Err(CaptureError::OutOfRange);
                }
                match &data[*dev as usize].configurations[*conf as usize] {
                    Some(c) => {
                        if *iface as usize >= c.interfaces.len()
                            || *ep as usize >= c.interfaces[
                                *iface as usize].endpoint_descriptors.len() {
                            return Err(CaptureError::OutOfRange);
                        }
                        Ok(6)
                    },
                    None => Err(CaptureError::OutOfRange),
                }
            },
            DeviceItem::EndpointDescriptorField(dev, conf, iface, ep, f) => {
                if *dev >= n || *conf as usize >= data[*dev as usize].configurations.len()
                    || *f >= 6 {
                    return Err(CaptureError::OutOfRange);
                }
                match &data[*dev as usize].configurations[*conf as usize] {
                    Some(c) => {
                        if *iface as usize >= c.interfaces.len()
                            || *ep as usize >= c.interfaces[
                                *iface as usize].endpoint_descriptors.len() {
                            return Err(CaptureError::OutOfRange);
                        }
                        Ok(0)
                    },
                    None => Err(CaptureError::OutOfRange),
                }
            },
        }
    }

    /// The child of a device-tree item at `index`: a device descends to its
    /// descriptor then its configurations, a configuration to its
    /// descriptor then its interfaces, an interface to its descriptor then
    /// its endpoint descriptors, a descriptor to its fields.
    pub open spec fn spec_device_child(item: DeviceItem, index: u64) -> DeviceItem {
        match item {
            DeviceItem::Device(dev) => if index == 0 {
                DeviceItem::DeviceDescriptor(dev)
            } else {
                DeviceItem::Configuration(dev, index as u8)
            },
            DeviceItem::DeviceDescriptor(dev) => DeviceItem::DeviceDescriptorField(dev,
                index as u8),
            DeviceItem::Configuration(dev, conf) => if index == 0 {
                DeviceItem::ConfigurationDescriptor(dev, conf)
            } else {
                DeviceItem::Interface(dev, conf, (index - 1) as u8)
            },
            DeviceItem::ConfigurationDescriptor(dev, conf) =>
                DeviceItem::ConfigurationDescriptorField(dev, conf, index as u8),
            DeviceItem::Interface(dev, conf, iface) => if index == 0 {
                DeviceItem::InterfaceDescriptor(dev, conf, iface)
            } else {
                DeviceItem::EndpointDescriptor(dev, conf, iface, (index - 1) as u8)
            },
            DeviceItem::InterfaceDescriptor(dev, conf, iface) =>
                DeviceItem::InterfaceDescriptorField(dev, conf, iface, index as u8),
            DeviceItem::EndpointDescriptor(dev, conf, iface, ep) =>
                DeviceItem::EndpointDescriptorField(dev, conf, iface, ep, index as u8),
            _ => item,
        }
    }

    /// Whether descending from a device-tree item at `index` is possible:
    /// the item is valid and no leaf, `index` is below its child count, and
    /// the child's one-byte indices fit.
    pub open spec fn spec_device_child_valid(&self, item: DeviceItem, index: u64) -> bool {
        &&& self.spec_device_item_valid(item)
        &&& index < self.spec_device_child_count(item)
        &&& index < 256
        &&& match item {
            DeviceItem::DeviceDescriptorField(..) => false,
            DeviceItem::ConfigurationDescriptorField(..) => false,
            DeviceItem::InterfaceDescriptorField(..) => false,
            DeviceItem::EndpointDescriptorField(..) => false,
            _ => true,
        }
    }

    /// Descends one level in the device tree; `OutOfRange` if and only if
    /// that is not possible.
    pub fn device_child(&self, item: &DeviceItem, index: u64) -> (r: Result<
        DeviceItem,
        CaptureError,
    >)
        requires
            self.wf(),
        ensures
            self.spec_device_child_valid(*item, index) ==> r == Ok::<DeviceItem,
                CaptureError>(Self::spec_device_child(*item, index)),
            !self.spec_device_child_valid(*item, index) ==> r == Err::<DeviceItem,
                CaptureError>(CaptureError::OutOfRange),
    {
        let count = match self.device_child_count(item) {
            Ok(n) => n,
            Err(e) => {
                return Err(e);
            },
        };
        if index >= count || index >= 256 {
            return Err(CaptureError::OutOfRange);
        }
        match item {
            DeviceItem::Device(dev) => Ok(if index == 0 {
                DeviceItem::DeviceDescriptor(*dev)
            } else {
                DeviceItem::Configuration(*dev, index as u8)
            }),
            DeviceItem::DeviceDescriptor(dev) => Ok(DeviceItem::DeviceDescriptorField(*dev,
                index as u8)),
            DeviceItem::Configuration(dev, conf) => Ok(if index == 0 {
                DeviceItem::ConfigurationDescriptor(*dev, *conf)
            } else {
                DeviceItem::Interface(*dev, *conf, (index - 1) as u8)
            }),
            DeviceItem::ConfigurationDescriptor(dev, conf) => Ok(
                DeviceItem::ConfigurationDescriptorField(*dev, *conf, index as u8)),
            DeviceItem::Interface(dev, conf, iface) => Ok(if index == 0 {
                DeviceItem::InterfaceDescriptor(*dev, *conf, *iface)
            } else {
                DeviceItem::EndpointDescriptor(*dev, *conf, *iface, (index - 1) as u8)
            }),
            DeviceItem::InterfaceDescriptor(dev, conf, iface) => Ok(
                DeviceItem::InterfaceDescriptorField(*dev, *conf, *iface, index as u8)),
            DeviceItem::EndpointDescriptor(dev, conf, iface, ep) => Ok(
                DeviceItem::EndpointDescriptorField(*dev, *conf, *iface, *ep, index as u8)),
            _ => Err(CaptureError::OutOfRange),
        }
    }

    /// The device at `index` of the device list (device zero is the
    /// placeholder for the synthetic endpoints and is not shown), or the
    /// child of `parent` at `index`.
    pub fn get_device_item(&self, parent: &Option<DeviceItem>, index: u64) -> (r: Result<
        DeviceItem,
        CaptureError,
    >)
        requires
            self.wf(),
        ensures
            parent is None ==> {
                &&& index + 1 < self.device_data@.len() ==> r == Ok::<DeviceItem,
                    CaptureError>(DeviceItem::Device((index + 1) as u64))
                &&& index + 1 >= self.device_data@.len() ==> r == Err::<DeviceItem,
                    CaptureError>(CaptureError::OutOfRange)
            },
            parent matches Some(p) ==> {
                &&& self.spec_device_child_valid(*p, index) ==> r == Ok::<DeviceItem,
                    CaptureError>(Self::spec_device_child(*p, index))
                &&& !self.spec_device_child_valid(*p, index) ==> r == Err::<DeviceItem,
                    CaptureError>(CaptureError::OutOfRange)
            },
    {
        match parent {
            None => {
                let n = self.device_data.len() as u64;
                if index < u64::MAX && index + 1 < n {
                    Ok(DeviceItem::Device(index + 1))
                } else {
                    Err(CaptureError::OutOfRange)
                }
            },
            Some(item) => self.device_child(item, index),
        }
    }

    /// The number of devices shown, or the child count of `parent`.
    pub fn device_item_count(&self, parent: &Option<DeviceItem>) -> (r: Result<
        u64,
        CaptureError,
    >)
        requires
            self.wf(),
        ensures
            parent is None ==> (r matches Ok(n) && n == if self.device_data@.len() >= 1 {
                self.device_data@.len() - 1
            } else {
                0
            }),
            parent matches Some(p) ==> {
                &&& self.spec_device_item_valid(*p) ==> (r matches Ok(n)
                    && n == self.spec_device_child_count(*p))
                &&& !self.spec_device_item_valid(*p) ==> r == Err::<u64, CaptureError>(
                    CaptureError::OutOfRange)
            },
    {
        match parent {
            None => {
                let n = self.device_data.len() as u64;
                if n >= 1 {
                    Ok(n - 1)
                } else {
                    Ok(0)
                }
            },
            Some(item) => self.device_child_count(item),
        }
    }
}

impl Capture {
    /// The summary line of a device-tree item.
    pub open spec fn spec_device_summary(&self, item: DeviceItem) -> Seq<char> {
        let data = self.device_data@;
        match item {
            DeviceItem::Device(dev) => "Device "@
                + dec_digits(self.devices@[dev as int].address as int) + ": "@
                + match data[dev as int].device_descriptor {
                    Some(d) => crate::text::hex_digits_4(d.vendor_id as int) + ":"@
                        + crate::text::hex_digits_4(d.product_id as int),
                    None => "Unknown"@,
                },
            DeviceItem::DeviceDescriptor(dev) => match data[dev as int].device_descriptor {
                Some(_) => "Device descriptor"@,
                None => "No device descriptor"@,
            },
            DeviceItem::DeviceDescriptorField(dev, f) => {
                let d = data[dev as int].device_descriptor->0;
                d.spec_field_text(f as int, data[dev as int].strings@)
            },
            DeviceItem::Configuration(_, conf) => "Configuration "@ + dec_digits(conf as int),
            DeviceItem::ConfigurationDescriptor(..) => "Configuration descriptor"@,
            DeviceItem::ConfigurationDescriptorField(dev, conf, f) => {
                let c = data[dev as int].configurations@[conf as int]->0;
                c.descriptor.spec_field_text(f as int, data[dev as int].strings@)
            },
            DeviceItem::Interface(_, _, iface) => "Interface "@ + dec_digits(iface as int),
            DeviceItem::InterfaceDescriptor(..) => "Interface descriptor"@,
            DeviceItem::InterfaceDescriptorField(dev, conf, iface, f) => {
                let c = data[dev as int].configurations@[conf as int]->0;
                c.interfaces@[iface as int].descriptor.spec_field_text(f as int,
                    data[dev as int].strings@)
            },
            DeviceItem::EndpointDescriptor(dev, conf, iface, ep) => {
                let c = data[dev as int].configurations@[conf as int]->0;
                let d = c.interfaces@[iface as int].endpoint_descriptors@[ep as int];
                "Endpoint "@ + dec_digits((d.endpoint_address % 128) as int)
                    + (if d.endpoint_address >= 128 { " IN"@ } else { " OUT"@ })
            },
            DeviceItem::EndpointDescriptorField(dev, conf, iface, ep, f) => {
                let c = data[dev as int].configurations@[conf as int]->0;
                c.interfaces@[iface as int].endpoint_descriptors@[ep as int]
                    .spec_field_text(f as int)
            },
        }
    }

    /// Builds the summary line of a device-tree item; `OutOfRange` if and
    /// only if the item is not valid.
    pub fn get_device_summary(&self, item: &DeviceItem) -> (r: Result<String, CaptureError>)
        requires
            self.wf(),
        ensures
            self.spec_device_item_valid(*item) ==> (r matches Ok(s)
                && s@ == self.spec_device_summary(*item)),
            !self.spec_device_item_valid(*item) ==> r == Err::<String, CaptureError>(
                CaptureError::OutOfRange),
    {
        let data = &self.device_data;
        let n = data.len() as u64;
        let mut out = String::new();
        match item {
            DeviceItem::Device(dev) => {
                if *dev >= n {
                    return Err(CaptureError::OutOfRange);
                }
                let device = self.devices.at(*dev as usize);
                out.append("Device ");
                push_dec(&mut out, device.address as u64);
                out.append(": ");
                match &data[*dev as usize].device_descriptor {
                    Some(d) => {
                        crate::text::push_hex_4(&mut out, d.vendor_id);
                        out.append(":");
                        crate::text::push_hex_4(&mut out, d.product_id);
                    },
                    None => {
                        out.append("Unknown");
                    },
                }
                proof {
                    assert(out@ =~= self.spec_device_summary(*item));
                }
                Ok(out)
            },
            DeviceItem::DeviceDescriptor(dev) => {
                if *dev >= n {
                    return Err(CaptureError::OutOfRange);
                }
                match &data[*dev as usize].device_descriptor {
                    Some(_) => {
                        out.append("Device descriptor");
                    },
                    None => {
                        out.append("No device descriptor");
                    },
                }
                proof {
                    assert(out@ =~= self.spec_device_summary(*item));
                }
                Ok(out)
            },
            DeviceItem::DeviceDescriptorField(dev, f) => {
                if *dev >= n || *f >= 13 {
                    return Err(CaptureError::OutOfRange);
                }
                match &data[*dev as usize].device_descriptor {
                    Some(d) => {
                        let s = d.field_text(*f, &data[*dev as usize].strings);
                        out.append(s.as_str());
                        proof {
                            assert(out@ =~= self.spec_device_summary(*item));
                        }
                        Ok(out)
                    },
                    None => Err(CaptureError::OutOfRange),
                }
            },
            DeviceItem::Configuration(dev, conf) => {
                if *dev >= n || *conf as usize >= data[*dev as usize].configurations.len() {
                    return Err(CaptureError::OutOfRange);
                }
                if let Some(c) = &data[*dev as usize].configurations[*conf as usize] {
                    if c.interfaces.len() as u64 >= 0xFFFFFFFF {
                        return Err(CaptureError::OutOfRange);
                    }
                }
                out.append("Configuration ");
                push_dec(&mut out, *conf as u64);
                proof {
                    assert(out@ =~= self.spec_device_summary(*item));
                }
                Ok(out)
            },
            DeviceItem::ConfigurationDescriptor(dev, conf) => {
                if *dev >= n || *conf as usize >= data[*dev as usize].configurations.len() {
                    return Err(CaptureError::OutOfRange);
                }
                out.append("Configuration descriptor");
                proof {
                    assert(out@ =~= self.spec_device_summary(*item));
                }
                Ok(out)
            },
            DeviceItem::ConfigurationDescriptorField(dev, conf, f) => {
                if *dev >= n || *conf as usize >= data[*dev as usize].configurations.len()
                    || *f >= 8 {
                    return Err(CaptureError::OutOfRange);
                }
                match &data[*dev as usize].configurations[*conf as usize] {
                    Some(c) => {
                        let s = c.descriptor.field_text(*f, &data[*dev as usize].strings);
                        out.append(s.as_str());
                        proof {
                            assert(out@ =~= self.spec_device_summary(*item));
                        }
                        Ok(out)
                    },
                    None => Err(CaptureError::OutOfRange),
                }
            },
            DeviceItem::Interface(dev, conf, iface) => {
                if *dev >= n || *conf as usize >= data[*dev as usize].configurations.len() {
                    return Err(CaptureError::OutOfRange);
                }
                match &data[*dev as usize].configurations[*conf as usize] {
                    Some(c) => {
                        if *iface as usize >= c.interfaces.len()
                            || c.interfaces[*iface as usize].endpoint_descriptors.len()
                                as u64 >= 0xFFFFFFFF {
                            return Err(CaptureError::OutOfRange);
                        }
                        out.append("Interface ");
                        push_dec(&mut out, *iface as u64);
                        proof {
                            assert(out@ =~= self.spec_device_summary(*item));
                        }
                        Ok(out)
                    },
                    None => Err(CaptureError::OutOfRange),
                }
            },
            DeviceItem::InterfaceDescriptor(dev, conf, iface) => {
                if *dev >= n || *conf as usize >= data[*dev as usize].configurations.len() {
                    return Err(CaptureError::OutOfRange);
                }
                match &data[*dev as usize].configurations[*conf as usize] {
                    Some(c) => {
                        if *iface as usize >= c.interfaces.len() {
                            return Err(CaptureError::OutOfRange);
                        }
                        out.append("Interface descriptor");
                        proof {
                            assert(out@ =~= self.spec_device_summary(*item));
                        }
                        Ok(out)
                    },
                    None => Err(CaptureError::OutOfRange),
                }
            },
            DeviceItem::InterfaceDescriptorField(dev, conf, iface, f) => {
                if *dev >= n || *conf as usize >= data[*dev as usize].configurations.len()
                    || *f >= 9 {
                    return Err(CaptureError::OutOfRange);
                }
                match &data[*dev as usize].configurations[*conf as usize] {
                    Some(c) => {
                        if *iface as usize >= c.interfaces.len() {
                            return Err(CaptureError::OutOfRange);
                        }
                        let s = c.interfaces[*iface as usize].descriptor.field_text(*f,
                            &data[*dev as usize].strings);
                        out.append(s.as_str());
                        proof {
                            assert(out@ =~= self.spec_device_summary(*item));
                        }
                        Ok(out)
                    },
                    None => Err(CaptureError::OutOfRange),
                }
            },
            DeviceItem::EndpointDescriptor(dev, conf, iface, ep) => {
                if *dev >= n || *conf as usize >= data[*dev as usize].configurations.len() {
                    return Err(CaptureError::OutOfRange);
                }
                match &data[*dev as usize].configurations[*conf as usize] {
                    Some(c) => {
                        if *iface as usize >= c.interfaces.len()
                            || *ep as usize >= c.interfaces[
                                *iface as usize].endpoint_descriptors.len() {
                            return Err(CaptureError::OutOfRange);
                        }
                        let d = c.interfaces[*iface as usize].endpoint_descriptors[
                            *ep as usize];
                        out.append("Endpoint ");
                        push_dec(&mut out, (d.endpoint_address % 128) as u64);
                        if d.endpoint_address >= 128 {
                            out.append(" IN");
                        } else {
                            out.append(" OUT");
                        }
                        proof {
                            assert(out@ =~= self.spec_device_summary(*item));
                        }
                        Ok(out)
                    },
                    None => Err(CaptureError::OutOfRange),
                }
            },
            DeviceItem::EndpointDescriptorField(dev, conf, iface, ep, f) => {
                if *dev >= n || *conf as usize >= data[*dev as usize].configurations.len()
                    || *f >= 6 {
                    return Err(CaptureError::OutOfRange);
                }
                match &data[*dev as usize].configurations[*conf as usize] {
                    Some(c) => {
                        if *iface as usize >= c.interfaces.len()
                            || *ep as usize >= c.interfaces[
                                *iface as usize].endpoint_descriptors.len() {
                            return Err(CaptureError::OutOfRange);
                        }
                        let d = c.interfaces[*iface as usize].endpoint_descriptors[
                            *ep as usize];
                        let s = d.field_text(*f);
                        out.append(s.as_str());
                        proof {
                            assert(out@ =~= self.spec_device_summary(*item));
                        }
                        Ok(out)
                    },
                    None => Err(CaptureError::OutOfRange),
                }
            },
        }
    }
}

/// The sizes of a record vector, as displayed in the storage summary.
pub fn fmt_vec<T: Copy>(vec: &FileVec<T>) -> (r: String)
    ensures
        r@ == grouped_decimal(vec@.len() as u64) + " entries, "@
            + human_size(vec.spec_size()),
{
    let mut out = fmt_count(vec.len());
    out.append(" entries, ");
    let s = fmt_size(vec.size());
    out.append(s.as_str());
    proof {
        assert(out@ =~= grouped_decimal(vec@.len() as u64) + " entries, "@
            + human_size(vec.spec_size()));
    }
    out
}

/// The sizes of a compressed index, as displayed in the storage summary.
pub fn fmt_index(idx: &HybridIndex) -> (r: String)
    requires
        idx.wf(),
    ensures
        r@ == grouped_decimal(idx@.len() as u64) + " values in "@
            + grouped_decimal(idx.spec_entry_count() as u64) + " entries, "@
            + human_size(idx.spec_size()),
{
    let mut out = fmt_count(idx.len());
    out.append(" values in ");
    let entries = fmt_count(idx.entry_count());
    out.append(entries.as_str());
    out.append(" entries, ");
    let s = fmt_size(idx.size());
    out.append(s.as_str());
    proof {
        idx.lemma_entry_count_le_len();
        assert(out@ =~= grouped_decimal(idx@.len() as u64) + " values in "@
            + grouped_decimal(idx.spec_entry_count() as u64) + " entries, "@
            + human_size(idx.spec_size()));
    }
    out
}

impl Capture {
    /// The width of snapshot `k`: how many endpoint-state bytes it holds.
    pub open spec fn spec_snapshot_width(&self, k: int) -> int {
        let rg = spec_range(self.endpoint_state_index@, self.endpoint_states@.len() as int, k);
        rg.1 - rg.0
    }

    /// The total width of the first `k` snapshots.
    pub open spec fn spec_snapshot_width_sum(&self, k: int) -> int
        decreases k,
    {
        if k <= 0 {
            0
        } else {
            self.spec_snapshot_width_sum(k - 1) + self.spec_snapshot_width(k - 1)
        }
    }

    proof fn lemma_snapshot_prefix_sum(&self, k: int)
        requires
            self.wf(),
            0 <= k <= self.endpoint_state_index@.len(),
        ensures
            self.spec_snapshot_width_sum(k) == if k < self.endpoint_state_index@.len() {
                self.endpoint_state_index@[k] as int
            } else {
                self.endpoint_states@.len() as int
            },
        decreases k,
    {
        if k > 0 {
            self.lemma_snapshot_prefix_sum(k - 1);
        }
    }

    /// The endpoint-state bytes are exactly the snapshots laid end to end:
    /// their total length equals the sum of the snapshot widths.
    pub proof fn lemma_snapshot_widths_cover_states(&self)
        requires
            self.wf(),
        ensures
            self.spec_snapshot_width_sum(self.endpoint_state_index@.len() as int)
                == self.endpoint_states@.len(),
    {
        self.lemma_snapshot_prefix_sum(self.endpoint_state_index@.len() as int);
    }
}

/// `count` copies of one character.
pub open spec fn seq_repeat(c: char, count: int) -> Seq<char>
    decreases count,
{
    if count <= 0 {
        Seq::empty()
    } else {
        seq_repeat(c, count - 1).push(c)
    }
}

} // verus!
