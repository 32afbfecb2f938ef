//! The streaming decoder: a packet-driven state machine that groups raw
//! packets into transactions and endpoint-level transfers and records the
//! result in the capture store.
//!
//! Two synthetic endpoints always exist: the invalid endpoint gathers
//! malformed packet groups, the framing endpoint gathers start-of-frame
//! runs. A real endpoint is allocated the first time its address and number
//! are seen on the wire.

use vstd::prelude::*;

use crate::CaptureError;
use crate::capture::{Capture, Device, DeviceData, Endpoint, EndpointTraffic, EndpointType,
    TransferIndexEntry};
use crate::usb::{PID, PacketFields, Direction, SetupFields, DeviceDescriptor, Configuration};

verus! {

broadcast use crate::file_vec::lemma_file_vec_len_bound;

/// The id of the synthetic endpoint that gathers malformed packet groups.
pub const INVALID_EP_ID: u64 = 0;

/// The id of the synthetic endpoint that gathers start-of-frame runs.
pub const FRAMING_EP_ID: u64 = 1;

/// The transaction currently being assembled: its first and latest packet
/// identifiers, its packet id span, and the endpoint its token addressed.
#[derive(Copy, Clone, PartialEq, Eq, Structural, Debug)]
pub struct TransactionState {
    pub first: PID,
    pub last: PID,
    pub start: u64,
    pub count: u64,
    pub endpoint_id: u64,
}

/// Per-endpoint transfer-assembly state.
#[derive(Copy, Clone, PartialEq, Eq, Structural, Debug)]
pub struct EndpointData {
    /// A transfer is open on this endpoint.
    pub active: bool,
    /// The open transfer's latest transaction moved data (was acknowledged);
    /// a polling run of negative acknowledgements clears it.
    pub last_success: bool,
    /// The open transfer reads from the device (`IN` tokens).
    pub dir_in: bool,
    /// For a control endpoint: the data-stage direction of the setup stage
    /// seen last; the status stage runs the opposite way.
    pub setup_direction: Option<Direction>,
}

/// The start flags of the transfer entries that concern endpoint `e`, in
/// order.
pub open spec fn ep_entry_flags(s: Seq<TransferIndexEntry>, e: u16) -> Seq<bool>
    decreases s.len(),
{
    if s.len() == 0 {
        Seq::empty()
    } else {
        let rest = ep_entry_flags(s.drop_last(), e);
        if s.last().spec_endpoint_id() == e {
            rest.push(s.last().spec_is_start())
        } else {
            rest
        }
    }
}

/// Start and end entries alternate, a start first.
pub open spec fn alternating(s: Seq<bool>) -> bool {
    forall|i: int| 0 <= i < s.len() ==> (#[trigger] s[i] <==> i % 2 == 0)
}

proof fn lemma_ep_flags_push(s: Seq<TransferIndexEntry>, x: TransferIndexEntry, e: u16)
    ensures
        ep_entry_flags(s.push(x), e) == if x.spec_endpoint_id() == e {
            ep_entry_flags(s, e).push(x.spec_is_start())
        } else {
            ep_entry_flags(s, e)
        },
{
    assert(s.push(x).drop_last() =~= s);
    assert(s.push(x).last() == x);
}

proof fn lemma_ep_flags_len(s: Seq<TransferIndexEntry>, e: u16)
    ensures
        ep_entry_flags(s, e).len() <= s.len(),
    decreases s.len(),
{
    if s.len() > 0 {
        lemma_ep_flags_len(s.drop_last(), e);
    }
}

/// The snapshot taken at one transfer event: one byte per endpoint, the
/// event's endpoint starting or ending, every other endpoint ongoing or
/// idle by its activity flag.
pub open spec fn spec_snapshot_bytes(d: Seq<EndpointData>, e: int, is_start: bool) -> Seq<
    u8,
> {
    Seq::new(d.len(), |i: int| if i == e {
        if is_start {
            1u8
        } else {
            3u8
        }
    } else {
        if d[i].active {
            2u8
        } else {
            0u8
        }
    })
}

/// Appends the snapshot bytes for one transfer event.
fn write_snapshot(states: &mut crate::file_vec::FileVec<u8>,
    endpoint_data: &Vec<EndpointData>, e: u64, is_start: bool)
    ensures
        final(states)@ == old(states)@ + spec_snapshot_bytes(endpoint_data@, e as int,
            is_start),
{
    let n = endpoint_data.len();
    let ghost target = spec_snapshot_bytes(endpoint_data@, e as int, is_start);
    let mut i: usize = 0;
    while i < n
        invariant
            i <= n,
            n == endpoint_data@.len(),
            target == spec_snapshot_bytes(endpoint_data@, e as int, is_start),
            states@ == old(states)@ + target.subrange(0, i as int),
        decreases n - i,
    {
        let b: u8 = if i as u64 == e {
            if is_start {
                1
            } else {
                3
            }
        } else {
            if endpoint_data[i].active {
                2
            } else {
                0
            }
        };
        states.push(b);
        i = i + 1;
        proof {
            assert(target.subrange(0, i as int)
                =~= target.subrange(0, i - 1 as int).push(target[i - 1]));
        }
    }
    proof {
        assert(target.subrange(0, n as int) =~= target);
    }
}


/// The abstract state of one device's learned data.
#[verifier::ext_equal]
pub struct DeviceDataModel {
    pub device_descriptor: Option<DeviceDescriptor>,
    pub configurations: Seq<Option<(crate::usb::ConfigDescriptor,
        Seq<(crate::usb::InterfaceDescriptor, Seq<crate::usb::EndpointDescriptor>)>)>>,
    pub configuration_id: Option<usize>,
    pub endpoint_types: Seq<EndpointType>,
    pub strings: Seq<Option<Seq<u8>>>,
}

/// The mathematical view of one device's record.
pub open spec fn dd_view(d: DeviceData) -> DeviceDataModel {
    DeviceDataModel {
        device_descriptor: d.device_descriptor,
        configurations: d.configurations@.map_values(|c: Option<Configuration>| match c {
            Some(cfg) => Some((cfg.descriptor,
                crate::usb::spec_interfaces_view(cfg.interfaces@))),
            None => None,
        }),
        configuration_id: d.configuration_id,
        endpoint_types: d.endpoint_types@,
        strings: d.strings@.map_values(|s: Option<Vec<u8>>| match s {
            Some(v) => Some(v@),
            None => None,
        }),
    }
}

/// A fresh device record's view.
pub open spec fn dd_fresh() -> DeviceDataModel {
    DeviceDataModel {
        device_descriptor: None,
        configurations: Seq::empty(),
        configuration_id: None,
        endpoint_types: Seq::new(crate::capture::ENDPOINT_NUMBERS as nat,
            |i: int| EndpointType::Unidentified),
        strings: Seq::empty(),
    }
}

/// The decoder's whole state, as mathematical views: what every contract
/// of the step function speaks of.
#[verifier::ext_equal]
pub struct DecoderModel {
    pub packet_data: Seq<u8>,
    pub packet_index: Seq<u64>,
    pub transaction_index: Seq<u64>,
    pub transfer_entries: Seq<TransferIndexEntry>,
    pub item_index: Seq<u64>,
    pub endpoint_states: Seq<u8>,
    pub endpoint_state_index: Seq<u64>,
    pub endpoints: Seq<Endpoint>,
    pub endpoint_tids: Seq<Seq<u64>>,
    pub endpoint_boundaries: Seq<Seq<u64>>,
    pub endpoint_data: Seq<EndpointData>,
    pub devices: Seq<Device>,
    pub device_data: Seq<DeviceDataModel>,
    pub device_ids: Seq<Option<u64>>,
    pub endpoint_ids: Seq<Option<u64>>,
    pub transaction_state: Option<TransactionState>,
}

/// One transfer event on endpoint `e`: the per-endpoint boundary, the
/// global entry and row, the snapshot, and the activity flip.
pub open spec fn spec_event(m: DecoderModel, e: u64, is_start: bool) -> DecoderModel {
    let boundary = m.endpoint_tids[e as int].len() as u64;
    let transfer_id = m.endpoint_boundaries[e as int].len() as u64;
    let entry = crate::capture::spec_entry(transfer_id, e as u16, is_start);
    DecoderModel {
        transfer_entries: m.transfer_entries.push(entry),
        item_index: m.item_index.push(m.transfer_entries.len() as u64),
        endpoint_state_index: m.endpoint_state_index.push(
            m.endpoint_states.len() as u64),
        endpoint_states: m.endpoint_states + spec_snapshot_bytes(m.endpoint_data,
            e as int, is_start),
        endpoint_boundaries: m.endpoint_boundaries.update(e as int,
            m.endpoint_boundaries[e as int].push(boundary)),
        endpoint_data: m.endpoint_data.update(e as int, EndpointData {
            active: is_start,
            ..m.endpoint_data[e as int]
        }),
        ..m
    }
}

/// Appending a closed transaction to an endpoint's transaction list.
pub open spec fn spec_append(m: DecoderModel, e: u64, tid: u64) -> DecoderModel {
    DecoderModel {
        endpoint_tids: m.endpoint_tids.update(e as int,
            m.endpoint_tids[e as int].push(tid)),
        ..m
    }
}

/// The device id an address maps to, allocating a record on first sight.
pub open spec fn spec_device_for(m: DecoderModel, address: u8) -> (DecoderModel, u64) {
    match m.device_ids[address as int] {
        Some(id) => (m, id),
        None => {
            let id = m.devices.len() as u64;
            (DecoderModel {
                devices: m.devices.push(Device { address }),
                device_data: m.device_data.push(dd_fresh()),
                device_ids: m.device_ids.update(address as int, Some(id)),
                ..m
            }, id)
        },
    }
}

/// The endpoint id an address and number map to, allocating on first
/// sight; a full endpoint table routes to the invalid endpoint.
pub open spec fn spec_endpoint_for(m: DecoderModel, address: u8, number: u8)
    -> (DecoderModel, u64) {
    match m.endpoint_ids[address as int * 16 + number as int] {
        Some(id) => (m, id),
        None => if m.endpoints.len() >= 2047 {
            (m, INVALID_EP_ID)
        } else {
            let (m1, device_id) = spec_device_for(m, address);
            let id = m1.endpoints.len() as u64;
            (DecoderModel {
                endpoints: m1.endpoints.push(crate::capture::spec_endpoint(device_id,
                    address, number)),
                endpoint_tids: m1.endpoint_tids.push(Seq::empty()),
                endpoint_boundaries: m1.endpoint_boundaries.push(Seq::empty()),
                endpoint_data: m1.endpoint_data.push(EndpointData {
                    active: false,
                    last_success: false,
                    dir_in: false,
                    setup_direction: None,
                }),
                endpoint_ids: m1.endpoint_ids.update(address as int * 16 + number as int,
                    Some(id)),
                ..m1
            }, id)
        },
    }
}

/// The bytes of packet `id` in the model.
pub open spec fn spec_packet_bytes_m(m: DecoderModel, id: int) -> Seq<u8> {
    let rg = crate::capture::spec_range(m.packet_index, m.packet_data.len() as int, id);
    m.packet_data.subrange(rg.0, rg.1)
}

/// The identifier of packet `id` in the model.
pub open spec fn spec_pid_m(m: DecoderModel, id: int) -> PID {
    crate::usb::spec_packet_pid(spec_packet_bytes_m(m, id))
}

/// The transaction record at `id` in the model, as the store reads it back.
pub open spec fn spec_transaction_m(m: DecoderModel, id: int) -> crate::capture::Transaction {
    let rg = crate::capture::spec_range(m.transaction_index, m.packet_index.len() as int,
        id);
    let pid = spec_pid_m(m, rg.0);
    let payload = if (pid == PID::IN || pid == PID::OUT) && rg.1 - rg.0 >= 2 {
        let brg = crate::capture::spec_range(m.packet_index, m.packet_data.len() as int,
            rg.0 + 1);
        let data_pid = spec_pid_m(m, rg.0 + 1);
        if (data_pid == PID::DATA0 || data_pid == PID::DATA1) && brg.1 - brg.0 >= 3 {
            Some(((brg.0 + 1) as u64, (brg.1 - 2) as u64))
        } else {
            None
        }
    } else {
        None
    };
    crate::capture::Transaction {
        pid,
        packet_id_range: (rg.0 as u64, rg.1 as u64),
        payload_byte_range: payload,
    }
}

/// The data a control transfer carried, in the model.
pub open spec fn spec_control_data_m(m: DecoderModel, tids: Seq<u64>, dir: Direction)
    -> Seq<u8>
    decreases tids.len(),
{
    if tids.len() == 0 {
        Seq::empty()
    } else {
        let rest = spec_control_data_m(m, tids.drop_last(), dir);
        let t = spec_transaction_m(m, tids.last() as int);
        let matching = match (dir, t.pid) {
            (Direction::In, PID::IN) => true,
            (Direction::Out, PID::OUT) => true,
            _ => false,
        };
        match t.payload_byte_range {
            Some(brg) => if matching {
                rest + m.packet_data.subrange(brg.0 as int, brg.1 as int)
            } else {
                rest
            },
            None => rest,
        }
    }
}

/// The setup fields governing the transfer opened by transaction
/// `setup_tid`, in the model.
pub open spec fn spec_setup_of_m(m: DecoderModel, setup_tid: int) -> Option<SetupFields> {
    let setup_packet_id = m.transaction_index[setup_tid] as int;
    if setup_packet_id + 1 < m.packet_index.len() {
        crate::usb::spec_setup_fields(spec_packet_bytes_m(m, setup_packet_id + 1))
    } else {
        None
    }
}

/// A sequence of `None` slots appended until index `v` exists.
pub open spec fn spec_grow<A>(s: Seq<Option<A>>, v: int) -> Seq<Option<A>> {
    if s.len() > v {
        s
    } else {
        s + Seq::new((v + 1 - s.len()) as nat, |i: int| None)
    }
}

/// What a completed standard control request teaches one device record.
pub open spec fn spec_apply_dd(dd: DeviceDataModel, f: SetupFields, data: Seq<u8>)
    -> DeviceDataModel {
    if f.request == 6 {
        let dtype = (f.value / 256) as u8;
        if dtype == 1 {
            match crate::usb::spec_device_descriptor(data) {
                Some(d) => DeviceDataModel { device_descriptor: Some(d), ..dd },
                None => dd,
            }
        } else if dtype == 2 {
            match crate::usb::spec_parse_configuration(data) {
                Some(c) => {
                    let v = c.0.config_value as int;
                    DeviceDataModel {
                        configurations: spec_grow(dd.configurations, v).update(v, Some(c)),
                        ..dd
                    }
                },
                None => dd,
            }
        } else if dtype == 3 {
            let i = (f.value % 256) as int;
            DeviceDataModel { strings: spec_grow(dd.strings, i).update(i, Some(data)), ..dd }
        } else {
            dd
        }
    } else if f.request == 9 {
        let v = f.value as int;
        if v < 256 {
            let grown = spec_grow(dd.configurations, v);
            let types = match grown[v] {
                Some(c) => crate::capture::spec_types_after_interfaces(dd.endpoint_types,
                    c.1),
                None => dd.endpoint_types,
            };
            DeviceDataModel {
                configurations: grown,
                configuration_id: Some(v as usize),
                endpoint_types: types,
                ..dd
            }
        } else {
            dd
        }
    } else {
        dd
    }
}

/// What a completed control transfer teaches the model: an address
/// assignment remaps the bus address, anything else updates the addressed
/// device's record.
pub open spec fn spec_apply_control_m(m: DecoderModel, device_id: u64, f: SetupFields,
    data: Seq<u8>) -> DecoderModel {
    if f.type_fields.spec_kind() != 0 {
        m
    } else if f.request == 5 {
        DecoderModel {
            device_ids: m.device_ids.update((f.value % 128) as int, Some(device_id)),
            ..m
        }
    } else {
        DecoderModel {
            device_data: m.device_data.update(device_id as int,
                spec_apply_dd(m.device_data[device_id as int], f, data)),
            ..m
        }
    }
}

/// Reassembles the control transfer that just closed on endpoint `e` and
/// applies its result.
pub open spec fn spec_apply_result_m(m: DecoderModel, e: u64) -> DecoderModel {
    let bl = m.endpoint_boundaries[e as int];
    if bl.len() < 2 {
        m
    } else {
        let start = bl[bl.len() - 2];
        let end = bl[bl.len() - 1];
        if start >= end {
            m
        } else {
            let ep = m.endpoints[e as int];
            let tids = m.endpoint_tids[e as int].subrange(start as int, end as int);
            match spec_setup_of_m(m, tids[0] as int) {
                Some(f) => spec_apply_control_m(m, ep.spec_device_id(), f,
                    spec_control_data_m(m, tids, f.type_fields.spec_direction())),
                None => m,
            }
        }
    }
}

/// The control-endpoint transfer step for one closed transaction.
pub open spec fn spec_control_update(m: DecoderModel, e: u64, ts: TransactionState,
    tid: u64) -> DecoderModel {
    if ts.first == PID::SETUP {
        let m1 = if m.endpoint_data[e as int].active {
            spec_event(m, e, false)
        } else {
            m
        };
        let m2 = spec_append(spec_event(m1, e, true), e, tid);
        let sd = match crate::usb::spec_setup_fields(spec_packet_bytes_m(m2,
            ts.start as int + 1)) {
            Some(f) => Some(if f.length == 0 {
                Direction::Out
            } else {
                f.type_fields.spec_direction()
            }),
            None => None,
        };
        DecoderModel {
            endpoint_data: m2.endpoint_data.update(e as int, EndpointData {
                setup_direction: sd,
                last_success: true,
                dir_in: false,
                ..m2.endpoint_data[e as int]
            }),
            ..m2
        }
    } else {
        let m1 = if !m.endpoint_data[e as int].active {
            spec_event(m, e, true)
        } else {
            m
        };
        let m2 = spec_append(m1, e, tid);
        let is_status = match m2.endpoint_data[e as int].setup_direction {
            Some(Direction::In) => ts.first == PID::OUT,
            Some(Direction::Out) => ts.first == PID::IN,
            None => false,
        };
        if is_status {
            spec_apply_result_m(spec_event(m2, e, false), e)
        } else {
            m2
        }
    }
}

/// The data-endpoint transfer step for one closed transaction.
pub open spec fn spec_data_update(m: DecoderModel, e: u64, ts: TransactionState, tid: u64)
    -> DecoderModel {
    let dir_in = ts.first == PID::IN;
    let m0 = if m.endpoint_data[e as int].active && m.endpoint_data[e as int].dir_in
        != dir_in {
        spec_event(m, e, false)
    } else {
        m
    };
    if ts.last == PID::STALL {
        let m1 = if m0.endpoint_data[e as int].active {
            spec_event(m0, e, false)
        } else {
            m0
        };
        let m2 = spec_event(spec_append(spec_event(m1, e, true), e, tid), e, false);
        DecoderModel {
            endpoint_data: m2.endpoint_data.update(e as int, EndpointData {
                last_success: false,
                dir_in,
                ..m2.endpoint_data[e as int]
            }),
            ..m2
        }
    } else if ts.last == PID::NAK {
        let m1 = if m0.endpoint_data[e as int].active
            && m0.endpoint_data[e as int].last_success {
            spec_event(m0, e, false)
        } else {
            m0
        };
        let m2 = if !m1.endpoint_data[e as int].active {
            spec_event(m1, e, true)
        } else {
            m1
        };
        let m3 = spec_append(m2, e, tid);
        DecoderModel {
            endpoint_data: m3.endpoint_data.update(e as int, EndpointData {
                last_success: false,
                dir_in,
                ..m3.endpoint_data[e as int]
            }),
            ..m3
        }
    } else {
        let m1 = if m0.endpoint_data[e as int].active
            && !m0.endpoint_data[e as int].last_success {
            spec_event(m0, e, false)
        } else {
            m0
        };
        let m2 = if !m1.endpoint_data[e as int].active {
            spec_event(m1, e, true)
        } else {
            m1
        };
        let m3 = spec_append(m2, e, tid);
        DecoderModel {
            endpoint_data: m3.endpoint_data.update(e as int, EndpointData {
                last_success: true,
                dir_in,
                ..m3.endpoint_data[e as int]
            }),
            ..m3
        }
    }
}

/// Routing one closed transaction: any framing or invalid group another
/// kind of transaction interrupts closes first, then the target endpoint's
/// own step runs.
pub open spec fn spec_transaction_closed(m: DecoderModel, ts: TransactionState,
    complete: bool) -> DecoderModel {
    let tid = (m.transaction_index.len() - 1) as u64;
    let target: u64 = if complete {
        ts.endpoint_id
    } else {
        INVALID_EP_ID
    };
    let m1 = if target != FRAMING_EP_ID
        && m.endpoint_data[FRAMING_EP_ID as int].active {
        spec_event(m, FRAMING_EP_ID, false)
    } else {
        m
    };
    let m2 = if target != INVALID_EP_ID
        && m1.endpoint_data[INVALID_EP_ID as int].active {
        spec_event(m1, INVALID_EP_ID, false)
    } else {
        m1
    };
    if target == FRAMING_EP_ID || target == INVALID_EP_ID {
        let m3 = if !m2.endpoint_data[target as int].active {
            spec_event(m2, target, true)
        } else {
            m2
        };
        spec_append(m3, target, tid)
    } else {
        let number = m2.endpoints[target as int].spec_number();
        if number == 0 || ts.first == PID::SETUP {
            spec_control_update(m2, target, ts, tid)
        } else {
            spec_data_update(m2, target, ts, tid)
        }
    }
}

/// The whole decoder step for one accepted packet: the packet is stored,
/// then the transaction machine runs on it, closing and opening
/// transactions and driving the per-endpoint transfer steps.
pub open spec fn spec_step(m: DecoderModel, packet: Seq<u8>) -> DecoderModel {
    let packet_id = m.packet_index.len() as u64;
    let stored = DecoderModel {
        packet_index: m.packet_index.push(m.packet_data.len() as u64),
        packet_data: m.packet_data + packet,
        transaction_state: None,
        ..m
    };
    let pid = crate::usb::spec_packet_pid(packet);
    match m.transaction_state {
        Some(ts) if spec_can_extend(ts.first, ts.last, ts.count, pid) => {
            let ts2 = TransactionState {
                first: ts.first,
                last: pid,
                start: ts.start,
                count: (ts.count + 1) as u64,
                endpoint_id: ts.endpoint_id,
            };
            if spec_tx_complete(ts2.first, ts2.last, ts2.count) {
                spec_transaction_closed(stored, ts2, true)
            } else {
                DecoderModel { transaction_state: Some(ts2), ..stored }
            }
        },
        _ => {
            let closed = match m.transaction_state {
                Some(ts) => spec_transaction_closed(stored, ts, false),
                None => stored,
            };
            let opened = DecoderModel {
                transaction_index: closed.transaction_index.push(packet_id),
                ..closed
            };
            let (routed, endpoint_id, opener) = if packet.len() >= 3 {
                if pid == PID::SOF {
                    (opened, FRAMING_EP_ID, true)
                } else if pid == PID::SETUP || pid == PID::IN || pid == PID::OUT
                    || pid == PID::PING {
                    match crate::usb::spec_packet_fields(packet) {
                        PacketFields::Token(t) => {
                            let (m2, e) = spec_endpoint_for(opened, t.device_address,
                                t.endpoint_number);
                            (m2, e, true)
                        },
                        _ => (opened, INVALID_EP_ID, false),
                    }
                } else {
                    (opened, INVALID_EP_ID, false)
                }
            } else {
                if pid == PID::SOF {
                    (opened, FRAMING_EP_ID, true)
                } else {
                    (opened, INVALID_EP_ID, false)
                }
            };
            let ts2 = TransactionState {
                first: pid,
                last: pid,
                start: packet_id,
                count: 1,
                endpoint_id,
            };
            if !opener {
                spec_transaction_closed(routed, ts2, false)
            } else if spec_tx_complete(pid, pid, 1) {
                spec_transaction_closed(routed, ts2, true)
            } else {
                DecoderModel { transaction_state: Some(ts2), ..routed }
            }
        },
    }
}

/// The streaming decoder, owning the store it fills.
pub struct Decoder {
    pub capture: Capture,
    /// Device id for each bus address that has one.
    pub device_ids: Vec<Option<u64>>,
    /// Endpoint id for each (address, endpoint number) seen, at index
    /// `address * 16 + number`.
    pub endpoint_ids: Vec<Option<u64>>,
    /// Transfer-assembly state per endpoint id.
    pub endpoint_data: Vec<EndpointData>,
    /// The transaction currently being assembled, if one is open.
    pub transaction_state: Option<TransactionState>,
    /// History of the endpoint count at each snapshot, for stating that
    /// every snapshot is exactly as wide as the endpoint set was then.
    pub snapshot_counts: Ghost<Seq<int>>,
}

impl Decoder {
    /// No endpoint's latest transaction list entry is the current last
    /// transaction: the transaction being assembled is in no list yet.
    pub open spec fn tids_fresh(&self) -> bool {
        forall|e: int| 0 <= e < self.capture.endpoint_traffic@.len() ==> {
            let tids = (#[trigger] self.capture.endpoint_traffic@[e]).transaction_ids@;
            tids.len() == 0 || tids.last() + 1 < self.capture.transaction_index@.len()
        }
    }

    /// The decoder's state as mathematical views.
    pub open spec fn model(&self) -> DecoderModel {
        DecoderModel {
            packet_data: self.capture.packet_data@,
            packet_index: self.capture.packet_index@,
            transaction_index: self.capture.transaction_index@,
            transfer_entries: self.capture.transfer_index@,
            item_index: self.capture.item_index@,
            endpoint_states: self.capture.endpoint_states@,
            endpoint_state_index: self.capture.endpoint_state_index@,
            endpoints: self.capture.endpoints@,
            endpoint_tids: self.capture.endpoint_traffic@.map_values(
                |t: EndpointTraffic| t.transaction_ids@),
            endpoint_boundaries: self.capture.endpoint_traffic@.map_values(
                |t: EndpointTraffic| t.transfer_index@),
            endpoint_data: self.endpoint_data@,
            devices: self.capture.devices@,
            device_data: self.capture.device_data@.map_values(|d: DeviceData| dd_view(d)),
            device_ids: self.device_ids@,
            endpoint_ids: self.endpoint_ids@,
            transaction_state: self.transaction_state,
        }
    }

    /// Structural soundness of the decoder: the store is well formed, the
    /// lookup tables refer into it, the current transaction covers exactly
    /// the packets after the last boundary, each endpoint's entries
    /// alternate start/end in step with its activity flag, and every
    /// snapshot is as wide as the endpoint set was when it was taken.
    pub open spec fn wf(&self) -> bool {
        &&& self.capture.wf()
        &&& self.device_ids@.len() == 128
        &&& forall|a: int| 0 <= a < 128 ==> (#[trigger] self.device_ids@[a] matches Some(id)
            ==> id < self.capture.devices@.len())
        &&& self.endpoint_ids@.len() == 2048
        &&& forall|k: int| 0 <= k < 2048 ==> (#[trigger] self.endpoint_ids@[k] matches Some(
            id) ==> id < self.capture.endpoints@.len())
        &&& self.endpoint_data@.len() == self.capture.endpoints@.len()
        &&& 2 <= self.capture.endpoints@.len() <= 2047
        &&& self.capture.transaction_index@.len() <= self.capture.packet_index@.len()
        &&& self.capture.item_index@.len() == self.capture.transfer_index@.len()
        &&& forall|k: int| 0 <= k < self.capture.item_index@.len()
            ==> #[trigger] self.capture.item_index@[k] == k
        &&& self.snapshot_counts@.len() == self.capture.transfer_index@.len()
        &&& forall|k: int| 0 <= k < self.snapshot_counts@.len()
            ==> #[trigger] self.snapshot_counts@[k] == self.capture.spec_snapshot_width(k)
        &&& forall|k: int| 0 <= k < self.snapshot_counts@.len()
            ==> 2 <= #[trigger] self.snapshot_counts@[k]
                <= self.capture.endpoints@.len()
        &&& match self.transaction_state {
            Some(ts) => {
                &&& 1 <= ts.count <= 2
                &&& ts.start + ts.count == self.capture.packet_index@.len()
                &&& self.capture.transaction_index@.len() > 0
                &&& self.capture.transaction_index@.last() == ts.start
                &&& ts.endpoint_id < self.capture.endpoints@.len()
                &&& self.tids_fresh()
            },
            None => true,
        }
        &&& forall|e: int| 0 <= e < self.capture.endpoints@.len() ==> {
            let traf = #[trigger] self.capture.endpoint_traffic@[e];
            let flags = ep_entry_flags(self.capture.transfer_index@, e as u16);
            &&& (traf.transaction_ids@.len() == 0 || traf.transaction_ids@.len()
                <= traf.transaction_ids@.last() + 1)
            &&& alternating(flags)
            &&& (self.endpoint_data@[e].active <==> flags.len() % 2 == 1)
            &&& traf.transfer_index@.len() == flags.len()
        }
    }

    /// A fresh decoder over an empty store, with the placeholder device and
    /// the two synthetic endpoints already present.
    pub fn new() -> (r: Decoder)
        ensures
            r.wf(),
            r.capture.packet_index@.len() == 0,
            r.capture.packet_data@.len() == 0,
            r.capture.transaction_index@.len() == 0,
            r.capture.transfer_index@.len() == 0,
            r.capture.item_index@.len() == 0,
            r.capture.endpoint_states@.len() == 0,
            r.capture.endpoint_state_index@.len() == 0,
            r.capture.endpoints@.len() == 2,
            r.capture.endpoints@[INVALID_EP_ID as int].spec_device_id() == 0,
            r.capture.endpoints@[INVALID_EP_ID as int].spec_device_address() == 0,
            r.capture.endpoints@[INVALID_EP_ID as int].spec_number()
                == crate::capture::INVALID_NUMBER,
            r.capture.endpoints@[FRAMING_EP_ID as int].spec_device_id() == 0,
            r.capture.endpoints@[FRAMING_EP_ID as int].spec_device_address() == 0,
            r.capture.endpoints@[FRAMING_EP_ID as int].spec_number()
                == crate::capture::FRAMING_NUMBER,
            r.capture.devices@.len() == 1,
            r.capture.devices@[0].address == 0,
            r.capture.device_data@.len() == 1,
            forall|e: int| 0 <= e < 2 ==> {
                let t = #[trigger] r.capture.endpoint_traffic@[e];
                t.transaction_ids@.len() == 0 && t.transfer_index@.len() == 0
            },
            forall|a: int| 0 <= a < 128 ==> #[trigger] r.device_ids@[a] is None,
            forall|k: int| 0 <= k < 2048 ==> #[trigger] r.endpoint_ids@[k] is None,
            forall|e: int| 0 <= e < 2 ==> !(#[trigger] r.endpoint_data@[e]).active,
            r.transaction_state is None,
    {
        let mut capture = Capture::new();
        capture.devices.push(Device { address: 0 });
        capture.device_data.push(DeviceData::new());
        let invalid = Endpoint::new(0, 0, crate::capture::INVALID_NUMBER);
        let framing = Endpoint::new(0, 0, crate::capture::FRAMING_NUMBER);
        capture.endpoints.push(invalid);
        capture.endpoint_traffic.push(EndpointTraffic {
            transaction_ids: crate::hybrid_index::HybridIndex::new(2),
            transfer_index: crate::hybrid_index::HybridIndex::new(2),
        });
        capture.endpoints.push(framing);
        capture.endpoint_traffic.push(EndpointTraffic {
            transaction_ids: crate::hybrid_index::HybridIndex::new(2),
            transfer_index: crate::hybrid_index::HybridIndex::new(2),
        });
        let mut device_ids: Vec<Option<u64>> = Vec::new();
        let mut a: usize = 0;
        while a < 128
            invariant
                a <= 128,
                device_ids@.len() == a,
                forall|i: int| 0 <= i < a ==> #[trigger] device_ids@[i] is None,
            decreases 128 - a,
        {
            device_ids.push(None);
            a = a + 1;
        }
        let mut endpoint_ids: Vec<Option<u64>> = Vec::new();
        let mut k: usize = 0;
        while k < 2048
            invariant
                k <= 2048,
                endpoint_ids@.len() == k,
                forall|i: int| 0 <= i < k ==> #[trigger] endpoint_ids@[i] is None,
            decreases 2048 - k,
        {
            endpoint_ids.push(None);
            k = k + 1;
        }
        let idle = EndpointData {
            active: false,
            last_success: false,
            dir_in: false,
            setup_direction: None,
        };
        let mut endpoint_data: Vec<EndpointData> = Vec::new();
        endpoint_data.push(idle);
        endpoint_data.push(idle);
        let r = Decoder {
            capture,
            device_ids,
            endpoint_ids,
            endpoint_data,
            transaction_state: None,
            snapshot_counts: Ghost(Seq::empty()),
        };
        proof {
            assert forall|e: int| 0 <= e < r.capture.endpoints@.len() implies {
                let traf = #[trigger] r.capture.endpoint_traffic@[e];
                let flags = ep_entry_flags(r.capture.transfer_index@, e as u16);
                &&& (traf.transaction_ids@.len() == 0 || traf.transaction_ids@.len()
                    <= traf.transaction_ids@.last() + 1)
                &&& alternating(flags)
                &&& (r.endpoint_data@[e].active <==> flags.len() % 2 == 1)
                &&& traf.transfer_index@.len() == flags.len()
            } by {
                assert(ep_entry_flags(r.capture.transfer_index@, e as u16)
                    =~= Seq::<bool>::empty());
            }
        }
        r
    }

    /// Hands the finished capture out.
    pub fn into_capture(self) -> (r: Capture)
        ensures
            r == self.capture,
            self.wf() ==> r.wf(),
    {
        self.capture
    }

    /// Appends one transfer entry for endpoint `e` (a start entry opens a
    /// transfer, an end entry closes one), together with its row, its
    /// per-endpoint boundary, and an endpoint-state snapshot.
    fn transfer_event(&mut self, e: u64, is_start: bool)
        requires
            old(self).wf(),
            e < old(self).capture.endpoints@.len(),
            is_start == !old(self).endpoint_data@[e as int].active,
            old(self).capture.transfer_index@.len() < 0x8000000000000,
        ensures
            final(self).wf(),
            final(self).capture.transfer_index@.len()
                == old(self).capture.transfer_index@.len() + 1,
            final(self).capture.transfer_index@
                == old(self).capture.transfer_index@.push(
                    final(self).capture.transfer_index@.last()),
            final(self).capture.transfer_index@.last().spec_endpoint_id() == e as u16,
            final(self).capture.transfer_index@.last().spec_is_start() == is_start,
            final(self).capture.packet_index@ == old(self).capture.packet_index@,
            final(self).capture.packet_data@ == old(self).capture.packet_data@,
            final(self).capture.transaction_index@ == old(self).capture.transaction_index@,
            final(self).capture.devices@ == old(self).capture.devices@,
            final(self).capture.endpoints@ == old(self).capture.endpoints@,
            final(self).device_ids@ == old(self).device_ids@,
            final(self).endpoint_ids@ == old(self).endpoint_ids@,
            final(self).transaction_state == old(self).transaction_state,
            final(self).endpoint_data@.len() == old(self).endpoint_data@.len(),
            final(self).endpoint_data@[e as int].active == is_start,
            forall|i: int| 0 <= i < old(self).endpoint_data@.len() && i != e
                ==> final(self).endpoint_data@[i] == old(self).endpoint_data@[i],
            final(self).endpoint_data@[e as int].last_success
                == old(self).endpoint_data@[e as int].last_success,
            final(self).endpoint_data@[e as int].dir_in
                == old(self).endpoint_data@[e as int].dir_in,
            final(self).endpoint_data@[e as int].setup_direction
                == old(self).endpoint_data@[e as int].setup_direction,
            forall|i: int| 0 <= i < old(self).capture.endpoint_traffic@.len()
                ==> (#[trigger] final(self).capture.endpoint_traffic@[i]).transaction_ids@
                    == old(self).capture.endpoint_traffic@[i].transaction_ids@,
            final(self).model() == spec_event(old(self).model(), e, is_start),
    {
        let e_us = e as usize;
        proof {
            lemma_ep_flags_len(self.capture.transfer_index@, e as u16);
        }
        // Per-endpoint boundary: where in its transaction list this event
        // falls.
        let boundary = self.capture.endpoint_traffic[e_us].transaction_ids.len();
        let transfer_id = self.capture.endpoint_traffic[e_us].transfer_index.len();
        proof {
            let traf = self.capture.endpoint_traffic@[e as int];
            if traf.transfer_index@.len() > 0 {
                assert(traf.transfer_index@[traf.transfer_index@.len() - 1]
                    <= traf.transaction_ids@.len());
            }
            traf.transfer_index.lemma_len_bound();
        }
        let traf = &mut self.capture.endpoint_traffic[e_us];
        traf.transfer_index.push(boundary);
        let entry = TransferIndexEntry::new(transfer_id, e as u16, is_start);
        let row = self.capture.transfer_index.len();
        self.capture.item_index.push(row);
        self.capture.transfer_index.push(entry);
        // The snapshot: one state byte per endpoint known now.
        let n_eps = self.capture.endpoints.len();
        let offset = self.capture.endpoint_states.len();
        self.capture.endpoint_state_index.push(offset);
        write_snapshot(&mut self.capture.endpoint_states, &self.endpoint_data, e, is_start);
        let mut d = self.endpoint_data[e_us];
        d.active = is_start;
        self.endpoint_data[e_us] = d;
        proof {
            self.snapshot_counts@ = self.snapshot_counts@.push(n_eps as int);
        }
        proof {
            let old_entries = old(self).capture.transfer_index@;
            let new_entries = self.capture.transfer_index@;
            assert(new_entries == old_entries.push(entry));
            lemma_ep_flags_push(old_entries, entry, e as u16);
            assert forall|e2: int| 0 <= e2 < self.capture.endpoints@.len() implies {
                let traf2 = #[trigger] self.capture.endpoint_traffic@[e2];
                let flags2 = ep_entry_flags(new_entries, e2 as u16);
                &&& (traf2.transaction_ids@.len() == 0 || traf2.transaction_ids@.len()
                    <= traf2.transaction_ids@.last() + 1)
                &&& alternating(flags2)
                &&& (self.endpoint_data@[e2].active <==> flags2.len() % 2 == 1)
                &&& traf2.transfer_index@.len() == flags2.len()
            } by {
                lemma_ep_flags_push(old_entries, entry, e2 as u16);
                let old_flags = ep_entry_flags(old_entries, e2 as u16);
                if e2 == e as int {
                    assert(ep_entry_flags(new_entries, e2 as u16)
                        == old_flags.push(is_start));
                } else {
                    assert(self.capture.endpoint_traffic@[e2]
                        == old(self).capture.endpoint_traffic@[e2]);
                }
            }
            assert forall|k: int| 0 <= k < self.snapshot_counts@.len()
                implies #[trigger] self.snapshot_counts@[k]
                    == self.capture.spec_snapshot_width(k) by {
                if k < old(self).snapshot_counts@.len() {
                    assert(old(self).snapshot_counts@[k]
                        == old(self).capture.spec_snapshot_width(k));
                    assert(self.capture.endpoint_state_index@[k]
                        == old(self).capture.endpoint_state_index@[k]);
                }
            }
            assert forall|k: int| 0 <= k < self.capture.transfer_index@.len() implies {
                let en = #[trigger] self.capture.transfer_index@[k];
                &&& (en.spec_endpoint_id() as int) < self.capture.endpoints@.len()
                &&& (en.spec_transfer_id() as int) < self.capture.endpoint_traffic@[
                    en.spec_endpoint_id() as int].transfer_index@.len()
            } by {
                if k < old_entries.len() {
                    assert(old_entries[k] == new_entries[k]);
                    let en = old_entries[k];
                    assert((en.spec_endpoint_id() as int) < self.capture.endpoints@.len());
                    assert(old(self).capture.endpoint_traffic@[
                        en.spec_endpoint_id() as int].transfer_index@.len()
                        <= self.capture.endpoint_traffic@[
                            en.spec_endpoint_id() as int].transfer_index@.len());
                }
            }
            assert forall|k: int| 0 <= k < self.capture.item_index@.len()
                implies #[trigger] self.capture.item_index@[k] == k by {
                if k < old(self).capture.item_index@.len() {
                    assert(old(self).capture.item_index@[k] == k);
                }
            }
            assert(crate::capture::bounded_by(self.capture.item_index@,
                self.capture.transfer_index@.len() as int)) by {
                assert forall|k: int| 0 <= k < self.capture.item_index@.len()
                    implies #[trigger] self.capture.item_index@[k]
                        < self.capture.transfer_index@.len() by {
                    if k < old(self).capture.item_index@.len() {
                        assert(old(self).capture.item_index@[k]
                            < old(self).capture.transfer_index@.len());
                    }
                }
            }
            let old_esi = old(self).capture.endpoint_state_index@;
            let new_esi = self.capture.endpoint_state_index@;
            let old_states_len = old(self).capture.endpoint_states@.len() as int;
            let new_states_len = self.capture.endpoint_states@.len() as int;
            assert(new_states_len == old_states_len + n_eps);
            assert(crate::capture::bounded_by(new_esi, new_states_len)) by {
                assert forall|k: int| 0 <= k < new_esi.len()
                    implies #[trigger] new_esi[k] < new_states_len by {
                    if k < old_esi.len() {
                        assert(old_esi[k] < old_states_len);
                    }
                }
            }
            assert(crate::capture::strictly_bounded(new_esi, new_states_len)) by {
                assert forall|k: int| 0 <= k < new_esi.len()
                    implies (#[trigger] crate::capture::spec_range(new_esi, new_states_len,
                        k)).0 < crate::capture::spec_range(new_esi, new_states_len, k).1 by {
                    if k + 1 < old_esi.len() {
                        assert(crate::capture::spec_range(old_esi, old_states_len, k).0
                            < crate::capture::spec_range(old_esi, old_states_len, k).1);
                    } else if k + 1 == old_esi.len() {
                        assert(crate::capture::spec_range(old_esi, old_states_len, k).0
                            < crate::capture::spec_range(old_esi, old_states_len, k).1);
                        assert(new_esi[k + 1] == old_states_len);
                    }
                }
            }
            assert forall|k: int| 0 <= k < self.snapshot_counts@.len()
                implies 2 <= #[trigger] self.snapshot_counts@[k]
                    <= self.capture.endpoints@.len() by {
                if k < old(self).snapshot_counts@.len() {
                    assert(old(self).snapshot_counts@[k]
                        == self.snapshot_counts@[k]);
                }
            }
            assert(self.model() =~~= spec_event(old(self).model(), e, is_start));
        }
    }

    /// Appends the closed transaction `tid` to endpoint `e`'s transaction
    /// list.
    fn append_tid(&mut self, e: u64, tid: u64)
        requires
            old(self).wf(),
            old(self).transaction_state is None,
            e < old(self).capture.endpoints@.len(),
            old(self).capture.transaction_index@.len() > 0,
            tid == old(self).capture.transaction_index@.len() - 1,
            old(self).tids_fresh(),
        ensures
            final(self).wf(),
            final(self).capture.transfer_index@ == old(self).capture.transfer_index@,
            final(self).capture.packet_index@ == old(self).capture.packet_index@,
            final(self).capture.packet_data@ == old(self).capture.packet_data@,
            final(self).capture.transaction_index@ == old(self).capture.transaction_index@,
            final(self).capture.devices@ == old(self).capture.devices@,
            final(self).capture.endpoints@ == old(self).capture.endpoints@,
            final(self).device_ids@ == old(self).device_ids@,
            final(self).endpoint_ids@ == old(self).endpoint_ids@,
            final(self).endpoint_data@ == old(self).endpoint_data@,
            final(self).transaction_state == old(self).transaction_state,
            final(self).snapshot_counts@ == old(self).snapshot_counts@,
            final(self).capture.endpoint_traffic@[e as int].transaction_ids@
                == old(self).capture.endpoint_traffic@[e as int].transaction_ids@.push(tid),
            forall|i: int| 0 <= i < old(self).capture.endpoint_traffic@.len() && i != e
                ==> final(self).capture.endpoint_traffic@[i]
                    == old(self).capture.endpoint_traffic@[i],
            final(self).model() == spec_append(old(self).model(), e, tid),
    {
        let e_us = e as usize;
        proof {
            let traf = self.capture.endpoint_traffic@[e as int];
            traf.transaction_ids.lemma_len_bound();
            self.capture.transaction_index.lemma_len_bound();
            if traf.transaction_ids@.len() > 0 {
                assert(traf.transaction_ids@.last() + 1
                    < self.capture.transaction_index@.len());
            }
        }
        let traf = &mut self.capture.endpoint_traffic[e_us];
        traf.transaction_ids.push(tid);
        proof {
            let old_traf = old(self).capture.endpoint_traffic@;
            let new_traf = self.capture.endpoint_traffic@;
            assert forall|e2: int| 0 <= e2 < self.capture.endpoints@.len() implies {
                let traf2 = #[trigger] self.capture.endpoint_traffic@[e2];
                let flags2 = ep_entry_flags(self.capture.transfer_index@, e2 as u16);
                &&& (traf2.transaction_ids@.len() == 0 || traf2.transaction_ids@.len()
                    <= traf2.transaction_ids@.last() + 1)
                &&& alternating(flags2)
                &&& (self.endpoint_data@[e2].active <==> flags2.len() % 2 == 1)
                &&& traf2.transfer_index@.len() == flags2.len()
            } by {
                if e2 != e {
                    assert(new_traf[e2] == old_traf[e2]);
                } else {
                    let old_tids = old_traf[e2].transaction_ids@;
                    if old_tids.len() > 0 {
                        assert(old_tids.len() <= old_tids.last() + 1);
                        assert(old_tids.last() + 1
                            < self.capture.transaction_index@.len());
                    }
                }
            }
            assert forall|e2: int| 0 <= e2 < self.capture.endpoint_traffic@.len() implies {
                let t = #[trigger] self.capture.endpoint_traffic@[e2];
                &&& t.transaction_ids.wf()
                &&& t.transfer_index.wf()
                &&& crate::capture::bounded_by(t.transaction_ids@,
                    self.capture.transaction_index@.len() as int)
                &&& forall|i: int| 0 <= i < t.transfer_index@.len()
                    ==> #[trigger] t.transfer_index@[i] <= t.transaction_ids@.len()
            } by {
                if e2 != e {
                    assert(new_traf[e2] == old_traf[e2]);
                } else {
                    let t = new_traf[e2];
                    let ot = old_traf[e2];
                    assert(crate::capture::bounded_by(t.transaction_ids@,
                        self.capture.transaction_index@.len() as int)) by {
                        assert forall|i: int| 0 <= i < t.transaction_ids@.len()
                            implies #[trigger] t.transaction_ids@[i]
                                < self.capture.transaction_index@.len() as int by {
                            if i < ot.transaction_ids@.len() {
                                assert(ot.transaction_ids@[i]
                                    < self.capture.transaction_index@.len());
                            }
                        }
                    }
                    assert forall|i: int| 0 <= i < t.transfer_index@.len()
                        implies #[trigger] t.transfer_index@[i]
                            <= t.transaction_ids@.len() by {
                        assert(ot.transfer_index@[i] <= ot.transaction_ids@.len());
                    }
                }
            }
            assert forall|k: int| 0 <= k < self.capture.transfer_index@.len() implies {
                let en = #[trigger] self.capture.transfer_index@[k];
                &&& (en.spec_endpoint_id() as int) < self.capture.endpoints@.len()
                &&& (en.spec_transfer_id() as int) < self.capture.endpoint_traffic@[
                    en.spec_endpoint_id() as int].transfer_index@.len()
            } by {
                let en = self.capture.transfer_index@[k];
                assert((en.spec_transfer_id() as int) < old_traf[
                    en.spec_endpoint_id() as int].transfer_index@.len());
                assert(new_traf[en.spec_endpoint_id() as int].transfer_index@
                    == old_traf[en.spec_endpoint_id() as int].transfer_index@);
            }
            assert(self.model() =~~= spec_append(old(self).model(), e, tid));
        }
    }
}

/// Whether `next` extends an open transaction in state `(first, last,
/// count)`: the data stage after a token, or the handshake after data.
pub open spec fn spec_can_extend(first: PID, last: PID, count: u64, next: PID) -> bool {
    ||| (first == PID::SETUP && last == PID::SETUP && count == 1 && next == PID::DATA0)
    ||| (first == PID::SETUP && last == PID::DATA0 && count == 2 && next == PID::ACK)
    ||| (first == PID::IN && last == PID::IN && count == 1 && (next == PID::DATA0
        || next == PID::DATA1 || next == PID::NAK || next == PID::STALL))
    ||| (first == PID::IN && (last == PID::DATA0 || last == PID::DATA1) && count == 2
        && (next == PID::ACK || next == PID::NAK || next == PID::STALL))
    ||| (first == PID::OUT && last == PID::OUT && count == 1 && (next == PID::DATA0
        || next == PID::DATA1))
    ||| (first == PID::OUT && (last == PID::DATA0 || last == PID::DATA1) && count == 2
        && (next == PID::ACK || next == PID::NAK || next == PID::STALL))
    ||| (first == PID::PING && last == PID::PING && count == 1 && (next == PID::ACK
        || next == PID::NAK || next == PID::STALL))
}

/// Whether a transaction in state `(first, last, count)` has reached an
/// acceptable end: a lone start-of-frame, a full setup stage, or a data
/// stage answered by a handshake.
pub open spec fn spec_tx_complete(first: PID, last: PID, count: u64) -> bool {
    ||| (first == PID::SOF && count == 1)
    ||| (first == PID::SETUP && last == PID::ACK && count == 3)
    ||| (first == PID::IN && (last == PID::NAK || last == PID::STALL) && count == 2)
    ||| (first == PID::IN && (last == PID::ACK || last == PID::NAK || last == PID::STALL)
        && count == 3)
    ||| (first == PID::OUT && (last == PID::ACK || last == PID::NAK || last == PID::STALL)
        && count == 3)
    ||| (first == PID::PING && (last == PID::ACK || last == PID::NAK || last == PID::STALL)
        && count == 2)
}

/// Whether `pid` may open a transaction.
pub open spec fn spec_tx_opener(pid: PID) -> bool {
    pid == PID::SOF || pid == PID::SETUP || pid == PID::IN || pid == PID::OUT
        || pid == PID::PING
}

fn can_extend(first: PID, last: PID, count: u64, next: PID) -> (r: bool)
    ensures
        r == spec_can_extend(first, last, count, next),
{
    match (first, last, next) {
        (PID::SETUP, PID::SETUP, PID::DATA0) => count == 1,
        (PID::SETUP, PID::DATA0, PID::ACK) => count == 2,
        (PID::IN, PID::IN, PID::DATA0 | PID::DATA1 | PID::NAK | PID::STALL) => count == 1,
        (PID::IN, PID::DATA0 | PID::DATA1, PID::ACK | PID::NAK | PID::STALL) => count == 2,
        (PID::OUT, PID::OUT, PID::DATA0 | PID::DATA1) => count == 1,
        (PID::OUT, PID::DATA0 | PID::DATA1, PID::ACK | PID::NAK | PID::STALL) => count == 2,
        (PID::PING, PID::PING, PID::ACK | PID::NAK | PID::STALL) => count == 1,
        _ => false,
    }
}

fn tx_complete(first: PID, last: PID, count: u64) -> (r: bool)
    ensures
        r == spec_tx_complete(first, last, count),
{
    match (first, last) {
        (PID::SOF, _) => count == 1,
        (PID::SETUP, PID::ACK) => count == 3,
        (PID::IN, PID::NAK | PID::STALL) => count == 2 || count == 3,
        (PID::IN, PID::ACK) => count == 3,
        (PID::OUT, PID::ACK | PID::NAK | PID::STALL) => count == 3,
        (PID::PING, PID::ACK | PID::NAK | PID::STALL) => count == 2,
        _ => false,
    }
}

impl Decoder {
    /// The device id for a bus address, allocated on first sight.
    fn device_for(&mut self, address: u8) -> (r: u64)
        requires
            old(self).wf(),
            address < 128,
            old(self).capture.devices@.len() < 0x4000000000000,
        ensures
            final(self).wf(),
            r < final(self).capture.devices@.len(),
            old(self).capture.devices@.is_prefix_of(final(self).capture.devices@),
            final(self).capture.devices@.len() <= old(self).capture.devices@.len() + 1,
            final(self).capture.packet_index@ == old(self).capture.packet_index@,
            final(self).capture.packet_data@ == old(self).capture.packet_data@,
            final(self).capture.transaction_index@ == old(self).capture.transaction_index@,
            final(self).capture.transfer_index@ == old(self).capture.transfer_index@,
            final(self).capture.item_index@ == old(self).capture.item_index@,
            final(self).capture.endpoints@ == old(self).capture.endpoints@,
            final(self).capture.endpoint_traffic@ == old(self).capture.endpoint_traffic@,
            final(self).capture.endpoint_states@ == old(self).capture.endpoint_states@,
            final(self).capture.endpoint_state_index@
                == old(self).capture.endpoint_state_index@,
            final(self).endpoint_data@ == old(self).endpoint_data@,
            final(self).endpoint_ids@ == old(self).endpoint_ids@,
            final(self).transaction_state == old(self).transaction_state,
            final(self).snapshot_counts@ == old(self).snapshot_counts@,
            final(self).model() == spec_device_for(old(self).model(), address).0,
            r == spec_device_for(old(self).model(), address).1,
    {
        match self.device_ids[address as usize] {
            Some(id) => id,
            None => {
                let id = self.capture.devices.len();
                self.capture.devices.push(Device { address });
                self.capture.device_data.push(DeviceData::new());
                self.device_ids[address as usize] = Some(id);
                proof {
                    assert forall|d: int| 0 <= d < self.capture.device_data@.len()
                        implies (#[trigger] self.capture.device_data@[d]).wf() by {
                        if d < old(self).capture.device_data@.len() {
                            assert(old(self).capture.device_data@[d].wf());
                        }
                    }
                    assert forall|e: int| 0 <= e < self.capture.endpoints@.len() implies {
                        let ep = #[trigger] self.capture.endpoints@[e];
                        &&& (ep.spec_device_id() as int) < self.capture.devices@.len()
                        &&& ((ep.spec_number() as usize) < crate::capture::ENDPOINT_NUMBERS
                            || ep.spec_number() == crate::capture::FRAMING_NUMBER
                            || ep.spec_number() == crate::capture::INVALID_NUMBER)
                    } by {
                        assert((old(self).capture.endpoints@[e].spec_device_id() as int)
                            < old(self).capture.devices@.len());
                    }
                    assert(dd_view(self.capture.device_data@.last()) =~~= dd_fresh());
                    assert(self.model() =~~= spec_device_for(old(self).model(),
                        address).0);
                }
                id
            },
        }
    }

    /// The endpoint id for an address and endpoint number, allocated on
    /// first sight; when the endpoint table is full, traffic goes to the
    /// invalid endpoint.
    fn endpoint_for(&mut self, address: u8, number: u8) -> (r: u64)
        requires
            old(self).wf(),
            address < 128,
            number < 16,
            old(self).capture.devices@.len() < 0x4000000000000,
        ensures
            final(self).wf(),
            r < final(self).capture.endpoints@.len(),
            old(self).capture.endpoints@.is_prefix_of(final(self).capture.endpoints@),
            final(self).capture.endpoints@.len() <= old(self).capture.endpoints@.len() + 1,
            old(self).capture.devices@.is_prefix_of(final(self).capture.devices@),
            final(self).capture.devices@.len() <= old(self).capture.devices@.len() + 1,
            final(self).capture.packet_index@ == old(self).capture.packet_index@,
            final(self).capture.packet_data@ == old(self).capture.packet_data@,
            final(self).capture.transaction_index@ == old(self).capture.transaction_index@,
            final(self).capture.transfer_index@ == old(self).capture.transfer_index@,
            final(self).capture.item_index@ == old(self).capture.item_index@,
            final(self).capture.endpoint_states@ == old(self).capture.endpoint_states@,
            final(self).capture.endpoint_state_index@
                == old(self).capture.endpoint_state_index@,
            final(self).transaction_state == old(self).transaction_state,
            final(self).snapshot_counts@ == old(self).snapshot_counts@,
            old(self).tids_fresh() ==> final(self).tids_fresh(),
            forall|i: int| 0 <= i < old(self).capture.endpoint_traffic@.len()
                ==> #[trigger] final(self).capture.endpoint_traffic@[i]
                    == old(self).capture.endpoint_traffic@[i],
            forall|i: int| 0 <= i < old(self).endpoint_data@.len()
                ==> #[trigger] final(self).endpoint_data@[i]
                    == old(self).endpoint_data@[i],
            final(self).model() == spec_endpoint_for(old(self).model(), address, number).0,
            r == spec_endpoint_for(old(self).model(), address, number).1,
    {
        let key = address as usize * 16 + number as usize;
        match self.endpoint_ids[key] {
            Some(id) => id,
            None => {
                let count = self.capture.endpoints.len();
                if count >= 2047 {
                    // The endpoint table is full: classify under the
                    // invalid endpoint.
                    return INVALID_EP_ID;
                }
                let device_id = self.device_for(address);
                let id = self.capture.endpoints.len();
                let ep = Endpoint::new(device_id, address, number);
                self.capture.endpoints.push(ep);
                self.capture.endpoint_traffic.push(EndpointTraffic {
                    transaction_ids: crate::hybrid_index::HybridIndex::new(2),
                    transfer_index: crate::hybrid_index::HybridIndex::new(2),
                });
                self.endpoint_data.push(EndpointData {
                    active: false,
                    last_success: false,
                    dir_in: false,
                    setup_direction: None,
                });
                self.endpoint_ids[key] = Some(id);
                proof {
                    let ghost mid = self;
                    assert forall|e: int| 0 <= e < self.capture.endpoints@.len() implies {
                        let ep2 = #[trigger] self.capture.endpoints@[e];
                        &&& (ep2.spec_device_id() as int) < self.capture.devices@.len()
                        &&& ((ep2.spec_number() as usize)
                            < crate::capture::ENDPOINT_NUMBERS
                            || ep2.spec_number() == crate::capture::FRAMING_NUMBER
                            || ep2.spec_number() == crate::capture::INVALID_NUMBER)
                    } by {
                        if e < self.capture.endpoints@.len() - 1 {
                            assert(self.capture.endpoints@[e]
                                == old(self).capture.endpoints@[e]);
                        }
                    }
                    assert forall|e: int| 0 <= e < self.capture.endpoints@.len() implies {
                        let traf = #[trigger] self.capture.endpoint_traffic@[e];
                        let flags = ep_entry_flags(self.capture.transfer_index@, e as u16);
                        &&& (traf.transaction_ids@.len() == 0 || traf.transaction_ids@.len()
                            <= traf.transaction_ids@.last() + 1)
                        &&& alternating(flags)
                        &&& (self.endpoint_data@[e].active <==> flags.len() % 2 == 1)
                        &&& traf.transfer_index@.len() == flags.len()
                    } by {
                        if e < self.capture.endpoints@.len() - 1 {
                            assert(self.capture.endpoint_traffic@[e]
                                == old(self).capture.endpoint_traffic@[e]);
                            assert(self.endpoint_data@[e] == old(self).endpoint_data@[e]);
                        } else {
                            lemma_ep_flags_of_fresh(self.capture.transfer_index@, e as u16);
                        }
                    }
                    assert forall|e: int| 0 <= e < self.capture.endpoint_traffic@.len()
                        implies {
                        let t = #[trigger] self.capture.endpoint_traffic@[e];
                        &&& t.transaction_ids.wf()
                        &&& t.transfer_index.wf()
                        &&& crate::capture::bounded_by(t.transaction_ids@,
                            self.capture.transaction_index@.len() as int)
                        &&& forall|i: int| 0 <= i < t.transfer_index@.len()
                            ==> #[trigger] t.transfer_index@[i] <= t.transaction_ids@.len()
                    } by {
                        if e < self.capture.endpoint_traffic@.len() - 1 {
                            assert(self.capture.endpoint_traffic@[e]
                                == old(self).capture.endpoint_traffic@[e]);
                        }
                    }
                    assert(self.model() =~~= spec_endpoint_for(old(self).model(), address,
                        number).0);
                }
                id
            },
        }
    }
}

/// Grows a device's configuration slots so that `v` is a valid index.
fn grow_configurations(dd: &mut DeviceData, v: usize)
    requires
        old(dd).wf(),
        v < 256,
    ensures
        final(dd).wf(),
        final(dd).configurations@.len() > v,
        final(dd).endpoint_types@ == old(dd).endpoint_types@,
        old(dd).configurations@.is_prefix_of(final(dd).configurations@),
        final(dd).configurations@ == spec_grow(old(dd).configurations@, v as int),
        final(dd).configuration_id == old(dd).configuration_id,
        final(dd).device_descriptor == old(dd).device_descriptor,
        final(dd).strings@ == old(dd).strings@,
{
    while dd.configurations.len() <= v
        invariant
            dd.wf(),
            v < 256,
            dd.endpoint_types@ == old(dd).endpoint_types@,
            old(dd).configurations@.is_prefix_of(dd.configurations@),
            forall|i: int| old(dd).configurations@.len() <= i < dd.configurations@.len()
                ==> (#[trigger] dd.configurations@[i]) is None,
            old(dd).configurations@.len() > v
                ==> dd.configurations@.len() == old(dd).configurations@.len(),
            old(dd).configurations@.len() <= v ==> dd.configurations@.len() <= v + 1,
            dd.configuration_id == old(dd).configuration_id,
            dd.device_descriptor == old(dd).device_descriptor,
            dd.strings@ == old(dd).strings@,
        decreases v + 1 - dd.configurations@.len(),
    {
        dd.configurations.push(None);
    }
    proof {
        assert(dd.configurations@ =~= spec_grow(old(dd).configurations@, v as int));
    }
}

/// Grows a device's string-descriptor slots so that `i` is a valid index.
fn grow_strings(dd: &mut DeviceData, i: usize)
    requires
        old(dd).wf(),
        i < 256,
    ensures
        final(dd).wf(),
        final(dd).strings@.len() > i,
        final(dd).endpoint_types@ == old(dd).endpoint_types@,
        final(dd).configurations@ == old(dd).configurations@,
        final(dd).configuration_id == old(dd).configuration_id,
        final(dd).device_descriptor == old(dd).device_descriptor,
        old(dd).strings@.is_prefix_of(final(dd).strings@),
        final(dd).strings@ == spec_grow(old(dd).strings@, i as int),
{
    while dd.strings.len() <= i
        invariant
            dd.wf(),
            i < 256,
            dd.endpoint_types@ == old(dd).endpoint_types@,
            dd.configurations@ == old(dd).configurations@,
            dd.configuration_id == old(dd).configuration_id,
            dd.device_descriptor == old(dd).device_descriptor,
            old(dd).strings@.is_prefix_of(dd.strings@),
            forall|x: int| old(dd).strings@.len() <= x < dd.strings@.len()
                ==> (#[trigger] dd.strings@[x]) is None,
            old(dd).strings@.len() > i ==> dd.strings@.len() == old(dd).strings@.len(),
            old(dd).strings@.len() <= i ==> dd.strings@.len() <= i + 1,
        decreases i + 1 - dd.strings@.len(),
    {
        dd.strings.push(None);
    }
    proof {
        assert(dd.strings@ =~= spec_grow(old(dd).strings@, i as int));
    }
}

proof fn lemma_reassembly_matches(d: &Decoder, tids: Seq<u64>, dir: Direction)
    ensures
        spec_control_data_m(d.model(), tids, dir) == d.capture.spec_control_data(tids,
            dir),
    decreases tids.len(),
{
    if tids.len() > 0 {
        lemma_reassembly_matches(d, tids.drop_last(), dir);
        assert(spec_transaction_m(d.model(), tids.last() as int)
            == d.capture.spec_transaction(tids.last() as int));
    }
}

impl Decoder {
    /// Applies what a completed control transfer teaches about its device:
    /// a descriptor read is parsed and cached, an address assignment remaps
    /// the bus address, a configuration selection fixes the endpoint types.
    fn apply_control(&mut self, device_id: u64, ct: crate::usb::ControlTransfer)
        requires
            old(self).wf(),
            device_id < old(self).capture.devices@.len(),
        ensures
            final(self).wf(),
            final(self).capture.packet_index@ == old(self).capture.packet_index@,
            final(self).capture.packet_data@ == old(self).capture.packet_data@,
            final(self).capture.transaction_index@ == old(self).capture.transaction_index@,
            final(self).capture.transfer_index@ == old(self).capture.transfer_index@,
            final(self).capture.item_index@ == old(self).capture.item_index@,
            final(self).capture.devices@ == old(self).capture.devices@,
            final(self).capture.endpoints@ == old(self).capture.endpoints@,
            final(self).capture.endpoint_traffic@ == old(self).capture.endpoint_traffic@,
            final(self).capture.endpoint_states@ == old(self).capture.endpoint_states@,
            final(self).capture.endpoint_state_index@
                == old(self).capture.endpoint_state_index@,
            final(self).endpoint_data@ == old(self).endpoint_data@,
            final(self).transaction_state == old(self).transaction_state,
            final(self).snapshot_counts@ == old(self).snapshot_counts@,
            final(self).model() == spec_apply_control_m(old(self).model(), device_id,
                ct.fields, ct.data@),
    {
        if ct.fields.type_fields.kind() != 0 {
            return ;
        }
        let dev = device_id as usize;
        if ct.fields.request == 5 {
            // SET_ADDRESS: the device moves to the requested address; the
            // record keeps its identity through the map.
            let a = (ct.fields.value % 128) as usize;
            self.device_ids[a] = Some(device_id);
            proof {
                assert forall|x: int| 0 <= x < 128 implies (
                    #[trigger] self.device_ids@[x] matches Some(id)
                        ==> id < self.capture.devices@.len()) by {
                    if x != a {
                        assert(self.device_ids@[x] == old(self).device_ids@[x]);
                    }
                }
            }
        } else if ct.fields.request == 6 {
            // GET_DESCRIPTOR: cache what was read back.
            let dtype = (ct.fields.value / 256) as u8;
            if dtype == 1 {
                match DeviceDescriptor::from_bytes(ct.data.as_slice()) {
                    Some(d) => {
                        let dd = &mut self.capture.device_data[dev];
                        dd.device_descriptor = Some(d);
                    },
                    None => {},
                }
            } else if dtype == 2 {
                match Configuration::from_bytes(ct.data.as_slice()) {
                    Some(c) => {
                        let v = c.descriptor.config_value as usize;
                        let dd = &mut self.capture.device_data[dev];
                        grow_configurations(dd, v);
                        dd.configurations[v] = Some(c);
                        proof {
                            let old_dd = old(self).capture.device_data@[dev as int];
                            let new_dd = self.capture.device_data@[dev as int];
                            let target = spec_apply_dd(dd_view(old_dd), ct.fields,
                                ct.data@);
                            assert forall|x: int| 0 <= x
                                < dd_view(new_dd).configurations.len()
                                implies dd_view(new_dd).configurations[x]
                                    == target.configurations[x] by {
                                if x != v {
                                    if x < old_dd.configurations@.len() {
                                        assert(new_dd.configurations@[x]
                                            == old_dd.configurations@[x]);
                                    } else {
                                        assert(new_dd.configurations@[x] is None);
                                    }
                                }
                            }
                            assert(dd_view(new_dd).configurations
                                =~= target.configurations);
                        }
                    },
                    None => {},
                }
            } else if dtype == 3 {
                let i = (ct.fields.value % 256) as usize;
                let dd = &mut self.capture.device_data[dev];
                grow_strings(dd, i);
                dd.strings[i] = Some(ct.data);
                proof {
                    let old_dd = old(self).capture.device_data@[dev as int];
                    let new_dd = self.capture.device_data@[dev as int];
                    let target = spec_apply_dd(dd_view(old_dd), ct.fields, ct.data@);
                    assert forall|x: int| 0 <= x < dd_view(new_dd).strings.len()
                        implies dd_view(new_dd).strings[x] == target.strings[x] by {
                        if x != i {
                            if x < old_dd.strings@.len() {
                                assert(new_dd.strings@[x] == old_dd.strings@[x]);
                            } else {
                                assert(new_dd.strings@[x] is None);
                            }
                        }
                    }
                    assert(dd_view(new_dd).strings =~= target.strings);
                }
            }
        } else if ct.fields.request == 9 {
            // SET_CONFIGURATION: select it and rederive endpoint types.
            let v = ct.fields.value as usize;
            if v < 256 {
                let dd = &mut self.capture.device_data[dev];
                grow_configurations(dd, v);
                dd.configuration_id = Some(v);
                dd.update_endpoint_types();
                proof {
                    let old_dd = old(self).capture.device_data@[dev as int];
                    let new_dd = self.capture.device_data@[dev as int];
                    let target = spec_apply_dd(dd_view(old_dd), ct.fields, ct.data@);
                    assert forall|x: int| 0 <= x < dd_view(new_dd).configurations.len()
                        implies dd_view(new_dd).configurations[x]
                            == target.configurations[x] by {
                        if x < old_dd.configurations@.len() {
                            assert(new_dd.configurations@[x]
                                == old_dd.configurations@[x]);
                        } else {
                            assert(new_dd.configurations@[x] is None);
                        }
                    }
                    assert(dd_view(new_dd).configurations =~= target.configurations);
                    assert(dd_view(new_dd).endpoint_types == target.endpoint_types);
                }
            }
        }
        proof {
            assert forall|d: int| 0 <= d < self.capture.device_data@.len()
                implies (#[trigger] self.capture.device_data@[d]).wf() by {
                if d != dev {
                    assert(self.capture.device_data@[d]
                        == old(self).capture.device_data@[d]);
                }
            }
            if ct.fields.type_fields.spec_kind() == 0 && ct.fields.request != 5 {
                assert(dd_view(self.capture.device_data@[dev as int])
                    =~~= spec_apply_dd(dd_view(old(self).capture.device_data@[dev as int]),
                        ct.fields, ct.data@));
                let target = spec_apply_control_m(old(self).model(), device_id, ct.fields,
                    ct.data@);
                assert forall|d: int| 0 <= d < self.capture.device_data@.len()
                    implies self.model().device_data[d] == target.device_data[d] by {
                    assert(dev as int == device_id as int);
                    assert(self.model().device_data[d]
                        == dd_view(self.capture.device_data@[d]));
                    assert(old(self).model().device_data[d]
                        == dd_view(old(self).capture.device_data@[d]));
                    if d != dev {
                        assert(self.capture.device_data@[d]
                            == old(self).capture.device_data@[d]);
                    }
                }
                assert(self.model().device_data =~~= target.device_data);
            }
            assert(self.model() =~~= spec_apply_control_m(old(self).model(), device_id,
                ct.fields, ct.data@));
        }
    }

    /// After a control transfer closed on endpoint `e`, reassembles it and
    /// applies its result to the device.
    fn apply_control_result(&mut self, e: u64)
        requires
            old(self).wf(),
            e < old(self).capture.endpoints@.len(),
        ensures
            final(self).wf(),
            final(self).capture.packet_index@ == old(self).capture.packet_index@,
            final(self).capture.packet_data@ == old(self).capture.packet_data@,
            final(self).capture.transaction_index@ == old(self).capture.transaction_index@,
            final(self).capture.transfer_index@ == old(self).capture.transfer_index@,
            final(self).capture.endpoints@ == old(self).capture.endpoints@,
            final(self).capture.endpoint_traffic@ == old(self).capture.endpoint_traffic@,
            final(self).capture.devices@ == old(self).capture.devices@,
            final(self).endpoint_data@ == old(self).endpoint_data@,
            final(self).transaction_state == old(self).transaction_state,
            final(self).snapshot_counts@ == old(self).snapshot_counts@,
            final(self).capture.item_index@ == old(self).capture.item_index@,
            final(self).capture.endpoint_states@ == old(self).capture.endpoint_states@,
            final(self).capture.endpoint_state_index@
                == old(self).capture.endpoint_state_index@,
            final(self).model() == spec_apply_result_m(old(self).model(), e),
    {
        proof {
            assert(old(self).model().endpoint_boundaries[e as int]
                == old(self).capture.endpoint_traffic@[e as int].transfer_index@);
            assert(old(self).model().endpoint_tids[e as int]
                == old(self).capture.endpoint_traffic@[e as int].transaction_ids@);
        }
        let e_us = e as usize;
        let t_len = self.capture.endpoint_traffic[e_us].transfer_index.len();
        if t_len < 2 {
            proof {
                assert(self.model() =~~= spec_apply_result_m(old(self).model(), e));
            }
            return ;
        }
        let start_off = self.capture.endpoint_traffic[e_us].transfer_index.get_at(t_len - 2);
        let end_off = self.capture.endpoint_traffic[e_us].transfer_index.get_at(t_len - 1);
        if start_off >= end_off {
            proof {
                assert(self.model() =~~= spec_apply_result_m(old(self).model(), e));
            }
            return ;
        }
        proof {
            let traf = self.capture.endpoint_traffic@[e as int];
            assert(traf.transfer_index@[t_len - 1] <= traf.transaction_ids@.len());
        }
        let ep = self.capture.endpoints.at(e_us);
        let address = ep.device_address();
        let device_id = ep.device_id();
        let ghost tids = old(self).capture.endpoint_traffic@[
            e as int].transaction_ids@.subrange(start_off as int, end_off as int);
        match self.capture.get_control_transfer(address, e as u16, start_off, end_off) {
            Some(ct) => {
                proof {
                    assert(spec_setup_of_m(old(self).model(), tids[0] as int)
                        == old(self).capture.spec_setup_of(tids[0] as int));
                    lemma_reassembly_matches(&*self, tids,
                        ct.fields.type_fields.spec_direction());
                }
                self.apply_control(device_id, ct);
                proof {
                    assert(self.model() =~~= spec_apply_result_m(old(self).model(), e));
                }
            },
            None => {
                proof {
                    assert(spec_setup_of_m(old(self).model(), tids[0] as int)
                        == old(self).capture.spec_setup_of(tids[0] as int));
                    assert(self.model() =~~= spec_apply_result_m(old(self).model(), e));
                }
            },
        }
    }

    /// Updates the transfer state of a control endpoint for one closed
    /// transaction: a setup stage opens a transfer (closing any unfinished
    /// one), the status stage closes it and applies its result.
    #[verifier::rlimit(100)]
    #[verifier::spinoff_prover]
    fn control_transfer_update(&mut self, e: u64, ts: TransactionState, tid: u64)
        requires
            old(self).wf(),
            old(self).transaction_state is None,
            old(self).tids_fresh(),
            e < old(self).capture.endpoints@.len(),
            old(self).capture.transaction_index@.len() > 0,
            tid == old(self).capture.transaction_index@.len() - 1,
            ts.first == PID::SETUP ==> ts.count == 3
                && ts.start + ts.count <= old(self).capture.packet_index@.len(),
            old(self).capture.transfer_index@.len() + 3 < 0x8000000000000,
        ensures
            final(self).wf(),
            final(self).transaction_state is None,
            final(self).capture.packet_index@ == old(self).capture.packet_index@,
            final(self).capture.packet_data@ == old(self).capture.packet_data@,
            final(self).capture.transaction_index@ == old(self).capture.transaction_index@,
            final(self).capture.endpoints@ == old(self).capture.endpoints@,
            final(self).capture.devices@ == old(self).capture.devices@,
            old(self).capture.transfer_index@.is_prefix_of(
                final(self).capture.transfer_index@),
            final(self).capture.transfer_index@.len()
                <= old(self).capture.transfer_index@.len() + 3,
            final(self).model() == spec_control_update(old(self).model(), e, ts, tid),
    {
        proof {
            self.capture.packet_index.lemma_len_bound();
        }
        let e_us = e as usize;
        if let PID::SETUP = ts.first {
            if self.endpoint_data[e_us].active {
                self.transfer_event(e, false);
            }
            self.transfer_event(e, true);
            self.append_tid(e, tid);
            // The data-stage direction governs which later transaction is
            // the status stage.
            let sd: Option<Direction> = match self.capture.get_packet(ts.start + 1) {
                Ok(p) => match SetupFields::from_data_packet(p.as_slice()) {
                    Some(f) => Some(
                        if f.length == 0 {
                            Direction::Out
                        } else {
                            f.type_fields.direction()
                        },
                    ),
                    None => None,
                },
                Err(..) => None,
            };
            let mut d = self.endpoint_data[e_us];
            d.setup_direction = sd;
            d.last_success = true;
            d.dir_in = false;
            self.endpoint_data[e_us] = d;
            proof {
                assert forall|e2: int| 0 <= e2 < self.capture.endpoints@.len() implies {
                    let traf = #[trigger] self.capture.endpoint_traffic@[e2];
                    let flags = ep_entry_flags(self.capture.transfer_index@, e2 as u16);
                    &&& (traf.transaction_ids@.len() == 0 || traf.transaction_ids@.len()
                        <= traf.transaction_ids@.last() + 1)
                    &&& alternating(flags)
                    &&& (self.endpoint_data@[e2].active <==> flags.len() % 2 == 1)
                    &&& traf.transfer_index@.len() == flags.len()
                } by {
                    if e2 != e {
                        assert(self.endpoint_data@[e2].active
                            == old(self).endpoint_data@[e2].active
                            || true);
                    }
                }
                assert(self.model() =~~= spec_control_update(old(self).model(), e, ts,
                    tid));
            }
        } else {
            if !self.endpoint_data[e_us].active {
                self.transfer_event(e, true);
            }
            self.append_tid(e, tid);
            let d = self.endpoint_data[e_us];
            let is_status = match d.setup_direction {
                Some(Direction::In) => matches!(ts.first, PID::OUT),
                Some(Direction::Out) => matches!(ts.first, PID::IN),
                None => false,
            };
            if is_status {
                self.transfer_event(e, false);
                self.apply_control_result(e);
            }
            proof {
                assert(self.model() =~~= spec_control_update(old(self).model(), e, ts,
                    tid));
            }
        }
    }

    /// Updates the transfer state of a bulk, interrupt or isochronous
    /// endpoint for one closed transaction: acknowledged data extends a
    /// transfer, a negative acknowledgement starts a polling group of its
    /// own, a stall closes everything, and a direction change closes the
    /// transfer.
    #[verifier::rlimit(100)]
    #[verifier::spinoff_prover]
    fn data_transfer_update(&mut self, e: u64, ts: TransactionState, tid: u64)
        requires
            old(self).wf(),
            old(self).transaction_state is None,
            old(self).tids_fresh(),
            e < old(self).capture.endpoints@.len(),
            old(self).capture.transaction_index@.len() > 0,
            tid == old(self).capture.transaction_index@.len() - 1,
            old(self).capture.transfer_index@.len() + 3 < 0x8000000000000,
        ensures
            final(self).wf(),
            final(self).transaction_state is None,
            final(self).capture.packet_index@ == old(self).capture.packet_index@,
            final(self).capture.packet_data@ == old(self).capture.packet_data@,
            final(self).capture.transaction_index@ == old(self).capture.transaction_index@,
            final(self).capture.endpoints@ == old(self).capture.endpoints@,
            final(self).capture.devices@ == old(self).capture.devices@,
            old(self).capture.transfer_index@.is_prefix_of(
                final(self).capture.transfer_index@),
            final(self).capture.transfer_index@.len()
                <= old(self).capture.transfer_index@.len() + 3,
            final(self).model() == spec_data_update(old(self).model(), e, ts, tid),
    {
        let e_us = e as usize;
        let dir_in = matches!(ts.first, PID::IN);
        if self.endpoint_data[e_us].active && self.endpoint_data[e_us].dir_in != dir_in {
            // Direction changed: the open transfer closes.
            self.transfer_event(e, false);
        }
        if let PID::STALL = ts.last {
            // The stalled transaction closes whatever was open and stands
            // as a closed transfer of its own.
            if self.endpoint_data[e_us].active {
                self.transfer_event(e, false);
            }
            self.transfer_event(e, true);
            self.append_tid(e, tid);
            self.transfer_event(e, false);
            let mut d = self.endpoint_data[e_us];
            d.last_success = false;
            d.dir_in = dir_in;
            self.endpoint_data[e_us] = d;
            proof {
                assert(self.model() =~~= spec_data_update(old(self).model(), e, ts, tid));
            }
        } else if let PID::NAK = ts.last {
            // Polling: a negative acknowledgement never extends a data
            // transfer; runs of them group together.
            if self.endpoint_data[e_us].active && self.endpoint_data[e_us].last_success {
                self.transfer_event(e, false);
            }
            if !self.endpoint_data[e_us].active {
                self.transfer_event(e, true);
            }
            self.append_tid(e, tid);
            let mut d = self.endpoint_data[e_us];
            d.last_success = false;
            d.dir_in = dir_in;
            self.endpoint_data[e_us] = d;
            proof {
                assert(self.model() =~~= spec_data_update(old(self).model(), e, ts, tid));
            }
        } else {
            // Acknowledged data: extends the open transfer, closing a
            // polling group first.
            if self.endpoint_data[e_us].active && !self.endpoint_data[e_us].last_success {
                self.transfer_event(e, false);
            }
            if !self.endpoint_data[e_us].active {
                self.transfer_event(e, true);
            }
            self.append_tid(e, tid);
            let mut d = self.endpoint_data[e_us];
            d.last_success = true;
            d.dir_in = dir_in;
            self.endpoint_data[e_us] = d;
            proof {
                assert(self.model() =~~= spec_data_update(old(self).model(), e, ts, tid));
            }
        }
    }

    /// Routes one closed transaction: complete ones go to their endpoint
    /// (start-of-frames to the framing endpoint), anything else to the
    /// invalid endpoint; any framing or invalid group that a transaction of
    /// another kind interrupts is closed first.
    fn transaction_closed(&mut self, ts: TransactionState, complete: bool)
        requires
            old(self).wf(),
            old(self).transaction_state is None,
            old(self).tids_fresh(),
            old(self).capture.transaction_index@.len() > 0,
            ts.endpoint_id < old(self).capture.endpoints@.len(),
            complete ==> spec_tx_complete(ts.first, ts.last, ts.count),
            ts.start + ts.count <= old(self).capture.packet_index@.len(),
            ts.count >= 1,
            old(self).capture.transfer_index@.len() + 5 < 0x8000000000000,
        ensures
            final(self).wf(),
            final(self).transaction_state is None,
            final(self).capture.packet_index@ == old(self).capture.packet_index@,
            final(self).capture.packet_data@ == old(self).capture.packet_data@,
            final(self).capture.transaction_index@ == old(self).capture.transaction_index@,
            final(self).capture.devices@ == old(self).capture.devices@,
            final(self).capture.endpoints@ == old(self).capture.endpoints@,
            old(self).capture.transfer_index@.is_prefix_of(
                final(self).capture.transfer_index@),
            final(self).capture.transfer_index@.len()
                <= old(self).capture.transfer_index@.len() + 5,
            final(self).model() == spec_transaction_closed(old(self).model(), ts,
                complete),
    {
        let tid = self.capture.transaction_index.len() - 1;
        let target: u64 = if complete {
            ts.endpoint_id
        } else {
            INVALID_EP_ID
        };
        // A transaction of another kind interrupts any open framing or
        // invalid group.
        if target != FRAMING_EP_ID && self.endpoint_data[FRAMING_EP_ID as usize].active {
            self.transfer_event(FRAMING_EP_ID, false);
        }
        if target != INVALID_EP_ID && self.endpoint_data[INVALID_EP_ID as usize].active {
            self.transfer_event(INVALID_EP_ID, false);
        }
        if target == FRAMING_EP_ID || target == INVALID_EP_ID {
            if !self.endpoint_data[target as usize].active {
                self.transfer_event(target, true);
            }
            self.append_tid(target, tid);
        } else {
            let number = self.capture.endpoints.at(target as usize).number();
            if number == 0 || matches!(ts.first, PID::SETUP) {
                self.control_transfer_update(target, ts, tid);
            } else {
                self.data_transfer_update(target, ts, tid);
            }
        }
        proof {
            assert(self.model() =~~= spec_transaction_closed(old(self).model(), ts,
                complete));
        }
    }
}

impl Decoder {
    /// Whether one more packet of length `n` fits the store's limits: it
    /// must be non-empty, and the packet, transfer-event and device counts
    /// must stay well inside their 52-bit id fields.
    pub open spec fn spec_can_accept(&self, n: int) -> bool {
        &&& n >= 1
        &&& self.capture.packet_index@.len() < 0x4000000000000
        &&& self.capture.transfer_index@.len() < 0x4000000000000
        &&& self.capture.devices@.len() < 0x4000000000000
    }

    /// Feeds one raw packet, in capture order. The packet is always stored;
    /// the transaction and transfer state machines run on its identifier.
    /// An empty packet is rejected, as is one that would overrun the
    /// store's id fields; a rejected packet leaves the decoder untouched.
    #[verifier::rlimit(100)]
    #[verifier::spinoff_prover]
    pub fn handle_raw_packet(&mut self, packet: &[u8]) -> (r: Result<(), CaptureError>)
        requires
            old(self).wf(),
        ensures
            final(self).wf(),
            packet@.len() == 0 ==> r == Err::<(), CaptureError>(CaptureError::EmptyPacket)
                && *final(self) == *old(self),
            packet@.len() >= 1 && !old(self).spec_can_accept(packet@.len() as int)
                ==> r == Err::<(), CaptureError>(CaptureError::CapacityExceeded)
                    && *final(self) == *old(self),
            old(self).spec_can_accept(packet@.len() as int) ==> {
                &&& r == Ok::<(), CaptureError>(())
                &&& final(self).capture.packet_data@
                    == old(self).capture.packet_data@ + packet@
                &&& final(self).capture.packet_index@
                    == old(self).capture.packet_index@.push(
                        old(self).capture.packet_data@.len() as u64)
                &&& (final(self).capture.transaction_index@
                    == old(self).capture.transaction_index@
                    || final(self).capture.transaction_index@
                        == old(self).capture.transaction_index@.push(
                            old(self).capture.packet_index@.len() as u64))
                &&& old(self).capture.transfer_index@.is_prefix_of(
                    final(self).capture.transfer_index@)
                &&& final(self).capture.transfer_index@.len()
                    <= old(self).capture.transfer_index@.len() + 10
                &&& final(self).capture.devices@.len()
                    <= old(self).capture.devices@.len() + 1
                &&& final(self).capture.endpoints@.len()
                    <= old(self).capture.endpoints@.len() + 1
                &&& final(self).model() == spec_step(old(self).model(), packet@)
            },
    {
        if packet.len() == 0 {
            return Err(CaptureError::EmptyPacket);
        }
        if !(self.capture.packet_index.len() < 0x4000000000000
            && self.capture.transfer_index.len() < 0x4000000000000
            && self.capture.devices.len() < 0x4000000000000) {
            return Err(CaptureError::CapacityExceeded);
        }
        // Store the packet first: every later id refers to it.
        let packet_id = self.capture.packet_index.len();
        let offset = self.capture.packet_data.len();
        let st = self.transaction_state;
        self.transaction_state = None;
        proof {
            self.capture.packet_index.lemma_len_bound();
            if self.capture.packet_index@.len() > 0 {
                assert(self.capture.packet_index@.last()
                    < self.capture.packet_data@.len());
            }
        }
        self.capture.packet_index.push(offset);
        self.capture.packet_data.append_slice(packet);
        proof {
            let pidx = self.capture.packet_index@;
            let total = self.capture.packet_data@.len() as int;
            assert(crate::capture::strictly_bounded(pidx, total)) by {
                assert forall|k: int| 0 <= k < pidx.len()
                    implies (#[trigger] crate::capture::spec_range(pidx, total, k)).0
                        < crate::capture::spec_range(pidx, total, k).1 by {
                    let old_pidx = old(self).capture.packet_index@;
                    let old_total = old(self).capture.packet_data@.len() as int;
                    if k + 1 < old_pidx.len() {
                        assert(crate::capture::spec_range(old_pidx, old_total, k).0
                            < crate::capture::spec_range(old_pidx, old_total, k).1);
                    } else if k + 1 == old_pidx.len() {
                        assert(crate::capture::spec_range(old_pidx, old_total, k).0
                            < crate::capture::spec_range(old_pidx, old_total, k).1);
                        assert(pidx[k + 1] == old_total);
                    }
                }
            }
            assert(crate::capture::bounded_by(pidx, total)) by {
                assert forall|k: int| 0 <= k < pidx.len()
                    implies #[trigger] pidx[k] < total by {
                    if k < old(self).capture.packet_index@.len() {
                        assert(old(self).capture.packet_index@[k]
                            < old(self).capture.packet_data@.len());
                    }
                }
            }
            let tidx = self.capture.transaction_index@;
            let plen = self.capture.packet_index@.len() as int;
            let old_plen = old(self).capture.packet_index@.len() as int;
            assert(crate::capture::bounded_by(tidx, plen)) by {
                assert forall|k: int| 0 <= k < tidx.len()
                    implies #[trigger] tidx[k] < plen by {
                    assert(old(self).capture.transaction_index@[k] < old_plen);
                }
            }
            assert(crate::capture::strictly_bounded(tidx, plen)) by {
                assert forall|k: int| 0 <= k < tidx.len()
                    implies (#[trigger] crate::capture::spec_range(tidx, plen, k)).0
                        < crate::capture::spec_range(tidx, plen, k).1 by {
                    assert(crate::capture::spec_range(tidx, old_plen, k).0
                        < crate::capture::spec_range(tidx, old_plen, k).1);
                }
            }
            assert(self.wf());
        }
        let pid = PID::from_byte(packet[0]);
        match st {
            Some(ts) if can_extend(ts.first, ts.last, ts.count, pid) => {
                let ts2 = TransactionState {
                    first: ts.first,
                    last: pid,
                    start: ts.start,
                    count: ts.count + 1,
                    endpoint_id: ts.endpoint_id,
                };
                if tx_complete(ts2.first, ts2.last, ts2.count) {
                    self.transaction_closed(ts2, true);
                } else {
                    self.transaction_state = Some(ts2);
                }
                proof {
                    assert(self.capture.transfer_index@.subrange(0,
                        old(self).capture.transfer_index@.len() as int)
                        =~= old(self).capture.transfer_index@);
                    assert(self.model() =~~= spec_step(old(self).model(), packet@));
                }
            },
            _ => {
                // The current transaction, if any, cannot absorb this
                // packet: it closes unfinished.
                match st {
                    Some(ts) => {
                        self.transaction_closed(ts, false);
                    },
                    None => {},
                }
                // A new transaction opens at this packet.
                proof {
                    self.capture.transaction_index.lemma_len_bound();
                    if self.capture.transaction_index@.len() > 0 {
                        assert(self.capture.transaction_index@.last()
                            < old(self).capture.packet_index@.len());
                    }
                }
                proof {
                    if self.capture.transaction_index@.len() > 0 {
                        assert(old(self).capture.transaction_index@.last()
                            < old(self).capture.packet_index@.len());
                    }
                }
                self.capture.transaction_index.push(packet_id);
                proof {
                    let tidx = self.capture.transaction_index@;
                    let old_tidx = old(self).capture.transaction_index@;
                    let total = self.capture.packet_index@.len() as int;
                    let old_plen = old(self).capture.packet_index@.len() as int;
                    assert(crate::capture::bounded_by(tidx, total)) by {
                        assert forall|k: int| 0 <= k < tidx.len()
                            implies #[trigger] tidx[k] < total by {
                            if k < old_tidx.len() {
                                assert(old_tidx[k] < old_plen);
                            }
                        }
                    }
                    assert(crate::capture::strictly_bounded(tidx, total)) by {
                        assert forall|k: int| 0 <= k < tidx.len()
                            implies (#[trigger] crate::capture::spec_range(tidx, total,
                                k)).0 < crate::capture::spec_range(tidx, total, k).1 by {
                            if k + 1 < tidx.len() - 1 {
                                assert(crate::capture::spec_range(old_tidx, old_plen + 1,
                                    k).0 < crate::capture::spec_range(old_tidx,
                                    old_plen + 1, k).1);
                                assert(tidx[k] == old_tidx[k]);
                                assert(tidx[k + 1] == old_tidx[k + 1]);
                            } else if k + 1 == tidx.len() - 1 {
                                assert(old_tidx[k] < old_plen);
                            }
                        }
                    }
                    assert forall|e: int| 0 <= e < self.capture.endpoint_traffic@.len()
                        implies {
                        let t = #[trigger] self.capture.endpoint_traffic@[e];
                        &&& crate::capture::bounded_by(t.transaction_ids@,
                            self.capture.transaction_index@.len() as int)
                        &&& (t.transaction_ids@.len() == 0 || t.transaction_ids@.last() + 1
                            < self.capture.transaction_index@.len())
                    } by {
                        let t = self.capture.endpoint_traffic@[e];
                        assert(crate::capture::bounded_by(t.transaction_ids@,
                            old_tidx.len() as int));
                        assert forall|i: int| 0 <= i < t.transaction_ids@.len()
                            implies #[trigger] t.transaction_ids@[i]
                                < self.capture.transaction_index@.len() as int by {
                            assert(t.transaction_ids@[i] < old_tidx.len());
                        }
                        if t.transaction_ids@.len() > 0 {
                            assert(t.transaction_ids@.last() < old_tidx.len());
                        }
                    }
                    assert(self.tids_fresh());
                    assert(self.wf());
                }
                let (endpoint_id, opener) = if packet.len() >= 3 {
                    match pid {
                        PID::SOF => (FRAMING_EP_ID, true),
                        PID::SETUP | PID::IN | PID::OUT | PID::PING => {
                            match PacketFields::from_packet(packet) {
                                PacketFields::Token(token) => {
                                    let e = self.endpoint_for(token.device_address,
                                        token.endpoint_number);
                                    (e, true)
                                },
                                _ => (INVALID_EP_ID, false),
                            }
                        },
                        _ => (INVALID_EP_ID, false),
                    }
                } else {
                    if matches!(pid, PID::SOF) {
                        (FRAMING_EP_ID, true)
                    } else {
                        (INVALID_EP_ID, false)
                    }
                };
                let ts2 = TransactionState {
                    first: pid,
                    last: pid,
                    start: packet_id,
                    count: 1,
                    endpoint_id,
                };
                if !opener {
                    self.transaction_closed(ts2, false);
                } else if tx_complete(pid, pid, 1) {
                    self.transaction_closed(ts2, true);
                } else {
                    self.transaction_state = Some(ts2);
                }
                proof {
                    assert(self.capture.transfer_index@.subrange(0,
                        old(self).capture.transfer_index@.len() as int)
                        =~= old(self).capture.transfer_index@);
                    assert(self.model() =~~= spec_step(old(self).model(), packet@));
                }
            },
        }
        Ok(())
    }
}

/// How many of the flags are set: the start entries among an endpoint's
/// transfer entries.
pub open spec fn count_true(s: Seq<bool>) -> int
    decreases s.len(),
{
    if s.len() == 0 {
        0
    } else {
        count_true(s.drop_last()) + if s.last() {
            1int
        } else {
            0int
        }
    }
}

proof fn lemma_alternating_count(s: Seq<bool>)
    requires
        alternating(s),
    ensures
        count_true(s) == (s.len() + 1) / 2,
    decreases s.len(),
{
    if s.len() > 0 {
        assert(alternating(s.drop_last())) by {
            assert forall|i: int| 0 <= i < s.drop_last().len()
                implies (#[trigger] s.drop_last()[i] <==> i % 2 == 0) by {
                assert(s.drop_last()[i] == s[i]);
            }
        }
        lemma_alternating_count(s.drop_last());
    }
}

impl Decoder {
    /// Each endpoint's transfer entries alternate, a start first, so its
    /// end entries number its start entries, less one exactly when the last
    /// transfer is still open.
    pub proof fn lemma_transfer_entries_alternate(&self, e: u16)
        requires
            self.wf(),
            e < self.capture.endpoints@.len(),
        ensures
            alternating(ep_entry_flags(self.capture.transfer_index@, e)),
            ({
                let flags = ep_entry_flags(self.capture.transfer_index@, e);
                let starts = count_true(flags);
                let ends = flags.len() - starts;
                starts == ends + (if self.endpoint_data@[e as int].active {
                    1int
                } else {
                    0int
                })
            }),
    {
        let flags = ep_entry_flags(self.capture.transfer_index@, e);
        let traf = self.capture.endpoint_traffic@[e as int];
        assert(traf.transfer_index@.len() == flags.len());
        assert(alternating(flags));
        lemma_alternating_count(flags);
    }
}

/// A fresh endpoint id has no transfer entries yet: its flag sequence is
/// empty when the id is at least the count of every entry's endpoint.
proof fn lemma_ep_flags_of_fresh(s: Seq<TransferIndexEntry>, e: u16)
    requires
        forall|k: int| 0 <= k < s.len() ==> (#[trigger] s[k]).spec_endpoint_id() != e,
    ensures
        ep_entry_flags(s, e) == Seq::<bool>::empty(),
    decreases s.len(),
{
    if s.len() > 0 {
        lemma_ep_flags_of_fresh(s.drop_last(), e);
        assert(ep_entry_flags(s, e) =~= Seq::<bool>::empty());
    }
}

} // verus!
