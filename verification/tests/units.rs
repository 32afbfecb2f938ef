use packetry::capture::{Capture, Endpoint, TransferIndexEntry, EndpointState, EndpointType};
use packetry::hybrid_index::HybridIndex;
use packetry::text::{fmt_count, fmt_size, fmt_u64};
use packetry::usb::{PID, PacketFields, SetupFields, Direction, DeviceDescriptor,
    Configuration};
use packetry::CaptureError;

#[test]
fn hybrid_index_round_trip() {
    let mut idx = HybridIndex::new(2);
    let values: Vec<u64> = vec![0, 3, 6, 9, 12, 100, 101, 102, 103, 500, 500, 500, 1000000];
    for v in &values {
        idx.push(*v);
    }
    assert_eq!(idx.len(), values.len() as u64);
    for (i, v) in values.iter().enumerate() {
        assert_eq!(idx.get(i as u64), Ok(*v));
    }
    assert_eq!(idx.get(values.len() as u64), Err(CaptureError::OutOfRange));
    let range = idx.get_range(4, 9).unwrap();
    assert_eq!(range, vec![12, 100, 101, 102, 103]);
    // Runs compress: far fewer entries than values.
    assert!(idx.entry_count() <= idx.len());
    assert!(idx.entry_count() <= 6);
}

#[test]
fn hybrid_index_long_run() {
    let mut idx = HybridIndex::new(1);
    for i in 0..10000u64 {
        idx.push(i * 7);
    }
    assert_eq!(idx.entry_count(), 1);
    assert_eq!(idx.get(9999), Ok(9999 * 7));
    assert_eq!(idx.get_range(0, 3).unwrap(), vec![0, 7, 14]);
}

#[test]
fn transfer_index_entry_round_trip() {
    let e = TransferIndexEntry::new(123456789, 2047, true);
    assert_eq!(e.transfer_id(), 123456789);
    assert_eq!(e.endpoint_id(), 2047);
    assert!(e.is_start());
    let mut e2 = TransferIndexEntry::new(5, 7, false);
    assert!(!e2.is_start());
    e2.set_is_start(true);
    assert!(e2.is_start());
    assert_eq!(e2.transfer_id(), 5);
    assert_eq!(e2.endpoint_id(), 7);
}

#[test]
fn endpoint_record_round_trip() {
    let ep = Endpoint::new(42, 127, 31);
    assert_eq!(ep.device_id(), 42);
    assert_eq!(ep.device_address(), 127);
    assert_eq!(ep.number(), 31);
}

#[test]
fn endpoint_state_bytes() {
    assert_eq!(EndpointState::Idle.to_byte(), 0);
    assert_eq!(EndpointState::Starting.to_byte(), 1);
    assert_eq!(EndpointState::Ongoing.to_byte(), 2);
    assert_eq!(EndpointState::Ending.to_byte(), 3);
    assert_eq!(EndpointState::from_byte(2), EndpointState::Ongoing);
    assert_eq!(EndpointState::from_byte(77), EndpointState::Idle);
}

#[test]
fn pid_decoding() {
    assert_eq!(PID::from_byte(0xA5), PID::SOF);
    assert_eq!(PID::from_byte(0x2D), PID::SETUP);
    assert_eq!(PID::from_byte(0x69), PID::IN);
    assert_eq!(PID::from_byte(0xE1), PID::OUT);
    assert_eq!(PID::from_byte(0xC3), PID::DATA0);
    assert_eq!(PID::from_byte(0x4B), PID::DATA1);
    assert_eq!(PID::from_byte(0xD2), PID::ACK);
    assert_eq!(PID::from_byte(0x5A), PID::NAK);
    assert_eq!(PID::from_byte(0x1E), PID::STALL);
    assert_eq!(PID::from_byte(0x00), PID::Malformed);
    assert_eq!(PID::SOF.name(), "SOF");
}

#[test]
fn packet_fields_decoding() {
    // SOF with frame number 0x123 and CRC 0x15: v = 0x123 | 0x15 << 11.
    let v: u16 = 0x123 | (0x15 << 11);
    let sof = [0xA5, (v & 0xFF) as u8, (v >> 8) as u8];
    match PacketFields::from_packet(&sof) {
        PacketFields::SOF(f) => {
            assert_eq!(f.frame_number, 0x123);
            assert_eq!(f.crc, 0x15);
        },
        _ => panic!("expected SOF fields"),
    }
    // Token to address 9, endpoint 3, CRC 0x0A.
    let v: u16 = 9 | (3 << 7) | (0x0A << 11);
    let tok = [0x69, (v & 0xFF) as u8, (v >> 8) as u8];
    match PacketFields::from_packet(&tok) {
        PacketFields::Token(t) => {
            assert_eq!(t.device_address, 9);
            assert_eq!(t.endpoint_number, 3);
            assert_eq!(t.crc, 0x0A);
        },
        _ => panic!("expected token fields"),
    }
    // Data packet: CRC from the last two bytes.
    let data = [0xC3, 1, 2, 3, 0x34, 0x12];
    match PacketFields::from_packet(&data) {
        PacketFields::Data(d) => assert_eq!(d.crc, 0x1234),
        _ => panic!("expected data fields"),
    }
    // Too short for its class.
    assert_eq!(PacketFields::from_packet(&[0xA5]), PacketFields::NoFields);
}

#[test]
fn setup_fields_decoding() {
    let packet = [0xC3, 0x80, 0x06, 0x00, 0x01, 0x05, 0x00, 0x12, 0x00, 0xAA, 0xBB];
    let f = SetupFields::from_data_packet(&packet).unwrap();
    assert_eq!(f.type_fields.direction(), Direction::In);
    assert_eq!(f.type_fields.kind(), 0);
    assert_eq!(f.request, 6);
    assert_eq!(f.value, 0x0100);
    assert_eq!(f.index, 5);
    assert_eq!(f.length, 18);
    assert!(SetupFields::from_data_packet(&[0xC3, 0x80]).is_none());
}

#[test]
fn device_descriptor_decoding() {
    let bytes = [
        18, 1, 0x00, 0x02, 0, 0, 0, 64, 0x50, 0x1D, 0x3B, 0x60, 0x00, 0x01, 1, 2, 3, 1,
    ];
    let d = DeviceDescriptor::from_bytes(&bytes).unwrap();
    assert_eq!(d.length, 18);
    assert_eq!(d.usb_version, 0x0200);
    assert_eq!(d.max_packet_size_0, 64);
    assert_eq!(d.vendor_id, 0x1D50);
    assert_eq!(d.product_id, 0x603B);
    assert_eq!(d.num_configurations, 1);
    assert!(DeviceDescriptor::from_bytes(&bytes[..17]).is_none());
    let strings: Vec<Option<Vec<u8>>> = Vec::new();
    assert_eq!(d.field_text(6, &strings), "Vendor ID: 0x1D50");
    assert_eq!(d.field_text(0, &strings), "Length: 18 bytes");
}

#[test]
fn configuration_decoding() {
    let bytes = [
        // configuration descriptor
        9, 2, 32, 0, 1, 1, 0, 0x80, 50,
        // interface descriptor
        9, 4, 0, 0, 2, 0xFF, 0, 0, 0,
        // two endpoint descriptors: 0x81 IN bulk, 0x01 OUT bulk
        7, 5, 0x81, 0x02, 0x00, 0x02, 0,
        7, 5, 0x01, 0x02, 0x00, 0x02, 0,
    ];
    let c = Configuration::from_bytes(&bytes).unwrap();
    assert_eq!(c.descriptor.config_value, 1);
    assert_eq!(c.descriptor.max_power, 50);
    assert_eq!(c.interfaces.len(), 1);
    assert_eq!(c.interfaces[0].endpoint_descriptors.len(), 2);
    assert_eq!(c.interfaces[0].endpoint_descriptors[0].endpoint_address, 0x81);
    assert_eq!(c.interfaces[0].endpoint_descriptors[0].max_packet_size, 512);
    assert!(Configuration::from_bytes(&bytes[..5]).is_none());
}

#[test]
fn count_and_size_formatting() {
    assert_eq!(fmt_u64(0), "0");
    assert_eq!(fmt_u64(1048576), "1048576");
    assert_eq!(fmt_count(999), "999");
    assert_eq!(fmt_count(1234567), "1,234,567");
    assert_eq!(fmt_size(500), "500 B");
    assert_eq!(fmt_size(2048), "2 KiB");
}

#[test]
fn format_index_line() {
    let mut idx = HybridIndex::new(1);
    for i in 0..5u64 {
        idx.push(i);
    }
    let line = packetry::capture::fmt_index(&idx);
    assert!(line.starts_with("5 values in 1 entries, "));
}

#[test]
fn empty_capture_reads_out_of_range() {
    let cap = Capture::new();
    assert_eq!(cap.get_packet(0), Err(CaptureError::OutOfRange));
    assert!(cap.get_item(&None, 0).is_err());
    assert_eq!(cap.item_count(&None), Ok(0));
}

#[test]
fn endpoint_types_from_attributes() {
    assert_eq!(EndpointType::from_attributes(0), EndpointType::Control);
    assert_eq!(EndpointType::from_attributes(1), EndpointType::Isochronous);
    assert_eq!(EndpointType::from_attributes(2), EndpointType::Bulk);
    assert_eq!(EndpointType::from_attributes(3), EndpointType::Interrupt);
    assert_eq!(EndpointType::Bulk.name(), "Bulk");
}
