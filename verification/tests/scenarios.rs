use packetry::capture::{DeviceItem, Item};
use packetry::decoder::Decoder;
use packetry::tree_list_model::TreeListModel;
use packetry::CaptureError;

fn sof(frame: u16) -> Vec<u8> {
    let v: u16 = frame & 0x7FF;
    vec![0xA5, (v & 0xFF) as u8, (v >> 8) as u8]
}

fn token(pid: u8, address: u8, endpoint: u8) -> Vec<u8> {
    let v: u16 = (address as u16) | ((endpoint as u16) << 7);
    vec![pid, (v & 0xFF) as u8, (v >> 8) as u8]
}

fn data0(payload: &[u8]) -> Vec<u8> {
    let mut p = vec![0xC3];
    p.extend_from_slice(payload);
    p.extend_from_slice(&[0, 0]);
    p
}

fn data1(payload: &[u8]) -> Vec<u8> {
    let mut p = vec![0x4B];
    p.extend_from_slice(payload);
    p.extend_from_slice(&[0, 0]);
    p
}

const ACK: [u8; 1] = [0xD2];
const NAK: [u8; 1] = [0x5A];
const STALL: [u8; 1] = [0x1E];

fn feed(decoder: &mut Decoder, packets: &[Vec<u8>]) {
    for p in packets {
        decoder.handle_raw_packet(p).unwrap();
    }
}

#[test]
fn sof_only_capture() {
    let mut decoder = Decoder::new();
    for frame in 0..8u16 {
        decoder.handle_raw_packet(&sof(frame)).unwrap();
    }
    let cap = decoder.into_capture();
    // One still-open framing transfer is the only top-level row.
    assert_eq!(cap.item_count(&None), Ok(1));
    let top = cap.get_item(&None, 0).unwrap();
    assert_eq!(cap.get_summary(&top).unwrap(), "8 SOF groups");
    assert_eq!(cap.child_count(&top), Ok(8));
    for i in 0..8u64 {
        let transaction = cap.get_item(&Some(top), i).unwrap();
        assert_eq!(cap.get_summary(&transaction).unwrap(), "1 SOF packets");
        assert_eq!(cap.child_count(&transaction), Ok(1));
        let packet = cap.get_item(&Some(transaction), 0).unwrap();
        let summary = cap.get_summary(&packet).unwrap();
        let expected = format!(
            "SOF packet with frame number {}, CRC 00: [A5, {:02X}, 00]", i, i
        );
        assert_eq!(summary, expected);
    }
}

#[test]
fn sof_only_connectors() {
    let mut decoder = Decoder::new();
    for frame in 0..8u16 {
        decoder.handle_raw_packet(&sof(frame)).unwrap();
    }
    let cap = decoder.into_capture();
    let top = cap.get_item(&None, 0).unwrap();
    assert_eq!(cap.get_connectors(&top).unwrap(), " \u{25CB}\u{2500}");
    let first = cap.get_item(&Some(top), 0).unwrap();
    assert_eq!(cap.get_connectors(&first).unwrap(),
        " \u{251C}\u{2500}\u{2500}\u{2500}");
    let last = cap.get_item(&Some(top), 7).unwrap();
    assert_eq!(cap.get_connectors(&last).unwrap(),
        " \u{2514}\u{2500}\u{2500}\u{2500}");
    // A packet of a non-final transaction still draws its transfer's line.
    let packet = cap.get_item(&Some(first), 0).unwrap();
    assert_eq!(cap.get_connectors(&packet).unwrap(),
        " \u{2502}    \u{2514}\u{2500}\u{2500}");
    let last_packet = cap.get_item(&Some(last), 0).unwrap();
    assert_eq!(cap.get_connectors(&last_packet).unwrap(),
        "      \u{2514}\u{2500}\u{2500}");
}

#[test]
fn device_enumeration() {
    let mut decoder = Decoder::new();
    let descriptor = [
        18u8, 1, 0x00, 0x02, 0, 0, 0, 64, 0x50, 0x1D, 0x3B, 0x60, 0x00, 0x01, 0, 0, 0, 1,
    ];
    let setup_payload = [0x80u8, 0x06, 0x00, 0x01, 0x00, 0x00, 0x12, 0x00];
    let config_bytes = [
        9u8, 2, 18, 0, 1, 1, 0, 0x80, 50,
        9, 4, 0, 0, 0, 0xFF, 0, 0, 0,
    ];
    let get_config = [0x80u8, 0x06, 0x00, 0x02, 0x00, 0x00, 18, 0x00];
    let packets = vec![
        token(0x2D, 0, 0),
        data0(&setup_payload),
        ACK.to_vec(),
        token(0x69, 0, 0),
        data1(&descriptor),
        ACK.to_vec(),
        token(0xE1, 0, 0),
        data1(&[]),
        ACK.to_vec(),
        token(0x2D, 0, 0),
        data0(&get_config),
        ACK.to_vec(),
        token(0x69, 0, 0),
        data1(&config_bytes),
        ACK.to_vec(),
        token(0xE1, 0, 0),
        data1(&[]),
        ACK.to_vec(),
    ];
    let mut d = decoder;
    feed(&mut d, &packets);
    let cap = d.into_capture();
    // Each control transfer opened and closed: a start and an end row.
    assert_eq!(cap.item_count(&None), Ok(4));
    let top = cap.get_item(&None, 0).unwrap();
    assert_eq!(cap.get_summary(&top).unwrap(),
        "Getting device descriptor, returned 18 bytes");
    assert_eq!(cap.child_count(&top), Ok(3));
    let end = cap.get_item(&None, 1).unwrap();
    assert_eq!(cap.get_summary(&end).unwrap(),
        "Control transfer ending on endpoint 0.0");
    // The parsed descriptor is attached to the device.
    assert_eq!(cap.device_item_count(&None), Ok(1));
    let dev = cap.get_device_item(&None, 0).unwrap();
    assert_eq!(dev, DeviceItem::Device(1));
    assert_eq!(cap.get_device_summary(&dev).unwrap(), "Device 0: 1D50:603B");
    // With a configuration known, the device row shows its children.
    assert_eq!(cap.device_item_count(&Some(dev)), Ok(2));
    let desc = cap.get_device_item(&Some(dev), 0).unwrap();
    assert_eq!(cap.get_device_summary(&desc).unwrap(), "Device descriptor");
    assert_eq!(cap.device_item_count(&Some(desc)), Ok(13));
    let field = cap.get_device_item(&Some(desc), 6).unwrap();
    assert_eq!(cap.get_device_summary(&field).unwrap(), "Vendor ID: 0x1D50");
    let conf = cap.get_device_item(&Some(dev), 1).unwrap();
    assert_eq!(cap.get_device_summary(&conf).unwrap(), "Configuration 1");
}

#[test]
fn bulk_in_burst_with_nak() {
    let mut decoder = Decoder::new();
    let payload = vec![0xABu8; 512];
    let mut packets: Vec<Vec<u8>> = Vec::new();
    for _ in 0..6 {
        packets.push(token(0x69, 1, 1));
        packets.push(data0(&payload));
        packets.push(ACK.to_vec());
    }
    packets.push(token(0x69, 1, 1));
    packets.push(NAK.to_vec());
    feed(&mut decoder, &packets);
    let cap = decoder.into_capture();
    // Rows: the burst transfer's start, its end, the polling transfer.
    assert_eq!(cap.item_count(&None), Ok(3));
    let burst = cap.get_item(&None, 0).unwrap();
    assert_eq!(cap.get_summary(&burst).unwrap(),
        "Unidentified transfer with 6 transactions on endpoint 1.1");
    assert_eq!(cap.child_count(&burst), Ok(6));
    let first = cap.get_item(&Some(burst), 0).unwrap();
    assert_eq!(cap.get_summary(&first).unwrap(),
        "IN transaction, 3 packets with 512 data bytes");
    let poll = cap.get_item(&None, 2).unwrap();
    assert_eq!(cap.child_count(&poll), Ok(1));
    let nak = cap.get_item(&Some(poll), 0).unwrap();
    assert_eq!(cap.get_summary(&nak).unwrap(), "IN transaction, 2 packets");
}

#[test]
fn stall_closes_transfer() {
    let mut decoder = Decoder::new();
    let payload = vec![0x11u8; 8];
    let mut packets: Vec<Vec<u8>> = Vec::new();
    for _ in 0..3 {
        packets.push(token(0x69, 1, 2));
        packets.push(data0(&payload));
        packets.push(ACK.to_vec());
    }
    packets.push(token(0x69, 1, 2));
    packets.push(STALL.to_vec());
    feed(&mut decoder, &packets);
    let cap = decoder.into_capture();
    // Rows: start and end of the data transfer, then start and end of the
    // stalled one.
    assert_eq!(cap.item_count(&None), Ok(4));
    let first = cap.get_item(&None, 0).unwrap();
    assert_eq!(cap.get_summary(&first).unwrap(),
        "Unidentified transfer with 3 transactions on endpoint 1.2");
    let stalled = cap.get_item(&None, 2).unwrap();
    assert_eq!(cap.child_count(&stalled), Ok(1));
    let t = cap.get_item(&Some(stalled), 0).unwrap();
    assert_eq!(cap.get_summary(&t).unwrap(), "IN transaction, 2 packets");
}

#[test]
fn interleaved_sof_and_bulk() {
    let mut decoder = Decoder::new();
    let payload = vec![0x22u8; 4];
    let packets = vec![
        sof(0),
        sof(1),
        token(0xE1, 1, 1),
        data0(&payload),
        ACK.to_vec(),
        sof(2),
        sof(3),
        token(0xE1, 1, 1),
        data0(&payload),
        ACK.to_vec(),
        sof(4),
    ];
    let mut d = decoder;
    feed(&mut d, &packets);
    let cap = d.into_capture();
    // Framing groups close when the bulk traffic interrupts them; the bulk
    // transfer stays open across the frames.
    let count = cap.item_count(&None).unwrap();
    let mut summaries: Vec<String> = Vec::new();
    for i in 0..count {
        let item = cap.get_item(&None, i).unwrap();
        summaries.push(cap.get_summary(&item).unwrap());
    }
    assert_eq!(summaries, vec![
        "2 SOF groups".to_string(),
        "End of SOF groups".to_string(),
        "Unidentified transfer with 2 transactions on endpoint 1.1".to_string(),
        "2 SOF groups".to_string(),
        "End of SOF groups".to_string(),
        "1 SOF groups".to_string(),
    ]);
}

#[test]
fn expand_and_collapse_rows() {
    let mut decoder = Decoder::new();
    for frame in 0..8u16 {
        decoder.handle_raw_packet(&sof(frame)).unwrap();
    }
    let cap = decoder.into_capture();
    let mut model = TreeListModel::new(cap).unwrap();
    assert_eq!(model.n_items(), 1);
    let row = model.get(0).unwrap();
    assert!(matches!(row.item, Item::Transfer(_)));
    assert!(!row.expanded);
    assert_eq!(row.child_count, 8);
    // Expanding the top-level row inserts its transactions after it.
    let ev = model.set_expanded(0, true).unwrap().unwrap();
    assert_eq!((ev.position, ev.removed, ev.added), (1, 0, 8));
    assert_eq!(model.n_items(), 9);
    let t = model.get(1).unwrap();
    assert!(matches!(t.item, Item::Transaction(..)));
    assert_eq!(t.child_count, 1);
    // Expanding a transaction inserts its packet.
    let ev = model.set_expanded(1, true).unwrap().unwrap();
    assert_eq!((ev.position, ev.removed, ev.added), (2, 0, 1));
    assert_eq!(model.n_items(), 10);
    let p = model.get(2).unwrap();
    assert!(matches!(p.item, Item::Packet(..)));
    // Expanding an expanded row is no transition.
    assert_eq!(model.set_expanded(0, true).unwrap(), None);
    assert_eq!(model.n_items(), 10);
    // Collapsing the transaction removes its packet again.
    let ev = model.set_expanded(1, false).unwrap().unwrap();
    assert_eq!((ev.position, ev.removed, ev.added), (2, 1, 0));
    assert_eq!(model.n_items(), 9);
    // Collapsing the transfer restores the original row count.
    let ev = model.set_expanded(0, false).unwrap().unwrap();
    assert_eq!((ev.position, ev.removed, ev.added), (1, 8, 0));
    assert_eq!(model.n_items(), 1);
    // Positions past the end are rejected.
    assert!(model.set_expanded(1, true).is_err());
    assert!(model.get(1).is_none());
}

#[test]
fn configured_endpoint_shows_bulk() {
    let mut decoder = Decoder::new();
    let config_bytes = [
        9u8, 2, 25, 0, 1, 1, 0, 0x80, 50,
        9, 4, 0, 0, 1, 0xFF, 0, 0, 0,
        7, 5, 0x81, 0x02, 0x00, 0x02, 0,
    ];
    let get_config = [0x80u8, 0x06, 0x00, 0x02, 0x00, 0x00, 25, 0x00];
    let set_config = [0x00u8, 0x09, 0x01, 0x00, 0x00, 0x00, 0x00, 0x00];
    let mut packets = vec![
        // Read the configuration descriptor.
        token(0x2D, 1, 0),
        data0(&get_config),
        ACK.to_vec(),
        token(0x69, 1, 0),
        data1(&config_bytes),
        ACK.to_vec(),
        token(0xE1, 1, 0),
        data1(&[]),
        ACK.to_vec(),
        // Select configuration 1.
        token(0x2D, 1, 0),
        data0(&set_config),
        ACK.to_vec(),
        token(0x69, 1, 0),
        data1(&[]),
        ACK.to_vec(),
    ];
    // Bulk traffic on the now-configured endpoint 1.
    let payload = vec![0x33u8; 16];
    packets.push(token(0x69, 1, 1));
    packets.push(data0(&payload));
    packets.push(ACK.to_vec());
    let mut d = decoder;
    feed(&mut d, &packets);
    let cap = d.into_capture();
    let count = cap.item_count(&None).unwrap();
    let last = cap.get_item(&None, count - 1).unwrap();
    assert_eq!(cap.get_summary(&last).unwrap(),
        "Bulk transfer with 1 transactions on endpoint 1.1");
    assert_eq!(cap.get_summary(&cap.get_item(&None, 0).unwrap()).unwrap(),
        "Getting configuration descriptor, returned 25 bytes");
    assert_eq!(cap.get_summary(&cap.get_item(&None, 2).unwrap()).unwrap(),
        "Setting configuration 1");
}

#[test]
fn empty_packet_is_rejected() {
    let mut decoder = Decoder::new();
    assert_eq!(decoder.handle_raw_packet(&[]), Err(CaptureError::EmptyPacket));
    decoder.handle_raw_packet(&sof(0)).unwrap();
    let cap = decoder.into_capture();
    assert_eq!(cap.item_count(&None), Ok(1));
}

#[test]
fn malformed_packets_group_as_invalid() {
    let mut decoder = Decoder::new();
    // A lone handshake cannot open a transaction.
    decoder.handle_raw_packet(&ACK).unwrap();
    decoder.handle_raw_packet(&[0x00, 0x01]).unwrap();
    let cap = decoder.into_capture();
    let top = cap.get_item(&None, 0).unwrap();
    assert_eq!(cap.get_summary(&top).unwrap(), "2 invalid groups");
}
