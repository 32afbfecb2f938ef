//! USB wire types: packet identifiers, packet field views, setup-packet
//! parsing and descriptor records.
//!
//! All multi-byte fields are little-endian; bit fields are extracted
//! arithmetically, so every contract states the exact layout.

use vstd::prelude::*;
use vstd::string::*;

use crate::text::{dec_digits, hex_digits_2, hex_digits_4, push_dec, push_hex_2, push_hex_4,
    push_char};

verus! {

/// The 4-bit packet identifier, as the full first byte of a packet (low
/// nibble the code, high nibble its complement). A byte that matches no
/// valid identifier decodes as `Malformed`.
#[derive(Copy, Clone, PartialEq, Eq, Structural, Debug)]
pub enum PID {
    RSVD,
    OUT,
    ACK,
    DATA0,
    PING,
    SOF,
    NYET,
    DATA2,
    SPLIT,
    IN,
    NAK,
    DATA1,
    ERR,
    SETUP,
    STALL,
    MDATA,
    Malformed,
}

/// Which identifier a packet's first byte denotes.
pub open spec fn spec_pid_from_byte(b: u8) -> PID {
    if b == 0xF0 {
        PID::RSVD
    } else if b == 0xE1 {
        PID::OUT
    } else if b == 0xD2 {
        PID::ACK
    } else if b == 0xC3 {
        PID::DATA0
    } else if b == 0xB4 {
        PID::PING
    } else if b == 0xA5 {
        PID::SOF
    } else if b == 0x96 {
        PID::NYET
    } else if b == 0x87 {
        PID::DATA2
    } else if b == 0x78 {
        PID::SPLIT
    } else if b == 0x69 {
        PID::IN
    } else if b == 0x5A {
        PID::NAK
    } else if b == 0x4B {
        PID::DATA1
    } else if b == 0x3C {
        PID::ERR
    } else if b == 0x2D {
        PID::SETUP
    } else if b == 0x1E {
        PID::STALL
    } else if b == 0x0F {
        PID::MDATA
    } else {
        PID::Malformed
    }
}

/// The identifier of a whole packet: its first byte, or `Malformed` for an
/// empty packet.
pub open spec fn spec_packet_pid(p: Seq<u8>) -> PID {
    if p.len() == 0 {
        PID::Malformed
    } else {
        spec_pid_from_byte(p[0])
    }
}

impl PID {
    pub fn from_byte(b: u8) -> (r: PID)
        ensures
            r == spec_pid_from_byte(b),
    {
        match b {
            0xF0 => PID::RSVD,
            0xE1 => PID::OUT,
            0xD2 => PID::ACK,
            0xC3 => PID::DATA0,
            0xB4 => PID::PING,
            0xA5 => PID::SOF,
            0x96 => PID::NYET,
            0x87 => PID::DATA2,
            0x78 => PID::SPLIT,
            0x69 => PID::IN,
            0x5A => PID::NAK,
            0x4B => PID::DATA1,
            0x3C => PID::ERR,
            0x2D => PID::SETUP,
            0x1E => PID::STALL,
            0x0F => PID::MDATA,
            _ => PID::Malformed,
        }
    }

    /// The identifier's name as displayed in summaries.
    pub open spec fn spec_name(self) -> Seq<char> {
        match self {
            PID::RSVD => "RSVD"@,
            PID::OUT => "OUT"@,
            PID::ACK => "ACK"@,
            PID::DATA0 => "DATA0"@,
            PID::PING => "PING"@,
            PID::SOF => "SOF"@,
            PID::NYET => "NYET"@,
            PID::DATA2 => "DATA2"@,
            PID::SPLIT => "SPLIT"@,
            PID::IN => "IN"@,
            PID::NAK => "NAK"@,
            PID::DATA1 => "DATA1"@,
            PID::ERR => "ERR"@,
            PID::SETUP => "SETUP"@,
            PID::STALL => "STALL"@,
            PID::MDATA => "MDATA"@,
            PID::Malformed => "Malformed"@,
        }
    }

    pub fn name(&self) -> (r: &'static str)
        ensures
            r@ == self.spec_name(),
    {
        match self {
            PID::RSVD => "RSVD",
            PID::OUT => "OUT",
            PID::ACK => "ACK",
            PID::DATA0 => "DATA0",
            PID::PING => "PING",
            PID::SOF => "SOF",
            PID::NYET => "NYET",
            PID::DATA2 => "DATA2",
            PID::SPLIT => "SPLIT",
            PID::IN => "IN",
            PID::NAK => "NAK",
            PID::DATA1 => "DATA1",
            PID::ERR => "ERR",
            PID::SETUP => "SETUP",
            PID::STALL => "STALL",
            PID::MDATA => "MDATA",
            PID::Malformed => "Malformed",
        }
    }
}

/// Transfer direction, from bit 7 of a setup packet's request type.
#[derive(Copy, Clone, PartialEq, Eq, Structural, Debug)]
pub enum Direction {
    Out,
    In,
}

/// The two bytes at `i` and `i + 1`, little-endian.
pub open spec fn spec_le16(p: Seq<u8>, i: int) -> int {
    p[i] + p[i + 1] * 256
}

/// Fields of a start-of-frame packet: an 11-bit frame number and a 5-bit
/// CRC packed little-endian into bytes 1 and 2.
#[derive(Copy, Clone, PartialEq, Eq, Structural, Debug)]
pub struct SOFFields {
    pub frame_number: u16,
    pub crc: u8,
}

/// Fields of a token packet: a 7-bit device address, a 4-bit endpoint
/// number and a 5-bit CRC packed little-endian into bytes 1 and 2.
#[derive(Copy, Clone, PartialEq, Eq, Structural, Debug)]
pub struct TokenFields {
    pub device_address: u8,
    pub endpoint_number: u8,
    pub crc: u8,
}

/// Fields of a data packet: the 16-bit CRC in the last two bytes.
#[derive(Copy, Clone, PartialEq, Eq, Structural, Debug)]
pub struct DataFields {
    pub crc: u16,
}

/// The decoded fields of a packet, by identifier class. Packets too short
/// to carry their fields, and classes without fields, yield `NoFields`.
#[derive(Copy, Clone, PartialEq, Eq, Structural, Debug)]
pub enum PacketFields {
    SOF(SOFFields),
    Token(TokenFields),
    Data(DataFields),
    NoFields,
}

/// The exact field decoding of a packet, per identifier class.
pub open spec fn spec_packet_fields(p: Seq<u8>) -> PacketFields {
    let pid = spec_packet_pid(p);
    match pid {
        PID::SOF => if p.len() >= 3 {
            PacketFields::SOF(SOFFields {
                frame_number: (spec_le16(p, 1) % 2048) as u16,
                crc: (spec_le16(p, 1) / 2048) as u8,
            })
        } else {
            PacketFields::NoFields
        },
        PID::SETUP | PID::IN | PID::OUT | PID::PING => if p.len() >= 3 {
            PacketFields::Token(TokenFields {
                device_address: (spec_le16(p, 1) % 128) as u8,
                endpoint_number: ((spec_le16(p, 1) / 128) % 16) as u8,
                crc: (spec_le16(p, 1) / 2048) as u8,
            })
        } else {
            PacketFields::NoFields
        },
        PID::DATA0 | PID::DATA1 | PID::DATA2 | PID::MDATA => if p.len() >= 3 {
            PacketFields::Data(DataFields {
                crc: spec_le16(p, p.len() - 2) as u16,
            })
        } else {
            PacketFields::NoFields
        },
        _ => PacketFields::NoFields,
    }
}

impl PacketFields {
    /// Decodes the fields the packet's identifier class defines.
    pub fn from_packet(packet: &[u8]) -> (r: PacketFields)
        ensures
            r == spec_packet_fields(packet@),
    {
        if packet.len() == 0 {
            return PacketFields::NoFields;
        }
        let pid = PID::from_byte(packet[0]);
        match pid {
            PID::SOF => if packet.len() >= 3 {
                let v: u16 = packet[1] as u16 + packet[2] as u16 * 256;
                PacketFields::SOF(SOFFields {
                    frame_number: v % 2048,
                    crc: (v / 2048) as u8,
                })
            } else {
                PacketFields::NoFields
            },
            PID::SETUP | PID::IN | PID::OUT | PID::PING => if packet.len() >= 3 {
                let v: u16 = packet[1] as u16 + packet[2] as u16 * 256;
                PacketFields::Token(TokenFields {
                    device_address: (v % 128) as u8,
                    endpoint_number: ((v / 128) % 16) as u8,
                    crc: (v / 2048) as u8,
                })
            } else {
                PacketFields::NoFields
            },
            PID::DATA0 | PID::DATA1 | PID::DATA2 | PID::MDATA => if packet.len() >= 3 {
                let n = packet.len();
                let v: u16 = packet[n - 2] as u16 + packet[n - 1] as u16 * 256;
                PacketFields::Data(DataFields { crc: v })
            } else {
                PacketFields::NoFields
            },
            _ => PacketFields::NoFields,
        }
    }
}

/// The request-type byte of a setup packet: recipient in bits 0 to 4, the
/// request kind in bits 5 and 6, the direction in bit 7.
#[derive(Copy, Clone, PartialEq, Eq, Structural, Debug)]
pub struct RequestTypeFields {
    pub byte_value: u8,
}

impl RequestTypeFields {
    /// Bit 7: device-to-host (`In`) or host-to-device (`Out`).
    pub open spec fn spec_direction(self) -> Direction {
        if self.byte_value >= 128 {
            Direction::In
        } else {
            Direction::Out
        }
    }

    pub fn direction(&self) -> (r: Direction)
        ensures
            r == self.spec_direction(),
    {
        if self.byte_value >= 128 {
            Direction::In
        } else {
            Direction::Out
        }
    }

    /// Bits 5 and 6: 0 standard, 1 class, 2 vendor, 3 reserved.
    pub open spec fn spec_kind(self) -> u8 {
        ((self.byte_value / 32) % 4) as u8
    }

    pub fn kind(&self) -> (r: u8)
        ensures
            r == self.spec_kind(),
    {
        (self.byte_value / 32) % 4
    }

    /// Bits 0 to 4: 0 device, 1 interface, 2 endpoint, 3 other.
    pub open spec fn spec_recipient(self) -> u8 {
        (self.byte_value % 32) as u8
    }

    pub fn recipient(&self) -> (r: u8)
        ensures
            r == self.spec_recipient(),
    {
        self.byte_value % 32
    }
}

/// The eight-byte setup stage of a control transfer.
#[derive(Copy, Clone, PartialEq, Eq, Structural, Debug)]
pub struct SetupFields {
    pub type_fields: RequestTypeFields,
    pub request: u8,
    pub value: u16,
    pub index: u16,
    pub length: u16,
}

/// The exact decoding of a setup stage from a data packet: the eight bytes
/// after the identifier, little-endian. Packets shorter than nine bytes
/// carry no setup stage.
pub open spec fn spec_setup_fields(p: Seq<u8>) -> Option<SetupFields> {
    if p.len() >= 9 {
        Some(SetupFields {
            type_fields: RequestTypeFields { byte_value: p[1] },
            request: p[2],
            value: spec_le16(p, 3) as u16,
            index: spec_le16(p, 5) as u16,
            length: spec_le16(p, 7) as u16,
        })
    } else {
        None
    }
}

impl SetupFields {
    /// Parses the setup stage carried by a `DATA0` packet.
    pub fn from_data_packet(packet: &[u8]) -> (r: Option<SetupFields>)
        ensures
            r == spec_setup_fields(packet@),
    {
        if packet.len() >= 9 {
            Some(SetupFields {
                type_fields: RequestTypeFields { byte_value: packet[1] },
                request: packet[2],
                value: packet[3] as u16 + packet[4] as u16 * 256,
                index: packet[5] as u16 + packet[6] as u16 * 256,
                length: packet[7] as u16 + packet[8] as u16 * 256,
            })
        } else {
            None
        }
    }
}

/// The device descriptor: the 18-byte record describing a device.
#[derive(Copy, Clone, PartialEq, Eq, Structural, Debug)]
pub struct DeviceDescriptor {
    pub length: u8,
    pub descriptor_type: u8,
    pub usb_version: u16,
    pub device_class: u8,
    pub device_subclass: u8,
    pub device_protocol: u8,
    pub max_packet_size_0: u8,
    pub vendor_id: u16,
    pub product_id: u16,
    pub device_version: u16,
    pub manufacturer_str_id: u8,
    pub product_str_id: u8,
    pub serial_str_id: u8,
    pub num_configurations: u8,
}

/// The exact decoding of a device descriptor: the first 18 bytes,
/// little-endian. Shorter input carries no descriptor.
pub open spec fn spec_device_descriptor(p: Seq<u8>) -> Option<DeviceDescriptor> {
    if p.len() >= 18 {
        Some(DeviceDescriptor {
            length: p[0],
            descriptor_type: p[1],
            usb_version: spec_le16(p, 2) as u16,
            device_class: p[4],
            device_subclass: p[5],
            device_protocol: p[6],
            max_packet_size_0: p[7],
            vendor_id: spec_le16(p, 8) as u16,
            product_id: spec_le16(p, 10) as u16,
            device_version: spec_le16(p, 12) as u16,
            manufacturer_str_id: p[14],
            product_str_id: p[15],
            serial_str_id: p[16],
            num_configurations: p[17],
        })
    } else {
        None
    }
}

impl DeviceDescriptor {
    pub fn from_bytes(bytes: &[u8]) -> (r: Option<DeviceDescriptor>)
        ensures
            r == spec_device_descriptor(bytes@),
    {
        if bytes.len() >= 18 {
            Some(DeviceDescriptor {
                length: bytes[0],
                descriptor_type: bytes[1],
                usb_version: bytes[2] as u16 + bytes[3] as u16 * 256,
                device_class: bytes[4],
                device_subclass: bytes[5],
                device_protocol: bytes[6],
                max_packet_size_0: bytes[7],
                vendor_id: bytes[8] as u16 + bytes[9] as u16 * 256,
                product_id: bytes[10] as u16 + bytes[11] as u16 * 256,
                device_version: bytes[12] as u16 + bytes[13] as u16 * 256,
                manufacturer_str_id: bytes[14],
                product_str_id: bytes[15],
                serial_str_id: bytes[16],
                num_configurations: bytes[17],
            })
        } else {
            None
        }
    }
}

/// The nine-byte configuration descriptor.
#[derive(Copy, Clone, PartialEq, Eq, Structural, Debug)]
pub struct ConfigDescriptor {
    pub length: u8,
    pub descriptor_type: u8,
    pub total_length: u16,
    pub num_interfaces: u8,
    pub config_value: u8,
    pub config_str_id: u8,
    pub attributes: u8,
    pub max_power: u8,
}

/// The nine-byte interface descriptor.
#[derive(Copy, Clone, PartialEq, Eq, Structural, Debug)]
pub struct InterfaceDescriptor {
    pub length: u8,
    pub descriptor_type: u8,
    pub interface_number: u8,
    pub alternate_setting: u8,
    pub num_endpoints: u8,
    pub iface_class: u8,
    pub iface_subclass: u8,
    pub iface_protocol: u8,
    pub interface_str_id: u8,
}

/// The seven-byte endpoint descriptor. The transfer type sits in the low
/// two bits of `attributes`; bit 7 of `endpoint_address` is the direction.
#[derive(Copy, Clone, PartialEq, Eq, Structural, Debug)]
pub struct EndpointDescriptor {
    pub length: u8,
    pub descriptor_type: u8,
    pub endpoint_address: u8,
    pub attributes: u8,
    pub max_packet_size: u16,
    pub interval: u8,
}

pub open spec fn spec_config_descriptor(p: Seq<u8>, pos: int) -> ConfigDescriptor {
    ConfigDescriptor {
        length: p[pos],
        descriptor_type: p[pos + 1],
        total_length: spec_le16(p, pos + 2) as u16,
        num_interfaces: p[pos + 4],
        config_value: p[pos + 5],
        config_str_id: p[pos + 6],
        attributes: p[pos + 7],
        max_power: p[pos + 8],
    }
}

pub open spec fn spec_interface_descriptor(p: Seq<u8>, pos: int) -> InterfaceDescriptor {
    InterfaceDescriptor {
        length: p[pos],
        descriptor_type: p[pos + 1],
        interface_number: p[pos + 2],
        alternate_setting: p[pos + 3],
        num_endpoints: p[pos + 4],
        iface_class: p[pos + 5],
        iface_subclass: p[pos + 6],
        iface_protocol: p[pos + 7],
        interface_str_id: p[pos + 8],
    }
}

pub open spec fn spec_endpoint_descriptor(p: Seq<u8>, pos: int) -> EndpointDescriptor {
    EndpointDescriptor {
        length: p[pos],
        descriptor_type: p[pos + 1],
        endpoint_address: p[pos + 2],
        attributes: p[pos + 3],
        max_packet_size: spec_le16(p, pos + 4) as u16,
        interval: p[pos + 6],
    }
}

/// One interface of a configuration, with its endpoint descriptors.
pub struct Interface {
    pub descriptor: InterfaceDescriptor,
    pub endpoint_descriptors: Vec<EndpointDescriptor>,
}

/// A parsed configuration: its descriptor and its interfaces.
pub struct Configuration {
    pub descriptor: ConfigDescriptor,
    pub interfaces: Vec<Interface>,
}

/// The mathematical shape of a parsed interface list.
pub open spec fn spec_interfaces_view(s: Seq<Interface>) -> Seq<
    (InterfaceDescriptor, Seq<EndpointDescriptor>),
> {
    s.map_values(|i: Interface| (i.descriptor, i.endpoint_descriptors@))
}

/// Walks the descriptor blocks from `pos`: an interface descriptor (type 4)
/// opens a new interface, an endpoint descriptor (type 5) joins the latest
/// interface, anything else is skipped. A block too short, too long or of
/// length under two ends the walk.
pub open spec fn spec_walk_interfaces(
    p: Seq<u8>,
    pos: int,
    acc: Seq<(InterfaceDescriptor, Seq<EndpointDescriptor>)>,
) -> Seq<(InterfaceDescriptor, Seq<EndpointDescriptor>)>
    decreases p.len() - pos,
{
    if pos < 0 || pos + 2 > p.len() {
        acc
    } else {
        let l = p[pos] as int;
        if l < 2 || pos + l > p.len() {
            acc
        } else if p[pos + 1] == 4 && l >= 9 {
            spec_walk_interfaces(p, pos + l,
                acc.push((spec_interface_descriptor(p, pos), Seq::empty())))
        } else if p[pos + 1] == 5 && l >= 7 && acc.len() > 0 {
            spec_walk_interfaces(p, pos + l, acc.update(acc.len() - 1,
                (acc.last().0, acc.last().1.push(spec_endpoint_descriptor(p, pos)))))
        } else {
            spec_walk_interfaces(p, pos + l, acc)
        }
    }
}

/// The exact parse of a configuration: its descriptor from the first nine
/// bytes, then the interface walk starting past that descriptor.
pub open spec fn spec_parse_configuration(p: Seq<u8>) -> Option<
    (ConfigDescriptor, Seq<(InterfaceDescriptor, Seq<EndpointDescriptor>)>),
> {
    if p.len() >= 9 {
        Some((spec_config_descriptor(p, 0), spec_walk_interfaces(p, p[0] as int, Seq::empty())))
    } else {
        None
    }
}

fn read_interface_descriptor(bytes: &[u8], pos: usize) -> (r: InterfaceDescriptor)
    requires
        pos + 9 <= bytes@.len(),
    ensures
        r == spec_interface_descriptor(bytes@, pos as int),
{
    InterfaceDescriptor {
        length: bytes[pos],
        descriptor_type: bytes[pos + 1],
        interface_number: bytes[pos + 2],
        alternate_setting: bytes[pos + 3],
        num_endpoints: bytes[pos + 4],
        iface_class: bytes[pos + 5],
        iface_subclass: bytes[pos + 6],
        iface_protocol: bytes[pos + 7],
        interface_str_id: bytes[pos + 8],
    }
}

fn read_endpoint_descriptor(bytes: &[u8], pos: usize) -> (r: EndpointDescriptor)
    requires
        pos + 7 <= bytes@.len(),
    ensures
        r == spec_endpoint_descriptor(bytes@, pos as int),
{
    EndpointDescriptor {
        length: bytes[pos],
        descriptor_type: bytes[pos + 1],
        endpoint_address: bytes[pos + 2],
        attributes: bytes[pos + 3],
        max_packet_size: bytes[pos + 4] as u16 + bytes[pos + 5] as u16 * 256,
        interval: bytes[pos + 6],
    }
}

impl Configuration {
    /// Parses a configuration descriptor block as read back from the
    /// device: the configuration descriptor itself, then its interface and
    /// endpoint descriptors, skipping unknown descriptor types.
    pub fn from_bytes(bytes: &[u8]) -> (r: Option<Configuration>)
        ensures
            match spec_parse_configuration(bytes@) {
                Some(m) => r matches Some(c) && c.descriptor == m.0
                    && spec_interfaces_view(c.interfaces@) == m.1,
                None => r is None,
            },
    {
        if bytes.len() < 9 {
            return None;
        }
        let descriptor = ConfigDescriptor {
            length: bytes[0],
            descriptor_type: bytes[1],
            total_length: bytes[2] as u16 + bytes[3] as u16 * 256,
            num_interfaces: bytes[4],
            config_value: bytes[5],
            config_str_id: bytes[6],
            attributes: bytes[7],
            max_power: bytes[8],
        };
        let ghost start = bytes@[0] as int;
        let mut interfaces: Vec<Interface> = Vec::new();
        let mut pos: usize = bytes[0] as usize;
        if pos > bytes.len() {
            pos = bytes.len();
        }
        let mut stop: bool = false;
        proof {
            assert(spec_interfaces_view(interfaces@) =~= Seq::empty());
        }
        while !stop
            invariant
                pos <= bytes@.len(),
                spec_walk_interfaces(bytes@, start, Seq::empty())
                    == if stop {
                        spec_interfaces_view(interfaces@)
                    } else {
                        spec_walk_interfaces(bytes@, pos as int,
                            spec_interfaces_view(interfaces@))
                    },
            decreases bytes@.len() - pos, (if stop { 0int } else { 1int }),
        {
            if bytes.len() - pos < 2 {
                stop = true;
            } else {
                let l = bytes[pos] as usize;
                if l < 2 || l > bytes.len() - pos {
                    stop = true;
                } else if bytes[pos + 1] == 4 && l >= 9 {
                    let d = read_interface_descriptor(bytes, pos);
                    let ghost before = interfaces@;
                    interfaces.push(Interface {
                        descriptor: d,
                        endpoint_descriptors: Vec::new(),
                    });
                    proof {
                        assert(spec_interfaces_view(interfaces@)
                            =~= spec_interfaces_view(before).push(
                                (d, Seq::<EndpointDescriptor>::empty())));
                    }
                    pos = pos + l;
                } else if bytes[pos + 1] == 5 && l >= 7 && interfaces.len() > 0 {
                    let d = read_endpoint_descriptor(bytes, pos);
                    let ghost before = interfaces@;
                    match interfaces.pop() {
                        Some(mut iface) => {
                            iface.endpoint_descriptors.push(d);
                            interfaces.push(iface);
                        },
                        None => {},
                    }
                    proof {
                        assert(spec_interfaces_view(interfaces@)
                            =~= spec_interfaces_view(before).update(before.len() - 1,
                                (spec_interfaces_view(before).last().0,
                                 spec_interfaces_view(before).last().1.push(d))));
                    }
                    pos = pos + l;
                } else {
                    pos = pos + l;
                }
            }
        }
        Some(Configuration { descriptor, interfaces })
    }
}

/// The character shown for one UTF-16 code unit of a string descriptor:
/// itself for printable ASCII, a question mark otherwise.
pub open spec fn spec_unit_char(lo: u8, hi: u8) -> char {
    if hi == 0 && 0x20 <= lo < 0x7F {
        lo as char
    } else {
        '?'
    }
}

/// The displayed text of a string descriptor's code units from `pos` on.
pub open spec fn spec_string_chars(b: Seq<u8>, pos: int) -> Seq<char>
    decreases b.len() - pos,
{
    if pos < 0 || pos + 2 > b.len() {
        Seq::empty()
    } else {
        seq![spec_unit_char(b[pos], b[pos + 1])] + spec_string_chars(b, pos + 2)
    }
}

/// Renders a string descriptor (two header bytes, then UTF-16LE code
/// units) as printable text.
pub fn string_text(bytes: &Vec<u8>) -> (r: String)
    ensures
        r@ == spec_string_chars(bytes@, 2),
{
    let mut out = String::new();
    let mut pos: usize = 2;
    if bytes.len() < 2 {
        proof {
            assert(out@ =~= spec_string_chars(bytes@, 2));
        }
        return out;
    }
    while bytes.len() - pos >= 2
        invariant
            2 <= pos <= bytes@.len(),
            spec_string_chars(bytes@, 2) == out@ + spec_string_chars(bytes@, pos as int),
        decreases bytes@.len() - pos,
    {
        let lo = bytes[pos];
        let hi = bytes[pos + 1];
        let c: char = if hi == 0 && 0x20 <= lo && lo < 0x7F {
            lo as char
        } else {
            '?'
        };
        let ghost prev = out@;
        push_char(&mut out, c);
        pos = pos + 2;
        proof {
            assert(spec_string_chars(bytes@, pos - 2)
                == seq![spec_unit_char(bytes@[pos - 2], bytes@[pos - 1])]
                    + spec_string_chars(bytes@, pos as int));
            assert(spec_string_chars(bytes@, 2)
                =~= out@ + spec_string_chars(bytes@, pos as int));
        }
    }
    proof {
        assert(spec_string_chars(bytes@, pos as int) =~= Seq::empty());
        assert(out@ =~= spec_string_chars(bytes@, 2));
    }
    out
}

/// How a string reference is displayed: string index zero means none, a
/// cached descriptor shows its text in quotes, an uncached one its index.
pub open spec fn spec_string_field(strings: Seq<Option<Vec<u8>>>, id: u8) -> Seq<char> {
    if id == 0 {
        "(none)"@
    } else if id < strings.len() && strings[id as int] is Some {
        "'"@ + spec_string_chars(strings[id as int]->0@, 2) + "'"@
    } else {
        "#"@ + dec_digits(id as int)
    }
}

/// Renders a string-descriptor reference against the cache of string
/// descriptors seen so far.
pub fn string_field(strings: &Vec<Option<Vec<u8>>>, id: u8) -> (r: String)
    ensures
        r@ == spec_string_field(strings@, id),
{
    let mut out = String::new();
    if id == 0 {
        out.append("(none)");
        proof {
            assert(out@ =~= spec_string_field(strings@, id));
        }
        return out;
    }
    if (id as usize) < strings.len() {
        match &strings[id as usize] {
            Some(bytes) => {
                out.append("'");
                let text = string_text(bytes);
                out.append(text.as_str());
                out.append("'");
                proof {
                    assert(out@ =~= spec_string_field(strings@, id));
                }
                return out;
            },
            None => {},
        }
    }
    out.append("#");
    push_dec(&mut out, id as u64);
    proof {
        assert(out@ =~= spec_string_field(strings@, id));
    }
    out
}

impl DeviceDescriptor {
    /// The displayed text of one device-descriptor field.
    pub open spec fn spec_field_text(self, id: int, strings: Seq<Option<Vec<u8>>>) -> Seq<char> {
        if id == 0 {
            "Length: "@ + dec_digits(self.length as int) + " bytes"@
        } else if id == 1 {
            "USB version: 0x"@ + hex_digits_4(self.usb_version as int)
        } else if id == 2 {
            "Class: 0x"@ + hex_digits_2(self.device_class as int)
        } else if id == 3 {
            "Subclass: 0x"@ + hex_digits_2(self.device_subclass as int)
        } else if id == 4 {
            "Protocol: 0x"@ + hex_digits_2(self.device_protocol as int)
        } else if id == 5 {
            "Max packet size: "@ + dec_digits(self.max_packet_size_0 as int) + " bytes"@
        } else if id == 6 {
            "Vendor ID: 0x"@ + hex_digits_4(self.vendor_id as int)
        } else if id == 7 {
            "Product ID: 0x"@ + hex_digits_4(self.product_id as int)
        } else if id == 8 {
            "Version: 0x"@ + hex_digits_4(self.device_version as int)
        } else if id == 9 {
            "Manufacturer string: "@ + spec_string_field(strings, self.manufacturer_str_id)
        } else if id == 10 {
            "Product string: "@ + spec_string_field(strings, self.product_str_id)
        } else if id == 11 {
            "Serial string: "@ + spec_string_field(strings, self.serial_str_id)
        } else {
            "Configurations: "@ + dec_digits(self.num_configurations as int)
        }
    }

    /// The thirteen displayable fields of a device descriptor, by index.
    pub fn field_text(&self, id: u8, strings: &Vec<Option<Vec<u8>>>) -> (r: String)
        requires
            id < 13,
        ensures
            r@ == self.spec_field_text(id as int, strings@),
    {
        let mut out = String::new();
        match id {
            0 => {
                out.append("Length: ");
                push_dec(&mut out, self.length as u64);
                out.append(" bytes");
            },
            1 => {
                out.append("USB version: 0x");
                push_hex_4(&mut out, self.usb_version);
            },
            2 => {
                out.append("Class: 0x");
                push_hex_2(&mut out, self.device_class);
            },
            3 => {
                out.append("Subclass: 0x");
                push_hex_2(&mut out, self.device_subclass);
            },
            4 => {
                out.append("Protocol: 0x");
                push_hex_2(&mut out, self.device_protocol);
            },
            5 => {
                out.append("Max packet size: ");
                push_dec(&mut out, self.max_packet_size_0 as u64);
                out.append(" bytes");
            },
            6 => {
                out.append("Vendor ID: 0x");
                push_hex_4(&mut out, self.vendor_id);
            },
            7 => {
                out.append("Product ID: 0x");
                push_hex_4(&mut out, self.product_id);
            },
            8 => {
                out.append("Version: 0x");
                push_hex_4(&mut out, self.device_version);
            },
            9 => {
                out.append("Manufacturer string: ");
                let s = string_field(strings, self.manufacturer_str_id);
                out.append(s.as_str());
            },
            10 => {
                out.append("Product string: ");
                let s = string_field(strings, self.product_str_id);
                out.append(s.as_str());
            },
            11 => {
                out.append("Serial string: ");
                let s = string_field(strings, self.serial_str_id);
                out.append(s.as_str());
            },
            _ => {
                out.append("Configurations: ");
                push_dec(&mut out, self.num_configurations as u64);
            },
        }
        proof {
            assert(out@ =~= self.spec_field_text(id as int, strings@));
        }
        out
    }
}

impl ConfigDescriptor {
    /// The displayed text of one configuration-descriptor field.
    pub open spec fn spec_field_text(self, id: int, strings: Seq<Option<Vec<u8>>>) -> Seq<char> {
        if id == 0 {
            "Length: "@ + dec_digits(self.length as int) + " bytes"@
        } else if id == 1 {
            "Type: 0x"@ + hex_digits_2(self.descriptor_type as int)
        } else if id == 2 {
            "Total length: "@ + dec_digits(self.total_length as int) + " bytes"@
        } else if id == 3 {
            "Interfaces: "@ + dec_digits(self.num_interfaces as int)
        } else if id == 4 {
            "Configuration value: "@ + dec_digits(self.config_value as int)
        } else if id == 5 {
            "Configuration string: "@ + spec_string_field(strings, self.config_str_id)
        } else if id == 6 {
            "Attributes: 0x"@ + hex_digits_2(self.attributes as int)
        } else {
            "Max power: "@ + dec_digits(2 * self.max_power as int) + " mA"@
        }
    }

    /// The eight displayable fields of a configuration descriptor.
    pub fn field_text(&self, id: u8, strings: &Vec<Option<Vec<u8>>>) -> (r: String)
        requires
            id < 8,
        ensures
            r@ == self.spec_field_text(id as int, strings@),
    {
        let mut out = String::new();
        match id {
            0 => {
                out.append("Length: ");
                push_dec(&mut out, self.length as u64);
                out.append(" bytes");
            },
            1 => {
                out.append("Type: 0x");
                push_hex_2(&mut out, self.descriptor_type);
            },
            2 => {
                out.append("Total length: ");
                push_dec(&mut out, self.total_length as u64);
                out.append(" bytes");
            },
            3 => {
                out.append("Interfaces: ");
                push_dec(&mut out, self.num_interfaces as u64);
            },
            4 => {
                out.append("Configuration value: ");
                push_dec(&mut out, self.config_value as u64);
            },
            5 => {
                out.append("Configuration string: ");
                let s = string_field(strings, self.config_str_id);
                out.append(s.as_str());
            },
            6 => {
                out.append("Attributes: 0x");
                push_hex_2(&mut out, self.attributes);
            },
            _ => {
                out.append("Max power: ");
                push_dec(&mut out, 2 * self.max_power as u64);
                out.append(" mA");
            },
        }
        proof {
            assert(out@ =~= self.spec_field_text(id as int, strings@));
        }
        out
    }
}

impl InterfaceDescriptor {
    /// The displayed text of one interface-descriptor field.
    pub open spec fn spec_field_text(self, id: int, strings: Seq<Option<Vec<u8>>>) -> Seq<char> {
        if id == 0 {
            "Length: "@ + dec_digits(self.length as int) + " bytes"@
        } else if id == 1 {
            "Type: 0x"@ + hex_digits_2(self.descriptor_type as int)
        } else if id == 2 {
            "Interface number: "@ + dec_digits(self.interface_number as int)
        } else if id == 3 {
            "Alternate setting: "@ + dec_digits(self.alternate_setting as int)
        } else if id == 4 {
            "Endpoints: "@ + dec_digits(self.num_endpoints as int)
        } else if id == 5 {
            "Class: 0x"@ + hex_digits_2(self.iface_class as int)
        } else if id == 6 {
            "Subclass: 0x"@ + hex_digits_2(self.iface_subclass as int)
        } else if id == 7 {
            "Protocol: 0x"@ + hex_digits_2(self.iface_protocol as int)
        } else {
            "Interface string: "@ + spec_string_field(strings, self.interface_str_id)
        }
    }

    /// The nine displayable fields of an interface descriptor.
    pub fn field_text(&self, id: u8, strings: &Vec<Option<Vec<u8>>>) -> (r: String)
        requires
            id < 9,
        ensures
            r@ == self.spec_field_text(id as int, strings@),
    {
        let mut out = String::new();
        match id {
            0 => {
                out.append("Length: ");
                push_dec(&mut out, self.length as u64);
                out.append(" bytes");
            },
            1 => {
                out.append("Type: 0x");
                push_hex_2(&mut out, self.descriptor_type);
            },
            2 => {
                out.append("Interface number: ");
                push_dec(&mut out, self.interface_number as u64);
            },
            3 => {
                out.append("Alternate setting: ");
                push_dec(&mut out, self.alternate_setting as u64);
            },
            4 => {
                out.append("Endpoints: ");
                push_dec(&mut out, self.num_endpoints as u64);
            },
            5 => {
                out.append("Class: 0x");
                push_hex_2(&mut out, self.iface_class);
            },
            6 => {
                out.append("Subclass: 0x");
                push_hex_2(&mut out, self.iface_subclass);
            },
            7 => {
                out.append("Protocol: 0x");
                push_hex_2(&mut out, self.iface_protocol);
            },
            _ => {
                out.append("Interface string: ");
                let s = string_field(strings, self.interface_str_id);
                out.append(s.as_str());
            },
        }
        proof {
            assert(out@ =~= self.spec_field_text(id as int, strings@));
        }
        out
    }
}

impl EndpointDescriptor {
    /// The displayed text of one endpoint-descriptor field.
    pub open spec fn spec_field_text(self, id: int) -> Seq<char> {
        if id == 0 {
            "Length: "@ + dec_digits(self.length as int) + " bytes"@
        } else if id == 1 {
            "Type: 0x"@ + hex_digits_2(self.descriptor_type as int)
        } else if id == 2 {
            "Address: 0x"@ + hex_digits_2(self.endpoint_address as int)
        } else if id == 3 {
            "Attributes: 0x"@ + hex_digits_2(self.attributes as int)
        } else if id == 4 {
            "Max packet size: "@ + dec_digits(self.max_packet_size as int) + " bytes"@
        } else {
            "Interval: "@ + dec_digits(self.interval as int)
        }
    }

    /// The six displayable fields of an endpoint descriptor.
    pub fn field_text(&self, id: u8) -> (r: String)
        requires
            id < 6,
        ensures
            r@ == self.spec_field_text(id as int),
    {
        let mut out = String::new();
        match id {
            0 => {
                out.append("Length: ");
                push_dec(&mut out, self.length as u64);
                out.append(" bytes");
            },
            1 => {
                out.append("Type: 0x");
                push_hex_2(&mut out, self.descriptor_type);
            },
            2 => {
                out.append("Address: 0x");
                push_hex_2(&mut out, self.endpoint_address);
            },
            3 => {
                out.append("Attributes: 0x");
                push_hex_2(&mut out, self.attributes);
            },
            4 => {
                out.append("Max packet size: ");
                push_dec(&mut out, self.max_packet_size as u64);
                out.append(" bytes");
            },
            _ => {
                out.append("Interval: ");
                push_dec(&mut out, self.interval as u64);
            },
        }
        proof {
            assert(out@ =~= self.spec_field_text(id as int));
        }
        out
    }
}

/// The display name of a descriptor type requested by `GET_DESCRIPTOR`.
pub open spec fn spec_descriptor_type_name(t: u8) -> Seq<char> {
    if t == 1 {
        "device"@
    } else if t == 2 {
        "configuration"@
    } else if t == 3 {
        "string"@
    } else if t == 4 {
        "interface"@
    } else if t == 5 {
        "endpoint"@
    } else {
        "unknown"@
    }
}

pub fn descriptor_type_name(t: u8) -> (r: &'static str)
    ensures
        r@ == spec_descriptor_type_name(t),
{
    if t == 1 {
        "device"
    } else if t == 2 {
        "configuration"
    } else if t == 3 {
        "string"
    } else if t == 4 {
        "interface"
    } else if t == 5 {
        "endpoint"
    } else {
        "unknown"
    }
}

/// A reassembled control transfer: the addressed device, its setup stage,
/// and the data carried by the data stage.
pub struct ControlTransfer {
    pub address: u8,
    pub fields: SetupFields,
    pub data: Vec<u8>,
}

/// The one-line summary of a control transfer with `n` data bytes:
/// standard requests are named, anything else is counted.
pub open spec fn spec_control_summary(address: u8, f: SetupFields, n: int) -> Seq<char> {
    if f.type_fields.spec_kind() == 0 && f.request == 5 {
        "Setting address to "@ + dec_digits(f.value as int)
    } else if f.type_fields.spec_kind() == 0 && f.request == 6 {
        "Getting "@ + spec_descriptor_type_name((f.value / 256) as u8)
            + " descriptor, returned "@ + dec_digits(n) + " bytes"@
    } else if f.type_fields.spec_kind() == 0 && f.request == 9 {
        "Setting configuration "@ + dec_digits(f.value as int)
    } else {
        "Control transfer with "@ + dec_digits(n) + " data bytes on device "@
            + dec_digits(address as int)
    }
}

impl ControlTransfer {
    pub fn summary(&self) -> (r: String)
        ensures
            r@ == spec_control_summary(self.address, self.fields, self.data@.len() as int),
    {
        let mut out = String::new();
        let kind = self.fields.type_fields.kind();
        if kind == 0 && self.fields.request == 5 {
            out.append("Setting address to ");
            push_dec(&mut out, self.fields.value as u64);
        } else if kind == 0 && self.fields.request == 6 {
            out.append("Getting ");
            out.append(descriptor_type_name((self.fields.value / 256) as u8));
            out.append(" descriptor, returned ");
            push_dec(&mut out, self.data.len() as u64);
            out.append(" bytes");
        } else if kind == 0 && self.fields.request == 9 {
            out.append("Setting configuration ");
            push_dec(&mut out, self.fields.value as u64);
        } else {
            out.append("Control transfer with ");
            push_dec(&mut out, self.data.len() as u64);
            out.append(" data bytes on device ");
            push_dec(&mut out, self.address as u64);
        }
        proof {
            assert(out@ =~= spec_control_summary(self.address, self.fields,
                self.data@.len() as int));
        }
        out
    }
}

} // verus!
