//! Ethernet frame fields for the packet sniffer.
use vstd::prelude::*;
use vstd::utf8::encode_utf8;

verus! {

/// The EtherType of a frame.
#[derive(Clone, Copy, Debug, PartialEq, Eq, Structural)]
pub enum EtherType {
    Ipv4,
    Arp,
    Unknown(u16),
}

pub open spec fn ether_type_of(value: u16) -> EtherType {
    if value == 0x0800 {
        EtherType::Ipv4
    } else if value == 0x0806 {
        EtherType::Arp
    } else {
        EtherType::Unknown(value)
    }
}

pub open spec fn ether_code(t: EtherType) -> u16 {
    match t {
        EtherType::Ipv4 => 0x0800,
        EtherType::Arp => 0x0806,
        EtherType::Unknown(v) => v,
    }
}

impl EtherType {
    /// The type that a 16-bit EtherType field names.
    pub fn from_u16(value: u16) -> (r: EtherType)
        ensures
            r == ether_type_of(value),
    {
        if value == 0x0800 {
            EtherType::Ipv4
        } else if value == 0x0806 {
            EtherType::Arp
        } else {
            EtherType::Unknown(value)
        }
    }

    /// The 16-bit field value of this type.
    pub fn to_u16(&self) -> (r: u16)
        ensures
            r == ether_code(*self),
    {
        match self {
            EtherType::Ipv4 => 0x0800,
            EtherType::Arp => 0x0806,
            EtherType::Unknown(value) => *value,
        }
    }
}

/// Reading a field value as an EtherType and writing it back gives the same value.
pub proof fn lemma_ether_type_round_trip(value: u16)
    ensures
        ether_code(ether_type_of(value)) == value,
{
}


/// One named field of a decoded payload.
pub open spec fn field_view(f: (String, Vec<u8>)) -> (Seq<char>, Seq<u8>) {
    (f.0@, f.1@)
}

pub open spec fn fields_view(v: Seq<(String, Vec<u8>)>) -> Seq<(Seq<char>, Seq<u8>)> {
    v.map_values(|f: (String, Vec<u8>)| field_view(f))
}

/// The fields of an IPv4 header: version byte, TTL, protocol, addresses.
pub open spec fn ipv4_fields(p: Seq<u8>) -> Seq<(Seq<char>, Seq<u8>)> {
    seq![
        ("IpVersion"@, p.subrange(0, 1)),
        ("Ttl"@, p.subrange(8, 9)),
        ("Protocol"@, p.subrange(9, 10)),
        ("SrcIp"@, p.subrange(12, 16)),
        ("DstIp"@, p.subrange(16, 20)),
    ]
}

/// The fields of an ARP packet.
pub open spec fn arp_fields(p: Seq<u8>) -> Seq<(Seq<char>, Seq<u8>)> {
    seq![
        ("HardwareType"@, p.subrange(0, 2)),
        ("ProtocolType"@, p.subrange(2, 4)),
        ("HardwareSize"@, p.subrange(4, 5)),
        ("ProtocolSize"@, p.subrange(5, 6)),
        ("Opcode"@, p.subrange(6, 8)),
        ("SenderMac"@, p.subrange(8, 14)),
        ("SenderIp"@, p.subrange(14, 18)),
        ("TargetMac"@, p.subrange(18, 24)),
        ("TargetIp"@, p.subrange(24, 28)),
    ]
}

/// The lowercase hexadecimal digit of `d` (below 16).
pub open spec fn hex_lower(d: u8) -> u8 {
    if d < 10 {
        (48 + d) as u8
    } else {
        (87 + d) as u8
    }
}

pub open spec fn hex_pair(b: u8) -> Seq<u8> {
    seq![hex_lower(b / 16), hex_lower(b % 16)]
}

/// A MAC address as `aa:bb:cc:dd:ee:ff`.
pub open spec fn mac_bytes(m: Seq<u8>) -> Seq<u8> {
    hex_pair(m[0]) + seq![58u8] + hex_pair(m[1]) + seq![58u8] + hex_pair(m[2]) + seq![58u8]
        + hex_pair(m[3]) + seq![58u8] + hex_pair(m[4]) + seq![58u8] + hex_pair(m[5])
}

pub open spec fn mac_text(m: Seq<u8>) -> Seq<char> {
    mac_bytes(m).map_values(|b: u8| b as char)
}

fn hex_lower_exec(d: u8) -> (r: u8)
    requires
        d < 16,
    ensures
        r == hex_lower(d),
        r < 128,
{
    if d < 10 {
        48 + d
    } else {
        87 + d
    }
}

/// The header fields of an Ethernet frame and its payload.
pub struct PacketDecoder {
    pub dst_mac: [u8; 6],
    pub src_mac: [u8; 6],
    pub ethertype: EtherType,
    pub payload: Vec<u8>,
}

impl PacketDecoder {
    /// Splits a frame into destination MAC, source MAC, EtherType (big endian)
    /// and payload.
    pub fn from_packet(packet: &[u8]) -> (r: PacketDecoder)
        requires
            packet@.len() >= 14,
        ensures
            r.dst_mac@ == packet@.subrange(0, 6),
            r.src_mac@ == packet@.subrange(6, 12),
            r.ethertype == ether_type_of((packet@[12] as int * 256 + packet@[13] as int) as u16),
            r.payload@ == packet@.subrange(14, packet@.len() as int),
    {
        let dst_mac: [u8; 6] = [packet[0], packet[1], packet[2], packet[3], packet[4], packet[5]];
        let src_mac: [u8; 6] = [packet[6], packet[7], packet[8], packet[9], packet[10], packet[11]];
        assert(dst_mac@ =~= packet@.subrange(0, 6));
        assert(src_mac@ =~= packet@.subrange(6, 12));
        let code: u16 = (packet[12] as u16) * 256 + packet[13] as u16;
        PacketDecoder {
            dst_mac,
            src_mac,
            ethertype: EtherType::from_u16(code),
            payload: crate::text::slice_to_vec(packet, 14, packet.len()),
        }
    }
    /// The named fields of the payload: those of an IPv4 header or of an ARP
    /// packet, none for another EtherType.
    pub fn decode_payload(&self) -> (r: Vec<(String, Vec<u8>)>)
        requires
            self.ethertype == EtherType::Ipv4 ==> self.payload@.len() >= 20,
            self.ethertype == EtherType::Arp ==> self.payload@.len() >= 28,
        ensures
            self.ethertype == EtherType::Ipv4 ==> fields_view(r@) == ipv4_fields(self.payload@),
            self.ethertype == EtherType::Arp ==> fields_view(r@) == arp_fields(self.payload@),
            self.ethertype is Unknown ==> r@.len() == 0,
    {
        match self.ethertype {
            EtherType::Ipv4 => self.decode_payload_ipv4(),
            EtherType::Arp => self.decode_payload_arp(),
            EtherType::Unknown(_) => Vec::new(),
        }
    }

    fn decode_payload_ipv4(&self) -> (r: Vec<(String, Vec<u8>)>)
        requires
            self.payload@.len() >= 20,
        ensures
            fields_view(r@) == ipv4_fields(self.payload@),
    {
        let p = self.payload.as_slice();
        let mut out: Vec<(String, Vec<u8>)> = Vec::new();
        out.push(("IpVersion".to_owned(), crate::text::slice_to_vec(p, 0, 1)));
        out.push(("Ttl".to_owned(), crate::text::slice_to_vec(p, 8, 9)));
        out.push(("Protocol".to_owned(), crate::text::slice_to_vec(p, 9, 10)));
        out.push(("SrcIp".to_owned(), crate::text::slice_to_vec(p, 12, 16)));
        out.push(("DstIp".to_owned(), crate::text::slice_to_vec(p, 16, 20)));
        assert(fields_view(out@) =~= ipv4_fields(self.payload@));
        out
    }

    fn decode_payload_arp(&self) -> (r: Vec<(String, Vec<u8>)>)
        requires
            self.payload@.len() >= 28,
        ensures
            fields_view(r@) == arp_fields(self.payload@),
    {
        let p = self.payload.as_slice();
        let mut out: Vec<(String, Vec<u8>)> = Vec::new();
        out.push(("HardwareType".to_owned(), crate::text::slice_to_vec(p, 0, 2)));
        out.push(("ProtocolType".to_owned(), crate::text::slice_to_vec(p, 2, 4)));
        out.push(("HardwareSize".to_owned(), crate::text::slice_to_vec(p, 4, 5)));
        out.push(("ProtocolSize".to_owned(), crate::text::slice_to_vec(p, 5, 6)));
        out.push(("Opcode".to_owned(), crate::text::slice_to_vec(p, 6, 8)));
        out.push(("SenderMac".to_owned(), crate::text::slice_to_vec(p, 8, 14)));
        out.push(("SenderIp".to_owned(), crate::text::slice_to_vec(p, 14, 18)));
        out.push(("TargetMac".to_owned(), crate::text::slice_to_vec(p, 18, 24)));
        out.push(("TargetIp".to_owned(), crate::text::slice_to_vec(p, 24, 28)));
        assert(fields_view(out@) =~= arp_fields(self.payload@));
        out
    }

    /// A MAC address as six lowercase hex pairs joined by `:`.
    fn format_mac(mac: &[u8; 6]) -> (r: String)
        ensures
            r@ == mac_text(mac@),
    {
        let mut out: Vec<u8> = Vec::new();
        let mut i: usize = 0;
        while i < 6
            invariant
                0 <= i <= 6,
                mac@.len() == 6,
                out@.len() == if i == 0 { 0 } else { 3 * i - 1 },
                forall|k: int| 0 <= k < out@.len() ==> #[trigger] out@[k] < 128,
                out@ == mac_bytes(mac@).subrange(0, out@.len() as int),
            decreases 6 - i,
        {
            let b = mac[i];
            if i > 0 {
                out.push(58u8);
            }
            out.push(hex_lower_exec(b / 16));
            out.push(hex_lower_exec(b % 16));
            assert(out@ =~= mac_bytes(mac@).subrange(0, out@.len() as int));
            i += 1;
        }
        assert(mac_bytes(mac@).len() == 17);
        assert(out@ =~= mac_bytes(mac@));
        let ghost chars = mac_text(mac@);
        proof {
            assert(vstd::utf8::is_ascii_chars(chars)) by {
                assert forall|k: int| 0 <= k < chars.len() implies '\0' <= #[trigger] chars[k]
                    <= '\u{7f}' by {
                    assert(out@[k] < 128);
                }
            }
            vstd::utf8::is_ascii_chars_encode_utf8(chars);
            assert(encode_utf8(chars) =~= out@);
            vstd::utf8::encode_utf8_valid_utf8(chars);
            vstd::utf8::encode_utf8_decode_utf8(chars);
        }
        match crate::message::utf8_string(out) {
            Some(s) => s,
            None => {
                proof {
                    assert(false);
                }
                String::new()
            },
        }
    }

    /// The destination MAC address as text.
    pub fn dst_mac_to_string(&self) -> (r: String)
        ensures
            r@ == mac_text(self.dst_mac@),
    {
        PacketDecoder::format_mac(&self.dst_mac)
    }

    /// The source MAC address as text.
    pub fn src_mac_to_string(&self) -> (r: String)
        ensures
            r@ == mac_text(self.src_mac@),
    {
        PacketDecoder::format_mac(&self.src_mac)
    }
}

} // verus!
