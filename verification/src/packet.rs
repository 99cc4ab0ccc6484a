//! The packets that a remote card reader sends, and the emulator processes
//! that the bridge attaches to.

use vstd::prelude::*;
use crate::card::{access_code_008, idm_value};
use crate::numeric::{be_value, digit_char, digit_value, digits_value, hex_upper, push_hex_upper, signed_value};
use crate::text::str_eq;

verus! {

/// The length of every packet.
pub const PACKET_LEN: usize = 17;

/// What the first byte of a packet asks for.
#[derive(PartialEq, Eq, Structural, Clone, Copy, Debug)]
pub enum PacketType {
    /// Bad data.
    BadData,
    CardScan,
    CoinInput,
    TestButton,
    ServiceButton,
    KeypadInput,
}

/// The request that a packet's first byte stands for.
pub open spec fn packet_type_of(value: u8) -> PacketType {
    if value == 1 {
        PacketType::CardScan
    } else if value == 2 {
        PacketType::CoinInput
    } else if value == 3 {
        PacketType::TestButton
    } else if value == 4 {
        PacketType::ServiceButton
    } else if value == 5 {
        PacketType::KeypadInput
    } else {
        PacketType::BadData
    }
}

impl From<u8> for PacketType {
    fn from(value: u8) -> (r: PacketType) {
        match value {
            1 => PacketType::CardScan,
            2 => PacketType::CoinInput,
            3 => PacketType::TestButton,
            4 => PacketType::ServiceButton,
            5 => PacketType::KeypadInput,
            _ => PacketType::BadData,
        }
    }
}

impl vstd::std_specs::convert::FromSpecImpl<u8> for PacketType {
    open spec fn obeys_from_spec() -> bool {
        true
    }

    open spec fn from_spec(v: u8) -> PacketType {
        packet_type_of(v)
    }
}

/// The IDm of a card as the games take it: the eight bytes of the packet
/// read as a big-endian `i64` and written as sixteen upper-case hexadecimal
/// digits (`{:016X}`, two's complement for a negative value).
pub fn card_idm_hex(data: &[u8]) -> (idm: String)
    requires
        data@.len() == 8,
    ensures
        idm@ == hex_upper(data@),
{
    let mut idm = String::new();
    push_hex_upper(&mut idm, data);
    assert(idm@ =~= hex_upper(data@));
    idm
}

/// What a packet asks the bridge to do.
pub enum Packet {
    /// Not exactly seventeen bytes arrived; the packet is dropped.
    Malformed,
    /// A card was scanned; its IDm as hexadecimal text.
    CardScan { idm: String },
    CoinInput,
    TestButton,
    ServiceButton,
    KeypadInput,
    /// An unknown request; the packet is dropped.
    Unknown,
}

/// Decodes a packet: `read_len` is how many bytes arrived into `buffer`.
/// Byte 0 is the request, bytes 1 to 8 the data.
pub fn decode_packet(read_len: usize, buffer: &[u8]) -> (p: Packet)
    requires
        buffer@.len() == PACKET_LEN,
    ensures
        read_len != PACKET_LEN ==> p is Malformed,
        read_len == PACKET_LEN ==> match packet_type_of(buffer@[0]) {
            PacketType::CardScan => p matches Packet::CardScan { idm } && idm@ == hex_upper(
                buffer@.subrange(1, 9),
            ),
            PacketType::CoinInput => p is CoinInput,
            PacketType::TestButton => p is TestButton,
            PacketType::ServiceButton => p is ServiceButton,
            PacketType::KeypadInput => p is KeypadInput,
            PacketType::BadData => p is Unknown,
        },
{
    if read_len != PACKET_LEN {
        return Packet::Malformed;
    }
    match PacketType::from(buffer[0]) {
        PacketType::CardScan => {
            let mut data: Vec<u8> = Vec::new();
            let mut i: usize = 1;
            while i < 9
                invariant
                    buffer@.len() == PACKET_LEN,
                    1 <= i <= 9,
                    data@ == buffer@.subrange(1, i as int),
                decreases 9 - i,
            {
                data.push(buffer[i]);
                i = i + 1;
                assert(data@ =~= buffer@.subrange(1, i as int));
            }
            Packet::CardScan { idm: card_idm_hex(data.as_slice()) }
        },
        PacketType::CoinInput => Packet::CoinInput,
        PacketType::TestButton => Packet::TestButton,
        PacketType::ServiceButton => Packet::ServiceButton,
        PacketType::KeypadInput => Packet::KeypadInput,
        PacketType::BadData => Packet::Unknown,
    }
}

/// The emulators that the bridge attaches to.
#[derive(PartialEq, Eq, Structural, Clone, Copy, Debug)]
pub enum GameKind {
    /// spice, which runs Konami games.
    Spice,
    /// segatools' amdaemon, which runs Sega games.
    SegaTools,
}

/// The emulator that a process of the given (lower-case) executable name
/// belongs to.
pub open spec fn game_kind_of(process_name: Seq<char>) -> Option<GameKind> {
    if process_name == "spice.exe"@ || process_name == "spice64.exe"@ {
        Some(GameKind::Spice)
    } else if process_name == "amdaemon.exe"@ {
        Some(GameKind::SegaTools)
    } else {
        None
    }
}

/// The emulator that a process of the given (lower-case) executable name
/// belongs to, if any.
pub fn game_kind_for_process(process_name: &str) -> (r: Option<GameKind>)
    ensures
        r == game_kind_of(process_name@),
{
    if str_eq(process_name, "spice.exe") || str_eq(process_name, "spice64.exe") {
        Some(GameKind::Spice)
    } else if str_eq(process_name, "amdaemon.exe") {
        Some(GameKind::SegaTools)
    } else {
        None
    }
}

proof fn lemma_hex_upper_shape(bytes: Seq<u8>)
    ensures
        hex_upper(bytes).len() == 2 * bytes.len(),
        forall|i: int| 0 <= i < hex_upper(bytes).len() ==> #[trigger] hex_upper(bytes)[i] != '+'
            && hex_upper(bytes)[i] != '-',
    decreases bytes.len(),
{
    if bytes.len() > 0 {
        lemma_hex_upper_shape(bytes.drop_last());
    }
}

proof fn lemma_hex_upper_value(bytes: Seq<u8>)
    ensures
        digits_value(hex_upper(bytes), 16) == Some(be_value(bytes)),
    decreases bytes.len(),
{
    if bytes.len() > 0 {
        let front = bytes.drop_last();
        let b = bytes.last();
        let hi: nat = (b / 16) as nat;
        let lo: nat = (b % 16) as nat;
        lemma_hex_upper_value(front);
        let h = hex_upper(bytes);
        assert(h.drop_last() =~= hex_upper(front).push(digit_char(hi)));
        assert(h.drop_last().drop_last() =~= hex_upper(front));
        assert(digit_value(digit_char(hi), 16) == Some(hi));
        assert(digit_value(digit_char(lo), 16) == Some(lo));
        assert(h.last() == digit_char(lo));
        assert(h.drop_last().last() == digit_char(hi));
        assert(digits_value(h.drop_last(), 16) == Some(be_value(front) * 16 + hi));
        assert((be_value(front) * 16 + hi) * 16 + lo == be_value(front) * 256 + b);
    }
}

proof fn lemma_be_value_bound(bytes: Seq<u8>)
    requires
        bytes.len() == 8,
    ensures
        bytes[0] < 0x80 ==> be_value(bytes) <= 0x7fff_ffff_ffff_ffff,
        bytes[0] >= 0x80 ==> be_value(bytes) > 0x7fff_ffff_ffff_ffff,
        be_value(bytes) < 0x1_0000_0000_0000_0000,
{
    let b1 = bytes.take(1);
    let b2 = bytes.take(2);
    let b3 = bytes.take(3);
    let b4 = bytes.take(4);
    let b5 = bytes.take(5);
    let b6 = bytes.take(6);
    let b7 = bytes.take(7);
    assert(b1.drop_last() =~= Seq::<u8>::empty());
    assert(b2.drop_last() =~= b1);
    assert(b3.drop_last() =~= b2);
    assert(b4.drop_last() =~= b3);
    assert(b5.drop_last() =~= b4);
    assert(b6.drop_last() =~= b5);
    assert(b7.drop_last() =~= b6);
    assert(bytes.drop_last() =~= b7);
    assert(be_value(Seq::<u8>::empty()) == 0);
    assert(b1.last() == bytes[0]);
    assert(be_value(b1) == bytes[0]);
    assert(be_value(b2) < 0x1_0000);
    assert(be_value(b3) < 0x100_0000);
    assert(be_value(b4) < 0x1_0000_0000);
    assert(be_value(b5) < 0x100_0000_0000);
    assert(be_value(b6) < 0x1_0000_0000_0000);
    assert(be_value(b7) < 0x100_0000_0000_0000);
    assert(bytes[0] < 0x80 ==> be_value(b2) < 0x80_00);
    assert(bytes[0] < 0x80 ==> be_value(b3) < 0x80_0000);
    assert(bytes[0] < 0x80 ==> be_value(b4) < 0x8000_0000);
    assert(bytes[0] < 0x80 ==> be_value(b5) < 0x80_0000_0000);
    assert(bytes[0] < 0x80 ==> be_value(b6) < 0x8000_0000_0000);
    assert(bytes[0] < 0x80 ==> be_value(b7) < 0x80_0000_0000_0000);
    assert(bytes[0] >= 0x80 ==> be_value(b2) >= 0x80_00);
    assert(bytes[0] >= 0x80 ==> be_value(b3) >= 0x80_0000);
    assert(bytes[0] >= 0x80 ==> be_value(b4) >= 0x8000_0000);
    assert(bytes[0] >= 0x80 ==> be_value(b5) >= 0x80_0000_0000);
    assert(bytes[0] >= 0x80 ==> be_value(b6) >= 0x8000_0000_0000);
    assert(bytes[0] >= 0x80 ==> be_value(b7) >= 0x80_0000_0000_0000);
}

/// A scanned card logs in with the 0008 access code of its eight data
/// bytes read as a big-endian number, when that number is a non-negative
/// `i64` (first byte below 0x80); otherwise the IDm text does not parse as an
/// `i64` and the card logs in as IDm 0.
pub proof fn lemma_card_scan_access_code(data: Seq<u8>)
    requires
        data.len() == 8,
    ensures
        data[0] < 0x80 ==> access_code_008(idm_value(hex_upper(data)) as int) == access_code_008(
            be_value(data) as int,
        ),
        data[0] >= 0x80 ==> access_code_008(idm_value(hex_upper(data)) as int) == access_code_008(0),
{
    lemma_hex_upper_shape(data);
    lemma_hex_upper_value(data);
    lemma_be_value_bound(data);
    let h = hex_upper(data);
    assert(h[0] != '+' && h[0] != '-');
    assert(signed_value(h, 16) == Some(be_value(data) as int));
}

} // verus!
