//! Framing of one datagram: the magic tag, the sender's name, the protocol
//! version, the payload length and a CRC-32 of the payload.
use vstd::prelude::*;
use vstd::utf8::decode_utf8;
use vstd::utf8::valid_utf8;
use vstd::string::StringSliceAdditionalSpecFns;

verus! {

/// The version of the protocol; both sides must agree on it.
pub const VERSION: u16 = 1;

/// The largest datagram, header included.
pub const MAX_DATAGRAM: usize = 65536;

/// Why a datagram was not accepted.
#[derive(Debug, Clone, PartialEq, Eq)]
pub enum MagicError {
    /// Not a datagram of this protocol: wrong tag, no name terminator, or a
    /// header cut short. Foreign traffic is ignored silently.
    InvalidMagic,
    /// The sender speaks another version of the protocol (theirs is given).
    InvalidVersion(u16),
    /// The payload is not as long as the header says: the expected length,
    /// then the actual one (saturated at `u16::MAX`).
    LengthMismatch(u16, u16),
    /// The payload does not match its CRC.
    HashMismatch,
    /// The frame was sound but its payload is not a message.
    DecodeError(String),
}

/// CRC-32 (CKSUM parameters) of a byte sequence.
pub uninterp spec fn crc32_cksum(b: Seq<u8>) -> u32;

/// The text that a lossy UTF-8 decoding gives for a byte sequence.
pub uninterp spec fn lossy_utf8(b: Seq<u8>) -> Seq<char>;

/// Relies on crc::Crc::<u32>::checksum with the CRC_32_CKSUM algorithm: the
/// checksum of the bytes given.
#[verifier::external_body]
fn crc32_of(data: &[u8]) -> (r: u32)
    ensures
        r == crc32_cksum(data@),
{
    crc::Crc::<u32>::new(&crc::CRC_32_CKSUM).checksum(data)
}

/// Relies on String::from_utf8_lossy: the text of the bytes, which for valid
/// UTF-8 is exactly what they encode.
#[verifier::external_body]
fn text_of_lossy(b: &[u8]) -> (r: String)
    ensures
        r@ == lossy_utf8(b@),
        valid_utf8(b@) ==> r@ == decode_utf8(b@),
{
    String::from_utf8_lossy(b).to_string()
}

/// The ASCII tag "RustUDPs" that starts every datagram.
pub open spec fn magic_tag() -> Seq<u8> {
    seq![0x52u8, 0x75u8, 0x73u8, 0x74u8, 0x55u8, 0x44u8, 0x50u8, 0x73u8]
}

/// Big-endian bytes of a 16-bit value.
pub open spec fn be16(v: u16) -> Seq<u8> {
    seq![(v / 256) as u8, (v % 256) as u8]
}

/// The 16-bit value of two big-endian bytes.
pub open spec fn be16_value(hi: u8, lo: u8) -> u16 {
    (hi * 256 + lo) as u16
}

/// Big-endian bytes of a 32-bit value.
pub open spec fn be32(v: u32) -> Seq<u8> {
    seq![
        (v / 0x100_0000) as u8,
        ((v / 0x1_0000) % 256) as u8,
        ((v / 256) % 256) as u8,
        (v % 256) as u8,
    ]
}

/// Bytes of the header after the name: terminator, version, length, CRC.
pub open spec fn trailer_len() -> nat {
    9
}

/// The datagram that carries `payload` from the peer named by `name`.
pub open spec fn frame_bytes(name: Seq<u8>, payload: Seq<u8>) -> Seq<u8> {
    magic_tag() + name + seq![0u8] + be16(VERSION) + be16(payload.len() as u16) + be32(
        crc32_cksum(payload),
    ) + payload
}

/// Whether `k` is the position of the first zero byte of `s` at or after 8.
pub open spec fn is_terminator(s: Seq<u8>, k: int) -> bool {
    &&& 8 <= k < s.len()
    &&& s[k] == 0
    &&& forall|j: int| 8 <= j < k ==> s[j] != 0
}

/// Whether some byte at or after position 8 is zero.
pub open spec fn has_terminator(s: Seq<u8>) -> bool {
    exists|k: int| 8 <= k < s.len() && s[k] == 0
}

/// Position of the name terminator (meaningful when `has_terminator`).
pub open spec fn terminator(s: Seq<u8>) -> int {
    choose|k: int| is_terminator(s, k)
}

/// What a datagram decodes to: the sender's name bytes and the payload, or
/// the reason it is refused.
pub open spec fn frame_parse(data: Seq<u8>) -> Result<(Seq<u8>, Seq<u8>), MagicError> {
    if data.len() < 8 || data.subrange(0, 8) != magic_tag() || !has_terminator(data) {
        Err(MagicError::InvalidMagic)
    } else {
        let k = terminator(data);
        if data.len() < k + 3 {
            Err(MagicError::InvalidMagic)
        } else if be16_value(data[k + 1], data[k + 2]) != VERSION {
            Err(MagicError::InvalidVersion(be16_value(data[k + 1], data[k + 2])))
        } else if data.len() < k + trailer_len() {
            Err(MagicError::InvalidMagic)
        } else {
            let length = be16_value(data[k + 3], data[k + 4]);
            let payload = data.subrange(k + trailer_len(), data.len() as int);
            if payload.len() != length {
                Err(
                    MagicError::LengthMismatch(
                        length,
                        if payload.len() > 0xffff {
                            0xffffu16
                        } else {
                            payload.len() as u16
                        },
                    ),
                )
            } else if data.subrange(k + 5, k + 9) != be32(crc32_cksum(payload)) {
                Err(MagicError::HashMismatch)
            } else {
                Ok((data.subrange(8, k), payload))
            }
        }
    }
}

fn magic_byte(i: usize) -> (b: u8)
    requires
        i < 8,
    ensures
        b == magic_tag()[i as int],
{
    match i {
        0 => 0x52,
        1 => 0x75,
        2 => 0x73,
        3 => 0x74,
        4 => 0x55,
        5 => 0x44,
        6 => 0x50,
        _ => 0x73,
    }
}

fn push_be16(out: &mut Vec<u8>, v: u16)
    ensures
        final(out)@ == old(out)@ + be16(v),
{
    out.push((v / 256) as u8);
    out.push((v % 256) as u8);
    assert(final(out)@ =~= old(out)@ + be16(v));
}

fn be32_bytes(v: u32) -> (r: [u8; 4])
    ensures
        r@ == be32(v),
{
    let r = [(v / 0x100_0000) as u8, ((v / 0x1_0000) % 256) as u8, ((v / 256) % 256) as u8, (v % 256) as u8];
    assert(r@ =~= be32(v));
    r
}

pub(crate) fn push_all(out: &mut Vec<u8>, s: &[u8])
    ensures
        final(out)@ == old(out)@ + s@,
{
    let mut i: usize = 0;
    while i < s.len()
        invariant
            0 <= i <= s@.len(),
            out@ == old(out)@ + s@.subrange(0, i as int),
        decreases s@.len() - i,
    {
        out.push(s[i]);
        assert(s@.subrange(0, i + 1) =~= s@.subrange(0, i as int).push(s@[i as int]));
        i = i + 1;
    }
    assert(s@.subrange(0, s@.len() as int) =~= s@);
}

/// Frame `payload` for sending by the peer called `name`.
///
/// Refused (`None`) when the name holds a zero byte, which would end it
/// early, or when the datagram would exceed `MAX_DATAGRAM` bytes.
pub fn make_magic_packet(name: &str, payload: &[u8]) -> (r: Option<Vec<u8>>)
    ensures
        r is Some <==> (!name.spec_bytes().contains(0u8) && name.spec_bytes().len() + 17
            + payload@.len() <= MAX_DATAGRAM),
        r matches Some(v) ==> v@ == frame_bytes(name.spec_bytes(), payload@),
{
    let nb = name.as_bytes();
    let mut i: usize = 0;
    while i < nb.len()
        invariant
            nb@ == name.spec_bytes(),
            0 <= i <= nb@.len(),
            forall|j: int| 0 <= j < i ==> nb@[j] != 0,
        decreases nb@.len() - i,
    {
        if nb[i] == 0 {
            assert(nb@[i as int] == 0u8);
            assert(name.spec_bytes().contains(0u8));
            return None;
        }
        i = i + 1;
    }
    if nb.len() > MAX_DATAGRAM - 17 || payload.len() > MAX_DATAGRAM - 17 - nb.len() {
        return None;
    }
    let mut packet: Vec<u8> = Vec::new();
    let mut t: usize = 0;
    while t < 8
        invariant
            0 <= t <= 8,
            packet@ == magic_tag().subrange(0, t as int),
        decreases 8 - t,
    {
        packet.push(magic_byte(t));
        assert(magic_tag().subrange(0, t + 1) =~= magic_tag().subrange(0, t as int).push(
            magic_tag()[t as int],
        ));
        t = t + 1;
    }
    assert(magic_tag().subrange(0, 8) =~= magic_tag());
    push_all(&mut packet, nb);
    packet.push(0u8);
    push_be16(&mut packet, VERSION);
    push_be16(&mut packet, payload.len() as u16);
    let crc = be32_bytes(crc32_of(payload));
    push_all(&mut packet, &crc);
    push_all(&mut packet, payload);
    assert(packet@ =~= frame_bytes(name.spec_bytes(), payload@));
    Some(packet)
}

proof fn lemma_terminator_unique(s: Seq<u8>, k: int)
    requires
        is_terminator(s, k),
    ensures
        has_terminator(s),
        terminator(s) == k,
{
    assert(is_terminator(s, k));
    let c = terminator(s);
    assert(is_terminator(s, c));
    if c < k {
        assert(s[c] != 0);
    }
    if k < c {
        assert(s[k] != 0);
    }
}

proof fn lemma_be16_value(hi: u8, lo: u8)
    ensures
        be16_value(hi, lo) as int == hi * 256 + lo,
{
}

fn bytes_at(data: &[u8], at: usize, expected: &[u8; 4]) -> (r: bool)
    requires
        at + 4 <= data@.len(),
    ensures
        r == (data@.subrange(at as int, at + 4) == expected@),
{
    let n = data.len();
    let mut t: usize = 0;
    while t < 4
        invariant
            n == data@.len(),
            at + 4 <= n,
            0 <= t <= 4,
            expected@.len() == 4,
            forall|j: int| 0 <= j < t ==> data@[at + j] == expected@[j],
        decreases 4 - t,
    {
        if data[at + t] != expected[t] {
            assert(data@.subrange(at as int, at + 4)[t as int] != expected@[t as int]);
            return false;
        }
        t = t + 1;
    }
    assert(data@.subrange(at as int, at + 4) =~= expected@);
    true
}

/// Read the frame of a datagram: the sender's name and the payload.
pub fn parse_magic(data: &[u8]) -> (r: Result<(String, Vec<u8>), MagicError>)
    ensures
        match frame_parse(data@) {
            Ok((name, payload)) => r matches Ok((n, p)) && n@ == lossy_utf8(name) && p@ == payload,
            Err(e) => r == Err::<(String, Vec<u8>), MagicError>(e),
        },
{
    let n = data.len();
    if n < 8 {
        return Err(MagicError::InvalidMagic);
    }
    let mut i: usize = 0;
    while i < 8
        invariant
            n == data@.len(),
            8 <= n,
            0 <= i <= 8,
            forall|j: int| 0 <= j < i ==> data@[j] == magic_tag()[j],
        decreases 8 - i,
    {
        if data[i] != magic_byte(i) {
            proof {
                assert(data@.subrange(0, 8)[i as int] != magic_tag()[i as int]);
            }
            return Err(MagicError::InvalidMagic);
        }
        i = i + 1;
    }
    assert(data@.subrange(0, 8) =~= magic_tag());
    let mut k: usize = 8;
    while k < n && data[k] != 0
        invariant
            n == data@.len(),
            8 <= k <= n,
            forall|j: int| 8 <= j < k ==> data@[j] != 0,
        decreases n - k,
    {
        k = k + 1;
    }
    if k == n {
        return Err(MagicError::InvalidMagic);
    }
    proof {
        lemma_terminator_unique(data@, k as int);
    }
    if n - k < 3 {
        return Err(MagicError::InvalidMagic);
    }
    let version: u16 = (data[k + 1] as u16) * 256 + (data[k + 2] as u16);
    proof {
        lemma_be16_value(data@[k + 1], data@[k + 2]);
    }
    if version != VERSION {
        return Err(MagicError::InvalidVersion(version));
    }
    if n - k < 9 {
        return Err(MagicError::InvalidMagic);
    }
    let length: u16 = (data[k + 3] as u16) * 256 + (data[k + 4] as u16);
    proof {
        lemma_be16_value(data@[k + 3], data@[k + 4]);
    }
    let payload_slice = &data[k + 9..n];
    let plen = n - (k + 9);
    assert(payload_slice@ =~= data@.subrange(k + 9, n as int));
    if plen != length as usize {
        let actual: u16 = if plen > 0xffff {
            0xffff
        } else {
            plen as u16
        };
        return Err(MagicError::LengthMismatch(length, actual));
    }
    let expected = be32_bytes(crc32_of(payload_slice));
    if !bytes_at(data, k + 5, &expected) {
        return Err(MagicError::HashMismatch);
    }

    let name = text_of_lossy(&data[8..k]);
    let mut payload: Vec<u8> = Vec::new();
    push_all(&mut payload, payload_slice);
    Ok((name, payload))
}

proof fn lemma_be16_round_trip(v: u16)
    ensures
        be16_value(be16(v)[0], be16(v)[1]) == v,
{
    vstd::arithmetic::div_mod::lemma_fundamental_div_mod(v as int, 256);
    assert(v / 256 < 256);
}

/// Decoding a framed payload gives back the sender's name bytes and the
/// payload, for every name without a zero byte whose datagram fits.
pub proof fn lemma_frame_round_trip(name: Seq<u8>, payload: Seq<u8>)
    requires
        !name.contains(0u8),
        name.len() + 17 + payload.len() <= MAX_DATAGRAM,
    ensures
        frame_parse(frame_bytes(name, payload)) == Ok::<(Seq<u8>, Seq<u8>), MagicError>(
            (name, payload),
        ),
{
    let data = frame_bytes(name, payload);
    let k = 8 + name.len() as int;
    let plen = payload.len() as u16;
    assert(data.subrange(0, 8) =~= magic_tag());
    assert forall|j: int| 8 <= j < k implies data[j] != 0 by {
        assert(data[j] == name[j - 8]);
    }
    assert(data[k] == 0);
    lemma_terminator_unique(data, k);
    assert(data[k + 1] == be16(VERSION)[0] && data[k + 2] == be16(VERSION)[1]);
    lemma_be16_round_trip(VERSION);
    assert(data[k + 3] == be16(plen)[0] && data[k + 4] == be16(plen)[1]);
    lemma_be16_round_trip(plen);
    assert(data.subrange(k + trailer_len(), data.len() as int) =~= payload);
    assert(data.subrange(k + 5, k + 9) =~= be32(crc32_cksum(payload)));
    assert(data.subrange(8, k) =~= name);
}

/// A datagram shorter than the smallest frame never decodes to a message.
pub proof fn lemma_short_datagram_refused(data: Seq<u8>)
    requires
        data.len() < 16,
    ensures
        frame_parse(data) is Err,
{
    if data.len() >= 8 && has_terminator(data) {
        let w = choose|k: int| 8 <= k < data.len() && data[k] == 0;
        lemma_first_zero_exists(data, w);
        assert(is_terminator(data, terminator(data)));
    }
}

proof fn lemma_first_zero_exists(s: Seq<u8>, w: int)
    requires
        8 <= w < s.len(),
        s[w] == 0,
    ensures
        exists|k: int| is_terminator(s, k),
    decreases w,
{
    if forall|j: int| 8 <= j < w ==> s[j] != 0 {
        assert(is_terminator(s, w));
    } else {
        let v = choose|j: int| 8 <= j < w && s[j] == 0;
        lemma_first_zero_exists(s, v);
    }
}

} // verus!
