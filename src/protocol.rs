//! The request/response frame: header model, length-prefixed framing and
//! correlation ids.

use std::collections::HashMap;

use byteorder::{BigEndian, ByteOrder, WriteBytesExt};
use vstd::prelude::*;

verus! {

/// Size of the header-length field that the total length counts.
pub const HEADER_LENGTH_FIELD: usize = 4;

/// The largest length a frame may declare (lengths travel as signed 32-bit
/// integers).
pub const MAX_FRAME_LENGTH: u32 = 0x7fff_ffff;

/// Protocol revision written into every header built here.
pub const PROTOCOL_VERSION: isize = 431;

/// Why a frame could not be encoded or decoded.
#[derive(Debug, Clone, Copy, PartialEq, Eq, Structural)]
pub enum FramingError {
    /// The buffer ends before the lengths it declares.
    Truncated,
    /// A declared length is negative or inconsistent with the others.
    BadLength,
    /// The header bytes could not be produced or do not form a header.
    BadHeader,
    /// The frame would not fit in a signed 32-bit length.
    TooLarge,
}

/// The four bytes of `n`, most significant first.
pub open spec fn be32(n: u32) -> Seq<u8> {
    seq![(n >> 24u32) as u8, (n >> 16u32) as u8, (n >> 8u32) as u8, n as u8]
}

/// The number held by the first four bytes of `s`, most significant first.
pub open spec fn be32_value(s: Seq<u8>) -> u32
    recommends
        s.len() >= 4,
{
    ((s[0] as u32) << 24u32) | ((s[1] as u32) << 16u32) | ((s[2] as u32) << 8u32) | (s[3] as u32)
}

/// Whether a frame with this much header and body fits the length field.
pub open spec fn frame_fits(header_len: nat, body_len: nat) -> bool {
    HEADER_LENGTH_FIELD + header_len + body_len <= MAX_FRAME_LENGTH
}

/// The bytes of a frame: total length, header length, header, body.
pub open spec fn frame_bytes(header: Seq<u8>, body: Seq<u8>) -> Seq<u8> {
    be32((HEADER_LENGTH_FIELD + header.len() + body.len()) as u32) + be32(header.len() as u32)
        + header + body
}

/// The declared total length of a buffer that holds at least eight bytes.
pub open spec fn declared_total(input: Seq<u8>) -> u32 {
    be32_value(input)
}

/// The declared header length of a buffer that holds at least eight bytes.
pub open spec fn declared_header(input: Seq<u8>) -> u32 {
    be32_value(input.subrange(4, 8))
}

/// What decoding a buffer yields: the header bytes and the body, or why not.
/// Bytes after the declared frame are not part of it.
pub open spec fn frame_parts(input: Seq<u8>) -> Result<(Seq<u8>, Seq<u8>), FramingError> {
    if input.len() < 8 {
        Err(FramingError::Truncated)
    } else {
        let total = declared_total(input);
        let hlen = declared_header(input);
        if total > MAX_FRAME_LENGTH || hlen > MAX_FRAME_LENGTH || (total as int) < HEADER_LENGTH_FIELD
            + hlen {
            Err(FramingError::BadLength)
        } else if input.len() < 4 + total {
            Err(FramingError::Truncated)
        } else {
            Ok(
                (
                    input.subrange(8, 8 + hlen),
                    input.subrange(8 + hlen, 4 + total),
                ),
            )
        }
    }
}

/// Relies on byteorder's `BigEndian::read_u32`: the first four bytes of the
/// slice read most significant first (it panics on fewer than four).
#[verifier::external_body]
fn read_be_u32(buf: &[u8]) -> (r: u32)
    requires
        buf@.len() >= 4,
    ensures
        r == be32_value(buf@),
{
    BigEndian::read_u32(buf)
}

/// Relies on byteorder's `WriteBytesExt::write_u32::<BigEndian>`: appends the
/// four bytes of `n`, most significant first; writing to a `Vec` never fails.
#[verifier::external_body]
fn write_be_u32(buf: &mut Vec<u8>, n: u32)
    ensures
        final(buf)@ == old(buf)@ + be32(n),
{
    let _ = buf.write_u32::<BigEndian>(n);
}

/// Reading back the four bytes of a number gives the number.
pub proof fn lemma_be32_round_trip(n: u32)
    ensures
        be32_value(be32(n)) == n,
{
    let b0 = (n >> 24u32) as u8;
    let b1 = (n >> 16u32) as u8;
    let b2 = (n >> 8u32) as u8;
    let b3 = n as u8;
    assert(((b0 as u32) << 24u32) | ((b1 as u32) << 16u32) | ((b2 as u32) << 8u32) | (b3 as u32)
        == n) by (bit_vector)
        requires
            b0 == (n >> 24u32) as u8,
            b1 == (n >> 16u32) as u8,
            b2 == (n >> 8u32) as u8,
            b3 == n as u8,
    ;
}

/// Builds the frame for the given header bytes and body, or fails with
/// `TooLarge` when the total length would not fit.
pub fn encode_frame(header: &[u8], body: &[u8]) -> (r: Result<Vec<u8>, FramingError>)
    ensures
        frame_fits(header@.len(), body@.len()) ==> r is Ok && r->Ok_0@ == frame_bytes(
            header@,
            body@,
        ),
        !frame_fits(header@.len(), body@.len()) ==> r == Err::<Vec<u8>, FramingError>(
            FramingError::TooLarge,
        ),
{
    let hlen = header.len();
    let blen = body.len();
    if hlen > MAX_FRAME_LENGTH as usize || blen > MAX_FRAME_LENGTH as usize
        || HEADER_LENGTH_FIELD as u64 + hlen as u64 + blen as u64 > MAX_FRAME_LENGTH as u64 {
        return Err(FramingError::TooLarge);
    }
    let total = (HEADER_LENGTH_FIELD as u64 + hlen as u64 + blen as u64) as u32;
    let mut out: Vec<u8> = Vec::new();
    write_be_u32(&mut out, total);
    write_be_u32(&mut out, hlen as u32);
    let mut h = vstd::slice::slice_to_vec(header);
    out.append(&mut h);
    let mut b = vstd::slice::slice_to_vec(body);
    out.append(&mut b);
    Ok(out)
}

/// Splits a frame into its header bytes and body, as `frame_parts` says.
pub fn decode_frame(input: &[u8]) -> (r: Result<(Vec<u8>, Vec<u8>), FramingError>)
    ensures
        match (r, frame_parts(input@)) {
            (Ok((h, b)), Ok((hs, bs))) => h@ == hs && b@ == bs,
            (Err(e), Err(es)) => e == es,
            _ => false,
        },
{
    if input.len() < 8 {
        return Err(FramingError::Truncated);
    }
    let total = read_be_u32(input);
    let rest = &input[4..8];
    let hlen = read_be_u32(rest);
    proof {
        assert(rest@ == input@.subrange(4, 8));
    }
    if total > MAX_FRAME_LENGTH || hlen > MAX_FRAME_LENGTH || (total as u64)
        < HEADER_LENGTH_FIELD as u64 + hlen as u64 {
        return Err(FramingError::BadLength);
    }
    if (input.len() as u64) - 4 < total as u64 {
        return Err(FramingError::Truncated);
    }
    let hend = 8 + hlen as usize;
    let fend = 4 + total as usize;
    let header = vstd::slice::slice_to_vec(&input[8..hend]);
    let body = vstd::slice::slice_to_vec(&input[hend..fend]);
    Ok((header, body))
}

/// Decoding an encoded frame gives back the header bytes and the body.
pub proof fn lemma_frame_round_trip(header: Seq<u8>, body: Seq<u8>)
    requires
        frame_fits(header.len(), body.len()),
    ensures
        frame_parts(frame_bytes(header, body)) == Ok::<(Seq<u8>, Seq<u8>), FramingError>(
            (header, body),
        ),
{
    let total = (HEADER_LENGTH_FIELD + header.len() + body.len()) as u32;
    let hlen = header.len() as u32;
    let f = frame_bytes(header, body);
    lemma_be32_round_trip(total);
    lemma_be32_round_trip(hlen);
    assert(f.subrange(0, 4) == be32(total));
    assert(f.subrange(4, 8) == be32(hlen));
    assert(be32_value(f) == be32_value(f.subrange(0, 4)));
    assert(f.subrange(8, 8 + hlen) == header);
    assert(f.subrange(8 + hlen, 4 + total) == body);
}


/// Decoding what `RemoteCommand::encode` gave for a header and a body, with
/// any bytes after it, finds header bytes that parse to that same header and
/// the same body: `RemoteCommand::from_buffer` then returns `Ok` with both.
pub proof fn lemma_command_round_trip(bytes: Seq<u8>, extra: Seq<u8>, header: Header, body: Seq<u8>)
    requires
        exists|h: Seq<u8>|
            frame_fits(h.len(), body.len()) && header_of_json(h) == Some(header_model(header))
                && bytes == #[trigger] frame_bytes(h, body),
    ensures
        frame_parts(bytes + extra) is Ok,
        header_of_json(frame_parts(bytes + extra)->Ok_0.0) == Some(header_model(header)),
        frame_parts(bytes + extra)->Ok_0.1 == body,
{
    let h = choose|h: Seq<u8>|
        frame_fits(h.len(), body.len()) && header_of_json(h) == Some(header_model(header))
            && bytes == #[trigger] frame_bytes(h, body);
    lemma_frame_round_trip(h, body);
    let f = bytes + extra;
    assert(f.subrange(0, 4) == bytes.subrange(0, 4));
    assert(f.subrange(4, 8) == bytes.subrange(4, 8));
    assert(be32_value(f) == be32_value(f.subrange(0, 4)));
    assert(be32_value(bytes) == be32_value(bytes.subrange(0, 4)));
    let hlen = h.len() as int;
    let total = 4 + h.len() as int + body.len() as int;
    assert(f.subrange(8, 8 + hlen) == bytes.subrange(8, 8 + hlen));
    assert(f.subrange(8 + hlen, 4 + total) == bytes.subrange(8 + hlen, 4 + total));
}

/// The extensible request/response header.
#[derive(Debug, Clone, PartialEq)]
pub struct Header {
    /// Command kind.
    pub code: isize,
    /// Language tag of the sender.
    pub language: String,
    /// Protocol revision.
    pub version: isize,
    /// Correlation id.
    pub opaque: i32,
    /// Request/response/one-way bits, passed through as is.
    pub flag: isize,
    /// Free text.
    pub remark: String,
    /// Extensible parameters.
    pub ext_fields: HashMap<String, String>,
}

/// A header and its body: one unit on the wire.
#[derive(Debug, Clone, PartialEq)]
pub struct RemoteCommand {
    pub header: Header,
    pub body: Vec<u8>,
}

/// The next correlation id after `v`; after the largest comes the smallest.
pub open spec fn next_opaque(v: i32) -> i32 {
    if v == i32::MAX {
        i32::MIN
    } else {
        (v + 1) as i32
    }
}

/// The correlation id drawn `n` draws after the one that `v` would give.
pub open spec fn opaque_after(v: i32, n: nat) -> i32
    decreases n,
{
    if n == 0 {
        v
    } else {
        next_opaque(opaque_after(v, (n - 1) as nat))
    }
}

/// Hands out correlation ids, starting at 0 and rising by one per command.
/// One counter is shared by everything that builds frames for a connection.
#[derive(Debug)]
pub struct OpaqueCounter {
    next: i32,
}

impl OpaqueCounter {
    /// The id that the next draw returns.
    pub closed spec fn peek(&self) -> i32 {
        self.next
    }

    pub fn new() -> (r: Self)
        ensures
            r.peek() == 0,
    {
        OpaqueCounter { next: 0 }
    }

    /// Returns the current id and moves on to the next one.
    pub fn draw(&mut self) -> (r: i32)
        ensures
            r == old(self).peek(),
            final(self).peek() == next_opaque(old(self).peek()),
    {
        let r = self.next;
        self.next = if r == i32::MAX {
            i32::MIN
        } else {
            r + 1
        };
        r
    }
}

/// Ids drawn one after another from one counter rise strictly, as long as
/// the counter does not pass the largest 32-bit value on the way.
pub proof fn lemma_opaque_increasing(start: i32, i: nat, j: nat)
    requires
        i < j,
        start + j <= i32::MAX,
    ensures
        opaque_after(start, i) < opaque_after(start, j),
        opaque_after(start, j) == start + j,
{
    lemma_opaque_after_no_wrap(start, j);
    lemma_opaque_after_no_wrap(start, i);
}

proof fn lemma_opaque_after_no_wrap(start: i32, n: nat)
    requires
        start + n <= i32::MAX,
    ensures
        opaque_after(start, n) == start + n,
    decreases n,
{
    if n > 0 {
        lemma_opaque_after_no_wrap(start, (n - 1) as nat);
    }
}

/// What `serde_json::from_slice` reads from header bytes, as plain values:
/// code, language, version, opaque, flag, remark and extension fields.
pub uninterp spec fn header_of_json(b: Seq<u8>) -> Option<
    (int, Seq<char>, int, i32, int, Seq<char>, Map<Seq<char>, Seq<char>>),
>;

/// The fields of a header as plain values.
pub open spec fn header_model(h: Header) -> (
    int,
    Seq<char>,
    int,
    i32,
    int,
    Seq<char>,
    Map<Seq<char>, Seq<char>>,
) {
    (
        h.code as int,
        h.language@,
        h.version as int,
        h.opaque,
        h.flag as int,
        h.remark@,
        h.ext_fields.deep_view(),
    )
}

/// How many bytes `serde_json::to_vec` writes for a header with these
/// fields; the order in which the map is walked moves bytes, not their count.
pub uninterp spec fn header_json_len(
    m: (int, Seq<char>, int, i32, int, Seq<char>, Map<Seq<char>, Seq<char>>),
) -> nat;

/// Relies on `serde_json::to_vec`: the header's fields, in declaration order,
/// as one JSON array. Integers, strings and a map with string keys always
/// serialize, and serde_json reads the same values back from the bytes.
#[verifier::external_body]
fn header_to_json(h: &Header) -> (r: Option<Vec<u8>>)
    ensures
        r is Some,
        header_of_json(r->Some_0@) == Some(header_model(*h)),
        r->Some_0@.len() == header_json_len(header_model(*h)),
{
    serde_json::to_vec(
        &(h.code, &h.language, h.version, h.opaque, h.flag, &h.remark, &h.ext_fields),
    ).ok()
}

/// Relies on `serde_json::from_slice`: reads a JSON array of the header's
/// fields in declaration order. `None` where serde_json reports an error.
#[verifier::external_body]
fn header_from_json(b: &[u8]) -> (r: Option<Header>)
    ensures
        match r {
            Some(x) => header_of_json(b@) == Some(header_model(x)),
            None => header_of_json(b@) is None,
        },
{
    serde_json::from_slice::<(isize, String, isize, i32, isize, String, HashMap<String, String>)>(
        b,
    ).ok().map(
        |(code, language, version, opaque, flag, remark, ext_fields)|
            Header { code, language, version, opaque, flag, remark, ext_fields },
    )
}

impl RemoteCommand {
    /// A command whose header speaks the default language tag and protocol
    /// revision and carries the next id of `opaque`.
    pub fn new(
        code: isize,
        flag: isize,
        remark: String,
        fields: HashMap<String, String>,
        body: Vec<u8>,
        opaque: &mut OpaqueCounter,
    ) -> (r: Self)
        ensures
            r.header.code == code,
            r.header.flag == flag,
            r.header.remark == remark,
            r.header.ext_fields == fields,
            r.header.language@ == "OTHER"@,
            r.header.version == PROTOCOL_VERSION,
            r.header.opaque == old(opaque).peek(),
            final(opaque).peek() == next_opaque(old(opaque).peek()),
            r.body == body,
    {
        let id = opaque.draw();
        RemoteCommand {
            header: Header {
                code,
                language: String::from_str("OTHER"),
                version: PROTOCOL_VERSION,
                opaque: id,
                flag,
                remark,
                ext_fields: fields,
            },
            body,
        }
    }

    /// The command on the wire: the frame of its serialized header and its
    /// body. Fails, with `TooLarge`, exactly where the frame does not fit.
    pub fn encode(&self) -> (r: Result<Vec<u8>, FramingError>)
        ensures
            r is Ok <==> frame_fits(header_json_len(header_model(self.header)), self.body@.len()),
            match r {
                Ok(bytes) => exists|h: Seq<u8>|
                    h.len() == header_json_len(header_model(self.header)) && frame_fits(
                        h.len(),
                        self.body@.len(),
                    ) && header_of_json(h) == Some(header_model(self.header)) && bytes@
                        == #[trigger] frame_bytes(h, self.body@),
                Err(e) => e == FramingError::TooLarge,
            },
    {
        match header_to_json(&self.header) {
            None => Err(FramingError::BadHeader),
            Some(h) => encode_frame(h.as_slice(), self.body.as_slice()),
        }
    }

    /// Reads a command from the front of `input`. Fails as `frame_parts` says
    /// where the framing is wrong, and with `BadHeader` where the header bytes
    /// are not a header.
    pub fn from_buffer(input: &[u8]) -> (r: Result<Self, FramingError>)
        ensures
            match (r, frame_parts(input@)) {
                (Ok(c), Ok((hb, body))) => header_of_json(hb) == Some(header_model(c.header))
                    && c.body@ == body,
                (Err(e), Ok((hb, _))) => e == FramingError::BadHeader && header_of_json(hb) is None,
                (Err(e), Err(es)) => e == es,
                (Ok(_), Err(_)) => false,
            },
    {
        match decode_frame(input) {
            Err(e) => Err(e),
            Ok((h, body)) => match header_from_json(h.as_slice()) {
                None => Err(FramingError::BadHeader),
                Some(header) => Ok(RemoteCommand { header, body }),
            },
        }
    }
}

} // verus!
