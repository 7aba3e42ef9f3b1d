//! Wire envelopes exchanged over one TCP connection.
//!
//! Every envelope is a four-byte little-endian body length followed by the
//! body. A body starts with a tag byte that names the variant:
//! - client to host: `AudioRequest(name)` is tag 0 and the name in UTF-8;
//! - host to client: `CanStream(b)` is tag 0 and one byte 0 or 1,
//!   `Chunk(frame)` is tag 1 and the compressed frame.

use vstd::prelude::*;
use vstd::utf8::*;

verus! {

/// Bytes of the length header in front of every body.
pub const HEADER_BYTES: usize = 4;

/// Longest body accepted; a longer announced length marks the stream as malformed.
pub const MAX_BODY_BYTES: usize = 65536;

/// Tag of `ClientMessage::AudioRequest`.
pub const TAG_AUDIO_REQUEST: u8 = 0;

/// Tag of `HostMessage::CanStream`.
pub const TAG_CAN_STREAM: u8 = 0;

/// Tag of `HostMessage::Chunk`.
pub const TAG_CHUNK: u8 = 1;

/// Envelopes sent by a client.
pub enum ClientMessage {
    /// Asks to receive the stream under a display name; sent once after connecting.
    AudioRequest(String),
}

/// Envelopes sent by the host.
pub enum HostMessage {
    /// Reply to `AudioRequest`: whether the client will be streamed to.
    CanStream(bool),
    /// One compressed audio frame.
    Chunk(Vec<u8>),
}

/// Outcome of reading one envelope from the front of a byte buffer.
pub enum Decoded<T> {
    /// More bytes are needed before the envelope is complete.
    Incomplete,
    /// The bytes cannot be an envelope of this direction.
    Malformed,
    /// A complete envelope and the number of bytes it occupied.
    Message(T, usize),
}

/// How the front of a buffer splits into header and body.
#[derive(Copy, Clone, Debug, PartialEq, Eq, Structural)]
pub enum Framing {
    /// The header or the body is not complete yet.
    Incomplete,
    /// The header announces a body longer than `MAX_BODY_BYTES`.
    TooLong,
    /// A complete body of this many bytes follows the header.
    Complete(usize),
}

/// The little-endian value of the first four bytes.
pub open spec fn le32(b: Seq<u8>) -> u32
    recommends
        b.len() >= 4,
{
    (b[0] as u32) | ((b[1] as u32) << 8u32) | ((b[2] as u32) << 16u32) | ((b[3] as u32) << 24u32)
}

/// The four little-endian bytes of `n`.
pub open spec fn le32_bytes(n: u32) -> Seq<u8> {
    seq![
        (n & 0xffu32) as u8,
        ((n >> 8u32) & 0xffu32) as u8,
        ((n >> 16u32) & 0xffu32) as u8,
        ((n >> 24u32) & 0xffu32) as u8,
    ]
}

/// An envelope around `body`: its length, then the body.
pub open spec fn envelope(body: Seq<u8>) -> Seq<u8> {
    le32_bytes(body.len() as u32) + body
}

/// How the front of `buf` splits into header and body.
pub open spec fn framing_of(buf: Seq<u8>) -> Framing {
    if buf.len() < HEADER_BYTES {
        Framing::Incomplete
    } else if le32(buf) > MAX_BODY_BYTES {
        Framing::TooLong
    } else if buf.len() < HEADER_BYTES + le32(buf) {
        Framing::Incomplete
    } else {
        Framing::Complete(le32(buf) as usize)
    }
}

/// The body of `n` bytes that follows the header.
pub open spec fn body_of(buf: Seq<u8>, n: nat) -> Seq<u8> {
    buf.subrange(HEADER_BYTES as int, HEADER_BYTES + n)
}

/// Body of `AudioRequest(name)`.
pub open spec fn audio_request_body(name: Seq<char>) -> Seq<u8> {
    seq![TAG_AUDIO_REQUEST] + encode_utf8(name)
}

/// Whether `body` is the body of some `AudioRequest`.
pub open spec fn is_client_body(body: Seq<u8>) -> bool {
    body.len() >= 1 && body[0] == TAG_AUDIO_REQUEST && valid_utf8(body.drop_first())
}

/// Whether `body` is the body of some host envelope.
pub open spec fn is_host_body(body: Seq<u8>) -> bool {
    body.len() >= 1 && (
        (body[0] == TAG_CAN_STREAM && body.len() == 2 && (body[1] == 0 || body[1] == 1))
        || body[0] == TAG_CHUNK)
}

impl View for ClientMessage {
    type V = Seq<char>;

    /// The display name carried by the request.
    open spec fn view(&self) -> Seq<char> {
        match self {
            ClientMessage::AudioRequest(name) => name@,
        }
    }
}

impl ClientMessage {
    /// The body bytes of this envelope.
    pub open spec fn spec_body(&self) -> Seq<u8> {
        audio_request_body(self@)
    }

    /// Encodes this envelope, or gives `None` when its body would exceed `MAX_BODY_BYTES`.
    pub fn encode(&self) -> (r: Option<Vec<u8>>)
        ensures
            self.spec_body().len() <= MAX_BODY_BYTES ==> (r matches Some(bytes) && bytes@
                == envelope(self.spec_body())),
            self.spec_body().len() > MAX_BODY_BYTES ==> r is None,
    {
        match self {
            ClientMessage::AudioRequest(name) => {
                let name_bytes = name.as_str().as_bytes();
                if name_bytes.len() >= MAX_BODY_BYTES {
                    return None;
                }
                let mut body: Vec<u8> = Vec::new();
                body.push(TAG_AUDIO_REQUEST);
                append_bytes(&mut body, name_bytes);
                assert(body@ =~= self.spec_body());
                Some(frame_body(&body))
            },
        }
    }
}

impl HostMessage {
    /// The body bytes of this envelope.
    pub open spec fn spec_body(&self) -> Seq<u8> {
        match self {
            HostMessage::CanStream(b) => seq![TAG_CAN_STREAM, if *b { 1u8 } else { 0u8 }],
            HostMessage::Chunk(frame) => seq![TAG_CHUNK] + frame@,
        }
    }

    /// Encodes this envelope, or gives `None` when its body would exceed `MAX_BODY_BYTES`.
    pub fn encode(&self) -> (r: Option<Vec<u8>>)
        ensures
            self.spec_body().len() <= MAX_BODY_BYTES ==> (r matches Some(bytes) && bytes@
                == envelope(self.spec_body())),
            self.spec_body().len() > MAX_BODY_BYTES ==> r is None,
    {
        let mut body: Vec<u8> = Vec::new();
        match self {
            HostMessage::CanStream(b) => {
                body.push(TAG_CAN_STREAM);
                body.push(if *b { 1u8 } else { 0u8 });
            },
            HostMessage::Chunk(frame) => {
                if frame.len() >= MAX_BODY_BYTES {
                    return None;
                }
                body.push(TAG_CHUNK);
                append_bytes(&mut body, frame.as_slice());
            },
        }
        assert(body@ =~= self.spec_body());
        Some(frame_body(&body))
    }
}

/// Appends `data` to `out`.
pub(crate) fn append_bytes(out: &mut Vec<u8>, data: &[u8])
    ensures
        final(out)@ == old(out)@ + data@,
{
    let mut i: usize = 0;
    while i < data.len()
        invariant
            i <= data@.len(),
            out@ == old(out)@ + data@.subrange(0, i as int),
        decreases data@.len() - i,
    {
        out.push(data[i]);
        i = i + 1;
        assert(out@ =~= old(out)@ + data@.subrange(0, i as int));
    }
    assert(data@.subrange(0, i as int) =~= data@);
}

/// The header bytes of `n` round-trip through `le32`.
pub proof fn lemma_le32_round_trip(n: u32)
    ensures
        le32(le32_bytes(n)) == n,
{
    let b0 = n & 0xffu32;
    let b1 = (n >> 8u32) & 0xffu32;
    let b2 = (n >> 16u32) & 0xffu32;
    let b3 = (n >> 24u32) & 0xffu32;
    assert(b0 < 256 && b1 < 256 && b2 < 256 && b3 < 256) by (bit_vector)
        requires
            b0 == n & 0xffu32,
            b1 == (n >> 8u32) & 0xffu32,
            b2 == (n >> 16u32) & 0xffu32,
            b3 == (n >> 24u32) & 0xffu32,
    ;
    assert(b0 | (b1 << 8u32) | (b2 << 16u32) | (b3 << 24u32) == n) by (bit_vector)
        requires
            b0 == n & 0xffu32,
            b1 == (n >> 8u32) & 0xffu32,
            b2 == (n >> 16u32) & 0xffu32,
            b3 == (n >> 24u32) & 0xffu32,
    ;
    let s = le32_bytes(n);
    assert(s[0] as u32 == b0);
    assert(s[1] as u32 == b1);
    assert(s[2] as u32 == b2);
    assert(s[3] as u32 == b3);
}

/// Puts the length header in front of `body`.
fn frame_body(body: &Vec<u8>) -> (r: Vec<u8>)
    requires
        body@.len() <= MAX_BODY_BYTES,
    ensures
        r@ == envelope(body@),
{
    let n = body.len() as u32;
    let mut out: Vec<u8> = Vec::with_capacity(HEADER_BYTES + body.len());
    out.push((n & 0xffu32) as u8);
    out.push(((n >> 8u32) & 0xffu32) as u8);
    out.push(((n >> 16u32) & 0xffu32) as u8);
    out.push(((n >> 24u32) & 0xffu32) as u8);
    append_bytes(&mut out, body.as_slice());
    assert(out@ =~= envelope(body@));
    out
}

/// Reads how the front of `buf` splits into header and body.
pub fn read_framing(buf: &[u8]) -> (r: Framing)
    ensures
        r == framing_of(buf@),
{
    if buf.len() < HEADER_BYTES {
        return Framing::Incomplete;
    }
    let n: u32 = (buf[0] as u32) | ((buf[1] as u32) << 8u32) | ((buf[2] as u32) << 16u32) | ((
    buf[3] as u32) << 24u32);
    assert(n == le32(buf@));
    if n as usize > MAX_BODY_BYTES {
        Framing::TooLong
    } else if buf.len() - HEADER_BYTES < n as usize {
        Framing::Incomplete
    } else {
        Framing::Complete(n as usize)
    }
}

/// Relies on std::str::from_utf8: it accepts exactly the valid UTF-8
/// sequences and then reads them as the characters they encode.
#[verifier::external_body]
pub(crate) fn utf8_str(bytes: &[u8]) -> (r: Option<&str>)
    ensures
        r is Some <==> valid_utf8(bytes@),
        r matches Some(s) ==> s@ == decode_utf8(bytes@),
{
    std::str::from_utf8(bytes).ok()
}

/// Reads one client envelope from the front of `buf`.
pub fn decode_client(buf: &[u8]) -> (r: Decoded<ClientMessage>)
    ensures
        framing_of(buf@) == Framing::Incomplete ==> r is Incomplete,
        framing_of(buf@) == Framing::TooLong ==> r is Malformed,
        framing_of(buf@) matches Framing::Complete(n) ==> {
            let body = body_of(buf@, n as nat);
            &&& is_client_body(body) ==> (r matches Decoded::Message(m, used) && used
                == HEADER_BYTES + n && m.spec_body() == body)
            &&& !is_client_body(body) ==> r is Malformed
        },
{
    match read_framing(buf) {
        Framing::Incomplete => Decoded::Incomplete,
        Framing::TooLong => Decoded::Malformed,
        Framing::Complete(n) => {
            let body = &buf[HEADER_BYTES..HEADER_BYTES + n];
            assert(body@ == body_of(buf@, n as nat));
            if n == 0 || body[0] != TAG_AUDIO_REQUEST {
                return Decoded::Malformed;
            }
            let text = &body[1..n];
            assert(text@ =~= body@.drop_first());
            match utf8_str(text) {
                None => Decoded::Malformed,
                Some(s) => {
                    let name = s.to_owned();
                    let m = ClientMessage::AudioRequest(name);
                    proof {
                        vstd::utf8::decode_utf8_encode_utf8(text@);
                        assert(m.spec_body() =~= body@);
                    }
                    Decoded::Message(m, HEADER_BYTES + n)
                },
            }
        },
    }
}

/// Reads one host envelope from the front of `buf`.
pub fn decode_host(buf: &[u8]) -> (r: Decoded<HostMessage>)
    ensures
        framing_of(buf@) == Framing::Incomplete ==> r is Incomplete,
        framing_of(buf@) == Framing::TooLong ==> r is Malformed,
        framing_of(buf@) matches Framing::Complete(n) ==> {
            let body = body_of(buf@, n as nat);
            &&& is_host_body(body) ==> (r matches Decoded::Message(m, used) && used
                == HEADER_BYTES + n && m.spec_body() == body)
            &&& !is_host_body(body) ==> r is Malformed
        },
{
    match read_framing(buf) {
        Framing::Incomplete => Decoded::Incomplete,
        Framing::TooLong => Decoded::Malformed,
        Framing::Complete(n) => {
            let body = &buf[HEADER_BYTES..HEADER_BYTES + n];
            assert(body@ == body_of(buf@, n as nat));
            if n == 0 {
                return Decoded::Malformed;
            }
            if body[0] == TAG_CAN_STREAM {
                if n != 2 || (body[1] != 0 && body[1] != 1) {
                    return Decoded::Malformed;
                }
                let m = HostMessage::CanStream(body[1] == 1);
                assert(m.spec_body() =~= body@);
                Decoded::Message(m, HEADER_BYTES + n)
            } else if body[0] == TAG_CHUNK {
                let mut frame: Vec<u8> = Vec::new();
                append_bytes(&mut frame, &body[1..n]);
                let m = HostMessage::Chunk(frame);
                assert(m.spec_body() =~= body@);
                Decoded::Message(m, HEADER_BYTES + n)
            } else {
                Decoded::Malformed
            }
        },
    }
}

/// Any envelope within the size limit, followed by any bytes, frames as
/// exactly its own body.
pub proof fn lemma_envelope_framing(body: Seq<u8>, rest: Seq<u8>)
    requires
        body.len() <= MAX_BODY_BYTES,
    ensures
        framing_of(envelope(body) + rest) == Framing::Complete(body.len() as usize),
        body_of(envelope(body) + rest, body.len()) == body,
{
    let buf = envelope(body) + rest;
    lemma_le32_round_trip(body.len() as u32);
    assert(buf.subrange(0, 4) =~= le32_bytes(body.len() as u32));
    assert(le32(buf) == le32(le32_bytes(body.len() as u32)));
    assert(body_of(buf, body.len()) =~= body);
}

/// A client envelope, followed by any bytes, decodes to a request with the
/// same display name.
pub proof fn lemma_client_round_trip(m: ClientMessage, rest: Seq<u8>)
    requires
        m.spec_body().len() <= MAX_BODY_BYTES,
    ensures
        framing_of(envelope(m.spec_body()) + rest) == Framing::Complete(
            m.spec_body().len() as usize,
        ),
        is_client_body(body_of(envelope(m.spec_body()) + rest, m.spec_body().len())),
        forall|d: ClientMessage| #[trigger] d.spec_body() == m.spec_body() ==> d@ == m@,
{
    lemma_envelope_framing(m.spec_body(), rest);
    assert(m.spec_body().drop_first() =~= encode_utf8(m@));
    encode_utf8_valid_utf8(m@);
    assert forall|d: ClientMessage| #[trigger] d.spec_body() == m.spec_body() implies d@ == m@ by {
        assert(d.spec_body().drop_first() =~= encode_utf8(d@));
        encode_utf8_decode_utf8(d@);
        encode_utf8_decode_utf8(m@);
    }
}

/// A host envelope, followed by any bytes, decodes to the same variant with
/// the same contents.
pub proof fn lemma_host_round_trip(m: HostMessage, rest: Seq<u8>)
    requires
        m.spec_body().len() <= MAX_BODY_BYTES,
    ensures
        framing_of(envelope(m.spec_body()) + rest) == Framing::Complete(
            m.spec_body().len() as usize,
        ),
        is_host_body(body_of(envelope(m.spec_body()) + rest, m.spec_body().len())),
{
    lemma_envelope_framing(m.spec_body(), rest);
    lemma_host_body_valid(m);
}

proof fn lemma_host_body_valid(m: HostMessage)
    ensures
        is_host_body(m.spec_body()),
{
    match m {
        HostMessage::Chunk(b) => {
            assert(m.spec_body()[0] == TAG_CHUNK);
        },
        HostMessage::CanStream(b) => {
            assert(m.spec_body()[0] == TAG_CAN_STREAM);
        },
    }
}

/// Two host envelopes with the same body are the same message.
pub proof fn lemma_host_body_injective(d: HostMessage, m: HostMessage)
    requires
        d.spec_body() == m.spec_body(),
    ensures
        same_host_message(d, m),
{
    let bd = d.spec_body();
    let bm = m.spec_body();
    match d {
        HostMessage::Chunk(a) => {
            assert(bd[0] == TAG_CHUNK);
            match m {
                HostMessage::Chunk(b) => {
                    assert(a@ =~= bd.drop_first());
                    assert(b@ =~= bm.drop_first());
                },
                HostMessage::CanStream(b) => {
                    assert(bm[0] == TAG_CAN_STREAM);
                },
            }
        },
        HostMessage::CanStream(a) => {
            assert(bd[0] == TAG_CAN_STREAM);
            match m {
                HostMessage::Chunk(b) => {
                    assert(bm[0] == TAG_CHUNK);
                },
                HostMessage::CanStream(b) => {
                    assert(bd[1] == bm[1]);
                },
            }
        },
    }
}

/// Whether two host envelopes are the same variant with equal contents.
pub open spec fn same_host_message(a: HostMessage, b: HostMessage) -> bool {
    match (a, b) {
        (HostMessage::CanStream(x), HostMessage::CanStream(y)) => x == y,
        (HostMessage::Chunk(x), HostMessage::Chunk(y)) => x@ == y@,
        _ => false,
    }
}

} // verus!
