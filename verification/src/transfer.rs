//! The file-transfer wire format and the per-transfer state machine.
//!
//! A transfer connection carries a handshake — a 4-byte big-endian length
//! followed by exactly that many bytes of UTF-8 filename — and then the raw
//! file bytes until the peer closes the connection. The functions here
//! encode and decode that framing; moving the bytes over a socket is the
//! caller's job.

use vstd::prelude::*;
use vstd::utf8::decode_utf8;
use vstd::utf8::encode_utf8;
use vstd::utf8::encode_utf8_decode_utf8;
use vstd::utf8::encode_utf8_valid_utf8;
use vstd::utf8::valid_utf8;

verus! {

/// Size of the buffer used when streaming file bytes over a connection.
pub const CHUNK_SIZE: usize = 1024;

/// The four bytes of `n` from most to least significant.
pub open spec fn spec_u32_to_be_bytes(n: u32) -> Seq<u8> {
    seq![
        ((n >> 24) & 0xff) as u8,
        ((n >> 16) & 0xff) as u8,
        ((n >> 8) & 0xff) as u8,
        (n & 0xff) as u8,
    ]
}

/// The value whose big-endian bytes are `b`, for a 4-byte `b`.
pub open spec fn spec_u32_from_be_bytes(b: Seq<u8>) -> u32
    recommends
        b.len() == 4,
{
    ((b[0] as u32) << 24) | ((b[1] as u32) << 16) | ((b[2] as u32) << 8) | (b[3] as u32)
}

pub proof fn lemma_u32_be_roundtrip(n: u32)
    ensures
        spec_u32_from_be_bytes(spec_u32_to_be_bytes(n)) == n,
{
    assert(((((((n >> 24) & 0xff) as u8) as u32) << 24) | (((((n >> 16) & 0xff) as u8) as u32)
        << 16) | (((((n >> 8) & 0xff) as u8) as u32) << 8) | (((n & 0xff) as u8) as u32)) == n)
        by (bit_vector);
}

/// Writes `n` as its four big-endian bytes.
pub fn u32_to_be(n: u32) -> (r: Vec<u8>)
    ensures
        r@ == spec_u32_to_be_bytes(n),
{
    proof {
        assert((n >> 24) & 0xff < 256 && (n >> 16) & 0xff < 256 && (n >> 8) & 0xff < 256 && n
            & 0xff < 256) by (bit_vector);
    }
    let mut r: Vec<u8> = Vec::new();
    r.push(((n >> 24) & 0xff) as u8);
    r.push(((n >> 16) & 0xff) as u8);
    r.push(((n >> 8) & 0xff) as u8);
    r.push((n & 0xff) as u8);
    proof {
        assert(r@ =~= spec_u32_to_be_bytes(n));
    }
    r
}

/// Reads the value whose big-endian bytes are `b0 b1 b2 b3`.
pub fn u32_from_be(b0: u8, b1: u8, b2: u8, b3: u8) -> (n: u32)
    ensures
        n == spec_u32_from_be_bytes(seq![b0, b1, b2, b3]),
{
    ((b0 as u32) << 24) | ((b1 as u32) << 16) | ((b2 as u32) << 8) | (b3 as u32)
}

/// Why a received stream could not be decoded. Each protocol fault is fatal
/// to its own connection only.
#[derive(Clone, Copy, Debug, PartialEq, Eq, Structural)]
pub enum RecvError {
    /// The stream ended before the 4-byte length prefix was complete.
    ShortHeader,
    /// The stream ended before the announced filename length was reached.
    ShortName,
    /// The filename bytes are not valid UTF-8.
    BadUtf8,
}

/// The handshake for a filename given as bytes: a big-endian length prefix
/// followed by the bytes themselves.
pub open spec fn spec_encode_handshake(name: Seq<u8>) -> Seq<u8>
    recommends
        name.len() <= u32::MAX,
{
    spec_u32_to_be_bytes(name.len() as u32) + name
}

/// The filename bytes announced by the length prefix of `data`, and the
/// offset at which the file bytes begin.
pub open spec fn spec_decode_handshake(data: Seq<u8>) -> Result<(Seq<u8>, int), RecvError> {
    if data.len() < 4 {
        Err(RecvError::ShortHeader)
    } else {
        let n = spec_u32_from_be_bytes(data.subrange(0, 4)) as int;
        if data.len() < 4 + n {
            Err(RecvError::ShortName)
        } else {
            Ok((data.subrange(4, 4 + n), 4 + n))
        }
    }
}

/// Everything a sender puts on the wire for one transfer: the handshake,
/// then the file content.
pub open spec fn spec_encode_transfer(name: Seq<u8>, content: Seq<u8>) -> Seq<u8>
    recommends
        name.len() <= u32::MAX,
{
    spec_encode_handshake(name) + content
}

/// What a receiver makes of a complete stream: the decoded filename and the
/// file content after it.
pub open spec fn spec_decode_transfer(data: Seq<u8>) -> Result<(Seq<char>, Seq<u8>), RecvError> {
    match spec_decode_handshake(data) {
        Err(e) => Err(e),
        Ok((name, off)) => if valid_utf8(name) {
            Ok((decode_utf8(name), data.skip(off)))
        } else {
            Err(RecvError::BadUtf8)
        },
    }
}

/// Builds the handshake for filename bytes `name`.
pub fn encode_handshake(name: &Vec<u8>) -> (r: Vec<u8>)
    requires
        name@.len() <= u32::MAX,
    ensures
        r@ == spec_encode_handshake(name@),
{
    let mut r = u32_to_be(name.len() as u32);
    let mut i: usize = 0;
    while i < name.len()
        invariant
            i <= name@.len(),
            name@.len() <= u32::MAX,
            r@ == spec_u32_to_be_bytes(name@.len() as u32) + name@.take(i as int),
        decreases name@.len() - i,
    {
        proof {
            assert(name@.take(i + 1) =~= name@.take(i as int).push(name@[i as int]));
        }
        r.push(name[i]);
        i = i + 1;
    }
    proof {
        assert(name@.take(name@.len() as int) =~= name@);
    }
    r
}

/// Builds the full wire image of one transfer: handshake, then content.
pub fn encode_transfer(name: &Vec<u8>, content: &Vec<u8>) -> (r: Vec<u8>)
    requires
        name@.len() <= u32::MAX,
    ensures
        r@ == spec_encode_transfer(name@, content@),
{
    let mut r = encode_handshake(name);
    let mut i: usize = 0;
    while i < content.len()
        invariant
            i <= content@.len(),
            name@.len() <= u32::MAX,
            r@ == spec_encode_handshake(name@) + content@.take(i as int),
        decreases content@.len() - i,
    {
        proof {
            assert(content@.take(i + 1) =~= content@.take(i as int).push(content@[i as int]));
        }
        r.push(content[i]);
        i = i + 1;
    }
    proof {
        assert(content@.take(content@.len() as int) =~= content@);
    }
    r
}

/// Builds the handshake a sender writes for the given filename, or `None`
/// when the name's UTF-8 encoding is too long for the 4-byte length prefix.
pub fn handshake_for_name(name: &str) -> (r: Option<Vec<u8>>)
    ensures
        encode_utf8(name@).len() <= u32::MAX ==> (r matches Some(v) && v@
            == spec_encode_handshake(encode_utf8(name@))),
        encode_utf8(name@).len() > u32::MAX ==> r is None,
{
    let bytes = name.as_bytes_vec();
    if bytes.len() > (u32::MAX as usize) {
        None
    } else {
        Some(encode_handshake(&bytes))
    }
}

/// Splits a received stream into the filename bytes and the offset of the
/// first file byte, or says which part of the handshake was short.
pub fn decode_handshake(data: &Vec<u8>) -> (r: Result<(Vec<u8>, usize), RecvError>)
    ensures
        match spec_decode_handshake(data@) {
            Ok(p) => r matches Ok(q) && q.0@ == p.0 && q.1 as int == p.1,
            Err(e) => r matches Err(e2) && e2 == e,
        },
{
    if data.len() < 4 {
        return Err(RecvError::ShortHeader);
    }
    let len = u32_from_be(data[0], data[1], data[2], data[3]);
    proof {
        assert(seq![data@[0], data@[1], data@[2], data@[3]] =~= data@.subrange(0, 4));
    }
    let n = len as usize;
    if data.len() - 4 < n {
        return Err(RecvError::ShortName);
    }
    let mut name: Vec<u8> = Vec::new();
    let mut i: usize = 0;
    while i < n
        invariant
            i <= n,
            n + 4 <= data@.len(),
            data@.len() <= usize::MAX,
            name@ == data@.subrange(4, 4 + i as int),
        decreases n - i,
    {
        proof {
            assert(data@.subrange(4, 4 + (i + 1) as int) =~= data@.subrange(4, 4 + i as int).push(
                data@[4 + i as int],
            ));
        }
        name.push(data[4 + i]);
        i = i + 1;
    }
    Ok((name, 4 + n))
}

/// Decodes a complete stream into the filename and the file content.
pub fn decode_transfer(data: &Vec<u8>) -> (r: Result<(String, Vec<u8>), RecvError>)
    ensures
        match spec_decode_transfer(data@) {
            Ok(p) => r matches Ok(q) && q.0@ == p.0 && q.1@ == p.1,
            Err(e) => r matches Err(e2) && e2 == e,
        },
{
    let (name_bytes, off) = match decode_handshake(data) {
        Ok(p) => p,
        Err(e) => {
            return Err(e);
        },
    };
    let name = match decode_filename(name_bytes) {
        Ok(s) => s,
        Err(e) => {
            return Err(e);
        },
    };
    let mut content: Vec<u8> = Vec::new();
    let mut i: usize = off;
    while i < data.len()
        invariant
            off <= i <= data@.len(),
            content@ == data@.subrange(off as int, i as int),
        decreases data@.len() - i,
    {
        proof {
            assert(data@.subrange(off as int, i + 1) =~= data@.subrange(off as int, i as int).push(
                data@[i as int],
            ));
        }
        content.push(data[i]);
        i = i + 1;
    }
    proof {
        assert(data@.subrange(off as int, data@.len() as int) =~= data@.skip(off as int));
    }
    Ok((name, content))
}

/// Relies on `String::from_utf8`: it succeeds exactly when the bytes are
/// valid UTF-8, and then returns the string those bytes encode.
#[verifier::external_body]
fn string_from_utf8(bytes: Vec<u8>) -> (r: Option<String>)
    ensures
        r is Some <==> valid_utf8(bytes@),
        r matches Some(s) ==> s@ == decode_utf8(bytes@),
{
    String::from_utf8(bytes).ok()
}

/// Turns received filename bytes into the filename, or reports that they
/// are not UTF-8.
pub fn decode_filename(bytes: Vec<u8>) -> (r: Result<String, RecvError>)
    ensures
        valid_utf8(bytes@) ==> (r matches Ok(s) && s@ == decode_utf8(bytes@)),
        !valid_utf8(bytes@) ==> (r matches Err(e) && e == RecvError::BadUtf8),
{
    match string_from_utf8(bytes) {
        Some(s) => Ok(s),
        None => Err(RecvError::BadUtf8),
    }
}

/// Encoding a handshake and decoding it yields the filename bytes unchanged,
/// and places the file content right after them.
pub proof fn lemma_handshake_roundtrip(name: Seq<u8>)
    requires
        name.len() <= u32::MAX,
    ensures
        spec_decode_handshake(spec_encode_handshake(name)) == Ok::<_, RecvError>(
            (name, 4 + name.len() as int),
        ),
{
    let data = spec_encode_handshake(name);
    assert(data.subrange(0, 4) =~= spec_u32_to_be_bytes(name.len() as u32));
    lemma_u32_be_roundtrip(name.len() as u32);
    assert(data.subrange(4, 4 + name.len() as int) =~= name);
}

/// Round trip of a whole transfer: encoding a filename with any file
/// content and decoding the stream yields both back unchanged.
pub proof fn lemma_transfer_roundtrip(name: Seq<char>, content: Seq<u8>)
    requires
        encode_utf8(name).len() <= u32::MAX,
    ensures
        spec_decode_transfer(spec_encode_transfer(encode_utf8(name), content)) == Ok::<
            _,
            RecvError,
        >((name, content)),
{
    broadcast use encode_utf8_valid_utf8, encode_utf8_decode_utf8;

    let nb = encode_utf8(name);
    let data = spec_encode_transfer(nb, content);
    lemma_handshake_roundtrip(nb);
    assert(data.subrange(0, 4) =~= spec_encode_handshake(nb).subrange(0, 4));
    assert(data.len() >= 4 + nb.len());
    assert(data.subrange(4, 4 + nb.len() as int) =~= nb);
    assert(data.skip(4 + nb.len() as int) =~= content);
    let parsed = spec_decode_handshake(data);
    assert(parsed == Ok::<_, RecvError>((nb, 4 + nb.len() as int)));
}

/// A character that separates path components in a received filename.
pub open spec fn is_separator(c: char) -> bool {
    c == '/' || c == '\\'
}

/// The part of `cur + s` after the last separator, where `cur` is the
/// component read so far.
pub open spec fn basename_from(s: Seq<char>, cur: Seq<char>) -> Seq<char>
    decreases s.len(),
{
    if s.len() == 0 {
        cur
    } else if is_separator(s[0]) {
        basename_from(s.drop_first(), Seq::empty())
    } else {
        basename_from(s.drop_first(), cur.push(s[0]))
    }
}

/// The final path component of a received filename: everything after the
/// last `/` or `\`.
pub open spec fn spec_basename(s: Seq<char>) -> Seq<char> {
    basename_from(s, Seq::empty())
}

/// Is `c` a path separator?
fn is_separator_char(c: char) -> (r: bool)
    ensures
        r == is_separator(c),
{
    c == '/' || c == '\\'
}

/// The name a received file is stored under: the final path component of
/// the name the sender announced, so a name with directories in it cannot
/// escape the storage directory; a name with no final component falls back
/// to a fixed one.
pub fn storage_name(name: &str) -> (r: String)
    ensures
        spec_basename(name@).len() > 0 ==> r@ == spec_basename(name@),
        spec_basename(name@).len() == 0 ==> r@ == "received.bin"@,
{
    let n = name.unicode_len();
    proof {
        assert(name@.skip(0) =~= name@);
        assert(name@.subrange(0, 0) =~= Seq::<char>::empty());
    }
    let mut comp_start: usize = 0;
    let mut i: usize = 0;
    while i < n
        invariant
            comp_start <= i <= n == name@.len(),
            basename_from(name@.skip(i as int), name@.subrange(comp_start as int, i as int))
                == spec_basename(name@),
        decreases n - i,
    {
        let c = name.get_char(i);
        proof {
            let rest = name@.skip(i as int);
            assert(rest[0] == name@[i as int]);
            assert(rest.drop_first() =~= name@.skip(i + 1));
            assert(name@.subrange(i + 1, i + 1) =~= Seq::<char>::empty());
            assert(name@.subrange(comp_start as int, i as int).push(name@[i as int])
                =~= name@.subrange(comp_start as int, i + 1));
        }
        if is_separator_char(c) {
            comp_start = i + 1;
        }
        i = i + 1;
    }
    proof {
        assert(name@.skip(n as int) =~= Seq::<char>::empty());
        assert(spec_basename(name@) == name@.subrange(comp_start as int, n as int));
    }
    if comp_start == n {
        String::from_str("received.bin")
    } else {
        let piece = name.substring_char(comp_start, n);
        piece.to_owned()
    }
}

/// The stations a single transfer passes through, on either side of the
/// connection.
#[derive(Clone, Copy, Debug, PartialEq, Eq, Structural)]
pub enum TransferState {
    /// Nothing has happened yet.
    Idle,
    /// The connection is being opened or accepted.
    Connecting,
    /// The sender has written the handshake.
    HandshakeSent,
    /// The receiver has read the handshake.
    HandshakeReceived,
    /// File bytes are moving.
    Streaming,
    /// The stream ended normally.
    Closed,
    /// An I/O error ended the transfer; there is no recovery.
    Failed,
}

/// Which side of the connection a state machine instance tracks.
#[derive(Clone, Copy, Debug, PartialEq, Eq, Structural)]
pub enum TransferRole {
    Sender,
    Receiver,
}

/// What the I/O layer observed since the last step.
#[derive(Clone, Copy, Debug, PartialEq, Eq, Structural)]
pub enum TransferEvent {
    /// The transfer was started: connect (sender) or accept (receiver).
    Begin,
    /// The handshake was fully written or fully read.
    HandshakeDone,
    /// A chunk of file bytes was written or read.
    ChunkMoved,
    /// The stream ended: end of file (sender) or a zero-length read
    /// (receiver).
    EndOfStream,
    /// A read or write failed.
    IoError,
}

/// The next state of a transfer after `event`, from state `s`. `Closed` and
/// `Failed` are absorbing; an event that makes no sense in the current
/// state, and any I/O error, leads to `Failed`.
pub open spec fn spec_transfer_step(
    role: TransferRole,
    s: TransferState,
    event: TransferEvent,
) -> TransferState {
    match s {
        TransferState::Closed => TransferState::Closed,
        TransferState::Failed => TransferState::Failed,
        TransferState::Idle => match event {
            TransferEvent::Begin => TransferState::Connecting,
            _ => TransferState::Failed,
        },
        TransferState::Connecting => match event {
            TransferEvent::HandshakeDone => match role {
                TransferRole::Sender => TransferState::HandshakeSent,
                TransferRole::Receiver => TransferState::HandshakeReceived,
            },
            _ => TransferState::Failed,
        },
        TransferState::HandshakeSent | TransferState::HandshakeReceived => match event {
            TransferEvent::ChunkMoved => TransferState::Streaming,
            TransferEvent::EndOfStream => TransferState::Closed,
            _ => TransferState::Failed,
        },
        TransferState::Streaming => match event {
            TransferEvent::ChunkMoved => TransferState::Streaming,
            TransferEvent::EndOfStream => TransferState::Closed,
            _ => TransferState::Failed,
        },
    }
}

/// Advances a transfer's state by one observed event.
pub fn transfer_step(role: TransferRole, s: TransferState, event: TransferEvent) -> (r:
    TransferState)
    ensures
        r == spec_transfer_step(role, s, event),
{
    match s {
        TransferState::Closed => TransferState::Closed,
        TransferState::Failed => TransferState::Failed,
        TransferState::Idle => match event {
            TransferEvent::Begin => TransferState::Connecting,
            _ => TransferState::Failed,
        },
        TransferState::Connecting => match event {
            TransferEvent::HandshakeDone => match role {
                TransferRole::Sender => TransferState::HandshakeSent,
                TransferRole::Receiver => TransferState::HandshakeReceived,
            },
            _ => TransferState::Failed,
        },
        TransferState::HandshakeSent | TransferState::HandshakeReceived => match event {
            TransferEvent::ChunkMoved => TransferState::Streaming,
            TransferEvent::EndOfStream => TransferState::Closed,
            _ => TransferState::Failed,
        },
        TransferState::Streaming => match event {
            TransferEvent::ChunkMoved => TransferState::Streaming,
            TransferEvent::EndOfStream => TransferState::Closed,
            _ => TransferState::Failed,
        },
    }
}

/// A failed transfer stays failed: no event leads out of `Failed`, so in
/// particular none leads back to `Streaming`.
pub proof fn lemma_failed_absorbing(role: TransferRole, event: TransferEvent)
    ensures
        spec_transfer_step(role, TransferState::Failed, event) == TransferState::Failed,
{
}

/// The stage of a send operation at which a failure occurred.
#[derive(Clone, Copy, Debug, PartialEq, Eq, Structural)]
pub enum SendStage {
    /// Opening the TCP connection to the peer.
    Connect,
    /// Opening the local file.
    OpenFile,
    /// Reading from the local file.
    ReadFile,
    /// Writing to the peer.
    WriteStream,
}

/// A send failure: the stage that failed and the underlying error text.
#[derive(Clone, Debug)]
pub struct SendError {
    pub stage: SendStage,
    pub detail: String,
}

/// The fixed text naming a failed stage.
pub open spec fn stage_label(s: SendStage) -> Seq<char> {
    match s {
        SendStage::Connect => "could not connect to peer: "@,
        SendStage::OpenFile => "could not open file: "@,
        SendStage::ReadFile => "could not read file: "@,
        SendStage::WriteStream => "could not write to peer: "@,
    }
}

impl SendError {
    /// The caller-facing description: which stage failed, then the
    /// underlying error text.
    pub fn message(&self) -> (r: String)
        ensures
            r@ == stage_label(self.stage) + self.detail@,
    {
        let mut r = match self.stage {
            SendStage::Connect => String::from_str("could not connect to peer: "),
            SendStage::OpenFile => String::from_str("could not open file: "),
            SendStage::ReadFile => String::from_str("could not read file: "),
            SendStage::WriteStream => String::from_str("could not write to peer: "),
        };
        r.append(self.detail.as_str());
        r
    }
}

} // verus!
