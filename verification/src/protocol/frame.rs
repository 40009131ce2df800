//! Frames: their byte layout, and how a payload is cut into them.
use vstd::prelude::*;
use vstd::string::*;
use vstd::utf8::*;
use crate::protocol::bytes::{copy_range, le16, le32, lemma_le_read_back, lowest_byte_comes_first, push_bytes, push_u16, push_u32, read_u16, read_u32, u16_at, u32_at};
use crate::text::{copy_str, decimal, hex_byte, push_decimal, push_hex_byte, string_from_utf8};

verus! {

pub const FRAME_MAGIC: u8 = 0xA5;

pub const PROTO_VERSION: u8 = 1;

pub const FRAME_TASK: u8 = 1;

pub const FRAME_RESULT: u8 = 2;

/// Keep frames comfortably under common SCTP message-size limits.
pub const MAX_FRAME_PAYLOAD: usize = 60_000;

/// One data-channel message.
#[derive(Debug, Clone)]
pub struct Frame {
    pub ftype: u8,
    pub transfer_id: String,
    pub frame_seq: u32,
    pub total_frames: u32,
    pub payload: Vec<u8>,
}

/// What a [`Frame`] holds.
pub struct FrameView {
    pub ftype: u8,
    pub transfer_id: Seq<char>,
    pub frame_seq: u32,
    pub total_frames: u32,
    pub payload: Seq<u8>,
}

impl View for Frame {
    type V = FrameView;

    open spec fn view(&self) -> FrameView {
        FrameView {
            ftype: self.ftype,
            transfer_id: self.transfer_id@,
            frame_seq: self.frame_seq,
            total_frames: self.total_frames,
            payload: self.payload@,
        }
    }
}

/// The bytes of a frame. Its two length fields hold the low bits of the lengths.
pub open spec fn frame_bytes(f: FrameView) -> Seq<u8> {
    let id = encode_utf8(f.transfer_id);
    seq![FRAME_MAGIC, PROTO_VERSION, f.ftype, 0u8] + le16((id.len() % 0x1_0000) as u16) + id + le32(
        f.frame_seq,
    ) + le32(f.total_frames) + le32((f.payload.len() % 0x1_0000_0000) as u32) + f.payload
}

/// The lengths of a frame's transfer id and payload fit in the fields that announce them.
pub open spec fn frame_fits(f: FrameView) -> bool {
    &&& encode_utf8(f.transfer_id).len() < 0x1_0000
    &&& f.payload.len() < 0x1_0000_0000
}

/// The frame that starts a buffer, or the reason why there is none. What follows the payload
/// in the buffer is ignored, and so is the reserved byte.
pub open spec fn frame_of(buf: Seq<u8>) -> Result<FrameView, Seq<char>> {
    let after_id = 6 + u16_at(buf, 4) as int;
    if buf.len() < 4 {
        Err("frame too short"@)
    } else if buf[0] != FRAME_MAGIC {
        Err("bad magic byte 0x"@ + hex_byte(buf[0]))
    } else if buf[1] != PROTO_VERSION {
        Err("unsupported protocol version "@ + decimal(buf[1] as nat))
    } else if buf.len() < 6 {
        Err("truncated u16"@)
    } else if buf.len() < after_id {
        Err("truncated transfer id"@)
    } else if !valid_utf8(buf.subrange(6, after_id)) {
        Err("transfer id is not utf8"@)
    } else if buf.len() < after_id + 12 {
        Err("truncated u32"@)
    } else if buf.len() < after_id + 12 + u32_at(buf, after_id + 8) {
        Err("truncated payload"@)
    } else {
        Ok(
            FrameView {
                ftype: buf[2],
                transfer_id: decode_utf8(buf.subrange(6, after_id)),
                frame_seq: u32_at(buf, after_id) as u32,
                total_frames: u32_at(buf, after_id + 4) as u32,
                payload: buf.subrange(
                    after_id + 12,
                    after_id + 12 + u32_at(buf, after_id + 8),
                ),
            },
        )
    }
}

/// The bytes of `f`.
pub fn encode_frame(f: &Frame) -> (out: Vec<u8>)
    ensures
        out@ == frame_bytes(f@),
{
    let id = f.transfer_id.as_str().as_bytes();
    let mut out: Vec<u8> = Vec::new();
    out.push(FRAME_MAGIC);
    out.push(PROTO_VERSION);
    out.push(f.ftype);
    out.push(0);
    push_u16(&mut out, (id.len() % 0x1_0000) as u16);
    push_bytes(&mut out, id);
    push_u32(&mut out, f.frame_seq);
    push_u32(&mut out, f.total_frames);
    push_u32(&mut out, (f.payload.len() as u64 % 0x1_0000_0000) as u32);
    push_bytes(&mut out, f.payload.as_slice());
    out
}

/// The frame that starts `buf`.
pub fn decode_frame(buf: &[u8]) -> (r: Result<Frame, String>)
    ensures
        match (r, frame_of(buf@)) {
            (Ok(f), Ok(v)) => f@ == v,
            (Err(e), Err(text)) => e@ == text,
            _ => false,
        },
{
    if buf.len() < 4 {
        return Err(copy_str("frame too short"));
    }
    if buf[0] != FRAME_MAGIC {
        let mut text = copy_str("bad magic byte 0x");
        push_hex_byte(&mut text, buf[0]);
        return Err(text);
    }
    if buf[1] != PROTO_VERSION {
        let mut text = copy_str("unsupported protocol version ");
        push_decimal(&mut text, buf[1] as u64);
        return Err(text);
    }
    let ftype: u8 = buf[2];
    let mut pos: usize = 4;
    let id_len: usize = match read_u16(buf, &mut pos) {
        Ok(v) => v as usize,
        Err(e) => return Err(e),
    };
    if id_len > buf.len() - pos {
        return Err(copy_str("truncated transfer id"));
    }
    let transfer_id = match string_from_utf8(copy_range(buf, pos, pos + id_len)) {
        Some(s) => s,
        None => return Err(copy_str("transfer id is not utf8")),
    };
    pos = pos + id_len;
    let frame_seq: u32 = match read_u32(buf, &mut pos) {
        Ok(v) => v,
        Err(e) => return Err(e),
    };
    let total_frames: u32 = match read_u32(buf, &mut pos) {
        Ok(v) => v,
        Err(e) => return Err(e),
    };
    let payload_len: usize = match read_u32(buf, &mut pos) {
        Ok(v) => v as usize,
        Err(e) => return Err(e),
    };
    if payload_len > buf.len() - pos {
        return Err(copy_str("truncated payload"));
    }
    let payload = copy_range(buf, pos, pos + payload_len);
    Ok(Frame { ftype, transfer_id, frame_seq, total_frames, payload })
}

/// Into how many pieces a payload of `len` bytes is cut: at least one, each full but the last.
pub open spec fn piece_count(len: nat) -> nat {
    if len == 0 {
        1
    } else {
        ((len - 1) / MAX_FRAME_PAYLOAD as int + 1) as nat
    }
}

/// The piece number `k` of a payload.
pub open spec fn piece(payload: Seq<u8>, k: int) -> Seq<u8> {
    let start = k * MAX_FRAME_PAYLOAD;
    let end = start + MAX_FRAME_PAYLOAD;
    payload.subrange(
        start,
        if end < payload.len() {
            end
        } else {
            payload.len() as int
        },
    )
}

/// The frame that carries the piece number `k` of a payload. The field that counts the frames
/// holds the low bits of their number.
pub open spec fn piece_frame(
    ftype: u8,
    transfer_id: Seq<char>,
    payload: Seq<u8>,
    k: int,
) -> FrameView {
    FrameView {
        ftype,
        transfer_id,
        frame_seq: k as u32,
        total_frames: (piece_count(payload.len()) % 0x1_0000_0000) as u32,
        payload: piece(payload, k),
    }
}

/// Split a payload into encoded frames ready to send.
pub fn split_into_frames(ftype: u8, transfer_id: &str, payload: &[u8]) -> (frames: Vec<Vec<u8>>)
    ensures
        frames@.len() == piece_count(payload@.len()) % 0x1_0000_0000,
        forall|k: int|
            0 <= k < frames@.len() ==> (#[trigger] frames@[k])@ == frame_bytes(
                piece_frame(ftype, transfer_id@, payload@, k),
            ),
{
    let len: usize = payload.len();
    let pieces: usize = if len == 0 {
        1
    } else {
        (len - 1) / MAX_FRAME_PAYLOAD + 1
    };
    let total: u32 = (pieces as u64 % 0x1_0000_0000) as u32;
    let mut frames: Vec<Vec<u8>> = Vec::new();
    let mut seq: u32 = 0;
    while seq < total
        invariant
            len == payload@.len(),
            pieces == piece_count(payload@.len()),
            total == pieces as nat % 0x1_0000_0000,
            seq <= total,
            frames@.len() == seq,
            forall|k: int|
                0 <= k < frames@.len() ==> (#[trigger] frames@[k])@ == frame_bytes(
                    piece_frame(ftype, transfer_id@, payload@, k),
                ),
        decreases total - seq,
    {
        let start: usize = seq as usize * MAX_FRAME_PAYLOAD;
        let end: usize = if len - start > MAX_FRAME_PAYLOAD {
            start + MAX_FRAME_PAYLOAD
        } else {
            len
        };
        let frame = Frame {
            ftype,
            transfer_id: copy_str(transfer_id),
            frame_seq: seq,
            total_frames: total,
            payload: copy_range(payload, start, end),
        };
        assert(frame@ == piece_frame(ftype, transfer_id@, payload@, seq as int));
        frames.push(encode_frame(&frame));
        seq = seq + 1;
    }
    frames
}

/// Decoding the bytes of a frame gives the frame back, whatever follows them.
#[verifier::spinoff_prover]
#[verifier::rlimit(40)]
pub proof fn decode_inverts_encode(f: FrameView, rest: Seq<u8>)
    requires
        frame_fits(f),
    ensures
        frame_of(frame_bytes(f) + rest) == Ok::<FrameView, Seq<char>>(f),
{
    let id = encode_utf8(f.transfer_id);
    let buf = frame_bytes(f) + rest;
    let a = 6 + id.len() as int;
    let n = f.payload.len() as int;
    assert(buf.subrange(4, 6) =~= le16(id.len() as u16));
    lemma_le_read_back(buf, 4, id.len() as u16, 0);
    assert(buf.subrange(6, a) =~= id);
    encode_utf8_valid_utf8(f.transfer_id);
    encode_utf8_decode_utf8(f.transfer_id);
    assert(buf.subrange(a, a + 4) =~= le32(f.frame_seq));
    lemma_le_read_back(buf, a, 0, f.frame_seq);
    assert(buf.subrange(a + 4, a + 8) =~= le32(f.total_frames));
    lemma_le_read_back(buf, a + 4, 0, f.total_frames);
    assert(buf.subrange(a + 8, a + 12) =~= le32(n as u32));
    lemma_le_read_back(buf, a + 8, 0, n as u32);
    assert(buf.subrange(a + 12, a + 12 + n) =~= f.payload);
}

/// A frame that is cut short anywhere is refused.
pub proof fn cut_frame_is_refused(f: FrameView, k: int)
    requires
        frame_fits(f),
        0 <= k < frame_bytes(f).len(),
    ensures
        frame_of(frame_bytes(f).take(k)) is Err,
{
    let id = encode_utf8(f.transfer_id);
    let whole = frame_bytes(f);
    let buf = whole.take(k);
    let a = 6 + id.len() as int;
    let n = f.payload.len() as int;
    assert(whole.len() == a + 12 + n);
    if k >= 6 {
        assert(whole.subrange(4, 6) =~= le16(id.len() as u16));
        lemma_le_read_back(whole, 4, id.len() as u16, 0);
        assert(u16_at(buf, 4) == u16_at(whole, 4));
    }
    if k >= a + 12 {
        assert(whole.subrange(a + 8, a + 12) =~= le32(n as u32));
        lemma_le_read_back(whole, a + 8, 0, n as u32);
        assert(u32_at(buf, a + 8) == u32_at(whole, a + 8));
    }
}

/// The bytes of a frame: 0xA5, the version 1, the type and a zero; the length of the transfer id and
/// the id; the frame's number, how many there are and the length of the payload; the payload. The
/// lengths and numbers have their lowest byte first.
pub proof fn frames_are_laid_out_so(f: FrameView)
    requires
        frame_fits(f),
    ensures
        ({
            let b = frame_bytes(f);
            let id = encode_utf8(f.transfer_id);
            let a = 6 + id.len() as int;
            &&& b.len() == a + 12 + f.payload.len()
            &&& b[0] == 0xA5
            &&& b[1] == 1
            &&& b[2] == f.ftype
            &&& b[3] == 0
            &&& b[4] + 256 * b[5] == id.len()
            &&& b.subrange(6, a) == id
            &&& b[a] + 256 * (b[a + 1] + 256 * (b[a + 2] + 256 * b[a + 3])) == f.frame_seq
            &&& b[a + 4] + 256 * (b[a + 5] + 256 * (b[a + 6] + 256 * b[a + 7])) == f.total_frames
            &&& b[a + 8] + 256 * (b[a + 9] + 256 * (b[a + 10] + 256 * b[a + 11])) == f.payload.len()
            &&& b.skip(a + 12) == f.payload
        }),
{
    let b = frame_bytes(f);
    let id = encode_utf8(f.transfer_id);
    let a = 6 + id.len() as int;
    let l = le16(id.len() as u16);
    let s = le32(f.frame_seq);
    let t = le32(f.total_frames);
    let n = le32(f.payload.len() as u32);
    let head = seq![FRAME_MAGIC, PROTO_VERSION, f.ftype, 0u8];
    lemma_seven_parts(head, l, id, s, t, n, f.payload);
    lowest_byte_comes_first(id.len() as u16, f.frame_seq);
    lowest_byte_comes_first(0, f.total_frames);
    lowest_byte_comes_first(0, f.payload.len() as u32);
    lemma_four_bytes(b, a, s);
    lemma_four_bytes(b, a + 4, t);
    lemma_four_bytes(b, a + 8, n);
    lemma_four_bytes(b, 0, head);
    assert(b.subrange(4, 6)[0] == b[4] && b.subrange(4, 6)[1] == b[5]);
}

proof fn lemma_four_bytes(b: Seq<u8>, pos: int, s: Seq<u8>)
    requires
        0 <= pos,
        pos + 4 <= b.len(),
        b.subrange(pos, pos + 4) == s,
    ensures
        b[pos] == s[0],
        b[pos + 1] == s[1],
        b[pos + 2] == s[2],
        b[pos + 3] == s[3],
{
    let here = b.subrange(pos, pos + 4);
    assert(here[0] == b[pos] && here[1] == b[pos + 1] && here[2] == b[pos + 2] && here[3] == b[pos
        + 3]);
}

/// Where the parts of a frame stand.
proof fn lemma_seven_parts(
    head: Seq<u8>,
    l: Seq<u8>,
    id: Seq<u8>,
    s: Seq<u8>,
    t: Seq<u8>,
    n: Seq<u8>,
    payload: Seq<u8>,
)
    requires
        head.len() == 4,
        l.len() == 2,
        s.len() == 4,
        t.len() == 4,
        n.len() == 4,
    ensures
        ({
            let b = head + l + id + s + t + n + payload;
            let a = 6 + id.len() as int;
            &&& b.len() == a + 12 + payload.len()
            &&& b.subrange(0, 4) == head
            &&& b.subrange(4, 6) == l
            &&& b.subrange(6, a) == id
            &&& b.subrange(a, a + 4) == s
            &&& b.subrange(a + 4, a + 8) == t
            &&& b.subrange(a + 8, a + 12) == n
            &&& b.skip(a + 12) == payload
        }),
{
    let b = head + l + id + s + t + n + payload;
    let a = 6 + id.len() as int;
    assert(b.subrange(0, 4) =~= head);
    assert(b.subrange(4, 6) =~= l);
    assert(b.subrange(6, a) =~= id);
    assert(b.subrange(a, a + 4) =~= s);
    assert(b.subrange(a + 4, a + 8) =~= t);
    assert(b.subrange(a + 8, a + 12) =~= n);
    assert(b.skip(a + 12) =~= payload);
}

proof fn lemma_bytes_of_value(a: u8, b: u8, c: u8, d: u8, v: u32)
    requires
        v == a + 256 * b + 65536 * c + 16777216 * d,
    ensures
        v % 256 == a,
        (v / 256) % 256 == b,
        (v / 65536) % 256 == c,
        v / 16777216 == d,
{
    let x = b + 256 * c + 65536 * d;
    assert(v == 256 * x + a);
    assert(v / 256 == x);
    let y = c + 256 * d;
    assert(v == 65536 * y + (a + 256 * b));
    assert(v / 65536 == y);
    assert(x == 256 * y + b);
}

proof fn lemma_number_bytes(buf: Seq<u8>, pos: int)
    requires
        0 <= pos,
    ensures
        pos + 2 <= buf.len() ==> u16_at(buf, pos) < 0x1_0000 && le16(u16_at(buf, pos) as u16)
            == buf.subrange(pos, pos + 2),
        pos + 4 <= buf.len() ==> u32_at(buf, pos) < 0x1_0000_0000 && le32(u32_at(buf, pos) as u32)
            == buf.subrange(pos, pos + 4),
{
    if pos + 2 <= buf.len() {
        let v = u16_at(buf, pos);
        assert(v % 256 == buf[pos] && v / 256 == buf[pos + 1]);
        assert(le16(v as u16) =~= buf.subrange(pos, pos + 2));
    }
    if pos + 4 <= buf.len() {
        let v = u32_at(buf, pos);
        lemma_bytes_of_value(buf[pos], buf[pos + 1], buf[pos + 2], buf[pos + 3], v as u32);
        assert(le32(v as u32) =~= buf.subrange(pos, pos + 4));
    }
}

/// A buffer decodes to a frame only where it begins with the bytes of that frame, but for the
/// reserved byte, which may hold anything.
#[verifier::spinoff_prover]
pub proof fn decoded_frames_were_encoded(buf: Seq<u8>)
    ensures
        frame_of(buf) matches Ok(f) ==> frame_fits(f) && frame_bytes(f).len() <= buf.len()
            && frame_bytes(f) == buf.update(3, 0).take(frame_bytes(f).len() as int),
{
    if let Ok(f) = frame_of(buf) {
        let a = 6 + u16_at(buf, 4) as int;
        let n = u32_at(buf, a + 8) as int;
        let id = buf.subrange(6, a);
        decode_utf8_encode_utf8(id);
        lemma_number_bytes(buf, 4);
        lemma_number_bytes(buf, a);
        lemma_number_bytes(buf, a + 4);
        lemma_number_bytes(buf, a + 8);
        assert(id.len() == u16_at(buf, 4));
        assert(f.payload.len() == n);
        lemma_parts_make_the_buffer(buf, a, n);
    }
}

proof fn lemma_parts_make_the_buffer(buf: Seq<u8>, a: int, n: int)
    requires
        6 <= a,
        0 <= n,
        a + 12 + n <= buf.len(),
    ensures
        seq![buf[0], buf[1], buf[2], 0u8] + buf.subrange(4, 6) + buf.subrange(6, a) + buf.subrange(
            a,
            a + 4,
        ) + buf.subrange(a + 4, a + 8) + buf.subrange(a + 8, a + 12) + buf.subrange(
            a + 12,
            a + 12 + n,
        ) == buf.update(3, 0).take(a + 12 + n),
{
    assert(seq![buf[0], buf[1], buf[2], 0u8] + buf.subrange(4, 6) + buf.subrange(6, a)
        + buf.subrange(a, a + 4) + buf.subrange(a + 4, a + 8) + buf.subrange(a + 8, a + 12)
        + buf.subrange(a + 12, a + 12 + n) =~= buf.update(3, 0).take(a + 12 + n));
}

/// What does not begin with 0xA5 is no frame, and what is of another version than 1 cannot be read;
/// it is said which byte was there instead.
pub proof fn foreign_messages_are_refused(buf: Seq<u8>)
    requires
        buf.len() >= 4,
    ensures
        buf[0] != 0xA5 ==> frame_of(buf) == Err::<FrameView, Seq<char>>(
            "bad magic byte 0x"@ + hex_byte(buf[0]),
        ),
        buf[0] == 0xA5 && buf[1] != 1 ==> frame_of(buf) == Err::<FrameView, Seq<char>>(
            "unsupported protocol version "@ + decimal(buf[1] as nat),
        ),
{
}

/// A payload is cut off from the front into pieces of sixty thousand bytes; only the last may hold
/// fewer. There is one piece at least, and no more than are needed. Each piece travels in a frame
/// with its number and the number of all.
pub proof fn pieces_hold_sixty_thousand(
    ftype: u8,
    id: Seq<char>,
    payload: Seq<u8>,
    k: int,
    j: int,
)
    requires
        0 <= k < piece_count(payload.len()),
    ensures
        ({
            let n = piece_count(payload.len());
            let f = piece_frame(ftype, id, payload, k);
            &&& payload.len() == 0 ==> n == 1
            &&& payload.len() > 0 ==> 60_000 * (n - 1) < payload.len() <= 60_000 * n
            &&& k < n - 1 ==> piece(payload, k).len() == 60_000
            &&& k == n - 1 ==> piece(payload, k).len() == payload.len() - 60_000 * k
            &&& 0 <= j < piece(payload, k).len() ==> piece(payload, k)[j] == payload[60_000 * k + j]
            &&& f.ftype == ftype
            &&& f.transfer_id == id
            &&& f.payload == piece(payload, k)
            &&& n < 0x1_0000_0000 ==> f.frame_seq == k && f.total_frames == n
        }),
{
}

} // verus!
