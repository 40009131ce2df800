//! Calls that put messages on the wire and take them off it.
use vstd::prelude::*;
use vstd::utf8::*;
use crate::channel::{messages_come_to_this, take_message, ChannelEvent};
use crate::protocol::bytes::{read_section, read_u16, read_u32, section, sections_are_read_where_they_are_whole};
use crate::protocol::frame::{cut_frame_is_refused, decode_frame, decode_inverts_encode, decoded_frames_were_encoded, encode_frame, foreign_messages_are_refused, frame_of, frames_are_laid_out_so, piece_count, pieces_hold_sixty_thousand, split_into_frames, Frame, FrameView};
use crate::protocol::laws::{accept_all, delivered, genuine, messages_bring_their_bytes, output_at, reassembly_in_any_order};
use crate::protocol::payload::{cut_result_keeps_what_is_left, cut_task_is_refused, decode_result_payload, decode_task_payload, encode_result_payload, encode_task_payload, parses_to, result_round_trip, task_round_trip, ResultHeader, TaskPayload};
use crate::protocol::reassembler::{accept_step, Reassembler};
use crate::text::{decimal, hex_byte};

verus! {

/// A frame is laid out byte by byte as the protocol says.
pub proof fn frames_are_written_so(f: Frame, b: Vec<u8>)
    requires
        call_ensures(encode_frame, (&f,), b),
        encode_utf8(f.transfer_id@).len() < 0x1_0000,
        f.payload@.len() < 0x1_0000_0000,
    ensures
        ({
            let b = b@;
            let id = encode_utf8(f.transfer_id@);
            let a = 6 + id.len() as int;
            &&& b.len() == a + 12 + f.payload@.len()
            &&& b[0] == 0xA5
            &&& b[1] == 1
            &&& b[2] == f.ftype
            &&& b[3] == 0
            &&& b[4] + 256 * b[5] == id.len()
            &&& b.subrange(6, a) == id
            &&& b[a] + 256 * (b[a + 1] + 256 * (b[a + 2] + 256 * b[a + 3])) == f.frame_seq
            &&& b[a + 4] + 256 * (b[a + 5] + 256 * (b[a + 6] + 256 * b[a + 7])) == f.total_frames
            &&& b[a + 8] + 256 * (b[a + 9] + 256 * (b[a + 10] + 256 * b[a + 11]))
                == f.payload@.len()
            &&& b.skip(a + 12) == f.payload@
        }),
{
    frames_are_laid_out_so(f@);
}

/// A frame is read back as it was written, whatever follows it; cut short anywhere, it is refused.
pub proof fn frames_are_read_back(
    f: Frame,
    b: Vec<u8>,
    received: &[u8],
    rest: Seq<u8>,
    cut: &[u8],
    k: int,
    r: Result<Frame, String>,
    refused: Result<Frame, String>,
)
    requires
        call_ensures(encode_frame, (&f,), b),
        call_ensures(decode_frame, (received,), r),
        call_ensures(decode_frame, (cut,), refused),
        encode_utf8(f.transfer_id@).len() < 0x1_0000,
        f.payload@.len() < 0x1_0000_0000,
        received@ == b@ + rest,
        0 <= k < b@.len(),
        cut@ == b@.take(k),
    ensures
        r matches Ok(g) && g.ftype == f.ftype && g.transfer_id@ == f.transfer_id@ && g.frame_seq
            == f.frame_seq && g.total_frames == f.total_frames && g.payload@ == f.payload@,
        refused is Err,
{
    decode_inverts_encode(f@, rest);
    cut_frame_is_refused(f@, k);
}

/// A message is read as a frame only where it begins with what writing that frame gives, but for the
/// reserved byte.
pub proof fn only_frames_are_read(
    received: &[u8],
    f: Frame,
    b: Vec<u8>,
)
    requires
        call_ensures(decode_frame, (received,), Ok::<Frame, String>(f)),
        call_ensures(encode_frame, (&f,), b),
    ensures
        b@.len() <= received@.len(),
        b@ == received@.update(3, 0).take(b@.len() as int),
{
    decoded_frames_were_encoded(received@);
}

/// A message without the magic byte or of another version is refused, and it is said which byte was
/// there; one of less than four bytes is too short.
pub proof fn foreign_bytes_are_refused(received: &[u8], r: Result<Frame, String>)
    requires
        call_ensures(decode_frame, (received,), r),
    ensures
        received@.len() < 4 ==> (r matches Err(e) && e@ == "frame too short"@),
        received@.len() >= 4 && received@[0] != 0xA5 ==> (r matches Err(e) && e@
            == "bad magic byte 0x"@ + hex_byte(received@[0])),
        received@.len() >= 4 && received@[0] == 0xA5 && received@[1] != 1 ==> (r matches Err(e) && e@
            == "unsupported protocol version "@ + decimal(received@[1] as nat)),
{
    if received@.len() >= 4 {
        foreign_messages_are_refused(received@);
    }
}

/// A message that begins as a frame does is refused where the next part of it is cut off or its
/// transfer id is no text, and it is said which; else it is read.
pub proof fn broken_frames_are_refused(received: &[u8], r: Result<Frame, String>)
    requires
        call_ensures(decode_frame, (received,), r),
        received@.len() >= 4,
        received@[0] == 0xA5,
        received@[1] == 1,
    ensures
        ({
            let b = received@;
            let a = 6 + b[4] + 256 * b[5];
            let n = b[a + 8] + 256 * b[a + 9] + 65536 * b[a + 10] + 16777216 * b[a + 11];
            if b.len() < 6 {
                r matches Err(e) && e@ == "truncated u16"@
            } else if b.len() < a {
                r matches Err(e) && e@ == "truncated transfer id"@
            } else if !valid_utf8(b.subrange(6, a)) {
                r matches Err(e) && e@ == "transfer id is not utf8"@
            } else if b.len() < a + 12 {
                r matches Err(e) && e@ == "truncated u32"@
            } else if b.len() < a + 12 + n {
                r matches Err(e) && e@ == "truncated payload"@
            } else {
                r is Ok
            }
        }),
{
}

/// Numbers are read with the lowest byte first, and reading moves on by their bytes; where they are
/// cut off that is said, and reading stays.
pub proof fn numbers_are_read_lowest_byte_first(
    buf: &[u8],
    p: &mut usize,
    q: &mut usize,
    a: Result<u16, String>,
    b: Result<u32, String>,
)
    requires
        call_ensures(read_u16, (buf, p), a),
        call_ensures(read_u32, (buf, q), b),
    ensures
        ({
            let i = *old(p) as int;
            if i + 2 <= buf@.len() {
                (a matches Ok(v) && v == buf@[i] + 256 * buf@[i + 1]) && *final(p) == i + 2
            } else {
                (a matches Err(e) && e@ == "truncated u16"@) && *final(p) == i
            }
        }),
        ({
            let i = *old(q) as int;
            if i + 4 <= buf@.len() {
                (b matches Ok(v) && v == buf@[i] + 256 * (buf@[i + 1] + 256 * (buf@[i + 2] + 256
                    * buf@[i + 3]))) && *final(q) == i + 4
            } else {
                (b matches Err(e) && e@ == "truncated u32"@) && *final(q) == i
            }
        }),
{
}

/// A section is read where its length and as many bytes as that says are there, and reading moves on
/// behind it; else it is said which of the two is cut off.
pub proof fn sections_are_read_whole(buf: &[u8], p: &mut usize, r: Result<Vec<u8>, String>)
    requires
        call_ensures(read_section, (buf, p), r),
    ensures
        ({
            let i = *old(p) as int;
            let n = buf@[i] + 256 * (buf@[i + 1] + 256 * (buf@[i + 2] + 256 * buf@[i + 3]));
            if i + 4 > buf@.len() {
                (r matches Err(e) && e@ == "truncated u32"@) && *final(p) == i
            } else if i + 4 + n <= buf@.len() {
                (r matches Ok(v) && v@ == buf@.subrange(i + 4, i + 4 + n)) && *final(p) == i + 4 + n
            } else {
                (r matches Err(e) && e@ == "truncated section"@) && *final(p) == i + 4
            }
        }),
{
    sections_are_read_where_they_are_whole(buf@, *old(p) as int);
}

/// A payload is cut into messages of sixty thousand bytes each, in order, of which only the last may
/// hold fewer. Each message is read as a frame of its transfer that tells its number and how many
/// there are.
pub proof fn payloads_are_cut_into_messages(
    ftype: u8,
    id: &str,
    payload: &[u8],
    messages: Vec<Vec<u8>>,
    k: int,
    received: &[u8],
    r: Result<Frame, String>,
)
    requires
        call_ensures(split_into_frames, (ftype, id, payload), messages),
        call_ensures(decode_frame, (received,), r),
        encode_utf8(id@).len() < 0x1_0000,
        payload@.len() < 60_000 * 0xffff_ffff,
        0 <= k < messages@.len(),
        received@ == messages@[k]@,
    ensures
        payload@.len() == 0 ==> messages@.len() == 1,
        payload@.len() > 0 ==> 60_000 * (messages@.len() - 1) < payload@.len() <= 60_000
            * messages@.len(),
        r matches Ok(f) && f.ftype == ftype && f.transfer_id@ == id@ && f.frame_seq == k
            && f.total_frames == messages@.len() && f.payload@ == payload@.subrange(
            60_000 * k,
            if 60_000 * (k + 1) < payload@.len() {
                60_000 * (k + 1)
            } else {
                payload@.len() as int
            },
        ),
{
    let f = FrameView {
        ftype,
        transfer_id: id@,
        frame_seq: k as u32,
        total_frames: messages@.len() as u32,
        payload: payload@.subrange(
            60_000 * k,
            if 60_000 * (k + 1) < payload@.len() {
                60_000 * (k + 1)
            } else {
                payload@.len() as int
            },
        ),
    };
    lemma_cut_message(ftype, id, payload, messages, k);
    lemma_read_message(received, r, f);
}

proof fn lemma_cut_message(
    ftype: u8,
    id: &str,
    payload: &[u8],
    messages: Vec<Vec<u8>>,
    k: int,
)
    requires
        call_ensures(split_into_frames, (ftype, id, payload), messages),
        encode_utf8(id@).len() < 0x1_0000,
        payload@.len() < 60_000 * 0xffff_ffff,
        0 <= k < messages@.len(),
    ensures
        messages@.len() <= u32::MAX,
        payload@.len() == 0 ==> messages@.len() == 1,
        payload@.len() > 0 ==> 60_000 * (messages@.len() - 1) < payload@.len() <= 60_000
            * messages@.len(),
        frame_of(messages@[k]@) == Ok::<FrameView, Seq<char>>(
            FrameView {
                ftype,
                transfer_id: id@,
                frame_seq: k as u32,
                total_frames: messages@.len() as u32,
                payload: payload@.subrange(
                    60_000 * k,
                    if 60_000 * (k + 1) < payload@.len() {
                        60_000 * (k + 1)
                    } else {
                        payload@.len() as int
                    },
                ),
            },
        ),
{
    pieces_hold_sixty_thousand(ftype, id@, payload@, 0, 0);
    assert(piece_count(payload@.len()) < 0x1_0000_0000);
    assert(messages@.len() == piece_count(payload@.len()));
    messages_bring_their_bytes(ftype, id@, payload@, k);
}

proof fn lemma_read_message(received: &[u8], r: Result<Frame, String>, f: FrameView)
    requires
        call_ensures(decode_frame, (received,), r),
        frame_of(received@) == Ok::<FrameView, Seq<char>>(f),
    ensures
        r matches Ok(g) && g@ == f,
{
}

/// Some message is sent for every payload, and no payload that was cut is longer than its messages.
pub proof fn every_payload_is_sent(
    ftype: u8,
    id: &str,
    payload: &[u8],
    messages: Vec<Vec<u8>>,
)
    requires
        call_ensures(split_into_frames, (ftype, id, payload), messages),
        payload@.len() < 60_000 * 0xffff_ffff,
    ensures
        messages@.len() >= 1,
        payload@.len() <= 60_000 * messages@.len(),
{
    pieces_hold_sixty_thousand(ftype, id@, payload@, 0, 0);
}

/// A task is read back as it was written, whatever follows it; cut short anywhere, it is refused.
pub proof fn tasks_are_read_back<H, P: Fn(&[u8]) -> Result<H, String>>(
    json: &[u8],
    wasm: &[u8],
    glue: &[u8],
    input: &[u8],
    b: Vec<u8>,
    received: &[u8],
    rest: Seq<u8>,
    cut: &[u8],
    k: int,
    parse: P,
    header: H,
    r: Result<TaskPayload<H>, String>,
    refused: Result<TaskPayload<H>, String>,
)
    requires
        call_ensures(encode_task_payload, (json, wasm, glue, input), b),
        call_ensures(decode_task_payload::<H, P>, (received, parse), r),
        call_ensures(decode_task_payload::<H, P>, (cut, parse), refused),
        parses_to(parse, json@, header),
        json@.len() < 0x1_0000_0000,
        wasm@.len() < 0x1_0000_0000,
        glue@.len() < 0x1_0000_0000,
        input@.len() < 0x1_0000_0000,
        received@ == b@ + rest,
        0 <= k < b@.len(),
        cut@ == b@.take(k),
    ensures
        r matches Ok(p) && p.header == header && p.wasm@ == wasm@ && p.glue@ == glue@ && p.input@
            == input@,
        refused is Err,
{
    task_round_trip(json@, wasm@, glue@, input@, rest, parse, header, r);
    cut_task_is_refused(json@, wasm@, glue@, input@, k, parse, refused);
}

/// A result is read back as it was written. Cut short in its header it is refused; in its body, what
/// is left of the body is read.
pub proof fn results_are_read_back<H, P: Fn(&[u8]) -> Result<H, String>>(
    json: &[u8],
    body: &[u8],
    b: Vec<u8>,
    received: &[u8],
    k: int,
    parse: P,
    header: H,
    r: Result<(H, Vec<u8>), String>,
)
    requires
        call_ensures(encode_result_payload, (json, body), b),
        call_ensures(decode_result_payload::<H, P>, (received, parse), r),
        parses_to(parse, json@, header),
        json@.len() < 0x1_0000_0000,
        0 <= k <= b@.len(),
        received@ == b@.take(k),
    ensures
        b@.len() == 4 + json@.len() + body@.len(),
        k == b@.len() ==> (r matches Ok((h, bytes)) && h == header && bytes@ == body@),
        k >= 4 + json@.len() ==> (r matches Ok((h, bytes)) && h == header && bytes@ == body@.take(
            k - 4 - json@.len(),
        )),
        k < 4 + json@.len() ==> r is Err,
{
    cut_result_keeps_what_is_left(json@, body@, k, parse, header, r);
    if k == b@.len() {
        assert(b@.take(k) =~= b@);
        result_round_trip(json@, body@, parse, header, r);
    }
}

/// Where the header of a task or a result cannot be read, that is said, and why; where it is cut
/// off, it is said whether its length or its text is.
pub proof fn unreadable_headers_are_reported<H, P: Fn(&[u8]) -> Result<H, String>>(
    buf: &[u8],
    parse: P,
    why: Seq<char>,
    a: Result<TaskPayload<H>, String>,
    b: Result<(H, Vec<u8>), String>,
)
    requires
        call_ensures(decode_task_payload::<H, P>, (buf, parse), a),
        call_ensures(decode_result_payload::<H, P>, (buf, parse), b),
        forall|json: &[u8], parsed: Result<H, String>| #[trigger]
            call_ensures(parse, (json,), parsed) ==> (parsed matches Err(e) && e@ == why),
    ensures
        ({
            let n = buf@[0] + 256 * (buf@[1] + 256 * (buf@[2] + 256 * buf@[3]));
            if buf@.len() < 4 {
                &&& a matches Err(e) && e@ == "truncated u32"@
                &&& b matches Err(e) && e@ == "truncated u32"@
            } else if buf@.len() < 4 + n {
                &&& a matches Err(e) && e@ == "truncated section"@
                &&& b matches Err(e) && e@ == "truncated section"@
            } else {
                &&& a matches Err(e) && e@ == "bad task header: "@ + why
                &&& b matches Err(e) && e@ == "bad result header: "@ + why
            }
        }),
{
    sections_are_read_where_they_are_whole(buf@, 0);
}

/// A task whose header can be read is refused where another of its parts is cut off, and it is said
/// whether the length or the bytes of that part are.
pub proof fn cut_tasks_say_what_is_cut_off<H, P: Fn(&[u8]) -> Result<H, String>>(
    buf: &[u8],
    parse: P,
    pos: int,
    r: Result<TaskPayload<H>, String>,
)
    requires
        call_ensures(decode_task_payload::<H, P>, (buf, parse), r),
        buf@.len() >= 4,
        pos == 4 + buf@[0] + 256 * (buf@[1] + 256 * (buf@[2] + 256 * buf@[3])),
        pos <= buf@.len(),
        forall|json: &[u8], parsed: Result<H, String>| #[trigger]
            call_ensures(parse, (json,), parsed) ==> parsed is Ok,
    ensures
        buf@.len() < pos + 4 ==> (r matches Err(e) && e@ == "truncated u32"@),
        pos + 4 <= buf@.len() < pos + 4 + buf@[pos] + 256 * (buf@[pos + 1] + 256 * (buf@[pos + 2]
            + 256 * buf@[pos + 3])) ==> (r matches Err(e) && e@ == "truncated section"@),
{
    sections_are_read_where_they_are_whole(buf@, 0);
    sections_are_read_where_they_are_whole(buf@, pos);
}

/// Feeding a frame to the transfers is one step of theirs: it brings out what the step does.
pub proof fn frames_are_taken_step_by_step(
    transfers: &mut Reassembler,
    frame: Frame,
    r: Option<(u8, String, Vec<u8>)>,
)
    requires
        call_ensures(Reassembler::accept, (transfers, frame), r),
    ensures
        final(transfers)@ == accept_step(old(transfers)@, frame@).0,
        match (r, accept_step(old(transfers)@, frame@).1) {
            (Some((ftype, id, payload)), Some((t, i, p))) => ftype == t && id@ == i && payload@ == p,
            (None, None) => true,
            _ => false,
        },
{
}

/// Of the frames of a payload, in whatever order they come, the one with the last missing piece
/// brings the payload out, whole.
pub proof fn the_last_missing_frame_brings_the_payload(
    fresh: Reassembler,
    frames: Seq<crate::protocol::frame::FrameView>,
    transfers: &mut Reassembler,
    last: Frame,
    r: Option<(u8, String, Vec<u8>)>,
    ftype: u8,
    id: Seq<char>,
    payload: Seq<u8>,
)
    requires
        call_ensures(Reassembler::new, (), fresh),
        old(transfers)@ == accept_all(fresh@, frames.drop_last()),
        frames.len() > 0,
        frames.last() == last@,
        call_ensures(Reassembler::accept, (transfers, last), r),
        piece_count(payload.len()) < 0x1_0000_0000,
        genuine(frames, ftype, id, payload),
        forall|k: int| 0 <= k < piece_count(payload.len()) ==> delivered(frames, id, k),
        exists|k: int|
            0 <= k < piece_count(payload.len()) && !delivered(frames.drop_last(), id, k),
    ensures
        r matches Some((t, i, p)) && t == ftype && i@ == id && p@ == payload,
{
    reassembly_in_any_order(fresh@, ftype, id, payload, frames);
    let n = frames.len() - 1;
    assert(frames.take(n) =~= frames.drop_last());
    assert(output_at(fresh@, frames, n) == Some((ftype, id, payload)));
}

/// A text message is ignored, a message that is no frame is reported, and a frame goes to its
/// transfer; while the transfer goes on there is no answer.
pub proof fn messages_are_taken<M, P: Fn(&[u8]) -> Result<ResultHeader<M>, String>>(
    transfers: &mut Reassembler,
    is_string: bool,
    data: &[u8],
    parse: P,
    r: ChannelEvent<M>,
)
    requires
        call_ensures(take_message::<M, P>, (transfers, is_string, data, parse), r),
    ensures
        r is Ignored <==> is_string,
        is_string ==> final(transfers)@ == old(transfers)@,
        !is_string ==> match frame_of(data@) {
            Err(text) => final(transfers)@ == old(transfers)@ && (r matches ChannelEvent::BadFrame(e)
                && e@ == text),
            Ok(f) => {
                &&& final(transfers)@ == accept_step(old(transfers)@, f).0
                &&& r is Waiting <==> accept_step(old(transfers)@, f).1 is None
                &&& r is NotAResult <==> (accept_step(old(transfers)@, f).1 matches Some((t, _, _))
                    && t != 2)
            },
        },
{
    messages_come_to_this(
        old(transfers)@,
        is_string,
        data@,
        parse,
        final(transfers)@,
        r,
    );
}

/// A result that comes in with the last piece of its transfer is answered with what it says.
pub proof fn results_are_answered<M, P: Fn(&[u8]) -> Result<ResultHeader<M>, String>>(
    transfers: &mut Reassembler,
    data: &[u8],
    parse: P,
    json: Seq<u8>,
    body: Seq<u8>,
    header: ResultHeader<M>,
    id: Seq<char>,
    f: crate::protocol::frame::FrameView,
    r: ChannelEvent<M>,
)
    requires
        call_ensures(take_message::<M, P>, (transfers, false, data, parse), r),
        frame_of(data@) == Ok::<crate::protocol::frame::FrameView, Seq<char>>(f),
        accept_step(old(transfers)@, f).1 == Some(
            (2u8, id, crate::protocol::payload::result_payload_bytes(json, body)),
        ),
        json.len() < 0x1_0000_0000,
        parses_to(parse, json, header),
    ensures
        r matches ChannelEvent::Answer(msg) && msg.task_id == header.task_id && msg.chunk_index
            == header.chunk_index && msg.worker_id == header.worker_id && msg.error == header.error
            && msg.meta == header.meta && msg.bytes@ == body,
{
    let payload = crate::protocol::payload::result_payload_bytes(json, body);
    let decoded = choose|d: Result<(ResultHeader<M>, Vec<u8>), String>| #[trigger]
        crate::protocol::payload::result_payload_decoded(payload, parse, d) && r
            == crate::channel::answer_of(d);
    result_round_trip(json, body, parse, header, decoded);
}

/// A result that comes in with the last piece of its transfer and whose header cannot be read is
/// reported, with the reason.
pub proof fn unreadable_results_are_reported<M, P: Fn(&[u8]) -> Result<ResultHeader<M>, String>>(
    transfers: &mut Reassembler,
    data: &[u8],
    parse: P,
    json: Seq<u8>,
    body: Seq<u8>,
    why: Seq<char>,
    id: Seq<char>,
    f: FrameView,
    r: ChannelEvent<M>,
)
    requires
        call_ensures(take_message::<M, P>, (transfers, false, data, parse), r),
        frame_of(data@) == Ok::<FrameView, Seq<char>>(f),
        accept_step(old(transfers)@, f).1 == Some((2u8, id, section(json) + body)),
        json.len() < 0x1_0000_0000,
        forall|b: &[u8], parsed: Result<ResultHeader<M>, String>| #[trigger]
            call_ensures(parse, (b,), parsed) ==> (parsed matches Err(e) && e@ == why),
    ensures
        r matches ChannelEvent::BadPayload(e) && e@ == "bad result header: "@ + why,
{
    let payload = section(json) + body;
    let decoded = choose|d: Result<(ResultHeader<M>, Vec<u8>), String>| #[trigger]
        crate::protocol::payload::result_payload_decoded(payload, parse, d) && r
            == crate::channel::answer_of(d);
    sections_are_read_where_they_are_whole(payload, 0);
    crate::protocol::bytes::sections_announce_their_length(json);
    assert(decoded matches Err(e) && e@ == "bad result header: "@ + why);
}

} // verus!
