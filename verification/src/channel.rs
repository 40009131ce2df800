//! What arrives on the data channel of a worker.
use vstd::prelude::*;
use vstd::utf8::encode_utf8;
use crate::job::model::WorkerResultMsg;
use crate::protocol::frame::{decode_frame, frame_bytes, frame_of, piece_count, FrameView, FRAME_RESULT};
use crate::protocol::laws::{accept_all, delivered, genuine, lemma_delivered_grows, reassembly_in_any_order, split_messages_decode};
use crate::protocol::payload::{decode_result_payload, parses_to, result_payload_bytes, result_payload_decoded, result_round_trip, ResultHeader};
use crate::protocol::reassembler::{accept_step, PartialView, Reassembler};

verus! {

/// What a message on a data channel came to.
#[derive(Debug)]
pub enum ChannelEvent<M> {
    /// Text messages are not part of the protocol.
    Ignored,
    /// The message is not a frame.
    BadFrame(String),
    /// The transfer goes on.
    Waiting,
    /// A transfer ended that is not a result.
    NotAResult,
    /// A result ended that cannot be read.
    BadPayload(String),
    /// A worker answered a task.
    Answer(WorkerResultMsg<M>),
}

/// What a finished result comes to when it decodes to `decoded`.
pub open spec fn answer_of<M>(decoded: Result<(ResultHeader<M>, Vec<u8>), String>) -> ChannelEvent<
    M,
> {
    match decoded {
        Err(e) => ChannelEvent::BadPayload(e),
        Ok((header, body)) => ChannelEvent::Answer(
            WorkerResultMsg {
                task_id: header.task_id,
                chunk_index: header.chunk_index,
                worker_id: header.worker_id,
                error: header.error,
                meta: header.meta,
                bytes: body,
            },
        ),
    }
}

/// Taking a message may turn the transfers `before` into `after` and come to `r`.
pub open spec fn message_taken<M, P: Fn(&[u8]) -> Result<ResultHeader<M>, String>>(
    before: Map<Seq<char>, PartialView>,
    is_string: bool,
    data: Seq<u8>,
    parse: P,
    after: Map<Seq<char>, PartialView>,
    r: ChannelEvent<M>,
) -> bool {
    if is_string {
        r is Ignored && after == before
    } else {
        match frame_of(data) {
            Err(text) => after == before && (r matches ChannelEvent::BadFrame(e) && e@ == text),
            Ok(f) => after == accept_step(before, f).0 && (match accept_step(before, f).1 {
                None => r is Waiting,
                Some((ftype, id, payload)) => if ftype != FRAME_RESULT {
                    r is NotAResult
                } else {
                    exists|decoded: Result<(ResultHeader<M>, Vec<u8>), String>| #[trigger]
                        result_payload_decoded(payload, parse, decoded) && r == answer_of(decoded)
                },
            }),
        }
    }
}

/// Takes one message from a data channel. `reassembler` holds the transfers of that channel;
/// `parse` turns the bytes of a result's header into the header.
pub fn take_message<M, P: Fn(&[u8]) -> Result<ResultHeader<M>, String>>(
    reassembler: &mut Reassembler,
    is_string: bool,
    data: &[u8],
    parse: P,
) -> (r: ChannelEvent<M>)
    requires
        forall|b: &[u8]| call_requires(parse, (b,)),
    ensures
        message_taken(old(reassembler)@, is_string, data@, parse, final(reassembler)@, r),
{
    if is_string {
        return ChannelEvent::Ignored;
    }
    let frame = match decode_frame(data) {
        Ok(f) => f,
        Err(e) => return ChannelEvent::BadFrame(e),
    };
    match reassembler.accept(frame) {
        None => ChannelEvent::Waiting,
        Some((ftype, _id, payload)) => {
            if ftype != FRAME_RESULT {
                return ChannelEvent::NotAResult;
            }
            let decoded = decode_result_payload(payload.as_slice(), parse);
            let ghost verdict = decoded;
            assert(result_payload_decoded(payload@, parse, verdict));
            match decoded {
                Ok((header, body)) => ChannelEvent::Answer(
                    WorkerResultMsg {
                        task_id: header.task_id,
                        chunk_index: header.chunk_index,
                        worker_id: header.worker_id,
                        error: header.error,
                        meta: header.meta,
                        bytes: body,
                    },
                ),
                Err(e) => ChannelEvent::BadPayload(e),
            }
        },
    }
}

/// A worker's result arrives as it was sent: of the messages that it was cut into, in whatever
/// order they come, the one with the last missing piece is answered with the result, as long as
/// the text of its header is parsed to the header.
pub proof fn sent_result_is_answered<M, P: Fn(&[u8]) -> Result<ResultHeader<M>, String>>(
    m: Map<Seq<char>, PartialView>,
    id: Seq<char>,
    json: Seq<u8>,
    header: ResultHeader<M>,
    body: Seq<u8>,
    frames: Seq<FrameView>,
    parse: P,
    after: Map<Seq<char>, PartialView>,
    r: ChannelEvent<M>,
)
    requires
        !m.contains_key(id),
        encode_utf8(id).len() < 0x1_0000,
        json.len() < 0x1_0000_0000,
        piece_count(result_payload_bytes(json, body).len()) < 0x1_0000_0000,
        parses_to(parse, json, header),
        genuine(frames, FRAME_RESULT, id, result_payload_bytes(json, body)),
        forall|k: int|
            0 <= k < piece_count(result_payload_bytes(json, body).len()) ==> delivered(
                frames,
                id,
                k,
            ),
        exists|k: int|
            0 <= k < piece_count(result_payload_bytes(json, body).len()) && !delivered(
                frames.drop_last(),
                id,
                k,
            ),
        message_taken(
            accept_all(m, frames.drop_last()),
            false,
            frame_bytes(frames.last()),
            parse,
            after,
            r,
        ),
    ensures
        r matches ChannelEvent::Answer(msg) && msg.task_id == header.task_id && msg.chunk_index
            == header.chunk_index && msg.worker_id == header.worker_id && msg.error == header.error
            && msg.meta == header.meta && msg.bytes@ == body,
        !after.contains_key(id),
{
    let payload = result_payload_bytes(json, body);
    let n = piece_count(payload.len());
    let last = frames.len() - 1;
    reassembly_in_any_order(m, FRAME_RESULT, id, payload, frames);
    let gap = choose|k: int| 0 <= k < n && !delivered(frames.drop_last(), id, k);
    assert(delivered(frames, id, gap));
    assert(frames =~= frames.drop_last().push(frames.last()));
    lemma_delivered_grows(frames.drop_last(), frames.last(), id, gap);
    assert(frames[last] == frames.last());
    split_messages_decode(FRAME_RESULT, id, payload, gap);
    assert(frames.take(last) =~= frames.drop_last());
    let decoded = choose|d: Result<(ResultHeader<M>, Vec<u8>), String>| #[trigger]
        result_payload_decoded(payload, parse, d) && r == answer_of(d);
    result_round_trip(json, body, parse, header, decoded);
}

/// A result that can be read is answered with what its header and its body say.
pub proof fn answers_carry_their_result<M>(header: ResultHeader<M>, body: Vec<u8>, why: String)
    ensures
        answer_of(Ok((header, body))) matches ChannelEvent::Answer(msg) && msg.task_id
            == header.task_id && msg.chunk_index == header.chunk_index && msg.worker_id
            == header.worker_id && msg.error == header.error && msg.meta == header.meta && msg.bytes
            == body,
        answer_of::<M>(Err(why)) == ChannelEvent::<M>::BadPayload(why),
{
}

/// A text message is ignored. A message that is no frame is reported and changes nothing. A frame
/// goes to its transfer; as long as the transfer goes on there is no answer, and one that ends
/// without being a result gives none either.
pub proof fn messages_come_to_this<M, P: Fn(&[u8]) -> Result<ResultHeader<M>, String>>(
    before: Map<Seq<char>, PartialView>,
    is_string: bool,
    data: Seq<u8>,
    parse: P,
    after: Map<Seq<char>, PartialView>,
    r: ChannelEvent<M>,
)
    requires
        message_taken(before, is_string, data, parse, after, r),
    ensures
        r is Ignored <==> is_string,
        is_string ==> after == before,
        !is_string ==> match frame_of(data) {
            Err(text) => after == before && (r matches ChannelEvent::BadFrame(e) && e@ == text),
            Ok(f) => {
                &&& after == accept_step(before, f).0
                &&& r is Waiting <==> accept_step(before, f).1 is None
                &&& r is NotAResult <==> (accept_step(before, f).1 matches Some((ftype, _, _))
                    && ftype != 2)
            },
        },
{
}

} // verus!
