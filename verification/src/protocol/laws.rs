//! What holds of the wire protocol as a whole.
use vstd::prelude::*;
use vstd::utf8::*;
use crate::protocol::frame::{decode_inverts_encode, frame_bytes, frame_of, piece, piece_count, piece_frame, pieces_hold_sixty_thousand, FrameView, MAX_FRAME_PAYLOAD};
use crate::slots::{all_filled, filled, lemma_filled_bound, lemma_filled_grows};
use crate::protocol::reassembler::{accept_step, fresh_transfer, joined, started, unfinished, PartialView};

verus! {

/// The transfers in progress after the frames, in the order in which they came.
pub open spec fn accept_all(m: Map<Seq<char>, PartialView>, frames: Seq<FrameView>) -> Map<
    Seq<char>,
    PartialView,
>
    decreases frames.len(),
{
    if frames.len() == 0 {
        m
    } else {
        accept_step(accept_all(m, frames.drop_last()), frames.last()).0
    }
}

/// What comes out when the frame number `n` is fed.
pub open spec fn output_at(m: Map<Seq<char>, PartialView>, frames: Seq<FrameView>, n: int) -> Option<
    (u8, Seq<char>, Seq<u8>),
> {
    accept_step(accept_all(m, frames.take(n)), frames[n]).1
}

/// The frame at `i` carries the piece number `k` of the transfer `id`.
pub open spec fn carries(frames: Seq<FrameView>, id: Seq<char>, k: int, i: int) -> bool {
    0 <= i < frames.len() && frames[i].transfer_id == id && frames[i].frame_seq == k
}

/// The piece number `k` of the transfer `id` is among the frames.
pub open spec fn delivered(frames: Seq<FrameView>, id: Seq<char>, k: int) -> bool {
    exists|i: int| carries(frames, id, k, i)
}

/// Every frame of the transfer `id` is one of those that its payload was cut into.
pub open spec fn genuine(frames: Seq<FrameView>, ftype: u8, id: Seq<char>, payload: Seq<u8>) -> bool {
    forall|i: int|
        0 <= i < frames.len() && (#[trigger] frames[i]).transfer_id == id ==> frames[i].frame_seq
            < piece_count(payload.len()) && frames[i] == piece_frame(
            ftype,
            id,
            payload,
            frames[i].frame_seq as int,
        )
}

/// Some frame of the transfer `id` is among the frames.
pub open spec fn mentions(frames: Seq<FrameView>, id: Seq<char>) -> bool {
    exists|i: int| 0 <= i < frames.len() && (#[trigger] frames[i]).transfer_id == id
}

/// A frame leaves every transfer but its own as it was.
pub proof fn frame_touches_only_its_transfer(
    m: Map<Seq<char>, PartialView>,
    f: FrameView,
    other: Seq<char>,
)
    requires
        other != f.transfer_id,
    ensures
        accept_step(m, f).0.contains_key(other) == m.contains_key(other),
        m.contains_key(other) ==> accept_step(m, f).0[other] == m[other],
{
}

/// A transfer leaves as soon as its last piece is in: what stays in progress is unfinished.
pub proof fn finished_transfers_leave(m: Map<Seq<char>, PartialView>, f: FrameView)
    requires
        unfinished(m),
    ensures
        unfinished(accept_step(m, f).0),
{
    let after = accept_step(m, f).0;
    assert forall|id: Seq<char>| #[trigger] after.contains_key(id) implies !all_filled(
        after[id].parts,
    ) by {
        if id != f.transfer_id {
            assert(m.contains_key(id));
        } else if f.total_frames == 0 || f.frame_seq >= f.total_frames {
            assert(m.contains_key(id));
        }
    }
}

/// A transfer in progress has a piece and lacks one. So it has two pieces at least, and a payload
/// that is one piece never waits.
pub proof fn transfers_in_progress_have_two_pieces(m: Map<Seq<char>, PartialView>, f: FrameView)
    requires
        unfinished(m),
        started(m),
    ensures
        started(accept_step(m, f).0),
        forall|id: Seq<char>| #[trigger]
            accept_step(m, f).0.contains_key(id) ==> accept_step(m, f).0[id].parts.len() >= 2,
{
    finished_transfers_leave(m, f);
    let after = accept_step(m, f).0;
    assert forall|id: Seq<char>| #[trigger] after.contains_key(id) implies filled(after[id].parts)
        > 0 && after[id].parts.len() >= 2 by {
        if id != f.transfer_id || f.total_frames == 0 || f.frame_seq >= f.total_frames {
            assert(m.contains_key(id));
        } else {
            let p = if m.contains_key(id) {
                m[id]
            } else {
                fresh_transfer(f.ftype, f.total_frames as nat)
            };
            if p.parts[f.frame_seq as int] is None {
                lemma_filled_grows(p.parts, f.frame_seq as int, f.payload);
            }
        }
        lemma_filled_bound(after[id].parts);
    }
}

/// A frame whose piece has arrived before changes nothing and brings nothing out.
pub proof fn duplicate_is_ignored(m: Map<Seq<char>, PartialView>, f: FrameView)
    requires
        unfinished(m),
        m.contains_key(f.transfer_id),
        f.frame_seq < f.total_frames,
        m[f.transfer_id].parts.len() == f.total_frames,
        m[f.transfer_id].parts[f.frame_seq as int] is Some,
    ensures
        accept_step(m, f).0 == m,
        accept_step(m, f).1 is None,
{
    let id = f.transfer_id;
    let same = PartialView { ftype: m[id].ftype, parts: m[id].parts };
    assert(same == m[id]);
    assert(m.insert(id, same) =~= m);
}

/// The parts of a transfer of which just the pieces among `frames` have arrived.
spec fn parts_so_far(frames: Seq<FrameView>, id: Seq<char>, payload: Seq<u8>) -> Seq<
    Option<Seq<u8>>,
> {
    Seq::new(
        piece_count(payload.len()),
        |k: int|
            if delivered(frames, id, k) {
                Some(piece(payload, k))
            } else {
                None
            },
    )
}

/// One frame more delivers the piece that it carries.
pub proof fn lemma_delivered_grows(frames: Seq<FrameView>, f: FrameView, id: Seq<char>, k: int)
    ensures
        delivered(frames.push(f), id, k) <==> (delivered(frames, id, k) || (f.transfer_id == id
            && f.frame_seq == k)),
{
    let longer = frames.push(f);
    if delivered(frames, id, k) {
        let i = choose|i: int| carries(frames, id, k, i);
        assert(carries(longer, id, k, i));
    }
    if f.transfer_id == id && f.frame_seq == k {
        assert(carries(longer, id, k, frames.len() as int));
    }
    if delivered(longer, id, k) && !(f.transfer_id == id && f.frame_seq == k) {
        let i = choose|i: int| carries(longer, id, k, i);
        assert(carries(frames, id, k, i));
    }
}

/// While a piece is missing, the transfer holds just the pieces that came.
proof fn lemma_in_progress(
    m: Map<Seq<char>, PartialView>,
    ftype: u8,
    id: Seq<char>,
    payload: Seq<u8>,
    frames: Seq<FrameView>,
    gap: int,
)
    requires
        !m.contains_key(id),
        piece_count(payload.len()) < 0x1_0000_0000,
        genuine(frames, ftype, id, payload),
        0 <= gap < piece_count(payload.len()),
        !delivered(frames, id, gap),
    ensures
        !mentions(frames, id) ==> !accept_all(m, frames).contains_key(id),
        mentions(frames, id) ==> accept_all(m, frames).contains_key(id) && accept_all(
            m,
            frames,
        )[id] == (PartialView { ftype, parts: parts_so_far(frames, id, payload) }),
    decreases frames.len(),
{
    if frames.len() > 0 {
        let before = frames.drop_last();
        let f = frames.last();
        assert(frames =~= before.push(f));
        lemma_delivered_grows(before, f, id, gap);
        assert forall|i: int| 0 <= i < before.len() && (#[trigger] before[i]).transfer_id
            == id implies before[i].frame_seq < piece_count(payload.len()) && before[i]
            == piece_frame(ftype, id, payload, before[i].frame_seq as int) by {
            assert(frames[i] == before[i]);
        }
        lemma_in_progress(m, ftype, id, payload, before, gap);
        let s = accept_all(m, before);
        if mentions(before, id) {
            let i = choose|i: int| 0 <= i < before.len() && (#[trigger] before[i]).transfer_id == id;
            assert(frames[i].transfer_id == id);
        }
        if f.transfer_id != id {
            frame_touches_only_its_transfer(s, f, id);
            if mentions(frames, id) {
                let i = choose|i: int|
                    0 <= i < frames.len() && (#[trigger] frames[i]).transfer_id == id;
                assert(before[i].transfer_id == id);
                assert forall|k: int| delivered(frames, id, k) == delivered(before, id, k) by {
                    lemma_delivered_grows(before, f, id, k);
                }
                assert(parts_so_far(frames, id, payload) =~= parts_so_far(before, id, payload));
            }
        } else {
            let n = frames.len() - 1;
            assert(frames[n] == f);
            assert(frames[n].transfer_id == id);
            let p = if s.contains_key(id) {
                s[id]
            } else {
                fresh_transfer(f.ftype, f.total_frames as nat)
            };
            if !mentions(before, id) {
                assert forall|k: int| !delivered(before, id, k) by {
                    if delivered(before, id, k) {
                        let i = choose|i: int| carries(before, id, k, i);
                        assert(before[i].transfer_id == id);
                    }
                }
            }
            assert(p.parts =~= parts_so_far(before, id, payload));
            let k = f.frame_seq as int;
            let parts = if p.parts[k] is None {
                p.parts.update(k, Some(f.payload))
            } else {
                p.parts
            };
            assert forall|j: int| 0 <= j < parts.len() implies parts[j] == parts_so_far(
                frames,
                id,
                payload,
            )[j] by {
                lemma_delivered_grows(before, f, id, j);
            }
            assert(parts =~= parts_so_far(frames, id, payload));
            assert(parts[gap] is None);
        }
    }
}

/// The first `k` pieces one after the other are the start of the payload.
proof fn lemma_pieces_join(payload: Seq<u8>, parts: Seq<Option<Seq<u8>>>, k: int)
    requires
        parts.len() == piece_count(payload.len()),
        forall|i: int| 0 <= i < parts.len() ==> (#[trigger] parts[i]) == Some(piece(payload, i)),
        0 <= k <= parts.len(),
    ensures
        joined(parts.take(k)) == payload.take(
            if k * MAX_FRAME_PAYLOAD < payload.len() {
                k * MAX_FRAME_PAYLOAD
            } else {
                payload.len() as int
            },
        ),
    decreases k,
{
    if k > 0 {
        lemma_pieces_join(payload, parts, k - 1);
        let t = parts.take(k);
        assert(t.drop_last() =~= parts.take(k - 1));
        assert(t.last() == parts[k - 1]);
        let start = (k - 1) * MAX_FRAME_PAYLOAD;
        assert(start <= payload.len());
        assert(joined(t) =~= payload.take(start) + piece(payload, k - 1));
    } else {
        assert(joined(parts.take(0)) =~= payload.take(0));
    }
}

/// A frame that leaves a piece missing brings nothing out of its transfer.
#[verifier::spinoff_prover]
proof fn lemma_silent_while_missing(
    m: Map<Seq<char>, PartialView>,
    ftype: u8,
    id: Seq<char>,
    payload: Seq<u8>,
    frames: Seq<FrameView>,
    gap: int,
    n: int,
)
    requires
        !m.contains_key(id),
        piece_count(payload.len()) < 0x1_0000_0000,
        genuine(frames, ftype, id, payload),
        0 <= gap < piece_count(payload.len()),
        !delivered(frames.drop_last(), id, gap),
        0 <= n < frames.len() - 1,
        frames[n].transfer_id == id,
    ensures
        output_at(m, frames, n) is None,
{
    let upto = frames.take(n + 1);
    assert(upto.drop_last() =~= frames.take(n));
    assert(upto.last() == frames[n]);
    assert(upto[n].transfer_id == id);
    assert forall|i: int| 0 <= i < upto.len() && (#[trigger] upto[i]).transfer_id
        == id implies upto[i].frame_seq < piece_count(payload.len()) && upto[i] == piece_frame(
        ftype,
        id,
        payload,
        upto[i].frame_seq as int,
    ) by {
        assert(frames[i] == upto[i]);
    }
    if delivered(upto, id, gap) {
        let i = choose|i: int| carries(upto, id, gap, i);
        assert(carries(frames.drop_last(), id, gap, i));
    }
    lemma_in_progress(m, ftype, id, payload, upto, gap);
    // A frame that brings a payload out also ends its transfer, and this one goes on.
    assert(accept_all(m, upto).contains_key(id));
}

/// The frame with the last missing piece brings the payload out and ends the transfer.
#[verifier::spinoff_prover]
proof fn lemma_last_piece_completes(
    m: Map<Seq<char>, PartialView>,
    ftype: u8,
    id: Seq<char>,
    payload: Seq<u8>,
    before: Seq<FrameView>,
    f: FrameView,
)
    requires
        !m.contains_key(id),
        piece_count(payload.len()) < 0x1_0000_0000,
        genuine(before, ftype, id, payload),
        f.frame_seq < piece_count(payload.len()),
        f == piece_frame(ftype, id, payload, f.frame_seq as int),
        !delivered(before, id, f.frame_seq as int),
        forall|k: int|
            0 <= k < piece_count(payload.len()) && k != f.frame_seq ==> delivered(before, id, k),
    ensures
        accept_step(accept_all(m, before), f).1 == Some((ftype, id, payload)),
        !accept_step(accept_all(m, before), f).0.contains_key(id),
{
    let gap = f.frame_seq as int;
    lemma_in_progress(m, ftype, id, payload, before, gap);
    let s = accept_all(m, before);
    let p = if s.contains_key(id) {
        s[id]
    } else {
        fresh_transfer(f.ftype, f.total_frames as nat)
    };
    if !mentions(before, id) {
        assert forall|k: int| !delivered(before, id, k) by {
            if delivered(before, id, k) {
                let i = choose|i: int| carries(before, id, k, i);
                assert(before[i].transfer_id == id);
            }
        }
    }
    assert(p.parts =~= parts_so_far(before, id, payload));
    let parts = p.parts.update(gap, Some(f.payload));
    assert forall|j: int| 0 <= j < parts.len() implies (#[trigger] parts[j]) == Some(
        piece(payload, j),
    ) by {
        assert(j != gap ==> delivered(before, id, j));
    }
    assert(p.parts[gap] is None);
    assert(all_filled(parts));
    lemma_pieces_join(payload, parts, parts.len() as int);
    assert(parts.take(parts.len() as int) =~= parts);
    assert(payload.take(payload.len() as int) =~= payload);
}

/// However the frames of a payload are delivered (in any order, with repeats, with frames of
/// other transfers in between), nothing comes out of the transfer until its last missing piece
/// is fed. That frame brings out the payload, whole, and ends the transfer.
#[verifier::spinoff_prover]
pub proof fn reassembly_in_any_order(
    m: Map<Seq<char>, PartialView>,
    ftype: u8,
    id: Seq<char>,
    payload: Seq<u8>,
    frames: Seq<FrameView>,
)
    requires
        !m.contains_key(id),
        piece_count(payload.len()) < 0x1_0000_0000,
        genuine(frames, ftype, id, payload),
        forall|k: int| 0 <= k < piece_count(payload.len()) ==> delivered(frames, id, k),
        exists|k: int|
            0 <= k < piece_count(payload.len()) && !delivered(frames.drop_last(), id, k),
    ensures
        forall|n: int|
            0 <= n < frames.len() - 1 && (#[trigger] frames[n]).transfer_id == id ==> output_at(
                m,
                frames,
                n,
            ) is None,
        output_at(m, frames, frames.len() - 1) == Some((ftype, id, payload)),
        !accept_all(m, frames).contains_key(id),
{
    let last = frames.len() - 1;
    let gap = choose|k: int|
        0 <= k < piece_count(payload.len()) && !delivered(frames.drop_last(), id, k);
    assert(delivered(frames, id, 0));
    assert(frames.len() > 0);
    assert forall|n: int|
        0 <= n < frames.len() - 1 && (#[trigger] frames[n]).transfer_id == id implies output_at(
        m,
        frames,
        n,
    ) is None by {
        lemma_silent_while_missing(m, ftype, id, payload, frames, gap, n);
    }
    let before = frames.drop_last();
    let f = frames.last();
    assert(before =~= frames.take(last));
    assert(frames =~= before.push(f));
    assert forall|i: int| 0 <= i < before.len() && (#[trigger] before[i]).transfer_id
        == id implies before[i].frame_seq < piece_count(payload.len()) && before[i] == piece_frame(
        ftype,
        id,
        payload,
        before[i].frame_seq as int,
    ) by {
        assert(frames[i] == before[i]);
    }
    lemma_delivered_grows(before, f, id, gap);
    assert(frames[last] == f);
    assert forall|k: int| 0 <= k < piece_count(payload.len()) && k != f.frame_seq implies delivered(
        before,
        id,
        k,
    ) by {
        lemma_delivered_grows(before, f, id, k);
    }
    lemma_last_piece_completes(m, ftype, id, payload, before, f);
}

/// A finished transfer is forgotten: its id is free again, and the same payload, or another, can
/// be delivered under it.
pub proof fn finished_transfer_can_be_repeated(
    m: Map<Seq<char>, PartialView>,
    id: Seq<char>,
    ftype: u8,
    payload: Seq<u8>,
    frames: Seq<FrameView>,
    again_ftype: u8,
    again_payload: Seq<u8>,
    again: Seq<FrameView>,
)
    requires
        !m.contains_key(id),
        piece_count(payload.len()) < 0x1_0000_0000,
        genuine(frames, ftype, id, payload),
        forall|k: int| 0 <= k < piece_count(payload.len()) ==> delivered(frames, id, k),
        exists|k: int|
            0 <= k < piece_count(payload.len()) && !delivered(frames.drop_last(), id, k),
        piece_count(again_payload.len()) < 0x1_0000_0000,
        genuine(again, again_ftype, id, again_payload),
        forall|k: int| 0 <= k < piece_count(again_payload.len()) ==> delivered(again, id, k),
        exists|k: int|
            0 <= k < piece_count(again_payload.len()) && !delivered(again.drop_last(), id, k),
    ensures
        !accept_all(m, frames).contains_key(id),
        output_at(accept_all(m, frames), again, again.len() - 1) == Some(
            (again_ftype, id, again_payload),
        ),
{
    reassembly_in_any_order(m, ftype, id, payload, frames);
    reassembly_in_any_order(accept_all(m, frames), again_ftype, id, again_payload, again);
}

/// Each message that a payload was cut into decodes to the frame of its piece.
pub proof fn split_messages_decode(ftype: u8, id: Seq<char>, payload: Seq<u8>, k: int)
    requires
        encode_utf8(id).len() < 0x1_0000,
        0 <= k < piece_count(payload.len()),
    ensures
        frame_of(frame_bytes(piece_frame(ftype, id, payload, k))) == Ok::<FrameView, Seq<char>>(
            piece_frame(ftype, id, payload, k),
        ),
{
    let f = piece_frame(ftype, id, payload, k);
    decode_inverts_encode(f, Seq::empty());
    assert(frame_bytes(f) + Seq::<u8>::empty() =~= frame_bytes(f));
}

/// Each of the messages into which a payload is cut is read as a frame that is named after the
/// transfer, tells its number and how many there are, and brings sixty thousand bytes of the payload,
/// or what is left of it.
#[verifier::spinoff_prover]
pub proof fn messages_bring_their_bytes(ftype: u8, id: Seq<char>, payload: Seq<u8>, k: int)
    requires
        encode_utf8(id).len() < 0x1_0000,
        payload.len() < 60_000 * 0xffff_ffff,
        0 <= k < piece_count(payload.len()),
    ensures
        frame_of(frame_bytes(piece_frame(ftype, id, payload, k))) == Ok::<FrameView, Seq<char>>(
            FrameView {
                ftype,
                transfer_id: id,
                frame_seq: k as u32,
                total_frames: piece_count(payload.len()) as u32,
                payload: payload.subrange(
                    60_000 * k,
                    if 60_000 * (k + 1) < payload.len() {
                        60_000 * (k + 1)
                    } else {
                        payload.len() as int
                    },
                ),
            },
        ),
        piece_count(payload.len()) <= u32::MAX,
        payload.len() == 0 ==> piece_count(payload.len()) == 1,
        payload.len() > 0 ==> 60_000 * (piece_count(payload.len()) - 1) < payload.len() <= 60_000
            * piece_count(payload.len()),
{
    let f = piece_frame(ftype, id, payload, k);
    let whole = payload.subrange(
        60_000 * k,
        if 60_000 * (k + 1) < payload.len() {
            60_000 * (k + 1)
        } else {
            payload.len() as int
        },
    );
    split_messages_decode(ftype, id, payload, k);
    pieces_hold_sixty_thousand(ftype, id, payload, k, 0);
    assert(piece_count(payload.len()) <= u32::MAX);
    assert forall|j: int| 0 <= j < whole.len() implies f.payload[j] == whole[j] by {
        pieces_hold_sixty_thousand(ftype, id, payload, k, j);
    }
    assert(f.payload =~= whole);
}

/// A frame that has no place in its transfer is ignored.
pub proof fn frames_out_of_range_are_ignored(m: Map<Seq<char>, PartialView>, f: FrameView)
    requires
        f.frame_seq >= f.total_frames,
    ensures
        accept_step(m, f).0 == m,
        accept_step(m, f).1 is None,
{
}

/// A frame that disagrees with its transfer on the number of frames drops the transfer, and brings
/// nothing out.
pub proof fn disagreeing_frames_drop_the_transfer(m: Map<Seq<char>, PartialView>, f: FrameView)
    requires
        f.frame_seq < f.total_frames,
        m.contains_key(f.transfer_id),
        m[f.transfer_id].parts.len() != f.total_frames,
    ensures
        !accept_step(m, f).0.contains_key(f.transfer_id),
        accept_step(m, f).1 is None,
{
}

/// The piece number `j` that the transfer `id` holds, if it does.
pub open spec fn held(m: Map<Seq<char>, PartialView>, id: Seq<char>, j: int) -> Option<Seq<u8>> {
    if m.contains_key(id) {
        m[id].parts[j]
    } else {
        None
    }
}

/// The pieces that the transfer of a frame holds, with the piece of the frame where it held none.
pub open spec fn with_its_piece(m: Map<Seq<char>, PartialView>, f: FrameView) -> Seq<
    Option<Seq<u8>>,
> {
    Seq::new(
        f.total_frames as nat,
        |j: int|
            if j == f.frame_seq && held(m, f.transfer_id, j) is None {
                Some(f.payload)
            } else {
                held(m, f.transfer_id, j)
            },
    )
}

/// A frame puts its piece in its place, where there is none, and leaves the other pieces. The first
/// frame of a transfer gives it its type and its number of pieces. With its last piece the transfer
/// comes out under its id, with its type and its pieces one after the other; before that, nothing
/// does.
pub proof fn frames_fill_their_places(m: Map<Seq<char>, PartialView>, f: FrameView)
    requires
        f.frame_seq < f.total_frames,
        m.contains_key(f.transfer_id) ==> m[f.transfer_id].parts.len() == f.total_frames,
    ensures
        ({
            let id = f.transfer_id;
            let pieces = with_its_piece(m, f);
            let ftype = if m.contains_key(id) {
                m[id].ftype
            } else {
                f.ftype
            };
            let (after, out) = accept_step(m, f);
            if exists|j: int| 0 <= j < pieces.len() && (#[trigger] pieces[j]) is None {
                out is None && after.contains_key(id) && after[id].ftype == ftype
                    && after[id].parts == pieces
            } else {
                out == Some((ftype, id, joined(pieces))) && !after.contains_key(id)
            }
        }),
{
    let id = f.transfer_id;
    let seq = f.frame_seq as int;
    let p = if m.contains_key(id) {
        m[id]
    } else {
        fresh_transfer(f.ftype, f.total_frames as nat)
    };
    let parts = if p.parts[seq] is None {
        p.parts.update(seq, Some(f.payload))
    } else {
        p.parts
    };
    assert(parts =~= with_its_piece(m, f));
}

/// Pieces are joined in order, each whole.
pub proof fn pieces_are_joined_in_order(parts: Seq<Option<Seq<u8>>>, piece: Seq<u8>)
    ensures
        joined(Seq::<Option<Seq<u8>>>::empty()).len() == 0,
        joined(parts.push(Some(piece))) == joined(parts) + piece,
{
    assert(parts.push(Some(piece)).drop_last() =~= parts);
}

} // verus!
