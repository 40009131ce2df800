//! Reassembly of frames into the payloads they were cut from.
use vstd::hash_map::StringHashMap;
use vstd::prelude::*;
use crate::protocol::bytes::push_bytes;
use crate::protocol::frame::{Frame, FrameView};
use crate::slots::{all_filled, filled, lemma_filled_bound, lemma_filled_grows, lemma_filled_none};

verus! {

/// What has arrived of one transfer: the type of its first frame, and for each frame number
/// the piece that came with it.
#[verifier::ext_equal]
pub struct PartialView {
    pub ftype: u8,
    pub parts: Seq<Option<Seq<u8>>>,
}

/// The pieces one after the other.
pub open spec fn joined(parts: Seq<Option<Seq<u8>>>) -> Seq<u8>
    decreases parts.len(),
{
    if parts.len() == 0 {
        Seq::empty()
    } else {
        joined(parts.drop_last()) + parts.last()->Some_0
    }
}

/// A transfer of which nothing has arrived.
pub open spec fn fresh_transfer(ftype: u8, total: nat) -> PartialView {
    PartialView { ftype, parts: Seq::new(total, |i: int| None) }
}

/// No transfer in progress has all its pieces.
pub open spec fn unfinished(m: Map<Seq<char>, PartialView>) -> bool {
    forall|id: Seq<char>| #[trigger] m.contains_key(id) ==> !all_filled(m[id].parts)
}

/// Every transfer in progress has a piece.
pub open spec fn started(m: Map<Seq<char>, PartialView>) -> bool {
    forall|id: Seq<char>| #[trigger] m.contains_key(id) ==> filled(m[id].parts) > 0
}

/// The transfers in progress, and what came out, after one frame. A frame that cannot belong to
/// any transfer changes nothing. One that disagrees with its transfer on the number of frames
/// drops the transfer. A piece that has arrived before is ignored.
pub open spec fn accept_step(m: Map<Seq<char>, PartialView>, f: FrameView) -> (
    Map<Seq<char>, PartialView>,
    Option<(u8, Seq<char>, Seq<u8>)>,
) {
    let id = f.transfer_id;
    if f.total_frames == 0 || f.frame_seq >= f.total_frames {
        (m, None)
    } else {
        let p = if m.contains_key(id) {
            m[id]
        } else {
            fresh_transfer(f.ftype, f.total_frames as nat)
        };
        if p.parts.len() != f.total_frames {
            (m.remove(id), None)
        } else {
            let k = f.frame_seq as int;
            let parts = if p.parts[k] is None {
                p.parts.update(k, Some(f.payload))
            } else {
                p.parts
            };
            if all_filled(parts) {
                (m.remove(id), Some((p.ftype, id, joined(parts))))
            } else {
                (m.insert(id, PartialView { ftype: p.ftype, parts }), None)
            }
        }
    }
}

/// A transfer in progress.
struct Partial {
    transfer_id: String,
    ftype: u8,
    parts: Vec<Option<Vec<u8>>>,
    received: u32,
}

/// The pieces as byte sequences.
spec fn piece_views(parts: Seq<Option<Vec<u8>>>) -> Seq<Option<Seq<u8>>> {
    Seq::new(
        parts.len(),
        |i: int|
            match parts[i] {
                Some(v) => Some(v@),
                None => None,
            },
    )
}

impl Partial {
    spec fn contents(&self) -> PartialView {
        PartialView { ftype: self.ftype, parts: piece_views(self.parts@) }
    }

    /// The count of pieces is right.
    spec fn counted(&self) -> bool {
        self.received == filled(piece_views(self.parts@))
    }
}

/// The transfers in progress, in no order, and where each of them stands.
struct Transfers {
    places: StringHashMap<usize>,
    entries: Vec<Partial>,
}

impl Transfers {
    /// Each transfer stands in its place.
    spec fn in_place(&self) -> bool {
        &&& forall|id: Seq<char>| #[trigger]
            self.places@.contains_key(id) ==> self.places@[id] < self.entries@.len()
                && self.entries@[self.places@[id] as int].transfer_id@ == id
        &&& forall|i: int|
            0 <= i < self.entries@.len() ==> {
                let id = (#[trigger] self.entries@[i]).transfer_id@;
                self.places@.contains_key(id) && self.places@[id] == i
            }
        &&& forall|i: int| 0 <= i < self.entries@.len() ==> (#[trigger] self.entries@[i]).counted()
    }

    spec fn contents(&self) -> Map<Seq<char>, PartialView> {
        Map::new(
            |id: Seq<char>| self.places@.contains_key(id),
            |id: Seq<char>| self.entries@[self.places@[id] as int].contents(),
        )
    }

    fn new() -> (r: Self)
        ensures
            r.in_place(),
            r.contents() == Map::<Seq<char>, PartialView>::empty(),
    {
        let r = Transfers { places: StringHashMap::new(), entries: Vec::new() };
        assert(r.contents() =~= Map::<Seq<char>, PartialView>::empty());
        r
    }

    /// Takes a transfer out.
    fn take(&mut self, id: &str) -> (r: Option<Partial>)
        requires
            old(self).in_place(),
        ensures
            final(self).in_place(),
            final(self).contents() == old(self).contents().remove(id@),
            match r {
                Some(p) => old(self).contents().contains_key(id@) && p.contents()
                    == old(self).contents()[id@] && p.transfer_id@ == id@ && p.counted(),
                None => !old(self).contents().contains_key(id@),
            },
    {
        let place: usize = match self.places.get(id) {
            Some(place) => *place,
            None => {
                assert(self.contents() =~= self.contents().remove(id@));
                return None;
            },
        };
        let last: usize = self.entries.len() - 1;
        // The last one moves into the gap.
        let moved = self.entries[last].transfer_id.clone();
        let entry = self.entries.swap_remove(place);
        self.places.remove(id);
        if place != last {
            self.places.insert(moved, place);
        }
        assert(self.contents() =~= old(self).contents().remove(id@));
        Some(entry)
    }

    /// Puts a transfer in that is not there.
    fn put(&mut self, entry: Partial)
        requires
            old(self).in_place(),
            entry.counted(),
            !old(self).contents().contains_key(entry.transfer_id@),
        ensures
            final(self).in_place(),
            final(self).contents() == old(self).contents().insert(
                entry.transfer_id@,
                entry.contents(),
            ),
    {
        let ghost id = entry.transfer_id@;
        let ghost p = entry.contents();
        self.places.insert(entry.transfer_id.clone(), self.entries.len());
        self.entries.push(entry);
        assert(self.contents() =~= old(self).contents().insert(id, p));
    }
}

/// Reassembles frames into complete payloads. One instance per data channel.
pub struct Reassembler {
    partial: Transfers,
}

impl View for Reassembler {
    type V = Map<Seq<char>, PartialView>;

    /// The transfers in progress, by transfer id.
    closed spec fn view(&self) -> Map<Seq<char>, PartialView> {
        self.partial.contents()
    }
}

impl Default for Reassembler {
    fn default() -> (r: Self)
        ensures
            r@ == Map::<Seq<char>, PartialView>::empty(),
    {
        Reassembler::new()
    }
}

/// No piece of a transfer of `total` frames.
fn no_parts(total: u32) -> (parts: Vec<Option<Vec<u8>>>)
    ensures
        piece_views(parts@) == fresh_transfer(0, total as nat).parts,
{
    let mut parts: Vec<Option<Vec<u8>>> = Vec::new();
    let mut i: u32 = 0;
    while i < total
        invariant
            i <= total,
            parts@.len() == i,
            forall|j: int| 0 <= j < parts@.len() ==> (#[trigger] parts@[j]) is None,
        decreases total - i,
    {
        parts.push(None);
        i = i + 1;
    }
    assert(piece_views(parts@) =~= fresh_transfer(0, total as nat).parts);
    parts
}

/// The pieces one after the other.
fn join_parts(parts: &Vec<Option<Vec<u8>>>) -> (payload: Vec<u8>)
    requires
        all_filled(piece_views(parts@)),
    ensures
        payload@ == joined(piece_views(parts@)),
{
    let mut payload: Vec<u8> = Vec::new();
    let ghost views = piece_views(parts@);
    let mut i: usize = 0;
    while i < parts.len()
        invariant
            i <= parts@.len(),
            views == piece_views(parts@),
            all_filled(views),
            payload@ == joined(views.take(i as int)),
        decreases parts@.len() - i,
    {
        assert(views[i as int] is Some);
        match &parts[i] {
            Some(part) => {
                push_bytes(&mut payload, part.as_slice());
            },
            None => {},
        }
        proof {
            let longer = views.take(i + 1);
            assert(longer.drop_last() =~= views.take(i as int));
            assert(longer.last() == views[i as int]);
        }
        i = i + 1;
    }
    assert(views.take(i as int) =~= views);
    payload
}

impl Reassembler {
    #[verifier::type_invariant]
    spec fn well_formed(&self) -> bool {
        &&& self.partial.in_place()
        &&& unfinished(self.partial.contents())
        &&& started(self.partial.contents())
    }

    pub fn new() -> (r: Self)
        ensures
            r@ == Map::<Seq<char>, PartialView>::empty(),
            unfinished(r@),
            started(r@),
    {
        Reassembler { partial: Transfers::new() }
    }

    /// Feed one frame. Returns the full payload when a transfer completes.
    pub fn accept(&mut self, frame: Frame) -> (r: Option<(u8, String, Vec<u8>)>)
        ensures
            unfinished(old(self)@),
            started(old(self)@),
            final(self)@ == accept_step(old(self)@, frame@).0,
            unfinished(final(self)@),
            started(final(self)@),
            match (r, accept_step(old(self)@, frame@).1) {
                (Some((ftype, id, payload)), Some((t, i, p))) => ftype == t && id@ == i
                    && payload@ == p,
                (None, None) => true,
                _ => false,
            },
    {
        proof {
            use_type_invariant(&*self);
        }
        if frame.total_frames == 0 || frame.frame_seq >= frame.total_frames {
            return None;
        }
        let ghost before = self@;
        let ghost id = frame.transfer_id@;
        let mut all = Transfers::new();
        std::mem::swap(&mut all, &mut self.partial);
        // The transfer of this frame leaves, and goes back unless it ends here.
        let mut entry: Partial = match all.take(frame.transfer_id.as_str()) {
            Some(p) => p,
            None => Partial {
                transfer_id: frame.transfer_id.clone(),
                ftype: frame.ftype,
                parts: no_parts(frame.total_frames),
                received: 0,
            },
        };
        let ghost p = if before.contains_key(id) {
            before[id]
        } else {
            fresh_transfer(frame.ftype, frame.total_frames as nat)
        };
        proof {
            if !before.contains_key(id) {
                lemma_filled_none(p.parts);
            }
            assert(entry.contents() =~= p);
        }
        if entry.parts.len() as u64 != frame.total_frames as u64 {
            // Inconsistent framing; drop the transfer.
            self.partial = all;
            return None;
        }
        let k: usize = frame.frame_seq as usize;
        let ghost parts = p.parts;
        proof {
            lemma_filled_bound(parts);
            assert(parts.len() == entry.parts@.len());
        }
        if entry.parts[k].is_none() {
            assert(parts[k as int] is None);
            proof {
                lemma_filled_grows(parts, k as int, frame.payload@);
                lemma_filled_bound(parts.update(k as int, Some(frame.payload@)));
            }
            entry.parts.set(k, Some(frame.payload));
            entry.received = entry.received + 1;
            assert(piece_views(entry.parts@) =~= parts.update(k as int, Some(frame.payload@)));
        } else {
            assert(parts[k as int] is Some);
        }
        proof {
            lemma_filled_bound(piece_views(entry.parts@));
        }
        if entry.received as u64 == entry.parts.len() as u64 {
            let payload = join_parts(&entry.parts);
            self.partial = all;
            return Some((entry.ftype, frame.transfer_id, payload));
        }
        let ghost after = entry.contents();
        all.put(entry);
        assert(all.contents() =~= before.insert(id, after));
        self.partial = all;
        None
    }
}

} // verus!
