//! The conversation with the signaling server: JSON texts that say who is there and that relay
//! connection offers, answers and candidates.
use vstd::prelude::*;
use crate::json::{comma_joined, items_in, member, member_in, member_of, member_text, node_of, node_view, parse_node, quote, quoted, text_in, text_under, text_view, JsonNode, NodeView};
use crate::text::{copy_str, same_text};
use crate::workers::{others, texts, without, without_leaves_out_one};

verus! {

/// What a message from the signaling server says, as far as it is looked at.
#[derive(Debug)]
pub struct SignalFields {
    pub kind: Option<String>,
    pub id: Option<String>,
    /// The strings among the peers, where there is a list of them.
    pub peers: Option<Vec<String>>,
    pub from: Option<String>,
    pub to: Option<String>,
    /// The message has an offer, whatever it holds.
    pub has_offer: bool,
    pub offer_sdp: Option<String>,
    pub answer_sdp: Option<String>,
    pub candidate: Option<String>,
}

/// What [`SignalFields`] holds.
pub struct FieldsView {
    pub kind: Option<Seq<char>>,
    pub id: Option<Seq<char>>,
    pub peers: Option<Seq<Seq<char>>>,
    pub from: Option<Seq<char>>,
    pub to: Option<Seq<char>>,
    pub has_offer: bool,
    pub offer_sdp: Option<Seq<char>>,
    pub answer_sdp: Option<Seq<char>>,
    pub candidate: Option<Seq<char>>,
}

/// The views of strings that may be missing.
pub open spec fn texts_view(s: Option<Vec<String>>) -> Option<Seq<Seq<char>>> {
    match s {
        Some(v) => Some(texts(v@)),
        None => None,
    }
}

impl View for SignalFields {
    type V = FieldsView;

    open spec fn view(&self) -> FieldsView {
        FieldsView {
            kind: text_view(self.kind),
            id: text_view(self.id),
            peers: texts_view(self.peers),
            from: text_view(self.from),
            to: text_view(self.to),
            has_offer: self.has_offer,
            offer_sdp: text_view(self.offer_sdp),
            answer_sdp: text_view(self.answer_sdp),
            candidate: text_view(self.candidate),
        }
    }
}

/// The strings among JSON texts, in order.
pub open spec fn strings_among(items: Seq<Seq<char>>) -> Seq<Seq<char>>
    decreases items.len(),
{
    if items.len() == 0 {
        Seq::empty()
    } else {
        let before = strings_among(items.drop_last());
        match text_in(node_of(items.last())) {
            Some(s) => before.push(s),
            None => before,
        }
    }
}

/// The string under `inner` of the object under `outer`.
pub open spec fn text_inside(node: Option<NodeView>, outer: Seq<char>, inner: Seq<char>) -> Option<
    Seq<char>,
> {
    match member_in(node, outer) {
        Some(child) => text_under(node_of(child), inner),
        None => None,
    }
}

/// The strings in the array under `key`.
pub open spec fn strings_under(node: Option<NodeView>, key: Seq<char>) -> Option<Seq<Seq<char>>> {
    match member_in(node, key) {
        Some(child) => match items_in(node_of(child)) {
            Some(items) => Some(strings_among(items)),
            None => None,
        },
        None => None,
    }
}

/// What a message says.
pub open spec fn fields_of(node: Option<NodeView>) -> FieldsView {
    FieldsView {
        kind: text_under(node, "type"@),
        id: text_under(node, "id"@),
        peers: strings_under(node, "peers"@),
        from: text_under(node, "from"@),
        to: text_under(node, "to"@),
        has_offer: member_in(node, "offer"@) is Some,
        offer_sdp: text_inside(node, "offer"@, "sdp"@),
        answer_sdp: text_inside(node, "answer"@, "sdp"@),
        candidate: text_inside(node, "candidate"@, "candidate"@),
    }
}

fn member_text_inside(node: &Option<JsonNode>, outer: &str, inner: &str) -> (r: Option<String>)
    ensures
        text_view(r) == text_inside(node_view(*node), outer@, inner@),
{
    match member(node, outer) {
        Some(child) => {
            let child_node = parse_node(child.as_str());
            member_text(&child_node, inner)
        },
        None => None,
    }
}

fn member_strings(node: &Option<JsonNode>, key: &str) -> (r: Option<Vec<String>>)
    ensures
        texts_view(r) == strings_under(node_view(*node), key@),
{
    let child = match member(node, key) {
        Some(child) => child,
        None => return None,
    };
    let items = match parse_node(child.as_str()) {
        Some(JsonNode::Items(items)) => items,
        _ => return None,
    };
    let ghost all = Seq::new(items@.len(), |i: int| items@[i]@);
    let mut r: Vec<String> = Vec::new();
    let mut i: usize = 0;
    while i < items.len()
        invariant
            i <= items@.len(),
            all == Seq::new(items@.len(), |i: int| items@[i]@),
            texts(r@) == strings_among(all.take(i as int)),
        decreases items@.len() - i,
    {
        let ghost more = all.take(i + 1);
        let ghost had = r@;
        assert(more.drop_last() =~= all.take(i as int));
        assert(more.last() == all[i as int]);
        if let Some(JsonNode::Text(s)) = parse_node(items[i].as_str()) {
            r.push(s);
            assert(texts(r@) =~= texts(had).push(s@));
        }
        i = i + 1;
    }
    assert(all.take(i as int) =~= all);
    Some(r)
}

/// Reads a message from the signaling server. A text that is no JSON object says nothing.
pub fn read_signal(text: &str) -> (r: SignalFields)
    ensures
        r@ == fields_of(node_of(text@)),
{
    let node = parse_node(text);
    SignalFields {
        kind: member_text(&node, "type"),
        id: member_text(&node, "id"),
        peers: member_strings(&node, "peers"),
        from: member_text(&node, "from"),
        to: member_text(&node, "to"),
        has_offer: member(&node, "offer").is_some(),
        offer_sdp: member_text_inside(&node, "offer", "sdp"),
        answer_sdp: member_text_inside(&node, "answer", "sdp"),
        candidate: member_text_inside(&node, "candidate", "candidate"),
    }
}

/// What a message from the signaling server calls for.
#[derive(Debug)]
pub enum SignalAction {
    Nothing,
    /// A worker offers a connection, with a description if it sent one; answer it as `my_id`.
    Offer { from: String, my_id: String, offered: Option<String> },
    /// A worker answered; its connection, if there is one, is told.
    Answer { from: String, sdp: String },
    /// A worker named a candidate; its connection, if there is one, is told.
    Candidate { from: String, candidate: String },
}

/// What a [`SignalAction`] holds.
pub enum ActionView {
    Nothing,
    Offer { from: Seq<char>, my_id: Seq<char>, offered: Option<Seq<char>> },
    Answer { from: Seq<char>, sdp: Seq<char> },
    Candidate { from: Seq<char>, candidate: Seq<char> },
}

impl View for SignalAction {
    type V = ActionView;

    open spec fn view(&self) -> ActionView {
        match *self {
            SignalAction::Nothing => ActionView::Nothing,
            SignalAction::Offer { from, my_id, offered } => ActionView::Offer {
                from: from@,
                my_id: my_id@,
                offered: text_view(offered),
            },
            SignalAction::Answer { from, sdp } => ActionView::Answer { from: from@, sdp: sdp@ },
            SignalAction::Candidate { from, candidate } => ActionView::Candidate {
                from: from@,
                candidate: candidate@,
            },
        }
    }
}

/// What the server has told so far: under which id it knows this node, and which other nodes
/// there are.
#[derive(Debug)]
pub struct Membership {
    pub my_id: Option<String>,
    pub workers: Vec<String>,
}

/// What a [`Membership`] holds.
pub struct MembershipView {
    pub my_id: Option<Seq<char>>,
    pub workers: Seq<Seq<char>>,
}

impl View for Membership {
    type V = MembershipView;

    open spec fn view(&self) -> MembershipView {
        MembershipView { my_id: text_view(self.my_id), workers: texts(self.workers@) }
    }
}

/// What is known after a message, and what the message calls for. A message of another kind, or
/// one that lacks a part, changes nothing and calls for nothing.
pub open spec fn signal_step(m: MembershipView, f: FieldsView) -> (MembershipView, ActionView) {
    if f.kind == Some("welcome"@) {
        match (f.id, f.peers) {
            (Some(id), Some(peers)) => (
                MembershipView { my_id: Some(id), workers: without(peers, id) },
                ActionView::Nothing,
            ),
            (Some(id), None) => (
                MembershipView { my_id: Some(id), workers: m.workers },
                ActionView::Nothing,
            ),
            _ => (m, ActionView::Nothing),
        }
    } else if f.kind == Some("peerList"@) {
        match f.peers {
            Some(peers) => (
                MembershipView {
                    my_id: m.my_id,
                    workers: without(
                        peers,
                        match m.my_id {
                            Some(id) => id,
                            None => ""@,
                        },
                    ),
                },
                ActionView::Nothing,
            ),
            None => (m, ActionView::Nothing),
        }
    } else if f.kind == Some("offer"@) {
        match (f.from, f.to, m.my_id) {
            (Some(from), Some(to), Some(my_id)) => if f.has_offer && to == my_id {
                (m, ActionView::Offer { from, my_id, offered: f.offer_sdp })
            } else {
                (m, ActionView::Nothing)
            },
            _ => (m, ActionView::Nothing),
        }
    } else if f.kind == Some("answer"@) {
        match (f.from, f.answer_sdp) {
            (Some(from), Some(sdp)) => (m, ActionView::Answer { from, sdp }),
            _ => (m, ActionView::Nothing),
        }
    } else if f.kind == Some("candidate"@) {
        match (f.from, f.candidate) {
            (Some(from), Some(candidate)) => (m, ActionView::Candidate { from, candidate }),
            _ => (m, ActionView::Nothing),
        }
    } else {
        (m, ActionView::Nothing)
    }
}

fn is_kind(kind: &Option<String>, name: &str) -> (r: bool)
    ensures
        r == (text_view(*kind) == Some(name@)),
{
    match kind {
        Some(k) => same_text(k.as_str(), name),
        None => false,
    }
}

impl Membership {
    /// Nothing is known.
    pub fn new() -> (r: Self)
        ensures
            r@ == (MembershipView { my_id: None, workers: Seq::empty() }),
    {
        let r = Membership { my_id: None, workers: Vec::new() };
        assert(texts(r.workers@) =~= Seq::<Seq<char>>::empty());
        r
    }

    /// Takes in a message from the server and says what it calls for.
    pub fn take_signal(&mut self, f: SignalFields) -> (r: SignalAction)
        ensures
            final(self)@ == signal_step(old(self)@, f@).0,
            r@ == signal_step(old(self)@, f@).1,
    {
        proof {
            reveal_strlit("welcome");
            reveal_strlit("peerList");
            reveal_strlit("offer");
            reveal_strlit("answer");
            reveal_strlit("candidate");
        }
        if is_kind(&f.kind, "welcome") {
            if let Some(id) = f.id {
                if let Some(peers) = f.peers {
                    self.workers = others(&peers, id.as_str());
                }
                self.my_id = Some(id);
            }
            SignalAction::Nothing
        } else if is_kind(&f.kind, "peerList") {
            if let Some(peers) = f.peers {
                let id = match &self.my_id {
                    Some(id) => id.clone(),
                    None => copy_str(""),
                };
                self.workers = others(&peers, id.as_str());
            }
            SignalAction::Nothing
        } else if is_kind(&f.kind, "offer") {
            match (f.from, f.to, &self.my_id) {
                (Some(from), Some(to), Some(my_id)) => if f.has_offer && same_text(
                    to.as_str(),
                    my_id.as_str(),
                ) {
                    SignalAction::Offer { from, my_id: my_id.clone(), offered: f.offer_sdp }
                } else {
                    SignalAction::Nothing
                },
                _ => SignalAction::Nothing,
            }
        } else if is_kind(&f.kind, "answer") {
            match (f.from, f.answer_sdp) {
                (Some(from), Some(sdp)) => SignalAction::Answer { from, sdp },
                _ => SignalAction::Nothing,
            }
        } else if is_kind(&f.kind, "candidate") {
            match (f.from, f.candidate) {
                (Some(from), Some(candidate)) => SignalAction::Candidate { from, candidate },
                _ => SignalAction::Nothing,
            }
        } else {
            SignalAction::Nothing
        }
    }
}

/// Asks the server for a place as the master.
pub fn register_message() -> (r: String)
    ensures
        r@ == "{\"type\":\"registerMaster\"}"@,
{
    copy_str("{\"type\":\"registerMaster\"}")
}

/// The message that names a candidate of `from` to `to`.
pub open spec fn candidate_text(to: Seq<char>, from: Seq<char>, candidate: Seq<char>) -> Seq<char> {
    "{\"candidate\":{\"candidate\":"@ + quoted(candidate)
        + ",\"sdpMLineIndex\":0,\"sdpMid\":\"0\"},\"from\":"@ + quoted(from) + ",\"to\":"@ + quoted(to)
        + ",\"type\":\"candidate\"}"@
}

/// Names a candidate of `from` to `to`.
pub fn candidate_message(to: &str, from: &str, candidate: &str) -> (r: String)
    ensures
        r@ == candidate_text(to@, from@, candidate@),
{
    let mut r = copy_str("{\"candidate\":{\"candidate\":");
    r.append(quote(candidate).as_str());
    r.append(",\"sdpMLineIndex\":0,\"sdpMid\":\"0\"},\"from\":");
    r.append(quote(from).as_str());
    r.append(",\"to\":");
    r.append(quote(to).as_str());
    r.append(",\"type\":\"candidate\"}");
    r
}

/// The message that answers the offer of `to`.
pub open spec fn answer_text(to: Seq<char>, from: Seq<char>, sdp: Seq<char>) -> Seq<char> {
    "{\"answer\":{\"sdp\":"@ + quoted(sdp) + ",\"type\":\"answer\"},\"from\":"@ + quoted(from)
        + ",\"to\":"@ + quoted(to) + ",\"type\":\"answer\"}"@
}

/// Answers the offer of `to`.
pub fn answer_message(to: &str, from: &str, sdp: &str) -> (r: String)
    ensures
        r@ == answer_text(to@, from@, sdp@),
{
    let mut r = copy_str("{\"answer\":{\"sdp\":");
    r.append(quote(sdp).as_str());
    r.append(",\"type\":\"answer\"},\"from\":");
    r.append(quote(from).as_str());
    r.append(",\"to\":");
    r.append(quote(to).as_str());
    r.append(",\"type\":\"answer\"}");
    r
}

/// A list of peers makes all of them workers but this node itself.
pub proof fn own_id_is_no_worker(m: MembershipView, f: FieldsView)
    requires
        f.kind == Some("welcome"@) ==> f.id is Some,
        f.kind == Some("welcome"@) || (f.kind == Some("peerList"@) && m.my_id is Some),
        f.peers is Some,
    ensures
        signal_step(m, f).0.my_id matches Some(id) && forall|w: Seq<char>| #[trigger]
            signal_step(m, f).0.workers.contains(w) <==> (f.peers->Some_0.contains(w) && w != id),
{
    let id = signal_step(m, f).0.my_id->Some_0;
    without_leaves_out_one(f.peers->Some_0, id);
}

/// The strings of a list of JSON texts are those that are strings, in order.
pub proof fn strings_keep_their_order(a: Seq<Seq<char>>, b: Seq<Seq<char>>, item: Seq<char>)
    ensures
        strings_among(a + b) == strings_among(a) + strings_among(b),
        strings_among(seq![item]) == match node_of(item) {
            Some(NodeView::Text(s)) => seq![s],
            _ => Seq::<Seq<char>>::empty(),
        },
    decreases b.len(),
{
    reveal_with_fuel(strings_among, 2);
    if b.len() == 0 {
        assert(a + b =~= a);
        assert(strings_among(a) + strings_among(b) =~= strings_among(a));
    } else {
        assert((a + b).drop_last() =~= a + b.drop_last());
        assert((a + b).last() == b.last());
        strings_keep_their_order(a, b.drop_last(), item);
        assert(strings_among(a + b) =~= strings_among(a) + strings_among(b));
    }
    assert(seq![item].drop_last() =~= Seq::<Seq<char>>::empty());
    assert(strings_among(seq![item]) =~= match node_of(item) {
        Some(NodeView::Text(s)) => seq![s],
        _ => Seq::<Seq<char>>::empty(),
    });
}

/// What a message says stands under the keys of the protocol: its kind under `type`, and so on. The
/// descriptions and the candidate stand one level further in.
pub proof fn messages_are_read_by_their_keys(
    members: Seq<(Seq<char>, Seq<char>)>,
    offer: Seq<char>,
    answer: Seq<char>,
    candidate: Seq<char>,
    peers: Seq<char>,
    items: Seq<Seq<char>>,
)
    ensures
        ({
            let node = Some(NodeView::Members(members));
            let f = fields_of(node);
            &&& f.kind == text_under(node, "type"@)
            &&& f.id == text_under(node, "id"@)
            &&& f.from == text_under(node, "from"@)
            &&& f.to == text_under(node, "to"@)
            &&& f.has_offer <==> member_of(members, "offer"@) is Some
            &&& member_of(members, "offer"@) == Some(offer) ==> f.offer_sdp == text_under(
                node_of(offer),
                "sdp"@,
            )
            &&& member_of(members, "answer"@) == Some(answer) ==> f.answer_sdp == text_under(
                node_of(answer),
                "sdp"@,
            )
            &&& member_of(members, "candidate"@) == Some(candidate) ==> f.candidate == text_under(
                node_of(candidate),
                "candidate"@,
            )
            &&& member_of(members, "peers"@) == Some(peers) && node_of(peers) == Some(
                NodeView::Items(items),
            ) ==> f.peers == Some(strings_among(items))
            &&& member_of(members, "offer"@) is None ==> f.offer_sdp is None
            &&& member_of(members, "answer"@) is None ==> f.answer_sdp is None
            &&& member_of(members, "candidate"@) is None ==> f.candidate is None
            &&& member_of(members, "peers"@) is None ==> f.peers is None
        }),
{
}

/// A welcome tells this node its id, and a list of peers, here or by itself, the workers: the peers
/// but this node, in order. Neither calls for anything. A welcome without an id tells nothing.
pub proof fn peers_become_workers(m: MembershipView, f: FieldsView)
    ensures
        f.kind == Some("welcome"@) ==> {
            let (after, action) = signal_step(m, f);
            &&& action is Nothing
            &&& f.id is None ==> after == m
            &&& f.id matches Some(id) ==> after.my_id == Some(id) && after.workers == match f.peers {
                Some(peers) => without(peers, id),
                None => m.workers,
            }
        },
        f.kind == Some("peerList"@) ==> {
            let (after, action) = signal_step(m, f);
            &&& action is Nothing
            &&& after.my_id == m.my_id
            &&& f.peers is None ==> after == m
            &&& f.peers matches Some(peers) ==> m.my_id matches Some(id) ==> after.workers
                == without(peers, id)
        },
{
    reveal_strlit("welcome");
    reveal_strlit("peerList");
    assert("welcome"@.len() != "peerList"@.len());
}

/// Before this node knows its id, all peers with a name become workers.
pub proof fn all_peers_become_workers_at_first(m: MembershipView, f: FieldsView)
    requires
        f.kind == Some("peerList"@),
        m.my_id is None,
        f.peers matches Some(peers) && forall|i: int|
            0 <= i < peers.len() ==> (#[trigger] peers[i]).len() > 0,
    ensures
        signal_step(m, f).0.workers == f.peers->Some_0,
{
    reveal_strlit("welcome");
    reveal_strlit("peerList");
    reveal_strlit("");
    assert("welcome"@.len() != "peerList"@.len());
    lemma_nothing_left_out(f.peers->Some_0, ""@);
}

proof fn lemma_nothing_left_out(peers: Seq<Seq<char>>, name: Seq<char>)
    requires
        forall|i: int| 0 <= i < peers.len() ==> #[trigger] peers[i] != name,
    ensures
        without(peers, name) == peers,
    decreases peers.len(),
{
    if peers.len() > 0 {
        let rest = peers.drop_last();
        assert forall|i: int| 0 <= i < rest.len() implies #[trigger] rest[i] != name by {
            assert(rest[i] == peers[i]);
        }
        lemma_nothing_left_out(rest, name);
        assert(peers[peers.len() - 1] != name);
        assert(rest.push(peers.last()) =~= peers);
    } else {
        assert(without(peers, name) =~= peers);
    }
}

/// An offer is answered where it names its sender, is meant for this node and holds an offer; an
/// answer and a candidate are passed on where they name their sender and hold one. None of them
/// changes what is known, and everything else calls for nothing and changes nothing.
pub proof fn signals_call_for_these_actions(m: MembershipView, f: FieldsView)
    ensures
        f.kind == Some("offer"@) ==> {
            let (after, action) = signal_step(m, f);
            &&& after == m
            &&& match action {
                ActionView::Offer { from, my_id, offered } => f.from == Some(from) && m.my_id
                    == Some(my_id) && f.to == Some(my_id) && f.has_offer && offered == f.offer_sdp,
                _ => action is Nothing && (f.from is None || f.to is None || m.my_id is None || f.to
                    != m.my_id || !f.has_offer),
            }
        },
        f.kind == Some("answer"@) ==> {
            let (after, action) = signal_step(m, f);
            &&& after == m
            &&& match action {
                ActionView::Answer { from, sdp } => f.from == Some(from) && f.answer_sdp == Some(
                    sdp,
                ),
                _ => action is Nothing && (f.from is None || f.answer_sdp is None),
            }
        },
        f.kind == Some("candidate"@) ==> {
            let (after, action) = signal_step(m, f);
            &&& after == m
            &&& match action {
                ActionView::Candidate { from, candidate } => f.from == Some(from) && f.candidate
                    == Some(candidate),
                _ => action is Nothing && (f.from is None || f.candidate is None),
            }
        },
        f.kind != Some("welcome"@) && f.kind != Some("peerList"@) && f.kind != Some("offer"@)
            && f.kind != Some("answer"@) && f.kind != Some("candidate"@) ==> signal_step(m, f) == (
            m,
            ActionView::Nothing,
        ),
{
    reveal_strlit("welcome");
    reveal_strlit("peerList");
    reveal_strlit("offer");
    reveal_strlit("answer");
    reveal_strlit("candidate");
    assert("answer"@.len() == 6 && "offer"@.len() == 5 && "candidate"@.len() == 9
        && "welcome"@.len() == 7 && "peerList"@.len() == 8);
}

/// The messages that go out are JSON objects that name their kind, their sender, whom they are for,
/// and what they bring.
pub proof fn messages_are_objects(
    to: Seq<char>,
    from: Seq<char>,
    candidate: Seq<char>,
    sdp: Seq<char>,
)
    ensures
        candidate_text(to, from, candidate) == "{"@ + comma_joined(
            seq![
                "\"candidate\":{"@ + comma_joined(
                    seq![
                        "\"candidate\":"@ + quoted(candidate),
                        "\"sdpMLineIndex\":0"@,
                        "\"sdpMid\":\"0\""@,
                    ],
                ) + "}"@,
                "\"from\":"@ + quoted(from),
                "\"to\":"@ + quoted(to),
                "\"type\":\"candidate\""@,
            ],
        ) + "}"@,
        answer_text(to, from, sdp) == "{"@ + comma_joined(
            seq![
                "\"answer\":{"@ + comma_joined(
                    seq!["\"sdp\":"@ + quoted(sdp), "\"type\":\"answer\""@],
                ) + "}"@,
                "\"from\":"@ + quoted(from),
                "\"to\":"@ + quoted(to),
                "\"type\":\"answer\""@,
            ],
        ) + "}"@,
{
    lemma_candidate_object(to, from, candidate);
    lemma_answer_object(to, from, sdp);
}

proof fn lemma_two(a: Seq<char>, b: Seq<char>)
    ensures
        comma_joined(seq![a, b]) == a + seq![','] + b,
{
    reveal_with_fuel(comma_joined, 3);
    reveal_strlit(",");
    assert(","@ =~= seq![',']);
    assert(seq![a, b].drop_last() =~= seq![a]);
}

proof fn lemma_three(a: Seq<char>, b: Seq<char>, c: Seq<char>)
    ensures
        comma_joined(seq![a, b, c]) == a + seq![','] + b + seq![','] + c,
{
    reveal_strlit(",");
    assert(","@ =~= seq![',']);
    lemma_two(a, b);
    assert(seq![a, b, c].drop_last() =~= seq![a, b]);
}

proof fn lemma_four(a: Seq<char>, b: Seq<char>, c: Seq<char>, d: Seq<char>)
    ensures
        comma_joined(seq![a, b, c, d]) == a + seq![','] + b + seq![','] + c + seq![','] + d,
{
    reveal_strlit(",");
    assert(","@ =~= seq![',']);
    lemma_three(a, b, c);
    assert(seq![a, b, c, d].drop_last() =~= seq![a, b, c]);
}

#[verifier::spinoff_prover]
proof fn lemma_candidate_object(to: Seq<char>, from: Seq<char>, candidate: Seq<char>)
    ensures
        candidate_text(to, from, candidate) == "{"@ + comma_joined(
            seq![
                "\"candidate\":{"@ + comma_joined(
                    seq![
                        "\"candidate\":"@ + quoted(candidate),
                        "\"sdpMLineIndex\":0"@,
                        "\"sdpMid\":\"0\""@,
                    ],
                ) + "}"@,
                "\"from\":"@ + quoted(from),
                "\"to\":"@ + quoted(to),
                "\"type\":\"candidate\""@,
            ],
        ) + "}"@,
{
    let (q, r, s) = (quoted(candidate), quoted(from), quoted(to));
    reveal_strlit("{\"candidate\":{\"candidate\":");
    reveal_strlit(",\"sdpMLineIndex\":0,\"sdpMid\":\"0\"},\"from\":");
    reveal_strlit(",\"to\":");
    reveal_strlit(",\"type\":\"candidate\"}");
    reveal_strlit("{");
    reveal_strlit("}");
    reveal_strlit("\"candidate\":{");
    reveal_strlit("\"candidate\":");
    reveal_strlit("\"sdpMLineIndex\":0");
    reveal_strlit("\"sdpMid\":\"0\"");
    reveal_strlit("\"from\":");
    reveal_strlit("\"to\":");
    reveal_strlit("\"type\":\"candidate\"");
    let comma = seq![','];
    lemma_three("\"candidate\":"@ + q, "\"sdpMLineIndex\":0"@, "\"sdpMid\":\"0\""@);
    let inner = "\"candidate\":{"@ + ("\"candidate\":"@ + q + comma + "\"sdpMLineIndex\":0"@ + comma
        + "\"sdpMid\":\"0\""@) + "}"@;
    lemma_four(inner, "\"from\":"@ + r, "\"to\":"@ + s, "\"type\":\"candidate\""@);
    assert("{\"candidate\":{\"candidate\":"@ =~= "{"@ + "\"candidate\":{"@ + "\"candidate\":"@);
    assert(",\"sdpMLineIndex\":0,\"sdpMid\":\"0\"},\"from\":"@ =~= comma + "\"sdpMLineIndex\":0"@
        + comma + "\"sdpMid\":\"0\""@ + "}"@ + comma + "\"from\":"@);
    assert(",\"to\":"@ =~= comma + "\"to\":"@);
    assert(",\"type\":\"candidate\"}"@ =~= comma + "\"type\":\"candidate\""@ + "}"@);
    lemma_regroup_candidate(
        "{"@,
        "\"candidate\":{"@,
        "\"candidate\":"@,
        q,
        comma,
        "\"sdpMLineIndex\":0"@,
        "\"sdpMid\":\"0\""@,
        "}"@,
        "\"from\":"@,
        r,
        "\"to\":"@,
        s,
        "\"type\":\"candidate\""@,
    );
}

proof fn lemma_regroup_candidate(
    a: Seq<char>,
    b: Seq<char>,
    c: Seq<char>,
    q: Seq<char>,
    comma: Seq<char>,
    d: Seq<char>,
    e: Seq<char>,
    z: Seq<char>,
    f: Seq<char>,
    r: Seq<char>,
    g: Seq<char>,
    s: Seq<char>,
    h: Seq<char>,
)
    ensures
        (a + b + c) + q + (comma + d + comma + e + z + comma + f) + r + (comma + g) + s + (comma + h
            + z) == a + ((b + (c + q + comma + d + comma + e) + z) + comma + (f + r) + comma + (g
            + s) + comma + h) + z,
{
    assert((a + b + c) + q + (comma + d + comma + e + z + comma + f) + r + (comma + g) + s + (comma
        + h + z) =~= a + ((b + (c + q + comma + d + comma + e) + z) + comma + (f + r) + comma + (g
        + s) + comma + h) + z);
}

#[verifier::spinoff_prover]
proof fn lemma_answer_object(to: Seq<char>, from: Seq<char>, sdp: Seq<char>)
    ensures
        answer_text(to, from, sdp) == "{"@ + comma_joined(
            seq![
                "\"answer\":{"@ + comma_joined(
                    seq!["\"sdp\":"@ + quoted(sdp), "\"type\":\"answer\""@],
                ) + "}"@,
                "\"from\":"@ + quoted(from),
                "\"to\":"@ + quoted(to),
                "\"type\":\"answer\""@,
            ],
        ) + "}"@,
{
    let (q, r, s) = (quoted(sdp), quoted(from), quoted(to));
    reveal_strlit("{\"answer\":{\"sdp\":");
    reveal_strlit(",\"type\":\"answer\"},\"from\":");
    reveal_strlit(",\"to\":");
    reveal_strlit(",\"type\":\"answer\"}");
    reveal_strlit("{");
    reveal_strlit("}");
    reveal_strlit("\"answer\":{");
    reveal_strlit("\"sdp\":");
    reveal_strlit("\"from\":");
    reveal_strlit("\"to\":");
    reveal_strlit("\"type\":\"answer\"");
    let comma = seq![','];
    let kind = "\"type\":\"answer\""@;
    lemma_two("\"sdp\":"@ + q, kind);
    let inner = "\"answer\":{"@ + ("\"sdp\":"@ + q + comma + kind) + "}"@;
    lemma_four(inner, "\"from\":"@ + r, "\"to\":"@ + s, kind);
    assert("{\"answer\":{\"sdp\":"@ =~= "{"@ + "\"answer\":{"@ + "\"sdp\":"@);
    assert(",\"type\":\"answer\"},\"from\":"@ =~= comma + kind + "}"@ + comma + "\"from\":"@);
    assert(",\"to\":"@ =~= comma + "\"to\":"@);
    assert(",\"type\":\"answer\"}"@ =~= comma + kind + "}"@);
    lemma_regroup_answer(
        "{"@,
        "\"answer\":{"@,
        "\"sdp\":"@,
        q,
        comma,
        kind,
        "}"@,
        "\"from\":"@,
        r,
        "\"to\":"@,
        s,
    );
}

proof fn lemma_regroup_answer(
    a: Seq<char>,
    b: Seq<char>,
    c: Seq<char>,
    q: Seq<char>,
    comma: Seq<char>,
    d: Seq<char>,
    z: Seq<char>,
    f: Seq<char>,
    r: Seq<char>,
    g: Seq<char>,
    s: Seq<char>,
)
    ensures
        (a + b + c) + q + (comma + d + z + comma + f) + r + (comma + g) + s + (comma + d + z) == a + (
        (b + (c + q + comma + d) + z) + comma + (f + r) + comma + (g + s) + comma + d) + z,
{
    assert((a + b + c) + q + (comma + d + z + comma + f) + r + (comma + g) + s + (comma + d + z)
        =~= a + ((b + (c + q + comma + d) + z) + comma + (f + r) + comma + (g + s) + comma + d) + z);
}

} // verus!
