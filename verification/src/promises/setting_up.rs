//! Calls that set things up: places, arguments, the signaling server and the workers it tells of.
use vstd::prelude::*;
use crate::json::{comma_joined, node_of, quoted};
use crate::options::{ExecutionMode, JobOptions, MissingChunkPolicy};
use crate::parse::{is_white, numbers_are_read_one_by_one, parse_counts, parse_unsigned, split_parts, trim, trimmed, trimming_leaves_the_body, unsigned_value};
use crate::sending::{sender_waits_above_four_mebibytes, SendStep, Sending};
use crate::setup::{directories_go_by_name, distribute_args, distributed_name, one_comma_makes_two_arguments, path_list, pick_examples_dir, server_url, signaling_url, url_of, DirCandidate};
use crate::signaling::{answer_message, candidate_message, fields_of, messages_are_objects, peers_become_workers, read_signal, register_message, signals_call_for_these_actions, ActionView, Membership, SignalAction, SignalFields};
use crate::workers::{available_exactly_when_open_and_trusted, channel_workers, connection_lost, elapsed, failed_workers_serve_a_minute, must_wait, others, seconds_are_whole, texts, usable_channels, without, without_leaves_out_one, Channel, FailedWorkers, PeerState};

verus! {

/// The signaling server is where it is said to be, else on port 3000 of this machine.
pub proof fn the_server_is_where_it_is_said_to_be(said: String, a: String, b: String)
    requires
        call_ensures(signaling_url, (Some(said),), a),
        call_ensures(signaling_url, (None::<String>,), b),
    ensures
        a@ == said@,
        b@ == "ws://localhost:3000"@,
{
}

/// What is said is read as a URL, or it is said why it is none.
pub proof fn the_server_is_at_a_url(
    said: Option<String>,
    place: String,
    r: Result<String, String>,
)
    requires
        call_ensures(signaling_url, (said,), place),
        call_ensures(server_url, (said,), r),
    ensures
        match url_of(place@) {
            Ok(url) => r matches Ok(v) && v@ == url,
            Err(why) => r matches Err(e) && e@ == why,
        },
{
}

/// The first directory that is there and is named `examples` is taken. Where there is none, the
/// paths that were tried are named.
pub proof fn the_first_examples_directory_is_taken(
    candidates: Vec<DirCandidate>,
    r: Result<usize, String>,
    i: int,
)
    requires
        call_ensures(pick_examples_dir, (&candidates,), r),
    ensures
        ({
            let fit = |c: DirCandidate|
                c.exists && c.name is Some && c.name->Some_0@ == seq![
                    'e',
                    'x',
                    'a',
                    'm',
                    'p',
                    'l',
                    'e',
                    's',
                ];
            &&& r matches Ok(k) ==> k < candidates@.len() && fit(candidates@[k as int]) && (0 <= i
                < k ==> !fit(candidates@[i]))
            &&& r matches Err(e) ==> (0 <= i < candidates@.len() ==> !fit(candidates@[i])) && e@
                == "Unable to locate examples directory. Tried: "@ + path_list(candidates@)
        }),
{
    if 0 <= i < candidates@.len() {
        directories_go_by_name(candidates@[i]);
    }
    if let Ok(k) = r {
        directories_go_by_name(candidates@[k as int]);
    }
}

/// Two names with one comma between them are the chunker and the reducer, without the white space
/// around them. With no comma, or with more than one, the arguments are refused.
pub proof fn two_names_are_expected(
    args: &str,
    a: Seq<char>,
    b: Seq<char>,
    c: Seq<char>,
    r: Result<(String, String), String>,
)
    requires
        call_ensures(distribute_args, (args,), r),
        forall|i: int| 0 <= i < a.len() ==> #[trigger] a[i] != ',',
        forall|i: int| 0 <= i < b.len() ==> #[trigger] b[i] != ',',
    ensures
        args@ == a + seq![','] + b ==> (r matches Ok((x, y)) && x@ == trimmed(a) && y@ == trimmed(
            b,
        )),
        args@ == a || args@ == a + seq![','] + (b + seq![','] + c) ==> (r matches Err(e) && e@
            == "distribute macro expects exactly 2 arguments: chunker and reducer function names"@),
{
    one_comma_makes_two_arguments(a, b, c);
}

/// The distributed version of a function is named after it.
pub proof fn distributed_versions_are_named_after(name: &str, r: String)
    requires
        call_ensures(distributed_name, (name,), r),
    ensures
        r@ == name@ + "_run_distributed"@,
{
}

/// White space around a text is cut off, and nothing else is.
pub proof fn only_white_space_is_cut_off(
    s: Vec<char>,
    pre: Seq<char>,
    body: Seq<char>,
    post: Seq<char>,
    r: Vec<char>,
)
    requires
        call_ensures(trim, (&s,), r),
        s@ == pre + body + post,
        forall|i: int| 0 <= i < pre.len() ==> is_white(#[trigger] pre[i]),
        forall|i: int| 0 <= i < post.len() ==> is_white(#[trigger] post[i]),
        body.len() > 0 ==> !is_white(body[0]) && !is_white(body.last()),
    ensures
        r@ == body,
{
    trimming_leaves_the_body(pre, body, post);
}

/// A number is read where the text is one and it is not too large.
pub proof fn numbers_are_read_up_to_a_limit(s: Vec<char>, max: u64, r: Option<u64>)
    requires
        call_ensures(parse_unsigned, (&s, max), r),
    ensures
        match unsigned_value(s@) {
            Some(n) => if n <= max {
                r matches Some(m) && m == n
            } else {
                r is None
            },
            None => r is None,
        },
{
}

/// A list of numbers is read one by one between its commas. Where a part is none, nothing is read.
pub proof fn lists_of_numbers_are_read_one_by_one(list: &str, r: Option<Vec<usize>>)
    requires
        call_ensures(parse_counts, (list,), r),
    ensures
        ({
            let parts = split_parts(list@, ',');
            match r {
                Some(v) => v@.len() == parts.len() && forall|i: int|
                    0 <= i < parts.len() ==> unsigned_value(trimmed(#[trigger] parts[i])) == Some(
                        v@[i] as nat,
                    ),
                None => exists|i: int|
                    0 <= i < parts.len() && match unsigned_value(trimmed(#[trigger] parts[i])) {
                        Some(n) => n > usize::MAX,
                        None => true,
                    },
            }
        }),
{
    let parts = split_parts(list@, ',');
    numbers_are_read_one_by_one(parts, usize::MAX as nat);
    if let Some(v) = r {
        let all = v@.map_values(|n: usize| n as nat);
        assert forall|i: int| 0 <= i < parts.len() implies unsigned_value(
            trimmed(#[trigger] parts[i]),
        ) == Some(v@[i] as nat) by {
            assert(all[i] == v@[i] as nat);
        }
    }
}

/// Jobs fail where chunks are missing, wait thirty seconds for a task and send it again three times,
/// unless something else is said.
pub proof fn jobs_have_these_defaults(r: JobOptions)
    requires
        call_ensures(<JobOptions as Default>::default, (), r),
    ensures
        r.missing_chunks == MissingChunkPolicy::Fail,
        r.task_timeout_secs == 30,
        r.max_retries == 3,
{
}

/// Each mode has its map function and its name.
pub proof fn modes_have_their_names(mode: ExecutionMode, f: String, l: String)
    requires
        call_ensures(ExecutionMode::map_function, (mode,), f),
        call_ensures(ExecutionMode::label, (mode,), l),
    ensures
        mode == ExecutionMode::CPU ==> f@ == "cpu_map"@ && l@ == "CPU"@,
        mode == ExecutionMode::GPU ==> f@ == "gpu_map"@ && l@ == "GPU"@,
{
}

/// A message from the server is read as the JSON text that it is.
pub proof fn signals_are_read_as_json(text: &str, r: SignalFields)
    requires
        call_ensures(read_signal, (text,), r),
    ensures
        r@ == fields_of(node_of(text@)),
{
}

/// This node knows nothing at first. A welcome tells it its id and, with a list, the workers; a list
/// of peers the workers by itself. The workers are the peers but this node.
pub proof fn lists_of_peers_tell_the_workers(
    fresh: Membership,
    m: &mut Membership,
    f: SignalFields,
    r: SignalAction,
    w: Seq<char>,
)
    requires
        call_ensures(Membership::new, (), fresh),
        call_ensures(Membership::take_signal, (m, f), r),
    ensures
        fresh@.my_id is None && fresh@.workers.len() == 0,
        f@.kind == Some("welcome"@) ==> {
            &&& r is Nothing
            &&& f@.id matches Some(id) ==> final(m)@.my_id == Some(id)
            &&& f@.id is None ==> final(m)@ == old(m)@
            &&& f@.id matches Some(id) ==> f@.peers matches Some(peers) ==> (
            final(m)@.workers.contains(w) <==> peers.contains(w) && w != id)
            &&& f@.peers is None ==> final(m)@.workers == old(m)@.workers
        },
        f@.kind == Some("peerList"@) ==> {
            &&& r is Nothing
            &&& final(m)@.my_id == old(m)@.my_id
            &&& f@.peers is None ==> final(m)@ == old(m)@
            &&& f@.peers matches Some(peers) ==> old(m)@.my_id matches Some(id) ==> (
            final(m)@.workers.contains(w) <==> peers.contains(w) && w != id)
        },
{
    peers_become_workers(old(m)@, f@);
    if let Some(peers) = f@.peers {
        if let Some(id) = f@.id {
            without_leaves_out_one(peers, id);
        }
        if let Some(id) = old(m)@.my_id {
            without_leaves_out_one(peers, id);
        }
    }
}

/// An offer that is meant for this node is answered; an answer and a candidate are passed on. They
/// change nothing that is known. What is of no kind changes nothing and calls for nothing.
pub proof fn signals_are_acted_on(m: &mut Membership, f: SignalFields, r: SignalAction)
    requires
        call_ensures(Membership::take_signal, (m, f), r),
    ensures
        f@.kind == Some("offer"@) ==> final(m)@ == old(m)@ && match r@ {
            ActionView::Offer { from, my_id, offered } => f@.from == Some(from) && old(m)@.my_id
                == Some(my_id) && f@.to == Some(my_id) && f@.has_offer && offered == f@.offer_sdp,
            _ => r is Nothing && (f@.from is None || f@.to is None || old(m)@.my_id is None || f@.to
                != old(m)@.my_id || !f@.has_offer),
        },
        f@.kind == Some("answer"@) ==> final(m)@ == old(m)@ && match r@ {
            ActionView::Answer { from, sdp } => f@.from == Some(from) && f@.answer_sdp == Some(sdp),
            _ => r is Nothing && (f@.from is None || f@.answer_sdp is None),
        },
        f@.kind == Some("candidate"@) ==> final(m)@ == old(m)@ && match r@ {
            ActionView::Candidate { from, candidate } => f@.from == Some(from) && f@.candidate
                == Some(candidate),
            _ => r is Nothing && (f@.from is None || f@.candidate is None),
        },
        f@.kind != Some("welcome"@) && f@.kind != Some("peerList"@) && f@.kind != Some("offer"@)
            && f@.kind != Some("answer"@) && f@.kind != Some("candidate"@) ==> final(m)@ == old(m)@
            && r is Nothing,
{
    signals_call_for_these_actions(old(m)@, f@);
}

/// The messages that go out are JSON objects that name their kind, their sender, whom they are for
/// and what they bring.
pub proof fn messages_go_out_as_objects(
    to: &str,
    from: &str,
    candidate: &str,
    sdp: &str,
    a: String,
    b: String,
    c: String,
)
    requires
        call_ensures(candidate_message, (to, from, candidate), a),
        call_ensures(answer_message, (to, from, sdp), b),
        call_ensures(register_message, (), c),
    ensures
        a@ == "{"@ + comma_joined(
            seq![
                "\"candidate\":{"@ + comma_joined(
                    seq![
                        "\"candidate\":"@ + quoted(candidate@),
                        "\"sdpMLineIndex\":0"@,
                        "\"sdpMid\":\"0\""@,
                    ],
                ) + "}"@,
                "\"from\":"@ + quoted(from@),
                "\"to\":"@ + quoted(to@),
                "\"type\":\"candidate\""@,
            ],
        ) + "}"@,
        b@ == "{"@ + comma_joined(
            seq![
                "\"answer\":{"@ + comma_joined(
                    seq!["\"sdp\":"@ + quoted(sdp@), "\"type\":\"answer\""@],
                ) + "}"@,
                "\"from\":"@ + quoted(from@),
                "\"to\":"@ + quoted(to@),
                "\"type\":\"answer\""@,
            ],
        ) + "}"@,
        c@ == "{\"type\":\"registerMaster\"}"@,
{
    messages_are_objects(to@, from@, candidate@, sdp@);
}

/// A connection is lost when it is closed, has failed or is disconnected, and in no other state.
pub proof fn connections_are_lost_in_these_states(state: PeerState, r: bool)
    requires
        call_ensures(connection_lost, (state,), r),
    ensures
        !r <==> state == PeerState::Unspecified || state == PeerState::New || state
            == PeerState::Connecting || state == PeerState::Connected,
{
}

/// Whole seconds are counted between two readings of the clock.
pub proof fn clocks_count_whole_seconds(now: u64, since: u64, r: u64)
    requires
        call_ensures(elapsed, (now, since), r),
    ensures
        now <= since ==> r == 0,
        now > since ==> 1_000_000_000 * r <= now - since < 1_000_000_000 * (r + 1),
{
    seconds_are_whole(now, since);
}

/// The workers but one keep their order.
pub proof fn one_worker_is_left_out(available: Vec<String>, worker: &str, r: Vec<String>, w: Seq<char>)
    requires
        call_ensures(others, (&available, worker), r),
    ensures
        texts(r@) == without(texts(available@), worker@),
        texts(r@).contains(w) <==> texts(available@).contains(w) && w != worker@,
{
    without_leaves_out_one(texts(available@), worker@);
}

/// Just the workers are available to whom a channel is open and who either have not failed or failed
/// a minute ago or longer. They come in the order of the channels. Those who served their minute no
/// longer count as failed.
pub proof fn trusted_workers_with_a_channel_are_available(
    fresh: FailedWorkers,
    failed: &mut FailedWorkers,
    channels: Vec<Channel>,
    now: u64,
    r: Vec<String>,
    w: Seq<char>,
)
    requires
        call_ensures(FailedWorkers::new, (), fresh),
        call_ensures(FailedWorkers::get_available_workers, (failed, &channels, now), r),
    ensures
        !fresh@.contains_key(w),
        texts(r@).contains(w) <==> (exists|i: int|
            0 <= i < channels@.len() && (#[trigger] channels@[i]).open && channels@[i].worker_id@
                == w) && (old(failed)@.contains_key(w) ==> now - old(failed)@[w] >= 60_000_000_000),
        final(failed)@.contains_key(w) <==> old(failed)@.contains_key(w) && ((forall|i: int|
            0 <= i < channels@.len() && (#[trigger] channels@[i]).worker_id@ == w
                ==> !channels@[i].open) || now - old(failed)@[w] < 60_000_000_000),
        final(failed)@.contains_key(w) ==> final(failed)@[w] == old(failed)@[w],
        texts(r@) == channel_workers(usable_channels(channels@, final(failed)@)),
{
    available_exactly_when_open_and_trusted(old(failed)@, channels@, now, w);
    failed_workers_serve_a_minute(old(failed)@, channels@, now, w);
    seconds_are_whole(now, old(failed)@[w]);
}

/// A worker that failed counts as failed from then on, and nobody else does on its account.
pub proof fn failures_are_taken_down(
    failed: &mut FailedWorkers,
    worker: &str,
    now: u64,
    other: Seq<char>,
)
    requires
        call_ensures(FailedWorkers::mark_worker_failed, (failed, worker, now), ()),
        other != worker@,
    ensures
        final(failed)@.contains_key(worker@) && final(failed)@[worker@] == now,
        final(failed)@.contains_key(other) == old(failed)@.contains_key(other),
        old(failed)@.contains_key(other) ==> final(failed)@[other] == old(failed)@[other],
{
}

/// The frames of a transfer are sent one after the other, with a pause just while more than four
/// mebibytes are buffered; the first failure ends it.
pub proof fn frames_are_sent_one_by_one(
    total: usize,
    fresh: Sending,
    s: Sending,
    buffered: usize,
    step: SendStep,
    a: &mut Sending,
    b: &mut Sending,
)
    requires
        call_ensures(Sending::new, (total,), fresh),
        call_ensures(Sending::offer, (&s, buffered), step),
        call_ensures(Sending::sent, (a, true), ()),
        call_ensures(Sending::sent, (b, false), ()),
        0 <= s@.next <= usize::MAX,
    ensures
        fresh@.total == total && fresh@.next == 0 && !fresh@.failed,
        s@.failed ==> step is Failed,
        !s@.failed && s@.next >= s@.total ==> step is Done,
        !s@.failed && s@.next < s@.total ==> if buffered > 4 * 1024 * 1024 {
            step is Pause
        } else {
            step matches SendStep::Send { k } && k == s@.next
        },
        final(a)@.next == old(a)@.next + 1 && final(a)@.total == old(a)@.total && final(a)@.failed
            == old(a)@.failed,
        final(b)@.failed && final(b)@.next == old(b)@.next && final(b)@.total == old(b)@.total,
{
    if s@.under_way() {
        sender_waits_above_four_mebibytes(s@, buffered);
    }
}

/// A sender waits above four mebibytes.
pub proof fn full_channels_are_waited_for(buffered: usize, r: bool)
    requires
        call_ensures(must_wait, (buffered,), r),
    ensures
        r <==> buffered > 4 * 1024 * 1024,
{
}

} // verus!
