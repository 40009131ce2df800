//! Jobs under fresh ids.
use vstd::prelude::*;
use vstd::utf8::*;
use crate::job::model::{task_id_of, JobView};
use crate::job::state::Job;
use crate::options::JobOptions;
use crate::protocol::frame::{frame_bytes, frame_of, piece_count, piece_frame, FrameView, FRAME_TASK};
use crate::protocol::laws::split_messages_decode;
use crate::text::{decimal, lemma_decimal_shape};
use crate::workers::texts;

verus! {

/// A lower-case hexadecimal digit.
pub open spec fn is_hex(c: char) -> bool {
    ('0' <= c <= '9') || ('a' <= c <= 'f')
}

/// The text of a random (version 4) UUID: five groups of hexadecimal digits with hyphens
/// between them.
pub open spec fn is_random_uuid(s: Seq<char>) -> bool {
    &&& s.len() == 36
    &&& forall|i: int|
        0 <= i < 36 ==> if i == 8 || i == 13 || i == 18 || i == 23 {
            #[trigger] s[i] == '-'
        } else {
            is_hex(s[i])
        }
    &&& s[14] == '4'
    &&& s[19] == '8' || s[19] == '9' || s[19] == 'a' || s[19] == 'b'
}

/// `uuid::Uuid::new_v4` draws a random UUID and sets its version and variant;
/// `uuid::Uuid::to_string` writes it in lower case with hyphens. Which one is drawn is left
/// open, and so is whether it was drawn before.
#[verifier::external_body]
pub(crate) fn fresh_uuid() -> (r: String)
    ensures
        is_random_uuid(r@),
{
    uuid::Uuid::new_v4().to_string()
}

/// A job under a fresh id, over `chunks`, each with its metadata, for the workers that are
/// available. There has to be one.
pub fn start_job<M>(
    map_function: &str,
    chunks: Vec<(Vec<u8>, M)>,
    workers: Vec<String>,
    options: JobOptions,
) -> (r: Result<Job<M>, String>)
    requires
        chunks@.len() <= u32::MAX,
    ensures
        match r {
            Ok(job) => workers@.len() > 0 && job.wf() && is_random_uuid(job@.job_id) && job@
                == JobView::begun(
                job@.job_id,
                map_function@,
                chunks@,
                texts(workers@),
                options,
            ),
            Err(e) => workers@.len() == 0 && e@ == "no workers with open data channels available"@,
        },
{
    Job::start(fresh_uuid(), map_function, chunks, workers, options)
}

proof fn lemma_decimal_short(n: nat)
    requires
        n <= u32::MAX,
    ensures
        decimal(n).len() <= 10,
{
    reveal_with_fuel(decimal, 11);
}

/// The ids of the tasks of such a job fit into a frame.
proof fn lemma_task_id_fits(job_id: Seq<char>, i: int)
    requires
        is_random_uuid(job_id),
        0 <= i <= u32::MAX,
    ensures
        encode_utf8(task_id_of(job_id, i)).len() < 0x1_0000,
{
    let id = task_id_of(job_id, i);
    let digits = decimal(i as nat);
    reveal_strlit("_");
    lemma_decimal_short(i as nat);
    lemma_decimal_shape(i as nat);
    assert forall|k: int| 0 <= k < id.len() implies (#[trigger] id[k]) as nat <= 127 by {
        if k < 36 {
            assert(id[k] == job_id[k]);
        } else if k == 36 {
            assert(id[k] == '_');
        } else {
            assert(id[k] == digits[k - 37]);
        }
    }
    assert(is_ascii_chars(id));
    is_ascii_chars_encode_utf8(id);
}

/// Each message that carries a task of such a job decodes to the frame of its piece.
pub proof fn task_messages_decode(job_id: Seq<char>, i: int, payload: Seq<u8>, k: int)
    requires
        is_random_uuid(job_id),
        0 <= i <= u32::MAX,
        0 <= k < piece_count(payload.len()),
    ensures
        frame_of(frame_bytes(piece_frame(FRAME_TASK, task_id_of(job_id, i), payload, k))) == Ok::<
            FrameView,
            Seq<char>,
        >(piece_frame(FRAME_TASK, task_id_of(job_id, i), payload, k)),
{
    lemma_task_id_fits(job_id, i);
    split_messages_decode(FRAME_TASK, task_id_of(job_id, i), payload, k);
}

} // verus!
