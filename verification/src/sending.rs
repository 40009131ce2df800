//! Sending frames over a channel that can be too full.
//!
//! The frames go out one after the other. The sender asks what to do, does it, and says how it
//! went; the first frame that cannot be sent ends it.
use vstd::prelude::*;
use crate::workers::{must_wait, BUFFERED_HIGH_WATER};

verus! {

/// What to do next.
#[derive(Debug, Clone, Copy, PartialEq, Eq, Structural)]
pub enum SendStep {
    /// Send this frame.
    Send { k: usize },
    /// Wait until less is buffered.
    Pause,
    /// All frames were sent.
    Done,
    /// A frame could not be sent.
    Failed,
}

/// How far the frames went.
pub struct SendingView {
    pub total: int,
    /// How many frames were sent.
    pub next: int,
    /// A frame could not be sent.
    pub failed: bool,
}

impl SendingView {
    /// The frames, none of them sent.
    pub open spec fn begun(total: int) -> Self {
        SendingView { total, next: 0, failed: false }
    }

    /// There are frames to send, and none failed.
    pub open spec fn under_way(self) -> bool {
        !self.failed && self.next < self.total
    }

    /// What to do next, with so many bytes waiting in the channel.
    pub open spec fn step(self, buffered: usize) -> SendStep {
        if self.failed {
            SendStep::Failed
        } else if self.next >= self.total {
            SendStep::Done
        } else if buffered > BUFFERED_HIGH_WATER {
            SendStep::Pause
        } else {
            SendStep::Send { k: self.next as usize }
        }
    }

    /// After the next frame was sent, or could not be.
    pub open spec fn after(self, ok: bool) -> Self {
        if ok {
            SendingView { next: self.next + 1, ..self }
        } else {
            SendingView { failed: true, ..self }
        }
    }

    /// After these outcomes in a row.
    pub open spec fn after_all(self, outcomes: Seq<bool>) -> Self
        decreases outcomes.len(),
    {
        if outcomes.len() == 0 {
            self
        } else {
            self.after_all(outcomes.drop_last()).after(outcomes.last())
        }
    }
}

/// Frames on their way.
pub struct Sending {
    total: usize,
    next: usize,
    failed: bool,
}

impl View for Sending {
    type V = SendingView;

    closed spec fn view(&self) -> SendingView {
        SendingView { total: self.total as int, next: self.next as int, failed: self.failed }
    }
}

impl Sending {
    /// No more frames were sent than there are.
    #[verifier::type_invariant]
    spec fn well_formed(&self) -> bool {
        self.next <= self.total
    }

    /// So many frames, none of them sent.
    pub fn new(total: usize) -> (r: Self)
        ensures
            r@ == SendingView::begun(total as int),
    {
        Sending { total, next: 0, failed: false }
    }

    /// What to do next, with so many bytes waiting in the channel.
    pub fn offer(&self, buffered: usize) -> (r: SendStep)
        ensures
            r == self@.step(buffered),
    {
        if self.failed {
            SendStep::Failed
        } else if self.next >= self.total {
            SendStep::Done
        } else if must_wait(buffered) {
            SendStep::Pause
        } else {
            SendStep::Send { k: self.next }
        }
    }

    /// Takes down that the next frame was sent, or that it could not be.
    pub fn sent(&mut self, ok: bool)
        requires
            old(self)@.under_way(),
        ensures
            final(self)@ == old(self)@.after(ok),
    {
        if ok {
            self.next = self.next + 1;
        } else {
            self.failed = true;
        }
    }
}

/// Each frame goes out once, in order: as long as all went well, the next frame to send is the
/// one whose number is how many were sent, and after the last there is none.
pub proof fn frames_go_out_once_in_order(total: usize, outcomes: Seq<bool>, buffered: usize)
    requires
        outcomes.len() <= total,
        forall|i: int| 0 <= i < outcomes.len() ==> #[trigger] outcomes[i],
    ensures
        ({
            let v = SendingView::begun(total as int).after_all(outcomes);
            &&& v == (SendingView { total: total as int, next: outcomes.len() as int, failed: false })
            &&& v.step(buffered) == if outcomes.len() == total {
                SendStep::Done
            } else if buffered > BUFFERED_HIGH_WATER {
                SendStep::Pause
            } else {
                SendStep::Send { k: outcomes.len() as usize }
            }
        }),
    decreases outcomes.len(),
{
    if outcomes.len() > 0 {
        let rest = outcomes.drop_last();
        assert forall|i: int| 0 <= i < rest.len() implies #[trigger] rest[i] by {
            assert(outcomes[i]);
        }
        frames_go_out_once_in_order(total, rest, buffered);
    }
}

/// The first frame that cannot be sent ends it: nothing more is sent, however full the channel.
pub proof fn a_failure_ends_sending(v: SendingView, buffered: usize)
    ensures
        v.after(false).step(buffered) == SendStep::Failed,
        !v.after(false).under_way(),
{
}

/// As long as there is a frame to send and none failed, the sender waits just while more than four
/// mebibytes are buffered.
pub proof fn sender_waits_above_four_mebibytes(v: SendingView, buffered: usize)
    requires
        v.under_way(),
        v.next <= usize::MAX,
    ensures
        v.step(buffered) == SendStep::Pause <==> buffered > 4 * 1024 * 1024,
        buffered <= 4 * 1024 * 1024 && v.next >= 0 ==> v.step(buffered) == (SendStep::Send {
            k: v.next as usize,
        }),
{
}

} // verus!
