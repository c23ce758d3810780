//! The execution engine: launches one external converter process per
//! candidate file under a fixed concurrency ceiling, reaps the oldest
//! in-flight process first, and reports one outcome per file.
//!
//! The engine itself performs no process I/O. It is a state machine: the
//! caller asks [`Engine::next_action`] what to do, performs the launch or
//! wait, and reports what happened through the `on_*` methods. The
//! invariant [`Engine::inv`] ties every state to the submission order: at
//! most [`MAX_IN_FLIGHT`] processes are ever outstanding, outcomes are
//! reported in submission order, and the in-flight queue always holds
//! exactly the submitted-but-unreaped files, oldest first.
//!
//! The final drain reaps the queue head first as well, so reporting is
//! strictly first-in-first-out throughout; this resolves the open choice of
//! drain order in favour of the consistent one.

use crate::paths::{dest_of, destination_path, file_name_of};
use vstd::prelude::*;
use vstd::string::*;

verus! {

/// The concurrency ceiling: how many converter processes may be outstanding
/// at once.
pub const MAX_IN_FLIGHT: usize = 16;

/// One in-flight conversion: the source file and the caller's handle for
/// the process working on it.
pub struct Pending {
    pub source: String,
    pub handle: u64,
}

/// The reported result of one conversion: the source file and whether the
/// converter exited successfully.
#[derive(Debug)]
pub struct Outcome {
    pub source: String,
    pub success: bool,
}

/// Why the engine stopped early. A failed launch and a failed wait are
/// fatal; a converter that merely exits non-zero is not an error.
#[derive(Debug, Clone, Copy, PartialEq, Eq, Structural)]
pub enum EngineError {
    Launch,
    Wait,
}

/// What the engine asks its caller to do next.
#[derive(Debug)]
pub enum Action {
    /// Spawn the converter for `source`, writing to `dest`.
    Launch { source: String, dest: String },
    /// Block until the process behind `handle` terminates.
    Reap { handle: u64 },
    /// Nothing is left to do: every file is accounted for, or the engine
    /// aborted.
    Finished,
}

/// The conversion batch: the files still to submit, the bounded queue of
/// in-flight processes, and the outcomes reported so far.
pub struct Engine {
    /// Candidate files, in the order discovery produced them.
    pub files: Vec<String>,
    /// The target extension.
    pub to: String,
    /// The common output directory, if one was chosen.
    pub dest_dir: Option<String>,
    /// How many of `files` have been submitted.
    pub next: usize,
    /// The in-flight processes, oldest first; never longer than
    /// `MAX_IN_FLIGHT`.
    pub queue: Vec<Pending>,
    /// One outcome per reaped file, in submission order.
    pub outcomes: Vec<Outcome>,
    /// Set once a launch or a wait fails; no further work is handed out.
    pub error: Option<EngineError>,
}

impl Engine {
    /// The destination directory as a character sequence, if one was chosen.
    pub open spec fn dd_view(&self) -> Option<Seq<char>> {
        match self.dest_dir {
            Some(d) => Some(d@),
            None => None,
        }
    }

    /// The engine's invariant: submitted files are exactly the reaped ones
    /// followed by the in-flight ones, outcomes stand in submission order,
    /// and the queue never exceeds the concurrency ceiling.
    pub open spec fn inv(&self) -> bool {
        &&& self.next <= self.files@.len()
        &&& self.queue@.len() <= MAX_IN_FLIGHT
        &&& self.outcomes@.len() + self.queue@.len() == self.next
        &&& forall|i: int|
            0 <= i < self.outcomes@.len() ==> self.outcomes@[i].source@ == self.files@[i]@
        &&& forall|i: int|
            0 <= i < self.queue@.len() ==> self.queue@[i].source@ == self.files@[
                self.outcomes@.len() + i
            ]@
        &&& forall|i: int|
            0 <= i < self.files@.len() ==> file_name_of(self.files@[i]@).len() > 0
    }

    /// A new file may be launched: nothing failed, files remain, and the
    /// queue has room.
    pub open spec fn can_launch(&self) -> bool {
        &&& self.error is None
        &&& self.next < self.files@.len()
        &&& self.queue@.len() < MAX_IN_FLIGHT
    }

    /// The queue head must be reaped first: nothing failed, and either the
    /// queue is full or no files remain while some are still in flight.
    pub open spec fn must_reap(&self) -> bool {
        &&& self.error is None
        &&& self.queue@.len() > 0
        &&& (self.queue@.len() == MAX_IN_FLIGHT || self.next == self.files@.len())
    }

    /// A fresh engine for the given batch: nothing submitted, nothing in
    /// flight, nothing reported.
    pub fn new(files: Vec<String>, to: String, dest_dir: Option<String>) -> (e: Engine)
        requires
            forall|i: int| 0 <= i < files@.len() ==> file_name_of(files@[i]@).len() > 0,
        ensures
            e.inv(),
            e.files == files,
            e.to == to,
            e.dest_dir == dest_dir,
            e.next == 0,
            e.queue@.len() == 0,
            e.outcomes@.len() == 0,
            e.error is None,
    {
        Engine {
            files,
            to,
            dest_dir,
            next: 0,
            queue: Vec::new(),
            outcomes: Vec::new(),
            error: None,
        }
    }

    /// What to do next. Launching is preferred whenever the queue has room;
    /// a full queue forces a wait on the oldest in-flight process, and so
    /// does the final drain.
    pub fn next_action(&self) -> (a: Action)
        requires
            self.inv(),
        ensures
            self.can_launch() ==> (a matches Action::Launch { source, dest } && source@
                == self.files@[self.next as int]@ && dest@ == dest_of(
                self.files@[self.next as int]@,
                self.to@,
                self.dd_view(),
            )),
            self.must_reap() ==> (a matches Action::Reap { handle } && handle
                == self.queue@[0].handle),
            !self.can_launch() && !self.must_reap() ==> a is Finished,
    {
        if self.error.is_some() {
            return Action::Finished;
        }
        if self.next < self.files.len() && self.queue.len() < MAX_IN_FLIGHT {
            let source = self.files[self.next].clone();
            let dest = destination_path(
                source.as_str(),
                self.to.as_str(),
                match &self.dest_dir {
                    Some(d) => Some(d.as_str()),
                    None => None,
                },
            );
            return Action::Launch { source, dest };
        }
        if self.queue.len() > 0 {
            return Action::Reap { handle: self.queue[0].handle };
        }
        Action::Finished
    }

    /// The converter for the next file was launched under `handle`: the
    /// file joins the tail of the in-flight queue.
    pub fn on_launched(&mut self, handle: u64)
        requires
            old(self).inv(),
            old(self).can_launch(),
        ensures
            final(self).inv(),
            final(self).files == old(self).files,
            final(self).to == old(self).to,
            final(self).dest_dir == old(self).dest_dir,
            final(self).error is None,
            final(self).next == old(self).next + 1,
            final(self).outcomes == old(self).outcomes,
            final(self).queue@.len() == old(self).queue@.len() + 1,
            forall|i: int|
                0 <= i < old(self).queue@.len() ==> final(self).queue@[i] == old(self).queue@[i],
            final(self).queue@.last().source@ == final(self).files@[old(self).next as int]@,
            final(self).queue@.last().handle == handle,
    {
        let source = self.files[self.next].clone();
        self.queue.push(Pending { source, handle });
        let n = self.files.len();
        assert(self.next < n);
        self.next = self.next + 1;
    }

    /// Launching the converter for the next file failed: the engine aborts
    /// at once, and every outcome already reported stands unchanged.
    pub fn on_launch_failed(&mut self)
        ensures
            final(self).files == old(self).files,
            final(self).to == old(self).to,
            final(self).dest_dir == old(self).dest_dir,
            final(self).next == old(self).next,
            final(self).queue == old(self).queue,
            final(self).outcomes == old(self).outcomes,
            final(self).error == Some(EngineError::Launch),
            !final(self).can_launch(),
            !final(self).must_reap(),
            old(self).inv() ==> final(self).inv(),
    {
        self.error = Some(EngineError::Launch);
    }

    /// The queue head's process terminated, successfully or not: its
    /// outcome is reported and the freed slot opens the queue. A failed
    /// conversion does not abort the engine.
    pub fn on_reaped(&mut self, success: bool)
        requires
            old(self).inv(),
            old(self).error is None,
            old(self).queue@.len() > 0,
        ensures
            final(self).inv(),
            final(self).files == old(self).files,
            final(self).to == old(self).to,
            final(self).dest_dir == old(self).dest_dir,
            final(self).error is None,
            final(self).next == old(self).next,
            final(self).queue@ == old(self).queue@.drop_first(),
            final(self).outcomes@.len() == old(self).outcomes@.len() + 1,
            forall|i: int|
                0 <= i < old(self).outcomes@.len() ==> final(self).outcomes@[i] == old(
                    self,
                ).outcomes@[i],
            final(self).outcomes@.last().source == old(self).queue@[0].source,
            final(self).outcomes@.last().success == success,
    {
        let head = self.queue.remove(0);
        self.outcomes.push(Outcome { source: head.source, success });
        proof {
            assert(self.queue@ =~= old(self).queue@.drop_first());
        }
    }

    /// Waiting on the queue head failed: the engine aborts, and every
    /// outcome already reported stands unchanged.
    pub fn on_wait_failed(&mut self)
        ensures
            final(self).files == old(self).files,
            final(self).to == old(self).to,
            final(self).dest_dir == old(self).dest_dir,
            final(self).next == old(self).next,
            final(self).queue == old(self).queue,
            final(self).outcomes == old(self).outcomes,
            final(self).error == Some(EngineError::Wait),
            !final(self).can_launch(),
            !final(self).must_reap(),
            old(self).inv() ==> final(self).inv(),
    {
        self.error = Some(EngineError::Wait);
    }
}

/// The concurrency ceiling holds in every reachable state: an engine never
/// has more than `MAX_IN_FLIGHT` processes outstanding.
pub proof fn lemma_bounded_in_flight(e: &Engine)
    requires
        e.inv(),
    ensures
        e.queue@.len() <= MAX_IN_FLIGHT,
{
}

/// Admission is first-in-first-out: whenever a file beyond the first
/// `MAX_IN_FLIGHT` is about to be launched, the oldest submitted files have
/// already been reaped — in particular the very first one.
pub proof fn lemma_fifo_admission(e: &Engine)
    requires
        e.inv(),
        e.can_launch(),
        e.next >= MAX_IN_FLIGHT,
    ensures
        e.outcomes@.len() >= e.next - MAX_IN_FLIGHT + 1,
        e.outcomes@[0].source@ == e.files@[0]@,
{
}

/// A run that ends without an error accounts for every file: when the
/// engine has nothing left to hand out and has not aborted, there is
/// exactly one outcome per candidate file, in submission order.
pub proof fn lemma_finished_reports_all(e: &Engine)
    requires
        e.inv(),
        e.error is None,
        !e.can_launch(),
        !e.must_reap(),
    ensures
        e.outcomes@.len() == e.files@.len(),
        forall|i: int| 0 <= i < e.files@.len() ==> e.outcomes@[i].source@ == e.files@[i]@,
{
}

/// Outcomes are reported in submission order: the reported sources are
/// exactly the first reaped files, in the order discovery produced them.
pub proof fn lemma_report_order(e: &Engine)
    requires
        e.inv(),
    ensures
        e.outcomes@.len() <= e.files@.len(),
        forall|i: int| 0 <= i < e.outcomes@.len() ==> e.outcomes@[i].source@ == e.files@[i]@,
{
}

} // verus!
