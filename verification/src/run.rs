//! The run's decisions: what each file's bytes become, and how a run
//! ends. Files are taken strictly in the order given; the first failure
//! aborts the whole run with a nonzero exit status.

use vstd::prelude::*;
use crate::error::SlowCatError;
use crate::lines::{split_lines, tail_bytes, LineSplitter, lemma_split_lines_no_lf};
use crate::plan::{lines_plan, plan_model, plan_for_lines, Action, ActionModel,
    lemma_lines_plan_concat};

verus! {

/// The streaming playback of one file. The binary reads the file in
/// chunks and hands them in; the session answers with the actions to
/// perform, holding an unfinished line back until it is terminated or
/// the file ends.
pub struct FileSession {
    path: String,
    delay: u64,
    splitter: LineSplitter,
}

impl FileSession {
    /// The path of the file being played.
    pub closed spec fn spec_path(&self) -> Seq<char> {
        self.path@
    }

    /// The pause after each line, in nanoseconds.
    pub closed spec fn spec_delay(&self) -> u64 {
        self.delay
    }

    /// The bytes of the unfinished line held back so far.
    pub closed spec fn buffered(&self) -> Seq<u8> {
        self.splitter@
    }

    /// The held-back bytes never contain a line feed.
    pub closed spec fn wf(&self) -> bool {
        self.splitter.wf()
    }

    /// Starts playing a file: nothing has been read yet.
    pub fn new(path: String, delay: u64) -> (s: FileSession)
        ensures
            s.wf(),
            s.spec_path() == path@,
            s.spec_delay() == delay,
            s.buffered() == Seq::<u8>::empty(),
    {
        FileSession { path, delay, splitter: LineSplitter::new() }
    }

    /// The next chunk of the file arrived: plan the playback of every
    /// line it completes. The plan of the whole stream seen so far is
    /// these actions followed by the plan for what is still held back.
    pub fn on_chunk(&mut self, chunk: &Vec<u8>) -> (actions: Vec<Action>)
        requires
            old(self).wf(),
        ensures
            final(self).wf(),
            final(self).spec_path() == old(self).spec_path(),
            final(self).spec_delay() == old(self).spec_delay(),
            final(self).buffered() == tail_bytes(old(self).buffered() + chunk@),
            lines_plan(split_lines(old(self).buffered() + chunk@), old(self).spec_delay())
                == plan_model(actions@) + lines_plan(
                split_lines(final(self).buffered()),
                old(self).spec_delay(),
            ),
    {
        let lines = self.splitter.feed(chunk);
        let ghost completed = lines.deep_view();
        let actions = plan_for_lines(lines, self.delay);
        proof {
            lemma_lines_plan_concat(completed, split_lines(self.splitter@), self.delay);
        }
        actions
    }

    /// The file ended: plan the final unterminated line, if there is
    /// one. No terminator was seen for it, so it is printed as it is.
    pub fn on_end(self) -> (actions: Vec<Action>)
        requires
            self.wf(),
        ensures
            plan_model(actions@) == lines_plan(split_lines(self.buffered()), self.spec_delay()),
    {
        let delay = self.delay;
        let ghost held = self.buffered();
        proof {
            lemma_split_lines_no_lf(held);
        }
        match self.splitter.finish() {
            None => {
                let actions: Vec<Action> = Vec::new();
                proof {
                    assert(plan_model(actions@) =~~= lines_plan(split_lines(held), delay));
                }
                actions
            },
            Some(line) => {
                let mut lines: Vec<Vec<u8>> = Vec::new();
                lines.push(line);
                proof {
                    assert(lines.deep_view() =~~= split_lines(held));
                }
                plan_for_lines(lines, delay)
            },
        }
    }

    /// Reading the file failed: nothing more of it is played, and the
    /// whole run aborts with this error.
    pub fn on_read_error(self, detail: String) -> (e: SlowCatError)
        ensures
            e is FileRead,
            e.spec_path() == self.spec_path(),
            e.spec_detail() == detail@,
    {
        SlowCatError::FileRead { path: self.path, detail }
    }
}

/// Opening the file failed: no line of it is played, and the whole run
/// aborts with this error.
pub fn on_open_error(path: String, detail: String) -> (e: SlowCatError)
    ensures
        e is FileOpen,
        e.spec_path() == path@,
        e.spec_detail() == detail@,
{
    SlowCatError::FileOpen { path, detail }
}

/// The process exit status: zero exactly when no file failed.
pub fn exit_code(failed: bool) -> (code: i32)
    ensures
        code == 0 <==> !failed,
        failed ==> code == 1,
{
    if failed {
        1
    } else {
        0
    }
}

} // verus!
