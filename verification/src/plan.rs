//! Planning a file's playback: one print and one pause per line.

use vstd::prelude::*;
use crate::lines::{normalized, render, split_lines, split_into_lines, LF};

verus! {

/// Pause between lines when none is asked for: a fifth of a second.
pub const DEFAULT_DELAY_NANOS: u64 = 200_000_000;

/// One step of a file's playback, for the binary to perform.
pub enum Action {
    /// Write these bytes and then a single line feed to standard output.
    Print(Vec<u8>),
    /// Suspend the thread for this many nanoseconds.
    Sleep(u64),
}

/// The mathematical image of an action.
#[verifier::ext_equal]
pub enum ActionModel {
    Print(Seq<u8>),
    Sleep(u64),
}

/// The image of one executable action.
pub open spec fn action_model(a: Action) -> ActionModel {
    match a {
        Action::Print(line) => ActionModel::Print(line@),
        Action::Sleep(nanos) => ActionModel::Sleep(nanos),
    }
}

/// The image of a whole action sequence.
pub open spec fn plan_model(plan: Seq<Action>) -> Seq<ActionModel> {
    plan.map_values(|a: Action| action_model(a))
}

/// The playback of the given lines: each line printed, then one pause.
pub open spec fn lines_plan(lines: Seq<Seq<u8>>, delay: u64) -> Seq<ActionModel>
    decreases lines.len(),
{
    if lines.len() == 0 {
        seq![]
    } else {
        seq![ActionModel::Print(lines[0]), ActionModel::Sleep(delay)] + lines_plan(
            lines.skip(1),
            delay,
        )
    }
}

/// The playback of a whole byte stream.
pub open spec fn file_plan(s: Seq<u8>, delay: u64) -> Seq<ActionModel> {
    lines_plan(split_lines(s), delay)
}

/// The total pause time, in nanoseconds, that an action sequence asks for.
pub open spec fn total_sleep(plan: Seq<ActionModel>) -> int
    decreases plan.len(),
{
    if plan.len() == 0 {
        0
    } else {
        (match plan[0] {
            ActionModel::Sleep(nanos) => nanos as int,
            ActionModel::Print(_) => 0,
        }) + total_sleep(plan.skip(1))
    }
}

/// The lines an action sequence prints, in order.
pub open spec fn printed(plan: Seq<ActionModel>) -> Seq<Seq<u8>>
    decreases plan.len(),
{
    if plan.len() == 0 {
        seq![]
    } else {
        (match plan[0] {
            ActionModel::Print(line) => seq![line],
            ActionModel::Sleep(_) => seq![],
        }) + printed(plan.skip(1))
    }
}

/// The plan for given lines pauses once per line, for the delay each time.
pub proof fn lemma_lines_plan_sleep(lines: Seq<Seq<u8>>, delay: u64)
    ensures
        total_sleep(lines_plan(lines, delay)) == lines.len() * delay,
    decreases lines.len(),
{
    if lines.len() == 0 {
        assert(lines.len() * delay == 0) by (nonlinear_arith)
            requires lines.len() == 0,
        ;
    } else {
        let plan = lines_plan(lines, delay);
        let rest = lines_plan(lines.skip(1), delay);
        assert(plan[0] == ActionModel::Print(lines[0]));
        assert(plan.skip(1) =~~= seq![ActionModel::Sleep(delay)] + rest);
        assert(plan.skip(1)[0] == ActionModel::Sleep(delay));
        assert((seq![ActionModel::Sleep(delay)] + rest).skip(1) =~~= rest);
        assert(total_sleep(plan) == 0 + total_sleep(plan.skip(1)));
        assert(total_sleep(plan.skip(1)) == delay + total_sleep(rest));
        lemma_lines_plan_sleep(lines.skip(1), delay);
        assert(total_sleep(rest) == (lines.len() - 1) * delay);
        assert(delay + (lines.len() - 1) * delay == lines.len() * delay) by (nonlinear_arith)
            requires lines.len() >= 1,
        ;
    }
}

/// The plan for given lines prints exactly those lines, in order.
pub proof fn lemma_lines_plan_printed(lines: Seq<Seq<u8>>, delay: u64)
    ensures
        printed(lines_plan(lines, delay)) == lines,
    decreases lines.len(),
{
    if lines.len() == 0 {
        assert(printed(lines_plan(lines, delay)) =~~= lines);
    } else {
        let plan = lines_plan(lines, delay);
        let rest = lines_plan(lines.skip(1), delay);
        assert(plan[0] == ActionModel::Print(lines[0]));
        assert(plan.skip(1) =~~= seq![ActionModel::Sleep(delay)] + rest);
        assert(plan.skip(1)[0] == ActionModel::Sleep(delay));
        assert((seq![ActionModel::Sleep(delay)] + rest).skip(1) =~~= rest);
        assert(printed(plan) == seq![lines[0]] + printed(plan.skip(1)));
        assert(printed(plan.skip(1)) =~~= printed(rest));
        lemma_lines_plan_printed(lines.skip(1), delay);
        assert(printed(plan) =~~= seq![lines[0]] + lines.skip(1));
        assert(seq![lines[0]] + lines.skip(1) =~~= lines);
    }
}

/// Planning lines in two batches gives the same actions as planning
/// them at once.
pub proof fn lemma_lines_plan_concat(a: Seq<Seq<u8>>, b: Seq<Seq<u8>>, delay: u64)
    ensures
        lines_plan(a + b, delay) == lines_plan(a, delay) + lines_plan(b, delay),
    decreases a.len(),
{
    if a.len() == 0 {
        assert(a + b =~~= b);
        assert(lines_plan(a, delay) + lines_plan(b, delay) =~~= lines_plan(b, delay));
    } else {
        assert((a + b).len() > 0);
        assert((a + b)[0] == a[0]);
        assert((a + b).skip(1) =~~= a.skip(1) + b);
        lemma_lines_plan_concat(a.skip(1), b, delay);
        assert(lines_plan(a + b, delay) =~~= lines_plan(a, delay) + lines_plan(b, delay));
    }
}

/// Law: a stream of N lines is played back with N pauses of the
/// configured delay, so the total requested pause time is N times the
/// delay.
pub proof fn lemma_file_plan_sleep(s: Seq<u8>, delay: u64)
    ensures
        total_sleep(file_plan(s, delay)) == split_lines(s).len() * delay,
{
    lemma_lines_plan_sleep(split_lines(s), delay);
}

/// Law: what the playback of a stream writes to standard output is the
/// stream itself, with every line terminator normalized to a single
/// line feed.
pub proof fn lemma_file_plan_output(s: Seq<u8>, delay: u64)
    ensures
        printed(file_plan(s, delay)) == split_lines(s),
        render(printed(file_plan(s, delay))) == normalized(s),
{
    lemma_lines_plan_printed(split_lines(s), delay);
    crate::lines::lemma_render_split_lines(s);
}

/// Plans the playback of lines already split from the stream: print
/// each line, pausing after every one, the last included.
pub fn plan_for_lines(lines: Vec<Vec<u8>>, delay: u64) -> (plan: Vec<Action>)
    ensures
        plan_model(plan@) == lines_plan(lines.deep_view(), delay),
{
    let ghost all = lines.deep_view();
    let mut lines = lines;
    let mut plan: Vec<Action> = Vec::new();
    proof {
        assert(plan_model(plan@) =~~= Seq::<ActionModel>::empty());
        assert(Seq::<ActionModel>::empty() + lines_plan(all, delay) =~~= lines_plan(all, delay));
    }
    while lines.len() > 0
        invariant
            plan_model(plan@) + lines_plan(lines.deep_view(), delay) == lines_plan(all, delay),
        decreases lines.len(),
    {
        let ghost remaining = lines.deep_view();
        let ghost done = plan_model(plan@);
        let line = lines.remove(0);
        plan.push(Action::Print(line));
        plan.push(Action::Sleep(delay));
        proof {
            assert(lines.deep_view() =~~= remaining.skip(1));
            assert(line@ == remaining[0]);
            assert(plan_model(plan@) =~~= done + seq![
                ActionModel::Print(line@),
                ActionModel::Sleep(delay),
            ]);
            assert(lines_plan(remaining, delay) == seq![
                ActionModel::Print(remaining[0]),
                ActionModel::Sleep(delay),
            ] + lines_plan(remaining.skip(1), delay));
            assert(plan_model(plan@) + lines_plan(lines.deep_view(), delay) =~~= done
                + lines_plan(remaining, delay));
        }
    }
    proof {
        assert(lines.deep_view() =~~= Seq::<Seq<u8>>::empty());
        assert(plan_model(plan@) + lines_plan(lines.deep_view(), delay) =~~= plan_model(plan@));
    }
    plan
}

/// Plans the playback of a whole stream.
pub fn plan_file(content: &Vec<u8>, delay: u64) -> (plan: Vec<Action>)
    ensures
        plan_model(plan@) == file_plan(content@, delay),
{
    let lines = split_into_lines(content);
    plan_for_lines(lines, delay)
}

} // verus!
