//! The tool's two error kinds and the exact text each is reported with.

use vstd::prelude::*;
use vstd::string::StringExecFns;

verus! {

/// What can end a run early: a file that would not open, or one that
/// failed mid-read. Each carries the path of the failing file and the
/// reason the system gave.
pub enum SlowCatError {
    FileOpen { path: String, detail: String },
    FileRead { path: String, detail: String },
}

/// The message for a file that would not open.
pub open spec fn open_error_text(path: Seq<char>, detail: Seq<char>) -> Seq<char> {
    "Error opening file \""@ + path + "\": "@ + detail
}

/// The message for a file that failed mid-read.
pub open spec fn read_error_text(path: Seq<char>, detail: Seq<char>) -> Seq<char> {
    "Error reading from file \""@ + path + "\": "@ + detail
}

/// The message an error is shown with.
pub open spec fn spec_message(e: SlowCatError) -> Seq<char> {
    match e {
        SlowCatError::FileOpen { path, detail } => open_error_text(path@, detail@),
        SlowCatError::FileRead { path, detail } => read_error_text(path@, detail@),
    }
}

/// The full line written to standard error before the run aborts.
pub open spec fn spec_report(e: SlowCatError) -> Seq<char> {
    "Error: "@ + spec_message(e)
}

/// `text` holds `part` as one contiguous run of characters.
pub open spec fn mentions(text: Seq<char>, part: Seq<char>) -> bool {
    exists|i: int, j: int|
        0 <= i <= j <= text.len() && j - i == part.len() && #[trigger] text.subrange(i, j) == part
}

impl SlowCatError {
    /// The path of the failing file.
    pub open spec fn spec_path(&self) -> Seq<char> {
        match *self {
            SlowCatError::FileOpen { path, detail } => path@,
            SlowCatError::FileRead { path, detail } => path@,
        }
    }

    /// The reason the system gave for the failure.
    pub open spec fn spec_detail(&self) -> Seq<char> {
        match *self {
            SlowCatError::FileOpen { path, detail } => detail@,
            SlowCatError::FileRead { path, detail } => detail@,
        }
    }

    /// The human-readable message: which step failed, on which file,
    /// and the reason the system gave.
    pub fn message(&self) -> (m: String)
        ensures
            m@ == spec_message(*self),
    {
        let mut m = String::new();
        match self {
            SlowCatError::FileOpen { path, detail } => {
                m.append("Error opening file \"");
                m.append(path.as_str());
                m.append("\": ");
                m.append(detail.as_str());
            },
            SlowCatError::FileRead { path, detail } => {
                m.append("Error reading from file \"");
                m.append(path.as_str());
                m.append("\": ");
                m.append(detail.as_str());
            },
        }
        proof {
            assert(m@ =~= spec_message(*self));
        }
        m
    }

    /// The line the run writes to standard error before it aborts.
    pub fn report_line(&self) -> (m: String)
        ensures
            m@ == spec_report(*self),
    {
        let mut m = String::new();
        m.append("Error: ");
        let msg = self.message();
        m.append(msg.as_str());
        proof {
            assert(m@ =~= spec_report(*self));
        }
        m
    }
}

/// A part mentioned in a text is still mentioned behind a prefix.
pub proof fn lemma_mentions_prefixed(prefix: Seq<char>, text: Seq<char>, part: Seq<char>)
    requires
        mentions(text, part),
    ensures
        mentions(prefix + text, part),
{
    let (i, j) = choose|i: int, j: int|
        0 <= i <= j <= text.len() && j - i == part.len() && #[trigger] text.subrange(i, j) == part;
    assert((prefix + text).subrange(prefix.len() + i, prefix.len() + j) =~= text.subrange(i, j));
}

/// Law: an error's message names the failing file: the path stands in
/// the message, and in the reported line.
pub proof fn lemma_message_mentions_path(e: SlowCatError)
    ensures
        mentions(spec_message(e), e.spec_path()),
        mentions(spec_report(e), e.spec_path()),
{
    let t = spec_message(e);
    let p = e.spec_path();
    match e {
        SlowCatError::FileOpen { path, detail } => {
            let pre = "Error opening file \""@;
            assert(t.subrange(pre.len() as int, pre.len() + p.len() as int) =~= p);
        },
        SlowCatError::FileRead { path, detail } => {
            let pre = "Error reading from file \""@;
            assert(t.subrange(pre.len() as int, pre.len() + p.len() as int) =~= p);
        },
    }
    lemma_mentions_prefixed("Error: "@, t, p);
}

} // verus!
