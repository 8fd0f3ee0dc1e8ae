//! Keeping count over a run: what to do with each document once it is
//! formatted, the exit code, and the summary line.

use crate::text::owned;
use vstd::prelude::*;

verus! {

/// The counts of a run and its exit code so far.
#[derive(Debug, Clone, Copy, PartialEq, Eq)]
pub struct Tally {
    pub reformatted: usize,
    pub already_formatted: usize,
    pub returncode: i32,
}

/// What is to be done with a formatted document.
#[derive(Debug, Clone, Copy, PartialEq, Eq)]
pub enum Action {
    /// The document was formatted already: nothing.
    Nothing,
    /// Write the formatted document back to its file.
    Write,
    /// Print the formatted document: it came from the standard input.
    Print,
    /// Say that the document would be reformatted, and leave it.
    Announce,
}

/// What is to be done with a document, given whether formatting changed it,
/// whether the run only checks, and whether it came from the standard input.
pub open spec fn action_spec(changed: bool, check: bool, from_stdin: bool) -> Action {
    if check {
        if changed {
            Action::Announce
        } else {
            Action::Nothing
        }
    } else if from_stdin {
        Action::Print
    } else if changed {
        Action::Write
    } else {
        Action::Nothing
    }
}

/// The tally after one more document. A changed document counts as
/// reformatted, any other as already formatted. The exit code becomes 1 for a
/// changed document, unless it came from the standard input and was printed.
pub open spec fn record_spec(t: Tally, changed: bool, check: bool, from_stdin: bool) -> Tally {
    Tally {
        reformatted: if changed {
            (t.reformatted + 1) as usize
        } else {
            t.reformatted
        },
        already_formatted: if changed {
            t.already_formatted
        } else {
            (t.already_formatted + 1) as usize
        },
        returncode: if changed && (check || !from_stdin) {
            1
        } else {
            t.returncode
        },
    }
}

/// The tally after a document that could not be read: the counts stay, the
/// exit code is 1.
pub open spec fn record_failure_spec(t: Tally) -> Tally {
    Tally { returncode: 1, ..t }
}

/// One decimal digit as text.
pub open spec fn digit_spec(d: nat) -> Seq<char> {
    if d == 0 {
        "0"@
    } else if d == 1 {
        "1"@
    } else if d == 2 {
        "2"@
    } else if d == 3 {
        "3"@
    } else if d == 4 {
        "4"@
    } else if d == 5 {
        "5"@
    } else if d == 6 {
        "6"@
    } else if d == 7 {
        "7"@
    } else if d == 8 {
        "8"@
    } else {
        "9"@
    }
}

/// A number in decimal, without leading zeros.
pub open spec fn decimal_spec(n: nat) -> Seq<char>
    decreases n,
{
    if n < 10 {
        digit_spec(n)
    } else {
        decimal_spec(n / 10) + digit_spec(n % 10)
    }
}

/// `<n> file`, or `<n> files` for more than one.
pub open spec fn files_spec(n: nat) -> Seq<char> {
    decimal_spec(n) + " file"@ + if n > 1 {
        "s"@
    } else {
        Seq::empty()
    }
}

/// The summary of a run: how many files were, or in a check would be,
/// reformatted, and how many were formatted already; a count of zero is left
/// out, and with both counts zero the summary is empty.
pub open spec fn summary_spec(t: Tally, check: bool) -> Seq<char> {
    let changed = if t.reformatted > 0 {
        files_spec(t.reformatted as nat) + if check {
            " would be reformatted"@
        } else {
            " reformatted"@
        } + if t.already_formatted > 0 {
            ", "@
        } else {
            Seq::empty()
        }
    } else {
        Seq::empty()
    };
    let unchanged = if t.already_formatted > 0 {
        files_spec(t.already_formatted as nat) + " already formatted"@
    } else {
        Seq::empty()
    };
    changed + unchanged
}

impl Tally {
    /// The tally of a run that has seen no document.
    pub fn new() -> (t: Tally)
        ensures
            t == (Tally { reformatted: 0, already_formatted: 0, returncode: 0 }),
    {
        Tally { reformatted: 0, already_formatted: 0, returncode: 0 }
    }

    /// Counts one formatted document and says what is to be done with it.
    pub fn record(&mut self, changed: bool, check: bool, from_stdin: bool) -> (action: Action)
        requires
            old(self).reformatted < usize::MAX,
            old(self).already_formatted < usize::MAX,
        ensures
            *final(self) == record_spec(*old(self), changed, check, from_stdin),
            action == action_spec(changed, check, from_stdin),
    {
        if changed {
            self.reformatted = self.reformatted + 1;
            if check || !from_stdin {
                self.returncode = 1;
            }
        } else {
            self.already_formatted = self.already_formatted + 1;
        }
        if check {
            if changed {
                Action::Announce
            } else {
                Action::Nothing
            }
        } else if from_stdin {
            Action::Print
        } else if changed {
            Action::Write
        } else {
            Action::Nothing
        }
    }

    /// Notes a document that could not be read.
    pub fn record_failure(&mut self)
        ensures
            *final(self) == record_failure_spec(*old(self)),
    {
        self.returncode = 1;
    }

    /// The summary line of the run; empty if it has seen no document.
    pub fn summary(&self, check: bool) -> (message: String)
        ensures
            message@ == summary_spec(*self, check),
    {
        let mut message = String::new();
        if self.reformatted > 0 {
            files_into(self.reformatted, &mut message);
            if check {
                message.append(" would be reformatted");
            } else {
                message.append(" reformatted");
            }
            if self.already_formatted > 0 {
                message.append(", ");
            } else {
                assert(message@ + Seq::<char>::empty() =~= message@);
            }
        }
        let ghost changed = message@;
        if self.already_formatted > 0 {
            files_into(self.already_formatted, &mut message);
            message.append(" already formatted");
            assert(message@ =~= changed + (files_spec(self.already_formatted as nat)
                + " already formatted"@));
        } else {
            assert(message@ + Seq::<char>::empty() =~= message@);
        }
        proof {
            if self.reformatted > 0 {
                let tail = if self.already_formatted > 0 {
                    ", "@
                } else {
                    Seq::<char>::empty()
                };
                let verb = if check {
                    " would be reformatted"@
                } else {
                    " reformatted"@
                };
                assert(changed =~= files_spec(self.reformatted as nat) + verb + tail);
            } else {
                assert(changed =~= Seq::<char>::empty());
            }
        }
        message
    }
}

fn digit(d: usize) -> (s: &'static str)
    requires
        d < 10,
    ensures
        s@ == digit_spec(d as nat),
{
    if d == 0 {
        "0"
    } else if d == 1 {
        "1"
    } else if d == 2 {
        "2"
    } else if d == 3 {
        "3"
    } else if d == 4 {
        "4"
    } else if d == 5 {
        "5"
    } else if d == 6 {
        "6"
    } else if d == 7 {
        "7"
    } else if d == 8 {
        "8"
    } else {
        "9"
    }
}

/// A number in decimal.
pub fn decimal(n: usize) -> (s: String)
    ensures
        s@ == decimal_spec(n as nat),
    decreases n,
{
    if n < 10 {
        owned(digit(n))
    } else {
        let mut s = decimal(n / 10);
        s.append(digit(n % 10));
        s
    }
}

fn files_into(n: usize, message: &mut String)
    ensures
        final(message)@ == old(message)@ + files_spec(n as nat),
{
    let ghost start = message@;
    let number = decimal(n);
    message.append(number.as_str());
    message.append(" file");
    if n > 1 {
        message.append("s");
    }
    assert(message@ =~= start + files_spec(n as nat));
}

} // verus!
