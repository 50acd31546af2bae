//! The editor.
//!
//! [`Ed`] owns the line buffer, the cursor and the remembered filename, and
//! interprets parsed commands. It performs no I/O itself: running one input
//! line yields an [`Action`] telling the caller what to display or write, so
//! that the buffer logic stays independent of any display or file sink.
//!
//! The whole state machine is captured by the specification function
//! [`step`]: running a line takes the editor from its old state to
//! `step(old, line).0` and reports `step(old, line).1`.

use crate::addr::{Line, Range};
use crate::cmd::{parse_command, Cmd, CmdModel};
use crate::error::Error;
use vstd::prelude::*;
use vstd::slice::slice_index_get;

verus! {

/// The mathematical state of the editor.
#[verifier::ext_equal]
pub struct EdModel {
    /// The buffer, in document order.
    pub lines: Seq<Seq<char>>,
    /// Whether the editor is in append mode.
    pub appending: bool,
    /// The 1-based cursor; 0 means "before the first line".
    pub current: nat,
    /// The filename remembered from the last write that named one.
    pub filename: Option<Seq<char>>,
}

/// What a caller must do after a command was interpreted.
#[derive(Debug, Eq, PartialEq)]
pub enum Action {
    /// Nothing: the command acted on the buffer alone.
    Nothing,
    /// Display these lines, in order.
    Display(Vec<String>),
    /// Write these lines, in order, to the named file.
    WriteFile(String, Vec<String>),
    /// End the session.
    Quit,
}

/// The mathematical value of an [`Action`].
pub enum ActionModel {
    Nothing,
    Display(Seq<Seq<char>>),
    WriteFile(Seq<char>, Seq<Seq<char>>),
    Quit,
}

impl View for Action {
    type V = ActionModel;

    open spec fn view(&self) -> ActionModel {
        match self {
            Action::Nothing => ActionModel::Nothing,
            Action::Display(lines) => ActionModel::Display(lines.deep_view()),
            Action::WriteFile(name, lines) => ActionModel::WriteFile(name@, lines.deep_view()),
            Action::Quit => ActionModel::Quit,
        }
    }
}

/// `r` with the action replaced by its mathematical value.
pub open spec fn action_result_view(r: Result<Action, Error>) -> Result<ActionModel, Error> {
    match r {
        Ok(a) => Ok(a@),
        Err(e) => Err(e),
    }
}

/// Well-formedness of an editor state: the cursor never lies past the end of
/// the buffer.
pub open spec fn wf(m: EdModel) -> bool {
    m.current <= m.lines.len()
}

/// Resolve a line address to a concrete 1-based line number.
///
/// An absolute index must name an existing line; the cursor and the buffer
/// length are taken as they are, so on an empty buffer `.` and `$` resolve
/// to 0, a span that contains no line.
pub open spec fn line_no(m: EdModel, l: Line) -> Result<nat, Error> {
    match l {
        Line::Idx(i) => if 1 <= i && i <= m.lines.len() {
            Ok(i as nat)
        } else {
            Err(Error::InvalidAddress)
        },
        Line::Current => Ok(m.current),
        Line::Last => Ok(m.lines.len()),
    }
}

/// The lines whose 1-based numbers fall in the inclusive span `[from, to]`.
pub open spec fn span(lines: Seq<Seq<char>>, from: nat, to: nat) -> Seq<Seq<char>> {
    let lo: int = if from < 1 {
        1
    } else {
        from as int
    };
    let hi: int = if to > lines.len() {
        lines.len() as int
    } else {
        to as int
    };
    if lo > hi {
        Seq::empty()
    } else {
        lines.subrange(lo - 1, hi)
    }
}

/// How one parsed command transforms the editor state, and what it reports:
/// the new state together with the action owed to the caller or the error.
pub open spec fn step_command(m: EdModel, c: CmdModel) -> (EdModel, Result<ActionModel, Error>) {
    match c {
        CmdModel::Append(opt) => {
            let l = match opt {
                Some(l) => l,
                None => Line::Current,
            };
            match l {
                Line::Idx(i) => if i <= m.lines.len() {
                    (
                        EdModel { current: i as nat, appending: true, ..m },
                        Ok(ActionModel::Nothing),
                    )
                } else {
                    (m, Err(Error::InvalidAddress))
                },
                Line::Current => (EdModel { appending: true, ..m }, Ok(ActionModel::Nothing)),
                Line::Last => (
                    EdModel { current: m.lines.len(), appending: true, ..m },
                    Ok(ActionModel::Nothing),
                ),
            }
        },
        CmdModel::Print(opt) => {
            let r = match opt {
                Some(r) => r,
                None => Range(Line::Current, Line::Current),
            };
            match (line_no(m, r.0), line_no(m, r.1)) {
                (Ok(from), Ok(to)) => (m, Ok(ActionModel::Display(span(m.lines, from, to)))),
                (Err(e), _) => (m, Err(e)),
                (_, Err(e)) => (m, Err(e)),
            }
        },
        CmdModel::Write(opt, f) => {
            let name = match f {
                Some(f) => Some(f),
                None => m.filename,
            };
            let m2 = EdModel { filename: name, ..m };
            match name {
                None => (m, Err(Error::NoFilename)),
                Some(name) => {
                    let r = match opt {
                        Some(r) => r,
                        None => Range(Line::Idx(1), Line::Last),
                    };
                    match (line_no(m, r.0), line_no(m, r.1)) {
                        (Ok(from), Ok(to)) => (
                            m2,
                            Ok(ActionModel::WriteFile(name, span(m.lines, from, to))),
                        ),
                        (Err(e), _) => (m2, Err(e)),
                        (_, Err(e)) => (m2, Err(e)),
                    }
                },
            }
        },
        CmdModel::Quit => (m, Ok(ActionModel::Quit)),
    }
}

/// How one input line transforms the editor state, and what it reports.
///
/// In append mode a lone `.` leaves append mode and any other line is
/// inserted at the cursor, which then advances past it. Otherwise the line
/// is parsed as a command and interpreted by [`step_command`]; a parse error
/// leaves the state unchanged.
pub open spec fn step(m: EdModel, s: Seq<char>) -> (EdModel, Result<ActionModel, Error>) {
    if m.appending {
        if s.len() == 1 && s[0] == '.' {
            (EdModel { appending: false, ..m }, Ok(ActionModel::Nothing))
        } else {
            (
                EdModel { lines: m.lines.insert(m.current as int, s), current: m.current + 1, ..m },
                Ok(ActionModel::Nothing),
            )
        }
    } else {
        match parse_command(s) {
            Ok(c) => step_command(m, c),
            Err(e) => (m, Err(e)),
        }
    }
}

/// An instance of the editor.
///
/// Manages a buffer and interprets commands; the caller carries out the
/// returned actions against its own display and file sinks.
#[derive(Debug)]
pub struct Ed {
    lines: Vec<String>,
    appending: bool,
    current: usize,
    filename: Option<String>,
}

impl View for Ed {
    type V = EdModel;

    closed spec fn view(&self) -> EdModel {
        EdModel {
            lines: self.lines.deep_view(),
            appending: self.appending,
            current: self.current as nat,
            filename: self.filename.deep_view(),
        }
    }
}

impl Ed {
    /// A fresh editor: empty buffer, cursor before the first line, not in
    /// append mode, no remembered filename.
    pub fn new() -> (ed: Ed)
        ensures
            ed@ == (EdModel {
                lines: Seq::empty(),
                appending: false,
                current: 0,
                filename: None,
            }),
            wf(ed@),
    {
        let ed = Ed { lines: Vec::new(), appending: false, current: 0, filename: None };
        proof {
            assert(ed.lines.deep_view() =~= Seq::<Seq<char>>::empty());
        }
        ed
    }

    /// Convert a line address into a concrete line number.
    fn line_number(&self, line: Line) -> (r: Result<usize, Error>)
        ensures
            match r {
                Ok(i) => line_no(self@, line) == Ok::<nat, Error>(i as nat),
                Err(e) => line_no(self@, line) == Err::<nat, Error>(e),
            },
    {
        match line {
            Line::Idx(i) => if i > 0 && i <= self.lines.len() {
                Ok(i)
            } else {
                Err(Error::InvalidAddress)
            },
            Line::Current => Ok(self.current),
            Line::Last => Ok(self.lines.len()),
        }
    }

    /// Copy the lines whose 1-based numbers fall in `[from, to]`.
    fn copy_span(&self, from: usize, to: usize) -> (out: Vec<String>)
        requires
            to <= self@.lines.len(),
        ensures
            out.deep_view() == span(self@.lines, from as nat, to as nat),
    {
        let ghost m = self@;
        let mut out: Vec<String> = Vec::new();
        let lo: usize = if from < 1 {
            1
        } else {
            from
        };
        proof {
            assert(out.deep_view() =~= Seq::<Seq<char>>::empty());
        }
        if lo > to {
            return out;
        }
        let count = to - lo + 1;
        let mut k: usize = 0;
        while k < count
            invariant
                1 <= lo <= to,
                count == to - lo + 1,
                0 <= k <= count,
                to <= self@.lines.len(),
                m == self@,
                out@.len() == k,
                out.deep_view() =~= m.lines.subrange(lo - 1, lo - 1 + k),
            decreases count - k,
        {
            let ghost v0 = out@;
            let line = slice_index_get(self.lines.as_slice(), lo - 1 + k).clone();
            out.push(line);
            proof {
                assert(m.lines[lo - 1 + k] == self.lines@[lo - 1 + k].deep_view());
                assert forall|j: int| 0 <= j < out@.len() implies out.deep_view()[j]
                    == m.lines.subrange(lo - 1, lo + k as int)[j] by {
                    assert(out.deep_view()[j] == out@[j].deep_view());
                    if j < v0.len() {
                        assert(out@[j] == v0[j]);
                        assert(v0[j].deep_view() == m.lines.subrange(lo - 1, lo - 1 + k)[j]);
                    } else {
                        assert(out@[j] == line);
                    }
                }
                assert(out.deep_view() =~= m.lines.subrange(lo - 1, lo + k as int));
            }
            k = k + 1;
        }
        proof {
            assert(out.deep_view() =~= span(m.lines, from as nat, to as nat));
        }
        out
    }

    /// Run one input line: a command in normal mode, literal text in append
    /// mode. The state changes to `step(old, line).0`, and the result is the
    /// action the caller owes, or the error, as `step(old, line).1` says.
    pub fn run_line(&mut self, s: &str) -> (r: Result<Action, Error>)
        requires
            wf(old(self)@),
        ensures
            wf(final(self)@),
            final(self)@ == step(old(self)@, s@).0,
            action_result_view(r) == step(old(self)@, s@).1,
    {
        let ghost pre = self@;
        if self.appending {
            if s.unicode_len() == 1 && s.get_char(0) == '.' {
                self.appending = false;
                proof {
                    assert(self@ =~= step(pre, s@).0);
                }
                return Ok(Action::Nothing);
            }
            let idx = self.current;
            self.lines.insert(idx, s.to_owned());
            let new_len = self.lines.len();
            proof {
                // the insert grew the buffer, so the advanced cursor fits
                assert(idx < new_len);
            }
            self.current = idx + 1;
            proof {
                assert(self.lines.deep_view() =~= pre.lines.insert(pre.current as int, s@));
                assert(self@ =~= step(pre, s@).0);
            }
            return Ok(Action::Nothing);
        }
        let cmd = match Cmd::from_str(s) {
            Ok(c) => c,
            Err(e) => {
                return Err(e);
            },
        };
        match cmd {
            Cmd::Append(opt) => {
                let line = match opt {
                    Some(l) => l,
                    None => Line::Current,
                };
                match line {
                    Line::Idx(i) => {
                        if i <= self.lines.len() {
                            self.current = i;
                        } else {
                            return Err(Error::InvalidAddress);
                        }
                    },
                    Line::Current => {},
                    Line::Last => {
                        self.current = self.lines.len();
                    },
                }
                self.appending = true;
                proof {
                    assert(self@ =~= step(pre, s@).0);
                }
                Ok(Action::Nothing)
            },
            Cmd::Print(opt) => {
                let range = match opt {
                    Some(r) => r,
                    None => Range::repeat(Line::Current),
                };
                let from = match self.line_number(range.0) {
                    Ok(v) => v,
                    Err(e) => {
                        return Err(e);
                    },
                };
                let to = match self.line_number(range.1) {
                    Ok(v) => v,
                    Err(e) => {
                        return Err(e);
                    },
                };
                let out = self.copy_span(from, to);
                Ok(Action::Display(out))
            },
            Cmd::Write(opt, fname) => {
                if let Some(f) = fname {
                    self.filename = Some(f);
                }
                let name = match &self.filename {
                    Some(n) => n.clone(),
                    None => {
                        return Err(Error::NoFilename);
                    },
                };
                let range = match opt {
                    Some(r) => r,
                    None => Range(Line::Idx(1), Line::Last),
                };
                let from = match self.line_number(range.0) {
                    Ok(v) => v,
                    Err(e) => {
                        proof {
                            assert(self@ =~= step(pre, s@).0);
                        }
                        return Err(e);
                    },
                };
                let to = match self.line_number(range.1) {
                    Ok(v) => v,
                    Err(e) => {
                        proof {
                            assert(self@ =~= step(pre, s@).0);
                        }
                        return Err(e);
                    },
                };
                let out = self.copy_span(from, to);
                proof {
                    assert(self@ =~= step(pre, s@).0);
                }
                Ok(Action::WriteFile(name, out))
            },
            Cmd::Quit => Ok(Action::Quit),
        }
    }
}

/// Law: resolving line 0, or a line past the end of the buffer, always fails
/// with `InvalidAddress`.
pub proof fn lemma_resolve_out_of_range(m: EdModel, i: usize)
    requires
        i == 0 || i > m.lines.len(),
    ensures
        line_no(m, Line::Idx(i)) == Err::<nat, Error>(Error::InvalidAddress),
{
}

/// Law: a `Print` whose range names line 0 or a line past the end of the
/// buffer fails with `InvalidAddress` and leaves the state unchanged.
pub proof fn lemma_print_out_of_range(m: EdModel, r: Range)
    requires
        (r.0 matches Line::Idx(i) && (i == 0 || i > m.lines.len())) || (r.1 matches Line::Idx(i)
            && (i == 0 || i > m.lines.len())),
    ensures
        step_command(m, CmdModel::Print(Some(r))) == (
            m,
            Err::<ActionModel, Error>(Error::InvalidAddress),
        ),
{
}

/// Law: a `Write` whose range names line 0 or a line past the end of the
/// buffer fails with `InvalidAddress` before any write action is produced;
/// the buffer and cursor are untouched, though a filename given with the
/// command is still remembered.
pub proof fn lemma_write_out_of_range(m: EdModel, r: Range, f: Option<Seq<char>>)
    requires
        f is Some || m.filename is Some,
        (r.0 matches Line::Idx(i) && (i == 0 || i > m.lines.len())) || (r.1 matches Line::Idx(i)
            && (i == 0 || i > m.lines.len())),
    ensures
        step_command(m, CmdModel::Write(Some(r), f)).1 == Err::<ActionModel, Error>(
            Error::InvalidAddress,
        ),
        step_command(m, CmdModel::Write(Some(r), f)).0.lines == m.lines,
        step_command(m, CmdModel::Write(Some(r), f)).0.current == m.current,
        step_command(m, CmdModel::Write(Some(r), f)).0.appending == m.appending,
{
}

/// Law: a write with no filename on the command and none remembered fails
/// with `NoFilename`, changes nothing, and produces no write action.
pub proof fn lemma_write_no_filename(m: EdModel, r: Option<Range>)
    requires
        m.filename is None,
    ensures
        step_command(m, CmdModel::Write(r, None)) == (
            m,
            Err::<ActionModel, Error>(Error::NoFilename),
        ),
{
}

/// Law: running any input line preserves well-formedness: the cursor never
/// passes the end of the buffer.
pub proof fn lemma_step_preserves_wf(m: EdModel, s: Seq<char>)
    requires
        wf(m),
    ensures
        wf(step(m, s).0),
{
}

} // verus!
