//! Text buffer.
//!
//! [`Buf`] is a simpler machine than [`crate::ed::Ed`]: it appends lines at
//! the end of the buffer only, and the only command with a visible effect
//! besides entering append mode is printing the whole buffer. It accepts a
//! write command but does nothing with it: it keeps no filename. As with
//! `Ed`, no I/O happens here: printing hands the lines back to the caller.

use crate::cmd::{parse_command, Cmd, CmdModel};
use crate::error::Error;
use vstd::prelude::*;
use vstd::slice::slice_index_get;

verus! {

/// The mathematical state of a [`Buf`].
#[verifier::ext_equal]
pub struct BufModel {
    /// The buffer, in document order.
    pub lines: Seq<Seq<char>>,
    /// Whether the buffer is in append mode.
    pub appending: bool,
    /// A cursor slot; this simpler machine never moves it.
    pub current: nat,
}

/// `r` with the lines replaced by their mathematical value.
pub open spec fn lines_result_view(r: Result<Vec<String>, Error>) -> Result<
    Seq<Seq<char>>,
    Error,
> {
    match r {
        Ok(v) => Ok(v.deep_view()),
        Err(e) => Err(e),
    }
}

/// How one input line transforms the buffer, and which lines it asks the
/// caller to print: in append mode a lone `.` leaves append mode and any
/// other line is appended at the end; otherwise the line is parsed and only
/// an append or print command has an effect.
pub open spec fn buf_step(m: BufModel, s: Seq<char>) -> (BufModel, Result<Seq<Seq<char>>, Error>) {
    if m.appending {
        if s.len() == 1 && s[0] == '.' {
            (BufModel { appending: false, ..m }, Ok(Seq::empty()))
        } else {
            (BufModel { lines: m.lines.push(s), ..m }, Ok(Seq::empty()))
        }
    } else {
        match parse_command(s) {
            Ok(CmdModel::Append(_)) => (BufModel { appending: true, ..m }, Ok(Seq::empty())),
            Ok(CmdModel::Print(_)) => (m, Ok(m.lines)),
            Ok(CmdModel::Write(_, _)) => (m, Ok(Seq::empty())),
            Ok(CmdModel::Quit) => (m, Ok(Seq::empty())),
            Err(e) => (m, Err(e)),
        }
    }
}

/// A plain line buffer with an append mode.
#[derive(Debug)]
pub struct Buf {
    current: usize,
    lines: Vec<String>,
    appending: bool,
}

impl View for Buf {
    type V = BufModel;

    closed spec fn view(&self) -> BufModel {
        BufModel {
            lines: self.lines.deep_view(),
            appending: self.appending,
            current: self.current as nat,
        }
    }
}

/// An empty list of lines to print.
fn no_lines() -> (v: Vec<String>)
    ensures
        v.deep_view() == Seq::<Seq<char>>::empty(),
{
    let v: Vec<String> = Vec::new();
    proof {
        assert(v.deep_view() =~= Seq::<Seq<char>>::empty());
    }
    v
}

impl Buf {
    /// A fresh, empty buffer.
    pub fn new() -> (b: Buf)
        ensures
            b@ == (BufModel { lines: Seq::empty(), appending: false, current: 0 }),
    {
        let b = Buf { current: 0, lines: Vec::new(), appending: false };
        proof {
            assert(b.lines.deep_view() =~= Seq::<Seq<char>>::empty());
        }
        b
    }

    /// Run one input line: a command in normal mode, literal text in append
    /// mode. Returns the lines the caller should print, or the parse error.
    pub fn run(&mut self, s: &str) -> (r: Result<Vec<String>, Error>)
        ensures
            final(self)@ == buf_step(old(self)@, s@).0,
            lines_result_view(r) == buf_step(old(self)@, s@).1,
    {
        let ghost pre = self@;
        if self.appending {
            if s.unicode_len() == 1 && s.get_char(0) == '.' {
                self.appending = false;
            } else {
                self.lines.push(s.to_owned());
                proof {
                    assert(self.lines.deep_view() =~= pre.lines.push(s@));
                }
            }
            proof {
                assert(self@ =~= buf_step(pre, s@).0);
            }
            return Ok(no_lines());
        }
        let cmd = match Cmd::from_str(s) {
            Ok(c) => c,
            Err(e) => {
                return Err(e);
            },
        };
        match cmd {
            Cmd::Append(_) => {
                self.appending = true;
                proof {
                    assert(self@ =~= buf_step(pre, s@).0);
                }
                Ok(no_lines())
            },
            Cmd::Print(_) => {
                let n = self.lines.len();
                let mut out: Vec<String> = Vec::new();
                let mut k: usize = 0;
                while k < n
                    invariant
                        0 <= k <= n,
                        n == self@.lines.len(),
                        pre == self@,
                        out@.len() == k,
                        out.deep_view() =~= self@.lines.subrange(0, k as int),
                    decreases n - k,
                {
                    let ghost v0 = out@;
                    let line = slice_index_get(self.lines.as_slice(), k).clone();
                    out.push(line);
                    proof {
                        assert forall|j: int| 0 <= j < out@.len() implies out.deep_view()[j]
                            == self@.lines.subrange(0, k + 1)[j] by {
                            assert(out.deep_view()[j] == out@[j].deep_view());
                            if j < v0.len() {
                                assert(out@[j] == v0[j]);
                                assert(v0[j].deep_view() == self@.lines.subrange(0, k as int)[j]);
                            } else {
                                assert(out@[j] == line);
                            }
                        }
                        assert(out.deep_view() =~= self@.lines.subrange(0, k + 1));
                    }
                    k = k + 1;
                }
                proof {
                    assert(self@.lines.subrange(0, n as int) =~= self@.lines);
                }
                Ok(out)
            },
            Cmd::Write(_, _) => Ok(no_lines()),
            Cmd::Quit => Ok(no_lines()),
        }
    }
}

} // verus!
