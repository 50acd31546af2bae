//! Commands.
//!
//! All commands are invoked with a single alphabetic character, preceded by
//! an optional address and trailed by an optional suffix. The input line is
//! scanned left to right for the first alphabetic character: everything
//! before it is address text, the character itself is the verb, and
//! everything after it is the suffix (used by `w` as a filename).

use crate::addr::{parse_line_address, parse_range, Line, OptionalLine, OptionalRange, Range};
use crate::error::Error;
use vstd::prelude::*;

verus! {

/// A command.
#[derive(Debug, Eq, PartialEq)]
pub enum Cmd {
    /// Enter append mode, optionally at the addressed line.
    Append(Option<Line>),
    /// Display the addressed span of lines.
    Print(Option<Range>),
    /// Write the addressed span to the named or remembered file.
    Write(Option<Range>, Option<String>),
    /// End the session.
    Quit,
}

/// The mathematical value of a command, with text as a sequence of
/// characters.
pub enum CmdModel {
    Append(Option<Line>),
    Print(Option<Range>),
    Write(Option<Range>, Option<Seq<char>>),
    Quit,
}

impl View for Cmd {
    type V = CmdModel;

    open spec fn view(&self) -> CmdModel {
        match self {
            Cmd::Append(l) => CmdModel::Append(*l),
            Cmd::Print(r) => CmdModel::Print(*r),
            Cmd::Write(r, f) => CmdModel::Write(*r, f.deep_view()),
            Cmd::Quit => CmdModel::Quit,
        }
    }
}

/// Whether a character counts as alphabetic for the command scan.
pub uninterp spec fn char_alphabetic(c: char) -> bool;

/// Relies on `char::is_alphabetic`: whether `c` has the Unicode `Alphabetic`
/// property, a fixed function of the character alone. Its documentation gives
/// that the ASCII letters are alphabetic and that no other ASCII character
/// is.
#[verifier::external_body]
fn is_alphabetic_char(c: char) -> (r: bool)
    ensures
        r == char_alphabetic(c),
        97 <= (c as u32) <= 122 || 65 <= (c as u32) <= 90 ==> r,
        ((c as u32) < 128) && !(97 <= (c as u32) <= 122 || 65 <= (c as u32) <= 90) ==> !r,
{
    c.is_alphabetic()
}

/// The command grammar, scanning for the verb from position `i`: the first
/// alphabetic character is the verb, what precedes it is address text and
/// what follows it is the suffix.
pub open spec fn parse_command_from(s: Seq<char>, i: int) -> Result<CmdModel, Error>
    decreases s.len() - i,
{
    if i < 0 || i >= s.len() {
        Err(Error::NoCommand)
    } else if char_alphabetic(s[i]) {
        let addr = s.subrange(0, i);
        if s[i] == 'a' {
            match parse_line_address(addr) {
                Ok(OptionalLine(l)) => Ok(CmdModel::Append(l)),
                Err(e) => Err(e),
            }
        } else if s[i] == 'p' {
            match parse_range(addr) {
                Ok(OptionalRange(r)) => Ok(CmdModel::Print(r)),
                Err(e) => Err(e),
            }
        } else if s[i] == 'q' {
            Ok(CmdModel::Quit)
        } else if s[i] == 'w' {
            let suffix = s.subrange(i + 1, s.len() as int);
            match parse_range(addr) {
                Ok(OptionalRange(r)) => Ok(
                    CmdModel::Write(
                        r,
                        if suffix.len() == 0 {
                            None
                        } else {
                            Some(suffix)
                        },
                    ),
                ),
                Err(e) => Err(e),
            }
        } else {
            Err(Error::InvalidCommand)
        }
    } else {
        parse_command_from(s, i + 1)
    }
}

/// The command grammar: what parsing the input line `s` yields.
pub open spec fn parse_command(s: Seq<char>) -> Result<CmdModel, Error> {
    parse_command_from(s, 0)
}

/// `r` with the command replaced by its mathematical value.
pub open spec fn cmd_result_view(r: Result<Cmd, Error>) -> Result<CmdModel, Error> {
    match r {
        Ok(c) => Ok(c@),
        Err(e) => Err(e),
    }
}

impl Cmd {
    /// Parse one input line into a command.
    pub fn from_str(s: &str) -> (r: Result<Cmd, Error>)
        ensures
            cmd_result_view(r) == parse_command(s@),
    {
        let n = s.unicode_len();
        let mut i: usize = 0;
        while i < n
            invariant
                n == s@.len(),
                0 <= i <= n,
                parse_command_from(s@, i as int) == parse_command(s@),
            decreases n - i,
        {
            let c = s.get_char(i);
            if is_alphabetic_char(c) {
                let addr = s.substring_char(0, i);
                if c == 'a' {
                    return match OptionalLine::from_str(addr) {
                        Ok(parsed) => Ok(Cmd::Append(parsed.0)),
                        Err(e) => Err(e),
                    };
                } else if c == 'p' {
                    return match OptionalRange::from_str(addr) {
                        Ok(parsed) => Ok(Cmd::Print(parsed.0)),
                        Err(e) => Err(e),
                    };
                } else if c == 'q' {
                    return Ok(Cmd::Quit);
                } else if c == 'w' {
                    let range = match OptionalRange::from_str(addr) {
                        Ok(parsed) => parsed.0,
                        Err(e) => {
                            return Err(e);
                        },
                    };
                    let filename: Option<String> = if i + 1 < n {
                        Some(s.substring_char(i + 1, n).to_owned())
                    } else {
                        None
                    };
                    return Ok(Cmd::Write(range, filename));
                } else {
                    return Err(Error::InvalidCommand);
                }
            }
            i = i + 1;
        }
        Err(Error::NoCommand)
    }
}

} // verus!
