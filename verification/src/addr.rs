//! Addressing.
//!
//! Parsing can result in a true error via `Err`, or can succeed but indicate
//! that no address was specified via an empty option, in which case the
//! calling code chooses what the "default" address should be.
//!
//! The grammar for a single line token is: the empty string means "no
//! address", `.` means the current line, `$` means the last line, a string of
//! decimal digits means that absolute 1-based line number, and anything else
//! is invalid. A range is the token text split on `,` or `;`, scanned left to
//! right while retaining only the last two successfully parsed tokens.

use crate::error::Error;
use vstd::prelude::*;

verus! {

/// An address specifying a single line, purely syntactic until resolved.
#[derive(Clone, Copy, Debug, Eq, PartialEq)]
pub enum Line {
    /// The 1-based index of a line.
    Idx(usize),
    /// The current line.
    Current,
    /// The last line.
    Last,
}

/// An address spanning between two lines, inclusive once resolved.
#[derive(Clone, Copy, Debug, Eq, PartialEq)]
pub struct Range(pub Line, pub Line);

impl Range {
    /// The single-line span `(line, line)`.
    pub fn repeat(line: Line) -> (r: Range)
        ensures
            r == (Range(line, line)),
    {
        Range(line, line)
    }
}

/// A parsed range, or the statement that no address was supplied.
#[derive(Clone, Copy, Debug, Eq, PartialEq)]
pub struct OptionalRange(pub Option<Range>);

/// A parsed line address, or the statement that no address was supplied.
#[derive(Clone, Copy, Debug, Eq, PartialEq)]
pub struct OptionalLine(pub Option<Line>);

/// Whether `c` is a decimal digit.
pub open spec fn is_digit(c: char) -> bool {
    48 <= c as u32 <= 57
}

/// The numeric value of the decimal digit `c`.
pub open spec fn digit_val(c: char) -> int {
    c as u32 - 48
}

/// Whether every character of `s` is a decimal digit.
pub open spec fn all_digits(s: Seq<char>) -> bool {
    forall|i: int| 0 <= i < s.len() ==> is_digit(#[trigger] s[i])
}

/// The number denoted by the digit string `s`, most significant digit first.
pub open spec fn digits_value(s: Seq<char>) -> int
    decreases s.len(),
{
    if s.len() == 0 {
        0
    } else {
        digits_value(s.drop_last()) * 10 + digit_val(s.last())
    }
}

/// The single-line-token grammar: what parsing the token `s` yields.
///
/// A digit string whose value does not fit in `usize` is rejected exactly as
/// a malformed token is.
pub open spec fn parse_line_address(s: Seq<char>) -> Result<OptionalLine, Error> {
    if s.len() == 0 {
        Ok(OptionalLine(None))
    } else if s.len() == 1 && s[0] == '.' {
        Ok(OptionalLine(Some(Line::Current)))
    } else if s.len() == 1 && s[0] == '$' {
        Ok(OptionalLine(Some(Line::Last)))
    } else if all_digits(s) {
        if digits_value(s) <= usize::MAX {
            Ok(OptionalLine(Some(Line::Idx(digits_value(s) as usize))))
        } else {
            Err(Error::InvalidAddress)
        }
    } else {
        Err(Error::InvalidAddress)
    }
}

/// Whether `c` separates the line tokens of a range.
pub open spec fn is_sep(c: char) -> bool {
    c == ',' || c == ';'
}

/// The left-to-right scan of a range's text.
///
/// `tok` is the token read so far and `(w1, w2)` the two-slot window of the
/// last tokens successfully parsed. At a separator (and at the end of the
/// input) the pending token is parsed: a parsed line shifts the window, an
/// empty token leaves it untouched, and a failing token aborts the scan.
pub open spec fn range_scan(
    s: Seq<char>,
    tok: Seq<char>,
    w1: Option<Line>,
    w2: Option<Line>,
) -> Result<(Option<Line>, Option<Line>), Error>
    decreases s.len(),
{
    if s.len() == 0 {
        match parse_line_address(tok) {
            Ok(OptionalLine(None)) => Ok((w1, w2)),
            Ok(OptionalLine(Some(t))) => Ok((w2, Some(t))),
            Err(e) => Err(e),
        }
    } else if is_sep(s[0]) {
        match parse_line_address(tok) {
            Ok(OptionalLine(None)) => range_scan(s.subrange(1, s.len() as int), Seq::empty(), w1, w2),
            Ok(OptionalLine(Some(t))) => range_scan(
                s.subrange(1, s.len() as int),
                Seq::empty(),
                w2,
                Some(t),
            ),
            Err(e) => Err(e),
        }
    } else {
        range_scan(s.subrange(1, s.len() as int), tok.push(s[0]), w1, w2)
    }
}

/// The range grammar: what parsing the text `s` yields.
///
/// A lone `,` is shorthand for the whole buffer and a lone `;` for the span
/// from the current line to the last. Otherwise the text is scanned by
/// [`range_scan`]: no token means no address, one retained token `t` means
/// the span `(t, t)`, and two retained tokens give the span as written.
pub open spec fn parse_range(s: Seq<char>) -> Result<OptionalRange, Error> {
    if s.len() == 1 && s[0] == ',' {
        Ok(OptionalRange(Some(Range(Line::Idx(1), Line::Last))))
    } else if s.len() == 1 && s[0] == ';' {
        Ok(OptionalRange(Some(Range(Line::Current, Line::Last))))
    } else {
        match range_scan(s, Seq::empty(), None, None) {
            Ok((None, None)) => Ok(OptionalRange(None)),
            Ok((None, Some(t))) => Ok(OptionalRange(Some(Range(t, t)))),
            Ok((Some(a), None)) => Ok(OptionalRange(Some(Range(a, a)))),
            Ok((Some(a), Some(b))) => Ok(OptionalRange(Some(Range(a, b)))),
            Err(e) => Err(e),
        }
    }
}

/// A trailing separator only adds an empty token, which evicts nothing from
/// the window of retained addresses.
proof fn lemma_range_scan_trailing_sep(
    s: Seq<char>,
    tok: Seq<char>,
    w1: Option<Line>,
    w2: Option<Line>,
    c: char,
)
    requires
        is_sep(c),
    ensures
        range_scan(s.push(c), tok, w1, w2) == range_scan(s, tok, w1, w2),
    decreases s.len(),
{
    reveal_with_fuel(range_scan, 3);
    let ext = s.push(c);
    if s.len() == 0 {
        assert(ext.subrange(1, ext.len() as int) =~= Seq::<char>::empty());
        assert(Seq::<char>::empty().push(ext[0]) =~= seq![c]);
    } else {
        assert(ext[0] == s[0]);
        assert(ext.subrange(1, ext.len() as int) =~= s.subrange(1, s.len() as int).push(c));
        if is_sep(s[0]) {
            lemma_range_scan_trailing_sep(s.subrange(1, s.len() as int), Seq::empty(), w1, w2, c);
            match parse_line_address(tok) {
                Ok(OptionalLine(None)) => {},
                Ok(OptionalLine(Some(t))) => {
                    lemma_range_scan_trailing_sep(
                        s.subrange(1, s.len() as int),
                        Seq::empty(),
                        w2,
                        Some(t),
                        c,
                    );
                },
                Err(_) => {},
            }
        } else {
            lemma_range_scan_trailing_sep(s.subrange(1, s.len() as int), tok.push(s[0]), w1, w2, c);
        }
    }
}

/// Law: a trailing `,` or `;` at the end of a range adds only an empty
/// token, which never evicts a retained address: for any text other than the
/// empty one and the lone-separator shorthands, the text followed by a
/// separator parses exactly as the text alone does.
pub proof fn lemma_trailing_separator_is_ignored(s: Seq<char>, c: char)
    requires
        is_sep(c),
        s.len() >= 1,
        !(s.len() == 1 && is_sep(s[0])),
    ensures
        parse_range(s.push(c)) == parse_range(s),
{
    lemma_range_scan_trailing_sep(s, Seq::empty(), None, None, c);
    assert(s.push(c)[0] == s[0]);
}

/// The value of a digit string never shrinks as digits are appended.
proof fn lemma_digits_value_prefix(s: Seq<char>, i: int)
    requires
        all_digits(s),
        0 <= i <= s.len(),
    ensures
        digits_value(s.subrange(0, i)) <= digits_value(s),
        digits_value(s) >= 0,
    decreases s.len(),
{
    if s.len() == 0 {
        assert(s.subrange(0, i) =~= s);
    } else {
        let head = s.drop_last();
        assert(all_digits(head));
        lemma_digits_value_prefix(head, if i <= head.len() { i } else { head.len() as int });
        assert(is_digit(s[s.len() - 1]));
        assert(digit_val(s.last()) >= 0);
        assert(digits_value(s) >= digits_value(head));
        if i <= head.len() {
            assert(s.subrange(0, i) =~= head.subrange(0, i));
        } else {
            assert(s.subrange(0, i) =~= s);
        }
    }
}

impl OptionalLine {
    /// Parse a single line token.
    pub fn from_str(s: &str) -> (r: Result<OptionalLine, Error>)
        ensures
            r == parse_line_address(s@),
    {
        let n = s.unicode_len();
        if n == 0 {
            return Ok(OptionalLine(None));
        }
        if n == 1 {
            let c = s.get_char(0);
            if c == '.' {
                return Ok(OptionalLine(Some(Line::Current)));
            }
            if c == '$' {
                return Ok(OptionalLine(Some(Line::Last)));
            }
        }
        let mut acc: usize = 0;
        let mut i: usize = 0;
        while i < n
            invariant
                n == s@.len(),
                0 <= i <= n,
                n >= 1,
                all_digits(s@.subrange(0, i as int)),
                acc == digits_value(s@.subrange(0, i as int)),
                parse_line_address(s@) == (if all_digits(s@) {
                    if digits_value(s@) <= usize::MAX {
                        Ok::<OptionalLine, Error>(
                            OptionalLine(Some(Line::Idx(digits_value(s@) as usize))),
                        )
                    } else {
                        Err::<OptionalLine, Error>(Error::InvalidAddress)
                    }
                } else {
                    Err::<OptionalLine, Error>(Error::InvalidAddress)
                }),
            decreases n - i,
        {
            let c = s.get_char(i);
            let u = c as u32;
            if u < 48 || u > 57 {
                assert(!is_digit(s@[i as int]));
                assert(!all_digits(s@));
                return Err(Error::InvalidAddress);
            }
            let d: usize = (u - 48) as usize;
            proof {
                assert(s@.subrange(0, i + 1).drop_last() =~= s@.subrange(0, i as int));
                assert(s@.subrange(0, i + 1).last() == s@[i as int]);
                assert(digits_value(s@.subrange(0, i + 1)) == acc * 10 + digit_val(s@[i as int]));
            }
            let shifted: usize = match acc.checked_mul(10) {
                Some(v) => v,
                None => {
                    proof {
                        lemma_overflow_means_invalid(s@, i as int, acc);
                    }
                    return Err(Error::InvalidAddress);
                },
            };
            acc = match shifted.checked_add(d) {
                Some(v) => v,
                None => {
                    proof {
                        lemma_overflow_means_invalid(s@, i as int, acc);
                    }
                    return Err(Error::InvalidAddress);
                },
            };
            i = i + 1;
        }
        proof {
            assert(s@.subrange(0, n as int) =~= s@);
        }
        Ok(OptionalLine(Some(Line::Idx(acc))))
    }
}

impl OptionalRange {
    /// Parse a range: line tokens separated by `,` or `;`, of which the last
    /// two parsed win, with the lone separators as shorthands.
    pub fn from_str(s: &str) -> (r: Result<OptionalRange, Error>)
        ensures
            r == parse_range(s@),
    {
        let n = s.unicode_len();
        if n == 1 {
            let c = s.get_char(0);
            if c == ',' {
                return Ok(OptionalRange(Some(Range(Line::Idx(1), Line::Last))));
            }
            if c == ';' {
                return Ok(OptionalRange(Some(Range(Line::Current, Line::Last))));
            }
        }
        let mut w1: Option<Line> = None;
        let mut w2: Option<Line> = None;
        let mut start: usize = 0;
        let mut i: usize = 0;
        proof {
            assert(s@.subrange(0, 0) =~= Seq::<char>::empty());
            assert(s@.subrange(0, n as int) =~= s@);
        }
        while i < n
            invariant
                n == s@.len(),
                0 <= start <= i <= n,
                !(n == 1 && is_sep(s@[0])),
                range_scan(
                    s@.subrange(i as int, n as int),
                    s@.subrange(start as int, i as int),
                    w1,
                    w2,
                ) == range_scan(s@, Seq::<char>::empty(), None, None),
            decreases n - i,
        {
            let ghost rest = s@.subrange(i as int, n as int);
            let ghost tok_view = s@.subrange(start as int, i as int);
            proof {
                assert(rest[0] == s@[i as int]);
                assert(rest.subrange(1, rest.len() as int) =~= s@.subrange(i + 1, n as int));
            }
            let c = s.get_char(i);
            if c == ',' || c == ';' {
                let tok = s.substring_char(start, i);
                let parsed = match OptionalLine::from_str(tok) {
                    Ok(ol) => ol,
                    Err(e) => {
                        return Err(e);
                    },
                };
                proof {
                    assert(s@.subrange(i + 1, i + 1) =~= Seq::<char>::empty());
                }
                match parsed.0 {
                    None => {},
                    Some(t) => {
                        w1 = w2;
                        w2 = Some(t);
                    },
                }
                start = i + 1;
            } else {
                proof {
                    assert(tok_view.push(s@[i as int]) =~= s@.subrange(start as int, i + 1));
                }
            }
            i = i + 1;
        }
        proof {
            assert(s@.subrange(n as int, n as int) =~= Seq::<char>::empty());
        }
        let tok = s.substring_char(start, n);
        let parsed = match OptionalLine::from_str(tok) {
            Ok(ol) => ol,
            Err(e) => {
                return Err(e);
            },
        };
        match parsed.0 {
            None => {},
            Some(t) => {
                w1 = w2;
                w2 = Some(t);
            },
        }
        match (w1, w2) {
            (None, None) => Ok(OptionalRange(None)),
            (None, Some(t)) => Ok(OptionalRange(Some(Range(t, t)))),
            (Some(a), None) => Ok(OptionalRange(Some(Range(a, a)))),
            (Some(a), Some(b)) => Ok(OptionalRange(Some(Range(a, b)))),
        }
    }
}

/// If appending one more digit to the prefix `s[..i]` overflows `usize`, the
/// whole token is rejected: either a later character is not a digit, or the
/// token's value itself exceeds `usize::MAX`.
proof fn lemma_overflow_means_invalid(s: Seq<char>, i: int, acc: usize)
    requires
        0 <= i < s.len(),
        all_digits(s.subrange(0, i)),
        is_digit(s[i]),
        acc == digits_value(s.subrange(0, i)),
        acc * 10 + digit_val(s[i]) > usize::MAX,
    ensures
        all_digits(s) ==> digits_value(s) > usize::MAX,
{
    if all_digits(s) {
        assert(s.subrange(0, i + 1).drop_last() =~= s.subrange(0, i));
        assert(s.subrange(0, i + 1).last() == s[i]);
        assert(digits_value(s.subrange(0, i + 1)) == acc * 10 + digit_val(s[i]));
        lemma_digits_value_prefix(s, i + 1);
        assert(s.subrange(0, s.len() as int) =~= s);
        assert(digits_value(s.subrange(0, i + 1)) <= digits_value(s));
    }
}

} // verus!

