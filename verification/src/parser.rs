//! The executable parser. Every function mirrors one grammar rule and is
//! proved to return exactly what that rule yields on the input's view.

use vstd::prelude::*;

verus! {

use crate::grammar::comment_end;
use crate::grammar::content_run_end;
use crate::grammar::directive_at;
use crate::grammar::empty_line_end;
use crate::grammar::kept_seq;
use crate::grammar::lemma_line_at_advances;
use crate::grammar::lemma_parse_from_bounds;
use crate::grammar::line_at;
use crate::grammar::location_at;
use crate::grammar::name_run_end;
use crate::grammar::parse_from;
use crate::grammar::preamble_end;
use crate::grammar::space_run_end;
use crate::grammar::terminator_end;
use crate::grammar::LineModel;

/// One kept playlist line: a media location's raw text, or a directive's name
/// (the leading `#` stripped) and optional parameter text (the remainder of
/// the line after a `:`). Both borrow from the parsed input.
#[derive(Debug, Clone, Copy, PartialEq, Eq)]
pub enum M3uLine<'a> {
    Location(&'a str),
    Directive(&'a str, Option<&'a str>),
}

impl<'a> View for M3uLine<'a> {
    type V = LineModel;

    open spec fn view(&self) -> LineModel {
        match *self {
            M3uLine::Location(t) => LineModel::Location(t@),
            M3uLine::Directive(n, p) => LineModel::Directive(
                n@,
                match p {
                    Some(q) => Some(q@),
                    None => None,
                },
            ),
        }
    }
}

/// The model of an optional kept record.
pub open spec fn kept_view<'a>(kept: Option<M3uLine<'a>>) -> Option<LineModel> {
    match kept {
        Some(l) => Some(l@),
        None => None,
    }
}

/// The models of a sequence of records, in order.
pub open spec fn records_view<'a>(records: Seq<M3uLine<'a>>) -> Seq<LineModel> {
    records.map_values(|l: M3uLine<'a>| l@)
}

/// Skips the horizontal-whitespace run starting at `pos`.
fn skip_spaces(input: &str, pos: usize) -> (r: usize)
    requires
        pos <= input@.len(),
    ensures
        r == space_run_end(input@, pos as int),
        pos <= r <= input@.len(),
{
    let n = input.unicode_len();
    let mut k = pos;
    while k < n && (input.get_char(k) == ' ' || input.get_char(k) == '\t')
        invariant
            pos <= k <= n,
            n == input@.len(),
            space_run_end(input@, pos as int) == space_run_end(input@, k as int),
        decreases n - k,
    {
        k = k + 1;
    }
    k
}

/// End of the directive-name run starting at `pos`.
fn scan_name(input: &str, pos: usize) -> (r: usize)
    requires
        pos <= input@.len(),
    ensures
        r == name_run_end(input@, pos as int),
        pos <= r <= input@.len(),
{
    let n = input.unicode_len();
    let mut k = pos;
    while k < n && (('A' <= input.get_char(k) && input.get_char(k) <= 'Z') || ('0' <= input.get_char(
        k,
    ) && input.get_char(k) <= '9') || input.get_char(k) == '-')
        invariant
            pos <= k <= n,
            n == input@.len(),
            name_run_end(input@, pos as int) == name_run_end(input@, k as int),
        decreases n - k,
    {
        k = k + 1;
    }
    k
}

/// End of the run of line content (anything but a line break) starting at `pos`.
fn scan_content(input: &str, pos: usize) -> (r: usize)
    requires
        pos <= input@.len(),
    ensures
        r == content_run_end(input@, pos as int),
        pos <= r <= input@.len(),
{
    let n = input.unicode_len();
    let mut k = pos;
    while k < n && input.get_char(k) != '\n' && input.get_char(k) != '\r'
        invariant
            pos <= k <= n,
            n == input@.len(),
            content_run_end(input@, pos as int) == content_run_end(input@, k as int),
        decreases n - k,
    {
        k = k + 1;
    }
    k
}

/// Matches a line terminator at `pos`: end of input, a linefeed, or a
/// carriage-return/linefeed pair. Returns the position just past it.
pub fn terminator(input: &str, pos: usize) -> (r: Option<usize>)
    requires
        pos <= input@.len(),
    ensures
        match r {
            Some(e) => terminator_end(input@, pos as int) == Some(e as int),
            None => terminator_end(input@, pos as int) is None,
        },
{
    let n = input.unicode_len();
    if pos == n {
        Some(pos)
    } else {
        let c = input.get_char(pos);
        if c == '\n' {
            Some(pos + 1)
        } else if c == '\r' && pos + 1 < n && input.get_char(pos + 1) == '\n' {
            Some(pos + 2)
        } else {
            None
        }
    }
}

/// Matches a blank line at `pos`: a line break with no content before it.
pub fn empty_line(input: &str, pos: usize) -> (r: Option<usize>)
    requires
        pos <= input@.len(),
    ensures
        match r {
            Some(e) => empty_line_end(input@, pos as int) == Some(e as int),
            None => empty_line_end(input@, pos as int) is None,
        },
{
    let n = input.unicode_len();
    if pos < n {
        let c = input.get_char(pos);
        if c == '\n' {
            Some(pos + 1)
        } else if c == '\r' && pos + 1 < n && input.get_char(pos + 1) == '\n' {
            Some(pos + 2)
        } else {
            None
        }
    } else {
        None
    }
}

/// Matches `#` followed by one or more directive-name characters at `pos`.
/// Returns the position just past the name and the name itself.
pub fn directive_preamble<'a>(input: &'a str, pos: usize) -> (r: Option<(usize, &'a str)>)
    requires
        pos <= input@.len(),
    ensures
        match r {
            Some((e, name)) => preamble_end(input@, pos as int) == Some(e as int) && e
                <= input@.len() && name@ == input@.subrange(pos as int + 1, e as int),
            None => preamble_end(input@, pos as int) is None,
        },
{
    let n = input.unicode_len();
    if pos < n && input.get_char(pos) == '#' {
        let ne = scan_name(input, pos + 1);
        if ne > pos + 1 {
            Some((ne, input.substring_char(pos + 1, ne)))
        } else {
            None
        }
    } else {
        None
    }
}

/// Matches a full directive line at `pos`: preamble, optional `:`-prefixed
/// parameter text (possibly empty), then a terminator.
pub fn directive<'a>(input: &'a str, pos: usize) -> (r: Option<(usize, M3uLine<'a>)>)
    requires
        pos <= input@.len(),
    ensures
        match r {
            Some((e, line)) => directive_at(input@, pos as int) == Some((e as int, line@)),
            None => directive_at(input@, pos as int) is None,
        },
{
    let n = input.unicode_len();
    match directive_preamble(input, pos) {
        None => None,
        Some((ne, name)) => {
            if ne < n && input.get_char(ne) == ':' {
                let ce = scan_content(input, ne + 1);
                match terminator(input, ce) {
                    None => None,
                    Some(e) => {
                        let params = input.substring_char(ne + 1, ce);
                        Some((e, M3uLine::Directive(name, Some(params))))
                    },
                }
            } else {
                match terminator(input, ne) {
                    None => None,
                    Some(e) => Some((e, M3uLine::Directive(name, None))),
                }
            }
        },
    }
}

/// Matches a comment line at `pos`: `#`, then anything up to the terminator.
/// Produces no record; returns the position past the terminator.
pub fn comment(input: &str, pos: usize) -> (r: Option<usize>)
    requires
        pos <= input@.len(),
    ensures
        match r {
            Some(e) => comment_end(input@, pos as int) == Some(e as int),
            None => comment_end(input@, pos as int) is None,
        },
{
    let n = input.unicode_len();
    if pos < n && input.get_char(pos) == '#' {
        let ce = scan_content(input, pos + 1);
        terminator(input, ce)
    } else {
        None
    }
}

/// Matches a location line at `pos`: one or more characters that are not line
/// breaks, then a terminator.
pub fn location<'a>(input: &'a str, pos: usize) -> (r: Option<(usize, M3uLine<'a>)>)
    requires
        pos <= input@.len(),
    ensures
        match r {
            Some((e, line)) => location_at(input@, pos as int) == Some((e as int, line@)),
            None => location_at(input@, pos as int) is None,
        },
{
    let ce = scan_content(input, pos);
    if ce > pos {
        match terminator(input, ce) {
            None => None,
            Some(e) => Some((e, M3uLine::Location(input.substring_char(pos, ce)))),
        }
    } else {
        None
    }
}

/// Classifies one line at `pos`: strips leading horizontal whitespace, then
/// tries, in this order, blank line, directive, comment, location. Returns the
/// position past the line and the kept record, if the line produces one.
pub fn m3u_line<'a>(input: &'a str, pos: usize) -> (r: Option<(usize, Option<M3uLine<'a>>)>)
    requires
        pos <= input@.len(),
    ensures
        match r {
            Some((e, kept)) => line_at(input@, pos as int) == Some((e as int, kept_view(kept))),
            None => line_at(input@, pos as int) is None,
        },
{
    let j = skip_spaces(input, pos);
    match empty_line(input, j) {
        Some(e) => Some((e, None)),
        None => match directive(input, j) {
            Some((e, d)) => Some((e, Some(d))),
            None => match comment(input, j) {
                Some(e) => Some((e, None)),
                None => match location(input, j) {
                    Some((e, l)) => Some((e, Some(l))),
                    None => None,
                },
            },
        },
    }
}

/// Parses a playlist: repeatedly classifies lines from the start of the input,
/// collecting every kept record in input order, and stops where no line rule
/// matches. Returns the unconsumed remainder (empty when the whole input was
/// classified) and the records. A trailing fragment of horizontal whitespace
/// alone, with no line break after it, fits no line kind and is left in the
/// remainder; a caller that demands a fully classified input must check that
/// the remainder is empty.
pub fn parse<'a>(input: &'a str) -> (r: (&'a str, Vec<M3uLine<'a>>))
    ensures
        ({
            let folded = parse_from(input@, 0);
            &&& 0 <= folded.0 <= input@.len()
            &&& r.0@ == input@.subrange(folded.0, input@.len() as int)
            &&& records_view(r.1@) == folded.1
            &&& r.1@.len() == folded.1.len()
        }),
{
    let ghost s = input@;
    let n = input.unicode_len();
    let mut pos: usize = 0;
    let mut records: Vec<M3uLine<'a>> = Vec::new();
    loop
        invariant
            pos <= n,
            n == s.len(),
            s == input@,
            parse_from(s, 0).0 == parse_from(s, pos as int).0,
            parse_from(s, 0).1 == records_view(records@) + parse_from(s, pos as int).1,
        ensures
            pos <= n,
            n == s.len(),
            line_at(s, pos as int) is None,
            parse_from(s, 0).0 == parse_from(s, pos as int).0,
            parse_from(s, 0).1 == records_view(records@) + parse_from(s, pos as int).1,
        decreases n - pos,
    {
        match m3u_line(input, pos) {
            None => {
                break;
            },
            Some((e, kept)) => {
                proof {
                    lemma_line_at_advances(s, pos as int);
                }
                let ghost old_records = records@;
                match kept {
                    Some(l) => records.push(l),
                    None => {},
                }
                proof {
                    assert(records_view(records@) =~= records_view(old_records) + kept_seq(
                        kept_view(kept),
                    ));
                    assert(records_view(old_records) + kept_seq(kept_view(kept)) + parse_from(
                        s,
                        e as int,
                    ).1 =~= records_view(old_records) + (kept_seq(kept_view(kept)) + parse_from(
                        s,
                        e as int,
                    ).1));
                }
                pos = e;
            },
        }
    }
    proof {
        lemma_parse_from_bounds(s, 0);
        assert(parse_from(s, pos as int) == (pos as int, Seq::<LineModel>::empty()));
        assert(records_view(records@) + Seq::<LineModel>::empty() =~= records_view(records@));
    }
    let rem = input.substring_char(pos, n);
    (rem, records)
}

} // verus!
