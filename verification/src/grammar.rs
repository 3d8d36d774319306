//! The line grammar as a mathematical model: spec functions over the input
//! viewed as a sequence of characters, with positions into that sequence.
//!
//! Each rule either fails at a position or reports the position just past what
//! it matched, together with the record it produces, if any. The executable
//! parser's contracts are stated against these functions.

use vstd::prelude::*;

verus! {

use crate::is_break_char;
use crate::is_name_char;
use crate::is_space_char;

/// The mathematical value of one kept playlist line: a media location's raw
/// text, or a directive's name (without the `#`) and optional parameter text
/// (the remainder of the line after a `:`, absent when no `:` followed the name).
pub enum LineModel {
    Location(Seq<char>),
    Directive(Seq<char>, Option<Seq<char>>),
}

/// End of the maximal run of characters satisfying `pred` that starts at `i`:
/// the first position at or after `i` whose character fails `pred`, or the end
/// of the input.
pub open spec fn run_end(s: Seq<char>, i: int, pred: spec_fn(char) -> bool) -> int
    recommends
        0 <= i <= s.len(),
    decreases s.len() - i,
{
    if i < s.len() && pred(s[i]) {
        run_end(s, i + 1, pred)
    } else {
        i
    }
}

/// End of the horizontal-whitespace run starting at `i`.
pub open spec fn space_run_end(s: Seq<char>, i: int) -> int {
    run_end(s, i, |c: char| is_space_char(c))
}

/// End of the directive-name run starting at `i`.
pub open spec fn name_run_end(s: Seq<char>, i: int) -> int {
    run_end(s, i, |c: char| is_name_char(c))
}

/// End of the run of line content (anything but a line break) starting at `i`.
pub open spec fn content_run_end(s: Seq<char>, i: int) -> int {
    run_end(s, i, |c: char| !is_break_char(c))
}

/// A line terminator at `i`: end of input (width zero), a linefeed, or a
/// carriage-return/linefeed pair. Yields the position just past it.
pub open spec fn terminator_end(s: Seq<char>, i: int) -> Option<int>
    recommends
        0 <= i <= s.len(),
{
    if i == s.len() {
        Some(i)
    } else if s[i] == '\n' {
        Some(i + 1)
    } else if s[i] == '\r' && i + 1 < s.len() && s[i + 1] == '\n' {
        Some(i + 2)
    } else {
        None
    }
}

/// A blank line at `i`: a line break with no content before it. End of input
/// alone does not match, so this rule always consumes at least one character.
pub open spec fn empty_line_end(s: Seq<char>, i: int) -> Option<int>
    recommends
        0 <= i <= s.len(),
{
    if i < s.len() && s[i] == '\n' {
        Some(i + 1)
    } else if i + 1 < s.len() && s[i] == '\r' && s[i + 1] == '\n' {
        Some(i + 2)
    } else {
        None
    }
}

/// A directive preamble at `i`: `#` followed by one or more name characters.
/// Yields the position just past the name.
pub open spec fn preamble_end(s: Seq<char>, i: int) -> Option<int>
    recommends
        0 <= i <= s.len(),
{
    if i < s.len() && s[i] == '#' && name_run_end(s, i + 1) > i + 1 {
        Some(name_run_end(s, i + 1))
    } else {
        None
    }
}

/// A full directive line at `i`: preamble, then optionally a `:` followed by
/// parameter text (any characters but a line break; possibly empty), then a
/// terminator. Yields the position past the terminator and the record.
pub open spec fn directive_at(s: Seq<char>, i: int) -> Option<(int, LineModel)>
    recommends
        0 <= i <= s.len(),
{
    match preamble_end(s, i) {
        None => None,
        Some(ne) => {
            let name = s.subrange(i + 1, ne);
            if ne < s.len() && s[ne] == ':' {
                let ce = content_run_end(s, ne + 1);
                match terminator_end(s, ce) {
                    None => None,
                    Some(e) => Some(
                        (e, LineModel::Directive(name, Some(s.subrange(ne + 1, ce)))),
                    ),
                }
            } else {
                match terminator_end(s, ne) {
                    None => None,
                    Some(e) => Some((e, LineModel::Directive(name, None))),
                }
            }
        },
    }
}

/// A comment line at `i`: `#`, then any characters but a line break (possibly
/// none), then a terminator. Produces no record. Yields the position past the
/// terminator.
pub open spec fn comment_end(s: Seq<char>, i: int) -> Option<int>
    recommends
        0 <= i <= s.len(),
{
    if i < s.len() && s[i] == '#' {
        terminator_end(s, content_run_end(s, i + 1))
    } else {
        None
    }
}

/// A location line at `i`: one or more characters that are not line breaks,
/// then a terminator. Yields the position past the terminator and the record.
pub open spec fn location_at(s: Seq<char>, i: int) -> Option<(int, LineModel)>
    recommends
        0 <= i <= s.len(),
{
    let ce = content_run_end(s, i);
    if ce > i {
        match terminator_end(s, ce) {
            None => None,
            Some(e) => Some((e, LineModel::Location(s.subrange(i, ce)))),
        }
    } else {
        None
    }
}

/// One line at `i`: strip leading horizontal whitespace, then try, in this
/// order, blank line, directive, comment, location; the first rule that
/// matches wins. Yields the position past the line and the kept record, if
/// the line produces one.
pub open spec fn line_at(s: Seq<char>, i: int) -> Option<(int, Option<LineModel>)>
    recommends
        0 <= i <= s.len(),
{
    let j = space_run_end(s, i);
    match empty_line_end(s, j) {
        Some(e) => Some((e, None)),
        None => match directive_at(s, j) {
            Some((e, d)) => Some((e, Some(d))),
            None => match comment_end(s, j) {
                Some(e) => Some((e, None)),
                None => match location_at(s, j) {
                    Some((e, l)) => Some((e, Some(l))),
                    None => None,
                },
            },
        },
    }
}

/// The records an `Option` contributes to the output: one or none.
pub open spec fn kept_seq(kept: Option<LineModel>) -> Seq<LineModel> {
    match kept {
        Some(l) => seq![l],
        None => Seq::empty(),
    }
}

/// The fold of the line rule over the input from position `i`: the position
/// where classification stopped (the start of the unconsumed remainder) and
/// the kept records, in input order.
pub open spec fn parse_from(s: Seq<char>, i: int) -> (int, Seq<LineModel>)
    recommends
        0 <= i <= s.len(),
    decreases s.len() - i,
{
    match line_at(s, i) {
        None => (i, Seq::empty()),
        Some((e, kept)) => if i < e <= s.len() {
            let tail = parse_from(s, e);
            (tail.0, kept_seq(kept) + tail.1)
        } else {
            // never reached for 0 <= i <= s.len(): a matched line always
            // advances (lemma_line_at_advances); the guard serves termination
            (i, Seq::empty())
        },
    }
}

pub proof fn lemma_run_end(s: Seq<char>, i: int, pred: spec_fn(char) -> bool)
    ensures
        i <= run_end(s, i, pred),
        i <= s.len() ==> run_end(s, i, pred) <= s.len(),
        forall|k: int| i <= k < run_end(s, i, pred) ==> pred(s[k]),
        run_end(s, i, pred) < s.len() ==> !pred(s[run_end(s, i, pred)]),
    decreases s.len() - i,
{
    if i < s.len() && pred(s[i]) {
        lemma_run_end(s, i + 1, pred);
    }
}

/// A run whose every character satisfies `pred`, delimited on the right by the
/// end of input or a character that fails `pred`, is the maximal run.
pub proof fn lemma_run_end_is(s: Seq<char>, i: int, k: int, pred: spec_fn(char) -> bool)
    requires
        0 <= i <= k <= s.len(),
        forall|m: int| i <= m < k ==> pred(s[m]),
        k < s.len() ==> !pred(s[k]),
    ensures
        run_end(s, i, pred) == k,
    decreases k - i,
{
    if i < k {
        lemma_run_end_is(s, i + 1, k, pred);
    }
}

/// A matched line consumes at least one character and stays within the input.
pub proof fn lemma_line_at_advances(s: Seq<char>, i: int)
    requires
        0 <= i <= s.len(),
    ensures
        match line_at(s, i) {
            Some((e, _)) => i < e <= s.len(),
            None => true,
        },
{
    let j = space_run_end(s, i);
    lemma_run_end(s, i, |c: char| is_space_char(c));
    lemma_run_end(s, j + 1, |c: char| is_name_char(c));
    lemma_run_end(s, j + 1, |c: char| !is_break_char(c));
    lemma_run_end(s, j, |c: char| !is_break_char(c));
    if j < s.len() && s[j] == '#' && name_run_end(s, j + 1) > j + 1 {
        let ne = name_run_end(s, j + 1);
        if ne < s.len() && s[ne] == ':' {
            lemma_run_end(s, ne + 1, |c: char| !is_break_char(c));
        }
    }
}

/// Classification never stops before `i` nor past the end of the input.
pub proof fn lemma_parse_from_bounds(s: Seq<char>, i: int)
    requires
        0 <= i <= s.len(),
    ensures
        i <= parse_from(s, i).0 <= s.len(),
    decreases s.len() - i,
{
    lemma_line_at_advances(s, i);
    match line_at(s, i) {
        None => {},
        Some((e, kept)) => {
            lemma_parse_from_bounds(s, e);
        },
    }
}

} // verus!
