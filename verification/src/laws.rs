//! Laws of the grammar, stated over the model and proved once and for all:
//! what every kept record looks like, how blank input parses, and the round
//! trip between kept locations and their textual reconstruction.

use vstd::prelude::*;

verus! {

use crate::grammar::comment_end;
use crate::grammar::content_run_end;
use crate::grammar::directive_at;
use crate::grammar::empty_line_end;
use crate::grammar::kept_seq;
use crate::grammar::lemma_line_at_advances;
use crate::grammar::lemma_run_end;
use crate::grammar::lemma_run_end_is;
use crate::grammar::line_at;
use crate::grammar::location_at;
use crate::grammar::name_run_end;
use crate::grammar::parse_from;
use crate::grammar::preamble_end;
use crate::grammar::space_run_end;
use crate::grammar::terminator_end;
use crate::grammar::LineModel;
use crate::is_break_char;
use crate::is_name_char;
use crate::is_space_char;

/// What the grammar guarantees of every kept record. A location's text is
/// nonempty, never begins with the horizontal whitespace stripped at the start
/// of its line, never begins with `#`, and holds no line-break character; a
/// directive's name is nonempty and made of name characters only, and its
/// parameter text, when present, holds no line-break character.
pub open spec fn wf_line(l: LineModel) -> bool {
    match l {
        LineModel::Location(t) => {
            &&& t.len() > 0
            &&& !is_space_char(t[0])
            &&& t[0] != '#'
            &&& forall|k: int| 0 <= k < t.len() ==> !is_break_char(t[k])
        },
        LineModel::Directive(n, p) => {
            &&& n.len() > 0
            &&& (forall|k: int| 0 <= k < n.len() ==> is_name_char(n[k]))
            &&& match p {
                Some(q) => forall|k: int| 0 <= k < q.len() ==> !is_break_char(q[k]),
                None => true,
            }
        },
    }
}

/// Every record of the sequence is well formed.
pub open spec fn wf_records(lines: Seq<LineModel>) -> bool {
    forall|k: int| 0 <= k < lines.len() ==> wf_line(lines[k])
}

proof fn lemma_line_at_wf(s: Seq<char>, i: int)
    requires
        0 <= i <= s.len(),
    ensures
        match line_at(s, i) {
            Some((e, Some(l))) => wf_line(l),
            _ => true,
        },
{
    let j = space_run_end(s, i);
    lemma_run_end(s, i, |c: char| is_space_char(c));
    match line_at(s, i) {
        Some((e, Some(l))) => {
            if empty_line_end(s, j) is None && directive_at(s, j) is Some {
                let ne = name_run_end(s, j + 1);
                lemma_run_end(s, j + 1, |c: char| is_name_char(c));
                assert forall|k: int| 0 <= k < ne - (j + 1) implies is_name_char(
                    #[trigger] s.subrange(j + 1, ne)[k],
                ) by {}
                if ne < s.len() && s[ne] == ':' {
                    let ce = content_run_end(s, ne + 1);
                    lemma_run_end(s, ne + 1, |c: char| !is_break_char(c));
                    assert forall|k: int| 0 <= k < ce - (ne + 1) implies !is_break_char(
                        #[trigger] s.subrange(ne + 1, ce)[k],
                    ) by {}
                }
            } else if empty_line_end(s, j) is None && directive_at(s, j) is None && comment_end(
                s,
                j,
            ) is None {
                // the location rule matched
                let ce = content_run_end(s, j);
                lemma_run_end(s, j, |c: char| !is_break_char(c));
                assert(ce > j);
                assert(j < s.len());
                // a `#` line that the comment rule rejected cannot be a
                // location either: both end at the same content run, so they
                // need the same terminator
                if s[j] == '#' {
                    assert(content_run_end(s, j) == content_run_end(s, j + 1));
                    assert(location_at(s, j) is None);
                }
                assert forall|k: int| 0 <= k < ce - j implies !is_break_char(
                    #[trigger] s.subrange(j, ce)[k],
                ) by {}
            }
        },
        _ => {},
    }
}

proof fn lemma_parse_from_wf(s: Seq<char>, i: int)
    requires
        0 <= i <= s.len(),
    ensures
        wf_records(parse_from(s, i).1),
    decreases s.len() - i,
{
    lemma_line_at_advances(s, i);
    lemma_line_at_wf(s, i);
    match line_at(s, i) {
        None => {},
        Some((e, kept)) => {
            lemma_parse_from_wf(s, e);
            let head = kept_seq(kept);
            let tail = parse_from(s, e).1;
            assert forall|k: int| 0 <= k < (head + tail).len() implies wf_line(
                (head + tail)[k],
            ) by {
                if k >= head.len() {
                    assert(wf_line(tail[k - head.len()]));
                }
            }
        },
    }
}

/// No kept record holds what the grammar stripped or skipped: every record of
/// a parse is well formed in the sense of [`wf_line`]. In particular, the
/// horizontal whitespace stripped before a line never appears in a stored
/// span, no span holds a line-break character, and a directive's name holds
/// name characters only.
pub proof fn lemma_parse_records_well_formed(s: Seq<char>)
    ensures
        wf_records(parse_from(s, 0).1),
{
    lemma_parse_from_wf(s, 0);
}

/// The input from position `i` on consists only of blank lines: zero or more
/// lines, each of optional horizontal whitespace followed by a line break.
pub open spec fn blank_lines_only(s: Seq<char>, i: int) -> bool
    recommends
        0 <= i <= s.len(),
    decreases s.len() - i,
{
    i == s.len() || {
        let j = space_run_end(s, i);
        i <= j && match empty_line_end(s, j) {
            Some(e) => j < e <= s.len() && blank_lines_only(s, e),
            None => false,
        }
    }
}

/// No line rule matches at the end of the input.
proof fn lemma_line_at_end(s: Seq<char>)
    ensures
        line_at(s, s.len() as int) is None,
{
    let i = s.len() as int;
    lemma_run_end(s, i, |c: char| is_space_char(c));
    lemma_run_end(s, i, |c: char| !is_break_char(c));
    assert(space_run_end(s, i) == i);
    assert(content_run_end(s, i) == i);
}

proof fn lemma_blank_lines_parse_empty(s: Seq<char>, i: int)
    requires
        0 <= i <= s.len(),
        blank_lines_only(s, i),
    ensures
        parse_from(s, i) == (s.len() as int, Seq::<LineModel>::empty()),
    decreases s.len() - i,
{
    if i == s.len() {
        lemma_line_at_end(s);
    } else {
        let j = space_run_end(s, i);
        let e = match empty_line_end(s, j) {
            Some(e) => e,
            None => i,
        };
        assert(line_at(s, i) == Some((e, None::<LineModel>)));
        lemma_line_at_advances(s, i);
        lemma_blank_lines_parse_empty(s, e);
        assert(kept_seq(None) + Seq::<LineModel>::empty() =~= Seq::<LineModel>::empty());
    }
}

/// An input consisting only of blank lines (zero or more, each optionally
/// preceded by horizontal whitespace) parses to no records and no remainder.
pub proof fn lemma_blank_input_parses_empty(s: Seq<char>)
    requires
        blank_lines_only(s, 0),
    ensures
        parse_from(s, 0) == (s.len() as int, Seq::<LineModel>::empty()),
{
    lemma_blank_lines_parse_empty(s, 0);
}

/// The location records of a record sequence, in order.
pub open spec fn locations_of(lines: Seq<LineModel>) -> Seq<LineModel>
    decreases lines.len(),
{
    if lines.len() == 0 {
        Seq::empty()
    } else {
        let rest = locations_of(lines.drop_first());
        if lines[0] is Location {
            seq![lines[0]] + rest
        } else {
            rest
        }
    }
}

/// The textual reconstruction of a sequence of location records: each
/// record's text followed by a linefeed, concatenated in order.
pub open spec fn reconstruct(locs: Seq<LineModel>) -> Seq<char>
    decreases locs.len(),
{
    if locs.len() == 0 {
        Seq::empty()
    } else {
        (match locs[0] {
            LineModel::Location(t) => t,
            LineModel::Directive(_, _) => Seq::empty(),
        }) + seq!['\n'] + reconstruct(locs.drop_first())
    }
}

proof fn lemma_locations_of_wf(lines: Seq<LineModel>)
    requires
        wf_records(lines),
    ensures
        wf_records(locations_of(lines)),
        forall|k: int|
            0 <= k < locations_of(lines).len() ==> #[trigger] locations_of(lines)[k] is Location,
    decreases lines.len(),
{
    if lines.len() > 0 {
        assert(wf_records(lines.drop_first()));
        lemma_locations_of_wf(lines.drop_first());
    }
}

proof fn lemma_reconstruct_parses(locs: Seq<LineModel>, s: Seq<char>, i: int)
    requires
        0 <= i <= s.len(),
        s.subrange(i, s.len() as int) == reconstruct(locs),
        forall|k: int| 0 <= k < locs.len() ==> #[trigger] locs[k] is Location,
        wf_records(locs),
    ensures
        parse_from(s, i) == (s.len() as int, locs),
    decreases locs.len(),
{
    if locs.len() == 0 {
        assert(s.len() - i == reconstruct(locs).len());
        lemma_line_at_end(s);
        assert(locs =~= Seq::<LineModel>::empty());
    } else {
        let t = match locs[0] {
            LineModel::Location(t) => t,
            LineModel::Directive(_, _) => Seq::empty(),
        };
        let rest = locs.drop_first();
        let rec = reconstruct(locs);
        assert(wf_line(locs[0]));
        assert(s.len() - i == rec.len());
        assert forall|k: int| 0 <= k < rec.len() implies s[i + k] == rec[k] by {
            assert(s.subrange(i, s.len() as int)[k] == s[i + k]);
        }
        // the characters of the first line
        assert forall|k: int| 0 <= k < t.len() implies s[i + k] == t[k] by {
            assert(rec[k] == t[k]);
        }
        assert(rec[t.len() as int] == '\n');
        assert(s[i + t.len()] == '\n');
        let e = i + t.len() + 1;
        assert(e <= s.len());
        // leading whitespace: none to skip
        lemma_run_end_is(s, i, i, |c: char| is_space_char(c));
        assert(space_run_end(s, i) == i);
        // the first character is content, so the line is not blank, and it is
        // not `#`, so neither the directive nor the comment rule matches
        assert(s[i] == t[0]);
        assert(empty_line_end(s, i) is None);
        assert(preamble_end(s, i) is None);
        assert(directive_at(s, i) is None);
        assert(comment_end(s, i) is None);
        // the content run is exactly the first record's text
        assert forall|m: int| i <= m < i + t.len() implies !is_break_char(s[m]) by {
            assert(s[m] == t[m - i]);
            assert(!is_break_char(t[m - i]));
        }
        lemma_run_end_is(s, i, i + t.len(), |c: char| !is_break_char(c));
        assert(content_run_end(s, i) == i + t.len());
        assert(terminator_end(s, i + t.len()) == Some(e));
        assert(s.subrange(i, i + t.len()) =~= t);
        assert(location_at(s, i) == Some((e, LineModel::Location(t))));
        assert(line_at(s, i) == Some((e, Some(LineModel::Location(t)))));
        // the rest of the input is the reconstruction of the remaining records
        assert(s.subrange(e, s.len() as int) =~= reconstruct(rest)) by {
            assert forall|m: int| 0 <= m < s.len() - e implies s[e + m] == reconstruct(rest)[m] by {
                assert(rec[t.len() + 1 + m] == reconstruct(rest)[m]);
                assert(s[i + (t.len() + 1 + m)] == rec[t.len() + 1 + m]);
            }
        }
        assert(wf_records(rest));
        lemma_reconstruct_parses(rest, s, e);
        assert(kept_seq(Some(locs[0])) + rest =~= locs);
    }
}

/// Round trip of the kept locations: re-parsing the concatenation of every
/// kept location's text, each followed by a linefeed, yields exactly those
/// location records again, in the same order, with no remainder.
pub proof fn lemma_location_round_trip(s: Seq<char>)
    ensures
        ({
            let locs = locations_of(parse_from(s, 0).1);
            let rec = reconstruct(locs);
            parse_from(rec, 0) == (rec.len() as int, locs)
        }),
{
    let locs = locations_of(parse_from(s, 0).1);
    let rec = reconstruct(locs);
    lemma_parse_from_wf(s, 0);
    lemma_locations_of_wf(parse_from(s, 0).1);
    assert(rec.subrange(0, rec.len() as int) =~= rec);
    lemma_reconstruct_parses(locs, rec, 0);
}

} // verus!
