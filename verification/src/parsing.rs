//! The parser: raw authored text to a structured item.
//!
//! Marker syntax, fixed here: a blank is written `[alt1|alt2|...]` and a
//! choice `{opt1|opt2|...}`, with `|` separating alternatives. Everything
//! outside markers becomes text blocks. Malformed markers — one opened and
//! never closed, one holding an empty alternative, an opening delimiter
//! inside an unclosed marker — are all collected and reported together
//! with their character positions; the scan never stops at the first
//! error.
//!
//! The whole grammar is captured by the spec-level scanner below
//! (`step` / `scan_from`): `parse` returns `Ok` exactly when the scan of
//! its input finds no error, and its output equals the scan's output.
//! Parsing is a function of the input text alone, so it is deterministic.

use vstd::prelude::*;
use crate::blocks::{Block, BlockModel, ParsedItem, count_blanks};
use crate::blocks::lemma_counts_push;
use vstd::string::StringExecFns;

verus! {

/// A structured parse error, with the character position of the offence.
#[derive(Debug, Clone, Copy, PartialEq, Eq, Structural)]
pub enum ParseError {
    /// The marker opened at `start` never sees its closing delimiter.
    Unterminated { start: usize },
    /// The marker opened at `start` holds an empty alternative.
    EmptyAlternative { start: usize },
    /// An opening delimiter at `pos` inside an unclosed marker.
    NestedMarker { pos: usize },
}

/// Which marker a scan is inside of.
#[derive(Debug, Clone, Copy, PartialEq, Eq, Structural)]
pub enum MarkerKind {
    /// A `[...]` blank marker.
    Blank,
    /// A `{...}` choice marker.
    Choice,
}

/// Scanner position: outside any marker, or inside one with the
/// alternatives collected so far.
#[verifier::ext_equal]
pub ghost enum MarkerState {
    Outside,
    Inside { kind: MarkerKind, start: int, alts: Seq<Seq<char>>, cur: Seq<char> },
}

/// Full scanner state: finished blocks and answer sets, collected errors,
/// the pending text run, and the marker position.
#[verifier::ext_equal]
pub ghost struct Scan {
    pub blocks: Seq<BlockModel>,
    pub answers: Seq<Seq<Seq<char>>>,
    pub errors: Seq<ParseError>,
    pub text: Seq<char>,
    pub marker: MarkerState,
}

/// State the scan starts in.
pub open spec fn init_scan() -> Scan {
    Scan {
        blocks: Seq::empty(),
        answers: Seq::empty(),
        errors: Seq::empty(),
        text: Seq::empty(),
        marker: MarkerState::Outside,
    }
}

/// Turns a non-empty pending text run into a text block.
pub open spec fn flush_text(st: Scan) -> Scan {
    if st.text.len() > 0 {
        Scan { blocks: st.blocks.push(BlockModel::Text(st.text)), text: Seq::empty(), ..st }
    } else {
        st
    }
}

/// Whether `c` opens a marker.
pub open spec fn is_opener(c: char) -> bool {
    c == '[' || c == '{'
}

/// The kind of marker `c` opens.
pub open spec fn opener_kind(c: char) -> MarkerKind {
    if c == '[' {
        MarkerKind::Blank
    } else {
        MarkerKind::Choice
    }
}

/// The delimiter that closes a marker of kind `k`.
pub open spec fn closer(k: MarkerKind) -> char {
    if k is Blank {
        ']'
    } else {
        '}'
    }
}

/// Whether some collected alternative is empty.
pub open spec fn has_empty_alt(alts: Seq<Seq<char>>) -> bool {
    exists|j: int| 0 <= j < alts.len() && #[trigger] alts[j].len() == 0
}

/// Effect of the closing delimiter of the marker opened at `start`:
/// an error if some alternative is empty, else a blank with its answer
/// set or a choice block.
pub open spec fn close_marker(st: Scan, kind: MarkerKind, start: int, alts: Seq<Seq<char>>) -> Scan {
    if has_empty_alt(alts) {
        Scan {
            errors: st.errors.push(ParseError::EmptyAlternative { start: start as usize }),
            marker: MarkerState::Outside,
            ..st
        }
    } else if kind is Blank {
        Scan {
            blocks: st.blocks.push(BlockModel::Blank),
            answers: st.answers.push(alts),
            marker: MarkerState::Outside,
            ..st
        }
    } else {
        Scan {
            blocks: st.blocks.push(BlockModel::Choice(alts)),
            marker: MarkerState::Outside,
            ..st
        }
    }
}

/// One scanner step: the effect of the character `c` at position `pos`.
pub open spec fn step(st: Scan, c: char, pos: int) -> Scan {
    match st.marker {
        MarkerState::Outside => {
            if is_opener(c) {
                let f = flush_text(st);
                Scan {
                    marker: MarkerState::Inside {
                        kind: opener_kind(c),
                        start: pos,
                        alts: Seq::empty(),
                        cur: Seq::empty(),
                    },
                    ..f
                }
            } else {
                Scan { text: st.text.push(c), ..st }
            }
        },
        MarkerState::Inside { kind, start, alts, cur } => {
            if c == closer(kind) {
                close_marker(st, kind, start, alts.push(cur))
            } else if c == '|' {
                Scan {
                    marker: MarkerState::Inside {
                        kind: kind,
                        start: start,
                        alts: alts.push(cur),
                        cur: Seq::empty(),
                    },
                    ..st
                }
            } else if is_opener(c) {
                Scan {
                    errors: st.errors.push(ParseError::NestedMarker { pos: pos as usize }),
                    marker: MarkerState::Inside {
                        kind: kind,
                        start: start,
                        alts: alts,
                        cur: cur.push(c),
                    },
                    ..st
                }
            } else {
                Scan {
                    marker: MarkerState::Inside {
                        kind: kind,
                        start: start,
                        alts: alts,
                        cur: cur.push(c),
                    },
                    ..st
                }
            }
        },
    }
}

/// End of input: the pending text run becomes a block, an unclosed marker
/// an error.
pub open spec fn finish(st: Scan) -> Scan {
    let f = flush_text(st);
    match st.marker {
        MarkerState::Outside => f,
        MarkerState::Inside { start, .. } => Scan {
            errors: f.errors.push(ParseError::Unterminated { start: start as usize }),
            marker: MarkerState::Outside,
            ..f
        },
    }
}

/// The scan of `s` from position `i` onwards, started in state `st`.
pub open spec fn scan_from(s: Seq<char>, i: int, st: Scan) -> Scan
    decreases s.len() - i,
{
    if i >= s.len() {
        finish(st)
    } else {
        scan_from(s, i + 1, step(st, s[i], i))
    }
}

/// The complete scan of `s`.
pub open spec fn scan_text(s: Seq<char>) -> Scan {
    scan_from(s, 0, init_scan())
}

/// Structural validity kept by every scanner step: one answer set per
/// blank block, every set non-empty with non-empty alternatives.
pub open spec fn scan_wf(st: Scan) -> bool {
    &&& st.answers.len() == count_blanks(st.blocks)
    &&& forall|i: int| 0 <= i < st.answers.len() ==> #[trigger] st.answers[i].len() >= 1
    &&& forall|i: int, j: int|
        0 <= i < st.answers.len() && 0 <= j < st.answers[i].len()
            ==> #[trigger] st.answers[i][j].len() >= 1
}

proof fn lemma_flush_preserves_wf(st: Scan)
    requires
        scan_wf(st),
    ensures
        scan_wf(flush_text(st)),
{
    if st.text.len() > 0 {
        lemma_counts_push(st.blocks, BlockModel::Text(st.text));
    }
}

proof fn lemma_step_preserves_wf(st: Scan, c: char, pos: int)
    requires
        scan_wf(st),
    ensures
        scan_wf(step(st, c, pos)),
{
    lemma_flush_preserves_wf(st);
    match st.marker {
        MarkerState::Outside => {},
        MarkerState::Inside { kind, start, alts, cur } => {
            if c == closer(kind) {
                let alts2 = alts.push(cur);
                if !has_empty_alt(alts2) {
                    if kind is Blank {
                        lemma_counts_push(st.blocks, BlockModel::Blank);
                        assert(forall|j: int|
                            0 <= j < alts2.len() ==> #[trigger] alts2[j].len() >= 1);
                    } else {
                        lemma_counts_push(st.blocks, BlockModel::Choice(alts2));
                    }
                }
            }
        },
    }
}

proof fn lemma_finish_preserves_wf(st: Scan)
    requires
        scan_wf(st),
    ensures
        scan_wf(finish(st)),
{
    lemma_flush_preserves_wf(st);
}

proof fn lemma_scan_from_wf(s: Seq<char>, i: int, st: Scan)
    requires
        scan_wf(st),
    ensures
        scan_wf(scan_from(s, i, st)),
    decreases s.len() - i,
{
    if i >= s.len() {
        lemma_finish_preserves_wf(st);
    } else {
        lemma_step_preserves_wf(st, s[i], i);
        lemma_scan_from_wf(s, i + 1, step(st, s[i], i));
    }
}

/// For any raw text whose scan reports no error — in particular any text
/// whose markers are all well formed — parsing succeeds, and the number
/// of accepted-answer sets in the scan's output equals the number of
/// blank blocks it produced (`parse`'s contract then carries both over to
/// the returned item).
pub proof fn lemma_scan_counts(s: Seq<char>)
    ensures
        scan_text(s).answers.len() == count_blanks(scan_text(s).blocks),
{
    lemma_scan_from_wf(s, 0, init_scan());
}

/// For raw text whose scan produced no interactive block — no blank and
/// no choice marker — whatever `parse` returned has no interactive
/// element, so `TaskStore::insert` rejects it (its contract returns the
/// validation error and leaves the store unchanged exactly then).
pub proof fn lemma_no_interactive_markers_no_insertion(s: Seq<char>, item: ParsedItem)
    requires
        crate::blocks::count_interactive(scan_text(s).blocks) == 0,
        item.blocks.deep_view() == scan_text(s).blocks,
    ensures
        !item.spec_has_interactive(),
{
}

/// Pushing an alternative: the result holds an empty alternative exactly
/// when one was already there or the new one is empty.
proof fn lemma_has_empty_alt_push(alts: Seq<Seq<char>>, c: Seq<char>)
    ensures
        has_empty_alt(alts.push(c)) == (has_empty_alt(alts) || c.len() == 0),
{
    if has_empty_alt(alts) {
        let j = choose|j: int| 0 <= j < alts.len() && #[trigger] alts[j].len() == 0;
        assert(alts.push(c)[j].len() == 0);
    }
    if c.len() == 0 {
        assert(alts.push(c)[alts.len() as int].len() == 0);
    }
    if has_empty_alt(alts.push(c)) && c.len() != 0 {
        let j = choose|j: int| 0 <= j < alts.push(c).len() && #[trigger] alts.push(c)[j].len() == 0;
        assert(j < alts.len());
        assert(alts[j].len() == 0);
    }
}

/// Exec-side state of an open marker during parsing.
struct OpenMarker {
    kind: MarkerKind,
    start: usize,
    alts: Vec<String>,
    alt_start: usize,
    has_empty: bool,
}

/// Abstraction of the exec parser's locals into a scanner state: the
/// pending text run and the pending alternative are the slices of the
/// input that begin at the recorded positions.
spec fn abs_state(
    out_blocks: Vec<Block>,
    out_answers: Vec<Vec<String>>,
    errors: Vec<ParseError>,
    s: Seq<char>,
    text_start: int,
    i: int,
    marker: Option<OpenMarker>,
) -> Scan {
    Scan {
        blocks: out_blocks.deep_view(),
        answers: out_answers.deep_view(),
        errors: errors@,
        text: match marker {
            Option::None => s.subrange(text_start, i),
            Option::Some(_) => Seq::empty(),
        },
        marker: match marker {
            Option::None => MarkerState::Outside,
            Option::Some(om) => MarkerState::Inside {
                kind: om.kind,
                start: om.start as int,
                alts: om.alts.deep_view(),
                cur: s.subrange(om.alt_start as int, i),
            },
        },
    }
}

/// Parses raw authored text into blocks and accepted-answer sets, or the
/// full list of marker errors. The result is exactly what the spec-level
/// scan of the text yields: `Ok` if and only if the scan reports no
/// error.
pub fn parse(raw: &str) -> (r: Result<ParsedItem, Vec<ParseError>>)
    ensures
        ({
            let fin = scan_text(raw@);
            match r {
                Result::Ok(item) => {
                    &&& fin.errors.len() == 0
                    &&& item.blocks.deep_view() == fin.blocks
                    &&& item.answers.deep_view() == fin.answers
                    &&& item.wf()
                },
                Result::Err(errs) => {
                    &&& fin.errors.len() > 0
                    &&& errs@ == fin.errors
                },
            }
        }),
{
    let ghost s = raw@;
    let n: usize = raw.unicode_len();
    let mut out_blocks: Vec<Block> = Vec::new();
    let mut out_answers: Vec<Vec<String>> = Vec::new();
    let mut errors: Vec<ParseError> = Vec::new();
    let mut text_start: usize = 0;
    let mut marker: Option<OpenMarker> = Option::None;
    let mut i: usize = 0;
    proof {
        assert(abs_state(out_blocks, out_answers, errors, s, 0, 0, marker) =~~= init_scan());
    }
    while i < n
        invariant
            0 <= i <= n,
            n == s.len(),
            s == raw@,
            marker is None ==> text_start <= i,
            marker matches Option::Some(om) ==> om.alt_start <= i && om.has_empty == has_empty_alt(
                om.alts.deep_view(),
            ),
            scan_from(s, 0, init_scan()) == scan_from(
                s,
                i as int,
                abs_state(out_blocks, out_answers, errors, s, text_start as int, i as int, marker),
            ),
        decreases n - i,
    {
        let ghost prev = abs_state(
            out_blocks,
            out_answers,
            errors,
            s,
            text_start as int,
            i as int,
            marker,
        );
        let c: char = raw.get_char(i);
        let m = marker;
        match m {
            Option::None => {
                if c == '[' || c == '{' {
                    if text_start < i {
                        let run = raw.substring_char(text_start, i);
                        out_blocks.push(Block::Text(String::from_str(run)));
                    }
                    let kind = if c == '[' {
                        MarkerKind::Blank
                    } else {
                        MarkerKind::Choice
                    };
                    marker = Option::Some(
                        OpenMarker {
                            kind: kind,
                            start: i,
                            alts: Vec::new(),
                            alt_start: i + 1,
                            has_empty: false,
                        },
                    );
                } else {
                    marker = Option::None;
                }
            },
            Option::Some(om) => {
                let is_closer = match om.kind {
                    MarkerKind::Blank => c == ']',
                    MarkerKind::Choice => c == '}',
                };
                if is_closer {
                    proof {
                        lemma_has_empty_alt_push(
                            om.alts.deep_view(),
                            s.subrange(om.alt_start as int, i as int),
                        );
                    }
                    if om.has_empty || om.alt_start == i {
                        errors.push(ParseError::EmptyAlternative { start: om.start });
                        marker = Option::None;
                        text_start = i + 1;
                    } else {
                        let mut alts = om.alts;
                        let last = raw.substring_char(om.alt_start, i);
                        alts.push(String::from_str(last));
                        match om.kind {
                            MarkerKind::Blank => {
                                out_blocks.push(Block::Blank);
                                out_answers.push(alts);
                            },
                            MarkerKind::Choice => {
                                out_blocks.push(Block::Choice(alts));
                            },
                        }
                        marker = Option::None;
                        text_start = i + 1;
                    }
                } else if c == '|' {
                    proof {
                        lemma_has_empty_alt_push(
                            om.alts.deep_view(),
                            s.subrange(om.alt_start as int, i as int),
                        );
                    }
                    let mut alts = om.alts;
                    let done = raw.substring_char(om.alt_start, i);
                    let now_empty: bool = om.has_empty || om.alt_start == i;
                    alts.push(String::from_str(done));
                    marker = Option::Some(
                        OpenMarker {
                            kind: om.kind,
                            start: om.start,
                            alts: alts,
                            alt_start: i + 1,
                            has_empty: now_empty,
                        },
                    );
                } else if c == '[' || c == '{' {
                    errors.push(ParseError::NestedMarker { pos: i });
                    marker = Option::Some(om);
                } else {
                    marker = Option::Some(om);
                }
            },
        }
        proof {
            let next = abs_state(
                out_blocks,
                out_answers,
                errors,
                s,
                text_start as int,
                i as int + 1,
                marker,
            );
            assert(next =~~= step(prev, s[i as int], i as int));
        }
        i = i + 1;
    }
    let ghost last_st = abs_state(
        out_blocks,
        out_answers,
        errors,
        s,
        text_start as int,
        n as int,
        marker,
    );
    let m = marker;
    match m {
        Option::None => {
            if text_start < n {
                let run = raw.substring_char(text_start, n);
                out_blocks.push(Block::Text(String::from_str(run)));
            }
        },
        Option::Some(om) => {
            errors.push(ParseError::Unterminated { start: om.start });
        },
    }
    proof {
        assert(out_blocks.deep_view() =~~= finish(last_st).blocks);
        assert(out_answers.deep_view() =~~= finish(last_st).answers);
        assert(errors@ =~= finish(last_st).errors);
        lemma_scan_from_wf(s, 0, init_scan());
    }
    if errors.len() > 0 {
        Result::Err(errors)
    } else {
        let item = ParsedItem { blocks: out_blocks, answers: out_answers };
        Result::Ok(item)
    }
}

} // verus!
