//! What one line of a file means for a search.

use vstd::prelude::*;
use vstd::string::StrSliceExecFns;
use crate::model::Hit;
use crate::pattern::{CompiledPattern, PatternSpec};
use crate::text::{
    contains_nul, has_nul, line_body_len, make_snippet, snippet, strip_terminator, to_chars,
    MAX_LINE_CHARS,
};

verus! {

/// Whether a raw line is reported: it holds no NUL, is not longer than
/// `MAX_LINE_CHARS`, and without its terminator it matches.
pub open spec fn line_is_hit(pattern: PatternSpec, raw: Seq<char>) -> bool {
    &&& !has_nul(raw)
    &&& raw.len() <= MAX_LINE_CHARS
    &&& pattern.matches(strip_terminator(raw))
}

/// The hit that the raw line with the given number gives.
pub open spec fn hit_for(path: Seq<char>, number: int, raw: Seq<char>) -> Hit {
    Hit { path, line: number, content: snippet(strip_terminator(raw)) }
}

/// Whether one of the lines holds a NUL, so that the scan of the file ends
/// there.
pub open spec fn halts(lines: Seq<Seq<char>>) -> bool {
    exists|i: int| 0 <= i < lines.len() && has_nul(#[trigger] lines[i])
}

/// The hits of a file with the given raw lines, had it been scanned to its
/// end or to its first line with a NUL.
pub open spec fn file_hits(pattern: PatternSpec, path: Seq<char>, lines: Seq<Seq<char>>) -> Seq<
    Hit,
>
    decreases lines.len(),
{
    if lines.len() == 0 {
        Seq::empty()
    } else {
        let earlier = file_hits(pattern, path, lines.drop_last());
        if !halts(lines.drop_last()) && line_is_hit(pattern, lines.last()) {
            earlier.push(hit_for(path, lines.len() as int, lines.last()))
        } else {
            earlier
        }
    }
}

/// What a line means for the scan of its file.
#[derive(Debug, Clone, PartialEq, Eq)]
pub enum LineOutcome {
    /// The line holds a NUL: the file is binary and its scan ends.
    Binary,
    /// The line is too long to be matched.
    TooLong,
    /// The line does not match.
    Miss,
    /// The line matches; this is its snippet.
    Hit(String),
}

/// Examines one raw line, terminator included.
pub fn examine_line(pattern: &CompiledPattern, raw: &str) -> (outcome: LineOutcome)
    ensures
        outcome is Binary <==> has_nul(raw@),
        outcome is TooLong <==> !has_nul(raw@) && raw@.len() > MAX_LINE_CHARS,
        outcome is Hit <==> line_is_hit(pattern@, raw@),
        outcome matches LineOutcome::Hit(shown) ==> shown@ == snippet(strip_terminator(raw@)),
{
    let chars = to_chars(raw);
    if contains_nul(&chars) {
        return LineOutcome::Binary;
    }
    if chars.len() > MAX_LINE_CHARS {
        return LineOutcome::TooLong;
    }
    let n = line_body_len(&chars);
    let body = raw.substring_char(0, n);
    assert(body@ == strip_terminator(raw@));
    if pattern.is_match(body) {
        LineOutcome::Hit(make_snippet(&chars, 0, n))
    } else {
        LineOutcome::Miss
    }
}

/// The hits found in the first lines of a file are the first hits of the
/// file, and all of them where one of those lines holds a NUL.
pub proof fn lemma_file_hits_prefix(
    pattern: PatternSpec,
    path: Seq<char>,
    lines: Seq<Seq<char>>,
    i: int,
)
    requires
        0 <= i <= lines.len(),
    ensures
        file_hits(pattern, path, lines.take(i)).is_prefix_of(file_hits(pattern, path, lines)),
        halts(lines.take(i)) ==> file_hits(pattern, path, lines) == file_hits(
            pattern,
            path,
            lines.take(i),
        ),
    decreases lines.len() - i,
{
    if i == lines.len() {
        assert(lines.take(i) =~= lines);
    } else {
        let shorter = lines.drop_last();
        assert(shorter.take(i) =~= lines.take(i));
        lemma_file_hits_prefix(pattern, path, shorter, i);
        if halts(lines.take(i)) {
            let k = choose|k: int| 0 <= k < lines.take(i).len() && has_nul(#[trigger] lines.take(i)[k]);
            assert(shorter[k] == lines.take(i)[k]);
            assert(halts(shorter));
        }
    }
}

/// Line numbers are positive, at most the number of lines, and grow from one
/// hit to the next; every hit carries the path of the file.
pub proof fn lemma_file_hits_numbers(pattern: PatternSpec, path: Seq<char>, lines: Seq<Seq<char>>)
    ensures
        file_hits(pattern, path, lines).len() <= lines.len(),
        forall|k: int|
            0 <= k < file_hits(pattern, path, lines).len() ==> {
                &&& (#[trigger] file_hits(pattern, path, lines)[k]).path == path
                &&& 1 <= file_hits(pattern, path, lines)[k].line <= lines.len()
            },
        forall|j: int, k: int|
            0 <= j < k < file_hits(pattern, path, lines).len() ==> (#[trigger] file_hits(
                pattern,
                path,
                lines,
            )[j]).line < (#[trigger] file_hits(pattern, path, lines)[k]).line,
    decreases lines.len(),
{
    if lines.len() > 0 {
        lemma_file_hits_numbers(pattern, path, lines.drop_last());
    }
}

} // verus!
