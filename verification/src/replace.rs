//! Replacing: what a replacement does to one file, a session that is fed
//! what was found on disk, and the replacement in files held in memory.

use vstd::prelude::*;
use vstd::string::{StrSliceExecFns, StringExecFns};
use crate::budget::Capped;
use crate::error::SearchError;
use crate::ledger::{admissible, Ledger};
use crate::model::{
    file_views, outcomes_of, previews_of, writes_of, FileProbe, FileView, FileWrite, MatchPreview,
    Outcome, PreviewView, ProbeView, ReplaceRequest, ReplaceResult, SourceFile, WriteView,
    MAX_RESULTS,
};
use crate::pattern::{compile_pattern, CompiledPattern, PatternSpec};
use crate::text::{
    line_body_len, normalize_separators, push_char, raw_lines, split_raw_lines, strip_terminator,
    terminator, texts, to_chars, trim, trimmed, MAX_LINE_CHARS,
};

verus! {

/// A text with each dollar sign written twice. As a replacement it stands
/// for the text itself: the pattern engine reads `$$` as one dollar sign,
/// and nothing but a dollar sign begins a reference to a group.
pub open spec fn dollars_doubled(text: Seq<char>) -> Seq<char>
    decreases text.len(),
{
    if text.len() == 0 {
        Seq::empty()
    } else if text.last() == '$' {
        dollars_doubled(text.drop_last()).push('$').push('$')
    } else {
        dollars_doubled(text.drop_last()).push(text.last())
    }
}

/// The replacement as it is handed to the pattern engine: as it is for a
/// regex query, in which it may refer to groups, and with its dollar signs
/// doubled for a literal query, which has it put in as it stands.
pub open spec fn engine_replacement(replacement: Seq<char>, is_regex: bool) -> Seq<char> {
    if is_regex {
        replacement
    } else {
        dollars_doubled(replacement)
    }
}

/// Writes out the replacement as it is handed to the pattern engine.
pub fn prepare_replacement(replacement: &str, is_regex: bool) -> (prepared: String)
    ensures
        prepared@ == engine_replacement(replacement@, is_regex),
{
    if is_regex {
        return String::from_str(replacement);
    }
    let chars = to_chars(replacement);
    let mut prepared = String::new();
    let mut i: usize = 0;
    assert(chars@.take(0) =~= Seq::<char>::empty());
    while i < chars.len()
        invariant
            i <= chars.len(),
            chars@ == replacement@,
            prepared@ == dollars_doubled(chars@.take(i as int)),
        decreases chars.len() - i,
    {
        proof {
            assert(chars@.take(i + 1).drop_last() =~= chars@.take(i as int));
            assert(chars@.take(i + 1).last() == chars@[i as int]);
        }
        if chars[i] == '$' {
            push_char(&mut prepared, '$');
        }
        push_char(&mut prepared, chars[i]);
        i += 1;
    }
    assert(chars@.take(i as int) =~= chars@);
    prepared
}

/// Whether a raw line is replaced: it is not longer than `MAX_LINE_CHARS`,
/// and without its terminator it matches.
pub open spec fn line_is_replaced(pattern: PatternSpec, raw: Seq<char>) -> bool {
    raw.len() <= MAX_LINE_CHARS && pattern.matches(strip_terminator(raw))
}

/// A raw line without its terminator, after the replacement.
pub open spec fn replaced_body(pattern: PatternSpec, replacement: Seq<char>, raw: Seq<char>) -> Seq<
    char,
> {
    pattern.replace_all(strip_terminator(raw), replacement)
}

/// A raw line as it is after a real run: a line that is replaced becomes
/// its replaced body with its terminator, any other stays as it is.
pub open spec fn rewritten_line(pattern: PatternSpec, replacement: Seq<char>, raw: Seq<char>) -> Seq<
    char,
> {
    if line_is_replaced(pattern, raw) {
        replaced_body(pattern, replacement, raw) + terminator(raw)
    } else {
        raw
    }
}

/// The content that a real run gives to a file with the given raw lines:
/// one line after the other as it is after the run.
pub open spec fn rewritten_text(
    pattern: PatternSpec,
    replacement: Seq<char>,
    lines: Seq<Seq<char>>,
) -> Seq<char>
    decreases lines.len(),
{
    if lines.len() == 0 {
        Seq::empty()
    } else {
        rewritten_text(pattern, replacement, lines.drop_last()) + rewritten_line(
            pattern,
            replacement,
            lines.last(),
        )
    }
}

/// What a dry run shows of the raw line with the given number.
pub open spec fn preview_of(
    pattern: PatternSpec,
    replacement: Seq<char>,
    number: int,
    raw: Seq<char>,
) -> PreviewView {
    PreviewView {
        line: number,
        original: trim(strip_terminator(raw)),
        replacement: trim(replaced_body(pattern, replacement, raw)),
    }
}

/// The previews of the raw lines that are replaced; the first line has the
/// number 1.
pub open spec fn previews(pattern: PatternSpec, replacement: Seq<char>, lines: Seq<Seq<char>>) -> Seq<
    PreviewView,
>
    decreases lines.len(),
{
    if lines.len() == 0 {
        Seq::empty()
    } else {
        let earlier = previews(pattern, replacement, lines.drop_last());
        if line_is_replaced(pattern, lines.last()) {
            earlier.push(preview_of(pattern, replacement, lines.len() as int, lines.last()))
        } else {
            earlier
        }
    }
}

/// What is to be done about one file: the outcome to report, if any, and
/// the new content to write, if any.
#[verifier::ext_equal]
pub struct PlanView {
    pub outcome: Option<Outcome>,
    pub new_content: Option<Seq<char>>,
}

/// The plan for a file with the given content.
///
/// A file in which the pattern matches nowhere is left alone. A dry run
/// reports the lines that would be replaced, if there are any, and writes
/// nothing. A real run replaces line by line; it writes and reports only
/// where that changes the content.
pub open spec fn planned(
    pattern: PatternSpec,
    replacement: Seq<char>,
    dry_run: bool,
    path: Seq<char>,
    text: Seq<char>,
) -> PlanView {
    if !pattern.matches(text) {
        PlanView { outcome: None, new_content: None }
    } else if dry_run {
        let shown = previews(pattern, replacement, raw_lines(text));
        if shown.len() > 0 {
            PlanView {
                outcome: Some(Outcome { path, matches: shown, replaced_count: shown.len() as int }),
                new_content: None,
            }
        } else {
            PlanView { outcome: None, new_content: None }
        }
    } else {
        let content = rewritten_text(pattern, replacement, raw_lines(text));
        if content == text {
            PlanView { outcome: None, new_content: None }
        } else {
            PlanView {
                outcome: Some(Outcome { path, matches: Seq::empty(), replaced_count: 1 }),
                new_content: Some(content),
            }
        }
    }
}

/// What is to be done about one file.
#[derive(Debug, Clone, PartialEq, Eq)]
pub struct FilePlan {
    pub outcome: Option<ReplaceResult>,
    pub new_content: Option<String>,
}

impl View for FilePlan {
    type V = PlanView;

    open spec fn view(&self) -> PlanView {
        PlanView {
            outcome: match self.outcome {
                Some(outcome) => Some(outcome@),
                None => None,
            },
            new_content: match self.new_content {
                Some(content) => Some(content@),
                None => None,
            },
        }
    }
}

/// The previews of the lines of `text` that would be replaced.
pub fn preview_lines(pattern: &CompiledPattern, replacement: &str, text: &str) -> (shown: Vec<
    MatchPreview,
>)
    ensures
        previews_of(shown@) == previews(pattern@, replacement@, raw_lines(text@)),
{
    let raw = split_raw_lines(text);
    let ghost all = raw_lines(text@);
    let mut shown: Vec<MatchPreview> = Vec::new();
    let mut i: usize = 0;
    proof {
        assert(all.take(0) =~= Seq::<Seq<char>>::empty());
        assert(previews_of(shown@) =~= Seq::<PreviewView>::empty());
    }
    while i < raw.len()
        invariant
            i <= raw.len(),
            texts(raw@) == all,
            all.len() == raw.len(),
            previews_of(shown@) == previews(pattern@, replacement@, all.take(i as int)),
        decreases raw.len() - i,
    {
        let chars = to_chars(raw[i].as_str());
        let n = line_body_len(&chars);
        proof {
            assert(raw@[i as int]@ == all[i as int]);
            assert(all.take(i + 1).drop_last() =~= all.take(i as int));
            assert(all.take(i + 1).last() == all[i as int]);
        }
        if chars.len() <= MAX_LINE_CHARS {
            let line = raw[i].as_str().substring_char(0, n);
            assert(line@ == strip_terminator(all[i as int]));
            if pattern.is_match(line) {
                let replaced = pattern.replace_all(line, replacement);
                let replaced_chars = to_chars(replaced.as_str());
                let preview = MatchPreview {
                    line: i + 1,
                    original: trimmed(&chars, 0, n),
                    replacement: trimmed(&replaced_chars, 0, replaced_chars.len()),
                };
                proof {
                    assert(chars@.subrange(0, n as int) =~= line@);
                    assert(replaced_chars@.subrange(0, replaced_chars.len() as int) =~= replaced@);
                    assert(previews_of(shown@.push(preview)) =~= previews_of(shown@).push(
                        preview@,
                    ));
                }
                shown.push(preview);
            }
        }
        i += 1;
    }
    assert(all.take(i as int) =~= all);
    shown
}

/// The content of `text` after a real run.
pub fn rewrite_lines(pattern: &CompiledPattern, replacement: &str, text: &str) -> (content: String)
    ensures
        content@ == rewritten_text(pattern@, replacement@, raw_lines(text@)),
{
    let raw = split_raw_lines(text);
    let ghost all = raw_lines(text@);
    let mut content = String::new();
    let mut i: usize = 0;
    assert(all.take(0) =~= Seq::<Seq<char>>::empty());
    while i < raw.len()
        invariant
            i <= raw.len(),
            texts(raw@) == all,
            all.len() == raw.len(),
            content@ == rewritten_text(pattern@, replacement@, all.take(i as int)),
        decreases raw.len() - i,
    {
        let chars = to_chars(raw[i].as_str());
        let n = line_body_len(&chars);
        proof {
            assert(raw@[i as int]@ == all[i as int]);
            assert(all.take(i + 1).drop_last() =~= all.take(i as int));
            assert(all.take(i + 1).last() == all[i as int]);
        }
        let mut replaced = false;
        if chars.len() <= MAX_LINE_CHARS {
            let line = raw[i].as_str().substring_char(0, n);
            assert(line@ == strip_terminator(all[i as int]));
            if pattern.is_match(line) {
                let body = pattern.replace_all(line, replacement);
                let end = raw[i].as_str().substring_char(n, chars.len());
                assert(end@ =~= terminator(all[i as int]));
                content.append(body.as_str());
                content.append(end);
                replaced = true;
            }
        }
        if !replaced {
            content.append(raw[i].as_str());
        }
        i += 1;
    }
    assert(all.take(i as int) =~= all);
    content
}

/// Plans the replacement in one file with the given content.
pub fn plan_file(
    pattern: &CompiledPattern,
    replacement: &str,
    dry_run: bool,
    path: &str,
    text: &String,
) -> (plan: FilePlan)
    ensures
        plan@ == planned(pattern@, replacement@, dry_run, path@, text@),
{
    if !pattern.is_match(text.as_str()) {
        return FilePlan { outcome: None, new_content: None };
    }
    if dry_run {
        let shown = preview_lines(pattern, replacement, text.as_str());
        if shown.len() > 0 {
            let count = shown.len();
            FilePlan {
                outcome: Some(
                    ReplaceResult {
                        file_path: path.to_owned(),
                        matches: shown,
                        replaced_count: count,
                    },
                ),
                new_content: None,
            }
        } else {
            FilePlan { outcome: None, new_content: None }
        }
    } else {
        let content = rewrite_lines(pattern, replacement, text.as_str());
        if content == *text {
            FilePlan { outcome: None, new_content: None }
        } else {
            let outcome = ReplaceResult {
                file_path: path.to_owned(),
                matches: Vec::new(),
                replaced_count: 1,
            };
            assert(previews_of(outcome.matches@) =~= Seq::<PreviewView>::empty());
            FilePlan { outcome: Some(outcome), new_content: Some(content) }
        }
    }
}

/// The outcomes and the writes so far, and the normalized paths of the
/// files processed so far.
#[verifier::ext_equal]
pub struct ReplaceProgress {
    pub outcomes: Seq<Outcome>,
    pub writes: Seq<WriteView>,
    pub seen: Set<Seq<char>>,
}

/// What a replacement is to do with every file.
pub struct ReplaceSpec {
    pub pattern: PatternSpec,
    /// The replacement as the pattern engine reads it.
    pub replacement: Seq<char>,
    pub dry_run: bool,
    pub max_size: u64,
}

impl ReplaceRequest {
    pub open spec fn spec(&self) -> ReplaceSpec {
        ReplaceSpec {
            pattern: self.search.pattern(),
            replacement: engine_replacement(self.replacement@, self.search.is_regex),
            dry_run: self.dry_run,
            max_size: self.search.max_file_size,
        }
    }
}

/// Where the replacement stands after one more file.
pub open spec fn replace_one(task: ReplaceSpec, before: ReplaceProgress, file: FileView) -> ReplaceProgress {
    if before.outcomes.len() >= MAX_RESULTS || !admissible(before.seen, file.probe, task.max_size) {
        before
    } else {
        let seen = before.seen.insert(normalize_separators(file.probe.path));
        match file.text {
            Some(text) => {
                let plan = planned(
                    task.pattern,
                    task.replacement,
                    task.dry_run,
                    file.probe.path,
                    text,
                );
                ReplaceProgress {
                    outcomes: match plan.outcome {
                        Some(outcome) => before.outcomes.push(outcome),
                        None => before.outcomes,
                    },
                    writes: match plan.new_content {
                        Some(content) => before.writes.push(
                            WriteView { path: file.probe.path, content },
                        ),
                        None => before.writes,
                    },
                    seen,
                }
            },
            None => ReplaceProgress { seen, ..before },
        }
    }
}

/// Where the replacement stands after the given files, taken in order.
pub open spec fn replace_many(task: ReplaceSpec, start: ReplaceProgress, files: Seq<FileView>) -> ReplaceProgress
    decreases files.len(),
{
    if files.len() == 0 {
        start
    } else {
        replace_one(task, replace_many(task, start, files.drop_last()), files.last())
    }
}

/// What a whole replacement reports and writes: the walked tree first, if a
/// tree is walked, then the additional files.
pub open spec fn replace_outcome(
    task: ReplaceSpec,
    walks: bool,
    walked: Seq<FileView>,
    extras: Seq<FileView>,
) -> ReplaceProgress {
    let start = ReplaceProgress { outcomes: Seq::empty(), writes: Seq::empty(), seen: Set::empty() };
    let after_walk = if walks {
        replace_many(task, start, walked)
    } else {
        start
    };
    replace_many(task, after_walk, extras)
}

/// Once the budget is used up, further files change nothing.
pub proof fn lemma_full_replace_is_over(task: ReplaceSpec, start: ReplaceProgress, files: Seq<FileView>)
    requires
        start.outcomes.len() >= MAX_RESULTS,
    ensures
        replace_many(task, start, files) == start,
    decreases files.len(),
{
    if files.len() > 0 {
        lemma_full_replace_is_over(task, start, files.drop_last());
    }
}

/// Replacing in the first files and then in the rest is replacing in all.
pub proof fn lemma_replace_resumes(task: ReplaceSpec, start: ReplaceProgress, files: Seq<FileView>, i: int)
    requires
        0 <= i <= files.len(),
    ensures
        replace_many(task, start, files) == replace_many(
            task,
            replace_many(task, start, files.take(i)),
            files.skip(i),
        ),
    decreases files.len() - i,
{
    if i == files.len() {
        assert(files.take(i) =~= files);
        assert(files.skip(i) =~= Seq::<FileView>::empty());
    } else {
        let shorter = files.drop_last();
        assert(shorter.take(i) =~= files.take(i));
        assert(files.skip(i).drop_last() =~= shorter.skip(i));
        assert(files.skip(i).last() == files.last());
        lemma_replace_resumes(task, start, shorter, i);
    }
}

/// A replacement session as its caller sees it.
#[verifier::ext_equal]
pub struct ReplaceView {
    pub task: ReplaceSpec,
    pub seen: Set<Seq<char>>,
    pub outcomes: Seq<Outcome>,
    /// The path of the accepted file whose content is awaited, if any.
    pub pending: Option<Seq<char>>,
}

impl ReplaceView {
    /// Whether the result budget is used up.
    pub open spec fn full(self) -> bool {
        self.outcomes.len() >= MAX_RESULTS
    }

    pub open spec fn accepts(self, probe: ProbeView) -> bool {
        !self.full() && admissible(self.seen, probe, self.task.max_size)
    }

    /// The session once the probe was put to it: an accepted file is marked
    /// as seen and its content is awaited.
    pub open spec fn accept(self, probe: ProbeView) -> ReplaceView {
        if self.accepts(probe) {
            ReplaceView {
                seen: self.seen.insert(normalize_separators(probe.path)),
                pending: Some(probe.path),
                ..self
            }
        } else {
            ReplaceView { pending: None, ..self }
        }
    }

    /// The plan for the awaited file, given its content; nothing is to be
    /// done where no file is awaited or the budget is used up.
    pub open spec fn plan_for(self, text: Seq<char>) -> PlanView {
        match self.pending {
            Some(path) if !self.full() => planned(
                self.task.pattern,
                self.task.replacement,
                self.task.dry_run,
                path,
                text,
            ),
            _ => PlanView { outcome: None, new_content: None },
        }
    }

    /// The session once the content of the awaited file was handed in.
    pub open spec fn process(self, text: Seq<char>) -> ReplaceView {
        ReplaceView {
            outcomes: match self.plan_for(text).outcome {
                Some(outcome) => self.outcomes.push(outcome),
                None => self.outcomes,
            },
            pending: None,
            ..self
        }
    }

    /// The write that the content of the awaited file calls for.
    pub open spec fn write_for(self, text: Seq<char>) -> Option<WriteView> {
        match (self.pending, self.plan_for(text).new_content) {
            (Some(path), Some(content)) => Some(WriteView { path, content }),
            _ => None,
        }
    }
}

pub open spec fn write_view(write: Option<FileWrite>) -> Option<WriteView> {
    match write {
        Some(write) => Some(write@),
        None => None,
    }
}

/// The state of one replacement.
pub struct ReplaceSession {
    pattern: CompiledPattern,
    replacement: String,
    dry_run: bool,
    max_file_size: u64,
    seen: Ledger,
    results: Capped<ReplaceResult>,
    current: Option<String>,
}

impl View for ReplaceSession {
    type V = ReplaceView;

    closed spec fn view(&self) -> ReplaceView {
        ReplaceView {
            task: ReplaceSpec {
                pattern: self.pattern@,
                replacement: self.replacement@,
                dry_run: self.dry_run,
                max_size: self.max_file_size,
            },
            seen: self.seen@,
            outcomes: outcomes_of(self.results@),
            pending: match self.current {
                Some(path) => Some(path@),
                None => None,
            },
        }
    }
}

impl ReplaceSession {
    /// A session with no outcome and no file seen. The replacement is
    /// handed to the pattern engine as it is given here.
    pub fn new(pattern: CompiledPattern, replacement: String, dry_run: bool, max_file_size: u64) -> (session:
        Self)
        ensures
            session@.task == (ReplaceSpec {
                pattern: pattern@,
                replacement: replacement@,
                dry_run,
                max_size: max_file_size,
            }),
            session@.seen == Set::<Seq<char>>::empty(),
            session@.outcomes == Seq::<Outcome>::empty(),
            session@.pending is None,
    {
        let session = ReplaceSession {
            pattern,
            replacement,
            dry_run,
            max_file_size,
            seen: Ledger::new(),
            results: Capped::new(),
            current: None,
        };
        assert(outcomes_of(session.results@) =~= Seq::<Outcome>::empty());
        session
    }

    /// Begins the replacement that a request asks for: compiles its
    /// pattern, before any file is looked at, and fails where that fails.
    pub fn start(request: &ReplaceRequest) -> (begun: Result<Self, SearchError>)
        ensures
            begun is Ok <==> request.spec().pattern.compiles(),
            match begun {
                Ok(session) => {
                    &&& session@.task == request.spec()
                    &&& session@.seen == Set::<Seq<char>>::empty()
                    &&& session@.outcomes == Seq::<Outcome>::empty()
                    &&& session@.pending is None
                },
                Err(error) => error is InvalidPattern,
            },
    {
        match compile_pattern(
            request.search.query.as_str(),
            request.search.is_regex,
            request.search.case_sensitive,
            request.search.whole_word,
        ) {
            Ok(pattern) => Ok(
                ReplaceSession::new(
                    pattern,
                    prepare_replacement(request.replacement.as_str(), request.search.is_regex),
                    request.dry_run,
                    request.search.max_file_size,
                ),
            ),
            Err(error) => Err(error),
        }
    }

    /// Whether the budget is used up, so that the replacement is over.
    pub fn is_full(&self) -> (full: bool)
        ensures
            full == self@.full(),
            self@.outcomes.len() <= MAX_RESULTS,
    {
        self.results.is_full()
    }

    /// Decides whether the file behind `probe` is processed. If so, its
    /// content is then to be handed to `process`.
    pub fn accept(&mut self, probe: &FileProbe) -> (accepted: bool)
        ensures
            accepted == old(self)@.accepts(probe@),
            final(self)@ == old(self)@.accept(probe@),
    {
        self.current = None;
        if self.results.is_full() || !self.seen.enter(probe, self.max_file_size) {
            return false;
        }
        self.current = Some(probe.path.clone());
        assert(self@ =~= old(self)@.accept(probe@));
        true
    }

    /// Takes the content of the accepted file, and returns what is to be
    /// written to it, if anything. The outcome is recorded at once: where
    /// the write then fails, the invocation ends with
    /// `SearchError::WriteFailed` and reports no outcome at all.
    pub fn process(&mut self, text: &String) -> (write: Option<FileWrite>)
        ensures
            final(self)@ == old(self)@.process(text@),
            write_view(write) == old(self)@.write_for(text@),
    {
        let path = match &self.current {
            Some(path) => path.clone(),
            None => {
                assert(self@ =~= old(self)@.process(text@));
                return None;
            },
        };
        self.current = None;
        if self.results.is_full() {
            assert(self@ =~= old(self)@.process(text@));
            return None;
        }
        let plan = plan_file(
            &self.pattern,
            self.replacement.as_str(),
            self.dry_run,
            path.as_str(),
            text,
        );
        match plan.outcome {
            Some(outcome) => {
                assert(outcomes_of(self.results@.push(outcome)) =~= outcomes_of(
                    self.results@,
                ).push(outcome@));
                self.results.push(outcome);
            },
            None => {},
        }
        assert(self@ =~= old(self)@.process(text@));
        match plan.new_content {
            Some(content) => Some(FileWrite { path, content }),
            None => None,
        }
    }

    /// Processes one file held in memory, and appends to `writes` what is
    /// to be written to it, if anything.
    pub fn replace_file(&mut self, file: &SourceFile, writes: &mut Vec<FileWrite>)
        ensures
            final(self)@.task == old(self)@.task,
            (ReplaceProgress {
                outcomes: final(self)@.outcomes,
                writes: writes_of(final(writes)@),
                seen: final(self)@.seen,
            }) == replace_one(
                old(self)@.task,
                ReplaceProgress {
                    outcomes: old(self)@.outcomes,
                    writes: writes_of(old(writes)@),
                    seen: old(self)@.seen,
                },
                file@,
            ),
    {
        if !self.accept(&file.probe) {
            return;
        }
        match &file.text {
            Some(text) => {
                match self.process(text) {
                    Some(write) => {
                        assert(writes_of(writes@.push(write)) =~= writes_of(writes@).push(write@));
                        writes.push(write);
                    },
                    None => {},
                }
            },
            None => {},
        }
    }

    /// Processes files held in memory, in order, until the budget is used
    /// up.
    pub fn replace_all(&mut self, files: &Vec<SourceFile>, writes: &mut Vec<FileWrite>)
        ensures
            final(self)@.task == old(self)@.task,
            (ReplaceProgress {
                outcomes: final(self)@.outcomes,
                writes: writes_of(final(writes)@),
                seen: final(self)@.seen,
            }) == replace_many(
                old(self)@.task,
                ReplaceProgress {
                    outcomes: old(self)@.outcomes,
                    writes: writes_of(old(writes)@),
                    seen: old(self)@.seen,
                },
                file_views(files@),
            ),
    {
        let ghost task = self@.task;
        let ghost start = ReplaceProgress {
            outcomes: self@.outcomes,
            writes: writes_of(writes@),
            seen: self@.seen,
        };
        let ghost all = file_views(files@);
        let mut i: usize = 0;
        assert(all.take(0) =~= Seq::<FileView>::empty());
        while i < files.len() && !self.is_full()
            invariant
                i <= files.len(),
                all == file_views(files@),
                self@.task == task,
                (ReplaceProgress {
                    outcomes: self@.outcomes,
                    writes: writes_of(writes@),
                    seen: self@.seen,
                }) == replace_many(task, start, all.take(i as int)),
            decreases files.len() - i,
        {
            self.replace_file(&files[i], writes);
            proof {
                assert(all.take(i + 1).drop_last() =~= all.take(i as int));
                assert(all.take(i + 1).last() == files@[i as int]@);
            }
            i += 1;
        }
        proof {
            if i == files.len() {
                assert(all.take(i as int) =~= all);
            } else {
                lemma_replace_resumes(task, start, all, i as int);
                lemma_full_replace_is_over(
                    task,
                    replace_many(task, start, all.take(i as int)),
                    all.skip(i as int),
                );
            }
        }
    }

    /// The outcomes, in the order in which they were found.
    pub fn into_results(self) -> (results: Vec<ReplaceResult>)
        ensures
            outcomes_of(results@) == self@.outcomes,
            results.len() <= MAX_RESULTS,
    {
        self.results.into_vec()
    }
}

/// What a replacement in files held in memory came to.
#[derive(Debug, Clone, PartialEq, Eq)]
pub struct ReplaceReport {
    /// One outcome for each file that changes, in the order of discovery.
    pub results: Vec<ReplaceResult>,
    /// The new content of each file that a real run changes, in the same
    /// order; empty after a dry run.
    pub writes: Vec<FileWrite>,
}

impl FileWrite {
    /// The error that ends the invocation where this write fails: it names
    /// the path that could not be written.
    pub fn failure(&self, detail: String) -> (error: SearchError)
        ensures
            error == (SearchError::WriteFailed { path: self.path, detail }),
    {
        SearchError::WriteFailed { path: self.path.clone(), detail }
    }
}

/// What a whole replacement comes to: nothing where the pattern does not
/// compile, else what it reports and writes.
pub open spec fn replace_answer(
    task: ReplaceSpec,
    walks: bool,
    walked: Seq<FileView>,
    extras: Seq<FileView>,
) -> Option<ReplaceProgress> {
    if task.pattern.compiles() {
        Some(replace_outcome(task, walks, walked, extras))
    } else {
        None
    }
}

/// Replaces in files held in memory: `walked` is what a walk of the tree
/// under `request.search.path` gave, in the order of the walk, and `extras`
/// is what was found at each of the additional paths. Nothing is written:
/// the report says what is to be. The replacement fails where the pattern
/// does not compile, and only there: no file, whatever is wrong with it,
/// makes it fail.
pub fn replace_files(request: &ReplaceRequest, walked: &Vec<SourceFile>, extras: &Vec<SourceFile>) -> (done:
    Result<ReplaceReport, SearchError>)
    ensures
        done is Ok <==> request.spec().pattern.compiles(),
        match done {
            Ok(report) => {
                let answer = replace_answer(
                    request.spec(),
                    request.search.walks(),
                    file_views(walked@),
                    file_views(extras@),
                );
                &&& answer is Some
                &&& outcomes_of(report.results@) == answer->Some_0.outcomes
                &&& writes_of(report.writes@) == answer->Some_0.writes
                &&& report.results.len() <= MAX_RESULTS
            },
            Err(error) => error is InvalidPattern,
        },
{
    let mut session = match ReplaceSession::start(request) {
        Ok(session) => session,
        Err(error) => {
            return Err(error);
        },
    };
    let mut writes: Vec<FileWrite> = Vec::new();
    assert(writes_of(writes@) =~= Seq::<WriteView>::empty());
    if request.search.has_root() {
        session.replace_all(walked, &mut writes);
    }
    session.replace_all(extras, &mut writes);
    Ok(ReplaceReport { results: session.into_results(), writes })
}

/// The outcomes never outgrow the budget, whatever files come.
pub proof fn lemma_replace_many_within_budget(task: ReplaceSpec, start: ReplaceProgress, files: Seq<FileView>)
    requires
        start.outcomes.len() <= MAX_RESULTS,
    ensures
        replace_many(task, start, files).outcomes.len() <= MAX_RESULTS,
    decreases files.len(),
{
    if files.len() > 0 {
        lemma_replace_many_within_budget(task, start, files.drop_last());
    }
}

/// A replacement, dry or real, reports at most `MAX_RESULTS` outcomes.
pub proof fn replace_stays_within_budget(
    task: ReplaceSpec,
    walks: bool,
    walked: Seq<FileView>,
    extras: Seq<FileView>,
)
    ensures
        replace_outcome(task, walks, walked, extras).outcomes.len() <= MAX_RESULTS,
{
    let start = ReplaceProgress { outcomes: Seq::empty(), writes: Seq::empty(), seen: Set::empty() };
    lemma_replace_many_within_budget(task, start, walked);
    let after_walk = if walks {
        replace_many(task, start, walked)
    } else {
        start
    };
    lemma_replace_many_within_budget(task, after_walk, extras);
}

/// Every outcome and every write belongs to a file that is marked as seen,
/// and no two outcomes and no two writes belong to one file, the same but
/// for the style of the separators in its path.
pub open spec fn one_per_file(progress: ReplaceProgress) -> bool {
    &&& forall|k: int|
        0 <= k < progress.outcomes.len() ==> progress.seen.contains(
            normalize_separators(#[trigger] progress.outcomes[k].path),
        )
    &&& forall|k: int|
        0 <= k < progress.writes.len() ==> progress.seen.contains(
            normalize_separators(#[trigger] progress.writes[k].path),
        )
    &&& forall|j: int, k: int|
        0 <= j < k < progress.outcomes.len() ==> normalize_separators(
            (#[trigger] progress.outcomes[j]).path,
        ) != normalize_separators((#[trigger] progress.outcomes[k]).path)
    &&& forall|j: int, k: int|
        0 <= j < k < progress.writes.len() ==> normalize_separators(
            (#[trigger] progress.writes[j]).path,
        ) != normalize_separators((#[trigger] progress.writes[k]).path)
}

/// One more file keeps outcomes and writes at one per file.
pub proof fn lemma_replace_one_keeps_one_per_file(task: ReplaceSpec, before: ReplaceProgress, file: FileView)
    requires
        one_per_file(before),
    ensures
        one_per_file(replace_one(task, before, file)),
{
    let after = replace_one(task, before, file);
    if after != before {
        let key = normalize_separators(file.probe.path);
        assert(!before.seen.contains(key));
        assert forall|k: int| 0 <= k < after.outcomes.len() implies after.seen.contains(
            normalize_separators(#[trigger] after.outcomes[k].path),
        ) by {
            if k < before.outcomes.len() {
                assert(after.outcomes[k] == before.outcomes[k]);
            }
        }
        assert forall|k: int| 0 <= k < after.writes.len() implies after.seen.contains(
            normalize_separators(#[trigger] after.writes[k].path),
        ) by {
            if k < before.writes.len() {
                assert(after.writes[k] == before.writes[k]);
            }
        }
        assert forall|j: int, k: int| 0 <= j < k < after.outcomes.len() implies normalize_separators(
            (#[trigger] after.outcomes[j]).path,
        ) != normalize_separators((#[trigger] after.outcomes[k]).path) by {
            assert(after.outcomes[j] == before.outcomes[j]);
            if k < before.outcomes.len() {
                assert(after.outcomes[k] == before.outcomes[k]);
            } else {
                assert(before.seen.contains(normalize_separators(before.outcomes[j].path)));
            }
        }
        assert forall|j: int, k: int| 0 <= j < k < after.writes.len() implies normalize_separators(
            (#[trigger] after.writes[j]).path,
        ) != normalize_separators((#[trigger] after.writes[k]).path) by {
            assert(after.writes[j] == before.writes[j]);
            if k < before.writes.len() {
                assert(after.writes[k] == before.writes[k]);
            } else {
                assert(before.seen.contains(normalize_separators(before.writes[j].path)));
            }
        }
    }
}

/// Further files keep outcomes and writes at one per file.
pub proof fn lemma_replace_many_keeps_one_per_file(
    task: ReplaceSpec,
    start: ReplaceProgress,
    files: Seq<FileView>,
)
    requires
        one_per_file(start),
    ensures
        one_per_file(replace_many(task, start, files)),
    decreases files.len(),
{
    if files.len() > 0 {
        lemma_replace_many_keeps_one_per_file(task, start, files.drop_last());
        lemma_replace_one_keeps_one_per_file(
            task,
            replace_many(task, start, files.drop_last()),
            files.last(),
        );
    }
}

/// Each file is processed at most once: a replacement reports no file
/// twice and writes no file twice, also where a file stands both in the
/// tree and among the additional files, or is named in two styles of
/// separators.
pub proof fn replace_touches_no_file_twice(
    task: ReplaceSpec,
    walks: bool,
    walked: Seq<FileView>,
    extras: Seq<FileView>,
)
    ensures
        one_per_file(replace_outcome(task, walks, walked, extras)),
{
    let start = ReplaceProgress { outcomes: Seq::empty(), writes: Seq::empty(), seen: Set::empty() };
    lemma_replace_many_keeps_one_per_file(task, start, walked);
    let after_walk = if walks {
        replace_many(task, start, walked)
    } else {
        start
    };
    lemma_replace_many_keeps_one_per_file(task, after_walk, extras);
}

/// In a dry run no file adds a write.
pub proof fn lemma_dry_run_writes_nothing(task: ReplaceSpec, start: ReplaceProgress, files: Seq<FileView>)
    requires
        task.dry_run,
    ensures
        replace_many(task, start, files).writes == start.writes,
    decreases files.len(),
{
    if files.len() > 0 {
        lemma_dry_run_writes_nothing(task, start, files.drop_last());
    }
}

/// A file as it is once the given writes were carried out, in order.
pub open spec fn rewritten_file(file: FileView, writes: Seq<WriteView>) -> FileView
    decreases writes.len(),
{
    if writes.len() == 0 {
        file
    } else {
        let earlier = rewritten_file(file, writes.drop_last());
        if writes.last().path == file.probe.path {
            FileView { text: Some(writes.last().content), ..earlier }
        } else {
            earlier
        }
    }
}

/// The files as they are once the given writes were carried out.
pub open spec fn rewritten(files: Seq<FileView>, writes: Seq<WriteView>) -> Seq<FileView> {
    files.map_values(|file: FileView| rewritten_file(file, writes))
}

/// A dry run asks for no write, so a second dry run, on the files as the
/// first one left them, comes to the same as the first: it succeeds where
/// the first did, and reports the same outcomes in the same order.
pub proof fn dry_run_is_repeatable(
    task: ReplaceSpec,
    walks: bool,
    walked: Seq<FileView>,
    extras: Seq<FileView>,
)
    requires
        task.dry_run,
    ensures
        ({
            let first = replace_answer(task, walks, walked, extras);
            let writes = match first {
                Some(progress) => progress.writes,
                None => Seq::<WriteView>::empty(),
            };
            &&& writes == Seq::<WriteView>::empty()
            &&& replace_answer(
                task,
                walks,
                rewritten(walked, writes),
                rewritten(extras, writes),
            ) == first
        }),
{
    let start = ReplaceProgress { outcomes: Seq::empty(), writes: Seq::empty(), seen: Set::empty() };
    lemma_dry_run_writes_nothing(task, start, walked);
    let after_walk = if walks {
        replace_many(task, start, walked)
    } else {
        start
    };
    lemma_dry_run_writes_nothing(task, after_walk, extras);
    let none = Seq::<WriteView>::empty();
    assert(rewritten(walked, none) =~= walked);
    assert(rewritten(extras, none) =~= extras);
}

/// Every preview is that of a line that is replaced, under that line's
/// number, and every line that is replaced has its preview.
pub proof fn lemma_previews_are_of_replaced_lines(
    pattern: PatternSpec,
    replacement: Seq<char>,
    lines: Seq<Seq<char>>,
)
    ensures
        forall|k: int|
            0 <= k < previews(pattern, replacement, lines).len() ==> {
                let shown = #[trigger] previews(pattern, replacement, lines)[k];
                &&& 1 <= shown.line <= lines.len()
                &&& line_is_replaced(pattern, lines[shown.line - 1])
                &&& shown == preview_of(pattern, replacement, shown.line, lines[shown.line - 1])
            },
        forall|i: int|
            0 <= i < lines.len() && line_is_replaced(pattern, #[trigger] lines[i]) ==> previews(
                pattern,
                replacement,
                lines,
            ).contains(preview_of(pattern, replacement, i + 1, lines[i])),
    decreases lines.len(),
{
    if lines.len() > 0 {
        let shorter = lines.drop_last();
        let earlier = previews(pattern, replacement, shorter);
        let all = previews(pattern, replacement, lines);
        lemma_previews_are_of_replaced_lines(pattern, replacement, shorter);
        assert forall|k: int| 0 <= k < all.len() implies {
            let shown = #[trigger] all[k];
            &&& 1 <= shown.line <= lines.len()
            &&& line_is_replaced(pattern, lines[shown.line - 1])
            &&& shown == preview_of(pattern, replacement, shown.line, lines[shown.line - 1])
        } by {
            if k < earlier.len() {
                assert(all[k] == earlier[k]);
                assert(shorter[earlier[k].line - 1] == lines[earlier[k].line - 1]);
            }
        }
        assert forall|i: int|
            0 <= i < lines.len() && line_is_replaced(pattern, #[trigger] lines[i]) implies all.contains(
            preview_of(pattern, replacement, i + 1, lines[i]),
        ) by {
            if i < shorter.len() {
                assert(shorter[i] == lines[i]);
                let wanted = preview_of(pattern, replacement, i + 1, lines[i]);
                assert(earlier.contains(wanted));
                let k = choose|k: int| 0 <= k < earlier.len() && earlier[k] == wanted;
                assert(all[k] == wanted);
            } else {
                assert(all[all.len() - 1] == preview_of(pattern, replacement, i + 1, lines[i]));
            }
        }
    }
}

/// A dry run and a real run agree line for line. A line of which the dry
/// run shows a preview is, after the real run, its replaced body with its
/// terminator, and the preview shows that body trimmed. A line of which
/// the dry run shows no preview is left as it is by the real run.
pub proof fn dry_run_agrees_with_real_run(
    pattern: PatternSpec,
    replacement: Seq<char>,
    lines: Seq<Seq<char>>,
    i: int,
)
    requires
        0 <= i < lines.len(),
    ensures
        ({
            let shown = previews(pattern, replacement, lines);
            let after = rewritten_line(pattern, replacement, lines[i]);
            if exists|k: int| 0 <= k < shown.len() && (#[trigger] shown[k]).line == i + 1 {
                &&& after == replaced_body(pattern, replacement, lines[i]) + terminator(lines[i])
                &&& shown.contains(
                    PreviewView {
                        line: i + 1,
                        original: trim(strip_terminator(lines[i])),
                        replacement: trim(replaced_body(pattern, replacement, lines[i])),
                    },
                )
            } else {
                after == lines[i]
            }
        }),
{
    lemma_previews_are_of_replaced_lines(pattern, replacement, lines);
    let shown = previews(pattern, replacement, lines);
    if line_is_replaced(pattern, lines[i]) {
        let wanted = preview_of(pattern, replacement, i + 1, lines[i]);
        assert(shown.contains(wanted));
        let k = choose|k: int| 0 <= k < shown.len() && shown[k] == wanted;
        assert(shown[k].line == i + 1);
    } else {
        if exists|k: int| 0 <= k < shown.len() && (#[trigger] shown[k]).line == i + 1 {
            let k = choose|k: int| 0 <= k < shown.len() && (#[trigger] shown[k]).line == i + 1;
            assert(line_is_replaced(pattern, lines[shown[k].line - 1]));
            assert(false);
        }
    }
}

/// Whether the pattern matches in none of the files that can be read.
pub open spec fn no_file_matches(pattern: PatternSpec, files: Seq<FileView>) -> bool {
    forall|i: int|
        0 <= i < files.len() && (#[trigger] files[i]).text is Some ==> !pattern.matches(
            files[i].text->Some_0,
        )
}

/// Files in which the pattern matches nowhere add no outcome and no write.
pub proof fn lemma_no_match_changes_nothing(task: ReplaceSpec, start: ReplaceProgress, files: Seq<FileView>)
    requires
        no_file_matches(task.pattern, files),
    ensures
        replace_many(task, start, files).outcomes == start.outcomes,
        replace_many(task, start, files).writes == start.writes,
    decreases files.len(),
{
    if files.len() > 0 {
        let shorter = files.drop_last();
        assert forall|i: int| 0 <= i < shorter.len() && (#[trigger] shorter[i]).text is Some implies !task.pattern.matches(
            shorter[i].text->Some_0,
        ) by {
            assert(shorter[i] == files[i]);
        }
        lemma_no_match_changes_nothing(task, start, shorter);
        assert(files.last() == files[files.len() - 1]);
    }
}

/// Where the pattern matches in no file, a replacement, dry or real,
/// reports nothing and writes nothing: every file stays as it is.
pub proof fn replace_without_match_changes_nothing(
    task: ReplaceSpec,
    walks: bool,
    walked: Seq<FileView>,
    extras: Seq<FileView>,
)
    requires
        no_file_matches(task.pattern, walked),
        no_file_matches(task.pattern, extras),
    ensures
        replace_outcome(task, walks, walked, extras).outcomes == Seq::<Outcome>::empty(),
        replace_outcome(task, walks, walked, extras).writes == Seq::<WriteView>::empty(),
{
    let start = ReplaceProgress { outcomes: Seq::empty(), writes: Seq::empty(), seen: Set::empty() };
    lemma_no_match_changes_nothing(task, start, walked);
    let after_walk = if walks {
        replace_many(task, start, walked)
    } else {
        start
    };
    lemma_no_match_changes_nothing(task, after_walk, extras);
}

} // verus!
