//! Searching: a session that is fed what was found on disk, one probe and
//! one line at a time, and the search of files held in memory.

use vstd::prelude::*;
use crate::budget::Capped;
use crate::error::SearchError;
use crate::ledger::{admissible, Ledger};
use crate::model::{
    file_views, first_n, hits_of, FileProbe, FileView, Hit, ProbeView, SearchRequest,
    SearchResult, SourceFile, MAX_RESULTS,
};
use crate::pattern::{compile_pattern, CompiledPattern, PatternSpec};
use crate::scan::{
    examine_line, file_hits, halts, hit_for, lemma_file_hits_numbers, lemma_file_hits_prefix,
    line_is_hit, LineOutcome,
};
use crate::text::{has_nul, normalize_separators, raw_lines, split_raw_lines, texts};

verus! {

/// What came of reading the next line of the file that is being scanned.
pub enum LineRead<'a> {
    /// A line, terminator included.
    Line(&'a str),
    /// The file has no further line.
    End,
    /// The line could not be read, or is no text.
    Failed,
}

pub enum ReadView {
    Line(Seq<char>),
    End,
    Failed,
}

impl<'a> View for LineRead<'a> {
    type V = ReadView;

    open spec fn view(&self) -> ReadView {
        match self {
            LineRead::Line(raw) => ReadView::Line(raw@),
            LineRead::End => ReadView::End,
            LineRead::Failed => ReadView::Failed,
        }
    }
}

/// The hits so far and the normalized paths of the files processed so far.
#[verifier::ext_equal]
pub struct Progress {
    pub hits: Seq<Hit>,
    pub seen: Set<Seq<char>>,
}

/// A search session as its caller sees it.
#[verifier::ext_equal]
pub struct SessionView {
    pub pattern: PatternSpec,
    pub max_size: u64,
    pub seen: Set<Seq<char>>,
    pub hits: Seq<Hit>,
    /// The path of the file that is being scanned, if one is.
    pub scanning: Option<Seq<char>>,
    /// The number of the line that is read next.
    pub line: int,
}

impl SessionView {
    pub open spec fn progress(self) -> Progress {
        Progress { hits: self.hits, seen: self.seen }
    }

    /// Whether the result budget is used up.
    pub open spec fn full(self) -> bool {
        self.hits.len() >= MAX_RESULTS
    }

    pub open spec fn accepts(self, probe: ProbeView) -> bool {
        !self.full() && admissible(self.seen, probe, self.max_size)
    }

    /// The session once the probe was put to it: an accepted file is marked
    /// as seen and its scan begins at line 1.
    pub open spec fn accept(self, probe: ProbeView) -> SessionView {
        if self.accepts(probe) {
            SessionView {
                seen: self.seen.insert(normalize_separators(probe.path)),
                scanning: Some(probe.path),
                line: 1,
                ..self
            }
        } else {
            self.stop()
        }
    }

    /// The session with no file being scanned.
    pub open spec fn stop(self) -> SessionView {
        SessionView { scanning: None, ..self }
    }

    /// The session once it was told what reading the next line gave. The
    /// scan of the file ends with the file, with a failure, with a line that
    /// holds a NUL, and when the budget is used up.
    pub open spec fn read(self, read: ReadView) -> SessionView {
        match (self.scanning, read) {
            (Some(path), ReadView::Line(raw)) => {
                if self.full() || has_nul(raw) {
                    self.stop()
                } else {
                    let hits = if line_is_hit(self.pattern, raw) {
                        self.hits.push(hit_for(path, self.line, raw))
                    } else {
                        self.hits
                    };
                    if hits.len() >= MAX_RESULTS || self.line >= usize::MAX {
                        SessionView { hits, scanning: None, ..self }
                    } else {
                        SessionView { hits, line: self.line + 1, ..self }
                    }
                }
            },
            _ => self.stop(),
        }
    }
}

/// Where the search stands after one more file.
pub open spec fn search_one(
    pattern: PatternSpec,
    max_size: u64,
    before: Progress,
    file: FileView,
) -> Progress {
    if before.hits.len() >= MAX_RESULTS || !admissible(before.seen, file.probe, max_size) {
        before
    } else {
        let seen = before.seen.insert(normalize_separators(file.probe.path));
        match file.text {
            Some(text) => Progress {
                hits: before.hits + first_n(
                    file_hits(pattern, file.probe.path, raw_lines(text)),
                    MAX_RESULTS - before.hits.len(),
                ),
                seen,
            },
            None => Progress { hits: before.hits, seen },
        }
    }
}

/// Where the search stands after the given files, taken in order.
pub open spec fn search_many(
    pattern: PatternSpec,
    max_size: u64,
    start: Progress,
    files: Seq<FileView>,
) -> Progress
    decreases files.len(),
{
    if files.len() == 0 {
        start
    } else {
        search_one(
            pattern,
            max_size,
            search_many(pattern, max_size, start, files.drop_last()),
            files.last(),
        )
    }
}

/// The hits of a whole search: those of the walked tree first, if a tree is
/// walked, then those of the additional files.
pub open spec fn search_outcome(
    pattern: PatternSpec,
    max_size: u64,
    walks: bool,
    walked: Seq<FileView>,
    extras: Seq<FileView>,
) -> Seq<Hit> {
    let start = Progress { hits: Seq::empty(), seen: Set::empty() };
    let after_walk = if walks {
        search_many(pattern, max_size, start, walked)
    } else {
        start
    };
    search_many(pattern, max_size, after_walk, extras).hits
}

/// Once the budget is used up, further files change nothing.
pub proof fn lemma_full_search_is_over(
    pattern: PatternSpec,
    max_size: u64,
    start: Progress,
    files: Seq<FileView>,
)
    requires
        start.hits.len() >= MAX_RESULTS,
    ensures
        search_many(pattern, max_size, start, files) == start,
    decreases files.len(),
{
    if files.len() > 0 {
        lemma_full_search_is_over(pattern, max_size, start, files.drop_last());
    }
}

/// The state of one search.
pub struct SearchSession {
    pattern: CompiledPattern,
    max_file_size: u64,
    seen: Ledger,
    results: Capped<SearchResult>,
    current: Option<String>,
    next_line: usize,
}

impl View for SearchSession {
    type V = SessionView;

    closed spec fn view(&self) -> SessionView {
        SessionView {
            pattern: self.pattern@,
            max_size: self.max_file_size,
            seen: self.seen@,
            hits: hits_of(self.results@),
            scanning: match self.current {
                Some(path) => Some(path@),
                None => None,
            },
            line: self.next_line as int,
        }
    }
}

impl SearchSession {
    /// A session with no result and no file seen.
    pub fn new(pattern: CompiledPattern, max_file_size: u64) -> (session: Self)
        ensures
            session@.pattern == pattern@,
            session@.max_size == max_file_size,
            session@.seen == Set::<Seq<char>>::empty(),
            session@.hits == Seq::<Hit>::empty(),
            session@.scanning is None,
    {
        let session = SearchSession {
            pattern,
            max_file_size,
            seen: Ledger::new(),
            results: Capped::new(),
            current: None,
            next_line: 1,
        };
        assert(hits_of(session.results@) =~= Seq::<Hit>::empty());
        session
    }

    /// Begins the search that a request asks for: compiles its pattern,
    /// before any file is looked at, and fails where that fails.
    pub fn start(request: &SearchRequest) -> (begun: Result<Self, SearchError>)
        ensures
            begun is Ok <==> request.pattern().compiles(),
            match begun {
                Ok(session) => {
                    &&& session@.pattern == request.pattern()
                    &&& session@.max_size == request.max_file_size
                    &&& session@.seen == Set::<Seq<char>>::empty()
                    &&& session@.hits == Seq::<Hit>::empty()
                    &&& session@.scanning is None
                },
                Err(error) => error is InvalidPattern,
            },
    {
        match compile_pattern(
            request.query.as_str(),
            request.is_regex,
            request.case_sensitive,
            request.whole_word,
        ) {
            Ok(pattern) => Ok(SearchSession::new(pattern, request.max_file_size)),
            Err(error) => Err(error),
        }
    }

    /// Whether the budget is used up, so that the search is over.
    pub fn is_full(&self) -> (full: bool)
        ensures
            full == self@.full(),
            self@.hits.len() <= MAX_RESULTS,
    {
        self.results.is_full()
    }

    /// Decides whether the file behind `probe` is scanned. If so, its lines
    /// are then to be handed to `on_read`.
    pub fn accept(&mut self, probe: &FileProbe) -> (accepted: bool)
        ensures
            accepted == old(self)@.accepts(probe@),
            final(self)@ == old(self)@.accept(probe@),
    {
        self.current = None;
        if self.results.is_full() || !self.seen.enter(probe, self.max_file_size) {
            return false;
        }
        self.current = Some(probe.path.clone());
        self.next_line = 1;
        assert(self@ =~= old(self)@.accept(probe@));
        true
    }

    /// Takes what reading the next line of the accepted file gave, and says
    /// whether a further line is wanted.
    pub fn on_read(&mut self, read: LineRead) -> (more: bool)
        ensures
            final(self)@ == old(self)@.read(read@),
            more == (final(self)@.scanning is Some),
    {
        let raw = match read {
            LineRead::Line(raw) => raw,
            _ => {
                self.current = None;
                return false;
            },
        };
        let path = match &self.current {
            Some(path) => path.clone(),
            None => {
                return false;
            },
        };
        if self.results.is_full() {
            self.current = None;
            return false;
        }
        match examine_line(&self.pattern, raw) {
            LineOutcome::Binary => {
                self.current = None;
                return false;
            },
            LineOutcome::Hit(shown) => {
                let result = SearchResult {
                    file_path: path,
                    line_number: self.next_line,
                    line_content: shown,
                };
                assert(hits_of(self.results@.push(result)) =~= hits_of(self.results@).push(
                    result@,
                ));
                self.results.push(result);
            },
            _ => {},
        }
        if self.results.is_full() || self.next_line == usize::MAX {
            self.current = None;
            false
        } else {
            self.next_line = self.next_line + 1;
            true
        }
    }

    /// Processes one file held in memory.
    pub fn scan_file(&mut self, file: &SourceFile)
        ensures
            final(self)@.pattern == old(self)@.pattern,
            final(self)@.max_size == old(self)@.max_size,
            final(self)@.progress() == search_one(
                old(self)@.pattern,
                old(self)@.max_size,
                old(self)@.progress(),
                file@,
            ),
    {
        let ghost before = self@;
        if !self.accept(&file.probe) {
            return;
        }
        let text = match &file.text {
            Some(text) => text,
            None => {
                return;
            },
        };
        let lines = split_raw_lines(text.as_str());
        let ghost pattern = before.pattern;
        let ghost path = file.probe.path@;
        let ghost raw = raw_lines(text@);
        let ghost room = MAX_RESULTS - before.hits.len();
        let ghost seen = before.seen.insert(normalize_separators(path));
        let mut more = true;
        let mut i: usize = 0;
        proof {
            assert(raw.take(0) =~= Seq::<Seq<char>>::empty());
            assert(self@.hits =~= before.hits + first_n(
                file_hits(pattern, path, raw.take(0)),
                room,
            ));
            assert(raw.len() == lines.len());
        }
        while more && i < lines.len()
            invariant
                i <= lines.len(),
                texts(lines@) == raw,
                raw.len() == lines.len(),
                room > 0,
                before.hits.len() + room == MAX_RESULTS,
                self@.pattern == pattern,
                self@.max_size == before.max_size,
                self@.seen == seen,
                self@.hits == before.hits + first_n(
                    file_hits(pattern, path, raw.take(i as int)),
                    room,
                ),
                more ==> self@.scanning == Some(path) && self@.line == i + 1 && !halts(
                    raw.take(i as int),
                ) && file_hits(pattern, path, raw.take(i as int)).len() < room,
                !more ==> first_n(file_hits(pattern, path, raw), room) == first_n(
                    file_hits(pattern, path, raw.take(i as int)),
                    room,
                ),
            decreases lines.len() - i,
        {
            let ghost at = self@;
            let ghost fed = raw.take(i as int);
            let ghost next = raw.take(i + 1);
            more = self.on_read(LineRead::Line(lines[i].as_str()));
            proof {
                assert(lines@[i as int]@ == raw[i as int]);
                assert(next.drop_last() =~= fed);
                assert(next.last() == raw[i as int]);
                assert(!at.full());
                lemma_file_hits_prefix(pattern, path, raw, i + 1);
                if has_nul(raw[i as int]) {
                    assert(has_nul(next[i as int]));
                    assert(halts(next));
                } else {
                    if halts(next) {
                        let k = choose|k: int| 0 <= k < next.len() && has_nul(#[trigger] next[k]);
                        assert(fed[k] == next[k]);
                        assert(false);
                    }
                    if line_is_hit(pattern, raw[i as int]) {
                        assert(self@.hits =~= before.hits + file_hits(pattern, path, next));
                    }
                    if !more {
                        if file_hits(pattern, path, next).len() < room {
                            assert(i + 1 == lines.len());
                            assert(next =~= raw);
                        } else {
                            assert(file_hits(pattern, path, raw).take(room as int) =~= file_hits(
                                pattern,
                                path,
                                next,
                            ));
                        }
                    }
                }
            }
            i += 1;
        }
        proof {
            if more {
                assert(raw.take(i as int) =~= raw);
            }
        }
    }

    /// Processes files held in memory, in order, until the budget is used up.
    pub fn scan_all(&mut self, files: &Vec<SourceFile>)
        ensures
            final(self)@.pattern == old(self)@.pattern,
            final(self)@.max_size == old(self)@.max_size,
            final(self)@.progress() == search_many(
                old(self)@.pattern,
                old(self)@.max_size,
                old(self)@.progress(),
                file_views(files@),
            ),
    {
        let ghost before = self@;
        let ghost all = file_views(files@);
        let mut i: usize = 0;
        assert(all.take(0) =~= Seq::<FileView>::empty());
        while i < files.len() && !self.is_full()
            invariant
                i <= files.len(),
                all == file_views(files@),
                self@.pattern == before.pattern,
                self@.max_size == before.max_size,
                self@.progress() == search_many(
                    before.pattern,
                    before.max_size,
                    before.progress(),
                    all.take(i as int),
                ),
            decreases files.len() - i,
        {
            self.scan_file(&files[i]);
            proof {
                assert(all.take(i + 1).drop_last() =~= all.take(i as int));
                assert(all.take(i + 1).last() == files@[i as int]@);
            }
            i += 1;
        }
        proof {
            if i == files.len() {
                assert(all.take(i as int) =~= all);
            } else {
                lemma_search_resumes(
                    before.pattern,
                    before.max_size,
                    before.progress(),
                    all,
                    i as int,
                );
                lemma_full_search_is_over(
                    before.pattern,
                    before.max_size,
                    self@.progress(),
                    all.skip(i as int),
                );
            }
        }
    }

    /// The results, in the order in which they were found.
    pub fn into_results(self) -> (results: Vec<SearchResult>)
        ensures
            hits_of(results@) == self@.hits,
            results.len() <= MAX_RESULTS,
    {
        self.results.into_vec()
    }
}

/// Searching the first files and then the rest is searching them all.
pub proof fn lemma_search_resumes(
    pattern: PatternSpec,
    max_size: u64,
    start: Progress,
    files: Seq<FileView>,
    i: int,
)
    requires
        0 <= i <= files.len(),
    ensures
        search_many(pattern, max_size, start, files) == search_many(
            pattern,
            max_size,
            search_many(pattern, max_size, start, files.take(i)),
            files.skip(i),
        ),
    decreases files.len() - i,
{
    if i == files.len() {
        assert(files.take(i) =~= files);
        assert(files.skip(i) =~= Seq::<FileView>::empty());
    } else {
        let shorter = files.drop_last();
        assert(shorter.take(i) =~= files.take(i));
        assert(files.skip(i).drop_last() =~= shorter.skip(i));
        assert(files.skip(i).last() == files.last());
        lemma_search_resumes(pattern, max_size, start, shorter, i);
    }
}

/// Searches files held in memory: `walked` is what a walk of the tree under
/// `request.path` gave, in the order of the walk, and `extras` is what was
/// found at each of the additional paths. The search fails where the
/// pattern does not compile, and only there: no file, whatever is wrong
/// with it, makes it fail.
pub fn search_files(request: &SearchRequest, walked: &Vec<SourceFile>, extras: &Vec<SourceFile>) -> (found:
    Result<Vec<SearchResult>, SearchError>)
    ensures
        found is Ok <==> request.pattern().compiles(),
        match found {
            Ok(results) => hits_of(results@) == search_outcome(
                request.pattern(),
                request.max_file_size,
                request.walks(),
                file_views(walked@),
                file_views(extras@),
            ) && results.len() <= MAX_RESULTS,
            Err(error) => error is InvalidPattern,
        },
{
    let mut session = match SearchSession::start(request) {
        Ok(session) => session,
        Err(error) => {
            return Err(error);
        },
    };
    assert(session@.progress() =~= Progress { hits: Seq::empty(), seen: Set::empty() });
    if request.has_root() {
        session.scan_all(walked);
    }
    session.scan_all(extras);
    Ok(session.into_results())
}

/// The hits never outgrow the budget, whatever files come.
pub proof fn lemma_search_many_within_budget(
    pattern: PatternSpec,
    max_size: u64,
    start: Progress,
    files: Seq<FileView>,
)
    requires
        start.hits.len() <= MAX_RESULTS,
    ensures
        search_many(pattern, max_size, start, files).hits.len() <= MAX_RESULTS,
    decreases files.len(),
{
    if files.len() > 0 {
        lemma_search_many_within_budget(pattern, max_size, start, files.drop_last());
    }
}

/// A search reports at most `MAX_RESULTS` hits.
pub proof fn search_stays_within_budget(
    pattern: PatternSpec,
    max_size: u64,
    walks: bool,
    walked: Seq<FileView>,
    extras: Seq<FileView>,
)
    ensures
        search_outcome(pattern, max_size, walks, walked, extras).len() <= MAX_RESULTS,
{
    let start = Progress { hits: Seq::empty(), seen: Set::empty() };
    lemma_search_many_within_budget(pattern, max_size, start, walked);
    let after_walk = if walks {
        search_many(pattern, max_size, start, walked)
    } else {
        start
    };
    lemma_search_many_within_budget(pattern, max_size, after_walk, extras);
}

/// Every hit belongs to a file that is marked as seen, and of two hits in
/// one file, the same but for the style of the separators in its path, the
/// later one is on a later line.
pub open spec fn hits_in_order(progress: Progress) -> bool {
    &&& forall|k: int|
        0 <= k < progress.hits.len() ==> progress.seen.contains(
            normalize_separators(#[trigger] progress.hits[k].path),
        )
    &&& forall|j: int, k: int|
        0 <= j < k < progress.hits.len() && normalize_separators(progress.hits[j].path)
            == normalize_separators(progress.hits[k].path) ==> (#[trigger] progress.hits[j]).line
            < (#[trigger] progress.hits[k]).line
}

/// No line of any file is reported twice.
pub open spec fn hits_distinct(hits: Seq<Hit>) -> bool {
    forall|j: int, k: int|
        0 <= j < k < hits.len() ==> !(normalize_separators((#[trigger] hits[j]).path)
            == normalize_separators((#[trigger] hits[k]).path) && hits[j].line == hits[k].line)
}

/// A file whose path was seen before, in either style of separators, is
/// passed over.
pub proof fn lemma_seen_file_is_passed_over(
    pattern: PatternSpec,
    max_size: u64,
    before: Progress,
    file: FileView,
)
    requires
        before.seen.contains(normalize_separators(file.probe.path)),
    ensures
        search_one(pattern, max_size, before, file) == before,
{
}

/// One more file keeps the hits in order.
pub proof fn lemma_search_one_keeps_order(
    pattern: PatternSpec,
    max_size: u64,
    before: Progress,
    file: FileView,
)
    requires
        hits_in_order(before),
    ensures
        hits_in_order(search_one(pattern, max_size, before, file)),
{
    let after = search_one(pattern, max_size, before, file);
    if after != before {
        let path = file.probe.path;
        let key = normalize_separators(path);
        assert(!before.seen.contains(key));
        if file.text is Some {
            let lines = raw_lines(file.text->Some_0);
            let found = file_hits(pattern, path, lines);
            let fresh = first_n(found, MAX_RESULTS - before.hits.len());
            let old_len = before.hits.len() as int;
            lemma_file_hits_numbers(pattern, path, lines);
            assert(after.hits == before.hits + fresh);
            assert forall|k: int| 0 <= k < fresh.len() implies fresh[k] == found[k] by {}
            assert forall|k: int| 0 <= k < after.hits.len() implies after.seen.contains(
                normalize_separators(#[trigger] after.hits[k].path),
            ) by {
                if k < old_len {
                    assert(after.hits[k] == before.hits[k]);
                } else {
                    assert(after.hits[k] == fresh[k - old_len]);
                    assert(fresh[k - old_len] == found[k - old_len]);
                }
            }
            assert forall|j: int, k: int|
                0 <= j < k < after.hits.len() && normalize_separators(after.hits[j].path)
                    == normalize_separators(after.hits[k].path) implies (#[trigger] after.hits[j]).line
                < (#[trigger] after.hits[k]).line by {
                if k < old_len {
                    assert(after.hits[j] == before.hits[j]);
                    assert(after.hits[k] == before.hits[k]);
                } else if j < old_len {
                    assert(after.hits[j] == before.hits[j]);
                    assert(after.hits[k] == found[k - old_len]);
                    assert(before.seen.contains(normalize_separators(before.hits[j].path)));
                    assert(false);
                } else {
                    assert(after.hits[j] == found[j - old_len]);
                    assert(after.hits[k] == found[k - old_len]);
                }
            }
        } else {
            assert forall|k: int| 0 <= k < after.hits.len() implies after.seen.contains(
                normalize_separators(#[trigger] after.hits[k].path),
            ) by {
                assert(after.hits[k] == before.hits[k]);
            }
        }
    }
}

/// Further files keep the hits in order.
pub proof fn lemma_search_many_keeps_order(
    pattern: PatternSpec,
    max_size: u64,
    start: Progress,
    files: Seq<FileView>,
)
    requires
        hits_in_order(start),
    ensures
        hits_in_order(search_many(pattern, max_size, start, files)),
    decreases files.len(),
{
    if files.len() > 0 {
        lemma_search_many_keeps_order(pattern, max_size, start, files.drop_last());
        lemma_search_one_keeps_order(
            pattern,
            max_size,
            search_many(pattern, max_size, start, files.drop_last()),
            files.last(),
        );
    }
}

/// Each file is searched at most once: a search reports no line twice,
/// also where a file stands both in the tree and among the additional
/// files, or is named in two styles of separators.
pub proof fn search_reports_no_line_twice(
    pattern: PatternSpec,
    max_size: u64,
    walks: bool,
    walked: Seq<FileView>,
    extras: Seq<FileView>,
)
    ensures
        hits_distinct(search_outcome(pattern, max_size, walks, walked, extras)),
{
    let start = Progress { hits: Seq::empty(), seen: Set::empty() };
    lemma_search_many_keeps_order(pattern, max_size, start, walked);
    let after_walk = if walks {
        search_many(pattern, max_size, start, walked)
    } else {
        start
    };
    lemma_search_many_keeps_order(pattern, max_size, after_walk, extras);
}

} // verus!
