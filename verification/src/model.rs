//! The values that go into an invocation and come out of it.

use vstd::prelude::*;
use crate::pattern::{requested_pattern, PatternSpec};

verus! {

/// No invocation reports more results than this.
pub const MAX_RESULTS: usize = 500;

/// What to search for, and where.
#[derive(Debug, Clone)]
pub struct SearchRequest {
    pub query: String,
    /// The root of the tree to walk. Empty: no tree is walked.
    pub path: String,
    pub excludes: Vec<String>,
    pub includes: Vec<String>,
    /// Files larger than this many bytes are passed over.
    pub max_file_size: u64,
    pub case_sensitive: bool,
    pub whole_word: bool,
    pub is_regex: bool,
    /// Files to look at besides the tree.
    pub additional_paths: Vec<String>,
}

impl SearchRequest {
    /// The matcher that the request asks for.
    pub open spec fn pattern(&self) -> PatternSpec {
        requested_pattern(self.query@, self.is_regex, self.case_sensitive, self.whole_word)
    }

    /// Whether the request names a tree to walk.
    pub open spec fn walks(&self) -> bool {
        self.path@.len() > 0
    }

    /// Whether the request names a tree to walk.
    pub fn has_root(&self) -> (walks: bool)
        ensures
            walks == self.walks(),
    {
        !self.path.as_str().is_empty()
    }
}

/// What to search for and what to put in its place.
#[derive(Debug, Clone)]
pub struct ReplaceRequest {
    pub search: SearchRequest,
    pub replacement: String,
    /// Report what would change and leave every file as it is.
    pub dry_run: bool,
}

/// What is known of a path before its content is read.
#[derive(Debug, Clone)]
pub struct FileProbe {
    pub path: String,
    /// Whether the path is known to be a regular file.
    pub is_file: bool,
    /// The size in bytes, where the metadata could be read.
    pub size: Option<u64>,
}

pub struct ProbeView {
    pub path: Seq<char>,
    pub is_file: bool,
    pub size: Option<u64>,
}

impl View for FileProbe {
    type V = ProbeView;

    open spec fn view(&self) -> ProbeView {
        ProbeView { path: self.path@, is_file: self.is_file, size: self.size }
    }
}

/// A file held in memory: what was found at a path and, where it could be
/// read as text, its content.
#[derive(Debug, Clone)]
pub struct SourceFile {
    pub probe: FileProbe,
    pub text: Option<String>,
}

pub struct FileView {
    pub probe: ProbeView,
    pub text: Option<Seq<char>>,
}

impl View for SourceFile {
    type V = FileView;

    open spec fn view(&self) -> FileView {
        FileView {
            probe: self.probe@,
            text: match self.text {
                Some(text) => Some(text@),
                None => None,
            },
        }
    }
}

pub open spec fn file_views(files: Seq<SourceFile>) -> Seq<FileView> {
    files.map_values(|file: SourceFile| file@)
}

/// One matching line.
#[derive(Debug, Clone, PartialEq, Eq)]
pub struct SearchResult {
    pub file_path: String,
    /// Counted from 1; every line of the file counts.
    pub line_number: usize,
    pub line_content: String,
}

pub struct Hit {
    pub path: Seq<char>,
    pub line: int,
    pub content: Seq<char>,
}

impl View for SearchResult {
    type V = Hit;

    open spec fn view(&self) -> Hit {
        Hit { path: self.file_path@, line: self.line_number as int, content: self.line_content@ }
    }
}

pub open spec fn hits_of(results: Seq<SearchResult>) -> Seq<Hit> {
    results.map_values(|result: SearchResult| result@)
}

/// One line as it is and as it would be after the replacement.
#[derive(Debug, Clone, PartialEq, Eq)]
pub struct MatchPreview {
    pub line: usize,
    pub original: String,
    pub replacement: String,
}

pub struct PreviewView {
    pub line: int,
    pub original: Seq<char>,
    pub replacement: Seq<char>,
}

impl View for MatchPreview {
    type V = PreviewView;

    open spec fn view(&self) -> PreviewView {
        PreviewView {
            line: self.line as int,
            original: self.original@,
            replacement: self.replacement@,
        }
    }
}

pub open spec fn previews_of(previews: Seq<MatchPreview>) -> Seq<PreviewView> {
    previews.map_values(|preview: MatchPreview| preview@)
}

/// What a replacement did, or would do, to one file.
#[derive(Debug, Clone, PartialEq, Eq)]
pub struct ReplaceResult {
    pub file_path: String,
    /// The lines that would change; empty after a real replacement.
    pub matches: Vec<MatchPreview>,
    /// In a dry run the number of lines that would change, else 1.
    pub replaced_count: usize,
}

pub struct Outcome {
    pub path: Seq<char>,
    pub matches: Seq<PreviewView>,
    pub replaced_count: int,
}

impl View for ReplaceResult {
    type V = Outcome;

    open spec fn view(&self) -> Outcome {
        Outcome {
            path: self.file_path@,
            matches: previews_of(self.matches@),
            replaced_count: self.replaced_count as int,
        }
    }
}

pub open spec fn outcomes_of(results: Seq<ReplaceResult>) -> Seq<Outcome> {
    results.map_values(|result: ReplaceResult| result@)
}

/// New content for the file at `path`.
#[derive(Debug, Clone, PartialEq, Eq)]
pub struct FileWrite {
    pub path: String,
    pub content: String,
}

pub struct WriteView {
    pub path: Seq<char>,
    pub content: Seq<char>,
}

impl View for FileWrite {
    type V = WriteView;

    open spec fn view(&self) -> WriteView {
        WriteView { path: self.path@, content: self.content@ }
    }
}

pub open spec fn writes_of(writes: Seq<FileWrite>) -> Seq<WriteView> {
    writes.map_values(|write: FileWrite| write@)
}

/// The first `n` items of `s`, or all of `s` where it has fewer.
pub open spec fn first_n<A>(s: Seq<A>, n: int) -> Seq<A> {
    if 0 <= n < s.len() {
        s.take(n)
    } else {
        s
    }
}

} // verus!
