//! From a query and its three switches to one compiled matcher.

use vstd::prelude::*;
use vstd::string::StringExecFns;
use crate::error::SearchError;

verus! {

#[verifier::external_type_specification]
#[verifier::external_body]
pub struct ExRegex(regex::Regex);

#[verifier::external_type_specification]
#[verifier::external_body]
pub struct ExRegexError(regex::Error);

/// The pattern text that a compiled regex was built from, as
/// `regex::Regex::as_str` reports it.
pub uninterp spec fn regex_pattern(re: regex::Regex) -> Seq<char>;

/// Whether a compiled regex was built to match without regard to case.
pub uninterp spec fn regex_ignores_case(re: regex::Regex) -> bool;

/// Whether the pattern engine compiles `pattern` with the given case
/// switch and its other settings as they come: what decides between `Ok`
/// and `Err` in `regex::RegexBuilder::build`.
pub uninterp spec fn pattern_compiles(pattern: Seq<char>, ignore_case: bool) -> bool;

/// Whether the regex compiled from `pattern` finds a match somewhere in
/// `haystack`: what `regex::Regex::is_match` returns.
pub uninterp spec fn pattern_matches(
    pattern: Seq<char>,
    ignore_case: bool,
    haystack: Seq<char>,
) -> bool;

/// `haystack` with every non-overlapping match of the regex compiled from
/// `pattern` replaced by `replacement`, in which `$name` and `${name}` stand
/// for capture groups: what `regex::Regex::replace_all` returns.
pub uninterp spec fn pattern_replace_all(
    pattern: Seq<char>,
    ignore_case: bool,
    haystack: Seq<char>,
    replacement: Seq<char>,
) -> Seq<char>;

/// The characters that have a meaning of their own in a pattern.
pub open spec fn is_meta_character(c: char) -> bool {
    ||| c == '\\'
    ||| c == '.'
    ||| c == '+'
    ||| c == '*'
    ||| c == '?'
    ||| c == '('
    ||| c == ')'
    ||| c == '|'
    ||| c == '['
    ||| c == ']'
    ||| c == '{'
    ||| c == '}'
    ||| c == '^'
    ||| c == '$'
    ||| c == '#'
    ||| c == '&'
    ||| c == '-'
    ||| c == '~'
}

/// `text` with a backslash in front of every meta character, so that as a
/// pattern it matches `text` and nothing else.
pub open spec fn escaped(text: Seq<char>) -> Seq<char>
    decreases text.len(),
{
    if text.len() == 0 {
        Seq::empty()
    } else if is_meta_character(text.last()) {
        escaped(text.drop_last()).push('\\').push(text.last())
    } else {
        escaped(text.drop_last()).push(text.last())
    }
}

/// `regex::escape`: walks the characters of `text` and writes each one out,
/// a backslash first where `regex_syntax::is_meta_character` holds of it.
#[verifier::external_body]
fn escape(text: &str) -> (out: String)
    ensures
        out@ == escaped(text@),
{
    regex::escape(text)
}

/// `regex::RegexBuilder::new(pattern).case_insensitive(ignore_case).build()`:
/// whether a regex comes back depends on the pattern and the case switch
/// alone, and the regex that comes back keeps both.
#[verifier::external_body]
fn build_regex(pattern: &str, ignore_case: bool) -> (built: Result<regex::Regex, regex::Error>)
    ensures
        built is Ok <==> pattern_compiles(pattern@, ignore_case),
        built matches Ok(re) ==> regex_pattern(re) == pattern@ && regex_ignores_case(re)
            == ignore_case,
{
    regex::RegexBuilder::new(pattern).case_insensitive(ignore_case).build()
}

/// `regex::Regex::is_match`: true if and only if the regex matches
/// somewhere in `haystack`.
#[verifier::external_body]
fn regex_is_match(re: &regex::Regex, haystack: &str) -> (found: bool)
    ensures
        found == pattern_matches(regex_pattern(*re), regex_ignores_case(*re), haystack@),
{
    re.is_match(haystack)
}

/// `regex::Regex::replace_all` with a string as the replacement, its result
/// taken as an owned string.
#[verifier::external_body]
fn regex_replace_all(re: &regex::Regex, haystack: &str, replacement: &str) -> (out: String)
    ensures
        out@ == pattern_replace_all(
            regex_pattern(*re),
            regex_ignores_case(*re),
            haystack@,
            replacement@,
        ),
{
    re.replace_all(haystack, replacement).into_owned()
}

/// The `Display` text of a `regex::Error`.
#[verifier::external_body]
fn regex_error_text(error: &regex::Error) -> (text: String) {
    error.to_string()
}

/// What a matcher is, as far as its behaviour goes: the pattern text and the
/// case switch.
pub struct PatternSpec {
    pub source: Seq<char>,
    pub ignore_case: bool,
}

impl PatternSpec {
    /// Whether the pattern engine takes the pattern.
    pub open spec fn compiles(self) -> bool {
        pattern_compiles(self.source, self.ignore_case)
    }

    pub open spec fn matches(self, text: Seq<char>) -> bool {
        pattern_matches(self.source, self.ignore_case, text)
    }

    pub open spec fn replace_all(self, text: Seq<char>, replacement: Seq<char>) -> Seq<char> {
        pattern_replace_all(self.source, self.ignore_case, text, replacement)
    }
}

/// The assertion that stands on both sides of a whole-word pattern.
pub open spec fn word_boundary() -> Seq<char> {
    seq!['\\', 'b']
}

/// The pattern text for a query: escaped unless it is a regex, and wrapped
/// in word boundaries for a whole-word search.
pub open spec fn pattern_source(query: Seq<char>, is_regex: bool, whole_word: bool) -> Seq<char> {
    let core = if is_regex {
        query
    } else {
        escaped(query)
    };
    if whole_word {
        word_boundary() + core + word_boundary()
    } else {
        core
    }
}

/// The matcher that a query asks for.
pub open spec fn requested_pattern(
    query: Seq<char>,
    is_regex: bool,
    case_sensitive: bool,
    whole_word: bool,
) -> PatternSpec {
    PatternSpec {
        source: pattern_source(query, is_regex, whole_word),
        ignore_case: !case_sensitive,
    }
}

/// A matcher, built once per invocation.
pub struct CompiledPattern {
    regex: regex::Regex,
}

impl View for CompiledPattern {
    type V = PatternSpec;

    closed spec fn view(&self) -> PatternSpec {
        PatternSpec {
            source: regex_pattern(self.regex),
            ignore_case: regex_ignores_case(self.regex),
        }
    }
}

impl CompiledPattern {
    /// Whether the pattern matches somewhere in `text`.
    pub fn is_match(&self, text: &str) -> (found: bool)
        ensures
            found == self@.matches(text@),
    {
        regex_is_match(&self.regex, text)
    }

    /// `text` with every match replaced.
    pub fn replace_all(&self, text: &str, replacement: &str) -> (out: String)
        ensures
            out@ == self@.replace_all(text@, replacement@),
    {
        regex_replace_all(&self.regex, text, replacement)
    }
}

/// Writes out the pattern text for a query.
pub fn build_pattern_source(query: &str, is_regex: bool, whole_word: bool) -> (source: String)
    ensures
        source@ == pattern_source(query@, is_regex, whole_word),
{
    let core = if is_regex {
        String::from_str(query)
    } else {
        escape(query)
    };
    if whole_word {
        proof {
            reveal_strlit("\\b");
            assert("\\b"@ =~= word_boundary());
        }
        let mut source = String::from_str("\\b");
        source.append(core.as_str());
        source.append("\\b");
        source
    } else {
        core
    }
}

/// Turns what the pattern engine handed back into a matcher or into the
/// error that ends the invocation.
pub fn finish_compile(built: Result<regex::Regex, regex::Error>) -> (compiled: Result<
    CompiledPattern,
    SearchError,
>)
    ensures
        match built {
            Ok(re) => compiled is Ok && compiled->Ok_0@ == (PatternSpec {
                source: regex_pattern(re),
                ignore_case: regex_ignores_case(re),
            }),
            Err(_) => compiled is Err && compiled->Err_0 is InvalidPattern,
        },
{
    match built {
        Ok(regex) => Ok(CompiledPattern { regex }),
        Err(error) => Err(SearchError::InvalidPattern { detail: regex_error_text(&error) }),
    }
}

/// Compiles the matcher for a query. The query is taken where the pattern
/// engine compiles the pattern text that it gives, and only there; a
/// matcher that comes back is the one that was asked for.
pub fn compile_pattern(query: &str, is_regex: bool, case_sensitive: bool, whole_word: bool) -> (compiled:
    Result<CompiledPattern, SearchError>)
    ensures
        compiled is Ok <==> requested_pattern(
            query@,
            is_regex,
            case_sensitive,
            whole_word,
        ).compiles(),
        match compiled {
            Ok(pattern) => pattern@ == requested_pattern(
                query@,
                is_regex,
                case_sensitive,
                whole_word,
            ),
            Err(error) => error is InvalidPattern,
        },
{
    let source = build_pattern_source(query, is_regex, whole_word);
    finish_compile(build_regex(source.as_str(), !case_sensitive))
}

} // verus!
