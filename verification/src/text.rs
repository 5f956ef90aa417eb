//! Character-level helpers on lines and paths.
//!
//! Every length in this module counts characters, not bytes.

use vstd::prelude::*;
use vstd::std_specs::iter::IteratorSpec;

verus! {

/// A line longer than this, terminator included, is never matched.
pub const MAX_LINE_CHARS: usize = 10000;

/// A displayed line is cut after this many characters.
pub const SNIPPET_CHARS: usize = 100;

/// `String::push`: appends one character to the end of the string.
#[verifier::external_body]
pub(crate) fn push_char(s: &mut String, c: char)
    ensures
        final(s)@ == old(s)@.push(c),
{
    s.push(c)
}

/// The characters of `s`, in order.
pub fn to_chars(s: &str) -> (chars: Vec<char>)
    ensures
        chars@ == s@,
{
    let mut chars: Vec<char> = Vec::new();
    let mut it = s.chars();
    proof {
        vstd::string::axiom_spec_iter(s);
    }
    loop
        invariant
            it.obeys_prophetic_iter_laws(),
            it.decrease() is Some,
            chars@ + it.remaining() == s@,
        ensures
            chars@ == s@,
        decreases it.decrease()->0,
    {
        let ghost before = it;
        let next = it.next();
        proof {
            vstd::string::next_postcondition(&before, &it, next);
        }
        match next {
            Some(c) => {
                chars.push(c);
                assert(chars@ + it.remaining() =~= s@);
            },
            None => {
                assert(chars@ =~= s@);
                break;
            },
        }
    }
    chars
}

/// The string made of `chars[from..to]`.
pub(crate) fn string_from(chars: &Vec<char>, from: usize, to: usize) -> (s: String)
    requires
        from <= to <= chars.len(),
    ensures
        s@ == chars@.subrange(from as int, to as int),
{
    let mut s = String::new();
    let mut i: usize = from;
    while i < to
        invariant
            from <= i <= to <= chars.len(),
            s@ == chars@.subrange(from as int, i as int),
        decreases to - i,
    {
        push_char(&mut s, chars[i]);
        i += 1;
        assert(s@ =~= chars@.subrange(from as int, i as int));
    }
    s
}

/// The characters with the Unicode property White_Space.
pub open spec fn is_whitespace(c: char) -> bool {
    let n = c as u32;
    ||| 0x09 <= n <= 0x0D
    ||| n == 0x20
    ||| n == 0x85
    ||| n == 0xA0
    ||| n == 0x1680
    ||| 0x2000 <= n <= 0x200A
    ||| n == 0x2028
    ||| n == 0x2029
    ||| n == 0x202F
    ||| n == 0x205F
    ||| n == 0x3000
}

/// Whether the character is whitespace.
pub fn char_is_whitespace(c: char) -> (b: bool)
    ensures
        b == is_whitespace(c),
{
    let n: u32 = c as u32;
    (0x09 <= n && n <= 0x0D) || n == 0x20 || n == 0x85 || n == 0xA0 || n == 0x1680 || (0x2000 <= n
        && n <= 0x200A) || n == 0x2028 || n == 0x2029 || n == 0x202F || n == 0x205F || n == 0x3000
}

/// Whether the line holds a NUL character, the mark of binary content.
pub open spec fn has_nul(line: Seq<char>) -> bool {
    line.contains('\0')
}

/// Whether one of the characters is NUL.
pub fn contains_nul(chars: &Vec<char>) -> (found: bool)
    ensures
        found == has_nul(chars@),
{
    let mut i: usize = 0;
    while i < chars.len()
        invariant
            i <= chars.len(),
            forall|j: int| 0 <= j < i ==> chars@[j] != '\0',
        decreases chars.len() - i,
    {
        if chars[i] == '\0' {
            return true;
        }
        i += 1;
    }
    false
}

/// Length of a raw line without its terminator, `"\n"` or `"\r\n"`.
pub open spec fn body_len(raw: Seq<char>) -> nat {
    if raw.len() >= 2 && raw[raw.len() - 1] == '\n' && raw[raw.len() - 2] == '\r' {
        (raw.len() - 2) as nat
    } else if raw.len() >= 1 && raw[raw.len() - 1] == '\n' {
        (raw.len() - 1) as nat
    } else {
        raw.len()
    }
}

/// A raw line without its terminator. A carriage return that no line feed
/// follows stays.
pub open spec fn strip_terminator(raw: Seq<char>) -> Seq<char> {
    raw.take(body_len(raw) as int)
}

/// The terminator of a raw line: `"\n"`, `"\r\n"` or nothing.
pub open spec fn terminator(raw: Seq<char>) -> Seq<char> {
    raw.skip(body_len(raw) as int)
}

/// The length of a raw line without its terminator.
pub fn line_body_len(chars: &Vec<char>) -> (n: usize)
    ensures
        n == body_len(chars@),
        n <= chars.len(),
{
    let len = chars.len();
    if len >= 2 && chars[len - 1] == '\n' && chars[len - 2] == '\r' {
        len - 2
    } else if len >= 1 && chars[len - 1] == '\n' {
        len - 1
    } else {
        len
    }
}

/// Number of whitespace characters at the front of `s`.
pub open spec fn leading_whitespace(s: Seq<char>) -> nat
    decreases s.len(),
{
    if s.len() == 0 || !is_whitespace(s.first()) {
        0
    } else {
        1 + leading_whitespace(s.drop_first())
    }
}

/// Number of whitespace characters at the back of `s`.
pub open spec fn trailing_whitespace(s: Seq<char>) -> nat
    decreases s.len(),
{
    if s.len() == 0 || !is_whitespace(s.last()) {
        0
    } else {
        1 + trailing_whitespace(s.drop_last())
    }
}

/// `s` without the whitespace at its front and at its back.
pub open spec fn trim(s: Seq<char>) -> Seq<char> {
    let rest = s.skip(leading_whitespace(s) as int);
    rest.take(rest.len() - trailing_whitespace(rest))
}

/// The whitespace at the front of `s` ends where the first character
/// stands that is none.
pub proof fn lemma_leading_whitespace(s: Seq<char>, k: int)
    requires
        0 <= k <= s.len(),
        forall|j: int| 0 <= j < k ==> is_whitespace(#[trigger] s[j]),
        k == s.len() || !is_whitespace(s[k]),
    ensures
        leading_whitespace(s) == k,
    decreases k,
{
    if k > 0 {
        let rest = s.drop_first();
        assert forall|j: int| 0 <= j < k - 1 implies is_whitespace(#[trigger] rest[j]) by {
            assert(rest[j] == s[j + 1]);
        }
        if k < s.len() {
            assert(rest[k - 1] == s[k]);
        }
        lemma_leading_whitespace(rest, k - 1);
    }
}

/// The whitespace at the back of `s` begins after the last character that
/// is none.
pub proof fn lemma_trailing_whitespace(s: Seq<char>, k: int)
    requires
        0 <= k <= s.len(),
        forall|j: int| s.len() - k <= j < s.len() ==> is_whitespace(#[trigger] s[j]),
        k == s.len() || !is_whitespace(s[s.len() - k - 1]),
    ensures
        trailing_whitespace(s) == k,
    decreases k,
{
    if k > 0 {
        let rest = s.drop_last();
        assert forall|j: int| rest.len() - (k - 1) <= j < rest.len() implies is_whitespace(
            #[trigger] rest[j],
        ) by {
            assert(rest[j] == s[j]);
        }
        if k < s.len() {
            assert(rest[rest.len() - (k - 1) - 1] == s[s.len() - k - 1]);
        }
        lemma_trailing_whitespace(rest, k - 1);
    }
}

/// The count of leading whitespace stops at the first character that is
/// none.
pub proof fn lemma_leading_whitespace_stops(s: Seq<char>)
    ensures
        leading_whitespace(s) <= s.len(),
        leading_whitespace(s) < s.len() ==> !is_whitespace(s[leading_whitespace(s) as int]),
    decreases s.len(),
{
    if s.len() > 0 && is_whitespace(s.first()) {
        let rest = s.drop_first();
        lemma_leading_whitespace_stops(rest);
        if leading_whitespace(rest) < rest.len() {
            assert(rest[leading_whitespace(rest) as int] == s[leading_whitespace(rest) as int + 1]);
        }
    }
}

/// The count of trailing whitespace stops at the last character that is
/// none.
pub proof fn lemma_trailing_whitespace_stops(s: Seq<char>)
    ensures
        trailing_whitespace(s) <= s.len(),
        trailing_whitespace(s) < s.len() ==> !is_whitespace(
            s[s.len() as int - trailing_whitespace(s) as int - 1],
        ),
    decreases s.len(),
{
    if s.len() > 0 && is_whitespace(s.last()) {
        let rest = s.drop_last();
        lemma_trailing_whitespace_stops(rest);
        if trailing_whitespace(rest) < rest.len() {
            assert(rest[rest.len() as int - trailing_whitespace(rest) as int - 1] == s[s.len() as int
                - trailing_whitespace(s) as int - 1]);
        }
    }
}

/// A trimmed text is no longer than the text, and where it is not empty it
/// begins and ends with a character that is no whitespace.
pub proof fn lemma_trim_ends(s: Seq<char>)
    ensures
        trim(s).len() <= s.len(),
        trim(s).len() > 0 ==> !is_whitespace(trim(s).first()) && !is_whitespace(trim(s).last()),
{
    lemma_leading_whitespace_stops(s);
    let rest = s.skip(leading_whitespace(s) as int);
    lemma_trailing_whitespace_stops(rest);
    if trim(s).len() > 0 {
        assert(trim(s).first() == s[leading_whitespace(s) as int]);
        assert(trim(s).last() == rest[rest.len() as int - trailing_whitespace(rest) as int - 1]);
    }
}

/// The bounds `(a, b)` of the trimmed part of `chars[from..to]`.
pub(crate) fn trim_bounds(chars: &Vec<char>, from: usize, to: usize) -> (bounds: (usize, usize))
    requires
        from <= to <= chars.len(),
    ensures
        from <= bounds.0 <= bounds.1 <= to,
        chars@.subrange(bounds.0 as int, bounds.1 as int) == trim(
            chars@.subrange(from as int, to as int),
        ),
{
    let ghost s = chars@.subrange(from as int, to as int);
    let mut a: usize = from;
    while a < to && char_is_whitespace(chars[a])
        invariant
            from <= a <= to <= chars.len(),
            forall|j: int| from <= j < a ==> is_whitespace(#[trigger] chars@[j]),
        decreases to - a,
    {
        a += 1;
    }
    let mut b: usize = to;
    while b > a && char_is_whitespace(chars[b - 1])
        invariant
            a <= b <= to <= chars.len(),
            forall|j: int| b <= j < to ==> is_whitespace(#[trigger] chars@[j]),
        decreases b - a,
    {
        b -= 1;
    }
    proof {
        assert forall|j: int| 0 <= j < a - from implies is_whitespace(#[trigger] s[j]) by {
            assert(s[j] == chars@[from + j]);
        }
        lemma_leading_whitespace(s, a - from);
        let rest = s.skip(a - from);
        assert(rest =~= chars@.subrange(a as int, to as int));
        assert forall|j: int| rest.len() - (to - b) <= j < rest.len() implies is_whitespace(
            #[trigger] rest[j],
        ) by {
            assert(rest[j] == chars@[a + j]);
        }
        lemma_trailing_whitespace(rest, to - b);
        assert(rest.take(rest.len() - (to - b)) =~= chars@.subrange(a as int, b as int));
    }
    (a, b)
}

/// What follows a displayed line that was cut.
pub open spec fn ellipsis() -> Seq<char> {
    seq!['.', '.', '.']
}

/// The line as it is displayed: trimmed, and cut after `SNIPPET_CHARS`
/// characters with an ellipsis in place of the rest.
pub open spec fn snippet(line: Seq<char>) -> Seq<char> {
    let shown = trim(line);
    if shown.len() > SNIPPET_CHARS {
        shown.take(SNIPPET_CHARS as int) + ellipsis()
    } else {
        shown
    }
}

/// The trimmed text of `chars[from..to]`.
pub(crate) fn trimmed(chars: &Vec<char>, from: usize, to: usize) -> (s: String)
    requires
        from <= to <= chars.len(),
    ensures
        s@ == trim(chars@.subrange(from as int, to as int)),
{
    let (a, b) = trim_bounds(chars, from, to);
    string_from(chars, a, b)
}

/// The snippet of `chars[from..to]`.
pub(crate) fn make_snippet(chars: &Vec<char>, from: usize, to: usize) -> (s: String)
    requires
        from <= to <= chars.len(),
    ensures
        s@ == snippet(chars@.subrange(from as int, to as int)),
{
    let (a, b) = trim_bounds(chars, from, to);
    if b - a > SNIPPET_CHARS {
        let mut s = string_from(chars, a, a + SNIPPET_CHARS);
        push_char(&mut s, '.');
        push_char(&mut s, '.');
        push_char(&mut s, '.');
        proof {
            let shown = chars@.subrange(a as int, b as int);
            assert(shown.take(SNIPPET_CHARS as int) =~= chars@.subrange(
                a as int,
                a + SNIPPET_CHARS,
            ));
            assert(s@ =~= shown.take(SNIPPET_CHARS as int) + ellipsis());
        }
        s
    } else {
        string_from(chars, a, b)
    }
}

/// `text` without the whitespace at its front and at its back.
pub fn trim_text(text: &str) -> (s: String)
    ensures
        s@ == trim(text@),
{
    let chars = to_chars(text);
    assert(chars@.subrange(0, chars.len() as int) =~= text@);
    trimmed(&chars, 0, chars.len())
}

/// The line as it is displayed.
pub fn display_snippet(line: &str) -> (s: String)
    ensures
        s@ == snippet(line@),
        s@.len() <= SNIPPET_CHARS + 3,
{
    let chars = to_chars(line);
    assert(chars@.subrange(0, chars.len() as int) =~= line@);
    make_snippet(&chars, 0, chars.len())
}

/// The path with every `/` replaced by `\`: two paths that differ only in
/// the style of their separators have the same normal form.
pub open spec fn normalize_separators(path: Seq<char>) -> Seq<char> {
    Seq::new(
        path.len(),
        |i: int|
            if path[i] == '/' {
                '\\'
            } else {
                path[i]
            },
    )
}

/// Writes out the normal form of a path.
pub fn normalized_path(path: &str) -> (out: String)
    ensures
        out@ == normalize_separators(path@),
{
    let chars = to_chars(path);
    let mut out = String::new();
    let mut i: usize = 0;
    while i < chars.len()
        invariant
            i <= chars.len(),
            chars@ == path@,
            out@ == normalize_separators(path@).take(i as int),
        decreases chars.len() - i,
    {
        let c = chars[i];
        if c == '/' {
            push_char(&mut out, '\\');
        } else {
            push_char(&mut out, c);
        }
        i += 1;
        assert(out@ =~= normalize_separators(path@).take(i as int));
    }
    assert(out@ =~= normalize_separators(path@));
    out
}

/// Length of the first raw line of `text`: up to and including the first
/// line feed, or all of `text` where it holds none.
pub open spec fn first_line_len(text: Seq<char>) -> nat
    decreases text.len(),
{
    if text.len() == 0 {
        0
    } else if text.first() == '\n' {
        1
    } else {
        1 + first_line_len(text.drop_first())
    }
}

/// The first raw line of a text that is not empty is not empty, and no
/// longer than the text.
pub proof fn lemma_first_line_len_bounds(text: Seq<char>)
    ensures
        first_line_len(text) <= text.len(),
        text.len() > 0 ==> first_line_len(text) >= 1,
    decreases text.len(),
{
    if text.len() > 0 && text.first() != '\n' {
        lemma_first_line_len_bounds(text.drop_first());
    }
}

/// The raw lines of `text`: each ends with its line feed, but for a last
/// line that has none. Their concatenation is `text`.
pub open spec fn raw_lines(text: Seq<char>) -> Seq<Seq<char>>
    decreases text.len(),
{
    if text.len() == 0 {
        Seq::empty()
    } else {
        proof {
            lemma_first_line_len_bounds(text);
        }
        let n = first_line_len(text) as int;
        seq![text.take(n)] + raw_lines(text.skip(n))
    }
}

/// The lines of `text` without their terminators.
pub open spec fn lines(text: Seq<char>) -> Seq<Seq<char>> {
    raw_lines(text).map_values(|raw: Seq<char>| strip_terminator(raw))
}

/// The first raw line ends with the first line feed, or with the text.
pub proof fn lemma_first_line_len(text: Seq<char>, k: int)
    requires
        0 <= k <= text.len(),
        forall|j: int| 0 <= j < k ==> #[trigger] text[j] != '\n',
        k == text.len() || text[k] == '\n',
    ensures
        first_line_len(text) == if k == text.len() {
            k
        } else {
            k + 1
        },
    decreases k,
{
    if k > 0 {
        let rest = text.drop_first();
        assert forall|j: int| 0 <= j < k - 1 implies #[trigger] rest[j] != '\n' by {
            assert(rest[j] == text[j + 1]);
        }
        if k < text.len() {
            assert(rest[k - 1] == text[k]);
        }
        lemma_first_line_len(rest, k - 1);
    }
}

/// The views of a sequence of strings.
pub open spec fn texts(strings: Seq<String>) -> Seq<Seq<char>> {
    strings.map_values(|s: String| s@)
}

/// Splits `text` into its raw lines.
pub fn split_raw_lines(text: &str) -> (out: Vec<String>)
    ensures
        texts(out@) == raw_lines(text@),
{
    let chars = to_chars(text);
    let n = chars.len();
    let mut out: Vec<String> = Vec::new();
    let mut current = String::new();
    let mut start: usize = 0;
    let mut i: usize = 0;
    assert(chars@.skip(0) =~= chars@);
    assert(texts(out@) =~= Seq::<Seq<char>>::empty());
    while i < n
        invariant
            start <= i <= n,
            n == chars.len(),
            chars@ == text@,
            current@ == chars@.subrange(start as int, i as int),
            forall|j: int| start <= j < i ==> #[trigger] chars@[j] != '\n',
            texts(out@) + raw_lines(chars@.skip(start as int)) == raw_lines(chars@),
        decreases n - i,
    {
        let c = chars[i];
        push_char(&mut current, c);
        i += 1;
        assert(current@ =~= chars@.subrange(start as int, i as int));
        if c == '\n' {
            proof {
                let rest = chars@.skip(start as int);
                let k = i - 1 - start;
                assert forall|j: int| 0 <= j < k implies #[trigger] rest[j] != '\n' by {
                    assert(rest[j] == chars@[start + j]);
                }
                assert(rest[k] == '\n');
                lemma_first_line_len(rest, k);
                assert(rest.take(k + 1) =~= chars@.subrange(start as int, i as int));
                assert(rest.skip(k + 1) =~= chars@.skip(i as int));
                assert(texts(out@.push(current)) =~= texts(out@) + seq![current@]);
            }
            out.push(current);
            current = String::new();
            start = i;
            assert(current@ =~= chars@.subrange(start as int, i as int));
        }
    }
    if start < n {
        proof {
            let rest = chars@.skip(start as int);
            assert forall|j: int| 0 <= j < rest.len() implies #[trigger] rest[j] != '\n' by {
                assert(rest[j] == chars@[start + j]);
            }
            lemma_first_line_len(rest, rest.len() as int);
            assert(rest.take(rest.len() as int) =~= chars@.subrange(start as int, n as int));
            assert(rest.skip(rest.len() as int) =~= Seq::<char>::empty());
            assert(texts(out@.push(current)) =~= texts(out@) + seq![current@]);
            assert(raw_lines(rest.skip(rest.len() as int)) =~= Seq::<Seq<char>>::empty());
            assert(raw_lines(rest) =~= seq![current@]);
        }
        out.push(current);
    } else {
        assert(chars@.skip(start as int) =~= Seq::<char>::empty());
        assert(texts(out@) + Seq::<Seq<char>>::empty() =~= texts(out@));
    }
    out
}

} // verus!
