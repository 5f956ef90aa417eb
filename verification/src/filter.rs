//! The rules that decide which files of the tree a walk yields.
//!
//! A rule is one line in the manner of an ignore file, read the other way
//! round: a line that begins with `!` excludes, any other line includes.

use vstd::prelude::*;
use vstd::string::StringExecFns;
use crate::text::{is_whitespace, lemma_trim_ends, texts, trim, trim_text};

verus! {

#[verifier::external_type_specification]
#[verifier::external_body]
pub struct ExOverrideBuilder(ignore::overrides::OverrideBuilder);

#[verifier::external_type_specification]
#[verifier::external_body]
pub struct ExOverride(ignore::overrides::Override);

#[verifier::external_type_specification]
#[verifier::external_body]
pub struct ExIgnoreError(ignore::Error);

/// The rule lines that a builder holds, in the order in which they were
/// added.
pub uninterp spec fn builder_rules(builder: ignore::overrides::OverrideBuilder) -> Seq<Seq<char>>;

/// The rule lines that a finished rule set was built from.
pub uninterp spec fn override_rules(overrides: ignore::overrides::Override) -> Seq<Seq<char>>;

/// Whether a line parses as a glob, so that
/// `ignore::overrides::OverrideBuilder::add` takes it, on a builder with
/// the settings that it was made with.
pub uninterp spec fn rule_parses(line: Seq<char>) -> bool;

/// Whether a rule set can be built from the given rule lines: what decides
/// between `Ok` and `Err` in `ignore::overrides::OverrideBuilder::build`.
pub uninterp spec fn rules_build(rules: Seq<Seq<char>>) -> bool;

/// A line that a builder takes as it stands: it is not empty, is no comment
/// and does not end in whitespace.
pub open spec fn is_plain_line(line: Seq<char>) -> bool {
    &&& line.len() > 0
    &&& line.first() != '#'
    &&& !is_whitespace(line.last())
}

/// `ignore::overrides::OverrideBuilder::new`: a builder that holds no rule.
#[verifier::external_body]
fn new_builder(root: &str) -> (builder: ignore::overrides::OverrideBuilder)
    ensures
        builder_rules(builder) == Seq::<Seq<char>>::empty(),
{
    ignore::overrides::OverrideBuilder::new(root)
}

/// `ignore::overrides::OverrideBuilder::add`: a plain line that parses as a
/// glob is appended to the rules as it stands; one that does not parse is
/// refused and the builder stays as it was. Of other lines, which the
/// builder may strip or skip, nothing is claimed.
#[verifier::external_body]
fn add_rule(builder: &mut ignore::overrides::OverrideBuilder, line: &str) -> (added: bool)
    ensures
        is_plain_line(line@) ==> added == rule_parses(line@),
        is_plain_line(line@) ==> builder_rules(*final(builder)) == if added {
            builder_rules(*old(builder)).push(line@)
        } else {
            builder_rules(*old(builder))
        },
{
    builder.add(line).is_ok()
}

/// `ignore::overrides::OverrideBuilder::build`: whether a rule set comes
/// back depends on the rules that the builder holds, and one that comes
/// back was built from them. From a builder that holds no rule, a rule set
/// always comes back: the build hands out the empty set before it does
/// anything that can fail.
#[verifier::external_body]
fn finish_builder(builder: &ignore::overrides::OverrideBuilder) -> (built: Result<
    ignore::overrides::Override,
    ignore::Error,
>)
    ensures
        built is Ok <==> rules_build(builder_rules(*builder)),
        built matches Ok(overrides) ==> override_rules(overrides) == builder_rules(*builder),
        builder_rules(*builder).len() == 0 ==> built is Ok,
{
    builder.build()
}

/// The line that excludes everything under a directory of the given name,
/// wherever in the tree it stands.
pub open spec fn exclude_rule(name: Seq<char>) -> Seq<char> {
    seq!['!', '*', '*', '/'] + name + seq!['/', '*', '*']
}

/// The line that includes the files of the given name, wherever in the
/// tree they stand.
pub open spec fn include_rule(name: Seq<char>) -> Seq<char> {
    seq!['*', '*', '/'] + name
}

/// The directories that no search descends into.
pub open spec fn builtin_excludes() -> Seq<Seq<char>> {
    seq![
        "node_modules"@,
        ".git"@,
        "target"@,
        "dist"@,
        "build"@,
        ".idea"@,
        ".vscode"@,
    ]
}

/// The lines for the caller's exclude fragments: each is trimmed, and one
/// that is blank gives no line.
pub open spec fn exclude_rules(fragments: Seq<Seq<char>>) -> Seq<Seq<char>>
    decreases fragments.len(),
{
    if fragments.len() == 0 {
        Seq::empty()
    } else {
        let earlier = exclude_rules(fragments.drop_last());
        let name = trim(fragments.last());
        if name.len() == 0 {
            earlier
        } else {
            earlier.push(exclude_rule(name))
        }
    }
}

/// The lines for the caller's include fragments: each is trimmed, and one
/// that is blank gives no line.
pub open spec fn include_rules(fragments: Seq<Seq<char>>) -> Seq<Seq<char>>
    decreases fragments.len(),
{
    if fragments.len() == 0 {
        Seq::empty()
    } else {
        let earlier = include_rules(fragments.drop_last());
        let name = trim(fragments.last());
        if name.len() == 0 {
            earlier
        } else {
            earlier.push(include_rule(name))
        }
    }
}

/// All the lines of a request, in order: the built-in exclusions, the
/// caller's exclusions, the caller's inclusions.
pub open spec fn filter_rules(excludes: Seq<Seq<char>>, includes: Seq<Seq<char>>) -> Seq<Seq<char>> {
    builtin_excludes().map_values(|name: Seq<char>| exclude_rule(name)) + exclude_rules(excludes)
        + include_rules(includes)
}

/// The lines that parse, in order: a malformed line is dropped and the
/// others stay.
pub open spec fn accepted_rules(lines: Seq<Seq<char>>) -> Seq<Seq<char>>
    decreases lines.len(),
{
    if lines.len() == 0 {
        Seq::empty()
    } else if rule_parses(lines.last()) {
        accepted_rules(lines.drop_last()).push(lines.last())
    } else {
        accepted_rules(lines.drop_last())
    }
}

pub open spec fn all_plain(lines: Seq<Seq<char>>) -> bool {
    forall|k: int| 0 <= k < lines.len() ==> is_plain_line(#[trigger] lines[k])
}

/// Writes out the line that excludes `name`.
pub fn make_exclude_rule(name: &str) -> (line: String)
    ensures
        line@ == exclude_rule(name@),
        is_plain_line(line@),
{
    proof {
        reveal_strlit("!**/");
        reveal_strlit("/**");
        assert("!**/"@ =~= seq!['!', '*', '*', '/']);
        assert("/**"@ =~= seq!['/', '*', '*']);
    }
    let mut line = String::from_str("!**/");
    line.append(name);
    line.append("/**");
    assert(line@.first() == '!');
    assert(line@.last() == '*');
    line
}

/// Writes out the line that includes `name`.
pub fn make_include_rule(name: &str) -> (line: String)
    ensures
        line@ == include_rule(name@),
        name@.len() > 0 && !is_whitespace(name@.last()) ==> is_plain_line(line@),
{
    proof {
        reveal_strlit("**/");
        assert("**/"@ =~= seq!['*', '*', '/']);
    }
    let mut line = String::from_str("**/");
    line.append(name);
    assert(line@.first() == '*');
    if name.unicode_len() > 0 {
        assert(line@.last() == name@.last());
    }
    line
}

fn push_exclude(lines: &mut Vec<String>, name: &str)
    requires
        all_plain(texts(old(lines)@)),
    ensures
        texts(final(lines)@) == texts(old(lines)@).push(exclude_rule(name@)),
        all_plain(texts(final(lines)@)),
{
    let line = make_exclude_rule(name);
    assert(texts(lines@.push(line)) =~= texts(lines@).push(line@));
    lines.push(line);
}

/// Writes out all the lines of a request.
pub fn build_filter_rules(excludes: &Vec<String>, includes: &Vec<String>) -> (lines: Vec<String>)
    ensures
        texts(lines@) == filter_rules(texts(excludes@), texts(includes@)),
        all_plain(texts(lines@)),
{
    let mut lines: Vec<String> = Vec::new();
    assert(texts(lines@) =~= Seq::<Seq<char>>::empty());
    push_exclude(&mut lines, "node_modules");
    push_exclude(&mut lines, ".git");
    push_exclude(&mut lines, "target");
    push_exclude(&mut lines, "dist");
    push_exclude(&mut lines, "build");
    push_exclude(&mut lines, ".idea");
    push_exclude(&mut lines, ".vscode");
    let ghost builtin = builtin_excludes().map_values(|name: Seq<char>| exclude_rule(name));
    assert(texts(lines@) =~= builtin);
    let ghost wanted = texts(excludes@);
    let mut i: usize = 0;
    assert(wanted.take(0) =~= Seq::<Seq<char>>::empty());
    assert(texts(lines@) =~= builtin + exclude_rules(wanted.take(0)));
    while i < excludes.len()
        invariant
            i <= excludes.len(),
            wanted == texts(excludes@),
            texts(lines@) == builtin + exclude_rules(wanted.take(i as int)),
            all_plain(texts(lines@)),
        decreases excludes.len() - i,
    {
        let name = trim_text(excludes[i].as_str());
        proof {
            assert(wanted.take(i + 1).drop_last() =~= wanted.take(i as int));
            assert(wanted.take(i + 1).last() == excludes@[i as int]@);
        }
        if name.as_str().unicode_len() > 0 {
            push_exclude(&mut lines, name.as_str());
            assert(texts(lines@) =~= builtin + exclude_rules(wanted.take(i + 1)));
        }
        i += 1;
    }
    assert(wanted.take(i as int) =~= wanted);
    let ghost first = texts(lines@);
    let ghost asked = texts(includes@);
    let mut j: usize = 0;
    assert(asked.take(0) =~= Seq::<Seq<char>>::empty());
    assert(texts(lines@) =~= first + include_rules(asked.take(0)));
    while j < includes.len()
        invariant
            j <= includes.len(),
            asked == texts(includes@),
            texts(lines@) == first + include_rules(asked.take(j as int)),
            all_plain(texts(lines@)),
        decreases includes.len() - j,
    {
        let name = trim_text(includes[j].as_str());
        proof {
            assert(asked.take(j + 1).drop_last() =~= asked.take(j as int));
            assert(asked.take(j + 1).last() == includes@[j as int]@);
            lemma_trim_ends(includes@[j as int]@);
        }
        if name.as_str().unicode_len() > 0 {
            let line = make_include_rule(name.as_str());
            assert(texts(lines@.push(line)) =~= texts(lines@).push(line@));
            lines.push(line);
            assert(texts(lines@) =~= first + include_rules(asked.take(j + 1)));
        }
        j += 1;
    }
    assert(asked.take(j as int) =~= asked);
    lines
}

/// Builds the rule set for a walk of the tree under `root`. A fragment
/// that gives a malformed line is dropped; the others stand. A rule set
/// comes back where one can be built from the lines that stand, which is
/// so at least where none stands; else the walk goes without one.
pub fn build_filter(root: &str, excludes: &Vec<String>, includes: &Vec<String>) -> (filter: Option<
    ignore::overrides::Override,
>)
    ensures
        filter is Some <==> rules_build(
            accepted_rules(filter_rules(texts(excludes@), texts(includes@))),
        ),
        filter matches Some(overrides) ==> override_rules(overrides) == accepted_rules(
            filter_rules(texts(excludes@), texts(includes@)),
        ),
        accepted_rules(filter_rules(texts(excludes@), texts(includes@))).len() == 0
            ==> filter is Some,
{
    let builder = load_filter_rules(root, excludes, includes);
    filter_from(finish_builder(&builder))
}

/// Hands every line of a request to a new builder. The builder then holds
/// the lines that parse, in order.
pub fn load_filter_rules(root: &str, excludes: &Vec<String>, includes: &Vec<String>) -> (builder:
    ignore::overrides::OverrideBuilder)
    ensures
        builder_rules(builder) == accepted_rules(
            filter_rules(texts(excludes@), texts(includes@)),
        ),
{
    let lines = build_filter_rules(excludes, includes);
    let ghost all = texts(lines@);
    let mut builder = new_builder(root);
    let mut i: usize = 0;
    assert(all.take(0) =~= Seq::<Seq<char>>::empty());
    while i < lines.len()
        invariant
            i <= lines.len(),
            all == texts(lines@),
            all_plain(all),
            builder_rules(builder) == accepted_rules(all.take(i as int)),
        decreases lines.len() - i,
    {
        proof {
            assert(all.take(i + 1).drop_last() =~= all.take(i as int));
            assert(all.take(i + 1).last() == lines@[i as int]@);
            assert(is_plain_line(all[i as int]));
        }
        add_rule(&mut builder, lines[i].as_str());
        i += 1;
    }
    assert(all.take(i as int) =~= all);
    builder
}

/// Turns what the build of a rule set gave into the filter of the walk:
/// the rule set where there is one, and no filter where the build failed.
pub fn filter_from(built: Result<ignore::overrides::Override, ignore::Error>) -> (filter: Option<
    ignore::overrides::Override,
>)
    ensures
        match built {
            Ok(overrides) => filter == Some(overrides),
            Err(_) => filter is None,
        },
{
    match built {
        Ok(overrides) => Some(overrides),
        Err(_) => None,
    }
}

} // verus!
