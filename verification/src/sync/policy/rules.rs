//! Ignore rules, compiled once and matched against paths.

use ignore::gitignore::{Gitignore, GitignoreBuilder};
use ignore::overrides::{Override, OverrideBuilder};
use vstd::prelude::*;
use vstd::string::*;

use crate::text::{copy_text, trim_end};

verus! {

/// `ignore::gitignore::GitignoreBuilder`: the rules added so far.
#[verifier::external_type_specification]
#[verifier::external_body]
pub struct ExGitignoreBuilder(GitignoreBuilder);

/// `ignore::gitignore::Gitignore`: compiled rules.
#[verifier::external_type_specification]
#[verifier::external_body]
pub struct ExGitignore(Gitignore);

/// `ignore::overrides::OverrideBuilder`: the globs added so far.
#[verifier::external_type_specification]
#[verifier::external_body]
pub struct ExOverrideBuilder(OverrideBuilder);

/// `ignore::overrides::Override`: compiled globs.
#[verifier::external_type_specification]
#[verifier::external_body]
pub struct ExOverride(Override);

/// What a set of rules says of a path.
#[derive(Clone, Copy, Debug, PartialEq, Eq, Structural)]
pub enum RuleMatch {
    /// No rule speaks of the path.
    Unmatched,
    Ignored,
    Whitelisted,
}

/// The rule that a line of an ignore file holds: comments and blank lines hold
/// none, and white space behind a rule does not belong to it unless the last
/// space is escaped.
pub open spec fn rule_of(line: Seq<char>) -> Option<Seq<char>> {
    let rule = if "\\ "@.is_suffix_of(line) {
        line
    } else {
        trim_end(line)
    };
    if "#"@.is_prefix_of(line) || rule.len() == 0 {
        None
    } else {
        Some(rule)
    }
}

/// The directory whose paths a builder's rules are matched below.
pub uninterp spec fn builder_root(builder: GitignoreBuilder) -> Seq<char>;

/// The rules that a builder holds, in order.
pub uninterp spec fn builder_rules(builder: GitignoreBuilder) -> Seq<Seq<char>>;

/// The directory whose paths compiled rules are matched below, where there are
/// any.
pub uninterp spec fn rules_root(rules: Gitignore) -> Seq<char>;

/// The rules that were compiled, in order.
pub uninterp spec fn rules_of(rules: Gitignore) -> Seq<Seq<char>>;

/// Why a rule is not a glob, where it is not.
pub uninterp spec fn rule_error(rule: Seq<char>) -> Option<Seq<char>>;

/// Why rules cannot be compiled together, where they cannot.
pub uninterp spec fn rules_error(rules: Seq<Seq<char>>) -> Option<Seq<char>>;

/// What the rules below a directory say of a path, for rules of which there is
/// at least one.
pub uninterp spec fn gitignore_match(
    root: Seq<char>,
    rules: Seq<Seq<char>>,
    path: Seq<char>,
    is_dir: bool,
) -> RuleMatch;

/// What compiled rules say of a path: an empty set says nothing.
pub open spec fn says(rules: Gitignore, path: Seq<char>, is_dir: bool) -> RuleMatch {
    if rules_of(rules).len() == 0 {
        RuleMatch::Unmatched
    } else {
        gitignore_match(rules_root(rules), rules_of(rules), path, is_dir)
    }
}

/// The fault that a result reports, where it reports one.
pub open spec fn fault_of(result: Result<(), String>) -> Option<Seq<char>> {
    match result {
        Ok(_) => None,
        Err(error) => Some(error@),
    }
}

/// `GitignoreBuilder::new`: a builder without rules for paths below `root`. A
/// leading `./` would be dropped from the root, so the root is absolute.
#[verifier::external_body]
pub(crate) fn new_builder(root: &str) -> (builder: GitignoreBuilder)
    requires
        root@.len() > 0,
        root@[0] == '/',
    ensures
        builder_root(builder) == root@,
        builder_rules(builder) == Seq::<Seq<char>>::empty(),
{
    GitignoreBuilder::new(root)
}

/// `GitignoreBuilder::add_line`: the rule of the line goes behind the others. A
/// line without a rule changes nothing, and neither does a rule that is not a
/// glob, which is reported; whether it is one depends on the rule alone.
#[verifier::external_body]
pub(crate) fn add_line(builder: &mut GitignoreBuilder, line: &str) -> (added: Result<(), String>)
    ensures
        builder_root(*final(builder)) == builder_root(*old(builder)),
        builder_rules(*final(builder)) == rules_with(builder_rules(*old(builder)), line@),
        match rule_of(line@) {
            Some(rule) => rule_error(rule) == fault_of(added),
            None => added is Ok,
        },
{
    builder.add_line(None, line).map(|_| ()).map_err(|error| error.to_string())
}

/// Why a line cannot be added, where it cannot.
pub open spec fn line_fault(line: Seq<char>) -> Option<Seq<char>> {
    match rule_of(line) {
        Some(rule) => rule_error(rule),
        None => None,
    }
}

/// Some rules and the rule of one more line, where it has one that is a glob.
pub open spec fn rules_with(rules: Seq<Seq<char>>, line: Seq<char>) -> Seq<Seq<char>> {
    match rule_of(line) {
        Some(rule) if rule_error(rule) is None => rules.push(rule),
        _ => rules,
    }
}

/// `GitignoreBuilder::build`: the builder's rules, compiled. Whether they can be
/// compiled together depends on the rules alone.
#[verifier::external_body]
pub(crate) fn compile(builder: &GitignoreBuilder) -> (compiled: Result<Gitignore, String>)
    ensures
        rules_error(builder_rules(*builder)) == match compiled {
            Ok(_) => None,
            Err(error) => Some(error@),
        },
        compiled matches Ok(rules) ==> rules_of(rules) == builder_rules(*builder) && (rules_of(
            rules,
        ).len() > 0 ==> rules_root(rules) == builder_root(*builder)),
{
    builder.build().map_err(|error| error.to_string())
}

/// `Gitignore::empty`: rules of which there are none.
#[verifier::external_body]
pub(crate) fn no_rules() -> (rules: Gitignore)
    ensures
        rules_of(rules) == Seq::<Seq<char>>::empty(),
{
    Gitignore::empty()
}

/// `Gitignore::matched`: what the rules say of a path depends on the rules,
/// their directory, the path, and whether it is a directory; an empty set of
/// rules matches nothing.
#[verifier::external_body]
pub(crate) fn matched(rules: &Gitignore, path: &str, is_dir: bool) -> (found: RuleMatch)
    ensures
        rules_of(*rules).len() == 0 ==> found == RuleMatch::Unmatched,
        rules_of(*rules).len() > 0 ==> found == gitignore_match(
            rules_root(*rules),
            rules_of(*rules),
            path@,
            is_dir,
        ),
{
    match rules.matched(path, is_dir) {
        ignore::Match::None => RuleMatch::Unmatched,
        ignore::Match::Ignore(_) => RuleMatch::Ignored,
        ignore::Match::Whitelist(_) => RuleMatch::Whitelisted,
    }
}

/// The first of some verdicts that says anything.
pub open spec fn first_decisive(verdicts: Seq<RuleMatch>) -> RuleMatch
    decreases verdicts.len(),
{
    if verdicts.len() == 0 {
        RuleMatch::Unmatched
    } else if verdicts[0] != RuleMatch::Unmatched {
        verdicts[0]
    } else {
        first_decisive(verdicts.drop_first())
    }
}

pub fn first_verdict(verdicts: &Vec<RuleMatch>) -> (verdict: RuleMatch)
    ensures
        verdict == first_decisive(verdicts@),
{
    let mut i: usize = 0;
    assert(verdicts@.skip(0) =~= verdicts@);
    while i < verdicts.len()
        invariant
            i <= verdicts@.len(),
            first_decisive(verdicts@) == first_decisive(verdicts@.skip(i as int)),
        decreases verdicts@.len() - i,
    {
        assert(verdicts@.skip(i as int).drop_first() =~= verdicts@.skip(i + 1));
        match verdicts[i] {
            RuleMatch::Unmatched => {},
            found => return found,
        }
        i = i + 1;
    }
    RuleMatch::Unmatched
}

/// The directory whose paths a glob builder's globs are matched below.
pub uninterp spec fn override_builder_root(builder: OverrideBuilder) -> Seq<char>;

/// The globs that a builder holds, in order.
pub uninterp spec fn override_builder_globs(builder: OverrideBuilder) -> Seq<Seq<char>>;

/// The directory whose paths compiled globs are matched below, where there are
/// any.
pub uninterp spec fn override_root(globs: Override) -> Seq<char>;

/// The globs that were compiled, in order.
pub uninterp spec fn override_globs(globs: Override) -> Seq<Seq<char>>;

/// Why a glob cannot be added, where it cannot.
pub uninterp spec fn glob_error(glob: Seq<char>) -> Option<Seq<char>>;

/// Why globs cannot be compiled together, where they cannot.
pub uninterp spec fn globs_error(globs: Seq<Seq<char>>) -> Option<Seq<char>>;

/// Whether globs, of which there is at least one, ignore a path.
pub uninterp spec fn override_ignores(
    root: Seq<char>,
    globs: Seq<Seq<char>>,
    path: Seq<char>,
    is_dir: bool,
) -> bool;

/// Whether compiled globs ignore a path: an empty set ignores nothing.
pub open spec fn excludes(globs: Override, path: Seq<char>, is_dir: bool) -> bool {
    override_globs(globs).len() > 0 && override_ignores(
        override_root(globs),
        override_globs(globs),
        path,
        is_dir,
    )
}

/// `OverrideBuilder::new`: a builder without globs for paths below `root`.
#[verifier::external_body]
fn new_override_builder(root: &str) -> (builder: OverrideBuilder)
    requires
        root@.len() > 0,
        root@[0] == '/',
    ensures
        override_builder_root(builder) == root@,
        override_builder_globs(builder) == Seq::<Seq<char>>::empty(),
{
    OverrideBuilder::new(root)
}

/// Some globs and one more line, where it holds one that can be added.
pub open spec fn globs_with(globs: Seq<Seq<char>>, line: Seq<char>) -> Seq<Seq<char>> {
    match rule_of(line) {
        Some(glob) if glob_error(glob) is None => globs.push(glob),
        _ => globs,
    }
}

/// Why a line cannot be added to globs, where it cannot.
pub open spec fn glob_fault(line: Seq<char>) -> Option<Seq<char>> {
    match rule_of(line) {
        Some(glob) => glob_error(glob),
        None => None,
    }
}

/// `OverrideBuilder::add`: the glob of the line goes behind the others, as a
/// line of an ignore file would; one that is not valid is reported and changes
/// nothing.
#[verifier::external_body]
fn add_glob(builder: &mut OverrideBuilder, line: &str) -> (added: Result<(), String>)
    ensures
        override_builder_root(*final(builder)) == override_builder_root(*old(builder)),
        override_builder_globs(*final(builder)) == globs_with(
            override_builder_globs(*old(builder)),
            line@,
        ),
        match rule_of(line@) {
            Some(glob) => glob_error(glob) == fault_of(added),
            None => added is Ok,
        },
{
    builder.add(line).map(|_| ()).map_err(|error| error.to_string())
}

/// `OverrideBuilder::build`: the builder's globs, compiled.
#[verifier::external_body]
fn compile_globs(builder: &OverrideBuilder) -> (compiled: Result<Override, String>)
    ensures
        globs_error(override_builder_globs(*builder)) == match compiled {
            Ok(_) => None,
            Err(error) => Some(error@),
        },
        compiled matches Ok(globs) ==> override_globs(globs) == override_builder_globs(*builder)
            && (override_globs(globs).len() > 0 ==> override_root(globs) == override_builder_root(
            *builder,
        )),
{
    builder.build().map_err(|error| error.to_string())
}

/// `Override::matched` and `Match::is_ignore`: whether the globs ignore a path
/// depends on the globs, their directory, the path, and whether it is a
/// directory; an empty set ignores nothing.
#[verifier::external_body]
pub(crate) fn ignored_by(globs: &Override, path: &str, is_dir: bool) -> (ignored: bool)
    ensures
        override_globs(*globs).len() == 0 ==> !ignored,
        override_globs(*globs).len() > 0 ==> ignored == override_ignores(
            override_root(*globs),
            override_globs(*globs),
            path@,
            is_dir,
        ),
{
    globs.matched(path, is_dir).is_ignore()
}

/// The globs that a list of patterns gives, each of which excludes what it
/// matches, or the first fault.
pub open spec fn exclude_globs(patterns: Seq<Seq<char>>) -> Result<Seq<Seq<char>>, Seq<char>>
    decreases patterns.len(),
{
    if patterns.len() == 0 {
        Ok(seq![])
    } else {
        match exclude_globs(patterns.drop_last()) {
            Err(error) => Err(error),
            Ok(globs) => match glob_fault("!"@ + patterns.last()) {
                Some(error) => Err(error),
                None => Ok(globs_with(globs, "!"@ + patterns.last())),
            },
        }
    }
}

/// The patterns of a slice, as texts.
pub open spec fn pattern_texts(patterns: Seq<&str>) -> Seq<Seq<char>> {
    patterns.map_values(|p: &str| p@)
}

/// Compiles the built-in file globs. The meaning of a leading `!` is inverted
/// in this kind of matcher: it excludes.
pub fn exclude_overrides(root: &str, patterns: &[&str]) -> (globs: Result<Override, String>)
    requires
        root@.len() > 0,
        root@[0] == '/',
    ensures
        match exclude_globs(pattern_texts(patterns@)) {
            Err(error) => globs matches Err(reason) && reason@ == error,
            Ok(list) => match globs_error(list) {
                Some(error) => globs matches Err(reason) && reason@ == error,
                None => globs matches Ok(compiled) && override_globs(compiled) == list && (
                list.len() > 0 ==> override_root(compiled) == root@),
            },
        },
{
    let ghost all = pattern_texts(patterns@);
    let mut builder = new_override_builder(root);
    let mut i: usize = 0;
    assert(all.take(0) =~= Seq::<Seq<char>>::empty());
    while i < patterns.len()
        invariant
            i <= patterns@.len(),
            all == pattern_texts(patterns@),
            override_builder_root(builder) == root@,
            exclude_globs(all.take(i as int)) == Ok::<Seq<Seq<char>>, Seq<char>>(
                override_builder_globs(builder),
            ),
        decreases patterns@.len() - i,
    {
        let mut line = copy_text("!");
        line.push_str(patterns[i]);
        assert(all.take(i + 1).drop_last() =~= all.take(i as int));
        assert(all.take(i + 1).last() == patterns@[i as int]@);
        match add_glob(&mut builder, line.as_str()) {
            Ok(()) => {},
            Err(error) => {
                proof {
                    lemma_glob_fault_stays(all, i + 1, error@);
                }
                return Err(error);
            },
        }
        i = i + 1;
    }
    assert(all.take(i as int) =~= all);
    compile_globs(&builder)
}

/// A fault among the first patterns is the fault of all of them.
proof fn lemma_glob_fault_stays(patterns: Seq<Seq<char>>, n: int, error: Seq<char>)
    requires
        0 <= n <= patterns.len(),
        exclude_globs(patterns.take(n)) == Err::<Seq<Seq<char>>, Seq<char>>(error),
    ensures
        exclude_globs(patterns) == Err::<Seq<Seq<char>>, Seq<char>>(error),
    decreases patterns.len() - n,
{
    if n == patterns.len() {
        assert(patterns.take(n) =~= patterns);
    } else {
        assert(patterns.take(n + 1).drop_last() =~= patterns.take(n));
        lemma_glob_fault_stays(patterns, n + 1, error);
    }
}

/// What a line of rules says: a comment and an empty line hold no rule, and any
/// other line is its rule, without the white space at its end unless a backslash
/// keeps it.
pub proof fn law_what_a_rule_line_says(line: Seq<char>)
    ensures
        "#"@.is_prefix_of(line) ==> rule_of(line) is None,
        !"#"@.is_prefix_of(line) && "\\ "@.is_suffix_of(line) ==> rule_of(line) == Some(line),
        !"#"@.is_prefix_of(line) && !"\\ "@.is_suffix_of(line) ==> rule_of(line) == (if trim_end(
            line,
        ).len() == 0 {
            None
        } else {
            Some(trim_end(line))
        }),
{
    reveal_strlit("\\ ");
    if "\\ "@.is_suffix_of(line) {
        assert(line.len() >= 2);
    }
}

/// A rule without a fault is kept behind the ones before it; a line without a rule,
/// or with a faulty one, keeps none.
pub proof fn law_rules_are_kept_in_order(rules: Seq<Seq<char>>, line: Seq<char>, rule: Seq<char>)
    ensures
        rule_of(line) is None ==> rules_with(rules, line) == rules && line_fault(line) is None,
        rule_of(line) == Some(rule) && rule_error(rule) is None ==> rules_with(rules, line)
            == rules + seq![rule] && line_fault(line) is None,
        rule_of(line) == Some(rule) && rule_error(rule) is Some ==> rules_with(rules, line) == rules
            && line_fault(line) == rule_error(rule),
{
}

/// Of several verdicts the first one that says something decides, and without one
/// nothing is said.
pub proof fn law_the_first_verdict_decides(verdicts: Seq<RuleMatch>, at: int)
    ensures
        (forall|i: int| 0 <= i < verdicts.len() ==> #[trigger] verdicts[i] == RuleMatch::Unmatched)
            ==> first_decisive(verdicts) == RuleMatch::Unmatched,
        0 <= at < verdicts.len() && verdicts[at] != RuleMatch::Unmatched && (forall|i: int|
            0 <= i < at ==> #[trigger] verdicts[i] == RuleMatch::Unmatched) ==> first_decisive(
            verdicts,
        ) == verdicts[at],
    decreases verdicts.len(),
{
    if verdicts.len() > 0 && verdicts[0] == RuleMatch::Unmatched {
        let rest = verdicts.drop_first();
        law_the_first_verdict_decides(rest, at - 1);
        assert(forall|i: int| 0 <= i < rest.len() ==> #[trigger] rest[i] == verdicts[i + 1]);
    }
}

/// A pattern that is to be excluded is an override that begins with an exclamation
/// mark; every pattern without a fault is there, behind the ones before it, and the
/// first fault is reported.
pub proof fn law_every_pattern_excludes(patterns: Seq<Seq<char>>, more: Seq<char>)
    ensures
        exclude_globs(seq![]) == Ok::<Seq<Seq<char>>, Seq<char>>(seq![]),
        exclude_globs(patterns) is Err ==> exclude_globs(patterns.push(more)) == exclude_globs(
            patterns,
        ),
        exclude_globs(patterns) matches Ok(globs) ==> match rule_of("!"@ + more) {
            None => exclude_globs(patterns.push(more)) == exclude_globs(patterns),
            Some(glob) => exclude_globs(patterns.push(more)) == match glob_error(glob) {
                None => Ok::<Seq<Seq<char>>, Seq<char>>(globs + seq![glob]),
                Some(error) => Err(error),
            },
        },
{
    assert(patterns.push(more).drop_last() =~= patterns);
    if exclude_globs(patterns) is Ok && rule_of("!"@ + more) is Some {
        let globs = exclude_globs(patterns)->Ok_0;
        let glob = rule_of("!"@ + more)->0;
        assert(globs.push(glob) =~= globs + seq![glob]);
    }
}

/// Rules and overrides say what the outside matcher says of their root, their list
/// and the path; an empty list says nothing.
pub proof fn law_rules_say_what_their_list_says(
    rules: Gitignore,
    globs: Override,
    path: Seq<char>,
    is_dir: bool,
)
    ensures
        rules_of(rules).len() == 0 ==> says(rules, path, is_dir) == RuleMatch::Unmatched,
        rules_of(rules).len() > 0 ==> says(rules, path, is_dir) == gitignore_match(
            rules_root(rules),
            rules_of(rules),
            path,
            is_dir,
        ),
        override_globs(globs).len() == 0 ==> !excludes(globs, path, is_dir),
        override_globs(globs).len() > 0 ==> excludes(globs, path, is_dir) == override_ignores(
            override_root(globs),
            override_globs(globs),
            path,
            is_dir,
        ),
{
}

} // verus!
