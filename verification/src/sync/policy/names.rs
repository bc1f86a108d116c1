//! What the names of paths mean to the source policy.

use vstd::prelude::*;
use vstd::string::*;

use crate::paths::{is_under, path_set, PathName, DOT};
use crate::text::{chars_of, decoded, same_bytes, strip_prefix, strip_suffix, text_of_bytes};

verus! {

/// Whether `c` is a lower-case hexadecimal digit.
pub open spec fn is_lower_hex(c: char) -> bool {
    '0' <= c <= '9' || 'a' <= c <= 'f'
}

/// Whether `s` writes a number without superfluous zeros.
pub open spec fn is_plain_number(s: Seq<char>) -> bool {
    &&& s.len() > 0
    &&& forall|i: int| 0 <= i < s.len() ==> crate::text::is_digit(#[trigger] s[i])
    &&& s.len() == 1 || s[0] != '0'
}

/// The endings of private files.
pub open spec fn is_private_ending(s: Seq<char>) -> bool {
    s == ".edit"@ || s == ".tmp"@ || s == ".bak"@
}

/// Whether a private name is made of these parts.
pub open spec fn private_parts(
    name: Seq<char>,
    digest: Seq<char>,
    index: Seq<char>,
    ending: Seq<char>,
) -> bool {
    &&& digest.len() == 12
    &&& forall|i: int| 0 <= i < digest.len() ==> is_lower_hex(#[trigger] digest[i])
    &&& is_plain_number(index)
    &&& is_private_ending(ending)
    &&& name == ".semctl-"@ + digest + "-"@ + index + ending
}

/// Whether a name is one of the private scratch names: a digest, an index and
/// an ending.
pub open spec fn is_private_name(name: Seq<char>) -> bool {
    exists|digest: Seq<char>, index: Seq<char>, ending: Seq<char>|
        private_parts(name, digest, index, ending)
}

/// Whether one component of a path is a private name.
pub open spec fn private_path(path: Seq<Seq<u8>>) -> bool {
    exists|i: int|
        0 <= i < path.len() && (decoded(#[trigger] path[i]) matches Some(name) && is_private_name(
            name,
        ))
}

/// Whether a private name is this stem between its beginning and this ending.
pub open spec fn is_framed(name: Seq<char>, stem: Seq<char>, ending: Seq<char>) -> bool {
    is_private_ending(ending) && name == ".semctl-"@ + stem + ending
}

/// What stands between the beginning and the ending of a private name.
fn private_stem(name: &str) -> (stem: Option<String>)
    ensures
        match stem {
            Some(s) => exists|ending: Seq<char>| is_framed(name@, s@, ending),
            None => forall|s: Seq<char>, ending: Seq<char>| !is_framed(name@, s, ending),
        },
{
    proof {
        reveal_strlit(".edit");
        reveal_strlit(".tmp");
        reveal_strlit(".bak");
        assert(".edit"@.last() == 't' && ".edit"@.len() == 5);
        assert(".tmp"@.last() == 'p' && ".tmp"@.len() == 4);
        assert(".bak"@.last() == 'k' && ".bak"@.len() == 4);
    }
    let (inner, Ghost(ending)): (Option<String>, Ghost<Seq<char>>) = match strip_suffix(
        name,
        ".edit",
    ) {
        Some(rest) => (Some(rest), Ghost(".edit"@)),
        None => match strip_suffix(name, ".tmp") {
            Some(rest) => (Some(rest), Ghost(".tmp"@)),
            None => match strip_suffix(name, ".bak") {
                Some(rest) => (Some(rest), Ghost(".bak"@)),
                None => (None, Ghost(""@)),
            },
        },
    };
    match inner {
        None => {
            assert forall|s: Seq<char>, e: Seq<char>| !is_framed(name@, s, e) by {
                if is_framed(name@, s, e) {
                    assert(e =~= name@.subrange(name@.len() - e.len(), name@.len() as int));
                    assert(e.is_suffix_of(name@));
                }
            }
            None
        },
        Some(rest) => {
            assert(name@ =~= rest@ + ending);
            let stem = strip_prefix(rest.as_str(), ".semctl-");
            proof {
                if stem is Some {
                    let s = stem->0@;
                    assert(rest@ =~= ".semctl-"@ + s);
                    assert(name@ =~= ".semctl-"@ + s + ending);
                    assert(is_framed(name@, s, ending));
                } else {
                    assert forall|s: Seq<char>, e: Seq<char>| !is_framed(name@, s, e) by {
                        if is_framed(name@, s, e) {
                            assert(name@.last() == e.last());
                            assert(name@.last() == ending.last());
                            assert(e == ending);
                            assert(rest@ =~= name@.take(name@.len() - e.len()));
                            assert(rest@ =~= ".semctl-"@ + s);
                            assert(".semctl-"@ =~= rest@.subrange(0, ".semctl-"@.len() as int));
                        }
                    }
                }
            }
            stem
        },
    }
}

/// Whether a name is one of the private scratch names.
pub fn private_name(name: &str) -> (private: bool)
    ensures
        private == is_private_name(name@),
{
    let stem = match private_stem(name) {
        Some(stem) => stem,
        None => {
            assert(!is_private_name(name@)) by {
                if is_private_name(name@) {
                    let (digest, index, ending) = choose|
                        digest: Seq<char>,
                        index: Seq<char>,
                        ending: Seq<char>,
                    | private_parts(name@, digest, index, ending);
                    let s = digest + "-"@ + index;
                    assert(name@ =~= ".semctl-"@ + s + ending);
                    assert(is_framed(name@, s, ending));
                }
            }
            return false;
        },
    };
    let ghost end = choose|ending: Seq<char>| is_framed(name@, stem@, ending);
    let chars = chars_of(stem.as_str());
    proof {
        reveal_strlit("-");
        assert("-"@ =~= seq!['-']);
        if is_private_name(name@) {
            lemma_stem_is_unique(name@, stem@, end);
        }
    }
    if chars.len() < 14 || chars[12] != '-' {
        return false;
    }
    let mut i: usize = 0;
    while i < 12
        invariant
            i <= 12,
            chars@ == stem@,
            chars@.len() >= 14,
            is_private_name(name@) ==> forall|k: int| 0 <= k < 12 ==> is_lower_hex(#[trigger] stem@[k]),
            forall|k: int| 0 <= k < i ==> is_lower_hex(#[trigger] stem@[k]),
        decreases 12 - i,
    {
        let c = chars[i];
        if !(('0' <= c && c <= '9') || ('a' <= c && c <= 'f')) {
            assert(!is_lower_hex(stem@[i as int]));
            return false;
        }
        i = i + 1;
    }
    i = 13;
    while i < chars.len()
        invariant
            13 <= i <= chars@.len(),
            chars@ == stem@,
            is_private_name(name@) ==> forall|k: int|
                13 <= k < stem@.len() ==> crate::text::is_digit(#[trigger] stem@[k]),
            forall|k: int| 13 <= k < i ==> crate::text::is_digit(#[trigger] stem@[k]),
        decreases chars@.len() - i,
    {
        let c = chars[i];
        if !('0' <= c && c <= '9') {
            assert(!crate::text::is_digit(stem@[i as int]));
            return false;
        }
        i = i + 1;
    }
    if chars.len() > 14 && chars[13] == '0' {
        return false;
    }
    proof {
        let digest = stem@.take(12);
        let index = stem@.skip(13);
        assert forall|k: int| 0 <= k < digest.len() implies is_lower_hex(#[trigger] digest[k]) by {
            assert(digest[k] == stem@[k]);
        }
        assert forall|k: int| 0 <= k < index.len() implies crate::text::is_digit(
            #[trigger] index[k],
        ) by {
            assert(index[k] == stem@[k + 13]);
        }
        assert(stem@ =~= digest + "-"@ + index);
        assert(name@ =~= ".semctl-"@ + digest + "-"@ + index + end);
        assert(private_parts(name@, digest, index, end));
    }
    true
}

/// The parts of a private name stand where its stem says.
proof fn lemma_stem_is_unique(name: Seq<char>, stem: Seq<char>, end: Seq<char>)
    requires
        is_private_name(name),
        is_private_ending(end),
        name == ".semctl-"@ + stem + end,
    ensures
        stem.len() >= 14,
        stem[12] == '-',
        forall|k: int| 0 <= k < 12 ==> is_lower_hex(#[trigger] stem[k]),
        forall|k: int| 13 <= k < stem.len() ==> crate::text::is_digit(#[trigger] stem[k]),
        stem.len() == 14 || stem[13] != '0',
{
    let (digest, index, ending) = choose|digest: Seq<char>, index: Seq<char>, ending: Seq<char>|
        private_parts(name, digest, index, ending);
    reveal_strlit(".edit");
    reveal_strlit(".tmp");
    reveal_strlit(".bak");
    reveal_strlit("-");
    assert(".edit"@.last() == 't' && ".edit"@.len() == 5);
    assert(".tmp"@.last() == 'p' && ".tmp"@.len() == 4);
    assert(".bak"@.last() == 'k' && ".bak"@.len() == 4);
    assert(name.last() == end.last());
    assert(name.last() == ending.last());
    assert(end == ending);
    let body = digest + "-"@ + index;
    assert(name =~= ".semctl-"@ + body + ending);
    let from = ".semctl-"@.len() as int;
    let to = name.len() - end.len();
    assert(stem =~= name.subrange(from, to));
    assert(body =~= name.subrange(from, to));
    assert(stem == body);
    assert forall|k: int| 0 <= k < 12 implies is_lower_hex(#[trigger] stem[k]) by {
        assert(stem[k] == digest[k]);
    }
    assert forall|k: int| 13 <= k < stem.len() implies crate::text::is_digit(
        #[trigger] stem[k],
    ) by {
        assert(stem[k] == index[k - 13]);
    }
    assert(stem[13] == index[0]);
}

/// Recovery bytes and private process output are never source, even when a
/// project whitelist includes hidden files. Every component counts, so what
/// lies inside a private directory is private too.
pub fn is_private_path(path: &PathName) -> (private: bool)
    ensures
        private == private_path(path@),
{
    let mut i: usize = 0;
    while i < path.parts.len()
        invariant
            i <= path.parts@.len(),
            forall|k: int|
                0 <= k < i ==> !(decoded(#[trigger] path@[k]) matches Some(name)
                    && is_private_name(name)),
        decreases path.parts@.len() - i,
    {
        assert(path@[i as int] == path.parts@[i as int]@);
        match text_of_bytes(path.parts[i].as_slice()) {
            Some(name) => {
                if private_name(name.as_str()) {
                    return true;
                }
            },
            None => {},
        }
        i = i + 1;
    }
    false
}

/// Whether a component has this name.
pub open spec fn is_named(part: Seq<u8>, name: Seq<char>) -> bool {
    part == vstd::utf8::encode_utf8(name)
}

pub fn part_is(part: &Vec<u8>, name: &str) -> (named: bool)
    ensures
        named == is_named(part@, name@),
{
    same_bytes(part.as_slice(), name.as_bytes())
}

/// Whether a name is that of a file or directory that holds rules.
pub open spec fn is_rule_name(part: Seq<u8>) -> bool {
    ||| is_named(part, ".git"@)
    ||| is_named(part, ".gitignore"@)
    ||| is_named(part, ".ignore"@)
    ||| is_named(part, ".semctxignore"@)
    ||| is_named(part, ".semctlignore"@)
}

/// Whether a path is that of a rule: by its last name, or as a file of a
/// repository's own configuration.
pub open spec fn rule_path(path: Seq<Seq<u8>>) -> bool {
    let n = path.len();
    ||| n >= 1 && is_rule_name(path[n - 1])
    ||| n >= 2 && is_named(path[n - 2], ".git"@) && is_named(path[n - 1], "config"@)
    ||| n >= 3 && is_named(path[n - 3], ".git"@) && is_named(path[n - 2], "info"@) && is_named(
        path[n - 1],
        "exclude"@,
    )
}

pub fn is_rule_path(path: &PathName) -> (rule: bool)
    ensures
        rule == rule_path(path@),
{
    let n: usize = path.parts.len();
    if n == 0 {
        return false;
    }
    let last = &path.parts[n - 1];
    assert(path@[n - 1] == last@);
    if part_is(last, ".git") || part_is(last, ".gitignore") || part_is(last, ".ignore") || part_is(
        last,
        ".semctxignore",
    ) || part_is(last, ".semctlignore") {
        return true;
    }
    if n < 2 {
        return false;
    }
    let second = &path.parts[n - 2];
    assert(path@[n - 2] == second@);
    if part_is(second, ".git") && part_is(last, "config") {
        return true;
    }
    if n < 3 {
        return false;
    }
    let third = &path.parts[n - 3];
    assert(path@[n - 3] == third@);
    part_is(third, ".git") && part_is(second, "info") && part_is(last, "exclude")
}

/// Whether one of the components from index `from` on is called `.git`.
pub open spec fn has_git_part(path: Seq<Seq<u8>>, from: int) -> bool {
    exists|i: int| from <= i < path.len() && is_named(#[trigger] path[i], ".git"@)
}

pub fn any_git_part(path: &PathName, from: usize) -> (found: bool)
    requires
        from <= path@.len(),
    ensures
        found == has_git_part(path@, from as int),
{
    let mut i: usize = from;
    while i < path.parts.len()
        invariant
            from <= i <= path.parts@.len(),
            forall|k: int| from <= k < i ==> !is_named(#[trigger] path@[k], ".git"@),
        decreases path.parts@.len() - i,
    {
        assert(path@[i as int] == path.parts@[i as int]@);
        if part_is(&path.parts[i], ".git") {
            return true;
        }
        i = i + 1;
    }
    false
}

/// Whether the last name of a path begins with a dot; a path to a parent
/// directory has no last name.
pub open spec fn is_hidden(path: Seq<Seq<u8>>) -> bool {
    path.len() > 0 && path.last().len() > 0 && path.last()[0] == DOT && path.last() != seq![DOT, DOT]
}

pub fn hidden(path: &PathName) -> (hides: bool)
    ensures
        hides == is_hidden(path@),
{
    let n: usize = path.parts.len();
    if n == 0 {
        return false;
    }
    let last = &path.parts[n - 1];
    assert(path@.last() == last@);
    let up = last.len() == 2 && last[0] == DOT && last[1] == DOT;
    assert(up ==> last@ =~= seq![DOT, DOT]);
    last.len() > 0 && last[0] == DOT && !up
}

/// Whether a path is an observed source or an ancestor of one.
pub open spec fn touches_observed(path: Seq<Seq<u8>>, observed: Set<Seq<Seq<u8>>>) -> bool {
    exists|source: Seq<Seq<u8>>| observed.contains(source) && #[trigger] is_under(source, path)
}

pub fn any_observed(path: &PathName, observed: &Vec<PathName>) -> (found: bool)
    ensures
        found == touches_observed(path@, path_set(observed@)),
{
    let mut i: usize = 0;
    while i < observed.len()
        invariant
            i <= observed@.len(),
            forall|k: int| 0 <= k < i ==> !is_under((#[trigger] observed@[k])@, path@),
        decreases observed@.len() - i,
    {
        if observed[i].under(path) {
            assert(path_set(observed@).contains(observed@[i as int]@));
            return true;
        }
        i = i + 1;
    }
    false
}

/// Whether an event on `path` can matter to the checkout at `root`: private
/// paths never do, observed sources always do, and of the rest what lies in the
/// checkout and not inside `.git`, or is a rule there.
pub open spec fn may_affect(
    root: Seq<Seq<u8>>,
    path: Seq<Seq<u8>>,
    observed: Set<Seq<Seq<u8>>>,
) -> bool {
    !private_path(path) && (touches_observed(path, observed) || (is_under(path, root) && (rule_path(
        path,
    ) || !has_git_part(path, root.len() as int))))
}

/// Filters unrelated events before any policy is loaded.
pub fn event_may_affect_policy(root: &PathName, path: &PathName, observed: &Vec<PathName>) -> (may:
    bool)
    ensures
        may == may_affect(root@, path@, path_set(observed@)),
{
    if is_private_path(path) {
        return false;
    }
    if any_observed(path, observed) {
        return true;
    }
    path.under(root) && (is_rule_path(path) || !any_git_part(path, root.len()))
}

/// Probing a repository writes private scratch files; events on them never
/// cause another probe, whatever is observed.
pub proof fn law_private_events_cause_nothing(
    root: Seq<Seq<u8>>,
    path: Seq<Seq<u8>>,
    observed: Set<Seq<Seq<u8>>>,
    i: int,
    name: Seq<char>,
)
    requires
        0 <= i < path.len(),
        decoded(path[i]) == Some(name),
        is_private_name(name),
    ensures
        !may_affect(root, path, observed),
{
}

/// The names of private files: the marker, twelve lower-case hexadecimal digits, a
/// dash, a number without needless zeros, and one of three endings.
pub proof fn law_how_private_files_are_named(
    digest: Seq<char>,
    index: Seq<char>,
    ending: Seq<char>,
    name: Seq<char>,
)
    ensures
        digest.len() == 12 && (forall|i: int|
            0 <= i < digest.len() ==> ('0' <= #[trigger] digest[i] <= '9' || 'a' <= digest[i]
                <= 'f')) && index.len() > 0 && (forall|i: int|
            0 <= i < index.len() ==> '0' <= #[trigger] index[i] <= '9') && (index.len() == 1
            || index[0] != '0') && (ending == ".edit"@ || ending == ".tmp"@ || ending == ".bak"@)
            ==> is_private_name(".semctl-"@ + digest + "-"@ + index + ending),
        is_private_name(name) ==> {
            &&& ".semctl-"@.is_prefix_of(name)
            &&& name.len() > 21 && name[20] == '-'
            &&& forall|i: int|
                8 <= i < 20 ==> ('0' <= #[trigger] name[i] <= '9' || 'a' <= name[i] <= 'f')
            &&& '0' <= name[21] <= '9'
            &&& ".edit"@.is_suffix_of(name) || ".tmp"@.is_suffix_of(name) || ".bak"@.is_suffix_of(
                name,
            )
        },
{
    reveal_strlit(".semctl-");
    reveal_strlit("-");
    if digest.len() == 12 && (forall|i: int|
        0 <= i < digest.len() ==> ('0' <= #[trigger] digest[i] <= '9' || 'a' <= digest[i] <= 'f'))
        && index.len() > 0 && (forall|i: int|
        0 <= i < index.len() ==> '0' <= #[trigger] index[i] <= '9') && (index.len() == 1 || index[0]
        != '0') && (ending == ".edit"@ || ending == ".tmp"@ || ending == ".bak"@) {
        assert(private_parts(".semctl-"@ + digest + "-"@ + index + ending, digest, index, ending));
    }
    if is_private_name(name) {
        let (d, n, e) = choose|d: Seq<char>, n: Seq<char>, e: Seq<char>|
            private_parts(name, d, n, e);
        assert(name == ".semctl-"@ + d + "-"@ + n + e);
        assert(name.take(8) =~= ".semctl-"@);
        assert(name.skip(name.len() - e.len()) =~= e);
        assert forall|i: int| 8 <= i < 20 implies ('0' <= #[trigger] name[i] <= '9' || 'a'
            <= name[i] <= 'f') by {
            assert(name[i] == d[i - 8]);
        }
        assert(name[21] == n[0]);
    }
}

/// A path is private exactly where one of its parts is the name of a private file.
pub proof fn law_private_parts_make_a_path_private(path: Seq<Seq<u8>>, more: Seq<u8>)
    ensures
        !private_path(seq![]),
        private_path(path.push(more)) <==> private_path(path) || (vstd::utf8::valid_utf8(more)
            && is_private_name(vstd::utf8::decode_utf8(more))),
{
    let all = path.push(more);
    if private_path(path) {
        let i = choose|i: int|
            0 <= i < path.len() && (decoded(#[trigger] path[i]) matches Some(name)
                && is_private_name(name));
        assert(all[i] == path[i]);
    }
    assert(all[path.len() as int] == more);
    if private_path(all) {
        let i = choose|i: int|
            0 <= i < all.len() && (decoded(#[trigger] all[i]) matches Some(name)
                && is_private_name(name));
        if i < path.len() {
            assert(path[i] == all[i]);
        }
    }
}

/// Rules stand in the ignore files, and in the Git directory, its configuration and
/// its own exclude file, wherever they lie.
pub proof fn law_where_rules_stand(path: Seq<Seq<u8>>)
    ensures
        ({
            let n = path.len();
            let named = |i: int, name: Seq<char>|
                0 <= i < n && path[i] == vstd::utf8::encode_utf8(name);
            rule_path(path) <==> {
                ||| named(n - 1, ".git"@)
                ||| named(n - 1, ".gitignore"@)
                ||| named(n - 1, ".ignore"@)
                ||| named(n - 1, ".semctxignore"@)
                ||| named(n - 1, ".semctlignore"@)
                ||| named(n - 2, ".git"@) && named(n - 1, "config"@)
                ||| named(n - 3, ".git"@) && named(n - 2, "info"@) && named(n - 1, "exclude"@)
            }
        }),
{
}

/// What may affect a checkout: nothing private; anything that an observed file of
/// rules is or lies below; and below the root, rules and all that is not in a Git
/// directory.
pub proof fn law_what_may_affect_a_checkout(
    root: Seq<Seq<u8>>,
    path: Seq<Seq<u8>>,
    observed: Set<Seq<Seq<u8>>>,
    source: Seq<Seq<u8>>,
    below: Seq<Seq<u8>>,
    at: int,
)
    ensures
        private_path(path) ==> !may_affect(root, path, observed),
        !private_path(path) && observed.contains(source) && path.is_prefix_of(source) ==> may_affect(
            root,
            path,
            observed,
        ),
        !private_path(root + below) && rule_path(root + below) ==> may_affect(
            root,
            root + below,
            observed,
        ),
        !private_path(root + below) && (forall|i: int|
            0 <= i < below.len() ==> #[trigger] below[i] != vstd::utf8::encode_utf8(".git"@))
            ==> may_affect(root, root + below, observed),
        (forall|s: Seq<Seq<u8>>|
            #[trigger] observed.contains(s) ==> !(root + below).is_prefix_of(s)) && !rule_path(
            root + below,
        ) && 0 <= at < below.len() && below[at] == vstd::utf8::encode_utf8(".git"@) ==> !may_affect(
            root,
            root + below,
            observed,
        ),
        (forall|s: Seq<Seq<u8>>| #[trigger] observed.contains(s) ==> !path.is_prefix_of(s))
            && !root.is_prefix_of(path) ==> !may_affect(root, path, observed),
{
    let full = root + below;
    let n = root.len() as int;
    assert(full.take(n) =~= root);
    assert(is_under(full, root));
    if observed.contains(source) && path.is_prefix_of(source) {
        assert(is_under(source, path));
    }
    if forall|i: int|
        0 <= i < below.len() ==> #[trigger] below[i] != vstd::utf8::encode_utf8(".git"@) {
        assert forall|i: int| n <= i < full.len() implies !is_named(
            #[trigger] full[i],
            ".git"@,
        ) by {
            assert(full[i] == below[i - n]);
        }
        assert(!has_git_part(full, n));
    }
    if 0 <= at < below.len() && below[at] == vstd::utf8::encode_utf8(".git"@) {
        assert(full[n + at] == below[at]);
        assert(is_named(full[n + at], ".git"@));
        assert(has_git_part(full, n));
    }
}

/// A path is hidden exactly where its last part begins with a dot and is not the
/// directory above.
pub proof fn law_what_is_hidden(path: Seq<Seq<u8>>, name: Seq<u8>)
    ensures
        !is_hidden(seq![]),
        is_hidden(path.push(name)) <==> name.len() > 0 && name[0] == 46 && name != seq![46u8, 46u8],
{
    assert(path.push(name).last() == name);
}

/// Names and paths are told private, a rule, hidden or able to matter as the model says.
pub proof fn law_names_are_told_apart(
    name: &str,
    private: bool,
    path: &PathName,
    rule: bool,
    hides: bool,
    root: &PathName,
    observed: &Vec<PathName>,
    may: bool,
)
    requires
        call_ensures(private_name, (name,), private),
        call_ensures(is_rule_path, (path,), rule),
        call_ensures(hidden, (path,), hides),
        call_ensures(event_may_affect_policy, (root, path, observed), may),
    ensures
        private ==> ".semctl-"@.is_prefix_of(name@),
        private == is_private_name(name@),
        rule == rule_path(path@),
        hides == (path@.len() > 0 && path@.last().len() > 0 && path@.last()[0] == 46
            && path@.last() != seq![46u8, 46u8]),
        may == may_affect(root@, path@, path_set(observed@)),
{
    law_how_private_files_are_named(seq![], seq![], seq![], name@);
}

} // verus!
