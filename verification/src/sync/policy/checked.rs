//! The checked policy of one checkout: which paths are source.

use ignore::gitignore::Gitignore;
use vstd::prelude::*;
use vstd::string::*;

use crate::paths::{is_under, parent_of, path_set, shown, PathName, DOT};
use crate::sync::policy::git::{absolute, resolved};
use crate::sync::policy::names::{
    any_git_part, any_observed, has_git_part, hidden, is_hidden, is_private_name, is_private_path,
    is_rule_path, private_path, rule_path, touches_observed,
};
use crate::sync::policy::rules::{
    first_decisive, first_verdict, gitignore_match, matched, no_rules, rules_error, rules_of,
    rules_root, says, RuleMatch,
};
use crate::sync::policy::sources::{
    after_reads, changed_message, gathered, has_changed, observed, state_of, Found, Sources,
    StateView,
};
use crate::text::decoded;

verus! {

/// The compiled rules of one directory, class by class.
pub struct DirectoryRules {
    pub directory: PathName,
    pub custom: Gitignore,
    pub ignore: Gitignore,
    pub gitignore: Gitignore,
    pub exclude: Gitignore,
    /// The global rules of a repository that begins here.
    pub global: Option<Gitignore>,
}

/// The classes of a directory's own rules, in the order in which they decide.
#[derive(Clone, Copy, Debug, PartialEq, Eq, Structural)]
pub enum RuleClass {
    Custom,
    Ignore,
    Gitignore,
    Exclude,
}

pub open spec fn class_rules(rules: DirectoryRules, class: RuleClass) -> Gitignore {
    match class {
        RuleClass::Custom => rules.custom,
        RuleClass::Ignore => rules.ignore,
        RuleClass::Gitignore => rules.gitignore,
        RuleClass::Exclude => rules.exclude,
    }
}

/// The index of the rules of `directory`, or the number of rules.
pub open spec fn layer_index(directories: Seq<DirectoryRules>, directory: Seq<Seq<u8>>) -> nat
    decreases directories.len(),
{
    if directories.len() == 0 || directories[0].directory@ == directory {
        0
    } else {
        1 + layer_index(directories.drop_first(), directory)
    }
}

/// Whether the rules of `directory` are loaded.
pub open spec fn is_loaded(directories: Seq<DirectoryRules>, directory: Seq<Seq<u8>>) -> bool {
    layer_index(directories, directory) < directories.len()
}

proof fn lemma_layer_index(directories: Seq<DirectoryRules>, directory: Seq<Seq<u8>>, n: int)
    requires
        0 <= n <= directories.len(),
        forall|i: int| 0 <= i < n ==> (#[trigger] directories[i]).directory@ != directory,
        n < directories.len() ==> directories[n].directory@ == directory,
    ensures
        layer_index(directories, directory) == n,
    decreases n,
{
    if n > 0 {
        let rest = directories.drop_first();
        assert forall|i: int| 0 <= i < n - 1 implies (#[trigger] rest[i]).directory@
            != directory by {
            assert(rest[i] == directories[i + 1]);
        }
        lemma_layer_index(rest, directory, n - 1);
    }
}

/// The indices of the loaded rules of a path and of each of its ancestors, the
/// closest first.
pub open spec fn layers(directories: Seq<DirectoryRules>, path: Seq<Seq<u8>>) -> Seq<int>
    decreases path.len(),
{
    let own = if is_loaded(directories, path) {
        seq![layer_index(directories, path) as int]
    } else {
        seq![]
    };
    match parent_of(path) {
        Some(parent) => own + layers(directories, parent),
        None => own,
    }
}

/// What the rules of one class say of a path, the closest directory first.
pub open spec fn class_verdicts(
    directories: Seq<DirectoryRules>,
    chosen: Seq<int>,
    class: RuleClass,
    path: Seq<char>,
    is_dir: bool,
) -> Seq<RuleMatch> {
    chosen.map_values(|i: int| says(class_rules(directories[i], class), path, is_dir))
}

/// The global rules that apply to a path: those of the closest repository, or
/// else those of the checkout.
pub open spec fn global_rules(
    directories: Seq<DirectoryRules>,
    chosen: Seq<int>,
    fallback: Gitignore,
) -> Gitignore
    decreases chosen.len(),
{
    if chosen.len() == 0 {
        fallback
    } else {
        match directories[chosen[0]].global {
            Some(rules) => rules,
            None => global_rules(directories, chosen.drop_first(), fallback),
        }
    }
}

/// What the rules say of a path: custom rules before `.ignore`, `.ignore` before
/// `.gitignore`, then the excludes of repositories, then the global excludes.
pub open spec fn policy_verdict(
    directories: Seq<DirectoryRules>,
    global: Gitignore,
    path: Seq<Seq<u8>>,
    is_dir: bool,
) -> RuleMatch {
    let chosen = layers(directories, path);
    let text = shown(path);
    first_decisive(
        seq![
            first_decisive(class_verdicts(directories, chosen, RuleClass::Custom, text, is_dir)),
            first_decisive(class_verdicts(directories, chosen, RuleClass::Ignore, text, is_dir)),
            first_decisive(class_verdicts(directories, chosen, RuleClass::Gitignore, text, is_dir)),
            first_decisive(class_verdicts(directories, chosen, RuleClass::Exclude, text, is_dir)),
            says(global_rules(directories, chosen, global), text, is_dir),
        ],
    )
}

/// Whether a path is never source, whatever the rules say: it is private, or it
/// lies in a repository's own directory.
pub open spec fn is_blocked(root: Seq<Seq<u8>>, path: Seq<Seq<u8>>) -> bool {
    private_path(path) || (is_under(path, root) && has_git_part(path, root.len() as int))
}

/// Whether a path is source: a whitelist overrides that hidden files are not.
pub open spec fn is_included(blocked: bool, verdict: RuleMatch, hides: bool) -> bool {
    !blocked && match verdict {
        RuleMatch::Ignored => false,
        RuleMatch::Whitelisted => true,
        RuleMatch::Unmatched => !hides,
    }
}

/// Decides from what the rules say of a path.
pub fn inclusion(blocked: bool, verdict: RuleMatch, hides: bool) -> (included: bool)
    ensures
        included == is_included(blocked, verdict, hides),
{
    if blocked {
        return false;
    }
    match verdict {
        RuleMatch::Ignored => false,
        RuleMatch::Whitelisted => true,
        RuleMatch::Unmatched => !hides,
    }
}

/// The order in which the classes decide.
pub fn overall_verdict(
    custom: RuleMatch,
    ignore: RuleMatch,
    gitignore: RuleMatch,
    exclude: RuleMatch,
    global: RuleMatch,
) -> (verdict: RuleMatch)
    ensures
        verdict == first_decisive(seq![custom, ignore, gitignore, exclude, global]),
{
    let mut verdicts: Vec<RuleMatch> = Vec::new();
    verdicts.push(custom);
    verdicts.push(ignore);
    verdicts.push(gitignore);
    verdicts.push(exclude);
    verdicts.push(global);
    assert(verdicts@ =~= seq![custom, ignore, gitignore, exclude, global]);
    first_verdict(&verdicts)
}

/// The checked policy of one checkout.
pub struct SourcePolicy {
    root: PathName,
    sources: Sources,
    directories: Vec<DirectoryRules>,
    global: Gitignore,
}

pub struct PolicyView {
    pub root: Seq<Seq<u8>>,
    pub sources: Map<Seq<Seq<u8>>, StateView>,
    pub directories: Seq<DirectoryRules>,
    pub global: Gitignore,
}

impl PolicyView {
    /// Whether the policy lets a path into the manifest.
    pub open spec fn includes(self, path: Seq<Seq<u8>>, is_dir: bool) -> bool {
        is_included(
            is_blocked(self.root, path),
            policy_verdict(self.directories, self.global, path, is_dir),
            is_hidden(path),
        )
    }
}

impl View for SourcePolicy {
    type V = PolicyView;

    closed spec fn view(&self) -> PolicyView {
        PolicyView {
            root: self.root@,
            sources: self.sources@,
            directories: self.directories@,
            global: self.global,
        }
    }
}

/// What a policy does next to judge an event.
pub enum RelevanceStep {
    Answer(bool),
    /// Load the rules of this directory, then ask again one level deeper.
    Load(PathName),
}

/// Whether an event's path is answered without a look at the rules.
pub open spec fn quick_answer(
    root: Seq<Seq<u8>>,
    path: Seq<Seq<u8>>,
    observed: Set<Seq<Seq<u8>>>,
) -> Option<bool> {
    if private_path(path) {
        Some(false)
    } else if touches_observed(path, observed) || rule_path(path) {
        Some(true)
    } else if !is_under(path, root) {
        Some(false)
    } else {
        None
    }
}

pub enum RelevanceView {
    Answer(bool),
    Load(Seq<Seq<u8>>),
}

impl View for RelevanceStep {
    type V = RelevanceView;

    open spec fn view(&self) -> RelevanceView {
        match *self {
            RelevanceStep::Answer(answer) => RelevanceView::Answer(answer),
            RelevanceStep::Load(directory) => RelevanceView::Load(directory@),
        }
    }
}

/// How an event below the first `depth` components of its path is judged: going
/// down, the first directory that is not included ends it, and the first one
/// whose rules are not loaded has to be loaded before the next is looked at.
pub open spec fn judged_below(
    policy: PolicyView,
    path: Seq<Seq<u8>>,
    is_dir: bool,
    depth: int,
) -> RelevanceView
    decreases path.len() - depth,
{
    if depth + 1 >= path.len() {
        RelevanceView::Answer(policy.includes(path, is_dir))
    } else if !policy.includes(path.take(depth + 1), true) {
        RelevanceView::Answer(false)
    } else if !is_loaded(policy.directories, path.take(depth + 1)) {
        RelevanceView::Load(path.take(depth + 1))
    } else {
        judged_below(policy, path, is_dir, depth + 1)
    }
}

/// How a policy judges an event's path.
pub open spec fn judged(
    policy: PolicyView,
    path: Seq<Seq<u8>>,
    is_dir: bool,
    observed: Set<Seq<Seq<u8>>>,
) -> RelevanceView {
    let full = resolved(policy.root, path);
    match quick_answer(policy.root, full, observed) {
        Some(answer) => RelevanceView::Answer(answer),
        None => judged_below(policy, full, is_dir, policy.root.len() as int),
    }
}

impl SourcePolicy {
    /// A policy without any directory's rules.
    pub fn new(root: PathName, sources: Sources, global: Gitignore) -> (policy: SourcePolicy)
        ensures
            policy@ == (PolicyView {
                root: root@,
                sources: sources@,
                directories: seq![],
                global,
            }),
    {
        let policy = SourcePolicy { root, sources, directories: Vec::new(), global };
        assert(policy@.directories =~= seq![]);
        policy
    }

    pub fn root(&self) -> (root: &PathName)
        ensures
            root@ == self@.root,
    {
        &self.root
    }

    /// The snapshot of what the policy depends on.
    pub fn sources(&self) -> (sources: &Sources)
        ensures
            sources@ == self@.sources,
    {
        &self.sources
    }

    fn layer(&self, directory: &PathName) -> (index: usize)
        ensures
            index == layer_index(self@.directories, directory@),
            index <= self@.directories.len(),
    {
        let mut i: usize = 0;
        while i < self.directories.len()
            invariant
                i <= self.directories@.len(),
                forall|k: int|
                    0 <= k < i ==> (#[trigger] self.directories@[k]).directory@ != directory@,
            decreases self.directories@.len() - i,
        {
            if self.directories[i].directory.same(directory) {
                proof {
                    lemma_layer_index(self.directories@, directory@, i as int);
                }
                return i;
            }
            i = i + 1;
        }
        proof {
            lemma_layer_index(self.directories@, directory@, i as int);
        }
        i
    }

    /// Whether the rules of a directory are loaded.
    pub fn loaded(&self, directory: &PathName) -> (is: bool)
        ensures
            is == is_loaded(self@.directories, directory@),
    {
        self.layer(directory) < self.directories.len()
    }

    /// The rules of a path and of its ancestors, the closest first.
    fn chosen_layers(&self, path: &PathName) -> (chosen: Vec<usize>)
        ensures
            chosen@.map_values(|i: usize| i as int) == layers(self@.directories, path@),
            forall|k: int|
                0 <= k < chosen@.len() ==> (#[trigger] chosen@[k]) < self@.directories.len(),
    {
        let ghost view = |i: usize| i as int;
        let mut chosen: Vec<usize> = Vec::new();
        let mut current = path.copy();
        let mut more = true;
        assert(chosen@.map_values(view) =~= seq![]);
        assert(chosen@.map_values(view) + layers(self@.directories, path@) =~= layers(
            self@.directories,
            path@,
        ));
        while more
            invariant
                view == (|i: usize| i as int),
                layers(self@.directories, path@) == chosen@.map_values(view) + if more {
                    layers(self@.directories, current@)
                } else {
                    seq![]
                },
                forall|k: int|
                    0 <= k < chosen@.len() ==> (#[trigger] chosen@[k]) < self@.directories.len(),
            decreases
                if more {
                    current@.len() + 1
                } else {
                    0
                },
        {
            let ghost before = chosen@.map_values(view);
            let ghost own = if is_loaded(self@.directories, current@) {
                seq![layer_index(self@.directories, current@) as int]
            } else {
                seq![]
            };
            let index: usize = self.layer(&current);
            if index < self.directories.len() {
                chosen.push(index);
            }
            assert(chosen@.map_values(view) =~= before + own);
            match current.parent() {
                Some(parent) => {
                    assert(layers(self@.directories, current@) == own + layers(
                        self@.directories,
                        parent@,
                    ));
                    assert(before + (own + layers(self@.directories, parent@)) =~= before + own
                        + layers(self@.directories, parent@));
                    current = parent;
                },
                None => {
                    assert(before + own =~= before + own + Seq::<int>::empty());
                    more = false;
                },
            }
        }
        assert(chosen@.map_values(view) + Seq::<int>::empty() =~= chosen@.map_values(view));
        chosen
    }

    /// What the rules of one class say.
    fn class_verdict(
        &self,
        chosen: &Vec<usize>,
        class: RuleClass,
        path: &str,
        is_dir: bool,
    ) -> (verdict: RuleMatch)
        requires
            forall|k: int|
                0 <= k < chosen@.len() ==> (#[trigger] chosen@[k]) < self@.directories.len(),
        ensures
            verdict == first_decisive(
                class_verdicts(
                    self@.directories,
                    chosen@.map_values(|i: usize| i as int),
                    class,
                    path@,
                    is_dir,
                ),
            ),
    {
        let ghost picked = chosen@.map_values(|i: usize| i as int);
        let mut verdicts: Vec<RuleMatch> = Vec::new();
        let mut i: usize = 0;
        while i < chosen.len()
            invariant
                i <= chosen@.len(),
                picked == chosen@.map_values(|i: usize| i as int),
                forall|k: int|
                    0 <= k < chosen@.len() ==> (#[trigger] chosen@[k]) < self@.directories.len(),
                verdicts@.len() == i,
                forall|k: int|
                    0 <= k < i ==> (#[trigger] verdicts@[k]) == says(
                        class_rules(self@.directories[picked[k]], class),
                        path@,
                        is_dir,
                    ),
            decreases chosen@.len() - i,
        {
            assert(picked[i as int] == chosen@[i as int]);
            let rules = &self.directories[chosen[i]];
            let found = match class {
                RuleClass::Custom => matched(&rules.custom, path, is_dir),
                RuleClass::Ignore => matched(&rules.ignore, path, is_dir),
                RuleClass::Gitignore => matched(&rules.gitignore, path, is_dir),
                RuleClass::Exclude => matched(&rules.exclude, path, is_dir),
            };
            verdicts.push(found);
            i = i + 1;
        }
        assert(verdicts@ =~= class_verdicts(self@.directories, picked, class, path@, is_dir));
        first_verdict(&verdicts)
    }

    /// What the global rules say.
    fn global_verdict(&self, chosen: &Vec<usize>, path: &str, is_dir: bool) -> (verdict: RuleMatch)
        requires
            forall|k: int|
                0 <= k < chosen@.len() ==> (#[trigger] chosen@[k]) < self@.directories.len(),
        ensures
            verdict == says(
                global_rules(
                    self@.directories,
                    chosen@.map_values(|i: usize| i as int),
                    self@.global,
                ),
                path@,
                is_dir,
            ),
    {
        let ghost picked = chosen@.map_values(|i: usize| i as int);
        let mut i: usize = 0;
        assert(picked.skip(0) =~= picked);
        while i < chosen.len()
            invariant
                i <= chosen@.len(),
                picked == chosen@.map_values(|i: usize| i as int),
                forall|k: int|
                    0 <= k < chosen@.len() ==> (#[trigger] chosen@[k]) < self@.directories.len(),
                global_rules(self@.directories, picked, self@.global) == global_rules(
                    self@.directories,
                    picked.skip(i as int),
                    self@.global,
                ),
            decreases chosen@.len() - i,
        {
            assert(picked.skip(i as int)[0] == chosen@[i as int]);
            assert(picked.skip(i as int).drop_first() =~= picked.skip(i + 1));
            match &self.directories[chosen[i]].global {
                Some(rules) => return matched(rules, path, is_dir),
                None => {},
            }
            i = i + 1;
        }
        matched(&self.global, path, is_dir)
    }

    /// Whether the policy lets a path into the manifest. Custom rules come
    /// before `.ignore`, `.ignore` before `.gitignore`, then come the excludes
    /// of repositories and the global excludes. Within one class the closest
    /// directory wins, and a whitelist overrides that hidden files are left
    /// out.
    pub fn includes(&self, path: &PathName, is_dir: bool) -> (included: bool)
        ensures
            included == self@.includes(path@, is_dir),
    {
        let blocked = is_private_path(path) || (path.under(&self.root) && any_git_part(
            path,
            self.root.len(),
        ));
        if blocked {
            return false;
        }
        let chosen = self.chosen_layers(path);
        let text = path.display();
        let custom = self.class_verdict(&chosen, RuleClass::Custom, text.as_str(), is_dir);
        let ignore = self.class_verdict(&chosen, RuleClass::Ignore, text.as_str(), is_dir);
        let gitignore = self.class_verdict(&chosen, RuleClass::Gitignore, text.as_str(), is_dir);
        let exclude = self.class_verdict(&chosen, RuleClass::Exclude, text.as_str(), is_dir);
        let global = self.global_verdict(&chosen, text.as_str(), is_dir);
        let verdict = overall_verdict(custom, ignore, gitignore, exclude, global);
        inclusion(blocked, verdict, hidden(path))
    }

    /// What is to be done next to judge an event on `path`, which counts from the
    /// checkout root where it is not absolute. A changed rule
    /// always matters, even one that the rules themselves exclude; otherwise
    /// events follow the same rules as the scan.
    pub fn event_is_relevant(
        &self,
        path: &PathName,
        is_dir: bool,
        observed: &Vec<PathName>,
    ) -> (step: RelevanceStep)
        ensures
            step@ == judged(self@, path@, is_dir, path_set(observed@)),
    {
        let full = absolute(&self.root, path);
        if is_private_path(&full) {
            return RelevanceStep::Answer(false);
        }
        if any_observed(&full, observed) || is_rule_path(&full) {
            return RelevanceStep::Answer(true);
        }
        if !full.under(&self.root) {
            return RelevanceStep::Answer(false);
        }
        let size: usize = full.len();
        let mut depth: usize = self.root.len();
        while depth < size && depth + 1 < size
            invariant
                depth <= size,
                size == full@.len(),
                full@ == resolved(self@.root, path@),
                quick_answer(self@.root, full@, path_set(observed@)) is None,
                judged_below(self@, full@, is_dir, self@.root.len() as int) == judged_below(
                    self@,
                    full@,
                    is_dir,
                    depth as int,
                ),
            decreases size - depth,
        {
            let directory = full.prefix(depth + 1);
            if !self.includes(&directory, true) {
                return RelevanceStep::Answer(false);
            }
            if !self.loaded(&directory) {
                return RelevanceStep::Load(directory);
            }
            depth = depth + 1;
        }
        RelevanceStep::Answer(self.includes(&full, is_dir))
    }
}

/// A private path is never source, and an event on it never matters, whatever
/// rules a project whitelists. An event's path does not begin with a dot.
pub proof fn law_private_paths_are_never_source(
    policy: PolicyView,
    path: Seq<Seq<u8>>,
    is_dir: bool,
    observed: Set<Seq<Seq<u8>>>,
)
    requires
        private_path(path),
    ensures
        !policy.includes(path, is_dir),
        path[0] != seq![DOT] ==> judged(policy, path, is_dir, observed) == RelevanceView::Answer(
            false,
        ),
{
    let i = choose|i: int|
        0 <= i < path.len() && (decoded(#[trigger] path[i]) matches Some(name) && is_private_name(
            name,
        ));
    let full = resolved(policy.root, path);
    if full != path && path[0] != seq![DOT] {
        assert(full[policy.root.len() + i] == path[i]);
        assert(private_path(full));
    }
}

/// A project's custom rules decide before all others, and where no rule speaks
/// of a path, it is source unless it is hidden.
pub proof fn law_custom_rules_decide_first(policy: PolicyView, path: Seq<Seq<u8>>, is_dir: bool)
    requires
        !is_blocked(policy.root, path),
    ensures
        ({
            let chosen = layers(policy.directories, path);
            let custom = first_decisive(
                class_verdicts(
                    policy.directories,
                    chosen,
                    RuleClass::Custom,
                    shown(path),
                    is_dir,
                ),
            );
            &&& custom == RuleMatch::Whitelisted ==> policy.includes(path, is_dir)
            &&& custom == RuleMatch::Ignored ==> !policy.includes(path, is_dir)
            &&& policy_verdict(policy.directories, policy.global, path, is_dir)
                == RuleMatch::Unmatched ==> policy.includes(path, is_dir) == !is_hidden(path)
        }),
{
}

/// The closest directory whose rules of a class say anything of a path decides
/// for that class.
pub proof fn law_the_closest_directory_decides(verdicts: Seq<RuleMatch>, i: int)
    requires
        0 <= i < verdicts.len(),
        verdicts[i] != RuleMatch::Unmatched,
        forall|k: int| 0 <= k < i ==> #[trigger] verdicts[k] == RuleMatch::Unmatched,
    ensures
        first_decisive(verdicts) == verdicts[i],
    decreases i,
{
    if i > 0 {
        assert(verdicts[0] == RuleMatch::Unmatched);
        let rest = verdicts.drop_first();
        assert forall|k: int| 0 <= k < i - 1 implies #[trigger] rest[k]
            == RuleMatch::Unmatched by {
            assert(rest[k] == verdicts[k + 1]);
        }
        law_the_closest_directory_decides(rest, i - 1);
    }
}

/// The rules of a directory apply below it and nowhere else: loading them
/// changes nothing for a path that lies elsewhere.
pub proof fn law_rules_apply_below_their_directory(
    policy: PolicyView,
    added: DirectoryRules,
    path: Seq<Seq<u8>>,
    is_dir: bool,
)
    requires
        !is_under(path, added.directory@),
    ensures
        (PolicyView { directories: policy.directories.push(added), ..policy }).includes(
            path,
            is_dir,
        ) == policy.includes(path, is_dir),
{
    let more = policy.directories.push(added);
    lemma_layers_elsewhere(policy.directories, added, path);
    let chosen = layers(policy.directories, path);
    lemma_layers_in_range(policy.directories, path);
    let text = shown(path);
    assert(class_verdicts(more, chosen, RuleClass::Custom, text, is_dir) =~= class_verdicts(
        policy.directories,
        chosen,
        RuleClass::Custom,
        text,
        is_dir,
    ));
    assert(class_verdicts(more, chosen, RuleClass::Ignore, text, is_dir) =~= class_verdicts(
        policy.directories,
        chosen,
        RuleClass::Ignore,
        text,
        is_dir,
    ));
    assert(class_verdicts(more, chosen, RuleClass::Gitignore, text, is_dir) =~= class_verdicts(
        policy.directories,
        chosen,
        RuleClass::Gitignore,
        text,
        is_dir,
    ));
    assert(class_verdicts(more, chosen, RuleClass::Exclude, text, is_dir) =~= class_verdicts(
        policy.directories,
        chosen,
        RuleClass::Exclude,
        text,
        is_dir,
    ));
    lemma_global_elsewhere(policy.directories, added, chosen, policy.global);
}

proof fn lemma_layers_in_range(directories: Seq<DirectoryRules>, path: Seq<Seq<u8>>)
    ensures
        forall|k: int|
            0 <= k < layers(directories, path).len() ==> 0 <= #[trigger] layers(
                directories,
                path,
            )[k] < directories.len(),
    decreases path.len(),
{
    let all = layers(directories, path);
    let own = if is_loaded(directories, path) {
        seq![layer_index(directories, path) as int]
    } else {
        seq![]
    };
    match parent_of(path) {
        Some(parent) => {
            lemma_layers_in_range(directories, parent);
            let rest = layers(directories, parent);
            assert forall|k: int| 0 <= k < all.len() implies 0 <= #[trigger] all[k]
                < directories.len() by {
                if k >= own.len() {
                    assert(all[k] == rest[k - own.len()]);
                }
            }
        },
        None => {},
    }
}

proof fn lemma_layer_elsewhere(
    directories: Seq<DirectoryRules>,
    added: DirectoryRules,
    directory: Seq<Seq<u8>>,
)
    requires
        added.directory@ != directory,
    ensures
        is_loaded(directories.push(added), directory) == is_loaded(directories, directory),
        is_loaded(directories, directory) ==> layer_index(directories.push(added), directory)
            == layer_index(directories, directory),
    decreases directories.len(),
{
    let more = directories.push(added);
    if directories.len() == 0 {
        lemma_layer_index(more, directory, 1);
    } else if directories[0].directory@ != directory {
        lemma_layer_elsewhere(directories.drop_first(), added, directory);
        assert(more.drop_first() =~= directories.drop_first().push(added));
    }
}

proof fn lemma_layers_elsewhere(
    directories: Seq<DirectoryRules>,
    added: DirectoryRules,
    path: Seq<Seq<u8>>,
)
    requires
        !is_under(path, added.directory@),
    ensures
        layers(directories.push(added), path) == layers(directories, path),
    decreases path.len(),
{
    assert(added.directory@ != path) by {
        if added.directory@ == path {
            assert(path =~= path.subrange(0, path.len() as int));
        }
    }
    lemma_layer_elsewhere(directories, added, path);
    match parent_of(path) {
        Some(parent) => {
            assert(!is_under(parent, added.directory@)) by {
                if is_under(parent, added.directory@) {
                    assert(added.directory@ =~= path.subrange(0, added.directory@.len() as int));
                }
            }
            lemma_layers_elsewhere(directories, added, parent);
        },
        None => {},
    }
}

proof fn lemma_global_elsewhere(
    directories: Seq<DirectoryRules>,
    added: DirectoryRules,
    chosen: Seq<int>,
    fallback: Gitignore,
)
    requires
        forall|k: int| 0 <= k < chosen.len() ==> 0 <= #[trigger] chosen[k] < directories.len(),
    ensures
        global_rules(directories.push(added), chosen, fallback) == global_rules(
            directories,
            chosen,
            fallback,
        ),
    decreases chosen.len(),
{
    if chosen.len() > 0 {
        let rest = chosen.drop_first();
        assert forall|k: int| 0 <= k < rest.len() implies 0 <= #[trigger] rest[k]
            < directories.len() by {
            assert(rest[k] == chosen[k + 1]);
        }
        lemma_global_elsewhere(directories, added, rest, fallback);
        assert(0 <= chosen[0] < directories.len());
    }
}

/// Whether some rules say nothing of a path.
pub open spec fn is_quiet(rules: Gitignore, path: Seq<Seq<u8>>, is_dir: bool) -> bool {
    rules_of(rules).len() == 0 || gitignore_match(
        rules_root(rules),
        rules_of(rules),
        shown(path),
        is_dir,
    ) == RuleMatch::Unmatched
}

/// Whether some rules whitelist a path.
pub open spec fn is_whitelisted(rules: Gitignore, path: Seq<Seq<u8>>, is_dir: bool) -> bool {
    rules_of(rules).len() > 0 && gitignore_match(
        rules_root(rules),
        rules_of(rules),
        shown(path),
        is_dir,
    ) == RuleMatch::Whitelisted
}

/// Whether a path is absolute: it begins with the root directory, which stands
/// nowhere else in it.
pub open spec fn is_written_out(path: Seq<Seq<u8>>) -> bool {
    path.len() > 0 && path[0] == seq![47u8] && forall|i: int|
        0 < i < path.len() ==> #[trigger] path[i] != seq![47u8]
}

/// Whether nothing but the rules keeps a path from being source: no component is
/// private, and below the root none is called `.git`.
pub open spec fn may_be_source(root: Seq<Seq<u8>>, path: Seq<Seq<u8>>) -> bool {
    &&& forall|i: int, name: Seq<char>|
        0 <= i < path.len() && #[trigger] decoded(path[i]) == Some(name) ==> !#[trigger] is_private_name(
            name,
        )
    &&& root.is_prefix_of(path) ==> forall|i: int|
        root.len() <= i < path.len() ==> #[trigger] path[i] != vstd::utf8::encode_utf8(".git"@)
}

/// Whether the first `count` kinds of rules of every directory above a path say
/// nothing of it, in the order custom rules, `.ignore`, `.gitignore`, excludes.
pub open spec fn are_quiet(
    directories: Seq<DirectoryRules>,
    count: int,
    path: Seq<Seq<u8>>,
    is_dir: bool,
) -> bool {
    forall|k: int|
        0 <= k < directories.len() && (#[trigger] directories[k]).directory@.is_prefix_of(path) ==> {
            &&& count > 0 ==> is_quiet(directories[k].custom, path, is_dir)
            &&& count > 1 ==> is_quiet(directories[k].ignore, path, is_dir)
            &&& count > 2 ==> is_quiet(directories[k].gitignore, path, is_dir)
            &&& count > 3 ==> is_quiet(directories[k].exclude, path, is_dir)
        }
}

/// A directory's rules of one kind, by the place of the kind in the order in which
/// the kinds decide.
pub open spec fn rules_of_kind(rules: DirectoryRules, kind: int) -> Gitignore {
    if kind == 0 {
        rules.custom
    } else if kind == 1 {
        rules.ignore
    } else if kind == 2 {
        rules.gitignore
    } else {
        rules.exclude
    }
}

spec fn class_at(kind: int) -> RuleClass {
    if kind == 0 {
        RuleClass::Custom
    } else if kind == 1 {
        RuleClass::Ignore
    } else if kind == 2 {
        RuleClass::Gitignore
    } else {
        RuleClass::Exclude
    }
}

proof fn lemma_loaded_index(directories: Seq<DirectoryRules>, directory: Seq<Seq<u8>>)
    ensures
        layer_index(directories, directory) <= directories.len(),
        is_loaded(directories, directory) ==> directories[layer_index(
            directories,
            directory,
        ) as int].directory@ == directory,
        !is_loaded(directories, directory) ==> forall|k: int|
            0 <= k < directories.len() ==> (#[trigger] directories[k]).directory@ != directory,
    decreases directories.len(),
{
    if directories.len() > 0 && directories[0].directory@ != directory {
        let rest = directories.drop_first();
        lemma_loaded_index(rest, directory);
        if !is_loaded(directories, directory) {
            assert forall|k: int| 0 <= k < directories.len() implies (
            #[trigger] directories[k]).directory@ != directory by {
                if k > 0 {
                    assert(rest[k - 1] == directories[k]);
                }
            }
        }
    }
}

/// What one kind of rules says, going up from `at`, an ancestor of the path or the
/// path itself.
proof fn lemma_class_decides(
    directories: Seq<DirectoryRules>,
    kind: int,
    path: Seq<Seq<u8>>,
    at: Seq<Seq<u8>>,
    is_dir: bool,
    decisive: Option<int>,
)
    requires
        0 <= kind < 4,
        is_written_out(path),
        at.len() > 0,
        at.is_prefix_of(path),
        forall|k: int|
            0 <= k < directories.len() ==> (#[trigger] directories[k]).directory@.len() > 0,
        forall|k: int|
            0 <= k < directories.len() && (#[trigger] directories[k]).directory@.is_prefix_of(at)
                && (decisive matches Some(i) ==> directories[k].directory@.len()
                > directories[i].directory@.len()) ==> is_quiet(
                rules_of_kind(directories[k], kind),
                path,
                is_dir,
            ),
        decisive matches Some(i) ==> {
            &&& 0 <= i < directories.len()
            &&& directories[i].directory@.is_prefix_of(at)
            &&& !is_quiet(rules_of_kind(directories[i], kind), path, is_dir)
            &&& forall|k: int|
                0 <= k < directories.len() && k != i ==> (#[trigger] directories[k]).directory@
                    != directories[i].directory@
        },
    ensures
        first_decisive(
            class_verdicts(
                directories,
                layers(directories, at),
                class_at(kind),
                shown(path),
                is_dir,
            ),
        ) == match decisive {
            Some(i) => says(rules_of_kind(directories[i], kind), shown(path), is_dir),
            None => RuleMatch::Unmatched,
        },
    decreases at.len(),
{
    lemma_loaded_index(directories, at);
    let all = layers(directories, at);
    let n = layer_index(directories, at) as int;
    let text = shown(path);
    let class = class_at(kind);
    let verdicts = class_verdicts(directories, all, class, text, is_dir);
    if is_loaded(directories, at) {
        assert(at.is_prefix_of(at)) by {
            assert(at =~= at.subrange(0, at.len() as int));
        }
        assert(directories[n].directory@.is_prefix_of(at));
        assert(all[0] == n);
        assert(verdicts[0] == says(class_rules(directories[n], class), text, is_dir));
    }
    match parent_of(at) {
        Some(parent) => {
            assert(parent =~= at.drop_last());
            assert(at[0] == path[0]);
            assert(parent.is_prefix_of(path)) by {
                assert(parent =~= path.subrange(0, parent.len() as int));
            }
            assert forall|d: Seq<Seq<u8>>| #[trigger]
                d.is_prefix_of(parent) implies d.is_prefix_of(at) by {
                assert(d =~= at.subrange(0, d.len() as int));
            }
            let rest = class_verdicts(directories, layers(directories, parent), class, text, is_dir);
            let stops = decisive matches Some(i) && directories[i].directory@ == at;
            if stops {
                assert(decisive->0 == n);
            } else {
                if decisive is Some {
                    let d = directories[decisive->0].directory@;
                    assert(d.len() < at.len()) by {
                        if d.len() == at.len() {
                            assert(d =~= at);
                        }
                    }
                    assert(d =~= parent.subrange(0, d.len() as int));
                }
                lemma_class_decides(directories, kind, path, parent, is_dir, decisive);
                if is_loaded(directories, at) {
                    assert(verdicts.drop_first() =~= rest);
                } else {
                    assert(verdicts =~= rest);
                }
            }
        },
        None => {
            if decisive is Some {
                let d = directories[decisive->0].directory@;
                assert(d == at) by {
                    assert(at[at.len() - 1] == path[at.len() - 1]);
                    assert(d =~= at);
                }
                assert(decisive->0 == n);
            } else if is_loaded(directories, at) {
                let none = Seq::<RuleMatch>::empty();
                assert(verdicts.drop_first() =~= none);
                assert(first_decisive(none) == RuleMatch::Unmatched);
            } else {
                assert(verdicts =~= seq![]);
            }
        },
    }
}

/// The global rules that are found going up from `at`.
proof fn lemma_global_found(
    directories: Seq<DirectoryRules>,
    fallback: Gitignore,
    path: Seq<Seq<u8>>,
    at: Seq<Seq<u8>>,
    holder: Option<int>,
)
    requires
        is_written_out(path),
        at.len() > 0,
        at.is_prefix_of(path),
        forall|k: int|
            0 <= k < directories.len() ==> (#[trigger] directories[k]).directory@.len() > 0,
        forall|k: int|
            0 <= k < directories.len() && (#[trigger] directories[k]).directory@.is_prefix_of(at)
                && (holder matches Some(i) ==> directories[k].directory@.len()
                > directories[i].directory@.len()) ==> directories[k].global is None,
        holder matches Some(i) ==> {
            &&& 0 <= i < directories.len()
            &&& directories[i].directory@.is_prefix_of(at)
            &&& directories[i].global is Some
            &&& forall|k: int|
                0 <= k < directories.len() && k != i ==> (#[trigger] directories[k]).directory@
                    != directories[i].directory@
        },
    ensures
        global_rules(directories, layers(directories, at), fallback) == match holder {
            Some(i) => directories[i].global->0,
            None => fallback,
        },
    decreases at.len(),
{
    lemma_loaded_index(directories, at);
    let all = layers(directories, at);
    let n = layer_index(directories, at) as int;
    if is_loaded(directories, at) {
        assert(at.is_prefix_of(at)) by {
            assert(at =~= at.subrange(0, at.len() as int));
        }
        assert(directories[n].directory@.is_prefix_of(at));
        assert(all[0] == n);
    }
    match parent_of(at) {
        Some(parent) => {
            assert(parent =~= at.drop_last());
            assert(at[0] == path[0]);
            assert(parent.is_prefix_of(path)) by {
                assert(parent =~= path.subrange(0, parent.len() as int));
            }
            assert forall|d: Seq<Seq<u8>>| #[trigger]
                d.is_prefix_of(parent) implies d.is_prefix_of(at) by {
                assert(d =~= at.subrange(0, d.len() as int));
            }
            let stops = holder matches Some(i) && directories[i].directory@ == at;
            if stops {
                assert(holder->0 == n);
            } else {
                if holder is Some {
                    let d = directories[holder->0].directory@;
                    assert(d.len() < at.len()) by {
                        if d.len() == at.len() {
                            assert(d =~= at);
                        }
                    }
                    assert(d =~= parent.subrange(0, d.len() as int));
                }
                lemma_global_found(directories, fallback, path, parent, holder);
                if is_loaded(directories, at) {
                    assert(all.drop_first() =~= layers(directories, parent));
                } else {
                    assert(all =~= layers(directories, parent));
                }
            }
        },
        None => {
            if holder is Some {
                let d = directories[holder->0].directory@;
                assert(d == at) by {
                    assert(at[at.len() - 1] == path[at.len() - 1]);
                    assert(d =~= at);
                }
                assert(holder->0 == n);
            } else if is_loaded(directories, at) {
                let none = Seq::<int>::empty();
                assert(all.drop_first() =~= none);
                assert(global_rules(directories, none, fallback) == fallback);
            } else {
                assert(all =~= seq![]);
            }
        },
    }
}

proof fn lemma_not_blocked(root: Seq<Seq<u8>>, path: Seq<Seq<u8>>)
    requires
        may_be_source(root, path),
    ensures
        !is_blocked(root, path),
{
}

proof fn lemma_kinds_quiet(
    directories: Seq<DirectoryRules>,
    count: int,
    path: Seq<Seq<u8>>,
    is_dir: bool,
)
    requires
        0 <= count <= 4,
        is_written_out(path),
        forall|k: int|
            0 <= k < directories.len() ==> (#[trigger] directories[k]).directory@.len() > 0,
        are_quiet(directories, count, path, is_dir),
    ensures
        forall|kind: int|
            #![trigger class_at(kind)]
            0 <= kind < count ==> first_decisive(
                class_verdicts(
                    directories,
                    layers(directories, path),
                    class_at(kind),
                    shown(path),
                    is_dir,
                ),
            ) == RuleMatch::Unmatched,
{
    assert(path =~= path.subrange(0, path.len() as int));
    assert forall|kind: int|
        #![trigger class_at(kind)]
        0 <= kind < count implies first_decisive(
        class_verdicts(directories, layers(directories, path), class_at(kind), shown(path), is_dir),
    ) == RuleMatch::Unmatched by {
        lemma_class_decides(directories, kind, path, path, is_dir, None);
    }
}

proof fn lemma_five_verdicts(a: RuleMatch, b: RuleMatch, c: RuleMatch, d: RuleMatch, e: RuleMatch)
    ensures
        first_decisive(seq![a, b, c, d, e]) == if a != RuleMatch::Unmatched {
            a
        } else if b != RuleMatch::Unmatched {
            b
        } else if c != RuleMatch::Unmatched {
            c
        } else if d != RuleMatch::Unmatched {
            d
        } else {
            e
        },
{
    reveal_with_fuel(first_decisive, 6);
    assert(seq![a, b, c, d, e].drop_first() =~= seq![b, c, d, e]);
    assert(seq![b, c, d, e].drop_first() =~= seq![c, d, e]);
    assert(seq![c, d, e].drop_first() =~= seq![d, e]);
    assert(seq![d, e].drop_first() =~= seq![e]);
    assert(seq![e].drop_first() =~= seq![]);
}

/// The rules of a directory decide over a path below it where no earlier kind of
/// rules speaks of the path anywhere above it, and no closer directory's rules of
/// the same kind do: a path that they whitelist is source, and one that they ignore
/// is not. The kinds are, in order, the project's own rules, `.ignore`,
/// `.gitignore` and the excludes of a repository.
pub proof fn law_the_first_rules_that_speak_decide(
    policy: PolicyView,
    path: Seq<Seq<u8>>,
    is_dir: bool,
    kind: int,
    i: int,
)
    requires
        is_written_out(path),
        may_be_source(policy.root, path),
        forall|k: int|
            0 <= k < policy.directories.len() ==> (
            #[trigger] policy.directories[k]).directory@.len() > 0,
        0 <= kind < 4,
        0 <= i < policy.directories.len(),
        forall|k: int|
            0 <= k < policy.directories.len() && k != i ==> (
            #[trigger] policy.directories[k]).directory@ != policy.directories[i].directory@,
        policy.directories[i].directory@.is_prefix_of(path),
        !is_quiet(rules_of_kind(policy.directories[i], kind), path, is_dir),
        are_quiet(policy.directories, kind, path, is_dir),
        forall|k: int|
            0 <= k < policy.directories.len() && (
            #[trigger] policy.directories[k]).directory@.is_prefix_of(path)
                && policy.directories[k].directory@.len() > policy.directories[i].directory@.len()
                ==> is_quiet(rules_of_kind(policy.directories[k], kind), path, is_dir),
    ensures
        policy.includes(path, is_dir) == is_whitelisted(
            rules_of_kind(policy.directories[i], kind),
            path,
            is_dir,
        ),
{
    let d = policy.directories;
    assert(path =~= path.subrange(0, path.len() as int));
    lemma_not_blocked(policy.root, path);
    lemma_kinds_quiet(d, kind, path, is_dir);
    lemma_class_decides(d, kind, path, path, is_dir, Some(i));
    let chosen = layers(d, path);
    let text = shown(path);
    assert(class_at(0) == RuleClass::Custom && class_at(1) == RuleClass::Ignore && class_at(2)
        == RuleClass::Gitignore && class_at(3) == RuleClass::Exclude);
    lemma_five_verdicts(
        first_decisive(class_verdicts(d, chosen, RuleClass::Custom, text, is_dir)),
        first_decisive(class_verdicts(d, chosen, RuleClass::Ignore, text, is_dir)),
        first_decisive(class_verdicts(d, chosen, RuleClass::Gitignore, text, is_dir)),
        first_decisive(class_verdicts(d, chosen, RuleClass::Exclude, text, is_dir)),
        says(global_rules(d, chosen, policy.global), text, is_dir),
    );
}

/// Where no rules of the directories above a path speak of it, the global rules
/// decide: those of the closest repository above the path, and those of the
/// checkout where it lies in none. A path that they whitelist is source, and one
/// that they ignore is not. Where they are quiet too, a path is source unless its
/// name begins with a dot.
pub proof fn law_global_rules_decide_last(
    policy: PolicyView,
    path: Seq<Seq<u8>>,
    is_dir: bool,
    closest: Option<int>,
)
    requires
        is_written_out(path),
        may_be_source(policy.root, path),
        forall|k: int|
            0 <= k < policy.directories.len() ==> (
            #[trigger] policy.directories[k]).directory@.len() > 0,
        are_quiet(policy.directories, 4, path, is_dir),
        closest matches Some(i) ==> {
            &&& 0 <= i < policy.directories.len()
            &&& forall|k: int|
                0 <= k < policy.directories.len() && k != i ==> (
                #[trigger] policy.directories[k]).directory@ != policy.directories[i].directory@
            &&& policy.directories[i].directory@.is_prefix_of(path)
            &&& policy.directories[i].global is Some
        },
        forall|k: int|
            0 <= k < policy.directories.len() && (
            #[trigger] policy.directories[k]).directory@.is_prefix_of(path) && (closest matches Some(
                i,
            ) ==> policy.directories[k].directory@.len()
                > policy.directories[i].directory@.len()) ==> policy.directories[k].global is None,
    ensures
        ({
            let global = match closest {
                Some(i) => policy.directories[i].global->0,
                None => policy.global,
            };
            policy.includes(path, is_dir) == if is_quiet(global, path, is_dir) {
                !(path.last().len() > 0 && path.last()[0] == 46 && path.last() != seq![46u8, 46u8])
            } else {
                is_whitelisted(global, path, is_dir)
            }
        }),
{
    let d = policy.directories;
    assert(path =~= path.subrange(0, path.len() as int));
    lemma_not_blocked(policy.root, path);
    lemma_kinds_quiet(d, 4, path, is_dir);
    lemma_global_found(d, policy.global, path, path, closest);
    let chosen = layers(d, path);
    let text = shown(path);
    assert(class_at(0) == RuleClass::Custom && class_at(1) == RuleClass::Ignore && class_at(2)
        == RuleClass::Gitignore && class_at(3) == RuleClass::Exclude);
    lemma_five_verdicts(
        first_decisive(class_verdicts(d, chosen, RuleClass::Custom, text, is_dir)),
        first_decisive(class_verdicts(d, chosen, RuleClass::Ignore, text, is_dir)),
        first_decisive(class_verdicts(d, chosen, RuleClass::Gitignore, text, is_dir)),
        first_decisive(class_verdicts(d, chosen, RuleClass::Exclude, text, is_dir)),
        says(global_rules(d, chosen, policy.global), text, is_dir),
    );
}

/// What is private, or lies below a directory called `.git` in the checkout, is
/// never source, whatever rules there are.
pub proof fn law_blocked_paths_are_never_source(
    policy: PolicyView,
    path: Seq<Seq<u8>>,
    is_dir: bool,
    i: int,
)
    requires
        0 <= i < path.len(),
        (decoded(path[i]) matches Some(name) && is_private_name(name)) || (
        policy.root.is_prefix_of(path) && i >= policy.root.len() && path[i]
            == vstd::utf8::encode_utf8(".git"@)),
    ensures
        !policy.includes(path, is_dir),
{
}

/// The rules that some files give, in order, or why they give none.
pub open spec fn compiled(
    sources: Map<Seq<Seq<u8>>, StateView>,
    files: Seq<(PathName, Found)>,
) -> Result<Seq<Seq<char>>, Seq<char>> {
    match gathered(sources, files, files.len()).rules {
        Err(error) => Err(error),
        Ok(rules) => match rules_error(rules) {
            Some(error) => Err("compile source policy: "@ + error),
            None => Ok(rules),
        },
    }
}

/// The snapshot once some files are read.
pub open spec fn after_files(
    sources: Map<Seq<Seq<u8>>, StateView>,
    files: Seq<(PathName, Found)>,
) -> Map<Seq<Seq<u8>>, StateView> {
    gathered(sources, files, files.len()).sources
}

/// Whether `done` is the compiled form of `rules` below `directory`.
pub open spec fn holds_rules(done: Gitignore, rules: Seq<Seq<char>>, directory: Seq<char>) -> bool {
    rules_of(done) == rules && (rules.len() > 0 ==> rules_root(done) == directory)
}

/// What was found of a repository that begins in a directory.
pub struct RepositoryFiles {
    /// The files that say where the repository is, and its configuration.
    pub links: Vec<(PathName, Found)>,
    /// The repository's own exclude file.
    pub exclude: Vec<(PathName, Found)>,
    /// The configuration files that select the global exclude file.
    pub settings: Vec<(PathName, Found)>,
    /// The global exclude file that the repository's configuration names.
    pub global: Vec<(PathName, Found)>,
}

/// What was found of the rule files of a directory.
pub struct DirectoryFiles {
    pub custom: Vec<(PathName, Found)>,
    pub ignore: Vec<(PathName, Found)>,
    pub gitignore: Vec<(PathName, Found)>,
    /// What marks the root of a repository.
    pub marker: (PathName, Found),
    pub repository: Option<RepositoryFiles>,
}

/// A snapshot while the rules of a directory are loaded, and the first fault.
pub struct Loading {
    pub sources: Map<Seq<Seq<u8>>, StateView>,
    pub fault: Option<Seq<char>>,
}

/// Compiles some files, unless there was a fault before.
pub open spec fn with_rules(before: Loading, files: Seq<(PathName, Found)>) -> Loading {
    if before.fault is Some {
        before
    } else {
        Loading {
            sources: after_files(before.sources, files),
            fault: match compiled(before.sources, files) {
                Ok(_) => None,
                Err(error) => Some(error),
            },
        }
    }
}

/// Reads some files, unless there was a fault before.
pub open spec fn with_reads(before: Loading, files: Seq<(PathName, Found)>) -> Loading {
    if before.fault is Some {
        before
    } else {
        let (sources, outcome) = after_reads(before.sources, files, files.len());
        Loading {
            sources,
            fault: match outcome {
                Ok(_) => None,
                Err(error) => Some(error),
            },
        }
    }
}

/// Observes a path, unless there was a fault before.
pub open spec fn with_observed(before: Loading, path: Seq<Seq<u8>>, found: StateView) -> Loading {
    if before.fault is Some {
        before
    } else if has_changed(before.sources, path, found) {
        Loading { sources: before.sources, fault: Some(changed_message(path)) }
    } else {
        Loading { sources: observed(before.sources, path, found), fault: None }
    }
}

/// Once the custom rules of a directory are loaded.
pub open spec fn customized(
    sources: Map<Seq<Seq<u8>>, StateView>,
    files: DirectoryFiles,
) -> Loading {
    with_rules(Loading { sources, fault: None }, files.custom@)
}

/// Once the rules of a directory itself are loaded and the marker of a
/// repository was observed: one that appears later is a change.
pub open spec fn marked(sources: Map<Seq<Seq<u8>>, StateView>, files: DirectoryFiles) -> Loading {
    with_observed(
        with_rules(with_rules(customized(sources, files), files.ignore@), files.gitignore@),
        files.marker.0@,
        state_of(files.marker.1),
    )
}

/// Once a repository was found.
pub open spec fn linked(
    sources: Map<Seq<Seq<u8>>, StateView>,
    files: DirectoryFiles,
    repository: RepositoryFiles,
) -> Loading {
    with_reads(marked(sources, files), repository.links@)
}

/// Once the configuration of a repository was read.
pub open spec fn settled(
    sources: Map<Seq<Seq<u8>>, StateView>,
    files: DirectoryFiles,
    repository: RepositoryFiles,
) -> Loading {
    with_reads(
        with_rules(linked(sources, files, repository), repository.exclude@),
        repository.settings@,
    )
}

/// Once everything of a directory is loaded, in the order in which its files
/// are read.
pub open spec fn directory_loaded(
    sources: Map<Seq<Seq<u8>>, StateView>,
    files: DirectoryFiles,
) -> Loading {
    match files.repository {
        None => marked(sources, files),
        Some(repository) => with_rules(settled(sources, files, repository), repository.global@),
    }
}

/// Whether `rules` are what a directory's files hold.
pub open spec fn directory_rules(
    rules: DirectoryRules,
    directory: Seq<Seq<u8>>,
    sources: Map<Seq<Seq<u8>>, StateView>,
    files: DirectoryFiles,
) -> bool {
    let second = customized(sources, files);
    let third = with_rules(second, files.ignore@);
    let text = shown(directory);
    &&& rules.directory@ == directory
    &&& holds_rules(rules.custom, compiled(sources, files.custom@)->Ok_0, text)
    &&& holds_rules(rules.ignore, compiled(second.sources, files.ignore@)->Ok_0, text)
    &&& holds_rules(rules.gitignore, compiled(third.sources, files.gitignore@)->Ok_0, text)
    &&& match files.repository {
        None => rules_of(rules.exclude).len() == 0 && rules.global is None,
        Some(repository) => {
            &&& holds_rules(
                rules.exclude,
                compiled(linked(sources, files, repository).sources, repository.exclude@)->Ok_0,
                text,
            )
            &&& rules.global matches Some(global) && holds_rules(
                global,
                compiled(settled(sources, files, repository).sources, repository.global@)->Ok_0,
                text,
            )
        },
    }
}

/// The rule files of a directory, by class.
pub struct RuleFiles {
    pub custom: Vec<PathName>,
    pub ignore: PathName,
    pub gitignore: PathName,
    /// What marks the root of a repository.
    pub marker: PathName,
}

/// The rule files that a directory can have. Both names of custom rule files
/// count, the later one last.
pub fn rule_files(directory: &PathName) -> (files: RuleFiles)
    ensures
        files.custom@.len() == 2,
        files.custom@[0]@ == directory@.push(vstd::utf8::encode_utf8(".semctxignore"@)),
        files.custom@[1]@ == directory@.push(vstd::utf8::encode_utf8(".semctlignore"@)),
        files.ignore@ == directory@.push(vstd::utf8::encode_utf8(".ignore"@)),
        files.gitignore@ == directory@.push(vstd::utf8::encode_utf8(".gitignore"@)),
        files.marker@ == directory@.push(vstd::utf8::encode_utf8(".git"@)),
{
    let mut custom: Vec<PathName> = Vec::new();
    custom.push(directory.child(".semctxignore".as_bytes()));
    custom.push(directory.child(".semctlignore".as_bytes()));
    RuleFiles {
        custom,
        ignore: directory.child(".ignore".as_bytes()),
        gitignore: directory.child(".gitignore".as_bytes()),
        marker: directory.child(".git".as_bytes()),
    }
}

impl SourcePolicy {
    /// Loads the rules of a directory from what was found of its rule files.
    /// Rules that are loaded stay as they are, and a fault loads nothing.
    pub fn load_directory(&mut self, directory: &PathName, files: &DirectoryFiles) -> (loaded:
        Result<(), String>)
        requires
            shown(directory@).len() > 0,
            shown(directory@)[0] == '/',
        ensures
            final(self)@.root == old(self)@.root,
            final(self)@.global == old(self)@.global,
            if is_loaded(old(self)@.directories, directory@) {
                loaded is Ok && final(self)@ == old(self)@
            } else {
                let done = directory_loaded(old(self)@.sources, *files);
                &&& final(self)@.sources == done.sources
                &&& match done.fault {
                    Some(error) => {
                        &&& loaded matches Err(message) && message@ == error
                        &&& final(self)@.directories == old(self)@.directories
                    },
                    None => {
                        &&& loaded is Ok
                        &&& final(self)@.directories.len() == old(self)@.directories.len() + 1
                        &&& final(self)@.directories.drop_last() == old(self)@.directories
                        &&& directory_rules(
                            final(self)@.directories.last(),
                            directory@,
                            old(self)@.sources,
                            *files,
                        )
                    },
                }
            },
    {
        if self.loaded(directory) {
            return Ok(());
        }
        let ghost before = self@;
        let text = directory.display();
        let custom = match self.sources.rules(text.as_str(), &files.custom) {
            Ok(rules) => rules,
            Err(error) => return Err(error),
        };
        let ignore = match self.sources.rules(text.as_str(), &files.ignore) {
            Ok(rules) => rules,
            Err(error) => return Err(error),
        };
        let gitignore = match self.sources.rules(text.as_str(), &files.gitignore) {
            Ok(rules) => rules,
            Err(error) => return Err(error),
        };
        match self.sources.observe(&files.marker.0, &files.marker.1) {
            Ok(()) => {},
            Err(error) => return Err(error),
        }
        assert(marked(before.sources, *files) == (Loading { sources: self@.sources, fault: None }));
        let (exclude, global) = match &files.repository {
            Some(repository) => {
                match self.sources.read_all(&repository.links) {
                    Ok(_) => {},
                    Err(error) => return Err(error),
                }
                let exclude = match self.sources.rules(text.as_str(), &repository.exclude) {
                    Ok(rules) => rules,
                    Err(error) => return Err(error),
                };
                match self.sources.read_all(&repository.settings) {
                    Ok(_) => {},
                    Err(error) => return Err(error),
                }
                assert(settled(before.sources, *files, *repository) == (Loading {
                    sources: self@.sources,
                    fault: None,
                }));
                let global = match self.sources.rules(text.as_str(), &repository.global) {
                    Ok(rules) => rules,
                    Err(error) => return Err(error),
                };
                (exclude, Some(global))
            },
            None => (no_rules(), None),
        };
        self.directories.push(
            DirectoryRules {
                directory: directory.copy(),
                custom,
                ignore,
                gitignore,
                exclude,
                global,
            },
        );
        assert(self@.directories.drop_last() =~= before.directories);
        Ok(())
    }

    /// The observed sources that lie outside the checkout.
    pub fn external_sources(&self, observed: &Vec<PathName>) -> (external: Vec<PathName>)
        ensures
            forall|p: Seq<Seq<u8>>| #[trigger]
                path_set(external@).contains(p) <==> path_set(observed@).contains(p) && !is_under(
                    p,
                    self@.root,
                ),
    {
        let mut external: Vec<PathName> = Vec::new();
        let mut i: usize = 0;
        assert(path_set(observed@.take(0)) =~= Set::empty());
        while i < observed.len()
            invariant
                i <= observed@.len(),
                forall|p: Seq<Seq<u8>>| #[trigger]
                    path_set(external@).contains(p) <==> path_set(
                        observed@.take(i as int),
                    ).contains(p) && !is_under(p, self@.root),
            decreases observed@.len() - i,
        {
            let ghost before = path_set(external@);
            proof {
                crate::paths::lemma_path_set_next(observed@, i as int);
            }
            if !observed[i].under(&self.root) {
                crate::paths::add_path(&mut external, observed[i].copy());
            }
            assert forall|p: Seq<Seq<u8>>| #[trigger]
                path_set(external@).contains(p) <==> path_set(observed@.take(i + 1)).contains(p)
                    && !is_under(p, self@.root) by {
                assert(before.contains(p) <==> path_set(observed@.take(i as int)).contains(p)
                    && !is_under(p, self@.root));
            }
            i = i + 1;
        }
        assert(observed@.take(i as int) =~= observed@);
        external
    }
}

/// Whether a snapshot still holds all that an earlier one held.
pub open spec fn grows(
    before: Map<Seq<Seq<u8>>, StateView>,
    after: Map<Seq<Seq<u8>>, StateView>,
) -> bool {
    forall|p: Seq<Seq<u8>>| #[trigger]
        before.dom().contains(p) ==> after.dom().contains(p) && after[p] == before[p]
}

/// Whether a snapshot holds what some files were found to be.
pub open spec fn observes(
    sources: Map<Seq<Seq<u8>>, StateView>,
    files: Seq<(PathName, Found)>,
) -> bool {
    forall|i: int|
        #![trigger files[i]]
        0 <= i < files.len() ==> sources.dom().contains(files[i].0@) && sources[files[i].0@]
            == state_of(files[i].1)
}

proof fn lemma_gathered_observes(
    sources: Map<Seq<Seq<u8>>, StateView>,
    files: Seq<(PathName, Found)>,
    n: nat,
)
    requires
        n <= files.len(),
    ensures
        grows(sources, gathered(sources, files, n).sources),
        gathered(sources, files, n).rules is Ok ==> observes(
            gathered(sources, files, n).sources,
            files.take(n as int),
        ),
    decreases n,
{
    if n > 0 {
        let m = (n - 1) as nat;
        lemma_gathered_observes(sources, files, m);
        let before = gathered(sources, files, m);
        let after = gathered(sources, files, n);
        if after.rules is Ok {
            assert(before.rules is Ok);
            assert forall|i: int| 0 <= i < n implies after.sources.dom().contains(
                #[trigger] files.take(n as int)[i].0@,
            ) && after.sources[files.take(n as int)[i].0@] == state_of(files.take(n as int)[i].1) by {
                if i < m {
                    assert(files.take(m as int)[i] == files[i]);
                }
            }
        }
    }
}

proof fn lemma_reads_observe(
    sources: Map<Seq<Seq<u8>>, StateView>,
    files: Seq<(PathName, Found)>,
    n: nat,
)
    requires
        n <= files.len(),
    ensures
        grows(sources, after_reads(sources, files, n).0),
        after_reads(sources, files, n).1 is Ok ==> observes(
            after_reads(sources, files, n).0,
            files.take(n as int),
        ),
    decreases n,
{
    if n > 0 {
        let m = (n - 1) as nat;
        lemma_reads_observe(sources, files, m);
        let before = after_reads(sources, files, m);
        let after = after_reads(sources, files, n);
        if after.1 is Ok {
            assert(before.1 is Ok);
            assert forall|i: int| 0 <= i < n implies after.0.dom().contains(
                #[trigger] files.take(n as int)[i].0@,
            ) && after.0[files.take(n as int)[i].0@] == state_of(files.take(n as int)[i].1) by {
                if i < m {
                    assert(files.take(m as int)[i] == files[i]);
                }
            }
        }
    }
}

proof fn lemma_rules_stage(before: Loading, files: Seq<(PathName, Found)>)
    requires
        with_rules(before, files).fault is None,
    ensures
        before.fault is None,
        grows(before.sources, with_rules(before, files).sources),
        observes(with_rules(before, files).sources, files),
{
    lemma_gathered_observes(before.sources, files, files.len());
    assert(files.take(files.len() as int) =~= files);
}

proof fn lemma_reads_stage(before: Loading, files: Seq<(PathName, Found)>)
    requires
        with_reads(before, files).fault is None,
    ensures
        before.fault is None,
        grows(before.sources, with_reads(before, files).sources),
        observes(with_reads(before, files).sources, files),
{
    lemma_reads_observe(before.sources, files, files.len());
    assert(files.take(files.len() as int) =~= files);
}

proof fn lemma_observes_more(
    sources: Map<Seq<Seq<u8>>, StateView>,
    more: Map<Seq<Seq<u8>>, StateView>,
    files: Seq<(PathName, Found)>,
)
    requires
        observes(sources, files),
        grows(sources, more),
    ensures
        observes(more, files),
{
}

/// The snapshot of a policy holds every file that its rules came from, and the
/// marker of a repository even where there is none. A verification compares all
/// of them, so a rule that changed, appeared or went away is noticed.
pub proof fn law_loaded_rules_are_observed(
    sources: Map<Seq<Seq<u8>>, StateView>,
    files: DirectoryFiles,
)
    requires
        directory_loaded(sources, files).fault is None,
    ensures
        ({
            let snapshot = directory_loaded(sources, files).sources;
            &&& grows(sources, snapshot)
            &&& observes(snapshot, files.custom@)
            &&& observes(snapshot, files.ignore@)
            &&& observes(snapshot, files.gitignore@)
            &&& observes(snapshot, seq![files.marker])
            &&& files.repository matches Some(repository) ==> {
                &&& observes(snapshot, repository.links@)
                &&& observes(snapshot, repository.exclude@)
                &&& observes(snapshot, repository.settings@)
                &&& observes(snapshot, repository.global@)
            }
        }),
{
    let snapshot = directory_loaded(sources, files).sources;
    let first = customized(sources, files);
    let second = with_rules(first, files.ignore@);
    let third = with_rules(second, files.gitignore@);
    let fourth = marked(sources, files);
    if let Some(repository) = files.repository {
        let fifth = linked(sources, files, repository);
        let sixth = with_rules(fifth, repository.exclude@);
        let seventh = settled(sources, files, repository);
        lemma_rules_stage(seventh, repository.global@);
        lemma_reads_stage(sixth, repository.settings@);
        lemma_rules_stage(fifth, repository.exclude@);
        lemma_reads_stage(fourth, repository.links@);
        lemma_observes_more(seventh.sources, snapshot, repository.settings@);
        lemma_observes_more(sixth.sources, snapshot, repository.exclude@);
        lemma_observes_more(fifth.sources, snapshot, repository.links@);
    }
    assert(fourth.fault is None && third.fault is None);
    lemma_rules_stage(second, files.gitignore@);
    lemma_rules_stage(first, files.ignore@);
    lemma_rules_stage(Loading { sources, fault: None }, files.custom@);
    assert(grows(third.sources, fourth.sources));
    assert(observes(fourth.sources, seq![files.marker]));
    lemma_observes_more(fourth.sources, snapshot, seq![files.marker]);
    lemma_observes_more(third.sources, snapshot, files.gitignore@);
    lemma_observes_more(second.sources, snapshot, files.ignore@);
    lemma_observes_more(first.sources, snapshot, files.custom@);
}

/// What a path is an alias of: the first of the path and its ancestors that
/// resolves, with the rest of the path behind it. `canonical` holds what each of
/// them resolves to, the path itself first.
pub open spec fn alias_target(path: Seq<Seq<u8>>, canonical: Seq<Option<PathName>>, from: int) -> Seq<
    Seq<u8>,
>
    decreases canonical.len() - from,
{
    if from >= canonical.len() || from > path.len() {
        path
    } else {
        match canonical[from] {
            Some(target) => target@ + path.skip(path.len() - from),
            None => alias_target(path, canonical, from + 1),
        }
    }
}

/// The path under which changes of a rule file are reported, where the file or a
/// directory above it is a link.
pub fn watch_target(path: &PathName, canonical: &Vec<Option<PathName>>) -> (target: PathName)
    ensures
        target@ == alias_target(path@, canonical@, 0),
{
    let size: usize = path.len();
    let mut from: usize = 0;
    while from < canonical.len() && from <= size
        invariant
            from <= canonical@.len(),
            size == path@.len(),
            alias_target(path@, canonical@, 0) == alias_target(path@, canonical@, from as int),
        decreases canonical@.len() - from,
    {
        match &canonical[from] {
            Some(resolved) => {
                let mut target = resolved.copy();
                let ghost rest = path@.skip(size - from);
                let mut i: usize = size - from;
                assert(resolved@ + rest.take(0) =~= resolved@);
                while i < size
                    invariant
                        size - from <= i <= size,
                        from <= size,
                        size == path@.len(),
                        rest == path@.skip(size - from),
                        target@ == resolved@ + rest.take(i - (size - from)),
                    decreases size - i,
                {
                    target.push(path.part(i));
                    assert(resolved@ + rest.take(i + 1 - (size - from)) =~= (resolved@ + rest.take(
                        i - (size - from),
                    )).push(path@[i as int]));
                    i = i + 1;
                }
                assert(rest.take(from as int) =~= rest);
                return target;
            },
            None => {},
        }
        from = from + 1;
    }
    path.copy()
}

/// The directories whose rules a policy starts with: every ancestor of the root,
/// the outermost first, and the root itself.
pub open spec fn starting_directories(root: Seq<Seq<u8>>) -> Seq<Seq<Seq<u8>>>
    decreases root.len(),
{
    match parent_of(root) {
        Some(parent) => starting_directories(parent).push(root),
        None => seq![root],
    }
}

pub fn directories_to_load(root: &PathName) -> (directories: Vec<PathName>)
    ensures
        directories@.map_values(|p: PathName| p@) == starting_directories(root@),
    decreases root@.len(),
{
    let ghost view = |p: PathName| p@;
    let mut directories = match root.parent() {
        Some(parent) => directories_to_load(&parent),
        None => {
            let none: Vec<PathName> = Vec::new();
            none
        },
    };
    let ghost before = directories@;
    directories.push(root.copy());
    assert(directories@.map_values(view) =~= before.map_values(view).push(root@));
    proof {
        if parent_of(root@) is None {
            assert(directories@.map_values(view) =~= seq![root@]);
        }
    }
    directories
}

/// The rules that files hold, in the order of the files and of their lines, where
/// each file is missing or a text without faults.
pub open spec fn rules_in(files: Seq<(PathName, Found)>) -> Seq<Seq<char>>
    decreases files.len(),
{
    if files.len() == 0 {
        seq![]
    } else {
        let before = rules_in(files.drop_last());
        match files.last().1 {
            Found::File(bytes) => {
                let all = crate::text::lines(vstd::utf8::decode_utf8(bytes@));
                crate::sync::policy::sources::file_rules(before, all, all.len())->Ok_0
            },
            _ => before,
        }
    }
}

proof fn lemma_rules_in(
    sources: Map<Seq<Seq<u8>>, StateView>,
    files: Seq<(PathName, Found)>,
    n: nat,
)
    requires
        n <= files.len(),
        gathered(sources, files, n).rules is Ok,
    ensures
        gathered(sources, files, n).rules->Ok_0 == rules_in(files.take(n as int)),
    decreases n,
{
    if n > 0 {
        let before = gathered(sources, files, (n - 1) as nat);
        assert(before.rules is Ok);
        lemma_rules_in(sources, files, (n - 1) as nat);
        assert(files.take(n as int).drop_last() =~= files.take(n - 1));
        assert(files.take(n as int).last() == files[n - 1]);
    }
}

proof fn lemma_compiled_rules(sources: Map<Seq<Seq<u8>>, StateView>, files: Seq<(PathName, Found)>)
    requires
        compiled(sources, files) is Ok,
    ensures
        compiled(sources, files)->Ok_0 == rules_in(files),
{
    lemma_rules_in(sources, files, files.len());
    assert(files.take(files.len() as int) =~= files);
}

/// The rules of a loaded directory are those of its own files, each kind by itself,
/// and hold below that directory. A directory that begins no repository has no rules
/// of a repository.
pub proof fn law_a_directory_has_the_rules_of_its_files(
    rules: DirectoryRules,
    directory: Seq<Seq<u8>>,
    sources: Map<Seq<Seq<u8>>, StateView>,
    files: DirectoryFiles,
)
    requires
        directory_loaded(sources, files).fault is None,
        directory_rules(rules, directory, sources, files),
    ensures
        rules.directory@ == directory,
        rules_of(rules.custom) == rules_in(files.custom@),
        rules_of(rules.ignore) == rules_in(files.ignore@),
        rules_of(rules.gitignore) == rules_in(files.gitignore@),
        rules_of(rules.custom).len() > 0 ==> rules_root(rules.custom) == shown(directory),
        rules_of(rules.ignore).len() > 0 ==> rules_root(rules.ignore) == shown(directory),
        rules_of(rules.gitignore).len() > 0 ==> rules_root(rules.gitignore) == shown(directory),
        files.repository is None ==> rules_of(rules.exclude).len() == 0 && rules.global is None,
        files.repository matches Some(repository) ==> {
            &&& rules_of(rules.exclude) == rules_in(repository.exclude@)
            &&& rules_of(rules.exclude).len() > 0 ==> rules_root(rules.exclude) == shown(directory)
            &&& rules.global matches Some(global) && rules_of(global) == rules_in(
                repository.global@,
            ) && (rules_of(global).len() > 0 ==> rules_root(global) == shown(directory))
        },
{
    let second = customized(sources, files);
    let third = with_rules(second, files.ignore@);
    let fourth = with_rules(third, files.gitignore@);
    assert(marked(sources, files).fault is None);
    assert(fourth.fault is None);
    assert(third.fault is None);
    assert(second.fault is None);
    lemma_compiled_rules(sources, files.custom@);
    lemma_compiled_rules(second.sources, files.ignore@);
    lemma_compiled_rules(third.sources, files.gitignore@);
    if files.repository is Some {
        let repository = files.repository->0;
        let own = linked(sources, files, repository);
        assert(settled(sources, files, repository).fault is None);
        assert(with_rules(own, repository.exclude@).fault is None);
        assert(own.fault is None);
        lemma_compiled_rules(own.sources, repository.exclude@);
        lemma_compiled_rules(settled(sources, files, repository).sources, repository.global@);
    }
}

/// Rules of a directory are loaded exactly where one of the loaded ones is it.
pub proof fn law_what_is_loaded(directories: Seq<DirectoryRules>, directory: Seq<Seq<u8>>)
    ensures
        is_loaded(directories, directory) <==> directories.map_values(
            |rules: DirectoryRules| rules.directory@,
        ).contains(directory),
    decreases directories.len(),
{
    let all = directories.map_values(|rules: DirectoryRules| rules.directory@);
    if directories.len() > 0 {
        let rest = directories.drop_first();
        let others = rest.map_values(|rules: DirectoryRules| rules.directory@);
        law_what_is_loaded(rest, directory);
        assert(all[0] == directories[0].directory@);
        if others.contains(directory) {
            let i = choose|i: int| 0 <= i < others.len() && others[i] == directory;
            assert(all[i + 1] == directory);
        }
        if all.contains(directory) && directories[0].directory@ != directory {
            let i = choose|i: int| 0 <= i < all.len() && all[i] == directory;
            assert(others[i - 1] == directory);
        }
    }
}

/// What an event on a path means where the path alone decides: nothing where it is
/// private or outside the checkout, and a change where rules that were observed are
/// there or below, or where it holds rules.
pub proof fn law_which_paths_decide_by_themselves(
    policy: PolicyView,
    path: Seq<Seq<u8>>,
    is_dir: bool,
    observed: Set<Seq<Seq<u8>>>,
)
    requires
        path.len() > 0 && path[0] == seq![47u8],
    ensures
        ({
            let seen = exists|source: Seq<Seq<u8>>| #[trigger]
                observed.contains(source) && path.is_prefix_of(source);
            let answer = judged(policy, path, is_dir, observed);
            &&& private_path(path) ==> answer == RelevanceView::Answer(false)
            &&& !private_path(path) && (seen || rule_path(path)) ==> answer
                == RelevanceView::Answer(true)
            &&& !private_path(path) && !seen && !rule_path(path) && !policy.root.is_prefix_of(path)
                ==> answer == RelevanceView::Answer(false)
        }),
{
    assert(resolved(policy.root, path) == path);
    let seen = exists|source: Seq<Seq<u8>>| #[trigger]
        observed.contains(source) && path.is_prefix_of(source);
    if seen {
        let source = choose|source: Seq<Seq<u8>>| #[trigger]
            observed.contains(source) && path.is_prefix_of(source);
        assert(is_under(source, path));
    }
    if touches_observed(path, observed) {
        let source = choose|source: Seq<Seq<u8>>|
            observed.contains(source) && #[trigger] is_under(source, path);
        assert(observed.contains(source) && path.is_prefix_of(source));
    }
}

proof fn lemma_on_the_way(
    policy: PolicyView,
    path: Seq<Seq<u8>>,
    is_dir: bool,
    depth: int,
    at: int,
)
    requires
        0 <= depth < at <= path.len(),
        forall|k: int|
            #![trigger path.take(k)]
            depth < k < at && k < path.len() ==> policy.includes(path.take(k), true) && is_loaded(
                policy.directories,
                path.take(k),
            ),
    ensures
        at >= path.len() ==> judged_below(policy, path, is_dir, depth) == RelevanceView::Answer(
            policy.includes(path, is_dir),
        ),
        at < path.len() ==> judged_below(policy, path, is_dir, depth) == judged_below(
            policy,
            path,
            is_dir,
            at - 1,
        ),
    decreases at - depth,
{
    if depth + 1 < at {
        assert(policy.includes(path.take(depth + 1), true));
        lemma_on_the_way(policy, path, is_dir, depth + 1, at);
    }
}

/// Any other path below the root matters where it is source and every directory on
/// the way to it is. The way is walked from the root: the first directory that is
/// not source decides that the path does not matter, and the first one whose rules
/// are not loaded is loaded.
pub proof fn law_every_directory_on_the_way_must_be_source(
    policy: PolicyView,
    path: Seq<Seq<u8>>,
    is_dir: bool,
    observed: Set<Seq<Seq<u8>>>,
    at: int,
)
    requires
        path[0] == seq![47u8],
        !private_path(path),
        !rule_path(path),
        forall|source: Seq<Seq<u8>>| #[trigger]
            observed.contains(source) ==> !path.is_prefix_of(source),
        policy.root.is_prefix_of(path),
        policy.root.len() < at <= path.len(),
        forall|k: int|
            #![trigger path.take(k)]
            policy.root.len() < k < at ==> policy.includes(path.take(k), true) && is_loaded(
                policy.directories,
                path.take(k),
            ),
    ensures
        ({
            let answer = judged(policy, path, is_dir, observed);
            &&& at == path.len() ==> answer == RelevanceView::Answer(policy.includes(path, is_dir))
            &&& at < path.len() && !policy.includes(path.take(at), true) ==> answer
                == RelevanceView::Answer(false)
            &&& at < path.len() && policy.includes(path.take(at), true) && !is_loaded(
                policy.directories,
                path.take(at),
            ) ==> answer == RelevanceView::Load(path.take(at))
        }),
{
    assert(resolved(policy.root, path) == path);
    if touches_observed(path, observed) {
        let source = choose|source: Seq<Seq<u8>>|
            observed.contains(source) && #[trigger] is_under(source, path);
        assert(observed.contains(source));
    }
    assert(quick_answer(policy.root, path, observed) is None);
    lemma_on_the_way(policy, path, is_dir, policy.root.len() as int, at);
}

/// A path that is not there is watched through the closest directory above it that
/// is: by the canonical path of that directory with the rest behind it. `canonical`
/// holds what is known of the path, of its parent, and so on.
pub proof fn law_a_path_is_watched_through_what_is_there(
    path: Seq<Seq<u8>>,
    canonical: Seq<Option<PathName>>,
    from: int,
    at: int,
)
    requires
        0 <= from <= at <= canonical.len(),
        canonical.len() <= path.len() + 1,
        forall|k: int| from <= k < at ==> #[trigger] canonical[k] is None,
        at == canonical.len() || canonical[at] is Some,
    ensures
        at == canonical.len() ==> alias_target(path, canonical, from) == path,
        at < canonical.len() ==> alias_target(path, canonical, from) == canonical[at]->0@
            + path.subrange(path.len() - at, path.len() as int),
    decreases at - from,
{
    if from < at {
        assert(canonical[from] is None);
        law_a_path_is_watched_through_what_is_there(path, canonical, from + 1, at);
    } else if at < canonical.len() {
        assert(path.skip(path.len() - at) =~= path.subrange(path.len() - at, path.len() as int));
    }
}

/// Rules are loaded for every directory from the root of the file system down to the
/// checkout.
pub proof fn law_rules_are_loaded_from_the_top(root: Seq<Seq<u8>>)
    requires
        is_written_out(root),
    ensures
        starting_directories(root) == Seq::new(root.len(), |i: int| root.take(i + 1)),
    decreases root.len(),
{
    assert(root.take(root.len() as int) =~= root);
    if root.len() == 1 {
        assert(starting_directories(root) =~= seq![root]);
    } else {
        let parent = root.drop_last();
        assert(root[root.len() - 1] != seq![47u8]);
        assert(forall|i: int| 0 <= i < parent.len() ==> #[trigger] parent[i] == root[i]);
        law_rules_are_loaded_from_the_top(parent);
        assert(forall|i: int| 0 <= i < parent.len() ==> #[trigger] parent.take(i + 1) =~= root.take(i + 1));
        assert(starting_directories(root) =~= Seq::new(root.len(), |i: int| root.take(i + 1)));
    }
}

/// Every call of `includes` answers by the rules of the policy: where no rules of the
/// directories above the path speak of it, a path that the policy's global rules
/// ignore is not source, one that they whitelist is, and one of which they say
/// nothing is source unless it is hidden.
pub proof fn law_includes_consults_the_global_rules(
    policy: &SourcePolicy,
    path: &PathName,
    is_dir: bool,
    included: bool,
)
    requires
        call_ensures(SourcePolicy::includes, (policy, path, is_dir), included),
        is_written_out(path@),
        may_be_source(policy@.root, path@),
        forall|k: int|
            0 <= k < policy@.directories.len() ==> (
            #[trigger] policy@.directories[k]).directory@.len() > 0 && policy@.directories[k].global is None,
        are_quiet(policy@.directories, 4, path@, is_dir),
    ensures
        is_quiet(policy@.global, path@, is_dir) ==> included == !(path@.last().len() > 0
            && path@.last()[0] == 46 && path@.last() != seq![46u8, 46u8]),
        !is_quiet(policy@.global, path@, is_dir) ==> included == is_whitelisted(
            policy@.global,
            path@,
            is_dir,
        ),
{
    law_global_rules_decide_last(policy@, path@, is_dir, None);
}

/// Every call of `includes` answers what the policy says of the path, and every call of
/// `event_is_relevant` what it says of the event.
pub proof fn law_calls_answer_by_the_policy(
    policy: &SourcePolicy,
    path: &PathName,
    is_dir: bool,
    observed: &Vec<PathName>,
    included: bool,
    step: RelevanceStep,
)
    requires
        call_ensures(SourcePolicy::includes, (policy, path, is_dir), included),
        call_ensures(SourcePolicy::event_is_relevant, (policy, path, is_dir, observed), step),
    ensures
        included == policy@.includes(path@, is_dir),
        match step {
            RelevanceStep::Answer(answer) => judged(policy@, path@, is_dir, path_set(observed@))
                == RelevanceView::Answer(answer),
            RelevanceStep::Load(directory) => judged(policy@, path@, is_dir, path_set(observed@))
                == RelevanceView::Load(directory@),
        },
{
}

/// Loading the rules of a directory adds them behind those that are loaded, from its
/// own files, or changes no rules and says why. A directory is loaded once.
pub proof fn law_loading_adds_the_rules_of_a_directory(
    policy: &mut SourcePolicy,
    directory: &PathName,
    files: &DirectoryFiles,
    loaded: Result<(), String>,
)
    requires
        call_ensures(SourcePolicy::load_directory, (policy, directory, files), loaded),
    ensures
        final(policy)@.root == old(policy)@.root && final(policy)@.global == old(policy)@.global,
        is_loaded(old(policy)@.directories, directory@) ==> loaded is Ok && final(policy)@ == old(policy)@,
        loaded is Err ==> final(policy)@.directories == old(policy)@.directories,
        !is_loaded(old(policy)@.directories, directory@) && loaded is Ok ==> {
            let before = old(policy)@.directories;
            let after = final(policy)@.directories;
            &&& after.len() == before.len() + 1
            &&& after.take(before.len() as int) == before
            &&& after.last().directory@ == directory@
            &&& rules_of(after.last().custom) == rules_in(files.custom@)
            &&& rules_of(after.last().ignore) == rules_in(files.ignore@)
            &&& rules_of(after.last().gitignore) == rules_in(files.gitignore@)
            &&& files.repository matches Some(repository) ==> rules_of(after.last().exclude)
                == rules_in(repository.exclude@) && (after.last().global matches Some(global)
                && rules_of(global) == rules_in(repository.global@))
            &&& files.repository is None ==> rules_of(after.last().exclude).len() == 0
                && after.last().global is None
        },
{
    if !is_loaded(old(policy)@.directories, directory@) && loaded is Ok {
        let before = old(policy)@.directories;
        let after = final(policy)@.directories;
        assert(after.take(before.len() as int) =~= after.drop_last());
        law_a_directory_has_the_rules_of_its_files(
            after.last(),
            directory@,
            old(policy)@.sources,
            *files,
        );
    }
}

} // verus!
