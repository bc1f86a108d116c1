//! Whether a batch of filesystem events justifies a sync.

use vstd::prelude::*;

use crate::engine::watch_hub::{can_change_tree, changes_tree, event_views, Event, EventView};
use crate::paths::{absolute_path, is_under, path_set, PathName};
use crate::sync::policy::checked::{
    judged, judged_below, quick_answer, PolicyView, RelevanceStep, RelevanceView, SourcePolicy,
};
use crate::sync::policy::names::{event_may_affect_policy, may_affect, rule_path};

verus! {

/// Whether an event can have changed the tree and names a path that may matter.
pub open spec fn event_may_matter(
    root: Seq<Seq<u8>>,
    event: EventView,
    observed: Set<Seq<Seq<u8>>>,
) -> bool {
    &&& changes_tree(event.kind)
    &&& exists|i: int|
        0 <= i < event.paths.len() && may_affect(root, #[trigger] event.paths[i], observed)
}

/// Whether a batch holds an event that may matter. No file is read for this, so
/// most batches end here.
pub fn batch_may_matter(root: &PathName, events: &Vec<Event>, observed: &Vec<PathName>) -> (may: bool)
    ensures
        may == exists|k: int|
            0 <= k < events@.len() && event_may_matter(
                root@,
                #[trigger] events@[k]@,
                path_set(observed@),
            ),
{
    let mut k: usize = 0;
    while k < events.len()
        invariant
            k <= events@.len(),
            forall|j: int|
                0 <= j < k ==> !event_may_matter(root@, #[trigger] events@[j]@, path_set(observed@)),
        decreases events@.len() - k,
    {
        let event = &events[k];
        if can_change_tree(event) {
            let mut i: usize = 0;
            while i < event.paths.len()
                invariant
                    i <= event.paths@.len(),
                    k < events@.len(),
                    *event == events@[k as int],
                    changes_tree(event@.kind),
                    forall|j: int|
                        0 <= j < i ==> !may_affect(
                            root@,
                            #[trigger] event@.paths[j],
                            path_set(observed@),
                        ),
                decreases event.paths@.len() - i,
            {
                if event_may_affect_policy(root, &event.paths[i], observed) {
                    assert(may_affect(root@, event@.paths[i as int], path_set(observed@)));
                    assert(event_may_matter(root@, events@[k as int]@, path_set(observed@)));
                    return true;
                }
                i = i + 1;
            }
        }
        k = k + 1;
    }
    false
}

/// The paths of the events that can have changed the tree, in order.
pub open spec fn changed_paths(events: Seq<EventView>) -> Seq<Seq<Seq<u8>>>
    decreases events.len(),
{
    if events.len() == 0 {
        seq![]
    } else if changes_tree(events.last().kind) {
        changed_paths(events.drop_last()) + events.last().paths
    } else {
        changed_paths(events.drop_last())
    }
}

/// What a check of a batch does next.
pub enum CheckStep {
    /// Load the rules of this directory and go on. Where that fails the batch
    /// counts as relevant: the scan will report the failure.
    Load(PathName),
    /// The path does not matter; the next one is looked at.
    Next,
    /// The batch justifies a sync.
    Relevant,
}

/// A check of a batch against a policy, path by path.
pub struct RelevanceCheck {
    paths: Vec<PathName>,
    at: usize,
}

impl RelevanceCheck {
    /// The paths that are still to be looked at.
    pub closed spec fn rest(self) -> Seq<Seq<Seq<u8>>> {
        self.paths@.map_values(|p: PathName| p@).skip(self.at as int)
    }

    pub closed spec fn wf(self) -> bool {
        self.at <= self.paths@.len()
    }

    pub fn new(events: &Vec<Event>) -> (check: RelevanceCheck)
        ensures
            check.wf(),
            check.rest() == changed_paths(event_views(events@)),
    {
        let ghost all = event_views(events@);
        let mut paths: Vec<PathName> = Vec::new();
        let mut k: usize = 0;
        assert(paths@.map_values(|p: PathName| p@) =~= changed_paths(all.take(0)));
        while k < events.len()
            invariant
                k <= events@.len(),
                all == event_views(events@),
                paths@.map_values(|p: PathName| p@) == changed_paths(all.take(k as int)),
            decreases events@.len() - k,
        {
            let event = &events[k];
            proof {
                assert(all.take(k + 1).drop_last() =~= all.take(k as int));
                assert(all.take(k + 1).last() == event@);
            }
            if can_change_tree(event) {
                let ghost before = paths@.map_values(|p: PathName| p@);
                let mut i: usize = 0;
                assert(before + event@.paths.take(0) =~= before);
                while i < event.paths.len()
                    invariant
                        i <= event.paths@.len(),
                        event@.paths == event.paths@.map_values(|p: PathName| p@),
                        paths@.map_values(|p: PathName| p@) == before + event@.paths.take(i as int),
                    decreases event.paths@.len() - i,
                {
                    let ghost so_far = paths@;
                    paths.push(event.paths[i].copy());
                    assert(paths@.drop_last() =~= so_far);
                    assert(paths@.map_values(|p: PathName| p@) =~= so_far.map_values(
                        |p: PathName| p@,
                    ).push(event@.paths[i as int]));
                    assert(paths@.map_values(|p: PathName| p@) =~= before + event@.paths.take(i + 1));
                    i = i + 1;
                }
                assert(event@.paths.take(i as int) =~= event@.paths);
            }
            k = k + 1;
        }
        assert(all.take(k as int) =~= all);
        let check = RelevanceCheck { paths, at: 0 };
        assert(check.rest() =~= check.paths@.map_values(|p: PathName| p@));
        check
    }

    /// The path that is looked at, for whether it is a directory. Where there
    /// is none, no path of the batch matters.
    pub fn current(&self) -> (path: Option<&PathName>)
        requires
            self.wf(),
        ensures
            match path {
                Some(p) => self.rest().len() > 0 && p@ == self.rest()[0],
                None => self.rest().len() == 0,
            },
    {
        if self.at < self.paths.len() {
            Some(&self.paths[self.at])
        } else {
            None
        }
    }

    /// Judges the path that is looked at.
    pub fn step(&mut self, policy: &SourcePolicy, is_dir: bool, observed: &Vec<PathName>) -> (step:
        CheckStep)
        requires
            old(self).wf(),
            old(self).rest().len() > 0,
        ensures
            final(self).wf(),
            match judged(policy@, old(self).rest()[0], is_dir, path_set(observed@)) {
                RelevanceView::Answer(true) => step is Relevant && *final(self) == *old(self),
                RelevanceView::Answer(false) => {
                    &&& step is Next
                    &&& final(self).rest() == old(self).rest().drop_first()
                },
                RelevanceView::Load(directory) => {
                    &&& step matches CheckStep::Load(d) && d@ == directory
                    &&& *final(self) == *old(self)
                },
            },
    {
        let size: usize = self.paths.len();
        assert(self.at < size);
        match policy.event_is_relevant(&self.paths[self.at], is_dir, observed) {
            RelevanceStep::Answer(relevant) => {
                if relevant {
                    CheckStep::Relevant
                } else {
                    let ghost before = self.rest();
                    self.at = self.at + 1;
                    assert(self.rest() =~= before.drop_first());
                    CheckStep::Next
                }
            },
            RelevanceStep::Load(directory) => CheckStep::Load(directory),
        }
    }
}

/// A scan reads the tree it walks, and reading justifies no sync: a batch of
/// plain accesses does not matter.
pub proof fn law_reading_justifies_no_sync(
    root: Seq<Seq<u8>>,
    events: Seq<EventView>,
    observed: Set<Seq<Seq<u8>>>,
)
    requires
        forall|k: int| 0 <= k < events.len() ==> !changes_tree((#[trigger] events[k]).kind),
    ensures
        forall|k: int| 0 <= k < events.len() ==> !event_may_matter(root, #[trigger] events[k], observed),
        changed_paths(events).len() == 0,
    decreases events.len(),
{
    if events.len() > 0 {
        assert forall|k: int| 0 <= k < events.drop_last().len() implies !changes_tree(
            (#[trigger] events.drop_last()[k]).kind,
        ) by {
            assert(events.drop_last()[k] == events[k]);
        }
        law_reading_justifies_no_sync(root, events.drop_last(), observed);
        assert(!changes_tree(events[events.len() - 1].kind));
    }
}

proof fn lemma_excluded_paths_are_not_relevant(
    policy: PolicyView,
    path: Seq<Seq<u8>>,
    is_dir: bool,
    depth: int,
)
    requires
        !policy.includes(path, is_dir),
    ensures
        judged_below(policy, path, is_dir, depth) != RelevanceView::Answer(true),
    decreases path.len() - depth,
{
    if depth + 1 < path.len() {
        lemma_excluded_paths_are_not_relevant(policy, path, is_dir, depth + 1);
    }
}

/// The filter that reads no rules loses nothing: a path that it drops is not
/// found relevant by the rules either. Events name absolute paths. Rule files
/// outside the checkout that are not observed are left out: nothing depends on
/// them.
pub proof fn law_the_quick_filter_loses_nothing(
    policy: PolicyView,
    path: Seq<Seq<u8>>,
    is_dir: bool,
    observed: Set<Seq<Seq<u8>>>,
)
    requires
        absolute_path(path),
        !may_affect(policy.root, path, observed),
        is_under(path, policy.root) || !rule_path(path),
    ensures
        judged(policy, path, is_dir, observed) != RelevanceView::Answer(true),
{
    if quick_answer(policy.root, path, observed) is None {
        assert(!policy.includes(path, is_dir));
        lemma_excluded_paths_are_not_relevant(policy, path, is_dir, policy.root.len() as int);
    }
}

/// The paths that are looked at are exactly those of the events that can have
/// changed the tree.
pub proof fn law_every_changed_path_is_looked_at(events: Seq<EventView>, path: Seq<Seq<u8>>)
    ensures
        changed_paths(events).contains(path) <==> exists|k: int|
            0 <= k < events.len() && changes_tree((#[trigger] events[k]).kind)
                && events[k].paths.contains(path),
    decreases events.len(),
{
    if events.len() > 0 {
        let fewer = events.drop_last();
        let last = events.len() - 1;
        law_every_changed_path_is_looked_at(fewer, path);
        let before = changed_paths(fewer);
        let all = changed_paths(events);
        assert(events[last] == events.last());
        if before.contains(path) {
            let k = choose|k: int|
                0 <= k < fewer.len() && changes_tree((#[trigger] fewer[k]).kind)
                    && fewer[k].paths.contains(path);
            assert(events[k] == fewer[k]);
            let i = choose|i: int| 0 <= i < before.len() && before[i] == path;
            assert(all[i] == path);
        }
        if changes_tree(events[last].kind) && events[last].paths.contains(path) {
            let i = choose|i: int|
                0 <= i < events[last].paths.len() && events[last].paths[i] == path;
            assert(all[before.len() + i] == path);
        }
        if all.contains(path) && !before.contains(path) {
            let i = choose|i: int| 0 <= i < all.len() && all[i] == path;
            if i < before.len() {
                assert(before[i] == path);
            } else {
                assert(events[last].paths[i - before.len()] == path);
            }
        }
        if exists|k: int|
            0 <= k < events.len() && changes_tree((#[trigger] events[k]).kind)
                && events[k].paths.contains(path) {
            let k = choose|k: int|
                0 <= k < events.len() && changes_tree((#[trigger] events[k]).kind)
                    && events[k].paths.contains(path);
            if k < last {
                assert(fewer[k] == events[k]);
            }
        }
    }
}

/// An event can matter exactly where it can have changed the tree and one of its
/// paths may affect the checkout.
pub proof fn law_which_events_can_matter(
    root: Seq<Seq<u8>>,
    event: EventView,
    observed: Set<Seq<Seq<u8>>>,
    i: int,
)
    requires
        0 <= i < event.paths.len(),
    ensures
        changes_tree(event.kind) && may_affect(root, event.paths[i], observed) ==> event_may_matter(
            root,
            event,
            observed,
        ),
        event_may_matter(root, event, observed) ==> event.paths.filter(
            |path: Seq<Seq<u8>>| may_affect(root, path, observed),
        ).len() > 0,
{
    if event_may_matter(root, event, observed) {
        let k = choose|k: int|
            0 <= k < event.paths.len() && may_affect(root, #[trigger] event.paths[k], observed);
        let test = |path: Seq<Seq<u8>>| may_affect(root, path, observed);
        event.paths.lemma_filter_contains(test, k);
    }
}

/// A check looks at the changed paths one by one: a path that matters makes the batch
/// relevant, one that does not is left behind, and for one that needs rules these are
/// loaded first.
pub proof fn law_a_check_looks_at_one_path_after_another(
    check: &mut RelevanceCheck,
    policy: &SourcePolicy,
    is_dir: bool,
    observed: &Vec<PathName>,
    step: CheckStep,
)
    requires
        call_ensures(RelevanceCheck::step, (check, policy, is_dir, observed), step),
        old(check).rest().len() > 0,
    ensures
        ({
            let answer = judged(policy@, old(check).rest()[0], is_dir, path_set(observed@));
            &&& answer == RelevanceView::Answer(true) <==> step is Relevant
            &&& answer == RelevanceView::Answer(false) <==> step is Next
            &&& step is Next ==> final(check).rest() == old(check).rest().skip(1)
            &&& !(step is Next) ==> final(check).rest() == old(check).rest()
            &&& step matches CheckStep::Load(directory) ==> answer == RelevanceView::Load(directory@)
        }),
{
    assert(old(check).rest().drop_first() =~= old(check).rest().skip(1));
}

} // verus!
