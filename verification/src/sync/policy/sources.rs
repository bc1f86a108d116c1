//! The rule files that a policy was read from, and what they held.
//!
//! A snapshot records absent rules too, so creating, replacing or removing a
//! rule during a scan is noticed.

use ignore::gitignore::{Gitignore, GitignoreBuilder};
use vstd::prelude::*;
use vstd::string::*;

use crate::digest::{blake3_digest, digest};
use crate::paths::{
    copy_slice, lemma_path_before_irreflexive, lemma_path_before_transitive, path_before, shown,
    PathName,
};
use crate::sync::policy::rules::{
    add_line, builder_root, builder_rules, compile, line_fault, new_builder, rules_error, rules_of,
    rules_root, rules_with,
};
use crate::text::{
    chars_of, copy_text, decimal, decimal_text, decoded, line_ranges, lines, same_bytes, text_of,
    text_of_bytes,
};

verus! {

/// What a path is found to be.
pub enum Found {
    Missing,
    /// A directory, by its canonical path.
    Directory(PathName),
    /// A file, by its content.
    File(Vec<u8>),
}

/// What stands at a path, behind a link where it is one.
#[derive(Clone, Copy, Debug, PartialEq, Eq, Structural)]
pub enum PathKind {
    Missing,
    Directory,
    File,
    /// The device that is always empty. Git is often told to read it in place of
    /// a configuration or exclude file.
    NullDevice,
    /// Other devices and pipes, which can block.
    Other,
}

/// What is done to inspect a path.
#[derive(Clone, Copy, Debug, PartialEq, Eq, Structural)]
pub enum InspectStep {
    /// There is nothing.
    Missing,
    /// Resolve the directory's path.
    Canonicalize,
    /// Read the content.
    Read,
}

/// What is done to inspect a path of a kind. Only what cannot block is read.
pub fn inspect(path: &PathName, kind: PathKind) -> (step: Result<InspectStep, String>)
    ensures
        match kind {
            PathKind::Missing => step == Ok::<InspectStep, String>(InspectStep::Missing),
            PathKind::Directory => step == Ok::<InspectStep, String>(InspectStep::Canonicalize),
            PathKind::File | PathKind::NullDevice => step == Ok::<InspectStep, String>(
                InspectStep::Read,
            ),
            PathKind::Other => step matches Err(message) && message@
                == "policy path is not a regular file: "@ + shown(path@),
        },
{
    match kind {
        PathKind::Missing => Ok(InspectStep::Missing),
        PathKind::Directory => Ok(InspectStep::Canonicalize),
        PathKind::File => Ok(InspectStep::Read),
        PathKind::NullDevice => Ok(InspectStep::Read),
        PathKind::Other => Err(about("policy path is not a regular file: ", path)),
    }
}

/// What a snapshot keeps of a path.
pub enum SourceState {
    Missing,
    Directory(PathName),
    /// The digest of a file's content.
    File(Vec<u8>),
}

pub enum StateView {
    Missing,
    Directory(Seq<Seq<u8>>),
    File(Seq<u8>),
}

impl View for SourceState {
    type V = StateView;

    open spec fn view(&self) -> StateView {
        match *self {
            SourceState::Missing => StateView::Missing,
            SourceState::Directory(target) => StateView::Directory(target@),
            SourceState::File(hash) => StateView::File(hash@),
        }
    }
}

/// What a snapshot keeps of what was found.
pub open spec fn state_of(found: Found) -> StateView {
    match found {
        Found::Missing => StateView::Missing,
        Found::Directory(target) => StateView::Directory(target@),
        Found::File(bytes) => StateView::File(blake3_digest(bytes@)),
    }
}

pub fn state(found: &Found) -> (state: SourceState)
    ensures
        state@ == state_of(*found),
{
    match found {
        Found::Missing => SourceState::Missing,
        Found::Directory(target) => SourceState::Directory(target.copy()),
        Found::File(bytes) => {
            let hash = digest(bytes.as_slice());
            SourceState::File(copy_slice(hash.as_slice()))
        },
    }
}

impl SourceState {
    pub fn same(&self, other: &SourceState) -> (equal: bool)
        ensures
            equal == (self@ == other@),
    {
        match (self, other) {
            (SourceState::Missing, SourceState::Missing) => true,
            (SourceState::Directory(a), SourceState::Directory(b)) => a.same(b),
            (SourceState::File(a), SourceState::File(b)) => same_bytes(a.as_slice(), b.as_slice()),
            _ => false,
        }
    }
}

/// The entries as a map from paths to states; of two the later counts.
pub open spec fn source_map(entries: Seq<(PathName, SourceState)>) -> Map<Seq<Seq<u8>>, StateView>
    decreases entries.len(),
{
    if entries.len() == 0 {
        Map::empty()
    } else {
        source_map(entries.drop_last()).insert(entries.last().0@, entries.last().1@)
    }
}

/// What is said of a rule that changed.
pub open spec fn changed_message(path: Seq<Seq<u8>>) -> Seq<char> {
    "source policy changed during sync: "@ + shown(path)
}

/// A message about a path.
fn about(message: &str, path: &PathName) -> (text: String)
    ensures
        text@ == message@ + shown(path@),
{
    let mut text = copy_text(message);
    text.push_str(path.display().as_str());
    text
}

/// A snapshot once a path is found to be in a state.
pub open spec fn observed(
    sources: Map<Seq<Seq<u8>>, StateView>,
    path: Seq<Seq<u8>>,
    found: StateView,
) -> Map<Seq<Seq<u8>>, StateView> {
    if sources.dom().contains(path) {
        sources
    } else {
        sources.insert(path, found)
    }
}

/// Whether a path was seen in another state before.
pub open spec fn has_changed(
    sources: Map<Seq<Seq<u8>>, StateView>,
    path: Seq<Seq<u8>>,
    found: StateView,
) -> bool {
    sources.dom().contains(path) && sources[path] != found
}

/// The states of every path that a policy depends on.
pub struct Sources {
    entries: Vec<(PathName, SourceState)>,
}

impl View for Sources {
    type V = Map<Seq<Seq<u8>>, StateView>;

    closed spec fn view(&self) -> Map<Seq<Seq<u8>>, StateView> {
        source_map(self.entries@)
    }
}

impl Sources {
    pub fn new() -> (sources: Sources)
        ensures
            sources@ == Map::<Seq<Seq<u8>>, StateView>::empty(),
    {
        Sources { entries: Vec::new() }
    }

    pub closed spec fn entries_view(self) -> Seq<(PathName, SourceState)> {
        self.entries@
    }

    /// The paths that the policy depends on, with what each was found to be.
    pub fn entries(&self) -> (entries: &Vec<(PathName, SourceState)>)
        ensures
            source_map(entries@) == self@,
            entries@ == self.entries_view(),
    {
        &self.entries
    }

    /// The state of a path, where it was observed.
    fn recorded(&self, path: &PathName) -> (found: Option<&SourceState>)
        ensures
            match found {
                Some(s) => self@.dom().contains(path@) && self@[path@] == s@,
                None => !self@.dom().contains(path@),
            },
    {
        let mut i: usize = self.entries.len();
        assert(self.entries@.take(i as int) =~= self.entries@);
        while i > 0
            invariant
                i <= self.entries@.len(),
                self@.dom().contains(path@) == source_map(
                    self.entries@.take(i as int),
                ).dom().contains(path@),
                self@.dom().contains(path@) ==> self@[path@] == source_map(
                    self.entries@.take(i as int),
                )[path@],
            decreases i,
        {
            i = i - 1;
            assert(self.entries@.take(i + 1).drop_last() =~= self.entries@.take(i as int));
            assert(self.entries@.take(i + 1).last() == self.entries@[i as int]);
            if self.entries[i].0.same(path) {
                return Some(&self.entries[i].1);
            }
        }
        None
    }

    /// Records what a path is found to be. A path that was seen in another
    /// state before is a change during the scan.
    pub fn observe(&mut self, path: &PathName, found: &Found) -> (seen: Result<(), String>)
        ensures
            match seen {
                Ok(()) => !has_changed(old(self)@, path@, state_of(*found)) && final(self)@
                    == observed(old(self)@, path@, state_of(*found)),
                Err(message) => has_changed(old(self)@, path@, state_of(*found)) && final(self)@
                    == old(self)@ && message@ == changed_message(path@),
            },
    {
        let now = state(found);
        match self.recorded(path) {
            Some(previous) => {
                if !previous.same(&now) {
                    return Err(about("source policy changed during sync: ", path));
                }
                return Ok(());
            },
            None => {},
        }
        let ghost before = self.entries@;
        self.entries.push((path.copy(), now));
        assert(self.entries@.drop_last() =~= before);
        Ok(())
    }

    /// Records what a rule file is found to be; a directory cannot be one.
    pub fn read(&mut self, path: &PathName, found: &Found) -> (seen: Result<(), String>)
        ensures
            read_fault(old(self)@, path@, *found) == match seen {
                Ok(()) => None,
                Err(message) => Some(message@),
            },
            final(self)@ == if has_changed(old(self)@, path@, state_of(*found)) {
                old(self)@
            } else {
                observed(old(self)@, path@, state_of(*found))
            },
    {
        match self.observe(path, found) {
            Ok(()) => {},
            Err(message) => return Err(message),
        }
        match found {
            Found::Directory(_) => Err(about("policy path is a directory: ", path)),
            _ => Ok(()),
        }
    }

    /// Compares every path with what it is found to be now, in the order of
    /// [`Sources::entries`]. Of several that changed, the first path is named.
    pub fn verify(&self, now: &Vec<Found>) -> (verified: Result<(), String>)
        requires
            now@.len() == self.entries_view().len(),
        ensures
            match verified {
                Ok(()) => forall|i: int|
                    0 <= i < now@.len() ==> (#[trigger] self.entries_view()[i]).1@ == state_of(
                        now@[i],
                    ),
                Err(message) => exists|i: int|
                    #![trigger self.entries_view()[i]]
                    first_changed(self.entries_view(), now@, now@.len() as int, i) && message@
                        == changed_message(self.entries_view()[i].0@),
            },
    {
        let mut changed: Option<usize> = None;
        let mut i: usize = 0;
        while i < self.entries.len()
            invariant
                i <= self.entries@.len(),
                now@.len() == self.entries@.len(),
                match changed {
                    Some(at) => first_changed(self.entries@, now@, i as int, at as int),
                    None => forall|k: int|
                        0 <= k < i ==> (#[trigger] self.entries@[k]).1@ == state_of(now@[k]),
                },
            decreases self.entries@.len() - i,
        {
            let current = state(&now[i]);
            let same = self.entries[i].1.same(&current);
            match changed {
                Some(at) => {
                    if !same && self.entries[i].0.before(&self.entries[at].0) {
                        proof {
                            let least = self.entries@[i as int].0@;
                            let other = self.entries@[at as int].0@;
                            assert forall|k: int|
                                0 <= k <= i && (#[trigger] self.entries@[k]).1@ != state_of(
                                    now@[k],
                                ) implies !path_before(self.entries@[k].0@, least) by {
                                if k == i {
                                    lemma_path_before_irreflexive(least);
                                } else if path_before(self.entries@[k].0@, least) {
                                    lemma_path_before_transitive(
                                        self.entries@[k].0@,
                                        least,
                                        other,
                                    );
                                }
                            }
                        }
                        changed = Some(i);
                    }
                },
                None => {
                    if !same {
                        proof {
                            lemma_path_before_irreflexive(self.entries@[i as int].0@);
                        }
                        changed = Some(i);
                    }
                },
            }
            i = i + 1;
        }
        match changed {
            Some(at) => {
                assert(first_changed(self.entries_view(), now@, now@.len() as int, at as int));
                Err(about("source policy changed during sync: ", &self.entries[at].0))
            },
            None => Ok(()),
        }
    }
}

/// Whether the path at `at` is, of the first `n`, the first that changed.
pub open spec fn first_changed(
    entries: Seq<(PathName, SourceState)>,
    now: Seq<Found>,
    n: int,
    at: int,
) -> bool {
    &&& 0 <= at < n
    &&& entries[at].1@ != state_of(now[at])
    &&& forall|k: int|
        0 <= k < n && (#[trigger] entries[k]).1@ != state_of(now[k]) ==> !path_before(
            entries[k].0@,
            entries[at].0@,
        )
}

/// Why a rule file cannot be read, where it cannot.
pub open spec fn read_fault(
    sources: Map<Seq<Seq<u8>>, StateView>,
    path: Seq<Seq<u8>>,
    found: Found,
) -> Option<Seq<char>> {
    if has_changed(sources, path, state_of(found)) {
        Some(changed_message(path))
    } else if found is Directory {
        Some("policy path is a directory: "@ + shown(path))
    } else {
        None
    }
}

/// A snapshot once the first `n` files were read, and whether one of them
/// exists; reading ends with the first fault.
pub open spec fn after_reads(
    sources: Map<Seq<Seq<u8>>, StateView>,
    files: Seq<(PathName, Found)>,
    n: nat,
) -> (Map<Seq<Seq<u8>>, StateView>, Result<bool, Seq<char>>)
    decreases n,
{
    if n == 0 {
        (sources, Ok(false))
    } else {
        let (before, outcome) = after_reads(sources, files, (n - 1) as nat);
        let (path, found) = files[n - 1];
        match outcome {
            Err(fault) => (before, Err(fault)),
            Ok(exists_one) => (
                if has_changed(before, path@, state_of(found)) {
                    before
                } else {
                    observed(before, path@, state_of(found))
                },
                match read_fault(before, path@, found) {
                    Some(fault) => Err(fault),
                    None => Ok(exists_one || found is File),
                },
            ),
        }
    }
}

proof fn lemma_read_fault_stays(
    sources: Map<Seq<Seq<u8>>, StateView>,
    files: Seq<(PathName, Found)>,
    n: nat,
    m: nat,
)
    requires
        n <= m,
        after_reads(sources, files, n).1 is Err,
    ensures
        after_reads(sources, files, m) == after_reads(sources, files, n),
    decreases m - n,
{
    if n < m {
        lemma_read_fault_stays(sources, files, n, (m - 1) as nat);
    }
}

impl Sources {
    /// Records what some configuration files are found to be, and says whether
    /// one of them exists.
    pub fn read_all(&mut self, files: &Vec<(PathName, Found)>) -> (configured: Result<bool, String>)
        ensures
            final(self)@ == after_reads(old(self)@, files@, files@.len()).0,
            after_reads(old(self)@, files@, files@.len()).1 == match configured {
                Ok(b) => Ok::<bool, Seq<char>>(b),
                Err(message) => Err(message@),
            },
    {
        let ghost start = self@;
        let mut configured = false;
        let mut i: usize = 0;
        while i < files.len()
            invariant
                i <= files@.len(),
                start == old(self)@,
                after_reads(start, files@, i as nat) == (self@, Ok::<bool, Seq<char>>(configured)),
            decreases files@.len() - i,
        {
            match self.read(&files[i].0, &files[i].1) {
                Ok(()) => {},
                Err(message) => {
                    proof {
                        lemma_read_fault_stays(start, files@, (i + 1) as nat, files@.len());
                    }
                    return Err(message);
                },
            }
            match &files[i].1 {
                Found::File(_) => configured = true,
                _ => {},
            }
            i = i + 1;
        }
        Ok(configured)
    }
}

/// A line without the byte order marks that it begins with.
pub open spec fn without_marks(line: Seq<char>) -> Seq<char>
    decreases line.len(),
{
    if line.len() > 0 && line[0] == '\u{feff}' {
        without_marks(line.drop_first())
    } else {
        line
    }
}

/// The line at an index as a rule line: byte order marks are dropped from the
/// first one.
pub open spec fn rule_line(lines: Seq<Seq<char>>, index: int) -> Seq<char> {
    if index == 0 {
        without_marks(lines[0])
    } else {
        lines[index]
    }
}

/// Some rules and those of the first `n` lines of a file, or the first line
/// that is not a rule, counted from one, and why.
pub open spec fn file_rules(start: Seq<Seq<char>>, lines: Seq<Seq<char>>, n: nat) -> Result<
    Seq<Seq<char>>,
    (nat, Seq<char>),
>
    decreases n,
{
    if n == 0 {
        Ok(start)
    } else {
        match file_rules(start, lines, (n - 1) as nat) {
            Err(fault) => Err(fault),
            Ok(rules) => match line_fault(rule_line(lines, n - 1)) {
                Some(error) => Err((n, error)),
                None => Ok(rules_with(rules, rule_line(lines, n - 1))),
            },
        }
    }
}

proof fn lemma_file_fault_stays(start: Seq<Seq<char>>, lines: Seq<Seq<char>>, n: nat, m: nat)
    requires
        n <= m,
        file_rules(start, lines, n) is Err,
    ensures
        file_rules(start, lines, m) == file_rules(start, lines, n),
    decreases m - n,
{
    if n < m {
        lemma_file_fault_stays(start, lines, n, (m - 1) as nat);
    }
}

/// Adds the rules of one file's text to a builder.
fn add_text(builder: &mut GitignoreBuilder, text: &str) -> (added: Result<(), (usize, String)>)
    ensures
        builder_root(*final(builder)) == builder_root(*old(builder)),
        ({
            let all = lines(text@);
            match file_rules(builder_rules(*old(builder)), all, all.len()) {
                Ok(rules) => added is Ok && builder_rules(*final(builder)) == rules,
                Err((line, error)) => added matches Err((at, reason)) && at == line && reason@
                    == error,
            }
        }),
{
    let ghost all = lines(text@);
    let ghost start = builder_rules(*builder);
    let chars = chars_of(text);
    let ranges = line_ranges(&chars);
    let mut i: usize = 0;
    while i < ranges.len()
        invariant
            i <= ranges@.len(),
            chars@ == text@,
            all == lines(text@),
            start == builder_rules(*old(builder)),
            ranges@.len() == all.len(),
            builder_root(*builder) == builder_root(*old(builder)),
            file_rules(start, all, i as nat) == Ok::<Seq<Seq<char>>, (nat, Seq<char>)>(
                builder_rules(*builder),
            ),
            forall|k: int|
                0 <= k < ranges@.len() ==> {
                    let (from, to) = #[trigger] ranges@[k];
                    &&& from <= to <= chars@.len()
                    &&& chars@.subrange(from as int, to as int) == lines(chars@)[k]
                },
        decreases ranges@.len() - i,
    {
        let (range_from, to) = ranges[i];
        let mut from: usize = range_from;
        if i == 0 {
            assert(chars@.subrange(from as int, to as int) == all[0]);
            while from < to && chars[from] == '\u{feff}'
                invariant
                    from <= to <= chars@.len(),
                    without_marks(chars@.subrange(from as int, to as int)) == without_marks(all[0]),
                decreases to - from,
            {
                assert(chars@.subrange(from as int, to as int).drop_first() =~= chars@.subrange(
                    from + 1,
                    to as int,
                ));
                from = from + 1;
            }
        }
        let line = text_of(&chars, from, to);
        assert(line@ == rule_line(all, i as int));
        match add_line(builder, line.as_str()) {
            Ok(()) => {},
            Err(error) => {
                proof {
                    lemma_file_fault_stays(start, all, (i + 1) as nat, all.len());
                }
                return Err((i + 1, error));
            },
        }
        i = i + 1;
    }
    Ok(())
}

/// The views of rule files with what each is found to be.
pub struct Gathered {
    pub sources: Map<Seq<Seq<u8>>, StateView>,
    pub rules: Result<Seq<Seq<char>>, Seq<char>>,
}

/// What one more rule file adds to rules and to a snapshot: nothing where it is
/// missing, and a fault where it changed, is a directory, is not a text, or
/// holds a line that is not a rule.
pub open spec fn with_file(before: Gathered, path: Seq<Seq<u8>>, found: Found) -> Gathered {
    if before.rules is Err {
        before
    } else {
        let start = before.rules->Ok_0;
        let sources = if has_changed(before.sources, path, state_of(found)) {
            before.sources
        } else {
            observed(before.sources, path, state_of(found))
        };
        let rules = match read_fault(before.sources, path, found) {
            Some(message) => Err(message),
            None => match found {
                Found::File(bytes) => match decoded(bytes@) {
                    None => Err("policy file is not UTF-8: "@ + shown(path)),
                    Some(text) => match file_rules(start, lines(text), lines(text).len()) {
                        Err((line, error)) => Err(
                            "parse ignore rule "@ + shown(path) + ":"@ + decimal(line) + ": "@
                                + error,
                        ),
                        Ok(rules) => Ok(rules),
                    },
                },
                _ => Ok(start),
            },
        };
        Gathered { sources, rules }
    }
}

/// What the first `n` rule files give.
pub open spec fn gathered(
    sources: Map<Seq<Seq<u8>>, StateView>,
    files: Seq<(PathName, Found)>,
    n: nat,
) -> Gathered
    decreases n,
{
    if n == 0 {
        Gathered { sources, rules: Ok(seq![]) }
    } else {
        with_file(gathered(sources, files, (n - 1) as nat), files[n - 1].0@, files[n - 1].1)
    }
}

proof fn lemma_gathered_fault_stays(
    sources: Map<Seq<Seq<u8>>, StateView>,
    files: Seq<(PathName, Found)>,
    n: nat,
    m: nat,
)
    requires
        n <= m,
        gathered(sources, files, n).rules is Err,
    ensures
        gathered(sources, files, m) == gathered(sources, files, n),
    decreases m - n,
{
    if n < m {
        lemma_gathered_fault_stays(sources, files, n, (m - 1) as nat);
    }
}

impl Sources {
    /// Compiles the rules of some files, in order, for paths below `root`. No
    /// fault is turned into an empty set of rules.
    pub fn rules(&mut self, root: &str, files: &Vec<(PathName, Found)>) -> (compiled: Result<
        Gitignore,
        String,
    >)
        requires
            root@.len() > 0,
            root@[0] == '/',
        ensures
            final(self)@ == gathered(old(self)@, files@, files@.len()).sources,
            match gathered(old(self)@, files@, files@.len()).rules {
                Err(error) => compiled matches Err(message) && message@ == error,
                Ok(rules) => match rules_error(rules) {
                    Some(error) => compiled matches Err(message) && message@
                        == "compile source policy: "@ + error,
                    None => compiled matches Ok(done) && rules_of(done) == rules && (rules.len() > 0
                        ==> rules_root(done) == root@),
                },
            },
    {
        let ghost start = self@;
        let mut builder = new_builder(root);
        let mut i: usize = 0;
        while i < files.len()
            invariant
                i <= files@.len(),
                start == old(self)@,
                builder_root(builder) == root@,
                gathered(start, files@, i as nat) == (Gathered {
                    sources: self@,
                    rules: Ok(builder_rules(builder)),
                }),
            decreases files@.len() - i,
        {
            let path = &files[i].0;
            let found = &files[i].1;
            match self.read(path, found) {
                Ok(()) => {},
                Err(message) => {
                    proof {
                        lemma_gathered_fault_stays(start, files@, (i + 1) as nat, files@.len());
                    }
                    return Err(message);
                },
            }
            match found {
                Found::File(bytes) => match text_of_bytes(bytes.as_slice()) {
                    None => {
                        proof {
                            lemma_gathered_fault_stays(
                                start,
                                files@,
                                (i + 1) as nat,
                                files@.len(),
                            );
                        }
                        return Err(about("policy file is not UTF-8: ", path));
                    },
                    Some(text) => match add_text(&mut builder, text.as_str()) {
                        Ok(()) => {},
                        Err((line, error)) => {
                            let mut message = about("parse ignore rule ", path);
                            message.push_str(":");
                            message.push_str(decimal_text(line as u64).as_str());
                            message.push_str(": ");
                            message.push_str(error.as_str());
                            proof {
                                lemma_gathered_fault_stays(
                                    start,
                                    files@,
                                    (i + 1) as nat,
                                    files@.len(),
                                );
                            }
                            return Err(message);
                        },
                    },
                },
                _ => {},
            }
            i = i + 1;
        }
        match compile(&builder) {
            Ok(compiled) => Ok(compiled),
            Err(error) => {
                let mut message = copy_text("compile source policy: ");
                message.push_str(error.as_str());
                Err(message)
            },
        }
    }
}

/// A source is kept as it was first seen. Seen again as it was, it changes nothing;
/// seen otherwise, it has changed. Other sources are as before.
pub proof fn law_a_source_is_kept_as_first_seen(
    sources: Map<Seq<Seq<u8>>, StateView>,
    path: Seq<Seq<u8>>,
    first: StateView,
    again: StateView,
    other: Seq<Seq<u8>>,
)
    requires
        !sources.dom().contains(path),
        other != path,
    ensures
        !has_changed(sources, path, first),
        ({
            let seen = observed(sources, path, first);
            &&& seen.dom().contains(path) && seen[path] == first
            &&& has_changed(seen, path, again) <==> again != first
            &&& observed(seen, path, first) == seen
            &&& seen.dom().contains(other) == sources.dom().contains(other)
            &&& sources.dom().contains(other) ==> seen[other] == sources[other]
        }),
{
}

/// A source is told by whether it is there, by where a directory leads to, and by
/// the digest of a file's content.
pub proof fn law_how_a_source_is_told(target: PathName, bytes: Vec<u8>)
    ensures
        state_of(Found::Missing) == StateView::Missing,
        state_of(Found::Directory(target)) == StateView::Directory(target@),
        state_of(Found::File(bytes)) == StateView::File(blake3_digest(bytes@)),
{
}

/// Files that are read one after another: where all are read, none is a directory,
/// each is recorded as it was found, and the answer is whether one of them exists.
pub proof fn law_every_read_source_is_recorded(
    sources: Map<Seq<Seq<u8>>, StateView>,
    files: Seq<(PathName, Found)>,
    n: nat,
    i: int,
)
    requires
        n <= files.len(),
        after_reads(sources, files, n).1 is Ok,
    ensures
        ({
            let (after, answer) = after_reads(sources, files, n);
            &&& answer->Ok_0 <==> exists|k: int| 0 <= k < n && (#[trigger] files[k]).1 is File
            &&& 0 <= i < n ==> {
                &&& !(files[i].1 is Directory)
                &&& after.dom().contains(files[i].0@)
                &&& after[files[i].0@] == state_of(files[i].1)
            }
            &&& forall|path: Seq<Seq<u8>>| #[trigger]
                sources.dom().contains(path) ==> after.dom().contains(path) && after[path]
                    == sources[path]
        }),
    decreases n,
{
    if n > 0 {
        law_every_read_source_is_recorded(sources, files, (n - 1) as nat, i);
        let before = after_reads(sources, files, (n - 1) as nat);
        let after = after_reads(sources, files, n);
        assert(before.1 is Ok);
        assert(read_fault(before.0, files[n - 1].0@, files[n - 1].1) is None);
        if before.1->Ok_0 {
            let k = choose|k: int| 0 <= k < n - 1 && (#[trigger] files[k]).1 is File;
            assert(files[k].1 is File);
        }
        assert forall|path: Seq<Seq<u8>>| #[trigger]
            sources.dom().contains(path) implies after.0.dom().contains(path) && after.0[path]
            == sources[path] by {
            assert(before.0.dom().contains(path));
        }
    }
}

/// A source that cannot be read ends the reading: one that changed, and one that is
/// a directory.
pub proof fn law_why_a_source_cannot_be_read(
    sources: Map<Seq<Seq<u8>>, StateView>,
    path: Seq<Seq<u8>>,
    found: Found,
)
    ensures
        sources.dom().contains(path) && sources[path] != state_of(found) ==> read_fault(
            sources,
            path,
            found,
        ) == Some("source policy changed during sync: "@ + shown(path)),
        !(sources.dom().contains(path) && sources[path] != state_of(found)) ==> read_fault(
            sources,
            path,
            found,
        ) == (if found is Directory {
            Some("policy path is a directory: "@ + shown(path))
        } else {
            None
        }),
{
}

/// A line of a rule file is a rule of its own: one without a fault adds its rule
/// behind those before it, and the first fault is reported with the number of its
/// line. Marks of the byte order are dropped from the first line only.
pub proof fn law_rules_are_read_line_by_line(
    start: Seq<Seq<char>>,
    before: Seq<Seq<char>>,
    line: Seq<char>,
)
    ensures
        file_rules(start, before, 0) == Ok::<Seq<Seq<char>>, (nat, Seq<char>)>(start),
        ({
            let n = before.len();
            let all = before.push(line);
            let text = if n == 0 { without_marks(line) } else { line };
            match file_rules(start, before, n) {
                Err(fault) => file_rules(start, all, n + 1) == Err::<
                    Seq<Seq<char>>,
                    (nat, Seq<char>),
                >(fault),
                Ok(rules) => match line_fault(text) {
                    Some(error) => file_rules(start, all, n + 1) == Err::<
                        Seq<Seq<char>>,
                        (nat, Seq<char>),
                    >(((n + 1) as nat, error)),
                    None => file_rules(start, all, n + 1) == Ok::<
                        Seq<Seq<char>>,
                        (nat, Seq<char>),
                    >(rules_with(rules, text)),
                },
            }
        }),
{
    let n = before.len();
    lemma_same_lines_same_rules(start, before, before.push(line), n);
}

proof fn lemma_same_lines_same_rules(
    start: Seq<Seq<char>>,
    before: Seq<Seq<char>>,
    all: Seq<Seq<char>>,
    n: nat,
)
    requires
        n <= before.len() <= all.len(),
        forall|i: int| 0 <= i < before.len() ==> #[trigger] all[i] == before[i],
    ensures
        file_rules(start, all, n) == file_rules(start, before, n),
    decreases n,
{
    if n > 0 {
        lemma_same_lines_same_rules(start, before, all, (n - 1) as nat);
        assert(all[n - 1] == before[n - 1]);
        assert(all[0] == before[0]);
    }
}

/// Marks of the byte order are dropped from the beginning of a line, all of them and
/// nothing else.
pub proof fn law_marks_are_dropped(line: Seq<char>)
    ensures
        line.len() == 0 || line[0] != '\u{feff}' ==> without_marks(line) == line,
        without_marks(seq!['\u{feff}'] + line) == without_marks(line),
{
    assert((seq!['\u{feff}'] + line).drop_first() =~= line);
}

/// What a file of rules adds to what was gathered. A missing file adds nothing; the
/// text of a file adds the rules of its lines; a file that has changed, is a
/// directory, is not text or holds a faulty rule is refused by name. After the first
/// fault nothing is added.
pub proof fn law_a_rule_file_adds_its_rules(
    before: Gathered,
    path: Seq<Seq<u8>>,
    found: Found,
    bytes: Vec<u8>,
)
    requires
        before.rules is Ok,
    ensures
        ({
            let start = before.rules->Ok_0;
            let file = Found::File(bytes);
            let is_text = vstd::utf8::valid_utf8(bytes@);
            let all = lines(vstd::utf8::decode_utf8(bytes@));
            let changed = |now: StateView|
                before.sources.dom().contains(path) && before.sources[path] != now;
            &&& changed(state_of(found)) ==> with_file(before, path, found).rules == Err::<
                Seq<Seq<char>>,
                Seq<char>,
            >("source policy changed during sync: "@ + shown(path))
            &&& !changed(StateView::Missing) ==> with_file(before, path, Found::Missing).rules
                == before.rules
            &&& !changed(state_of(file)) && !is_text ==> with_file(before, path, file).rules
                == Err::<Seq<Seq<char>>, Seq<char>>("policy file is not UTF-8: "@ + shown(path))
            &&& !changed(state_of(file)) && is_text ==> match file_rules(start, all, all.len()) {
                Ok(rules) => with_file(before, path, file).rules == Ok::<
                    Seq<Seq<char>>,
                    Seq<char>,
                >(rules),
                Err((line, error)) => with_file(before, path, file).rules == Err::<
                    Seq<Seq<char>>,
                    Seq<char>,
                >(
                    "parse ignore rule "@ + shown(path) + ":"@ + decimal(line) + ": "@ + error,
                ),
            }
            &&& !changed(state_of(found)) ==> with_file(before, path, found).sources.dom().contains(
                path,
            ) && with_file(before, path, found).sources[path] == state_of(found)
        }),
{
}

/// Files of rules are gathered in their order, each behind the ones before it, and
/// nothing follows a fault.
pub proof fn law_rule_files_are_gathered_in_order(
    sources: Map<Seq<Seq<u8>>, StateView>,
    files: Seq<(PathName, Found)>,
    n: nat,
)
    requires
        n < files.len(),
    ensures
        gathered(sources, files, 0) == (Gathered { sources, rules: Ok(seq![]) }),
        gathered(sources, files, n).rules is Ok ==> gathered(sources, files, n + 1) == with_file(
            gathered(sources, files, n),
            files[n as int].0@,
            files[n as int].1,
        ),
        gathered(sources, files, n).rules is Err ==> gathered(sources, files, n + 1) == gathered(
            sources,
            files,
            n,
        ),
{
}

/// The change that is reported is one that there is, and none of a path before it.
pub proof fn law_the_first_changed_path_is_reported(
    entries: Seq<(PathName, SourceState)>,
    now: Seq<Found>,
    at: int,
    k: int,
)
    requires
        entries.len() == now.len(),
        first_changed(entries, now, now.len() as int, at),
        0 <= k < now.len(),
    ensures
        0 <= at < now.len() && entries[at].1@ != state_of(now[at]),
        path_before(entries[k].0@, entries[at].0@) ==> entries[k].1@ == state_of(now[k]),
{
}

/// A source is observed by a call: it is recorded as it was found, or refused where it
/// is another one than before. Reading refuses a directory too.
pub proof fn law_observing_records_a_source(
    sources: &mut Sources,
    path: &PathName,
    found: &Found,
    seen: Result<(), String>,
    reading: &mut Sources,
    read: Result<(), String>,
)
    requires
        call_ensures(Sources::observe, (sources, path, found), seen),
        call_ensures(Sources::read, (reading, path, found), read),
    ensures
        ({
            let known = old(sources)@.dom().contains(path@);
            let changed = known && old(sources)@[path@] != state_of(*found);
            &&& changed ==> (seen matches Err(message) && message@
                == "source policy changed during sync: "@ + shown(path@)) && final(sources)@
                == old(sources)@
            &&& !changed ==> seen is Ok && final(sources)@ == old(sources)@.insert(
                path@,
                state_of(*found),
            )
        }),
        ({
            let known = old(reading)@.dom().contains(path@);
            let changed = known && old(reading)@[path@] != state_of(*found);
            &&& read is Ok <==> !changed && !(found is Directory)
            &&& changed ==> final(reading)@ == old(reading)@
            &&& !changed ==> final(reading)@ == old(reading)@.insert(path@, state_of(*found))
        }),
{
    let (one, two) = (old(sources)@, old(reading)@);
    if one.dom().contains(path@) && one[path@] == state_of(*found) {
        assert(one.insert(path@, state_of(*found)) =~= one);
    }
    if two.dom().contains(path@) && two[path@] == state_of(*found) {
        assert(two.insert(path@, state_of(*found)) =~= two);
    }
}

/// Sources are refused only where one of them is not as it was, and the message names
/// it.
pub proof fn law_a_refused_source_has_changed(
    sources: &Sources,
    now: &Vec<Found>,
    verified: Result<(), String>,
)
    requires
        call_ensures(Sources::verify, (sources, now), verified),
        now@.len() == sources.entries_view().len(),
    ensures
        verified matches Err(message) ==> exists|i: int|
            0 <= i < now@.len() && (#[trigger] sources.entries_view()[i]).1@ != state_of(now@[i])
                && message@ == "source policy changed during sync: "@ + shown(
                sources.entries_view()[i].0@,
            ),
{
    if verified is Err {
        let message = verified->Err_0;
        let i = choose|i: int|
            #![trigger sources.entries_view()[i]]
            first_changed(sources.entries_view(), now@, now@.len() as int, i) && message@
                == changed_message(sources.entries_view()[i].0@);
        assert(sources.entries_view()[i].1@ != state_of(now@[i]));
    }
}

/// Rules are compiled from the files that were found, in their order, for the root that
/// is given; what is wrong with a file or with the rules together is told.
pub proof fn law_rules_are_compiled_from_their_files(
    sources: &mut Sources,
    root: &str,
    files: &Vec<(PathName, Found)>,
    compiled: Result<Gitignore, String>,
)
    requires
        call_ensures(Sources::rules, (sources, root, files), compiled),
    ensures
        match gathered(old(sources)@, files@, files@.len()).rules {
            Err(error) => compiled matches Err(message) && message@ == error,
            Ok(rules) => {
                &&& rules_error(rules) is None ==> (compiled matches Ok(done) && rules_of(done)
                    == rules && (rules.len() > 0 ==> rules_root(done) == root@))
                &&& rules_error(rules) matches Some(error) ==> (compiled matches Err(message)
                    && message@ == "compile source policy: "@ + error)
            },
        },
        final(sources)@ == gathered(old(sources)@, files@, files@.len()).sources,
{
}

} // verus!
