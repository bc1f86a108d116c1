//! Which files of a checkout are candidates for the manifest.
//!
//! Ignore files and a built-in list of file globs decide by name, a byte-size
//! cap decides by size, and [`is_indexable`] decides by content.

use vstd::prelude::*;
use vstd::string::*;

use ignore::overrides::Override;

use crate::paths::{is_under, shown, PathName};
use crate::sorting::{byte_keys, is_sorted_order, sorted_order};
use crate::sync::policy::checked::{PolicyView, SourcePolicy};
use crate::sync::policy::rules::{excludes, ignored_by};
use crate::text::{
    blank, chars_of, contains_text, copy_text, decoded, is_blank, lemma_blank_trims_to_nothing,
    line_ranges, lines, range_contains, text_of_bytes, texts, utf8_width,
};

verus! {

/// The largest file that is read, in bytes.
pub const MAX_FILE_BYTES: u64 = 16777216;

/// Names of project-local ignore files.
pub const IGNORE_FILES: [&'static str; 2] = [".semctxignore", ".semctlignore"];

/// File globs excluded on top of project ignore files. Directories are never
/// excluded by default.
pub const DEFAULT_EXCLUDE_FILE_GLOBS: [&'static str; 13] = [
    "*.lock",
    "package-lock.json",
    "pnpm-lock.yaml",
    "*.svg",
    "*.min.js",
    "*.min.css",
    "*.map",
    "*.pb.go",
    "*.pb.py",
    "*_pb2.py",
    "*.pb.cc",
    "*_generated.go",
    "*.gen.go",
];

/// A file accepted by the source policy. The scanner verifies its content.
pub struct Candidate {
    /// Forward-slashed path relative to the walk root.
    pub rel: String,
}

/// Tunables of a walk.
#[derive(Clone, Copy)]
pub struct WalkOptions {
    /// Skip files larger than this.
    pub max_file_bytes: u64,
    /// File globs to exclude on top of project ignore files.
    pub excludes: &'static [&'static str],
}

impl Default for WalkOptions {
    fn default() -> (options: WalkOptions)
        ensures
            options.max_file_bytes == MAX_FILE_BYTES,
            options.excludes@ == DEFAULT_EXCLUDE_FILE_GLOBS@,
    {
        WalkOptions { max_file_bytes: MAX_FILE_BYTES, excludes: &DEFAULT_EXCLUDE_FILE_GLOBS }
    }
}

/// How many lines of a file are searched for a banner.
pub const BANNER_LINES: usize = 8;

/// The longest line of a file that is not minified, in bytes.
pub const MAX_LINE_BYTES: usize = 2000;

/// The banners that tools write into generated files.
pub open spec fn is_banner(text: Seq<char>) -> bool {
    ||| text == "@generated"@
    ||| text == "DO NOT EDIT"@
    ||| text == "Code generated by"@
    ||| text == "autogenerated"@
    ||| text == "auto-generated"@
}

/// Whether a line holds a banner.
pub open spec fn has_banner(line: Seq<char>) -> bool {
    exists|banner: Seq<char>| is_banner(banner) && #[trigger] contains_text(line, banner)
}

/// Whether one of the first lines of a file holds a banner.
pub open spec fn is_generated(content: Seq<char>) -> bool {
    exists|i: int|
        0 <= i < lines(content).len() && i < BANNER_LINES && has_banner(#[trigger] lines(content)[i])
}

/// Whether a file has a line that is longer than hand-written lines are.
pub open spec fn is_minified(content: Seq<char>) -> bool {
    exists|i: int|
        0 <= i < lines(content).len() && vstd::utf8::encode_utf8(
            #[trigger] lines(content)[i],
        ).len() > MAX_LINE_BYTES
}

/// Whether a file's content is worth indexing: not blank, not generated, and
/// not minified.
pub open spec fn indexable(content: Seq<char>) -> bool {
    !is_blank(content) && !is_generated(content) && !is_minified(content)
}

/// Whether the server accepts a file's content: it rejects a blank one.
pub fn has_uploadable_content(content: &str) -> (accepted: bool)
    ensures
        accepted == !is_blank(content@),
{
    !blank(content)
}

/// Whether the characters `from..to` hold a banner.
fn range_has_banner(chars: &Vec<char>, from: usize, to: usize) -> (found: bool)
    requires
        from <= to <= chars@.len(),
    ensures
        found == has_banner(chars@.subrange(from as int, to as int)),
{
    let ghost line = chars@.subrange(from as int, to as int);
    let found = range_contains(chars, from, to, &chars_of("@generated")) || range_contains(
        chars,
        from,
        to,
        &chars_of("DO NOT EDIT"),
    ) || range_contains(chars, from, to, &chars_of("Code generated by")) || range_contains(
        chars,
        from,
        to,
        &chars_of("autogenerated"),
    ) || range_contains(chars, from, to, &chars_of("auto-generated"));
    assert(found ==> has_banner(line)) by {
        if contains_text(line, "@generated"@) {
            assert(is_banner("@generated"@));
        } else if contains_text(line, "DO NOT EDIT"@) {
            assert(is_banner("DO NOT EDIT"@));
        } else if contains_text(line, "Code generated by"@) {
            assert(is_banner("Code generated by"@));
        } else if contains_text(line, "autogenerated"@) {
            assert(is_banner("autogenerated"@));
        } else if contains_text(line, "auto-generated"@) {
            assert(is_banner("auto-generated"@));
        }
    }
    found
}

/// Whether one of the first lines holds a banner that tools write. Only the
/// head is searched, so a stray match deep in a hand-written file does not
/// disqualify it.
pub fn looks_generated(content: &str) -> (generated: bool)
    ensures
        generated == is_generated(content@),
{
    let chars = chars_of(content);
    let ranges = line_ranges(&chars);
    let mut i: usize = 0;
    while i < ranges.len() && i < BANNER_LINES
        invariant
            i <= ranges@.len(),
            i <= BANNER_LINES,
            chars@ == content@,
            ranges@.len() == lines(content@).len(),
            forall|k: int|
                0 <= k < ranges@.len() ==> {
                    let (from, to) = #[trigger] ranges@[k];
                    &&& from <= to <= chars@.len()
                    &&& chars@.subrange(from as int, to as int) == lines(chars@)[k]
                },
            forall|k: int| 0 <= k < i ==> !has_banner(#[trigger] lines(content@)[k]),
        decreases ranges@.len() - i,
    {
        let (from, to) = ranges[i];
        if range_has_banner(&chars, from, to) {
            assert(has_banner(lines(content@)[i as int]));
            return true;
        }
        i = i + 1;
    }
    false
}

/// Whether the characters `from..to` take more bytes than a line may.
fn range_is_long(chars: &Vec<char>, from: usize, to: usize) -> (long: bool)
    requires
        from <= to <= chars@.len(),
    ensures
        long == (vstd::utf8::encode_utf8(chars@.subrange(from as int, to as int)).len()
            > MAX_LINE_BYTES),
{
    let mut bytes: usize = 0;
    let mut i: usize = from;
    assert(chars@.subrange(from as int, from as int) =~= Seq::<char>::empty());
    while i < to
        invariant
            from <= i <= to <= chars@.len(),
            bytes <= MAX_LINE_BYTES,
            bytes == vstd::utf8::encode_utf8(chars@.subrange(from as int, i as int)).len(),
        decreases to - i,
    {
        let ghost before = chars@.subrange(from as int, i as int);
        proof {
            crate::text::lemma_encode_push(before, chars@[i as int]);
            assert(chars@.subrange(from as int, i + 1) =~= before.push(chars@[i as int]));
        }
        bytes = bytes + utf8_width(chars[i]);
        i = i + 1;
        if bytes > MAX_LINE_BYTES {
            proof {
                let head = chars@.subrange(from as int, i as int);
                let tail = chars@.subrange(i as int, to as int);
                crate::text::lemma_encode_concat(head, tail);
                assert(head + tail =~= chars@.subrange(from as int, to as int));
            }
            return true;
        }
    }
    false
}

/// Whether a line is longer than hand-written lines are.
pub fn looks_minified(content: &str) -> (minified: bool)
    ensures
        minified == is_minified(content@),
{
    let chars = chars_of(content);
    let ranges = line_ranges(&chars);
    let mut i: usize = 0;
    while i < ranges.len()
        invariant
            i <= ranges@.len(),
            chars@ == content@,
            ranges@.len() == lines(content@).len(),
            forall|k: int|
                0 <= k < ranges@.len() ==> {
                    let (from, to) = #[trigger] ranges@[k];
                    &&& from <= to <= chars@.len()
                    &&& chars@.subrange(from as int, to as int) == lines(chars@)[k]
                },
            forall|k: int|
                0 <= k < i ==> vstd::utf8::encode_utf8(#[trigger] lines(content@)[k]).len()
                    <= MAX_LINE_BYTES,
        decreases ranges@.len() - i,
    {
        let (from, to) = ranges[i];
        if range_is_long(&chars, from, to) {
            assert(vstd::utf8::encode_utf8(lines(content@)[i as int]).len() > MAX_LINE_BYTES);
            return true;
        }
        i = i + 1;
    }
    false
}

/// Whether a file's content is worth indexing: not blank, not generated, and
/// not minified.
pub fn is_indexable(content: &str) -> (worth: bool)
    ensures
        worth == indexable(content@),
{
    has_uploadable_content(content) && !looks_generated(content) && !looks_minified(content)
}

/// A file that is worth indexing is one that the server accepts, and what is
/// left of it after trimming is not empty.
pub proof fn law_indexable_content_is_uploadable(content: Seq<char>)
    requires
        indexable(content),
    ensures
        !is_blank(content),
        crate::text::trimmed(content).len() > 0,
{
    lemma_blank_trims_to_nothing(content);
}

/// What keeps a text from being indexed: that it is blank, that one of its first
/// eight lines holds a banner, or that a line takes more than two thousand bytes.
/// Nothing else does.
pub proof fn law_what_is_worth_indexing(content: Seq<char>)
    ensures
        indexable(content) <==> {
            &&& exists|i: int|
                0 <= i < content.len() && !crate::text::is_white_space(#[trigger] content[i])
            &&& forall|i: int|
                #![trigger lines(content)[i]]
                0 <= i < lines(content).len() && i < 8 ==> {
                    let line = lines(content)[i];
                    &&& !contains_text(line, "@generated"@)
                    &&& !contains_text(line, "DO NOT EDIT"@)
                    &&& !contains_text(line, "Code generated by"@)
                    &&& !contains_text(line, "autogenerated"@)
                    &&& !contains_text(line, "auto-generated"@)
                }
            &&& forall|i: int|
                0 <= i < lines(content).len() ==> vstd::utf8::encode_utf8(
                    #[trigger] lines(content)[i],
                ).len() <= 2000
        },
{
    assert(is_banner("@generated"@) && is_banner("DO NOT EDIT"@) && is_banner(
        "Code generated by"@,
    ) && is_banner("autogenerated"@) && is_banner("auto-generated"@));
    assert forall|line: Seq<char>| #[trigger] has_banner(line) <==> {
        ||| contains_text(line, "@generated"@)
        ||| contains_text(line, "DO NOT EDIT"@)
        ||| contains_text(line, "Code generated by"@)
        ||| contains_text(line, "autogenerated"@)
        ||| contains_text(line, "auto-generated"@)
    } by {}
}

/// The components from index `from` on, each a text, with slashes between them,
/// or nothing where one is not a text.
pub open spec fn slashed(path: Seq<Seq<u8>>, from: int) -> Option<Seq<char>>
    decreases path.len(),
{
    if from < 0 || path.len() <= from {
        Some(seq![])
    } else {
        match (slashed(path.drop_last(), from), decoded(path.last())) {
            (Some(before), Some(name)) => if before.len() == 0 {
                Some(name)
            } else {
                Some(before + "/"@ + name)
            },
            _ => None,
        }
    }
}

/// The manifest's key of a file: its path below the root, with slashes.
pub open spec fn manifest_key(root: Seq<Seq<u8>>, file: Seq<Seq<u8>>) -> Result<
    Seq<char>,
    Seq<char>,
> {
    if !is_under(file, root) {
        Err("file is outside the checkout root"@)
    } else {
        match slashed(file, root.len() as int) {
            Some(key) => Ok(key),
            None => Err("file path is not UTF-8"@),
        }
    }
}

proof fn lemma_slashed_fault_stays(path: Seq<Seq<u8>>, from: int, n: int)
    requires
        0 <= from <= n <= path.len(),
        slashed(path.take(n), from) is None,
    ensures
        slashed(path, from) is None,
    decreases path.len() - n,
{
    if n == path.len() {
        assert(path.take(n) =~= path);
    } else {
        assert(path.take(n + 1).drop_last() =~= path.take(n));
        lemma_slashed_fault_stays(path, from, n + 1);
    }
}

/// The path of `file` below `root`, with forward slashes.
pub fn rel_path(root: &PathName, file: &PathName) -> (key: Result<String, String>)
    ensures
        match key {
            Ok(text) => manifest_key(root@, file@) == Ok::<Seq<char>, Seq<char>>(text@),
            Err(reason) => manifest_key(root@, file@) == Err::<Seq<char>, Seq<char>>(reason@),
        },
{
    if !file.under(root) {
        return Err(copy_text("file is outside the checkout root"));
    }
    let from: usize = root.len();
    let mut key = String::new();
    let mut i: usize = from;
    assert(key@ =~= Seq::<char>::empty());
    while i < file.parts.len()
        invariant
            from <= i <= file.parts@.len(),
            from == root@.len(),
            is_under(file@, root@),
            slashed(file@.take(i as int), from as int) == Some(key@),
        decreases file.parts@.len() - i,
    {
        proof {
            assert(file@.take(i + 1).drop_last() =~= file@.take(i as int));
            assert(file@.take(i + 1).last() == file.parts@[i as int]@);
        }
        match text_of_bytes(file.parts[i].as_slice()) {
            Some(name) => {
                if !key.as_str().is_empty() {
                    key.push_str("/");
                    key.push_str(name.as_str());
                } else {
                    key = name;
                }
            },
            None => {
                proof {
                    lemma_slashed_fault_stays(file@, from as int, i + 1);
                }
                return Err(copy_text("file path is not UTF-8"));
            },
        }
        i = i + 1;
    }
    assert(file@.take(i as int) =~= file@);
    Ok(key)
}

/// What a directory entry is, without following a link.
#[derive(Clone, Copy, Debug, PartialEq, Eq, Structural)]
pub enum EntryKind {
    Directory,
    File,
    Other,
}

/// What a walk does with an entry.
#[derive(Clone, Copy, Debug, PartialEq, Eq, Structural)]
pub enum EntryStep {
    Skip,
    /// Walk this directory too.
    Descend,
    /// Look at the size of this file.
    Measure,
}

/// What a walk does with an entry: neither the built-in globs nor the policy may
/// exclude it.
pub open spec fn entry_step(
    policy: PolicyView,
    globs: Override,
    path: Seq<Seq<u8>>,
    kind: EntryKind,
) -> EntryStep {
    let is_dir = kind == EntryKind::Directory;
    if kind == EntryKind::Other || excludes(globs, shown(path), is_dir) || !policy.includes(
        path,
        is_dir,
    ) {
        EntryStep::Skip
    } else if is_dir {
        EntryStep::Descend
    } else {
        EntryStep::Measure
    }
}

/// What a walk does with an entry.
pub fn visit(policy: &SourcePolicy, globs: &Override, path: &PathName, kind: EntryKind) -> (step:
    EntryStep)
    ensures
        step == entry_step(policy@, *globs, path@, kind),
{
    let is_dir = match kind {
        EntryKind::Directory => true,
        EntryKind::File => false,
        EntryKind::Other => return EntryStep::Skip,
    };
    if ignored_by(globs, path.display().as_str(), is_dir) || !policy.includes(path, is_dir) {
        return EntryStep::Skip;
    }
    if is_dir {
        EntryStep::Descend
    } else {
        EntryStep::Measure
    }
}

/// A walk in progress: the directories that are still to be read, and the files
/// found so far.
pub struct Walk {
    root: PathName,
    pending: Vec<PathName>,
    found: Vec<String>,
}

pub struct WalkView {
    pub root: Seq<Seq<u8>>,
    pub pending: Seq<Seq<Seq<u8>>>,
    pub found: Seq<Seq<char>>,
}

impl View for Walk {
    type V = WalkView;

    closed spec fn view(&self) -> WalkView {
        WalkView {
            root: self.root@,
            pending: self.pending@.map_values(|p: PathName| p@),
            found: texts(self.found@),
        }
    }
}

/// The bytes of each text.
pub open spec fn text_keys(list: Seq<Seq<char>>) -> Seq<Seq<u8>> {
    list.map_values(|k: Seq<char>| vstd::utf8::encode_utf8(k))
}

/// Whether `candidates` are the files found, sorted by their paths.
pub open spec fn sorted_candidates(found: Seq<Seq<char>>, candidates: Seq<Candidate>) -> bool {
    exists|order: Seq<usize>|
        #[trigger] is_sorted_order(text_keys(found), order) && candidates.len() == order.len() && forall|i: int|
            0 <= i < order.len() ==> (#[trigger] candidates[i]).rel@ == found[order[i] as int]
}

impl Walk {
    /// A walk that starts at the checkout root.
    pub fn new(root: &PathName) -> (walk: Walk)
        ensures
            walk@ == (WalkView { root: root@, pending: seq![root@], found: seq![] }),
    {
        let mut pending: Vec<PathName> = Vec::new();
        pending.push(root.copy());
        let walk = Walk { root: root.copy(), pending, found: Vec::new() };
        assert(walk@.pending =~= seq![root@]);
        assert(walk@.found =~= seq![]);
        walk
    }

    /// The next directory to read.
    pub fn next_directory(&mut self) -> (directory: Option<PathName>)
        ensures
            match directory {
                Some(d) => old(self)@.pending.len() > 0 && d@ == old(self)@.pending.last()
                    && final(self)@ == (WalkView {
                    pending: old(self)@.pending.drop_last(),
                    ..old(self)@
                }),
                None => old(self)@.pending.len() == 0 && final(self)@ == old(self)@,
            },
    {
        let ghost before = self@;
        let directory = self.pending.pop();
        proof {
            if before.pending.len() > 0 {
                assert(self@.pending =~= before.pending.drop_last());
            } else {
                assert(self@.pending =~= before.pending);
            }
        }
        directory
    }

    /// Puts a directory on the list of those to be read.
    pub fn descend(&mut self, directory: PathName)
        ensures
            final(self)@ == (WalkView {
                pending: old(self)@.pending.push(directory@),
                ..old(self)@
            }),
    {
        let ghost before = self@;
        self.pending.push(directory);
        assert(self@.pending =~= before.pending.push(directory@));
    }

    /// Takes a file of `size` bytes, unless it is larger than `max`.
    pub fn take(&mut self, file: &PathName, size: u64, max: u64) -> (taken: Result<(), String>)
        ensures
            if size > max {
                taken is Ok && final(self)@ == old(self)@
            } else {
                match manifest_key(old(self)@.root, file@) {
                    Ok(key) => taken is Ok && final(self)@ == (WalkView {
                        found: old(self)@.found.push(key),
                        ..old(self)@
                    }),
                    Err(reason) => taken matches Err(message) && message@ == reason && final(self)@
                        == old(self)@,
                }
            },
    {
        if size > max {
            return Ok(());
        }
        match rel_path(&self.root, file) {
            Ok(key) => {
                let ghost before = self@;
                self.found.push(key);
                assert(self@.found =~= before.found.push(key@));
                Ok(())
            },
            Err(reason) => Err(reason),
        }
    }

    /// The files found, sorted by path for a stable manifest.
    pub fn finish(&self) -> (candidates: Vec<Candidate>)
        ensures
            sorted_candidates(self@.found, candidates@),
    {
        let order = sorted_order(&self.found);
        let ghost keys = text_keys(self@.found);
        assert(byte_keys(self.found@) =~= keys);
        let mut candidates: Vec<Candidate> = Vec::new();
        let mut i: usize = 0;
        while i < order.len()
            invariant
                i <= order@.len(),
                is_sorted_order(keys, order@),
                keys.len() == self.found@.len(),
                candidates@.len() == i,
                forall|k: int|
                    0 <= k < i ==> (#[trigger] candidates@[k]).rel@ == self@.found[order@[k] as int],
            decreases order@.len() - i,
        {
            assert(0 <= order@[i as int] < keys.len());
            let at: usize = order[i];
            assert(self@.found[at as int] == self.found@[at as int]@);
            candidates.push(Candidate { rel: copy_text(self.found[at].as_str()) });
            i = i + 1;
        }
        candidates
    }
}

/// The manifest holds every file that was found, and in one order only.
pub proof fn law_a_walk_keeps_every_file(
    found: Seq<Seq<char>>,
    candidates: Seq<Candidate>,
    i: int,
)
    requires
        sorted_candidates(found, candidates),
        0 <= i < found.len(),
    ensures
        candidates.len() == found.len(),
        exists|k: int| 0 <= k < candidates.len() && (#[trigger] candidates[k]).rel@ == found[i],
{
    let keys = text_keys(found);
    let names = candidates.map_values(|c: Candidate| c.rel@);
    let order = choose|order: Seq<usize>|
        #[trigger] is_sorted_order(keys, order) && candidates.len() == order.len() && forall|i: int|
            0 <= i < order.len() ==> (#[trigger] candidates[i]).rel@ == found[order[i] as int];
    crate::sorting::lemma_order_is_complete(keys, order, i);
    let k = choose|k: int| 0 <= k < order.len() && #[trigger] order[k] == i;
    assert(candidates[k].rel@ == found[i]);
}

/// A file is known by its names below the root, with a slash between each two. One
/// that does not lie below the root, or has a name that is not text, has no key.
pub proof fn law_a_key_joins_names_by_slashes(
    root: Seq<Seq<u8>>,
    path: Seq<Seq<u8>>,
    name: Seq<u8>,
)
    requires
        root.is_prefix_of(path),
    ensures
        ({
            let key = manifest_key(root, path);
            let longer = manifest_key(root, path.push(name));
            let is_text = vstd::utf8::valid_utf8(name);
            let text = vstd::utf8::decode_utf8(name);
            &&& path == root && is_text ==> longer == Ok::<Seq<char>, Seq<char>>(text)
            &&& key is Ok && key->Ok_0.len() > 0 && is_text ==> longer == Ok::<
                Seq<char>,
                Seq<char>,
            >(key->Ok_0 + "/"@ + text)
            &&& key is Err || !is_text ==> longer == Err::<Seq<char>, Seq<char>>(
                "file path is not UTF-8"@,
            )
        }),
        forall|file: Seq<Seq<u8>>|
            !root.is_prefix_of(file) ==> #[trigger] manifest_key(root, file) == Err::<
                Seq<char>,
                Seq<char>,
            >("file is outside the checkout root"@),
{
    let longer = path.push(name);
    let n = root.len() as int;
    assert(longer.drop_last() =~= path);
    assert(longer.take(n) =~= path.take(n));
    assert(root.is_prefix_of(longer));
    assert(slashed(root, n) == Some(Seq::<char>::empty()));
}

/// A walk goes into every directory and measures every file that is neither
/// excluded by a pattern nor by the rules, and skips everything else.
pub proof fn law_what_a_walk_looks_at(
    policy: PolicyView,
    globs: Override,
    path: Seq<Seq<u8>>,
    kind: EntryKind,
)
    ensures
        ({
            let is_dir = kind == EntryKind::Directory;
            let out = excludes(globs, shown(path), is_dir) || !policy.includes(path, is_dir);
            let step = entry_step(policy, globs, path, kind);
            &&& step == EntryStep::Descend <==> kind == EntryKind::Directory && !out
            &&& step == EntryStep::Measure <==> kind == EntryKind::File && !out
            &&& step == EntryStep::Skip <==> kind == EntryKind::Other || out
        }),
{
}

/// A walk ends with everything that it found, in the order of the bytes.
pub proof fn law_a_walk_lists_what_it_found_in_order(
    found: Seq<Seq<char>>,
    candidates: Seq<Candidate>,
)
    requires
        sorted_candidates(found, candidates),
    ensures
        candidates.len() == found.len(),
        forall|i: int|
            #![trigger found[i]]
            0 <= i < found.len() ==> candidates.map_values(|c: Candidate| c.rel@).contains(
                found[i],
            ),
        forall|a: int, b: int|
            #![trigger candidates[a], candidates[b]]
            0 <= a < b < candidates.len() ==> candidates[a].rel@ == candidates[b].rel@
                || crate::sorting::lex_less(
                vstd::utf8::encode_utf8(candidates[a].rel@),
                vstd::utf8::encode_utf8(candidates[b].rel@),
            ),
{
    let keys = text_keys(found);
    let names = candidates.map_values(|c: Candidate| c.rel@);
    let order = choose|order: Seq<usize>|
        #[trigger] is_sorted_order(keys, order) && candidates.len() == order.len() && forall|i: int|
            0 <= i < order.len() ==> (#[trigger] candidates[i]).rel@ == found[order[i] as int];
    assert forall|i: int|
        #![trigger found[i]]
        0 <= i < found.len() implies names.contains(found[i]) by {
        crate::sorting::lemma_order_is_complete(keys, order, i);
        let k = choose|k: int| 0 <= k < order.len() && #[trigger] order[k] == i;
        assert(candidates[k].rel@ == found[i]);
        assert(names[k] == found[i]);
    }
    assert forall|a: int, b: int|
        #![trigger candidates[a], candidates[b]]
        0 <= a < b < candidates.len() implies candidates[a].rel@ == candidates[b].rel@
        || crate::sorting::lex_less(
        vstd::utf8::encode_utf8(candidates[a].rel@),
        vstd::utf8::encode_utf8(candidates[b].rel@),
    ) by {
        let (x, y) = (order[a] as int, order[b] as int);
        assert(crate::sorting::comes_before(keys, x, y));
        assert(keys[x] == vstd::utf8::encode_utf8(found[x]));
        assert(keys[y] == vstd::utf8::encode_utf8(found[y]));
        if keys[x] == keys[y] {
            vstd::utf8::encode_utf8_decode_utf8(found[x]);
            vstd::utf8::encode_utf8_decode_utf8(found[y]);
        }
    }
}

/// A file of the walk is found under its key, unless it is too large, and a file
/// without a key ends the walk. A directory is walked after those that were found
/// later.
pub proof fn law_a_walk_takes_what_is_small_enough(
    walk: &mut Walk,
    file: &PathName,
    size: u64,
    max: u64,
    taken: Result<(), String>,
    other: &mut Walk,
    directory: PathName,
)
    requires
        call_ensures(Walk::take, (walk, file, size, max), taken),
        call_ensures(Walk::descend, (other, directory), ()),
    ensures
        size > max ==> taken is Ok && final(walk)@ == old(walk)@,
        size <= max ==> match manifest_key(old(walk)@.root, file@) {
            Ok(key) => taken is Ok && final(walk)@.found == old(walk)@.found + seq![key]
                && final(walk)@.pending == old(walk)@.pending,
            Err(reason) => (taken matches Err(message) && message@ == reason) && final(walk)@
                == old(walk)@,
        },
        final(other)@.pending == old(other)@.pending + seq![directory@],
        final(other)@.found == old(other)@.found && final(other)@.root == old(other)@.root,
{
}

/// What a walk does with an entry, and the key of a file, are what the model says.
pub proof fn law_a_walk_goes_by_its_model(
    policy: &SourcePolicy,
    globs: &Override,
    path: &PathName,
    kind: EntryKind,
    step: EntryStep,
    root: &PathName,
    key: Result<String, String>,
    content: &str,
    worth: bool,
)
    requires
        call_ensures(visit, (policy, globs, path, kind), step),
        call_ensures(rel_path, (root, path), key),
        call_ensures(is_indexable, (content,), worth),
    ensures
        step == entry_step(policy@, *globs, path@, kind),
        match key {
            Ok(text) => manifest_key(root@, path@) == Ok::<Seq<char>, Seq<char>>(text@),
            Err(reason) => manifest_key(root@, path@) == Err::<Seq<char>, Seq<char>>(reason@),
        },
        worth == indexable(content@),
{
}

} // verus!
