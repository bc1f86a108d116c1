//! File-system paths as sequences of components.
//!
//! A component is the bytes of one name. The root directory is a component of
//! its own, a single slash, so an absolute path begins with it. No other
//! component holds a slash.

use vstd::prelude::*;
use vstd::string::*;

use crate::sorting::{bytes_less, lemma_lex_irreflexive, lemma_lex_transitive, lex_less};
use crate::text::{copy_text, lossy_text, same_bytes, show_bytes};

verus! {

/// The byte that separates the components of a written path.
pub const SEPARATOR: u8 = 47;

/// The byte of a dot.
pub const DOT: u8 = 46;

/// The component that stands for the root directory.
pub open spec fn root_component() -> Seq<u8> {
    seq![SEPARATOR]
}

/// A path, component by component.
pub struct PathName {
    pub parts: Vec<Vec<u8>>,
}

impl View for PathName {
    type V = Seq<Seq<u8>>;

    open spec fn view(&self) -> Seq<Seq<u8>> {
        self.parts@.map_values(|part: Vec<u8>| part@)
    }
}

/// The directory that holds the last component of `path`: there is none for
/// the empty path and for one that ends in the root directory.
pub open spec fn parent_of(path: Seq<Seq<u8>>) -> Option<Seq<Seq<u8>>> {
    if path.len() == 0 || path.last() == root_component() {
        None
    } else {
        Some(path.drop_last())
    }
}

/// Whether `path` is `base` or lies below it.
pub open spec fn is_under(path: Seq<Seq<u8>>, base: Seq<Seq<u8>>) -> bool {
    base.is_prefix_of(path)
}

/// The paths that `list` holds.
pub open spec fn path_set(list: Seq<PathName>) -> Set<Seq<Seq<u8>>> {
    Set::new(|path: Seq<Seq<u8>>| exists|i: int| 0 <= i < list.len() && (#[trigger] list[i])@ == path)
}

impl PathName {
    /// The path without a component.
    pub fn empty() -> (path: PathName)
        ensures
            path@ == Seq::<Seq<u8>>::empty(),
    {
        let path = PathName { parts: Vec::new() };
        assert(path@ =~= Seq::<Seq<u8>>::empty());
        path
    }

    pub fn len(&self) -> (count: usize)
        ensures
            count == self@.len(),
    {
        self.parts.len()
    }

    /// A copy of the component at `i`.
    pub fn part(&self, i: usize) -> (part: Vec<u8>)
        requires
            i < self@.len(),
        ensures
            part@ == self@[i as int],
    {
        copy_bytes(&self.parts[i])
    }

    /// Appends one component.
    pub fn push(&mut self, part: Vec<u8>)
        ensures
            final(self)@ == old(self)@.push(part@),
    {
        self.parts.push(part);
        assert(self@ =~= old(self)@.push(part@));
    }

    /// The path of an entry called `name` in the directory `self`.
    pub fn child(&self, name: &[u8]) -> (path: PathName)
        ensures
            path@ == self@.push(name@),
    {
        let mut path = self.copy();
        path.push(copy_slice(name));
        path
    }

    /// The first `count` components.
    pub fn prefix(&self, count: usize) -> (path: PathName)
        requires
            count <= self@.len(),
        ensures
            path@ == self@.take(count as int),
    {
        let mut path = PathName::empty();
        let mut i: usize = 0;
        assert(self@.take(0) =~= Seq::<Seq<u8>>::empty());
        while i < count
            invariant
                i <= count <= self@.len(),
                path@ == self@.take(i as int),
            decreases count - i,
        {
            path.push(copy_bytes(&self.parts[i]));
            assert(self@.take(i + 1) =~= self@.take(i as int).push(self@[i as int]));
            i = i + 1;
        }
        path
    }

    pub fn copy(&self) -> (path: PathName)
        ensures
            path@ == self@,
    {
        let path = self.prefix(self.parts.len());
        assert(self@.take(self@.len() as int) =~= self@);
        path
    }

    pub fn same(&self, other: &PathName) -> (equal: bool)
        ensures
            equal == (self@ == other@),
    {
        self.len() == other.len() && self.under(other)
    }

    /// `Path::starts_with`: whether this path is `base` or lies below it.
    pub fn under(&self, base: &PathName) -> (inside: bool)
        ensures
            inside == is_under(self@, base@),
            base@.len() == self@.len() ==> inside == (self@ == base@),
    {
        if base.parts.len() > self.parts.len() {
            return false;
        }
        let mut i: usize = 0;
        while i < base.parts.len()
            invariant
                i <= base@.len() <= self@.len(),
                forall|j: int| 0 <= j < i ==> self@[j] == base@[j],
            decreases base@.len() - i,
        {
            if !same_bytes(self.parts[i].as_slice(), base.parts[i].as_slice()) {
                assert(self@[i as int] != base@[i as int]);
                return false;
            }
            i = i + 1;
        }
        assert(base@ =~= self@.subrange(0, base@.len() as int));
        proof {
            if base@.len() == self@.len() {
                assert(self@ =~= base@);
            }
        }
        true
    }

    /// `Path::parent`.
    pub fn parent(&self) -> (parent: Option<PathName>)
        ensures
            match parent {
                None => parent_of(self@) is None,
                Some(p) => parent_of(self@) == Some(p@),
            },
    {
        let count: usize = self.parts.len();
        if count == 0 || self.is_root_part(count - 1) {
            None
        } else {
            let parent = self.prefix(count - 1);
            assert(parent@ =~= self@.drop_last());
            Some(parent)
        }
    }

    /// Whether the component at `i` is the root directory.
    pub fn is_root_part(&self, i: usize) -> (root: bool)
        requires
            i < self@.len(),
        ensures
            root == (self@[i as int] == root_component()),
    {
        let part = &self.parts[i];
        let root = part.len() == 1 && part[0] == SEPARATOR;
        assert(root ==> part@ =~= root_component());
        root
    }

    /// Whether the path comes before another one.
    pub fn before(&self, other: &PathName) -> (before: bool)
        ensures
            before == path_before(self@, other@),
    {
        let mut i: usize = 0;
        assert(self@.skip(0) =~= self@);
        assert(other@.skip(0) =~= other@);
        while i < self.parts.len() && i < other.parts.len()
            invariant
                i <= self@.len(),
                i <= other@.len(),
                path_before(self@, other@) == path_before(
                    self@.skip(i as int),
                    other@.skip(i as int),
                ),
            decreases self@.len() - i,
        {
            let a = &self.parts[i];
            let b = &other.parts[i];
            assert(self@.skip(i as int)[0] == a@);
            assert(other@.skip(i as int)[0] == b@);
            assert(self@.skip(i as int).drop_first() =~= self@.skip(i + 1));
            assert(other@.skip(i as int).drop_first() =~= other@.skip(i + 1));
            if !same_bytes(a.as_slice(), b.as_slice()) {
                let first: u8 = rank(a);
                let second: u8 = rank(b);
                return first < second || (first == 3 && second == 3 && bytes_less(
                    a.as_slice(),
                    b.as_slice(),
                ));
            }
            i = i + 1;
        }
        i < other.parts.len()
    }

    /// Whether the path begins at the root directory.
    pub fn is_absolute(&self) -> (absolute: bool)
        ensures
            absolute == absolute_path(self@),
    {
        self.parts.len() > 0 && self.is_root_part(0)
    }
}

/// Where a kind of component stands: the root directory, the directory itself,
/// its parent, and then every name.
pub open spec fn part_rank(part: Seq<u8>) -> int {
    if part == root_component() {
        0
    } else if part == seq![DOT] {
        1
    } else if part == seq![DOT, DOT] {
        2
    } else {
        3
    }
}

/// Whether one component comes before another; names go by their bytes.
pub open spec fn part_before(a: Seq<u8>, b: Seq<u8>) -> bool {
    part_rank(a) < part_rank(b) || (part_rank(a) == 3 && part_rank(b) == 3 && lex_less(a, b))
}

/// Whether one path comes before another, component by component.
pub open spec fn path_before(a: Seq<Seq<u8>>, b: Seq<Seq<u8>>) -> bool
    decreases a.len(),
{
    if b.len() == 0 {
        false
    } else if a.len() == 0 {
        true
    } else if a[0] != b[0] {
        part_before(a[0], b[0])
    } else {
        path_before(a.drop_first(), b.drop_first())
    }
}

proof fn lemma_part_before(a: Seq<u8>, b: Seq<u8>, c: Seq<u8>)
    requires
        part_before(a, b),
        part_before(b, c),
    ensures
        part_before(a, c),
        a != c,
{
    if part_rank(a) == 3 {
        lemma_lex_transitive(a, b, c);
        lemma_lex_irreflexive(a);
    }
}

pub proof fn lemma_path_before_transitive(a: Seq<Seq<u8>>, b: Seq<Seq<u8>>, c: Seq<Seq<u8>>)
    requires
        path_before(a, b),
        path_before(b, c),
    ensures
        path_before(a, c),
    decreases a.len(),
{
    if a.len() > 0 {
        if a[0] != b[0] && b[0] != c[0] {
            lemma_part_before(a[0], b[0], c[0]);
        } else if a[0] == b[0] && b[0] == c[0] {
            lemma_path_before_transitive(a.drop_first(), b.drop_first(), c.drop_first());
        }
    }
}

pub proof fn lemma_path_before_irreflexive(a: Seq<Seq<u8>>)
    ensures
        !path_before(a, a),
    decreases a.len(),
{
    if a.len() > 0 {
        lemma_path_before_irreflexive(a.drop_first());
    }
}

fn rank(part: &Vec<u8>) -> (rank: u8)
    ensures
        rank == part_rank(part@),
{
    if part.len() == 1 && part[0] == SEPARATOR {
        assert(part@ =~= root_component());
        0
    } else if part.len() == 1 && part[0] == DOT {
        assert(part@ =~= seq![DOT]);
        1
    } else if part.len() == 2 && part[0] == DOT && part[1] == DOT {
        assert(part@ =~= seq![DOT, DOT]);
        2
    } else {
        3
    }
}

/// Whether a path begins at the root directory.
pub open spec fn absolute_path(path: Seq<Seq<u8>>) -> bool {
    path.len() > 0 && path[0] == root_component()
}

pub fn copy_bytes(bytes: &Vec<u8>) -> (copy: Vec<u8>)
    ensures
        copy@ == bytes@,
{
    copy_slice(bytes.as_slice())
}

pub fn copy_slice(bytes: &[u8]) -> (copy: Vec<u8>)
    ensures
        copy@ == bytes@,
{
    let mut copy: Vec<u8> = Vec::new();
    let mut i: usize = 0;
    while i < bytes.len()
        invariant
            i <= bytes@.len(),
            copy@ == bytes@.take(i as int),
        decreases bytes@.len() - i,
    {
        copy.push(bytes[i]);
        assert(bytes@.take(i + 1) =~= bytes@.take(i as int).push(bytes@[i as int]));
        i = i + 1;
    }
    assert(bytes@.take(i as int) =~= bytes@);
    copy
}

/// Whether `list` holds `path`.
pub fn holds(list: &Vec<PathName>, path: &PathName) -> (found: bool)
    ensures
        found == path_set(list@).contains(path@),
{
    let mut i: usize = 0;
    while i < list.len()
        invariant
            i <= list@.len(),
            forall|j: int| 0 <= j < i ==> (#[trigger] list@[j])@ != path@,
        decreases list@.len() - i,
    {
        if list[i].same(path) {
            return true;
        }
        i = i + 1;
    }
    false
}

/// Appends `path`, which the list may hold already.
pub fn add_path(list: &mut Vec<PathName>, path: PathName)
    ensures
        path_set(final(list)@) == path_set(old(list)@).insert(path@),
        final(list)@ == old(list)@.push(path),
{
    let ghost before = list@;
    list.push(path);
    assert forall|p: Seq<Seq<u8>>|
        path_set(list@).contains(p) == path_set(before).insert(path@).contains(p) by {
        if path_set(before).contains(p) {
            let i = choose|i: int| 0 <= i < before.len() && (#[trigger] before[i])@ == p;
            assert(list@[i]@ == p);
        }
        if p == path@ {
            assert(list@[before.len() as int]@ == p);
        }
        if path_set(list@).contains(p) {
            let i = choose|i: int| 0 <= i < list@.len() && (#[trigger] list@[i])@ == p;
            if i < before.len() {
                assert(before[i]@ == p);
            }
        }
    }
    assert(path_set(list@) =~= path_set(before).insert(path@));
}

/// A copy of the list without `path`.
pub fn without(list: &Vec<PathName>, path: &PathName) -> (rest: Vec<PathName>)
    ensures
        path_set(rest@) == path_set(list@).remove(path@),
{
    let mut rest: Vec<PathName> = Vec::new();
    let mut i: usize = 0;
    assert(path_set(list@.take(0)) =~= path_set(rest@));
    while i < list.len()
        invariant
            i <= list@.len(),
            path_set(rest@) == path_set(list@.take(i as int)).remove(path@),
        decreases list@.len() - i,
    {
        proof {
            lemma_path_set_next(list@, i as int);
        }
        if !list[i].same(path) {
            add_path(&mut rest, list[i].copy());
        }
        assert(path_set(rest@) =~= path_set(list@.take(i + 1)).remove(path@));
        i = i + 1;
    }
    assert(list@.take(i as int) =~= list@);
    rest
}

pub proof fn lemma_path_set_next(list: Seq<PathName>, i: int)
    requires
        0 <= i < list.len(),
    ensures
        path_set(list.take(i + 1)) == path_set(list.take(i)).insert(list[i]@),
{
    let longer = list.take(i + 1);
    let shorter = list.take(i);
    assert forall|p: Seq<Seq<u8>>|
        path_set(longer).contains(p) == path_set(shorter).insert(list[i]@).contains(p) by {
        if path_set(shorter).contains(p) {
            let j = choose|j: int| 0 <= j < shorter.len() && (#[trigger] shorter[j])@ == p;
            assert(longer[j]@ == p);
        }
        if p == list[i]@ {
            assert(longer[i]@ == p);
        }
        if path_set(longer).contains(p) {
            let j = choose|j: int| 0 <= j < longer.len() && (#[trigger] longer[j])@ == p;
            if j < i {
                assert(shorter[j]@ == p);
            }
        }
    }
    assert(path_set(longer) =~= path_set(shorter).insert(list[i]@));
}

/// `rel` as seen from the directory `dir`, both written out: an absolute `rel`
/// stands for itself.
pub open spec fn joined(dir: Seq<char>, rel: Seq<char>) -> Seq<char> {
    if rel.len() > 0 && rel[0] == '/' {
        rel
    } else if dir.len() == 0 || dir.last() == '/' {
        dir + rel
    } else {
        dir + "/"@ + rel
    }
}

/// `Path::join` on written POSIX paths.
pub fn join(dir: &str, rel: &str) -> (path: String)
    ensures
        path@ == joined(dir@, rel@),
{
    if rel.unicode_len() > 0 && rel.get_char(0) == '/' {
        return copy_text(rel);
    }
    let mut path = copy_text(dir);
    let count: usize = dir.unicode_len();
    if count > 0 && dir.get_char(count - 1) != '/' {
        path.push_str("/");
    }
    path.push_str(rel);
    path
}

/// A path as it is written: its components with a separator between them, and
/// none behind the root directory.
pub open spec fn written(path: Seq<Seq<u8>>) -> Seq<u8>
    decreases path.len(),
{
    if path.len() == 0 {
        seq![]
    } else if path.len() == 1 {
        path[0]
    } else {
        let before = written(path.drop_last());
        if before.len() > 0 && before.last() == SEPARATOR {
            before + path.last()
        } else {
            before + seq![SEPARATOR] + path.last()
        }
    }
}

/// What a message shows of a path.
pub open spec fn shown(path: Seq<Seq<u8>>) -> Seq<char> {
    lossy_text(written(path))
}

impl PathName {
    /// The path as it is written.
    pub fn to_bytes(&self) -> (bytes: Vec<u8>)
        ensures
            bytes@ == written(self@),
    {
        let mut bytes: Vec<u8> = Vec::new();
        let mut i: usize = 0;
        assert(self@.take(0) =~= Seq::<Seq<u8>>::empty());
        while i < self.parts.len()
            invariant
                i <= self.parts@.len(),
                bytes@ == written(self@.take(i as int)),
            decreases self.parts@.len() - i,
        {
            let ghost before = bytes@;
            proof {
                assert(self@.take(i + 1).drop_last() =~= self@.take(i as int));
                assert(self@.take(i + 1).last() == self.parts@[i as int]@);
                assert(self@.take(i as int).len() == i);
            }
            if i > 0 && !(bytes.len() > 0 && bytes[bytes.len() - 1] == SEPARATOR) {
                bytes.push(SEPARATOR);
                assert(bytes@ =~= before + seq![SEPARATOR]);
            }
            let ghost middle = bytes@;
            let mut part = copy_bytes(&self.parts[i]);
            bytes.append(&mut part);
            assert(bytes@ =~= middle + self.parts@[i as int]@);
            proof {
                if i == 0 {
                    assert(bytes@ =~= self@.take(1)[0]);
                }
            }
            i = i + 1;
        }
        assert(self@.take(i as int) =~= self@);
        bytes
    }

    /// The path for a message.
    pub fn display(&self) -> (text: String)
        ensures
            text@ == shown(self@),
            vstd::utf8::valid_utf8(written(self@)) ==> vstd::utf8::encode_utf8(text@) == written(
                self@,
            ),
    {
        show_bytes(self.to_bytes().as_slice())
    }
}

/// The pieces of `bytes` between separators.
pub open spec fn pieces(bytes: Seq<u8>) -> Seq<Seq<u8>>
    decreases bytes.len(),
{
    if bytes.len() == 0 {
        seq![seq![]]
    } else {
        let before = pieces(bytes.drop_last());
        if bytes.last() == SEPARATOR {
            before.push(seq![])
        } else {
            before.update(before.len() - 1, before.last().push(bytes.last()))
        }
    }
}

/// Whether a piece is a component: an empty piece is not, and a single dot only
/// where it begins a relative path.
pub open spec fn is_component(bytes: Seq<u8>, index: int) -> bool {
    let piece = pieces(bytes)[index];
    let rooted = bytes.len() > 0 && bytes[0] == SEPARATOR;
    piece.len() > 0 && (piece != seq![DOT] || (index == 0 && !rooted))
}

/// The components among the first `n` pieces.
pub open spec fn components_upto(bytes: Seq<u8>, n: nat) -> Seq<Seq<u8>>
    decreases n,
{
    if n == 0 {
        if bytes.len() > 0 && bytes[0] == SEPARATOR {
            seq![root_component()]
        } else {
            seq![]
        }
    } else {
        let before = components_upto(bytes, (n - 1) as nat);
        if is_component(bytes, n - 1) {
            before.push(pieces(bytes)[n - 1])
        } else {
            before
        }
    }
}

/// The components of a written path: the root directory where the path begins
/// with a separator, then every name, without repeated separators and without
/// dots that mean the directory itself.
pub open spec fn components(bytes: Seq<u8>) -> Seq<Seq<u8>> {
    components_upto(bytes, pieces(bytes).len())
}

/// Splits `bytes` at its separators.
fn split_pieces(bytes: &[u8]) -> (list: Vec<Vec<u8>>)
    ensures
        list@.map_values(|p: Vec<u8>| p@) == pieces(bytes@),
{
    let mut list: Vec<Vec<u8>> = Vec::new();
    let mut current: Vec<u8> = Vec::new();
    let ghost view = |p: Vec<u8>| p@;
    let mut i: usize = 0;
    assert(bytes@.take(0) =~= Seq::<u8>::empty());
    assert(list@.map_values(view).push(current@) =~= pieces(bytes@.take(0)));
    while i < bytes.len()
        invariant
            i <= bytes@.len(),
            view == (|p: Vec<u8>| p@),
            list@.map_values(view).push(current@) == pieces(bytes@.take(i as int)),
        decreases bytes@.len() - i,
    {
        let ghost done = list@;
        let ghost open = current@;
        assert(bytes@.take(i + 1).drop_last() =~= bytes@.take(i as int));
        assert(bytes@.take(i + 1).last() == bytes@[i as int]);
        if bytes[i] == SEPARATOR {
            let mut piece: Vec<u8> = Vec::new();
            std::mem::swap(&mut piece, &mut current);
            list.push(piece);
            assert(list@.map_values(view) =~= done.map_values(view).push(open));
            assert(list@.map_values(view).push(current@) =~= pieces(bytes@.take(i + 1)));
        } else {
            current.push(bytes[i]);
            assert(list@.map_values(view).push(current@) =~= pieces(bytes@.take(i + 1)));
        }
        i = i + 1;
    }
    assert(bytes@.take(i as int) =~= bytes@);
    let ghost done = list@;
    list.push(current);
    assert(list@.map_values(view) =~= done.map_values(view).push(current@));
    list
}

impl PathName {
    /// Reads a written path, as `Path::components` does.
    pub fn parse(bytes: &[u8]) -> (path: PathName)
        ensures
            path@ == components(bytes@),
    {
        let list = split_pieces(bytes);
        let ghost all = pieces(bytes@);
        let rooted = bytes.len() > 0 && bytes[0] == SEPARATOR;
        let mut path = PathName::empty();
        if rooted {
            let mut root: Vec<u8> = Vec::new();
            root.push(SEPARATOR);
            assert(root@ =~= root_component());
            path.push(root);
            assert(path@ =~= seq![root_component()]);
        }
        let mut i: usize = 0;
        while i < list.len()
            invariant
                i <= list@.len(),
                all == pieces(bytes@),
                list@.map_values(|p: Vec<u8>| p@) == all,
                rooted == (bytes@.len() > 0 && bytes@[0] == SEPARATOR),
                path@ == components_upto(bytes@, i as nat),
            decreases list@.len() - i,
        {
            let piece = &list[i];
            assert(all[i as int] == piece@);
            let dot = piece.len() == 1 && piece[0] == DOT;
            assert(dot ==> piece@ =~= seq![DOT]);
            if piece.len() > 0 && (!dot || (i == 0 && !rooted)) {
                path.push(copy_bytes(piece));
            }
            i = i + 1;
        }
        assert(all.len() == list@.len());
        path
    }

    /// Reads a written path.
    pub fn from_text(text: &str) -> (path: PathName)
        ensures
            path@ == components(vstd::utf8::encode_utf8(text@)),
    {
        PathName::parse(text.as_bytes())
    }
}

/// The parent of a name is what it stands in; the root and the empty path have none.
pub proof fn law_names_stand_in_their_parent(path: Seq<Seq<u8>>, name: Seq<u8>)
    ensures
        name != seq![47u8] ==> parent_of(path.push(name)) == Some(path),
        parent_of(path.push(seq![47u8])) is None,
        parent_of(seq![]) is None,
        is_under(path.push(name), path),
        is_under(path, path),
        !is_under(path, path.push(name)),
        absolute_path(path) <==> seq![seq![47u8]].is_prefix_of(path),
{
    assert(path.push(name).drop_last() =~= path);
    assert(path.push(name).take(path.len() as int) =~= path);
    assert(root_component() =~= seq![47u8]);
    if absolute_path(path) {
        assert(path.take(1) =~= seq![seq![47u8]]);
    }
    if seq![seq![47u8]].is_prefix_of(path) {
        assert(path[0] == seq![seq![47u8]][0]);
    }
}

/// Paths are ordered by their first parts that differ, and what stands in a path
/// comes after it. Of two parts, the root comes first, then the directory itself,
/// then the one above, and then the names in the order of their bytes.
pub proof fn law_paths_are_ordered(
    common: Seq<Seq<u8>>,
    a: Seq<u8>,
    b: Seq<u8>,
    x: Seq<Seq<u8>>,
    y: Seq<Seq<u8>>,
)
    ensures
        path_before(common, common + seq![a] + x),
        !path_before(common + seq![a] + x, common),
        a != b ==> path_before(common + seq![a] + x, common + seq![b] + y) == {
            let place = |part: Seq<u8>|
                if part == seq![47u8] {
                    0int
                } else if part == seq![46u8] {
                    1
                } else if part == seq![46u8, 46u8] {
                    2
                } else {
                    3
                };
            place(a) < place(b) || (place(a) == 3 && place(b) == 3 && lex_less(a, b))
        },
    decreases common.len(),
{
    let (left, right) = (common + seq![a] + x, common + seq![b] + y);
    if common.len() == 0 {
        assert(left[0] == a && right[0] == b);
    } else {
        let rest = common.drop_first();
        law_paths_are_ordered(rest, a, b, x, y);
        assert(left.drop_first() =~= rest + seq![a] + x);
        assert(right.drop_first() =~= rest + seq![b] + y);
        assert(left[0] == common[0] && right[0] == common[0]);
    }
}

/// A path is written with a slash between each two names, and none but the root's
/// own behind the root.
pub proof fn law_names_are_written_with_slashes(path: Seq<Seq<u8>>, name: Seq<u8>)
    ensures
        written(seq![]).len() == 0,
        written(seq![name]) == name,
        written(seq![seq![47u8], name]) == seq![47u8] + name,
        path.len() > 0 && !(written(path).len() > 0 && written(path).last() == 47) ==> written(
            path.push(name),
        ) == written(path) + seq![47u8] + name,
{
    assert(path.push(name).drop_last() =~= path);
    let rooted = seq![seq![47u8], name];
    assert(rooted.drop_last() =~= seq![seq![47u8]]);
    assert(written(rooted.drop_last()) == seq![47u8]);
}

/// Two names are joined by one slash, unless the second begins at the root.
pub proof fn law_how_paths_are_joined(dir: Seq<char>, rel: Seq<char>)
    ensures
        "/"@.is_prefix_of(rel) ==> joined(dir, rel) == rel,
        !"/"@.is_prefix_of(rel) && (dir.len() == 0 || "/"@.is_suffix_of(dir)) ==> joined(dir, rel)
            == dir + rel,
        !"/"@.is_prefix_of(rel) && dir.len() > 0 && !"/"@.is_suffix_of(dir) ==> joined(dir, rel)
            == dir + "/"@ + rel,
{
    reveal_strlit("/");
    if rel.len() > 0 && rel[0] == '/' {
        assert(rel.take(1) =~= "/"@);
    }
    if "/"@.is_prefix_of(rel) {
        assert(rel[0] == "/"@[0]);
    }
    if dir.len() > 0 && dir.last() == '/' {
        assert(dir.skip(dir.len() - 1) =~= "/"@);
    }
    if "/"@.is_suffix_of(dir) {
        assert(dir.skip(dir.len() - 1)[0] == "/"@[0]);
    }
}

proof fn lemma_pieces_of_a_name(bytes: Seq<u8>, name: Seq<u8>)
    requires
        !name.contains(SEPARATOR),
    ensures
        pieces(bytes + seq![SEPARATOR] + name) == pieces(bytes).push(name),
        pieces(bytes).len() > 0,
    decreases name.len(),
{
    lemma_pieces_are_some(bytes);
    let all = bytes + seq![SEPARATOR] + name;
    if name.len() == 0 {
        assert(all.drop_last() =~= bytes);
        assert(name =~= Seq::<u8>::empty());
    } else {
        assert forall|i: int| 0 <= i < name.len() - 1 implies #[trigger] name.drop_last()[i]
            != SEPARATOR by {
            assert(name.contains(name[i]));
        }
        assert(name.contains(name.last()));
        lemma_pieces_of_a_name(bytes, name.drop_last());
        assert(all.drop_last() =~= bytes + seq![SEPARATOR] + name.drop_last());
        assert(name.drop_last().push(name.last()) =~= name);
        assert(pieces(all) =~= pieces(bytes).push(name));
    }
}

proof fn lemma_pieces_are_some(bytes: Seq<u8>)
    ensures
        pieces(bytes).len() > 0,
    decreases bytes.len(),
{
    if bytes.len() > 0 {
        lemma_pieces_are_some(bytes.drop_last());
    }
}

proof fn lemma_components_agree(bytes: Seq<u8>, longer: Seq<u8>, n: nat)
    requires
        bytes.len() > 0,
        longer.len() > 0,
        longer[0] == bytes[0],
        n <= pieces(bytes).len() <= pieces(longer).len(),
        forall|i: int| 0 <= i < pieces(bytes).len() ==> #[trigger] pieces(longer)[i] == pieces(bytes)[i],
    ensures
        components_upto(longer, n) == components_upto(bytes, n),
    decreases n,
{
    if n > 0 {
        lemma_components_agree(bytes, longer, (n - 1) as nat);
        assert(pieces(longer)[n - 1] == pieces(bytes)[n - 1]);
    }
}

/// What a path holds is read name by name: a name behind a slash is one more part,
/// unless it is empty or stands for the directory itself. A slash at the beginning
/// is the root.
pub proof fn law_paths_are_read_name_by_name(bytes: Seq<u8>, name: Seq<u8>)
    requires
        !name.contains(47u8),
    ensures
        bytes.len() > 0 && name.len() > 0 && name != seq![46u8] ==> components(
            bytes + seq![47u8] + name,
        ) == components(bytes).push(name),
        bytes.len() > 0 && (name.len() == 0 || name == seq![46u8]) ==> components(
            bytes + seq![47u8] + name,
        ) == components(bytes),
        name.len() > 0 ==> components(name) == seq![name],
        name.len() > 0 && name != seq![46u8] ==> components(seq![47u8] + name) == seq![
            seq![47u8],
            name,
        ],
        components(seq![47u8]) == seq![seq![47u8]],
        components(seq![]).len() == 0,
{
    let longer = bytes + seq![SEPARATOR] + name;
    lemma_pieces_of_a_name(bytes, name);
    let n = pieces(bytes).len();
    assert(pieces(longer)[n as int] == name);
    if bytes.len() > 0 {
        assert(longer[0] == bytes[0]);
        lemma_components_agree(bytes, longer, n);
        assert(components(longer) == components_upto(longer, n + 1));
    }
    let none = Seq::<u8>::empty();
    let nothing = Seq::<Seq<u8>>::empty();
    assert(pieces(none) =~= seq![none]);
    assert(components_upto(none, 0) =~= nothing);
    assert(components(none) == components_upto(none, 1));
    let rooted = none + seq![SEPARATOR] + name;
    lemma_pieces_of_a_name(none, name);
    assert(rooted =~= seq![47u8] + name);
    assert(pieces(rooted) =~= seq![none, name]);
    assert(components_upto(rooted, 0) =~= seq![seq![47u8]]);
    assert(components_upto(rooted, 1) == components_upto(rooted, 0));
    assert(components(rooted) == components_upto(rooted, 2));
    if name.len() > 0 && name != seq![46u8] {
        assert(components(rooted) =~= seq![seq![47u8], name]);
    }
    let root = none + seq![SEPARATOR] + none;
    lemma_pieces_of_a_name(none, none);
    assert(root =~= seq![47u8]);
    assert(pieces(root) =~= seq![none, none]);
    assert(components_upto(root, 0) =~= seq![seq![47u8]]);
    assert(components_upto(root, 1) == components_upto(root, 0));
    assert(components(root) == components_upto(root, 2));
    if name.len() > 0 {
        lemma_one_piece(name);
        assert(name.contains(name[0]));
        assert(components_upto(name, 0) =~= nothing);
        assert(components(name) == components_upto(name, 1));
        assert(components(name) =~= seq![name]);
    }
}

proof fn lemma_one_piece(name: Seq<u8>)
    requires
        !name.contains(SEPARATOR),
    ensures
        pieces(name) == seq![name],
    decreases name.len(),
{
    if name.len() == 0 {
        assert(name =~= Seq::<u8>::empty());
    } else {
        assert forall|i: int| 0 <= i < name.len() - 1 implies #[trigger] name.drop_last()[i]
            != SEPARATOR by {
            assert(name.contains(name[i]));
        }
        assert(name.contains(name.last()));
        lemma_one_piece(name.drop_last());
        assert(name.drop_last().push(name.last()) =~= name);
        assert(pieces(name) =~= seq![name]);
    }
}

/// Paths are read, joined and compared as the model says, and lie below those that they
/// begin with.
pub proof fn law_paths_are_what_they_say(
    bytes: &[u8],
    parsed: PathName,
    dir: &str,
    rel: &str,
    joined_path: String,
    path: &PathName,
    base: &PathName,
    inside: bool,
    parent: Option<PathName>,
    written_bytes: Vec<u8>,
)
    requires
        call_ensures(PathName::parse, (bytes,), parsed),
        call_ensures(join, (dir, rel), joined_path),
        call_ensures(PathName::under, (path, base), inside),
        call_ensures(PathName::parent, (path,), parent),
        call_ensures(PathName::to_bytes, (path,), written_bytes),
    ensures
        parsed@ == components(bytes@),
        joined_path@ == joined(dir@, rel@),
        inside <==> base@.is_prefix_of(path@),
        parent is None <==> path@.len() == 0 || path@.last() == seq![47u8],
        parent matches Some(p) ==> p@ == path@.drop_last(),
        written_bytes@ == written(path@),
{
    assert(root_component() =~= seq![47u8]);
}

} // verus!
