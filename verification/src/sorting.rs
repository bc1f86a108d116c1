//! Stable ordering of texts by their bytes.

use vstd::prelude::*;
use vstd::string::*;

verus! {

/// Whether `a` comes before `b` byte by byte, as texts are ordered.
pub open spec fn lex_less(a: Seq<u8>, b: Seq<u8>) -> bool
    decreases a.len(),
{
    if b.len() == 0 {
        false
    } else if a.len() == 0 {
        true
    } else if a[0] != b[0] {
        a[0] < b[0]
    } else {
        lex_less(a.drop_first(), b.drop_first())
    }
}

/// The bytes of each text of a list.
pub open spec fn byte_keys(keys: Seq<String>) -> Seq<Seq<u8>> {
    keys.map_values(|k: String| vstd::utf8::encode_utf8(k@))
}

/// Whether the item at `a` comes before the item at `b`: by its key, and by its
/// place where the keys are equal.
pub open spec fn comes_before(keys: Seq<Seq<u8>>, a: int, b: int) -> bool {
    lex_less(keys[a], keys[b]) || (keys[a] == keys[b] && a < b)
}

/// Whether `order` holds indices from `lo` up to but without `hi`, in order.
pub open spec fn in_order(keys: Seq<Seq<u8>>, order: Seq<usize>, lo: int, hi: int) -> bool {
    &&& forall|i: int| 0 <= i < order.len() ==> lo <= #[trigger] order[i] < hi
    &&& forall|i: int, j: int|
        0 <= i < j < order.len() ==> comes_before(
            keys,
            #[trigger] order[i] as int,
            #[trigger] order[j] as int,
        )
}

/// Whether `order` lists every index of `keys` once, in the order of the keys
/// and stable where keys are equal. There is exactly one such list.
pub open spec fn is_sorted_order(keys: Seq<Seq<u8>>, order: Seq<usize>) -> bool {
    &&& order.len() == keys.len()
    &&& in_order(keys, order, 0, keys.len() as int)
}

pub proof fn lemma_lex_irreflexive(a: Seq<u8>)
    ensures
        !lex_less(a, a),
    decreases a.len(),
{
    if a.len() > 0 {
        lemma_lex_irreflexive(a.drop_first());
    }
}

pub proof fn lemma_lex_transitive(a: Seq<u8>, b: Seq<u8>, c: Seq<u8>)
    requires
        lex_less(a, b),
        lex_less(b, c),
    ensures
        lex_less(a, c),
    decreases a.len(),
{
    if a.len() > 0 && a[0] == b[0] && b[0] == c[0] {
        lemma_lex_transitive(a.drop_first(), b.drop_first(), c.drop_first());
    }
}

pub proof fn lemma_lex_total(a: Seq<u8>, b: Seq<u8>)
    ensures
        lex_less(a, b) || lex_less(b, a) || a == b,
    decreases a.len(),
{
    if a.len() == 0 && b.len() == 0 {
        assert(a =~= b);
    } else if a.len() > 0 && b.len() > 0 && a[0] == b[0] {
        lemma_lex_total(a.drop_first(), b.drop_first());
        if a.drop_first() == b.drop_first() {
            assert(a =~= seq![a[0]] + a.drop_first());
            assert(b =~= seq![b[0]] + b.drop_first());
        }
    }
}

proof fn lemma_before_transitive(keys: Seq<Seq<u8>>, a: int, b: int, c: int)
    requires
        comes_before(keys, a, b),
        comes_before(keys, b, c),
    ensures
        comes_before(keys, a, c),
{
    if lex_less(keys[a], keys[b]) && lex_less(keys[b], keys[c]) {
        lemma_lex_transitive(keys[a], keys[b], keys[c]);
    }
}

/// Whether the bytes `a` come before the bytes `b`.
pub fn bytes_less(a: &[u8], b: &[u8]) -> (less: bool)
    ensures
        less == lex_less(a@, b@),
{
    let mut i: usize = 0;
    assert(a@.skip(0) =~= a@);
    assert(b@.skip(0) =~= b@);
    while i < a.len() && i < b.len()
        invariant
            i <= a@.len(),
            i <= b@.len(),
            lex_less(a@, b@) == lex_less(a@.skip(i as int), b@.skip(i as int)),
        decreases a@.len() - i,
    {
        assert(a@.skip(i as int)[0] == a@[i as int]);
        assert(b@.skip(i as int)[0] == b@[i as int]);
        assert(a@.skip(i as int).drop_first() =~= a@.skip(i + 1));
        assert(b@.skip(i as int).drop_first() =~= b@.skip(i + 1));
        if a[i] != b[i] {
            return a[i] < b[i];
        }
        i = i + 1;
    }
    i < b.len()
}

/// Whether the item at `a` does not come after the item at `b`.
fn goes_first(keys: &Vec<String>, a: usize, b: usize) -> (first: bool)
    requires
        a < b < keys@.len(),
    ensures
        first ==> comes_before(byte_keys(keys@), a as int, b as int),
        !first ==> comes_before(byte_keys(keys@), b as int, a as int),
{
    let x = keys[a].as_str().as_bytes();
    let y = keys[b].as_str().as_bytes();
    let ghost all = byte_keys(keys@);
    assert(all[a as int] == x@);
    assert(all[b as int] == y@);
    proof {
        lemma_lex_total(x@, y@);
    }
    !bytes_less(y, x)
}

/// Merges two ordered lists, of which the first holds the smaller indices.
fn merge(
    keys: &Vec<String>,
    left: &Vec<usize>,
    right: &Vec<usize>,
    Ghost(lo): Ghost<int>,
    Ghost(mid): Ghost<int>,
    Ghost(hi): Ghost<int>,
) -> (merged: Vec<usize>)
    requires
        0 <= lo <= mid <= hi <= keys@.len(),
        in_order(byte_keys(keys@), left@, lo, mid),
        in_order(byte_keys(keys@), right@, mid, hi),
    ensures
        in_order(byte_keys(keys@), merged@, lo, hi),
        merged@.len() == left@.len() + right@.len(),
{
    let ghost all = byte_keys(keys@);
    let mut merged: Vec<usize> = Vec::new();
    let mut i: usize = 0;
    let mut j: usize = 0;
    while i < left.len() || j < right.len()
        invariant
            0 <= lo <= mid <= hi <= keys@.len(),
            all == byte_keys(keys@),
            i <= left@.len(),
            j <= right@.len(),
            in_order(all, left@, lo, mid),
            in_order(all, right@, mid, hi),
            in_order(all, merged@, lo, hi),
            merged@.len() == i + j,
            forall|k: int, m: int|
                0 <= k < merged@.len() && i <= m < left@.len() ==> comes_before(
                    all,
                    #[trigger] merged@[k] as int,
                    #[trigger] left@[m] as int,
                ),
            forall|k: int, m: int|
                0 <= k < merged@.len() && j <= m < right@.len() ==> comes_before(
                    all,
                    #[trigger] merged@[k] as int,
                    #[trigger] right@[m] as int,
                ),
        decreases left@.len() - i + right@.len() - j,
    {
        let take_left = if j == right.len() {
            true
        } else if i == left.len() {
            false
        } else {
            goes_first(keys, left[i], right[j])
        };
        let ghost before = merged@;
        if take_left {
            let next: usize = left[i];
            proof {
                assert forall|m: int| j <= m < right@.len() implies comes_before(
                    all,
                    next as int,
                    #[trigger] right@[m] as int,
                ) by {
                    if m > j {
                        assert(comes_before(all, right@[j as int] as int, right@[m] as int));
                        lemma_before_transitive(
                            all,
                            next as int,
                            right@[j as int] as int,
                            right@[m] as int,
                        );
                    }
                }
            }
            merged.push(next);
            i = i + 1;
        } else {
            let next: usize = right[j];
            proof {
                assert forall|m: int| i <= m < left@.len() implies comes_before(
                    all,
                    next as int,
                    #[trigger] left@[m] as int,
                ) by {
                    if m > i {
                        assert(comes_before(all, left@[i as int] as int, left@[m] as int));
                        lemma_before_transitive(
                            all,
                            next as int,
                            left@[i as int] as int,
                            left@[m] as int,
                        );
                    }
                }
            }
            merged.push(next);
            j = j + 1;
        }
        assert forall|x: int, y: int| 0 <= x < y < merged@.len() implies comes_before(
            all,
            #[trigger] merged@[x] as int,
            #[trigger] merged@[y] as int,
        ) by {
            if y < before.len() {
                assert(comes_before(all, before[x] as int, before[y] as int));
            }
        }
    }
    merged
}

fn sort_range(keys: &Vec<String>, lo: usize, hi: usize) -> (order: Vec<usize>)
    requires
        lo <= hi <= keys@.len(),
    ensures
        order@.len() == hi - lo,
        in_order(byte_keys(keys@), order@, lo as int, hi as int),
    decreases hi - lo,
{
    let mut order: Vec<usize> = Vec::new();
    if hi - lo == 0 {
        return order;
    }
    if hi - lo == 1 {
        order.push(lo);
        return order;
    }
    let mid: usize = lo + (hi - lo) / 2;
    let left = sort_range(keys, lo, mid);
    let right = sort_range(keys, mid, hi);
    merge(keys, &left, &right, Ghost(lo as int), Ghost(mid as int), Ghost(hi as int))
}

/// The indices of `keys` in the order of the keys, stable where keys are equal.
pub fn sorted_order(keys: &Vec<String>) -> (order: Vec<usize>)
    ensures
        is_sorted_order(byte_keys(keys@), order@),
{
    sort_range(keys, 0, keys.len())
}

/// A sorted order lists every index.
pub proof fn lemma_order_is_complete(keys: Seq<Seq<u8>>, order: Seq<usize>, index: int)
    requires
        is_sorted_order(keys, order),
        0 <= index < keys.len(),
    ensures
        exists|i: int| 0 <= i < order.len() && #[trigger] order[i] == index,
{
    let indices = order.map_values(|k: usize| k as int);
    assert(indices.no_duplicates()) by {
        assert forall|i: int, j: int|
            0 <= i < indices.len() && 0 <= j < indices.len() && i != j implies indices[i]
            != indices[j] by {
            let (a, b) = if i < j { (i, j) } else { (j, i) };
            assert(comes_before(keys, order[a] as int, order[b] as int));
            lemma_lex_irreflexive(keys[order[a] as int]);
        }
    }
    indices.unique_seq_to_set();
    let range = vstd::set_lib::set_int_range(0, keys.len() as int);
    vstd::set_lib::lemma_int_range(0, keys.len() as int);
    assert(indices.to_set().subset_of(range)) by {
        assert forall|k: int| indices.to_set().contains(k) implies range.contains(k) by {
            let i = choose|i: int| 0 <= i < indices.len() && indices[i] == k;
            assert(0 <= order[i] < keys.len());
        }
    }
    vstd::set_lib::lemma_subset_equality(indices.to_set(), range);
    assert(indices.to_set().contains(index));
    let i = choose|i: int| 0 <= i < indices.len() && indices[i] == index;
    assert(order[i] == index);
}

proof fn lemma_prefixes_agree(keys: Seq<Seq<u8>>, a: Seq<usize>, b: Seq<usize>, n: int)
    requires
        is_sorted_order(keys, a),
        is_sorted_order(keys, b),
        0 <= n <= keys.len(),
    ensures
        forall|i: int| 0 <= i < n ==> #[trigger] a[i] == b[i],
    decreases n,
{
    if n > 0 {
        lemma_prefixes_agree(keys, a, b, n - 1);
        let k = n - 1;
        let x = a[k] as int;
        let y = b[k] as int;
        if x != y {
            lemma_order_is_complete(keys, a, y);
            let i = choose|i: int| 0 <= i < a.len() && #[trigger] a[i] == y;
            lemma_order_is_complete(keys, b, x);
            let j = choose|j: int| 0 <= j < b.len() && #[trigger] b[j] == x;
            lemma_lex_irreflexive(keys[x]);
            lemma_lex_irreflexive(keys[y]);
            if i < k {
                assert(b[i] == a[i]);
                assert(comes_before(keys, b[i] as int, b[k] as int));
            } else if j < k {
                assert(a[j] == b[j]);
                assert(comes_before(keys, a[j] as int, a[k] as int));
            } else {
                assert(comes_before(keys, a[k] as int, a[i] as int));
                assert(comes_before(keys, b[k] as int, b[j] as int));
                if lex_less(keys[x], keys[y]) && lex_less(keys[y], keys[x]) {
                    lemma_lex_transitive(keys[x], keys[y], keys[x]);
                }
            }
        }
    }
}

/// The one sorted order of keys.
pub open spec fn sorted_indices(keys: Seq<Seq<u8>>) -> Seq<usize> {
    choose|order: Seq<usize>| is_sorted_order(keys, order)
}

/// Keys have one sorted order alone.
pub proof fn lemma_sorted_order_is_unique(keys: Seq<Seq<u8>>, order: Seq<usize>)
    requires
        is_sorted_order(keys, order),
    ensures
        order == sorted_indices(keys),
{
    lemma_prefixes_agree(keys, order, sorted_indices(keys), keys.len() as int);
    assert(order =~= sorted_indices(keys));
}

/// Bytes are ordered by the first place where they differ; where there is none, the
/// shorter ones come first.
pub proof fn law_bytes_are_ordered(common: Seq<u8>, a: Seq<u8>, b: Seq<u8>)
    ensures
        a.len() > 0 && b.len() > 0 && a[0] < b[0] ==> lex_less(common + a, common + b) && !lex_less(
            common + b,
            common + a,
        ),
        b.len() > 0 ==> lex_less(common, common + b) && !lex_less(common + b, common),
        !lex_less(common, common),
    decreases common.len(),
{
    if common.len() == 0 {
        assert(common + a =~= a && common + b =~= b);
    } else {
        law_bytes_are_ordered(common.drop_first(), a, b);
        assert((common + a).drop_first() =~= common.drop_first() + a);
        assert((common + b).drop_first() =~= common.drop_first() + b);
    }
}

} // verus!
