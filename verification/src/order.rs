//! Ordering the entries of a directory listing.
//!
//! Two orders: by descending name bytes, and newest version first (see
//! `version`). By name bytes, a directory listing is sorted as `Vec<PathBuf>::sort` followed by
//! `reverse` sorts the paths of entries of one directory: by the bytes of the
//! entry names, lexicographically, and then reversed. Entries with equal
//! names (which a directory never holds) would keep the reverse of their
//! listing order, as a stable sort followed by a reversal leaves them.
use vstd::prelude::*;
use vstd::relations::{sorted_by, total_ordering};

use crate::version;

verus! {

/// Lexicographic order on byte strings, as `[u8]` orders them: a proper
/// prefix comes first.
pub open spec fn lex_le(a: Seq<u8>, b: Seq<u8>) -> bool
    decreases a.len(),
{
    if a.len() == 0 {
        true
    } else if b.len() == 0 {
        false
    } else if a[0] != b[0] {
        a[0] < b[0]
    } else {
        lex_le(a.drop_first(), b.drop_first())
    }
}

/// `a` comes no later than `b` in a descending listing: its name is greater,
/// or the names are equal and it was listed later.
pub open spec fn desc_leq(a: (Seq<u8>, int), b: (Seq<u8>, int)) -> bool {
    if a.0 == b.0 {
        a.1 >= b.1
    } else {
        lex_le(b.0, a.0)
    }
}

pub open spec fn desc_leq_fn() -> spec_fn((Seq<u8>, int), (Seq<u8>, int)) -> bool {
    |a: (Seq<u8>, int), b: (Seq<u8>, int)| desc_leq(a, b)
}

/// Each name paired with its position in the listing.
pub open spec fn keyed(names: Seq<Seq<u8>>) -> Seq<(Seq<u8>, int)> {
    Seq::new(names.len(), |i: int| (names[i], i))
}

/// The positions of the listing in descending order of names.
pub open spec fn desc_order(names: Seq<Seq<u8>>) -> Seq<usize> {
    keyed(names).sort_by(desc_leq_fn()).map_values(|p: (Seq<u8>, int)| p.1 as usize)
}

/// The order of a listing: by version numbers, or by name bytes alone.
pub open spec fn listing_leq_fn(by_version: bool) -> spec_fn((Seq<u8>, int), (Seq<u8>, int)) -> bool {
    if by_version {
        version::newest_leq_fn()
    } else {
        desc_leq_fn()
    }
}

pub open spec fn listing_order(names: Seq<Seq<u8>>, by_version: bool) -> Seq<usize> {
    keyed(names).sort_by(listing_leq_fn(by_version)).map_values(|p: (Seq<u8>, int)| p.1 as usize)
}

pub open spec fn byte_views(v: Seq<Vec<u8>>) -> Seq<Seq<u8>> {
    v.map_values(|b: Vec<u8>| b@)
}

// ---------------------------------------------------------------------------
// The order is total
// ---------------------------------------------------------------------------

proof fn lemma_lex_total(a: Seq<u8>, b: Seq<u8>)
    ensures
        lex_le(a, b) || lex_le(b, a),
    decreases a.len(),
{
    if a.len() > 0 && b.len() > 0 && a[0] == b[0] {
        lemma_lex_total(a.drop_first(), b.drop_first());
    }
}

proof fn lemma_lex_antisymmetric(a: Seq<u8>, b: Seq<u8>)
    requires
        lex_le(a, b),
        lex_le(b, a),
    ensures
        a == b,
    decreases a.len(),
{
    if a.len() == 0 {
        assert(b.len() == 0);
        assert(a =~= b);
    } else {
        lemma_lex_antisymmetric(a.drop_first(), b.drop_first());
        assert(a =~= seq![a[0]] + a.drop_first());
        assert(b =~= seq![b[0]] + b.drop_first());
    }
}

proof fn lemma_lex_transitive(a: Seq<u8>, b: Seq<u8>, c: Seq<u8>)
    requires
        lex_le(a, b),
        lex_le(b, c),
    ensures
        lex_le(a, c),
    decreases a.len(),
{
    if a.len() > 0 && b.len() > 0 && c.len() > 0 && a[0] == b[0] && b[0] == c[0] {
        lemma_lex_transitive(a.drop_first(), b.drop_first(), c.drop_first());
    }
}

proof fn lemma_lex_reflexive(a: Seq<u8>)
    ensures
        lex_le(a, a),
    decreases a.len(),
{
    if a.len() > 0 {
        lemma_lex_reflexive(a.drop_first());
    }
}

pub proof fn lemma_desc_total_ordering()
    ensures
        total_ordering(desc_leq_fn()),
{
    let r = desc_leq_fn();
    assert forall|x: (Seq<u8>, int)| #[trigger] r(x, x) by {}
    assert forall|x: (Seq<u8>, int), y: (Seq<u8>, int)| #[trigger]
        r(x, y) && #[trigger] r(y, x) implies x == y by {
        if x.0 != y.0 {
            lemma_lex_antisymmetric(x.0, y.0);
        }
    }
    assert forall|x: (Seq<u8>, int), y: (Seq<u8>, int), z: (Seq<u8>, int)| #[trigger]
        r(x, y) && #[trigger] r(y, z) implies r(x, z) by {
        if x.0 == y.0 || y.0 == z.0 {
        } else if x.0 == z.0 {
            lemma_lex_antisymmetric(x.0, y.0);
        } else {
            lemma_lex_transitive(z.0, y.0, x.0);
        }
    }
    assert forall|x: (Seq<u8>, int), y: (Seq<u8>, int)| #[trigger] r(x, y) || #[trigger] r(y, x) by {
        lemma_lex_total(x.0, y.0);
    }
}

// ---------------------------------------------------------------------------
// Comparing and sorting
// ---------------------------------------------------------------------------

proof fn lemma_lex_skip(a: Seq<u8>, b: Seq<u8>, i: int)
    requires
        0 <= i <= a.len(),
        i <= b.len(),
        forall|k: int| 0 <= k < i ==> a[k] == b[k],
    ensures
        lex_le(a, b) == lex_le(a.skip(i), b.skip(i)),
    decreases i,
{
    if i > 0 {
        lemma_lex_skip(a.drop_first(), b.drop_first(), i - 1);
        assert(a.drop_first().skip(i - 1) =~= a.skip(i));
        assert(b.drop_first().skip(i - 1) =~= b.skip(i));
    } else {
        assert(a.skip(0) =~= a);
        assert(b.skip(0) =~= b);
    }
}

/// Whether `a` orders no later than `b` by bytes.
pub fn bytes_le(a: &Vec<u8>, b: &Vec<u8>) -> (r: bool)
    ensures
        r == lex_le(a@, b@),
{
    let n = a.len();
    let m = b.len();
    let mut i: usize = 0;
    while i < n && i < m && a[i] == b[i]
        invariant
            i <= n,
            i <= m,
            n == a@.len(),
            m == b@.len(),
            forall|k: int| 0 <= k < i ==> a@[k] == b@[k],
        decreases n - i,
    {
        i = i + 1;
    }
    proof {
        lemma_lex_skip(a@, b@, i as int);
    }
    if i == n {
        true
    } else if i == m {
        false
    } else {
        a[i] < b[i]
    }
}

pub open spec fn pairs_of(names: Seq<Seq<u8>>, order: Seq<usize>) -> Seq<(Seq<u8>, int)> {
    order.map_values(|j: usize| (names[j as int], j as int))
}

/// Whether entry `i` goes no later than entry `j` (listed before it).
fn goes_first(
    names: &Vec<Vec<u8>>,
    versions: &Vec<Option<Vec<u64>>>,
    by_version: bool,
    i: usize,
    j: usize,
) -> (r: bool)
    requires
        j < i < names@.len(),
        by_version ==> versions@.len() == names@.len(),
        by_version ==> forall|k: int|
            0 <= k < names@.len() ==> #[trigger] version::version_views(versions@)[k]
                == version::version_numbers(names@[k]@),
    ensures
        r == listing_leq_fn(by_version)(
            (byte_views(names@)[i as int], i as int),
            (byte_views(names@)[j as int], j as int),
        ),
{
    let ghost keys = byte_views(names@);
    assert(keys[j as int] == names@[j as int]@);
    assert(keys[i as int] == names@[i as int]@);
    proof {
        if keys[i as int] == keys[j as int] {
            lemma_lex_reflexive(keys[i as int]);
        }
    }
    // by bytes, the entry listed later goes first among equal names
    let by_bytes = bytes_le(&names[j], &names[i]);
    if !by_version {
        return by_bytes;
    }
    assert(version::version_views(versions@)[i as int] == version::version_numbers(keys[i as int]));
    assert(version::version_views(versions@)[j as int] == version::version_numbers(keys[j as int]));
    match (&versions[i], &versions[j]) {
        (Some(x), Some(y)) => {
            if version::version_eq(x, y) {
                by_bytes
            } else {
                version::version_le(y, x)
            }
        },
        (Some(_), None) => true,
        (None, Some(_)) => false,
        (None, None) => by_bytes,
    }
}

/// The positions of a listing in the chosen order.
fn sort_listing(names: &Vec<Vec<u8>>, versions: &Vec<Option<Vec<u64>>>, by_version: bool) -> (order:
    Vec<usize>)
    requires
        by_version ==> versions@.len() == names@.len(),
        by_version ==> forall|k: int|
            0 <= k < names@.len() ==> #[trigger] version::version_views(versions@)[k]
                == version::version_numbers(names@[k]@),
    ensures
        order@ == listing_order(byte_views(names@), by_version),
{
    let ghost keys = byte_views(names@);
    let ghost leq = listing_leq_fn(by_version);
    proof {
        lemma_listing_total_ordering(by_version);
    }
    let n = names.len();
    let mut out: Vec<usize> = Vec::new();
    let mut i: usize = 0;
    assert(keyed(keys).take(0) =~= Seq::<(Seq<u8>, int)>::empty());
    assert(pairs_of(keys, out@) =~= Seq::<(Seq<u8>, int)>::empty());
    while i < n
        invariant
            i <= n,
            n == names@.len(),
            keys == byte_views(names@),
            leq == listing_leq_fn(by_version),
            total_ordering(leq),
            by_version ==> versions@.len() == names@.len(),
            by_version ==> forall|k: int|
                0 <= k < names@.len() ==> #[trigger] version::version_views(versions@)[k]
                    == version::version_numbers(names@[k]@),
            forall|k: int| 0 <= k < out@.len() ==> out@[k] < i,
            sorted_by(pairs_of(keys, out@), leq),
            pairs_of(keys, out@).to_multiset() == keyed(keys).take(i as int).to_multiset(),
        decreases n - i,
    {
        let ghost old_pairs = pairs_of(keys, out@);
        let ghost new_pair = (keys[i as int], i as int);
        // find the first position whose entry the new one precedes
        let m = out.len();
        let mut p: usize = 0;
        while p < m
            invariant
                p <= m,
                m == out@.len(),
                i < n,
                n == names@.len(),
                keys == byte_views(names@),
                leq == listing_leq_fn(by_version),
                by_version ==> versions@.len() == names@.len(),
                by_version ==> forall|k: int|
                    0 <= k < names@.len() ==> #[trigger] version::version_views(versions@)[k]
                        == version::version_numbers(names@[k]@),
                old_pairs == pairs_of(keys, out@),
                new_pair == (keys[i as int], i as int),
                forall|k: int| 0 <= k < out@.len() ==> out@[k] < i,
                forall|k: int| 0 <= k < p ==> !leq(new_pair, #[trigger] old_pairs[k]),
            ensures
                p <= m,
                forall|k: int| 0 <= k < p ==> !leq(new_pair, #[trigger] old_pairs[k]),
                p < m ==> leq(new_pair, old_pairs[p as int]),
            decreases m - p,
        {
            let j = out[p];
            assert(old_pairs[p as int] == (keys[j as int], j as int));
            let before = goes_first(names, versions, by_version, i, j);
            if before {
                break;
            }
            p = p + 1;
        }
        proof {
            assert forall|k: int| 0 <= k < p implies leq(old_pairs[k], new_pair) by {
                assert(!leq(new_pair, old_pairs[k]));
            }
        }
        out.insert(p, i);
        proof {
            let np = pairs_of(keys, out@);
            assert(np =~= old_pairs.insert(p as int, new_pair));
            assert(p < m ==> leq(new_pair, old_pairs[p as int]));
            assert forall|a: int, b: int| 0 <= a < b < np.len() implies #[trigger] leq(
                np[a],
                np[b],
            ) by {
                if b < p {
                    assert(np[a] == old_pairs[a] && np[b] == old_pairs[b]);
                } else if b == p {
                    assert(np[a] == old_pairs[a]);
                } else if a == p {
                    assert(np[b] == old_pairs[b - 1]);
                    if b - 1 > p {
                        assert(leq(old_pairs[p as int], old_pairs[b - 1]));
                    }
                } else if a < p {
                    assert(np[a] == old_pairs[a] && np[b] == old_pairs[b - 1]);
                } else {
                    assert(np[a] == old_pairs[a - 1] && np[b] == old_pairs[b - 1]);
                }
            }
            assert(keyed(keys).take(i as int + 1) =~= keyed(keys).take(i as int).push(new_pair));
            vstd::seq_lib::to_multiset_insert(old_pairs, p as int, new_pair);
            vstd::seq_lib::to_multiset_build(keyed(keys).take(i as int), new_pair);
        }
        i = i + 1;
    }
    proof {
        let sorted = keyed(keys).sort_by(leq);
        keyed(keys).lemma_sort_by_ensures(leq);
        assert(keyed(keys).take(n as int) =~= keyed(keys));
        vstd::seq_lib::lemma_sorted_unique(pairs_of(keys, out@), sorted, leq);
        assert(out@ =~= sorted.map_values(|p: (Seq<u8>, int)| p.1 as usize));
    }
    out
}

/// The positions of a listing, ordered by descending name bytes (ties: later
/// position first).
pub fn sort_desc_by_bytes(names: &Vec<Vec<u8>>) -> (order: Vec<usize>)
    ensures
        order@ == desc_order(byte_views(names@)),
{
    let versions: Vec<Option<Vec<u64>>> = Vec::new();
    sort_listing(names, &versions, false)
}

/// The positions of a listing with the newest versions first: names with
/// version numbers (`v18.19.0`) by descending version, then the others by
/// descending name bytes.
pub fn sort_newest_first(names: &Vec<Vec<u8>>) -> (order: Vec<usize>)
    ensures
        order@ == version::newest_first_order(byte_views(names@)),
{
    let n = names.len();
    let mut versions: Vec<Option<Vec<u64>>> = Vec::new();
    let mut i: usize = 0;
    while i < n
        invariant
            i <= n,
            n == names@.len(),
            versions@.len() == i,
            forall|k: int|
                0 <= k < i ==> #[trigger] version::version_views(versions@)[k]
                    == version::version_numbers(names@[k]@),
        decreases n - i,
    {
        let v = version::parse_version(&names[i]);
        let ghost before = versions@;
        versions.push(v);
        assert(versions@ =~= before.push(v));
        assert(version::version_views(versions@)[i as int] == version::version_numbers(names@[i as int]@));
        assert forall|k: int| 0 <= k < i implies #[trigger] version::version_views(versions@)[k]
            == version::version_numbers(names@[k]@) by {
            assert(versions@[k] == before[k]);
            assert(version::version_views(before)[k] == version::version_views(versions@)[k]);
        }
        i = i + 1;
    }
    sort_listing(names, &versions, true)
}

/// A descending order lists each position of the listing exactly once; in
/// particular every listed position is in range.
pub proof fn lemma_listing_order_in_range(names: Seq<Seq<u8>>, by_version: bool)
    ensures
        listing_order(names, by_version).len() == names.len(),
        forall|k: int|
            0 <= k < names.len() ==> #[trigger] listing_order(names, by_version)[k] < names.len(),
{
    broadcast use vstd::seq_lib::group_to_multiset_ensures;

    lemma_listing_total_ordering(by_version);
    let kd = keyed(names);
    let srt = kd.sort_by(listing_leq_fn(by_version));
    kd.lemma_sort_by_ensures(listing_leq_fn(by_version));
    assert(srt.len() == kd.len()) by {
        assert(srt.to_multiset().len() == kd.to_multiset().len());
    }
    assert forall|k: int| 0 <= k < names.len() implies #[trigger] listing_order(names, by_version)[k]
        < names.len() by {
        assert(listing_order(names, by_version)[k] == srt[k].1 as usize);
        assert(srt.contains(srt[k]));
        assert(kd.contains(srt[k]));
        let q = choose|q: int| 0 <= q < kd.len() && kd[q] == srt[k];
        assert(kd[q].1 == q);
    }
}

pub proof fn lemma_listing_total_ordering(by_version: bool)
    ensures
        total_ordering(listing_leq_fn(by_version)),
{
    if by_version {
        version::lemma_newest_total_ordering();
    } else {
        lemma_desc_total_ordering();
    }
}
/// Every position of a listing appears in its order: sorting loses no entry.
pub proof fn lemma_listing_order_complete(names: Seq<Seq<u8>>, by_version: bool, i: int)
    requires
        0 <= i < names.len(),
        names.len() <= usize::MAX,
    ensures
        listing_order(names, by_version).contains(i as usize),
{
    broadcast use vstd::seq_lib::group_to_multiset_ensures;

    lemma_listing_total_ordering(by_version);
    let kd = keyed(names);
    let srt = kd.sort_by(listing_leq_fn(by_version));
    kd.lemma_sort_by_ensures(listing_leq_fn(by_version));
    assert(kd[i] == (names[i], i));
    assert(kd.contains(kd[i]));
    assert(kd.to_multiset().count(kd[i]) > 0);
    assert(srt.to_multiset().count(kd[i]) > 0);
    assert(srt.contains(kd[i]));
    let k = choose|k: int| 0 <= k < srt.len() && srt[k] == kd[i];
    assert(listing_order(names, by_version)[k] == i as usize);
}

} // verus!
