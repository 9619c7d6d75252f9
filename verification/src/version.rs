//! Version numbers in directory names such as `v18.19.0`, and the order
//! that lists installed versions newest first.
use vstd::prelude::*;

use crate::order;

verus! {

/// An ASCII decimal digit, as a byte.
pub open spec fn is_digit_byte(b: u8) -> bool {
    48 <= b <= 57
}

/// Reading `s` from left to right as runs of digits separated by single
/// dots: the numbers of the runs already closed by a dot, the value of the
/// run being read and its length. `None` once a byte is neither a digit nor
/// a dot after a digit, or a number exceeds `u64::MAX`.
pub open spec fn version_scan(s: Seq<u8>) -> Option<(Seq<u64>, u64, nat)>
    decreases s.len(),
{
    if s.len() == 0 {
        Some((Seq::<u64>::empty(), 0u64, 0nat))
    } else {
        match version_scan(s.drop_last()) {
            None => None,
            Some((done, v, len)) => {
                let b = s.last();
                if is_digit_byte(b) {
                    if v * 10 + (b - 48) <= u64::MAX {
                        Some((done, (v * 10 + (b - 48)) as u64, len + 1))
                    } else {
                        None
                    }
                } else if b == 46 && len > 0 {
                    Some((done.push(v), 0u64, 0nat))
                } else {
                    None
                }
            },
        }
    }
}

/// The name without one leading `v` (byte 118), if it has one.
pub open spec fn version_body(name: Seq<u8>) -> Seq<u8> {
    if name.len() > 0 && name[0] == 118 {
        name.drop_first()
    } else {
        name
    }
}

/// The numbers of a version name: an optional leading `v`, then one or more
/// dot-separated runs of decimal digits, each denoting a number that fits in
/// a `u64`. Any other name has none.
pub open spec fn version_numbers(name: Seq<u8>) -> Option<Seq<u64>> {
    match version_scan(version_body(name)) {
        Some((done, v, len)) => if len > 0 {
            Some(done.push(v))
        } else {
            None
        },
        None => None,
    }
}

/// Lexicographic order on number sequences: a proper prefix comes first
/// (`18` before `18.0`).
pub open spec fn lex_le_u64(a: Seq<u64>, b: Seq<u64>) -> bool
    decreases a.len(),
{
    if a.len() == 0 {
        true
    } else if b.len() == 0 {
        false
    } else if a[0] != b[0] {
        a[0] < b[0]
    } else {
        lex_le_u64(a.drop_first(), b.drop_first())
    }
}

/// `a` comes no later than `b` when versions are listed newest first: names
/// with version numbers come before names without; a higher version comes
/// first; equal versions, and names without versions, go by descending name
/// bytes and then by later listing position.
pub open spec fn newest_leq(a: (Seq<u8>, int), b: (Seq<u8>, int)) -> bool {
    match (version_numbers(a.0), version_numbers(b.0)) {
        (Some(x), Some(y)) => if x == y {
            order::desc_leq(a, b)
        } else {
            lex_le_u64(y, x)
        },
        (Some(_), None) => true,
        (None, Some(_)) => false,
        (None, None) => order::desc_leq(a, b),
    }
}

pub open spec fn newest_leq_fn() -> spec_fn((Seq<u8>, int), (Seq<u8>, int)) -> bool {
    |a: (Seq<u8>, int), b: (Seq<u8>, int)| newest_leq(a, b)
}

/// The positions of a listing with the newest versions first.
pub open spec fn newest_first_order(names: Seq<Seq<u8>>) -> Seq<usize> {
    order::keyed(names).sort_by(newest_leq_fn()).map_values(|p: (Seq<u8>, int)| p.1 as usize)
}

pub open spec fn version_views(v: Seq<Option<Vec<u64>>>) -> Seq<Option<Seq<u64>>> {
    v.map_values(
        |o: Option<Vec<u64>>|
            match o {
                Some(x) => Some(x@),
                None => None,
            },
    )
}

// ---------------------------------------------------------------------------
// The order is total
// ---------------------------------------------------------------------------

proof fn lemma_lex_u64_total(a: Seq<u64>, b: Seq<u64>)
    ensures
        lex_le_u64(a, b) || lex_le_u64(b, a),
    decreases a.len(),
{
    if a.len() > 0 && b.len() > 0 && a[0] == b[0] {
        lemma_lex_u64_total(a.drop_first(), b.drop_first());
    }
}

proof fn lemma_lex_u64_antisymmetric(a: Seq<u64>, b: Seq<u64>)
    requires
        lex_le_u64(a, b),
        lex_le_u64(b, a),
    ensures
        a == b,
    decreases a.len(),
{
    if a.len() == 0 {
        assert(a =~= b);
    } else {
        lemma_lex_u64_antisymmetric(a.drop_first(), b.drop_first());
        assert(a =~= seq![a[0]] + a.drop_first());
        assert(b =~= seq![b[0]] + b.drop_first());
    }
}

proof fn lemma_lex_u64_transitive(a: Seq<u64>, b: Seq<u64>, c: Seq<u64>)
    requires
        lex_le_u64(a, b),
        lex_le_u64(b, c),
    ensures
        lex_le_u64(a, c),
    decreases a.len(),
{
    if a.len() > 0 && b.len() > 0 && c.len() > 0 && a[0] == b[0] && b[0] == c[0] {
        lemma_lex_u64_transitive(a.drop_first(), b.drop_first(), c.drop_first());
    }
}

/// Listing newest first is a total order.
pub proof fn lemma_newest_total_ordering()
    ensures
        vstd::relations::total_ordering(newest_leq_fn()),
{
    order::lemma_desc_total_ordering();
    let d = order::desc_leq_fn();
    let r = newest_leq_fn();
    assert forall|x: (Seq<u8>, int)| #[trigger] r(x, x) by {
        assert(d(x, x));
    }
    assert forall|x: (Seq<u8>, int), y: (Seq<u8>, int)| #[trigger]
        r(x, y) && #[trigger] r(y, x) implies x == y by {
        match (version_numbers(x.0), version_numbers(y.0)) {
            (Some(vx), Some(vy)) => {
                if vx != vy {
                    lemma_lex_u64_antisymmetric(vx, vy);
                } else {
                    assert(d(x, y) && d(y, x));
                }
            },
            (None, None) => {
                assert(d(x, y) && d(y, x));
            },
            _ => {},
        }
    }
    assert forall|x: (Seq<u8>, int), y: (Seq<u8>, int), z: (Seq<u8>, int)| #[trigger]
        r(x, y) && #[trigger] r(y, z) implies r(x, z) by {
        match (version_numbers(x.0), version_numbers(y.0), version_numbers(z.0)) {
            (Some(vx), Some(vy), Some(vz)) => {
                if vx == vy && vy == vz {
                    assert(d(x, y) && d(y, z));
                } else if vx == vy {
                } else if vy == vz {
                } else if vx == vz {
                    lemma_lex_u64_antisymmetric(vx, vy);
                } else {
                    lemma_lex_u64_transitive(vz, vy, vx);
                }
            },
            (None, None, None) => {
                assert(d(x, y) && d(y, z));
            },
            _ => {},
        }
    }
    assert forall|x: (Seq<u8>, int), y: (Seq<u8>, int)| #[trigger] r(x, y) || #[trigger] r(y, x) by {
        match (version_numbers(x.0), version_numbers(y.0)) {
            (Some(vx), Some(vy)) => {
                lemma_lex_u64_total(vx, vy);
                assert(d(x, y) || d(y, x));
            },
            (None, None) => {
                assert(d(x, y) || d(y, x));
            },
            _ => {},
        }
    }
}

// ---------------------------------------------------------------------------
// Reading version numbers
// ---------------------------------------------------------------------------

proof fn lemma_scan_none_stays(s: Seq<u8>, k: int)
    requires
        0 <= k <= s.len(),
        version_scan(s.take(k)) is None,
    ensures
        version_scan(s) is None,
    decreases s.len() - k,
{
    if k < s.len() {
        assert(s.take(k + 1).drop_last() =~= s.take(k));
        lemma_scan_none_stays(s, k + 1);
    } else {
        assert(s.take(k) =~= s);
    }
}

/// The version numbers of a directory name, as `version_numbers` describes.
pub fn parse_version(name: &Vec<u8>) -> (r: Option<Vec<u64>>)
    ensures
        match r {
            Some(x) => version_numbers(name@) == Some(x@),
            None => version_numbers(name@) is None,
        },
{
    let n = name.len();
    let start: usize = if n > 0 && name[0] == 118 {
        1
    } else {
        0
    };
    let ghost body = version_body(name@);
    assert(body =~= name@.skip(start as int));
    let mut done: Vec<u64> = Vec::new();
    let mut cur: u64 = 0;
    let mut len: usize = 0;
    let mut i: usize = start;
    assert(body.take(0) =~= Seq::<u8>::empty());
    while i < n
        invariant
            start <= i <= n,
            n == name@.len(),
            body == name@.skip(start as int),
            body == version_body(name@),
            version_scan(body.take(i - start)) == Some((done@, cur, len as nat)),
            len <= i,
        decreases n - i,
    {
        let b = name[i];
        let ghost t = body.take(i - start + 1);
        assert(t.drop_last() =~= body.take(i - start));
        assert(t.last() == b);
        if 48 <= b && b <= 57 {
            let d = (b - 48) as u64;
            match cur.checked_mul(10) {
                Some(m) => match m.checked_add(d) {
                    Some(v) => {
                        cur = v;
                        len = len + 1;
                    },
                    None => {
                        proof {
                            assert(cur * 10 + (b - 48) > u64::MAX);
                            assert(version_scan(t) is None);
                            lemma_scan_none_stays(body, i - start + 1);
                            assert(version_scan(body) is None);
                            assert(version_numbers(name@) is None);
                        }
                        return None;
                    },
                },
                None => {
                    proof {
                        lemma_scan_none_stays(body, i - start + 1);
                    }
                    return None;
                },
            }
        } else if b == 46 && len > 0 {
            done.push(cur);
            cur = 0;
            len = 0;
        } else {
            proof {
                assert(version_scan(t) is None);
                lemma_scan_none_stays(body, i - start + 1);
                assert(version_scan(body) is None);
                assert(version_numbers(name@) is None);
            }
            return None;
        }
        i = i + 1;
    }
    assert(body.take(n - start) =~= body);
    if len == 0 {
        None
    } else {
        done.push(cur);
        Some(done)
    }
}

proof fn lemma_lex_u64_skip(a: Seq<u64>, b: Seq<u64>, i: int)
    requires
        0 <= i <= a.len(),
        i <= b.len(),
        forall|k: int| 0 <= k < i ==> a[k] == b[k],
    ensures
        lex_le_u64(a, b) == lex_le_u64(a.skip(i), b.skip(i)),
    decreases i,
{
    if i > 0 {
        lemma_lex_u64_skip(a.drop_first(), b.drop_first(), i - 1);
        assert(a.drop_first().skip(i - 1) =~= a.skip(i));
        assert(b.drop_first().skip(i - 1) =~= b.skip(i));
    } else {
        assert(a.skip(0) =~= a);
        assert(b.skip(0) =~= b);
    }
}

/// Whether version `a` is no higher than version `b`.
pub fn version_le(a: &Vec<u64>, b: &Vec<u64>) -> (r: bool)
    ensures
        r == lex_le_u64(a@, b@),
{
    let n = a.len();
    let m = b.len();
    let mut i: usize = 0;
    while i < n && i < m && a[i] == b[i]
        invariant
            i <= n,
            i <= m,
            n == a@.len(),
            m == b@.len(),
            forall|k: int| 0 <= k < i ==> a@[k] == b@[k],
        decreases n - i,
    {
        i = i + 1;
    }
    proof {
        lemma_lex_u64_skip(a@, b@, i as int);
    }
    if i == n {
        true
    } else if i == m {
        false
    } else {
        a[i] < b[i]
    }
}

/// Whether two versions have the same numbers.
pub fn version_eq(a: &Vec<u64>, b: &Vec<u64>) -> (r: bool)
    ensures
        r == (a@ == b@),
{
    let n = a.len();
    if n != b.len() {
        return false;
    }
    let mut i: usize = 0;
    while i < n
        invariant
            i <= n,
            n == a@.len(),
            n == b@.len(),
            forall|k: int| 0 <= k < i ==> a@[k] == b@[k],
        decreases n - i,
    {
        if a[i] != b[i] {
            return false;
        }
        i = i + 1;
    }
    assert(a@ =~= b@);
    true
}

} // verus!
