use vstd::prelude::*;
use vstd::string::StrSliceExecFns;
use vstd::seq_lib::to_multiset_build;
use vstd::seq_lib::to_multiset_insert;

verus! {

/// Strict lexicographic order on character sequences, by code point.
pub open spec fn seq_lt(a: Seq<char>, b: Seq<char>) -> bool
    decreases a.len(),
{
    if b.len() == 0 {
        false
    } else if a.len() == 0 {
        true
    } else if a[0] == b[0] {
        seq_lt(a.skip(1), b.skip(1))
    } else {
        (a[0] as int) < (b[0] as int)
    }
}

/// Non-strict lexicographic order on character sequences.
pub open spec fn seq_le(a: Seq<char>, b: Seq<char>) -> bool {
    seq_lt(a, b) || a == b
}

/// Any two character sequences are comparable.
pub proof fn lemma_seq_lt_connex(a: Seq<char>, b: Seq<char>)
    ensures
        seq_lt(a, b) || seq_lt(b, a) || a == b,
    decreases a.len(),
{
    if b.len() == 0 {
        if a.len() == 0 {
            assert(a =~= b);
        } else {
            assert(seq_lt(b, a));
        }
    } else if a.len() == 0 {
        assert(seq_lt(a, b));
    } else if a[0] == b[0] {
        lemma_seq_lt_connex(a.skip(1), b.skip(1));
        if seq_lt(a.skip(1), b.skip(1)) {
            assert(seq_lt(a, b));
        } else if seq_lt(b.skip(1), a.skip(1)) {
            assert(seq_lt(b, a));
        } else {
            assert(a.skip(1) == b.skip(1));
            assert(a =~= b) by {
                assert(forall|i: int|
                    1 <= i < a.len() ==> a[i] == a.skip(1)[i - 1] && b[i] == b.skip(1)[i - 1]);
            }
        }
    } else {
        if (a[0] as int) < (b[0] as int) {
            assert(seq_lt(a, b));
        } else {
            assert((b[0] as int) < (a[0] as int));
            assert(seq_lt(b, a));
        }
    }
}

/// Strict lexicographic order is transitive.
pub proof fn lemma_seq_lt_trans(a: Seq<char>, b: Seq<char>, c: Seq<char>)
    requires
        seq_lt(a, b),
        seq_lt(b, c),
    ensures
        seq_lt(a, c),
    decreases a.len(),
{
    if c.len() == 0 || b.len() == 0 || a.len() == 0 {
    } else if a[0] == b[0] && b[0] == c[0] {
        lemma_seq_lt_trans(a.skip(1), b.skip(1), c.skip(1));
    }
}

/// Compares two strings in lexicographic code-point order.
pub fn str_lt(a: &str, b: &str) -> (r: bool)
    ensures
        r == seq_lt(a@, b@),
{
    let alen = a.unicode_len();
    let blen = b.unicode_len();
    let mut i: usize = 0;
    proof {
        assert(a@.skip(0) =~= a@);
        assert(b@.skip(0) =~= b@);
    }
    loop
        invariant
            alen == a@.len(),
            blen == b@.len(),
            i <= alen,
            i <= blen,
            seq_lt(a@, b@) == seq_lt(a@.skip(i as int), b@.skip(i as int)),
        decreases blen - i,
    {
        if i >= blen {
            return false;
        }
        if i >= alen {
            return true;
        }
        let ca = a.get_char(i);
        let cb = b.get_char(i);
        if ca != cb {
            return (ca as u32) < (cb as u32);
        }
        proof {
            assert(a@.skip(i as int).skip(1) =~= a@.skip(i + 1));
            assert(b@.skip(i as int).skip(1) =~= b@.skip(i + 1));
        }
        i += 1;
    }
}

/// The strings stand in non-decreasing lexicographic code-point order.
pub open spec fn paths_sorted(s: Seq<String>) -> bool {
    forall|i: int, j: int| 0 <= i < j < s.len() ==> #[trigger] seq_le(s[i]@, s[j]@)
}

/// On pairwise-distinct strings, the sorted order is strict: each entry is
/// lexicographically below every later one.
pub proof fn lemma_sorted_distinct_strict(s: Seq<String>)
    requires
        paths_sorted(s),
        forall|i: int, j: int| 0 <= i < j < s.len() ==> (#[trigger] s[i])@ != (#[trigger] s[j])@,
    ensures
        forall|i: int, j: int| 0 <= i < j < s.len() ==> seq_lt(#[trigger] s[i]@, #[trigger] s[j]@),
{
    assert forall|i: int, j: int| 0 <= i < j < s.len() implies seq_lt(
        #[trigger] s[i]@,
        #[trigger] s[j]@,
    ) by {
        assert(seq_le(s[i]@, s[j]@));
    }
}

proof fn lemma_sorted_insert(prev: Seq<String>, x: String, p: int)
    requires
        0 <= p <= prev.len(),
        paths_sorted(prev),
        forall|k: int| 0 <= k < p ==> #[trigger] seq_le(prev[k]@, x@),
        p < prev.len() ==> seq_lt(x@, prev[p]@),
    ensures
        paths_sorted(prev.insert(p, x)),
        prev.insert(p, x).to_multiset() == prev.to_multiset().insert(x),
{
    broadcast use to_multiset_insert;

    prev.insert_ensures(p, x);
    let cur = prev.insert(p, x);
    assert forall|m: int, n: int| 0 <= m < n < cur.len() implies #[trigger] seq_le(
        cur[m]@,
        cur[n]@,
    ) by {
        if m < p {
            assert(cur[m]@ == prev[m]@);
            assert(seq_le(prev[m]@, x@));
        }
        if n > p {
            assert(cur[n]@ == prev[n - 1]@);
            assert(seq_lt(x@, prev[p]@));
            if n - 1 > p {
                assert(seq_le(prev[p]@, prev[n - 1]@));
                if seq_lt(prev[p]@, prev[n - 1]@) {
                    lemma_seq_lt_trans(x@, prev[p]@, prev[n - 1]@);
                }
            }
            assert(seq_lt(x@, prev[n - 1]@));
        }
        if m < p && n < p {
            assert(seq_le(prev[m]@, prev[n]@));
        } else if m < p && n == p {
            assert(cur[n]@ == x@);
        } else if m < p && n > p {
            if seq_lt(prev[m]@, x@) {
                lemma_seq_lt_trans(prev[m]@, x@, prev[n - 1]@);
            }
        } else if m == p {
            assert(cur[m]@ == x@);
        } else {
            assert(m > p && n > p);
            assert(cur[m]@ == prev[m - 1]@);
            assert(seq_le(prev[m - 1]@, prev[n - 1]@));
        }
    }
}

/// Sorts the given strings into lexicographic code-point order, keeping
/// exactly the same strings (as a multiset).
pub fn sort_paths(v: Vec<String>) -> (r: Vec<String>)
    ensures
        paths_sorted(r@),
        r@.to_multiset() == v@.to_multiset(),
{
    let mut out: Vec<String> = Vec::new();
    let mut i: usize = 0;
    proof {
        assert(out@ =~= v@.take(0));
    }
    while i < v.len()
        invariant
            i <= v@.len(),
            paths_sorted(out@),
            out@.to_multiset() == v@.take(i as int).to_multiset(),
        decreases v@.len() - i,
    {
        let x = v[i].clone();
        let mut p: usize = 0;
        while p < out.len() && !str_lt(x.as_str(), out[p].as_str())
            invariant
                p <= out@.len(),
                forall|k: int| 0 <= k < p ==> #[trigger] seq_le(out@[k]@, x@),
            decreases out@.len() - p,
        {
            proof {
                lemma_seq_lt_connex(x@, out@[p as int]@);
            }
            p += 1;
        }
        let ghost prev = out@;
        out.insert(p, x);
        proof {
            lemma_sorted_insert(prev, x, p as int);
            broadcast use to_multiset_build;

            assert(v@.take(i + 1) =~= v@.take(i as int).push(v@[i as int]));
        }
        i += 1;
    }
    proof {
        assert(v@.take(v@.len() as int) =~= v@);
    }
    out
}

} // verus!
