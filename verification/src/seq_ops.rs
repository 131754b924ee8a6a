//! Sequence helpers for identity lists and ownership-index reasoning.

use vstd::prelude::*;

verus! {

/// `s` with every occurrence of `x` removed, the order of the rest kept.
///
/// This is what rebuilding a list while skipping one element computes; both
/// issuer removal and the ownership-index side of a transfer are specified
/// with it.
pub open spec fn remove_all(s: Seq<u64>, x: u64) -> Seq<u64>
    decreases s.len(),
{
    if s.len() == 0 {
        Seq::empty()
    } else if s.last() == x {
        remove_all(s.drop_last(), x)
    } else {
        remove_all(s.drop_last(), x).push(s.last())
    }
}

/// No element occurs twice in `s`.
pub open spec fn distinct(s: Seq<u64>) -> bool {
    forall|i: int, j: int| 0 <= i < j < s.len() ==> s[i] != s[j]
}

/// One step of `remove_all`, taken at the back.
pub proof fn lemma_remove_all_push(s: Seq<u64>, x: u64, y: u64)
    ensures
        remove_all(s.push(y), x) == (if y == x {
            remove_all(s, x)
        } else {
            remove_all(s, x).push(y)
        }),
{
    assert(s.push(y).drop_last() =~= s);
    assert(s.push(y).last() == y);
}

/// Everything `remove_all` keeps differs from `x` and stems from `s`.
pub proof fn lemma_remove_all_index(s: Seq<u64>, x: u64)
    ensures
        forall|k: int|
            0 <= k < remove_all(s, x).len() ==> (#[trigger] remove_all(s, x)[k]) != x && s.contains(
                remove_all(s, x)[k],
            ),
    decreases s.len(),
{
    if s.len() == 0 {
    } else {
        let d = s.drop_last();
        lemma_remove_all_index(d, x);
        assert forall|k: int|
            0 <= k < remove_all(s, x).len() implies (#[trigger] remove_all(s, x)[k]) != x
            && s.contains(remove_all(s, x)[k]) by {
            let r = remove_all(d, x);
            if s.last() == x {
                assert(remove_all(s, x) == r);
                assert(d.contains(r[k]));
                let i = choose|i: int| 0 <= i < d.len() && d[i] == r[k];
                assert(s[i] == r[k]);
            } else {
                assert(remove_all(s, x) == r.push(s.last()));
                if k < r.len() {
                    assert(remove_all(s, x)[k] == r[k]);
                    assert(d.contains(r[k]));
                    let i = choose|i: int| 0 <= i < d.len() && d[i] == r[k];
                    assert(s[i] == r[k]);
                } else {
                    assert(remove_all(s, x)[k] == s.last());
                    assert(s[s.len() - 1] == s.last());
                }
            }
        }
    }
}

/// `remove_all` keeps exactly the elements other than `x`.
pub proof fn lemma_remove_all_membership(s: Seq<u64>, x: u64, y: u64)
    ensures
        remove_all(s, x).contains(y) <==> (y != x && s.contains(y)),
    decreases s.len(),
{
    if s.len() == 0 {
        assert(!s.contains(y));
        assert(!remove_all(s, x).contains(y));
    } else {
        let d = s.drop_last();
        lemma_remove_all_membership(d, x, y);
        assert(s.contains(y) <==> (d.contains(y) || s.last() == y)) by {
            if s.contains(y) {
                let i = choose|i: int| 0 <= i < s.len() && s[i] == y;
                if i < s.len() - 1 {
                    assert(d[i] == y);
                }
            }
            if d.contains(y) {
                let i = choose|i: int| 0 <= i < d.len() && d[i] == y;
                assert(s[i] == y);
            }
            if s.last() == y {
                assert(s[s.len() - 1] == y);
            }
        }
        let r = remove_all(d, x);
        if s.last() == x {
            assert(remove_all(s, x) == r);
        } else {
            assert(remove_all(s, x) == r.push(s.last()));
            assert(r.push(s.last()).contains(y) <==> (r.contains(y) || s.last() == y)) by {
                if r.contains(y) {
                    let i = choose|i: int| 0 <= i < r.len() && r[i] == y;
                    assert(r.push(s.last())[i] == y);
                }
                if s.last() == y {
                    assert(r.push(s.last())[r.len() as int] == y);
                }
                if r.push(s.last()).contains(y) {
                    let i = choose|i: int|
                        0 <= i < r.push(s.last()).len() && r.push(s.last())[i] == y;
                    if i < r.len() {
                        assert(r[i] == y);
                    }
                }
            }
        }
    }
}

/// `remove_all` never introduces a duplicate.
pub proof fn lemma_remove_all_distinct(s: Seq<u64>, x: u64)
    requires
        distinct(s),
    ensures
        distinct(remove_all(s, x)),
    decreases s.len(),
{
    if s.len() == 0 {
    } else {
        let d = s.drop_last();
        assert(distinct(d)) by {
            assert(forall|k: int| 0 <= k < d.len() ==> #[trigger] d[k] == s[k]);
        }
        lemma_remove_all_distinct(d, x);
        if s.last() != x {
            let r = remove_all(d, x);
            lemma_remove_all_index(d, x);
            assert(!r.contains(s.last())) by {
                if r.contains(s.last()) {
                    let k = choose|k: int| 0 <= k < r.len() && r[k] == s.last();
                    assert(d.contains(r[k]));
                    let i = choose|i: int| 0 <= i < d.len() && d[i] == r[k];
                    assert(s[i] == s[s.len() - 1]);
                    assert(false);
                }
            }
            assert(remove_all(s, x) == r.push(s.last()));
            assert forall|i: int, j: int|
                0 <= i < j < r.push(s.last()).len() implies r.push(s.last())[i] != r.push(
                s.last(),
            )[j] by {
                if j < r.len() {
                    assert(r[i] != r[j]);
                } else {
                    assert(r.push(s.last())[j] == s.last());
                    assert(r.push(s.last())[i] == r[i]);
                    if r[i] == s.last() {
                        assert(r.contains(s.last()));
                        assert(false);
                    }
                }
            }
        }
    }
}

/// Removing an identity that is not present is a no-op.
pub proof fn lemma_remove_all_absent(s: Seq<u64>, x: u64)
    requires
        !s.contains(x),
    ensures
        remove_all(s, x) == s,
    decreases s.len(),
{
    if s.len() == 0 {
        assert(remove_all(s, x) =~= s);
    } else {
        let d = s.drop_last();
        assert(!d.contains(x)) by {
            if d.contains(x) {
                let i = choose|i: int| 0 <= i < d.len() && d[i] == x;
                assert(s[i] == x);
            }
        }
        lemma_remove_all_absent(d, x);
        assert(s.last() != x) by {
            assert(s[s.len() - 1] == s.last());
        }
        assert(remove_all(s, x) == d.push(s.last()));
        assert(d.push(s.last()) =~= s);
    }
}

/// A pushed element is afterwards contained; nothing else changes membership.
pub proof fn lemma_push_membership(s: Seq<u64>, x: u64, y: u64)
    ensures
        s.push(x).contains(x),
        s.push(x).contains(y) <==> (s.contains(y) || y == x),
{
    assert(s.push(x)[s.len() as int] == x);
    if s.contains(y) {
        let i = choose|i: int| 0 <= i < s.len() && s[i] == y;
        assert(s.push(x)[i] == y);
    }
    if s.push(x).contains(y) {
        let i = choose|i: int| 0 <= i < s.push(x).len() && s.push(x)[i] == y;
        if i < s.len() {
            assert(s[i] == y);
        }
    }
}

} // verus!
