use vstd::prelude::*;

verus! {

/// Every element is smaller than each one after it.
pub open spec fn strictly_sorted(s: Seq<u64>) -> bool {
    forall|i: int, j: int| 0 <= i < j < s.len() ==> s[i] < s[j]
}

/// A sequence after the removal of the element at `i`: the last element
/// takes its place.
pub open spec fn swap_removed<T>(s: Seq<T>, i: int) -> Seq<T> {
    s.update(i, s.last()).drop_last()
}

/// After the removal of the element at `i` the sequence holds every
/// element that stood elsewhere, and is one shorter; where no element
/// occurred twice, none does afterwards and the removed one is gone.
pub proof fn lemma_swap_removed_keeps_others<T>(s: Seq<T>, i: int)
    requires
        0 <= i < s.len(),
    ensures
        swap_removed(s, i).len() == s.len() - 1,
        forall|k: int| 0 <= k < s.len() && k != i ==> swap_removed(s, i).contains(#[trigger] s[k]),
        forall|k: int|
            0 <= k < swap_removed(s, i).len() ==> s.contains(#[trigger] swap_removed(s, i)[k]),
        s.no_duplicates() ==> swap_removed(s, i).no_duplicates() && !swap_removed(s, i).contains(
            s[i],
        ),
{
    let r = swap_removed(s, i);
    let last = s.len() - 1;
    assert forall|k: int| 0 <= k < s.len() && k != i implies r.contains(#[trigger] s[k]) by {
        if k == last {
            assert(r[i] == s[k]);
        } else {
            assert(r[k] == s[k]);
        }
    }
    assert forall|k: int| 0 <= k < r.len() implies s.contains(#[trigger] r[k]) by {
        if k == i {
            assert(s[last] == r[k]);
        } else {
            assert(s[k] == r[k]);
        }
    }
    if s.no_duplicates() {
        assert forall|a: int, b: int| 0 <= a < r.len() && 0 <= b < r.len() && a != b implies r[a]
            != r[b] by {
            let from_a = if a == i {
                last
            } else {
                a
            };
            let from_b = if b == i {
                last
            } else {
                b
            };
            assert(r[a] == s[from_a] && r[b] == s[from_b]);
        }
        if r.contains(s[i]) {
            let k = choose|k: int| 0 <= k < r.len() && r[k] == s[i];
            let from = if k == i {
                last
            } else {
                k
            };
            assert(s[from] == s[i]);
        }
    }
}

/// A helper to get two mutable borrows from the same slice.
pub fn index_twice<T>(slice: &mut [T], first: usize, second: usize) -> (pair: (&mut T, &mut T))
    requires
        first != second,
        first < old(slice).len(),
        second < old(slice).len(),
    ensures
        *pair.0 == old(slice)@[first as int],
        *pair.1 == old(slice)@[second as int],
        final(slice)@ == old(slice)@.update(first as int, *final(pair.0)).update(
            second as int,
            *final(pair.1),
        ),
{
    if first < second {
        let (a, b) = slice.split_at_mut(second);
        (&mut a[first], &mut b[0])
    } else {
        let (a, b) = slice.split_at_mut(first);
        (&mut b[0], &mut a[second])
    }
}

/// Looks `target` up in a strictly sorted list: `Ok` with its position, or
/// `Err` with the position at which it would have to be inserted.
pub fn binary_search(list: &Vec<u64>, target: u64) -> (result: Result<usize, usize>)
    requires
        strictly_sorted(list@),
    ensures
        match result {
            Ok(i) => i < list.len() && list[i as int] == target,
            Err(i) => {
                &&& i <= list.len()
                &&& !list@.contains(target)
                &&& forall|j: int| 0 <= j < i ==> list[j] < target
                &&& forall|j: int| i <= j < list.len() ==> target < list[j]
            },
        },
{
    let mut low: usize = 0;
    let mut high: usize = list.len();
    while low < high
        invariant
            low <= high <= list.len(),
            strictly_sorted(list@),
            forall|j: int| 0 <= j < low ==> list[j] < target,
            forall|j: int| high <= j < list.len() ==> target < list[j],
        decreases high - low,
    {
        let mid: usize = low + (high - low) / 2;
        let probe: u64 = list[mid];
        if probe == target {
            return Ok(mid);
        } else if probe < target {
            low = mid + 1;
        } else {
            high = mid;
        }
    }
    Err(low)
}

/// Inserting at the position that `binary_search` reports keeps a list
/// strictly sorted.
pub proof fn lemma_insert_keeps_sorted(s: Seq<u64>, i: int, t: u64)
    requires
        strictly_sorted(s),
        0 <= i <= s.len(),
        forall|j: int| 0 <= j < i ==> s[j] < t,
        forall|j: int| i <= j < s.len() ==> t < s[j],
    ensures
        strictly_sorted(s.insert(i, t)),
{
    let r = s.insert(i, t);
    assert forall|a: int, b: int| 0 <= a < b < r.len() implies r[a] < r[b] by {
        if a < i {
            assert(r[a] == s[a]);
        } else if a > i {
            assert(r[a] == s[a - 1]);
        }
        if b < i {
            assert(r[b] == s[b]);
        } else if b > i {
            assert(r[b] == s[b - 1]);
        }
    }
}

/// After a push a list holds what it held before and the new element.
pub proof fn lemma_push_contains(s: Seq<u64>, t: u64)
    ensures
        forall|u: u64| s.push(t).contains(u) <==> s.contains(u) || u == t,
{
    let r = s.push(t);
    assert forall|u: u64| r.contains(u) <==> s.contains(u) || u == t by {
        if r.contains(u) {
            let k = choose|k: int| 0 <= k < r.len() && r[k] == u;
            if k < s.len() {
                assert(s[k] == u);
            }
        }
        if s.contains(u) {
            let k = choose|k: int| 0 <= k < s.len() && s[k] == u;
            assert(r[k] == u);
        }
        if u == t {
            assert(r[s.len() as int] == u);
        }
    }
}

/// After an insertion a list holds what it held before and the new
/// element.
pub proof fn lemma_insert_contains(s: Seq<u64>, i: int, t: u64)
    requires
        0 <= i <= s.len(),
    ensures
        forall|u: u64| s.insert(i, t).contains(u) <==> s.contains(u) || u == t,
{
    let r = s.insert(i, t);
    assert forall|u: u64| r.contains(u) <==> s.contains(u) || u == t by {
        if r.contains(u) {
            let k = choose|k: int| 0 <= k < r.len() && r[k] == u;
            if k < i {
                assert(s[k] == u);
            } else if k > i {
                assert(s[k - 1] == u);
            }
        }
        if s.contains(u) {
            let k = choose|k: int| 0 <= k < s.len() && s[k] == u;
            if k < i {
                assert(r[k] == u);
            } else {
                assert(r[k + 1] == u);
            }
        }
        if u == t {
            assert(r[i] == u);
        }
    }
}

/// After the removal of one element a strictly sorted list holds what it
/// held before, but for that element.
pub proof fn lemma_remove_contains(s: Seq<u64>, i: int)
    requires
        strictly_sorted(s),
        0 <= i < s.len(),
    ensures
        forall|u: u64| s.remove(i).contains(u) <==> s.contains(u) && u != s[i],
{
    let r = s.remove(i);
    assert forall|u: u64| r.contains(u) <==> s.contains(u) && u != s[i] by {
        if r.contains(u) {
            let k = choose|k: int| 0 <= k < r.len() && r[k] == u;
            if k < i {
                assert(s[k] == u);
            } else {
                assert(s[k + 1] == u);
            }
        }
        if s.contains(u) && u != s[i] {
            let k = choose|k: int| 0 <= k < s.len() && s[k] == u;
            if k < i {
                assert(r[k] == u);
            } else {
                assert(r[k - 1] == u);
            }
        }
    }
}

/// A strictly sorted list holds no element twice.
pub proof fn lemma_sorted_no_duplicates(s: Seq<u64>)
    requires
        strictly_sorted(s),
    ensures
        s.no_duplicates(),
{
    assert forall|i: int, j: int| 0 <= i < s.len() && 0 <= j < s.len() && i != j implies s[i]
        != s[j] by {
        if i < j {
            assert(s[i] < s[j]);
        } else {
            assert(s[j] < s[i]);
        }
    }
}

/// Taking one element out keeps a list strictly sorted.
pub proof fn lemma_remove_keeps_sorted(s: Seq<u64>, i: int)
    requires
        strictly_sorted(s),
        0 <= i < s.len(),
    ensures
        strictly_sorted(s.remove(i)),
{
    let r = s.remove(i);
    assert forall|a: int, b: int| 0 <= a < b < r.len() implies r[a] < r[b] by {
        if a < i {
            assert(r[a] == s[a]);
        } else {
            assert(r[a] == s[a + 1]);
        }
        if b < i {
            assert(r[b] == s[b]);
        } else {
            assert(r[b] == s[b + 1]);
        }
    }
}

/// Two strictly sorted lists with the same elements are the same list.
pub proof fn lemma_sorted_lists_equal(a: Seq<u64>, b: Seq<u64>)
    requires
        strictly_sorted(a),
        strictly_sorted(b),
        forall|t: u64| a.contains(t) <==> b.contains(t),
    ensures
        a == b,
    decreases a.len(),
{
    if a.len() == 0 {
        if b.len() > 0 {
            assert(b.contains(b[0]));
        }
        assert(a =~= b);
    } else {
        let m = a.last();
        assert(a.contains(m));
        assert(b.contains(m));
        assert(b.len() > 0);
        let n = b.last();
        assert(b.contains(n));
        assert(a.contains(n));
        let im = choose|k: int| 0 <= k < b.len() && b[k] == m;
        let jn = choose|k: int| 0 <= k < a.len() && a[k] == n;
        assert(m == n);
        let a0 = a.drop_last();
        let b0 = b.drop_last();
        assert forall|t: u64| a0.contains(t) <==> b0.contains(t) by {
            if a0.contains(t) {
                let k = choose|k: int| 0 <= k < a0.len() && a0[k] == t;
                assert(a[k] == t);
                assert(a.contains(t));
                assert(t < m);
                let l = choose|l: int| 0 <= l < b.len() && b[l] == t;
                assert(l != b.len() - 1);
                assert(b0[l] == t);
            }
            if b0.contains(t) {
                let k = choose|k: int| 0 <= k < b0.len() && b0[k] == t;
                assert(b[k] == t);
                assert(b.contains(t));
                assert(t < n);
                let l = choose|l: int| 0 <= l < a.len() && a[l] == t;
                assert(l != a.len() - 1);
                assert(a0[l] == t);
            }
        }
        lemma_sorted_lists_equal(a0, b0);
        assert(a =~= a0.push(m));
        assert(b =~= b0.push(n));
    }
}

} // verus!
