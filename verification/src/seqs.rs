use vstd::prelude::*;

verus! {

/// In a sequence without repeats, a value's place is the place it is found at.
pub proof fn lemma_index_of_unique<A>(s: Seq<A>, i: int)
    requires
        s.no_duplicates(),
        0 <= i < s.len(),
    ensures
        s.index_of(s[i]) == i,
        s.contains(s[i]),
{
    let j = s.index_of(s[i]);
    assert(0 <= j < s.len() && s[j] == s[i]);
}

/// A value that occurs in a sequence has a place in it.
pub proof fn lemma_index_of<A>(s: Seq<A>, x: A)
    requires
        s.contains(x),
    ensures
        0 <= s.index_of(x) < s.len(),
        s[s.index_of(x)] == x,
{
    let i = choose|i: int| 0 <= i < s.len() && s[i] == x;
    assert(0 <= i < s.len() && s[i] == x);
}

/// Taking one item out of a sequence without repeats leaves the others, in
/// order and without repeats, and the item is gone.
pub proof fn lemma_remove_no_duplicates<A>(s: Seq<A>, i: int)
    requires
        s.no_duplicates(),
        0 <= i < s.len(),
    ensures
        s.remove(i).no_duplicates(),
        !s.remove(i).contains(s[i]),
        forall|x: A| x != s[i] ==> (s.remove(i).contains(x) <==> s.contains(x)),
        forall|x: A| s.remove(i).contains(x) ==> s.contains(x),
{
    let r = s.remove(i);
    assert forall|a: int, b: int| 0 <= a < r.len() && 0 <= b < r.len() && a != b implies r[a]
        != r[b] by {
        let a2 = if a < i {
            a
        } else {
            a + 1
        };
        let b2 = if b < i {
            b
        } else {
            b + 1
        };
        assert(r[a] == s[a2] && r[b] == s[b2]);
    }
    assert forall|x: A| r.contains(x) implies s.contains(x) && x != s[i] by {
        let a = choose|a: int| 0 <= a < r.len() && r[a] == x;
        let a2 = if a < i {
            a
        } else {
            a + 1
        };
        assert(r[a] == s[a2]);
    }
    assert forall|x: A| x != s[i] && s.contains(x) implies r.contains(x) by {
        let a = choose|a: int| 0 <= a < s.len() && s[a] == x;
        let a2 = if a < i {
            a
        } else {
            a - 1
        };
        assert(r[a2] == s[a]);
    }
}

/// Putting a new item into a sequence without repeats keeps it without
/// repeats, and adds just that item.
pub proof fn lemma_insert_no_duplicates<A>(s: Seq<A>, i: int, x: A)
    requires
        s.no_duplicates(),
        !s.contains(x),
        0 <= i <= s.len(),
    ensures
        s.insert(i, x).no_duplicates(),
        s.insert(i, x).contains(x),
        s.insert(i, x).index_of(x) == i,
        forall|y: A| s.insert(i, x).contains(y) <==> (y == x || s.contains(y)),
{
    let r = s.insert(i, x);
    assert(r[i] == x);
    assert forall|a: int, b: int| 0 <= a < r.len() && 0 <= b < r.len() && a != b implies r[a]
        != r[b] by {
        if a != i {
            let a2 = if a < i {
                a
            } else {
                a - 1
            };
            assert(r[a] == s[a2]);
            assert(s.contains(r[a]));
        }
        if b != i {
            let b2 = if b < i {
                b
            } else {
                b - 1
            };
            assert(r[b] == s[b2]);
            assert(s.contains(r[b]));
        }
    }
    assert forall|y: A| r.contains(y) implies y == x || s.contains(y) by {
        let a = choose|a: int| 0 <= a < r.len() && r[a] == y;
        if a != i {
            let a2 = if a < i {
                a
            } else {
                a - 1
            };
            assert(r[a] == s[a2]);
        }
    }
    assert forall|y: A| s.contains(y) implies r.contains(y) by {
        let a = choose|a: int| 0 <= a < s.len() && s[a] == y;
        let a2 = if a < i {
            a
        } else {
            a + 1
        };
        assert(r[a2] == s[a]);
    }
    lemma_index_of_unique(r, i);
}

/// The first place of a value is the place before which it does not occur.
pub proof fn lemma_first_index<A>(s: Seq<A>, x: A, i: int)
    requires
        0 <= i < s.len(),
        s[i] == x,
        forall|j: int| 0 <= j < i ==> s[j] != x,
    ensures
        s.index_of_first(x) == Some(i),
{
    s.index_of_first_ensures(x);
    assert(s.contains(x));
}

/// A value that occurs nowhere has no first place.
pub proof fn lemma_no_first_index<A>(s: Seq<A>, x: A)
    requires
        forall|j: int| 0 <= j < s.len() ==> s[j] != x,
    ensures
        s.index_of_first(x) is None,
        !s.contains(x),
{
    s.index_of_first_ensures(x);
}

/// What the first place of a value says about the sequence.
pub proof fn lemma_first_index_found<A>(s: Seq<A>, x: A)
    ensures
        match s.index_of_first(x) {
            Some(i) => 0 <= i < s.len() && s[i] == x && s.contains(x) && forall|j: int|
                0 <= j < i ==> s[j] != x,
            None => !s.contains(x) && forall|j: int| 0 <= j < s.len() ==> s[j] != x,
        },
{
    s.index_of_first_ensures(x);
}

/// Where a value first stands in a vector, if it stands in it.
pub(crate) fn position(v: &Vec<usize>, x: usize) -> (res: Option<usize>)
    ensures
        match res {
            Some(i) => i < v.len() && v[i as int] == x && forall|j: int| 0 <= j < i ==> v[j] != x,
            None => !v@.contains(x),
        },
{
    let mut i: usize = 0;
    while i < v.len()
        invariant
            i <= v.len(),
            forall|j: int| 0 <= j < i ==> v[j] != x,
        decreases v.len() - i,
    {
        if v[i] == x {
            return Some(i);
        }
        i += 1;
    }
    None
}

} // verus!
