use vstd::prelude::*;
use crate::board::Pos;

verus! {

/// Whether `v` holds the cell `(x, y)`.
pub fn holds(v: &Vec<Pos>, x: usize, y: usize) -> (found: bool)
    ensures
        found == v@.contains((x, y)),
{
    let mut i: usize = 0;
    while i < v.len()
        invariant
            i <= v.len(),
            forall|j: int| 0 <= j < i ==> v@[j] != (x, y),
        decreases v.len() - i,
    {
        if v[i].0 == x && v[i].1 == y {
            return true;
        }
        i += 1;
    }
    false
}

/// Adds the cell `(x, y)` to `v` unless `v` holds it already.
pub fn insert_cell(v: &mut Vec<Pos>, x: usize, y: usize)
    requires
        old(v)@.no_duplicates(),
    ensures
        final(v)@.no_duplicates(),
        final(v)@.to_set() == old(v)@.to_set().insert((x, y)),
        final(v)@ == (if old(v)@.contains((x, y)) {
            old(v)@
        } else {
            old(v)@.push((x, y))
        }),
{
    if !holds(v, x, y) {
        v.push((x, y));
        proof {
            let s = old(v)@;
            assert(v@.to_set() =~= s.to_set().insert((x, y))) by {
                assert forall|p: Pos| s.to_set().insert((x, y)).contains(p) implies v@.contains(
                    p,
                ) by {
                    if p == (x, y) {
                        assert(v@[s.len() as int] == p);
                    } else {
                        let i = choose|i: int| 0 <= i < s.len() && s[i] == p;
                        assert(v@[i] == p);
                    }
                }
            }
        }
    } else {
        assert(v@.to_set() =~= v@.to_set().insert((x, y)));
    }
}

/// Takes the cell `(x, y)` out of `v`.
pub fn remove_cell(v: &mut Vec<Pos>, x: usize, y: usize)
    requires
        old(v)@.no_duplicates(),
    ensures
        final(v)@.no_duplicates(),
        final(v)@.to_set() == old(v)@.to_set().remove((x, y)),
        final(v)@ == (if old(v)@.contains((x, y)) {
            old(v)@.remove(old(v)@.index_of((x, y)))
        } else {
            old(v)@
        }),
{
    let mut i: usize = 0;
    while i < v.len()
        invariant
            i <= v.len(),
            v@ == old(v)@,
            v@.no_duplicates(),
            forall|j: int| 0 <= j < i ==> v@[j] != (x, y),
        decreases v.len() - i,
    {
        if v[i].0 == x && v[i].1 == y {
            v.remove(i);
            proof {
                lemma_remove_one(old(v)@, i as int);
                assert(old(v)@[i as int] == (x, y));
                assert(old(v)@.index_of((x, y)) == i);
            }
            return ;
        }
        i += 1;
    }
    assert(v@.to_set() =~= v@.to_set().remove((x, y)));
}

/// In a sequence without duplicates, taking out the entry at `i` takes its
/// value out of the set of entries.
proof fn lemma_remove_one(s: Seq<Pos>, i: int)
    requires
        s.no_duplicates(),
        0 <= i < s.len(),
    ensures
        s.remove(i).no_duplicates(),
        s.remove(i).to_set() == s.to_set().remove(s[i]),
{
    let c = s[i];
    let r = s.remove(i);
    assert(r.to_set() =~= s.to_set().remove(c)) by {
        assert forall|p: Pos| r.contains(p) implies s.to_set().remove(c).contains(p) by {
            let j = choose|j: int| 0 <= j < r.len() && r[j] == p;
            if j < i {
                assert(s[j] == p);
            } else {
                assert(s[j + 1] == p);
            }
        }
        assert forall|p: Pos| s.to_set().remove(c).contains(p) implies r.contains(p) by {
            let j = choose|j: int| 0 <= j < s.len() && s[j] == p;
            if j < i {
                assert(r[j] == p);
            } else {
                assert(r[j - 1] == p);
            }
        }
    }
}

} // verus!
