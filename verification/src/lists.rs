//! Lists used as sets: membership, removal, and the lemmas that keep them
//! free of repetitions.

use vstd::prelude::*;
use crate::grid::distinct;

verus! {

/// The list `s` without every occurrence of `v`, the rest in order.
pub open spec fn without<T>(s: Seq<T>, v: T) -> Seq<T>
    decreases s.len(),
{
    if s.len() == 0 {
        s
    } else if s.last() == v {
        without(s.drop_last(), v)
    } else {
        without(s.drop_last(), v).push(s.last())
    }
}

/// Removing a value leaves exactly the other values, in their order, and
/// keeps a list free of repetitions so.
pub proof fn lemma_without<T>(s: Seq<T>, v: T)
    ensures
        !without(s, v).contains(v),
        forall|x: T| x != v ==> (without(s, v).contains(x) <==> s.contains(x)),
        without(s, v).len() <= s.len(),
        distinct(s) ==> distinct(without(s, v)),
        !s.contains(v) ==> without(s, v) == s,
    decreases s.len(),
{
    if s.len() == 0 {
    } else {
        let head = s.drop_last();
        let r = without(head, v);
        lemma_without(head, v);
        assert(s =~= head.push(s.last()));
        assert forall|x: T| x != v implies (without(s, v).contains(x) <==> s.contains(x)) by {
            if s.contains(x) {
                let i = choose|i: int| 0 <= i < s.len() && s[i] == x;
                if i < head.len() {
                    assert(head[i] == x);
                    assert(head.contains(x));
                    assert(r.contains(x));
                    let k = choose|k: int| 0 <= k < r.len() && r[k] == x;
                    if s.last() != v {
                        assert(r.push(s.last())[k] == x);
                    }
                } else {
                    assert(s.last() == x);
                    assert(r.push(s.last())[r.len() as int] == x);
                }
            }
            if without(s, v).contains(x) {
                let k = choose|k: int| 0 <= k < without(s, v).len() && without(s, v)[k] == x;
                if s.last() != v && k == r.len() {
                    assert(s[s.len() - 1] == x);
                } else {
                    assert(r[k] == x);
                    assert(r.contains(x));
                    assert(head.contains(x));
                    let i = choose|i: int| 0 <= i < head.len() && head[i] == x;
                    assert(s[i] == x);
                }
            }
        }
        if s.last() != v {
            let out = r.push(s.last());
            assert(!out.contains(v)) by {
                if out.contains(v) {
                    let k = choose|k: int| 0 <= k < out.len() && out[k] == v;
                    assert(r[k] == v);
                    assert(r.contains(v));
                }
            }
            if distinct(s) {
                assert(distinct(head));
                assert(!head.contains(s.last())) by {
                    if head.contains(s.last()) {
                        let i = choose|i: int| 0 <= i < head.len() && head[i] == s.last();
                        assert(s[i] == s[s.len() - 1]);
                    }
                }
                assert(!r.contains(s.last()));
                assert(distinct(out)) by {
                    assert forall|i: int, j: int| 0 <= i < j < out.len() implies out[i]
                        != out[j] by {
                        if j == r.len() {
                            assert(r[i] == out[i]);
                            assert(r.contains(r[i]));
                        } else {
                            assert(r[i] == out[i] && r[j] == out[j]);
                        }
                    }
                }
            }
            if !s.contains(v) {
                assert(!head.contains(v)) by {
                    if head.contains(v) {
                        let i = choose|i: int| 0 <= i < head.len() && head[i] == v;
                        assert(s[i] == v);
                    }
                }
                assert(out =~= s);
            }
        } else {
            if distinct(s) {
                assert(distinct(head));
            }
            assert(s.contains(v)) by {
                assert(s[s.len() - 1] == v);
            }
        }
    }
}

/// Appending a value that a list free of repetitions does not hold keeps it
/// free of repetitions.
pub proof fn lemma_push_distinct<T>(s: Seq<T>, v: T)
    requires
        distinct(s),
        !s.contains(v),
    ensures
        distinct(s.push(v)),
{
    let out = s.push(v);
    assert forall|i: int, j: int| 0 <= i < j < out.len() implies out[i] != out[j] by {
        if j == s.len() {
            assert(s[i] == out[i]);
            assert(s.contains(s[i]));
        }
    }
}

/// Whether `v` occurs in `list`.
pub fn contains_id(list: &Vec<u32>, v: u32) -> (b: bool)
    ensures
        b == list@.contains(v),
{
    let mut i: usize = 0;
    while i < list.len()
        invariant
            0 <= i <= list@.len(),
            forall|k: int| 0 <= k < i ==> list@[k] != v,
        decreases list@.len() - i,
    {
        if list[i] == v {
            return true;
        }
        i = i + 1;
    }
    false
}

/// Removes every occurrence of `v` from `list`.
pub fn remove_id(list: &mut Vec<u32>, v: u32)
    ensures
        final(list)@ == without(old(list)@, v),
{
    let mut kept: Vec<u32> = Vec::new();
    let mut i: usize = 0;
    while i < list.len()
        invariant
            0 <= i <= list@.len(),
            list@ == old(list)@,
            kept@ == without(list@.take(i as int), v),
        decreases list@.len() - i,
    {
        assert(list@.take(i + 1).drop_last() =~= list@.take(i as int));
        if list[i] != v {
            kept.push(list[i]);
        }
        i = i + 1;
    }
    assert(list@.take(list@.len() as int) =~= list@);
    *list = kept;
}

/// Whether the cell `v` occurs in `list`.
pub fn contains_cell(list: &Vec<(u32, u32)>, v: (u32, u32)) -> (b: bool)
    ensures
        b == list@.contains(v),
{
    let mut i: usize = 0;
    while i < list.len()
        invariant
            0 <= i <= list@.len(),
            forall|k: int| 0 <= k < i ==> list@[k] != v,
        decreases list@.len() - i,
    {
        if list[i].0 == v.0 && list[i].1 == v.1 {
            return true;
        }
        i = i + 1;
    }
    false
}

/// Removes every occurrence of the cell `v` from `list`.
pub fn remove_cell(list: &mut Vec<(u32, u32)>, v: (u32, u32))
    ensures
        final(list)@ == without(old(list)@, v),
{
    let mut kept: Vec<(u32, u32)> = Vec::new();
    let mut i: usize = 0;
    while i < list.len()
        invariant
            0 <= i <= list@.len(),
            list@ == old(list)@,
            kept@ == without(list@.take(i as int), v),
        decreases list@.len() - i,
    {
        assert(list@.take(i + 1).drop_last() =~= list@.take(i as int));
        if !(list[i].0 == v.0 && list[i].1 == v.1) {
            kept.push(list[i]);
        }
        i = i + 1;
    }
    assert(list@.take(list@.len() as int) =~= list@);
    *list = kept;
}

} // verus!
