//! Lists of tiles used as sets: each tile at most once, order without meaning.
use vstd::prelude::*;

verus! {

/// A one-element sequence holds exactly its element.
pub proof fn lemma_single_to_set<A>(a: A)
    ensures
        seq![a].to_set() == set![a],
{
    assert forall|x: A| seq![a].to_set().contains(x) <==> set![a].contains(x) by {
        if x == a {
            assert(seq![a][0] == a);
        }
    }
    assert(seq![a].to_set() =~= set![a]);
}

/// Putting an element in front of a sequence adds it to the sequence's set.
pub proof fn lemma_prepend_to_set<A>(a: A, s: Seq<A>)
    ensures
        (seq![a] + s).to_set() == s.to_set().insert(a),
{
    let t = seq![a] + s;
    assert forall|x: A| t.to_set().contains(x) <==> s.to_set().insert(a).contains(x) by {
        if x == a {
            assert(t[0] == a);
        } else if s.contains(x) {
            let i = choose|i: int| 0 <= i < s.len() && s[i] == x;
            assert(t[i + 1] == x);
        } else if t.contains(x) {
            let i = choose|i: int| 0 <= i < t.len() && t[i] == x;
            assert(s[i - 1] == x);
        }
    }
    assert(t.to_set() =~= s.to_set().insert(a));
}

/// Appending an element to a sequence adds it to the sequence's set.
pub proof fn lemma_push_to_set<A>(s: Seq<A>, a: A)
    ensures
        s.push(a).to_set() == s.to_set().insert(a),
{
    let t = s.push(a);
    assert forall|x: A| t.to_set().contains(x) <==> s.to_set().insert(a).contains(x) by {
        if x == a {
            assert(t[s.len() as int] == a);
        } else if s.contains(x) {
            let i = choose|i: int| 0 <= i < s.len() && s[i] == x;
            assert(t[i] == x);
        } else if t.contains(x) {
            let i = choose|i: int| 0 <= i < t.len() && t[i] == x;
            assert(s[i] == x);
        }
    }
    assert(t.to_set() =~= s.to_set().insert(a));
}

/// Adds tile `t` to the list unless it is already there (a set insertion).
pub fn insert_tile(v: &mut Vec<(u8, u8)>, t: (u8, u8)) -> (added: bool)
    requires
        old(v)@.no_duplicates(),
    ensures
        final(v)@.no_duplicates(),
        final(v)@.to_set() == old(v)@.to_set().insert(t),
        added == !old(v)@.contains(t),
        final(v)@ == (if added {
            old(v)@.push(t)
        } else {
            old(v)@
        }),
{
    let mut i: usize = 0;
    while i < v.len()
        invariant
            i <= v.len(),
            v@ == old(v)@,
            v@.no_duplicates(),
            forall|j: int| 0 <= j < i ==> v@[j] != t,
        decreases v.len() - i,
    {
        let (r, c) = v[i];
        if r == t.0 && c == t.1 {
            assert(v@[i as int] == t);
            assert(v@.to_set() =~= v@.to_set().insert(t));
            return false;
        }
        i = i + 1;
    }
    proof {
        lemma_push_to_set(v@, t);
    }
    v.push(t);
    true
}

/// Whether the list holds tile `t`.
pub fn contains_tile(v: &Vec<(u8, u8)>, t: (u8, u8)) -> (b: bool)
    ensures
        b == v@.contains(t),
{
    let mut i: usize = 0;
    while i < v.len()
        invariant
            i <= v.len(),
            forall|j: int| 0 <= j < i ==> v@[j] != t,
        decreases v.len() - i,
    {
        let (r, c) = v[i];
        if r == t.0 && c == t.1 {
            assert(v@[i as int] == t);
            return true;
        }
        i = i + 1;
    }
    false
}

} // verus!
