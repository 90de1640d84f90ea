//! Association lists keyed by text: pairs with distinct names, read as a map.
use vstd::prelude::*;

verus! {

/// The map that a list of (name, value) pairs describes; a later pair
/// overrides an earlier one of the same name.
pub open spec fn pairs_map<V>(s: Seq<(Seq<char>, V)>) -> Map<Seq<char>, V>
    decreases s.len(),
{
    if s.len() == 0 {
        Map::empty()
    } else {
        pairs_map(s.drop_last()).insert(s.last().0, s.last().1)
    }
}

/// No name occurs twice.
pub open spec fn names_distinct<V>(s: Seq<(Seq<char>, V)>) -> bool {
    forall|i: int, j: int| 0 <= i < s.len() && 0 <= j < s.len() && i != j ==> #[trigger] s[i].0 != #[trigger] s[j].0
}

pub proof fn lemma_pairs_map<V>(s: Seq<(Seq<char>, V)>)
    requires
        names_distinct(s),
    ensures
        forall|n: Seq<char>| #[trigger] pairs_map(s).contains_key(n) <==> exists|i: int| 0 <= i < s.len() && s[i].0 == n,
        forall|i: int| 0 <= i < s.len() ==> #[trigger] pairs_map(s)[s[i].0] == s[i].1,
    decreases s.len(),
{
    if s.len() > 0 {
        let p = s.drop_last();
        let last = s.last();
        assert(names_distinct(p));
        lemma_pairs_map(p);
        assert(pairs_map(s) == pairs_map(p).insert(last.0, last.1));
        assert forall|n: Seq<char>| #[trigger] pairs_map(s).contains_key(n) <==> exists|i: int| 0 <= i < s.len() && s[i].0 == n by {
            if pairs_map(s).contains_key(n) {
                if n == last.0 {
                    assert(s[s.len() - 1].0 == n);
                } else {
                    assert(pairs_map(p).contains_key(n));
                    let i = choose|i: int| 0 <= i < p.len() && p[i].0 == n;
                    assert(s[i] == p[i]);
                }
            }
            if exists|i: int| 0 <= i < s.len() && s[i].0 == n {
                let i = choose|i: int| 0 <= i < s.len() && s[i].0 == n;
                if i < s.len() - 1 {
                    assert(p[i] == s[i]);
                    assert(pairs_map(p).contains_key(n));
                }
            }
        }
        assert forall|i: int| 0 <= i < s.len() implies #[trigger] pairs_map(s)[s[i].0] == s[i].1 by {
            if i < s.len() - 1 {
                assert(p[i] == s[i]);
                assert(s[i].0 != s[s.len() - 1].0);
                assert(pairs_map(p)[p[i].0] == p[i].1);
            }
        }
    }
}

/// Replacing the value of a name that has one.
pub proof fn lemma_pairs_update<V>(s: Seq<(Seq<char>, V)>, i: int, on: V)
    requires
        names_distinct(s),
        0 <= i < s.len(),
    ensures
        names_distinct(s.update(i, (s[i].0, on))),
        pairs_map(s.update(i, (s[i].0, on))) == pairs_map(s).insert(s[i].0, on),
{
    let t = s.update(i, (s[i].0, on));
    assert forall|a: int, b: int| 0 <= a < t.len() && 0 <= b < t.len() && a != b implies #[trigger] t[a].0 != #[trigger] t[b].0 by {
        assert(t[a].0 == s[a].0 && t[b].0 == s[b].0);
    }
    lemma_pairs_map(s);
    lemma_pairs_map(t);
    let m = pairs_map(s).insert(s[i].0, on);
    assert forall|n: Seq<char>| #[trigger] pairs_map(t).contains_key(n) <==> m.contains_key(n) by {
        if pairs_map(t).contains_key(n) {
            let k = choose|k: int| 0 <= k < t.len() && t[k].0 == n;
            assert(s[k].0 == n);
        }
        if m.contains_key(n) && n != s[i].0 {
            let k = choose|k: int| 0 <= k < s.len() && s[k].0 == n;
            assert(t[k].0 == n);
        }
        if n == s[i].0 {
            assert(t[i].0 == n);
        }
    }
    assert forall|n: Seq<char>| #[trigger] pairs_map(t).contains_key(n) implies pairs_map(t)[n] == m[n] by {
        let k = choose|k: int| 0 <= k < t.len() && t[k].0 == n;
        assert(pairs_map(t)[t[k].0] == t[k].1);
        if k != i {
            assert(pairs_map(s)[s[k].0] == s[k].1);
        }
    }
    assert(pairs_map(t) =~= m);
}

/// Adding a name that has no value yet.
pub proof fn lemma_pairs_push<V>(s: Seq<(Seq<char>, V)>, n: Seq<char>, on: V)
    requires
        names_distinct(s),
        forall|k: int| 0 <= k < s.len() ==> s[k].0 != n,
    ensures
        names_distinct(s.push((n, on))),
        pairs_map(s.push((n, on))) == pairs_map(s).insert(n, on),
{
    let t = s.push((n, on));
    assert(t.drop_last() =~= s);
    assert forall|a: int, b: int| 0 <= a < t.len() && 0 <= b < t.len() && a != b implies #[trigger] t[a].0 != #[trigger] t[b].0 by {
        if a < s.len() {
            assert(t[a] == s[a]);
        }
        if b < s.len() {
            assert(t[b] == s[b]);
        }
    }
}

/// The position of the pair named `name`, if there is one.
pub fn find_name<V>(pairs: &Vec<(String, V)>, name: &String) -> (r: Option<usize>)
    ensures
        match r {
            Some(i) => i < pairs@.len() && pairs@[i as int].0@ == name@,
            None => forall|i: int| 0 <= i < pairs@.len() ==> pairs@[i].0@ != name@,
        },
{
    let mut i: usize = 0;
    while i < pairs.len()
        invariant
            i <= pairs@.len(),
            forall|k: int| 0 <= k < i ==> pairs@[k].0@ != name@,
        decreases pairs@.len() - i,
    {
        if pairs[i].0 == *name {
            return Some(i);
        }
        i = i + 1;
    }
    None
}

} // verus!
