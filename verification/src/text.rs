//! Character-level text operations: the splitting and searching that the
//! log format is built on, specified over `Seq<char>`.
use vstd::prelude::*;

verus! {

broadcast use vstd::string::group_string_axioms;

/// Appends one character to a string.
///
/// Calls `String::push`, which its documentation describes as appending the
/// given `char` to the end of the string; the contract says exactly that.
#[verifier::external_body]
fn push_char(s: &mut String, c: char)
    ensures
        final(s)@ == old(s)@.push(c),
{
    s.push(c);
}

/// The characters of a string, in order.
pub fn chars_of(s: &str) -> (v: Vec<char>)
    ensures
        v@ == s@,
{
    let mut v: Vec<char> = Vec::new();
    for c in it: s.chars()
        invariant
            v@ == it.seq().take(it.index()),
            it.seq() == s@,
    {
        v.push(c);
    }
    v
}


/// The characters of `v` from `lo` up to `hi`, as a string.
pub fn string_of(v: &Vec<char>, lo: usize, hi: usize) -> (s: String)
    requires
        lo <= hi <= v@.len(),
    ensures
        s@ == v@.subrange(lo as int, hi as int),
{
    let mut s = String::new();
    let mut i = lo;
    while i < hi
        invariant
            lo <= i <= hi <= v@.len(),
            s@ == v@.subrange(lo as int, i as int),
        decreases hi - i,
    {
        push_char(&mut s, v[i]);
        i = i + 1;
        assert(s@ =~= v@.subrange(lo as int, i as int));
    }
    s
}

/// The characters of `v` from `lo` up to `hi`.
pub fn slice_chars(v: &Vec<char>, lo: usize, hi: usize) -> (r: Vec<char>)
    requires
        lo <= hi <= v@.len(),
    ensures
        r@ == v@.subrange(lo as int, hi as int),
{
    let mut r: Vec<char> = Vec::new();
    let mut i = lo;
    while i < hi
        invariant
            lo <= i <= hi <= v@.len(),
            r@ == v@.subrange(lo as int, i as int),
        decreases hi - i,
    {
        r.push(v[i]);
        i = i + 1;
        assert(r@ =~= v@.subrange(lo as int, i as int));
    }
    r
}

/// Whether two character sequences are equal.
pub fn chars_eq(a: &Vec<char>, b: &Vec<char>) -> (r: bool)
    ensures
        r == (a@ == b@),
{
    if a.len() != b.len() {
        return false;
    }
    let mut i: usize = 0;
    while i < a.len()
        invariant
            a@.len() == b@.len(),
            i <= a@.len(),
            forall|j: int| 0 <= j < i ==> a@[j] == b@[j],
        decreases a@.len() - i,
    {
        if a[i] != b[i] {
            return false;
        }
        i = i + 1;
    }
    assert(a@ =~= b@);
    true
}

/// The pieces of `s` between the occurrences of the separator `c`, as
/// `str::split` with a `char` pattern yields them: `n` separators give
/// `n + 1` pieces, empty ones included.
pub open spec fn split_on(s: Seq<char>, c: char) -> Seq<Seq<char>>
    decreases s.len(),
{
    if s.len() == 0 {
        seq![Seq::<char>::empty()]
    } else {
        let prev = split_on(s.drop_last(), c);
        if s.last() == c {
            prev.push(Seq::<char>::empty())
        } else {
            prev.update(prev.len() - 1, prev.last().push(s.last()))
        }
    }
}

pub proof fn lemma_split_on_nonempty(s: Seq<char>, c: char)
    ensures
        split_on(s, c).len() >= 1,
    decreases s.len(),
{
    if s.len() > 0 {
        lemma_split_on_nonempty(s.drop_last(), c);
    }
}

/// Splits `v` at every occurrence of `c`.
pub fn split_chars(v: &Vec<char>, c: char) -> (pieces: Vec<Vec<char>>)
    ensures
        pieces@.len() == split_on(v@, c).len(),
        forall|i: int| 0 <= i < pieces@.len() ==> #[trigger] pieces@[i]@ == split_on(v@, c)[i],
{
    let mut pieces: Vec<Vec<char>> = Vec::new();
    let mut cur: Vec<char> = Vec::new();
    let mut i: usize = 0;
    while i < v.len()
        invariant
            i <= v@.len(),
            pieces@.len() + 1 == split_on(v@.take(i as int), c).len(),
            forall|k: int| 0 <= k < pieces@.len() ==> #[trigger] pieces@[k]@ == split_on(v@.take(i as int), c)[k],
            cur@ == split_on(v@.take(i as int), c).last(),
        decreases v@.len() - i,
    {
        proof {
            lemma_split_on_nonempty(v@.take(i as int), c);
            assert(v@.take(i + 1).drop_last() =~= v@.take(i as int));
        }
        if v[i] == c {
            pieces.push(cur);
            cur = Vec::new();
        } else {
            cur.push(v[i]);
        }
        i = i + 1;
    }
    assert(v@.take(v@.len() as int) =~= v@);
    pieces.push(cur);
    pieces
}

/// `p` occurs in `s` starting at index `i`.
pub open spec fn occurs_at(s: Seq<char>, p: Seq<char>, i: int) -> bool {
    0 <= i && i + p.len() <= s.len() && s.subrange(i, i + p.len()) == p
}

/// `i` is the leftmost index at which `p` occurs in `s`.
pub open spec fn is_first_match(s: Seq<char>, p: Seq<char>, i: int) -> bool {
    &&& occurs_at(s, p, i)
    &&& forall|j: int| 0 <= j < i ==> !occurs_at(s, p, j)
}

/// The leftmost index at which `p` occurs in `s`, if it occurs at all.
pub open spec fn first_match(s: Seq<char>, p: Seq<char>) -> Option<int> {
    if exists|i: int| is_first_match(s, p, i) {
        Some(choose|i: int| is_first_match(s, p, i))
    } else {
        None
    }
}

pub proof fn lemma_first_match_unique(s: Seq<char>, p: Seq<char>, i: int, j: int)
    requires
        is_first_match(s, p, i),
        is_first_match(s, p, j),
    ensures
        i == j,
{
}

pub proof fn lemma_first_match_is(s: Seq<char>, p: Seq<char>, i: int)
    requires
        is_first_match(s, p, i),
    ensures
        first_match(s, p) == Some(i),
{
    let k = choose|k: int| is_first_match(s, p, k);
    lemma_first_match_unique(s, p, i, k);
}

pub proof fn lemma_first_match_none(s: Seq<char>, p: Seq<char>)
    requires
        forall|j: int| !occurs_at(s, p, j),
    ensures
        first_match(s, p) is None,
{
}

/// What `str::split_once` gives: the text before and after the leftmost
/// occurrence of `p`, or nothing where `p` does not occur.
pub open spec fn split_once(s: Seq<char>, p: Seq<char>) -> Option<(Seq<char>, Seq<char>)> {
    match first_match(s, p) {
        Some(i) => Some((s.subrange(0, i), s.subrange(i + p.len(), s.len() as int))),
        None => None,
    }
}

/// Whether `p` occurs in `v` at index `i`.
pub fn matches_at(v: &Vec<char>, p: &Vec<char>, i: usize) -> (r: bool)
    requires
        i <= v@.len(),
    ensures
        r == occurs_at(v@, p@, i as int),
{
    if p.len() > v.len() - i {
        return false;
    }
    let mut k: usize = 0;
    while k < p.len()
        invariant
            i + p@.len() <= v@.len() <= usize::MAX,
            k <= p@.len(),
            forall|j: int| 0 <= j < k ==> v@[i + j] == p@[j],
        decreases p@.len() - k,
    {
        if v[i + k] != p[k] {
            assert(v@.subrange(i as int, i + p@.len())[k as int] != p@[k as int]);
            return false;
        }
        k = k + 1;
    }
    assert(v@.subrange(i as int, i + p@.len()) =~= p@);
    true
}

/// The leftmost index at which `p` occurs in `v`.
pub fn find_first(v: &Vec<char>, p: &Vec<char>) -> (r: Option<usize>)
    ensures
        r == (match first_match(v@, p@) {
            Some(i) => Some(i as usize),
            None => None::<usize>,
        }),
        r matches Some(i) ==> is_first_match(v@, p@, i as int),
{
    let mut i: usize = 0;
    while i < v.len()
        invariant
            i <= v@.len(),
            forall|j: int| 0 <= j < i ==> !occurs_at(v@, p@, j),
        decreases v@.len() - i,
    {
        if matches_at(v, p, i) {
            proof {
                lemma_first_match_is(v@, p@, i as int);
            }
            return Some(i);
        }
        i = i + 1;
    }
    if matches_at(v, p, i) {
        proof {
            lemma_first_match_is(v@, p@, i as int);
        }
        return Some(i);
    }
    proof {
        assert forall|j: int| !occurs_at(v@, p@, j) by {
            if 0 <= j && j > i {
                assert(j + p@.len() > v@.len());
            }
        }
        lemma_first_match_none(v@, p@);
    }
    None
}

/// `str::split_once`: the pieces of `v` before and after the leftmost
/// occurrence of `p`.
pub fn split_once_chars(v: &Vec<char>, p: &Vec<char>) -> (r: Option<(Vec<char>, Vec<char>)>)
    ensures
        match split_once(v@, p@) {
            Some((a, b)) => r matches Some((x, y)) && x@ == a && y@ == b,
            None => r is None,
        },
{
    match find_first(v, p) {
        Some(i) => {
            assert(occurs_at(v@, p@, i as int));
            assert(i + p@.len() <= v.len());
            let a = slice_chars(v, 0, i);
            let b = slice_chars(v, i + p.len(), v.len());
            Some((a, b))
        },
        None => None,
    }
}

/// `s` with its first occurrence of `c` taken out, as `replacen(c, "", 1)`
/// gives it.
pub open spec fn remove_first(s: Seq<char>, c: char) -> Seq<char> {
    match first_match(s, seq![c]) {
        Some(i) => s.subrange(0, i) + s.subrange(i + 1, s.len() as int),
        None => s,
    }
}

/// Takes the first occurrence of `c` out of `v`.
pub fn remove_first_chars(v: &Vec<char>, c: char) -> (r: Vec<char>)
    ensures
        r@ == remove_first(v@, c),
{
    let p = vec![c];
    assert(p@ =~= seq![c]);
    match find_first(v, &p) {
        Some(i) => {
            assert(occurs_at(v@, p@, i as int));
            assert(i + 1 <= v.len());
            let mut r = slice_chars(v, 0, i);
            let mut k = i + 1;
            while k < v.len()
                invariant
                    i < k <= v@.len(),
                    occurs_at(v@, p@, i as int),
                    r@ == v@.subrange(0, i as int) + v@.subrange(i + 1, k as int),
                decreases v@.len() - k,
            {
                r.push(v[k]);
                k = k + 1;
                assert(r@ =~= v@.subrange(0, i as int) + v@.subrange(i + 1, k as int));
            }
            r
        },
        None => {
            let mut r: Vec<char> = Vec::new();
            let mut k: usize = 0;
            while k < v.len()
                invariant
                    k <= v@.len(),
                    r@ == v@.subrange(0, k as int),
                decreases v@.len() - k,
            {
                r.push(v[k]);
                k = k + 1;
                assert(r@ =~= v@.subrange(0, k as int));
            }
            assert(v@.subrange(0, v@.len() as int) =~= v@);
            r
        },
    }
}

/// Splitting text joined at a separator gives the pieces of each side.
pub proof fn lemma_split_on_append(a: Seq<char>, b: Seq<char>, c: char)
    ensures
        split_on(a + seq![c] + b, c) == split_on(a, c) + split_on(b, c),
    decreases b.len(),
{
    let s = a + seq![c] + b;
    if b.len() == 0 {
        assert(s =~= a.push(c));
        assert(s.drop_last() =~= a);
        assert(split_on(b, c) =~= seq![Seq::<char>::empty()]);
        assert(split_on(s, c) =~= split_on(a, c) + split_on(b, c));
    } else {
        let b1 = b.drop_last();
        let x = b.last();
        lemma_split_on_append(a, b1, c);
        lemma_split_on_nonempty(b1, c);
        lemma_split_on_nonempty(a, c);
        assert(s.drop_last() =~= a + seq![c] + b1);
        assert(s.last() == x);
        let l = split_on(a, c);
        let r = split_on(b1, c);
        if x == c {
            assert(split_on(s, c) =~= (l + r).push(Seq::<char>::empty()));
            assert(split_on(b, c) =~= r.push(Seq::<char>::empty()));
            assert((l + r).push(Seq::<char>::empty()) =~= l + r.push(Seq::<char>::empty()));
        } else {
            assert((l + r).last() == r.last());
            assert(split_on(s, c) =~= (l + r).update((l + r).len() - 1, r.last().push(x)));
            assert(split_on(b, c) =~= r.update(r.len() - 1, r.last().push(x)));
            assert((l + r).update((l + r).len() - 1, r.last().push(x)) =~= l + r.update(r.len() - 1, r.last().push(x)));
        }
    }
}

/// Text without the separator is one piece.
pub proof fn lemma_split_on_single(t: Seq<char>, c: char)
    requires
        !t.contains(c),
    ensures
        split_on(t, c) == seq![t],
    decreases t.len(),
{
    if t.len() > 0 {
        let t1 = t.drop_last();
        assert(!t1.contains(c)) by {
            if t1.contains(c) {
                let i = choose|i: int| 0 <= i < t1.len() && t1[i] == c;
                assert(t[i] == c);
            }
        }
        lemma_split_on_single(t1, c);
        assert(t.last() != c) by {
            assert(t[t.len() - 1] == t.last());
        }
        assert(t1.push(t.last()) =~= t);
        assert(split_on(t, c) =~= seq![t]);
    } else {
        assert(t =~= Seq::<char>::empty());
    }
}

/// The pieces `ts` written one after the other with `c` between each two.
pub open spec fn join_on(ts: Seq<Seq<char>>, c: char) -> Seq<char>
    decreases ts.len(),
{
    if ts.len() <= 1 {
        if ts.len() == 1 {
            ts[0]
        } else {
            Seq::empty()
        }
    } else {
        join_on(ts.drop_last(), c) + seq![c] + ts.last()
    }
}

/// Splitting pieces joined at a separator that none of them contains gives
/// the pieces back.
pub proof fn lemma_split_join(ts: Seq<Seq<char>>, c: char)
    requires
        ts.len() >= 1,
        forall|i: int| 0 <= i < ts.len() ==> !(#[trigger] ts[i]).contains(c),
    ensures
        split_on(join_on(ts, c), c) == ts,
    decreases ts.len(),
{
    if ts.len() == 1 {
        lemma_split_on_single(ts[0], c);
        assert(seq![ts[0]] =~= ts);
    } else {
        let p = ts.drop_last();
        assert forall|i: int| 0 <= i < p.len() implies !(#[trigger] p[i]).contains(c) by {
            assert(p[i] == ts[i]);
        }
        lemma_split_join(p, c);
        lemma_split_on_append(join_on(p, c), ts.last(), c);
        assert(!ts[ts.len() - 1].contains(c));
        lemma_split_on_single(ts.last(), c);
        assert(p + seq![ts.last()] =~= ts);
    }
}

/// The leftmost occurrence of `p` in `s` is at `k` when one character of
/// the pattern does not appear where an earlier occurrence would put it.
pub proof fn lemma_first_match_by_char(s: Seq<char>, p: Seq<char>, k: int, m: int)
    requires
        occurs_at(s, p, k),
        0 <= m < p.len(),
        forall|i: int| m <= i < k + m ==> s[i] != p[m],
    ensures
        first_match(s, p) == Some(k),
{
    assert forall|j: int| 0 <= j < k implies !occurs_at(s, p, j) by {
        if occurs_at(s, p, j) {
            assert(s.subrange(j, j + p.len())[m] == s[j + m]);
        }
    }
    lemma_first_match_is(s, p, k);
}

} // verus!
