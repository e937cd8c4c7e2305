//! Vectors, seen as sequences of what their elements stand for.
use vstd::prelude::*;

use crate::text::{lemma_filter_push, Text};

verus! {

/// Adds `x` at the end of `v`.
pub fn put<T: DeepView>(v: &mut Vec<T>, x: T)
    ensures
        final(v)@ == old(v)@.push(x),
        final(v).deep_view() == old(v).deep_view().push(x.deep_view()),
{
    v.push(x);
}

/// Takes the element at `i` out of `v`.
pub fn take_out<T: DeepView>(v: &mut Vec<T>, i: usize) -> (x: T)
    requires
        i < old(v)@.len(),
    ensures
        x == old(v)@[i as int],
        final(v)@ == old(v)@.remove(i as int),
        final(v).deep_view() == old(v).deep_view().remove(i as int),
{
    v.remove(i)
}

/// The strings of `v`, copied.
pub fn copied(v: &[String]) -> (all: Vec<String>)
    ensures
        all.deep_view() == v.deep_view(),
{
    let mut all: Vec<String> = Vec::new();
    let mut i: usize = 0;
    while i < v.len()
        invariant
            i <= v@.len(),
            all.deep_view() == v.deep_view().take(i as int),
        decreases v@.len() - i,
    {
        assert(v.deep_view()[i as int] == v@[i as int]@);
        put(&mut all, v[i].clone());
        i = i + 1;
    }
    all
}

/// Whether `v` holds the string `s`.
pub fn holds(v: &[String], s: &str) -> (answer: bool)
    ensures
        answer == v.deep_view().contains(s@),
{
    let mut i: usize = 0;
    while i < v.len()
        invariant
            i <= v@.len(),
            forall|j: int| 0 <= j < i ==> v.deep_view()[j] != s@,
        decreases v@.len() - i,
    {
        assert(v.deep_view()[i as int] == v@[i as int]@);
        if v[i].as_str().eq(s) {
            return true;
        }
        i = i + 1;
    }
    false
}

/// A sequence with every element kept only where it first occurs.
pub open spec fn distinct(s: Seq<Text>) -> Seq<Text>
    decreases s.len(),
{
    if s.len() == 0 {
        s
    } else {
        let before = distinct(s.drop_last());
        if before.contains(s.last()) {
            before
        } else {
            before.push(s.last())
        }
    }
}

/// What `distinct` keeps: every element, once.
pub proof fn lemma_distinct(s: Seq<Text>)
    ensures
        distinct(s).no_duplicates(),
        distinct(s).to_set() == s.to_set(),
    decreases s.len(),
{
    if s.len() > 0 {
        lemma_distinct(s.drop_last());
        let before = distinct(s.drop_last());
        assert(s == s.drop_last().push(s.last()));
        assert forall|t: Text| distinct(s).contains(t) <==> s.contains(t) by {
            assert(before.contains(t) <==> before.to_set().contains(t));
            assert(s.drop_last().contains(t) <==> s.drop_last().to_set().contains(t));
            if s.contains(t) {
                let i = choose|i: int| 0 <= i < s.len() && s[i] == t;
                if i < s.len() - 1 {
                    assert(s.drop_last()[i] == t);
                    assert(before.contains(t));
                    let j = choose|j: int| 0 <= j < before.len() && before[j] == t;
                    assert(distinct(s)[j] == t);
                } else if !before.contains(t) {
                    assert(distinct(s).last() == t);
                }
            }
            if distinct(s).contains(t) {
                let j = choose|j: int| 0 <= j < distinct(s).len() && distinct(s)[j] == t;
                if j < before.len() {
                    assert(before[j] == t);
                    assert(s.drop_last().contains(t));
                    let i = choose|i: int| 0 <= i < s.len() - 1 && s.drop_last()[i] == t;
                    assert(s[i] == t);
                } else {
                    assert(s.last() == t);
                    assert(s[s.len() - 1] == t);
                }
            }
        }
        assert(distinct(s).to_set() =~= s.to_set());
    } else {
        assert(distinct(s).to_set() =~= s.to_set());
    }
}

/// The strings of `v`, each kept only where it first occurs.
pub fn unique(v: &[String]) -> (all: Vec<String>)
    ensures
        all.deep_view() == distinct(v.deep_view()),
{
    let mut all: Vec<String> = Vec::new();
    let mut i: usize = 0;
    assert(v.deep_view().take(0) == Seq::<Text>::empty());
    while i < v.len()
        invariant
            i <= v@.len(),
            all.deep_view() == distinct(v.deep_view().take(i as int)),
        decreases v@.len() - i,
    {
        assert(v.deep_view()[i as int] == v@[i as int]@);
        assert(v.deep_view().take(i + 1).drop_last() == v.deep_view().take(i as int));
        if !holds(&all, v[i].as_str()) {
            put(&mut all, v[i].clone());
        }
        i = i + 1;
    }
    assert(v.deep_view().take(i as int) == v.deep_view());
    all
}

/// What `distinct` keeps is what was there.
pub proof fn lemma_same_elements(s: Seq<Text>)
    ensures
        forall|c: Text| distinct(s).contains(c) <==> s.contains(c),
{
    lemma_distinct(s);
    assert forall|c: Text| distinct(s).contains(c) <==> s.contains(c) by {
        assert(distinct(s).contains(c) <==> distinct(s).to_set().contains(c));
        assert(s.contains(c) <==> s.to_set().contains(c));
    }
}

/// Where nothing occurs twice, `distinct` keeps all.
pub proof fn lemma_distinct_already(s: Seq<Text>)
    requires
        s.no_duplicates(),
    ensures
        distinct(s) == s,
    decreases s.len(),
{
    if s.len() > 0 {
        lemma_distinct_already(s.drop_last());
        assert(!s.drop_last().contains(s.last()));
        assert(s == s.drop_last().push(s.last()));
    }
}

/// The elements of `s` that `t` lacks.
pub open spec fn lacking(s: Seq<Text>, t: Seq<Text>) -> Seq<Text> {
    s.filter(|c: Text| !t.contains(c))
}

/// The strings of `s` that `t` lacks.
pub fn difference(s: &[String], t: &[String]) -> (rest: Vec<String>)
    ensures
        rest.deep_view() == lacking(s.deep_view(), t.deep_view()),
{
    let ghost all = s.deep_view();
    let ghost keep = |c: Text| !t.deep_view().contains(c);
    let mut rest: Vec<String> = Vec::new();
    let mut i: usize = 0;
    proof {
        reveal(Seq::filter);
        assert(all.take(0) == Seq::<Text>::empty());
    }
    while i < s.len()
        invariant
            i <= s@.len(),
            all == s.deep_view(),
            keep == (|c: Text| !t.deep_view().contains(c)),
            rest.deep_view() == all.take(i as int).filter(keep),
        decreases s@.len() - i,
    {
        proof {
            assert(all[i as int] == s@[i as int]@);
            assert(all.take(i + 1) == all.take(i as int).push(all[i as int]));
            lemma_filter_push(all.take(i as int), keep, all[i as int]);
        }
        if !holds(t, s[i].as_str()) {
            put(&mut rest, s[i].clone());
        }
        i = i + 1;
    }
    assert(all.take(i as int) == all);
    rest
}

/// Nothing of `s` is lacking where all of it is there.
pub proof fn lemma_nothing_lacking(s: Seq<Text>, t: Seq<Text>)
    requires
        forall|c: Text| s.contains(c) ==> t.contains(c),
    ensures
        lacking(s, t) == Seq::<Text>::empty(),
    decreases s.len(),
{
    reveal(Seq::filter);
    if s.len() > 0 {
        let front = s.drop_last();
        assert(s.contains(s.last()));
        assert forall|c: Text| front.contains(c) implies t.contains(c) by {
            let i = choose|i: int| 0 <= i < front.len() && front[i] == c;
            assert(s[i] == c);
        }
        lemma_nothing_lacking(front, t);
    }
}

/// What is lacking is there on the one side and not on the other.
pub proof fn lemma_lacking(s: Seq<Text>, t: Seq<Text>, c: Text)
    ensures
        lacking(s, t).contains(c) <==> s.contains(c) && !t.contains(c),
    decreases s.len(),
{
    reveal(Seq::filter);
    if s.len() > 0 {
        let front = s.drop_last();
        lemma_lacking(front, t, c);
        let kept = lacking(front, t);
        assert(s == front.push(s.last()));
        if s.contains(c) {
            let i = choose|i: int| 0 <= i < s.len() && s[i] == c;
            if i < front.len() {
                assert(front[i] == c);
            }
        }
        if front.contains(c) {
            let i = choose|i: int| 0 <= i < front.len() && front[i] == c;
            assert(s[i] == c);
        }
        assert(s.contains(s.last()));
        if kept.contains(c) {
            let i = choose|i: int| 0 <= i < kept.len() && kept[i] == c;
            assert(lacking(s, t)[i] == c);
        }
        if !t.contains(s.last()) {
            assert(lacking(s, t) == kept.push(s.last()));
            assert(lacking(s, t)[kept.len() as int] == s.last());
        }
    }
}

} // verus!
