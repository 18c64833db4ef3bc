//! Sequences made element by element.
use vstd::prelude::*;

verus! {

/// What `f` makes of each element, one after the other.
pub open spec fn each<A, B>(s: Seq<A>, f: spec_fn(A) -> Seq<B>) -> Seq<B>
    decreases s.len(),
{
    if s.len() == 0 {
        Seq::empty()
    } else {
        each(s.drop_last(), f) + f(s.last())
    }
}

/// One more element adds what `f` makes of it.
pub proof fn lemma_each_step<A, B>(s: Seq<A>, f: spec_fn(A) -> Seq<B>, i: int)
    requires
        0 <= i < s.len(),
    ensures
        each(s.take(i + 1), f) == each(s.take(i), f) + f(s[i]),
{
    let t = s.take(i + 1);
    assert(t.drop_last() =~= s.take(i));
    assert(t.last() == s[i]);
}

/// Taking every element is taking the sequence.
pub proof fn lemma_take_all<A>(s: Seq<A>)
    ensures
        s.take(s.len() as int) == s,
{
    assert(s.take(s.len() as int) =~= s);
}

/// One more element passes a filter or not.
pub proof fn lemma_filter_step<A>(s: Seq<A>, p: spec_fn(A) -> bool, i: int)
    requires
        0 <= i < s.len(),
    ensures
        s.take(i + 1).filter(p) == (if p(s[i]) {
            s.take(i).filter(p).push(s[i])
        } else {
            s.take(i).filter(p)
        }),
{
    reveal(Seq::filter);
    let t = s.take(i + 1);
    assert(t.drop_last() =~= s.take(i));
    assert(t.last() == s[i]);
}

/// An element put last passes a filter or not.
pub proof fn lemma_filter_push<A>(s: Seq<A>, p: spec_fn(A) -> bool, a: A)
    ensures
        s.push(a).filter(p) == (if p(a) {
            s.filter(p).push(a)
        } else {
            s.filter(p)
        }),
{
    reveal(Seq::filter);
    assert(s.push(a).drop_last() =~= s);
}

/// What passes a filter is an element that passes the test.
pub proof fn lemma_filter_from<A>(s: Seq<A>, p: spec_fn(A) -> bool, a: A)
    requires
        s.filter(p).contains(a),
    ensures
        s.contains(a),
        p(a),
    decreases s.len(),
{
    reveal(Seq::filter);
    if s.len() > 0 {
        let rest = s.drop_last();
        if p(s.last()) && a == s.last() {
            assert(s[s.len() - 1] == a);
        } else {
            assert(rest.filter(p).contains(a)) by {
                let k = choose|k: int| 0 <= k < s.filter(p).len() && s.filter(p)[k] == a;
                assert(rest.filter(p)[k] == a);
            }
            lemma_filter_from(rest, p, a);
            let k = choose|k: int| 0 <= k < rest.len() && rest[k] == a;
            assert(s[k] == a);
        }
    }
}

/// What passes of the first elements comes first of what passes of all.
pub proof fn lemma_filter_prefix<A>(s: Seq<A>, p: spec_fn(A) -> bool, n: int)
    requires
        0 <= n <= s.len(),
    ensures
        s.take(n).filter(p).len() <= s.filter(p).len(),
        s.filter(p).take(s.take(n).filter(p).len() as int) == s.take(n).filter(p),
    decreases s.len() - n,
{
    if n == s.len() {
        assert(s.take(n) =~= s);
        assert(s.filter(p).take(s.filter(p).len() as int) =~= s.filter(p));
    } else {
        lemma_filter_step(s, p, n);
        lemma_filter_prefix(s, p, n + 1);
        let short = s.take(n).filter(p);
        let long = s.take(n + 1).filter(p);
        let all = s.filter(p);
        assert(all.take(short.len() as int) =~= long.take(short.len() as int));
        assert(long.take(short.len() as int) =~= short);
    }
}

/// One more element adds it to the set of elements.
pub proof fn lemma_to_set_step<A>(s: Seq<A>, i: int)
    requires
        0 <= i < s.len(),
    ensures
        s.take(i + 1).to_set() == s.take(i).to_set().insert(s[i]),
{
    let long = s.take(i + 1);
    let short = s.take(i);
    assert(long =~= short.push(s[i]));
    short.lemma_push_to_set_commute(s[i]);
}

} // verus!
