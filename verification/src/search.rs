//! First-match lookup over a sequence, with the lemmas that relate it to
//! push, update and removal. The registry, the validation cache and the
//! relay engine's failure counters all key their entries this way.

use vstd::prelude::*;

verus! {

/// The first element of `s` satisfying `p`, if any.
pub open spec fn find_first<T>(s: Seq<T>, p: spec_fn(T) -> bool) -> Option<T>
    decreases s.len(),
{
    if s.len() == 0 {
        None
    } else if p(s[0]) {
        Some(s[0])
    } else {
        find_first(s.drop_first(), p)
    }
}

/// A match at `i` behind a match-free prefix is the first match.
pub proof fn lemma_find_first_some<T>(s: Seq<T>, p: spec_fn(T) -> bool, i: int)
    requires
        0 <= i < s.len(),
        p(s[i]),
        forall|j: int| 0 <= j < i ==> !p(s[j]),
    ensures
        find_first(s, p) == Some(s[i]),
    decreases s.len(),
{
    if i > 0 {
        assert(forall|j: int| 0 <= j < i - 1 ==> s.drop_first()[j] == s[j + 1]);
        lemma_find_first_some(s.drop_first(), p, i - 1);
    }
}

/// With no match anywhere there is no first match.
pub proof fn lemma_find_first_none<T>(s: Seq<T>, p: spec_fn(T) -> bool)
    requires
        forall|j: int| 0 <= j < s.len() ==> !p(s[j]),
    ensures
        find_first(s, p) is None,
    decreases s.len(),
{
    if s.len() > 0 {
        assert(forall|j: int| 0 <= j < s.len() - 1 ==> s.drop_first()[j] == s[j + 1]);
        lemma_find_first_none(s.drop_first(), p);
    }
}

/// What the result means: a `Some` is a matching element of `s`, a `None`
/// says nothing matches.
pub proof fn lemma_find_first_characterizes<T>(s: Seq<T>, p: spec_fn(T) -> bool)
    ensures
        match find_first(s, p) {
            Some(x) => p(x) && exists|i: int| 0 <= i < s.len() && s[i] == x,
            None => forall|j: int| 0 <= j < s.len() ==> !p(s[j]),
        },
    decreases s.len(),
{
    if s.len() > 0 && !p(s[0]) {
        lemma_find_first_characterizes(s.drop_first(), p);
        match find_first(s.drop_first(), p) {
            Some(x) => {
                let i = choose|i: int|
                    0 <= i < s.drop_first().len() && s.drop_first()[i] == x;
                assert(s[i + 1] == x);
            },
            None => {
                assert(forall|j: int| 1 <= j < s.len() ==> !p(#[trigger] s[j])) by {
                    assert(forall|j: int|
                        1 <= j < s.len() ==> s[j] == s.drop_first()[j - 1]);
                }
            },
        }
    }
}

/// Appending an element leaves an existing first match in place; with no
/// earlier match the appended element decides.
pub proof fn lemma_find_first_push<T>(s: Seq<T>, p: spec_fn(T) -> bool, x: T)
    ensures
        find_first(s, p) is Some ==> find_first(s.push(x), p) == find_first(s, p),
        find_first(s, p) is None && p(x) ==> find_first(s.push(x), p) == Some(x),
        find_first(s, p) is None && !p(x) ==> find_first(s.push(x), p) is None,
    decreases s.len(),
{
    if s.len() == 0 {
        assert(s.push(x)[0] == x);
        assert(s.push(x).drop_first() =~= Seq::<T>::empty());
        if !p(x) {
            assert(s.push(x).drop_first().len() == 0);
            assert(find_first(s.push(x).drop_first(), p) is None);
            assert(find_first(s.push(x), p) is None);
        }
    } else {
        assert(s.push(x)[0] == s[0]);
        assert(s.push(x).drop_first() =~= s.drop_first().push(x));
        lemma_find_first_push(s.drop_first(), p, x);
        if !p(s[0]) {
            assert(find_first(s.push(x), p) == find_first(s.drop_first().push(x), p));
            assert(find_first(s, p) == find_first(s.drop_first(), p));
        }
    }
}

/// Replacing a non-matching element by a non-matching one changes no
/// first match.
pub proof fn lemma_find_first_update_nomatch<T>(
    s: Seq<T>,
    p: spec_fn(T) -> bool,
    i: int,
    x: T,
)
    requires
        0 <= i < s.len(),
        !p(s[i]),
        !p(x),
    ensures
        find_first(s.update(i, x), p) == find_first(s, p),
    decreases s.len(),
{
    if i == 0 {
        assert(s.update(0, x).drop_first() =~= s.drop_first());
    } else {
        assert(s.update(i, x)[0] == s[0]);
        assert(s.update(i, x).drop_first() =~= s.drop_first().update(i - 1, x));
        lemma_find_first_update_nomatch(s.drop_first(), p, i - 1, x);
    }
}

/// Removing a non-matching element changes no first match.
pub proof fn lemma_find_first_remove_nomatch<T>(s: Seq<T>, p: spec_fn(T) -> bool, i: int)
    requires
        0 <= i < s.len(),
        !p(s[i]),
    ensures
        find_first(s.remove(i), p) == find_first(s, p),
    decreases s.len(),
{
    if i == 0 {
        assert(s.remove(0) =~= s.drop_first());
    } else {
        assert(s.remove(i)[0] == s[0]);
        assert(s.remove(i).drop_first() =~= s.drop_first().remove(i - 1));
        lemma_find_first_remove_nomatch(s.drop_first(), p, i - 1);
    }
}

/// Replacing the only matching element makes its replacement the first
/// match, provided the replacement still matches.
pub proof fn lemma_find_first_update_match<T>(s: Seq<T>, p: spec_fn(T) -> bool, i: int, x: T)
    requires
        0 <= i < s.len(),
        forall|j: int| 0 <= j < i ==> !p(s[j]),
        p(x),
    ensures
        find_first(s.update(i, x), p) == Some(x),
{
    assert(s.update(i, x)[i] == x);
    assert(forall|j: int| 0 <= j < i ==> s.update(i, x)[j] == s[j]);
    lemma_find_first_some(s.update(i, x), p, i);
}

/// Removing the only matching element leaves no match.
pub proof fn lemma_find_first_remove_match<T>(s: Seq<T>, p: spec_fn(T) -> bool, i: int)
    requires
        0 <= i < s.len(),
        forall|j: int| 0 <= j < s.len() && j != i ==> !p(s[j]),
    ensures
        find_first(s.remove(i), p) is None,
{
    assert(forall|j: int| 0 <= j < i ==> s.remove(i)[j] == s[j]);
    assert(forall|j: int| i <= j < s.len() - 1 ==> s.remove(i)[j] == s[j + 1]);
    assert(forall|j: int| 0 <= j < s.remove(i).len() ==> !p(#[trigger] s.remove(i)[j]));
    lemma_find_first_none(s.remove(i), p);
}

/// Removal keeps every other element: membership in both directions.
pub proof fn lemma_remove_membership<T>(s: Seq<T>, i: int)
    requires
        0 <= i < s.len(),
    ensures
        forall|x: T| #[trigger] s.remove(i).contains(x) ==> s.contains(x),
        forall|j: int| 0 <= j < s.len() && j != i ==> s.remove(i).contains(#[trigger] s[j]),
{
    assert forall|x: T| #[trigger] s.remove(i).contains(x) implies s.contains(x) by {
        let w = choose|w: int| 0 <= w < s.remove(i).len() && #[trigger] s.remove(i)[w] == x;
        if w < i {
            assert(s[w] == x);
        } else {
            assert(s[w + 1] == x);
        }
    }
    assert forall|j: int| 0 <= j < s.len() && j != i implies s.remove(i).contains(
        #[trigger] s[j],
    ) by {
        if j < i {
            assert(s.remove(i)[j] == s[j]);
        } else {
            assert(s.remove(i)[j - 1] == s[j]);
        }
    }
}

/// One more element of a prefix: what it now contains.
pub proof fn lemma_take_plus_one<T>(s: Seq<T>, e: int)
    requires
        0 <= e < s.len(),
    ensures
        forall|x: T|
            #[trigger] s.take(e + 1).contains(x) <==> (s.take(e).contains(x) || x == s[e]),
{
    assert forall|x: T| #[trigger] s.take(e + 1).contains(x) implies (s.take(e).contains(x) || x
        == s[e]) by {
        let w = choose|w: int| 0 <= w < e + 1 && #[trigger] s.take(e + 1)[w] == x;
        if w < e {
            assert(s.take(e)[w] == x);
        } else {
            assert(s[e] == x);
        }
    }
    assert forall|x: T| s.take(e).contains(x) || x == s[e] implies #[trigger] s.take(
        e + 1,
    ).contains(x) by {
        if s.take(e).contains(x) {
            let w = choose|w: int| 0 <= w < e && #[trigger] s.take(e)[w] == x;
            assert(s.take(e + 1)[w] == x);
        } else {
            assert(s.take(e + 1)[e] == x);
        }
    }
}

} // verus!
