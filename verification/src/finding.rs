//! The first and the lowest of a sequence that have a property.
use vstd::prelude::*;

verus! {

/// The first element with the property.
pub open spec fn first_where<T>(s: Seq<T>, f: spec_fn(T) -> bool) -> Option<T>
    decreases s.len(),
{
    if s.len() == 0 {
        None
    } else if f(s[0]) {
        Some(s[0])
    } else {
        first_where(s.drop_first(), f)
    }
}

/// An element with the property, with none before it, is the first one.
pub proof fn lemma_first_where<T>(s: Seq<T>, f: spec_fn(T) -> bool, n: int)
    requires
        0 <= n <= s.len(),
        forall|j: int| 0 <= j < n ==> !f(#[trigger] s[j]),
        n < s.len() ==> f(s[n]),
    ensures
        first_where(s, f) == (if n < s.len() {
            Some(s[n])
        } else {
            None
        }),
    decreases s.len(),
{
    if s.len() > 0 && n > 0 {
        let rest = s.drop_first();
        assert(!f(s[0]));
        assert forall|j: int| 0 <= j < n - 1 implies !f(#[trigger] rest[j]) by {
            assert(rest[j] == s[j + 1]);
        }
        lemma_first_where(rest, f, n - 1);
    }
}

/// What is found is in the sequence and has the property.
pub proof fn lemma_found<T>(s: Seq<T>, f: spec_fn(T) -> bool)
    ensures
        first_where(s, f) matches Some(x) ==> s.contains(x) && f(x),
    decreases s.len(),
{
    if s.len() > 0 {
        if f(s[0]) {
            assert(s.contains(s[0]));
        } else {
            let rest = s.drop_first();
            lemma_found(rest, f);
            if let Some(x) = first_where(rest, f) {
                let k = choose|k: int| 0 <= k < rest.len() && rest[k] == x;
                assert(s[k + 1] == x);
            }
        }
    }
}

/// The lowest of some numbers.
pub open spec fn lowest(s: Seq<u32>) -> Option<u32>
    decreases s.len(),
{
    if s.len() == 0 {
        None
    } else {
        match lowest(s.drop_last()) {
            Some(n) if n <= s.last() => Some(n),
            _ => Some(s.last()),
        }
    }
}

/// The lowest number is one of them, and none is lower.
pub proof fn lemma_lowest(s: Seq<u32>)
    ensures
        s.len() > 0 <==> lowest(s) is Some,
        lowest(s) matches Some(n) ==> s.contains(n),
        lowest(s) matches Some(n) ==> forall|i: int| 0 <= i < s.len() ==> n <= #[trigger] s[i],
    decreases s.len(),
{
    if s.len() > 0 {
        let front = s.drop_last();
        lemma_lowest(front);
        assert(s[s.len() - 1] == s.last());
        assert forall|i: int| 0 <= i < s.len() implies lowest(s)->0 <= #[trigger] s[i] by {
            if i < front.len() {
                assert(front[i] == s[i]);
            }
        }
        if let Some(n) = lowest(front) {
            let k = choose|k: int| 0 <= k < front.len() && front[k] == n;
            assert(s[k] == n);
        }
    }
}

} // verus!
