//! Picking numbers below a bound by a test.

use vstd::prelude::*;

verus! {

/// The numbers below `n` that pass `test`, in ascending order.
pub open spec fn selected(n: nat, test: spec_fn(int) -> bool) -> Seq<int>
    decreases n,
{
    if n == 0 {
        Seq::empty()
    } else {
        let rest = selected((n - 1) as nat, test);
        if test(n - 1) {
            rest.push(n - 1)
        } else {
            rest
        }
    }
}

/// The least number below `n` that passes `test`.
pub open spec fn first(n: nat, test: spec_fn(int) -> bool) -> Option<int>
    decreases n,
{
    if n == 0 {
        None
    } else {
        match first((n - 1) as nat, test) {
            Some(i) => Some(i),
            None => if test(n - 1) {
                Some(n - 1)
            } else {
                None
            },
        }
    }
}

/// What [`selected`] holds: exactly the numbers that pass, each once, in
/// ascending order.
pub proof fn lemma_selected(n: nat, test: spec_fn(int) -> bool)
    ensures
        selected(n, test).len() <= n,
        forall|k: int|
            0 <= k < selected(n, test).len() ==> 0 <= #[trigger] selected(n, test)[k] < n && test(
                selected(n, test)[k],
            ),
        forall|j: int, k: int|
            0 <= j < k < selected(n, test).len() ==> #[trigger] selected(n, test)[j]
                < #[trigger] selected(n, test)[k],
        forall|i: int| 0 <= i < n && test(i) ==> #[trigger] selected(n, test).contains(i),
    decreases n,
{
    if n > 0 {
        let m = (n - 1) as nat;
        let rest = selected(m, test);
        let all = selected(n, test);
        lemma_selected(m, test);
        assert forall|i: int| 0 <= i < n && test(i) implies #[trigger] all.contains(i) by {
            if i == n - 1 {
                assert(all[rest.len() as int] == i);
            } else {
                assert(rest.contains(i));
                let k = choose|k: int| 0 <= k < rest.len() && rest[k] == i;
                assert(all[k] == i);
            }
        }
    }
}

/// What [`first`] finds: a number that passes and has none below it that does,
/// or nothing where none passes.
pub proof fn lemma_first(n: nat, test: spec_fn(int) -> bool)
    ensures
        match first(n, test) {
            Some(i) => 0 <= i < n && test(i) && forall|j: int| 0 <= j < i ==> !#[trigger] test(j),
            None => forall|j: int| 0 <= j < n ==> !#[trigger] test(j),
        },
    decreases n,
{
    if n > 0 {
        lemma_first((n - 1) as nat, test);
    }
}

/// A number that passes, and has none below it that does, is the first.
pub proof fn lemma_first_is(n: nat, test: spec_fn(int) -> bool, i: int)
    requires
        0 <= i < n,
        test(i),
        forall|j: int| 0 <= j < i ==> !#[trigger] test(j),
    ensures
        first(n, test) == Some(i),
{
    lemma_first(n, test);
}

/// Tests that agree below the bound select the same numbers.
pub proof fn lemma_same_selection(n: nat, one: spec_fn(int) -> bool, other: spec_fn(int) -> bool)
    requires
        forall|i: int| 0 <= i < n ==> #[trigger] one(i) == #[trigger] other(i),
    ensures
        selected(n, one) == selected(n, other),
        first(n, one) == first(n, other),
    decreases n,
{
    if n > 0 {
        lemma_same_selection((n - 1) as nat, one, other);
    }
}

} // verus!
