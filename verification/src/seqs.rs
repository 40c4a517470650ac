//! Small facts about searching finite index ranges, shared by every scan in
//! the crate.

use vstd::prelude::*;

verus! {

/// The least index `i < n` satisfying `p`, if there is one.
pub open spec fn first_index(n: nat, p: spec_fn(int) -> bool) -> Option<int>
    decreases n,
{
    if n == 0 {
        None
    } else {
        match first_index((n - 1) as nat, p) {
            Some(i) => Some(i),
            None => if p(n - 1) {
                Some(n - 1)
            } else {
                None
            },
        }
    }
}

/// `first_index` really is the least witness, and `None` means there is none.
pub proof fn lemma_first_index(n: nat, p: spec_fn(int) -> bool)
    ensures
        match first_index(n, p) {
            Some(i) => 0 <= i < n && p(i) && forall|j: int| 0 <= j < i ==> !#[trigger] p(j),
            None => forall|j: int| 0 <= j < n ==> !#[trigger] p(j),
        },
    decreases n,
{
    if n > 0 {
        lemma_first_index((n - 1) as nat, p);
    }
}

/// A least witness below `n` is what `first_index` returns.
pub proof fn lemma_first_index_is(n: nat, p: spec_fn(int) -> bool, i: int)
    requires
        0 <= i < n,
        p(i),
        forall|j: int| 0 <= j < i ==> !#[trigger] p(j),
    ensures
        first_index(n, p) == Some(i),
{
    lemma_first_index(n, p);
}

/// With no witness below `n`, `first_index` is `None`.
pub proof fn lemma_first_index_none(n: nat, p: spec_fn(int) -> bool)
    requires
        forall|j: int| 0 <= j < n ==> !#[trigger] p(j),
    ensures
        first_index(n, p) == None::<int>,
{
    lemma_first_index(n, p);
}

/// Two predicates that agree below `n` have the same least witness below `n`.
pub proof fn lemma_first_index_ext(n: nat, p: spec_fn(int) -> bool, q: spec_fn(int) -> bool)
    requires
        forall|j: int| 0 <= j < n ==> #[trigger] p(j) == q(j),
    ensures
        first_index(n, p) == first_index(n, q),
    decreases n,
{
    if n > 0 {
        lemma_first_index_ext((n - 1) as nat, p, q);
    }
}

} // verus!
