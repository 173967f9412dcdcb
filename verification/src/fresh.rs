//! Choosing an identifier that is not in use: the first value, counted from
//! a starting token and going round past the largest, that a set leaves free.

use vstd::prelude::*;

verus! {

/// The value `steps` after `start`, where zero follows the largest value.
pub open spec fn step_from(start: u128, steps: nat) -> u128
    recommends
        steps <= u128::MAX,
{
    if start + steps <= u128::MAX {
        (start + steps) as u128
    } else {
        (start + steps - u128::MAX - 1) as u128
    }
}

/// How many steps lead from `start` to `goal`.
pub open spec fn steps_between(start: u128, goal: u128) -> nat {
    if start <= goal {
        (goal - start) as nat
    } else {
        (goal + u128::MAX + 1 - start) as nat
    }
}

/// Whether `steps` is the least number of steps from `start` to a value
/// that `taken` does not hold.
pub open spec fn is_first_free(taken: Set<u128>, start: u128, steps: nat) -> bool {
    &&& steps <= u128::MAX
    &&& !taken.contains(step_from(start, steps))
    &&& forall|fewer: nat| fewer < steps ==> taken.contains(#[trigger] step_from(start, fewer))
}

/// The first value at or after `start` that `taken` does not hold: `start`
/// itself where it is free.
pub open spec fn first_free(taken: Set<u128>, start: u128) -> u128 {
    step_from(start, choose|steps: nat| is_first_free(taken, start, steps))
}

/// A set with at most `usize::MAX` values leaves some value free.
pub proof fn lemma_some_value_free(taken: Set<u128>)
    requires
        taken.finite(),
        taken.len() <= usize::MAX,
    ensures
        exists|value: u128| !taken.contains(value),
{
    if forall|value: u128| taken.contains(value) {
        let count = usize::MAX + 1;
        let numbers = vstd::set_lib::set_int_range(0, count);
        let narrow = |number: int| number as u128;
        let values = numbers.map(narrow);
        vstd::set_lib::lemma_int_range(0, count);
        assert(vstd::relations::injective_on(narrow, numbers));
        vstd::set_lib::lemma_map_size(numbers, values, narrow);
        assert(values.subset_of(taken));
        vstd::set_lib::lemma_len_subset(values, taken);
    }
}

/// No two numbers of steps are both the first to a free value.
pub proof fn lemma_first_free_is_unique(taken: Set<u128>, start: u128, one: nat, other: nat)
    requires
        is_first_free(taken, start, one),
        is_first_free(taken, start, other),
    ensures
        one == other,
{
    if one < other {
        assert(taken.contains(step_from(start, one)));
    }
    if other < one {
        assert(taken.contains(step_from(start, other)));
    }
}

/// Where no value at fewer than `tried` steps is free and the value at
/// `limit` steps is, some number of steps between them is the first.
proof fn lemma_search(taken: Set<u128>, start: u128, tried: nat, limit: nat)
    requires
        tried <= limit <= u128::MAX,
        !taken.contains(step_from(start, limit)),
        forall|fewer: nat| fewer < tried ==> taken.contains(#[trigger] step_from(start, fewer)),
    ensures
        exists|steps: nat| tried <= steps <= limit && is_first_free(taken, start, steps),
    decreases limit - tried,
{
    if !taken.contains(step_from(start, tried)) {
        assert(is_first_free(taken, start, tried));
    } else {
        lemma_search(taken, start, tried + 1, limit);
    }
}

/// Where the set leaves a value free, the first free value from `start`
/// exists, is free, and is `start` itself exactly when `start` is free.
pub proof fn lemma_first_free(taken: Set<u128>, start: u128)
    requires
        exists|value: u128| !taken.contains(value),
    ensures
        !taken.contains(first_free(taken, start)),
        !taken.contains(start) <==> first_free(taken, start) == start,
        exists|steps: nat|
            is_first_free(taken, start, steps) && first_free(taken, start) == step_from(
                start,
                steps,
            ),
{
    let value = choose|value: u128| !taken.contains(value);
    let limit = steps_between(start, value);
    assert(step_from(start, limit) == value);
    lemma_search(taken, start, 0, limit);
    let steps = choose|steps: nat| is_first_free(taken, start, steps);
    if !taken.contains(start) {
        assert(step_from(start, 0) == start);
        assert(is_first_free(taken, start, 0));
        lemma_first_free_is_unique(taken, start, steps, 0);
    }
}

} // verus!
