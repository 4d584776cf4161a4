//! Every way to take one item from each of several lists, in the order in
//! which `permutate::Permutator` yields them.

use permutate::Permutator;
use vstd::prelude::*;

verus! {

#[verifier::external_type_specification]
#[verifier::external_body]
#[verifier::reject_recursive_types(T)]
pub struct ExPermutator<'a, T: 'a + ?Sized>(Permutator<'a, T>);

/// The lists that a `Permutator` was made for.
pub uninterp spec fn permutator_lists(permutator: Permutator<str>) -> Seq<Seq<Seq<char>>>;

/// The number of combinations that a `Permutator` has yielded.
pub uninterp spec fn permutator_position(permutator: Permutator<str>) -> nat;

/// The number of ways to take one item from each of `lists`.
pub open spec fn combinations<T>(lists: Seq<Seq<T>>) -> nat
    decreases lists.len(),
{
    if lists.len() == 0 {
        1
    } else {
        combinations(lists.drop_last()) * lists.last().len()
    }
}

/// The combination number `k`, counted from zero, of one item from each of
/// `lists`. The item of the last list changes with every step, that of the
/// list before it whenever the last list starts again, and so on.
pub open spec fn combination<T>(lists: Seq<Seq<T>>, k: int) -> Seq<T>
    decreases lists.len(),
{
    if lists.len() == 0 {
        Seq::empty()
    } else {
        let last = lists.last();
        let length = last.len() as int;
        combination(lists.drop_last(), k / length).push(last[k % length])
    }
}

/// A combination holds one item for each list.
pub(crate) proof fn lemma_combination_len<T>(lists: Seq<Seq<T>>, k: int)
    ensures
        combination(lists, k).len() == lists.len(),
    decreases lists.len(),
{
    if lists.len() > 0 {
        lemma_combination_len(lists.drop_last(), k / (lists.last().len() as int));
    }
}

/// Whether every list of `lists` holds an item.
pub open spec fn all_inhabited<T>(lists: Seq<Seq<T>>) -> bool {
    forall|i: int| 0 <= i < lists.len() ==> (#[trigger] lists[i]).len() > 0
}

/// What each string of `strings` holds.
pub open spec fn str_texts(strings: Seq<&str>) -> Seq<Seq<char>> {
    Seq::new(strings.len(), |i: int| strings[i]@)
}

/// What the strings of each list of `lists` hold.
pub open spec fn list_texts(lists: Seq<&[&str]>) -> Seq<Seq<Seq<char>>> {
    Seq::new(lists.len(), |i: int| str_texts(lists[i]@))
}

/// `Permutator::new` makes a permutator that has yielded nothing yet. With
/// a single list it would combine that list with itself, with an empty list
/// or more combinations than `usize` can count it would fail: those are
/// left out.
#[verifier::external_body]
pub(crate) fn permutator_new<'a>(lists: &'a [&'a [&'a str]]) -> (permutator: Permutator<'a, str>)
    requires
        lists@.len() >= 2,
        all_inhabited(list_texts(lists@)),
        combinations(list_texts(lists@)) <= usize::MAX,
    ensures
        permutator_lists(permutator) == list_texts(lists@),
        permutator_position(permutator) == 0,
{
    Permutator::new(lists)
}

/// `Permutator::next` yields the next combination, in the order of
/// `combination`, as long as one is left.
#[verifier::external_body]
pub(crate) fn permutator_next<'a>(permutator: &mut Permutator<'a, str>) -> (items: Option<
    Vec<&'a str>,
>)
    requires
        permutator_lists(*old(permutator)).len() >= 2,
        all_inhabited(permutator_lists(*old(permutator))),
        combinations(permutator_lists(*old(permutator))) <= usize::MAX,
    ensures
        permutator_lists(*final(permutator)) == permutator_lists(*old(permutator)),
        match items {
            Some(items) => {
                &&& permutator_position(*old(permutator)) < combinations(
                    permutator_lists(*old(permutator)),
                )
                &&& str_texts(items@) == combination(
                    permutator_lists(*old(permutator)),
                    permutator_position(*old(permutator)) as int,
                )
                &&& permutator_position(*final(permutator)) == permutator_position(
                    *old(permutator),
                ) + 1
            },
            None => {
                &&& permutator_position(*old(permutator)) >= combinations(
                    permutator_lists(*old(permutator)),
                )
                &&& permutator_position(*final(permutator)) == permutator_position(
                    *old(permutator),
                )
            },
        },
{
    permutator.next()
}

/// `Permutator::next_with_buffer` puts the next combination into `buffer`
/// and returns `Ok(true)`, as long as one is left; after the last it returns
/// `Ok(false)` and leaves `buffer` alone. A buffer that is too short, which
/// the method refuses, is left out.
#[verifier::external_body]
pub(crate) fn permutator_next_with_buffer<'a>(
    permutator: &mut Permutator<'a, str>,
    buffer: &mut Vec<&'a str>,
) -> (more: Result<bool, &'static str>)
    requires
        permutator_lists(*old(permutator)).len() >= 2,
        all_inhabited(permutator_lists(*old(permutator))),
        combinations(permutator_lists(*old(permutator))) <= usize::MAX,
        old(buffer)@.len() == permutator_lists(*old(permutator)).len(),
    ensures
        permutator_lists(*final(permutator)) == permutator_lists(*old(permutator)),
        more is Ok,
        more == Ok::<bool, &'static str>(true) ==> {
            &&& permutator_position(*old(permutator)) < combinations(
                permutator_lists(*old(permutator)),
            )
            &&& str_texts(final(buffer)@) == combination(
                permutator_lists(*old(permutator)),
                permutator_position(*old(permutator)) as int,
            )
            &&& permutator_position(*final(permutator)) == permutator_position(*old(permutator))
                + 1
        },
        more == Ok::<bool, &'static str>(false) ==> {
            &&& permutator_position(*old(permutator)) >= combinations(
                permutator_lists(*old(permutator)),
            )
            &&& final(buffer)@ == old(buffer)@
            &&& permutator_position(*final(permutator)) == permutator_position(*old(permutator))
        },
{
    permutator.next_with_buffer(buffer)
}

} // verus!
