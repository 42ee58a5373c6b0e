//! Lists of addresses in which each address occurs once.

use vstd::prelude::*;
use crate::address::Address;

verus! {

/// `base` with the addresses of `more` put at its end, in order, but for
/// those that are there already.
pub open spec fn appended(base: Seq<Address>, more: Seq<Address>) -> Seq<Address>
    decreases more.len(),
{
    if more.len() == 0 {
        base
    } else {
        let so_far = appended(base, more.drop_last());
        if so_far.contains(more.last()) {
            so_far
        } else {
            so_far.push(more.last())
        }
    }
}

/// The elements of a list with one more item at its end are those of the list,
/// and that item.
pub proof fn lemma_push_to_set(list: Seq<Address>, address: Address)
    ensures
        list.push(address).to_set() == list.to_set().insert(address),
{
    let longer = list.push(address);
    assert forall|a: Address| longer.to_set().contains(a) <==> list.to_set().insert(
        address,
    ).contains(a) by {
        if longer.contains(a) {
            let i = choose|i: int| 0 <= i < longer.len() && longer[i] == a;
            if i < list.len() {
                assert(list[i] == a);
            }
        }
        if list.contains(a) {
            let i = choose|i: int| 0 <= i < list.len() && list[i] == a;
            assert(longer[i] == a);
        }
        if a == address {
            assert(longer[list.len() as int] == a);
        }
    }
    assert(longer.to_set() =~= list.to_set().insert(address));
}

/// The elements of a list with one item put in front are those of the list,
/// and that item.
pub proof fn lemma_cons_to_set(head: Address, tail: Seq<Address>)
    ensures
        (seq![head] + tail).to_set() == tail.to_set().insert(head),
{
    let whole = seq![head] + tail;
    assert forall|a: Address| whole.to_set().contains(a) <==> tail.to_set().insert(head).contains(
        a,
    ) by {
        if whole.contains(a) {
            let i = choose|i: int| 0 <= i < whole.len() && whole[i] == a;
            if i > 0 {
                assert(tail[i - 1] == a);
            }
        }
        if tail.contains(a) {
            let i = choose|i: int| 0 <= i < tail.len() && tail[i] == a;
            assert(whole[i + 1] == a);
        }
        if a == head {
            assert(whole[0] == a);
        }
    }
    assert(whole.to_set() =~= tail.to_set().insert(head));
}

/// A list without repetition stays so when an item that it lacks is put at its
/// end.
pub proof fn lemma_push_fresh_no_duplicates(list: Seq<Address>, address: Address)
    requires
        list.no_duplicates(),
        !list.contains(address),
    ensures
        list.push(address).no_duplicates(),
{
    let longer = list.push(address);
    assert forall|i: int, j: int|
        0 <= i < longer.len() && 0 <= j < longer.len() && i != j implies longer[i] != longer[j] by {
        if i < list.len() && j < list.len() {
        } else if i < list.len() {
            assert(list[i] != address);
        } else {
            assert(list[j] != address);
        }
    }
}

/// Appending keeps a list free of repetition, and the elements of the result
/// are those of both lists.
pub proof fn lemma_appended(base: Seq<Address>, more: Seq<Address>)
    ensures
        appended(base, more).to_set() == base.to_set().union(more.to_set()),
        base.no_duplicates() ==> appended(base, more).no_duplicates(),
    decreases more.len(),
{
    if more.len() == 0 {
        assert(more.to_set() =~= Set::<Address>::empty());
        assert(base.to_set().union(more.to_set()) =~= base.to_set());
    } else {
        let front = more.drop_last();
        let so_far = appended(base, front);
        lemma_appended(base, front);
        lemma_push_to_set(front, more.last());
        assert(front.push(more.last()) == more);
        if so_far.contains(more.last()) {
            assert(so_far.to_set() =~= base.to_set().union(more.to_set()));
        } else {
            lemma_push_to_set(so_far, more.last());
            assert(so_far.push(more.last()).to_set() =~= base.to_set().union(more.to_set()));
            if base.no_duplicates() {
                lemma_push_fresh_no_duplicates(so_far, more.last());
            }
        }
    }
}

/// What one more item does to an appended list.
pub proof fn lemma_appended_next(base: Seq<Address>, more: Seq<Address>, i: int)
    requires
        0 <= i < more.len(),
    ensures
        appended(base, more.take(i + 1)) == if appended(base, more.take(i)).contains(more[i]) {
            appended(base, more.take(i))
        } else {
            appended(base, more.take(i)).push(more[i])
        },
{
    assert(more.take(i + 1).drop_last() == more.take(i));
    assert(more.take(i + 1).last() == more[i]);
}

/// Appending a list to one that holds all its items changes nothing.
pub proof fn lemma_appended_again(base: Seq<Address>, more: Seq<Address>)
    requires
        more.to_set().subset_of(base.to_set()),
    ensures
        appended(base, more) == base,
    decreases more.len(),
{
    if more.len() > 0 {
        let front = more.drop_last();
        assert forall|a: Address| front.to_set().contains(a) implies base.to_set().contains(a) by {
            let i = choose|i: int| 0 <= i < front.len() && front[i] == a;
            assert(more[i] == a);
            assert(more.to_set().contains(a));
        }
        lemma_appended_again(base, front);
        assert(more.to_set().contains(more[more.len() - 1]));
        assert(base.to_set().contains(more.last()));
    }
}

/// Appending the same list a second time changes nothing.
pub proof fn lemma_appended_twice(base: Seq<Address>, more: Seq<Address>)
    ensures
        appended(appended(base, more), more) == appended(base, more),
{
    lemma_appended(base, more);
    lemma_appended_again(appended(base, more), more);
}

/// Appending a list without repetition to the empty list gives that list.
pub proof fn lemma_appended_distinct(list: Seq<Address>)
    requires
        list.no_duplicates(),
    ensures
        appended(Seq::empty(), list) == list,
    decreases list.len(),
{
    if list.len() > 0 {
        let front = list.drop_last();
        lemma_appended_distinct(front);
        if front.contains(list.last()) {
            let i = choose|i: int| 0 <= i < front.len() && front[i] == list.last();
            assert(list[i] == list[list.len() - 1]);
        }
        assert(front.push(list.last()) == list);
    } else {
        assert(list =~= Seq::<Address>::empty());
    }
}

} // verus!
