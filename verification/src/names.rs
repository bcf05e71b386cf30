//! Finding a name in a sequence of named items.

use vstd::prelude::*;

verus! {

/// No name occurs twice among `items`.
pub open spec fn names_unique<T>(items: Seq<(Seq<char>, T)>) -> bool {
    forall|i: int, j: int| 0 <= i < j < items.len() ==> items[i].0 != items[j].0
}

/// Some item carries `name`.
pub open spec fn has_name<T>(items: Seq<(Seq<char>, T)>, name: Seq<char>) -> bool {
    exists|i: int| 0 <= i < items.len() && (#[trigger] items[i]).0 == name
}

/// The first place at which `items` carry `name`.
pub open spec fn place_of<T>(items: Seq<(Seq<char>, T)>, name: Seq<char>) -> Option<int> {
    if has_name(items, name) {
        Some(
            choose|i: int|
                0 <= i < items.len() && (#[trigger] items[i]).0 == name && forall|j: int|
                    0 <= j < i ==> (#[trigger] items[j]).0 != name,
        )
    } else {
        None
    }
}

/// A place that carries `name`, with none before it that does, is the place
/// of `name`.
pub proof fn lemma_place_found<T>(items: Seq<(Seq<char>, T)>, name: Seq<char>, i: int)
    requires
        0 <= i < items.len(),
        items[i].0 == name,
        forall|j: int| 0 <= j < i ==> (#[trigger] items[j]).0 != name,
    ensures
        place_of(items, name) == Some(i),
{
    let found = choose|k: int|
        0 <= k < items.len() && (#[trigger] items[k]).0 == name && forall|j: int|
            0 <= j < k ==> (#[trigger] items[j]).0 != name;
    assert(found == i) by {
        if found < i {
            assert(items[found].0 != name);
        } else if i < found {
            assert(items[i].0 != name);
        }
    }
}

/// Where names are unique, each item stands at the place of its own name.
pub proof fn lemma_place_unique<T>(items: Seq<(Seq<char>, T)>, i: int)
    requires
        names_unique(items),
        0 <= i < items.len(),
    ensures
        place_of(items, items[i].0) == Some(i),
{
    lemma_place_found(items, items[i].0, i);
}

/// The place of a name lies in the sequence and carries that name.
pub proof fn lemma_place_in_range<T>(items: Seq<(Seq<char>, T)>, name: Seq<char>)
    ensures
        match place_of(items, name) {
            Some(i) => 0 <= i < items.len() && items[i].0 == name && forall|j: int|
                0 <= j < i ==> (#[trigger] items[j]).0 != name,
            None => !has_name(items, name),
        },
{
    if has_name(items, name) {
        let witness = choose|i: int| 0 <= i < items.len() && (#[trigger] items[i]).0 == name;
        lemma_first_from(items, name, 0, witness);
        lemma_place_found(items, name, first_from(items, name, 0));
    }
}

/// The first place from `start` on that carries `name`; the length of
/// `items` where none does.
spec fn first_from<T>(items: Seq<(Seq<char>, T)>, name: Seq<char>, start: int) -> int
    decreases items.len() - start,
{
    if start < 0 || start >= items.len() {
        items.len() as int
    } else if items[start].0 == name {
        start
    } else {
        first_from(items, name, start + 1)
    }
}

proof fn lemma_first_from<T>(items: Seq<(Seq<char>, T)>, name: Seq<char>, start: int, witness: int)
    requires
        0 <= start <= witness < items.len(),
        items[witness].0 == name,
        forall|j: int| 0 <= j < start ==> (#[trigger] items[j]).0 != name,
    ensures
        start <= first_from(items, name, start) <= witness,
        items[first_from(items, name, start)].0 == name,
        forall|j: int| 0 <= j < first_from(items, name, start) ==> (#[trigger] items[j]).0 != name,
    decreases items.len() - start,
{
    if items[start].0 != name {
        lemma_first_from(items, name, start + 1, witness);
    }
}

} // verus!
