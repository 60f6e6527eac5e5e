//! A list of items with a set of selected positions, toggled one at a time.
use vstd::prelude::*;

verus! {

/// Items, and the positions of the selected ones in the order they were selected.
pub struct Selection<T> {
    items: Vec<T>,
    selection: Vec<usize>,
}

/// The first position of `item` in `items`.
pub open spec fn index_of(items: Seq<usize>, item: usize) -> Option<int>
    decreases items.len(),
{
    if items.len() == 0 {
        None
    } else if items[0] == item {
        Some(0)
    } else {
        match index_of(items.drop_first(), item) {
            Some(i) => Some(i + 1),
            None => None,
        }
    }
}

proof fn lemma_index_of(items: Seq<usize>, item: usize)
    ensures
        index_of(items, item) matches Some(i) ==> 0 <= i < items.len() && items[i] == item && forall|j: int|
            0 <= j < i ==> items[j] != item,
        index_of(items, item) is None <==> !items.contains(item),
    decreases items.len(),
{
    if items.len() > 0 {
        lemma_index_of(items.drop_first(), item);
        if items[0] != item {
            assert forall|j: int| 1 <= j < items.len() implies items[j] == items.drop_first()[j - 1] by {}
            if items.drop_first().contains(item) {
                let k = choose|k: int| 0 <= k < items.drop_first().len() && items.drop_first()[k] == item;
                assert(items[k + 1] == item);
            }
            if items.contains(item) {
                let k = choose|k: int| 0 <= k < items.len() && items[k] == item;
                assert(items.drop_first()[k - 1] == item);
            }
        } else {
            assert(items.contains(item));
        }
    }
}

/// The position of the first occurrence of `item` in `items`.
pub fn get_index_of(items: &[usize], item: usize) -> (r: Option<usize>)
    ensures
        r matches Some(i) ==> index_of(items@, item) == Some(i as int),
        r is None ==> index_of(items@, item) is None,
{
    proof {
        lemma_index_of(items@, item);
    }
    let mut i: usize = 0;
    while i < items.len()
        invariant
            i <= items@.len(),
            forall|j: int| 0 <= j < i ==> items@[j] != item,
        decreases items@.len() - i,
    {
        if items[i] == item {
            proof {
                lemma_index_of(items@, item);
                if let Some(p) = index_of(items@, item) {
                    if p > i {
                    }
                }
            }
            return Some(i);
        }
        i += 1;
    }
    proof {
        lemma_index_of(items@, item);
        if index_of(items@, item) is Some {
            let p = index_of(items@, item)->Some_0;
            assert(items@[p] == item);
        }
    }
    None
}

/// The selection after toggling `item`: removed where it is selected, added at the end otherwise.
pub open spec fn toggled(selection: Seq<usize>, item: usize) -> Seq<usize> {
    match index_of(selection, item) {
        Some(i) => selection.remove(i),
        None => selection.push(item),
    }
}

impl<T> Selection<T> {
    /// The items.
    pub closed spec fn spec_items(&self) -> Seq<T> {
        self.items@
    }

    /// The selected positions, in the order they were selected.
    pub closed spec fn spec_selection(&self) -> Seq<usize> {
        self.selection@
    }

    /// The items and the selected positions.
    pub open spec fn state(&self) -> (Seq<T>, Seq<usize>) {
        (self.spec_items(), self.spec_selection())
    }

    /// The items, with nothing selected.
    pub fn new(items: Vec<T>) -> (r: Self)
        ensures
            r.spec_items() == items@,
            r.spec_selection() == Seq::<usize>::empty(),
            r.state() == (items@, Seq::<usize>::empty()),
    {
        Self { items, selection: Vec::new() }
    }

    /// The selected items, in the order they were selected.
    pub fn get_selected(&self) -> (r: Vec<&T>)
        requires
            forall|i: int|
                0 <= i < self.spec_selection().len() ==> #[trigger] self.spec_selection()[i]
                    < self.spec_items().len(),
        ensures
            r@.len() == self.spec_selection().len(),
            forall|i: int|
                0 <= i < r@.len() ==> *(#[trigger] r@[i]) == self.spec_items()[self.spec_selection()[i] as int],
    {
        let mut r: Vec<&T> = Vec::new();
        let mut i: usize = 0;
        while i < self.selection.len()
            invariant
                i <= self.selection@.len(),
                r@.len() == i,
                forall|j: int|
                    0 <= j < self.spec_selection().len() ==> #[trigger] self.spec_selection()[j]
                        < self.spec_items().len(),
                forall|j: int| 0 <= j < i ==> *(#[trigger] r@[j]) == self.items@[self.selection@[j] as int],
            decreases self.selection@.len() - i,
        {
            let index = self.selection[i];
            assert(self.spec_selection()[i as int] == index);
            r.push(&self.items[index]);
            i += 1;
        }
        r
    }

    /// Selects the item at `item_index`, or deselects it when it is selected.
    pub fn add_or_remove_from_selection(&mut self, item_index: usize)
        ensures
            final(self).spec_items() == old(self).spec_items(),
            final(self).spec_selection() == toggled(old(self).spec_selection(), item_index),
            final(self).state() == toggle_state(old(self).state(), item_index),
    {
        let index = get_index_of(self.selection.as_slice(), item_index);
        if let Some(index) = index {
            proof {
                lemma_index_of(self.selection@, item_index);
            }
            self.selection.remove(index);
        } else {
            self.selection.push(item_index);
        }
    }

    /// Whether the item at `index` is selected.
    pub fn contains(&self, index: usize) -> (r: bool)
        ensures
            r == self.spec_selection().contains(index),
    {
        proof {
            lemma_index_of(self.selection@, index);
        }
        get_index_of(self.selection.as_slice(), index).is_some()
    }

    /// All items.
    pub fn iter(&self) -> (r: &[T])
        ensures
            r@ == self.spec_items(),
    {
        self.items.as_slice()
    }

    /// The number of selected items.
    pub fn num_selected(&self) -> (r: usize)
        ensures
            r == self.spec_selection().len(),
    {
        self.selection.len()
    }

    /// The items collected, with nothing selected (what `FromIterator` gives).
    pub fn from_vec(items: Vec<T>) -> (r: Self)
        ensures
            r.spec_items() == items@,
            r.spec_selection() == Seq::<usize>::empty(),
    {
        Self::new(items)
    }
}

/// Toggling an item flips whether it is selected and leaves every other item
/// as it was; toggling a new item twice gives back the selection.
pub proof fn lemma_toggle(selection: Seq<usize>, item: usize)
    requires
        selection.no_duplicates(),
    ensures
        toggled(selection, item).contains(item) <==> !selection.contains(item),
        forall|other: usize|
            other != item ==> (toggled(selection, item).contains(other) <==> selection.contains(other)),
        toggled(selection, item).no_duplicates(),
        !selection.contains(item) ==> toggled(toggled(selection, item), item) == selection,
{
    lemma_index_of(selection, item);
    match index_of(selection, item) {
        Some(i) => {
            let s2 = selection.remove(i);
            assert forall|k: int| 0 <= k < s2.len() implies s2[k] == if k < i {
                selection[k]
            } else {
                selection[k + 1]
            } by {}
            assert(!s2.contains(item)) by {
                if s2.contains(item) {
                    let k = choose|k: int| 0 <= k < s2.len() && s2[k] == item;
                    if k < i {
                        assert(selection[k] == item);
                    } else {
                        assert(selection[k + 1] == item);
                    }
                }
            }
            assert forall|other: usize| other != item implies (s2.contains(other) <==> selection.contains(
                other,
            )) by {
                if selection.contains(other) {
                    let k = choose|k: int| 0 <= k < selection.len() && selection[k] == other;
                    if k < i {
                        assert(s2[k] == other);
                    } else if k > i {
                        assert(s2[k - 1] == other);
                    }
                }
                if s2.contains(other) {
                    let k = choose|k: int| 0 <= k < s2.len() && s2[k] == other;
                    if k < i {
                        assert(selection[k] == other);
                    } else {
                        assert(selection[k + 1] == other);
                    }
                }
            }
            assert(s2.no_duplicates()) by {
                assert forall|a: int, b: int| 0 <= a < s2.len() && 0 <= b < s2.len() && a != b implies s2[a]
                    != s2[b] by {
                    let a1 = if a < i { a } else { a + 1 };
                    let b1 = if b < i { b } else { b + 1 };
                    assert(s2[a] == selection[a1] && s2[b] == selection[b1]);
                }
            }
        },
        None => {
            let s2 = selection.push(item);
            lemma_index_of(s2, item);
            assert(s2[selection.len() as int] == item);
            assert(forall|j: int| 0 <= j < selection.len() ==> s2[j] == selection[j]);
            assert(index_of(s2, item) == Some(selection.len() as int)) by {
                assert forall|j: int| 0 <= j < selection.len() as int implies s2[j] != item by {}
                if let Some(p) = index_of(s2, item) {
                    if p < selection.len() {
                        assert(selection[p] == item);
                    }
                }
            }
            assert(s2.remove(selection.len() as int) =~= selection);
            assert forall|other: usize| other != item implies (s2.contains(other) <==> selection.contains(
                other,
            )) by {
                if s2.contains(other) {
                    let k = choose|k: int| 0 <= k < s2.len() && s2[k] == other;
                    assert(selection[k] == other);
                }
                if selection.contains(other) {
                    let k = choose|k: int| 0 <= k < selection.len() && selection[k] == other;
                    assert(s2[k] == other);
                }
            }
        },
    }
}

/// How often `item` occurs in `xs`.
pub open spec fn occurrences(xs: Seq<usize>, item: usize) -> nat
    decreases xs.len(),
{
    if xs.len() == 0 {
        0
    } else {
        occurrences(xs.drop_last(), item) + if xs.last() == item {
            1nat
        } else {
            0nat
        }
    }
}

/// The selection after toggling each of `xs` in turn, starting from `selection`.
pub open spec fn toggled_all(selection: Seq<usize>, xs: Seq<usize>) -> Seq<usize>
    decreases xs.len(),
{
    if xs.len() == 0 {
        selection
    } else {
        toggled(toggled_all(selection, xs.drop_last()), xs.last())
    }
}

/// The items and the selection after toggling `item` (what
/// `add_or_remove_from_selection` does).
pub open spec fn toggle_state<T>(state: (Seq<T>, Seq<usize>), item: usize) -> (Seq<T>, Seq<usize>) {
    (state.0, toggled(state.1, item))
}

/// The items and the selection after toggling each of `xs` in turn.
pub open spec fn toggle_states<T>(state: (Seq<T>, Seq<usize>), xs: Seq<usize>) -> (Seq<T>, Seq<usize>)
    decreases xs.len(),
{
    if xs.len() == 0 {
        state
    } else {
        toggle_state(toggle_states(state, xs.drop_last()), xs.last())
    }
}

/// The positions toggled an odd number of times.
pub open spec fn odd_toggles(xs: Seq<usize>) -> Set<usize> {
    Set::new(|i: usize| occurrences(xs, i) % 2 == 1)
}

/// Toggling never changes the items: after any toggles, the items are those
/// the selection started with, and the selection is the toggled one.
pub proof fn lemma_toggles_keep_items<T>(state: (Seq<T>, Seq<usize>), xs: Seq<usize>)
    ensures
        toggle_states(state, xs).0 == state.0,
        toggle_states(state, xs).1 == toggled_all(state.1, xs),
    decreases xs.len(),
{
    if xs.len() > 0 {
        lemma_toggles_keep_items(state, xs.drop_last());
    }
}

/// Starting from no selection, an item is selected exactly when it was
/// toggled an odd number of times; no item is selected twice; and the number
/// selected is the number of items toggled an odd number of times.
pub proof fn lemma_toggle_parity(xs: Seq<usize>)
    ensures
        toggled_all(Seq::empty(), xs).no_duplicates(),
        forall|i: usize| #[trigger] toggled_all(Seq::empty(), xs).contains(i) <==> occurrences(xs, i) % 2 == 1,
        odd_toggles(xs).finite(),
        toggled_all(Seq::empty(), xs).len() == odd_toggles(xs).len(),
    decreases xs.len(),
{
    let sel = toggled_all(Seq::<usize>::empty(), xs);
    if xs.len() == 0 {
        assert forall|i: usize| #[trigger] sel.contains(i) <==> occurrences(xs, i) % 2 == 1 by {}
    } else {
        let prev = toggled_all(Seq::<usize>::empty(), xs.drop_last());
        lemma_toggle_parity(xs.drop_last());
        lemma_toggle(prev, xs.last());
        assert forall|i: usize| #[trigger] sel.contains(i) <==> occurrences(xs, i) % 2 == 1 by {
            if i == xs.last() {
                assert(prev.contains(i) <==> occurrences(xs.drop_last(), i) % 2 == 1);
            } else {
                assert(prev.contains(i) <==> occurrences(xs.drop_last(), i) % 2 == 1);
            }
        }
    }
    assert(sel.to_set() =~= odd_toggles(xs)) by {
        assert forall|i: usize| sel.to_set().contains(i) <==> odd_toggles(xs).contains(i) by {
            assert(sel.contains(i) <==> occurrences(xs, i) % 2 == 1);
        }
    }
    sel.unique_seq_to_set();
}

/// After `new(items)` and any sequence of toggles `xs`: the items are still
/// `items`, in their order; a position is selected exactly when it was toggled
/// an odd number of times; and the number selected is the number of positions
/// toggled an odd number of times.
pub proof fn lemma_selection_after_toggles<T>(items: Seq<T>, xs: Seq<usize>)
    ensures
        toggle_states((items, Seq::<usize>::empty()), xs).0 == items,
        forall|i: usize|
            #[trigger] toggle_states((items, Seq::<usize>::empty()), xs).1.contains(i) <==> occurrences(xs, i)
                % 2 == 1,
        toggle_states((items, Seq::<usize>::empty()), xs).1.len() == odd_toggles(xs).len(),
        odd_toggles(xs).finite(),
{
    lemma_toggles_keep_items((items, Seq::<usize>::empty()), xs);
    lemma_toggle_parity(xs);
}

} // verus!
