//! Generic selection tracking and panel visibility state.
//!
//! [`Selection`] tracks which items are selected in an editor (entities,
//! layers, tracks, clips), in selection order and without duplicates, plus a
//! "primary" item (the most recently selected) for inspector display.
//! [`PanelStates`] is a name-keyed visibility table for editor panels.

use vstd::prelude::*;
use vstd::std_specs::cmp::PartialEqSpec;

verus! {

// ---------------------------------------------------------------------------
// Selection
// ---------------------------------------------------------------------------

/// `==` on `T` is spec equality: what holds for integer identifiers.
pub open spec fn eq_is_identity<T: PartialEq>() -> bool {
    &&& T::obeys_eq_spec()
    &&& forall|x: T, y: T| #[trigger] x.eq_spec(&y) <==> x == y
}

/// `i` is the first position of `s` whose element compares equal to `item`.
pub open spec fn first_match<T: PartialEq>(s: Seq<T>, item: T, i: int) -> bool {
    &&& 0 <= i < s.len()
    &&& s[i].eq_spec(&item)
    &&& forall|j: int| 0 <= j < i ==> !(#[trigger] s[j]).eq_spec(&item)
}

/// No element of `s` compares equal to `item`.
pub open spec fn no_match<T: PartialEq>(s: Seq<T>, item: T) -> bool {
    forall|j: int| 0 <= j < s.len() ==> !(#[trigger] s[j]).eq_spec(&item)
}

/// `i` is the first position of `s` holding `item` or an element that
/// compares equal to it.
pub open spec fn holds_first<T: PartialEq>(s: Seq<T>, item: T, i: int) -> bool {
    &&& 0 <= i < s.len()
    &&& (s[i] == item || s[i].eq_spec(&item))
    &&& forall|j: int| 0 <= j < i ==> !(#[trigger] s[j]).eq_spec(&item)
}

/// No element of `s` compares equal to a later one.
pub open spec fn no_equal_pair<T: PartialEq>(s: Seq<T>) -> bool {
    forall|i: int, j: int| #![trigger s[i], s[j]] 0 <= i < j < s.len() ==> !s[i].eq_spec(&s[j])
}

/// `s` without its element at `i`.
pub open spec fn seq_remove<T>(s: Seq<T>, i: int) -> Seq<T> {
    s.take(i) + s.skip(i + 1)
}

/// The primary index after the element at `removed` left a sequence that
/// now has `new_len` elements.
pub open spec fn primary_after_remove(primary: Option<usize>, removed: int, new_len: int) -> Option<usize> {
    match primary {
        None => None,
        Some(p) => if new_len == 0 {
            None
        } else if removed == p {
            Some((new_len - 1) as usize)
        } else if removed < p {
            Some((p - 1) as usize)
        } else {
            Some(p)
        },
    }
}

/// `items` in order, keeping only the first of the elements that compare
/// equal to an earlier kept one.
pub open spec fn dedup<T: PartialEq>(items: Seq<T>) -> Seq<T>
    decreases items.len(),
{
    if items.len() == 0 {
        Seq::empty()
    } else {
        let kept = dedup(items.drop_last());
        if no_match(kept, items.last()) {
            kept.push(items.last())
        } else {
            kept
        }
    }
}

/// Generic selection tracker for editor items.
///
/// `T` is the item identifier type (e.g. `u64`). Items are stored in
/// selection order with duplicates prevented.
#[derive(Debug, Clone)]
pub struct Selection<T> {
    items: Vec<T>,
    primary_idx: Option<usize>,
}

impl<T: PartialEq + Clone> Selection<T> {
    /// The selected items, in selection order.
    pub closed spec fn spec_items(&self) -> Seq<T> {
        self.items@
    }

    /// Position of the primary item in `spec_items`, if any.
    pub closed spec fn spec_primary_index(&self) -> Option<usize> {
        self.primary_idx
    }

    /// The primary index points into the items exactly when there are items,
    /// and (for identity equality) no item is selected twice.
    pub open spec fn wf(&self) -> bool {
        &&& self.spec_items().len() <= usize::MAX
        &&& (self.spec_primary_index() is Some <==> self.spec_items().len() > 0)
        &&& (self.spec_primary_index() matches Some(p) ==> p < self.spec_items().len())
        &&& (eq_is_identity::<T>() ==> self.spec_items().no_duplicates())
        &&& (T::obeys_eq_spec() ==> no_equal_pair(self.spec_items()))
    }

    /// `self` is `prev` with the first item equal to `item` removed (the
    /// primary index follows its item, or falls back to the last item when
    /// the primary itself was removed); `prev` unchanged when none is equal.
    pub open spec fn removed(&self, prev: &Self, item: T) -> bool {
        let s = prev.spec_items();
        if no_match(s, item) {
            &&& self.spec_items() == s
            &&& self.spec_primary_index() == prev.spec_primary_index()
        } else {
            exists|i: int|
                #[trigger] first_match(s, item, i) && self.spec_items() == seq_remove(s, i)
                    && self.spec_primary_index() == primary_after_remove(
                    prev.spec_primary_index(),
                    i,
                    s.len() - 1,
                )
        }
    }

    /// `self` is `prev` with `item` added as the new primary item, or with the
    /// first item equal to it made primary when one is already selected.
    pub open spec fn added(&self, prev: &Self, item: T) -> bool {
        let s = prev.spec_items();
        if no_match(s, item) {
            &&& self.spec_items() == s.push(item)
            &&& self.spec_primary_index() == Some(s.len() as usize)
        } else {
            exists|i: int|
                #[trigger] first_match(s, item, i) && self.spec_items() == s
                    && self.spec_primary_index() == Some(i as usize)
        }
    }

    /// `self` is `prev` with `item` removed when an equal item is selected,
    /// and added as the new primary item otherwise.
    pub open spec fn toggled(&self, prev: &Self, item: T) -> bool {
        if no_match(prev.spec_items(), item) {
            self.added(prev, item)
        } else {
            self.removed(prev, item)
        }
    }

    /// Create an empty selection.
    pub fn new() -> (s: Self)
        ensures
            s.wf(),
            s.spec_items() == Seq::<T>::empty(),
            s.spec_primary_index() == None::<usize>,
    {
        Selection { items: Vec::new(), primary_idx: None }
    }

    /// First position of an item equal to `item`, if any.
    fn position(&self, item: &T) -> (r: Option<usize>)
        ensures
            T::obeys_eq_spec() ==> match r {
                Some(i) => first_match(self.items@, *item, i as int),
                None => no_match(self.items@, *item),
            },
            r matches Some(i) ==> i < self.items@.len(),
    {
        let n = self.items.len();
        let mut i: usize = 0;
        while i < n
            invariant
                i <= n,
                n == self.items@.len(),
                T::obeys_eq_spec() ==> forall|j: int| 0 <= j < i ==> !(#[trigger] self.items@[j]).eq_spec(item),
            decreases n - i,
        {
            if self.items[i] == *item {
                return Some(i);
            }
            i = i + 1;
        }
        None
    }

    /// Replace the entire selection with a single item.
    pub fn select(&mut self, item: T)
        requires
            old(self).wf(),
        ensures
            final(self).wf(),
            final(self).spec_items() == seq![item],
            final(self).spec_primary_index() == Some(0usize),
    {
        self.items.clear();
        self.items.push(item);
        self.primary_idx = Some(0);
        assert(self.items@ =~= seq![item]);
    }

    /// The primary index after removing the item at `removed_pos` (already
    /// removed from `self.items`).
    fn adjust_primary_after_remove(&self, removed_pos: usize) -> (r: Option<usize>)
        ensures
            r == primary_after_remove(self.primary_idx, removed_pos as int, self.items@.len() as int),
    {
        match self.primary_idx {
            None => None,
            Some(primary) => {
                if self.items.len() == 0 {
                    None
                } else if removed_pos == primary {
                    Some(self.items.len() - 1)
                } else if removed_pos < primary {
                    Some(primary - 1)
                } else {
                    Some(primary)
                }
            },
        }
    }

    /// Remove the item at `pos`, keeping the primary index on the same item
    /// when it was not the one removed.
    fn remove_at(&mut self, pos: usize)
        requires
            old(self).wf(),
            pos < old(self).items@.len(),
        ensures
            final(self).wf(),
            final(self).items@ == seq_remove(old(self).items@, pos as int),
            final(self).primary_idx == primary_after_remove(
                old(self).primary_idx,
                pos as int,
                old(self).items@.len() - 1,
            ),
    {
        let ghost before = self.items@;
        self.items.remove(pos);
        assert(self.items@ =~= seq_remove(before, pos as int));
        proof {
            if eq_is_identity::<T>() {
                assert forall|a: int, b: int| 0 <= a < b < self.items@.len() implies self.items@[a] != self.items@[b] by {
                    let oa = if a < pos { a } else { a + 1 };
                    let ob = if b < pos { b } else { b + 1 };
                    assert(self.items@[a] == before[oa]);
                    assert(self.items@[b] == before[ob]);
                }
            }
        }
        self.primary_idx = self.adjust_primary_after_remove(pos);
    }

    /// Append an item known not to be selected yet; it becomes primary.
    fn push_new(&mut self, item: T)
        requires
            old(self).wf(),
            T::obeys_eq_spec() ==> no_match(old(self).items@, item),
            old(self).items@.len() < usize::MAX,
        ensures
            final(self).wf(),
            final(self).items@ == old(self).items@.push(item),
            final(self).primary_idx == Some(old(self).items@.len() as usize),
    {
        let ghost before = self.items@;
        self.items.push(item);
        self.primary_idx = Some(self.items.len() - 1);
        proof {
            if eq_is_identity::<T>() {
                assert forall|a: int, b: int| 0 <= a < b < self.items@.len() implies self.items@[a] != self.items@[b] by {
                    if b == before.len() {
                        assert(!before[a].eq_spec(&item));
                    } else {
                        assert(self.items@[a] == before[a]);
                        assert(self.items@[b] == before[b]);
                    }
                }
            }
        }
    }

    /// Toggle an item in the selection: remove it if present, otherwise add
    /// it as the new primary item. Used for ctrl-click multi-select.
    pub fn toggle(&mut self, item: T)
        requires
            old(self).wf(),
            old(self).spec_items().len() < usize::MAX,
        ensures
            final(self).wf(),
            T::obeys_eq_spec() ==> final(self).toggled(old(self), item),
    {
        match self.position(&item) {
            Some(pos) => {
                proof {
                    if T::obeys_eq_spec() {
                        assert(first_match(self.items@, item, pos as int));
                    }
                }
                self.remove_at(pos);
            },
            None => {
                self.push_new(item);
            },
        }
    }

    /// Add an item to the selection without removing others; it becomes
    /// the primary item (whether it was already selected or not).
    pub fn add(&mut self, item: T)
        requires
            old(self).wf(),
            old(self).spec_items().len() < usize::MAX,
        ensures
            final(self).wf(),
            T::obeys_eq_spec() ==> final(self).added(old(self), item),
    {
        match self.position(&item) {
            Some(pos) => {
                proof {
                    if T::obeys_eq_spec() {
                        assert(first_match(self.items@, item, pos as int));
                    }
                }
                self.primary_idx = Some(pos);
            },
            None => {
                self.push_new(item);
            },
        }
    }

    /// Remove a specific item from the selection (no-op if absent).
    pub fn remove(&mut self, item: &T)
        requires
            old(self).wf(),
        ensures
            final(self).wf(),
            T::obeys_eq_spec() ==> final(self).removed(old(self), *item),
    {
        match self.position(item) {
            Some(pos) => {
                proof {
                    if T::obeys_eq_spec() {
                        assert(first_match(self.items@, *item, pos as int));
                    }
                }
                self.remove_at(pos);
            },
            None => {},
        }
    }

    /// Clear the selection.
    pub fn clear(&mut self)
        ensures
            final(self).wf(),
            final(self).spec_items() == Seq::<T>::empty(),
            final(self).spec_primary_index() == None::<usize>,
    {
        self.items.clear();
        self.primary_idx = None;
        assert(self.items@ =~= Seq::<T>::empty());
    }

    /// Whether an item is selected.
    pub fn contains(&self, item: &T) -> (b: bool)
        ensures
            T::obeys_eq_spec() ==> (b == !no_match(self.spec_items(), *item)),
    {
        match self.position(item) {
            Some(_) => true,
            None => false,
        }
    }

    /// The primary (most recently selected) item, used for inspector display.
    pub fn primary(&self) -> (r: Option<&T>)
        requires
            self.wf(),
        ensures
            match self.spec_primary_index() {
                Some(p) => r == Some(&self.spec_items()[p as int]),
                None => r is None,
            },
    {
        match self.primary_idx {
            Some(p) => Some(&self.items[p]),
            None => None,
        }
    }

    /// All selected items in selection order.
    pub fn items(&self) -> (s: &[T])
        ensures
            s@ == self.spec_items(),
    {
        self.items.as_slice()
    }

    /// Number of selected items.
    pub fn len(&self) -> (n: usize)
        ensures
            n == self.spec_items().len(),
    {
        self.items.len()
    }

    /// Whether nothing is selected.
    pub fn is_empty(&self) -> (b: bool)
        ensures
            b == (self.spec_items().len() == 0),
    {
        self.items.len() == 0
    }

    /// Whether exactly one item is selected.
    pub fn is_single(&self) -> (b: bool)
        ensures
            b == (self.spec_items().len() == 1),
    {
        self.items.len() == 1
    }

    /// Replace the selection with the given items, dropping repeats (the
    /// first occurrence stays). The last item given becomes primary: the
    /// selected item equal to it.
    pub fn select_many(&mut self, items: Vec<T>)
        requires
            old(self).wf(),
        ensures
            final(self).wf(),
            T::obeys_eq_spec() ==> final(self).spec_items() == dedup(items@),
            final(self).spec_primary_index() is None <==> items@.len() == 0,
            T::obeys_eq_spec() ==> match final(self).spec_primary_index() {
                Some(p) => holds_first(final(self).spec_items(), items@.last(), p as int),
                None => true,
            },
    {
        let ghost input = items@;
        let n_input = items.len();
        // Reverse the input so that popping yields the items in their order.
        let mut source = items;
        let mut pending: Vec<T> = Vec::new();
        while source.len() > 0
            invariant
                pending@ + source@.reverse() == input.reverse(),
            decreases source@.len(),
        {
            let ghost s0 = source@;
            let ghost p0 = pending@;
            let x = source.pop().unwrap();
            pending.push(x);
            proof {
                assert(s0 =~= source@.push(x));
                assert(s0.reverse() =~= seq![x] + source@.reverse());
                assert(pending@ + source@.reverse() =~= p0 + s0.reverse());
            }
        }
        assert(pending@ =~= input.reverse());
        self.items.clear();
        self.primary_idx = None;
        let ghost n = input.len();
        let mut last_pos: usize = 0;
        while pending.len() > 0
            invariant
                pending@.len() <= n,
                n == input.len(),
                pending@ == input.skip(n - pending@.len()).reverse(),
                T::obeys_eq_spec() ==> self.items@ == dedup(input.take(n - pending@.len())),
                eq_is_identity::<T>() ==> self.items@.no_duplicates(),
                T::obeys_eq_spec() ==> no_equal_pair(self.items@),
                self.items@.len() <= n - pending@.len(),
                self.primary_idx is None,
                pending@.len() < n ==> last_pos < self.items@.len(),
                pending@.len() < n && T::obeys_eq_spec() ==> holds_first(
                    self.items@,
                    input[n - pending@.len() - 1],
                    last_pos as int,
                ),
            decreases pending@.len(),
        {
            let ghost k = n - pending@.len();
            let ghost p0 = pending@;
            let x = pending.pop().unwrap();
            proof {
                assert(input.skip(k).reverse() =~= p0);
                assert(input[k] == x) by {
                    assert(p0.last() == x);
                    assert(p0[p0.len() - 1] == input.skip(k)[0]);
                }
                assert(pending@ =~= input.skip(k + 1).reverse()) by {
                    assert forall|j: int| 0 <= j < pending@.len() implies pending@[j] == input.skip(k + 1).reverse()[j] by {
                        assert(pending@[j] == p0[j]);
                    }
                }
                assert(input.take(k + 1).drop_last() =~= input.take(k));
                assert(input.take(k + 1).last() == x);
            }
            let ghost before = self.items@;
            let found = self.position(&x);
            match found {
                Some(p) => {
                    last_pos = p;
                },
                None => {
                    last_pos = self.items.len();
                },
            }
            if found.is_none() {
                self.items.push(x);
                proof {
                    if T::obeys_eq_spec() {
                        assert forall|a: int, b: int| #![trigger self.items@[a], self.items@[b]] 0 <= a < b < self.items@.len() implies !self.items@[a].eq_spec(&self.items@[b]) by {
                            if b == before.len() {
                                assert(!before[a].eq_spec(&x));
                            } else {
                                assert(self.items@[a] == before[a]);
                                assert(self.items@[b] == before[b]);
                            }
                        }
                    }
                }
                proof {
                    if eq_is_identity::<T>() {
                        assert forall|a: int, b: int| 0 <= a < b < self.items@.len() implies self.items@[a] != self.items@[b] by {
                            if b == before.len() {
                                assert(!before[a].eq_spec(&x));
                            } else {
                                assert(self.items@[a] == before[a]);
                                assert(self.items@[b] == before[b]);
                            }
                        }
                    }
                }
            }
            proof {
                if T::obeys_eq_spec() {
                    assert(dedup(input.take(k + 1)) == (if no_match(before, x) { before.push(x) } else { before }));
                    if found is Some {
                        assert(!no_match(before, x));
                    }
                }
            }
        }
        proof {
            assert(input.take(n as int) =~= input);
        }
        if n_input == 0 {
            self.primary_idx = None;
        } else {
            self.primary_idx = Some(last_pos);
        }
    }
}

/// Keeping the first of equal items loses no item: with identity equality,
/// an item occurs in `dedup(items)` exactly when it occurs in `items`, and
/// never twice.
pub proof fn lemma_dedup_keeps_items<T: PartialEq>(items: Seq<T>, y: T)
    requires
        eq_is_identity::<T>(),
    ensures
        dedup(items).contains(y) <==> items.contains(y),
        dedup(items).no_duplicates(),
    decreases items.len(),
{
    if items.len() > 0 {
        let init = items.drop_last();
        lemma_dedup_keeps_items(init, y);
        lemma_dedup_keeps_items(init, items.last());
        let kept = dedup(init);
        if items.contains(y) && !init.contains(y) {
            let k = choose|k: int| 0 <= k < items.len() && items[k] == y;
            if k < init.len() {
                assert(init[k] == y);
            }
        }
        if init.contains(y) {
            let k = choose|k: int| 0 <= k < init.len() && init[k] == y;
            assert(items[k] == y);
        }
        if no_match(kept, items.last()) {
            assert(kept.push(items.last()).last() == items.last());
            if kept.contains(y) {
                let k = choose|k: int| 0 <= k < kept.len() && kept[k] == y;
                assert(kept.push(items.last())[k] == y);
            }
            assert forall|a: int, b: int| 0 <= a < b < kept.len() + 1 implies kept.push(items.last())[a]
                != kept.push(items.last())[b] by {
                if b == kept.len() {
                    assert(!kept[a].eq_spec(&items.last()));
                }
            }
        } else {
            let k = choose|k: int| 0 <= k < kept.len() && (#[trigger] kept[k]).eq_spec(&items.last());
            assert(kept.contains(items.last())) by {
                assert(kept[k] == items.last());
            }
        }
    }
}

/// Toggling the same item twice restores whether it is selected.
pub proof fn lemma_toggle_twice_restores_membership<T: PartialEq + Clone>(
    s0: Selection<T>,
    s1: Selection<T>,
    s2: Selection<T>,
    item: T,
)
    requires
        eq_is_identity::<T>(),
        s0.wf(),
        s1.wf(),
        s1.toggled(&s0, item),
        s2.toggled(&s1, item),
    ensures
        s2.spec_items().contains(item) <==> s0.spec_items().contains(item),
{
    lemma_selected_after_add_or_remove(s0, s1, item);
    lemma_selected_after_add_or_remove(s1, s2, item);
}

/// After `add`, the item is selected; after `remove` of a selected item in a
/// well-formed selection, it no longer is (identity equality).
pub proof fn lemma_selected_after_add_or_remove<T: PartialEq + Clone>(s0: Selection<T>, s1: Selection<T>, item: T)
    requires
        eq_is_identity::<T>(),
        s0.wf(),
        s1.toggled(&s0, item),
    ensures
        s1.spec_items().contains(item) <==> !s0.spec_items().contains(item),
{
    let s = s0.spec_items();
    if no_match(s, item) {
        assert(s.push(item)[s.len() as int] == item);
        if s.contains(item) {
            let k = choose|k: int| 0 <= k < s.len() && s[k] == item;
            assert(s[k].eq_spec(&item));
        }
    } else {
        let i = choose|i: int| #[trigger] first_match(s, item, i) && s1.spec_items() == seq_remove(s, i)
            && s1.spec_primary_index() == primary_after_remove(s0.spec_primary_index(), i, s.len() - 1);
        assert(s[i] == item);
        let r = seq_remove(s, i);
        if r.contains(item) {
            let k = choose|k: int| 0 <= k < r.len() && r[k] == item;
            if k < i {
                assert(r[k] == s[k]);
            } else {
                assert(r[k] == s[k + 1]);
            }
        }
    }
}

/// After `add`, the primary item is the added item (identity equality).
pub proof fn lemma_add_makes_primary<T: PartialEq + Clone>(s0: Selection<T>, s1: Selection<T>, item: T)
    requires
        eq_is_identity::<T>(),
        s0.wf(),
        s1.added(&s0, item),
    ensures
        s1.spec_primary_index() matches Some(p) && p < s1.spec_items().len()
            && s1.spec_items()[p as int] == item,
{
    let s = s0.spec_items();
    if no_match(s, item) {
        assert(s.push(item)[s.len() as int] == item);
    } else {
        let i = choose|i: int| #[trigger] first_match(s, item, i) && s1.spec_items() == s
            && s1.spec_primary_index() == Some(i as usize);
        assert(s[i].eq_spec(&item));
    }
}

/// Removing an item keeps the primary on the same item when that item was
/// not the one removed. When the primary item itself was removed, the
/// primary falls back to the last remaining item, wherever the removed one
/// sat; a selection left empty has no primary.
pub proof fn lemma_remove_moves_primary<T: PartialEq + Clone>(s0: Selection<T>, s1: Selection<T>, item: T, p: usize)
    requires
        T::obeys_eq_spec(),
        s0.wf(),
        s1.removed(&s0, item),
        s0.spec_primary_index() == Some(p),
    ensures
        s1.spec_items().len() == 0 ==> s1.spec_primary_index() is None,
        s1.spec_items().len() > 0 && first_match(s0.spec_items(), item, p as int) ==> s1.spec_primary_index()
            == Some((s1.spec_items().len() - 1) as usize),
        s1.spec_items().len() > 0 && !first_match(s0.spec_items(), item, p as int) ==> (s1.spec_primary_index() matches Some(
            q,
        ) && q < s1.spec_items().len() && s1.spec_items()[q as int] == s0.spec_items()[p as int]),
{
    let s = s0.spec_items();
    if !no_match(s, item) {
        let i = choose|i: int|
            #[trigger] first_match(s, item, i) && s1.spec_items() == seq_remove(s, i) && s1.spec_primary_index()
                == primary_after_remove(s0.spec_primary_index(), i, s.len() - 1);
        if first_match(s, item, p as int) {
            if i < p {
                assert(s[i].eq_spec(&item));
            } else if i > p {
                assert(s[p as int].eq_spec(&item));
            }
            assert(i == p);
        } else {
            assert(i != p);
            let r = seq_remove(s, i);
            if i < p {
                assert(r[p - 1] == s[p as int]);
            } else {
                assert(r[p as int] == s[p as int]);
            }
        }
    }
}

impl<T: PartialEq + Clone> Default for Selection<T> {
    fn default() -> (s: Self)
        ensures
            s.wf(),
            s.spec_items() == Seq::<T>::empty(),
            s.spec_primary_index() == None::<usize>,
    {
        Self::new()
    }
}

// ---------------------------------------------------------------------------
// PanelStates
// ---------------------------------------------------------------------------

/// Panel `name` sits at position `i` of the table `s`.
pub open spec fn panel_at(s: Seq<(Seq<char>, bool)>, name: Seq<char>, i: int) -> bool {
    0 <= i < s.len() && s[i].0 == name
}

/// Panel `name` is in the table `s`.
pub open spec fn panel_registered(s: Seq<(Seq<char>, bool)>, name: Seq<char>) -> bool {
    exists|i: int| #[trigger] panel_at(s, name, i)
}

/// Panel `name` is in the table `s` and visible there.
pub open spec fn panel_visible(s: Seq<(Seq<char>, bool)>, name: Seq<char>) -> bool {
    exists|i: int| #[trigger] panel_at(s, name, i) && s[i].1
}

/// Panel visibility state manager.
///
/// Tracks which editor panels are visible, by name, in registration order.
#[derive(Debug, Clone)]
pub struct PanelStates {
    panels: Vec<(String, bool)>,
}

impl PanelStates {
    /// The panel table: each registered name with its visibility.
    pub closed spec fn spec_panels(&self) -> Seq<(Seq<char>, bool)> {
        Seq::new(self.panels@.len(), |i: int| (self.panels@[i].0@, self.panels@[i].1))
    }

    /// Each panel name is registered at most once.
    pub open spec fn wf(&self) -> bool {
        forall|i: int, j: int|
            0 <= i < j < self.spec_panels().len() ==> (#[trigger] self.spec_panels()[i]).0
                != (#[trigger] self.spec_panels()[j]).0
    }

    /// `self` is `prev` with panel `name` set to `visible` if it was
    /// registered (`add` false) or registered anew at the end (`add` true).
    pub open spec fn with_visibility(&self, prev: &Self, name: Seq<char>, visible: bool, add: bool) -> bool {
        let s = prev.spec_panels();
        if panel_registered(s, name) {
            exists|i: int| #[trigger] panel_at(s, name, i) && self.spec_panels() == s.update(i, (name, visible))
        } else if add {
            self.spec_panels() == s.push((name, visible))
        } else {
            self.spec_panels() == s
        }
    }

    /// Create an empty panel state manager.
    pub fn new() -> (p: Self)
        ensures
            p.wf(),
            p.spec_panels() == Seq::<(Seq<char>, bool)>::empty(),
    {
        let p = PanelStates { panels: Vec::new() };
        assert(p.spec_panels() =~= Seq::<(Seq<char>, bool)>::empty());
        p
    }

    /// Position of panel `name`, if registered.
    fn find(&self, name: &str) -> (r: Option<usize>)
        requires
            self.wf(),
        ensures
            match r {
                Some(i) => panel_at(self.spec_panels(), name@, i as int),
                None => !panel_registered(self.spec_panels(), name@),
            },
    {
        let key = name.to_owned();
        let n = self.panels.len();
        let mut i: usize = 0;
        while i < n
            invariant
                i <= n,
                n == self.panels@.len(),
                key@ == name@,
                forall|j: int| 0 <= j < i ==> (#[trigger] self.panels@[j]).0@ != name@,
            decreases n - i,
        {
            if self.panels[i].0 == key {
                assert(self.spec_panels()[i as int] == (self.panels@[i as int].0@, self.panels@[i as int].1));
                return Some(i);
            }
            i = i + 1;
        }
        proof {
            if panel_registered(self.spec_panels(), name@) {
                let k = choose|k: int| #[trigger] panel_at(self.spec_panels(), name@, k);
                assert(self.spec_panels()[k].0 == self.panels@[k].0@);
            }
        }
        None
    }

    /// Set the visibility of the panel at `i` (an index into the table).
    fn set_at(&mut self, i: usize, visible: bool)
        requires
            old(self).wf(),
            i < old(self).panels@.len(),
        ensures
            final(self).wf(),
            final(self).panels@.len() == old(self).panels@.len(),
            final(self).spec_panels() == old(self).spec_panels().update(
                i as int,
                (old(self).spec_panels()[i as int].0, visible),
            ),
    {
        let name = self.panels[i].0.clone();
        self.panels.set(i, (name, visible));
        assert(self.spec_panels() =~= old(self).spec_panels().update(
            i as int,
            (old(self).spec_panels()[i as int].0, visible),
        ));
    }

    /// Register a panel with an initial visibility state. Registering an
    /// existing name sets its visibility.
    pub fn register(&mut self, name: &str, visible: bool)
        requires
            old(self).wf(),
        ensures
            final(self).wf(),
            final(self).with_visibility(old(self), name@, visible, true),
    {
        match self.find(name) {
            Some(i) => {
                self.set_at(i, visible);
            },
            None => {
                let ghost before = self.spec_panels();
                self.panels.push((name.to_owned(), visible));
                assert(self.spec_panels() =~= before.push((name@, visible)));
                assert forall|a: int, b: int| 0 <= a < b < self.spec_panels().len() implies (
                #[trigger] self.spec_panels()[a]).0 != (#[trigger] self.spec_panels()[b]).0 by {
                    if b == before.len() {
                        assert(!panel_at(before, name@, a));
                    } else {
                        assert(self.spec_panels()[a] == before[a]);
                        assert(self.spec_panels()[b] == before[b]);
                    }
                }
            },
        }
    }

    /// Whether a panel is visible. Returns `false` for unregistered panels.
    pub fn is_visible(&self, name: &str) -> (b: bool)
        requires
            self.wf(),
        ensures
            b == panel_visible(self.spec_panels(), name@),
    {
        match self.find(name) {
            Some(i) => {
                proof {
                    let s = self.spec_panels();
                    assert(s[i as int].1 == self.panels@[i as int].1);
                    if panel_visible(s, name@) {
                        let k = choose|k: int| #[trigger] panel_at(s, name@, k) && s[k].1;
                        assert(k == i);
                    }
                }
                self.panels[i].1
            },
            None => false,
        }
    }

    /// Set a panel's visibility. No-op for unregistered panels.
    pub fn set_visible(&mut self, name: &str, visible: bool)
        requires
            old(self).wf(),
        ensures
            final(self).wf(),
            final(self).with_visibility(old(self), name@, visible, false),
    {
        match self.find(name) {
            Some(i) => {
                self.set_at(i, visible);
            },
            None => {},
        }
    }

    /// Toggle a panel's visibility and return the new state; `None` (and no
    /// change) when the panel is not registered.
    pub fn toggle(&mut self, name: &str) -> (r: Option<bool>)
        requires
            old(self).wf(),
        ensures
            final(self).wf(),
            r is Some <==> panel_registered(old(self).spec_panels(), name@),
            match r {
                Some(v) => v == !panel_visible(old(self).spec_panels(), name@)
                    && final(self).with_visibility(old(self), name@, v, false),
                None => !panel_registered(old(self).spec_panels(), name@)
                    && final(self).spec_panels() == old(self).spec_panels(),
            },
    {
        match self.find(name) {
            Some(i) => {
                let v = !self.panels[i].1;
                proof {
                    let s = self.spec_panels();
                    assert(s[i as int].1 == self.panels@[i as int].1);
                    if panel_visible(s, name@) {
                        let k = choose|k: int| #[trigger] panel_at(s, name@, k) && s[k].1;
                        assert(k == i);
                    }
                }
                self.set_at(i, v);
                Some(v)
            },
            None => None,
        }
    }

    /// All registered panel names and their visibility, in registration order.
    pub fn panels(&self) -> (s: &[(String, bool)])
        ensures
            s@.len() == self.spec_panels().len(),
            forall|i: int| 0 <= i < s@.len() ==> (#[trigger] s@[i]).0@ == self.spec_panels()[i].0
                && s@[i].1 == self.spec_panels()[i].1,
    {
        self.panels.as_slice()
    }

    /// Number of registered panels.
    pub fn len(&self) -> (n: usize)
        ensures
            n == self.spec_panels().len(),
    {
        self.panels.len()
    }

    /// Whether no panels are registered.
    pub fn is_empty(&self) -> (b: bool)
        ensures
            b == (self.spec_panels().len() == 0),
    {
        self.panels.len() == 0
    }

    /// Set every registered panel to `visible`.
    fn set_all(&mut self, visible: bool)
        requires
            old(self).wf(),
        ensures
            final(self).wf(),
            final(self).spec_panels() == old(self).spec_panels().map_values(
                |p: (Seq<char>, bool)| (p.0, visible),
            ),
    {
        let n = self.panels.len();
        let mut i: usize = 0;
        while i < n
            invariant
                i <= n,
                n == self.panels@.len(),
                self.wf(),
                self.spec_panels().len() == old(self).spec_panels().len(),
                forall|j: int| 0 <= j < n ==> (#[trigger] self.spec_panels()[j]).0 == old(self).spec_panels()[j].0,
                forall|j: int| 0 <= j < i ==> (#[trigger] self.spec_panels()[j]).1 == visible,
                forall|j: int| i <= j < n ==> (#[trigger] self.spec_panels()[j]).1 == old(self).spec_panels()[j].1,
            decreases n - i,
        {
            self.set_at(i, visible);
            i = i + 1;
        }
        assert(self.spec_panels() =~= old(self).spec_panels().map_values(
            |p: (Seq<char>, bool)| (p.0, visible),
        ));
    }

    /// Show all panels.
    pub fn show_all(&mut self)
        requires
            old(self).wf(),
        ensures
            final(self).wf(),
            final(self).spec_panels() == old(self).spec_panels().map_values(
                |p: (Seq<char>, bool)| (p.0, true),
            ),
    {
        self.set_all(true);
    }

    /// Hide all panels.
    pub fn hide_all(&mut self)
        requires
            old(self).wf(),
        ensures
            final(self).wf(),
            final(self).spec_panels() == old(self).spec_panels().map_values(
                |p: (Seq<char>, bool)| (p.0, false),
            ),
    {
        self.set_all(false);
    }
}

impl Default for PanelStates {
    fn default() -> (p: Self)
        ensures
            p.wf(),
            p.spec_panels() == Seq::<(Seq<char>, bool)>::empty(),
    {
        Self::new()
    }
}

/// A registered panel reads back the visibility it was registered or set
/// with; an unregistered one reads as hidden.
pub proof fn lemma_visibility_reads_back(p0: PanelStates, p1: PanelStates, name: Seq<char>, visible: bool, add: bool)
    requires
        p0.wf(),
        p1.with_visibility(&p0, name, visible, add),
        add || panel_registered(p0.spec_panels(), name),
    ensures
        panel_registered(p1.spec_panels(), name),
        panel_visible(p1.spec_panels(), name) == visible,
{
    let s = p0.spec_panels();
    if panel_registered(s, name) {
        let i = choose|i: int| #[trigger] panel_at(s, name, i) && p1.spec_panels() == s.update(i, (name, visible));
        assert(panel_at(p1.spec_panels(), name, i));
        if panel_visible(p1.spec_panels(), name) {
            let k = choose|k: int| #[trigger] panel_at(p1.spec_panels(), name, k) && p1.spec_panels()[k].1;
            if k != i {
                assert(s[k].0 == name);
            }
        }
    } else {
        let t = s.push((name, visible));
        assert(panel_at(t, name, s.len() as int));
        if panel_visible(t, name) {
            let k = choose|k: int| #[trigger] panel_at(t, name, k) && t[k].1;
            if k < s.len() {
                assert(panel_at(s, name, k));
            }
        }
    }
}

/// An unregistered panel is never visible.
pub proof fn lemma_unregistered_hidden(s: Seq<(Seq<char>, bool)>, name: Seq<char>)
    requires
        !panel_registered(s, name),
    ensures
        !panel_visible(s, name),
{
}

/// Toggling the same panel twice restores the panel table.
pub proof fn lemma_toggle_twice_restores(
    p0: PanelStates,
    p1: PanelStates,
    p2: PanelStates,
    name: Seq<char>,
)
    requires
        p0.wf(),
        p1.wf(),
        panel_registered(p0.spec_panels(), name),
        p1.with_visibility(&p0, name, !panel_visible(p0.spec_panels(), name), false),
        p2.with_visibility(&p1, name, !panel_visible(p1.spec_panels(), name), false),
    ensures
        p2.spec_panels() == p0.spec_panels(),
{
    let s = p0.spec_panels();
    let i = choose|i: int| #[trigger] panel_at(s, name, i) && p1.spec_panels() == s.update(i, (name, !panel_visible(s, name)));
    lemma_visibility_reads_back(p0, p1, name, !panel_visible(s, name), false);
    let t = p1.spec_panels();
    let j = choose|j: int| #[trigger] panel_at(t, name, j) && p2.spec_panels() == t.update(j, (name, !panel_visible(t, name)));
    if j != i {
        assert(t[j] == s[j]);
        assert(panel_at(s, name, j));
    }
    if panel_visible(s, name) {
        let k = choose|k: int| #[trigger] panel_at(s, name, k) && s[k].1;
        if k != i {
            assert(s[k].0 == name);
        }
    } else {
        if s[i].1 {
            assert(panel_at(s, name, i));
        }
    }
    assert(p2.spec_panels() =~= s);
}

} // verus!
