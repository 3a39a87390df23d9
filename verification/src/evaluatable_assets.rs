//! The modules that are run, in order, once their chunk group has loaded.

use vstd::prelude::*;
use indexmap::IndexSet;
use crate::ordered::{set_get_index, set_insert, set_items, set_len, set_new};

verus! {

/// `items` with each item at the place where it first stands.
pub open spec fn deduped(items: Seq<usize>) -> Seq<usize>
    decreases items.len(),
{
    if items.len() == 0 {
        Seq::empty()
    } else {
        let before = deduped(items.drop_last());
        if before.contains(items.last()) {
            before
        } else {
            before.push(items.last())
        }
    }
}

/// `deduped` holds no item twice, and holds the items of `items`.
pub proof fn lemma_deduped(items: Seq<usize>)
    ensures
        deduped(items).no_duplicates(),
        forall|x: usize| #[trigger] deduped(items).contains(x) <==> items.contains(x),
    decreases items.len(),
{
    if items.len() > 0 {
        let rest = items.drop_last();
        let last = items.last();
        let before = deduped(rest);
        let all = deduped(items);
        lemma_deduped(rest);
        assert forall|x: usize| all.contains(x) <==> items.contains(x) by {
            if all.contains(x) {
                let i = choose|i: int| 0 <= i < all.len() && all[i] == x;
                if i < before.len() {
                    assert(before[i] == x);
                    assert(before.contains(x));
                    assert(rest.contains(x));
                    let j = choose|j: int| 0 <= j < rest.len() && rest[j] == x;
                    assert(items[j] == x);
                } else {
                    assert(items[items.len() - 1] == x);
                }
            }
            if items.contains(x) {
                let j = choose|j: int| 0 <= j < items.len() && items[j] == x;
                if j < rest.len() {
                    assert(rest[j] == x);
                    assert(rest.contains(x));
                    assert(before.contains(x));
                    let i = choose|i: int| 0 <= i < before.len() && before[i] == x;
                    assert(all[i] == x);
                } else if before.contains(x) {
                    let i = choose|i: int| 0 <= i < before.len() && before[i] == x;
                    assert(all[i] == x);
                } else {
                    assert(all[all.len() - 1] == x);
                }
            }
        }
        if !before.contains(last) {
            assert forall|i: int, j: int|
                0 <= i < all.len() && 0 <= j < all.len() && i != j implies all[i] != all[j] by {
                if i < before.len() && j < before.len() {
                } else if i < before.len() {
                    assert(before.contains(before[i]));
                } else {
                    assert(before.contains(before[j]));
                }
            }
        }
    }
}

/// A list that holds no item twice is its own `deduped`.
pub proof fn lemma_deduped_of_distinct(items: Seq<usize>)
    requires
        items.no_duplicates(),
    ensures
        deduped(items) == items,
    decreases items.len(),
{
    if items.len() > 0 {
        let rest = items.drop_last();
        lemma_deduped_of_distinct(rest);
        lemma_deduped(rest);
        if rest.contains(items.last()) {
            let j = choose|j: int| 0 <= j < rest.len() && rest[j] == items.last();
            assert(items[j] == items[items.len() - 1]);
        }
        assert(rest.push(items.last()) =~= items);
    } else {
        assert(items =~= Seq::<usize>::empty());
    }
}

/// The modules to run, named as in the graph that holds them: in the order in
/// which they were added, none twice.
pub struct EvaluatableAssets {
    assets: IndexSet<usize>,
}

impl View for EvaluatableAssets {
    type V = Seq<usize>;

    closed spec fn view(&self) -> Seq<usize> {
        set_items(self.assets)
    }
}

impl EvaluatableAssets {
    /// No module stands twice. This holds of every set that was made by the
    /// functions below.
    pub open spec fn wf(&self) -> bool {
        self@.no_duplicates()
    }

    /// No module to run.
    pub fn empty() -> (assets: EvaluatableAssets)
        ensures
            assets@ == Seq::<usize>::empty(),
            assets.wf(),
    {
        EvaluatableAssets { assets: set_new() }
    }

    /// The module alone.
    pub fn one(module: usize) -> (assets: EvaluatableAssets)
        ensures
            assets@ == seq![module],
            assets.wf(),
    {
        let mut assets = EvaluatableAssets::empty();
        assets.insert(module);
        assert(assets@ =~= seq![module]);
        assets
    }

    /// The modules of `modules`, each where it first stands.
    pub fn many(modules: &Vec<usize>) -> (assets: EvaluatableAssets)
        ensures
            assets@ == deduped(modules@),
            assets.wf(),
    {
        let mut assets = EvaluatableAssets::empty();
        let mut i: usize = 0;
        assert(modules@.subrange(0, 0) =~= Seq::<usize>::empty());
        while i < modules.len()
            invariant
                i <= modules@.len(),
                assets.wf(),
                assets@ == deduped(modules@.subrange(0, i as int)),
            decreases modules@.len() - i,
        {
            proof {
                let upto = modules@.subrange(0, i + 1);
                assert(upto.drop_last() =~= modules@.subrange(0, i as int));
                assert(upto.last() == modules@[i as int]);
            }
            assets.insert(modules[i]);
            i += 1;
        }
        assert(modules@.subrange(0, i as int) =~= modules@);
        assets
    }

    /// Adds `module` after the others, unless it is among them. Returns
    /// whether it was added.
    pub fn insert(&mut self, module: usize) -> (added: bool)
        ensures
            added == !old(self)@.contains(module),
            final(self)@ == if added {
                old(self)@.push(module)
            } else {
                old(self)@
            },
            old(self).wf() ==> final(self).wf(),
    {
        let ghost before = set_items(self.assets);
        let added = set_insert(&mut self.assets, module);
        proof {
            if added && before.no_duplicates() {
                let after = before.push(module);
                assert forall|i: int, j: int|
                    0 <= i < after.len() && 0 <= j < after.len() && i != j implies after[i]
                    != after[j] by {
                    if i < before.len() && j < before.len() {
                    } else if i < before.len() {
                        assert(before.contains(before[i]));
                    } else {
                        assert(before.contains(before[j]));
                    }
                }
            }
        }
        added
    }

    /// The number of modules.
    pub fn len(&self) -> (len: usize)
        ensures
            len == self@.len(),
    {
        set_len(&self.assets)
    }

    /// The module at `index`.
    pub fn get(&self, index: usize) -> (module: Option<usize>)
        ensures
            module == if index < self@.len() {
                Some(self@[index as int])
            } else {
                None
            },
    {
        set_get_index(&self.assets, index)
    }

    /// The modules in their order.
    pub fn to_vec(&self) -> (modules: Vec<usize>)
        ensures
            modules@ == self@,
    {
        let len = self.len();
        let mut modules: Vec<usize> = Vec::new();
        let mut i: usize = 0;
        while i < len
            invariant
                len == self@.len(),
                i <= len,
                modules@ == self@.subrange(0, i as int),
            decreases len - i,
        {
            match self.get(i) {
                Some(module) => {
                    modules.push(module);
                },
                None => {},
            }
            assert(modules@ =~= self@.subrange(0, i + 1));
            i += 1;
        }
        assert(self@.subrange(0, len as int) =~= self@);
        modules
    }
}

} // verus!
