//! The synthesized records, found again by the fields they hold.

use crate::conversion::ConversionSort;
use crate::generics::{Generics, GenericsView};
use crate::selections::ascending_keys;
use vstd::prelude::*;

verus! {

/// A synthesized record: which type of which field it holds, in the order of
/// the fields, and the generic parameters it declares.
pub struct StructPlan {
    pub fields: Vec<ConversionSort>,
    pub generics: Generics,
}

pub struct StructPlanView {
    pub fields: Seq<ConversionSort>,
    pub generics: GenericsView,
}

impl View for StructPlan {
    type V = StructPlanView;

    open spec fn view(&self) -> StructPlanView {
        StructPlanView { fields: self.fields@, generics: self.generics@ }
    }
}

/// The synthesized records of one kind, each under the key of its fields:
/// which type of which field it holds, in the order of the fields. In a record
/// that is generated for, no two keys stand for the same type, so a key
/// stands for the types that a synthesized record holds, whatever the order
/// they were asked for in.
pub struct Registry {
    pub entries: Vec<StructPlan>,
}

impl View for Registry {
    type V = Seq<StructPlanView>;

    open spec fn view(&self) -> Seq<StructPlanView> {
        Seq::new(self.entries@.len(), |i: int| self.entries@[i]@)
    }
}

/// Whether an entry stands under `key`.
pub open spec fn holds(entries: Seq<StructPlanView>, key: Seq<ConversionSort>) -> bool {
    exists|i: int| 0 <= i < entries.len() && (#[trigger] entries[i]).fields == key
}

/// The place of the entry under `key`: the first one, where it has several.
pub open spec fn position(entries: Seq<StructPlanView>, key: Seq<ConversionSort>) -> int {
    choose|i: int| is_position(entries, key, i)
}

/// Whether `i` is the first place of an entry under `key`.
pub open spec fn is_position(entries: Seq<StructPlanView>, key: Seq<ConversionSort>, i: int) -> bool {
    &&& 0 <= i < entries.len()
    &&& entries[i].fields == key
    &&& forall|j: int| 0 <= j < i ==> (#[trigger] entries[j]).fields != key
}

proof fn lemma_first_place(entries: Seq<StructPlanView>, key: Seq<ConversionSort>, i: int)
    requires
        0 <= i < entries.len(),
        entries[i].fields == key,
    ensures
        exists|f: int| is_position(entries, key, f),
    decreases i,
{
    if exists|j: int| 0 <= j < i && (#[trigger] entries[j]).fields == key {
        let j = choose|j: int| 0 <= j < i && (#[trigger] entries[j]).fields == key;
        lemma_first_place(entries, key, j);
    } else {
        assert(is_position(entries, key, i));
    }
}

/// Where an entry stands under `key`, `position` is the place of the first.
pub proof fn lemma_position(entries: Seq<StructPlanView>, key: Seq<ConversionSort>)
    requires
        holds(entries, key),
    ensures
        is_position(entries, key, position(entries, key)),
{
    let i = choose|i: int| 0 <= i < entries.len() && (#[trigger] entries[i]).fields == key;
    lemma_first_place(entries, key, i);
    let f = choose|f: int| is_position(entries, key, f);
    assert(is_position(entries, key, f));
}

/// Whether every key ascends and no two entries share a key.
pub open spec fn unambiguous(entries: Seq<StructPlanView>) -> bool {
    &&& forall|i: int| 0 <= i < entries.len() ==> ascending_keys((#[trigger] entries[i]).fields)
    &&& forall|i: int, j: int|
        0 <= i < j < entries.len() ==> (#[trigger] entries[i]).fields != (
        #[trigger] entries[j]).fields
}

/// Whether two keys are the same.
pub fn same_key(a: &Vec<ConversionSort>, b: &Vec<ConversionSort>) -> (r: bool)
    ensures
        r == (a@ == b@),
{
    if a.len() != b.len() {
        return false;
    }
    let mut i: usize = 0;
    while i < a.len()
        invariant
            i <= a.len(),
            a.len() == b.len(),
            forall|j: int| 0 <= j < i ==> a@[j] == b@[j],
        decreases a.len() - i,
    {
        if a[i].sort_number != b[i].sort_number || a[i].alternate != b[i].alternate {
            return false;
        }
        i += 1;
    }
    assert(a@ =~= b@);
    true
}

impl Registry {
    /// Whether every key ascends and no two entries share a key.
    pub open spec fn well_formed(self) -> bool {
        unambiguous(self@)
    }

    /// The empty registry.
    pub fn new() -> (r: Registry)
        ensures
            r.well_formed(),
            r@ == Seq::<StructPlanView>::empty(),
    {
        let r = Registry { entries: Vec::new() };
        assert(r@ =~= Seq::<StructPlanView>::empty());
        r
    }

    /// The place of the entry under `key`, if there is one.
    pub fn lookup(&self, key: &Vec<ConversionSort>) -> (r: Option<usize>)
        ensures
            r is Some <==> holds(self@, key@),
            r matches Some(i) ==> i == position(self@, key@) && i < self@.len() && self@[i as int].fields
                == key@,
    {
        let mut i: usize = 0;
        while i < self.entries.len()
            invariant
                i <= self.entries.len(),
                forall|j: int| 0 <= j < i ==> (#[trigger] self@[j]).fields != key@,
            decreases self.entries.len() - i,
        {
            if same_key(&self.entries[i].fields, key) {
                proof {
                    assert(is_position(self@, key@, i as int));
                    lemma_position(self@, key@);
                }
                return Some(i);
            }
            i += 1;
        }
        None
    }

    /// Enters `plan` under the key of its fields. A key is entered once: a
    /// second entry under it is refused with the place of the first, and the
    /// registry stays as it was.
    pub fn register(&mut self, plan: StructPlan) -> (r: Result<usize, usize>)
        requires
            old(self).well_formed(),
            ascending_keys(plan.fields@),
        ensures
            final(self).well_formed(),
            match r {
                Ok(i) => !holds(old(self)@, plan.fields@) && i == old(self)@.len() && final(self)@
                    == old(self)@.push(plan@),
                Err(i) => holds(old(self)@, plan.fields@) && i == position(
                    old(self)@,
                    plan.fields@,
                ) && final(self)@ == old(self)@,
            },
    {
        match self.lookup(&plan.fields) {
            Some(i) => Err(i),
            None => {
                let ghost before = self@;
                let i = self.entries.len();
                self.entries.push(plan);
                assert(self@ =~= before.push(plan@));
                Ok(i)
            },
        }
    }
}

} // verus!
