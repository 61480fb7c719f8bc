use vstd::prelude::*;
use crate::commands::{set_component, with_component};
use crate::id::SystemId;
use crate::world::{find_kind, first_of_kind, has_kind, Component};

verus! {

/// A resource handed to one unit of work, fetched under that unit's id.
#[derive(Clone, Copy, Debug, PartialEq, Eq, Structural)]
pub struct Fetched {
    pub kind: u32,
    pub system: SystemId,
    pub value: u64,
}

/// A unit of work's tracking slot for one resource kind.
#[derive(Clone, Copy, Debug, PartialEq, Eq, Structural)]
pub struct Registration {
    pub kind: u32,
    pub system: SystemId,
}

/// The value of resource `kind` in `values`, if it is there.
pub open spec fn resource_value(values: Seq<Component>, kind: u32) -> Option<u64> {
    match first_of_kind(values, kind) {
        Some(c) => Some(c.value),
        None => None,
    }
}

/// The resources after setting each of `updates`, in order.
pub open spec fn set_resources(values: Seq<Component>, updates: Seq<Component>) -> Seq<Component>
    decreases updates.len(),
{
    if updates.len() == 0 {
        values
    } else {
        with_component(set_resources(values, updates.drop_last()), updates.last())
    }
}

/// The fetch of resource `kind` by unit `system`.
pub open spec fn fetch_of(values: Seq<Component>, kind: u32, system: SystemId) -> Fetched {
    Fetched { kind, system, value: resource_value(values, kind)->0 }
}

/// Singleton values keyed by kind, and the units registered for each.
pub struct Resources {
    values: Vec<Component>,
    registrations: Vec<Registration>,
}

impl Resources {
    /// Each resource as a component of its kind; the first of a kind counts.
    pub closed spec fn values(&self) -> Seq<Component> {
        self.values@
    }

    pub closed spec fn slots(&self) -> Seq<Registration> {
        self.registrations@
    }

    /// The tracking slots, in the order they were made.
    pub fn registrations(&self) -> (r: &Vec<Registration>)
        ensures
            r@ == self.slots(),
    {
        &self.registrations
    }

    pub open spec fn value(&self, kind: u32) -> Option<u64> {
        resource_value(self.values(), kind)
    }

    pub fn new() -> (r: Resources)
        ensures
            forall|k: u32| r.value(k) is None,
            r.slots() == Seq::<Registration>::empty(),
    {
        Resources { values: Vec::new(), registrations: Vec::new() }
    }

    /// Sets resource `kind` to `value`.
    pub fn insert(&mut self, kind: u32, value: u64)
        ensures
            final(self).value(kind) == Some(value),
            forall|k: u32| k != kind ==> final(self).value(k) == old(self).value(k),
            final(self).slots() == old(self).slots(),
            final(self).values() == with_component(old(self).values(), Component { kind, value }),
    {
        let c = Component { kind, value };
        self.values = set_component(&self.values, c);
        proof { lemma_with_component_values(old(self).values(), c); }
    }

    /// Sets each resource in `updates`, in order; a later update of a kind
    /// wins.
    pub fn set_all(&mut self, updates: &Vec<Component>)
        ensures
            final(self).values() == set_resources(old(self).values(), updates@),
            final(self).slots() == old(self).slots(),
    {
        let mut i: usize = 0;
        while i < updates.len()
            invariant
                i <= updates@.len(),
                self.values() == set_resources(old(self).values(), updates@.take(i as int)),
                self.slots() == old(self).slots(),
            decreases updates@.len() - i,
        {
            let c = updates[i];
            proof {
                assert(updates@.take(i + 1).drop_last() =~= updates@.take(i as int));
                assert(updates@.take(i + 1).last() == c);
            }
            self.insert(c.kind, c.value);
            i = i + 1;
        }
        assert(updates@.take(i as int) =~= updates@);
    }

    pub fn get(&self, kind: u32) -> (r: Option<u64>)
        ensures
            r == self.value(kind),
    {
        match find_kind(&self.values, kind) {
            Some(c) => Some(c.value),
            None => None,
        }
    }

    /// Gives each kind in `kinds` a value (0 where it has none yet) and a
    /// tracking slot for unit `system`.
    pub fn initialize(&mut self, kinds: &Vec<u32>, system: SystemId)
        ensures
            forall|i: int| 0 <= i < kinds@.len() ==> final(self).value(#[trigger] kinds@[i]) is Some,
            forall|k: u32| kinds@.contains(k) && old(self).value(k) is None ==> final(self).value(k) == Some(0u64),
            forall|k: u32| old(self).value(k) is Some ==> final(self).value(k) == old(self).value(k),
            forall|k: u32| !kinds@.contains(k) ==> final(self).value(k) == old(self).value(k),
            final(self).slots() == old(self).slots() + kinds@.map_values(
                |k: u32| Registration { kind: k, system },
            ),
    {
        let mut i: usize = 0;
        while i < kinds.len()
            invariant
                i <= kinds@.len(),
                forall|j: int| 0 <= j < i ==> self.value(#[trigger] kinds@[j]) is Some,
                forall|k: u32|
                    kinds@.take(i as int).contains(k) && old(self).value(k) is None ==> self.value(k) == Some(0u64),
                forall|k: u32| old(self).value(k) is Some ==> self.value(k) == old(self).value(k),
                forall|k: u32| !kinds@.take(i as int).contains(k) ==> self.value(k) == old(self).value(k),
                self.slots() == old(self).slots() + kinds@.take(i as int).map_values(
                    |k: u32| Registration { kind: k, system },
                ),
            decreases kinds@.len() - i,
        {
            let kind = kinds[i];
            if self.get(kind).is_none() {
                self.insert(kind, 0);
            }
            self.registrations.push(Registration { kind, system });
            proof {
                assert(kinds@.take(i + 1) =~= kinds@.take(i as int).push(kind));
                assert(kinds@.take(i + 1).map_values(|k: u32| Registration { kind: k, system })
                    =~= kinds@.take(i as int).map_values(|k: u32| Registration { kind: k, system }).push(
                    Registration { kind, system },
                ));
                assert forall|k: u32|
                    kinds@.take(i + 1).contains(k) && old(self).value(k) is None implies self.value(k) == Some(0u64) by {
                    if k != kind {
                        let j = choose|j: int| 0 <= j < i + 1 && #[trigger] kinds@.take(i + 1)[j] == k;
                        assert(kinds@.take(i as int)[j] == k);
                    }
                }
                assert forall|k: u32| !kinds@.take(i + 1).contains(k) implies self.value(k) == old(
                    self,
                ).value(k) by {
                    assert(kinds@.take(i + 1)[i as int] == kind);
                }
            }
            i = i + 1;
        }
        assert(kinds@.take(i as int) =~= kinds@);
    }

    /// Fetches each kind in `kinds` for unit `system`, in order; `None` when
    /// one of them has no value.
    pub fn fetch(&self, kinds: &Vec<u32>, system: SystemId) -> (r: Option<Vec<Fetched>>)
        ensures
            r is Some <==> forall|i: int| 0 <= i < kinds@.len() ==> self.value(#[trigger] kinds@[i]) is Some,
            r is Some ==> r->0@ == kinds@.map_values(|k: u32| fetch_of(self.values(), k, system)),
    {
        let mut out: Vec<Fetched> = Vec::new();
        let mut i: usize = 0;
        while i < kinds.len()
            invariant
                i <= kinds@.len(),
                forall|j: int| 0 <= j < i ==> self.value(#[trigger] kinds@[j]) is Some,
                out@ == kinds@.take(i as int).map_values(|k: u32| fetch_of(self.values(), k, system)),
            decreases kinds@.len() - i,
        {
            let kind = kinds[i];
            match self.get(kind) {
                Some(value) => {
                    out.push(Fetched { kind, system, value });
                    assert(kinds@.take(i + 1) =~= kinds@.take(i as int).push(kind));
                    assert(out@ =~= kinds@.take(i + 1).map_values(|k: u32| fetch_of(self.values(), k, system)));
                },
                None => {
                    return None;
                },
            }
            i = i + 1;
        }
        assert(kinds@.take(i as int) =~= kinds@);
        Some(out)
    }
}

/// The first component of a kind in a row with `c` set.
pub proof fn lemma_with_component_first(row: Seq<Component>, c: Component, kind: u32)
    ensures
        first_of_kind(crate::commands::with_component(row, c), kind) == if kind == c.kind {
            Some(c)
        } else {
            first_of_kind(row, kind)
        },
{
    lemma_without_kind_first(row, c.kind, kind);
    lemma_first_of_kind_push(crate::world::without_kind(row, c.kind), c, kind);
}

proof fn lemma_with_component_values(row: Seq<Component>, c: Component)
    ensures
        resource_value(crate::commands::with_component(row, c), c.kind) == Some(c.value),
        forall|k: u32|
            k != c.kind ==> resource_value(crate::commands::with_component(row, c), k)
                == resource_value(row, k),
{
    lemma_with_component_first(row, c, c.kind);
    assert forall|k: u32| k != c.kind implies resource_value(
        crate::commands::with_component(row, c),
        k,
    ) == resource_value(row, k) by {
        lemma_with_component_first(row, c, k);
    }
}

/// Taking out one kind leaves the first of every other kind, and none of it.
pub proof fn lemma_without_kind_first(row: Seq<Component>, gone: u32, kind: u32)
    ensures
        first_of_kind(crate::world::without_kind(row, gone), kind) == if kind == gone {
            None
        } else {
            first_of_kind(row, kind)
        },
    decreases row.len(),
{
    if row.len() > 0 {
        let init = row.drop_last();
        lemma_without_kind_first(init, gone, kind);
        lemma_first_of_kind_push(crate::world::without_kind(init, gone), row.last(), kind);
        lemma_first_of_kind_push(init, row.last(), kind);
        assert(init.push(row.last()) =~= row);
    }
}

/// The first of a kind in a row with one more component at its end.
pub proof fn lemma_first_of_kind_push(row: Seq<Component>, c: Component, kind: u32)
    ensures
        first_of_kind(row.push(c), kind) == match first_of_kind(row, kind) {
            Some(x) => Some(x),
            None => if c.kind == kind {
                Some(c)
            } else {
                None
            },
        },
    decreases row.len(),
{
    if row.len() > 0 {
        lemma_first_of_kind_push(row.drop_first(), c, kind);
        assert(row.push(c).drop_first() =~= row.drop_first().push(c));
        assert(row.push(c)[0] == row[0]);
    } else {
        assert(row.push(c)[0] == c);
        assert(row.push(c).drop_first().len() == 0);
        assert(first_of_kind(row.push(c).drop_first(), kind) == None::<Component>);
    }
}

} // verus!
