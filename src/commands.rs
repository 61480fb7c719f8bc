use vstd::prelude::*;
use crate::world::{copy_row, without_kind, Component, EntityWorld};

verus! {

/// One structural edit of the world, recorded for later.
#[derive(Clone, Debug)]
pub enum Edit {
    /// A new entity carrying these components.
    Spawn(Vec<Component>),
    Despawn(u64),
    /// Adds a component, replacing any of the same kind.
    Insert(u64, Component),
    /// Takes out every component of a kind.
    Remove(u64, u32),
}

/// The row with `c` set: any component of its kind gives way to it.
pub open spec fn with_component(row: Seq<Component>, c: Component) -> Seq<Component> {
    without_kind(row, c.kind).push(c)
}

/// What one edit does to the rows, given the entity a spawn received.
pub open spec fn apply_edit(
    m: Map<u64, Seq<Component>>,
    e: Edit,
    spawned: Option<u64>,
) -> Map<u64, Seq<Component>> {
    match e {
        Edit::Spawn(row) => match spawned {
            Some(id) => m.insert(id, row@),
            None => m,
        },
        Edit::Despawn(id) => m.remove(id),
        Edit::Insert(id, c) => if m.contains_key(id) {
            m.insert(id, with_component(m[id], c))
        } else {
            m
        },
        Edit::Remove(id, kind) => if m.contains_key(id) {
            m.insert(id, without_kind(m[id], kind))
        } else {
            m
        },
    }
}

/// A spawn receives an entity that is not live, exactly when there is room
/// for one; other edits receive none.
pub open spec fn outcome_ok(m: Map<u64, Seq<Component>>, e: Edit, spawned: Option<u64>) -> bool {
    match e {
        Edit::Spawn(_) => if m.dom().len() + 2 < u32::MAX {
            spawned is Some && !m.contains_key(spawned->0)
        } else {
            spawned is None
        },
        _ => spawned is None,
    }
}

/// The rows after applying `edits` in order, with the spawn outcomes `outs`.
pub open spec fn replay(
    m: Map<u64, Seq<Component>>,
    edits: Seq<Edit>,
    outs: Seq<Option<u64>>,
) -> Map<u64, Seq<Component>>
    decreases edits.len(),
{
    if edits.len() == 0 {
        m
    } else {
        apply_edit(replay(m, edits.drop_last(), outs.drop_last()), edits.last(), outs.last())
    }
}

/// Each outcome in `outs` is one that its edit may have had.
pub open spec fn outcomes_ok(
    m: Map<u64, Seq<Component>>,
    edits: Seq<Edit>,
    outs: Seq<Option<u64>>,
) -> bool
    decreases edits.len(),
{
    &&& edits.len() == outs.len()
    &&& edits.len() > 0 ==> {
        &&& outcomes_ok(m, edits.drop_last(), outs.drop_last())
        &&& outcome_ok(replay(m, edits.drop_last(), outs.drop_last()), edits.last(), outs.last())
    }
}

/// The number of spawns among `edits`.
pub open spec fn spawn_count(edits: Seq<Edit>) -> nat
    decreases edits.len(),
{
    if edits.len() == 0 {
        0
    } else {
        spawn_count(edits.drop_last()) + if edits.last() is Spawn {
            1nat
        } else {
            0nat
        }
    }
}

proof fn lemma_replay_push(
    m: Map<u64, Seq<Component>>,
    edits: Seq<Edit>,
    outs: Seq<Option<u64>>,
    e: Edit,
    o: Option<u64>,
)
    ensures
        replay(m, edits.push(e), outs.push(o)) == apply_edit(replay(m, edits, outs), e, o),
        outcomes_ok(m, edits.push(e), outs.push(o)) <==> (outcomes_ok(m, edits, outs) && outcome_ok(
            replay(m, edits, outs),
            e,
            o,
        )),
{
    assert(edits.push(e).drop_last() =~= edits);
    assert(outs.push(o).drop_last() =~= outs);
}

/// Three spawns and one despawn of a live entity, flushed with room to
/// spare, leave the world with two entities more: three new ones, each
/// carrying exactly the components its spawn was given, the despawned one
/// gone, and every other entity as it was.
pub proof fn lemma_three_spawns_one_despawn(
    m: Map<u64, Seq<Component>>,
    c1: Vec<Component>,
    c2: Vec<Component>,
    c3: Vec<Component>,
    e: u64,
    outs: Seq<Option<u64>>,
)
    requires
        m.dom().finite(),
        m.contains_key(e),
        m.dom().len() + 6 < u32::MAX,
        outcomes_ok(m, seq![Edit::Spawn(c1), Edit::Spawn(c2), Edit::Spawn(c3), Edit::Despawn(e)], outs),
    ensures
        ({
            let r = replay(m, seq![Edit::Spawn(c1), Edit::Spawn(c2), Edit::Spawn(c3), Edit::Despawn(e)], outs);
            &&& outs[0] is Some && outs[1] is Some && outs[2] is Some && outs[3] is None
            &&& !m.contains_key(outs[0]->0) && !m.contains_key(outs[1]->0) && !m.contains_key(outs[2]->0)
            &&& outs[0] != outs[1] && outs[0] != outs[2] && outs[1] != outs[2]
            &&& r.dom().finite()
            &&& r.dom().len() + 1 == m.dom().len() + 3
            &&& r.contains_key(outs[0]->0) && r.contains_key(outs[1]->0) && r.contains_key(outs[2]->0)
            &&& r[outs[0]->0] == c1@ && r[outs[1]->0] == c2@ && r[outs[2]->0] == c3@
            &&& !r.contains_key(e)
            &&& forall|id: u64| m.contains_key(id) && id != e ==> r.contains_key(id) && r[id] == m[id]
        }),
{
    let edits = seq![Edit::Spawn(c1), Edit::Spawn(c2), Edit::Spawn(c3), Edit::Despawn(e)];
    assert(outs.len() == 4);
    let e0 = Seq::<Edit>::empty();
    let o0 = Seq::<Option<u64>>::empty();
    let e1 = e0.push(Edit::Spawn(c1));
    let o1 = o0.push(outs[0]);
    let e2 = e1.push(Edit::Spawn(c2));
    let o2 = o1.push(outs[1]);
    let e3 = e2.push(Edit::Spawn(c3));
    let o3 = o2.push(outs[2]);
    assert(edits =~= e3.push(Edit::Despawn(e)));
    assert(outs =~= o3.push(outs[3]));
    lemma_replay_push(m, e0, o0, Edit::Spawn(c1), outs[0]);
    lemma_replay_push(m, e1, o1, Edit::Spawn(c2), outs[1]);
    lemma_replay_push(m, e2, o2, Edit::Spawn(c3), outs[2]);
    lemma_replay_push(m, e3, o3, Edit::Despawn(e), outs[3]);
    assert(replay(m, e0, o0) == m);
    assert(outcomes_ok(m, e0, o0));
    let m1 = replay(m, e1, o1);
    let m2 = replay(m, e2, o2);
    let m3 = replay(m, e3, o3);
    assert(m1 == m.insert(outs[0]->0, c1@));
    assert(m2 == m1.insert(outs[1]->0, c2@));
    assert(m3 == m2.insert(outs[2]->0, c3@));
    assert(m1.dom().len() == m.dom().len() + 1);
    assert(m2.dom().len() == m1.dom().len() + 1);
    assert(m3.dom().len() == m2.dom().len() + 1);
    assert(m3.contains_key(e));
    assert(m3.remove(e).dom().len() + 1 == m3.dom().len());
}

/// The row without any component of `kind`.
pub fn remove_kind(row: &Vec<Component>, kind: u32) -> (r: Vec<Component>)
    ensures
        r@ == without_kind(row@, kind),
{
    let mut r: Vec<Component> = Vec::new();
    let mut i: usize = 0;
    while i < row.len()
        invariant
            i <= row@.len(),
            r@ == without_kind(row@.take(i as int), kind),
        decreases row.len() - i,
    {
        assert(row@.take(i + 1).drop_last() =~= row@.take(i as int));
        if row[i].kind != kind {
            r.push(row[i]);
        }
        i = i + 1;
    }
    assert(row@.take(i as int) =~= row@);
    r
}

/// The row with `c` set in place of any component of its kind.
pub fn set_component(row: &Vec<Component>, c: Component) -> (r: Vec<Component>)
    ensures
        r@ == with_component(row@, c),
{
    let mut r = remove_kind(row, c.kind);
    r.push(c);
    r
}

/// A buffer of edits, applied in the order recorded.
pub struct Commands {
    edits: Vec<Edit>,
}

impl View for Commands {
    type V = Seq<Edit>;

    closed spec fn view(&self) -> Seq<Edit> {
        self.edits@
    }
}

impl Commands {
    pub fn new() -> (r: Commands)
        ensures
            r@ == Seq::<Edit>::empty(),
    {
        Commands { edits: Vec::new() }
    }

    pub fn len(&self) -> (r: usize)
        ensures
            r == self@.len(),
    {
        self.edits.len()
    }

    /// The recorded edits, in order.
    pub fn edits(&self) -> (r: &Vec<Edit>)
        ensures
            r@ == self@,
    {
        &self.edits
    }

    pub fn push(&mut self, e: Edit)
        ensures
            final(self)@ == old(self)@.push(e),
    {
        self.edits.push(e);
    }

    /// Appends every edit of `more`, in order.
    pub fn extend(&mut self, more: Vec<Edit>)
        ensures
            final(self)@ == old(self)@ + more@,
    {
        let mut more = more;
        self.edits.append(&mut more);
    }

    /// Records a spawn; returns the position that `apply` reports its entity at.
    pub fn spawn(&mut self, components: Vec<Component>) -> (r: usize)
        ensures
            final(self)@ == old(self)@.push(Edit::Spawn(components)),
            r == old(self)@.len(),
    {
        let r = self.edits.len();
        self.edits.push(Edit::Spawn(components));
        r
    }

    pub fn despawn(&mut self, entity: u64)
        ensures
            final(self)@ == old(self)@.push(Edit::Despawn(entity)),
    {
        self.edits.push(Edit::Despawn(entity));
    }

    pub fn insert(&mut self, entity: u64, component: Component)
        ensures
            final(self)@ == old(self)@.push(Edit::Insert(entity, component)),
    {
        self.edits.push(Edit::Insert(entity, component));
    }

    pub fn remove(&mut self, entity: u64, kind: u32)
        ensures
            final(self)@ == old(self)@.push(Edit::Remove(entity, kind)),
    {
        self.edits.push(Edit::Remove(entity, kind));
    }

    /// Empties the buffer, handing back what it held.
    pub fn take(&mut self) -> (r: Commands)
        ensures
            r@ == old(self)@,
            final(self)@ == Seq::<Edit>::empty(),
    {
        let mut edits: Vec<Edit> = Vec::new();
        core::mem::swap(&mut edits, &mut self.edits);
        Commands { edits }
    }

    /// Applies every edit to the world in recording order, and returns, for
    /// each edit, the entity a spawn received.
    pub fn apply(&self, world: &mut EntityWorld) -> (r: Vec<Option<u64>>)
        requires
            old(world).wf(),
        ensures
            final(world).wf(),
            outcomes_ok(old(world).rows(), self@, r@),
            final(world).rows() == replay(old(world).rows(), self@, r@),
    {
        let mut outs: Vec<Option<u64>> = Vec::new();
        let mut i: usize = 0;
        while i < self.edits.len()
            invariant
                i <= self@.len(),
                outs@.len() == i,
                world.wf(),
                outcomes_ok(old(world).rows(), self@.take(i as int), outs@),
                world.rows() == replay(old(world).rows(), self@.take(i as int), outs@),
            decreases self@.len() - i,
        {
            let ghost prev_outs = outs@;
            let out = apply_one(&self.edits[i], world);
            outs.push(out);
            proof {
                let done = self@.take(i + 1);
                assert(done.drop_last() =~= self@.take(i as int));
                assert(done.last() == self@[i as int]);
                assert(outs@.drop_last() =~= prev_outs);
                assert(outs@.last() == out);
            }
            i = i + 1;
        }
        assert(self@.take(i as int) =~= self@);
        outs
    }
}

/// Applies one edit to the world.
fn apply_one(e: &Edit, world: &mut EntityWorld) -> (r: Option<u64>)
    requires
        old(world).wf(),
    ensures
        final(world).wf(),
        outcome_ok(old(world).rows(), *e, r),
        final(world).rows() == apply_edit(old(world).rows(), *e, r),
{
    match e {
        Edit::Spawn(row) => world.spawn(copy_row(row)),
        Edit::Despawn(id) => {
            world.despawn(*id);
            None
        },
        Edit::Insert(id, c) => {
            match world.row(*id) {
                Some(row) => {
                    world.set_row(*id, set_component(&row, *c));
                },
                None => {},
            }
            None
        },
        Edit::Remove(id, kind) => {
            match world.row(*id) {
                Some(row) => {
                    world.set_row(*id, remove_kind(&row, *kind));
                },
                None => {},
            }
            None
        },
    }
}

} // verus!
