use vstd::prelude::*;

verus! {

/// One component value attached to an entity, keyed by its kind.
#[derive(Clone, Copy, Debug, PartialEq, Eq, Structural)]
pub struct Component {
    pub kind: u32,
    pub value: u64,
}

/// Whether a row holds a component of the given kind.
pub open spec fn has_kind(row: Seq<Component>, kind: u32) -> bool {
    exists|i: int| 0 <= i < row.len() && (#[trigger] row[i]).kind == kind
}

/// The first component of the given kind in a row.
pub open spec fn first_of_kind(row: Seq<Component>, kind: u32) -> Option<Component>
    decreases row.len(),
{
    if row.len() == 0 {
        None
    } else if row[0].kind == kind {
        Some(row[0])
    } else {
        first_of_kind(row.drop_first(), kind)
    }
}

/// The row with every component of the given kind taken out.
pub open spec fn without_kind(row: Seq<Component>, kind: u32) -> Seq<Component>
    decreases row.len(),
{
    if row.len() == 0 {
        row
    } else if row.last().kind == kind {
        without_kind(row.drop_last(), kind)
    } else {
        without_kind(row.drop_last(), kind).push(row.last())
    }
}

/// The live entities of a hecs world that carry a row, keyed by
/// `Entity::to_bits`, each with its row.
pub uninterp spec fn world_rows(w: hecs::World) -> Map<u64, Seq<Component>>;

/// The number of live entities of a hecs world, as `World::len` counts them
/// (reserved entities not yet flushed are not counted).
pub uninterp spec fn world_live(w: hecs::World) -> nat;

/// The number of entities reserved with `World::reserve_entity` and not yet
/// made live by a flush.
pub uninterp spec fn world_reserved(w: hecs::World) -> nat;

#[verifier::external_type_specification]
#[verifier::external_body]
pub struct ExWorld(hecs::World);

/// Relies on hecs::World::new: a world with no entities.
#[verifier::external_body]
fn hecs_new() -> (r: hecs::World)
    ensures
        world_rows(r).dom() == Set::<u64>::empty(),
        world_live(r) == 0,
        world_reserved(r) == 0,
{
    hecs::World::new()
}

/// Relies on hecs::World::len: the number of live entities.
#[verifier::external_body]
fn hecs_len(w: &hecs::World) -> (r: u32)
    ensures
        r as nat == world_live(*w),
{
    w.len()
}

/// Relies on hecs::World::spawn (which panics only when no entity id is left)
/// and Entity::to_bits: a new live entity whose bits no live entity has. With
/// no reservation pending, the flush spawn starts with makes no entity live,
/// so the count goes up by exactly one.
#[verifier::external_body]
fn hecs_spawn(w: &mut hecs::World, row: Vec<Component>) -> (r: u64)
    requires
        world_reserved(*old(w)) == 0,
        world_live(*old(w)) + 1 < u32::MAX,
    ensures
        world_reserved(*final(w)) == 0,
        !world_rows(*old(w)).contains_key(r),
        world_rows(*final(w)) == world_rows(*old(w)).insert(r, row@),
        world_live(*final(w)) == world_live(*old(w)) + 1,
{
    w.spawn((row,)).to_bits().get()
}

/// Relies on hecs::Entity::from_bits and hecs::World::despawn: a live entity
/// is destroyed with all it carries; otherwise nothing changes. With no
/// reservation pending, despawn's opening flush makes no entity live.
#[verifier::external_body]
fn hecs_despawn(w: &mut hecs::World, id: u64) -> (r: bool)
    requires
        world_reserved(*old(w)) == 0,
    ensures
        world_reserved(*final(w)) == 0,
        world_rows(*old(w)).contains_key(id) ==> r,
        world_rows(*final(w)) == world_rows(*old(w)).remove(id),
        r ==> world_live(*final(w)) + 1 == world_live(*old(w)),
        !r ==> world_live(*final(w)) == world_live(*old(w)),
{
    match hecs::Entity::from_bits(id) {
        Some(e) => w.despawn(e).is_ok(),
        None => false,
    }
}

/// Relies on hecs::Entity::from_bits and hecs::World::insert_one: a live
/// entity's row is replaced; otherwise nothing changes. With no reservation
/// pending, the flush that `insert` starts with makes no entity live.
#[verifier::external_body]
fn hecs_set_row(w: &mut hecs::World, id: u64, row: Vec<Component>) -> (r: bool)
    requires
        world_reserved(*old(w)) == 0,
    ensures
        world_reserved(*final(w)) == 0,
        world_rows(*old(w)).contains_key(id) ==> r,
        r ==> world_rows(*final(w)) == world_rows(*old(w)).insert(id, row@),
        !r ==> world_rows(*final(w)) == world_rows(*old(w)),
        world_live(*final(w)) == world_live(*old(w)),
{
    match hecs::Entity::from_bits(id) {
        Some(e) => w.insert_one(e, row).is_ok(),
        None => false,
    }
}

/// Relies on hecs::Entity::from_bits and hecs::World::get: the row of a live
/// entity that carries one.
#[verifier::external_body]
fn hecs_row(w: &hecs::World, id: u64) -> (r: Option<Vec<Component>>)
    ensures
        r is Some <==> world_rows(*w).contains_key(id),
        r is Some ==> r->0@ == world_rows(*w)[id],
{
    match hecs::Entity::from_bits(id) {
        Some(e) => w.get::<&Vec<Component>>(e).ok().map(|row| row.to_vec()),
        None => None,
    }
}

/// Relies on hecs::World::query: each live entity carrying a row, once, in
/// storage order.
#[verifier::external_body]
fn hecs_ids(w: &hecs::World) -> (r: Vec<u64>)
    ensures
        r@.no_duplicates(),
        forall|id: u64| r@.contains(id) <==> world_rows(*w).contains_key(id),
{
    w.query::<(hecs::Entity, &Vec<Component>)>().iter().map(|(e, _)| e.to_bits().get()).collect()
}

/// Entities, each carrying one row of components, stored in hecs.
pub struct EntityWorld {
    inner: hecs::World,
}

impl EntityWorld {
    /// Each live entity with its row.
    pub closed spec fn rows(&self) -> Map<u64, Seq<Component>> {
        world_rows(self.inner)
    }

    closed spec fn live(&self) -> nat {
        world_live(self.inner)
    }

    /// Every live entity carries a row, there are finitely many, and none is
    /// reserved and waiting for a flush.
    pub closed spec fn wf(&self) -> bool {
        &&& world_reserved(self.inner) == 0
        &&& self.rows().dom().finite()
        &&& self.live() == self.rows().dom().len()
    }

    /// A well-formed world holds finitely many entities.
    pub proof fn lemma_finite(&self)
        requires
            self.wf(),
        ensures
            self.rows().dom().finite(),
    {
    }

    /// Whether one more entity can be spawned.
    pub open spec fn has_room(&self) -> bool {
        self.rows().dom().len() + 2 < u32::MAX
    }

    pub fn new() -> (r: EntityWorld)
        ensures
            r.wf(),
            r.rows().dom() == Set::<u64>::empty(),
    {
        EntityWorld { inner: hecs_new() }
    }

    /// Spawns an entity carrying `row`; `None` when the world has no entity
    /// id left to give.
    pub fn spawn(&mut self, row: Vec<Component>) -> (r: Option<u64>)
        requires
            old(self).wf(),
        ensures
            final(self).wf(),
            match r {
                Some(id) => !old(self).rows().contains_key(id) && final(self).rows() == old(
                    self,
                ).rows().insert(id, row@),
                None => final(self).rows() == old(self).rows(),
            },
            r is Some <==> old(self).has_room(),
    {
        let n = hecs_len(&self.inner);
        if n >= u32::MAX - 2 {
            None
        } else {
            Some(hecs_spawn(&mut self.inner, row))
        }
    }

    /// Destroys an entity; `false` when it was not live.
    pub fn despawn(&mut self, id: u64) -> (r: bool)
        requires
            old(self).wf(),
        ensures
            final(self).wf(),
            r == old(self).rows().contains_key(id),
            final(self).rows() == old(self).rows().remove(id),
    {
        if !self.contains(id) {
            return false;
        }
        hecs_despawn(&mut self.inner, id)
    }

    /// Replaces an entity's row; `false` when it is not live.
    pub fn set_row(&mut self, id: u64, row: Vec<Component>) -> (r: bool)
        requires
            old(self).wf(),
        ensures
            final(self).wf(),
            r == old(self).rows().contains_key(id),
            r ==> final(self).rows() == old(self).rows().insert(id, row@),
            !r ==> final(self).rows() == old(self).rows(),
    {
        if !self.contains(id) {
            return false;
        }
        hecs_set_row(&mut self.inner, id, row)
    }

    pub fn row(&self, id: u64) -> (r: Option<Vec<Component>>)
        ensures
            r is Some <==> self.rows().contains_key(id),
            r is Some ==> r->0@ == self.rows()[id],
    {
        hecs_row(&self.inner, id)
    }

    pub fn contains(&self, id: u64) -> (r: bool)
        ensures
            r == self.rows().contains_key(id),
    {
        hecs_row(&self.inner, id).is_some()
    }

    /// The number of live entities.
    pub fn len(&self) -> (r: u32)
        requires
            self.wf(),
        ensures
            r == self.rows().dom().len(),
    {
        hecs_len(&self.inner)
    }

    /// Every entity carrying a row, once each, in storage order.
    pub fn entities(&self) -> (r: Vec<u64>)
        ensures
            r@.no_duplicates(),
            forall|id: u64| r@.contains(id) <==> self.rows().contains_key(id),
    {
        hecs_ids(&self.inner)
    }

    /// The value of the first component of `kind` on entity `id`.
    pub fn get(&self, id: u64, kind: u32) -> (r: Option<u64>)
        ensures
            r == (if self.rows().contains_key(id) {
                match first_of_kind(self.rows()[id], kind) {
                    Some(c) => Some(c.value),
                    None => None,
                }
            } else {
                None
            }),
    {
        match hecs_row(&self.inner, id) {
            Some(row) => match find_kind(&row, kind) {
                Some(c) => Some(c.value),
                None => None,
            },
            None => None,
        }
    }
}

/// A copy of a row.
pub fn copy_row(row: &Vec<Component>) -> (r: Vec<Component>)
    ensures
        r@ == row@,
{
    let mut r: Vec<Component> = Vec::new();
    let mut i: usize = 0;
    while i < row.len()
        invariant
            i <= row@.len(),
            r@ == row@.take(i as int),
        decreases row.len() - i,
    {
        r.push(row[i]);
        i = i + 1;
        assert(r@ =~= row@.take(i as int));
    }
    assert(row@.take(i as int) =~= row@);
    r
}

/// The first component of `kind` in `row`.
pub fn find_kind(row: &Vec<Component>, kind: u32) -> (r: Option<Component>)
    ensures
        r == first_of_kind(row@, kind),
        r is Some <==> has_kind(row@, kind),
{
    let mut i: usize = 0;
    assert(row@.subrange(0, row@.len() as int) =~= row@);
    while i < row.len()
        invariant
            0 <= i <= row@.len(),
            first_of_kind(row@.subrange(i as int, row@.len() as int), kind) == first_of_kind(row@, kind),
            forall|j: int| 0 <= j < i ==> (#[trigger] row@[j]).kind != kind,
        decreases row.len() - i,
    {
        let ghost rest = row@.subrange(i as int, row@.len() as int);
        if row[i].kind == kind {
            assert(rest[0] == row@[i as int]);
            return Some(row[i]);
        }
        assert(rest.drop_first() =~= row@.subrange(i + 1, row@.len() as int));
        i = i + 1;
    }
    assert(row@.subrange(i as int, row@.len() as int).len() == 0);
    None
}

} // verus!
