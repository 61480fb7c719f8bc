use vstd::prelude::*;
use crate::commands::{set_component, with_component};
use crate::world::{find_kind, first_of_kind, has_kind, Component, EntityWorld};

verus! {

/// One component kind of a declared shape, read-only or writable.
#[derive(Clone, Copy, Debug, PartialEq, Eq, Structural)]
pub struct Access {
    pub kind: u32,
    pub write: bool,
}

/// Why a single-entity lookup failed.
#[derive(Clone, Copy, Debug, PartialEq, Eq, Structural)]
pub enum QueryError {
    /// The entity is not live, or lacks a component of the shape.
    NotFound,
    /// The shape does not declare the kind, or not as writable.
    ShapeMismatch,
}

/// One entity matched by a shape, with its components in the shape's order.
#[derive(Clone, Debug)]
pub struct QueryItem {
    pub entity: u64,
    pub components: Vec<Component>,
}

/// Whether a row holds a component of every kind of the shape.
pub open spec fn satisfies(row: Seq<Component>, shape: Seq<Access>) -> bool {
    forall|j: int| 0 <= j < shape.len() ==> has_kind(row, (#[trigger] shape[j]).kind)
}

/// The row's components for the shape, in the shape's order.
pub open spec fn gathered(row: Seq<Component>, shape: Seq<Access>) -> Seq<Component> {
    shape.map_values(|a: Access| first_of_kind(row, a.kind)->0)
}

/// Whether the shape declares the kind (writable, where `write` asks for it).
pub open spec fn declares(shape: Seq<Access>, kind: u32, write: bool) -> bool {
    exists|j: int| 0 <= j < shape.len() && (#[trigger] shape[j]).kind == kind && (!write || shape[j].write)
}

/// What a lookup of `kind` on `entity` through `shape` gives.
pub open spec fn lookup(
    rows: Map<u64, Seq<Component>>,
    shape: Seq<Access>,
    entity: u64,
    kind: u32,
    write: bool,
) -> Result<Component, QueryError> {
    if !declares(shape, kind, write) {
        Err(QueryError::ShapeMismatch)
    } else if !rows.contains_key(entity) || !satisfies(rows[entity], shape) {
        Err(QueryError::NotFound)
    } else {
        Ok(first_of_kind(rows[entity], kind)->0)
    }
}

/// An item that `matching` may return for this world and shape.
pub open spec fn item_ok(rows: Map<u64, Seq<Component>>, shape: Seq<Access>, it: QueryItem) -> bool {
    &&& rows.contains_key(it.entity)
    &&& satisfies(rows[it.entity], shape)
    &&& it.components@ == gathered(rows[it.entity], shape)
}

/// What `matching` returns: each matched entity once, with its components.
pub open spec fn matched(
    rows: Map<u64, Seq<Component>>,
    shape: Seq<Access>,
    items: Seq<QueryItem>,
) -> bool {
    &&& forall|i: int| 0 <= i < items.len() ==> item_ok(rows, shape, #[trigger] items[i])
    &&& forall|i: int, k: int|
        0 <= i < k < items.len() ==> (#[trigger] items[i]).entity != (#[trigger] items[k]).entity
    &&& forall|id: u64|
        rows.contains_key(id) && satisfies(rows[id], shape) ==> exists|i: int|
            0 <= i < items.len() && (#[trigger] items[i]).entity == id
}

/// A lookup of a declared kind on an entity that lacks a component of the
/// shape fails with `NotFound`, never with a value.
pub proof fn lemma_missing_component_not_found(
    rows: Map<u64, Seq<Component>>,
    shape: Seq<Access>,
    entity: u64,
    kind: u32,
    write: bool,
    missing: int,
)
    requires
        declares(shape, kind, write),
        0 <= missing < shape.len(),
        rows.contains_key(entity) ==> !has_kind(rows[entity], shape[missing].kind),
    ensures
        lookup(rows, shape, entity, kind, write) == Err::<Component, QueryError>(QueryError::NotFound),
{
}

/// Whether `row` holds a component of every kind of `shape`.
pub fn row_satisfies(row: &Vec<Component>, shape: &Vec<Access>) -> (r: bool)
    ensures
        r == satisfies(row@, shape@),
{
    let mut j: usize = 0;
    while j < shape.len()
        invariant
            j <= shape@.len(),
            forall|k: int| 0 <= k < j ==> has_kind(row@, (#[trigger] shape@[k]).kind),
        decreases shape@.len() - j,
    {
        if find_kind(row, shape[j].kind).is_none() {
            return false;
        }
        j = j + 1;
    }
    true
}

/// The components of `row` for `shape`, in the shape's order.
pub fn gather(row: &Vec<Component>, shape: &Vec<Access>) -> (r: Vec<Component>)
    requires
        satisfies(row@, shape@),
    ensures
        r@ == gathered(row@, shape@),
{
    let mut r: Vec<Component> = Vec::new();
    let mut j: usize = 0;
    while j < shape.len()
        invariant
            j <= shape@.len(),
            satisfies(row@, shape@),
            r@ == shape@.take(j as int).map_values(|a: Access| first_of_kind(row@, a.kind)->0),
        decreases shape@.len() - j,
    {
        let c = find_kind(row, shape[j].kind);
        assert(has_kind(row@, shape@[j as int].kind));
        match c {
            Some(c) => {
                r.push(c);
            },
            None => {},
        }
        assert(shape@.take(j + 1) =~= shape@.take(j as int).push(shape@[j as int]));
        assert(r@ =~= shape@.take(j + 1).map_values(|a: Access| first_of_kind(row@, a.kind)->0));
        j = j + 1;
    }
    assert(shape@.take(j as int) =~= shape@);
    r
}

/// Every entity of the world whose row satisfies `shape`, once each, with
/// its components in the shape's order.
pub fn matching(world: &EntityWorld, shape: &Vec<Access>) -> (r: Vec<QueryItem>)
    ensures
        matched(world.rows(), shape@, r@),
{
    let ids = world.entities();
    let mut r: Vec<QueryItem> = Vec::new();
    let mut i: usize = 0;
    while i < ids.len()
        invariant
            i <= ids@.len(),
            ids@.no_duplicates(),
            forall|id: u64| ids@.contains(id) <==> world.rows().contains_key(id),
            forall|k: int| 0 <= k < r@.len() ==> item_ok(world.rows(), shape@, #[trigger] r@[k]),
            forall|k: int| 0 <= k < r@.len() ==> exists|j: int| 0 <= j < i && ids@[j] == (#[trigger] r@[k]).entity,
            forall|k: int, l: int|
                0 <= k < l < r@.len() ==> (#[trigger] r@[k]).entity != (#[trigger] r@[l]).entity,
            forall|j: int|
                0 <= j < i && world.rows().contains_key(#[trigger] ids@[j]) && satisfies(world.rows()[ids@[j]], shape@)
                    ==> exists|k: int| 0 <= k < r@.len() && (#[trigger] r@[k]).entity == ids@[j],
        decreases ids@.len() - i,
    {
        let id = ids[i];
        assert(ids@.contains(id));
        let ghost before = r@;
        match world.row(id) {
            Some(row) => {
                if row_satisfies(&row, shape) {
                    let components = gather(&row, shape);
                    let ghost prev = r@;
                    r.push(QueryItem { entity: id, components });
                    proof {
                        assert forall|k: int| 0 <= k < prev.len() implies (#[trigger] r@[k]).entity != id by {
                            let j = choose|j: int| 0 <= j < i && ids@[j] == prev[k].entity;
                            assert(r@[k] == prev[k]);
                        }
                        assert(r@[prev.len() as int].entity == ids@[i as int]);
                    }
                }
            },
            None => {},
        }
        proof {
            assert forall|j: int|
                0 <= j < i + 1 && world.rows().contains_key(#[trigger] ids@[j]) && satisfies(world.rows()[ids@[j]], shape@)
                    implies exists|k: int| 0 <= k < r@.len() && (#[trigger] r@[k]).entity == ids@[j] by {
                if j < i {
                    let k = choose|k: int| 0 <= k < before.len() && (#[trigger] before[k]).entity == ids@[j];
                    assert(r@[k] == before[k]);
                } else {
                    assert(r@[before.len() as int].entity == ids@[j]);
                }
            }
        }
        i = i + 1;
    }
    proof {
        assert forall|id: u64| world.rows().contains_key(id) && satisfies(world.rows()[id], shape@) implies exists|k: int|
            0 <= k < r@.len() && (#[trigger] r@[k]).entity == id by {
            assert(ids@.contains(id));
            let j = choose|j: int| 0 <= j < ids@.len() && ids@[j] == id;
            assert(world.rows().contains_key(ids@[j]));
        }
    }
    r
}

/// A new value for one component of one entity, written at once.
#[derive(Clone, Copy, Debug, PartialEq, Eq, Structural)]
pub struct Write {
    pub entity: u64,
    pub component: Component,
}

/// Whether a write is allowed: on the entity `at` (when one is given), and
/// through some view that declares the kind writable and that the entity
/// satisfies.
pub open spec fn write_ok(
    rows: Map<u64, Seq<Component>>,
    shapes: Seq<Seq<Access>>,
    at: Option<u64>,
    w: Write,
) -> bool {
    &&& (at matches Some(e) ==> w.entity == e)
    &&& exists|j: int| 0 <= j < shapes.len() && (#[trigger] lookup(rows, shapes[j], w.entity, w.component.kind, true)) is Ok
}

/// The rows after the allowed writes among `ws`, in order; the others are
/// ignored.
pub open spec fn apply_writes(
    rows: Map<u64, Seq<Component>>,
    shapes: Seq<Seq<Access>>,
    at: Option<u64>,
    ws: Seq<Write>,
) -> Map<u64, Seq<Component>>
    decreases ws.len(),
{
    if ws.len() == 0 {
        rows
    } else {
        let before = apply_writes(rows, shapes, at, ws.drop_last());
        if write_ok(before, shapes, at, ws.last()) {
            before.insert(ws.last().entity, with_component(before[ws.last().entity], ws.last().component))
        } else {
            before
        }
    }
}

/// Applies, in order, the writes that one of `views` allows (on entity `at`
/// only, when given), and ignores the others.
pub fn write_through(world: &mut EntityWorld, views: &Vec<Query>, at: Option<u64>, ws: &Vec<Write>)
    requires
        old(world).wf(),
    ensures
        final(world).wf(),
        final(world).rows() == apply_writes(old(world).rows(), views@.map_values(|q: Query| q.shape()), at, ws@),
{
    let ghost shapes = views@.map_values(|q: Query| q.shape());
    let mut i: usize = 0;
    while i < ws.len()
        invariant
            i <= ws@.len(),
            world.wf(),
            shapes == views@.map_values(|q: Query| q.shape()),
            world.rows() == apply_writes(old(world).rows(), shapes, at, ws@.take(i as int)),
        decreases ws@.len() - i,
    {
        let w = ws[i];
        let ghost before = world.rows();
        proof {
            assert(ws@.take(i + 1).drop_last() =~= ws@.take(i as int));
            assert(ws@.take(i + 1).last() == w);
        }
        let on_target = match at {
            Some(e) => w.entity == e,
            None => true,
        };
        if on_target {
            let mut j: usize = 0;
            let mut done = false;
            while j < views.len() && !done
                invariant
                    j <= views@.len(),
                    world.wf(),
                    shapes == views@.map_values(|q: Query| q.shape()),
                    at matches Some(e) ==> w.entity == e,
                    !done ==> world.rows() == before,
                    !done ==> forall|k: int|
                        0 <= k < j ==> (#[trigger] lookup(before, shapes[k], w.entity, w.component.kind, true)) is Err,
                    done ==> write_ok(before, shapes, at, w) && world.rows() == before.insert(
                        w.entity,
                        with_component(before[w.entity], w.component),
                    ),
                decreases views@.len() - j,
            {
                let r = views[j].set(world, w.entity, w.component);
                assert(shapes[j as int] == views@[j as int].shape());
                if r.is_ok() {
                    assert(lookup(before, shapes[j as int], w.entity, w.component.kind, true) is Ok);
                    assert(write_ok(before, shapes, at, w));
                    done = true;
                }
                j = j + 1;
            }
            proof {
                if !done {
                    assert forall|k: int| 0 <= k < shapes.len() implies (#[trigger] lookup(
                        before,
                        shapes[k],
                        w.entity,
                        w.component.kind,
                        true,
                    )) is Err by {}
                }
            }
        }
        i = i + 1;
    }
    assert(ws@.take(i as int) =~= ws@);
}

/// A per-run view of the world, restricted to a declared shape. Lookups are
/// held to the shape: a kind it does not declare (or declares read-only, for
/// `get_mut`) is refused with `ShapeMismatch`, and an entity that does not
/// satisfy the whole shape is `NotFound`.
#[derive(Clone, Debug)]
pub struct Query {
    shape: Vec<Access>,
}

impl Query {
    pub closed spec fn shape(&self) -> Seq<Access> {
        self.shape@
    }

    pub fn new(shape: Vec<Access>) -> (r: Query)
        ensures
            r.shape() == shape@,
    {
        Query { shape }
    }

    /// Every entity matching the shape, with its components, as the world is now.
    pub fn iter(&self, world: &EntityWorld) -> (r: Vec<QueryItem>)
        ensures
            matched(world.rows(), self.shape(), r@),
    {
        matching(world, &self.shape)
    }

    /// The component of `kind` on `entity`, read-only.
    pub fn get(&self, world: &EntityWorld, entity: u64, kind: u32) -> (r: Result<Component, QueryError>)
        ensures
            r == lookup(world.rows(), self.shape(), entity, kind, false),
    {
        self.lookup(world, entity, kind, false)
    }

    /// The component of `kind` on `entity`, which the shape must declare
    /// writable; a new value is written back at once with `set`, or, from a
    /// running unit, as one of the writes its function returns.
    pub fn get_mut(&self, world: &EntityWorld, entity: u64, kind: u32) -> (r: Result<Component, QueryError>)
        ensures
            r == lookup(world.rows(), self.shape(), entity, kind, true),
    {
        self.lookup(world, entity, kind, true)
    }

    /// Writes `value` in place on `entity`, at once, replacing its component
    /// of that kind; the shape must declare the kind writable. On an error
    /// the world is left as it was.
    pub fn set(&self, world: &mut EntityWorld, entity: u64, value: Component) -> (r: Result<(), QueryError>)
        requires
            old(world).wf(),
        ensures
            final(world).wf(),
            r is Ok <==> lookup(old(world).rows(), self.shape(), entity, value.kind, true) is Ok,
            r matches Err(e) ==> lookup(old(world).rows(), self.shape(), entity, value.kind, true) == Err::<
                Component,
                QueryError,
            >(e) && final(world).rows() == old(world).rows(),
            r is Ok ==> final(world).rows() == old(world).rows().insert(
                entity,
                with_component(old(world).rows()[entity], value),
            ),
    {
        match self.lookup(world, entity, value.kind, true) {
            Ok(_) => {
                match world.row(entity) {
                    Some(row) => {
                        world.set_row(entity, set_component(&row, value));
                        Ok(())
                    },
                    None => Err(QueryError::NotFound),
                }
            },
            Err(e) => Err(e),
        }
    }

    fn lookup(&self, world: &EntityWorld, entity: u64, kind: u32, write: bool) -> (r: Result<Component, QueryError>)
        ensures
            r == lookup(world.rows(), self.shape(), entity, kind, write),
    {
        let mut declared = false;
        let mut j: usize = 0;
        while j < self.shape.len()
            invariant
                j <= self.shape@.len(),
                declared == exists|k: int|
                    0 <= k < j && (#[trigger] self.shape@[k]).kind == kind && (!write || self.shape@[k].write),
            decreases self.shape@.len() - j,
        {
            let a = self.shape[j];
            if a.kind == kind && (!write || a.write) {
                declared = true;
            }
            j = j + 1;
        }
        if !declared {
            return Err(QueryError::ShapeMismatch);
        }
        match world.row(entity) {
            Some(row) => {
                if !row_satisfies(&row, &self.shape) {
                    return Err(QueryError::NotFound);
                }
                match find_kind(&row, kind) {
                    Some(c) => Ok(c),
                    None => Err(QueryError::NotFound),
                }
            },
            None => Err(QueryError::NotFound),
        }
    }
}

} // verus!
