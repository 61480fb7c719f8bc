use vstd::prelude::*;
use crate::commands::{outcomes_ok, replay, Commands, Edit};
use crate::id::{IdIssuer, SystemId};
use crate::query::{apply_writes, gathered, matching, satisfies, write_through, Access, Query, QueryItem, Write};
use crate::resources::{fetch_of, set_resources, Fetched, Registration, Resources};
use crate::signature::{copy_shape, valid_params, Param, Signature, SignatureError, SystemShape};
use crate::world::{copy_row, Component, EntityWorld};

verus! {

/// Whether a unit may run beside others or needs the world to itself.
#[derive(Clone, Copy, Debug, PartialEq, Eq, Structural)]
pub enum ExecutionMode {
    /// Runs beside other parallel units; its edits wait for the next flush.
    Parallel,
    /// Runs alone with mutable access; its edits apply at once.
    Exclusive,
}

/// The arguments of one call of a unit's function.
#[derive(Debug)]
pub struct Invocation {
    /// The matched entity, for a per-entity function.
    pub entity: Option<u64>,
    /// The declared resources, fetched under the unit's id.
    pub resources: Vec<Fetched>,
    /// The entity's declared components, in declaration order.
    pub components: Vec<Component>,
    /// One view per declared query shape, for an aggregate function.
    pub queries: Vec<Query>,
}

/// The fetches of a unit's declared resources.
pub open spec fn fetches(values: Seq<Component>, kinds: Seq<u32>, system: SystemId) -> Seq<Fetched> {
    kinds.map_values(|k: u32| fetch_of(values, k, system))
}

/// The calls a run makes: per-entity, one per matching entity with its
/// components; aggregate, one with a view per declared shape.
pub open spec fn calls_ok(
    rows: Map<u64, Seq<Component>>,
    sig: Signature,
    fetched: Seq<Fetched>,
    calls: Seq<Invocation>,
) -> bool {
    &&& forall|i: int| 0 <= i < calls.len() ==> (#[trigger] calls[i]).resources@ == fetched
    &&& match sig.shape {
        SystemShape::ForEach => {
            &&& forall|i: int|
                #![trigger calls[i]]
                0 <= i < calls.len() ==> {
                    &&& calls[i].entity is Some
                    &&& rows.contains_key(calls[i].entity->0)
                    &&& satisfies(rows[calls[i].entity->0], sig.components@)
                    &&& calls[i].components@ == gathered(rows[calls[i].entity->0], sig.components@)
                    &&& calls[i].queries@.len() == 0
                }
            &&& forall|i: int, k: int|
                0 <= i < k < calls.len() ==> (#[trigger] calls[i]).entity != (#[trigger] calls[k]).entity
            &&& forall|id: u64|
                rows.contains_key(id) && satisfies(rows[id], sig.components@) ==> exists|i: int|
                    0 <= i < calls.len() && (#[trigger] calls[i]).entity == Some(id)
        },
        SystemShape::Query => {
            &&& calls.len() == 1
            &&& calls[0].entity is None
            &&& calls[0].components@.len() == 0
            &&& calls[0].queries@.map_values(|q: Query| q.shape()) == sig.queries@.map_values(
                |q: Vec<Access>| q@,
            )
        },
    }
}

/// What one call of a unit's function asks for: value writes to components
/// it may write, applied at once, and structural edits, buffered.
#[derive(Debug)]
pub struct Effects {
    pub writes: Vec<Write>,
    pub edits: Vec<Edit>,
}

/// The structural edits of several calls, one after another.
pub open spec fn concat_edits(outs: Seq<Effects>) -> Seq<Edit> {
    outs.map_values(|v: Effects| v.edits@).flatten()
}

/// The shapes a unit's writes go through: its components for a per-entity
/// unit, its query views for an aggregate one.
pub open spec fn views_of(sig: Signature) -> Seq<Seq<Access>> {
    match sig.shape {
        SystemShape::ForEach => seq![sig.components@],
        SystemShape::Query => sig.queries@.map_values(|q: Vec<Access>| q@),
    }
}

/// How a run went: call `k` saw the world `worlds[k]` and returned
/// `outs[k]`; its allowed writes (on its own entity, for a per-entity unit)
/// gave `worlds[k + 1]`; its structural edits are buffered in call order
/// when the buffer is declared, and dropped otherwise.
pub open spec fn outputs_ok<F: Fn(&EntityWorld, &Invocation) -> Effects>(
    func: F,
    sig: Signature,
    worlds: Seq<EntityWorld>,
    calls: Seq<Invocation>,
    outs: Seq<Effects>,
    before: Seq<Edit>,
    after: Seq<Edit>,
) -> bool {
    &&& outs.len() == calls.len()
    &&& worlds.len() == calls.len() + 1
    &&& forall|k: int| 0 <= k < calls.len() ==> func.ensures((&worlds[k], &calls[k]), #[trigger] outs[k])
    &&& forall|k: int|
        0 <= k < calls.len() ==> (#[trigger] worlds[k + 1]).rows() == apply_writes(
            worlds[k].rows(),
            views_of(sig),
            calls[k].entity,
            outs[k].writes@,
        )
    &&& after == if sig.commands {
        before + concat_edits(outs)
    } else {
        before
    }
}

proof fn lemma_concat_push(outs: Seq<Effects>, v: Effects)
    ensures
        concat_edits(outs.push(v)) == concat_edits(outs) + v.edits@,
{
    assert(outs.push(v).map_values(|v: Effects| v.edits@) =~= outs.map_values(|v: Effects| v.edits@).push(v.edits@));
    outs.map_values(|v: Effects| v.edits@).lemma_flatten_push(v.edits@);
}

/// A unit of work built from a function and its declared parameters.
pub struct SystemFn<F> {
    pub func: F,
    pub signature: Signature,
    pub commands: Commands,
    pub name: String,
    pub id: SystemId,
}

impl<F: Fn(&EntityWorld, &Invocation) -> Effects> SystemFn<F> {
    pub open spec fn func(&self) -> F {
        self.func
    }

    pub open spec fn signature(&self) -> Signature {
        self.signature
    }

    /// The edits buffered since the last flush.
    pub open spec fn pending(&self) -> Seq<Edit> {
        self.commands@
    }

    pub open spec fn spec_id(&self) -> SystemId {
        self.id
    }

    pub open spec fn spec_name(&self) -> Seq<char> {
        self.name@
    }

    /// Builds a unit of the given shape from `func` and its parameter roles,
    /// with a fresh id; the list must fit the shape.
    pub fn new(
        func: F,
        name: String,
        params: &Vec<Param>,
        shape: SystemShape,
        issuer: &mut IdIssuer,
    ) -> (r: Result<SystemFn<F>, SignatureError>)
        requires
            old(issuer).wf(),
            old(issuer).upcoming() < u64::MAX,
        ensures
            final(issuer).wf(),
            r is Ok <==> valid_params(params@, shape),
            r matches Ok(s) ==> {
                &&& s.func() == func
                &&& s.signature().describes(params@, shape)
                &&& s.pending().len() == 0
                &&& s.spec_name() == name@
                &&& s.spec_id().id == old(issuer).upcoming()
                &&& !old(issuer).issued().contains(s.spec_id().id)
                &&& final(issuer).issued() == old(issuer).issued().insert(s.spec_id().id)
                &&& final(issuer).upcoming() == old(issuer).upcoming() + 1
            },
            r is Err ==> *final(issuer) == *old(issuer),
    {
        match Signature::from_params(params, shape) {
            Ok(signature) => {
                let id = issuer.issue();
                Ok(SystemFn { func, signature, commands: Commands::new(), name, id })
            },
            Err(e) => Err(e),
        }
    }

    pub fn name(&self) -> (r: &str)
        ensures
            r@ == self.spec_name(),
    {
        self.name.as_str()
    }

    pub fn id(&self) -> (r: SystemId)
        ensures
            r == self.spec_id(),
    {
        self.id
    }

    pub fn thread_local_execution(&self) -> (r: ExecutionMode)
        ensures
            r == ExecutionMode::Parallel,
    {
        ExecutionMode::Parallel
    }

    /// Gives each declared resource a value and a tracking slot for this unit.
    pub fn initialize(&mut self, resources: &mut Resources)
        ensures
            *final(self) == *old(self),
            forall|i: int|
                0 <= i < old(self).signature().resources@.len() ==> final(resources).value(
                    #[trigger] old(self).signature().resources@[i],
                ) is Some,
            forall|k: u32|
                old(self).signature().resources@.contains(k) && old(resources).value(k) is None
                    ==> final(resources).value(k) == Some(0u64),
            forall|k: u32| old(resources).value(k) is Some ==> final(resources).value(k) == old(resources).value(k),
            forall|k: u32|
                !old(self).signature().resources@.contains(k) ==> final(resources).value(k) == old(resources).value(k),
            final(resources).slots() == old(resources).slots()
                + old(self).signature().resources@.map_values(|k: u32| Registration { kind: k, system: old(self).spec_id() }),
    {
        resources.initialize(&self.signature.resources, self.id);
    }

    /// Calls the function: once per entity that matches the declared
    /// components (as the world was when the run began), or once with the
    /// declared views. Each call's value writes that its shape allows are
    /// applied at once, before the next call; its structural edits are
    /// buffered, when the buffer is declared.
    pub fn run(&mut self, world: &mut EntityWorld, resources: &Resources) -> (r: Vec<Invocation>)
        requires
            old(world).wf(),
            forall|w: &EntityWorld, inv: &Invocation| old(self).func.requires((w, inv)),
            forall|i: int|
                0 <= i < old(self).signature().resources@.len() ==> resources.value(
                    #[trigger] old(self).signature().resources@[i],
                ) is Some,
        ensures
            final(world).wf(),
            final(self).func() == old(self).func(),
            final(self).signature() == old(self).signature(),
            final(self).spec_id() == old(self).spec_id(),
            final(self).spec_name() == old(self).spec_name(),
            calls_ok(
                old(world).rows(),
                old(self).signature(),
                fetches(resources.values(), old(self).signature().resources@, old(self).spec_id()),
                r@,
            ),
            exists|worlds: Seq<EntityWorld>, outs: Seq<Effects>|
                {
                    &&& outputs_ok(
                        old(self).func,
                        old(self).signature(),
                        worlds,
                        r@,
                        outs,
                        old(self).pending(),
                        final(self).pending(),
                    )
                    &&& worlds[0] == *old(world)
                    &&& worlds.last().rows() == final(world).rows()
                },
    {
        let fetched = match resources.fetch(&self.signature.resources, self.id) {
            Some(f) => f,
            None => Vec::new(),
        };
        let ghost want = fetches(resources.values(), self.signature.resources@, self.id);
        assert(fetched@ == want);
        let ghost sig = self.signature;
        let ghost start = *world;
        let mut calls: Vec<Invocation> = Vec::new();
        let ghost mut outs: Seq<Effects> = Seq::empty();
        let ghost mut worlds: Seq<EntityWorld> = seq![*world];
        match self.signature.shape {
            SystemShape::ForEach => {
                let items = matching(world, &self.signature.components);
                let mut views: Vec<Query> = Vec::new();
                views.push(Query::new(copy_shape(&self.signature.components)));
                assert(views@.map_values(|q: Query| q.shape()) =~= views_of(sig));
                let mut i: usize = 0;
                while i < items.len()
                    invariant
                        i <= items@.len(),
                        self.signature == sig,
                        self.func == old(self).func,
                        self.id == old(self).id,
                        self.name == old(self).name,
                        sig == old(self).signature,
                        sig.shape == SystemShape::ForEach,
                        forall|w: &EntityWorld, inv: &Invocation| self.func.requires((w, inv)),
                        fetched@ == want,
                        world.wf(),
                        views@.map_values(|q: Query| q.shape()) == views_of(sig),
                        crate::query::matched(start.rows(), sig.components@, items@),
                        calls@.len() == i,
                        forall|k: int| 0 <= k < i ==> (#[trigger] calls@[k]).resources@ == want,
                        forall|k: int|
                            #![trigger calls@[k]]
                            0 <= k < i ==> {
                                &&& calls@[k].entity == Some(items@[k].entity)
                                &&& calls@[k].components@ == items@[k].components@
                                &&& calls@[k].queries@.len() == 0
                            },
                        outputs_ok(self.func, sig, worlds, calls@, outs, old(self).commands@, self.commands@),
                        worlds[0] == start,
                        worlds.last() == *world,
                    decreases items@.len() - i,
                {
                    let item: &QueryItem = &items[i];
                    let inv = Invocation {
                        entity: Some(item.entity),
                        resources: copy_fetched(&fetched),
                        components: copy_row(&item.components),
                        queries: Vec::new(),
                    };
                    let eff = (self.func)(&*world, &inv);
                    let ghost out = eff;
                    let ghost seen = *world;
                    let Effects { writes, edits } = eff;
                    write_through(world, &views, Some(item.entity), &writes);
                    proof {
                        lemma_concat_push(outs, out);
                    }
                    if self.signature.commands {
                        self.commands.extend(edits);
                    }
                    let ghost prev_calls = calls@;
                    calls.push(inv);
                    proof {
                        let prev_outs = outs;
                        let prev_worlds = worlds;
                        outs = outs.push(out);
                        worlds = worlds.push(*world);
                        assert(calls@[prev_calls.len() as int] == inv);
                        if sig.commands {
                            assert(old(self).commands@ + concat_edits(outs) =~= old(self).commands@
                                + concat_edits(prev_outs) + out.edits@);
                        }
                        assert forall|k: int| 0 <= k < calls@.len() implies self.func.ensures(
                            (&worlds[k], &calls@[k]),
                            #[trigger] outs[k],
                        ) by {
                            if k < prev_calls.len() {
                                assert(calls@[k] == prev_calls[k]);
                                assert(outs[k] == prev_outs[k]);
                                assert(worlds[k] == prev_worlds[k]);
                            } else {
                                assert(worlds[k] == seen);
                            }
                        }
                        assert forall|k: int| 0 <= k < calls@.len() implies (#[trigger] worlds[k + 1]).rows()
                            == apply_writes(worlds[k].rows(), views_of(sig), calls@[k].entity, outs[k].writes@) by {
                            if k < prev_calls.len() {
                                assert(calls@[k] == prev_calls[k]);
                                assert(outs[k] == prev_outs[k]);
                                assert(worlds[k] == prev_worlds[k]);
                                assert(worlds[k + 1] == prev_worlds[k + 1]);
                            } else {
                                assert(worlds[k] == seen);
                            }
                        }
                    }
                    i = i + 1;
                }
                proof {
                    let rows = start.rows();
                    let comps = sig.components@;
                    assert forall|id: u64| rows.contains_key(id) && satisfies(rows[id], comps) implies exists|k: int|
                        0 <= k < calls@.len() && (#[trigger] calls@[k]).entity == Some(id) by {
                        let k = choose|k: int| 0 <= k < items@.len() && (#[trigger] items@[k]).entity == id;
                        assert(calls@[k].entity == Some(id));
                    }
                    assert forall|k: int, l: int| 0 <= k < l < calls@.len() implies (#[trigger] calls@[k]).entity
                        != (#[trigger] calls@[l]).entity by {
                        assert(items@[k].entity != items@[l].entity);
                    }
                    assert forall|k: int| 0 <= k < calls@.len() implies {
                        &&& (#[trigger] calls@[k]).entity is Some
                        &&& rows.contains_key(calls@[k].entity->0)
                        &&& satisfies(rows[calls@[k].entity->0], comps)
                        &&& calls@[k].components@ == gathered(rows[calls@[k].entity->0], comps)
                        &&& calls@[k].queries@.len() == 0
                    } by {
                        assert(crate::query::item_ok(rows, comps, items@[k]));
                    }
                }
            },
            SystemShape::Query => {
                let mut queries: Vec<Query> = Vec::new();
                let mut j: usize = 0;
                while j < self.signature.queries.len()
                    invariant
                        j <= self.signature.queries@.len(),
                        queries@.map_values(|q: Query| q.shape()) == self.signature.queries@.take(
                            j as int,
                        ).map_values(|q: Vec<Access>| q@),
                    decreases self.signature.queries@.len() - j,
                {
                    let ghost before = queries@;
                    let q = Query::new(copy_shape(&self.signature.queries[j]));
                    queries.push(q);
                    proof {
                        let qs = self.signature.queries@;
                        assert(queries@ == before.push(q));
                        assert(queries@.map_values(|q: Query| q.shape()) =~= before.map_values(
                            |q: Query| q.shape(),
                        ).push(q.shape()));
                        assert(qs.take(j + 1) =~= qs.take(j as int).push(qs[j as int]));
                        assert(qs.take(j + 1).map_values(|q: Vec<Access>| q@) =~= qs.take(j as int).map_values(
                            |q: Vec<Access>| q@,
                        ).push(qs[j as int]@));
                        assert(queries@.map_values(|q: Query| q.shape()) =~= qs.take(j + 1).map_values(
                            |q: Vec<Access>| q@,
                        ));
                    }
                    j = j + 1;
                }
                assert(self.signature.queries@.take(j as int) =~= self.signature.queries@);
                let inv = Invocation {
                    entity: None,
                    resources: fetched,
                    components: Vec::new(),
                    queries,
                };
                let eff = (self.func)(&*world, &inv);
                let ghost out = eff;
                let Effects { writes, edits } = eff;
                write_through(world, &inv.queries, None, &writes);
                proof {
                    lemma_concat_push(Seq::empty(), out);
                    assert(Seq::<Effects>::empty().push(out) =~= seq![out]);
                }
                if self.signature.commands {
                    self.commands.extend(edits);
                }
                calls.push(inv);
                proof {
                    outs = seq![out];
                    worlds = worlds.push(*world);
                    assert(calls@[0] == inv);
                    assert(worlds[0] == start);
                }
            },
        }
        assert(outputs_ok(
            old(self).func,
            old(self).signature(),
            worlds,
            calls@,
            outs,
            old(self).pending(),
            self.pending(),
        ));
        calls
    }

    /// Applies the buffered edits to the world in recording order and
    /// empties the buffer; returns the entity each spawn received.
    pub fn run_thread_local(&mut self, world: &mut EntityWorld, resources: &mut Resources) -> (r: Vec<Option<u64>>)
        requires
            old(world).wf(),
        ensures
            final(world).wf(),
            outcomes_ok(old(world).rows(), old(self).pending(), r@),
            final(world).rows() == replay(old(world).rows(), old(self).pending(), r@),
            final(self).pending().len() == 0,
            final(self).func() == old(self).func(),
            final(self).signature() == old(self).signature(),
            final(self).spec_id() == old(self).spec_id(),
            final(self).spec_name() == old(self).spec_name(),
            *final(resources) == *old(resources),
    {
        let commands = self.commands.take();
        commands.apply(world)
    }
}

/// Builds a per-entity unit from a function.
pub trait IntoForEachSystem: Sized {
    fn system(self, name: String, params: &Vec<Param>, issuer: &mut IdIssuer) -> (r: Result<
        SystemFn<Self>,
        SignatureError,
    >)
        requires
            old(issuer).wf(),
            old(issuer).upcoming() < u64::MAX,
        ensures
            final(issuer).wf(),
            r is Ok <==> valid_params(params@, SystemShape::ForEach),
            r matches Ok(s) ==> {
                &&& s.func == self
                &&& s.signature.describes(params@, SystemShape::ForEach)
                &&& s.commands@.len() == 0
                &&& s.name@ == name@
                &&& s.id.id == old(issuer).upcoming()
                &&& !old(issuer).issued().contains(s.id.id)
                &&& final(issuer).issued() == old(issuer).issued().insert(s.id.id)
                &&& final(issuer).upcoming() == old(issuer).upcoming() + 1
            },
            r is Err ==> *final(issuer) == *old(issuer),
    ;
}

/// Builds an aggregate unit, handed query views, from a function.
pub trait IntoQuerySystem: Sized {
    fn system(self, name: String, params: &Vec<Param>, issuer: &mut IdIssuer) -> (r: Result<
        SystemFn<Self>,
        SignatureError,
    >)
        requires
            old(issuer).wf(),
            old(issuer).upcoming() < u64::MAX,
        ensures
            final(issuer).wf(),
            r is Ok <==> valid_params(params@, SystemShape::Query),
            r matches Ok(s) ==> {
                &&& s.func == self
                &&& s.signature.describes(params@, SystemShape::Query)
                &&& s.commands@.len() == 0
                &&& s.name@ == name@
                &&& s.id.id == old(issuer).upcoming()
                &&& !old(issuer).issued().contains(s.id.id)
                &&& final(issuer).issued() == old(issuer).issued().insert(s.id.id)
                &&& final(issuer).upcoming() == old(issuer).upcoming() + 1
            },
            r is Err ==> *final(issuer) == *old(issuer),
    ;
}

impl<F: Fn(&EntityWorld, &Invocation) -> Effects> IntoForEachSystem for F {
    fn system(self, name: String, params: &Vec<Param>, issuer: &mut IdIssuer) -> (r: Result<
        SystemFn<Self>,
        SignatureError,
    >) {
        SystemFn::new(self, name, params, SystemShape::ForEach, issuer)
    }
}

impl<F: Fn(&EntityWorld, &Invocation) -> Effects> IntoQuerySystem for F {
    fn system(self, name: String, params: &Vec<Param>, issuer: &mut IdIssuer) -> (r: Result<
        SystemFn<Self>,
        SignatureError,
    >) {
        SystemFn::new(self, name, params, SystemShape::Query, issuer)
    }
}

/// A function for an exclusive unit: it sees the world and resources as they
/// are and returns the edits to apply at once.
/// What an exclusive unit's function asks for: structural edits and
/// resource updates, both applied at once, in order.
#[derive(Debug)]
pub struct ExclusiveEffects {
    pub edits: Vec<Edit>,
    pub resources: Vec<Component>,
}

pub trait ThreadLocalSystemFn {
    /// When `run` may be called.
    spec fn run_requires(&self, world: &EntityWorld, resources: &Resources) -> bool;

    /// What `run` may return.
    spec fn run_ensures(&self, world: &EntityWorld, resources: &Resources, out: ExclusiveEffects) -> bool;

    fn run(&self, world: &EntityWorld, resources: &Resources) -> (r: ExclusiveEffects)
        requires
            self.run_requires(world, resources),
        ensures
            self.run_ensures(world, resources, r),
    ;
}

impl<F: Fn(&EntityWorld, &Resources) -> ExclusiveEffects> ThreadLocalSystemFn for F {
    open spec fn run_requires(&self, world: &EntityWorld, resources: &Resources) -> bool {
        self.requires((world, resources))
    }

    open spec fn run_ensures(&self, world: &EntityWorld, resources: &Resources, out: ExclusiveEffects) -> bool {
        self.ensures((world, resources), out)
    }

    fn run(&self, world: &EntityWorld, resources: &Resources) -> (r: ExclusiveEffects) {
        self(world, resources)
    }
}

/// A unit that runs alone with the world and resources to itself, applying
/// what its function asks at once.
pub struct ThreadLocalSystem<F> {
    pub func: F,
    pub name: String,
    pub id: SystemId,
}

impl<F: ThreadLocalSystemFn> ThreadLocalSystem<F> {
    pub fn new(func: F, name: String, issuer: &mut IdIssuer) -> (r: ThreadLocalSystem<F>)
        requires
            old(issuer).wf(),
            old(issuer).upcoming() < u64::MAX,
        ensures
            final(issuer).wf(),
            r.func == func,
            r.name@ == name@,
            r.id.id == old(issuer).upcoming(),
            !old(issuer).issued().contains(r.id.id),
            final(issuer).issued() == old(issuer).issued().insert(r.id.id),
            final(issuer).upcoming() == old(issuer).upcoming() + 1,
    {
        let id = issuer.issue();
        ThreadLocalSystem { func, name, id }
    }

    pub fn name(&self) -> (r: &str)
        ensures
            r@ == self.name@,
    {
        self.name.as_str()
    }

    pub fn id(&self) -> (r: SystemId)
        ensures
            r == self.id,
    {
        self.id
    }

    pub fn thread_local_execution(&self) -> (r: ExecutionMode)
        ensures
            r == ExecutionMode::Exclusive,
    {
        ExecutionMode::Exclusive
    }

    /// Does nothing: an exclusive unit works only in `run_thread_local`.
    pub fn run(&mut self, world: &EntityWorld, resources: &Resources)
        ensures
            *final(self) == *old(self),
    {
    }

    /// Calls the function and applies the edits and resource updates it
    /// returns, in order, at once; returns those edits and the entity each
    /// spawn received.
    pub fn run_thread_local(&mut self, world: &mut EntityWorld, resources: &mut Resources) -> (r: (
        Commands,
        Vec<Option<u64>>,
    ))
        requires
            old(world).wf(),
            old(self).func.run_requires(&*old(world), &*old(resources)),
        ensures
            final(world).wf(),
            *final(self) == *old(self),
            exists|out: ExclusiveEffects|
                {
                    &&& old(self).func.run_ensures(&*old(world), &*old(resources), out)
                    &&& r.0@ == out.edits@
                    &&& final(resources).values() == set_resources(old(resources).values(), out.resources@)
                },
            final(resources).slots() == old(resources).slots(),
            outcomes_ok(old(world).rows(), r.0@, r.1@),
            final(world).rows() == replay(old(world).rows(), r.0@, r.1@),
    {
        let out = self.func.run(world, resources);
        let ghost returned = out;
        let ExclusiveEffects { edits, resources: updates } = out;
        let mut commands = Commands::new();
        commands.extend(edits);
        assert(commands@ =~= returned.edits@);
        let outs = commands.apply(world);
        resources.set_all(&updates);
        (commands, outs)
    }
}

/// The entities of `rows` whose row satisfies `shape`.
pub open spec fn matching_ids(rows: Map<u64, Seq<Component>>, shape: Seq<Access>) -> Set<u64> {
    rows.dom().filter(|id: u64| satisfies(rows[id], shape))
}

/// A per-entity run calls its function exactly once for each matching
/// entity, and for no other: the number of calls is the number of entities
/// whose row holds every declared component.
pub proof fn lemma_one_call_per_match(
    rows: Map<u64, Seq<Component>>,
    sig: Signature,
    fetched: Seq<Fetched>,
    calls: Seq<Invocation>,
)
    requires
        rows.dom().finite(),
        sig.shape == SystemShape::ForEach,
        calls_ok(rows, sig, fetched, calls),
    ensures
        calls.len() == matching_ids(rows, sig.components@).len(),
        forall|i: int|
            0 <= i < calls.len() ==> matching_ids(rows, sig.components@).contains(
                (#[trigger] calls[i]).entity->0,
            ),
{
    let ents = calls.map_values(|c: Invocation| c.entity->0);
    let m = matching_ids(rows, sig.components@);
    assert forall|i: int, k: int| 0 <= i < ents.len() && 0 <= k < ents.len() && i != k implies ents[i]
        != ents[k] by {
        if i < k {
            assert(calls[i].entity != calls[k].entity);
        } else {
            assert(calls[k].entity != calls[i].entity);
        }
    }
    assert(ents.no_duplicates());
    assert forall|id: u64| ents.to_set().contains(id) <==> m.contains(id) by {
        if m.contains(id) {
            let i = choose|i: int| 0 <= i < calls.len() && (#[trigger] calls[i]).entity == Some(id);
            assert(ents[i] == id);
        }
        if ents.to_set().contains(id) {
            let i = choose|i: int| 0 <= i < ents.len() && ents[i] == id;
            assert(calls[i].entity is Some);
        }
    }
    assert(ents.to_set() =~= m);
    ents.unique_seq_to_set();
    assert forall|i: int| 0 <= i < calls.len() implies m.contains((#[trigger] calls[i]).entity->0) by {
        assert(calls[i].entity is Some);
    }
}

/// Two units that read the same resource each fetch it under their own id:
/// the fetches carry the same value and differ in their key.
pub proof fn lemma_shared_reads_keyed(values: Seq<Component>, kind: u32, a: SystemId, b: SystemId)
    requires
        a != b,
    ensures
        fetch_of(values, kind, a).value == fetch_of(values, kind, b).value,
        fetch_of(values, kind, a).kind == kind && fetch_of(values, kind, b).kind == kind,
        fetch_of(values, kind, a).system == a && fetch_of(values, kind, b).system == b,
        fetch_of(values, kind, a) != fetch_of(values, kind, b),
{
}

/// A copy of a list of fetched resources.
fn copy_fetched(v: &Vec<Fetched>) -> (r: Vec<Fetched>)
    ensures
        r@ == v@,
{
    let mut r: Vec<Fetched> = Vec::new();
    let mut i: usize = 0;
    while i < v.len()
        invariant
            i <= v@.len(),
            r@ == v@.take(i as int),
        decreases v@.len() - i,
    {
        r.push(v[i]);
        i = i + 1;
        assert(r@ =~= v@.take(i as int));
    }
    assert(v@.take(i as int) =~= v@);
    r
}

} // verus!
