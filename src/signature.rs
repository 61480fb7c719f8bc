use vstd::prelude::*;
use crate::query::Access;

verus! {

/// The role of one parameter of a unit's function, in declaration order.
#[derive(Clone, Debug)]
pub enum Param {
    /// The deferred-edit buffer; only as the first parameter.
    Commands,
    /// A resource of the given kind.
    Resource(u32),
    /// One component of each matched entity (per-entity functions).
    Component(Access),
    /// A query view over the given shape (aggregate functions).
    Query(Vec<Access>),
}

/// How a function receives entity data.
#[derive(Clone, Copy, Debug, PartialEq, Eq, Structural)]
pub enum SystemShape {
    /// Called once per entity matching the declared components.
    ForEach,
    /// Called once per run with one query view per declared shape.
    Query,
}

/// A parameter list that fits no shape.
#[derive(Clone, Copy, Debug, PartialEq, Eq, Structural)]
pub struct SignatureError {
    /// The first parameter out of place, or the length when a per-entity
    /// function declares no component.
    pub position: usize,
}

/// What a unit declares, sorted by role.
#[derive(Clone, Debug)]
pub struct Signature {
    pub shape: SystemShape,
    pub commands: bool,
    pub resources: Vec<u32>,
    pub components: Vec<Access>,
    pub queries: Vec<Vec<Access>>,
}

/// Buffer, then resources, then entity data.
pub open spec fn rank(p: Param) -> int {
    match p {
        Param::Commands => 0,
        Param::Resource(_) => 1,
        _ => 2,
    }
}

/// Whether a parameter may stand at position `i`, after one of rank `prev`.
pub open spec fn fits(shape: SystemShape, p: Param, i: int, prev: int) -> bool {
    &&& prev <= rank(p)
    &&& (p is Commands ==> i == 0)
    &&& (shape == SystemShape::ForEach ==> !(p is Query))
    &&& (shape == SystemShape::Query ==> !(p is Component))
}

/// The rank of the parameter before position `i` (0 at the start).
pub open spec fn prev_rank(ps: Seq<Param>, i: int) -> int {
    if i == 0 {
        0
    } else {
        rank(ps[i - 1])
    }
}

/// Whether the first `n` parameters fit the shape.
pub open spec fn fits_upto(ps: Seq<Param>, shape: SystemShape, n: int) -> bool {
    forall|i: int| 0 <= i < n ==> fits(shape, #[trigger] ps[i], i, prev_rank(ps, i))
}

/// A parameter list the shape accepts: an optional buffer, then resources,
/// then entity data of the shape's kind, at least one component per entity.
pub open spec fn valid_params(ps: Seq<Param>, shape: SystemShape) -> bool {
    &&& fits_upto(ps, shape, ps.len() as int)
    &&& (shape == SystemShape::ForEach ==> exists|i: int| 0 <= i < ps.len() && (#[trigger] ps[i]) is Component)
}

/// The error a rejected parameter list gets.
pub open spec fn first_misfit(ps: Seq<Param>, shape: SystemShape) -> int {
    if fits_upto(ps, shape, ps.len() as int) {
        ps.len() as int
    } else {
        choose|i: int|
            0 <= i < ps.len() && !fits(shape, #[trigger] ps[i], i, prev_rank(ps, i)) && fits_upto(ps, shape, i)
    }
}

pub open spec fn resource_kinds(ps: Seq<Param>) -> Seq<u32>
    decreases ps.len(),
{
    if ps.len() == 0 {
        Seq::empty()
    } else {
        match ps.last() {
            Param::Resource(k) => resource_kinds(ps.drop_last()).push(k),
            _ => resource_kinds(ps.drop_last()),
        }
    }
}

pub open spec fn component_accesses(ps: Seq<Param>) -> Seq<Access>
    decreases ps.len(),
{
    if ps.len() == 0 {
        Seq::empty()
    } else {
        match ps.last() {
            Param::Component(a) => component_accesses(ps.drop_last()).push(a),
            _ => component_accesses(ps.drop_last()),
        }
    }
}

pub open spec fn query_shapes(ps: Seq<Param>) -> Seq<Seq<Access>>
    decreases ps.len(),
{
    if ps.len() == 0 {
        Seq::empty()
    } else {
        match ps.last() {
            Param::Query(q) => query_shapes(ps.drop_last()).push(q@),
            _ => query_shapes(ps.drop_last()),
        }
    }
}

/// A copy of a shape.
pub fn copy_shape(shape: &Vec<Access>) -> (r: Vec<Access>)
    ensures
        r@ == shape@,
{
    let mut r: Vec<Access> = Vec::new();
    let mut i: usize = 0;
    while i < shape.len()
        invariant
            i <= shape@.len(),
            r@ == shape@.take(i as int),
        decreases shape@.len() - i,
    {
        r.push(shape[i]);
        i = i + 1;
        assert(r@ =~= shape@.take(i as int));
    }
    assert(shape@.take(i as int) =~= shape@);
    r
}

impl Signature {
    /// What this signature holds, for the parameter list it was read from.
    pub open spec fn describes(&self, ps: Seq<Param>, shape: SystemShape) -> bool {
        &&& self.shape == shape
        &&& self.commands == (ps.len() > 0 && ps[0] is Commands)
        &&& self.resources@ == resource_kinds(ps)
        &&& self.components@ == component_accesses(ps)
        &&& self.queries@.map_values(|q: Vec<Access>| q@) == query_shapes(ps)
    }

    /// Reads the roles of a parameter list for the given shape.
    pub fn from_params(params: &Vec<Param>, shape: SystemShape) -> (r: Result<Signature, SignatureError>)
        ensures
            r is Ok <==> valid_params(params@, shape),
            r matches Ok(s) ==> s.describes(params@, shape),
            r matches Err(e) ==> e.position == first_misfit(params@, shape),
    {
        let mut commands = false;
        let mut resources: Vec<u32> = Vec::new();
        let mut components: Vec<Access> = Vec::new();
        let mut queries: Vec<Vec<Access>> = Vec::new();
        let mut prev: u8 = 0;
        let mut i: usize = 0;
        while i < params.len()
            invariant
                i <= params@.len(),
                prev as int == prev_rank(params@, i as int),
                fits_upto(params@, shape, i as int),
                commands == (i > 0 && params@[0] is Commands),
                resources@ == resource_kinds(params@.take(i as int)),
                components@ == component_accesses(params@.take(i as int)),
                queries@.map_values(|q: Vec<Access>| q@) == query_shapes(params@.take(i as int)),
                shape == SystemShape::Query ==> components@.len() == 0,
                components@.len() > 0 <==> exists|j: int| 0 <= j < i && (#[trigger] params@[j]) is Component,
            decreases params@.len() - i,
        {
            let p = &params[i];
            let (rank, ok): (u8, bool) = match p {
                Param::Commands => (0, i == 0),
                Param::Resource(_) => (1, true),
                Param::Component(_) => (2, shape == SystemShape::ForEach),
                Param::Query(_) => (2, shape == SystemShape::Query),
            };
            if !ok || rank < prev {
                proof {
                    assert(!fits(shape, params@[i as int], i as int, prev_rank(params@, i as int)));
                    assert(!fits_upto(params@, shape, params@.len() as int));
                    let c = choose|c: int|
                        0 <= c < params@.len() && !fits(shape, #[trigger] params@[c], c, prev_rank(params@, c))
                            && fits_upto(params@, shape, c);
                    if c < i {
                        assert(fits(shape, params@[c], c, prev_rank(params@, c)));
                    } else if c > i {
                        assert(fits(shape, params@[i as int], i as int, prev_rank(params@, i as int)));
                    }
                }
                return Err(SignatureError { position: i });
            }
            let ghost before = params@.take(i as int);
            proof {
                assert(params@.take(i + 1).drop_last() =~= before);
                assert(params@.take(i + 1).last() == params@[i as int]);
            }
            match p {
                Param::Commands => {
                    commands = true;
                },
                Param::Resource(k) => {
                    resources.push(*k);
                },
                Param::Component(a) => {
                    components.push(*a);
                },
                Param::Query(q) => {
                    let ghost qs = queries@;
                    queries.push(copy_shape(q));
                    proof {
                        assert(queries@.map_values(|q: Vec<Access>| q@) =~= qs.map_values(
                            |q: Vec<Access>| q@,
                        ).push(q@));
                    }
                },
            }
            prev = rank;
            i = i + 1;
        }
        assert(params@.take(i as int) =~= params@);
        if shape == SystemShape::ForEach && components.len() == 0 {
            return Err(SignatureError { position: params.len() });
        }
        Ok(Signature { shape, commands, resources, components, queries })
    }
}

} // verus!
