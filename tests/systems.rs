use bevy_ecs_systems::{
    Access, Commands, Component, Edit, Effects, EntityWorld, ExclusiveEffects, ExecutionMode, IdIssuer,
    IntoForEachSystem, IntoQuerySystem, Invocation, Param, Query, QueryError, Resources, SignatureError,
    SystemFn, SystemShape, ThreadLocalSystem, Write,
};
use std::cell::Cell;

const POSITION: u32 = 1;
const VELOCITY: u32 = 2;
const COUNTER: u32 = 10;

fn c(kind: u32, value: u64) -> Component {
    Component { kind, value }
}

fn read(kind: u32) -> Access {
    Access { kind, write: false }
}

fn write(kind: u32) -> Access {
    Access { kind, write: true }
}

fn edits_only(edits: Vec<Edit>) -> Effects {
    Effects { writes: Vec::new(), edits }
}

fn exclusive(edits: Vec<Edit>) -> ExclusiveEffects {
    ExclusiveEffects { edits, resources: Vec::new() }
}

fn three_entities() -> (EntityWorld, u64, u64, u64) {
    let mut world = EntityWorld::new();
    let a = world.spawn(vec![c(POSITION, 1), c(VELOCITY, 10)]).unwrap();
    let b = world.spawn(vec![c(POSITION, 2), c(VELOCITY, 20)]).unwrap();
    let only_position = world.spawn(vec![c(POSITION, 3)]).unwrap();
    (world, a, b, only_position)
}

#[test]
fn foreach_runs_once_per_matching_entity() {
    let (mut world, a, b, lone) = three_entities();
    let mut resources = Resources::new();
    resources.insert(COUNTER, 7);
    let mut issuer = IdIssuer::new();
    let seen = Cell::new(0usize);
    let params = vec![
        Param::Commands,
        Param::Resource(COUNTER),
        Param::Component(read(POSITION)),
        Param::Component(write(VELOCITY)),
    ];
    let body = |_w: &EntityWorld, inv: &Invocation| -> Effects {
        seen.set(seen.get() + 1);
        let e = inv.entity.unwrap();
        let pos = inv.components[0].value;
        let vel = inv.components[1].value;
        let counter = inv.resources[0].value;
        Effects {
            writes: vec![
                Write { entity: e, component: c(VELOCITY, vel + pos + counter) },
                Write { entity: e, component: c(POSITION, 1000) },
            ],
            edits: vec![Edit::Insert(e, c(3, pos))],
        }
    };
    let mut system = IntoForEachSystem::system(body, "movement".to_string(), &params, &mut issuer).unwrap();
    system.initialize(&mut resources);
    let calls = system.run(&mut world, &resources);
    assert_eq!(seen.get(), 2);
    assert_eq!(calls.len(), 2);
    let mut entities: Vec<u64> = calls.iter().map(|i| i.entity.unwrap()).collect();
    entities.sort();
    let mut expected = vec![a, b];
    expected.sort();
    assert_eq!(entities, expected);
    assert!(calls.iter().all(|i| i.entity != Some(lone)));
    // writes to writable components land during the run; read-only ones are ignored
    assert_eq!(world.get(a, VELOCITY), Some(18));
    assert_eq!(world.get(b, VELOCITY), Some(29));
    assert_eq!(world.get(a, POSITION), Some(1));
    // structural edits wait for the flush
    assert_eq!(world.get(a, 3), None);
    assert_eq!(system.commands.len(), 2);
    let outs = system.run_thread_local(&mut world, &mut resources);
    assert_eq!(outs, vec![None, None]);
    assert_eq!(world.get(a, 3), Some(1));
    assert_eq!(world.get(b, 3), Some(2));
    assert_eq!(world.get(a, VELOCITY), Some(18));
    assert_eq!(world.row(lone).unwrap(), vec![c(POSITION, 3)]);
    assert_eq!(system.commands.len(), 0);
    assert_eq!(system.thread_local_execution(), ExecutionMode::Parallel);
}

#[test]
fn deferred_spawns_and_despawn_apply_at_flush() {
    let (mut world, a, _b, _lone) = three_entities();
    let mut resources = Resources::new();
    let mut issuer = IdIssuer::new();
    let params = vec![Param::Commands];
    let body = move |_w: &EntityWorld, _inv: &Invocation| -> Effects {
        let mut cmds = Commands::new();
        cmds.spawn(vec![c(POSITION, 100)]);
        cmds.spawn(vec![c(POSITION, 200), c(VELOCITY, 5)]);
        cmds.spawn(vec![]);
        cmds.despawn(a);
        edits_only(cmds.edits().clone())
    };
    let mut system = IntoQuerySystem::system(body, "spawner".to_string(), &params, &mut issuer).unwrap();
    let calls = system.run(&mut world, &resources);
    assert_eq!(calls.len(), 1);
    assert_eq!(world.len(), 3);
    assert!(world.contains(a));
    let outs = system.run_thread_local(&mut world, &mut resources);
    assert_eq!(world.len(), 3 + 3 - 1);
    assert!(!world.contains(a));
    assert_eq!(outs.len(), 4);
    assert_eq!(world.row(outs[0].unwrap()).unwrap(), vec![c(POSITION, 100)]);
    assert_eq!(world.row(outs[1].unwrap()).unwrap(), vec![c(POSITION, 200), c(VELOCITY, 5)]);
    assert_eq!(world.row(outs[2].unwrap()).unwrap(), Vec::<Component>::new());
    assert_eq!(outs[3], None);
    // the buffer is empty for the next run
    let again = system.run_thread_local(&mut world, &mut resources);
    assert!(again.is_empty());
    assert_eq!(world.len(), 5);
}

#[test]
fn structural_edits_need_a_declared_buffer_but_writes_do_not() {
    let (mut world, a, _b, _lone) = three_entities();
    let mut resources = Resources::new();
    let mut issuer = IdIssuer::new();
    let params = vec![Param::Component(write(POSITION))];
    let body = |_w: &EntityWorld, inv: &Invocation| -> Effects {
        let e = inv.entity.unwrap();
        Effects {
            writes: vec![Write { entity: e, component: c(POSITION, inv.components[0].value + 100) }],
            edits: vec![Edit::Despawn(e)],
        }
    };
    let mut system = IntoForEachSystem::system(body, "quiet".to_string(), &params, &mut issuer).unwrap();
    assert_eq!(system.run(&mut world, &resources).len(), 3);
    assert_eq!(system.commands.len(), 0);
    assert_eq!(world.get(a, POSITION), Some(101));
    system.run_thread_local(&mut world, &mut resources);
    assert!(world.contains(a));
    assert_eq!(world.len(), 3);
}

#[test]
fn exclusive_run_changes_nothing_until_run_thread_local() {
    let (mut world, a, _b, _lone) = three_entities();
    let mut resources = Resources::new();
    resources.insert(COUNTER, 5);
    let mut issuer = IdIssuer::new();
    let body = move |_w: &EntityWorld, r: &Resources| -> ExclusiveEffects {
        let n = r.get(COUNTER).unwrap_or(0);
        ExclusiveEffects {
            edits: vec![Edit::Remove(a, VELOCITY), Edit::Spawn(vec![c(VELOCITY, 1)])],
            resources: vec![c(COUNTER, n + 1), c(11, 4)],
        }
    };
    let mut system = ThreadLocalSystem::new(body, "exclusive".to_string(), &mut issuer);
    assert_eq!(system.thread_local_execution(), ExecutionMode::Exclusive);
    system.run(&world, &resources);
    assert_eq!(world.len(), 3);
    assert_eq!(world.row(a).unwrap(), vec![c(POSITION, 1), c(VELOCITY, 10)]);
    assert_eq!(resources.get(COUNTER), Some(5));
    let (applied, outs) = system.run_thread_local(&mut world, &mut resources);
    assert_eq!(applied.len(), 2);
    assert_eq!(resources.get(COUNTER), Some(6));
    assert_eq!(resources.get(11), Some(4));
    assert_eq!(world.row(a).unwrap(), vec![c(POSITION, 1)]);
    assert_eq!(world.len(), 4);
    assert_eq!(world.row(outs[1].unwrap()).unwrap(), vec![c(VELOCITY, 1)]);
    assert_eq!(system.name(), "exclusive");
}

#[test]
fn shared_reads_are_fetched_under_each_unit_id() {
    let (mut world, _a, _b, _lone) = three_entities();
    let mut resources = Resources::new();
    resources.insert(COUNTER, 3);
    let mut issuer = IdIssuer::new();
    let params = vec![Param::Resource(COUNTER), Param::Query(vec![read(POSITION)])];
    let body = |_w: &EntityWorld, _inv: &Invocation| -> Effects { edits_only(Vec::new()) };
    let mut first = IntoQuerySystem::system(body, "first".to_string(), &params, &mut issuer).unwrap();
    let mut second = IntoQuerySystem::system(body, "second".to_string(), &params, &mut issuer).unwrap();
    assert_ne!(first.id(), second.id());
    first.initialize(&mut resources);
    second.initialize(&mut resources);
    let f = first.run(&mut world, &resources);
    let s = second.run(&mut world, &resources);
    assert_eq!(f[0].resources[0].value, 3);
    assert_eq!(s[0].resources[0].value, 3);
    assert_eq!(f[0].resources[0].system, first.id());
    assert_eq!(s[0].resources[0].system, second.id());
    assert_eq!(f[0].queries.len(), 1);
    assert_eq!(f[0].queries[0].iter(&world).len(), 3);
}

#[test]
fn query_get_on_entity_missing_component_is_not_found() {
    let (world, a, _b, lone) = three_entities();
    let q = Query::new(vec![read(POSITION), write(VELOCITY)]);
    assert_eq!(q.get(&world, lone, POSITION), Err(QueryError::NotFound));
    assert_eq!(q.get(&world, lone, VELOCITY), Err(QueryError::NotFound));
    assert_eq!(q.get(&world, a, VELOCITY), Ok(c(VELOCITY, 10)));
    assert_eq!(q.get_mut(&world, a, VELOCITY), Ok(c(VELOCITY, 10)));
    assert_eq!(q.get_mut(&world, a, POSITION), Err(QueryError::ShapeMismatch));
    assert_eq!(q.get(&world, a, 99), Err(QueryError::ShapeMismatch));
    assert_eq!(q.get(&world, 12345, POSITION), Err(QueryError::NotFound));
}

#[test]
fn query_iter_lists_matching_entities_with_components() {
    let (world, a, b, _lone) = three_entities();
    let q = Query::new(vec![write(VELOCITY), read(POSITION)]);
    let mut items: Vec<(u64, Vec<Component>)> = q.iter(&world).into_iter().map(|i| (i.entity, i.components)).collect();
    items.sort_by_key(|i| i.0);
    let mut expected = vec![(a, vec![c(VELOCITY, 10), c(POSITION, 1)]), (b, vec![c(VELOCITY, 20), c(POSITION, 2)])];
    expected.sort_by_key(|i| i.0);
    assert_eq!(items, expected);
    assert_eq!(Query::new(vec![]).iter(&world).len(), 3);
}

#[test]
fn signatures_out_of_order_are_rejected() {
    let mut issuer = IdIssuer::new();
    let body = |_w: &EntityWorld, _inv: &Invocation| -> Effects { edits_only(Vec::new()) };
    let late_commands = vec![Param::Resource(1), Param::Commands, Param::Component(read(2))];
    assert_eq!(
        IntoForEachSystem::system(body, "x".to_string(), &late_commands, &mut issuer).err(),
        Some(SignatureError { position: 1 })
    );
    let resource_after = vec![Param::Component(read(2)), Param::Resource(1)];
    assert_eq!(
        IntoForEachSystem::system(body, "x".to_string(), &resource_after, &mut issuer).err(),
        Some(SignatureError { position: 1 })
    );
    let no_components = vec![Param::Commands, Param::Resource(1)];
    assert_eq!(
        IntoForEachSystem::system(body, "x".to_string(), &no_components, &mut issuer).err(),
        Some(SignatureError { position: 2 })
    );
    let query_in_foreach = vec![Param::Query(vec![read(1)])];
    assert_eq!(
        IntoForEachSystem::system(body, "x".to_string(), &query_in_foreach, &mut issuer).err(),
        Some(SignatureError { position: 0 })
    );
    let component_in_query = vec![Param::Resource(1), Param::Component(read(1))];
    assert_eq!(
        IntoQuerySystem::system(body, "x".to_string(), &component_in_query, &mut issuer).err(),
        Some(SignatureError { position: 1 })
    );
    let twice = vec![Param::Commands, Param::Commands, Param::Component(read(1))];
    assert_eq!(
        SystemFn::new(body, "x".to_string(), &twice, SystemShape::ForEach, &mut issuer).err(),
        Some(SignatureError { position: 1 })
    );
    // no id is spent on a rejected list
    assert_eq!(issuer.issue().id, 0);
}

#[test]
fn signature_sorts_roles_in_order() {
    let mut issuer = IdIssuer::new();
    let body = |_w: &EntityWorld, _inv: &Invocation| -> Effects { edits_only(Vec::new()) };
    let params = vec![
        Param::Resource(4),
        Param::Resource(3),
        Param::Query(vec![read(1)]),
        Param::Query(vec![write(2), read(1)]),
    ];
    let s = IntoQuerySystem::system(body, "agg".to_string(), &params, &mut issuer).unwrap();
    assert!(!s.signature.commands);
    assert_eq!(s.signature.resources, vec![4, 3]);
    assert_eq!(s.signature.queries, vec![vec![read(1)], vec![write(2), read(1)]]);
    assert_eq!(s.name(), "agg");
    let empty: Vec<Param> = Vec::new();
    assert!(IntoQuerySystem::system(body, "none".to_string(), &empty, &mut issuer).is_ok());
}

#[test]
fn issued_ids_are_distinct_and_increasing() {
    let mut issuer = IdIssuer::new();
    let ids: Vec<u64> = (0..100).map(|_| issuer.issue().id).collect();
    for w in ids.windows(2) {
        assert!(w[0] < w[1]);
    }
    assert_eq!(ids[0], 0);
    assert_eq!(ids[99], 99);
}

#[test]
fn initialize_gives_defaults_and_keeps_values() {
    let mut resources = Resources::new();
    resources.insert(5, 42);
    let mut issuer = IdIssuer::new();
    let body = |_w: &EntityWorld, _inv: &Invocation| -> Effects { edits_only(Vec::new()) };
    let params = vec![Param::Resource(5), Param::Resource(6), Param::Component(read(1))];
    let mut s = IntoForEachSystem::system(body, "init".to_string(), &params, &mut issuer).unwrap();
    assert_eq!(resources.get(6), None);
    s.initialize(&mut resources);
    assert_eq!(resources.get(5), Some(42));
    assert_eq!(resources.get(6), Some(0));
    let fetched = resources.fetch(&vec![5, 6], s.id()).unwrap();
    assert_eq!(fetched.len(), 2);
    assert_eq!(fetched[1].value, 0);
    assert!(resources.fetch(&vec![7], s.id()).is_none());
}

#[test]
fn insert_replaces_and_remove_takes_out() {
    let mut world = EntityWorld::new();
    let e = world.spawn(vec![c(1, 1), c(2, 2)]).unwrap();
    let mut cmds = Commands::new();
    cmds.insert(e, c(1, 9));
    cmds.insert(e, c(3, 3));
    cmds.remove(e, 2);
    cmds.insert(777, c(1, 1));
    cmds.remove(777, 1);
    assert_eq!(world.row(e).unwrap(), vec![c(1, 1), c(2, 2)]);
    let outs = cmds.apply(&mut world);
    assert_eq!(outs, vec![None, None, None, None, None]);
    assert_eq!(world.row(e).unwrap(), vec![c(1, 9), c(3, 3)]);
    assert_eq!(world.len(), 1);
    let taken = cmds.take();
    assert_eq!(taken.len(), 5);
    assert_eq!(cmds.len(), 0);
}

#[test]
fn world_spawn_despawn_round_trip() {
    let mut world = EntityWorld::new();
    assert_eq!(world.len(), 0);
    let a = world.spawn(vec![c(1, 5)]).unwrap();
    let b = world.spawn(vec![c(1, 6)]).unwrap();
    assert_ne!(a, b);
    assert_eq!(world.get(a, 1), Some(5));
    assert_eq!(world.get(a, 2), None);
    let mut ids = world.entities();
    ids.sort();
    let mut expected = vec![a, b];
    expected.sort();
    assert_eq!(ids, expected);
    assert!(world.despawn(a));
    assert!(!world.despawn(a));
    assert!(!world.contains(a));
    assert!(world.row(a).is_none());
    assert!(!world.set_row(a, vec![]));
    assert!(world.set_row(b, vec![c(2, 1)]));
    assert_eq!(world.row(b).unwrap(), vec![c(2, 1)]);
    let c2 = world.spawn(vec![]).unwrap();
    assert_ne!(c2, a);
    assert_eq!(world.len(), 2);
}

#[test]
fn find_kind_returns_first_match() {
    let row = vec![c(1, 1), c(2, 2), c(1, 3)];
    assert_eq!(bevy_ecs_systems::find_kind(&row, 1), Some(c(1, 1)));
    assert_eq!(bevy_ecs_systems::find_kind(&row, 4), None);
}

#[test]
fn initialize_registers_each_resource_under_the_unit_id() {
    let mut resources = Resources::new();
    let mut issuer = IdIssuer::new();
    issuer.issue();
    let body = |_w: &EntityWorld, _inv: &Invocation| -> Effects { edits_only(Vec::new()) };
    let params = vec![Param::Resource(8), Param::Resource(9)];
    let mut s = IntoQuerySystem::system(body, "reg".to_string(), &params, &mut issuer).unwrap();
    s.initialize(&mut resources);
    let regs = resources.registrations();
    assert_eq!(regs.len(), 2);
    assert_eq!(regs[0].kind, 8);
    assert_eq!(regs[1].kind, 9);
    assert_eq!(regs[0].system.id, 1);
    assert_eq!(s.id().id, 1);
}

#[test]
fn query_set_writes_in_place_for_writable_kinds() {
    let (mut world, a, b, lone) = three_entities();
    let q = Query::new(vec![read(POSITION), write(VELOCITY)]);
    assert_eq!(q.set(&mut world, a, c(VELOCITY, 99)), Ok(()));
    assert_eq!(world.get(a, VELOCITY), Some(99));
    assert_eq!(world.get(b, VELOCITY), Some(20));
    assert_eq!(q.set(&mut world, a, c(POSITION, 5)), Err(QueryError::ShapeMismatch));
    assert_eq!(world.get(a, POSITION), Some(1));
    assert_eq!(q.set(&mut world, lone, c(VELOCITY, 1)), Err(QueryError::NotFound));
    assert_eq!(world.row(lone).unwrap(), vec![c(POSITION, 3)]);
}

#[test]
fn exclusive_runs_before_flush_leave_flush_result_unchanged() {
    let (mut world, a, _b, _lone) = three_entities();
    let mut resources = Resources::new();
    let mut issuer = IdIssuer::new();
    let body = move |_w: &EntityWorld, _r: &Resources| -> ExclusiveEffects { exclusive(vec![Edit::Despawn(a)]) };
    let mut system = ThreadLocalSystem::new(body, "twice".to_string(), &mut issuer);
    system.run(&world, &resources);
    system.run(&world, &resources);
    system.run(&world, &resources);
    assert_eq!(world.len(), 3);
    let (applied, _) = system.run_thread_local(&mut world, &mut resources);
    assert_eq!(applied.len(), 1);
    assert_eq!(world.len(), 2);
    assert!(!world.contains(a));
}

#[test]
fn units_built_in_a_row_get_distinct_ids() {
    let mut issuer = IdIssuer::new();
    let body = |_w: &EntityWorld, _inv: &Invocation| -> Effects { edits_only(Vec::new()) };
    let params = vec![Param::Component(read(POSITION))];
    let first = IntoForEachSystem::system(body, "a".to_string(), &params, &mut issuer).unwrap();
    let second = ThreadLocalSystem::new(|_w: &EntityWorld, _r: &Resources| -> ExclusiveEffects { exclusive(Vec::new()) }, "b".to_string(), &mut issuer);
    let third = IntoQuerySystem::system(body, "c".to_string(), &Vec::new(), &mut issuer).unwrap();
    assert_eq!(first.id().id, 0);
    assert_eq!(second.id().id, 1);
    assert_eq!(third.id().id, 2);
    assert_eq!(issuer.peek(), 3);
}

#[test]
fn aggregate_writes_go_through_writable_views_at_once() {
    let (mut world, a, b, lone) = three_entities();
    let mut resources = Resources::new();
    let mut issuer = IdIssuer::new();
    let params = vec![Param::Commands, Param::Query(vec![read(POSITION)]), Param::Query(vec![write(VELOCITY)])];
    let body = move |w: &EntityWorld, inv: &Invocation| -> Effects {
        let items = inv.queries[1].iter(w);
        let mut writes: Vec<Write> = items
            .iter()
            .map(|it| Write { entity: it.entity, component: c(VELOCITY, it.components[0].value * 2) })
            .collect();
        writes.push(Write { entity: a, component: c(POSITION, 0) });
        writes.push(Write { entity: lone, component: c(VELOCITY, 7) });
        Effects { writes, edits: vec![Edit::Despawn(b)] }
    };
    let mut system = IntoQuerySystem::system(body, "double".to_string(), &params, &mut issuer).unwrap();
    system.run(&mut world, &resources);
    assert_eq!(world.get(a, VELOCITY), Some(20));
    assert_eq!(world.get(b, VELOCITY), Some(40));
    assert_eq!(world.get(a, POSITION), Some(1));
    assert_eq!(world.row(lone).unwrap(), vec![c(POSITION, 3)]);
    assert!(world.contains(b));
    system.run_thread_local(&mut world, &mut resources);
    assert!(!world.contains(b));
}
