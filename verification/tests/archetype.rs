use osiris_ecs::traits::{HCons, HNil};
use osiris_ecs::{Archetype, ArchetypeBuilder, Component};

#[derive(Default, Copy, Clone, Debug)]
struct Position(u32, u32, u32);
impl Component for Position {}

#[derive(Default, Copy, Clone, Debug)]
struct Rotation(u32, u32, u32, u32);
impl Component for Rotation {}

#[derive(Default, Copy, Clone, Debug)]
struct Velocity(u32, u32, u32);
impl Component for Velocity {}

type Movers = HCons<Position, HCons<Rotation, HCons<Velocity, HNil>>>;

fn advance(
    sel: HCons<Position, HCons<Velocity, HNil>>,
) -> HCons<Position, HCons<Velocity, HNil>> {
    let pos = sel.head;
    let vel = sel.tail.head;
    HCons {
        head: Position(pos.0 + vel.0, pos.1 + vel.1, pos.2 + vel.2),
        tail: HCons { head: vel, tail: HNil },
    }
}

#[test]
fn it_works() {
    let mut archetype_static: Archetype<Movers, _> = ArchetypeBuilder::new()
        .add_component::<Velocity>()
        .add_component::<Rotation>()
        .add_component::<Position>()
        .build_static_default::<3>();

    let mut archetype_dynamic: Archetype<Movers, _> = ArchetypeBuilder::new()
        .add_component::<Velocity>()
        .add_component::<Rotation>()
        .add_component::<Position>()
        .build_static_default::<3>();

    let mut archetype_singleton: Archetype<Movers, _> = ArchetypeBuilder::new()
        .add_component::<Velocity>()
        .add_component::<Rotation>()
        .add_component::<Position>()
        .build_static_default::<3>();

    archetype_static.apply(advance);
    archetype_dynamic.apply(advance);
    archetype_singleton.apply(advance);
}

#[test]
fn apply_projects_and_accumulates() {
    let prototype: Movers = HCons {
        head: Position(1, 2, 3),
        tail: HCons {
            head: Rotation(4, 5, 6, 7),
            tail: HCons { head: Velocity(10, 20, 30), tail: HNil },
        },
    };
    let mut archetype: Archetype<Movers, _> = ArchetypeBuilder::new()
        .add_component::<Velocity>()
        .add_component::<Rotation>()
        .add_component::<Position>()
        .build_static::<3>(prototype);

    archetype.apply(advance);

    // Read the rows back through a projection in another field order:
    // positions accumulated one velocity step, rotations untouched.
    archetype.apply(
        |sel: HCons<Rotation, HCons<Position, HNil>>| -> HCons<Rotation, HCons<Position, HNil>> {
            let rot = sel.head;
            let pos = sel.tail.head;
            assert_eq!((pos.0, pos.1, pos.2), (11, 22, 33));
            assert_eq!((rot.0, rot.1, rot.2, rot.3), (4, 5, 6, 7));
            sel
        },
    );
}

#[test]
fn apply_on_singleton_and_dynamic() {
    let row: Movers = HCons {
        head: Position(0, 0, 9),
        tail: HCons {
            head: Rotation(1, 1, 1, 1),
            tail: HCons { head: Velocity(5, 0, 1), tail: HNil },
        },
    };
    let mut singleton = ArchetypeBuilder::new()
        .add_component::<Velocity>()
        .add_component::<Rotation>()
        .add_component::<Position>()
        .build_singleton(row);
    singleton.apply(advance);
    singleton.apply(
        |sel: HCons<Position, HNil>| -> HCons<Position, HNil> {
            let pos = sel.head;
            assert_eq!((pos.0, pos.1, pos.2), (5, 0, 10));
            sel
        },
    );

    let mut dynamic: Archetype<Movers, _> = ArchetypeBuilder::new()
        .add_component::<Velocity>()
        .add_component::<Rotation>()
        .add_component::<Position>()
        .build_dynamic();
    // A dynamic archetype starts with no rows: the operation never runs.
    dynamic.apply(
        |sel: HCons<Position, HNil>| -> HCons<Position, HNil> {
            panic!("no rows to visit");
        },
    );
}
