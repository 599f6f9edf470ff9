use multiplayer::common::{Vector2I, Vector2X};
use multiplayer::world::{
    EntityController, EntityState, EntityStats, PlayerController, World, NPC_MOVEMENT_SPEED,
};

#[test]
fn test_world_creation() {
    let world = World::new();
    assert_eq!(world.new_entity_id(), 0);
}

#[test]
fn test_world_entity_creation_should_increase_entities_count() {
    let mut world = World::new();
    assert_eq!(world.new_entity_id(), 0);

    let new_entity_id = world.create_entity_npc("Bob", Vector2I::new(100, 200));
    assert_eq!(new_entity_id, 0);

    assert_eq!(world.new_entity_id(), 1);
}

#[test]
fn test_world_entity_access() {
    let entity_name = "Bob";
    let entity_position = Vector2I::new(100, 200);

    let mut world = World::new();
    let new_entity_id = world.create_entity_npc(entity_name, entity_position);

    let entity = world.get_entity_by_id(new_entity_id).unwrap();
    assert_eq!(entity.name, entity_name);
    assert_eq!(entity.position, entity_position);
    assert_eq!(entity.state, EntityState::Idle);
}

#[test]
fn test_world_entity_translate() {
    let entity_initial_position = Vector2I::new(100, 200);
    let translation = Vector2I::new(10000, 50000);

    let mut world = World::new();
    let new_entity_id = world.create_entity_npc("Bob", entity_initial_position);

    let entity = world.get_entity_by_id_mut(new_entity_id).unwrap();
    entity.position += translation;
    assert_eq!(entity.position, entity_initial_position + translation);
}

#[test]
fn ids_increase_from_zero() {
    let mut world = World::new();
    let a = world.create_entity_npc("a", Vector2I::new(0, 0));
    let b = world.create_entity(
        "b",
        Vector2I::new(5, 5),
        EntityStats::new(50),
        EntityController::Player(PlayerController {}),
    );
    let c = world.create_entity_npc("a", Vector2I::new(0, 0));
    assert_eq!((a, b, c), (0, 1, 2));
    assert_eq!(world.get_entity_by_id(1).unwrap().name, "b");
    assert!(world.get_entity_by_id(3).is_none());
    assert_eq!(world.entities().len(), 3);
}

#[test]
fn tile_occupancy() {
    let mut world = World::new();
    assert!(!world.is_tile_occupied(&Vector2I::new(0, 0)));
    world.create_entity_npc("Bob", Vector2I::new(100, 200));
    assert!(world.is_tile_occupied(&Vector2I::new(0, 0)));
    assert!(world.is_tile_occupied(&Vector2I::new(-399, -299)));
    assert!(!world.is_tile_occupied(&Vector2I::new(101, 0)));
    assert!(!world.is_tile_occupied(&Vector2I::new(-400, 0)));
}

#[test]
fn tile_occupancy_counts_both_ends_of_a_move() {
    let mut world = World::new();
    let id = world.create_entity_npc("Bob", Vector2I::new(0, 0));
    world.get_entity_by_id_mut(id).unwrap().state = EntityState::Moving {
        from_position: Vector2I::new(0, 0),
        destination: Vector2I::new(1000, 0),
    };
    assert!(world.is_tile_occupied(&Vector2I::new(0, 0)));
    assert!(world.is_tile_occupied(&Vector2I::new(1000, 0)));
    assert!(!world.is_tile_occupied(&Vector2I::new(500, 0)));
}

#[test]
fn moving_entity_arrives_exactly() {
    let mut world = World::new();
    let id = world.create_entity_npc("Bob", Vector2I::new(0, 0));
    world.get_entity_by_id_mut(id).unwrap().state = EntityState::Moving {
        from_position: Vector2I::new(0, 0),
        destination: Vector2I::new(500, 0),
    };
    for _ in 0..14 {
        world.tick();
    }
    let e = world.get_entity_by_id(id).unwrap();
    assert_eq!(e.position, Vector2I::new(14 * NPC_MOVEMENT_SPEED as i32, 0));
    assert!(matches!(e.state, EntityState::Moving { .. }));
    world.tick();
    let e = world.get_entity_by_id(id).unwrap();
    assert_eq!(e.position, Vector2I::new(500, 0));
    assert_eq!(e.state, EntityState::Idle);
}

#[test]
fn diagonal_move_steps_along_unit_direction() {
    let mut world = World::new();
    let id = world.create_entity(
        "p",
        Vector2I::new(0, 0),
        EntityStats::new(35),
        EntityController::Player(PlayerController {}),
    );
    world.get_entity_by_id_mut(id).unwrap().state = EntityState::Moving {
        from_position: Vector2I::new(0, 0),
        destination: Vector2I::new(300, -400),
    };
    world.tick();
    assert_eq!(world.get_entity_by_id(id).unwrap().position, Vector2I::new(21, -28));
}

#[test]
fn empty_move_snaps_to_destination() {
    let mut world = World::new();
    let id = world.create_entity_npc("Bob", Vector2I::new(7, 7));
    world.get_entity_by_id_mut(id).unwrap().state = EntityState::Moving {
        from_position: Vector2I::new(3, 3),
        destination: Vector2I::new(3, 3),
    };
    world.tick();
    let e = world.get_entity_by_id(id).unwrap();
    assert_eq!(e.position, Vector2I::new(3, 3));
    assert_eq!(e.state, EntityState::Idle);
}

#[test]
fn npc_roams_to_a_neighbouring_tile_after_countdown() {
    let mut world = World::new();
    let id = world.create_entity_npc("Tuna", Vector2I::new(1000, 2000));
    for _ in 0..3 {
        world.tick();
        assert_eq!(world.get_entity_by_id(id).unwrap().state, EntityState::Idle);
    }
    world.tick();
    let e = world.get_entity_by_id(id).unwrap();
    let neighbours = [
        Vector2X::new(1500, 2000),
        Vector2X::new(500, 2000),
        Vector2X::new(1000, 2500),
        Vector2X::new(1000, 1500),
    ];
    match e.state {
        EntityState::Moving { from_position, destination } => {
            assert_eq!(from_position, Vector2I::new(1000, 2000));
            assert!(neighbours.contains(&destination));
        }
        EntityState::Idle => panic!("the NPC should have picked a destination"),
    }
}

#[test]
fn player_is_left_alone_by_tick() {
    let mut world = World::new();
    let id = world.create_entity(
        "p",
        Vector2I::new(10, 10),
        EntityStats::new(50),
        EntityController::Player(PlayerController {}),
    );
    for _ in 0..10 {
        world.tick();
    }
    let e = world.get_entity_by_id(id).unwrap();
    assert_eq!(e.position, Vector2I::new(10, 10));
    assert_eq!(e.state, EntityState::Idle);
    assert!(e.is_player());
}

#[test]
fn roam_heads_for_a_free_neighbour_and_waits_when_it_is_taken() {
    let mut world = World::new();
    let id = world.create_entity_npc("Tuna", Vector2I::new(0, 0));
    let e = world.get_entity_by_id_mut(id).unwrap();
    for _ in 0..3 {
        e.roam(&[], 500, Vector2I::new(1, 0));
        assert_eq!(e.state, EntityState::Idle);
    }
    e.roam(&[Vector2I::new(500, 0)], 500, Vector2I::new(1, 0));
    assert_eq!(e.state, EntityState::Idle);
    e.roam(&[Vector2I::new(500, 0)], 500, Vector2I::new(0, -1));
    assert_eq!(
        e.state,
        EntityState::Moving { from_position: Vector2I::new(0, 0), destination: Vector2I::new(0, -500) }
    );
}

#[test]
fn advance_moves_by_the_speed_then_snaps() {
    let mut world = World::new();
    let id = world.create_entity(
        "p",
        Vector2I::new(0, 0),
        EntityStats::new(300),
        EntityController::Player(PlayerController {}),
    );
    let e = world.get_entity_by_id_mut(id).unwrap();
    e.state = EntityState::Moving { from_position: Vector2I::new(0, 0), destination: Vector2I::new(0, 500) };
    e.advance();
    assert_eq!(e.position, Vector2I::new(0, 300));
    e.advance();
    assert_eq!(e.position, Vector2I::new(0, 500));
    assert_eq!(e.state, EntityState::Idle);
}

#[test]
fn long_diagonal_move_arrives() {
    let mut world = World::new();
    let id = world.create_entity(
        "p",
        Vector2I::new(0, 0),
        EntityStats::new(2),
        EntityController::Player(PlayerController {}),
    );
    world.get_entity_by_id_mut(id).unwrap().state = EntityState::Moving {
        from_position: Vector2I::new(0, 0),
        destination: Vector2I::new(1000, 990),
    };
    let mut ticks = 0;
    while world.get_entity_by_id(id).unwrap().state != EntityState::Idle {
        world.tick();
        ticks += 1;
        assert!(ticks <= 1990);
    }
    assert_eq!(world.get_entity_by_id(id).unwrap().position, Vector2I::new(1000, 990));
}

#[test]
fn slow_diagonal_move_arrives_within_distance_over_speed() {
    let mut world = World::new();
    let id = world.create_entity(
        "p",
        Vector2I::new(0, 0),
        EntityStats::new(1),
        EntityController::Player(PlayerController {}),
    );
    world.get_entity_by_id_mut(id).unwrap().state = EntityState::Moving {
        from_position: Vector2I::new(0, 0),
        destination: Vector2I::new(3, 3),
    };
    for _ in 0..4 {
        world.tick();
        if world.get_entity_by_id(id).unwrap().state == EntityState::Idle {
            break;
        }
    }
    let e = world.get_entity_by_id(id).unwrap();
    assert_eq!(e.position, Vector2I::new(3, 3));
    assert_eq!(e.state, EntityState::Idle);
    assert_eq!(e.id(), id);
}

#[test]
fn diagonal_step_is_rounded_up_per_axis() {
    let mut world = World::new();
    let id = world.create_entity(
        "p",
        Vector2I::new(0, 0),
        EntityStats::new(1),
        EntityController::Player(PlayerController {}),
    );
    world.get_entity_by_id_mut(id).unwrap().state = EntityState::Moving {
        from_position: Vector2I::new(0, 0),
        destination: Vector2I::new(300, -400),
    };
    world.tick();
    assert_eq!(world.get_entity_by_id(id).unwrap().position, Vector2I::new(1, -1));
}
