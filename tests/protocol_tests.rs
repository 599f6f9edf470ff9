use multiplayer::common::Vector2I;
use multiplayer::protocol::{route_request, ClientRequest, ClientResponse, EntityCheckData};
use multiplayer::world::{EntityController, EntityStats, PlayerController, World};

fn player(world: &mut World, name: &str) -> u32 {
    world.create_entity(
        name,
        Vector2I::new(0, 0),
        EntityStats::new(50),
        EntityController::Player(PlayerController {}),
    )
}

#[test]
fn get_id_answers_the_callers_id() {
    let world = World::new();
    let r = route_request(7, "{\"type\":\"GetId\"}", Ok(ClientRequest::GetId), Ok(&world));
    assert!(matches!(r, ClientResponse::GetId { id: 7 }));
    let r = route_request(9, "{\"type\":\"GetId\"}", Ok(ClientRequest::GetId), Err("poisoned".to_string()));
    assert!(matches!(r, ClientResponse::GetId { id: 9 }));
}

#[test]
fn world_check_lists_entities_in_order() {
    let mut world = World::new();
    world.create_entity_npc("Tuna", Vector2I::new(1050, 2030));
    player(&mut world, "Bob");
    let r = route_request(1, "", Ok(ClientRequest::WorldCheck), Ok(&world));
    match r {
        ClientResponse::WorldCheck { entities } => {
            assert_eq!(entities.len(), 2);
            assert_eq!(entities[0].name, "Tuna");
            assert_eq!(entities[0].id, 0);
            assert_eq!(entities[0].position, Vector2I::new(1050, 2030));
            assert_eq!(entities[1].name, "Bob");
            assert_eq!(entities[1].id, 1);
        }
        _ => panic!("expected a world check"),
    }
    assert_eq!(EntityCheckData::vec_from_entities(world.entities()).len(), 2);
}

#[test]
fn healthcheck_counts_players() {
    let mut world = World::new();
    world.create_entity_npc("Tuna", Vector2I::new(0, 0));
    let r = route_request(1, "", Ok(ClientRequest::Healthcheck), Ok(&world));
    match r {
        ClientResponse::Healthcheck { msg } => assert_eq!(msg, "Hello from server! Players active 0."),
        _ => panic!("expected a health check"),
    }
    for i in 0..12 {
        player(&mut world, &format!("p{i}"));
    }
    let r = route_request(1, "", Ok(ClientRequest::Healthcheck), Ok(&world));
    match r {
        ClientResponse::Healthcheck { msg } => assert_eq!(msg, "Hello from server! Players active 12."),
        _ => panic!("expected a health check"),
    }
}

#[test]
fn malformed_request_is_a_bad_request() {
    let world = World::new();
    let r = route_request(
        1,
        "not json",
        Err("expected ident at line 1 column 2".to_string()),
        Ok(&world),
    );
    match r {
        ClientResponse::BadRequest { err } => {
            assert_eq!(err, "request=not json, reason=expected ident at line 1 column 2");
            assert!(err.contains("not json"));
        }
        _ => panic!("expected a bad request"),
    }
    let r = route_request(1, "{\"type\":\"GetId\"}", Ok(ClientRequest::GetId), Ok(&world));
    assert!(matches!(r, ClientResponse::GetId { id: 1 }));
}

#[test]
fn poisoned_world_is_an_other_error() {
    let r = route_request(1, "", Ok(ClientRequest::WorldCheck), Err("poisoned lock".to_string()));
    match r {
        ClientResponse::OtherError { err } => assert_eq!(err, "poisoned lock"),
        _ => panic!("expected an other error"),
    }
    let r = route_request(1, "", Ok(ClientRequest::Healthcheck), Err("poisoned lock".to_string()));
    assert!(matches!(r, ClientResponse::OtherError { .. }));
}
