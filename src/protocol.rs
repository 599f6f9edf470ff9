use vstd::prelude::*;

use crate::common::Vector2I;
use crate::world::{Entity, EntityId, World};

verus! {

/// A request of the line protocol, told apart by its `type` tag.
#[derive(Debug, Clone, Copy, PartialEq, Eq, Structural)]
pub enum ClientRequest {
    GetId,
    WorldCheck,
    Healthcheck,
}

/// What a world check reports of one entity.
#[derive(Debug, Clone)]
pub struct EntityCheckData {
    pub position: Vector2I,
    pub id: EntityId,
    pub name: String,
}

/// A response of the line protocol.
#[derive(Debug, Clone)]
pub enum ClientResponse {
    GetId { id: EntityId },
    WorldCheck { entities: Vec<EntityCheckData> },
    Healthcheck { msg: String },
    BadRequest { err: String },
    OtherError { err: String },
}

/// The decimal digits of `n`, most significant first.
pub open spec fn decimal_digits(n: nat) -> Seq<char>
    decreases n,
{
    if n < 10 {
        seq![digit_char(n)]
    } else {
        decimal_digits(n / 10).push(digit_char(n % 10))
    }
}

/// The character of the decimal digit `d`.
pub open spec fn digit_char(d: nat) -> char {
    if d == 0 {
        '0'
    } else if d == 1 {
        '1'
    } else if d == 2 {
        '2'
    } else if d == 3 {
        '3'
    } else if d == 4 {
        '4'
    } else if d == 5 {
        '5'
    } else if d == 6 {
        '6'
    } else if d == 7 {
        '7'
    } else if d == 8 {
        '8'
    } else {
        '9'
    }
}

/// The one-character string of the decimal digit `d`.
fn digit_str(d: usize) -> (r: &'static str)
    requires
        d < 10,
    ensures
        r@ == seq![digit_char(d as nat)],
{
    if d == 0 {
        proof {
            reveal_strlit("0");
        }
        "0"
    } else if d == 1 {
        proof {
            reveal_strlit("1");
        }
        "1"
    } else if d == 2 {
        proof {
            reveal_strlit("2");
        }
        "2"
    } else if d == 3 {
        proof {
            reveal_strlit("3");
        }
        "3"
    } else if d == 4 {
        proof {
            reveal_strlit("4");
        }
        "4"
    } else if d == 5 {
        proof {
            reveal_strlit("5");
        }
        "5"
    } else if d == 6 {
        proof {
            reveal_strlit("6");
        }
        "6"
    } else if d == 7 {
        proof {
            reveal_strlit("7");
        }
        "7"
    } else if d == 8 {
        proof {
            reveal_strlit("8");
        }
        "8"
    } else {
        proof {
            reveal_strlit("9");
        }
        "9"
    }
}

/// The decimal digits of `n`, without sign or padding.
fn decimal(n: usize) -> (r: String)
    ensures
        r@ == decimal_digits(n as nat),
    decreases n,
{
    if n < 10 {
        String::from_str(digit_str(n))
    } else {
        let mut s = decimal(n / 10);
        s.append(digit_str(n % 10));
        assert(s@ =~= decimal_digits(n as nat));
        s
    }
}

/// How many of `s` are players.
pub open spec fn count_players(s: Seq<Entity>) -> nat
    decreases s.len(),
{
    if s.len() == 0 {
        0
    } else {
        count_players(s.drop_last()) + if s.last().spec_is_player() { 1nat } else { 0nat }
    }
}

/// The health check message for `players` active players.
pub open spec fn health_message(players: nat) -> Seq<char> {
    "Hello from server! Players active "@ + decimal_digits(players) + "."@
}

/// The error text of a request that could not be decoded.
pub open spec fn bad_request_message(request: Seq<char>, reason: Seq<char>) -> Seq<char> {
    "request="@ + request + ", reason="@ + reason
}

/// `data` reports `entities`, one record each, in order.
pub open spec fn reports(data: Seq<EntityCheckData>, entities: Seq<Entity>) -> bool {
    &&& data.len() == entities.len()
    &&& forall|i: int|
        0 <= i < data.len() ==> {
            &&& (#[trigger] data[i]).position == entities[i].position
            &&& data[i].id == entities[i].id@
            &&& data[i].name == entities[i].name
        }
}

fn count_active_players(entities: &[Entity]) -> (r: usize)
    ensures
        r == count_players(entities@),
{
    let mut count: usize = 0;
    let mut i: usize = 0;
    while i < entities.len()
        invariant
            0 <= i <= entities@.len(),
            count == count_players(entities@.take(i as int)),
            count <= i,
        decreases entities@.len() - i,
    {
        assert(entities@.take(i + 1).drop_last() =~= entities@.take(i as int));
        if entities[i].is_player() {
            count += 1;
        }
        i += 1;
    }
    assert(entities@.take(i as int) =~= entities@);
    count
}

impl EntityCheckData {
    /// One record per entity, in order.
    pub fn vec_from_entities(entities: &[Entity]) -> (r: Vec<EntityCheckData>)
        ensures
            reports(r@, entities@),
    {
        let mut r: Vec<EntityCheckData> = Vec::new();
        let mut i: usize = 0;
        while i < entities.len()
            invariant
                0 <= i <= entities@.len(),
                reports(r@, entities@.take(i as int)),
            decreases entities@.len() - i,
        {
            let e = &entities[i];
            r.push(EntityCheckData { position: e.position, id: e.id(), name: e.name.clone() });
            i += 1;
        }
        assert(entities@.take(i as int) =~= entities@);
        r
    }
}

/// The response to one request line. `decoded` is the outcome of decoding
/// `request_str`, with the decoder's reason on failure, and `world` the
/// outcome of taking the world's lock, with the lock's failure text. The
/// caller's own id answers `GetId`; a world check lists every entity in the
/// world's order; a health check counts the players.
pub fn route_request(
    player_id: EntityId,
    request_str: &str,
    decoded: Result<ClientRequest, String>,
    world: Result<&World, String>,
) -> (r: ClientResponse)
    ensures
        match decoded {
            Err(reason) => r matches ClientResponse::BadRequest { err } && err@ == bad_request_message(
                request_str@,
                reason@,
            ),
            Ok(ClientRequest::GetId) => r == (ClientResponse::GetId { id: player_id }),
            Ok(ClientRequest::WorldCheck) => match world {
                Ok(w) => r matches ClientResponse::WorldCheck { entities } && reports(entities@, w.spec_entities()),
                Err(e) => r == (ClientResponse::OtherError { err: e }),
            },
            Ok(ClientRequest::Healthcheck) => match world {
                Ok(w) => r matches ClientResponse::Healthcheck { msg } && msg@ == health_message(
                    count_players(w.spec_entities()),
                ),
                Err(e) => r == (ClientResponse::OtherError { err: e }),
            },
        },
{
    match decoded {
        Ok(ClientRequest::GetId) => ClientResponse::GetId { id: player_id },
        Ok(ClientRequest::WorldCheck) => match world {
            Ok(w) => ClientResponse::WorldCheck { entities: EntityCheckData::vec_from_entities(w.entities()) },
            Err(e) => ClientResponse::OtherError { err: e },
        },
        Ok(ClientRequest::Healthcheck) => match world {
            Ok(w) => {
                let players = count_active_players(w.entities());
                let mut msg = String::from_str("Hello from server! Players active ");
                msg.append(decimal(players).as_str());
                msg.append(".");
                ClientResponse::Healthcheck { msg }
            },
            Err(e) => ClientResponse::OtherError { err: e },
        },
        Err(reason) => {
            let mut err = String::from_str("request=");
            err.append(request_str);
            err.append(", reason=");
            err.append(reason.as_str());
            ClientResponse::BadRequest { err }
        },
    }
}

/// The error text of an undecodable request holds the request text itself,
/// right after the `request=` prefix.
pub proof fn lemma_bad_request_holds_request(request: Seq<char>, reason: Seq<char>)
    ensures
        bad_request_message(request, reason).subrange(8, 8 + request.len() as int) == request,
{
    reveal_strlit("request=");
    let m = bad_request_message(request, reason);
    assert(m.subrange(8, 8 + request.len() as int) =~= request);
}

} // verus!
