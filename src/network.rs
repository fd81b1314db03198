//! The network actor: the client roster, the commands that client messages
//! give the physics actor, and the packets that the physics actor's commands
//! give the clients.
use vstd::prelude::*;
use crate::cache::{without_client, CacheKey, Entity, PositionCache, TrackKey};
use crate::command::{str_eq, team_of_name, BodyPosition, Client, Command, TeamKind};
use crate::geometry::{round_coord, round_spec, Position};
use crate::physics::{ball_name, find_position, snapshot_pos};
use crate::message::{MessageKind, Payload};

verus! {

/// Whether `s` holds `v` with the characters `text`.
pub open spec fn is_text(s: Option<String>, text: Seq<char>) -> bool {
    s matches Some(v) && v@ == text
}

fn opt_is(s: &Option<String>, text: &str) -> (r: bool)
    ensures
        r == is_text(*s, text@),
{
    match s {
        Some(v) => str_eq(v.as_str(), text),
        None => false,
    }
}

/// What a packet to a client says.
#[derive(Clone, Debug)]
pub enum OutMessage {
    /// A player joined, at `position`; `team` is given when an existing
    /// player is introduced to a newcomer.
    PlayerAddAck { name: String, nickname: String, position: Position, team: Option<TeamKind> },
    /// A player is now on `team`.
    ChangePlayerTeamAck { name: String, team: TeamKind },
    /// The ball is at `position`.
    BallMoved { position: Position },
    /// The receiver's own avatar is at `position`.
    PlayerMoved { position: Position },
    /// The avatar of the player `name` is at `position`.
    EnemyMoved { name: String, position: Position },
    /// The player `name` left.
    PlayerDisconnectAck { name: String },
}

/// A packet for the client at address `to`.
#[derive(Clone, Debug)]
pub struct Outbound {
    pub to: String,
    pub message: OutMessage,
}

/// The packets that announce a newcomer to every client.
pub open spec fn add_broadcast(roster: Seq<Client>, name: String, nickname: String, p: Position) -> Seq<Outbound> {
    roster.map_values(|c: Client| Outbound {
        to: c.ip_address,
        message: OutMessage::PlayerAddAck { name, nickname, position: p, team: None },
    })
}

/// The packets that introduce to the newcomer `name` each other client whose
/// own position has been broadcast before.
pub open spec fn add_backfill(roster: Seq<Client>, cache: Map<CacheKey, Position>, name: String) -> Seq<Outbound>
    decreases roster.len(),
{
    if roster.len() == 0 {
        Seq::empty()
    } else {
        let rest = add_backfill(roster.drop_last(), cache, name);
        let c = roster.last();
        let k = (c.ip_address@, Entity::Player);
        if c.ip_address@ != name@ && cache.contains_key(k) {
            rest.push(Outbound {
                to: name,
                message: OutMessage::PlayerAddAck {
                    name: c.ip_address,
                    nickname: c.nickname,
                    position: cache[k],
                    team: Some(c.team),
                },
            })
        } else {
            rest
        }
    }
}

/// The packets that announce a team change to every client.
pub open spec fn team_broadcast(roster: Seq<Client>, name: String, team: TeamKind) -> Seq<Outbound> {
    roster.map_values(|c: Client| Outbound {
        to: c.ip_address,
        message: OutMessage::ChangePlayerTeamAck { name, team },
    })
}

/// The packets that tell the client `name` the team of each other client.
pub open spec fn team_backfill(roster: Seq<Client>, name: String) -> Seq<Outbound>
    decreases roster.len(),
{
    if roster.len() == 0 {
        Seq::empty()
    } else {
        let rest = team_backfill(roster.drop_last(), name);
        let c = roster.last();
        if c.ip_address@ != name@ {
            rest.push(Outbound {
                to: name,
                message: OutMessage::ChangePlayerTeamAck { name: c.ip_address, team: c.team },
            })
        } else {
            rest
        }
    }
}

/// The packets that announce a departure to every client.
pub open spec fn leave_broadcast(roster: Seq<Client>, name: String) -> Seq<Outbound> {
    roster.map_values(|c: Client| Outbound {
        to: c.ip_address,
        message: OutMessage::PlayerDisconnectAck { name },
    })
}

/// Broadcasts go out only when the elapsed milliseconds are a multiple of this.
pub const RESPONSE_INTERVAL_MS: u64 = 30;

/// The broadcast period starts over once more than this many milliseconds
/// have elapsed in it.
pub const PERIOD_MS: u64 = 120;

/// Whether a broadcast is due `elapsed_ms` milliseconds into the period.
pub fn broadcast_due(elapsed_ms: u64) -> (r: bool)
    ensures
        r == (elapsed_ms % RESPONSE_INTERVAL_MS == 0),
{
    elapsed_ms % RESPONSE_INTERVAL_MS == 0
}

/// Whether the period is over `elapsed_ms` milliseconds into it, so that the
/// clock starts again from zero.
pub fn period_over(elapsed_ms: u64) -> (r: bool)
    ensures
        r == (elapsed_ms > PERIOD_MS),
{
    elapsed_ms > PERIOD_MS
}

/// The action that names a message on the wire.
pub open spec fn action_name(m: OutMessage) -> Seq<char> {
    match m {
        OutMessage::PlayerAddAck { .. } => "PLAYER_ADD_ACK"@,
        OutMessage::ChangePlayerTeamAck { .. } => "CHANGE_PLAYER_TEAM_ACK"@,
        OutMessage::BallMoved { .. } => "BALL_MOVED"@,
        OutMessage::PlayerMoved { .. } => "PLAYER_MOVED"@,
        OutMessage::EnemyMoved { .. } => "ENEMY_MOVED"@,
        OutMessage::PlayerDisconnectAck { .. } => "PLAYER_DISCONNECT_ACK"@,
    }
}

/// The action that names `m` on the wire.
pub fn action_of(m: &OutMessage) -> (r: &'static str)
    ensures
        r@ == action_name(*m),
{
    proof {
        reveal_strlit("PLAYER_ADD_ACK");
        reveal_strlit("CHANGE_PLAYER_TEAM_ACK");
        reveal_strlit("BALL_MOVED");
        reveal_strlit("PLAYER_MOVED");
        reveal_strlit("ENEMY_MOVED");
        reveal_strlit("PLAYER_DISCONNECT_ACK");
    }
    match m {
        OutMessage::PlayerAddAck { .. } => "PLAYER_ADD_ACK",
        OutMessage::ChangePlayerTeamAck { .. } => "CHANGE_PLAYER_TEAM_ACK",
        OutMessage::BallMoved { .. } => "BALL_MOVED",
        OutMessage::PlayerMoved { .. } => "PLAYER_MOVED",
        OutMessage::EnemyMoved { .. } => "ENEMY_MOVED",
        OutMessage::PlayerDisconnectAck { .. } => "PLAYER_DISCONNECT_ACK",
    }
}

/// The address `ip` belongs to a client of `roster`.
pub open spec fn in_roster(roster: Seq<Client>, ip: Seq<char>) -> bool {
    exists|i: int| 0 <= i < roster.len() && #[trigger] roster[i].ip_address@ == ip
}

/// The pairs that a telemetry broadcast covers: for every client, the ball,
/// its own avatar, and the avatar of every other client.
pub open spec fn covered(roster: Seq<Client>, k: CacheKey) -> bool {
    in_roster(roster, k.0) && match k.1 {
        Entity::Ball => true,
        Entity::Player => true,
        Entity::Enemy(e) => in_roster(roster, e) && e != k.0,
    }
}

/// Whether both coordinates can be rounded to whole units.
pub open spec fn roundable(p: Position) -> bool {
    -2147483000 <= p.x <= 2147483000 && -2147483000 <= p.y <= 2147483000
}

/// Every avatar position of the snapshot, that is, every position recorded
/// under the address of a client of `roster`, can be rounded to whole units.
pub open spec fn avatars_roundable(roster: Seq<Client>, bodies: Seq<BodyPosition>) -> bool {
    forall|i: int| 0 <= i < bodies.len() && in_roster(roster, #[trigger] bodies[i].name@) ==> roundable(bodies[i].position)
}

/// `p` with both coordinates rounded to whole units.
pub open spec fn rounded(p: Option<Position>) -> Option<Position> {
    match p {
        Some(q) => Some(Position { x: round_spec(q.x as int) as i32, y: round_spec(q.y as int) as i32 }),
        None => None,
    }
}

/// The position that a snapshot gives for a pair: the ball as it is,
/// avatars rounded to whole units.
pub open spec fn fresh(bodies: Seq<BodyPosition>, k: CacheKey) -> Option<Position> {
    match k.1 {
        Entity::Ball => snapshot_pos(bodies, ball_name()),
        Entity::Player => rounded(snapshot_pos(bodies, k.0)),
        Entity::Enemy(e) => rounded(snapshot_pos(bodies, e)),
    }
}

/// A pair that the broadcast covers and that the snapshot has a position for.
pub open spec fn due(roster: Seq<Client>, bodies: Seq<BodyPosition>, k: CacheKey) -> bool {
    covered(roster, k) && fresh(bodies, k) is Some
}

/// Whether `p` differs from what the cache holds for `k`.
pub open spec fn changed(cache: Map<CacheKey, Position>, k: CacheKey, p: Position) -> bool {
    !(cache.contains_key(k) && cache[k] == p)
}

/// The pair that a position packet is about.
pub open spec fn packet_key(o: Outbound) -> CacheKey {
    (o.to@, match o.message {
        OutMessage::BallMoved { .. } => Entity::Ball,
        OutMessage::EnemyMoved { name, .. } => Entity::Enemy(name@),
        _ => Entity::Player,
    })
}

/// `o` is the position packet for its pair, carrying `p`.
pub open spec fn is_position_packet(o: Outbound, p: Position) -> bool {
    match o.message {
        OutMessage::BallMoved { position } => position == p,
        OutMessage::PlayerMoved { position } => position == p,
        OutMessage::EnemyMoved { position, .. } => position == p,
        _ => false,
    }
}

/// The cache after a broadcast: due pairs hold the fresh position, the others
/// are as they were.
pub open spec fn refreshed(cache: Map<CacheKey, Position>, roster: Seq<Client>, bodies: Seq<BodyPosition>) -> Map<CacheKey, Position> {
    Map::new(
        |k: CacheKey| cache.contains_key(k) || due(roster, bodies, k),
        |k: CacheKey| if due(roster, bodies, k) { fresh(bodies, k)->Some_0 } else { cache[k] },
    )
}

/// The packets of a broadcast: exactly one for each due pair whose fresh
/// position differs from the cached one, carrying the fresh position.
pub open spec fn delta_packets(out: Seq<Outbound>, cache: Map<CacheKey, Position>, roster: Seq<Client>, bodies: Seq<BodyPosition>) -> bool {
    &&& forall|n: int| 0 <= n < out.len() ==> {
        let k = #[trigger] packet_key(out[n]);
        &&& due(roster, bodies, k)
        &&& changed(cache, k, fresh(bodies, k)->Some_0)
        &&& is_position_packet(out[n], fresh(bodies, k)->Some_0)
    }
    &&& forall|k: CacheKey| due(roster, bodies, k) && #[trigger] changed(cache, k, fresh(bodies, k)->Some_0)
        ==> exists|n: int| 0 <= n < out.len() && packet_key(out[n]) == k
    &&& forall|a: int, b: int| 0 <= a < out.len() && 0 <= b < out.len() && a != b
        ==> packet_key(#[trigger] out[a]) != packet_key(#[trigger] out[b])
}

/// The roster with the client at position `i` moved to `team`.
pub open spec fn with_team(roster: Seq<Client>, i: int, team: TeamKind) -> Seq<Client> {
    roster.update(i, Client { team, ..roster[i] })
}

/// A team change is idempotent: making the same change a second time leaves
/// the roster as the first left it, with the client on the requested team,
/// and the second acknowledgement is broadcast to every client again.
pub proof fn team_change_idempotent(roster: Seq<Client>, i: int, team: TeamKind, name: String)
    requires
        0 <= i < roster.len(),
    ensures
        with_team(with_team(roster, i, team), i, team) == with_team(roster, i, team),
        with_team(roster, i, team)[i].team == team,
        team_broadcast(with_team(roster, i, team), name, team).len() == roster.len(),
{
    assert(with_team(with_team(roster, i, team), i, team) =~= with_team(roster, i, team));
}

/// A departure leaves nothing behind: once the physics actor has handled the
/// disconnect, no body is registered under the departed name, and once the
/// network actor has handled its acknowledgement, the cache holds nothing
/// for the departed client. Whatever both held for others is kept.
pub proof fn disconnect_cleanup(bodies: Map<Seq<char>, u64>, cache: Map<CacheKey, Position>, name: Seq<char>)
    ensures
        !bodies.remove(name).contains_key(name),
        forall|other: Seq<char>| other != name && bodies.contains_key(other) ==>
            #[trigger] bodies.remove(name).contains_key(other) && bodies.remove(name)[other] == bodies[other],
        forall|k: CacheKey| #[trigger] without_client(cache, name).contains_key(k) ==> k.0 != name,
        forall|k: CacheKey| k.0 != name && cache.contains_key(k) ==>
            #[trigger] without_client(cache, name).contains_key(k) && without_client(cache, name)[k] == cache[k],
{
}

/// After a move, a broadcast tells the mover where its avatar now is in
/// exactly one packet, when the rounded position differs from the one last
/// sent; and it sends nothing about the ball to a client whose cached ball
/// position is current.
pub proof fn moved_avatar_sent_once(
    out: Seq<Outbound>,
    cache: Map<CacheKey, Position>,
    roster: Seq<Client>,
    bodies: Seq<BodyPosition>,
    client: Seq<char>,
)
    requires
        delta_packets(out, cache, roster, bodies),
    ensures
        ({
            let k = (client, Entity::Player);
            due(roster, bodies, k) && changed(cache, k, fresh(bodies, k)->Some_0) ==> {
                &&& exists|n: int| 0 <= n < out.len() && packet_key(out[n]) == k
                    && is_position_packet(out[n], fresh(bodies, k)->Some_0)
                &&& forall|a: int, b: int| 0 <= a < out.len() && 0 <= b < out.len()
                    && packet_key(out[a]) == k && packet_key(out[b]) == k ==> a == b
            }
        }),
        ({
            let k = (client, Entity::Ball);
            !changed(cache, k, fresh(bodies, k)->Some_0) ==>
                forall|n: int| 0 <= n < out.len() ==> packet_key(out[n]) != k
        }),
{
    let k = (client, Entity::Player);
    if due(roster, bodies, k) && changed(cache, k, fresh(bodies, k)->Some_0) {
        let n = choose|n: int| 0 <= n < out.len() && packet_key(out[n]) == k;
        assert(is_position_packet(out[n], fresh(bodies, packet_key(out[n]))->Some_0));
    }
    let kb = (client, Entity::Ball);
    assert forall|n: int| 0 <= n < out.len() && !changed(cache, kb, fresh(bodies, kb)->Some_0)
        implies packet_key(out[n]) != kb by {
        let pk = packet_key(out[n]);
        assert(changed(cache, pk, fresh(bodies, pk)->Some_0));
    }
}

/// Some client before position `i` of the roster has address `ip`.
pub open spec fn seen(roster: Seq<Client>, i: int, ip: Seq<char>) -> bool {
    exists|a: int| 0 <= a < i && #[trigger] roster[a].ip_address@ == ip
}

/// The pairs for the client `c` that a broadcast has handled once it has
/// gone through the ball, the client's own avatar, and the first `j`
/// clients of the roster.
pub open spec fn handled_for(roster: Seq<Client>, bodies: Seq<BodyPosition>, c: Seq<char>, j: int, k: CacheKey) -> bool {
    k.0 == c && due(roster, bodies, k) && match k.1 {
        Entity::Enemy(e) => seen(roster, j, e),
        _ => true,
    }
}

/// The pairs that a broadcast has handled once it has gone through the first
/// `i` clients of the roster.
pub open spec fn handled(roster: Seq<Client>, bodies: Seq<BodyPosition>, i: int, k: CacheKey) -> bool {
    due(roster, bodies, k) && seen(roster, i, k.0)
}

/// The step of a broadcast over a set of pairs `done`, from cache `c0` and the
/// first `base` packets to cache `c1` and packets `out`.
pub open spec fn broadcast_step(
    c0: Map<CacheKey, Position>,
    c1: Map<CacheKey, Position>,
    out: Seq<Outbound>,
    base: int,
    bodies: Seq<BodyPosition>,
    done: spec_fn(CacheKey) -> bool,
) -> bool {
    &&& forall|k: CacheKey| #[trigger] done(k) ==> c1.contains_key(k) && c1[k] == fresh(bodies, k)->Some_0
    &&& forall|k: CacheKey| !done(k) ==> (#[trigger] c1.contains_key(k)) == c0.contains_key(k)
    &&& forall|k: CacheKey| !done(k) && c0.contains_key(k) ==> #[trigger] c1[k] == c0[k]
    &&& 0 <= base <= out.len()
    &&& forall|n: int| base <= n < out.len() ==> {
        let k = #[trigger] packet_key(out[n]);
        &&& done(k)
        &&& changed(c0, k, fresh(bodies, k)->Some_0)
        &&& is_position_packet(out[n], fresh(bodies, k)->Some_0)
    }
    &&& forall|k: CacheKey| #[trigger] done(k) && changed(c0, k, fresh(bodies, k)->Some_0)
        ==> exists|n: int| base <= n < out.len() && packet_key(out[n]) == k
    &&& forall|a: int, b: int| base <= a < out.len() && base <= b < out.len() && a != b
        ==> packet_key(#[trigger] out[a]) != packet_key(#[trigger] out[b])
}

proof fn lemma_step_empty(c: Map<CacheKey, Position>, out: Seq<Outbound>, bodies: Seq<BodyPosition>, d: spec_fn(CacheKey) -> bool)
    requires
        forall|k: CacheKey| !#[trigger] d(k),
    ensures
        broadcast_step(c, c, out, out.len() as int, bodies, d),
{
}

proof fn lemma_step_single(
    c0: Map<CacheKey, Position>,
    c1: Map<CacheKey, Position>,
    out0: Seq<Outbound>,
    out1: Seq<Outbound>,
    bodies: Seq<BodyPosition>,
    k: CacheKey,
    p: Option<Position>,
    d: spec_fn(CacheKey) -> bool,
)
    requires
        p is None ==> c1 == c0 && out1 == out0,
        p matches Some(v) ==> {
            &&& c1 == c0.insert(k, v)
            &&& changed(c0, k, v) ==> {
                &&& out1.len() == out0.len() + 1
                &&& out1.drop_last() == out0
                &&& packet_key(out1.last()) == k
                &&& is_position_packet(out1.last(), v)
            }
            &&& !changed(c0, k, v) ==> out1 == out0
        },
        p is Some ==> p == fresh(bodies, k),
        forall|x: CacheKey| #[trigger] d(x) == (x == k && p is Some),
    ensures
        broadcast_step(c0, c1, out1, out0.len() as int, bodies, d),
        out1.subrange(0, out0.len() as int) == out0,
{
    if p is Some && changed(c0, k, p->Some_0) {
        assert(out1.subrange(0, out0.len() as int) =~= out1.drop_last());
        assert(out1[out0.len() as int] == out1.last());
    } else {
        assert(out1.subrange(0, out0.len() as int) =~= out0);
    }
}

proof fn lemma_step_compose(
    c0: Map<CacheKey, Position>,
    c1: Map<CacheKey, Position>,
    c2: Map<CacheKey, Position>,
    out1: Seq<Outbound>,
    out2: Seq<Outbound>,
    base: int,
    bodies: Seq<BodyPosition>,
    d1: spec_fn(CacheKey) -> bool,
    d2: spec_fn(CacheKey) -> bool,
    d: spec_fn(CacheKey) -> bool,
)
    requires
        broadcast_step(c0, c1, out1, base, bodies, d1),
        broadcast_step(c1, c2, out2, out1.len() as int, bodies, d2),
        out2.subrange(0, out1.len() as int) == out1,
        forall|k: CacheKey| !(#[trigger] d1(k) && d2(k)),
        forall|k: CacheKey| #[trigger] d(k) == (d1(k) || d2(k)),
    ensures
        broadcast_step(c0, c2, out2, base, bodies, d),
{
    let m = out1.len() as int;
    assert forall|n: int| 0 <= n < m implies out2[n] == out1[n] by {
        assert(out2.subrange(0, m)[n] == out2[n]);
    }
    assert forall|k: CacheKey| #[trigger] d(k) implies c2.contains_key(k) && c2[k] == fresh(bodies, k)->Some_0 by {
        if d1(k) {
            assert(!d2(k));
            assert(c2.contains_key(k) == c1.contains_key(k));
        } else {
            assert(d2(k));
        }
    }
    assert forall|k: CacheKey| #[trigger] d(k) && changed(c0, k, fresh(bodies, k)->Some_0)
        implies exists|n: int| base <= n < out2.len() && packet_key(out2[n]) == k by {
        if d1(k) {
            assert(d1(k) && changed(c0, k, fresh(bodies, k)->Some_0));
            let n = choose|n: int| base <= n < out1.len() && packet_key(out1[n]) == k;
            assert(out2[n] == out1[n]);
        } else {
            assert(d2(k));
            assert(c1.contains_key(k) == c0.contains_key(k));
            assert(changed(c1, k, fresh(bodies, k)->Some_0));
        }
    }
    assert forall|n: int| base <= n < out2.len() implies {
        let k = #[trigger] packet_key(out2[n]);
        &&& d(k)
        &&& changed(c0, k, fresh(bodies, k)->Some_0)
        &&& is_position_packet(out2[n], fresh(bodies, k)->Some_0)
    } by {
        if n < m {
            assert(out2[n] == out1[n]);
            assert(d1(packet_key(out1[n])));
        } else {
            let k = packet_key(out2[n]);
            assert(d2(k));
            assert(!d1(k));
            assert(c1.contains_key(k) == c0.contains_key(k));
        }
    }
    assert forall|a: int, b: int| base <= a < out2.len() && base <= b < out2.len() && a != b
        implies packet_key(#[trigger] out2[a]) != packet_key(#[trigger] out2[b]) by {
        if a < m && b < m {
            assert(out2[a] == out1[a] && out2[b] == out1[b]);
            assert(packet_key(out1[a]) != packet_key(out1[b]));
        } else if a < m {
            assert(out2[a] == out1[a]);
            assert(d1(packet_key(out1[a])));
            assert(d2(packet_key(out2[b])));
        } else if b < m {
            assert(out2[b] == out1[b]);
            assert(d1(packet_key(out1[b])));
            assert(d2(packet_key(out2[a])));
        }
    }
}

/// Rounds both coordinates to whole units.
pub fn round_position(p: Option<Position>) -> (r: Option<Position>)
    requires
        p matches Some(q) ==> roundable(q),
    ensures
        r == rounded(p),
{
    match p {
        Some(q) => Some(Position { x: round_coord(q.x), y: round_coord(q.y) }),
        None => None,
    }
}

proof fn lemma_avatar_roundable(roster: Seq<Client>, bodies: Seq<BodyPosition>, name: Seq<char>)
    requires
        avatars_roundable(roster, bodies),
        in_roster(roster, name),
    ensures
        snapshot_pos(bodies, name) matches Some(q) ==> roundable(q),
{
    if exists|i: int| crate::physics::is_first_at(bodies, name, i) {
        let i = choose|i: int| crate::physics::is_first_at(bodies, name, i);
        assert(in_roster(roster, bodies[i].name@));
        assert(roundable(bodies[i].position));
    }
}

/// Offers `p`, if any, for the pair (`client`, `key`), and queues the packet
/// that carries it when it differs from the cached position.
fn offer_and_send(cache: &mut PositionCache, client: &String, key: TrackKey, p: Option<Position>, out: &mut Vec<Outbound>)
    requires
        old(cache).wf(),
    ensures
        final(cache).wf(),
        p is None ==> final(cache).positions() == old(cache).positions() && final(out)@ == old(out)@,
        p matches Some(v) ==> {
            let k = (client@, key@);
            &&& final(cache).positions() == old(cache).positions().insert(k, v)
            &&& changed(old(cache).positions(), k, v) ==> {
                &&& final(out)@.len() == old(out)@.len() + 1
                &&& final(out)@.drop_last() == old(out)@
                &&& packet_key(final(out)@.last()) == k
                &&& is_position_packet(final(out)@.last(), v)
            }
            &&& !changed(old(cache).positions(), k, v) ==> final(out)@ == old(out)@
        },
{
    if let Some(v) = p {
        if cache.offer(client, &key, v) {
            let message = match key {
                TrackKey::Ball => OutMessage::BallMoved { position: v },
                TrackKey::Player => OutMessage::PlayerMoved { position: v },
                TrackKey::Enemy(e) => OutMessage::EnemyMoved { name: e, position: v },
            };
            out.push(Outbound { to: client.clone(), message });
            proof {
                assert(out@.drop_last() =~= old(out)@);
            }
        }
    }
}

/// The clients that the server knows, each by a distinct address.
pub struct Network {
    clients: Vec<Client>,
}

impl Network {
    /// The roster, in order of connection.
    pub closed spec fn roster(&self) -> Seq<Client> {
        self.clients@
    }

    /// No address occurs twice in the roster.
    pub open spec fn wf(&self) -> bool {
        forall|i: int, j: int|
            0 <= i < self.roster().len() && 0 <= j < self.roster().len()
                && #[trigger] self.roster()[i].ip_address@ == #[trigger] self.roster()[j].ip_address@ ==> i == j
    }

    /// The roster holds a client with address `ip`.
    pub open spec fn knows(&self, ip: Seq<char>) -> bool {
        exists|i: int| 0 <= i < self.roster().len() && #[trigger] self.roster()[i].ip_address@ == ip
    }

    /// The roster holds a client with another address than `ip`.
    pub open spec fn knows_other_than(&self, ip: Seq<char>) -> bool {
        exists|i: int| 0 <= i < self.roster().len() && #[trigger] self.roster()[i].ip_address@ != ip
    }

    /// A network actor with no clients.
    pub fn new() -> (r: Network)
        ensures
            r.wf(),
            r.roster() == Seq::<Client>::empty(),
    {
        Network { clients: Vec::new() }
    }

    /// The roster.
    pub fn get_clients(&self) -> (r: &Vec<Client>)
        ensures
            r@ == self.roster(),
    {
        &self.clients
    }

    /// The position in the roster of the client with address `ip`.
    pub fn find_client(&self, ip: &str) -> (r: Option<usize>)
        ensures
            r matches Some(i) ==> i < self.roster().len() && self.roster()[i as int].ip_address@ == ip@,
            r is None ==> !self.knows(ip@),
    {
        let mut i: usize = 0;
        while i < self.clients.len()
            invariant
                i <= self.clients@.len(),
                forall|j: int| 0 <= j < i ==> (#[trigger] self.clients@[j]).ip_address@ != ip@,
            decreases self.clients.len() - i,
        {
            if str_eq(self.clients[i].ip_address.as_str(), ip) {
                return Some(i);
            }
            i += 1;
        }
        None
    }

    /// The client with address `ip`.
    pub fn get_client(&self, ip: &str) -> (r: Option<&Client>)
        ensures
            r matches Some(c) ==> exists|i: int| 0 <= i < self.roster().len() && self.roster()[i] == *c && c.ip_address@ == ip@,
            r is None ==> !self.knows(ip@),
    {
        match self.find_client(ip) {
            Some(i) => Some(&self.clients[i]),
            None => None,
        }
    }

    /// Adds a client whose address is not known yet.
    pub fn add_client(&mut self, client: Client)
        requires
            old(self).wf(),
            !old(self).knows(client.ip_address@),
        ensures
            final(self).wf(),
            final(self).roster() == old(self).roster().push(client),
    {
        let ghost ip = client.ip_address@;
        self.clients.push(client);
        proof {
            assert forall|i: int, j: int|
                0 <= i < self.roster().len() && 0 <= j < self.roster().len()
                    && #[trigger] self.roster()[i].ip_address@ == #[trigger] self.roster()[j].ip_address@ implies i == j by {
                let n = old(self).roster().len();
                if i < n && j < n {
                    assert(old(self).roster()[i] == self.roster()[i]);
                    assert(old(self).roster()[j] == self.roster()[j]);
                } else if i < n {
                    assert(old(self).roster()[i].ip_address@ == ip);
                } else if j < n {
                    assert(old(self).roster()[j].ip_address@ == ip);
                }
            }
        }
    }

    /// Removes the client with address `ip`, if there is one.
    pub fn delete_client(&mut self, ip: &str)
        requires
            old(self).wf(),
        ensures
            final(self).wf(),
            forall|i: int| 0 <= i < old(self).roster().len() && old(self).roster()[i].ip_address@ == ip@
                ==> final(self).roster() == old(self).roster().remove(i),
            !old(self).knows(ip@) ==> final(self).roster() == old(self).roster(),
            !final(self).knows(ip@),
    {
        if let Some(i) = self.find_client(ip) {
            self.clients.remove(i);
            proof {
                let o = old(self).roster();
                assert forall|a: int, b: int|
                    0 <= a < self.roster().len() && 0 <= b < self.roster().len()
                        && #[trigger] self.roster()[a].ip_address@ == #[trigger] self.roster()[b].ip_address@ implies a == b by {
                    let a2 = if a < i { a } else { a + 1 };
                    let b2 = if b < i { b } else { b + 1 };
                    assert(self.roster()[a] == o[a2] && self.roster()[b] == o[b2]);
                }
                assert forall|k: int| 0 <= k < o.len() && o[k].ip_address@ == ip@
                    implies self.roster() == o.remove(k) by {
                    assert(o[k].ip_address@ == o[i as int].ip_address@);
                }
                if self.knows(ip@) {
                    let a = choose|a: int| 0 <= a < self.roster().len() && #[trigger] self.roster()[a].ip_address@ == ip@;
                    let a2 = if a < i { a } else { a + 1 };
                    assert(self.roster()[a] == o[a2]);
                    assert(o[a2].ip_address@ == o[i as int].ip_address@);
                }
            }
        }
    }

    /// Handles one message from the client at `ip`, whose payload has been
    /// read into `payload`, and returns the commands for the physics actor.
    pub fn handle_message(&mut self, kind: MessageKind, payload: &Payload, ip: &String) -> (r: Vec<Command>)
        requires
            old(self).wf(),
        ensures
            final(self).wf(),
            kind == MessageKind::Connect ==> {
                &&& payload.nickname matches Some(n) ==> {
                    &&& r@ == seq![Command::AddPlayer { name: *ip, nickname: n }]
                    &&& !old(self).knows(ip@) ==> final(self).roster() == old(self).roster().push(
                        Client { ip_address: *ip, nickname: n, team: TeamKind::SpecTeam })
                    &&& old(self).knows(ip@) ==> final(self).roster() == old(self).roster()
                }
                &&& payload.nickname is None ==> r@.len() == 0 && final(self).roster() == old(self).roster()
            },
            kind == MessageKind::Timeout ==> r@.len() == 0 && final(self).roster() == old(self).roster(),
            kind == MessageKind::Data && !old(self).knows(ip@) ==> r@.len() == 0 && final(self).roster() == old(self).roster(),
            kind == MessageKind::Data ==> forall|i: int| 0 <= i < old(self).roster().len() && old(self).roster()[i].ip_address@ == ip@ ==> {
                let a = payload.action;
                let team = match payload.team {
                    Some(t) => team_of_name(t@),
                    None => None,
                };
                &&& (is_text(a, "CHANGE_PLAYER_TEAM"@) && team is Some) ==> {
                    &&& r@ == seq![Command::ChangePlayerTeam { name: *ip, team: team->Some_0 }]
                    &&& final(self).roster() == with_team(old(self).roster(), i, team->Some_0)
                }
                &&& (is_text(a, "CHANGE_PLAYER_TEAM"@) && team is None) ==> r@.len() == 0 && final(self).roster() == old(self).roster()
                &&& is_text(a, "PLAYER_MOVED"@) ==> final(self).roster() == old(self).roster() && (r@ == match payload.position {
                    Some(p) => seq![Command::MovePlayer { name: *ip, velocity: p }],
                    None => Seq::empty(),
                })
                &&& is_text(a, "PLAYER_KICKED"@) ==> final(self).roster() == old(self).roster()
                    && r@ == seq![Command::KickBall { name: *ip }]
                &&& is_text(a, "PLAYER_DISCONNECTED"@) ==> final(self).roster() == old(self).roster().remove(i)
                    && r@ == seq![Command::DisconnectPlayer { name: *ip }]
                &&& is_text(a, "ENEMY_MOVED"@) ==> final(self).roster() == old(self).roster() && (r@ == match payload.position {
                    Some(p) => if old(self).knows_other_than(ip@) {
                        seq![Command::MoveEnemy { name: *ip, velocity: p }]
                    } else {
                        Seq::empty()
                    },
                    None => Seq::empty(),
                })
                &&& !(is_text(a, "CHANGE_PLAYER_TEAM"@) || is_text(a, "PLAYER_MOVED"@) || is_text(a, "PLAYER_KICKED"@)
                    || is_text(a, "PLAYER_DISCONNECTED"@) || is_text(a, "ENEMY_MOVED"@))
                    ==> r@.len() == 0 && final(self).roster() == old(self).roster()
            },
    {
        let mut out: Vec<Command> = Vec::new();
        match kind {
            MessageKind::Connect => {
                if let Some(nickname) = &payload.nickname {
                    if self.find_client(ip.as_str()).is_none() {
                        self.add_client(Client { ip_address: ip.clone(), nickname: nickname.clone(), team: TeamKind::SpecTeam });
                    }
                    out.push(Command::AddPlayer { name: ip.clone(), nickname: nickname.clone() });
                }
            },
            MessageKind::Timeout => {},
            MessageKind::Data => {
                if let Some(i) = self.find_client(ip.as_str()) {
                    proof {
                        assert forall|k: int| 0 <= k < old(self).roster().len() && old(self).roster()[k].ip_address@ == ip@
                            implies k == i by {
                            assert(old(self).roster()[k].ip_address@ == old(self).roster()[i as int].ip_address@);
                        }
                    }
                    out = self.handle_own_action(i, payload, ip);
                }
            },
        }
        out
    }

    fn handle_own_action(&mut self, i: usize, payload: &Payload, ip: &String) -> (r: Vec<Command>)
        requires
            old(self).wf(),
            i < old(self).roster().len(),
            old(self).roster()[i as int].ip_address@ == ip@,
        ensures
            final(self).wf(),
            ({
                let a = payload.action;
                let team = match payload.team {
                    Some(t) => team_of_name(t@),
                    None => None,
                };
                &&& (is_text(a, "CHANGE_PLAYER_TEAM"@) && team is Some) ==> {
                    &&& r@ == seq![Command::ChangePlayerTeam { name: *ip, team: team->Some_0 }]
                    &&& final(self).roster() == with_team(old(self).roster(), i as int, team->Some_0)
                }
                &&& (is_text(a, "CHANGE_PLAYER_TEAM"@) && team is None) ==> r@.len() == 0 && final(self).roster() == old(self).roster()
                &&& is_text(a, "PLAYER_MOVED"@) ==> final(self).roster() == old(self).roster() && (r@ == match payload.position {
                    Some(p) => seq![Command::MovePlayer { name: *ip, velocity: p }],
                    None => Seq::empty(),
                })
                &&& is_text(a, "PLAYER_KICKED"@) ==> final(self).roster() == old(self).roster()
                    && r@ == seq![Command::KickBall { name: *ip }]
                &&& is_text(a, "PLAYER_DISCONNECTED"@) ==> final(self).roster() == old(self).roster().remove(i as int)
                    && r@ == seq![Command::DisconnectPlayer { name: *ip }]
                &&& is_text(a, "ENEMY_MOVED"@) ==> final(self).roster() == old(self).roster() && (r@ == match payload.position {
                    Some(p) => if old(self).knows_other_than(ip@) {
                        seq![Command::MoveEnemy { name: *ip, velocity: p }]
                    } else {
                        Seq::empty()
                    },
                    None => Seq::empty(),
                })
                &&& !(is_text(a, "CHANGE_PLAYER_TEAM"@) || is_text(a, "PLAYER_MOVED"@) || is_text(a, "PLAYER_KICKED"@)
                    || is_text(a, "PLAYER_DISCONNECTED"@) || is_text(a, "ENEMY_MOVED"@))
                    ==> r@.len() == 0 && final(self).roster() == old(self).roster()
            }),
    {
        proof {
            reveal_strlit("CHANGE_PLAYER_TEAM");
            reveal_strlit("PLAYER_MOVED");
            reveal_strlit("PLAYER_KICKED");
            reveal_strlit("PLAYER_DISCONNECTED");
            reveal_strlit("ENEMY_MOVED");
            assert("CHANGE_PLAYER_TEAM"@.len() == 18);
            assert("PLAYER_MOVED"@.len() == 12);
            assert("PLAYER_KICKED"@.len() == 13);
            assert("PLAYER_DISCONNECTED"@.len() == 19);
            assert("ENEMY_MOVED"@.len() == 11);
        }
        let mut out: Vec<Command> = Vec::new();
        let action = &payload.action;
        if opt_is(action, "CHANGE_PLAYER_TEAM") {
            if let Some(name) = &payload.team {
                if let Ok(team) = TeamKind::from_str(name.as_str()) {
                    let mut client = Client {
                        ip_address: self.clients[i].ip_address.clone(),
                        nickname: self.clients[i].nickname.clone(),
                        team: self.clients[i].team,
                    };
                    client.assign_team(team);
                    self.clients.set(i, client);
                    proof {
                        assert(self.roster() =~= old(self).roster().update(i as int, Client { team, ..old(self).roster()[i as int] }));
                        assert forall|a: int, b: int|
                            0 <= a < self.roster().len() && 0 <= b < self.roster().len()
                                && #[trigger] self.roster()[a].ip_address@ == #[trigger] self.roster()[b].ip_address@ implies a == b by {
                            assert(self.roster()[a].ip_address == old(self).roster()[a].ip_address);
                            assert(self.roster()[b].ip_address == old(self).roster()[b].ip_address);
                        }
                    }
                    out.push(Command::ChangePlayerTeam { name: ip.clone(), team });
                }
            }
        } else if opt_is(action, "PLAYER_MOVED") {
            if let Some(p) = payload.position {
                out.push(Command::MovePlayer { name: ip.clone(), velocity: p });
            }
        } else if opt_is(action, "PLAYER_KICKED") {
            out.push(Command::KickBall { name: ip.clone() });
        } else if opt_is(action, "PLAYER_DISCONNECTED") {
            self.delete_client(ip.as_str());
            out.push(Command::DisconnectPlayer { name: ip.clone() });
        } else if opt_is(action, "ENEMY_MOVED") {
            if let Some(p) = payload.position {
                if self.has_other_than(ip.as_str()) {
                    out.push(Command::MoveEnemy { name: ip.clone(), velocity: p });
                }
            }
        }
        out
    }

    fn send_add_ack(&self, cache: &PositionCache, name: &String, nickname: &String, p: Position) -> (r: Vec<Outbound>)
        requires
            cache.wf(),
        ensures
            r@ == add_broadcast(self.roster(), *name, *nickname, p)
                + add_backfill(self.roster(), cache.positions(), *name),
    {
        let mut out: Vec<Outbound> = Vec::new();
        let mut i: usize = 0;
        while i < self.clients.len()
            invariant
                i <= self.roster().len(),
                out@ == add_broadcast(self.roster().subrange(0, i as int), *name, *nickname, p),
            decreases self.clients.len() - i,
        {
            out.push(Outbound {
                to: self.clients[i].ip_address.clone(),
                message: OutMessage::PlayerAddAck { name: name.clone(), nickname: nickname.clone(), position: p, team: None },
            });
            i += 1;
            proof {
                assert(out@ =~= add_broadcast(self.roster().subrange(0, i as int), *name, *nickname, p));
            }
        }
        proof {
            assert(self.roster().subrange(0, i as int) =~= self.roster());
        }
        let ghost head = out@;
        let mut j: usize = 0;
        while j < self.clients.len()
            invariant
                cache.wf(),
                j <= self.roster().len(),
                out@ == head + add_backfill(self.roster().subrange(0, j as int), cache.positions(), *name),
            decreases self.clients.len() - j,
        {
            let ghost before = out@;
            let c = &self.clients[j];
            if !str_eq(c.ip_address.as_str(), name.as_str()) {
                if let Some(q) = cache.get(c.ip_address.as_str(), &TrackKey::Player) {
                    out.push(Outbound {
                        to: name.clone(),
                        message: OutMessage::PlayerAddAck {
                            name: c.ip_address.clone(),
                            nickname: c.nickname.clone(),
                            position: q,
                            team: Some(c.team),
                        },
                    });
                }
            }
            proof {
                assert(self.roster().subrange(0, j + 1).drop_last() =~= self.roster().subrange(0, j as int));
            }
            j += 1;
            proof {
                assert(out@ =~= head + add_backfill(self.roster().subrange(0, j as int), cache.positions(), *name));
            }
        }
        proof {
            assert(self.roster().subrange(0, j as int) =~= self.roster());
        }
        out
    }

    fn send_team_ack(&self, name: &String, team: TeamKind) -> (r: Vec<Outbound>)
        ensures
            r@ == team_broadcast(self.roster(), *name, team) + team_backfill(self.roster(), *name),
    {
        let mut out: Vec<Outbound> = Vec::new();
        let mut i: usize = 0;
        while i < self.clients.len()
            invariant
                i <= self.roster().len(),
                out@ == team_broadcast(self.roster().subrange(0, i as int), *name, team),
            decreases self.clients.len() - i,
        {
            out.push(Outbound {
                to: self.clients[i].ip_address.clone(),
                message: OutMessage::ChangePlayerTeamAck { name: name.clone(), team },
            });
            i += 1;
            proof {
                assert(out@ =~= team_broadcast(self.roster().subrange(0, i as int), *name, team));
            }
        }
        proof {
            assert(self.roster().subrange(0, i as int) =~= self.roster());
        }
        let ghost head = out@;
        let mut j: usize = 0;
        while j < self.clients.len()
            invariant
                j <= self.roster().len(),
                out@ == head + team_backfill(self.roster().subrange(0, j as int), *name),
            decreases self.clients.len() - j,
        {
            let c = &self.clients[j];
            if !str_eq(c.ip_address.as_str(), name.as_str()) {
                out.push(Outbound {
                    to: name.clone(),
                    message: OutMessage::ChangePlayerTeamAck { name: c.ip_address.clone(), team: c.team },
                });
            }
            proof {
                assert(self.roster().subrange(0, j + 1).drop_last() =~= self.roster().subrange(0, j as int));
            }
            j += 1;
            proof {
                assert(out@ =~= head + team_backfill(self.roster().subrange(0, j as int), *name));
            }
        }
        proof {
            assert(self.roster().subrange(0, j as int) =~= self.roster());
        }
        out
    }

    fn send_leave_ack(&self, name: &String) -> (r: Vec<Outbound>)
        ensures
            r@ == leave_broadcast(self.roster(), *name),
    {
        let mut out: Vec<Outbound> = Vec::new();
        let mut i: usize = 0;
        while i < self.clients.len()
            invariant
                i <= self.roster().len(),
                out@ == leave_broadcast(self.roster().subrange(0, i as int), *name),
            decreases self.clients.len() - i,
        {
            out.push(Outbound {
                to: self.clients[i].ip_address.clone(),
                message: OutMessage::PlayerDisconnectAck { name: name.clone() },
            });
            i += 1;
            proof {
                assert(out@ =~= leave_broadcast(self.roster().subrange(0, i as int), *name));
            }
        }
        proof {
            assert(self.roster().subrange(0, i as int) =~= self.roster());
        }
        out
    }

    fn send_client_positions(&self, cache: &mut PositionCache, i: usize, bodies: &Vec<BodyPosition>, out: &mut Vec<Outbound>)
        requires
            self.wf(),
            old(cache).wf(),
            avatars_roundable(self.roster(), bodies@),
            i < self.roster().len(),
        ensures
            final(cache).wf(),
            broadcast_step(old(cache).positions(), final(cache).positions(), final(out)@, old(out)@.len() as int, bodies@,
                |k: CacheKey| handled_for(self.roster(), bodies@, self.roster()[i as int].ip_address@, self.roster().len() as int, k)),
            final(out)@.subrange(0, old(out)@.len() as int) == old(out)@,
    {
        let ghost roster = self.roster();
        let ghost b = bodies@;
        let client = &self.clients[i];
        let ghost c = client.ip_address@;
        let ghost c0 = cache.positions();
        let ghost out0 = out@;
        proof {
            reveal_strlit("ball");
            assert(in_roster(roster, c));
        }
        let ball = find_position(bodies, "ball");
        offer_and_send(cache, &client.ip_address, TrackKey::Ball, ball, out);
        let ghost c1 = cache.positions();
        let ghost out1 = out@;
        let ghost d1 = |k: CacheKey| k == (c, Entity::Ball) && ball is Some;
        proof {
            lemma_step_single(c0, c1, out0, out1, b, (c, Entity::Ball), ball, d1);
            lemma_avatar_roundable(roster, b, c);
        }
        let own = round_position(find_position(bodies, client.ip_address.as_str()));
        offer_and_send(cache, &client.ip_address, TrackKey::Player, own, out);
        let ghost c2 = cache.positions();
        let ghost out2 = out@;
        let ghost d2 = |k: CacheKey| k == (c, Entity::Player) && own is Some;
        let ghost d12 = |k: CacheKey| d1(k) || d2(k);
        proof {
            lemma_step_single(c1, c2, out1, out2, b, (c, Entity::Player), own, d2);
            lemma_step_compose(c0, c1, c2, out1, out2, out0.len() as int, b, d1, d2, d12);
            assert forall|k: CacheKey| #[trigger] d12(k) == handled_for(roster, b, c, 0, k) by {}
            assert(out2.subrange(0, out0.len() as int) =~= out1.subrange(0, out0.len() as int));
        }
        let mut j: usize = 0;
        while j < self.clients.len()
            invariant
                self.wf(),
                roster == self.roster(),
                b == bodies@,
                avatars_roundable(roster, b),
                i < roster.len(),
                c == self.roster()[i as int].ip_address@,
                client.ip_address@ == c,
                in_roster(roster, c),
                cache.wf(),
                j <= roster.len(),
                broadcast_step(c0, cache.positions(), out@, out0.len() as int, b,
                    |k: CacheKey| handled_for(roster, b, c, j as int, k)),
                out@.subrange(0, out0.len() as int) == out0,
            decreases self.clients.len() - j,
        {
            let ghost cj = cache.positions();
            let ghost outj = out@;
            let enemy = &self.clients[j].ip_address;
            let ghost e = enemy@;
            let ghost dj = |k: CacheKey| handled_for(roster, b, c, j as int, k);
            let ghost dn = |k: CacheKey| handled_for(roster, b, c, j + 1, k);
            let ghost key = (c, Entity::Enemy(e));
            proof {
                assert(roster[j as int].ip_address@ == e);
                assert(in_roster(roster, e));
                lemma_avatar_roundable(roster, b, e);
                assert forall|a: int| 0 <= a < j implies roster[a].ip_address@ != e by {
                    if roster[a].ip_address@ == e {
                        assert(roster[a].ip_address@ == roster[j as int].ip_address@);
                    }
                }
            }
            let p = if str_eq(enemy.as_str(), client.ip_address.as_str()) {
                None
            } else {
                round_position(find_position(bodies, enemy.as_str()))
            };
            if p.is_some() {
                let ek = enemy.clone();
                proof {
                    assert(ek@ == e);
                }
                offer_and_send(cache, &client.ip_address, TrackKey::Enemy(ek), p, out);
            }
            proof {
                if e == c {
                    assert(!covered(roster, key));
                } else {
                    assert(p == fresh(b, key));
                }
                assert(due(roster, b, key) == p is Some);
                let ds = |k: CacheKey| k == key && p is Some;
                assert(in_roster(roster, e));
                lemma_step_single(cj, cache.positions(), outj, out@, b, key, p, ds);
                assert forall|k: CacheKey| !(#[trigger] dj(k) && ds(k)) by {
                    if dj(k) && ds(k) {
                        assert(seen(roster, j as int, e));
                    }
                }
                assert forall|k: CacheKey| #[trigger] dn(k) == (dj(k) || ds(k)) by {
                    if let Entity::Enemy(x) = k.1 {
                        if seen(roster, j + 1, x) && !seen(roster, j as int, x) {
                            let a = choose|a: int| 0 <= a < j + 1 && #[trigger] roster[a].ip_address@ == x;
                            assert(a == j);
                        }
                        if seen(roster, j as int, x) {
                            let a = choose|a: int| 0 <= a < j && #[trigger] roster[a].ip_address@ == x;
                            assert(roster[a].ip_address@ == x);
                        }
                        if x == e {
                            assert(roster[j as int].ip_address@ == x);
                        }
                    }
                }
                lemma_step_compose(c0, cj, cache.positions(), outj, out@, out0.len() as int, b, dj, ds, dn);
                assert(out@.subrange(0, out0.len() as int) =~= outj.subrange(0, out0.len() as int));
            }
            j += 1;
        }
        proof {
            let dl = |k: CacheKey| handled_for(roster, b, c, roster.len() as int, k);
            assert(broadcast_step(c0, cache.positions(), out@, out0.len() as int, b, dl));
        }
    }

    /// Offers the snapshot `bodies` to every client, and returns the packets
    /// that carry what changed.
    pub fn broadcast_positions(&self, cache: &mut PositionCache, bodies: &Vec<BodyPosition>) -> (r: Vec<Outbound>)
        requires
            self.wf(),
            old(cache).wf(),
            avatars_roundable(self.roster(), bodies@),
        ensures
            final(cache).wf(),
            final(cache).positions() == refreshed(old(cache).positions(), self.roster(), bodies@),
            delta_packets(r@, old(cache).positions(), self.roster(), bodies@),
    {
        let ghost roster = self.roster();
        let ghost b = bodies@;
        let ghost c0 = cache.positions();
        let mut out: Vec<Outbound> = Vec::new();
        proof {
            lemma_step_empty(c0, out@, b, |k: CacheKey| handled(roster, b, 0, k));
        }
        let mut i: usize = 0;
        while i < self.clients.len()
            invariant
                self.wf(),
                roster == self.roster(),
                b == bodies@,
                avatars_roundable(roster, b),
                cache.wf(),
                i <= roster.len(),
                broadcast_step(c0, cache.positions(), out@, 0, b, |k: CacheKey| handled(roster, b, i as int, k)),
            decreases self.clients.len() - i,
        {
            let ghost ci = cache.positions();
            let ghost outi = out@;
            let ghost c = roster[i as int].ip_address@;
            self.send_client_positions(cache, i, bodies, &mut out);
            proof {
                let di = |k: CacheKey| handled(roster, b, i as int, k);
                let dc = |k: CacheKey| handled_for(roster, b, c, roster.len() as int, k);
                let dn = |k: CacheKey| handled(roster, b, i + 1, k);
                assert forall|k: CacheKey| !(#[trigger] di(k) && dc(k)) by {
                    if di(k) && dc(k) {
                        let a = choose|a: int| 0 <= a < i && #[trigger] roster[a].ip_address@ == k.0;
                        assert(roster[a].ip_address@ == roster[i as int].ip_address@);
                    }
                }
                assert forall|k: CacheKey| #[trigger] dn(k) == (di(k) || dc(k)) by {
                    if dn(k) && !di(k) {
                        let a = choose|a: int| 0 <= a < i + 1 && #[trigger] roster[a].ip_address@ == k.0;
                        assert(a == i);
                        if let Entity::Enemy(e) = k.1 {
                            assert(in_roster(roster, e));
                            let x = choose|x: int| 0 <= x < roster.len() && #[trigger] roster[x].ip_address@ == e;
                            assert(seen(roster, roster.len() as int, e));
                        }
                    }
                    if dc(k) {
                        assert(roster[i as int].ip_address@ == k.0);
                        assert(seen(roster, i + 1, k.0));
                    }
                    if di(k) {
                        let a = choose|a: int| 0 <= a < i && #[trigger] roster[a].ip_address@ == k.0;
                        assert(seen(roster, i + 1, k.0));
                    }
                }
                lemma_step_compose(c0, ci, cache.positions(), outi, out@, 0, b, di, dc, dn);
            }
            i += 1;
        }
        proof {
            let d = |k: CacheKey| handled(roster, b, roster.len() as int, k);
            assert forall|k: CacheKey| #[trigger] d(k) == due(roster, b, k) by {
                if due(roster, b, k) {
                    let a = choose|a: int| 0 <= a < roster.len() && #[trigger] roster[a].ip_address@ == k.0;
                    assert(seen(roster, roster.len() as int, k.0));
                }
            }
            assert(cache.positions() =~= refreshed(c0, roster, b));
            assert forall|k: CacheKey| due(roster, b, k) && #[trigger] changed(c0, k, fresh(b, k)->Some_0)
                implies exists|n: int| 0 <= n < out@.len() && packet_key(out@[n]) == k by {
                assert(d(k));
            }
            assert forall|n: int| 0 <= n < out@.len() implies due(roster, b, #[trigger] packet_key(out@[n])) by {
                assert(d(packet_key(out@[n])));
            }
        }
        out
    }

    /// Handles one command from the physics actor, `elapsed_ms` milliseconds
    /// into the current broadcast period, and returns the packets to send.
    pub fn handle_telemetrics(&self, cache: &mut PositionCache, command: Command, elapsed_ms: u64) -> (r: Vec<Outbound>)
        requires
            self.wf(),
            old(cache).wf(),
            command matches Command::Telemetrics { bodies } ==> elapsed_ms % RESPONSE_INTERVAL_MS == 0
                ==> avatars_roundable(self.roster(), bodies@),
        ensures
            final(cache).wf(),
            command matches Command::AddPlayerAck { name, nickname, translation } ==> {
                &&& r@ == add_broadcast(self.roster(), name, nickname, translation)
                    + add_backfill(self.roster(), old(cache).positions(), name)
                &&& final(cache).positions() == old(cache).positions()
            },
            command matches Command::ChangePlayerTeamAck { name, team } ==> {
                &&& r@ == team_broadcast(self.roster(), name, team) + team_backfill(self.roster(), name)
                &&& final(cache).positions() == old(cache).positions()
            },
            command matches Command::Telemetrics { bodies } ==> {
                &&& elapsed_ms % RESPONSE_INTERVAL_MS == 0 ==> {
                    &&& final(cache).positions() == refreshed(old(cache).positions(), self.roster(), bodies@)
                    &&& delta_packets(r@, old(cache).positions(), self.roster(), bodies@)
                }
                &&& elapsed_ms % RESPONSE_INTERVAL_MS != 0 ==> r@.len() == 0
                    && final(cache).positions() == old(cache).positions()
            },
            command matches Command::DisconnectPlayerAck { name } ==> {
                &&& r@ == leave_broadcast(self.roster(), name)
                &&& final(cache).positions() == without_client(old(cache).positions(), name@)
            },
            (command is AddPlayer || command is ChangePlayerTeam || command is DisconnectPlayer
                || command is MovePlayer || command is MoveEnemy || command is KickBall)
                ==> r@.len() == 0 && final(cache).positions() == old(cache).positions(),
    {
        match command {
            Command::AddPlayerAck { name, nickname, translation } => {
                self.send_add_ack(cache, &name, &nickname, translation)
            },
            Command::ChangePlayerTeamAck { name, team } => self.send_team_ack(&name, team),
            Command::Telemetrics { bodies } => {
                if broadcast_due(elapsed_ms) {
                    self.broadcast_positions(cache, &bodies)
                } else {
                    Vec::new()
                }
            },
            Command::DisconnectPlayerAck { name } => {
                let out = self.send_leave_ack(&name);
                cache.remove_client(name.as_str());
                out
            },
            _ => Vec::new(),
        }
    }

    fn has_other_than(&self, ip: &str) -> (r: bool)
        ensures
            r == self.knows_other_than(ip@),
    {
        let mut i: usize = 0;
        while i < self.clients.len()
            invariant
                i <= self.clients@.len(),
                forall|j: int| 0 <= j < i ==> (#[trigger] self.clients@[j]).ip_address@ == ip@,
            decreases self.clients.len() - i,
        {
            if !str_eq(self.clients[i].ip_address.as_str(), ip) {
                return true;
            }
            i += 1;
        }
        false
    }
}

} // verus!
