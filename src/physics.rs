//! The physics actor's bookkeeping and decisions. The rigid-body engine itself
//! lives outside: this module keeps the table from body names to engine handles
//! and turns each command into the actions to perform on the engine.
use vstd::prelude::*;
use crate::command::{str_eq, BodyPosition, Command, CommandKind};
use crate::geometry::{dist_sq, push_away, Impulse, Position};
use crate::table::{keys_unique, table_view, has_key, lemma_view_at, lemma_view_empty, lemma_view_push, lemma_view_update, lemma_view_remove};

verus! {

/// The name under which the ball is registered.
pub open spec fn ball_name() -> Seq<char> {
    "ball"@
}

/// Where a new avatar appears: (128, 301).
pub open spec fn spawn_point() -> Position {
    Position { x: 128000, y: 301000 }
}

/// A kick reaches the ball only when the ball is closer than 30 units.
pub const KICK_RANGE: i64 = 30000;

/// Impulse factor of an explicit kick.
pub const KICK_POWER: i64 = 500;

/// Impulse factor of a contact between a moving avatar and the ball.
pub const COLLISION_POWER: i64 = 100;

/// Whether an avatar at `avatar` is close enough to kick a ball at `ball`.
pub open spec fn in_kick_range(ball: Position, avatar: Position) -> bool {
    dist_sq(ball, avatar) < KICK_RANGE * KICK_RANGE
}

/// An impulse with the given components.
pub open spec fn impulse_of(v: (int, int)) -> Impulse {
    Impulse { x: v.0 as i64, y: v.1 as i64 }
}

/// The first position recorded under `name` in a snapshot.
pub open spec fn snapshot_pos(s: Seq<BodyPosition>, name: Seq<char>) -> Option<Position> {
    if exists|i: int| is_first_at(s, name, i) {
        Some(s[choose|i: int| is_first_at(s, name, i)].position)
    } else {
        None
    }
}

pub open spec fn is_first_at(s: Seq<BodyPosition>, name: Seq<char>, i: int) -> bool {
    0 <= i < s.len() && s[i].name@ == name && forall|j: int| 0 <= j < i ==> s[j].name@ != name
}

proof fn lemma_first_unique(s: Seq<BodyPosition>, name: Seq<char>, i: int, k: int)
    requires
        is_first_at(s, name, i),
        is_first_at(s, name, k),
    ensures
        i == k,
{
    if i < k {
        assert(s[i].name@ != name);
    } else if k < i {
        assert(s[k].name@ != name);
    }
}

proof fn lemma_square_bound(v: int)
    requires
        -0x1_0000_0000 <= v <= 0x1_0000_0000,
    ensures
        0 <= v * v <= 0x1_0000_0000_0000_0000,
{
    assert(0 <= v * v <= 0x1_0000_0000_0000_0000) by (nonlinear_arith)
        requires -0x1_0000_0000 <= v <= 0x1_0000_0000;
}

/// Finds the first entry of a snapshot recorded under `name`.
pub fn find_position(s: &Vec<BodyPosition>, name: &str) -> (r: Option<Position>)
    ensures
        r == snapshot_pos(s@, name@),
{
    let mut i: usize = 0;
    while i < s.len()
        invariant
            i <= s.len(),
            forall|j: int| 0 <= j < i ==> s@[j].name@ != name@,
        decreases s.len() - i,
    {
        if str_eq(s[i].name.as_str(), name) {
            proof {
                assert(is_first_at(s@, name@, i as int));
                let k = choose|k: int| is_first_at(s@, name@, k);
                lemma_first_unique(s@, name@, i as int, k);
            }
            return Some(s[i].position);
        }
        i += 1;
    }
    None
}

/// Whether `name` occurs in `names`.
pub fn contains_name(names: &Vec<String>, name: &str) -> (r: bool)
    ensures
        r == exists|i: int| 0 <= i < names@.len() && (#[trigger] names@[i])@ == name@,
{
    let mut i: usize = 0;
    while i < names.len()
        invariant
            i <= names.len(),
            forall|j: int| 0 <= j < i ==> (#[trigger] names@[j])@ != name@,
        decreases names.len() - i,
    {
        if str_eq(names[i].as_str(), name) {
            return true;
        }
        i += 1;
    }
    false
}

/// Whether the reading lists `name` among the avatars touching the ball.
pub open spec fn touches(reading: WorldReading, name: Seq<char>) -> bool {
    exists|i: int| 0 <= i < reading.touching_ball@.len() && (#[trigger] reading.touching_ball@[i])@ == name
}

/// What the physics actor reads from the engine before it handles a command:
/// the position of every named body, and the avatars whose collider
/// currently intersects the ball's.
pub struct WorldReading {
    pub positions: Vec<BodyPosition>,
    pub touching_ball: Vec<String>,
}

/// One thing to do on the engine.
#[derive(Clone, Debug)]
pub enum PhysicsAction {
    /// Create a kinematic sensor avatar at `translation`; register its handle
    /// under `name` with `PhysicsEngine::insert_body`.
    SpawnAvatar { name: String, translation: Position },
    /// Remove the body and its colliders.
    RemoveBody { handle: u64 },
    /// Set the body's linear velocity.
    SetVelocity { handle: u64, velocity: Position },
    /// Apply an impulse to the body.
    ApplyImpulse { handle: u64, impulse: Impulse },
    /// Send a command to the network actor.
    Reply { command: Command },
}

/// `m` after registering each handle of `handles` under `name`, in order.
pub open spec fn insert_all(m: Map<Seq<char>, u64>, name: Seq<char>, handles: Seq<u64>) -> Map<Seq<char>, u64>
    decreases handles.len(),
{
    if handles.len() == 0 {
        m
    } else {
        insert_all(m, name, handles.drop_last()).insert(name, handles.last())
    }
}

/// However many avatars are registered under one name, the table keeps one
/// entry for it: the last one; every other name keeps its entry.
pub proof fn one_body_per_name(m: Map<Seq<char>, u64>, name: Seq<char>, handles: Seq<u64>)
    requires
        handles.len() > 0,
    ensures
        insert_all(m, name, handles) == m.insert(name, handles.last()),
    decreases handles.len(),
{
    if handles.len() > 1 {
        one_body_per_name(m, name, handles.drop_last());
        assert(insert_all(m, name, handles) =~= m.insert(name, handles.last()));
    } else {
        assert(handles.drop_last().len() == 0);
        assert(insert_all(m, name, handles.drop_last()) == m);
    }
}

/// The kick range is strict: a ball exactly 30 units away is out of reach,
/// and anything closer is in reach.
pub proof fn kick_range_is_strict(ball: Position, avatar: Position)
    ensures
        dist_sq(ball, avatar) == 30000 * 30000 ==> !in_kick_range(ball, avatar),
        dist_sq(ball, avatar) < 30000 * 30000 ==> in_kick_range(ball, avatar),
{
}

/// A named engine body.
#[derive(Clone, Debug)]
pub struct NamedBody {
    pub name: String,
    pub handle: u64,
}

/// The physics actor: the engine handle of every named body.
pub struct PhysicsEngine {
    handles: Vec<NamedBody>,
}

pub open spec fn entries(s: Seq<NamedBody>) -> Seq<(Seq<char>, u64)> {
    s.map_values(|e: NamedBody| (e.name@, e.handle))
}

impl PhysicsEngine {
    /// The handle registered under each name.
    pub closed spec fn bodies(&self) -> Map<Seq<char>, u64> {
        table_view(entries(self.handles@))
    }

    /// No name is registered twice.
    pub closed spec fn wf(&self) -> bool {
        keys_unique(entries(self.handles@))
    }

    /// An engine with no bodies.
    pub fn new() -> (r: PhysicsEngine)
        ensures
            r.wf(),
            r.bodies() == Map::<Seq<char>, u64>::empty(),
    {
        let r = PhysicsEngine { handles: Vec::new() };
        proof {
            lemma_view_empty(entries(r.handles@));
        }
        r
    }

    fn find(&self, name: &str) -> (r: Option<usize>)
        requires
            self.wf(),
        ensures
            r matches Some(i) ==> i < self.handles@.len() && self.handles@[i as int].name@ == name@,
            r is None ==> !self.bodies().contains_key(name@),
    {
        let mut i: usize = 0;
        while i < self.handles.len()
            invariant
                i <= self.handles@.len(),
                forall|j: int| 0 <= j < i ==> self.handles@[j].name@ != name@,
            decreases self.handles.len() - i,
        {
            if str_eq(self.handles[i].name.as_str(), name) {
                return Some(i);
            }
            i += 1;
        }
        proof {
            let s = entries(self.handles@);
            if has_key(s, name@) {
                let j = choose|j: int| 0 <= j < s.len() && #[trigger] s[j].0 == name@;
                assert(self.handles@[j].name@ == name@);
            }
        }
        None
    }

    /// The handle registered under `name`.
    pub fn handle_of(&self, name: &str) -> (r: Option<u64>)
        requires
            self.wf(),
        ensures
            r == (if self.bodies().contains_key(name@) { Some(self.bodies()[name@]) } else { None }),
    {
        match self.find(name) {
            Some(i) => {
                proof {
                    lemma_view_at(entries(self.handles@), i as int);
                }
                Some(self.handles[i].handle)
            },
            None => None,
        }
    }

    /// Registers `handle` under `name`. A handle already registered under
    /// that name is replaced, and returned: the engine still holds its body.
    pub fn insert_body(&mut self, name: String, handle: u64) -> (r: Option<u64>)
        requires
            old(self).wf(),
        ensures
            final(self).wf(),
            final(self).bodies() == old(self).bodies().insert(name@, handle),
            r == (if old(self).bodies().contains_key(name@) { Some(old(self).bodies()[name@]) } else { None }),
    {
        match self.find(name.as_str()) {
            Some(i) => {
                proof {
                    lemma_view_at(entries(self.handles@), i as int);
                    lemma_view_update(entries(self.handles@), i as int, handle);
                }
                let previous = self.handles[i].handle;
                let ghost before = self.handles@;
                self.handles.set(i, NamedBody { name, handle });
                proof {
                    assert(entries(self.handles@) =~= entries(before).update(i as int, (entries(before)[i as int].0, handle)));
                }
                Some(previous)
            },
            None => {
                let ghost before = self.handles@;
                proof {
                    lemma_view_push(entries(before), name@, handle);
                }
                self.handles.push(NamedBody { name, handle });
                proof {
                    assert(entries(self.handles@) =~= entries(before).push((name@, handle)));
                }
                None
            },
        }
    }

    /// Unregisters `name` and returns its handle, for the engine to remove.
    pub fn remove_body(&mut self, name: &str) -> (r: Result<u64, &'static str>)
        requires
            old(self).wf(),
        ensures
            final(self).wf(),
            final(self).bodies() == old(self).bodies().remove(name@),
            r matches Ok(h) ==> old(self).bodies().contains_key(name@) && h == old(self).bodies()[name@],
            r is Err ==> !old(self).bodies().contains_key(name@) && r == Err::<u64, &'static str>("Body not found"),
    {
        match self.find(name) {
            Some(i) => {
                let ghost before = self.handles@;
                proof {
                    lemma_view_at(entries(before), i as int);
                    lemma_view_remove(entries(before), i as int);
                }
                let body = self.handles.remove(i);
                proof {
                    assert(entries(self.handles@) =~= entries(before).remove(i as int));
                }
                Ok(body.handle)
            },
            None => {
                proof {
                    assert(old(self).bodies().remove(name@) =~= old(self).bodies());
                }
                Err("Body not found")
            },
        }
    }

    /// Whether `name` is registered.
    pub open spec fn has_body(&self, name: Seq<char>) -> bool {
        self.bodies().contains_key(name)
    }

    /// The impulse on the ball when the avatar `name` moves while touching it:
    /// away from the avatar with the collision power.
    pub open spec fn contact_actions(&self, name: Seq<char>, reading: WorldReading) -> Seq<PhysicsAction> {
        let avatar = snapshot_pos(reading.positions@, name);
        let ball = snapshot_pos(reading.positions@, ball_name());
        if touches(reading, name) && self.has_body(ball_name()) && avatar is Some && ball is Some {
            seq![PhysicsAction::ApplyImpulse {
                handle: self.bodies()[ball_name()],
                impulse: impulse_of(push_away(ball->Some_0, avatar->Some_0, COLLISION_POWER as int)),
            }]
        } else {
            seq![]
        }
    }

    /// The impulse on the ball when the avatar `name` kicks: away from the
    /// avatar with the kick power, when the ball is in range.
    pub open spec fn kick_actions(&self, name: Seq<char>, reading: WorldReading) -> Seq<PhysicsAction> {
        let avatar = snapshot_pos(reading.positions@, name);
        let ball = snapshot_pos(reading.positions@, ball_name());
        if self.has_body(name) && self.has_body(ball_name()) && avatar is Some && ball is Some
            && in_kick_range(ball->Some_0, avatar->Some_0) {
            seq![PhysicsAction::ApplyImpulse {
                handle: self.bodies()[ball_name()],
                impulse: impulse_of(push_away(ball->Some_0, avatar->Some_0, KICK_POWER as int)),
            }]
        } else {
            seq![]
        }
    }

    /// What a movement of the avatar `name` does.
    pub open spec fn move_actions(&self, name: Seq<char>, velocity: Position, reading: WorldReading) -> Seq<PhysicsAction> {
        if self.has_body(name) {
            seq![PhysicsAction::SetVelocity { handle: self.bodies()[name], velocity }]
                + self.contact_actions(name, reading)
        } else {
            seq![]
        }
    }

    fn ball_push(&self, name: &String, reading: &WorldReading, power: i64, kick: bool) -> (r: Option<PhysicsAction>)
        requires
            self.wf(),
            power == COLLISION_POWER || power == KICK_POWER,
        ensures
            ({
                let avatar = snapshot_pos(reading.positions@, name@);
                let ball = snapshot_pos(reading.positions@, ball_name());
                let ok = self.has_body(ball_name()) && avatar is Some && ball is Some
                    && (kick ==> in_kick_range(ball->Some_0, avatar->Some_0));
                &&& ok ==> r == Some(PhysicsAction::ApplyImpulse {
                    handle: self.bodies()[ball_name()],
                    impulse: impulse_of(push_away(ball->Some_0, avatar->Some_0, power as int)),
                })
                &&& !ok ==> r is None
            }),
    {
        proof {
            reveal_strlit("ball");
        }
        let ball_handle = match self.handle_of("ball") {
            Some(h) => h,
            None => return None,
        };
        let avatar = match find_position(&reading.positions, name.as_str()) {
            Some(p) => p,
            None => return None,
        };
        let ball = match find_position(&reading.positions, "ball") {
            Some(p) => p,
            None => return None,
        };
        let dx: i64 = avatar.x as i64 - ball.x as i64;
        let dy: i64 = avatar.y as i64 - ball.y as i64;
        if kick {
            let wx: i128 = dx as i128;
            let wy: i128 = dy as i128;
            proof {
                lemma_square_bound(wx as int);
                lemma_square_bound(wy as int);
                assert(dist_sq(ball, avatar) == wx * wx + wy * wy) by (nonlinear_arith)
                    requires wx == avatar.x - ball.x, wy == avatar.y - ball.y;
            }
            let sx: i128 = wx * wx;
            let sy: i128 = wy * wy;
            let d2: i128 = sx + sy;
            let range: i128 = KICK_RANGE as i128;
            assert(range == 30000);
            if d2 >= range * range {
                return None;
            }
        }
        Some(PhysicsAction::ApplyImpulse {
            handle: ball_handle,
            impulse: Impulse { x: -dx * power, y: -dy * power },
        })
    }

    /// Handles one command from the network actor and returns what to do on
    /// the engine, in order. Only a disconnect changes the table: registering
    /// a spawned avatar is `insert_body`'s work. The ball lasts for the life of
    /// the world: a player named like it is neither spawned nor removed.
    pub fn handle_command(&mut self, command: Command, reading: &WorldReading) -> (r: Vec<PhysicsAction>)
        requires
            old(self).wf(),
        ensures
            final(self).wf(),
            command matches Command::AddPlayer { name, nickname } ==> name@ == ball_name() ==>
                r@.len() == 0 && final(self).bodies() == old(self).bodies(),
            command matches Command::AddPlayer { name, nickname } ==> name@ != ball_name() ==> {
                &&& r@ == seq![
                    PhysicsAction::SpawnAvatar { name: name, translation: spawn_point() },
                    PhysicsAction::Reply { command: Command::AddPlayerAck { name: name, nickname: nickname, translation: spawn_point() } },
                ]
                &&& final(self).bodies() == old(self).bodies()
            },
            command matches Command::ChangePlayerTeam { name, team } ==> {
                &&& r@ == seq![PhysicsAction::Reply { command: Command::ChangePlayerTeamAck { name: name, team: team } }]
                &&& final(self).bodies() == old(self).bodies()
            },
            command matches Command::MovePlayer { name, velocity } ==> {
                &&& r@ == old(self).move_actions(name@, velocity, *reading)
                &&& final(self).bodies() == old(self).bodies()
            },
            command matches Command::MoveEnemy { name, velocity } ==> {
                &&& r@ == old(self).move_actions(name@, velocity, *reading)
                &&& final(self).bodies() == old(self).bodies()
            },
            command matches Command::KickBall { name } ==> {
                &&& r@ == old(self).kick_actions(name@, *reading)
                &&& final(self).bodies() == old(self).bodies()
            },
            command matches Command::DisconnectPlayer { name } ==> name@ == ball_name() ==>
                r@.len() == 0 && final(self).bodies() == old(self).bodies(),
            command matches Command::DisconnectPlayer { name } ==> name@ != ball_name() ==> {
                &&& final(self).bodies() == old(self).bodies().remove(name@)
                &&& old(self).has_body(name@) ==> r@ == seq![
                    PhysicsAction::RemoveBody { handle: old(self).bodies()[name@] },
                    PhysicsAction::Reply { command: Command::DisconnectPlayerAck { name: name } },
                ]
                &&& !old(self).has_body(name@) ==> r@.len() == 0
            },
            ({
                let k = command.kind_spec();
                k == CommandKind::AddPlayerAck || k == CommandKind::ChangePlayerTeamAck
                    || k == CommandKind::DisconnectPlayerAck || k == CommandKind::Telemetrics
            }) ==> r@.len() == 0 && final(self).bodies() == old(self).bodies(),
    {
        proof {
            reveal_strlit("ball");
        }
        let mut actions: Vec<PhysicsAction> = Vec::new();
        match command {
            Command::AddPlayer { name, nickname } if str_eq(name.as_str(), "ball") => {},
            Command::DisconnectPlayer { name } if str_eq(name.as_str(), "ball") => {},
            Command::AddPlayer { name, nickname } => {
                let translation = Position { x: 128000, y: 301000 };
                actions.push(PhysicsAction::SpawnAvatar { name: name.clone(), translation });
                actions.push(PhysicsAction::Reply {
                    command: Command::AddPlayerAck { name, nickname, translation },
                });
            },
            Command::ChangePlayerTeam { name, team } => {
                actions.push(PhysicsAction::Reply { command: Command::ChangePlayerTeamAck { name, team } });
            },
            Command::MovePlayer { name, velocity } => {
                actions = self.move_body(&name, velocity, reading);
            },
            Command::MoveEnemy { name, velocity } => {
                actions = self.move_body(&name, velocity, reading);
            },
            Command::KickBall { name } => {
                if self.handle_of(name.as_str()).is_some() {
                    if let Some(push) = self.ball_push(&name, reading, KICK_POWER, true) {
                        actions.push(push);
                    }
                }
                proof {
                    assert(actions@ =~= self.kick_actions(name@, *reading));
                }
            },
            Command::DisconnectPlayer { name } => {
                if let Ok(handle) = self.remove_body(name.as_str()) {
                    actions.push(PhysicsAction::RemoveBody { handle });
                    actions.push(PhysicsAction::Reply { command: Command::DisconnectPlayerAck { name } });
                }
            },
            _ => {},
        }
        actions
    }

    fn move_body(&self, name: &String, velocity: Position, reading: &WorldReading) -> (r: Vec<PhysicsAction>)
        requires
            self.wf(),
        ensures
            r@ == self.move_actions(name@, velocity, *reading),
    {
        let mut actions: Vec<PhysicsAction> = Vec::new();
        if let Some(handle) = self.handle_of(name.as_str()) {
            actions.push(PhysicsAction::SetVelocity { handle, velocity });
            if contains_name(&reading.touching_ball, name.as_str()) {
                if let Some(push) = self.ball_push(name, reading, COLLISION_POWER, false) {
                    actions.push(push);
                }
            }
        }
        proof {
            assert(actions@ =~= self.move_actions(name@, velocity, *reading));
        }
        actions
    }

    /// The registered bodies, in registration order: each registered name
    /// once, with its handle.
    pub fn named_bodies(&self) -> (r: &Vec<NamedBody>)
        requires
            self.wf(),
        ensures
            forall|i: int| 0 <= i < r@.len() ==> {
                &&& self.bodies().contains_key(#[trigger] r@[i].name@)
                &&& self.bodies()[r@[i].name@] == r@[i].handle
            },
            forall|name: Seq<char>| #[trigger] self.bodies().contains_key(name) ==>
                exists|i: int| 0 <= i < r@.len() && r@[i].name@ == name,
            forall|i: int, j: int| 0 <= i < r@.len() && 0 <= j < r@.len() && #[trigger] r@[i].name@ == #[trigger] r@[j].name@ ==> i == j,
    {
        proof {
            let s = entries(self.handles@);
            assert forall|i: int| 0 <= i < self.handles@.len() implies {
                &&& self.bodies().contains_key(#[trigger] self.handles@[i].name@)
                &&& self.bodies()[self.handles@[i].name@] == self.handles@[i].handle
            } by {
                assert(s[i] == (self.handles@[i].name@, self.handles@[i].handle));
                lemma_view_at(s, i);
            }
            assert forall|name: Seq<char>| #[trigger] self.bodies().contains_key(name) implies
                exists|i: int| 0 <= i < self.handles@.len() && self.handles@[i].name@ == name by {
                let i = choose|i: int| 0 <= i < s.len() && #[trigger] s[i].0 == name;
                assert(self.handles@[i].name@ == name);
            }
            assert forall|i: int, j: int| 0 <= i < self.handles@.len() && 0 <= j < self.handles@.len()
                && #[trigger] self.handles@[i].name@ == #[trigger] self.handles@[j].name@ implies i == j by {
                assert(s[i].0 == s[j].0);
            }
        }
        &self.handles
    }
}

} // verus!
