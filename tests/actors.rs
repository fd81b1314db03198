use arena_server::cache::{PositionCache, TrackKey};
use arena_server::command::{BodyPosition, Command, TeamKind};
use arena_server::geometry::{round_coord, Position};
use arena_server::message::{MessageKind, Payload};
use arena_server::network::{action_of, broadcast_due, period_over, Network, OutMessage, Outbound};
use arena_server::physics::{PhysicsAction, PhysicsEngine, WorldReading};

fn pos(x: i32, y: i32) -> Position {
    Position { x, y }
}

fn body(name: &str, p: Position) -> BodyPosition {
    BodyPosition { name: name.to_string(), position: p }
}

fn connect(nickname: &str) -> Payload {
    Payload { nickname: Some(nickname.to_string()), action: None, team: None, position: None }
}

fn action(a: &str) -> Payload {
    Payload { nickname: None, action: Some(a.to_string()), team: None, position: None }
}

fn reading(positions: Vec<BodyPosition>, touching: Vec<&str>) -> WorldReading {
    WorldReading { positions, touching_ball: touching.into_iter().map(|s| s.to_string()).collect() }
}

fn telemetrics(bodies: Vec<BodyPosition>) -> Command {
    Command::Telemetrics { bodies }
}

const A: &str = "127.0.0.1:5000";
const B: &str = "127.0.0.1:5001";

#[test]
fn team_names_are_read() {
    assert_eq!(TeamKind::from_str("RedTeam"), Ok(TeamKind::RedTeam));
    assert_eq!(TeamKind::from_str("SpecTeam"), Ok(TeamKind::SpecTeam));
    assert_eq!(TeamKind::from_str("BlueTeam"), Ok(TeamKind::BlueTeam));
    assert_eq!(TeamKind::from_str("GreenTeam"), Err(()));
    assert_eq!(TeamKind::from_str(""), Err(()));
    assert_eq!(TeamKind::BlueTeam.name(), "BlueTeam");
}

#[test]
fn coordinates_round_to_whole_units() {
    assert_eq!(round_coord(1500), 2000);
    assert_eq!(round_coord(1499), 1000);
    assert_eq!(round_coord(-1500), -2000);
    assert_eq!(round_coord(-1499), -1000);
    assert_eq!(round_coord(0), 0);
}

#[test]
fn connect_adds_a_spectator_and_asks_for_an_avatar() {
    let mut net = Network::new();
    let cmds = net.handle_message(MessageKind::Connect, &connect("Alice"), &A.to_string());
    assert_eq!(cmds.len(), 1);
    assert!(matches!(&cmds[0], Command::AddPlayer { name, nickname } if name == A && nickname == "Alice"));
    assert_eq!(net.get_clients().len(), 1);
    assert_eq!(net.get_clients()[0].team, TeamKind::SpecTeam);
    assert_eq!(net.get_clients()[0].nickname, "Alice");
}

#[test]
fn connect_again_keeps_one_client() {
    let mut net = Network::new();
    net.handle_message(MessageKind::Connect, &connect("Alice"), &A.to_string());
    let cmds = net.handle_message(MessageKind::Connect, &connect("Alice"), &A.to_string());
    assert_eq!(cmds.len(), 1);
    assert_eq!(net.get_clients().len(), 1);
}

#[test]
fn malformed_or_unknown_messages_do_nothing() {
    let mut net = Network::new();
    let empty = Payload { nickname: None, action: None, team: None, position: None };
    assert!(net.handle_message(MessageKind::Connect, &empty, &A.to_string()).is_empty());
    assert!(net.get_clients().is_empty());
    assert!(net.handle_message(MessageKind::Data, &action("PLAYER_KICKED"), &A.to_string()).is_empty());
    net.handle_message(MessageKind::Connect, &connect("Alice"), &A.to_string());
    assert!(net.handle_message(MessageKind::Timeout, &empty, &A.to_string()).is_empty());
    assert!(net.handle_message(MessageKind::Data, &action("DANCE"), &A.to_string()).is_empty());
    assert!(net.handle_message(MessageKind::Data, &empty, &A.to_string()).is_empty());
    let mut bad_team = action("CHANGE_PLAYER_TEAM");
    bad_team.team = Some("GreenTeam".to_string());
    assert!(net.handle_message(MessageKind::Data, &bad_team, &A.to_string()).is_empty());
    assert_eq!(net.get_clients()[0].team, TeamKind::SpecTeam);
    assert!(net.handle_message(MessageKind::Data, &action("PLAYER_MOVED"), &A.to_string()).is_empty());
}

#[test]
fn own_actions_become_commands() {
    let mut net = Network::new();
    net.handle_message(MessageKind::Connect, &connect("Alice"), &A.to_string());
    let mut moved = action("PLAYER_MOVED");
    moved.position = Some(pos(5000, 0));
    let cmds = net.handle_message(MessageKind::Data, &moved, &A.to_string());
    assert!(matches!(&cmds[..], [Command::MovePlayer { name, velocity }] if name == A && *velocity == pos(5000, 0)));
    let cmds = net.handle_message(MessageKind::Data, &action("PLAYER_KICKED"), &A.to_string());
    assert!(matches!(&cmds[..], [Command::KickBall { name }] if name == A));
    let cmds = net.handle_message(MessageKind::Data, &action("PLAYER_DISCONNECTED"), &A.to_string());
    assert!(matches!(&cmds[..], [Command::DisconnectPlayer { name }] if name == A));
    assert!(net.get_clients().is_empty());
}

#[test]
fn enemy_hint_needs_another_client() {
    let mut net = Network::new();
    net.handle_message(MessageKind::Connect, &connect("Alice"), &A.to_string());
    let mut hint = action("ENEMY_MOVED");
    hint.position = Some(pos(1000, 2000));
    assert!(net.handle_message(MessageKind::Data, &hint, &A.to_string()).is_empty());
    net.handle_message(MessageKind::Connect, &connect("Bob"), &B.to_string());
    let cmds = net.handle_message(MessageKind::Data, &hint, &A.to_string());
    assert!(matches!(&cmds[..], [Command::MoveEnemy { name, velocity }] if name == A && *velocity == pos(1000, 2000)));
}

#[test]
fn same_team_change_twice_is_idempotent_and_acknowledged_twice() {
    let mut net = Network::new();
    let mut engine = PhysicsEngine::new();
    let mut cache = PositionCache::new();
    net.handle_message(MessageKind::Connect, &connect("Alice"), &A.to_string());
    let mut change = action("CHANGE_PLAYER_TEAM");
    change.team = Some("RedTeam".to_string());
    let mut acks = 0;
    for _ in 0..2 {
        let cmds = net.handle_message(MessageKind::Data, &change, &A.to_string());
        assert_eq!(cmds.len(), 1);
        assert_eq!(net.get_clients()[0].team, TeamKind::RedTeam);
        for cmd in cmds {
            for act in engine.handle_command(cmd, &reading(vec![], vec![])) {
                if let PhysicsAction::Reply { command } = act {
                    assert!(matches!(&command, Command::ChangePlayerTeamAck { team: TeamKind::RedTeam, .. }));
                    let packets = net.handle_telemetrics(&mut cache, command, 0);
                    assert_eq!(packets.len(), 1);
                    assert!(matches!(&packets[0].message, OutMessage::ChangePlayerTeamAck { name, team: TeamKind::RedTeam } if name == A));
                    acks += 1;
                }
            }
        }
    }
    assert_eq!(acks, 2);
    assert_eq!(net.get_clients().len(), 1);
}

#[test]
fn team_ack_tells_the_requester_the_other_teams() {
    let mut net = Network::new();
    let mut cache = PositionCache::new();
    net.handle_message(MessageKind::Connect, &connect("Alice"), &A.to_string());
    net.handle_message(MessageKind::Connect, &connect("Bob"), &B.to_string());
    let ack = Command::ChangePlayerTeamAck { name: A.to_string(), team: TeamKind::BlueTeam };
    let packets = net.handle_telemetrics(&mut cache, ack, 7);
    assert_eq!(packets.len(), 3);
    assert_eq!(packets[0].to, A);
    assert_eq!(packets[1].to, B);
    assert_eq!(packets[2].to, A);
    assert!(matches!(&packets[2].message, OutMessage::ChangePlayerTeamAck { name, team: TeamKind::SpecTeam } if name == B));
}

#[test]
fn unchanged_ball_is_not_sent_again() {
    let mut net = Network::new();
    let mut cache = PositionCache::new();
    net.handle_message(MessageKind::Connect, &connect("Alice"), &A.to_string());
    assert!(cache.offer(&A.to_string(), &TrackKey::Ball, pos(10000, 10000)));
    let same = net.handle_telemetrics(&mut cache, telemetrics(vec![body("ball", pos(10000, 10000))]), 0);
    assert!(same.is_empty());
    let moved = net.handle_telemetrics(&mut cache, telemetrics(vec![body("ball", pos(10000, 11000))]), 0);
    assert_eq!(moved.len(), 1);
    assert_eq!(moved[0].to, A);
    assert!(matches!(moved[0].message, OutMessage::BallMoved { position } if position == pos(10000, 11000)));
    assert_eq!(cache.get(A, &TrackKey::Ball), Some(pos(10000, 11000)));
}

#[test]
fn offer_reports_only_changes() {
    let mut cache = PositionCache::new();
    let a = A.to_string();
    assert!(cache.offer(&a, &TrackKey::Player, pos(1000, 1000)));
    assert!(!cache.offer(&a, &TrackKey::Player, pos(1000, 1000)));
    assert!(cache.offer(&a, &TrackKey::Player, pos(1000, 2000)));
    assert!(cache.offer(&a, &TrackKey::Enemy(B.to_string()), pos(1000, 2000)));
    assert_eq!(cache.get(A, &TrackKey::Player), Some(pos(1000, 2000)));
    assert_eq!(cache.get(B, &TrackKey::Player), None);
}

#[test]
fn broadcasts_wait_for_the_response_interval() {
    let mut net = Network::new();
    let mut cache = PositionCache::new();
    net.handle_message(MessageKind::Connect, &connect("Alice"), &A.to_string());
    let snapshot = vec![body("ball", pos(250000, 250000)), body(A, pos(128000, 301000))];
    assert!(net.handle_telemetrics(&mut cache, telemetrics(snapshot.clone()), 31).is_empty());
    assert_eq!(cache.get(A, &TrackKey::Ball), None);
    let packets = net.handle_telemetrics(&mut cache, telemetrics(snapshot), 60);
    assert_eq!(packets.len(), 2);
}

#[test]
fn avatars_are_rounded_and_enemies_reported() {
    let mut net = Network::new();
    let mut cache = PositionCache::new();
    net.handle_message(MessageKind::Connect, &connect("Alice"), &A.to_string());
    net.handle_message(MessageKind::Connect, &connect("Bob"), &B.to_string());
    let snapshot = vec![body(A, pos(10400, 20600)), body(B, pos(-3500, 0))];
    let packets = net.handle_telemetrics(&mut cache, telemetrics(snapshot), 90);
    assert_eq!(packets.len(), 4);
    assert!(packets.iter().any(|o: &Outbound| o.to == A
        && matches!(o.message, OutMessage::PlayerMoved { position } if position == pos(10000, 21000))));
    assert!(packets.iter().any(|o: &Outbound| o.to == A
        && matches!(&o.message, OutMessage::EnemyMoved { name, position } if name == B && *position == pos(-4000, 0))));
    assert!(packets.iter().any(|o: &Outbound| o.to == B
        && matches!(&o.message, OutMessage::EnemyMoved { name, position } if name == A && *position == pos(10000, 21000))));
    let snapshot = vec![body(A, pos(10100, 20900)), body(B, pos(-3500, 0))];
    assert!(net.handle_telemetrics(&mut cache, telemetrics(snapshot), 120).is_empty());
}

#[test]
fn newcomer_learns_known_positions() {
    let mut net = Network::new();
    let mut cache = PositionCache::new();
    net.handle_message(MessageKind::Connect, &connect("Alice"), &A.to_string());
    cache.offer(&A.to_string(), &TrackKey::Player, pos(7000, 8000));
    net.handle_message(MessageKind::Connect, &connect("Bob"), &B.to_string());
    let ack = Command::AddPlayerAck { name: B.to_string(), nickname: "Bob".to_string(), translation: pos(128000, 301000) };
    let packets = net.handle_telemetrics(&mut cache, ack, 5);
    assert_eq!(packets.len(), 3);
    assert_eq!(packets[0].to, A);
    assert_eq!(packets[1].to, B);
    assert!(matches!(&packets[0].message, OutMessage::PlayerAddAck { name, team: None, .. } if name == B));
    assert_eq!(packets[2].to, B);
    assert!(matches!(&packets[2].message,
        OutMessage::PlayerAddAck { name, nickname, position, team: Some(TeamKind::SpecTeam) }
            if name == A && nickname == "Alice" && *position == pos(7000, 8000)));
}

#[test]
fn repeated_add_player_keeps_one_avatar() {
    let mut engine = PhysicsEngine::new();
    for _ in 0..2 {
        let acts = engine.handle_command(
            Command::AddPlayer { name: A.to_string(), nickname: "Alice".to_string() },
            &reading(vec![], vec![]),
        );
        assert_eq!(acts.len(), 2);
        assert!(matches!(&acts[0], PhysicsAction::SpawnAvatar { name, translation } if name == A && *translation == pos(128000, 301000)));
        assert!(matches!(&acts[1], PhysicsAction::Reply { command: Command::AddPlayerAck { translation, .. } } if *translation == pos(128000, 301000)));
    }
    assert_eq!(engine.insert_body(A.to_string(), 11), None);
    assert_eq!(engine.insert_body(A.to_string(), 12), Some(11));
    assert_eq!(engine.handle_of(A), Some(12));
    assert_eq!(engine.named_bodies().iter().filter(|b| b.name == A).count(), 1);
}

#[test]
fn disconnect_removes_avatar_and_cache_entries() {
    let mut engine = PhysicsEngine::new();
    engine.insert_body(A.to_string(), 3);
    engine.insert_body(B.to_string(), 4);
    let acts = engine.handle_command(Command::DisconnectPlayer { name: A.to_string() }, &reading(vec![], vec![]));
    assert_eq!(acts.len(), 2);
    assert!(matches!(acts[0], PhysicsAction::RemoveBody { handle: 3 }));
    assert!(matches!(&acts[1], PhysicsAction::Reply { command: Command::DisconnectPlayerAck { name } } if name == A));
    assert_eq!(engine.handle_of(A), None);
    assert_eq!(engine.handle_of(B), Some(4));

    let mut net = Network::new();
    let mut cache = PositionCache::new();
    net.handle_message(MessageKind::Connect, &connect("Bob"), &B.to_string());
    cache.offer(&A.to_string(), &TrackKey::Ball, pos(1, 1));
    cache.offer(&A.to_string(), &TrackKey::Player, pos(2, 2));
    cache.offer(&B.to_string(), &TrackKey::Ball, pos(1, 1));
    let packets = net.handle_telemetrics(&mut cache, Command::DisconnectPlayerAck { name: A.to_string() }, 1);
    assert_eq!(packets.len(), 1);
    assert!(matches!(&packets[0].message, OutMessage::PlayerDisconnectAck { name } if name == A));
    assert_eq!(cache.get(A, &TrackKey::Ball), None);
    assert_eq!(cache.get(A, &TrackKey::Player), None);
    assert_eq!(cache.get(B, &TrackKey::Ball), Some(pos(1, 1)));
}

#[test]
fn disconnect_of_unknown_avatar_does_nothing() {
    let mut engine = PhysicsEngine::new();
    let acts = engine.handle_command(Command::DisconnectPlayer { name: A.to_string() }, &reading(vec![], vec![]));
    assert!(acts.is_empty());
    assert_eq!(engine.remove_body(A), Err("Body not found"));
}

fn kick_at(avatar: Position) -> Vec<PhysicsAction> {
    let mut engine = PhysicsEngine::new();
    engine.insert_body("ball".to_string(), 1);
    engine.insert_body(A.to_string(), 2);
    let snapshot = vec![body("ball", pos(0, 0)), body(A, avatar)];
    engine.handle_command(Command::KickBall { name: A.to_string() }, &reading(snapshot, vec![]))
}

#[test]
fn kick_at_exactly_thirty_units_misses() {
    assert!(kick_at(pos(30000, 0)).is_empty());
    assert!(kick_at(pos(0, -30000)).is_empty());
}

#[test]
fn kick_just_inside_thirty_units_hits() {
    let acts = kick_at(pos(29999, 0));
    assert_eq!(acts.len(), 1);
    assert!(matches!(acts[0], PhysicsAction::ApplyImpulse { handle: 1, impulse } if impulse.x == -29999 * 500 && impulse.y == 0));
}

#[test]
fn kick_by_unknown_avatar_does_nothing() {
    let mut engine = PhysicsEngine::new();
    engine.insert_body("ball".to_string(), 1);
    let snapshot = vec![body("ball", pos(0, 0)), body(A, pos(1000, 0))];
    assert!(engine.handle_command(Command::KickBall { name: A.to_string() }, &reading(snapshot, vec![])).is_empty());
}

#[test]
fn moving_into_the_ball_pushes_it() {
    let mut engine = PhysicsEngine::new();
    engine.insert_body("ball".to_string(), 1);
    engine.insert_body(A.to_string(), 2);
    let snapshot = vec![body("ball", pos(100000, 100000)), body(A, pos(90000, 100000))];
    let velocity = pos(5000, 0);
    let acts = engine.handle_command(
        Command::MovePlayer { name: A.to_string(), velocity },
        &reading(snapshot.clone(), vec![A]),
    );
    assert_eq!(acts.len(), 2);
    assert!(matches!(acts[0], PhysicsAction::SetVelocity { handle: 2, velocity: v } if v == velocity));
    assert!(matches!(acts[1], PhysicsAction::ApplyImpulse { handle: 1, impulse } if impulse.x == 10000 * 100 && impulse.y == 0));
    let acts = engine.handle_command(Command::MoveEnemy { name: A.to_string(), velocity }, &reading(snapshot, vec![]));
    assert_eq!(acts.len(), 1);
}

#[test]
fn acknowledgements_and_snapshots_are_ignored_by_physics() {
    let mut engine = PhysicsEngine::new();
    let r = reading(vec![], vec![]);
    assert!(engine.handle_command(Command::DisconnectPlayerAck { name: A.to_string() }, &r).is_empty());
    assert!(engine.handle_command(telemetrics(vec![]), &r).is_empty());
    assert_eq!(Command::KickBall { name: A.to_string() }.kind(), arena_server::command::CommandKind::KickBall);
}

#[test]
fn connect_move_and_broadcast_end_to_end() {
    let mut net = Network::new();
    let mut engine = PhysicsEngine::new();
    let mut cache = PositionCache::new();
    engine.insert_body("ball".to_string(), 1);

    let cmds = net.handle_message(MessageKind::Connect, &connect("Alice"), &A.to_string());
    let mut spawned = false;
    let mut ack_packets = Vec::new();
    for cmd in cmds {
        for act in engine.handle_command(cmd, &reading(vec![], vec![])) {
            match act {
                PhysicsAction::SpawnAvatar { name, translation } => {
                    assert_eq!(translation, pos(128000, 301000));
                    engine.insert_body(name, 2);
                    spawned = true;
                }
                PhysicsAction::Reply { command } => {
                    ack_packets.extend(net.handle_telemetrics(&mut cache, command, 1));
                }
                _ => panic!("unexpected action"),
            }
        }
    }
    assert!(spawned);
    assert_eq!(ack_packets.len(), 1);
    assert_eq!(ack_packets[0].to, A);

    let first = vec![body("ball", pos(250000, 250000)), body(A, pos(128000, 301000))];
    let packets = net.handle_telemetrics(&mut cache, telemetrics(first.clone()), 30);
    assert_eq!(packets.len(), 2);

    let mut moved = action("PLAYER_MOVED");
    moved.position = Some(pos(5000, 0));
    let cmds = net.handle_message(MessageKind::Data, &moved, &A.to_string());
    assert_eq!(cmds.len(), 1);
    let acts = engine.handle_command(cmds.into_iter().next().unwrap(), &reading(first, vec![]));
    assert!(matches!(acts[..], [PhysicsAction::SetVelocity { handle: 2, velocity }] if velocity == pos(5000, 0)));

    let next = vec![body("ball", pos(250000, 250000)), body(A, pos(133000, 301000))];
    let packets = net.handle_telemetrics(&mut cache, telemetrics(next), 60);
    assert_eq!(packets.len(), 1);
    assert_eq!(packets[0].to, A);
    assert!(matches!(packets[0].message, OutMessage::PlayerMoved { position } if position == pos(133000, 301000)));
}

#[test]
fn payload_text_fields_are_read() {
    let text = r#"{"action":"CHANGE_PLAYER_TEAM","team":"BlueTeam","position":{"x":1.5,"y":2}}"#;
    let p = Payload::read(text, Some(pos(1500, 2000)));
    assert_eq!(p.action.as_deref(), Some("CHANGE_PLAYER_TEAM"));
    assert_eq!(p.team.as_deref(), Some("BlueTeam"));
    assert_eq!(p.nickname, None);
    assert_eq!(p.position, Some(pos(1500, 2000)));
    let c = Payload::read(r#"{"nickname":"Alice"}"#, None);
    assert_eq!(c.nickname.as_deref(), Some("Alice"));
    let bad = Payload::read("not json", None);
    assert!(bad.nickname.is_none() && bad.action.is_none() && bad.team.is_none());
    let wrong_shape = Payload::read(r#"{"action":7}"#, None);
    assert!(wrong_shape.action.is_none());
}

#[test]
fn the_ball_is_never_spawned_over_nor_removed() {
    let mut engine = PhysicsEngine::new();
    engine.insert_body("ball".to_string(), 1);
    let r = reading(vec![], vec![]);
    let add = Command::AddPlayer { name: "ball".to_string(), nickname: "Mallory".to_string() };
    assert!(engine.handle_command(add, &r).is_empty());
    assert!(engine.handle_command(Command::DisconnectPlayer { name: "ball".to_string() }, &r).is_empty());
    assert_eq!(engine.handle_of("ball"), Some(1));
}

#[test]
fn broadcast_period_and_cadence() {
    assert!(broadcast_due(0));
    assert!(broadcast_due(90));
    assert!(!broadcast_due(31));
    assert!(!period_over(120));
    assert!(period_over(121));
}

#[test]
fn outgoing_actions_are_named() {
    let p = pos(0, 0);
    assert_eq!(action_of(&OutMessage::BallMoved { position: p }), "BALL_MOVED");
    assert_eq!(action_of(&OutMessage::PlayerMoved { position: p }), "PLAYER_MOVED");
    assert_eq!(action_of(&OutMessage::EnemyMoved { name: A.to_string(), position: p }), "ENEMY_MOVED");
    assert_eq!(action_of(&OutMessage::PlayerDisconnectAck { name: A.to_string() }), "PLAYER_DISCONNECT_ACK");
    assert_eq!(action_of(&OutMessage::ChangePlayerTeamAck { name: A.to_string(), team: TeamKind::RedTeam }), "CHANGE_PLAYER_TEAM_ACK");
    let add = OutMessage::PlayerAddAck { name: A.to_string(), nickname: "Alice".to_string(), position: p, team: None };
    assert_eq!(action_of(&add), "PLAYER_ADD_ACK");
}

#[test]
fn ball_far_out_needs_no_rounding() {
    let mut net = Network::new();
    let mut cache = PositionCache::new();
    net.handle_message(MessageKind::Connect, &connect("Alice"), &A.to_string());
    let snapshot = vec![body("ball", pos(i32::MAX, i32::MIN))];
    let packets = net.handle_telemetrics(&mut cache, telemetrics(snapshot), 0);
    assert_eq!(packets.len(), 1);
    assert!(matches!(packets[0].message, OutMessage::BallMoved { position } if position == pos(i32::MAX, i32::MIN)));
}
