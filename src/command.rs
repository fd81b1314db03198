//! Teams, clients, and the commands that travel between the two actors.
use vstd::prelude::*;
use crate::geometry::Position;

verus! {

/// The side a client plays on.
#[derive(Clone, Copy, Debug, PartialEq, Eq, Structural)]
pub enum TeamKind {
    RedTeam,
    SpecTeam,
    BlueTeam,
}

/// The team that a wire name stands for, if any.
pub open spec fn team_of_name(s: Seq<char>) -> Option<TeamKind> {
    if s == "RedTeam"@ {
        Some(TeamKind::RedTeam)
    } else if s == "SpecTeam"@ {
        Some(TeamKind::SpecTeam)
    } else if s == "BlueTeam"@ {
        Some(TeamKind::BlueTeam)
    } else {
        None
    }
}

/// The wire name of a team.
pub open spec fn team_name(t: TeamKind) -> Seq<char> {
    match t {
        TeamKind::RedTeam => "RedTeam"@,
        TeamKind::SpecTeam => "SpecTeam"@,
        TeamKind::BlueTeam => "BlueTeam"@,
    }
}

/// Whether two strings hold the same characters.
pub fn str_eq(a: &str, b: &str) -> (r: bool)
    ensures
        r == (a@ == b@),
{
    let x = a.to_owned();
    let y = b.to_owned();
    x == y
}

impl TeamKind {
    /// Reads a team from its wire name.
    pub fn from_str(input: &str) -> (r: Result<TeamKind, ()>)
        ensures
            r matches Ok(t) ==> team_of_name(input@) == Some(t),
            r is Err ==> team_of_name(input@) is None,
    {
        proof {
            reveal_strlit("RedTeam");
            reveal_strlit("SpecTeam");
            reveal_strlit("BlueTeam");
        }
        if str_eq(input, "RedTeam") {
            Ok(TeamKind::RedTeam)
        } else if str_eq(input, "SpecTeam") {
            Ok(TeamKind::SpecTeam)
        } else if str_eq(input, "BlueTeam") {
            Ok(TeamKind::BlueTeam)
        } else {
            Err(())
        }
    }

    /// The wire name of this team.
    pub fn name(&self) -> (r: String)
        ensures
            r@ == team_name(*self),
    {
        proof {
            reveal_strlit("RedTeam");
            reveal_strlit("SpecTeam");
            reveal_strlit("BlueTeam");
        }
        match self {
            TeamKind::RedTeam => "RedTeam".to_owned(),
            TeamKind::SpecTeam => "SpecTeam".to_owned(),
            TeamKind::BlueTeam => "BlueTeam".to_owned(),
        }
    }
}

/// A connected client, known by its network address.
#[derive(Clone, Debug)]
pub struct Client {
    pub ip_address: String,
    pub nickname: String,
    pub team: TeamKind,
}

impl Client {
    pub fn assign_team(&mut self, team: TeamKind)
        ensures
            final(self).team == team,
            final(self).ip_address == old(self).ip_address,
            final(self).nickname == old(self).nickname,
    {
        self.team = team;
    }
}

/// The position of one named body in a telemetry snapshot.
#[derive(Clone, Debug)]
pub struct BodyPosition {
    pub name: String,
    pub position: Position,
}

/// The kind of a command, without its payload.
#[derive(Clone, Copy, Debug, PartialEq, Eq, Structural)]
pub enum CommandKind {
    AddPlayer,
    AddPlayerAck,
    ChangePlayerTeam,
    ChangePlayerTeamAck,
    DisconnectPlayer,
    DisconnectPlayerAck,
    MovePlayer,
    MoveEnemy,
    KickBall,
    Telemetrics,
}

/// A command on one of the two queues between the actors. `name` is always
/// the acting client's network address.
#[derive(Clone, Debug)]
pub enum Command {
    AddPlayer { name: String, nickname: String },
    AddPlayerAck { name: String, nickname: String, translation: Position },
    ChangePlayerTeam { name: String, team: TeamKind },
    ChangePlayerTeamAck { name: String, team: TeamKind },
    DisconnectPlayer { name: String },
    DisconnectPlayerAck { name: String },
    MovePlayer { name: String, velocity: Position },
    MoveEnemy { name: String, velocity: Position },
    KickBall { name: String },
    Telemetrics { bodies: Vec<BodyPosition> },
}

impl Command {
    pub open spec fn kind_spec(&self) -> CommandKind {
        match self {
            Command::AddPlayer { .. } => CommandKind::AddPlayer,
            Command::AddPlayerAck { .. } => CommandKind::AddPlayerAck,
            Command::ChangePlayerTeam { .. } => CommandKind::ChangePlayerTeam,
            Command::ChangePlayerTeamAck { .. } => CommandKind::ChangePlayerTeamAck,
            Command::DisconnectPlayer { .. } => CommandKind::DisconnectPlayer,
            Command::DisconnectPlayerAck { .. } => CommandKind::DisconnectPlayerAck,
            Command::MovePlayer { .. } => CommandKind::MovePlayer,
            Command::MoveEnemy { .. } => CommandKind::MoveEnemy,
            Command::KickBall { .. } => CommandKind::KickBall,
            Command::Telemetrics { .. } => CommandKind::Telemetrics,
        }
    }

    /// The kind of this command.
    pub fn kind(&self) -> (r: CommandKind)
        ensures
            r == self.kind_spec(),
    {
        match self {
            Command::AddPlayer { .. } => CommandKind::AddPlayer,
            Command::AddPlayerAck { .. } => CommandKind::AddPlayerAck,
            Command::ChangePlayerTeam { .. } => CommandKind::ChangePlayerTeam,
            Command::ChangePlayerTeamAck { .. } => CommandKind::ChangePlayerTeamAck,
            Command::DisconnectPlayer { .. } => CommandKind::DisconnectPlayer,
            Command::DisconnectPlayerAck { .. } => CommandKind::DisconnectPlayerAck,
            Command::MovePlayer { .. } => CommandKind::MovePlayer,
            Command::MoveEnemy { .. } => CommandKind::MoveEnemy,
            Command::KickBall { .. } => CommandKind::KickBall,
            Command::Telemetrics { .. } => CommandKind::Telemetrics,
        }
    }
}

} // verus!
