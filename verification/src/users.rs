//! Users of a demo, and the inputs that describe players and projectiles at one packet.

use vstd::prelude::*;
use crate::cache::{PlayerStats, ProjectileStats};
use crate::codes::{
    map_projectile_type, map_team, projectile_code, team_code, ProjectileType, Team,
};
use crate::snapshot::{PlayerSample, ProjectileSample};

verus! {

/// What is known of a user: name, user id, Steam id, entity and team.
#[derive(Debug)]
pub struct UserInfo {
    pub name: String,
    pub user_id: u16,
    pub steam_id: String,
    pub entity_id: u32,
    pub team: Team,
}

impl UserInfo {
    /// A copy of the user.
    pub fn duplicate(&self) -> (r: UserInfo)
        ensures
            r == *self,
    {
        UserInfo {
            name: self.name.clone(),
            user_id: self.user_id,
            steam_id: self.steam_id.clone(),
            entity_id: self.entity_id,
            team: self.team,
        }
    }
}

/// A copy of an optional user.
pub fn duplicate_user(u: &Option<UserInfo>) -> (r: Option<UserInfo>)
    ensures
        r == *u,
{
    match u {
        Some(info) => Some(info.duplicate()),
        None => None,
    }
}

/// The state of a medic: über charge and the entity being healed, if any.
#[derive(Clone, Copy, Debug, PartialEq, Eq, Structural)]
pub struct MedicState {
    pub charge: u8,
    pub target: Option<u32>,
}

/// A player as the game state shows it at one packet.
#[derive(Debug)]
pub struct PlayerInput<P> {
    pub entity: u32,
    pub pose: P,
    pub connected: bool,
    pub alive: bool,
    pub health: u16,
    pub class_id: u8,
    pub team: Team,
    pub medic: Option<MedicState>,
    pub flags: u32,
    pub info: Option<UserInfo>,
}

/// A projectile as the game state shows it at one packet.
#[derive(Clone, Copy, Debug)]
pub struct ProjectileInput<P> {
    pub entity: u32,
    pub pose: P,
    pub team: Team,
    pub ty: ProjectileType,
}

/// The cached sample of a player: health only while alive, über charge and heal
/// target only for medics (the target's entity id kept to its low 16 bits), team as
/// its code.
pub open spec fn player_sample<P>(p: PlayerInput<P>) -> PlayerSample<P> {
    PlayerSample {
        pose: p.pose,
        stats: PlayerStats {
            connected: p.connected,
            health: if p.alive {
                p.health
            } else {
                0
            },
            class_id: p.class_id,
            team_id: team_code(p.team),
            uber: match p.medic {
                Some(m) => m.charge as u16,
                None => 0,
            },
            heal_target: match p.medic {
                Some(m) => match m.target {
                    Some(t) => t as u16,
                    None => 0,
                },
                None => 0,
            },
            flags: p.flags,
        },
    }
}

/// The cached sample of a projectile: team and kind as their codes.
pub open spec fn projectile_sample<P>(p: ProjectileInput<P>) -> ProjectileSample<P> {
    ProjectileSample {
        pose: p.pose,
        stats: ProjectileStats { team_id: team_code(p.team), ty: projectile_code(p.ty) },
    }
}

/// Law: a player's sample keeps the input's connection whether or not it is alive
/// (being dead only zeroes its health), and keeps its pose, class and flags.
pub proof fn lemma_player_sample_keeps_connection<P>(p: PlayerInput<P>)
    ensures
        player_sample(p).stats.connected == p.connected,
        player_sample(p).pose == p.pose,
        player_sample(p).stats.class_id == p.class_id,
        player_sample(p).stats.flags == p.flags,
        player_sample(p).stats.team_id == team_code(p.team),
        p.alive ==> player_sample(p).stats.health == p.health,
        !p.alive ==> player_sample(p).stats.health == 0,
        p.medic is None ==> player_sample(p).stats.uber == 0 && player_sample(p).stats.heal_target
            == 0,
        p.medic matches Some(m) ==> player_sample(p).stats.uber == m.charge as u16,
        p.medic matches Some(m) ==> player_sample(p).stats.heal_target == match m.target {
            Some(t) => t as u16,
            None => 0u16,
        },
{
}

impl<P: Copy> PlayerInput<P> {
    /// Computes `player_sample`.
    pub fn sample(&self) -> (s: PlayerSample<P>)
        ensures
            s == player_sample(*self),
    {
        let health = if self.alive {
            self.health
        } else {
            0
        };
        let (uber, heal_target) = match self.medic {
            Some(m) => {
                let target: u16 = match m.target {
                    Some(t) => t as u16,
                    None => 0,
                };
                (m.charge as u16, target)
            },
            None => (0u16, 0u16),
        };
        PlayerSample {
            pose: self.pose,
            stats: PlayerStats {
                connected: self.connected,
                health,
                class_id: self.class_id,
                team_id: map_team(self.team),
                uber,
                heal_target,
                flags: self.flags,
            },
        }
    }
}

impl<P: Copy> ProjectileInput<P> {
    /// Computes `projectile_sample`.
    pub fn sample(&self) -> (s: ProjectileSample<P>)
        ensures
            s == projectile_sample(*self),
    {
        ProjectileSample {
            pose: self.pose,
            stats: ProjectileStats {
                team_id: map_team(self.team),
                ty: map_projectile_type(self.ty),
            },
        }
    }
}

} // verus!
