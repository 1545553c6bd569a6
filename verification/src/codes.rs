//! Small numeric and textual codes written into the caches.

use vstd::prelude::*;

verus! {

/// The team a player, projectile or round winner belongs to.
#[derive(Clone, Copy, Debug, PartialEq, Eq, Structural)]
pub enum Team {
    Other,
    Spectator,
    Red,
    Blue,
}

/// The kinds of projectile that the viewer tells apart; every other kind is `Other`.
#[derive(Clone, Copy, Debug, PartialEq, Eq, Structural)]
pub enum ProjectileType {
    Rocket,
    Pipe,
    Sticky,
    HealingArrow,
    Other,
}

/// The numeric team id used by the viewer: spectator 1, red 2, blue 3, anything else 0.
pub open spec fn team_code(team: Team) -> u8 {
    match team {
        Team::Red => 2,
        Team::Blue => 3,
        Team::Spectator => 1,
        Team::Other => 0,
    }
}

/// The team name used by the viewer.
pub open spec fn team_label(team: Team) -> Seq<char> {
    match team {
        Team::Red => "red"@,
        Team::Blue => "blue"@,
        Team::Spectator => "spectator"@,
        Team::Other => ""@,
    }
}

/// The numeric projectile kind used by the viewer.
pub open spec fn projectile_code(ty: ProjectileType) -> u8 {
    match ty {
        ProjectileType::Rocket => 1,
        ProjectileType::Pipe => 2,
        ProjectileType::Sticky => 3,
        ProjectileType::HealingArrow => 4,
        ProjectileType::Other => 0,
    }
}

/// Maps a projectile kind to its cache code.
pub fn map_projectile_type(ty: ProjectileType) -> (code: u8)
    ensures
        code == projectile_code(ty),
{
    match ty {
        ProjectileType::Rocket => 1,
        ProjectileType::Pipe => 2,
        ProjectileType::Sticky => 3,
        ProjectileType::HealingArrow => 4,
        _ => 0,
    }
}

/// Maps the team of a player or projectile to its cache code.
pub fn map_team(team: Team) -> (code: u8)
    ensures
        code == team_code(team),
{
    match team {
        Team::Red => 2,
        Team::Blue => 3,
        Team::Spectator => 1,
        _ => 0,
    }
}

/// Maps the team of a user to the id the viewer shows with deaths.
pub fn match_team_to_id(team: Team) -> (code: u8)
    ensures
        code == team_code(team),
{
    match team {
        Team::Red => 2,
        Team::Blue => 3,
        Team::Spectator => 1,
        _ => 0,
    }
}

/// Maps a team to the name the viewer shows.
pub fn match_team_to_str(team: Team) -> (name: &'static str)
    ensures
        name@ == team_label(team),
{
    match team {
        Team::Red => "red",
        Team::Blue => "blue",
        Team::Spectator => "spectator",
        _ => "",
    }
}

/// The packed metadata byte: class id in the low nibble, team id in the high nibble.
pub open spec fn meta_byte(class_id: u8, team_id: u8) -> int {
    (class_id % 16) + 16 * (team_id % 16)
}

/// Packs a class id and a team id into one byte; only the low four bits of each are kept.
pub fn pack_meta(class_id: u8, team_id: u8) -> (meta: u8)
    ensures
        meta == meta_byte(class_id, team_id),
        meta & 0x0f == class_id & 0x0f,
        meta >> 4u8 == team_id & 0x0f,
{
    let meta = (class_id & 0x0f) | ((team_id & 0x0f) << 4u8);
    assert(meta == (class_id % 16) + 16 * (team_id % 16)) by (bit_vector)
        requires
            meta == (class_id & 0x0f) | ((team_id & 0x0f) << 4u8),
    ;
    assert(meta & 0x0f == class_id & 0x0f) by (bit_vector)
        requires
            meta == (class_id & 0x0f) | ((team_id & 0x0f) << 4u8),
    ;
    assert(meta >> 4u8 == team_id & 0x0f) by (bit_vector)
        requires
            meta == (class_id & 0x0f) | ((team_id & 0x0f) << 4u8),
    ;
    meta
}

/// Player flag: the player is ducking.
pub const FL_DUCKING: u32 = 2;

/// Player flag: the player is in the ducking animation.
pub const FL_ANIMDUCKING: u32 = 4;

/// The duck state written to the cache: bit 0 for ducking, bit 1 for the ducking animation.
pub open spec fn duck_code(flags: u32) -> u8 {
    ((if flags & FL_DUCKING != 0 { 1int } else { 0int }) + (if flags & FL_ANIMDUCKING != 0 {
        2int
    } else {
        0int
    })) as u8
}

/// Computes the duck state of a player from its flags.
pub fn duck_state(flags: u32) -> (state: u8)
    ensures
        state == duck_code(flags),
        state < 4,
{
    let duck: u8 = if (flags & FL_DUCKING) != 0 { 1 } else { 0 };
    let anim_duck: u8 = if (flags & FL_ANIMDUCKING) != 0 { 1 } else { 0 };
    let state = duck | (anim_duck << 1u8);
    assert(state == duck + 2 * anim_duck) by (bit_vector)
        requires
            duck <= 1,
            anim_duck <= 1,
            state == duck | (anim_duck << 1u8),
    ;
    state
}

} // verus!
