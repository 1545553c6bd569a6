//! The decisions of cache building, packet by packet.
//!
//! A caller that reads a demo hands each packet's ticks and game state to a
//! `CacheSession` and carries out what it answers: `begin_packet` says whether the
//! packet becomes a snapshot, `stage` gives the players and projectiles their rows,
//! `advance` plans the writes that fill the ticks since the last snapshot, and the
//! caller computes each written pose and hands it back to `write_player` or
//! `write_projectile`.

use vstd::prelude::*;
use crate::keys::{indexes, lemma_entity_keys_ordered, lemma_indexes_push};
use std::collections::BTreeMap;
use crate::cache::{CacheBuilder, FixedVec, PlayerStats, ProjectileStats};
use crate::snapshot::{
    PlayerSample, ProjectileSample, CacheWrite, PlayerFill, ProjectileFill, GapEnds, gap_writes,
    first_player_writes, first_projectile_writes, padded, pad_samples, fill_player,
    fill_projectile, player_step_writes, projectile_step_writes, writes_ok,
    lemma_first_writes_ok, lemma_gap_writes_ok,
};
use crate::timeline::{
    TickBaseStats, WARMUP_FRAMES, bump, bump_counter, tick_base_of, is_tick_base, observed,
    lemma_observe_keeps_inv, snapshot_tick, snapshot_tick_of,
};
use crate::users::{
    UserInfo, PlayerInput, ProjectileInput, player_sample, projectile_sample,
};

verus! {

/// The state of cache building.
pub struct CacheSession<P> {
    pub tick_capacity: usize,
    pub started: bool,
    pub warmup_frames: u32,
    pub start_server_tick: u32,
    pub start_demo_tick: u32,
    pub start_tick_base: i64,
    pub server_tick_base: Option<i64>,
    pub stats: TickBaseStats,
    pub last_snapshot_tick: Option<u32>,
    pub last_players: Vec<Option<PlayerSample<P>>>,
    pub last_projectiles: Vec<Option<ProjectileSample<P>>>,
    pub max_written_tick: u32,
    /// The entity id of each player row, in the order the rows were made.
    pub player_ids: Vec<u32>,
    /// The row of each player entity.
    pub player_rows: BTreeMap<u32, usize>,
    /// The last user info seen for each player row.
    pub player_info: Vec<Option<UserInfo>>,
    pub cache: CacheBuilder,
}

/// The rows of entities after the entities of `entities` were seen in turn: each
/// entity not seen before gets the next row.
pub open spec fn slots_after(ids: Seq<u32>, entities: Seq<u32>) -> Seq<u32>
    decreases entities.len(),
{
    if entities.len() == 0 {
        ids
    } else {
        let prev = slots_after(ids, entities.drop_last());
        if prev.contains(entities.last()) {
            prev
        } else {
            prev.push(entities.last())
        }
    }
}

/// The entity ids of the inputs.
pub open spec fn player_entities<P>(players: Seq<PlayerInput<P>>) -> Seq<u32> {
    players.map_values(|p: PlayerInput<P>| p.entity)
}

/// The entity ids of the inputs.
pub open spec fn projectile_entities<P>(projectiles: Seq<ProjectileInput<P>>) -> Seq<u32> {
    projectiles.map_values(|p: ProjectileInput<P>| p.entity)
}

/// The sample of the last input of entity `entity`, if any.
pub open spec fn latest_player<P>(players: Seq<PlayerInput<P>>, entity: u32) -> Option<
    PlayerSample<P>,
>
    decreases players.len(),
{
    if players.len() == 0 {
        None
    } else if players.last().entity == entity {
        Some(player_sample(players.last()))
    } else {
        latest_player(players.drop_last(), entity)
    }
}

/// The sample of the last input of projectile entity `entity`, if any.
pub open spec fn latest_projectile<P>(projectiles: Seq<ProjectileInput<P>>, entity: u32) -> Option<
    ProjectileSample<P>,
>
    decreases projectiles.len(),
{
    if projectiles.len() == 0 {
        None
    } else if projectiles.last().entity == entity {
        Some(projectile_sample(projectiles.last()))
    } else {
        latest_projectile(projectiles.drop_last(), entity)
    }
}

/// The user info of the last input of entity `entity` that has one, and `before` if none has.
pub open spec fn latest_info<P>(
    players: Seq<PlayerInput<P>>,
    entity: u32,
    before: Option<UserInfo>,
) -> Option<UserInfo>
    decreases players.len(),
{
    if players.len() == 0 {
        before
    } else if players.last().entity == entity && players.last().info is Some {
        players.last().info
    } else {
        latest_info(players.drop_last(), entity, before)
    }
}

/// No two equal elements.
pub open spec fn distinct(s: Seq<u32>) -> bool {
    forall|i: int, j: int| 0 <= i < j < s.len() ==> s[i] != s[j]
}

proof fn lemma_latest_player_absent<P>(players: Seq<PlayerInput<P>>, entity: u32)
    requires
        forall|j: int| 0 <= j < players.len() ==> players[j].entity != entity,
    ensures
        latest_player(players, entity) is None,
    decreases players.len(),
{
    if players.len() > 0 {
        lemma_latest_player_absent(players.drop_last(), entity);
    }
}

proof fn lemma_latest_projectile_absent<P>(projectiles: Seq<ProjectileInput<P>>, entity: u32)
    requires
        forall|j: int| 0 <= j < projectiles.len() ==> projectiles[j].entity != entity,
    ensures
        latest_projectile(projectiles, entity) is None,
    decreases projectiles.len(),
{
    if projectiles.len() > 0 {
        lemma_latest_projectile_absent(projectiles.drop_last(), entity);
    }
}

proof fn lemma_latest_info_absent<P>(
    players: Seq<PlayerInput<P>>,
    entity: u32,
    before: Option<UserInfo>,
)
    requires
        forall|j: int| 0 <= j < players.len() ==> players[j].entity != entity,
    ensures
        latest_info(players, entity, before) == before,
    decreases players.len(),
{
    if players.len() > 0 {
        lemma_latest_info_absent(players.drop_last(), entity, before);
    }
}

/// The cache after rows were added: what was there stays, and the new rows are zero.
pub open spec fn cache_grown(new: CacheBuilder, old: CacheBuilder) -> bool {
    &&& new.tick_count == old.tick_count
    &&& old.player_count <= new.player_count
    &&& forall|i: int|
        0 <= i < old.player_count ==> {
            &&& #[trigger] new.positions@[i] == old.positions@[i]
            &&& new.view_angles@[i] == old.view_angles@[i]
            &&& new.health@[i] == old.health@[i]
            &&& new.meta@[i] == old.meta@[i]
            &&& new.connected@[i] == old.connected@[i]
            &&& new.uber@[i] == old.uber@[i]
            &&& new.heal_target@[i] == old.heal_target@[i]
            &&& new.duck@[i] == old.duck@[i]
        }
    &&& forall|i: int|
        old.player_count <= i < new.player_count ==> #[trigger] new.player_rows_zero(i)
    &&& old.projectiles@.len() <= new.projectiles@.len()
    &&& new.projectiles@.subrange(0, old.projectiles@.len() as int) == old.projectiles@
    &&& forall|i: int|
        0 <= i < old.projectiles@.len() ==> {
            &&& #[trigger] new.projectile_positions@[i] == old.projectile_positions@[i]
            &&& new.projectile_rotations@[i] == old.projectile_rotations@[i]
            &&& new.projectile_team@[i] == old.projectile_team@[i]
            &&& new.projectile_type@[i] == old.projectile_type@[i]
        }
    &&& forall|i: int|
        old.projectiles@.len() <= i < new.projectiles@.len()
            ==> #[trigger] new.projectile_rows_zero(i)
}

impl CacheBuilder {
    /// The rows of a newly added projectile are all zero.
    pub open spec fn projectile_rows_zero(&self, i: int) -> bool {
        &&& self.projectile_positions@[i]@ == crate::cache::zeros(3 * self.tick_count, 0u32)
        &&& self.projectile_rotations@[i]@ == crate::cache::zeros(3 * self.tick_count, 0u32)
        &&& self.projectile_team@[i]@ == crate::cache::zeros(
            crate::cache::sparse_len(self.tick_count, crate::cache::PROJECTILE_META_SHIFT) as int,
            0u8,
        )
        &&& self.projectile_type@[i]@ == crate::cache::zeros(
            crate::cache::sparse_len(self.tick_count, crate::cache::PROJECTILE_META_SHIFT) as int,
            0u8,
        )
    }
}

proof fn lemma_cache_grown_refl(c: CacheBuilder)
    ensures
        cache_grown(c, c),
{
    assert(c.projectiles@.subrange(0, c.projectiles@.len() as int) =~= c.projectiles@);
}

/// Law: growing the caches twice is growing them once; nothing written is lost.
pub proof fn lemma_cache_grown_trans(a: CacheBuilder, b: CacheBuilder, c: CacheBuilder)
    requires
        cache_grown(b, a),
        cache_grown(c, b),
    ensures
        cache_grown(c, a),
{
    assert forall|i: int| a.player_count <= i < c.player_count implies #[trigger] c.player_rows_zero(
        i,
    ) by {
        if i < b.player_count {
            assert(b.player_rows_zero(i));
            assert(c.positions@[i] == b.positions@[i]);
        }
    }
    assert forall|i: int|
        a.projectiles@.len() <= i < c.projectiles@.len() implies #[trigger] c.projectile_rows_zero(
        i,
    ) by {
        if i < b.projectiles@.len() {
            assert(b.projectile_rows_zero(i));
            assert(c.projectile_positions@[i] == b.projectile_positions@[i]);
        }
    }
    assert forall|i: int| 0 <= i < a.projectiles@.len() implies c.projectiles@[i]
        == a.projectiles@[i] by {
        assert(c.projectiles@.subrange(0, b.projectiles@.len() as int)[i] == b.projectiles@[i]);
        assert(b.projectiles@.subrange(0, a.projectiles@.len() as int)[i] == a.projectiles@[i]);
    }
    assert(c.projectiles@.subrange(0, a.projectiles@.len() as int) =~= a.projectiles@);
}

/// What a packet that has been looked at leaves of the start of caching.
pub struct PacketInfo {
    pub packet_tick: u32,
    pub server_tick: u32,
    /// Whether the match state has a start tick, or the server tick is known.
    pub match_started: bool,
    /// Whether the game state has any player.
    pub has_players: bool,
    /// Whether the world's boundaries are known (not all zero).
    pub world_ready: bool,
}

/// Counts of the cached timeline, once all packets are seen.
#[derive(Clone, Copy, Debug, PartialEq, Eq, Structural)]
pub struct CacheSummary {
    pub ticks: usize,
    pub start_tick: u32,
    pub start_demo_tick: u32,
    pub tick_base: i64,
    pub tick_base_first: i64,
    pub stats: TickBaseStats,
}

impl<P: Copy> CacheSession<P> {
    /// Well-formedness of the session.
    pub open spec fn wf(&self) -> bool {
        &&& self.cache.wf()
        &&& self.cache.tick_count == self.tick_capacity
        &&& 1 <= self.tick_capacity <= u32::MAX
        &&& self.player_ids@.len() == self.cache.player_count
        &&& self.player_info@.len() == self.cache.player_count
        &&& distinct(self.player_ids@)
        &&& indexes(self.player_rows@, self.player_ids@)
        &&& self.last_players@.len() <= self.cache.player_count
        &&& self.last_projectiles@.len() <= self.cache.projectiles@.len()
        &&& (self.last_snapshot_tick matches Some(t) ==> t < self.tick_capacity)
        &&& self.max_written_tick < self.tick_capacity
        &&& is_tick_base(self.start_tick_base)
        &&& (self.server_tick_base matches Some(b) ==> is_tick_base(b))
        &&& self.stats.inv(self.start_tick_base)
        &&& !self.started ==> self.last_snapshot_tick is None && self.stats.samples == 0
        &&& self.started ==> self.stats.samples > 0
        &&& (self.last_snapshot_tick matches Some(t) ==> self.max_written_tick == t)
        &&& (self.last_snapshot_tick is None ==> self.max_written_tick == 0)
    }

    /// The number of cached ticks of a demo whose header counts `header_ticks` ticks.
    pub open spec fn capacity_for(header_ticks: u32) -> usize {
        if header_ticks < 1 {
            1
        } else {
            header_ticks as usize
        }
    }

    /// A session for a demo whose header counts `header_ticks` ticks.
    pub fn new(header_ticks: u32) -> (s: CacheSession<P>)
        requires
            3 * Self::capacity_for(header_ticks) <= usize::MAX,
        ensures
            s.wf(),
            s.tick_capacity == Self::capacity_for(header_ticks),
            !s.started,
            s.warmup_frames == 0,
            s.server_tick_base is None,
            s.start_server_tick == 0,
            s.start_demo_tick == 0,
            s.start_tick_base == 0,
            s.stats == (TickBaseStats {
                samples: 0,
                changes: 0,
                last: None,
                base_min: 0,
                base_max: 0,
                skew_min: 0,
                skew_max: 0,
                skew_abs_max: 0,
            }),
            s.last_snapshot_tick is None,
            s.max_written_tick == 0,
            s.last_players@.len() == 0,
            s.last_projectiles@.len() == 0,
            s.player_ids@.len() == 0,
            s.cache.projectiles@.len() == 0,
    {
        let tick_capacity: usize = if header_ticks < 1 {
            1
        } else {
            header_ticks as usize
        };
        CacheSession {
            tick_capacity,
            started: false,
            warmup_frames: 0,
            start_server_tick: 0,
            start_demo_tick: 0,
            start_tick_base: 0,
            server_tick_base: None,
            stats: TickBaseStats::new(),
            last_snapshot_tick: None,
            last_players: Vec::new(),
            last_projectiles: Vec::new(),
            max_written_tick: 0,
            player_ids: Vec::new(),
            player_rows: BTreeMap::new(),
            player_info: Vec::new(),
            cache: CacheBuilder::new(tick_capacity),
        }
    }

    /// The fields that `begin_packet` leaves alone.
    pub open spec fn same_rows(&self, other: &CacheSession<P>) -> bool {
        &&& self.tick_capacity == other.tick_capacity
        &&& self.last_snapshot_tick == other.last_snapshot_tick
        &&& self.last_players == other.last_players
        &&& self.last_projectiles == other.last_projectiles
        &&& self.max_written_tick == other.max_written_tick
        &&& self.player_ids == other.player_ids
        &&& self.player_rows == other.player_rows
        &&& self.player_info == other.player_info
        &&& self.cache == other.cache
    }

    /// Looks at a packet's ticks. Until caching starts, packets with players are
    /// counted, and caching starts at the first packet that finds at least
    /// `WARMUP_FRAMES` of them counted and the world's boundaries known. Once caching
    /// has started, each packet's tick base goes into the statistics, and the answer
    /// is the internal tick at which the packet becomes a snapshot, if it does
    /// (see `snapshot_tick`). The first packet that has a match start or a server
    /// tick fixes the server tick base.
    pub fn begin_packet(&mut self, packet: PacketInfo) -> (internal_tick: Option<u32>)
        requires
            old(self).wf(),
        ensures
            final(self).wf(),
            final(self).same_rows(old(self)),
            final(self).server_tick_base == if old(self).server_tick_base is None && (
            packet.match_started || packet.server_tick != 0) {
                Some((packet.server_tick - packet.packet_tick) as i64)
            } else {
                old(self).server_tick_base
            },
            final(self).warmup_frames == if !old(self).started && packet.has_players {
                bump(old(self).warmup_frames)
            } else {
                old(self).warmup_frames
            },
            final(self).started == (old(self).started || (final(self).warmup_frames
                >= WARMUP_FRAMES && packet.world_ready)),
            !old(self).started && final(self).started ==> {
                &&& final(self).start_server_tick == packet.server_tick
                &&& final(self).start_demo_tick == packet.packet_tick
                &&& final(self).start_tick_base == packet.server_tick - packet.packet_tick
            },
            old(self).started || !final(self).started ==> {
                &&& final(self).start_server_tick == old(self).start_server_tick
                &&& final(self).start_demo_tick == old(self).start_demo_tick
                &&& final(self).start_tick_base == old(self).start_tick_base
            },
            !final(self).started ==> final(self).stats == old(self).stats && internal_tick is None,
            final(self).started ==> {
                &&& final(self).stats == observed(
                    old(self).stats,
                    (packet.server_tick - packet.packet_tick) as i64,
                    final(self).start_tick_base,
                )
                &&& internal_tick == snapshot_tick(
                    final(self).start_server_tick,
                    final(self).tick_capacity,
                    final(self).last_snapshot_tick,
                    packet.server_tick,
                )
            },
    {
        let tick_base_current = tick_base_of(packet.server_tick, packet.packet_tick);
        if self.server_tick_base.is_none() && (packet.match_started || packet.server_tick != 0) {
            self.server_tick_base = Some(tick_base_current);
        }
        if !self.started {
            if packet.has_players {
                self.warmup_frames = bump_counter(self.warmup_frames);
            }
            if self.warmup_frames >= WARMUP_FRAMES && packet.world_ready {
                self.started = true;
                self.start_server_tick = packet.server_tick;
                self.start_demo_tick = packet.packet_tick;
                self.start_tick_base = tick_base_current;
            } else {
                return None;
            }
        }
        proof {
            lemma_observe_keeps_inv(self.stats, tick_base_current, self.start_tick_base);
        }
        self.stats.observe(tick_base_current, self.start_tick_base);
        snapshot_tick_of(
            self.start_server_tick,
            self.tick_capacity,
            self.last_snapshot_tick,
            packet.server_tick,
        )
    }
    /// The row of player entity `entity`: the existing one, or a new one with zeroed
    /// cache rows and no user info.
    fn player_slot(&mut self, entity: u32) -> (index: usize)
        requires
            old(self).wf(),
            old(self).cache.player_count < usize::MAX,
        ensures
            final(self).wf(),
            final(self).player_ids@ == if old(self).player_ids@.contains(entity) {
                old(self).player_ids@
            } else {
                old(self).player_ids@.push(entity)
            },
            index < final(self).player_ids@.len(),
            final(self).player_ids@[index as int] == entity,
            final(self).player_info@ == if old(self).player_ids@.contains(entity) {
                old(self).player_info@
            } else {
                old(self).player_info@.push(None)
            },
            cache_grown(final(self).cache, old(self).cache),
            final(self).cache.same_projectiles(&old(self).cache),
            final(self).tick_capacity == old(self).tick_capacity,
            final(self).started == old(self).started,
            final(self).warmup_frames == old(self).warmup_frames,
            final(self).start_server_tick == old(self).start_server_tick,
            final(self).start_demo_tick == old(self).start_demo_tick,
            final(self).start_tick_base == old(self).start_tick_base,
            final(self).server_tick_base == old(self).server_tick_base,
            final(self).stats == old(self).stats,
            final(self).last_snapshot_tick == old(self).last_snapshot_tick,
            final(self).last_players == old(self).last_players,
            final(self).last_projectiles == old(self).last_projectiles,
            final(self).max_written_tick == old(self).max_written_tick,
    {
        proof {
            lemma_entity_keys_ordered();
        }
        if let Some(index) = self.player_rows.get(&entity) {
            proof {
                lemma_cache_grown_refl(self.cache);
            }
            return *index;
        }
        assert(!self.player_ids@.contains(entity));
        let next = self.player_ids.len();
        let ghost before = *self;
        proof {
            lemma_indexes_push(self.player_rows@, self.player_ids@, entity);
        }
        self.player_ids.push(entity);
        self.player_rows.insert(entity, next);
        self.player_info.push(None);
        self.cache.ensure_player(next);
        assert forall|a: int, b: int| 0 <= a < b < self.player_ids@.len() implies self.player_ids@[a]
            != self.player_ids@[b] by {
            if b == next {
                assert(before.player_ids@[a] == self.player_ids@[a]);
            }
        }
        assert(self.cache.projectiles@.subrange(0, before.cache.projectiles@.len() as int)
            =~= before.cache.projectiles@);
        next
    }

    /// The samples of the players and projectiles of one packet, by row, once caching
    /// has started (only packets that become snapshots are staged). Each entity
    /// not seen before gets the next row (see `slots_after`), with zeroed cache rows;
    /// a row holds the sample of the last input of its entity (see `latest_player`,
    /// `latest_projectile`), and nothing when the packet has none; the user info of a
    /// row becomes that of the last input of its entity that has one.
    pub fn stage(&mut self, players: &Vec<PlayerInput<P>>, projectiles: &Vec<ProjectileInput<P>>) -> (samples: (
        Vec<Option<PlayerSample<P>>>,
        Vec<Option<ProjectileSample<P>>>,
    ))
        requires
            old(self).wf(),
            old(self).started,
            old(self).cache.player_count + players@.len() < usize::MAX,
        ensures
            final(self).wf(),
            final(self).player_ids@ == slots_after(
                old(self).player_ids@,
                player_entities(players@),
            ),
            final(self).cache.projectiles@ == slots_after(
                old(self).cache.projectiles@,
                projectile_entities(projectiles@),
            ),
            samples.0@.len() == final(self).player_ids@.len(),
            forall|i: int|
                0 <= i < final(self).player_ids@.len() ==> #[trigger] samples.0@[i]
                    == latest_player(players@, final(self).player_ids@[i]),
            samples.1@.len() == final(self).cache.projectiles@.len(),
            forall|i: int|
                0 <= i < final(self).cache.projectiles@.len() ==> #[trigger] samples.1@[i]
                    == latest_projectile(projectiles@, final(self).cache.projectiles@[i]),
            forall|i: int|
                0 <= i < final(self).player_ids@.len() ==> #[trigger] final(self).player_info@[i]
                    == latest_info(
                    players@,
                    final(self).player_ids@[i],
                    if i < old(self).player_info@.len() {
                        old(self).player_info@[i]
                    } else {
                        None
                    },
                ),
            cache_grown(final(self).cache, old(self).cache),
            final(self).tick_capacity == old(self).tick_capacity,
            final(self).started == old(self).started,
            final(self).warmup_frames == old(self).warmup_frames,
            final(self).start_server_tick == old(self).start_server_tick,
            final(self).start_demo_tick == old(self).start_demo_tick,
            final(self).start_tick_base == old(self).start_tick_base,
            final(self).server_tick_base == old(self).server_tick_base,
            final(self).stats == old(self).stats,
            final(self).last_snapshot_tick == old(self).last_snapshot_tick,
            final(self).last_players == old(self).last_players,
            final(self).last_projectiles == old(self).last_projectiles,
            final(self).max_written_tick == old(self).max_written_tick,
    {
        let ghost start = *self;
        let mut current_players: Vec<Option<PlayerSample<P>>> = Vec::new();
        pad_samples(&mut current_players, self.player_ids.len());
        proof {
            lemma_cache_grown_refl(self.cache);
            assert(slots_after(start.player_ids@, player_entities(players@.take(0)))
                == start.player_ids@);
        }
        let mut k: usize = 0;
        while k < players.len()
            invariant
                self.wf(),
                k <= players@.len(),
                start.cache.player_count + players@.len() < usize::MAX,
                start.player_ids@.len() == start.cache.player_count,
                start.player_info@.len() == start.cache.player_count,
                self.player_ids@.len() <= start.player_ids@.len() + k,
                self.player_ids@ == slots_after(
                    start.player_ids@,
                    player_entities(players@.take(k as int)),
                ),
                start.player_ids@.len() <= self.player_ids@.len(),
                self.player_ids@.subrange(0, start.player_ids@.len() as int) == start.player_ids@,
                forall|j: int| 0 <= j < k ==> self.player_ids@.contains(#[trigger] players@[j].entity),
                current_players@.len() == self.player_ids@.len(),
                forall|i: int|
                    0 <= i < self.player_ids@.len() ==> #[trigger] current_players@[i]
                        == latest_player(players@.take(k as int), self.player_ids@[i]),
                forall|i: int|
                    0 <= i < self.player_ids@.len() ==> #[trigger] self.player_info@[i]
                        == latest_info(
                        players@.take(k as int),
                        self.player_ids@[i],
                        if i < start.player_info@.len() {
                            start.player_info@[i]
                        } else {
                            None
                        },
                    ),
                cache_grown(self.cache, start.cache),
                self.cache.projectiles == start.cache.projectiles,
                self.cache.same_projectiles(&start.cache),
                self.tick_capacity == start.tick_capacity,
                self.started == start.started,
                self.warmup_frames == start.warmup_frames,
                self.start_server_tick == start.start_server_tick,
                self.start_demo_tick == start.start_demo_tick,
                self.start_tick_base == start.start_tick_base,
                self.server_tick_base == start.server_tick_base,
                self.stats == start.stats,
                self.last_snapshot_tick == start.last_snapshot_tick,
                self.last_players == start.last_players,
                self.last_projectiles == start.last_projectiles,
                self.max_written_tick == start.max_written_tick,
            decreases players@.len() - k,
        {
            let ghost before = *self;
            let ghost before_current = current_players@;
            let ghost taken = players@.take(k as int);
            let ghost taken_next = players@.take(k + 1);
            let entity = players[k].entity;
            proof {
                assert(taken_next.drop_last() =~= taken);
                assert(player_entities(taken_next).drop_last() =~= player_entities(taken));
                assert(player_entities(taken_next).last() == entity);
            }
            let index = self.player_slot(entity);
            proof {
                lemma_cache_grown_trans(start.cache, before.cache, self.cache);
            }
            if current_players.len() < self.player_ids.len() {
                current_players.push(None);
            }
            let sample = players[k].sample();
            current_players.set(index, Some(sample));
            match &players[k].info {
                Some(info) => {
                    self.player_info.set(index, Some(info.duplicate()));
                },
                None => {},
            }
            proof {
                let new_slot = !before.player_ids@.contains(entity);
                if new_slot {
                    assert forall|j: int| 0 <= j < taken.len() implies taken[j].entity != entity by {
                        assert(before.player_ids@.contains(players@[j].entity));
                    }
                    lemma_latest_player_absent(taken, entity);
                    lemma_latest_info_absent(taken, entity, None);
                }
                assert forall|i: int| 0 <= i < self.player_ids@.len() implies #[trigger] current_players@[i]
                    == latest_player(taken_next, self.player_ids@[i]) by {
                    if i != index {
                        assert(self.player_ids@[i] != entity);
                    }
                }
                assert forall|i: int| 0 <= i < self.player_ids@.len() implies #[trigger] self.player_info@[i]
                    == latest_info(
                    taken_next,
                    self.player_ids@[i],
                    if i < start.player_info@.len() {
                        start.player_info@[i]
                    } else {
                        None
                    },
                ) by {
                    if i != index {
                        assert(self.player_ids@[i] != entity);
                    } else if new_slot {
                        assert(i >= start.player_info@.len());
                    }
                }
                assert forall|j: int| 0 <= j < k + 1 implies self.player_ids@.contains(
                    #[trigger] players@[j].entity,
                ) by {
                    if j < k {
                        let w = choose|w: int| 0 <= w < before.player_ids@.len() && before.player_ids@[w] == players@[j].entity;
                        assert(self.player_ids@[w] == players@[j].entity);
                    } else {
                        assert(self.player_ids@[index as int] == entity);
                    }
                }
                assert(self.player_ids@.subrange(0, start.player_ids@.len() as int)
                    =~= start.player_ids@) by {
                    assert forall|q: int| 0 <= q < start.player_ids@.len() implies self.player_ids@[q]
                        == start.player_ids@[q] by {
                        assert(before.player_ids@.subrange(0, start.player_ids@.len() as int)[q]
                            == start.player_ids@[q]);
                    }
                }
            }
            k = k + 1;
        }
        proof {
            assert(players@.take(players@.len() as int) =~= players@);
        }
        let ghost mid = *self;
        let mut current_projectiles: Vec<Option<ProjectileSample<P>>> = Vec::new();
        pad_samples(&mut current_projectiles, self.cache.projectiles.len());
        proof {
            lemma_cache_grown_refl(self.cache);
            assert(slots_after(mid.cache.projectiles@, projectile_entities(projectiles@.take(0)))
                == mid.cache.projectiles@);
        }
        let mut k: usize = 0;
        while k < projectiles.len()
            invariant
                self.wf(),
                k <= projectiles@.len(),
                self.cache.projectiles@ == slots_after(
                    mid.cache.projectiles@,
                    projectile_entities(projectiles@.take(k as int)),
                ),
                forall|j: int|
                    0 <= j < k ==> self.cache.projectiles@.contains(#[trigger] projectiles@[j].entity),
                current_projectiles@.len() == self.cache.projectiles@.len(),
                forall|i: int|
                    0 <= i < self.cache.projectiles@.len() ==> #[trigger] current_projectiles@[i]
                        == latest_projectile(projectiles@.take(k as int), self.cache.projectiles@[i]),
                cache_grown(self.cache, mid.cache),
                self.cache.same_players(&mid.cache),
                self.player_ids == mid.player_ids,
                self.player_rows == mid.player_rows,
                self.player_info == mid.player_info,
                self.tick_capacity == mid.tick_capacity,
                self.started == mid.started,
                self.warmup_frames == mid.warmup_frames,
                self.start_server_tick == mid.start_server_tick,
                self.start_demo_tick == mid.start_demo_tick,
                self.start_tick_base == mid.start_tick_base,
                self.server_tick_base == mid.server_tick_base,
                self.stats == mid.stats,
                self.last_snapshot_tick == mid.last_snapshot_tick,
                self.last_players == mid.last_players,
                self.last_projectiles == mid.last_projectiles,
                self.max_written_tick == mid.max_written_tick,
            decreases projectiles@.len() - k,
        {
            let ghost before = *self;
            let ghost taken = projectiles@.take(k as int);
            let ghost taken_next = projectiles@.take(k + 1);
            let entity = projectiles[k].entity;
            proof {
                assert(taken_next.drop_last() =~= taken);
                assert(projectile_entities(taken_next).drop_last() =~= projectile_entities(taken));
                assert(projectile_entities(taken_next).last() == entity);
            }
            let index = self.cache.ensure_projectile(entity);
            proof {
                if before.cache.projectiles@.contains(entity) {
                    lemma_cache_grown_refl(before.cache);
                    assert(self.cache == before.cache);
                } else {
                    assert forall|i: int|
                        before.cache.projectiles@.len() <= i < self.cache.projectiles@.len() implies #[trigger] self.cache.projectile_rows_zero(
                        i,
                    ) by {
                        assert(i == index);
                    }
                    assert forall|i: int| 0 <= i < before.cache.projectiles@.len() implies {
                        &&& #[trigger] self.cache.projectile_positions@[i]
                            == before.cache.projectile_positions@[i]
                        &&& self.cache.projectile_rotations@[i] == before.cache.projectile_rotations@[i]
                        &&& self.cache.projectile_team@[i] == before.cache.projectile_team@[i]
                        &&& self.cache.projectile_type@[i] == before.cache.projectile_type@[i]
                    } by {
                        assert(self.cache.projectile_positions@.subrange(0, index as int)[i]
                            == before.cache.projectile_positions@[i]);
                        assert(self.cache.projectile_rotations@.subrange(0, index as int)[i]
                            == before.cache.projectile_rotations@[i]);
                        assert(self.cache.projectile_team@.subrange(0, index as int)[i]
                            == before.cache.projectile_team@[i]);
                        assert(self.cache.projectile_type@.subrange(0, index as int)[i]
                            == before.cache.projectile_type@[i]);
                    }
                    assert(self.cache.projectiles@.subrange(0, before.cache.projectiles@.len() as int)
                        =~= before.cache.projectiles@);
                    assert(self.cache.same_players(&before.cache));
                    assert forall|i: int| 0 <= i < before.cache.player_count implies {
                        &&& #[trigger] self.cache.positions@[i] == before.cache.positions@[i]
                        &&& self.cache.view_angles@[i] == before.cache.view_angles@[i]
                        &&& self.cache.health@[i] == before.cache.health@[i]
                        &&& self.cache.meta@[i] == before.cache.meta@[i]
                        &&& self.cache.connected@[i] == before.cache.connected@[i]
                        &&& self.cache.uber@[i] == before.cache.uber@[i]
                        &&& self.cache.heal_target@[i] == before.cache.heal_target@[i]
                        &&& self.cache.duck@[i] == before.cache.duck@[i]
                    } by {}
                    assert(cache_grown(self.cache, before.cache));
                }
                lemma_cache_grown_trans(mid.cache, before.cache, self.cache);
            }
            if current_projectiles.len() < self.cache.projectiles.len() {
                current_projectiles.push(None);
            }
            let sample = projectiles[k].sample();
            current_projectiles.set(index, Some(sample));
            proof {
                let new_slot = !before.cache.projectiles@.contains(entity);
                if new_slot {
                    assert forall|j: int| 0 <= j < taken.len() implies taken[j].entity != entity by {
                        assert(before.cache.projectiles@.contains(projectiles@[j].entity));
                    }
                    lemma_latest_projectile_absent(taken, entity);
                }
                assert forall|i: int| 0 <= i < self.cache.projectiles@.len() implies #[trigger] current_projectiles@[i]
                    == latest_projectile(taken_next, self.cache.projectiles@[i]) by {
                    if i != index {
                        assert(self.cache.projectiles@[i] != entity);
                    }
                }
                assert forall|j: int| 0 <= j < k + 1 implies self.cache.projectiles@.contains(
                    #[trigger] projectiles@[j].entity,
                ) by {
                    if j < k {
                        let w = choose|w: int| 0 <= w < before.cache.projectiles@.len() && before.cache.projectiles@[w] == projectiles@[j].entity;
                        assert(self.cache.projectiles@[w] == projectiles@[j].entity);
                    } else {
                        assert(self.cache.projectiles@[index as int] == entity);
                    }
                }
            }
            k = k + 1;
        }
        proof {
            assert(projectiles@.take(projectiles@.len() as int) =~= projectiles@);
            lemma_cache_grown_trans(start.cache, mid.cache, self.cache);
        }
        (current_players, current_projectiles)
    }

    /// The writes that fill the cache up to the snapshot at `internal_tick`, given
    /// the samples of that snapshot by row and, for each row present at both ends,
    /// whether it moved too far to be blended. The first snapshot writes its own
    /// tick (connected players and all projectiles); each later one fills every tick
    /// after the previous snapshot, up to and including its own (see `gap_writes`),
    /// rows missing from the previous snapshot counting as empty.
    pub open spec fn planned_writes(
        &self,
        internal_tick: u32,
        players: Seq<Option<PlayerSample<P>>>,
        projectiles: Seq<Option<ProjectileSample<P>>>,
        player_teleports: Seq<bool>,
        projectile_teleports: Seq<bool>,
    ) -> Seq<CacheWrite<P>> {
        match self.last_snapshot_tick {
            None => first_player_writes(internal_tick, players, players.len() as int)
                + first_projectile_writes(internal_tick, projectiles, projectiles.len() as int),
            Some(prev) => gap_writes(
                prev,
                (internal_tick - prev) as u32,
                GapEnds {
                    last_players: padded(self.last_players@, players.len() as int),
                    players,
                    player_teleports,
                    last_projectiles: padded(self.last_projectiles@, projectiles.len() as int),
                    projectiles,
                    projectile_teleports,
                },
                internal_tick - prev,
            ),
        }
    }

    /// Moves to the snapshot at `internal_tick` (as answered by `begin_packet`), with
    /// the samples of that snapshot by row (as answered by `stage`), and answers the
    /// writes that fill the cache up to it (see `planned_writes`), in order. The
    /// snapshot becomes the last one, and the last written tick becomes the
    /// snapshot's when it is later.
    pub fn advance(
        &mut self,
        internal_tick: u32,
        players: Vec<Option<PlayerSample<P>>>,
        projectiles: Vec<Option<ProjectileSample<P>>>,
        player_teleports: &Vec<bool>,
        projectile_teleports: &Vec<bool>,
    ) -> (writes: Vec<CacheWrite<P>>)
        requires
            old(self).wf(),
            old(self).started,
            internal_tick < old(self).tick_capacity,
            old(self).last_snapshot_tick matches Some(prev) ==> prev < internal_tick,
            players@.len() == old(self).cache.player_count,
            projectiles@.len() == old(self).cache.projectiles@.len(),
            player_teleports@.len() == players@.len(),
            projectile_teleports@.len() == projectiles@.len(),
        ensures
            final(self).wf(),
            writes@ == old(self).planned_writes(
                internal_tick,
                players@,
                projectiles@,
                player_teleports@,
                projectile_teleports@,
            ),
            writes_ok(
                writes@,
                match old(self).last_snapshot_tick {
                    Some(prev) => prev + 1,
                    None => internal_tick as int,
                },
                internal_tick as int,
                players@.len() as int,
                projectiles@.len() as int,
            ),
            final(self).last_snapshot_tick == Some(internal_tick),
            final(self).last_players@ == players@,
            final(self).last_projectiles@ == projectiles@,
            final(self).max_written_tick == match old(self).last_snapshot_tick {
                None => internal_tick,
                Some(_) => if old(self).max_written_tick >= internal_tick {
                    old(self).max_written_tick
                } else {
                    internal_tick
                },
            },
            final(self).cache == old(self).cache,
            final(self).player_ids == old(self).player_ids,
            final(self).player_rows == old(self).player_rows,
            final(self).player_info == old(self).player_info,
            final(self).tick_capacity == old(self).tick_capacity,
            final(self).started == old(self).started,
            final(self).warmup_frames == old(self).warmup_frames,
            final(self).start_server_tick == old(self).start_server_tick,
            final(self).start_demo_tick == old(self).start_demo_tick,
            final(self).start_tick_base == old(self).start_tick_base,
            final(self).server_tick_base == old(self).server_tick_base,
            final(self).stats == old(self).stats,
    {
        let ghost start = *self;
        let n = players.len();
        let m = projectiles.len();
        pad_samples(&mut self.last_players, n);
        pad_samples(&mut self.last_projectiles, m);
        let mut writes: Vec<CacheWrite<P>> = Vec::new();
        match self.last_snapshot_tick {
            None => {
                let mut index: usize = 0;
                while index < n
                    invariant
                        index <= n,
                        n == players@.len(),
                        writes@ == first_player_writes(internal_tick, players@, index as int),
                    decreases n - index,
                {
                    if let Some(sample) = players[index] {
                        if sample.stats.connected {
                            writes.push(
                                CacheWrite::Player {
                                    tick: internal_tick,
                                    index,
                                    fill: PlayerFill { sample, blend: None },
                                },
                            );
                        }
                    }
                    index = index + 1;
                }
                let ghost player_part = writes@;
                let mut index: usize = 0;
                while index < m
                    invariant
                        index <= m,
                        m == projectiles@.len(),
                        writes@ == player_part + first_projectile_writes(
                            internal_tick,
                            projectiles@,
                            index as int,
                        ),
                    decreases m - index,
                {
                    if let Some(sample) = projectiles[index] {
                        writes.push(
                            CacheWrite::Projectile {
                                tick: internal_tick,
                                index,
                                fill: ProjectileFill { sample, blend: None },
                            },
                        );
                    }
                    proof {
                        assert(player_part + first_projectile_writes(
                            internal_tick,
                            projectiles@,
                            index + 1,
                        ) =~= writes@);
                    }
                    index = index + 1;
                }
                proof {
                    lemma_first_writes_ok(internal_tick, players@, projectiles@, n as int, m as int);
                }
                self.max_written_tick = internal_tick;
            },
            Some(prev_tick) => {
                let gap = internal_tick - prev_tick;
                let ghost ends = GapEnds {
                    last_players: padded(start.last_players@, n as int),
                    players: players@,
                    player_teleports: player_teleports@,
                    last_projectiles: padded(start.last_projectiles@, m as int),
                    projectiles: projectiles@,
                    projectile_teleports: projectile_teleports@,
                };
                let mut step: u32 = 1;
                while step <= gap
                    invariant
                        1 <= step <= gap + 1,
                        prev_tick < internal_tick,
                        gap == internal_tick - prev_tick,
                        internal_tick < self.tick_capacity,
                        self.tick_capacity == start.tick_capacity,
                        1 <= self.tick_capacity <= u32::MAX,
                        n == players@.len(),
                        m == projectiles@.len(),
                        player_teleports@.len() == n,
                        projectile_teleports@.len() == m,
                        self.last_players@ == ends.last_players,
                        self.last_projectiles@ == ends.last_projectiles,
                        ends.players == players@,
                        ends.projectiles == projectiles@,
                        ends.player_teleports == player_teleports@,
                        ends.projectile_teleports == projectile_teleports@,
                        ends.last_players.len() == n,
                        ends.last_projectiles.len() == m,
                        writes@ == gap_writes(prev_tick, gap, ends, step - 1),
                        self.cache == start.cache,
                        self.player_ids == start.player_ids,
                        self.player_rows == start.player_rows,
                        self.player_info == start.player_info,
                        self.started == start.started,
                        self.warmup_frames == start.warmup_frames,
                        self.start_server_tick == start.start_server_tick,
                        self.start_demo_tick == start.start_demo_tick,
                        self.start_tick_base == start.start_tick_base,
                        self.server_tick_base == start.server_tick_base,
                        self.stats == start.stats,
                        self.last_snapshot_tick == start.last_snapshot_tick,
                        self.max_written_tick == if step == 1 {
                            start.max_written_tick
                        } else if start.max_written_tick >= prev_tick + step - 1 {
                            start.max_written_tick
                        } else {
                            (prev_tick + step - 1) as u32
                        },
                    decreases gap + 1 - step,
                {
                    let tick = prev_tick + step;
                    let ghost before_step = writes@;
                    let ghost at_step = *self;
                    let mut index: usize = 0;
                    while index < n
                        invariant
                            index <= n,
                            n == players@.len(),
                            player_teleports@.len() == n,
                            *self == at_step,
                            self.last_players@ == ends.last_players,
                            ends.last_players.len() == n,
                            writes@ == before_step + player_step_writes(
                                tick,
                                step,
                                gap,
                                ends.last_players,
                                players@,
                                player_teleports@,
                                index as int,
                            ),
                        decreases n - index,
                    {
                        let fill = fill_player(
                            self.last_players[index],
                            players[index],
                            player_teleports[index],
                            step,
                            gap,
                        );
                        if let Some(fill) = fill {
                            writes.push(CacheWrite::Player { tick, index, fill });
                        }
                        proof {
                            assert(before_step + player_step_writes(
                                tick,
                                step,
                                gap,
                                ends.last_players,
                                players@,
                                player_teleports@,
                                index + 1,
                            ) =~= writes@);
                        }
                        index = index + 1;
                    }
                    let ghost after_players = writes@;
                    let mut index: usize = 0;
                    while index < m
                        invariant
                            index <= m,
                            m == projectiles@.len(),
                            projectile_teleports@.len() == m,
                            *self == at_step,
                            self.last_projectiles@ == ends.last_projectiles,
                            ends.last_projectiles.len() == m,
                            writes@ == after_players + projectile_step_writes(
                                tick,
                                step,
                                gap,
                                ends.last_projectiles,
                                projectiles@,
                                projectile_teleports@,
                                index as int,
                            ),
                        decreases m - index,
                    {
                        let fill = fill_projectile(
                            self.last_projectiles[index],
                            projectiles[index],
                            projectile_teleports[index],
                            step,
                            gap,
                        );
                        if let Some(fill) = fill {
                            writes.push(CacheWrite::Projectile { tick, index, fill });
                        }
                        proof {
                            assert(after_players + projectile_step_writes(
                                tick,
                                step,
                                gap,
                                ends.last_projectiles,
                                projectiles@,
                                projectile_teleports@,
                                index + 1,
                            ) =~= writes@);
                        }
                        index = index + 1;
                    }
                    if tick > self.max_written_tick {
                        self.max_written_tick = tick;
                    }
                    proof {
                        assert(writes@ =~= gap_writes(prev_tick, gap, ends, step as int));
                    }
                    step = step + 1;
                }
                proof {
                    lemma_gap_writes_ok(prev_tick, gap, ends, gap as int);
                }
            },
        }
        self.last_snapshot_tick = Some(internal_tick);
        self.last_players = players;
        self.last_projectiles = projectiles;
        writes
    }

    /// Writes one tick of a connected player row `index` into the cache: a tick up
    /// to the last snapshot, as `advance` plans it.
    pub fn write_player(
        &mut self,
        tick: u32,
        index: usize,
        position: FixedVec,
        view: FixedVec,
        stats: PlayerStats,
    )
        requires
            old(self).wf(),
            old(self).last_snapshot_tick matches Some(t) && tick <= t,
            index < old(self).cache.player_count,
            stats.connected,
        ensures
            final(self).wf(),
            final(self).cache.player_written(
                &old(self).cache,
                tick as usize,
                index,
                position,
                view,
                stats,
            ),
            final(self).same_state(old(self)),
    {
        self.cache.write_player(tick as usize, index, position, view, stats);
    }

    /// Writes one tick of projectile row `index` into the cache: a tick up to the
    /// last snapshot, as `advance` plans it.
    pub fn write_projectile(
        &mut self,
        tick: u32,
        index: usize,
        position: FixedVec,
        rotation: FixedVec,
        stats: ProjectileStats,
    )
        requires
            old(self).wf(),
            old(self).last_snapshot_tick matches Some(t) && tick <= t,
            index < old(self).cache.projectiles@.len(),
        ensures
            final(self).wf(),
            final(self).cache.projectile_written(
                &old(self).cache,
                tick as usize,
                index,
                position,
                rotation,
                stats,
            ),
            final(self).same_state(old(self)),
    {
        self.cache.write_projectile(tick as usize, index, position, rotation, stats);
    }

    /// Everything but the cache is the same.
    pub open spec fn same_state(&self, other: &CacheSession<P>) -> bool {
        &&& self.tick_capacity == other.tick_capacity
        &&& self.started == other.started
        &&& self.warmup_frames == other.warmup_frames
        &&& self.start_server_tick == other.start_server_tick
        &&& self.start_demo_tick == other.start_demo_tick
        &&& self.start_tick_base == other.start_tick_base
        &&& self.server_tick_base == other.server_tick_base
        &&& self.stats == other.stats
        &&& self.last_snapshot_tick == other.last_snapshot_tick
        &&& self.last_players == other.last_players
        &&& self.last_projectiles == other.last_projectiles
        &&& self.max_written_tick == other.max_written_tick
        &&& self.player_ids == other.player_ids
        &&& self.player_rows == other.player_rows
        &&& self.player_info == other.player_info
    }

    /// The counts of the cached timeline: the ticks up to the last written one, the
    /// start of caching, and the tick bases (the one at the start of caching when
    /// caching started, else the first one seen).
    pub fn finish(&self) -> (summary: CacheSummary)
        requires
            self.wf(),
        ensures
            summary.ticks == self.max_written_tick + 1,
            summary.start_tick == self.start_server_tick,
            summary.start_demo_tick == self.start_demo_tick,
            summary.tick_base_first == match self.server_tick_base {
                Some(b) => b,
                None => self.start_tick_base,
            },
            summary.tick_base == if self.started {
                self.start_tick_base
            } else {
                summary.tick_base_first
            },
            summary.stats == self.stats,
            is_tick_base(summary.tick_base),
    {
        let ticks = (self.max_written_tick + 1) as usize;
        let tick_base_first = match self.server_tick_base {
            Some(b) => b,
            None => self.start_tick_base,
        };
        let tick_base = if self.started {
            self.start_tick_base
        } else {
            tick_base_first
        };
        CacheSummary {
            ticks,
            start_tick: self.start_server_tick,
            start_demo_tick: self.start_demo_tick,
            tick_base,
            tick_base_first,
            stats: self.stats,
        }
    }
}

/// Law: seeing more entities never moves a row. The rows already given keep their
/// entities, no entity gets two rows, and every entity seen has a row.
pub proof fn lemma_slots_after_keeps_rows(ids: Seq<u32>, entities: Seq<u32>)
    requires
        distinct(ids),
    ensures
        ids.len() <= slots_after(ids, entities).len() <= ids.len() + entities.len(),
        slots_after(ids, entities).subrange(0, ids.len() as int) == ids,
        distinct(slots_after(ids, entities)),
        forall|j: int| 0 <= j < entities.len() ==> slots_after(ids, entities).contains(#[trigger] entities[j]),
    decreases entities.len(),
{
    if entities.len() > 0 {
        let rest = entities.drop_last();
        lemma_slots_after_keeps_rows(ids, rest);
        let prev = slots_after(ids, rest);
        let e = entities.last();
        let next = slots_after(ids, entities);
        if !prev.contains(e) {
            assert forall|a: int, b: int| 0 <= a < b < next.len() implies next[a] != next[b] by {
                if b == prev.len() {
                    assert(next[a] == prev[a]);
                }
            }
            assert forall|j: int| 0 <= j < entities.len() implies next.contains(#[trigger] entities[j]) by {
                if j < rest.len() {
                    assert(rest[j] == entities[j]);
                    let w = choose|w: int| 0 <= w < prev.len() && prev[w] == rest[j];
                    assert(next[w] == rest[j]);
                } else {
                    assert(next[prev.len() as int] == e);
                }
            }
            assert(next.subrange(0, ids.len() as int) =~= prev.subrange(0, ids.len() as int));
        } else {
            assert forall|j: int| 0 <= j < entities.len() implies next.contains(#[trigger] entities[j]) by {
                if j < rest.len() {
                    assert(rest[j] == entities[j]);
                }
            }
        }
    }
}

} // verus!
