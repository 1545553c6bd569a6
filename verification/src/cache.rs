//! The typed-array caches: one row per player or projectile, one cell (or one
//! cell per sparse block of ticks) per tick.

use vstd::prelude::*;
use crate::codes::{duck_code, duck_state, meta_byte, pack_meta};
use crate::keys::{indexes, lemma_entity_keys_ordered, lemma_indexes_push};
use std::collections::BTreeMap;

verus! {

/// A quantized vector: the three fixed-point coordinates that the cache stores.
#[derive(Clone, Copy, Debug, PartialEq, Eq, Structural)]
pub struct FixedVec {
    pub x: u32,
    pub y: u32,
    pub z: u32,
}

/// The per-tick values of a player that go into the caches besides the two vectors.
#[derive(Clone, Copy, Debug, PartialEq, Eq, Structural)]
pub struct PlayerStats {
    pub connected: bool,
    pub health: u16,
    pub class_id: u8,
    pub team_id: u8,
    pub uber: u16,
    pub heal_target: u16,
    pub flags: u32,
}

/// The per-tick values of a projectile that go into the caches besides the two vectors.
#[derive(Clone, Copy, Debug, PartialEq, Eq, Structural)]
pub struct ProjectileStats {
    pub team_id: u8,
    pub ty: u8,
}

/// Sparse blocks: health is kept once per 4 ticks.
pub const HEALTH_SHIFT: u8 = 2;

/// Sparse blocks: class and team are kept once per 64 ticks.
pub const META_SHIFT: u8 = 6;

/// Sparse blocks: connection, über charge and heal target are kept once per 16 ticks.
pub const STATUS_SHIFT: u8 = 4;

/// The duck state is kept for every tick.
pub const DUCK_SHIFT: u8 = 0;

/// Sparse blocks: projectile team and kind are kept once per 64 ticks.
pub const PROJECTILE_META_SHIFT: u8 = 6;

/// Length of a sparse row: one cell per block of `2^shift` ticks, and at least one cell.
pub open spec fn sparse_len(tick_count: usize, shift: u8) -> usize {
    if (tick_count >> shift) < 1 {
        1
    } else {
        tick_count >> shift
    }
}

/// A row after one quantized vector was written at `tick`.
pub open spec fn with_vec(row: Seq<u32>, tick: usize, v: FixedVec) -> Seq<u32> {
    row.update(3 * tick, v.x).update(3 * tick + 1, v.y).update(3 * tick + 2, v.z)
}

/// A sparse row after `value` was written at `tick`: the cell of the tick's block
/// is set when the row has one, and the row is left alone otherwise.
pub open spec fn with_sparse<T>(row: Seq<T>, tick: usize, shift: u8, value: T) -> Seq<T> {
    if (tick >> shift) < row.len() {
        row.update((tick >> shift) as int, value)
    } else {
        row
    }
}

/// The builder of all caches of one demo.
pub struct CacheBuilder {
    pub tick_count: usize,
    pub player_count: usize,
    pub positions: Vec<Vec<u32>>,
    pub view_angles: Vec<Vec<u32>>,
    pub health: Vec<Vec<u16>>,
    pub meta: Vec<Vec<u8>>,
    pub connected: Vec<Vec<u8>>,
    pub uber: Vec<Vec<u16>>,
    pub heal_target: Vec<Vec<u16>>,
    pub duck: Vec<Vec<u8>>,
    /// The entity id of each projectile row, in the order the rows were made.
    pub projectiles: Vec<u32>,
    /// The row of each projectile entity.
    pub projectile_rows: BTreeMap<u32, usize>,
    pub projectile_positions: Vec<Vec<u32>>,
    pub projectile_rotations: Vec<Vec<u32>>,
    pub projectile_team: Vec<Vec<u8>>,
    pub projectile_type: Vec<Vec<u8>>,
}

/// A row of `n` zeroes.
pub open spec fn zeros<T>(n: int, zero: T) -> Seq<T> {
    Seq::new(n as nat, |i: int| zero)
}

impl CacheBuilder {
    /// The shape of the rows of player `i`.
    pub open spec fn player_row_ok(&self, i: int) -> bool {
        &&& self.positions@[i]@.len() == 3 * self.tick_count
        &&& self.view_angles@[i]@.len() == 3 * self.tick_count
        &&& self.health@[i]@.len() == sparse_len(self.tick_count, HEALTH_SHIFT)
        &&& self.meta@[i]@.len() == sparse_len(self.tick_count, META_SHIFT)
        &&& self.connected@[i]@.len() == sparse_len(self.tick_count, STATUS_SHIFT)
        &&& self.uber@[i]@.len() == sparse_len(self.tick_count, STATUS_SHIFT)
        &&& self.heal_target@[i]@.len() == sparse_len(self.tick_count, STATUS_SHIFT)
        &&& self.duck@[i]@.len() == self.tick_count
    }

    /// The shape of the rows of projectile `i`.
    pub open spec fn projectile_row_ok(&self, i: int) -> bool {
        &&& self.projectile_positions@[i]@.len() == 3 * self.tick_count
        &&& self.projectile_rotations@[i]@.len() == 3 * self.tick_count
        &&& self.projectile_team@[i]@.len() == sparse_len(self.tick_count, PROJECTILE_META_SHIFT)
        &&& self.projectile_type@[i]@.len() == sparse_len(self.tick_count, PROJECTILE_META_SHIFT)
    }

    /// Well-formedness: one row of each cache per player and per projectile, each of
    /// the length its tick count calls for, and no projectile entity twice.
    pub open spec fn wf(&self) -> bool {
        &&& 3 * self.tick_count <= usize::MAX
        &&& self.positions@.len() == self.player_count
        &&& self.view_angles@.len() == self.player_count
        &&& self.health@.len() == self.player_count
        &&& self.meta@.len() == self.player_count
        &&& self.connected@.len() == self.player_count
        &&& self.uber@.len() == self.player_count
        &&& self.heal_target@.len() == self.player_count
        &&& self.duck@.len() == self.player_count
        &&& forall|i: int| 0 <= i < self.player_count ==> #[trigger] self.player_row_ok(i)
        &&& self.projectile_positions@.len() == self.projectiles@.len()
        &&& self.projectile_rotations@.len() == self.projectiles@.len()
        &&& self.projectile_team@.len() == self.projectiles@.len()
        &&& self.projectile_type@.len() == self.projectiles@.len()
        &&& forall|i: int| 0 <= i < self.projectiles@.len() ==> #[trigger] self.projectile_row_ok(i)
        &&& forall|i: int, j: int|
            0 <= i < j < self.projectiles@.len() ==> self.projectiles@[i] != self.projectiles@[j]
        &&& indexes(self.projectile_rows@, self.projectiles@)
    }

    /// The projectile rows and the entities they belong to.
    pub open spec fn same_projectiles(&self, other: &CacheBuilder) -> bool {
        &&& self.projectiles == other.projectiles
        &&& self.projectile_rows == other.projectile_rows
        &&& self.projectile_positions == other.projectile_positions
        &&& self.projectile_rotations == other.projectile_rotations
        &&& self.projectile_team == other.projectile_team
        &&& self.projectile_type == other.projectile_type
    }

    /// The player rows.
    pub open spec fn same_players(&self, other: &CacheBuilder) -> bool {
        &&& self.player_count == other.player_count
        &&& self.positions == other.positions
        &&& self.view_angles == other.view_angles
        &&& self.health == other.health
        &&& self.meta == other.meta
        &&& self.connected == other.connected
        &&& self.uber == other.uber
        &&& self.heal_target == other.heal_target
        &&& self.duck == other.duck
    }

    /// An empty builder for `tick_count` ticks.
    pub fn new(tick_count: usize) -> (b: CacheBuilder)
        requires
            3 * tick_count <= usize::MAX,
        ensures
            b.wf(),
            b.tick_count == tick_count,
            b.player_count == 0,
            b.projectiles@.len() == 0,
    {
        CacheBuilder {
            tick_count,
            player_count: 0,
            positions: Vec::new(),
            view_angles: Vec::new(),
            health: Vec::new(),
            meta: Vec::new(),
            connected: Vec::new(),
            uber: Vec::new(),
            heal_target: Vec::new(),
            duck: Vec::new(),
            projectiles: Vec::new(),
            projectile_rows: BTreeMap::new(),
            projectile_positions: Vec::new(),
            projectile_rotations: Vec::new(),
            projectile_team: Vec::new(),
            projectile_type: Vec::new(),
        }
    }

    /// The number of cells of a sparse row.
    pub fn sparse_row_len(tick_count: usize, shift: u8) -> (n: usize)
        requires
            (shift as u32) < usize::BITS,
        ensures
            n == sparse_len(tick_count, shift),
    {
        let n = tick_count >> shift;
        if n < 1 {
            1
        } else {
            n
        }
    }

    fn zero_u32(n: usize) -> (r: Vec<u32>)
        ensures
            r@ == zeros(n as int, 0u32),
    {
        let r = vec![0u32; n];
        assert(r@ =~= zeros(n as int, 0u32));
        r
    }

    fn zero_u16(n: usize) -> (r: Vec<u16>)
        ensures
            r@ == zeros(n as int, 0u16),
    {
        let r = vec![0u16; n];
        assert(r@ =~= zeros(n as int, 0u16));
        r
    }

    fn zero_u8(n: usize) -> (r: Vec<u8>)
        ensures
            r@ == zeros(n as int, 0u8),
    {
        let r = vec![0u8; n];
        assert(r@ =~= zeros(n as int, 0u8));
        r
    }

    /// The rows of a newly added player are all zero.
    pub open spec fn player_rows_zero(&self, i: int) -> bool {
        &&& self.positions@[i]@ == zeros(3 * self.tick_count, 0u32)
        &&& self.view_angles@[i]@ == zeros(3 * self.tick_count, 0u32)
        &&& self.health@[i]@ == zeros(sparse_len(self.tick_count, HEALTH_SHIFT) as int, 0u16)
        &&& self.meta@[i]@ == zeros(sparse_len(self.tick_count, META_SHIFT) as int, 0u8)
        &&& self.connected@[i]@ == zeros(sparse_len(self.tick_count, STATUS_SHIFT) as int, 0u8)
        &&& self.uber@[i]@ == zeros(sparse_len(self.tick_count, STATUS_SHIFT) as int, 0u16)
        &&& self.heal_target@[i]@ == zeros(sparse_len(self.tick_count, STATUS_SHIFT) as int, 0u16)
        &&& self.duck@[i]@ == zeros(self.tick_count as int, 0u8)
    }

    /// One row of each player cache per player.
    pub open spec fn player_rows_counted(&self) -> bool {
        &&& self.positions@.len() == self.player_count
        &&& self.view_angles@.len() == self.player_count
        &&& self.health@.len() == self.player_count
        &&& self.meta@.len() == self.player_count
        &&& self.connected@.len() == self.player_count
        &&& self.uber@.len() == self.player_count
        &&& self.heal_target@.len() == self.player_count
        &&& self.duck@.len() == self.player_count
    }

    /// Makes sure that player `player_index` has its rows: adds zeroed rows, of the
    /// lengths the tick count calls for, up to it, and leaves existing rows as they
    /// are. Well-formedness is kept.
    pub fn ensure_player(&mut self, player_index: usize)
        requires
            old(self).player_rows_counted(),
            3 * old(self).tick_count <= usize::MAX,
            player_index < usize::MAX,
        ensures
            final(self).player_rows_counted(),
            old(self).wf() ==> final(self).wf(),
            final(self).tick_count == old(self).tick_count,
            final(self).player_count == if player_index < old(self).player_count {
                old(self).player_count as int
            } else {
                player_index + 1
            },
            final(self).same_projectiles(old(self)),
            forall|i: int|
                0 <= i < old(self).player_count ==> {
                    &&& #[trigger] final(self).positions@[i] == old(self).positions@[i]
                    &&& final(self).view_angles@[i] == old(self).view_angles@[i]
                    &&& final(self).health@[i] == old(self).health@[i]
                    &&& final(self).meta@[i] == old(self).meta@[i]
                    &&& final(self).connected@[i] == old(self).connected@[i]
                    &&& final(self).uber@[i] == old(self).uber@[i]
                    &&& final(self).heal_target@[i] == old(self).heal_target@[i]
                    &&& final(self).duck@[i] == old(self).duck@[i]
                },
            forall|i: int|
                old(self).player_count <= i < final(self).player_count
                    ==> #[trigger] final(self).player_rows_zero(i),
    {
        if player_index < self.player_count {
            return;
        }
        let ghost start = *self;
        while self.player_count <= player_index
            invariant
                self.player_rows_counted(),
                3 * self.tick_count <= usize::MAX,
                start.wf() ==> self.wf(),
                player_index < usize::MAX,
                self.tick_count == start.tick_count,
                start.player_count <= self.player_count <= player_index + 1,
                self.same_projectiles(&start),
                forall|i: int|
                    0 <= i < start.player_count ==> {
                        &&& #[trigger] self.positions@[i] == start.positions@[i]
                        &&& self.view_angles@[i] == start.view_angles@[i]
                        &&& self.health@[i] == start.health@[i]
                        &&& self.meta@[i] == start.meta@[i]
                        &&& self.connected@[i] == start.connected@[i]
                        &&& self.uber@[i] == start.uber@[i]
                        &&& self.heal_target@[i] == start.heal_target@[i]
                        &&& self.duck@[i] == start.duck@[i]
                    },
                forall|i: int|
                    start.player_count <= i < self.player_count
                        ==> #[trigger] self.player_rows_zero(i),
            decreases player_index + 1 - self.player_count,
        {
            let position_len = self.tick_count * 3;
            let health_len = Self::sparse_row_len(self.tick_count, HEALTH_SHIFT);
            let meta_len = Self::sparse_row_len(self.tick_count, META_SHIFT);
            let connected_len = Self::sparse_row_len(self.tick_count, STATUS_SHIFT);
            let duck_len = self.tick_count;
            let ghost before = *self;
            self.positions.push(Self::zero_u32(position_len));
            self.view_angles.push(Self::zero_u32(position_len));
            self.health.push(Self::zero_u16(health_len));
            self.meta.push(Self::zero_u8(meta_len));
            self.connected.push(Self::zero_u8(connected_len));
            self.uber.push(Self::zero_u16(connected_len));
            self.heal_target.push(Self::zero_u16(connected_len));
            self.duck.push(Self::zero_u8(duck_len));
            self.player_count = self.player_count + 1;
            proof {
                if start.wf() {
                assert forall|i: int| 0 <= i < self.player_count implies #[trigger] self.player_row_ok(
                    i,
                ) by {
                    if i < before.player_count {
                        assert(before.player_row_ok(i));
                    }
                }
                assert forall|i: int| 0 <= i < self.projectiles@.len() implies #[trigger] self.projectile_row_ok(
                    i,
                ) by {
                    assert(before.projectile_row_ok(i));
                }
                }
            }
            assert forall|i: int| 0 <= i < start.player_count implies {
                &&& #[trigger] self.positions@[i] == start.positions@[i]
                &&& self.view_angles@[i] == start.view_angles@[i]
                &&& self.health@[i] == start.health@[i]
                &&& self.meta@[i] == start.meta@[i]
                &&& self.connected@[i] == start.connected@[i]
                &&& self.uber@[i] == start.uber@[i]
                &&& self.heal_target@[i] == start.heal_target@[i]
                &&& self.duck@[i] == start.duck@[i]
            } by {
                assert(before.positions@[i] == start.positions@[i]);
            }
            assert forall|i: int|
                start.player_count <= i < self.player_count implies #[trigger] self.player_rows_zero(
                i,
            ) by {
                if i < before.player_count {
                    assert(before.player_rows_zero(i));
                }
            }
        }
    }

    /// The row of projectile entity `entity_id`: the existing one, or a new zeroed one
    /// at the end when the entity has none yet.
    pub fn ensure_projectile(&mut self, entity_id: u32) -> (index: usize)
        requires
            old(self).wf(),
        ensures
            final(self).wf(),
            final(self).tick_count == old(self).tick_count,
            final(self).same_players(old(self)),
            index < final(self).projectiles@.len(),
            final(self).projectiles@[index as int] == entity_id,
            old(self).projectiles@.contains(entity_id) ==> {
                &&& final(self).same_projectiles(old(self))
            },
            !old(self).projectiles@.contains(entity_id) ==> {
                &&& final(self).projectiles@ == old(self).projectiles@.push(entity_id)
                &&& index == old(self).projectiles@.len()
                &&& final(self).projectile_positions@.subrange(0, index as int)
                    == old(self).projectile_positions@
                &&& final(self).projectile_rotations@.subrange(0, index as int)
                    == old(self).projectile_rotations@
                &&& final(self).projectile_team@.subrange(0, index as int)
                    == old(self).projectile_team@
                &&& final(self).projectile_type@.subrange(0, index as int)
                    == old(self).projectile_type@
                &&& final(self).projectile_positions@[index as int]@ == zeros(
                    3 * final(self).tick_count,
                    0u32,
                )
                &&& final(self).projectile_rotations@[index as int]@ == zeros(
                    3 * final(self).tick_count,
                    0u32,
                )
                &&& final(self).projectile_team@[index as int]@ == zeros(
                    sparse_len(final(self).tick_count, PROJECTILE_META_SHIFT) as int,
                    0u8,
                )
                &&& final(self).projectile_type@[index as int]@ == zeros(
                    sparse_len(final(self).tick_count, PROJECTILE_META_SHIFT) as int,
                    0u8,
                )
            },
    {
        proof {
            lemma_entity_keys_ordered();
        }
        if let Some(index) = self.projectile_rows.get(&entity_id) {
            return *index;
        }
        assert(!self.projectiles@.contains(entity_id));
        let index = self.projectiles.len();
        let ghost before = *self;
        proof {
            lemma_indexes_push(self.projectile_rows@, self.projectiles@, entity_id);
        }
        self.projectiles.push(entity_id);
        self.projectile_rows.insert(entity_id, index);
        let position_len = self.tick_count * 3;
        let sparse_len = Self::sparse_row_len(self.tick_count, PROJECTILE_META_SHIFT);
        self.projectile_positions.push(Self::zero_u32(position_len));
        self.projectile_rotations.push(Self::zero_u32(position_len));
        self.projectile_team.push(Self::zero_u8(sparse_len));
        self.projectile_type.push(Self::zero_u8(sparse_len));
        assert forall|k: int| 0 <= k < self.projectiles@.len() implies #[trigger] self.projectile_row_ok(
            k,
        ) by {
            if k < index {
                assert(before.projectile_row_ok(k));
            }
        }
        assert forall|k: int| 0 <= k < self.player_count implies #[trigger] self.player_row_ok(k) by {
            assert(before.player_row_ok(k));
        }
        assert forall|a: int, b: int|
            0 <= a < b < self.projectiles@.len() implies self.projectiles@[a]
            != self.projectiles@[b] by {
            if b == index {
                assert(before.projectiles@[a] == self.projectiles@[a]);
            }
        }
        assert(self.projectile_positions@.subrange(0, index as int) =~= before.projectile_positions@);
        assert(self.projectile_rotations@.subrange(0, index as int) =~= before.projectile_rotations@);
        assert(self.projectile_team@.subrange(0, index as int) =~= before.projectile_team@);
        assert(self.projectile_type@.subrange(0, index as int) =~= before.projectile_type@);
        index
    }

    /// Writes a quantized vector at `tick`: cells `3 * tick`, `3 * tick + 1`, `3 * tick + 2`.
    pub fn set_vec(target: &mut Vec<u32>, tick: usize, vector: FixedVec)
        requires
            3 * tick + 2 < old(target)@.len(),
        ensures
            final(target)@ == with_vec(old(target)@, tick, vector),
    {
        let len = target.len();
        let base = tick * 3;
        target[base] = vector.x;
        target[base + 1] = vector.y;
        target[base + 2] = vector.z;
    }

    /// Writes a value into the sparse cell of `tick`, when the row has that cell.
    pub fn set_u16(target: &mut Vec<u16>, tick: usize, value: u16, shift: u8)
        requires
            (shift as u32) < usize::BITS,
        ensures
            final(target)@ == with_sparse(old(target)@, tick, shift, value),
    {
        let index = tick >> shift;
        if index < target.len() {
            target[index] = value;
        }
    }

    /// Writes a byte into the sparse cell of `tick`, when the row has that cell.
    pub fn set_sparse_u8(target: &mut Vec<u8>, tick: usize, value: u8, shift: u8)
        requires
            (shift as u32) < usize::BITS,
        ensures
            final(target)@ == with_sparse(old(target)@, tick, shift, value),
    {
        let index = tick >> shift;
        if index < target.len() {
            target[index] = value;
        }
    }

    /// Writes a value into the sparse cell of `tick`, when the row has that cell.
    pub fn set_sparse_u16(target: &mut Vec<u16>, tick: usize, value: u16, shift: u8)
        requires
            (shift as u32) < usize::BITS,
        ensures
            final(target)@ == with_sparse(old(target)@, tick, shift, value),
    {
        let index = tick >> shift;
        if index < target.len() {
            target[index] = value;
        }
    }

    /// The caches after player `index` was written at `tick`.
    pub open spec fn player_written(
        &self,
        old: &CacheBuilder,
        tick: usize,
        index: usize,
        position: FixedVec,
        view: FixedVec,
        stats: PlayerStats,
    ) -> bool {
        &&& self.tick_count == old.tick_count
        &&& self.player_count == old.player_count
        &&& self.same_projectiles(old)
        &&& self.positions@ == old.positions@.update(index as int, self.positions@[index as int])
        &&& self.positions@[index as int]@ == with_vec(old.positions@[index as int]@, tick, position)
        &&& self.view_angles@ == old.view_angles@.update(index as int, self.view_angles@[index as int])
        &&& self.view_angles@[index as int]@ == with_vec(old.view_angles@[index as int]@, tick, view)
        &&& self.health@ == old.health@.update(index as int, self.health@[index as int])
        &&& self.health@[index as int]@ == with_sparse(
            old.health@[index as int]@,
            tick,
            HEALTH_SHIFT,
            stats.health,
        )
        &&& self.meta@ == old.meta@.update(index as int, self.meta@[index as int])
        &&& self.meta@[index as int]@ == with_sparse(
            old.meta@[index as int]@,
            tick,
            META_SHIFT,
            meta_byte(stats.class_id, stats.team_id) as u8,
        )
        &&& self.connected@ == old.connected@.update(index as int, self.connected@[index as int])
        &&& self.connected@[index as int]@ == with_sparse(
            old.connected@[index as int]@,
            tick,
            STATUS_SHIFT,
            if stats.connected { 1u8 } else { 0u8 },
        )
        &&& self.uber@ == old.uber@.update(index as int, self.uber@[index as int])
        &&& self.uber@[index as int]@ == with_sparse(
            old.uber@[index as int]@,
            tick,
            STATUS_SHIFT,
            stats.uber,
        )
        &&& self.heal_target@ == old.heal_target@.update(index as int, self.heal_target@[index as int])
        &&& self.heal_target@[index as int]@ == with_sparse(
            old.heal_target@[index as int]@,
            tick,
            STATUS_SHIFT,
            stats.heal_target,
        )
        &&& self.duck@ == old.duck@.update(index as int, self.duck@[index as int])
        &&& self.duck@[index as int]@ == with_sparse(
            old.duck@[index as int]@,
            tick,
            DUCK_SHIFT,
            duck_code(stats.flags),
        )
    }

    /// Writes one tick of player `index`: position, view angles, health, packed
    /// class and team, connection, über charge, heal target and duck state.
    pub fn write_player(
        &mut self,
        tick: usize,
        index: usize,
        position: FixedVec,
        view: FixedVec,
        stats: PlayerStats,
    )
        requires
            old(self).wf(),
            tick < old(self).tick_count,
            index < old(self).player_count,
        ensures
            final(self).wf(),
            final(self).player_written(old(self), tick, index, position, view, stats),
    {
        let ghost start = *self;
        assert(self.player_row_ok(index as int));
        Self::set_vec(&mut self.positions[index], tick, position);
        Self::set_vec(&mut self.view_angles[index], tick, view);
        Self::set_u16(&mut self.health[index], tick, stats.health, HEALTH_SHIFT);
        let meta = pack_meta(stats.class_id, stats.team_id);
        Self::set_sparse_u8(&mut self.meta[index], tick, meta, META_SHIFT);
        let connected: u8 = if stats.connected { 1 } else { 0 };
        Self::set_sparse_u8(&mut self.connected[index], tick, connected, STATUS_SHIFT);
        Self::set_sparse_u16(&mut self.uber[index], tick, stats.uber, STATUS_SHIFT);
        Self::set_sparse_u16(&mut self.heal_target[index], tick, stats.heal_target, STATUS_SHIFT);
        let duck = duck_state(stats.flags);
        Self::set_sparse_u8(&mut self.duck[index], tick, duck, DUCK_SHIFT);
        assert forall|i: int| 0 <= i < self.player_count implies #[trigger] self.player_row_ok(
            i,
        ) by {
            assert(start.player_row_ok(i));
        }
        assert forall|i: int| 0 <= i < self.projectiles@.len() implies #[trigger] self.projectile_row_ok(
            i,
        ) by {
            assert(start.projectile_row_ok(i));
        }
    }

    /// The caches after projectile `index` was written at `tick`.
    pub open spec fn projectile_written(
        &self,
        old: &CacheBuilder,
        tick: usize,
        index: usize,
        position: FixedVec,
        rotation: FixedVec,
        stats: ProjectileStats,
    ) -> bool {
        &&& self.tick_count == old.tick_count
        &&& self.same_players(old)
        &&& self.projectiles == old.projectiles
        &&& self.projectile_positions@ == old.projectile_positions@.update(
            index as int,
            self.projectile_positions@[index as int],
        )
        &&& self.projectile_positions@[index as int]@ == with_vec(
            old.projectile_positions@[index as int]@,
            tick,
            position,
        )
        &&& self.projectile_rotations@ == old.projectile_rotations@.update(
            index as int,
            self.projectile_rotations@[index as int],
        )
        &&& self.projectile_rotations@[index as int]@ == with_vec(
            old.projectile_rotations@[index as int]@,
            tick,
            rotation,
        )
        &&& self.projectile_team@ == old.projectile_team@.update(
            index as int,
            self.projectile_team@[index as int],
        )
        &&& self.projectile_team@[index as int]@ == with_sparse(
            old.projectile_team@[index as int]@,
            tick,
            PROJECTILE_META_SHIFT,
            stats.team_id,
        )
        &&& self.projectile_type@ == old.projectile_type@.update(
            index as int,
            self.projectile_type@[index as int],
        )
        &&& self.projectile_type@[index as int]@ == with_sparse(
            old.projectile_type@[index as int]@,
            tick,
            PROJECTILE_META_SHIFT,
            stats.ty,
        )
    }

    /// Writes one tick of projectile `index`: position, rotation, team and kind.
    pub fn write_projectile(
        &mut self,
        tick: usize,
        index: usize,
        position: FixedVec,
        rotation: FixedVec,
        stats: ProjectileStats,
    )
        requires
            old(self).wf(),
            tick < old(self).tick_count,
            index < old(self).projectiles@.len(),
        ensures
            final(self).wf(),
            final(self).projectile_written(old(self), tick, index, position, rotation, stats),
    {
        let ghost start = *self;
        assert(self.projectile_row_ok(index as int));
        Self::set_vec(&mut self.projectile_positions[index], tick, position);
        Self::set_vec(&mut self.projectile_rotations[index], tick, rotation);
        Self::set_sparse_u8(
            &mut self.projectile_team[index],
            tick,
            stats.team_id,
            PROJECTILE_META_SHIFT,
        );
        Self::set_sparse_u8(&mut self.projectile_type[index], tick, stats.ty, PROJECTILE_META_SHIFT);
        assert forall|i: int| 0 <= i < self.player_count implies #[trigger] self.player_row_ok(
            i,
        ) by {
            assert(start.player_row_ok(i));
        }
        assert forall|i: int| 0 <= i < self.projectiles@.len() implies #[trigger] self.projectile_row_ok(
            i,
        ) by {
            assert(start.projectile_row_ok(i));
        }
    }
}

/// Law: a vector written at `tick` reads back from cells `3 * tick ..= 3 * tick + 2`,
/// and every other cell keeps its value.
pub proof fn lemma_vec_write_reads_back(row: Seq<u32>, tick: usize, v: FixedVec)
    requires
        3 * tick + 2 < row.len(),
    ensures
        with_vec(row, tick, v).len() == row.len(),
        with_vec(row, tick, v)[3 * tick] == v.x,
        with_vec(row, tick, v)[3 * tick + 1] == v.y,
        with_vec(row, tick, v)[3 * tick + 2] == v.z,
        forall|j: int|
            0 <= j < row.len() && j != 3 * tick && j != 3 * tick + 1 && j != 3 * tick + 2
                ==> #[trigger] with_vec(row, tick, v)[j] == row[j],
{
}

/// Law: a value written at `tick` into a sparse row reads back from the cell of the
/// tick's block when the row has it, and every other cell keeps its value.
pub proof fn lemma_sparse_write_reads_back<T>(row: Seq<T>, tick: usize, shift: u8, value: T)
    ensures
        with_sparse(row, tick, shift, value).len() == row.len(),
        (tick >> shift) < row.len() ==> with_sparse(row, tick, shift, value)[(tick >> shift) as int]
            == value,
        forall|j: int|
            0 <= j < row.len() && j != (tick >> shift) ==> #[trigger] with_sparse(
                row,
                tick,
                shift,
                value,
            )[j] == row[j],
{
}

} // verus!
