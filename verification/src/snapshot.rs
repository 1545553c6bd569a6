//! Samples of players and projectiles at one snapshot, and how the ticks between
//! two snapshots are filled.
//!
//! The pose of a sample (position and angles) is of a type `P` that the library
//! only moves around: where a tick is filled by blending two poses, the plan says
//! which two and at which step, and the caller computes the blended pose.

use vstd::prelude::*;
use crate::cache::{PlayerStats, ProjectileStats};

verus! {

/// A player at one snapshot.
#[derive(Clone, Copy, Debug)]
pub struct PlayerSample<P> {
    pub pose: P,
    pub stats: PlayerStats,
}

/// A projectile at one snapshot.
#[derive(Clone, Copy, Debug)]
pub struct ProjectileSample<P> {
    pub pose: P,
    pub stats: ProjectileStats,
}

/// A pose blended from the sample's pose towards `to`, by `step / gap`.
#[derive(Clone, Copy, Debug)]
pub struct Blend<P> {
    pub to: P,
    pub step: u32,
    pub gap: u32,
}

/// What a player's cells get at one tick: the sample's values, with its pose
/// blended towards another one when `blend` is present.
#[derive(Clone, Copy, Debug)]
pub struct PlayerFill<P> {
    pub sample: PlayerSample<P>,
    pub blend: Option<Blend<P>>,
}

/// What a projectile's cells get at one tick.
#[derive(Clone, Copy, Debug)]
pub struct ProjectileFill<P> {
    pub sample: ProjectileSample<P>,
    pub blend: Option<Blend<P>>,
}

/// One write into the caches.
#[derive(Clone, Copy, Debug)]
pub enum CacheWrite<P> {
    Player { tick: u32, index: usize, fill: PlayerFill<P> },
    Projectile { tick: u32, index: usize, fill: ProjectileFill<P> },
}

/// Whether an optional player sample is a connected player.
pub open spec fn is_connected<P>(s: Option<PlayerSample<P>>) -> bool {
    s matches Some(p) && p.stats.connected
}

/// How a player is filled at step `step` of a gap of `gap` ticks between the
/// previous snapshot `prev` and the current one `cur` (the last step being the
/// current snapshot itself):
/// - connected at both ends: after a teleport the previous sample holds until the
///   last step, which takes the current one; otherwise the pose is blended and the
///   other values are the previous ones until the last step;
/// - connected only before: the previous sample holds, and the last step is empty;
/// - connected only after: empty until the last step, which takes the current sample;
/// - otherwise nothing is written.
pub open spec fn player_fill<P>(
    prev: Option<PlayerSample<P>>,
    cur: Option<PlayerSample<P>>,
    teleport: bool,
    step: u32,
    gap: u32,
) -> Option<PlayerFill<P>> {
    let is_final = step == gap;
    if is_connected(prev) && is_connected(cur) {
        let p = prev->0;
        let c = cur->0;
        if teleport {
            Some(PlayerFill { sample: if is_final { c } else { p }, blend: None })
        } else {
            Some(
                PlayerFill {
                    sample: PlayerSample {
                        pose: p.pose,
                        stats: if is_final {
                            c.stats
                        } else {
                            p.stats
                        },
                    },
                    blend: Some(Blend { to: c.pose, step, gap }),
                },
            )
        }
    } else if is_connected(prev) {
        if is_final {
            None
        } else {
            Some(PlayerFill { sample: prev->0, blend: None })
        }
    } else if is_connected(cur) {
        if is_final {
            Some(PlayerFill { sample: cur->0, blend: None })
        } else {
            None
        }
    } else {
        None
    }
}

/// How a projectile is filled at step `step` of a gap: as a player, with presence
/// in place of connection.
pub open spec fn projectile_fill<P>(
    prev: Option<ProjectileSample<P>>,
    cur: Option<ProjectileSample<P>>,
    teleport: bool,
    step: u32,
    gap: u32,
) -> Option<ProjectileFill<P>> {
    let is_final = step == gap;
    match (prev, cur) {
        (Some(p), Some(c)) => if teleport {
            Some(ProjectileFill { sample: if is_final { c } else { p }, blend: None })
        } else {
            Some(
                ProjectileFill {
                    sample: ProjectileSample {
                        pose: p.pose,
                        stats: if is_final {
                            c.stats
                        } else {
                            p.stats
                        },
                    },
                    blend: Some(Blend { to: c.pose, step, gap }),
                },
            )
        },
        (Some(p), None) => if is_final {
            None
        } else {
            Some(ProjectileFill { sample: p, blend: None })
        },
        (None, Some(c)) => if is_final {
            Some(ProjectileFill { sample: c, blend: None })
        } else {
            None
        },
        (None, None) => None,
    }
}

/// Computes `player_fill`.
pub fn fill_player<P: Copy>(
    prev: Option<PlayerSample<P>>,
    cur: Option<PlayerSample<P>>,
    teleport: bool,
    step: u32,
    gap: u32,
) -> (r: Option<PlayerFill<P>>)
    ensures
        r == player_fill(prev, cur, teleport, step, gap),
{
    let is_final = step == gap;
    let prev_connected = match prev {
        Some(p) => p.stats.connected,
        None => false,
    };
    let cur_connected = match cur {
        Some(c) => c.stats.connected,
        None => false,
    };
    match (prev, cur) {
        (Some(p), Some(c)) if prev_connected && cur_connected => {
            if teleport {
                if is_final {
                    Some(PlayerFill { sample: c, blend: None })
                } else {
                    Some(PlayerFill { sample: p, blend: None })
                }
            } else {
                let stats = if is_final {
                    c.stats
                } else {
                    p.stats
                };
                Some(
                    PlayerFill {
                        sample: PlayerSample { pose: p.pose, stats },
                        blend: Some(Blend { to: c.pose, step, gap }),
                    },
                )
            }
        },
        (Some(p), _) if prev_connected => {
            if is_final {
                None
            } else {
                Some(PlayerFill { sample: p, blend: None })
            }
        },
        (_, Some(c)) if cur_connected => {
            if is_final {
                Some(PlayerFill { sample: c, blend: None })
            } else {
                None
            }
        },
        _ => None,
    }
}

/// Computes `projectile_fill`.
pub fn fill_projectile<P: Copy>(
    prev: Option<ProjectileSample<P>>,
    cur: Option<ProjectileSample<P>>,
    teleport: bool,
    step: u32,
    gap: u32,
) -> (r: Option<ProjectileFill<P>>)
    ensures
        r == projectile_fill(prev, cur, teleport, step, gap),
{
    let is_final = step == gap;
    match (prev, cur) {
        (Some(p), Some(c)) => {
            if teleport {
                if is_final {
                    Some(ProjectileFill { sample: c, blend: None })
                } else {
                    Some(ProjectileFill { sample: p, blend: None })
                }
            } else {
                let stats = if is_final {
                    c.stats
                } else {
                    p.stats
                };
                Some(
                    ProjectileFill {
                        sample: ProjectileSample { pose: p.pose, stats },
                        blend: Some(Blend { to: c.pose, step, gap }),
                    },
                )
            }
        },
        (Some(p), None) => {
            if is_final {
                None
            } else {
                Some(ProjectileFill { sample: p, blend: None })
            }
        },
        (None, Some(c)) => {
            if is_final {
                Some(ProjectileFill { sample: c, blend: None })
            } else {
                None
            }
        },
        (None, None) => None,
    }
}

/// The writes of the first `n` player rows at step `step` of a gap ending at `tick`'s snapshot.
pub open spec fn player_step_writes<P>(
    tick: u32,
    step: u32,
    gap: u32,
    last: Seq<Option<PlayerSample<P>>>,
    cur: Seq<Option<PlayerSample<P>>>,
    teleports: Seq<bool>,
    n: int,
) -> Seq<CacheWrite<P>>
    decreases n,
{
    if n <= 0 {
        Seq::empty()
    } else {
        player_step_writes(tick, step, gap, last, cur, teleports, n - 1) + match player_fill(
            last[n - 1],
            cur[n - 1],
            teleports[n - 1],
            step,
            gap,
        ) {
            Some(f) => seq![CacheWrite::Player { tick, index: (n - 1) as usize, fill: f }],
            None => Seq::empty(),
        }
    }
}

/// The writes of the first `n` projectile rows at step `step` of a gap.
pub open spec fn projectile_step_writes<P>(
    tick: u32,
    step: u32,
    gap: u32,
    last: Seq<Option<ProjectileSample<P>>>,
    cur: Seq<Option<ProjectileSample<P>>>,
    teleports: Seq<bool>,
    n: int,
) -> Seq<CacheWrite<P>>
    decreases n,
{
    if n <= 0 {
        Seq::empty()
    } else {
        projectile_step_writes(tick, step, gap, last, cur, teleports, n - 1) + match projectile_fill(
            last[n - 1],
            cur[n - 1],
            teleports[n - 1],
            step,
            gap,
        ) {
            Some(f) => seq![CacheWrite::Projectile { tick, index: (n - 1) as usize, fill: f }],
            None => Seq::empty(),
        }
    }
}

/// The two snapshots between which a gap is filled, with the teleport flags of each row.
pub struct GapEnds<P> {
    pub last_players: Seq<Option<PlayerSample<P>>>,
    pub players: Seq<Option<PlayerSample<P>>>,
    pub player_teleports: Seq<bool>,
    pub last_projectiles: Seq<Option<ProjectileSample<P>>>,
    pub projectiles: Seq<Option<ProjectileSample<P>>>,
    pub projectile_teleports: Seq<bool>,
}

/// The writes of the first `steps` steps of the gap after the snapshot at `prev_tick`:
/// step by step, all players in row order and then all projectiles in row order.
pub open spec fn gap_writes<P>(prev_tick: u32, gap: u32, ends: GapEnds<P>, steps: int) -> Seq<
    CacheWrite<P>,
>
    decreases steps,
{
    if steps <= 0 {
        Seq::empty()
    } else {
        let step = steps as u32;
        let tick = (prev_tick + step) as u32;
        gap_writes(prev_tick, gap, ends, steps - 1) + player_step_writes(
            tick,
            step,
            gap,
            ends.last_players,
            ends.players,
            ends.player_teleports,
            ends.players.len() as int,
        ) + projectile_step_writes(
            tick,
            step,
            gap,
            ends.last_projectiles,
            ends.projectiles,
            ends.projectile_teleports,
            ends.projectiles.len() as int,
        )
    }
}

/// The writes of the first `n` player rows at the first snapshot: every connected player.
pub open spec fn first_player_writes<P>(tick: u32, cur: Seq<Option<PlayerSample<P>>>, n: int) -> Seq<
    CacheWrite<P>,
>
    decreases n,
{
    if n <= 0 {
        Seq::empty()
    } else {
        first_player_writes(tick, cur, n - 1) + if is_connected(cur[n - 1]) {
            seq![
                CacheWrite::Player {
                    tick,
                    index: (n - 1) as usize,
                    fill: PlayerFill { sample: cur[n - 1]->0, blend: None },
                },
            ]
        } else {
            Seq::empty()
        }
    }
}

/// The writes of the first `n` projectile rows at the first snapshot: every projectile.
pub open spec fn first_projectile_writes<P>(
    tick: u32,
    cur: Seq<Option<ProjectileSample<P>>>,
    n: int,
) -> Seq<CacheWrite<P>>
    decreases n,
{
    if n <= 0 {
        Seq::empty()
    } else {
        first_projectile_writes(tick, cur, n - 1) + match cur[n - 1] {
            Some(s) => seq![
                CacheWrite::Projectile {
                    tick,
                    index: (n - 1) as usize,
                    fill: ProjectileFill { sample: s, blend: None },
                },
            ],
            None => Seq::empty(),
        }
    }
}

/// The optional samples of `s`, padded with empty ones up to `n` rows.
pub open spec fn padded<T>(s: Seq<Option<T>>, n: int) -> Seq<Option<T>> {
    Seq::new(
        n as nat,
        |i: int|
            if i < s.len() {
                s[i]
            } else {
                None
            },
    )
}

/// Pads a row of optional samples with empty ones up to `n` rows.
pub fn pad_samples<T: Copy>(v: &mut Vec<Option<T>>, n: usize)
    requires
        old(v)@.len() <= n,
    ensures
        final(v)@ == padded(old(v)@, n as int),
{
    let ghost start = v@;
    while v.len() < n
        invariant
            start.len() <= v@.len() <= n,
            forall|i: int| 0 <= i < v@.len() ==> v@[i] == padded(start, n as int)[i],
        decreases n - v@.len(),
    {
        v.push(None);
    }
    assert(v@ =~= padded(start, n as int));
}

/// Law: the last step of a gap is the snapshot itself. A player is written there
/// exactly when connected in the snapshot, with the snapshot's values, and its pose
/// is the snapshot's or is blended all the way to it.
pub proof fn lemma_player_fill_last_step<P>(
    prev: Option<PlayerSample<P>>,
    cur: Option<PlayerSample<P>>,
    teleport: bool,
    gap: u32,
)
    ensures
        player_fill(prev, cur, teleport, gap, gap) is Some <==> is_connected(cur),
        player_fill(prev, cur, teleport, gap, gap) matches Some(f) ==> {
            &&& f.sample.stats == cur->0.stats
            &&& f.blend is None ==> f.sample.pose == cur->0.pose
            &&& f.blend matches Some(b) ==> b.to == cur->0.pose && b.step == b.gap
        },
{
}

/// Law: before the last step of a gap, a player is written exactly when connected in
/// the previous snapshot, with the previous snapshot's values and pose (blended
/// towards the new one when it was not teleported).
pub proof fn lemma_player_fill_inner_step<P>(
    prev: Option<PlayerSample<P>>,
    cur: Option<PlayerSample<P>>,
    teleport: bool,
    step: u32,
    gap: u32,
)
    requires
        step != gap,
    ensures
        player_fill(prev, cur, teleport, step, gap) is Some <==> is_connected(prev),
        player_fill(prev, cur, teleport, step, gap) matches Some(f) ==> {
            &&& f.sample == prev->0
            &&& f.blend matches Some(b) ==> b.to == cur->0.pose && b.step == step && b.gap == gap
                && is_connected(cur) && !teleport
        },
{
}

/// Law: a player connected in both snapshots and not teleported is blended at every
/// step of the gap, whatever its length: the pose starts from the previous snapshot's
/// and is drawn towards the current one by `step` of `gap` ticks.
pub proof fn lemma_player_fill_blends<P>(
    prev: Option<PlayerSample<P>>,
    cur: Option<PlayerSample<P>>,
    step: u32,
    gap: u32,
)
    requires
        is_connected(prev),
        is_connected(cur),
        1 <= step <= gap,
    ensures
        player_fill(prev, cur, false, step, gap) matches Some(f) && f.sample.pose == prev->0.pose
            && f.blend == Some(Blend { to: cur->0.pose, step, gap }),
        step < gap ==> player_fill(prev, cur, false, step, gap)->0.sample.stats == prev->0.stats,
{
}

/// Law: a player connected in both snapshots but teleported is never blended: it
/// keeps the previous sample until the last step, which takes the current one.
pub proof fn lemma_player_fill_teleport_snaps<P>(
    prev: Option<PlayerSample<P>>,
    cur: Option<PlayerSample<P>>,
    step: u32,
    gap: u32,
)
    requires
        is_connected(prev),
        is_connected(cur),
        1 <= step <= gap,
    ensures
        player_fill(prev, cur, true, step, gap) == Some(
            PlayerFill {
                sample: if step == gap {
                    cur->0
                } else {
                    prev->0
                },
                blend: None,
            },
        ),
{
}

/// Law: a projectile present in both snapshots and not teleported is blended at every
/// step of the gap, whatever its length.
pub proof fn lemma_projectile_fill_blends<P>(
    prev: Option<ProjectileSample<P>>,
    cur: Option<ProjectileSample<P>>,
    step: u32,
    gap: u32,
)
    requires
        prev is Some,
        cur is Some,
        1 <= step <= gap,
    ensures
        projectile_fill(prev, cur, false, step, gap) matches Some(f) && f.sample.pose
            == prev->0.pose && f.blend == Some(Blend { to: cur->0.pose, step, gap }),
        step < gap ==> projectile_fill(prev, cur, false, step, gap)->0.sample.stats
            == prev->0.stats,
{
}

/// Law: a teleported projectile is never blended: it keeps the previous sample until
/// the last step, which takes the current one.
pub proof fn lemma_projectile_fill_teleport_snaps<P>(
    prev: Option<ProjectileSample<P>>,
    cur: Option<ProjectileSample<P>>,
    step: u32,
    gap: u32,
)
    requires
        prev is Some,
        cur is Some,
        1 <= step <= gap,
    ensures
        projectile_fill(prev, cur, true, step, gap) == Some(
            ProjectileFill {
                sample: if step == gap {
                    cur->0
                } else {
                    prev->0
                },
                blend: None,
            },
        ),
{
}

/// Law: the last step of a gap is the snapshot itself, for projectiles.
pub proof fn lemma_projectile_fill_last_step<P>(
    prev: Option<ProjectileSample<P>>,
    cur: Option<ProjectileSample<P>>,
    teleport: bool,
    gap: u32,
)
    ensures
        projectile_fill(prev, cur, teleport, gap, gap) is Some <==> cur is Some,
        projectile_fill(prev, cur, teleport, gap, gap) matches Some(f) ==> {
            &&& f.sample.stats == cur->0.stats
            &&& f.blend is None ==> f.sample.pose == cur->0.pose
            &&& f.blend matches Some(b) ==> b.to == cur->0.pose && b.step == b.gap
        },
{
}

/// Law: before the last step of a gap, a projectile is written exactly when present in
/// the previous snapshot, with the previous snapshot's values and pose.
pub proof fn lemma_projectile_fill_inner_step<P>(
    prev: Option<ProjectileSample<P>>,
    cur: Option<ProjectileSample<P>>,
    teleport: bool,
    step: u32,
    gap: u32,
)
    requires
        step != gap,
    ensures
        projectile_fill(prev, cur, teleport, step, gap) is Some <==> prev is Some,
        projectile_fill(prev, cur, teleport, step, gap) matches Some(f) ==> {
            &&& f.sample == prev->0
            &&& f.blend matches Some(b) ==> b.to == cur->0.pose && b.step == step && b.gap == gap
                && cur is Some && !teleport
        },
{
}

/// A write that lands in ticks `lo..=hi`, in one of the first `n` player rows or the
/// first `m` projectile rows, and that writes players only when connected.
pub open spec fn write_ok<P>(w: CacheWrite<P>, lo: int, hi: int, n: int, m: int) -> bool {
    match w {
        CacheWrite::Player { tick, index, fill } => lo <= tick <= hi && index < n
            && fill.sample.stats.connected,
        CacheWrite::Projectile { tick, index, fill } => lo <= tick <= hi && index < m,
    }
}

/// Every write of a sequence is `write_ok`.
pub open spec fn writes_ok<P>(ws: Seq<CacheWrite<P>>, lo: int, hi: int, n: int, m: int) -> bool {
    forall|i: int| 0 <= i < ws.len() ==> write_ok(#[trigger] ws[i], lo, hi, n, m)
}

proof fn lemma_writes_ok_concat<P>(
    a: Seq<CacheWrite<P>>,
    b: Seq<CacheWrite<P>>,
    lo: int,
    hi: int,
    n: int,
    m: int,
)
    requires
        writes_ok(a, lo, hi, n, m),
        writes_ok(b, lo, hi, n, m),
    ensures
        writes_ok(a + b, lo, hi, n, m),
{
    assert forall|i: int| 0 <= i < (a + b).len() implies write_ok(#[trigger] (a + b)[i], lo, hi, n, m) by {
        if i < a.len() {
            assert((a + b)[i] == a[i]);
        } else {
            assert((a + b)[i] == b[i - a.len()]);
        }
    }
}

proof fn lemma_writes_ok_widen<P>(
    a: Seq<CacheWrite<P>>,
    lo: int,
    hi: int,
    hi2: int,
    n: int,
    m: int,
)
    requires
        writes_ok(a, lo, hi, n, m),
        hi <= hi2,
    ensures
        writes_ok(a, lo, hi2, n, m),
{
    assert forall|i: int| 0 <= i < a.len() implies write_ok(#[trigger] a[i], lo, hi2, n, m) by {
        assert(write_ok(a[i], lo, hi, n, m));
    }
}

proof fn lemma_player_step_ok<P>(
    tick: u32,
    step: u32,
    gap: u32,
    last: Seq<Option<PlayerSample<P>>>,
    cur: Seq<Option<PlayerSample<P>>>,
    teleports: Seq<bool>,
    k: int,
    n: int,
    m: int,
)
    requires
        k <= n,
    ensures
        writes_ok(player_step_writes(tick, step, gap, last, cur, teleports, k), tick as int, tick as int, n, m),
    decreases k,
{
    if k > 0 {
        lemma_player_step_ok(tick, step, gap, last, cur, teleports, k - 1, n, m);
        let f = player_fill(last[k - 1], cur[k - 1], teleports[k - 1], step, gap);
        let tail: Seq<CacheWrite<P>> = match f {
            Some(f) => seq![CacheWrite::Player { tick, index: (k - 1) as usize, fill: f }],
            None => Seq::empty(),
        };
        assert(writes_ok(tail, tick as int, tick as int, n, m));
        lemma_writes_ok_concat(
            player_step_writes(tick, step, gap, last, cur, teleports, k - 1),
            tail,
            tick as int,
            tick as int,
            n,
            m,
        );
    }
}

proof fn lemma_projectile_step_ok<P>(
    tick: u32,
    step: u32,
    gap: u32,
    last: Seq<Option<ProjectileSample<P>>>,
    cur: Seq<Option<ProjectileSample<P>>>,
    teleports: Seq<bool>,
    k: int,
    n: int,
    m: int,
)
    requires
        k <= m,
    ensures
        writes_ok(projectile_step_writes(tick, step, gap, last, cur, teleports, k), tick as int, tick as int, n, m),
    decreases k,
{
    if k > 0 {
        lemma_projectile_step_ok(tick, step, gap, last, cur, teleports, k - 1, n, m);
        let f = projectile_fill(last[k - 1], cur[k - 1], teleports[k - 1], step, gap);
        let tail: Seq<CacheWrite<P>> = match f {
            Some(f) => seq![CacheWrite::Projectile { tick, index: (k - 1) as usize, fill: f }],
            None => Seq::empty(),
        };
        assert(writes_ok(tail, tick as int, tick as int, n, m));
        lemma_writes_ok_concat(
            projectile_step_writes(tick, step, gap, last, cur, teleports, k - 1),
            tail,
            tick as int,
            tick as int,
            n,
            m,
        );
    }
}

/// Law: the writes of a gap land in the ticks after the previous snapshot, up to the
/// step reached, in existing rows, and write players only when connected.
pub proof fn lemma_gap_writes_ok<P>(prev_tick: u32, gap: u32, ends: GapEnds<P>, steps: int)
    requires
        0 <= steps <= gap,
        prev_tick + gap <= u32::MAX,
    ensures
        writes_ok(
            gap_writes(prev_tick, gap, ends, steps),
            prev_tick + 1,
            prev_tick + steps,
            ends.players.len() as int,
            ends.projectiles.len() as int,
        ),
    decreases steps,
{
    if steps > 0 {
        let n = ends.players.len() as int;
        let m = ends.projectiles.len() as int;
        let tick = (prev_tick + steps) as u32;
        lemma_gap_writes_ok(prev_tick, gap, ends, steps - 1);
        lemma_writes_ok_widen(
            gap_writes(prev_tick, gap, ends, steps - 1),
            prev_tick + 1,
            prev_tick + steps - 1,
            prev_tick + steps,
            n,
            m,
        );
        let a = player_step_writes(
            tick,
            steps as u32,
            gap,
            ends.last_players,
            ends.players,
            ends.player_teleports,
            n,
        );
        let b = projectile_step_writes(
            tick,
            steps as u32,
            gap,
            ends.last_projectiles,
            ends.projectiles,
            ends.projectile_teleports,
            m,
        );
        lemma_player_step_ok(tick, steps as u32, gap, ends.last_players, ends.players, ends.player_teleports, n, n, m);
        lemma_projectile_step_ok(tick, steps as u32, gap, ends.last_projectiles, ends.projectiles, ends.projectile_teleports, m, n, m);
        assert forall|i: int| 0 <= i < a.len() implies write_ok(#[trigger] a[i], prev_tick + 1, prev_tick + steps, n, m) by {
            assert(write_ok(a[i], tick as int, tick as int, n, m));
        }
        assert forall|i: int| 0 <= i < b.len() implies write_ok(#[trigger] b[i], prev_tick + 1, prev_tick + steps, n, m) by {
            assert(write_ok(b[i], tick as int, tick as int, n, m));
        }
        lemma_writes_ok_concat(gap_writes(prev_tick, gap, ends, steps - 1), a, prev_tick + 1, prev_tick + steps, n, m);
        lemma_writes_ok_concat(gap_writes(prev_tick, gap, ends, steps - 1) + a, b, prev_tick + 1, prev_tick + steps, n, m);
    }
}

/// Law: the writes of the first snapshot land at its tick, in existing rows, and
/// write players only when connected.
pub proof fn lemma_first_writes_ok<P>(
    tick: u32,
    players: Seq<Option<PlayerSample<P>>>,
    projectiles: Seq<Option<ProjectileSample<P>>>,
    k: int,
    j: int,
)
    requires
        0 <= k <= players.len(),
        0 <= j <= projectiles.len(),
    ensures
        writes_ok(
            first_player_writes(tick, players, k) + first_projectile_writes(tick, projectiles, j),
            tick as int,
            tick as int,
            players.len() as int,
            projectiles.len() as int,
        ),
    decreases k + j,
{
    let n = players.len() as int;
    let m = projectiles.len() as int;
    if j > 0 {
        lemma_first_writes_ok(tick, players, projectiles, k, j - 1);
        let tail: Seq<CacheWrite<P>> = match projectiles[j - 1] {
            Some(s) => seq![
                CacheWrite::Projectile {
                    tick,
                    index: (j - 1) as usize,
                    fill: ProjectileFill { sample: s, blend: None },
                },
            ],
            None => Seq::empty(),
        };
        assert(writes_ok(tail, tick as int, tick as int, n, m));
        lemma_writes_ok_concat(
            first_player_writes(tick, players, k) + first_projectile_writes(tick, projectiles, j - 1),
            tail,
            tick as int,
            tick as int,
            n,
            m,
        );
        assert(first_player_writes(tick, players, k) + first_projectile_writes(tick, projectiles, j)
            =~= first_player_writes(tick, players, k) + first_projectile_writes(tick, projectiles, j - 1) + tail);
    } else if k > 0 {
        lemma_first_writes_ok(tick, players, projectiles, k - 1, 0);
        let tail: Seq<CacheWrite<P>> = if is_connected(players[k - 1]) {
            seq![
                CacheWrite::Player {
                    tick,
                    index: (k - 1) as usize,
                    fill: PlayerFill { sample: players[k - 1]->0, blend: None },
                },
            ]
        } else {
            Seq::empty()
        };
        assert(writes_ok(tail, tick as int, tick as int, n, m));
        assert(first_projectile_writes(tick, projectiles, 0) =~= Seq::<CacheWrite<P>>::empty());
        assert(first_player_writes(tick, players, k - 1) + first_projectile_writes(tick, projectiles, 0)
            =~= first_player_writes(tick, players, k - 1));
        lemma_writes_ok_concat(first_player_writes(tick, players, k - 1), tail, tick as int, tick as int, n, m);
        assert(first_player_writes(tick, players, k) + first_projectile_writes(tick, projectiles, 0)
            =~= first_player_writes(tick, players, k - 1) + tail);
    } else {
        assert(first_player_writes(tick, players, 0) + first_projectile_writes(tick, projectiles, 0)
            =~= Seq::<CacheWrite<P>>::empty());
    }
}

/// Whether `w` writes player row `index` at `tick`.
pub open spec fn writes_player_at<P>(w: CacheWrite<P>, tick: int, index: int) -> bool {
    match w {
        CacheWrite::Player { tick: t, index: i, fill } => t == tick && i == index,
        CacheWrite::Projectile { .. } => false,
    }
}

/// Whether `w` writes projectile row `index` at `tick`.
pub open spec fn writes_projectile_at<P>(w: CacheWrite<P>, tick: int, index: int) -> bool {
    match w {
        CacheWrite::Projectile { tick: t, index: i, fill } => t == tick && i == index,
        CacheWrite::Player { .. } => false,
    }
}

proof fn lemma_player_step_has<P>(
    tick: u32,
    step: u32,
    gap: u32,
    last: Seq<Option<PlayerSample<P>>>,
    cur: Seq<Option<PlayerSample<P>>>,
    teleports: Seq<bool>,
    k: int,
    i: int,
) -> (j: int)
    requires
        0 <= i < k,
        i <= usize::MAX,
        player_fill(last[i], cur[i], teleports[i], step, gap) is Some,
    ensures
        0 <= j < player_step_writes(tick, step, gap, last, cur, teleports, k).len(),
        writes_player_at(player_step_writes(tick, step, gap, last, cur, teleports, k)[j], tick as int, i),
    decreases k,
{
    let ws = player_step_writes(tick, step, gap, last, cur, teleports, k);
    let prev = player_step_writes(tick, step, gap, last, cur, teleports, k - 1);
    if i == k - 1 {
        let f = player_fill(last[i], cur[i], teleports[i], step, gap)->0;
        assert(ws == prev + seq![CacheWrite::Player { tick, index: (k - 1) as usize, fill: f }]);
        assert(writes_player_at(ws[prev.len() as int], tick as int, i));
        prev.len() as int
    } else {
        let j = lemma_player_step_has(tick, step, gap, last, cur, teleports, k - 1, i);
        assert(ws[j] == prev[j]);
        j
    }
}

proof fn lemma_projectile_step_has<P>(
    tick: u32,
    step: u32,
    gap: u32,
    last: Seq<Option<ProjectileSample<P>>>,
    cur: Seq<Option<ProjectileSample<P>>>,
    teleports: Seq<bool>,
    k: int,
    i: int,
) -> (j: int)
    requires
        0 <= i < k,
        i <= usize::MAX,
        projectile_fill(last[i], cur[i], teleports[i], step, gap) is Some,
    ensures
        0 <= j < projectile_step_writes(tick, step, gap, last, cur, teleports, k).len(),
        writes_projectile_at(projectile_step_writes(tick, step, gap, last, cur, teleports, k)[j], tick as int, i),
    decreases k,
{
    let ws = projectile_step_writes(tick, step, gap, last, cur, teleports, k);
    let prev = projectile_step_writes(tick, step, gap, last, cur, teleports, k - 1);
    if i == k - 1 {
        let f = projectile_fill(last[i], cur[i], teleports[i], step, gap)->0;
        assert(ws == prev + seq![CacheWrite::Projectile { tick, index: (k - 1) as usize, fill: f }]);
        assert(writes_projectile_at(ws[prev.len() as int], tick as int, i));
        prev.len() as int
    } else {
        let j = lemma_projectile_step_has(tick, step, gap, last, cur, teleports, k - 1, i);
        assert(ws[j] == prev[j]);
        j
    }
}

/// The writes of the first `s` steps of a gap begin the writes of its first `steps` steps.
proof fn lemma_gap_prefix<P>(prev_tick: u32, gap: u32, ends: GapEnds<P>, s: int, steps: int)
    requires
        0 <= s <= steps,
    ensures
        gap_writes(prev_tick, gap, ends, s).len() <= gap_writes(prev_tick, gap, ends, steps).len(),
        forall|q: int|
            0 <= q < gap_writes(prev_tick, gap, ends, s).len() ==> #[trigger] gap_writes(
                prev_tick,
                gap,
                ends,
                steps,
            )[q] == gap_writes(prev_tick, gap, ends, s)[q],
    decreases steps - s,
{
    if s < steps {
        lemma_gap_prefix(prev_tick, gap, ends, s, steps - 1);
        let g0 = gap_writes(prev_tick, gap, ends, steps - 1);
        let g = gap_writes(prev_tick, gap, ends, steps);
        assert forall|q: int| 0 <= q < g0.len() implies #[trigger] g[q] == g0[q] by {}
    }
}

/// The writes of step `s` of a gap come right after those of its first `s - 1` steps.
proof fn lemma_gap_step_position<P>(prev_tick: u32, gap: u32, ends: GapEnds<P>, s: int)
    requires
        1 <= s <= gap,
        prev_tick + gap <= u32::MAX,
    ensures
        forall|j: int|
            0 <= j < player_step_writes(
                (prev_tick + s) as u32,
                s as u32,
                gap,
                ends.last_players,
                ends.players,
                ends.player_teleports,
                ends.players.len() as int,
            ).len() ==> gap_writes(prev_tick, gap, ends, s)[gap_writes(prev_tick, gap, ends, s - 1).len()
                + j] == #[trigger] player_step_writes(
                (prev_tick + s) as u32,
                s as u32,
                gap,
                ends.last_players,
                ends.players,
                ends.player_teleports,
                ends.players.len() as int,
            )[j],
        forall|j: int|
            0 <= j < projectile_step_writes(
                (prev_tick + s) as u32,
                s as u32,
                gap,
                ends.last_projectiles,
                ends.projectiles,
                ends.projectile_teleports,
                ends.projectiles.len() as int,
            ).len() ==> gap_writes(prev_tick, gap, ends, s)[gap_writes(prev_tick, gap, ends, s - 1).len()
                + player_step_writes(
                (prev_tick + s) as u32,
                s as u32,
                gap,
                ends.last_players,
                ends.players,
                ends.player_teleports,
                ends.players.len() as int,
            ).len() + j] == #[trigger] projectile_step_writes(
                (prev_tick + s) as u32,
                s as u32,
                gap,
                ends.last_projectiles,
                ends.projectiles,
                ends.projectile_teleports,
                ends.projectiles.len() as int,
            )[j],
        gap_writes(prev_tick, gap, ends, s).len() == gap_writes(prev_tick, gap, ends, s - 1).len()
            + player_step_writes(
            (prev_tick + s) as u32,
            s as u32,
            gap,
            ends.last_players,
            ends.players,
            ends.player_teleports,
            ends.players.len() as int,
        ).len() + projectile_step_writes(
            (prev_tick + s) as u32,
            s as u32,
            gap,
            ends.last_projectiles,
            ends.projectiles,
            ends.projectile_teleports,
            ends.projectiles.len() as int,
        ).len(),
{
}

/// Law: filling a gap leaves no hole. Every tick after the previous snapshot, up to
/// and including the new one, gets a write for each player row that is connected in
/// the previous snapshot (at the ticks before the new one) or in the new snapshot
/// (at its own tick); the answer is the position of that write.
pub proof fn lemma_gap_player_no_holes<P>(prev_tick: u32, gap: u32, ends: GapEnds<P>, s: int, i: int) -> (q: int)
    requires
        1 <= s <= gap,
        prev_tick + gap <= u32::MAX,
        0 <= i < ends.players.len(),
        ends.players.len() <= usize::MAX,
        ends.last_players.len() == ends.players.len(),
        ends.player_teleports.len() == ends.players.len(),
        s < gap ==> is_connected(ends.last_players[i]),
        s == gap ==> is_connected(ends.players[i]),
    ensures
        0 <= q < gap_writes(prev_tick, gap, ends, gap as int).len(),
        writes_player_at(gap_writes(prev_tick, gap, ends, gap as int)[q], prev_tick + s, i),
{
    let n = ends.players.len() as int;
    let tick = (prev_tick + s) as u32;
    if s == gap {
        lemma_player_fill_last_step(ends.last_players[i], ends.players[i], ends.player_teleports[i], gap);
    } else {
        lemma_player_fill_inner_step(ends.last_players[i], ends.players[i], ends.player_teleports[i], s as u32, gap);
    }
    let j = lemma_player_step_has(tick, s as u32, gap, ends.last_players, ends.players, ends.player_teleports, n, i);
    lemma_gap_step_position(prev_tick, gap, ends, s);
    lemma_gap_prefix(prev_tick, gap, ends, s, gap as int);
    let pa = player_step_writes(tick, s as u32, gap, ends.last_players, ends.players, ends.player_teleports, n);
    let q = gap_writes(prev_tick, gap, ends, s - 1).len() + j;
    assert(gap_writes(prev_tick, gap, ends, s)[q] == pa[j]);
    assert(gap_writes(prev_tick, gap, ends, gap as int)[q] == gap_writes(prev_tick, gap, ends, s)[q]);
    q
}

/// Law: filling a gap leaves no hole, for projectiles: every tick after the previous
/// snapshot gets a write for each projectile row present in the previous snapshot (at
/// the ticks before the new one) or in the new snapshot (at its own tick); the answer
/// is the position of that write.
pub proof fn lemma_gap_projectile_no_holes<P>(
    prev_tick: u32,
    gap: u32,
    ends: GapEnds<P>,
    s: int,
    i: int,
) -> (q: int)
    requires
        1 <= s <= gap,
        prev_tick + gap <= u32::MAX,
        0 <= i < ends.projectiles.len(),
        ends.projectiles.len() <= usize::MAX,
        ends.last_projectiles.len() == ends.projectiles.len(),
        ends.projectile_teleports.len() == ends.projectiles.len(),
        s < gap ==> ends.last_projectiles[i] is Some,
        s == gap ==> ends.projectiles[i] is Some,
    ensures
        0 <= q < gap_writes(prev_tick, gap, ends, gap as int).len(),
        writes_projectile_at(gap_writes(prev_tick, gap, ends, gap as int)[q], prev_tick + s, i),
{
    let n = ends.players.len() as int;
    let m = ends.projectiles.len() as int;
    let tick = (prev_tick + s) as u32;
    if s == gap {
        lemma_projectile_fill_last_step(ends.last_projectiles[i], ends.projectiles[i], ends.projectile_teleports[i], gap);
    } else {
        lemma_projectile_fill_inner_step(ends.last_projectiles[i], ends.projectiles[i], ends.projectile_teleports[i], s as u32, gap);
    }
    let j = lemma_projectile_step_has(tick, s as u32, gap, ends.last_projectiles, ends.projectiles, ends.projectile_teleports, m, i);
    lemma_gap_step_position(prev_tick, gap, ends, s);
    lemma_gap_prefix(prev_tick, gap, ends, s, gap as int);
    let pa = player_step_writes(tick, s as u32, gap, ends.last_players, ends.players, ends.player_teleports, n);
    let pb = projectile_step_writes(tick, s as u32, gap, ends.last_projectiles, ends.projectiles, ends.projectile_teleports, m);
    let q = gap_writes(prev_tick, gap, ends, s - 1).len() + pa.len() + j;
    assert(gap_writes(prev_tick, gap, ends, s)[q] == pb[j]);
    assert(gap_writes(prev_tick, gap, ends, gap as int)[q] == gap_writes(prev_tick, gap, ends, s)[q]);
    q
}

} // verus!
