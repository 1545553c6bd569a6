use tf_demo_parser::cache::{FixedVec, PlayerStats, ProjectileStats};
use tf_demo_parser::codes::{ProjectileType, Team};
use tf_demo_parser::session::{CacheSession, PacketInfo};
use tf_demo_parser::snapshot::{
    fill_player, fill_projectile, pad_samples, Blend, CacheWrite, PlayerFill, PlayerSample,
    ProjectileSample,
};
use tf_demo_parser::timeline::{
    event_tick_of, progress_update, snapshot_tick_of, tick_base_of, TickBaseStats, WARMUP_FRAMES,
};
use tf_demo_parser::users::{MedicState, PlayerInput, ProjectileInput, UserInfo};

fn stats(health: u16, connected: bool) -> PlayerStats {
    PlayerStats { connected, health, class_id: 1, team_id: 2, uber: 0, heal_target: 0, flags: 0 }
}

fn player(pose: i32, health: u16) -> Option<PlayerSample<i32>> {
    Some(PlayerSample { pose, stats: stats(health, true) })
}

#[test]
fn tick_base_is_server_minus_demo_tick() {
    assert_eq!(tick_base_of(1000, 200), 800);
    assert_eq!(tick_base_of(5, 7), -2);
    assert_eq!(tick_base_of(u32::MAX, 0), u32::MAX as i64);
}

#[test]
fn tick_stats_track_ranges_skews_and_changes() {
    let mut s = TickBaseStats::new();
    s.observe(100, 100);
    assert_eq!((s.samples, s.changes, s.base_min, s.base_max), (1, 0, 100, 100));
    assert_eq!((s.skew_min, s.skew_max, s.skew_abs_max), (0, 0, 0));
    s.observe(97, 100);
    s.observe(97, 100);
    s.observe(104, 100);
    assert_eq!(s.samples, 4);
    assert_eq!(s.changes, 2);
    assert_eq!(s.last, Some(104));
    assert_eq!((s.base_min, s.base_max), (97, 104));
    assert_eq!((s.skew_min, s.skew_max, s.skew_abs_max), (-3, 4, 4));
    s.observe(90, 100);
    assert_eq!(s.skew_abs_max, 10);
    assert_eq!(s.skew_min, s.base_min - 100);
    assert_eq!(s.skew_max, s.base_max - 100);
}

#[test]
fn snapshot_tick_keeps_new_ticks_inside_the_cache() {
    assert_eq!(snapshot_tick_of(100, 50, None, 99), None);
    assert_eq!(snapshot_tick_of(100, 50, None, 100), Some(0));
    assert_eq!(snapshot_tick_of(100, 50, None, 149), Some(49));
    assert_eq!(snapshot_tick_of(100, 50, None, 150), None);
    assert_eq!(snapshot_tick_of(100, 50, Some(10), 110), None);
    assert_eq!(snapshot_tick_of(100, 50, Some(10), 109), None);
    assert_eq!(snapshot_tick_of(100, 50, Some(10), 111), Some(11));
}

#[test]
fn event_tick_moves_events_to_the_cached_window() {
    // tick base 800, start at server tick 1000, 100 cached ticks
    assert_eq!(event_tick_of(800, 1000, 100, 150), None);
    assert_eq!(event_tick_of(800, 1000, 100, 200), Some(0));
    assert_eq!(event_tick_of(800, 1000, 100, 299), Some(99));
    assert_eq!(event_tick_of(800, 1000, 100, 300), None);
    assert_eq!(event_tick_of(-5, 0, 10, 10), Some(5));
    assert_eq!(event_tick_of(-5, 0, 10, 4), None);
    // the offset is taken as a u32
    assert_eq!(event_tick_of(u32::MAX as i64, 0, 10, 1), Some(0));
}

#[test]
fn fill_player_follows_the_connection_table() {
    let p = player(10, 100);
    let c = player(20, 50);
    let gone = Some(PlayerSample { pose: 99, stats: stats(1, false) });
    // both connected, no teleport: blend, previous values until the last step
    let f = fill_player(p, c, false, 1, 4).unwrap();
    assert_eq!(f.sample.pose, 10);
    assert_eq!(f.sample.stats.health, 100);
    let b = f.blend.unwrap();
    assert_eq!((b.to, b.step, b.gap), (20, 1, 4));
    let f = fill_player(p, c, false, 4, 4).unwrap();
    assert_eq!(f.sample.pose, 10);
    assert_eq!(f.sample.stats.health, 50);
    assert_eq!(f.blend.unwrap().to, 20);
    // teleport: previous sample until the last step, then the current one
    let f = fill_player(p, c, true, 2, 4).unwrap();
    assert_eq!((f.sample.pose, f.sample.stats.health), (10, 100));
    assert!(f.blend.is_none());
    let f = fill_player(p, c, true, 4, 4).unwrap();
    assert_eq!((f.sample.pose, f.sample.stats.health), (20, 50));
    // disconnecting
    assert_eq!(fill_player(p, gone, false, 2, 4).unwrap().sample.pose, 10);
    assert!(fill_player(p, None, false, 4, 4).is_none());
    // connecting
    assert!(fill_player(None, c, false, 3, 4).is_none());
    assert_eq!(fill_player(gone, c, false, 4, 4).unwrap().sample.pose, 20);
    // neither
    assert!(fill_player(gone, None, false, 4, 4).is_none());
    assert!(fill_player::<i32>(None, None, true, 1, 4).is_none());
}

#[test]
fn fill_projectile_follows_the_presence_table() {
    let p = Some(ProjectileSample { pose: 1, stats: ProjectileStats { team_id: 2, ty: 1 } });
    let c = Some(ProjectileSample { pose: 2, stats: ProjectileStats { team_id: 3, ty: 2 } });
    let f = fill_projectile(p, c, false, 1, 2).unwrap();
    assert_eq!((f.sample.pose, f.sample.stats.team_id, f.blend.unwrap().to), (1, 2, 2));
    let f = fill_projectile(p, c, false, 2, 2).unwrap();
    assert_eq!((f.sample.pose, f.sample.stats.ty), (1, 2));
    let f = fill_projectile(p, c, true, 2, 2).unwrap();
    assert_eq!((f.sample.pose, f.blend.is_none()), (2, true));
    assert_eq!(fill_projectile(p, None, false, 1, 2).unwrap().sample.pose, 1);
    assert!(fill_projectile(p, None, false, 2, 2).is_none());
    assert!(fill_projectile(None, c, false, 1, 2).is_none());
    assert_eq!(fill_projectile(None, c, false, 2, 2).unwrap().sample.pose, 2);
}

#[test]
fn pad_samples_adds_empty_rows() {
    let mut v = vec![Some(1u8)];
    pad_samples(&mut v, 3);
    assert_eq!(v, vec![Some(1), None, None]);
}

fn packet(packet_tick: u32, server_tick: u32, has_players: bool, world_ready: bool) -> PacketInfo {
    PacketInfo { packet_tick, server_tick, match_started: false, has_players, world_ready }
}

fn started_session(ticks: u32) -> CacheSession<i32> {
    let mut s: CacheSession<i32> = CacheSession::new(ticks);
    for i in 0..WARMUP_FRAMES - 1 {
        assert_eq!(s.begin_packet(packet(i, 1000 + i, true, true)), None);
    }
    assert!(!s.started);
    s
}

#[test]
fn caching_starts_after_warmup_with_a_ready_world() {
    let mut s: CacheSession<i32> = CacheSession::new(0);
    assert_eq!(s.tick_capacity, 1);
    let mut s2: CacheSession<i32> = CacheSession::new(200);
    assert_eq!(s2.begin_packet(packet(5, 0, false, true)), None);
    assert_eq!(s2.server_tick_base, None);
    assert_eq!(s2.begin_packet(packet(6, 1006, false, true)), None);
    assert_eq!(s2.server_tick_base, Some(1000));
    assert_eq!(s2.warmup_frames, 0);
    let _ = &mut s;
    let mut s = started_session(200);
    assert_eq!(s.warmup_frames, WARMUP_FRAMES - 1);
    // the world is not ready yet
    assert_eq!(s.begin_packet(packet(200, 1300, true, false)), None);
    assert!(!s.started);
    assert_eq!(s.warmup_frames, WARMUP_FRAMES);
    assert_eq!(s.begin_packet(packet(201, 1301, false, true)), Some(0));
    assert!(s.started);
    assert_eq!((s.start_server_tick, s.start_demo_tick, s.start_tick_base), (1301, 201, 1100));
    assert_eq!(s.stats.samples, 1);
    assert_eq!(s.begin_packet(packet(203, 1305, true, true)), Some(4));
    assert_eq!(s.stats.changes, 1);
    assert_eq!(s.begin_packet(packet(500, 1701, true, true)), None);
}

fn input(entity: u32, pose: i32, health: u16) -> PlayerInput<i32> {
    PlayerInput {
        entity,
        pose,
        connected: true,
        alive: true,
        health,
        class_id: 5,
        team: Team::Blue,
        medic: None,
        flags: 0,
        info: None,
    }
}

#[test]
fn player_input_sample_keeps_health_and_uber_rules() {
    let mut p = input(3, 0, 120);
    p.alive = false;
    p.medic = Some(MedicState { charge: 77, target: Some(0x1_0005) });
    let s = p.sample();
    assert_eq!(s.stats.health, 0);
    assert_eq!(s.stats.uber, 77);
    assert_eq!(s.stats.heal_target, 5);
    assert_eq!(s.stats.team_id, 3);
    let q = ProjectileInput { entity: 9, pose: 1, team: Team::Red, ty: ProjectileType::Sticky };
    assert_eq!(q.sample().stats, ProjectileStats { team_id: 2, ty: 3 });
}

#[test]
fn stage_gives_rows_in_order_of_first_sight() {
    let mut s = started_session(100);
    assert_eq!(s.begin_packet(packet(300, 1400, true, true)), Some(0));
    let mut named = input(50, 5, 80);
    named.info = Some(UserInfo {
        name: "scout".to_string(),
        user_id: 7,
        steam_id: "[U:1:2]".to_string(),
        entity_id: 50,
        team: Team::Red,
    });
    let players = vec![input(40, 1, 100), named, input(40, 2, 90)];
    let projectiles = vec![ProjectileInput { entity: 900, pose: 3, team: Team::Red, ty: ProjectileType::Rocket }];
    let (cur, curp) = s.stage(&players, &projectiles);
    assert_eq!(s.player_ids, vec![40, 50]);
    assert_eq!(s.cache.player_count, 2);
    assert_eq!(cur.len(), 2);
    assert_eq!(cur[0].unwrap().pose, 2);
    assert_eq!(cur[0].unwrap().stats.health, 90);
    assert_eq!(cur[1].unwrap().pose, 5);
    assert_eq!(s.player_info[1].as_ref().unwrap().name, "scout");
    assert!(s.player_info[0].is_none());
    assert_eq!(s.cache.projectiles, vec![900]);
    assert_eq!(curp[0].unwrap().stats, ProjectileStats { team_id: 2, ty: 1 });
    let (cur, _) = s.stage(&vec![input(60, 7, 1)], &vec![]);
    assert_eq!(s.player_ids, vec![40, 50, 60]);
    assert_eq!(cur[0].is_none(), true);
    assert_eq!(cur[2].unwrap().pose, 7);
    assert_eq!(s.player_info[1].as_ref().unwrap().user_id, 7);
}

fn tick_of(w: &CacheWrite<i32>) -> (u32, bool, usize) {
    match w {
        CacheWrite::Player { tick, index, .. } => (*tick, true, *index),
        CacheWrite::Projectile { tick, index, .. } => (*tick, false, *index),
    }
}

#[test]
fn first_snapshot_writes_its_own_tick() {
    let mut s = started_session(100);
    let internal = s.begin_packet(packet(300, 1400, true, true)).unwrap();
    assert_eq!(internal, 0);
    let mut offline = input(41, 9, 9);
    offline.connected = false;
    let projectiles = vec![ProjectileInput { entity: 7, pose: 3, team: Team::Blue, ty: ProjectileType::Pipe }];
    let (cur, curp) = s.stage(&vec![input(40, 1, 100), offline], &projectiles);
    let writes = s.advance(internal, cur, curp, &vec![false, false], &vec![false]);
    let ticks: Vec<_> = writes.iter().map(tick_of).collect();
    assert_eq!(ticks, vec![(0, true, 0), (0, false, 0)]);
    assert_eq!(s.last_snapshot_tick, Some(0));
    assert_eq!(s.max_written_tick, 0);
}

#[test]
fn later_snapshots_fill_every_tick_of_the_gap() {
    let mut s = started_session(100);
    let t0 = s.begin_packet(packet(300, 1400, true, true)).unwrap();
    let (cur, curp) = s.stage(&vec![input(40, 0, 100), input(41, 0, 100)], &vec![]);
    s.advance(t0, cur, curp, &vec![false, false], &vec![]);
    let t1 = s.begin_packet(packet(303, 1403, true, true)).unwrap();
    assert_eq!(t1, 3);
    let mut leaving = input(41, 0, 100);
    leaving.connected = false;
    let (cur, curp) = s.stage(&vec![input(40, 30, 70), leaving, input(42, 5, 5)], &vec![]);
    let writes = s.advance(t1, cur, curp, &vec![false, false, false], &vec![]);
    let ticks: Vec<_> = writes.iter().map(tick_of).collect();
    assert_eq!(
        ticks,
        vec![
            (1, true, 0),
            (1, true, 1),
            (2, true, 0),
            (2, true, 1),
            (3, true, 0),
            (3, true, 2),
        ]
    );
    match &writes[2] {
        CacheWrite::Player { fill: PlayerFill { sample, blend: Some(Blend { to, step, gap }) }, .. } => {
            assert_eq!((sample.pose, *to, *step, *gap), (0, 30, 2, 3));
            assert_eq!(sample.stats.health, 100);
        },
        _ => panic!("expected a blended player write"),
    }
    match &writes[4] {
        CacheWrite::Player { fill, .. } => assert_eq!(fill.sample.stats.health, 70),
        _ => panic!("expected a player write"),
    }
    for w in &writes {
        if let CacheWrite::Player { fill, .. } = w {
            assert!(fill.sample.stats.connected);
        }
    }
    assert_eq!(s.max_written_tick, 3);
    let summary = s.finish();
    assert_eq!(summary.ticks, 4);
    assert_eq!(summary.start_tick, 1400);
    assert_eq!(summary.tick_base, 1100);
    assert_eq!(summary.tick_base_first, 1000);
}

#[test]
fn planned_writes_can_be_carried_out() {
    let mut s = started_session(10);
    let t0 = s.begin_packet(packet(300, 1400, true, true)).unwrap();
    let (cur, curp) = s.stage(
        &vec![input(40, 4, 100)],
        &vec![ProjectileInput { entity: 1, pose: 8, team: Team::Red, ty: ProjectileType::Rocket }],
    );
    let writes = s.advance(t0, cur, curp, &vec![false], &vec![false]);
    for w in writes {
        match w {
            CacheWrite::Player { tick, index, fill } => {
                let p = fill.sample.pose as u32;
                s.write_player(tick, index, FixedVec { x: p, y: p, z: p }, FixedVec { x: 0, y: 0, z: 0 }, fill.sample.stats)
            },
            CacheWrite::Projectile { tick, index, fill } => {
                let p = fill.sample.pose as u32;
                s.write_projectile(tick, index, FixedVec { x: p, y: 0, z: 0 }, FixedVec { x: 0, y: 0, z: 0 }, fill.sample.stats)
            },
        }
    }
    assert_eq!(&s.cache.positions[0][0..3], &[4, 4, 4]);
    assert_eq!(s.cache.health[0][0], 100);
    assert_eq!(s.cache.connected[0][0], 1);
    assert_eq!(s.cache.projectile_positions[0][0], 8);
}

#[test]
fn progress_only_moves_forward_up_to_100() {
    assert_eq!(progress_update(0, 5), Some(5));
    assert_eq!(progress_update(5, 5), None);
    assert_eq!(progress_update(5, 4), None);
    assert_eq!(progress_update(99, 100), Some(100));
    assert_eq!(progress_update(50, 101), None);
}

#[test]
fn skews_straddle_zero_and_changes_trail_samples() {
    let mut s = TickBaseStats::new();
    for base in [500i64, 503, 498, 498, 510] {
        s.observe(base, 500);
        assert!(s.skew_min <= 0 && 0 <= s.skew_max);
        assert!(s.base_min <= 500 && 500 <= s.base_max);
        assert!(s.changes < s.samples);
    }
    assert_eq!((s.samples, s.changes), (5, 3));
}

#[test]
fn nothing_is_cached_when_caching_never_starts() {
    let mut s: CacheSession<i32> = CacheSession::new(50);
    for i in 0..300 {
        assert_eq!(s.begin_packet(packet(i, 1000 + i, true, false)), None);
    }
    assert!(!s.started);
    let summary = s.finish();
    assert_eq!(summary.ticks, 1);
    assert_eq!((summary.start_tick, summary.start_demo_tick, summary.stats.samples), (0, 0, 0));
    assert_eq!(summary.tick_base, summary.tick_base_first);
    assert_eq!(summary.stats.changes, 0);
    assert_eq!(
        (summary.stats.base_min, summary.stats.base_max),
        (0, 0)
    );
    assert_eq!(
        (summary.stats.skew_min, summary.stats.skew_max, summary.stats.skew_abs_max),
        (0, 0, 0)
    );
    assert_eq!(s.cache.player_count, 0);
    assert!(s.cache.projectiles.is_empty());
}
