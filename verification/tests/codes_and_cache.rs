use tf_demo_parser::cache::{
    CacheBuilder, FixedVec, PlayerStats, ProjectileStats, DUCK_SHIFT, HEALTH_SHIFT, META_SHIFT,
    STATUS_SHIFT,
};
use tf_demo_parser::codes::{
    duck_state, map_projectile_type, map_team, match_team_to_id, match_team_to_str, pack_meta,
    ProjectileType, Team,
};

#[test]
fn team_codes_match_the_viewer() {
    assert_eq!(map_team(Team::Spectator), 1);
    assert_eq!(map_team(Team::Red), 2);
    assert_eq!(map_team(Team::Blue), 3);
    assert_eq!(map_team(Team::Other), 0);
    for team in [Team::Other, Team::Spectator, Team::Red, Team::Blue] {
        assert_eq!(map_team(team), match_team_to_id(team));
    }
}

#[test]
fn team_names_match_the_viewer() {
    assert_eq!(match_team_to_str(Team::Red), "red");
    assert_eq!(match_team_to_str(Team::Blue), "blue");
    assert_eq!(match_team_to_str(Team::Spectator), "spectator");
    assert_eq!(match_team_to_str(Team::Other), "");
}

#[test]
fn projectile_codes_match_the_viewer() {
    assert_eq!(map_projectile_type(ProjectileType::Rocket), 1);
    assert_eq!(map_projectile_type(ProjectileType::Pipe), 2);
    assert_eq!(map_projectile_type(ProjectileType::Sticky), 3);
    assert_eq!(map_projectile_type(ProjectileType::HealingArrow), 4);
    assert_eq!(map_projectile_type(ProjectileType::Other), 0);
}

#[test]
fn pack_meta_puts_class_low_and_team_high() {
    assert_eq!(pack_meta(9, 3), 0x39);
    assert_eq!(pack_meta(0, 0), 0);
    // only the low nibble of each is kept
    assert_eq!(pack_meta(0x1f, 0x2a), 0xaf);
    for class in 0..=255u8 {
        for team in [0u8, 1, 2, 3, 15, 16, 255] {
            let meta = pack_meta(class, team);
            assert_eq!(meta & 0x0f, class & 0x0f);
            assert_eq!(meta >> 4, team & 0x0f);
        }
    }
}

#[test]
fn duck_state_reads_the_two_duck_flags() {
    assert_eq!(duck_state(0), 0);
    assert_eq!(duck_state(2), 1);
    assert_eq!(duck_state(4), 2);
    assert_eq!(duck_state(6), 3);
    assert_eq!(duck_state(1), 0);
    assert_eq!(duck_state(0xffff_fff9), 0);
    assert_eq!(duck_state(0xffff_ffff), 3);
}

#[test]
fn sparse_rows_have_one_cell_per_block_and_at_least_one() {
    assert_eq!(CacheBuilder::sparse_row_len(100, HEALTH_SHIFT), 25);
    assert_eq!(CacheBuilder::sparse_row_len(100, META_SHIFT), 1);
    assert_eq!(CacheBuilder::sparse_row_len(100, STATUS_SHIFT), 6);
    assert_eq!(CacheBuilder::sparse_row_len(100, DUCK_SHIFT), 100);
    assert_eq!(CacheBuilder::sparse_row_len(3, HEALTH_SHIFT), 1);
    assert_eq!(CacheBuilder::sparse_row_len(0, STATUS_SHIFT), 1);
    assert_eq!(CacheBuilder::sparse_row_len(128, META_SHIFT), 2);
}

#[test]
fn ensure_player_adds_zeroed_rows_up_to_the_index() {
    let mut b = CacheBuilder::new(100);
    assert_eq!(b.player_count, 0);
    b.ensure_player(2);
    assert_eq!(b.player_count, 3);
    assert_eq!(b.positions.len(), 3);
    for i in 0..3 {
        assert_eq!(b.positions[i], vec![0u32; 300]);
        assert_eq!(b.view_angles[i], vec![0u32; 300]);
        assert_eq!(b.health[i], vec![0u16; 25]);
        assert_eq!(b.meta[i], vec![0u8; 1]);
        assert_eq!(b.connected[i], vec![0u8; 6]);
        assert_eq!(b.uber[i], vec![0u16; 6]);
        assert_eq!(b.heal_target[i], vec![0u16; 6]);
        assert_eq!(b.duck[i], vec![0u8; 100]);
    }
    b.positions[1][0] = 7;
    b.ensure_player(1);
    assert_eq!(b.player_count, 3);
    assert_eq!(b.positions[1][0], 7);
    b.ensure_player(3);
    assert_eq!(b.player_count, 4);
    assert_eq!(b.positions[1][0], 7);
}

#[test]
fn ensure_projectile_reuses_the_row_of_a_known_entity() {
    let mut b = CacheBuilder::new(64);
    assert_eq!(b.ensure_projectile(500), 0);
    assert_eq!(b.ensure_projectile(42), 1);
    assert_eq!(b.ensure_projectile(500), 0);
    assert_eq!(b.projectiles, vec![500, 42]);
    assert_eq!(b.projectile_positions.len(), 2);
    assert_eq!(b.projectile_positions[1].len(), 192);
    assert_eq!(b.projectile_team[1], vec![0u8; 1]);
    assert_eq!(b.projectile_type[0], vec![0u8; 1]);
}

#[test]
fn set_vec_writes_three_cells() {
    let mut row = vec![0u32; 9];
    CacheBuilder::set_vec(&mut row, 1, FixedVec { x: 10, y: 20, z: 30 });
    assert_eq!(row, vec![0, 0, 0, 10, 20, 30, 0, 0, 0]);
}

#[test]
fn sparse_setters_write_the_block_cell_or_nothing() {
    let mut row16 = vec![0u16; 3];
    CacheBuilder::set_u16(&mut row16, 9, 77, 2);
    assert_eq!(row16, vec![0, 0, 77]);
    CacheBuilder::set_u16(&mut row16, 12, 5, 2);
    assert_eq!(row16, vec![0, 0, 77]);
    let mut row8 = vec![0u8; 2];
    CacheBuilder::set_sparse_u8(&mut row8, 16, 4, 4);
    assert_eq!(row8, vec![0, 4]);
    CacheBuilder::set_sparse_u8(&mut row8, 32, 9, 4);
    assert_eq!(row8, vec![0, 4]);
    let mut row = vec![0u16; 2];
    CacheBuilder::set_sparse_u16(&mut row, 15, 3, 4);
    assert_eq!(row, vec![3, 0]);
}

#[test]
fn shifts_up_to_the_word_width_are_handled() {
    let wide = usize::BITS as u8 - 1;
    assert_eq!(CacheBuilder::sparse_row_len(usize::MAX, wide), 1);
    assert_eq!(CacheBuilder::sparse_row_len(5, wide), 1);
    let mut row16 = vec![0u16; 2];
    CacheBuilder::set_u16(&mut row16, usize::MAX, 9, wide);
    assert_eq!(row16, vec![0, 9]);
    CacheBuilder::set_sparse_u16(&mut row16, 3, 4, wide);
    assert_eq!(row16, vec![4, 9]);
    let mut row8 = vec![0u8; 1];
    CacheBuilder::set_sparse_u8(&mut row8, usize::MAX, 7, wide);
    assert_eq!(row8, vec![0]);
}

#[test]
fn write_player_fills_every_cache_of_the_row() {
    let mut b = CacheBuilder::new(100);
    b.ensure_player(1);
    let stats = PlayerStats {
        connected: true,
        health: 150,
        class_id: 5,
        team_id: 3,
        uber: 80,
        heal_target: 12,
        flags: 6,
    };
    b.write_player(
        17,
        1,
        FixedVec { x: 1, y: 2, z: 3 },
        FixedVec { x: 4, y: 5, z: 0 },
        stats,
    );
    assert_eq!(&b.positions[1][51..54], &[1, 2, 3]);
    assert_eq!(&b.view_angles[1][51..54], &[4, 5, 0]);
    assert_eq!(b.health[1][4], 150);
    assert_eq!(b.meta[1][0], 0x35);
    assert_eq!(b.connected[1][1], 1);
    assert_eq!(b.uber[1][1], 80);
    assert_eq!(b.heal_target[1][1], 12);
    assert_eq!(b.duck[1][17], 3);
    assert_eq!(b.positions[0], vec![0u32; 300]);
    let disconnected = PlayerStats { connected: false, ..stats };
    b.write_player(16, 1, FixedVec { x: 0, y: 0, z: 0 }, FixedVec { x: 0, y: 0, z: 0 }, disconnected);
    assert_eq!(b.connected[1][1], 0);
}

#[test]
fn write_projectile_fills_its_row() {
    let mut b = CacheBuilder::new(10);
    let i = b.ensure_projectile(77);
    b.write_projectile(
        9,
        i,
        FixedVec { x: 11, y: 12, z: 13 },
        FixedVec { x: 21, y: 22, z: 23 },
        ProjectileStats { team_id: 2, ty: 1 },
    );
    assert_eq!(&b.projectile_positions[0][27..30], &[11, 12, 13]);
    assert_eq!(&b.projectile_rotations[0][27..30], &[21, 22, 23]);
    assert_eq!(b.projectile_team[0], vec![2]);
    assert_eq!(b.projectile_type[0], vec![1]);
}
