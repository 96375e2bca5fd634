use platformer_core::bullets::{advance_bullets, wall_phase};
use platformer_core::drone::drone_tick;
use platformer_core::entities::{Bullet, Drone, Input, Level, Player};
use platformer_core::physics::resolve_horizontal;
use platformer_core::player::player_tick;
use platformer_core::step::world_step;

fn make_level(player: Player, blocks: Vec<(i32, i32)>, drones: Vec<Drone>, bullets: Vec<Bullet>) -> Level {
    Level {
        player,
        level_width: 16,
        level_height: 12,
        spawn_spots: vec![],
        blocks,
        drones,
        bullets,
    }
}

fn idle_input() -> Input {
    Input { key_left: false, key_right: false, key_up: false, key_attack: false, shoot_counter: 0 }
}

fn grounded_player(x: i32, y: i32) -> Player {
    Player { x, y, g: 0, in_air: false, alive: true, going_right: true }
}

fn idle_drone(x: i32, y: i32) -> Drone {
    Drone { x, y, pursuit: 0, health: 3, going_right: true, shoot_timer: 0 }
}

#[test]
fn player_new_starts_airborne_at_origin() {
    let p = Player::new();
    assert_eq!(p.x, 0);
    assert_eq!(p.y, 0);
    assert_eq!(p.g, 0);
    assert!(p.in_air);
    assert!(p.alive);
    assert!(p.going_right);
}

#[test]
fn horizontal_resolution_stops_at_block_edge() {
    // Coming from the left of the block.
    assert_eq!(resolve_horizontal(72, 0, &vec![(100, 0)]), 60);
    // Coming from the right of the block.
    assert_eq!(resolve_horizontal(128, 0, &vec![(100, 0)]), 140);
    // No overlap: untouched.
    assert_eq!(resolve_horizontal(200, 0, &vec![(100, 0)]), 200);
}

#[test]
fn player_walking_into_block_stops_at_edge_vertical_untouched() {
    let blocks = vec![(100, 0)];
    let mut p = grounded_player(60, 0);
    // Touching the block's left edge; holding right pushes into it and the
    // resolver pushes straight back out.
    player_tick(&mut p, &blocks, &vec![], false, true, false);
    assert_eq!(p.x, 100 - 40);
    assert_eq!(p.y, 0);
    assert!(p.going_right);
}

#[test]
fn gravity_caps_at_terminal_velocity() {
    let mut p = Player::new();
    for _ in 0..17 {
        player_tick(&mut p, &vec![], &vec![], false, false, false);
    }
    assert_eq!(p.g, 16);
    // And it stays there.
    player_tick(&mut p, &vec![], &vec![], false, false, false);
    assert_eq!(p.g, 16);
}

#[test]
fn jump_grace_allows_jump_below_g4() {
    let mut p = Player { x: 0, y: 100, g: 3, in_air: false, alive: true, going_right: true };
    player_tick(&mut p, &vec![], &vec![], false, false, true);
    // The jump set g to -16 and lifted off; the same tick's gravity then
    // moved the player up 16 px and decayed g to -15.
    assert!(p.in_air);
    assert_eq!(p.y, 100 - 16);
    assert_eq!(p.g, -15);
}

#[test]
fn jump_grace_refuses_jump_at_g4() {
    let mut p = Player { x: 0, y: 100, g: 4, in_air: false, alive: true, going_right: true };
    player_tick(&mut p, &vec![], &vec![], false, false, true);
    assert!(!p.in_air);
    assert_eq!(p.y, 104);
    assert_eq!(p.g, 5);
}

#[test]
fn touching_a_drone_kills_the_player() {
    let drones = vec![idle_drone(20, 0)];
    let mut p = grounded_player(0, 0);
    player_tick(&mut p, &vec![], &drones, false, false, false);
    assert!(!p.alive);
}

#[test]
fn pursuit_decays_to_disengagement_in_twenty_ticks() {
    let player = grounded_player(0, 0);
    let mut d = Drone { x: 10000, y: 0, pursuit: 50, health: 3, going_right: true, shoot_timer: 0 };
    let mut x_after_19 = 0;
    for tick in 1..=20 {
        drone_tick(&mut d, &player, &vec![], 1);
        if tick == 19 {
            x_after_19 = d.x;
        }
    }
    assert_eq!(d.pursuit, 30);
    // Engaged through tick 19 (pursuit still above 30 after its decay), so it
    // kept approaching; at tick 20 the counter reaches 30 and it disengages.
    assert_eq!(x_after_19, 10000 - 19 * 4);
    assert_eq!(d.x, x_after_19);
}

#[test]
fn bullets_advance_by_their_speeds() {
    let mut lvl = make_level(
        grounded_player(0, 5000),
        vec![],
        vec![],
        vec![
            Bullet { x: 100, y: 0, going_right: true, source_is_drone: false },
            Bullet { x: 100, y: 0, going_right: false, source_is_drone: true },
        ],
    );
    advance_bullets(&mut lvl);
    assert_eq!(lvl.bullets[0].x, 120);
    assert_eq!(lvl.bullets[1].x, 90);
}

#[test]
fn bullet_overlapping_block_is_removed() {
    let mut lvl = make_level(
        grounded_player(0, 5000),
        vec![(0, 0)],
        vec![],
        vec![
            Bullet { x: 10, y: 10, going_right: true, source_is_drone: false },
            Bullet { x: 300, y: 300, going_right: true, source_is_drone: false },
        ],
    );
    wall_phase(&mut lvl);
    assert_eq!(lvl.bullets.len(), 1);
    assert_eq!(lvl.bullets[0].x, 300);
}

#[test]
fn falling_player_lands_on_floor_row() {
    // One floor row; the player spawns two block heights above it.
    let blocks = vec![(0, 80), (40, 80), (80, 80)];
    let mut lvl = make_level(
        Player { x: 40, y: 0, g: 0, in_air: true, alive: true, going_right: true },
        blocks,
        vec![],
        vec![],
    );
    let mut input = idle_input();
    for _ in 0..30 {
        world_step(&mut lvl, &mut input, &vec![]);
    }
    assert!(!lvl.player.in_air);
    assert_eq!(lvl.player.y, 80 - 40);
    assert_eq!(lvl.player.x, 40);
}

#[test]
fn aligned_drone_in_range_fires_once() {
    let player = grounded_player(0, 0);
    let mut d = Drone { x: 250, y: 0, pursuit: 0, health: 3, going_right: true, shoot_timer: 91 };
    let spawned = drone_tick(&mut d, &player, &vec![], 0);
    let b = spawned.expect("the drone should fire");
    assert_eq!(d.shoot_timer, 0);
    assert!(b.source_is_drone);
    assert!(!b.going_right);
    assert_eq!(b.x, 250 - 8);
    assert_eq!(b.y, 18);
}

#[test]
fn drone_fires_exactly_one_bullet_in_a_step() {
    let mut lvl = make_level(
        grounded_player(0, 0),
        vec![],
        vec![Drone { x: 250, y: 0, pursuit: 0, health: 3, going_right: true, shoot_timer: 91 }],
        vec![],
    );
    let mut input = idle_input();
    world_step(&mut lvl, &mut input, &vec![0]);
    assert_eq!(lvl.bullets.len(), 1);
    assert_eq!(lvl.drones[0].shoot_timer, 0);
}

#[test]
fn cooldown_holds_drone_fire() {
    // Same position and roll, but the shot timer is still warming up.
    let player = grounded_player(0, 0);
    let mut d = Drone { x: 250, y: 0, pursuit: 0, health: 3, going_right: true, shoot_timer: 50 };
    let spawned = drone_tick(&mut d, &player, &vec![], 0);
    assert!(spawned.is_none());
    assert_eq!(d.shoot_timer, 51);
}

#[test]
fn blocked_sight_suppresses_engagement() {
    // A block sits square between drone and player, cutting the sight line.
    let player = grounded_player(0, 0);
    let mut d = Drone { x: 240, y: 0, pursuit: 0, health: 3, going_right: true, shoot_timer: 91 };
    let blocks = vec![(120, 0)];
    let spawned = drone_tick(&mut d, &player, &blocks, 0);
    assert!(spawned.is_none());
    assert_eq!(d.pursuit, 0);
}

#[test]
fn bullet_kills_drone_at_one_health() {
    // The bullet advances 20 px first, then strikes the drone.
    let mut lvl = make_level(
        grounded_player(0, 5000),
        vec![],
        vec![Drone { x: 100, y: 100, pursuit: 0, health: 1, going_right: true, shoot_timer: 0 }],
        vec![Bullet { x: 96, y: 110, going_right: true, source_is_drone: false }],
    );
    let mut input = idle_input();
    world_step(&mut lvl, &mut input, &vec![1]);
    assert_eq!(lvl.drones.len(), 0);
    assert_eq!(lvl.bullets.len(), 0);
}

#[test]
fn bullet_wounds_drone_above_one_health() {
    let mut lvl = make_level(
        grounded_player(0, 5000),
        vec![],
        vec![Drone { x: 100, y: 100, pursuit: 0, health: 3, going_right: true, shoot_timer: 0 }],
        vec![Bullet { x: 96, y: 110, going_right: true, source_is_drone: false }],
    );
    let mut input = idle_input();
    world_step(&mut lvl, &mut input, &vec![1]);
    assert_eq!(lvl.drones.len(), 1);
    assert_eq!(lvl.drones[0].health, 2);
    assert_eq!(lvl.bullets.len(), 0);
}

#[test]
fn drone_bullet_kills_player() {
    // A drone bullet moving left passes over the player's square.
    let mut lvl = make_level(
        grounded_player(0, 0),
        vec![],
        vec![],
        vec![Bullet { x: 40, y: 10, going_right: false, source_is_drone: true }],
    );
    let mut input = idle_input();
    world_step(&mut lvl, &mut input, &vec![]);
    assert!(!lvl.player.alive);
    assert_eq!(lvl.bullets.len(), 0);
}

#[test]
fn attack_hold_fires_on_first_and_eleventh_tick() {
    let mut lvl = make_level(grounded_player(0, 5000), vec![], vec![], vec![]);
    let mut input = Input {
        key_left: false,
        key_right: false,
        key_up: false,
        key_attack: true,
        shoot_counter: 0,
    };
    for _ in 0..10 {
        world_step(&mut lvl, &mut input, &vec![]);
    }
    assert_eq!(lvl.bullets.len(), 1);
    world_step(&mut lvl, &mut input, &vec![]);
    assert_eq!(lvl.bullets.len(), 2);
}

#[test]
fn releasing_attack_resets_the_hold_counter() {
    let mut lvl = make_level(grounded_player(0, 5000), vec![], vec![], vec![]);
    let mut input = idle_input();
    input.key_attack = true;
    world_step(&mut lvl, &mut input, &vec![]);
    assert_eq!(lvl.bullets.len(), 1);
    // Spawned at the facing edge (x + 32) at hand height (y + 18), already
    // advanced 20 px by the same tick.
    assert_eq!(lvl.bullets[0].x, 0 + 32 + 20);
    assert_eq!(lvl.bullets[0].y, 5000 + 18);
    assert!(lvl.bullets[0].going_right);
    assert!(!lvl.bullets[0].source_is_drone);
    input.key_attack = false;
    world_step(&mut lvl, &mut input, &vec![]);
    assert_eq!(input.shoot_counter, 0);
    input.key_attack = true;
    world_step(&mut lvl, &mut input, &vec![]);
    // A fresh hold fires again at once.
    assert_eq!(lvl.bullets.len(), 2);
}

#[test]
fn idle_world_changes_only_vertical_motion() {
    // Player standing on a floor block, a far-away calm drone, no bullets,
    // no keys: horizontal positions and facings stay put.
    let mut lvl = make_level(
        grounded_player(0, 0),
        vec![(0, 40)],
        vec![idle_drone(5000, 0)],
        vec![],
    );
    let mut input = idle_input();
    for _ in 0..10 {
        world_step(&mut lvl, &mut input, &vec![7]);
    }
    assert_eq!(lvl.player.x, 0);
    assert!(lvl.player.going_right);
    assert!(lvl.player.alive);
    assert_eq!(lvl.drones[0].x, 5000);
    assert_eq!(lvl.drones[0].y, 0);
    assert!(lvl.drones[0].going_right);
    assert_eq!(lvl.bullets.len(), 0);
}

#[test]
fn drone_descends_toward_player_and_is_stopped_by_block() {
    // The drone aligns vertically first, resolving against blocks on the way.
    // It sits straight above the player, with a block in between; losing
    // sight through the block keeps it pursuing on its counter alone.
    let player = grounded_player(160, 200);
    let mut d = Drone { x: 160, y: 0, pursuit: 100, health: 3, going_right: true, shoot_timer: 0 };
    let blocks = vec![(160, 80)];
    drone_tick(&mut d, &player, &blocks, 1);
    // dy = 200 > 16: it moves down 6, nowhere near the block yet.
    assert_eq!(d.y, 6);
    for _ in 0..20 {
        drone_tick(&mut d, &player, &blocks, 1);
    }
    // It cannot pass the block below: clamped to its top edge.
    assert_eq!(d.y, 80 - 40);
    assert_eq!(d.x, 160);
}
