//! The simulation step: one fixed-timestep tick of the whole world, in the
//! order the game applies it — player physics, player fire, bullet advance,
//! bullets against drones, bullets against the player, bullets against
//! walls, then the drone AI.

use vstd::prelude::*;
use crate::geometry::{aabb_overlap, square_dist, BLOCK_SIZE};
use crate::entities::{
    bullet_wf, bullets_model, input_wf, level_wf, player_pos_loose, pos_loose, Bullet, Input,
    InputM, Level, LevelM, PlayerM,
};
use crate::player::{
    apply_gravity, apply_h_input, apply_jump, lemma_player_tick_bounds, player_tick,
    player_tick_spec,
};
use crate::bullets::{
    advance_bullets, advance_bullets_spec, drone_bullet_pass, drone_bullet_phase,
    lemma_drone_bullet_pass_len, lemma_drone_bullet_pass_wf, next_shoot_counter, player_bullet,
    player_bullet_pass, player_bullet_phase, player_fires, wall_pass, wall_phase,
    lemma_drone_bullet_pass_no_bullets,
};
use crate::drone::{drone_ai_phase, drones_ai, lemma_drones_ai_idle};
use crate::physics::{lemma_resolve_h_noop, lemma_resolve_v_player_bound, resolve_h};

verus! {

/// One tick of the world: the next level state and the next attack-hold
/// counter, given the input snapshot and one random draw per drone.
pub open spec fn world_step_spec(l: LevelM, inp: InputM, rolls: Seq<u32>) -> (LevelM, int) {
    let p1 = player_tick_spec(
        l.player,
        l.blocks,
        l.drones,
        inp.key_left,
        inp.key_right,
        inp.key_up,
    );
    let c1 = next_shoot_counter(inp.shoot_counter, inp.key_attack, p1.alive);
    let bs1 = if player_fires(c1) {
        l.bullets.push(player_bullet(p1))
    } else {
        l.bullets
    };
    let bs2 = advance_bullets_spec(bs1);
    let dp = drone_bullet_pass(l.drones, bs2);
    let pp = player_bullet_pass(p1, dp.1);
    let bs5 = wall_pass(pp.1, l.blocks);
    let ai = drones_ai(dp.0, pp.0, l.blocks, rolls);
    (LevelM { player: pp.0, drones: ai.0, bullets: bs5 + ai.1, ..l }, c1)
}

/// Update the attack-hold counter and spawn the player's bullet when the
/// counter says so.
fn fire_phase(lvl: &mut Level, input: &mut Input)
    requires
        input_wf(old(input)@),
        player_pos_loose(old(lvl)@.player),
    ensures
        final(input)@ == (InputM {
            shoot_counter: next_shoot_counter(
                old(input)@.shoot_counter,
                old(input)@.key_attack,
                old(lvl)@.player.alive,
            ),
            ..old(input)@
        }),
        final(lvl)@ == (LevelM {
            bullets: if player_fires(
                next_shoot_counter(
                    old(input)@.shoot_counter,
                    old(input)@.key_attack,
                    old(lvl)@.player.alive,
                ),
            ) {
                old(lvl)@.bullets.push(player_bullet(old(lvl)@.player))
            } else {
                old(lvl)@.bullets
            },
            ..old(lvl)@
        }),
{
    if input.key_attack && lvl.player.alive {
        input.shoot_counter = input.shoot_counter + 1;
    } else {
        input.shoot_counter = 0;
    }
    if input.shoot_counter % 10 == 1 {
        let b = Bullet {
            x: if lvl.player.going_right {
                lvl.player.x + 32
            } else {
                lvl.player.x
            },
            y: lvl.player.y + 18,
            going_right: lvl.player.going_right,
            source_is_drone: false,
        };
        lvl.bullets.push(b);
        proof {
            assert(bullets_model(lvl.bullets@) =~= old(lvl)@.bullets.push(
                player_bullet(old(lvl)@.player),
            ));
            assert(lvl@ =~= (LevelM {
                bullets: old(lvl)@.bullets.push(player_bullet(old(lvl)@.player)),
                ..old(lvl)@
            }));
        }
    }
}

/// Advance the world by one tick, following `world_step_spec` exactly: the
/// level is stepped in place and the input's attack-hold counter updated,
/// with `rolls[i]` standing in for drone `i`'s random draw.
pub fn world_step(lvl: &mut Level, input: &mut Input, rolls: &Vec<u32>)
    requires
        level_wf(old(lvl)@),
        input_wf(old(input)@),
        rolls@.len() == old(lvl)@.drones.len(),
    ensures
        final(lvl)@ == world_step_spec(old(lvl)@, old(input)@, rolls@).0,
        final(input)@ == (InputM {
            shoot_counter: world_step_spec(old(lvl)@, old(input)@, rolls@).1,
            ..old(input)@
        }),
{
    let ghost l0 = old(lvl)@;
    let ghost i0 = old(input)@;
    let ghost p1 = player_tick_spec(
        l0.player,
        l0.blocks,
        l0.drones,
        i0.key_left,
        i0.key_right,
        i0.key_up,
    );
    proof {
        lemma_player_tick_bounds(
            l0.player,
            l0.blocks,
            l0.drones,
            i0.key_left,
            i0.key_right,
            i0.key_up,
        );
    }

    let mut pl = lvl.player;
    player_tick(&mut pl, &lvl.blocks, &lvl.drones, input.key_left, input.key_right, input.key_up);
    lvl.player = pl;
    proof {
        assert(lvl@ =~= (LevelM { player: p1, ..l0 }));
    }

    fire_phase(lvl, input);
    let ghost c1 = next_shoot_counter(i0.shoot_counter, i0.key_attack, p1.alive);
    let ghost bs1 = if player_fires(c1) {
        l0.bullets.push(player_bullet(p1))
    } else {
        l0.bullets
    };
    proof {
        assert(lvl@.bullets == bs1);
        assert forall|i: int| 0 <= i < lvl@.bullets.len() implies pos_loose(
            (#[trigger] lvl@.bullets[i]).x,
        ) by {
            if i < l0.bullets.len() {
                assert(bullet_wf(l0.bullets[i]));
            } else {
                assert(lvl@.bullets[i] == player_bullet(p1));
            }
        }
    }

    advance_bullets(lvl);
    let ghost bs2 = advance_bullets_spec(bs1);

    drone_bullet_phase(lvl);
    let ghost dp = drone_bullet_pass(l0.drones, bs2);

    player_bullet_phase(lvl);
    let ghost pp = player_bullet_pass(p1, dp.1);

    wall_phase(lvl);
    let ghost bs5 = wall_pass(pp.1, l0.blocks);
    proof {
        assert(lvl@ =~= (LevelM { player: pp.0, drones: dp.0, bullets: bs5, ..l0 }));
        lemma_drone_bullet_pass_wf(l0.drones, bs2);
        lemma_drone_bullet_pass_len(l0.drones, bs2);
    }

    drone_ai_phase(lvl, rolls);
    proof {
        let ai = drones_ai(dp.0, pp.0, l0.blocks, rolls@);
        assert(lvl@ =~= (LevelM {
            player: pp.0,
            drones: ai.0,
            bullets: bs5 + ai.1,
            ..l0
        }));
        assert(lvl@ =~= world_step_spec(l0, i0, rolls@).0);
    }
}

/// Relies on rand::random::<u32>: one uniform draw from the thread-local
/// generator; nothing is promised of the value.
#[verifier::external_body]
fn random_u32() -> u32 {
    rand::random::<u32>()
}

/// Advance the world by one tick, drawing each drone's firing roll from the
/// process-wide random generator: the step holds for some sequence of draws.
pub fn world_step_random(lvl: &mut Level, input: &mut Input)
    requires
        level_wf(old(lvl)@),
        input_wf(old(input)@),
    ensures
        exists|rolls: Seq<u32>|
            {
                &&& rolls.len() == old(lvl)@.drones.len()
                &&& final(lvl)@ == (#[trigger] world_step_spec(old(lvl)@, old(input)@, rolls)).0
                &&& final(input)@ == (InputM {
                    shoot_counter: world_step_spec(old(lvl)@, old(input)@, rolls).1,
                    ..old(input)@
                })
            },
{
    let n = lvl.drones.len();
    let mut rolls: Vec<u32> = Vec::new();
    let mut i: usize = 0;
    while i < n
        invariant
            rolls@.len() == i,
            i <= n,
        decreases n - i,
    {
        rolls.push(random_u32());
        i = i + 1;
    }
    world_step(lvl, input, &rolls);
    proof {
        assert(world_step_spec(old(lvl)@, old(input)@, rolls@).0 == lvl@);
    }
}

/// An idle world stays put: with no keys held, no bullets, the player clear
/// of every block and every drone, and every drone far from the player and
/// with its pursuit counter at most 31, one step changes no horizontal
/// position and no facing — only the gravity-driven vertical motion of the
/// player remains, and no bullet appears.
pub proof fn lemma_step_idle(l: LevelM, inp: InputM, rolls: Seq<u32>)
    requires
        level_wf(l),
        !inp.key_left,
        !inp.key_right,
        !inp.key_up,
        !inp.key_attack,
        l.bullets.len() == 0,
        forall|i: int|
            0 <= i < l.blocks.len() ==> !aabb_overlap(
                l.player.x,
                l.player.y,
                BLOCK_SIZE as int,
                #[trigger] l.blocks[i].0,
                l.blocks[i].1,
                BLOCK_SIZE as int,
            ),
        forall|i: int|
            0 <= i < l.drones.len() ==> ({
                let p1 = player_tick_spec(l.player, l.blocks, l.drones, false, false, false);
                &&& square_dist(p1.x, p1.y, (#[trigger] l.drones[i]).x, l.drones[i].y) > 279 * 279
                &&& !aabb_overlap(
                    p1.x,
                    p1.y,
                    BLOCK_SIZE as int,
                    l.drones[i].x,
                    l.drones[i].y,
                    BLOCK_SIZE as int,
                )
                &&& l.drones[i].pursuit <= 31
            }),
    ensures
        ({
            let r = world_step_spec(l, inp, rolls).0;
            &&& r.player.x == l.player.x
            &&& r.player.going_right == l.player.going_right
            &&& r.player.alive == l.player.alive
            &&& r.bullets.len() == 0
            &&& r.drones.len() == l.drones.len()
            &&& forall|i: int|
                0 <= i < r.drones.len() ==> (#[trigger] r.drones[i]).x == l.drones[i].x
                    && r.drones[i].y == l.drones[i].y && r.drones[i].going_right
                    == l.drones[i].going_right
        }),
{
    let p1 = player_tick_spec(l.player, l.blocks, l.drones, false, false, false);
    lemma_resolve_h_noop(l.player.x, l.player.y, l.blocks, l.blocks.len() as int);
    let pmid = if l.player.alive {
        let pa = apply_h_input(l.player, false, false);
        let pb = PlayerM { x: resolve_h(pa.x, pa.y, l.blocks), ..pa };
        apply_jump(pb, false)
    } else {
        l.player
    };
    assert(pmid.x == l.player.x);
    let p2 = apply_gravity(pmid);
    lemma_resolve_v_player_bound(p2, l.blocks, l.blocks.len() as int);
    let c1 = next_shoot_counter(inp.shoot_counter, false, p1.alive);
    assert(c1 == 0);
    assert(!player_fires(0));
    let bs2 = advance_bullets_spec(l.bullets);
    assert(bs2.len() == 0);
    lemma_drone_bullet_pass_no_bullets(l.drones, bs2);
    let dp = drone_bullet_pass(l.drones, bs2);
    let pp = player_bullet_pass(p1, dp.1);
    assert(pp.0 == p1);
    assert(wall_pass(pp.1, l.blocks).len() == 0);
    lemma_drones_ai_idle(dp.0, pp.0, l.blocks, rolls, dp.0.len() as int);
}

} // verus!
