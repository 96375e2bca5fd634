//! Player controller: horizontal movement from the held keys, the jump with
//! its grace window, gravity with terminal velocity, vertical resolution, and
//! lethal contact with drones.

use vstd::prelude::*;
use crate::geometry::{aabb_overlap, aabb_test, BLOCK_SIZE};
use crate::entities::{
    blocks_wf, drones_model, pairs_model, player_pos_loose, player_wf, Drone, DroneM, Player,
    PlayerM, POS_LIMIT,
};
use crate::physics::{
    lemma_resolve_h_bound, lemma_resolve_v_player_bound, resolve_h, resolve_horizontal,
    resolve_player_vertical, resolve_v_player,
};

verus! {

/// Horizontal key handling: each held key moves the player 8 px and sets the
/// facing; when both are held the right key is applied last and wins the
/// facing.
pub open spec fn apply_h_input(p: PlayerM, key_left: bool, key_right: bool) -> PlayerM {
    let p1 = if key_left {
        PlayerM { x: p.x - 8, going_right: false, ..p }
    } else {
        p
    };
    if key_right {
        PlayerM { x: p1.x + 8, going_right: true, ..p1 }
    } else {
        p1
    }
}

/// The jump: permitted only on the ground or within the grace window while
/// `g` is still below 4; it sets the jump impulse and marks the player
/// airborne.
pub open spec fn apply_jump(p: PlayerM, key_up: bool) -> PlayerM {
    if key_up && !p.in_air && p.g < 4 {
        PlayerM { g: -16, in_air: true, ..p }
    } else {
        p
    }
}

/// Gravity: the vertical velocity moves the player, then grows by 1 up to the
/// terminal velocity of 16.
pub open spec fn apply_gravity(p: PlayerM) -> PlayerM {
    let p1 = PlayerM { y: p.y + p.g, ..p };
    if p1.g < 16 {
        PlayerM { g: p1.g + 1, ..p1 }
    } else {
        p1
    }
}

/// Lethal contact: a living player overlapping any drone dies.
pub open spec fn apply_drone_contact(p: PlayerM, drones: Seq<DroneM>) -> PlayerM {
    if p.alive && (exists|i: int|
        0 <= i < drones.len() && aabb_overlap(
            p.x,
            p.y,
            BLOCK_SIZE as int,
            #[trigger] drones[i].x,
            drones[i].y,
            BLOCK_SIZE as int,
        )) {
        PlayerM { alive: false, ..p }
    } else {
        p
    }
}

/// One tick of the player: while alive, horizontal input with horizontal
/// resolution and then the jump; unconditionally gravity, vertical resolution
/// and lethal drone contact — a dead player's body still obeys physics.
pub open spec fn player_tick_spec(
    p: PlayerM,
    blocks: Seq<(int, int)>,
    drones: Seq<DroneM>,
    key_left: bool,
    key_right: bool,
    key_up: bool,
) -> PlayerM {
    let p1 = if p.alive {
        let pa = apply_h_input(p, key_left, key_right);
        let pb = PlayerM { x: resolve_h(pa.x, pa.y, blocks), ..pa };
        apply_jump(pb, key_up)
    } else {
        p
    };
    let p2 = apply_gravity(p1);
    let p3 = resolve_v_player(p2, blocks);
    apply_drone_contact(p3, drones)
}

/// After one tick of a well-formed player the position is at most one
/// resolution step outside the simulated range and the vertical velocity is
/// back inside its band.
pub proof fn lemma_player_tick_bounds(
    p: PlayerM,
    blocks: Seq<(int, int)>,
    drones: Seq<DroneM>,
    key_left: bool,
    key_right: bool,
    key_up: bool,
)
    requires
        player_wf(p),
        blocks_wf(blocks),
    ensures
        ({
            let r = player_tick_spec(p, blocks, drones, key_left, key_right, key_up);
            &&& -(POS_LIMIT as int) - 40 <= r.x <= POS_LIMIT as int + 40
            &&& -(POS_LIMIT as int) - 40 <= r.y <= POS_LIMIT as int + 40
            &&& player_pos_loose(r)
            &&& -16 <= r.g <= 16
        }),
{
    let p1 = if p.alive {
        let pa = apply_h_input(p, key_left, key_right);
        let pb = PlayerM { x: resolve_h(pa.x, pa.y, blocks), ..pa };
        apply_jump(pb, key_up)
    } else {
        p
    };
    if p.alive {
        let pa = apply_h_input(p, key_left, key_right);
        lemma_resolve_h_bound(pa.x, pa.y, blocks, blocks.len() as int);
    }
    let p2 = apply_gravity(p1);
    lemma_resolve_v_player_bound(p2, blocks, blocks.len() as int);
}

/// Advance the player by one tick against the blocks and drones, following
/// `player_tick_spec` exactly.
pub fn player_tick(
    p: &mut Player,
    blocks: &Vec<(i32, i32)>,
    drones: &Vec<Drone>,
    key_left: bool,
    key_right: bool,
    key_up: bool,
)
    requires
        player_wf(old(p)@),
        blocks_wf(pairs_model(blocks@)),
    ensures
        final(p)@ == player_tick_spec(
            old(p)@,
            pairs_model(blocks@),
            drones_model(drones@),
            key_left,
            key_right,
            key_up,
        ),
{
    let ghost bm = pairs_model(blocks@);
    let ghost dm = drones_model(drones@);
    if p.alive {
        if key_left {
            p.x = p.x - 8;
            p.going_right = false;
        }
        if key_right {
            p.x = p.x + 8;
            p.going_right = true;
        }
        p.x = resolve_horizontal(p.x, p.y, blocks);
        if key_up && !p.in_air && p.g < 4 {
            p.g = -16;
            p.in_air = true;
        }
    }
    p.y = p.y + p.g;
    if p.g < 16 {
        p.g = p.g + 1;
    }
    *p = resolve_player_vertical(*p, blocks);
    if p.alive {
        let mut hit = false;
        let mut i: usize = 0;
        while i < drones.len()
            invariant
                0 <= i <= drones.len(),
                hit == (exists|k: int|
                    0 <= k < i && aabb_overlap(
                        p.x as int,
                        p.y as int,
                        BLOCK_SIZE as int,
                        #[trigger] dm[k].x,
                        dm[k].y,
                        BLOCK_SIZE as int,
                    )),
            decreases drones.len() - i,
        {
            assert(dm[i as int] == drones@[i as int]@);
            if aabb_test(p.x, p.y, BLOCK_SIZE, drones[i].x, drones[i].y, BLOCK_SIZE) {
                hit = true;
                assert(aabb_overlap(
                    p.x as int,
                    p.y as int,
                    BLOCK_SIZE as int,
                    dm[i as int].x,
                    dm[i as int].y,
                    BLOCK_SIZE as int,
                ));
            }
            i = i + 1;
        }
        if hit {
            p.alive = false;
        }
    }
}

} // verus!
