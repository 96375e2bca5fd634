//! Drone AI: pursuit hysteresis gated on distance and line of sight,
//! vertical alignment, firing, and horizontal approach, each tick.

use vstd::prelude::*;
use crate::geometry::{
    distance2d, is_ceil_dist, line2box, line_box_intersect, square_dist, BLOCK_SIZE,
};
use crate::entities::{
    blocks_wf, bullets_model, drone_wf, drones_model, pairs_model, player_pos_loose, Bullet,
    BulletM, Drone, DroneM, Level, LevelM, Player, PlayerM,
};
use crate::physics::{resolve_h, resolve_horizontal, resolve_v, resolve_vertical};

verus! {

/// Absolute value.
pub open spec fn abs_val(v: int) -> int {
    if v < 0 {
        -v
    } else {
        v
    }
}

/// Some block's edges cut the segment between the player's centre and the
/// drone's centre, breaking the drone's sight.
pub open spec fn sight_blocked(p: PlayerM, d: DroneM, blocks: Seq<(int, int)>) -> bool {
    exists|i: int|
        0 <= i < blocks.len() && line_box_intersect(
            p.x + 20,
            p.y + 20,
            d.x + 20,
            d.y + 20,
            #[trigger] blocks[i].0,
            blocks[i].1,
            BLOCK_SIZE as int,
        )
}

/// The drone has the player in close range: the integer distance is below
/// 280 — exactly when the squared distance is at most 279 * 279 — and no
/// block breaks the line of sight.
pub open spec fn drone_close(p: PlayerM, d: DroneM, blocks: Seq<(int, int)>) -> bool {
    square_dist(p.x, p.y, d.x, d.y) <= 279 * 279 && !sight_blocked(p, d, blocks)
}

/// The integer (ceiling) distance is below 280 exactly when the squared
/// distance is at most 279 * 279.
pub proof fn lemma_ceil_dist_range(x1: int, y1: int, x2: int, y2: int, r: int)
    requires
        is_ceil_dist(x1, y1, x2, y2, r),
    ensures
        (r < 280) == (square_dist(x1, y1, x2, y2) <= 279 * 279),
{
    let n = square_dist(x1, y1, x2, y2);
    if r < 280 {
        assert(r * r <= 279 * 279) by (nonlinear_arith)
            requires
                0 <= r <= 279,
        ;
    } else {
        assert((r - 1) * (r - 1) >= 279 * 279) by (nonlinear_arith)
            requires
                r - 1 >= 279,
        ;
    }
}

/// One tick of one drone, given the player, the blocks, and this tick's
/// random draw. The shoot timer always advances; the pursuit counter decays
/// when the player is out of close range and climbs by 2, below its cap,
/// when in range; an engaged drone first aligns vertically, else may fire
/// (one chance in 30, with at least 90 ticks since the last shot), and
/// approaches horizontally while far or out of sight.
pub open spec fn drone_tick_spec(
    d: DroneM,
    p: PlayerM,
    blocks: Seq<(int, int)>,
    roll: u32,
) -> (DroneM, Option<BulletM>) {
    let st = d.shoot_timer + 1;
    let is_close = drone_close(p, d, blocks);
    let los = !sight_blocked(p, d, blocks);
    let pursuit = if !is_close && d.pursuit > 0 {
        d.pursuit - 1
    } else {
        d.pursuit
    };
    if is_close || pursuit > 30 {
        let pursuit2 = if is_close && pursuit < 120 {
            pursuit + 2
        } else {
            pursuit
        };
        let dx = abs_val(p.x - d.x);
        let dy = abs_val(p.y - d.y);
        let aligned = dy <= 16;
        let y2 = if !aligned {
            resolve_v(
                if d.y < p.y {
                    d.y + 6
                } else if d.y > p.y {
                    d.y - 6
                } else {
                    d.y
                },
                d.x,
                blocks,
            )
        } else {
            d.y
        };
        let fires = aligned && roll as int % 30 == 0 && st > 90;
        let st2 = if fires {
            0
        } else {
            st
        };
        let spawned = if fires {
            Option::Some(
                BulletM {
                    x: if d.x < p.x {
                        d.x + 40
                    } else {
                        d.x - 8
                    },
                    y: d.y + 18,
                    going_right: d.x < p.x,
                    source_is_drone: true,
                },
            )
        } else {
            Option::None
        };
        let x2 = if dx > 100 || !los {
            resolve_h(
                if d.x < p.x {
                    d.x + 4
                } else if d.x > p.x {
                    d.x - 4
                } else {
                    d.x
                },
                y2,
                blocks,
            )
        } else {
            d.x
        };
        (DroneM { x: x2, y: y2, pursuit: pursuit2, shoot_timer: st2, ..d }, spawned)
    } else {
        (DroneM { pursuit, shoot_timer: st, ..d }, Option::None)
    }
}

/// Advance one drone by one tick, following `drone_tick_spec` exactly, and
/// hand back the bullet it fired, if any.
pub fn drone_tick(d: &mut Drone, player: &Player, blocks: &Vec<(i32, i32)>, roll: u32) -> (spawned:
    Option<Bullet>)
    requires
        drone_wf(old(d)@),
        blocks_wf(pairs_model(blocks@)),
        player_pos_loose(player@),
    ensures
        final(d)@ == drone_tick_spec(old(d)@, player@, pairs_model(blocks@), roll).0,
        match spawned {
            Option::Some(b) => drone_tick_spec(old(d)@, player@, pairs_model(blocks@), roll).1
                == Option::Some(b@),
            Option::None => drone_tick_spec(old(d)@, player@, pairs_model(blocks@), roll).1
                is None,
        },
{
    let ghost bm = pairs_model(blocks@);
    let dist = distance2d(player.x, player.y, d.x, d.y);
    proof {
        lemma_ceil_dist_range(player@.x, player@.y, old(d)@.x, old(d)@.y, dist as int);
    }
    let mut is_close = dist < 280;
    let mut los = true;
    d.shoot_timer = d.shoot_timer + 1;
    let mut i: usize = 0;
    while i < blocks.len()
        invariant
            0 <= i <= blocks@.len(),
            los == !(exists|k: int|
                0 <= k < i && line_box_intersect(
                    player@.x + 20,
                    player@.y + 20,
                    old(d)@.x + 20,
                    old(d)@.y + 20,
                    #[trigger] bm[k].0,
                    bm[k].1,
                    BLOCK_SIZE as int,
                )),
            is_close == (square_dist(player@.x, player@.y, old(d)@.x, old(d)@.y) <= 279 * 279
                && los),
        decreases blocks@.len() - i,
    {
        assert(bm[i as int] == (blocks@[i as int].0 as int, blocks@[i as int].1 as int));
        let intersec = line2box(
            player.x + 20,
            player.y + 20,
            d.x + 20,
            d.y + 20,
            blocks[i].0,
            blocks[i].1,
            BLOCK_SIZE,
        );
        if intersec {
            is_close = false;
            los = false;
            assert(line_box_intersect(
                player@.x + 20,
                player@.y + 20,
                old(d)@.x + 20,
                old(d)@.y + 20,
                bm[i as int].0,
                bm[i as int].1,
                BLOCK_SIZE as int,
            ));
        }
        i = i + 1;
    }
    if !is_close && d.pursuit > 0 {
        d.pursuit = d.pursuit - 1;
    }
    if is_close || d.pursuit > 30 {
        if is_close && d.pursuit < 120 {
            d.pursuit = d.pursuit + 2;
        }
        let dx = if player.x >= d.x {
            player.x - d.x
        } else {
            d.x - player.x
        };
        let dy = if player.y >= d.y {
            player.y - d.y
        } else {
            d.y - player.y
        };
        let mut spawned: Option<Bullet> = None;
        if dy > 16 {
            if d.y < player.y {
                d.y = d.y + 6;
            } else if d.y > player.y {
                d.y = d.y - 6;
            }
            d.y = resolve_vertical(d.y, d.x, blocks);
        } else {
            if roll % 30 == 0 && d.shoot_timer > 90 {
                spawned = Some(
                    Bullet {
                        x: if d.x < player.x {
                            d.x + 40
                        } else {
                            d.x - 8
                        },
                        y: d.y + 18,
                        going_right: d.x < player.x,
                        source_is_drone: true,
                    },
                );
                d.shoot_timer = 0;
            }
        }
        if dx > 100 || !los {
            if d.x < player.x {
                d.x = d.x + 4;
            } else if d.x > player.x {
                d.x = d.x - 4;
            }
            d.x = resolve_horizontal(d.x, d.y, blocks);
        }
        spawned
    } else {
        None
    }
}

/// The first `n` drones advanced by one tick each, with the bullets they
/// fired in drone order.
pub open spec fn drones_ai_prefix(
    ds: Seq<DroneM>,
    p: PlayerM,
    blocks: Seq<(int, int)>,
    rolls: Seq<u32>,
    n: int,
) -> (Seq<DroneM>, Seq<BulletM>)
    decreases n,
{
    if n <= 0 {
        (Seq::empty(), Seq::empty())
    } else {
        let r = drones_ai_prefix(ds, p, blocks, rolls, n - 1);
        let t = drone_tick_spec(ds[n - 1], p, blocks, rolls[n - 1]);
        (
            r.0.push(t.0),
            match t.1 {
                Option::Some(b) => r.1.push(b),
                Option::None => r.1,
            },
        )
    }
}

/// Every drone advanced by one tick, with the bullets fired this tick.
pub open spec fn drones_ai(
    ds: Seq<DroneM>,
    p: PlayerM,
    blocks: Seq<(int, int)>,
    rolls: Seq<u32>,
) -> (Seq<DroneM>, Seq<BulletM>) {
    drones_ai_prefix(ds, p, blocks, rolls, ds.len() as int)
}

/// The AI pass keeps one drone per drone.
pub proof fn lemma_drones_ai_prefix_len(
    ds: Seq<DroneM>,
    p: PlayerM,
    blocks: Seq<(int, int)>,
    rolls: Seq<u32>,
    n: int,
)
    requires
        0 <= n,
    ensures
        drones_ai_prefix(ds, p, blocks, rolls, n).0.len() == n,
    decreases n,
{
    if n > 0 {
        lemma_drones_ai_prefix_len(ds, p, blocks, rolls, n - 1);
    }
}

/// Drones far from the player, with their pursuit counters at or below 31,
/// disengage: the AI tick moves none of them and fires nothing; only the
/// pursuit counters decay and the shoot timers advance.
pub proof fn lemma_drones_ai_idle(
    ds: Seq<DroneM>,
    p: PlayerM,
    blocks: Seq<(int, int)>,
    rolls: Seq<u32>,
    n: int,
)
    requires
        0 <= n <= ds.len(),
        forall|i: int|
            0 <= i < ds.len() ==> square_dist(p.x, p.y, (#[trigger] ds[i]).x, ds[i].y) > 279
                * 279,
        forall|i: int| 0 <= i < ds.len() ==> (#[trigger] ds[i]).pursuit <= 31,
    ensures
        drones_ai_prefix(ds, p, blocks, rolls, n).0.len() == n,
        drones_ai_prefix(ds, p, blocks, rolls, n).1.len() == 0,
        forall|i: int|
            0 <= i < n ==> {
                &&& (#[trigger] drones_ai_prefix(ds, p, blocks, rolls, n).0[i]).x == ds[i].x
                &&& drones_ai_prefix(ds, p, blocks, rolls, n).0[i].y == ds[i].y
                &&& drones_ai_prefix(ds, p, blocks, rolls, n).0[i].going_right
                    == ds[i].going_right
            },
    decreases n,
{
    if n > 0 {
        lemma_drones_ai_idle(ds, p, blocks, rolls, n - 1);
        let prev = drones_ai_prefix(ds, p, blocks, rolls, n - 1);
        let t = drone_tick_spec(ds[n - 1], p, blocks, rolls[n - 1]);
        assert(!drone_close(p, ds[n - 1], blocks));
        assert(t.0.x == ds[n - 1].x && t.0.y == ds[n - 1].y && t.0.going_right == ds[n
            - 1].going_right);
        assert(t.1 is None);
        assert(drones_ai_prefix(ds, p, blocks, rolls, n).0 == prev.0.push(t.0));
        assert forall|i: int| 0 <= i < n implies {
            &&& (#[trigger] drones_ai_prefix(ds, p, blocks, rolls, n).0[i]).x == ds[i].x
            &&& drones_ai_prefix(ds, p, blocks, rolls, n).0[i].y == ds[i].y
            &&& drones_ai_prefix(ds, p, blocks, rolls, n).0[i].going_right == ds[i].going_right
        } by {
            if i < n - 1 {
                assert(prev.0.push(t.0)[i] == prev.0[i]);
            } else {
                assert(prev.0.push(t.0)[i] == t.0);
            }
        }
    }
}

/// Run one AI tick over every drone of the level, appending the bullets they
/// fire to the level's bullets.
pub fn drone_ai_phase(lvl: &mut Level, rolls: &Vec<u32>)
    requires
        player_pos_loose(old(lvl)@.player),
        blocks_wf(old(lvl)@.blocks),
        forall|i: int|
            0 <= i < old(lvl)@.drones.len() ==> drone_wf(#[trigger] old(lvl)@.drones[i]),
        rolls@.len() >= old(lvl)@.drones.len(),
    ensures
        final(lvl)@ == (LevelM {
            drones: drones_ai(
                old(lvl)@.drones,
                old(lvl)@.player,
                old(lvl)@.blocks,
                rolls@,
            ).0,
            bullets: old(lvl)@.bullets + drones_ai(
                old(lvl)@.drones,
                old(lvl)@.player,
                old(lvl)@.blocks,
                rolls@,
            ).1,
            ..old(lvl)@
        }),
{
    let ghost ds0 = drones_model(old(lvl).drones@);
    let ghost bs0 = bullets_model(old(lvl).bullets@);
    let ghost blks = pairs_model(old(lvl).blocks@);
    proof {
        assert(drones_model(lvl.drones@) =~= drones_ai_prefix(ds0, old(lvl)@.player, blks,
            rolls@, 0).0 + ds0.skip(0));
        assert(bullets_model(lvl.bullets@) =~= bs0 + drones_ai_prefix(ds0, old(lvl)@.player,
            blks, rolls@, 0).1);
    }
    let mut i: usize = 0;
    while i < lvl.drones.len()
        invariant
            0 <= i <= ds0.len(),
            lvl.drones@.len() == ds0.len(),
            drones_model(lvl.drones@) == drones_ai_prefix(
                ds0,
                old(lvl)@.player,
                blks,
                rolls@,
                i as int,
            ).0 + ds0.skip(i as int),
            bullets_model(lvl.bullets@) == bs0 + drones_ai_prefix(
                ds0,
                old(lvl)@.player,
                blks,
                rolls@,
                i as int,
            ).1,
            lvl.player == old(lvl).player,
            lvl.level_width == old(lvl).level_width,
            lvl.level_height == old(lvl).level_height,
            lvl.spawn_spots@ == old(lvl).spawn_spots@,
            lvl.blocks@ == old(lvl).blocks@,
        decreases ds0.len() - i,
    {
        let ghost pre = drones_ai_prefix(ds0, old(lvl)@.player, blks, rolls@, i as int);
        proof {
            lemma_drones_ai_prefix_len(ds0, old(lvl)@.player, blks, rolls@, i as int);
            assert(drones_model(lvl.drones@)[i as int] == ds0[i as int]);
        }
        let mut d = lvl.drones[i];
        assert(d@ == ds0[i as int]);
        let ghost dm_pre = drones_model(lvl.drones@);
        let ghost bm_pre = bullets_model(lvl.bullets@);
        let sp = drone_tick(&mut d, &lvl.player, &lvl.blocks, rolls[i]);
        let ghost t = drone_tick_spec(ds0[i as int], old(lvl)@.player, blks, rolls@[i as int]);
        proof {
            assert(d@ == t.0);
        }
        lvl.drones.set(i, d);
        proof {
            assert(drones_model(lvl.drones@) =~= dm_pre.update(i as int, t.0));
            assert(pre.0.len() == i as int);
            assert(dm_pre.update(i as int, t.0) =~= pre.0.push(t.0) + ds0.skip(i as int + 1));
        }
        match sp {
            Option::Some(b) => {
                lvl.bullets.push(b);
                proof {
                    assert(t.1 == Option::Some(b@));
                    assert(bullets_model(lvl.bullets@) =~= bm_pre.push(b@));
                    assert((bs0 + pre.1).push(b@) =~= bs0 + pre.1.push(b@));
                }
            },
            Option::None => {
                proof {
                    assert(t.1 is None);
                }
            },
        }
        proof {
            let post = drones_ai_prefix(ds0, old(lvl)@.player, blks, rolls@, i as int + 1);
            assert(post.0 == pre.0.push(t.0));
            assert(post.1 == match t.1 {
                Option::Some(b) => pre.1.push(b),
                Option::None => pre.1,
            });
            assert(drones_model(lvl.drones@) == post.0 + ds0.skip(i as int + 1));
            assert(bullets_model(lvl.bullets@) == bs0 + post.1);
        }
        i = i + 1;
    }
    proof {
        assert(ds0.skip(ds0.len() as int) =~= Seq::<DroneM>::empty());
        assert(drones_model(lvl.drones@) =~= drones_ai(ds0, old(lvl)@.player, blks, rolls@).0);
        assert(lvl@ =~= (LevelM {
            drones: drones_ai(old(lvl)@.drones, old(lvl)@.player, old(lvl)@.blocks, rolls@).0,
            bullets: old(lvl)@.bullets + drones_ai(
                old(lvl)@.drones,
                old(lvl)@.player,
                old(lvl)@.blocks,
                rolls@,
            ).1,
            ..old(lvl)@
        }));
    }
}

} // verus!
