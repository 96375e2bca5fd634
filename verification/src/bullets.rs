//! Bullet manager: advancing bullets, bullets against drones, bullets
//! against the player, and bullets against walls, in the order the tick
//! applies them.

use vstd::prelude::*;
use crate::geometry::{aabb_overlap, aabb_test, BLOCK_SIZE, BULLET_SIZE};
use crate::entities::{
    bullets_model, drone_wf, drones_model, pairs_model, pos_loose, Bullet, BulletM, Drone, DroneM,
    Level, LevelM, PlayerM,
};

verus! {

/// One bullet's move: 20 px per tick for a player bullet, 10 for a drone
/// bullet, along its fixed direction.
pub open spec fn advance_bullet(b: BulletM) -> BulletM {
    let speed: int = if b.source_is_drone {
        10
    } else {
        20
    };
    BulletM { x: if b.going_right { b.x + speed } else { b.x - speed }, ..b }
}

/// Every bullet advanced by one tick.
pub open spec fn advance_bullets_spec(bs: Seq<BulletM>) -> Seq<BulletM> {
    bs.map_values(|b: BulletM| advance_bullet(b))
}

/// The bullet the player fires: from the leading edge at hand height, flying
/// the way the player faces.
pub open spec fn player_bullet(p: PlayerM) -> BulletM {
    BulletM {
        x: if p.going_right {
            p.x + 32
        } else {
            p.x
        },
        y: p.y + 18,
        going_right: p.going_right,
        source_is_drone: false,
    }
}

/// The attack-hold counter: counts held ticks while the player is alive and
/// resets to zero otherwise.
pub open spec fn next_shoot_counter(c: int, key_attack: bool, alive: bool) -> int {
    if key_attack && alive {
        c + 1
    } else {
        0
    }
}

/// The player fires on the first tick of a hold and on every tenth tick of a
/// continued hold.
pub open spec fn player_fires(c: int) -> bool {
    c % 10 == 1
}

/// The bullet's square overlaps the block-sized square at (tx, ty).
pub open spec fn bullet_hits_box(b: BulletM, tx: int, ty: int) -> bool {
    aabb_overlap(b.x, b.y, BULLET_SIZE as int, tx, ty, BLOCK_SIZE as int)
}

/// The highest index of a bullet overlapping the block-sized square at
/// (tx, ty): the first hit found when scanning the list from its end.
pub open spec fn find_last_hit(bs: Seq<BulletM>, tx: int, ty: int) -> Option<int>
    decreases bs.len(),
{
    if bs.len() == 0 {
        Option::None
    } else if bullet_hits_box(bs.last(), tx, ty) {
        Option::Some(bs.len() - 1)
    } else {
        find_last_hit(bs.drop_last(), tx, ty)
    }
}

/// What `find_last_hit` returns: a valid index of an overlapping bullet with
/// none overlapping above it, or nothing when no bullet overlaps.
pub proof fn lemma_find_last_hit(bs: Seq<BulletM>, tx: int, ty: int)
    ensures
        match find_last_hit(bs, tx, ty) {
            Option::Some(j) => {
                &&& 0 <= j < bs.len()
                &&& bullet_hits_box(bs[j], tx, ty)
                &&& forall|k: int| j < k < bs.len() ==> !bullet_hits_box(#[trigger] bs[k], tx, ty)
            },
            Option::None => forall|k: int|
                0 <= k < bs.len() ==> !bullet_hits_box(#[trigger] bs[k], tx, ty),
        },
    decreases bs.len(),
{
    if bs.len() > 0 && !bullet_hits_box(bs.last(), tx, ty) {
        lemma_find_last_hit(bs.drop_last(), tx, ty);
        match find_last_hit(bs.drop_last(), tx, ty) {
            Option::Some(j) => {
                assert(bs.drop_last()[j] == bs[j]);
                assert forall|k: int| j < k < bs.len() implies !bullet_hits_box(
                    #[trigger] bs[k],
                    tx,
                    ty,
                ) by {
                    if k < bs.len() - 1 {
                        assert(!bullet_hits_box(bs.drop_last()[k], tx, ty));
                    } else {
                        assert(bs[k] == bs.last());
                    }
                }
            },
            Option::None => {
                assert forall|k: int| 0 <= k < bs.len() implies !bullet_hits_box(
                    #[trigger] bs[k],
                    tx,
                    ty,
                ) by {
                    if k < bs.len() - 1 {
                        assert(!bullet_hits_box(bs.drop_last()[k], tx, ty));
                    } else {
                        assert(bs[k] == bs.last());
                    }
                }
            },
        }
    }
}

/// Scan the bullets from the end for the first one overlapping the
/// block-sized square at (tx, ty).
fn find_last_hit_exec(bullets: &Vec<Bullet>, tx: i32, ty: i32) -> (r: Option<usize>)
    ensures
        match r {
            Option::Some(j) => j < bullets@.len() && find_last_hit(
                bullets_model(bullets@),
                tx as int,
                ty as int,
            ) == Option::Some(j as int),
            Option::None => find_last_hit(bullets_model(bullets@), tx as int, ty as int)
                is None,
        },
{
    let ghost bm = bullets_model(bullets@);
    proof {
        assert(bm.take(bm.len() as int) =~= bm);
    }
    let mut j: usize = bullets.len();
    while j > 0
        invariant
            j <= bullets@.len(),
            find_last_hit(bm, tx as int, ty as int) == find_last_hit(
                bm.take(j as int),
                tx as int,
                ty as int,
            ),
        decreases j,
    {
        j = j - 1;
        assert(bm[j as int] == bullets@[j as int]@);
        if aabb_test(bullets[j].x, bullets[j].y, BULLET_SIZE, tx, ty, BLOCK_SIZE) {
            proof {
                assert(bm.take(j as int + 1).last() == bm[j as int]);
            }
            return Some(j);
        }
        proof {
            assert(bm.take(j as int + 1).drop_last() =~= bm.take(j as int));
        }
    }
    None
}

/// Bullets against drones. Drones are scanned from the last to the first;
/// each takes at most one hit per tick — from the latest-spawned overlapping
/// bullet — losing one health or, at one health, leaving the collection; the
/// hitting bullet is removed before earlier drones are scanned.
pub open spec fn drone_bullet_pass(ds: Seq<DroneM>, bs: Seq<BulletM>) -> (Seq<DroneM>, Seq<
    BulletM,
>)
    decreases ds.len(),
{
    if ds.len() == 0 {
        (ds, bs)
    } else {
        let d = ds.last();
        match find_last_hit(bs, d.x, d.y) {
            Option::None => {
                let r = drone_bullet_pass(ds.drop_last(), bs);
                (r.0.push(d), r.1)
            },
            Option::Some(j) => {
                let bs1 = bs.remove(j);
                if d.health > 1 {
                    let r = drone_bullet_pass(ds.drop_last(), bs1);
                    (r.0.push(DroneM { health: d.health - 1, ..d }), r.1)
                } else {
                    drone_bullet_pass(ds.drop_last(), bs1)
                }
            },
        }
    }
}

/// The bullet pass never grows either collection.
pub proof fn lemma_drone_bullet_pass_len(ds: Seq<DroneM>, bs: Seq<BulletM>)
    ensures
        drone_bullet_pass(ds, bs).0.len() <= ds.len(),
        drone_bullet_pass(ds, bs).1.len() <= bs.len(),
    decreases ds.len(),
{
    if ds.len() > 0 {
        let d = ds.last();
        match find_last_hit(bs, d.x, d.y) {
            Option::None => {
                lemma_drone_bullet_pass_len(ds.drop_last(), bs);
            },
            Option::Some(j) => {
                lemma_find_last_hit(bs, d.x, d.y);
                lemma_drone_bullet_pass_len(ds.drop_last(), bs.remove(j));
            },
        }
    }
}

/// With no bullets in flight the pass changes nothing.
pub proof fn lemma_drone_bullet_pass_no_bullets(ds: Seq<DroneM>, bs: Seq<BulletM>)
    requires
        bs.len() == 0,
    ensures
        drone_bullet_pass(ds, bs).0 == ds,
        drone_bullet_pass(ds, bs).1 == bs,
    decreases ds.len(),
{
    if ds.len() > 0 {
        lemma_drone_bullet_pass_no_bullets(ds.drop_last(), bs);
        assert(find_last_hit(bs, ds.last().x, ds.last().y) is None);
        assert(drone_bullet_pass(ds, bs).0 =~= ds.drop_last().push(ds.last()));
        assert(ds.drop_last().push(ds.last()) =~= ds);
    }
}

/// Surviving drones stay well-formed: a hit drone keeps at least one health
/// point or leaves the collection, and nothing else changes.
pub proof fn lemma_drone_bullet_pass_wf(ds: Seq<DroneM>, bs: Seq<BulletM>)
    requires
        forall|i: int| 0 <= i < ds.len() ==> drone_wf(#[trigger] ds[i]),
    ensures
        forall|i: int|
            0 <= i < drone_bullet_pass(ds, bs).0.len() ==> drone_wf(
                #[trigger] drone_bullet_pass(ds, bs).0[i],
            ),
    decreases ds.len(),
{
    if ds.len() > 0 {
        let d = ds.last();
        assert(d == ds[ds.len() - 1]);
        assert forall|i: int| 0 <= i < ds.drop_last().len() implies drone_wf(
            #[trigger] ds.drop_last()[i],
        ) by {
            assert(ds.drop_last()[i] == ds[i]);
        }
        match find_last_hit(bs, d.x, d.y) {
            Option::None => {
                lemma_drone_bullet_pass_wf(ds.drop_last(), bs);
                let r0 = drone_bullet_pass(ds.drop_last(), bs).0;
                assert forall|i: int| 0 <= i < r0.push(d).len() implies drone_wf(
                    #[trigger] r0.push(d)[i],
                ) by {
                    if i < r0.len() {
                        assert(drone_wf(r0[i]));
                    } else {
                        assert(r0.push(d)[i] == d);
                    }
                }
            },
            Option::Some(j) => {
                lemma_find_last_hit(bs, d.x, d.y);
                lemma_drone_bullet_pass_wf(ds.drop_last(), bs.remove(j));
                if d.health > 1 {
                    let d2 = DroneM { health: d.health - 1, ..d };
                    let r0 = drone_bullet_pass(ds.drop_last(), bs.remove(j)).0;
                    assert forall|i: int| 0 <= i < r0.push(d2).len() implies drone_wf(
                        #[trigger] r0.push(d2)[i],
                    ) by {
                        if i < r0.len() {
                            assert(drone_wf(r0[i]));
                        } else {
                            assert(r0.push(d2)[i] == d2);
                        }
                    }
                }
            },
        }
    }
}

/// Bullets against the player: a living player struck by the latest-spawned
/// overlapping bullet dies and that bullet is removed; a dead player stops
/// no bullets.
pub open spec fn player_bullet_pass(p: PlayerM, bs: Seq<BulletM>) -> (PlayerM, Seq<BulletM>) {
    if p.alive {
        match find_last_hit(bs, p.x, p.y) {
            Option::Some(j) => (PlayerM { alive: false, ..p }, bs.remove(j)),
            Option::None => (p, bs),
        }
    } else {
        (p, bs)
    }
}

/// The bullet overlaps some block.
pub open spec fn bullet_hits_any_block(b: BulletM, blocks: Seq<(int, int)>) -> bool {
    exists|i: int| 0 <= i < blocks.len() && bullet_hits_box(b, #[trigger] blocks[i].0, blocks[i].1)
}

/// Bullets against walls: every bullet overlapping any block is removed; the
/// others keep their order.
pub open spec fn wall_pass(bs: Seq<BulletM>, blocks: Seq<(int, int)>) -> Seq<BulletM>
    decreases bs.len(),
{
    if bs.len() == 0 {
        bs
    } else {
        let rest = wall_pass(bs.drop_last(), blocks);
        if bullet_hits_any_block(bs.last(), blocks) {
            rest
        } else {
            rest.push(bs.last())
        }
    }
}

/// No bullet that survives the wall pass overlaps any block.
pub proof fn lemma_wall_pass_clear(bs: Seq<BulletM>, blocks: Seq<(int, int)>)
    ensures
        forall|k: int|
            0 <= k < wall_pass(bs, blocks).len() ==> !bullet_hits_any_block(
                #[trigger] wall_pass(bs, blocks)[k],
                blocks,
            ),
    decreases bs.len(),
{
    if bs.len() > 0 {
        lemma_wall_pass_clear(bs.drop_last(), blocks);
        let rest = wall_pass(bs.drop_last(), blocks);
        if !bullet_hits_any_block(bs.last(), blocks) {
            assert forall|k: int| 0 <= k < rest.push(bs.last()).len() implies
                !bullet_hits_any_block(#[trigger] rest.push(bs.last())[k], blocks) by {
                if k < rest.len() {
                    assert(!bullet_hits_any_block(rest[k], blocks));
                } else {
                    assert(rest.push(bs.last())[k] == bs.last());
                }
            }
        }
    }
}

/// Move every bullet by its speed along its direction.
pub fn advance_bullets(lvl: &mut Level)
    requires
        forall|i: int| 0 <= i < old(lvl)@.bullets.len() ==> pos_loose(#[trigger] old(lvl)@.bullets[i].x),
    ensures
        final(lvl)@ == (LevelM { bullets: advance_bullets_spec(old(lvl)@.bullets), ..old(lvl)@ }),
{
    let ghost bm0 = bullets_model(old(lvl).bullets@);
    let mut i: usize = 0;
    while i < lvl.bullets.len()
        invariant
            0 <= i <= lvl.bullets@.len(),
            lvl.bullets@.len() == bm0.len(),
            forall|k: int|
                0 <= k < i ==> bullets_model(lvl.bullets@)[k] == advance_bullet(#[trigger] bm0[k]),
            forall|k: int| i <= k < bm0.len() ==> bullets_model(lvl.bullets@)[k] == #[trigger] bm0[k],
            lvl.player == old(lvl).player,
            lvl.level_width == old(lvl).level_width,
            lvl.level_height == old(lvl).level_height,
            lvl.spawn_spots@ == old(lvl).spawn_spots@,
            lvl.blocks@ == old(lvl).blocks@,
            lvl.drones@ == old(lvl).drones@,
        decreases lvl.bullets@.len() - i,
    {
        let b = lvl.bullets[i];
        assert(b@ == bm0[i as int]);
        assert(bm0 == old(lvl)@.bullets);
        assert(pos_loose(old(lvl)@.bullets[i as int].x));
        let speed: i32 = if b.source_is_drone {
            10
        } else {
            20
        };
        let nx: i32 = if b.going_right {
            b.x + speed
        } else {
            b.x - speed
        };
        let nb = Bullet { x: nx, ..b };
        lvl.bullets.set(i, nb);
        assert(bullets_model(lvl.bullets@)[i as int] == advance_bullet(bm0[i as int]));
        i = i + 1;
    }
    proof {
        assert(bullets_model(lvl.bullets@) =~= advance_bullets_spec(old(lvl)@.bullets));
        assert(lvl@ =~= (LevelM {
            bullets: advance_bullets_spec(old(lvl)@.bullets),
            ..old(lvl)@
        }));
    }
}

/// Run the bullets-against-drones pass over the level.
pub fn drone_bullet_phase(lvl: &mut Level)
    ensures
        final(lvl)@ == (LevelM {
            drones: drone_bullet_pass(old(lvl)@.drones, old(lvl)@.bullets).0,
            bullets: drone_bullet_pass(old(lvl)@.drones, old(lvl)@.bullets).1,
            ..old(lvl)@
        }),
{
    let ghost ds0 = drones_model(old(lvl).drones@);
    let ghost bs0 = bullets_model(old(lvl).bullets@);
    proof {
        assert(ds0.take(ds0.len() as int) =~= ds0);
        assert(drones_model(lvl.drones@).skip(ds0.len() as int) =~= Seq::<DroneM>::empty());
        assert(drone_bullet_pass(ds0, bs0).0 + Seq::<DroneM>::empty() =~= drone_bullet_pass(
            ds0,
            bs0,
        ).0);
    }
    let mut i: usize = lvl.drones.len();
    while i > 0
        invariant
            i <= lvl.drones@.len(),
            i <= ds0.len(),
            drones_model(lvl.drones@).take(i as int) == ds0.take(i as int),
            drone_bullet_pass(ds0, bs0).0 == drone_bullet_pass(
                ds0.take(i as int),
                bullets_model(lvl.bullets@),
            ).0 + drones_model(lvl.drones@).skip(i as int),
            drone_bullet_pass(ds0, bs0).1 == drone_bullet_pass(
                ds0.take(i as int),
                bullets_model(lvl.bullets@),
            ).1,
            lvl.player == old(lvl).player,
            lvl.level_width == old(lvl).level_width,
            lvl.level_height == old(lvl).level_height,
            lvl.spawn_spots@ == old(lvl).spawn_spots@,
            lvl.blocks@ == old(lvl).blocks@,
        decreases i,
    {
        i = i - 1;
        let ghost dm_pre = drones_model(lvl.drones@);
        let ghost bm_pre = bullets_model(lvl.bullets@);
        let ghost t = ds0.take(i as int + 1);
        proof {
            assert(dm_pre[i as int] == lvl.drones@[i as int]@);
            assert(t.last() == ds0[i as int]);
            assert(t.drop_last() =~= ds0.take(i as int));
            assert(ds0[i as int] == dm_pre[i as int]);
        }
        let d = lvl.drones[i];
        match find_last_hit_exec(&lvl.bullets, d.x, d.y) {
            Option::Some(j) => {
                proof {
                    lemma_find_last_hit(bm_pre, d@.x, d@.y);
                }
                if d.health > 1 {
                    let d2 = Drone { health: d.health - 1, ..d };
                    lvl.drones.set(i, d2);
                    proof {
                        let dm_post = drones_model(lvl.drones@);
                        assert(dm_post =~= dm_pre.update(i as int, d2@));
                        assert(dm_post.take(i as int) =~= ds0.take(i as int));
                        assert(dm_post.skip(i as int) =~= seq![d2@] + dm_pre.skip(i as int + 1));
                    }
                } else {
                    lvl.drones.remove(i);
                    proof {
                        let dm_post = drones_model(lvl.drones@);
                        assert(dm_post =~= dm_pre.remove(i as int));
                        assert(dm_post.take(i as int) =~= ds0.take(i as int));
                        assert(dm_post.skip(i as int) =~= dm_pre.skip(i as int + 1));
                    }
                }
                lvl.bullets.remove(j);
                proof {
                    assert(bullets_model(lvl.bullets@) =~= bm_pre.remove(j as int));
                    let a = drone_bullet_pass(ds0.take(i as int), bm_pre.remove(j as int)).0;
                    if d@.health > 1 {
                        let d2m = DroneM { health: d@.health - 1, ..d@ };
                        assert(drone_bullet_pass(t, bm_pre).0 == a.push(d2m));
                        assert(a.push(d2m) + drones_model(lvl.drones@).skip(i as int + 1)
                            =~= a + drones_model(lvl.drones@).skip(i as int));
                    } else {
                        assert(drone_bullet_pass(t, bm_pre).0 == a);
                    }
                }
            },
            Option::None => {
                proof {
                    let a = drone_bullet_pass(ds0.take(i as int), bm_pre).0;
                    assert(drone_bullet_pass(t, bm_pre).0 == a.push(d@));
                    assert(dm_pre.skip(i as int) =~= seq![d@] + dm_pre.skip(i as int + 1));
                    assert(a.push(d@) + dm_pre.skip(i as int + 1) =~= a + dm_pre.skip(i as int));
                }
            },
        }
    }
    proof {
        assert(ds0.take(0) =~= Seq::<DroneM>::empty());
        assert(drones_model(lvl.drones@).skip(0) =~= drones_model(lvl.drones@));
        assert(lvl@ =~= (LevelM {
            drones: drone_bullet_pass(old(lvl)@.drones, old(lvl)@.bullets).0,
            bullets: drone_bullet_pass(old(lvl)@.drones, old(lvl)@.bullets).1,
            ..old(lvl)@
        }));
    }
}

/// Run the bullets-against-player pass over the level.
pub fn player_bullet_phase(lvl: &mut Level)
    ensures
        final(lvl)@ == (LevelM {
            player: player_bullet_pass(old(lvl)@.player, old(lvl)@.bullets).0,
            bullets: player_bullet_pass(old(lvl)@.player, old(lvl)@.bullets).1,
            ..old(lvl)@
        }),
{
    let ghost bm0 = bullets_model(old(lvl).bullets@);
    if lvl.player.alive {
        match find_last_hit_exec(&lvl.bullets, lvl.player.x, lvl.player.y) {
            Option::Some(j) => {
                proof {
                    lemma_find_last_hit(bm0, lvl.player@.x, lvl.player@.y);
                }
                lvl.bullets.remove(j);
                lvl.player.alive = false;
                proof {
                    assert(bullets_model(lvl.bullets@) =~= bm0.remove(j as int));
                    assert(lvl@ =~= (LevelM {
                        player: player_bullet_pass(old(lvl)@.player, old(lvl)@.bullets).0,
                        bullets: player_bullet_pass(old(lvl)@.player, old(lvl)@.bullets).1,
                        ..old(lvl)@
                    }));
                }
            },
            Option::None => {
                proof {
                    assert(lvl@ =~= (LevelM {
                        player: player_bullet_pass(old(lvl)@.player, old(lvl)@.bullets).0,
                        bullets: player_bullet_pass(old(lvl)@.player, old(lvl)@.bullets).1,
                        ..old(lvl)@
                    }));
                }
            },
        }
    } else {
        proof {
            assert(lvl@ =~= (LevelM {
                player: player_bullet_pass(old(lvl)@.player, old(lvl)@.bullets).0,
                bullets: player_bullet_pass(old(lvl)@.player, old(lvl)@.bullets).1,
                ..old(lvl)@
            }));
        }
    }
}

/// Does the bullet overlap any block of the level?
fn hits_any_block_exec(b: Bullet, blocks: &Vec<(i32, i32)>) -> (r: bool)
    ensures
        r == bullet_hits_any_block(b@, pairs_model(blocks@)),
{
    let ghost bm = pairs_model(blocks@);
    let mut i: usize = 0;
    while i < blocks.len()
        invariant
            0 <= i <= blocks@.len(),
            forall|k: int| 0 <= k < i ==> !bullet_hits_box(b@, #[trigger] bm[k].0, bm[k].1),
        decreases blocks@.len() - i,
    {
        assert(bm[i as int] == (blocks@[i as int].0 as int, blocks@[i as int].1 as int));
        if aabb_test(b.x, b.y, BULLET_SIZE, blocks[i].0, blocks[i].1, BLOCK_SIZE) {
            assert(bullet_hits_box(b@, bm[i as int].0, bm[i as int].1));
            return true;
        }
        i = i + 1;
    }
    false
}

/// Remove every bullet that overlaps a block, keeping the order of the rest.
pub fn wall_phase(lvl: &mut Level)
    ensures
        final(lvl)@ == (LevelM {
            bullets: wall_pass(old(lvl)@.bullets, old(lvl)@.blocks),
            ..old(lvl)@
        }),
{
    let ghost bm0 = bullets_model(old(lvl).bullets@);
    let ghost blks = pairs_model(old(lvl).blocks@);
    let mut kept: Vec<Bullet> = Vec::new();
    let mut i: usize = 0;
    while i < lvl.bullets.len()
        invariant
            0 <= i <= lvl.bullets@.len(),
            bullets_model(lvl.bullets@) == bm0,
            lvl.blocks@ == old(lvl).blocks@,
            bullets_model(kept@) == wall_pass(bm0.take(i as int), blks),
        decreases lvl.bullets@.len() - i,
    {
        let b = lvl.bullets[i];
        assert(b@ == bm0[i as int]);
        proof {
            assert(bm0.take(i as int + 1).last() == bm0[i as int]);
            assert(bm0.take(i as int + 1).drop_last() =~= bm0.take(i as int));
        }
        if !hits_any_block_exec(b, &lvl.blocks) {
            kept.push(b);
        }
        assert(bullets_model(kept@) =~= wall_pass(bm0.take(i as int + 1), blks));
        i = i + 1;
    }
    proof {
        assert(bm0.take(bm0.len() as int) =~= bm0);
    }
    lvl.bullets = kept;
    proof {
        assert(lvl@ =~= (LevelM {
            bullets: wall_pass(old(lvl)@.bullets, old(lvl)@.blocks),
            ..old(lvl)@
        }));
    }
}

} // verus!
