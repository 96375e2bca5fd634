//! Axis-separated collision resolution against the static block grid.
//!
//! Movement is applied one axis at a time; after each axis the entity is
//! pushed out of every overlapping block to the block's near edge, block by
//! block in list order, so the last matching block wins.

use vstd::prelude::*;
use crate::geometry::{aabb_overlap, aabb_test, BLOCK_SIZE};
use crate::entities::{blocks_wf, pairs_model, PlayerM, Player, POS_LIMIT};

verus! {

/// Push-out of a square entity of side `BLOCK_SIZE` by one block on the
/// horizontal axis: an overlapping entity is clamped to the near edge of the
/// block, on the side its reference point lies on.
pub open spec fn resolve_h_block(x: int, y: int, bx: int, by: int) -> int {
    if aabb_overlap(x, y, BLOCK_SIZE as int, bx, by, BLOCK_SIZE as int) {
        if bx < x {
            bx + BLOCK_SIZE as int
        } else if bx > x {
            bx - BLOCK_SIZE as int
        } else {
            x
        }
    } else {
        x
    }
}

/// Horizontal resolution against the first `n` blocks, in list order.
pub open spec fn resolve_h_prefix(x0: int, y: int, blocks: Seq<(int, int)>, n: int) -> int
    decreases n,
{
    if n <= 0 {
        x0
    } else {
        resolve_h_block(resolve_h_prefix(x0, y, blocks, n - 1), y, blocks[n - 1].0, blocks[n - 1].1)
    }
}

/// Horizontal resolution against the whole block list.
pub open spec fn resolve_h(x0: int, y: int, blocks: Seq<(int, int)>) -> int {
    resolve_h_prefix(x0, y, blocks, blocks.len() as int)
}

/// Push-out by one block on the vertical axis.
pub open spec fn resolve_v_block(y: int, x: int, bx: int, by: int) -> int {
    if aabb_overlap(x, y, BLOCK_SIZE as int, bx, by, BLOCK_SIZE as int) {
        if by < y {
            by + BLOCK_SIZE as int
        } else if by > y {
            by - BLOCK_SIZE as int
        } else {
            y
        }
    } else {
        y
    }
}

/// Vertical resolution against the first `n` blocks, in list order.
pub open spec fn resolve_v_prefix(y0: int, x: int, blocks: Seq<(int, int)>, n: int) -> int
    decreases n,
{
    if n <= 0 {
        y0
    } else {
        resolve_v_block(resolve_v_prefix(y0, x, blocks, n - 1), x, blocks[n - 1].0, blocks[n - 1].1)
    }
}

/// Vertical resolution against the whole block list.
pub open spec fn resolve_v(y0: int, x: int, blocks: Seq<(int, int)>) -> int {
    resolve_v_prefix(y0, x, blocks, blocks.len() as int)
}

/// The player's vertical push-out by one block. Any overlap zeroes the
/// vertical velocity; landing from above also clears `in_air`, while hitting
/// a ceiling from below leaves it set.
pub open spec fn resolve_v_player_block(p: PlayerM, bx: int, by: int) -> PlayerM {
    if aabb_overlap(p.x, p.y, BLOCK_SIZE as int, bx, by, BLOCK_SIZE as int) {
        if by < p.y {
            PlayerM { y: by + BLOCK_SIZE as int, g: 0, ..p }
        } else if by > p.y {
            PlayerM { y: by - BLOCK_SIZE as int, g: 0, in_air: false, ..p }
        } else {
            PlayerM { g: 0, ..p }
        }
    } else {
        p
    }
}

/// The player's vertical resolution against the first `n` blocks.
pub open spec fn resolve_v_player_prefix(p: PlayerM, blocks: Seq<(int, int)>, n: int) -> PlayerM
    decreases n,
{
    if n <= 0 {
        p
    } else {
        resolve_v_player_block(
            resolve_v_player_prefix(p, blocks, n - 1),
            blocks[n - 1].0,
            blocks[n - 1].1,
        )
    }
}

/// The player's vertical resolution against the whole block list.
pub open spec fn resolve_v_player(p: PlayerM, blocks: Seq<(int, int)>) -> PlayerM {
    resolve_v_player_prefix(p, blocks, blocks.len() as int)
}

/// Horizontal resolution leaves the position unchanged or clamps it to a
/// block edge, so the result stays near the simulated range.
pub proof fn lemma_resolve_h_bound(x0: int, y: int, blocks: Seq<(int, int)>, n: int)
    requires
        blocks_wf(blocks),
        0 <= n <= blocks.len(),
    ensures
        resolve_h_prefix(x0, y, blocks, n) == x0
            || -(POS_LIMIT as int) - 40 <= resolve_h_prefix(x0, y, blocks, n) <= POS_LIMIT as int
            + 40,
    decreases n,
{
    if n > 0 {
        lemma_resolve_h_bound(x0, y, blocks, n - 1);
    }
}

/// The player's vertical resolution changes only `y`, `g` and `in_air`, and
/// leaves `y` unchanged or clamped to a block edge.
pub proof fn lemma_resolve_v_player_bound(p: PlayerM, blocks: Seq<(int, int)>, n: int)
    requires
        blocks_wf(blocks),
        0 <= n <= blocks.len(),
    ensures
        ({
            let r = resolve_v_player_prefix(p, blocks, n);
            &&& r.x == p.x
            &&& r.alive == p.alive
            &&& r.going_right == p.going_right
            &&& r.g == p.g || r.g == 0
            &&& r.y == p.y || -(POS_LIMIT as int) - 40 <= r.y <= POS_LIMIT as int + 40
        }),
    decreases n,
{
    if n > 0 {
        lemma_resolve_v_player_bound(p, blocks, n - 1);
    }
}

/// An entity overlapping no block is left where it stands by the horizontal
/// resolution.
pub proof fn lemma_resolve_h_noop(x: int, y: int, blocks: Seq<(int, int)>, n: int)
    requires
        0 <= n <= blocks.len(),
        forall|i: int|
            0 <= i < blocks.len() ==> !aabb_overlap(
                x,
                y,
                BLOCK_SIZE as int,
                #[trigger] blocks[i].0,
                blocks[i].1,
                BLOCK_SIZE as int,
            ),
    ensures
        resolve_h_prefix(x, y, blocks, n) == x,
    decreases n,
{
    if n > 0 {
        lemma_resolve_h_noop(x, y, blocks, n - 1);
    }
}

/// Against a single block, the horizontal resolution stops an overlapping
/// entity exactly at the block's near edge: at `bx - BLOCK_SIZE` when it
/// comes from the left, at `bx + BLOCK_SIZE` when it comes from the right —
/// and the vertical position plays no part beyond the overlap test.
pub proof fn lemma_resolve_single_block(x: int, y: int, bx: int, by: int)
    ensures
        ({
            let blocks = seq![(bx, by)];
            &&& (aabb_overlap(x, y, BLOCK_SIZE as int, bx, by, BLOCK_SIZE as int) && x < bx
                ==> resolve_h(x, y, blocks) == bx - BLOCK_SIZE as int)
            &&& (aabb_overlap(x, y, BLOCK_SIZE as int, bx, by, BLOCK_SIZE as int) && x > bx
                ==> resolve_h(x, y, blocks) == bx + BLOCK_SIZE as int)
            &&& (!aabb_overlap(x, y, BLOCK_SIZE as int, bx, by, BLOCK_SIZE as int)
                ==> resolve_h(x, y, blocks) == x)
        }),
{
    let blocks = seq![(bx, by)];
    assert(blocks[0] == (bx, by));
    assert(resolve_h_prefix(x, y, blocks, 0) == x);
    assert(resolve_h(x, y, blocks) == resolve_h_block(x, y, bx, by));
}

/// Resolve a horizontal position against every block, in list order.
pub fn resolve_horizontal(x: i32, y: i32, blocks: &Vec<(i32, i32)>) -> (r: i32)
    requires
        blocks_wf(pairs_model(blocks@)),
    ensures
        r as int == resolve_h(x as int, y as int, pairs_model(blocks@)),
{
    let ghost bm = pairs_model(blocks@);
    let mut cur: i32 = x;
    let mut i: usize = 0;
    while i < blocks.len()
        invariant
            0 <= i <= blocks.len(),
            cur as int == resolve_h_prefix(x as int, y as int, bm, i as int),
        decreases blocks.len() - i,
    {
        let bx = blocks[i].0;
        let by = blocks[i].1;
        assert(bm[i as int] == (bx as int, by as int));
        if aabb_test(cur, y, BLOCK_SIZE, bx, by, BLOCK_SIZE) {
            if bx < cur {
                cur = bx + BLOCK_SIZE;
            }
            if bx > cur {
                cur = bx - BLOCK_SIZE;
            }
        }
        i = i + 1;
    }
    cur
}

/// Resolve a vertical position against every block, in list order.
pub fn resolve_vertical(y: i32, x: i32, blocks: &Vec<(i32, i32)>) -> (r: i32)
    requires
        blocks_wf(pairs_model(blocks@)),
    ensures
        r as int == resolve_v(y as int, x as int, pairs_model(blocks@)),
{
    let ghost bm = pairs_model(blocks@);
    let mut cur: i32 = y;
    let mut i: usize = 0;
    while i < blocks.len()
        invariant
            0 <= i <= blocks.len(),
            cur as int == resolve_v_prefix(y as int, x as int, bm, i as int),
        decreases blocks.len() - i,
    {
        let bx = blocks[i].0;
        let by = blocks[i].1;
        assert(bm[i as int] == (bx as int, by as int));
        if aabb_test(x, cur, BLOCK_SIZE, bx, by, BLOCK_SIZE) {
            if by < cur {
                cur = by + BLOCK_SIZE;
            }
            if by > cur {
                cur = by - BLOCK_SIZE;
            }
        }
        i = i + 1;
    }
    cur
}

/// Resolve the player against every block on the vertical axis, zeroing the
/// vertical velocity on any overlap and clearing `in_air` on a landing.
pub fn resolve_player_vertical(p: Player, blocks: &Vec<(i32, i32)>) -> (r: Player)
    requires
        blocks_wf(pairs_model(blocks@)),
    ensures
        r@ == resolve_v_player(p@, pairs_model(blocks@)),
{
    let ghost bm = pairs_model(blocks@);
    let mut cur: Player = p;
    let mut i: usize = 0;
    while i < blocks.len()
        invariant
            0 <= i <= blocks.len(),
            cur@ == resolve_v_player_prefix(p@, bm, i as int),
        decreases blocks.len() - i,
    {
        let bx = blocks[i].0;
        let by = blocks[i].1;
        assert(bm[i as int] == (bx as int, by as int));
        if aabb_test(cur.x, cur.y, BLOCK_SIZE, bx, by, BLOCK_SIZE) {
            cur.g = 0;
            if by < cur.y {
                cur.y = by + BLOCK_SIZE;
            }
            if by > cur.y {
                cur.y = by - BLOCK_SIZE;
                cur.in_air = false;
            }
        }
        i = i + 1;
    }
    cur
}

} // verus!
