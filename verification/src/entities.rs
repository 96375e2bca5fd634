//! Entity model: plain data records for the player, drones, bullets, the
//! level aggregate and the input snapshot, together with their mathematical
//! views and well-formedness predicates.

use vstd::prelude::*;

verus! {

/// Entity positions are kept within this bound; it leaves enough slack below
/// the geometry functions' `COORD_LIMIT` that every position reached during
/// one tick stays acceptable to them.
pub const POS_LIMIT: i32 = 99_000_000;

/// A position coordinate within the simulated range.
pub open spec fn pos_ok(v: int) -> bool {
    -(POS_LIMIT as int) <= v <= POS_LIMIT as int
}

/// A coordinate at most one tick's movement away from the simulated range.
pub open spec fn pos_loose(v: int) -> bool {
    -(POS_LIMIT as int) - 100 <= v <= POS_LIMIT as int + 100
}

/// The player record: position, vertical velocity `g`, and the three flags.
#[derive(Clone, Copy, PartialEq, Eq, Structural, Debug)]
pub struct Player {
    pub x: i32,
    pub y: i32,
    pub g: i32,
    pub in_air: bool,
    pub alive: bool,
    pub going_right: bool,
}

/// Mathematical view of a `Player`.
#[verifier::ext_equal]
pub ghost struct PlayerM {
    pub x: int,
    pub y: int,
    pub g: int,
    pub in_air: bool,
    pub alive: bool,
    pub going_right: bool,
}

impl View for Player {
    type V = PlayerM;

    open spec fn view(&self) -> PlayerM {
        PlayerM {
            x: self.x as int,
            y: self.y as int,
            g: self.g as int,
            in_air: self.in_air,
            alive: self.alive,
            going_right: self.going_right,
        }
    }
}

impl Player {
    /// A fresh player at the origin: no vertical velocity, airborne, alive,
    /// facing right.
    pub fn new() -> (p: Player)
        ensures
            p@ == (PlayerM { x: 0, y: 0, g: 0, in_air: true, alive: true, going_right: true }),
    {
        Player { x: 0, y: 0, g: 0, in_air: true, alive: true, going_right: true }
    }
}

/// An enemy drone: position, pursuit hysteresis counter, health, facing, and
/// frames since its last shot.
#[derive(Clone, Copy, PartialEq, Eq, Structural, Debug)]
pub struct Drone {
    pub x: i32,
    pub y: i32,
    pub pursuit: i32,
    pub health: i32,
    pub going_right: bool,
    pub shoot_timer: i32,
}

/// Mathematical view of a `Drone`.
#[verifier::ext_equal]
pub ghost struct DroneM {
    pub x: int,
    pub y: int,
    pub pursuit: int,
    pub health: int,
    pub going_right: bool,
    pub shoot_timer: int,
}

impl View for Drone {
    type V = DroneM;

    open spec fn view(&self) -> DroneM {
        DroneM {
            x: self.x as int,
            y: self.y as int,
            pursuit: self.pursuit as int,
            health: self.health as int,
            going_right: self.going_right,
            shoot_timer: self.shoot_timer as int,
        }
    }
}

/// A projectile: position, fixed direction, and which side fired it.
#[derive(Clone, Copy, PartialEq, Eq, Structural, Debug)]
pub struct Bullet {
    pub x: i32,
    pub y: i32,
    pub going_right: bool,
    pub source_is_drone: bool,
}

/// Mathematical view of a `Bullet`.
#[verifier::ext_equal]
pub ghost struct BulletM {
    pub x: int,
    pub y: int,
    pub going_right: bool,
    pub source_is_drone: bool,
}

impl View for Bullet {
    type V = BulletM;

    open spec fn view(&self) -> BulletM {
        BulletM {
            x: self.x as int,
            y: self.y as int,
            going_right: self.going_right,
            source_is_drone: self.source_is_drone,
        }
    }
}

/// The level aggregate: the player, the static geometry, and the entity
/// collections, together with the level's size in blocks.
pub struct Level {
    pub player: Player,
    pub level_width: i32,
    pub level_height: i32,
    pub spawn_spots: Vec<(i32, i32)>,
    pub blocks: Vec<(i32, i32)>,
    pub drones: Vec<Drone>,
    pub bullets: Vec<Bullet>,
}

/// Mathematical view of a `Level`.
#[verifier::ext_equal]
pub ghost struct LevelM {
    pub player: PlayerM,
    pub level_width: int,
    pub level_height: int,
    pub spawn_spots: Seq<(int, int)>,
    pub blocks: Seq<(int, int)>,
    pub drones: Seq<DroneM>,
    pub bullets: Seq<BulletM>,
}

/// The view of a list of integer pairs (blocks or spawn spots).
pub open spec fn pairs_model(s: Seq<(i32, i32)>) -> Seq<(int, int)> {
    s.map_values(|p: (i32, i32)| (p.0 as int, p.1 as int))
}

/// The view of a list of drones.
pub open spec fn drones_model(s: Seq<Drone>) -> Seq<DroneM> {
    s.map_values(|d: Drone| d@)
}

/// The view of a list of bullets.
pub open spec fn bullets_model(s: Seq<Bullet>) -> Seq<BulletM> {
    s.map_values(|b: Bullet| b@)
}

impl View for Level {
    type V = LevelM;

    open spec fn view(&self) -> LevelM {
        LevelM {
            player: self.player@,
            level_width: self.level_width as int,
            level_height: self.level_height as int,
            spawn_spots: pairs_model(self.spawn_spots@),
            blocks: pairs_model(self.blocks@),
            drones: drones_model(self.drones@),
            bullets: bullets_model(self.bullets@),
        }
    }
}

/// The input snapshot: the held keys for the current tick, and the running
/// attack-hold counter that paces the player's fire.
#[derive(Clone, Copy, PartialEq, Eq, Structural, Debug)]
pub struct Input {
    pub key_left: bool,
    pub key_right: bool,
    pub key_up: bool,
    pub key_attack: bool,
    pub shoot_counter: i32,
}

/// Mathematical view of an `Input`.
#[verifier::ext_equal]
pub ghost struct InputM {
    pub key_left: bool,
    pub key_right: bool,
    pub key_up: bool,
    pub key_attack: bool,
    pub shoot_counter: int,
}

impl View for Input {
    type V = InputM;

    open spec fn view(&self) -> InputM {
        InputM {
            key_left: self.key_left,
            key_right: self.key_right,
            key_up: self.key_up,
            key_attack: self.key_attack,
            shoot_counter: self.shoot_counter as int,
        }
    }
}

/// A well-formed player: position in range, vertical velocity between the
/// jump impulse and the gravity cap.
pub open spec fn player_wf(p: PlayerM) -> bool {
    &&& pos_ok(p.x)
    &&& pos_ok(p.y)
    &&& -16 <= p.g <= 16
}

/// A player whose position is at most one tick's resolution away from the
/// simulated range; what one simulation step can leave behind.
pub open spec fn player_pos_loose(p: PlayerM) -> bool {
    &&& pos_loose(p.x)
    &&& pos_loose(p.y)
}

/// A well-formed drone: position in range, pursuit counter within its
/// hysteresis band, at least one health point, and a shoot timer that can
/// still be incremented.
pub open spec fn drone_wf(d: DroneM) -> bool {
    &&& pos_ok(d.x)
    &&& pos_ok(d.y)
    &&& 0 <= d.pursuit <= 121
    &&& d.health >= 1
    &&& 0 <= d.shoot_timer < i32::MAX as int
}

/// A well-formed bullet: position in range.
pub open spec fn bullet_wf(b: BulletM) -> bool {
    &&& pos_ok(b.x)
    &&& pos_ok(b.y)
}

/// A well-formed block: position in range.
pub open spec fn block_wf(b: (int, int)) -> bool {
    &&& pos_ok(b.0)
    &&& pos_ok(b.1)
}

/// Every block of the sequence is well-formed.
pub open spec fn blocks_wf(bs: Seq<(int, int)>) -> bool {
    forall|i: int| 0 <= i < bs.len() ==> block_wf(#[trigger] bs[i])
}

/// A well-formed level: player, blocks, drones and bullets all well-formed.
pub open spec fn level_wf(l: LevelM) -> bool {
    &&& player_wf(l.player)
    &&& blocks_wf(l.blocks)
    &&& forall|i: int| 0 <= i < l.drones.len() ==> drone_wf(#[trigger] l.drones[i])
    &&& forall|i: int| 0 <= i < l.bullets.len() ==> bullet_wf(#[trigger] l.bullets[i])
}

/// A well-formed input: the attack-hold counter is non-negative and can still
/// be incremented.
pub open spec fn input_wf(inp: InputM) -> bool {
    0 <= inp.shoot_counter < i32::MAX as int
}

} // verus!
