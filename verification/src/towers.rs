//! Towers: they are built and improved by completed puzzles, and shoot at the
//! enemy that has come furthest.

use crate::bullets::{spawn_bullet, with_bullet, Bullet};
use crate::enemies::Enemy;
use crate::geometry::{inside, is_inside};
use crate::map::{Coordinate, GameMap, Tile};
use crate::puzzle::CompletePuzzle;
use vstd::prelude::*;

verus! {

/// The reach of a new tower, in thousandths of a world unit.
pub const BASE_RANGE: u32 = 100_000;

/// The damage that a shot of a new tower does.
pub const BASE_DAMAGE: u32 = 15;

/// The speed of a new tower's shots, in world units per second.
pub const BASE_SPEED: u32 = 200;

/// Milliseconds between the shots of a new tower.
pub const BASE_INTERVAL_MS: u32 = 300;

/// Reach that an upgrade adds, in thousandths of a world unit.
pub const RANGE_GAIN: u32 = 5_000;

/// Damage that an upgrade adds.
pub const DAMAGE_GAIN: u32 = 5;

/// Shot speed that an upgrade adds, in world units per second.
pub const SPEED_GAIN: u32 = 20;

/// Milliseconds between the shots of a tower from the second level on.
pub const SECOND_LEVEL_INTERVAL_MS: u32 = 200;

/// A repeating timer. It runs for `interval_ms`, goes off, and starts over
/// with whatever time is left from the tick in which it went off.
#[derive(Debug, Clone, Copy, PartialEq, Eq, Structural)]
pub struct Cooldown {
    pub interval_ms: u32,
    pub elapsed_ms: u32,
}

/// A tower. Where it stands tells it from all others.
#[derive(Debug, Clone, Copy, PartialEq, Eq, Structural)]
pub struct Tower {
    pub level: usize,
    pub range: u32,
    pub damage: u32,
    pub speed: u32,
    pub coordinate: Coordinate,
    pub timer: Cooldown,
}

/// A sum that stops at the largest value that `u32` holds.
pub open spec fn capped_u32(a: u32, b: u32) -> u32 {
    if a + b > u32::MAX {
        u32::MAX
    } else {
        (a + b) as u32
    }
}

impl Cooldown {
    /// A timer of the given interval that has just started.
    pub open spec fn started(interval_ms: u32) -> Cooldown {
        Cooldown { interval_ms, elapsed_ms: 0 }
    }

    /// Whether the timer goes off within the next `delta_ms` milliseconds.
    pub open spec fn fires(self, delta_ms: u32) -> bool {
        self.elapsed_ms + delta_ms >= self.interval_ms
    }

    /// The timer `delta_ms` milliseconds on.
    pub open spec fn ticked(self, delta_ms: u32) -> Cooldown {
        Cooldown {
            elapsed_ms: if self.interval_ms == 0 {
                0
            } else {
                ((self.elapsed_ms + delta_ms) % (self.interval_ms as int)) as u32
            },
            ..self
        }
    }

    /// Starts a timer of the given interval.
    pub fn from_millis(interval_ms: u32) -> (timer: Cooldown)
        ensures
            timer == Cooldown::started(interval_ms),
    {
        Cooldown { interval_ms, elapsed_ms: 0 }
    }

    /// Lets `delta_ms` milliseconds pass and tells whether the timer went off.
    pub fn tick(&mut self, delta_ms: u32) -> (finished: bool)
        ensures
            finished == old(self).fires(delta_ms),
            *final(self) == old(self).ticked(delta_ms),
    {
        let total: u64 = self.elapsed_ms as u64 + delta_ms as u64;
        let finished = total >= self.interval_ms as u64;
        if self.interval_ms == 0 {
            self.elapsed_ms = 0;
        } else {
            self.elapsed_ms = (total % self.interval_ms as u64) as u32;
        }
        finished
    }
}

impl Tower {
    /// A tower as the first completed puzzle on its plot builds it.
    pub open spec fn fresh(coordinate: Coordinate) -> Tower {
        Tower {
            level: 1,
            range: BASE_RANGE,
            damage: BASE_DAMAGE,
            speed: BASE_SPEED,
            coordinate,
            timer: Cooldown::started(BASE_INTERVAL_MS),
        }
    }

    /// The tower after an upgrade: a level higher, with more reach, damage and
    /// shot speed. The upgrade that takes it to the second level gives it a
    /// faster timer, which starts anew; every other upgrade leaves the timer
    /// as it is and running. Each number stops at the largest value its type
    /// holds.
    pub open spec fn upgraded(self) -> Tower {
        let level = if self.level < usize::MAX {
            (self.level + 1) as usize
        } else {
            self.level
        };
        Tower {
            level,
            range: capped_u32(self.range, RANGE_GAIN),
            damage: capped_u32(self.damage, DAMAGE_GAIN),
            speed: capped_u32(self.speed, SPEED_GAIN),
            coordinate: self.coordinate,
            timer: if level == 2 {
                Cooldown::started(SECOND_LEVEL_INTERVAL_MS)
            } else {
                self.timer
            },
        }
    }

    /// Whether the tower can shoot at what is in a roster slot: an enemy that
    /// is not tameable and is nearer than the tower's reach.
    pub open spec fn sees(self, slot: Option<Enemy>) -> bool {
        slot matches Some(e) && !e.tameable && inside(self.coordinate, e.position, self.range as nat)
    }

    /// The enemy among the first `count` roster slots that the tower shoots
    /// at: of those it can shoot at, the one that has walked furthest, and of
    /// several that have walked equally far the one in the lowest slot.
    pub open spec fn furthest(self, enemies: Seq<Option<Enemy>>, count: nat) -> Option<int>
        decreases count,
    {
        if count == 0 {
            None
        } else {
            let before = self.furthest(enemies, (count - 1) as nat);
            if self.sees(enemies[count - 1]) {
                match before {
                    None => Some(count - 1),
                    Some(best) => if enemies[count - 1]->Some_0.travelled
                        > enemies[best]->Some_0.travelled {
                        Some(count - 1)
                    } else {
                        Some(best)
                    },
                }
            } else {
                before
            }
        }
    }

    /// The projectile that the tower fires at the enemy in roster slot
    /// `target`.
    pub open spec fn shot(self, target: int) -> Bullet {
        Bullet {
            damage: self.damage,
            speed: self.speed,
            target: target as usize,
            position: self.coordinate,
        }
    }

    /// Builds a tower.
    pub fn new(coordinate: Coordinate) -> (tower: Tower)
        ensures
            tower == Tower::fresh(coordinate),
    {
        Tower {
            level: 1,
            range: BASE_RANGE,
            damage: BASE_DAMAGE,
            speed: BASE_SPEED,
            coordinate,
            timer: Cooldown::from_millis(BASE_INTERVAL_MS),
        }
    }

    /// Upgrades the tower.
    pub fn upgrade(&mut self)
        ensures
            *final(self) == old(self).upgraded(),
    {
        self.level = self.level.saturating_add(1);
        self.range = self.range.saturating_add(RANGE_GAIN);
        self.damage = self.damage.saturating_add(DAMAGE_GAIN);
        self.speed = self.speed.saturating_add(SPEED_GAIN);
        if self.level == 2 {
            self.timer = Cooldown::from_millis(SECOND_LEVEL_INTERVAL_MS);
        }
    }

    /// Whether the tower can shoot at `enemy`.
    pub fn in_range(&self, enemy: &Enemy) -> (seen: bool)
        ensures
            seen == self.sees(Some(*enemy)),
    {
        !enemy.tameable && is_inside(self.coordinate, enemy.position, self.range)
    }

    /// Picks the enemy to shoot at.
    ///
    /// The pick is an enemy that the tower can shoot at, if there is any. No
    /// enemy that the tower can shoot at has walked further than the pick, and
    /// none in a lower roster slot has walked as far.
    pub fn select_target(&self, enemies: &Vec<Option<Enemy>>) -> (picked: Option<usize>)
        ensures
            picked is None <==> forall|i: int| 0 <= i < enemies@.len() ==> !self.sees(enemies@[i]),
            picked matches Some(best) ==> {
                &&& best < enemies@.len()
                &&& self.sees(enemies@[best as int])
                &&& forall|i: int|
                    0 <= i < enemies@.len() && self.sees(#[trigger] enemies@[i])
                        ==> enemies@[i]->Some_0.travelled <= enemies@[best as int]->Some_0.travelled
                &&& forall|i: int|
                    0 <= i < best && self.sees(#[trigger] enemies@[i])
                        ==> enemies@[i]->Some_0.travelled < enemies@[best as int]->Some_0.travelled
            },
            match picked {
                Some(best) => self.furthest(enemies@, enemies@.len()) == Some(best as int),
                None => self.furthest(enemies@, enemies@.len()) is None,
            },
    {
        let mut picked: Option<(usize, u64)> = None;
        let mut i: usize = 0;
        while i < enemies.len()
            invariant
                i <= enemies.len(),
                match picked {
                    Some((best, travelled)) => {
                        &&& self.furthest(enemies@, i as nat) == Some(best as int)
                        &&& best < i
                        &&& enemies@[best as int] is Some
                        &&& enemies@[best as int]->Some_0.travelled == travelled
                    },
                    None => self.furthest(enemies@, i as nat) is None,
                },
            decreases enemies.len() - i,
        {
            if let Some(enemy) = enemies[i] {
                if self.in_range(&enemy) {
                    picked = match picked {
                        None => Some((i, enemy.travelled)),
                        Some((best, travelled)) => if enemy.travelled > travelled {
                            Some((i, enemy.travelled))
                        } else {
                            Some((best, travelled))
                        },
                    };
                }
            }
            i += 1;
        }
        proof {
            lemma_furthest(*self, enemies@, enemies@.len());
        }
        match picked {
            Some((best, _)) => Some(best),
            None => None,
        }
    }
}

/// The pick among the first `count` roster slots is an enemy that the tower
/// can shoot at, if there is one among them. None of them that the tower can
/// shoot at has walked further, and none in a lower slot has walked as far.
pub proof fn lemma_furthest(tower: Tower, enemies: Seq<Option<Enemy>>, count: nat)
    requires
        count <= enemies.len(),
    ensures
        tower.furthest(enemies, count) is None <==> forall|i: int|
            0 <= i < count ==> !tower.sees(enemies[i]),
        tower.furthest(enemies, count) matches Some(best) ==> {
            &&& 0 <= best < count
            &&& tower.sees(enemies[best])
            &&& forall|i: int|
                0 <= i < count && tower.sees(#[trigger] enemies[i]) ==> enemies[i]->Some_0.travelled
                    <= enemies[best]->Some_0.travelled
            &&& forall|i: int|
                0 <= i < best && tower.sees(#[trigger] enemies[i]) ==> enemies[i]->Some_0.travelled
                    < enemies[best]->Some_0.travelled
        },
    decreases count,
{
    if count > 0 {
        lemma_furthest(tower, enemies, (count - 1) as nat);
    }
}

impl Tower {
    /// The roster slot that the tower fires at when `delta_ms` milliseconds
    /// pass, if it fires: its timer must go off, and there must be an enemy
    /// for it to shoot at.
    pub open spec fn aims(self, enemies: Seq<Option<Enemy>>, delta_ms: u32) -> Option<int> {
        if self.timer.fires(delta_ms) {
            self.furthest(enemies, enemies.len())
        } else {
            None
        }
    }

    /// The tower `delta_ms` milliseconds on: only its timer has moved.
    pub open spec fn waited(self, delta_ms: u32) -> Tower {
        Tower { timer: self.timer.ticked(delta_ms), ..self }
    }
}

/// The projectiles in play after the first `count` towers, in order, have
/// had a tick of `delta_ms` milliseconds, `bullets` being those in play
/// before. Each tower that fires adds one, which starts where the tower
/// stands and carries the tower's damage and shot speed.
pub open spec fn volley(
    towers: Seq<Tower>,
    enemies: Seq<Option<Enemy>>,
    delta_ms: u32,
    bullets: Seq<Option<Bullet>>,
    count: nat,
) -> Seq<Option<Bullet>>
    decreases count,
{
    if count == 0 {
        bullets
    } else {
        let before = volley(towers, enemies, delta_ms, bullets, (count - 1) as nat);
        match towers[count - 1].aims(enemies, delta_ms) {
            Some(target) => with_bullet(before, towers[count - 1].shot(target)),
            None => before,
        }
    }
}

/// How many of the first `count` towers fire when `delta_ms` milliseconds
/// pass.
pub open spec fn shots_fired(
    towers: Seq<Tower>,
    enemies: Seq<Option<Enemy>>,
    delta_ms: u32,
    count: nat,
) -> nat
    decreases count,
{
    if count == 0 {
        0
    } else {
        shots_fired(towers, enemies, delta_ms, (count - 1) as nat) + if towers[count - 1].aims(
            enemies,
            delta_ms,
        ) is Some {
            1nat
        } else {
            0nat
        }
    }
}

/// No more shots are fired than there are towers.
pub proof fn lemma_shots_fired_bound(
    towers: Seq<Tower>,
    enemies: Seq<Option<Enemy>>,
    delta_ms: u32,
    count: nat,
)
    ensures
        shots_fired(towers, enemies, delta_ms, count) <= count,
    decreases count,
{
    if count > 0 {
        lemma_shots_fired_bound(towers, enemies, delta_ms, (count - 1) as nat);
    }
}

/// Gives every tower its tick of `delta_ms` milliseconds and returns how many
/// of them fired.
///
/// A tower whose timer goes off looks for the enemy to shoot at. If it finds
/// one it fires a projectile at it; if not, the shot is forfeited and the
/// timer runs on all the same.
pub fn shoot(
    towers: &mut Vec<Tower>,
    enemies: &Vec<Option<Enemy>>,
    bullets: &mut Vec<Option<Bullet>>,
    delta_ms: u32,
) -> (shots: usize)
    ensures
        final(towers)@.len() == old(towers)@.len(),
        forall|i: int|
            0 <= i < old(towers)@.len() ==> #[trigger] final(towers)@[i] == old(towers)@[i].waited(
                delta_ms,
            ),
        final(bullets)@ == volley(
            old(towers)@,
            enemies@,
            delta_ms,
            old(bullets)@,
            old(towers)@.len(),
        ),
        shots == shots_fired(old(towers)@, enemies@, delta_ms, old(towers)@.len()),
{
    let mut shots: usize = 0;
    let mut i: usize = 0;
    while i < towers.len()
        invariant
            i <= towers.len(),
            towers@.len() == old(towers)@.len(),
            forall|j: int| 0 <= j < i ==> #[trigger] towers@[j] == old(towers)@[j].waited(delta_ms),
            forall|j: int| i <= j < towers@.len() ==> towers@[j] == old(towers)@[j],
            bullets@ == volley(old(towers)@, enemies@, delta_ms, old(bullets)@, i as nat),
            shots == shots_fired(old(towers)@, enemies@, delta_ms, i as nat),
            shots <= i,
        decreases towers.len() - i,
    {
        let tower = towers[i];
        let mut timer = tower.timer;
        let finished = timer.tick(delta_ms);
        towers[i] = Tower { timer, ..tower };
        if finished {
            if let Some(target) = tower.select_target(enemies) {
                spawn_bullet(
                    bullets,
                    Bullet {
                        damage: tower.damage,
                        speed: tower.speed,
                        target,
                        position: tower.coordinate,
                    },
                );
                shots += 1;
            }
        }
        i += 1;
    }
    shots
}

/// The first tower at or after slot `from` that stands at `coordinate`, or
/// the number of towers when there is none.
pub open spec fn tower_at(towers: Seq<Tower>, coordinate: Coordinate, from: nat) -> nat
    decreases towers.len() - from,
{
    if from < towers.len() && towers[from as int].coordinate != coordinate {
        tower_at(towers, coordinate, from + 1)
    } else {
        from
    }
}

/// The towers after a puzzle was completed at `coordinate`: the tower that
/// stands there is upgraded, and if none stands there, one is built.
pub open spec fn built(towers: Seq<Tower>, coordinate: Coordinate) -> Seq<Tower> {
    let slot = tower_at(towers, coordinate, 0);
    if slot < towers.len() {
        towers.update(slot as int, towers[slot as int].upgraded())
    } else {
        towers.push(Tower::fresh(coordinate))
    }
}

/// The towers after the first `count` completions, in order.
pub open spec fn built_all(towers: Seq<Tower>, completed: Seq<CompletePuzzle>, count: nat) -> Seq<
    Tower,
>
    decreases count,
{
    if count == 0 {
        towers
    } else {
        built(built_all(towers, completed, (count - 1) as nat), completed[count - 1].coordinate)
    }
}

/// Whether no two towers stand in the same place.
pub open spec fn plots_distinct(towers: Seq<Tower>) -> bool {
    forall|i: int, j: int|
        0 <= i < j < towers.len() ==> (#[trigger] towers[i]).coordinate != (
        #[trigger] towers[j]).coordinate
}

/// The search for a tower finds one that stands at the place asked for, or
/// runs through all towers without finding any.
pub proof fn lemma_tower_at(towers: Seq<Tower>, coordinate: Coordinate, from: nat)
    requires
        from <= towers.len(),
    ensures
        from <= tower_at(towers, coordinate, from) <= towers.len(),
        tower_at(towers, coordinate, from) < towers.len() ==> towers[tower_at(
            towers,
            coordinate,
            from,
        ) as int].coordinate == coordinate,
        forall|i: int|
            from <= i < tower_at(towers, coordinate, from) ==> (#[trigger] towers[i]).coordinate
                != coordinate,
    decreases towers.len() - from,
{
    if from < towers.len() && towers[from as int].coordinate != coordinate {
        lemma_tower_at(towers, coordinate, from + 1);
    }
}

/// Building keeps towers apart: where no two towers shared a place before a
/// completion, none do after it; no tower is lost, and none moves.
pub proof fn lemma_built_keeps_plots(towers: Seq<Tower>, coordinate: Coordinate)
    requires
        plots_distinct(towers),
    ensures
        plots_distinct(built(towers, coordinate)),
        built(towers, coordinate).len() >= towers.len(),
        forall|i: int|
            0 <= i < towers.len() ==> (#[trigger] built(towers, coordinate)[i]).coordinate
                == towers[i].coordinate,
{
    lemma_tower_at(towers, coordinate, 0);
}

/// However many puzzles are completed, towers that stood apart stay apart,
/// and none is lost.
pub proof fn lemma_built_all_keeps_plots(
    towers: Seq<Tower>,
    completed: Seq<CompletePuzzle>,
    count: nat,
)
    requires
        plots_distinct(towers),
    ensures
        plots_distinct(built_all(towers, completed, count)),
        built_all(towers, completed, count).len() >= towers.len(),
        forall|i: int|
            0 <= i < towers.len() ==> (#[trigger] built_all(towers, completed, count)[i]).coordinate
                == towers[i].coordinate,
    decreases count,
{
    if count > 0 {
        let before = built_all(towers, completed, (count - 1) as nat);
        lemma_built_all_keeps_plots(towers, completed, (count - 1) as nat);
        lemma_built_keeps_plots(before, completed[count - 1].coordinate);
    }
}

/// Acts on one completed puzzle: upgrades the tower at `coordinate`, or
/// builds one there if there is none.
pub fn build_or_upgrade(towers: &mut Vec<Tower>, coordinate: Coordinate)
    ensures
        final(towers)@ == built(old(towers)@, coordinate),
{
    let mut i: usize = 0;
    while i < towers.len() && towers[i].coordinate != coordinate
        invariant
            i <= towers.len(),
            towers@ == old(towers)@,
            tower_at(towers@, coordinate, i as nat) == tower_at(towers@, coordinate, 0),
        decreases towers.len() - i,
    {
        i += 1;
    }
    if i < towers.len() {
        let mut tower = towers[i];
        tower.upgrade();
        towers[i] = tower;
    } else {
        towers.push(Tower::new(coordinate));
    }
}

/// Acts on the puzzles completed in this tick, in order: each upgrades the
/// tower on its plot, or builds it if the plot is still bare.
pub fn build_and_upgrade_towers(towers: &mut Vec<Tower>, completed: &Vec<CompletePuzzle>)
    ensures
        final(towers)@ == built_all(old(towers)@, completed@, completed@.len()),
{
    let mut k: usize = 0;
    while k < completed.len()
        invariant
            k <= completed.len(),
            towers@ == built_all(old(towers)@, completed@, k as nat),
        decreases completed.len() - k,
    {
        build_or_upgrade(towers, completed[k].coordinate);
        k += 1;
    }
}

/// Builds the towers that the field comes with: one on each square that
/// holds a tower, in the order of the squares.
pub fn spawn_map_tower(map: &GameMap) -> (towers: Vec<Tower>)
    ensures
        towers@.len() == map.places(Tile::Tower, Tile::Tower).len(),
        forall|i: int|
            0 <= i < towers@.len() ==> #[trigger] towers@[i] == Tower::fresh(
                map.places(Tile::Tower, Tile::Tower)[i],
            ),
{
    let positions = map.find_tiles(Tile::Tower, Tile::Tower);
    let mut towers: Vec<Tower> = Vec::new();
    let mut i: usize = 0;
    while i < positions.len()
        invariant
            i <= positions.len(),
            towers@.len() == i,
            forall|j: int| 0 <= j < i ==> #[trigger] towers@[j] == Tower::fresh(positions@[j]),
        decreases positions.len() - i,
    {
        towers.push(Tower::new(positions[i]));
        i += 1;
    }
    towers
}

} // verus!
