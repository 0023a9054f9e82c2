//! Enemies: what they look like, how they are born, how they walk the road,
//! how they fall, and how the fallen flee.

use crate::bullets::Bullet;
use crate::geometry::{
    dist_sq, distance, distance_squared, isqrt, overshoots, reaches, step_toward, walk_overshoots,
    walk_reaches, walk_toward,
};
use crate::map::{Coordinate, GameMap, Tile};
use crate::puzzle::CurrentPiece;
use crate::rng::random_below;
use crate::ui::GameState;
use vstd::prelude::*;

verus! {

/// The outline of an enemy. It plays no part in combat; it is one half of what
/// a puzzle slot asks for.
#[derive(Debug, Clone, Copy, PartialEq, Eq, Structural)]
pub enum EnemyForm {
    Circle,
    Triangle,
    Quadratic,
}

/// The colour of an enemy, the other half of what a puzzle slot asks for.
#[derive(Debug, Clone, Copy, PartialEq, Eq, Structural)]
pub enum EnemyColor {
    Red,
    Lilac,
    Green,
    Blue,
    Pink,
}

/// How many forms there are to draw from.
pub const FORM_COUNT: u32 = 3;

/// How many colours there are to draw from.
pub const COLOR_COUNT: u32 = 5;

/// A colour as red, green and blue bytes.
#[derive(Debug, Clone, Copy, PartialEq, Eq, Structural)]
pub struct Rgb {
    pub r: u8,
    pub g: u8,
    pub b: u8,
}

impl EnemyForm {
    /// The form that a draw stands for.
    pub open spec fn of_draw(draw: u32) -> EnemyForm {
        if draw == 0 {
            EnemyForm::Circle
        } else if draw == 1 {
            EnemyForm::Triangle
        } else {
            EnemyForm::Quadratic
        }
    }

    /// Turns a draw into a form. Draws below [`FORM_COUNT`] reach every form
    /// once.
    pub fn from_draw(draw: u32) -> (form: EnemyForm)
        ensures
            form == EnemyForm::of_draw(draw),
    {
        match draw {
            0 => EnemyForm::Circle,
            1 => EnemyForm::Triangle,
            _ => EnemyForm::Quadratic,
        }
    }

    /// The number of corners of the polygon drawn for this form.
    pub fn sides(&self) -> (n: usize)
        ensures
            n == match *self {
                EnemyForm::Circle => 5usize,
                EnemyForm::Triangle => 3usize,
                EnemyForm::Quadratic => 4usize,
            },
    {
        match self {
            EnemyForm::Circle => 5,
            EnemyForm::Triangle => 3,
            EnemyForm::Quadratic => 4,
        }
    }
}

impl EnemyColor {
    /// The colour that a draw stands for.
    pub open spec fn of_draw(draw: u32) -> EnemyColor {
        if draw == 0 {
            EnemyColor::Red
        } else if draw == 1 {
            EnemyColor::Green
        } else if draw == 2 {
            EnemyColor::Blue
        } else if draw == 3 {
            EnemyColor::Pink
        } else {
            EnemyColor::Lilac
        }
    }

    /// Turns a draw into a colour. Draws below [`COLOR_COUNT`] reach every
    /// colour once.
    pub fn from_draw(draw: u32) -> (color: EnemyColor)
        ensures
            color == EnemyColor::of_draw(draw),
    {
        match draw {
            0 => EnemyColor::Red,
            1 => EnemyColor::Green,
            2 => EnemyColor::Blue,
            3 => EnemyColor::Pink,
            _ => EnemyColor::Lilac,
        }
    }

    /// The paint for this colour.
    pub open spec fn paint(self) -> Rgb {
        match self {
            EnemyColor::Lilac => Rgb { r: 84, g: 13, b: 110 },
            EnemyColor::Red => Rgb { r: 235, g: 66, b: 102 },
            EnemyColor::Green => Rgb { r: 83, g: 145, b: 126 },
            EnemyColor::Pink => Rgb { r: 217, g: 154, b: 197 },
            EnemyColor::Blue => Rgb { r: 88, g: 84, b: 129 },
        }
    }

    /// The paint for this colour.
    pub fn to_color(&self) -> (rgb: Rgb)
        ensures
            rgb == self.paint(),
    {
        match self {
            EnemyColor::Lilac => Rgb { r: 84, g: 13, b: 110 },
            EnemyColor::Red => Rgb { r: 235, g: 66, b: 102 },
            EnemyColor::Green => Rgb { r: 83, g: 145, b: 126 },
            EnemyColor::Pink => Rgb { r: 217, g: 154, b: 197 },
            EnemyColor::Blue => Rgb { r: 88, g: 84, b: 129 },
        }
    }
}

/// Every form is the form of some draw below [`FORM_COUNT`], and every colour
/// the colour of some draw below [`COLOR_COUNT`].
pub proof fn lemma_draws_cover(form: EnemyForm, color: EnemyColor)
    ensures
        exists|d: u32| d < FORM_COUNT && EnemyForm::of_draw(d) == form,
        exists|d: u32| d < COLOR_COUNT && EnemyColor::of_draw(d) == color,
{
    assert(EnemyForm::of_draw(0) == EnemyForm::Circle);
    assert(EnemyForm::of_draw(1) == EnemyForm::Triangle);
    assert(EnemyForm::of_draw(2) == EnemyForm::Quadratic);
    assert(EnemyColor::of_draw(0) == EnemyColor::Red);
    assert(EnemyColor::of_draw(1) == EnemyColor::Green);
    assert(EnemyColor::of_draw(2) == EnemyColor::Blue);
    assert(EnemyColor::of_draw(3) == EnemyColor::Pink);
    assert(EnemyColor::of_draw(4) == EnemyColor::Lilac);
}

/// World units that a living enemy walks in a second.
pub const ENEMY_SPEED: u64 = 100;

/// World units that a tamed creature flees in a second.
pub const FLEE_SPEED: u64 = 50;

/// The clouds that tamed creatures flee to.
#[derive(Debug)]
pub struct Trees {
    pub coordinates: Vec<Coordinate>,
}

/// An enemy. It is born alive at the spawn, walks the road, and either reaches
/// the castle or is shot down first; shot down, it turns tameable for good and
/// flees to the nearest cloud unless the player catches it.
///
/// An enemy is known to the rest of the game by the number of the roster slot
/// that holds it. Slots are never handed out twice, so a number kept after its
/// enemy is gone names nothing.
#[derive(Debug, Clone, Copy, PartialEq, Eq, Structural)]
pub struct Enemy {
    pub form: EnemyForm,
    pub color: EnemyColor,
    pub max_health: i64,
    pub health: i64,
    pub current_waypoint_index: usize,
    pub travelled: u64,
    pub tameable: bool,
    pub position: Coordinate,
}

/// A sum of lengths, which stops at the largest value that `u64` holds.
pub open spec fn capped_sum(a: u64, b: nat) -> u64 {
    if a + b > u64::MAX {
        u64::MAX
    } else {
        (a + b) as u64
    }
}

/// The first waypoint at or after `from` that is not the place `position`,
/// or the length of the road when there is none.
pub open spec fn next_target(path: Seq<Coordinate>, position: Coordinate, from: nat) -> nat
    decreases path.len() - from,
{
    if from < path.len() && path[from as int] == position {
        next_target(path, position, from + 1)
    } else {
        from
    }
}

/// Of the first `count` clouds, the one nearest to `position`, and the first
/// of those where several are equally near; `None` when `count` is zero.
pub open spec fn nearest_tree(trees: Seq<Coordinate>, position: Coordinate, count: nat) -> Option<
    int,
>
    decreases count,
{
    if count == 0 {
        None
    } else {
        match nearest_tree(trees, position, (count - 1) as nat) {
            None => Some(count - 1),
            Some(best) => if dist_sq(position, trees[count - 1]) < dist_sq(position, trees[best]) {
                Some(count - 1)
            } else {
                Some(best)
            },
        }
    }
}

/// Where a tamed creature at `position` flees to: the nearest cloud, or the
/// origin of the plane when there are no clouds.
pub open spec fn refuge(trees: Seq<Coordinate>, position: Coordinate) -> Coordinate {
    match nearest_tree(trees, position, trees.len()) {
        None => Coordinate { x: 0, y: 0 },
        Some(best) => trees[best],
    }
}

/// The nearest of the first `count` clouds is one of them, none of them is
/// nearer, and none before it is as near.
pub proof fn lemma_nearest_tree(trees: Seq<Coordinate>, position: Coordinate, count: nat)
    requires
        count <= trees.len(),
    ensures
        nearest_tree(trees, position, count) is None <==> count == 0,
        nearest_tree(trees, position, count) matches Some(best) ==> {
            &&& 0 <= best < count
            &&& forall|j: int|
                0 <= j < count ==> dist_sq(position, trees[best]) <= dist_sq(position, #[trigger] trees[j])
            &&& forall|j: int|
                0 <= j < best ==> dist_sq(position, trees[best]) < dist_sq(position, #[trigger] trees[j])
        },
    decreases count,
{
    if count > 0 {
        lemma_nearest_tree(trees, position, (count - 1) as nat);
    }
}

impl Enemy {
    /// A newborn enemy: in full health, at the start of the road.
    pub open spec fn fresh(
        form: EnemyForm,
        color: EnemyColor,
        health: i64,
        spawn: Coordinate,
    ) -> Enemy {
        Enemy {
            form,
            color,
            max_health: health,
            health,
            current_waypoint_index: 0,
            travelled: 0,
            tameable: false,
            position: spawn,
        }
    }

    /// The invariant of an enemy: it never has more health than it was born
    /// with.
    pub open spec fn sound(self) -> bool {
        self.health <= self.max_health
    }

    /// Whether `self` can be a later state of the enemy `earlier`: the same
    /// looks and full health, no more health, no less progress along the road,
    /// and tameable if it was tameable before.
    pub open spec fn succeeds(self, earlier: Enemy) -> bool {
        &&& self.form == earlier.form
        &&& self.color == earlier.color
        &&& self.max_health == earlier.max_health
        &&& self.health <= earlier.health
        &&& self.current_waypoint_index >= earlier.current_waypoint_index
        &&& self.travelled >= earlier.travelled
        &&& earlier.tameable ==> self.tameable
    }

    /// A living enemy that has not run out of road.
    pub open spec fn on_the_road(self, path: Seq<Coordinate>) -> bool {
        !self.tameable && self.current_waypoint_index < path.len()
    }

    /// The enemy after one tick of walking the road `path` with a stride of
    /// `step`.
    ///
    /// Waypoints that the enemy already stands on are ticked off first. If
    /// that uses up the road there is nothing more to do. Otherwise the enemy
    /// heads for the next waypoint: a stride that would carry past it ends on
    /// it, and counts for the length that was left (rounded down) and for the
    /// waypoint; any other stride is walked in full.
    /// Tameable enemies do not walk.
    pub open spec fn marched(self, path: Seq<Coordinate>, step: nat) -> Enemy {
        if self.tameable {
            self
        } else {
            let target = next_target(path, self.position, self.current_waypoint_index as nat);
            if target >= path.len() {
                Enemy { current_waypoint_index: target as usize, ..self }
            } else {
                let goal = path[target as int];
                if overshoots(self.position, goal, step) {
                    Enemy {
                        position: goal,
                        travelled: capped_sum(self.travelled, isqrt(dist_sq(self.position, goal))),
                        current_waypoint_index: (target + 1) as usize,
                        ..self
                    }
                } else {
                    Enemy {
                        position: step_toward(self.position, goal, step),
                        travelled: capped_sum(self.travelled, step),
                        current_waypoint_index: target as usize,
                        ..self
                    }
                }
            }
        }
    }

    /// What becomes of a tamed creature that flees for one tick with a stride
    /// of `step`: it is gone (`None`) if the stride gets it to its refuge, and
    /// otherwise it is that stride nearer to it.
    pub open spec fn fled(self, trees: Seq<Coordinate>, step: nat) -> Option<Enemy> {
        let goal = refuge(trees, self.position);
        if reaches(self.position, goal, step) {
            None
        } else {
            Some(Enemy { position: step_toward(self.position, goal, step), ..self })
        }
    }

    /// Makes a newborn enemy.
    pub fn new(form: EnemyForm, color: EnemyColor, health: i64, spawn: Coordinate) -> (enemy: Enemy)
        ensures
            enemy == Enemy::fresh(form, color, health, spawn),
    {
        Enemy {
            form,
            color,
            max_health: health,
            health,
            current_waypoint_index: 0,
            travelled: 0,
            tameable: false,
            position: spawn,
        }
    }

    /// Walks the road for one tick.
    pub fn march(self, path: &Vec<Coordinate>, step: u64) -> (after: Enemy)
        ensures
            after == self.marched(path@, step as nat),
            after.succeeds(self),
    {
        if self.tameable {
            return self;
        }
        let mut index = self.current_waypoint_index;
        while index < path.len() && path[index] == self.position
            invariant
                next_target(path@, self.position, index as nat) == next_target(
                    path@,
                    self.position,
                    self.current_waypoint_index as nat,
                ),
                index >= self.current_waypoint_index,
            decreases path.len() - index,
        {
            index += 1;
        }
        if index >= path.len() {
            return Enemy { current_waypoint_index: index, ..self };
        }
        let goal = path[index];
        if walk_overshoots(self.position, goal, step) {
            Enemy {
                position: goal,
                travelled: self.travelled.saturating_add(distance(self.position, goal)),
                current_waypoint_index: index + 1,
                ..self
            }
        } else {
            Enemy {
                position: walk_toward(self.position, goal, step),
                travelled: self.travelled.saturating_add(step),
                current_waypoint_index: index,
                ..self
            }
        }
    }

    /// Flees for one tick.
    pub fn flee(self, trees: &Trees, step: u64) -> (after: Option<Enemy>)
        ensures
            after == self.fled(trees.coordinates@, step as nat),
            after matches Some(e) ==> e.succeeds(self) && e.travelled == self.travelled,
    {
        let goal = nearest_refuge(trees, self.position);
        if walk_reaches(self.position, goal, step) {
            None
        } else {
            Some(Enemy { position: walk_toward(self.position, goal, step), ..self })
        }
    }
}

/// Finds the refuge of a tamed creature at `position`.
pub fn nearest_refuge(trees: &Trees, position: Coordinate) -> (goal: Coordinate)
    ensures
        goal == refuge(trees.coordinates@, position),
{
    let mut best: Option<(usize, u128)> = None;
    let mut i: usize = 0;
    while i < trees.coordinates.len()
        invariant
            i <= trees.coordinates.len(),
            match best {
                None => nearest_tree(trees.coordinates@, position, i as nat) is None,
                Some((k, d)) => nearest_tree(trees.coordinates@, position, i as nat) == Some(k as int)
                    && k < i && d == dist_sq(position, trees.coordinates@[k as int]),
            },
        decreases trees.coordinates.len() - i,
    {
        let d = distance_squared(position, trees.coordinates[i]);
        best = match best {
            None => Some((i, d)),
            Some((k, least)) => if d < least {
                Some((i, d))
            } else {
                Some((k, least))
            },
        };
        i += 1;
    }
    match best {
        None => Coordinate { x: 0, y: 0 },
        Some((k, _)) => trees.coordinates[k],
    }
}

/// Whether every enemy of a roster keeps the invariant of enemies.
pub open spec fn roster_sound(roster: Seq<Option<Enemy>>) -> bool {
    forall|i: int| 0 <= i < roster.len() ==> (#[trigger] roster[i] matches Some(e) ==> e.sound())
}

/// Whether the roster `later` can come after the roster `earlier`.
///
/// No slot is lost. An enemy in a slot that `earlier` had is a later state of
/// the enemy that was in that slot: slots are not refilled. An enemy in a new
/// slot keeps the invariant of enemies.
pub open spec fn roster_evolves(later: Seq<Option<Enemy>>, earlier: Seq<Option<Enemy>>) -> bool {
    &&& later.len() >= earlier.len()
    &&& forall|i: int|
        0 <= i < earlier.len() ==> (#[trigger] later[i] matches Some(e) ==> earlier[i] matches Some(p)
            && e.succeeds(p))
    &&& forall|i: int|
        earlier.len() <= i < later.len() ==> (#[trigger] later[i] matches Some(e) ==> e.sound())
}

/// The enemy in a roster slot after a tick of walking.
pub open spec fn marched_slot(slot: Option<Enemy>, path: Seq<Coordinate>, step: nat) -> Option<
    Enemy,
> {
    match slot {
        Some(e) => Some(e.marched(path, step)),
        None => None,
    }
}

/// The enemy in roster slot `id` after a tick of fleeing, with `held` the
/// player's hand: only tamed creatures that the player does not hold flee.
pub open spec fn fled_slot(
    slot: Option<Enemy>,
    id: int,
    held: CurrentPiece,
    trees: Seq<Coordinate>,
    step: nat,
) -> Option<Enemy> {
    match slot {
        Some(e) => if e.tameable && !held.holds(id) {
            e.fled(trees, step)
        } else {
            Some(e)
        },
        None => None,
    }
}

/// Moves every living enemy along the road for a tick of `delta_ms`
/// milliseconds.
pub fn update_enemies(enemies: &mut Vec<Option<Enemy>>, map: &GameMap, delta_ms: u32)
    ensures
        final(enemies)@.len() == old(enemies)@.len(),
        forall|i: int|
            0 <= i < old(enemies)@.len() ==> #[trigger] final(enemies)@[i] == marched_slot(
                old(enemies)@[i],
                map.waypoints@,
                (ENEMY_SPEED * delta_ms) as nat,
            ),
        roster_evolves(final(enemies)@, old(enemies)@),
{
    let step: u64 = ENEMY_SPEED * (delta_ms as u64);
    let mut i: usize = 0;
    while i < enemies.len()
        invariant
            i <= enemies.len(),
            enemies@.len() == old(enemies)@.len(),
            step == ENEMY_SPEED * delta_ms,
            forall|j: int|
                0 <= j < i ==> #[trigger] enemies@[j] == marched_slot(
                    old(enemies)@[j],
                    map.waypoints@,
                    step as nat,
                ),
            forall|j: int| i <= j < enemies@.len() ==> enemies@[j] == old(enemies)@[j],
            forall|j: int|
                0 <= j < i ==> (#[trigger] enemies@[j] matches Some(e) ==> old(enemies)@[j] matches Some(p)
                    && e.succeeds(p)),
        decreases enemies.len() - i,
    {
        match enemies[i] {
            Some(enemy) => {
                enemies[i] = Some(enemy.march(&map.waypoints, step));
            },
            None => {},
        }
        i += 1;
    }
}

/// Lets every tamed creature that the player does not hold flee for a tick of
/// `delta_ms` milliseconds. Those that get to their refuge are gone.
pub fn update_tamable_enemies(
    enemies: &mut Vec<Option<Enemy>>,
    trees: &Trees,
    currently_picked_up: &CurrentPiece,
    delta_ms: u32,
)
    ensures
        final(enemies)@.len() == old(enemies)@.len(),
        forall|i: int|
            0 <= i < old(enemies)@.len() ==> #[trigger] final(enemies)@[i] == fled_slot(
                old(enemies)@[i],
                i,
                *currently_picked_up,
                trees.coordinates@,
                (FLEE_SPEED * delta_ms) as nat,
            ),
        roster_evolves(final(enemies)@, old(enemies)@),
{
    let step: u64 = FLEE_SPEED * (delta_ms as u64);
    let mut i: usize = 0;
    while i < enemies.len()
        invariant
            i <= enemies.len(),
            enemies@.len() == old(enemies)@.len(),
            step == FLEE_SPEED * delta_ms,
            forall|j: int|
                0 <= j < i ==> #[trigger] enemies@[j] == fled_slot(
                    old(enemies)@[j],
                    j,
                    *currently_picked_up,
                    trees.coordinates@,
                    step as nat,
                ),
            forall|j: int| i <= j < enemies@.len() ==> enemies@[j] == old(enemies)@[j],
            forall|j: int|
                0 <= j < i ==> (#[trigger] enemies@[j] matches Some(e) ==> old(enemies)@[j] matches Some(p)
                    && e.succeeds(p)),
        decreases enemies.len() - i,
    {
        match enemies[i] {
            Some(enemy) => {
                let held = match currently_picked_up.entity {
                    Some(id) => id == i,
                    None => false,
                };
                if enemy.tameable && !held {
                    enemies[i] = enemy.flee(trees, step);
                }
            },
            None => {},
        }
        i += 1;
    }
}

/// A roster that comes after a sound roster is sound: no enemy ever has more
/// health than it was born with.
pub proof fn lemma_evolution_keeps_sound(later: Seq<Option<Enemy>>, earlier: Seq<Option<Enemy>>)
    requires
        roster_sound(earlier),
        roster_evolves(later, earlier),
    ensures
        roster_sound(later),
{
}

/// Coming after is transitive. So whatever the game does to a roster, tick
/// after tick: an enemy once tameable stays tameable, its count of waypoints
/// and the length it has walked never shrink, and its health never grows.
pub proof fn lemma_evolution_transitive(
    a: Seq<Option<Enemy>>,
    b: Seq<Option<Enemy>>,
    c: Seq<Option<Enemy>>,
)
    requires
        roster_evolves(b, a),
        roster_evolves(c, b),
    ensures
        roster_evolves(c, a),
{
    assert forall|i: int| a.len() <= i < c.len() implies (#[trigger] c[i] matches Some(e)
        ==> e.sound()) by {
    }
}

/// Milliseconds that pass between one spawn and the next.
pub const SPAWN_INTERVAL_MS: u64 = 1000;

/// The largest bonus, in hundredths of the wave baseline, that a newborn
/// enemy's health is never given: bonuses are drawn below it.
pub const BONUS_LIMIT: u32 = 50;

/// When the last enemy was sent out, in milliseconds on the game's clock.
#[derive(Debug, Clone, Copy, PartialEq, Eq, Structural)]
pub struct WaveState {
    pub last_spawn: u64,
}

impl WaveState {
    /// Whether an enemy is due at the time `now`: a full interval has passed
    /// since the last one. Before the clock has ticked for the first time
    /// (`None`) an enemy is always due.
    pub open spec fn due(self, now: Option<u64>) -> bool {
        match now {
            Some(t) => t - self.last_spawn >= SPAWN_INTERVAL_MS,
            None => true,
        }
    }

    /// The state after asking at the time `now` whether an enemy is due: if
    /// one is, the interval starts anew at `now`.
    pub open spec fn asked(self, now: Option<u64>) -> WaveState {
        match now {
            Some(t) => if self.due(now) {
                WaveState { last_spawn: t }
            } else {
                self
            },
            None => self,
        }
    }

    /// Asks whether an enemy is due at the time `now`, and starts the
    /// interval anew if so.
    pub fn tick(&mut self, now: Option<u64>) -> (due: bool)
        ensures
            due == old(self).due(now),
            *final(self) == old(self).asked(now),
    {
        match now {
            Some(t) => {
                if t >= self.last_spawn && t - self.last_spawn >= SPAWN_INTERVAL_MS {
                    self.last_spawn = t;
                    true
                } else {
                    false
                }
            },
            None => true,
        }
    }
}

/// The wave sends out at most one enemy in an interval: once an enemy was due
/// at some time, none is due until a full interval later.
pub proof fn lemma_wave_waits(wave: WaveState, now: u64, later: u64)
    requires
        wave.due(Some(now)),
        later < now + SPAWN_INTERVAL_MS,
    ensures
        !wave.asked(Some(now)).due(Some(later)),
{
}

/// The health of an enemy born at the wave baseline `baseline` with a bonus of
/// `percent` hundredths: the baseline, and for each hundredth of bonus a
/// hundredth of the baseline, rounded down.
pub open spec fn wave_health(baseline: u32, percent: u32) -> int {
    baseline + (baseline / 100) * percent
}

/// Computes [`wave_health`].
pub fn spawn_health(baseline: u32, percent: u32) -> (health: i64)
    ensures
        health == wave_health(baseline, percent),
{
    let unit: u32 = baseline / 100;
    assert(0 <= unit * percent <= 0x300_0000 * 0x1_0000_0000) by (nonlinear_arith)
        requires
            0 <= unit < 0x300_0000,
            0 <= percent < 0x1_0000_0000,
    ;
    baseline as i64 + (unit as i64) * (percent as i64)
}

impl GameState {
    /// The ledger after the wave baseline has gone up by one. The baseline
    /// stops at the largest value it can hold.
    pub open spec fn raised(self) -> GameState {
        GameState {
            enemy_health: if self.enemy_health < u32::MAX {
                (self.enemy_health + 1) as u32
            } else {
                u32::MAX
            },
            ..self
        }
    }
}

/// Puts a newborn enemy of the given looks and health at the spawn of the
/// map, in a new roster slot, and returns the number of that slot.
pub fn create_enemy(
    enemies: &mut Vec<Option<Enemy>>,
    color: EnemyColor,
    map: &GameMap,
    health: i64,
    form: EnemyForm,
) -> (id: usize)
    ensures
        id == old(enemies)@.len(),
        final(enemies)@ == old(enemies)@.push(Some(Enemy::fresh(form, color, health, map.spawn))),
        roster_evolves(final(enemies)@, old(enemies)@),
{
    let id = enemies.len();
    enemies.push(Some(Enemy::new(form, color, health, map.spawn)));
    id
}

/// The roster after an enemy was sent out on the draws `form_draw`,
/// `color_draw` and `percent`, with `state` the ledger before.
pub open spec fn with_newborn(
    enemies: Seq<Option<Enemy>>,
    spawn: Coordinate,
    state: GameState,
    form_draw: u32,
    color_draw: u32,
    percent: u32,
) -> Seq<Option<Enemy>> {
    enemies.push(
        Some(
            Enemy::fresh(
                EnemyForm::of_draw(form_draw),
                EnemyColor::of_draw(color_draw),
                wave_health(state.raised().enemy_health, percent) as i64,
                spawn,
            ),
        ),
    )
}

/// Sends out one enemy on the given draws: the wave baseline goes up by one,
/// and the enemy is born with the health that the new baseline and the bonus
/// `percent` give, and with the looks that the other two draws stand for.
pub fn spawn_enemy(
    enemies: &mut Vec<Option<Enemy>>,
    map: &GameMap,
    game_state: &mut GameState,
    form_draw: u32,
    color_draw: u32,
    percent: u32,
) -> (id: usize)
    ensures
        id == old(enemies)@.len(),
        *final(game_state) == old(game_state).raised(),
        final(enemies)@ == with_newborn(
            old(enemies)@,
            map.spawn,
            *old(game_state),
            form_draw,
            color_draw,
            percent,
        ),
        roster_evolves(final(enemies)@, old(enemies)@),
{
    game_state.enemy_health = game_state.enemy_health.saturating_add(1);
    let health = spawn_health(game_state.enemy_health, percent);
    create_enemy(
        enemies,
        EnemyColor::from_draw(color_draw),
        map,
        health,
        EnemyForm::from_draw(form_draw),
    )
}

/// Sends out the next enemy of the wave if one is due at the time `now` and
/// the castle still stands. Returns the roster slot of the newcomer.
///
/// Enemies are due once per [`SPAWN_INTERVAL_MS`]. A fallen castle holds the
/// wave back without ending it: nothing is born and the baseline rests, but
/// the interval runs on. The newcomer's looks and the bonus on its health are
/// drawn at random, the bonus below [`BONUS_LIMIT`].
pub fn spawn_enemies(
    enemies: &mut Vec<Option<Enemy>>,
    map: &GameMap,
    now: Option<u64>,
    game_state: &mut GameState,
    wave_state: &mut WaveState,
) -> (spawned: Option<usize>)
    ensures
        *final(wave_state) == old(wave_state).asked(now),
        spawned is Some <==> old(wave_state).due(now) && old(game_state).alive(),
        spawned is None ==> final(enemies)@ == old(enemies)@ && *final(game_state) == *old(
            game_state,
        ),
        spawned matches Some(id) ==> {
            &&& id == old(enemies)@.len()
            &&& *final(game_state) == old(game_state).raised()
            &&& exists|form_draw: u32, color_draw: u32, percent: u32|
                form_draw < FORM_COUNT && color_draw < COLOR_COUNT && percent < BONUS_LIMIT
                    && final(enemies)@ == #[trigger] with_newborn(
                    old(enemies)@,
                    map.spawn,
                    *old(game_state),
                    form_draw,
                    color_draw,
                    percent,
                )
        },
        roster_evolves(final(enemies)@, old(enemies)@),
{
    if !wave_state.tick(now) {
        return None;
    }
    if game_state.health < 1 {
        return None;
    }
    let form_draw = random_below(FORM_COUNT);
    let color_draw = random_below(COLOR_COUNT);
    let percent = random_below(BONUS_LIMIT);
    Some(spawn_enemy(enemies, map, game_state, form_draw, color_draw, percent))
}

impl Enemy {
    /// Whether a living enemy has been shot down: its health is below zero.
    pub open spec fn defeated(self) -> bool {
        !self.tameable && self.health < 0
    }

    /// Whether a living enemy has got through to the castle: it has not been
    /// shot down and has ticked off every waypoint of a road of `road`
    /// waypoints.
    pub open spec fn breaching(self, road: nat) -> bool {
        !self.tameable && self.health >= 0 && self.current_waypoint_index >= road
    }

    /// The enemy turned tameable.
    pub open spec fn tamed(self) -> Enemy {
        Enemy { tameable: true, ..self }
    }
}

/// Whether the enemy in a roster slot stops being a target when the roster is
/// judged: it has been shot down or has got through.
pub open spec fn leaves_play(slot: Option<Enemy>, road: nat) -> bool {
    slot matches Some(e) && (e.defeated() || e.breaching(road))
}

/// A roster slot after judgement: an enemy that was shot down is tameable
/// from now on, one that got through is gone, any other is as it was. Being
/// shot down is asked first, so an enemy that falls on the castle's doorstep
/// is tamed and does no harm.
pub open spec fn judged_slot(slot: Option<Enemy>, road: nat) -> Option<Enemy> {
    match slot {
        Some(e) => if e.defeated() {
            Some(e.tamed())
        } else if e.breaching(road) {
            None
        } else {
            Some(e)
        },
        None => None,
    }
}

/// The ledger after judgement of one roster slot.
pub open spec fn ledger_step(state: GameState, slot: Option<Enemy>, road: nat) -> GameState {
    match slot {
        Some(e) => if e.defeated() {
            state.rewarded(e.max_health)
        } else if e.breaching(road) {
            state.breached()
        } else {
            state
        },
        None => state,
    }
}

/// The ledger after judgement of the first `count` roster slots, in order.
pub open spec fn ledger_after(
    enemies: Seq<Option<Enemy>>,
    road: nat,
    state: GameState,
    count: nat,
) -> GameState
    decreases count,
{
    if count == 0 {
        state
    } else {
        ledger_step(
            ledger_after(enemies, road, state, (count - 1) as nat),
            enemies[count - 1],
            road,
        )
    }
}

/// A projectile slot after judgement of the roster `enemies`: the projectiles
/// of every enemy that stops being a target are destroyed.
pub open spec fn cleared_slot(slot: Option<Bullet>, enemies: Seq<Option<Enemy>>, road: nat) -> Option<
    Bullet,
> {
    match slot {
        Some(b) => if b.target < enemies.len() && leaves_play(enemies[b.target as int], road) {
            None
        } else {
            Some(b)
        },
        None => None,
    }
}

/// How many of the enemies in the first `count` roster slots have got through
/// to the castle.
pub open spec fn breaches_among(enemies: Seq<Option<Enemy>>, road: nat, count: nat) -> nat
    decreases count,
{
    if count == 0 {
        0
    } else {
        breaches_among(enemies, road, (count - 1) as nat) + match enemies[count - 1] {
            Some(e) => if e.breaching(road) {
                1nat
            } else {
                0nat
            },
            None => 0nat,
        }
    }
}

/// Judgement never restores health, lowers the score or touches the wave.
/// Every breach costs the castle a point of health until it has none left,
/// and a castle that has fallen is past all change.
pub proof fn lemma_ledger_after_follows(
    enemies: Seq<Option<Enemy>>,
    road: nat,
    state: GameState,
    count: nat,
)
    ensures
        ledger_after(enemies, road, state, count).follows(state),
        ledger_after(enemies, road, state, count).enemy_health == state.enemy_health,
        ledger_after(enemies, road, state, count).health == if state.health >= breaches_among(
            enemies,
            road,
            count,
        ) {
            state.health - breaches_among(enemies, road, count)
        } else {
            0
        },
        !state.alive() ==> ledger_after(enemies, road, state, count) == state,
    decreases count,
{
    if count > 0 {
        lemma_ledger_after_follows(enemies, road, state, (count - 1) as nat);
    }
}

/// Judges the roster once all damage of the tick is done.
///
/// Every living enemy whose health is below zero turns tameable, and its full
/// health goes to the score if the castle stands. Every other living enemy
/// that has run out of road is removed, and costs the castle a point of
/// health if it has any. The projectiles of both are destroyed. Returns how
/// many enemies got through, whether or not the castle had health to lose:
/// every one of them is a breach to tell of.
pub fn remove_enemies(
    enemies: &mut Vec<Option<Enemy>>,
    bullets: &mut Vec<Option<Bullet>>,
    map: &GameMap,
    game_state: &mut GameState,
) -> (breaches: usize)
    ensures
        final(enemies)@.len() == old(enemies)@.len(),
        forall|i: int|
            0 <= i < old(enemies)@.len() ==> #[trigger] final(enemies)@[i] == judged_slot(
                old(enemies)@[i],
                map.waypoints@.len(),
            ),
        final(bullets)@.len() == old(bullets)@.len(),
        forall|k: int|
            0 <= k < old(bullets)@.len() ==> #[trigger] final(bullets)@[k] == cleared_slot(
                old(bullets)@[k],
                old(enemies)@,
                map.waypoints@.len(),
            ),
        *final(game_state) == ledger_after(
            old(enemies)@,
            map.waypoints@.len(),
            *old(game_state),
            old(enemies)@.len(),
        ),
        breaches == breaches_among(old(enemies)@, map.waypoints@.len(), old(enemies)@.len()),
        final(game_state).follows(*old(game_state)),
        roster_evolves(final(enemies)@, old(enemies)@),
{
    let road = map.waypoints.len();
    let mut k: usize = 0;
    while k < bullets.len()
        invariant
            k <= bullets.len(),
            bullets@.len() == old(bullets)@.len(),
            enemies@ == old(enemies)@,
            road == map.waypoints@.len(),
            forall|j: int|
                0 <= j < k ==> #[trigger] bullets@[j] == cleared_slot(
                    old(bullets)@[j],
                    old(enemies)@,
                    road as nat,
                ),
            forall|j: int| k <= j < bullets@.len() ==> bullets@[j] == old(bullets)@[j],
        decreases bullets.len() - k,
    {
        if let Some(bullet) = bullets[k] {
            if bullet.target < enemies.len() {
                if let Some(enemy) = enemies[bullet.target] {
                    if !enemy.tameable && (enemy.health < 0 || enemy.current_waypoint_index
                        >= road) {
                        bullets[k] = None;
                    }
                }
            }
        }
        k += 1;
    }
    let mut breaches: usize = 0;
    let mut i: usize = 0;
    while i < enemies.len()
        invariant
            i <= enemies.len(),
            enemies@.len() == old(enemies)@.len(),
            road == map.waypoints@.len(),
            forall|j: int|
                0 <= j < i ==> #[trigger] enemies@[j] == judged_slot(old(enemies)@[j], road as nat),
            forall|j: int| i <= j < enemies@.len() ==> enemies@[j] == old(enemies)@[j],
            *game_state == ledger_after(old(enemies)@, road as nat, *old(game_state), i as nat),
            breaches == breaches_among(old(enemies)@, road as nat, i as nat),
            breaches <= i,
        decreases enemies.len() - i,
    {
        if let Some(enemy) = enemies[i] {
            if !enemy.tameable {
                if enemy.health < 0 {
                    game_state.record_defeat(enemy.max_health);
                    enemies[i] = Some(Enemy { tameable: true, ..enemy });
                } else if enemy.current_waypoint_index >= road {
                    game_state.record_breach();
                    breaches += 1;
                    enemies[i] = None;
                }
            }
        }
        i += 1;
    }
    proof {
        lemma_ledger_after_follows(
            old(enemies)@,
            road as nat,
            *old(game_state),
            old(enemies)@.len(),
        );
    }
    breaches
}

impl GameMap {
    /// Gathers the clouds of the field.
    pub fn gather_trees(&self) -> (trees: Trees)
        ensures
            trees.coordinates@ == self.places(Tile::Cloud, Tile::Cloud),
    {
        Trees { coordinates: self.find_tiles(Tile::Cloud, Tile::Cloud) }
    }
}

/// The level of each channel of the grey that an unhurt enemy is painted.
pub const GRAY_LEVEL: u8 = 128;

/// One channel of the paint of an enemy whose colour has the level `level`
/// in that channel: the level itself once the enemy's health is zero or less,
/// grey when it is at full health or beyond, and in between a mix of the two
/// in which grey has the share `health / max_health`; rounded down.
pub open spec fn mixed(level: u8, health: i64, max_health: i64) -> u8 {
    if health <= 0 {
        level
    } else if health >= max_health {
        GRAY_LEVEL
    } else {
        ((GRAY_LEVEL * health + level * (max_health - health)) / (max_health as int)) as u8
    }
}

/// One channel of the paint of an enemy.
fn mix(level: u8, health: i64, max_health: i64) -> (channel: u8)
    ensures
        channel == mixed(level, health, max_health),
{
    if health <= 0 {
        level
    } else if health >= max_health {
        GRAY_LEVEL
    } else {
        let share = health as u128;
        let whole = max_health as u128;
        let rest = whole - share;
        assert(GRAY_LEVEL * share + level * rest <= 255 * whole) by (nonlinear_arith)
            requires
                share + rest == whole,
                0 <= level <= 255,
                GRAY_LEVEL <= 255,
                0 <= share,
                0 <= rest,
        ;
        assert(GRAY_LEVEL * share <= 255 * whole && level * rest <= 255 * whole)
            by (nonlinear_arith)
            requires
                share + rest == whole,
                0 <= level <= 255,
                GRAY_LEVEL <= 255,
                0 <= share,
                0 <= rest,
        ;
        let total: u128 = (GRAY_LEVEL as u128) * share + (level as u128) * rest;
        assert(total / whole <= 255) by (nonlinear_arith)
            requires
                total <= 255 * whole,
                whole > 0,
        ;
        (total / whole) as u8
    }
}

impl Enemy {
    /// The paint of the enemy when it has the health `health`: grey while
    /// unhurt, its own colour once its health is zero or less, and in between
    /// a mix of the two with as much grey as it has health left.
    pub fn get_color(&self, health: i64) -> (rgb: Rgb)
        ensures
            rgb.r == mixed(self.color.paint().r, health, self.max_health),
            rgb.g == mixed(self.color.paint().g, health, self.max_health),
            rgb.b == mixed(self.color.paint().b, health, self.max_health),
    {
        let paint = self.color.to_color();
        Rgb {
            r: mix(paint.r, health, self.max_health),
            g: mix(paint.g, health, self.max_health),
            b: mix(paint.b, health, self.max_health),
        }
    }
}

} // verus!
