//! Projectiles: each homes in on one enemy and is spent when it lands.

use crate::enemies::{roster_evolves, Enemy};
use crate::geometry::{reaches, step_toward, walk_reaches, walk_toward};
use crate::map::Coordinate;
use vstd::prelude::*;

verus! {

/// A projectile in flight. `target` names a slot of the enemy roster; the
/// projectile holds no more of its target than that, and whether the slot
/// still holds a living enemy is looked up anew on every tick.
#[derive(Debug, Clone, Copy, PartialEq, Eq, Structural)]
pub struct Bullet {
    pub damage: u32,
    pub speed: u32,
    pub target: usize,
    pub position: Coordinate,
}

impl Enemy {
    /// The enemy after taking `damage`. Health may fall below zero, down to
    /// the least value that `i64` holds.
    pub open spec fn wounded(self, damage: nat) -> Enemy {
        Enemy {
            health: if self.health - damage < i64::MIN {
                i64::MIN
            } else {
                (self.health - damage) as i64
            },
            ..self
        }
    }

    /// Takes `damage`.
    pub fn wound(self, damage: u32) -> (after: Enemy)
        ensures
            after == self.wounded(damage as nat),
            after.succeeds(self),
    {
        let health = if self.health < i64::MIN + damage as i64 {
            i64::MIN
        } else {
            self.health - damage as i64
        };
        Enemy { health, ..self }
    }
}

impl Bullet {
    /// The enemy that this projectile is after, if it can still be hit: the
    /// target's slot must hold an enemy, and the enemy must not be tameable.
    pub open spec fn quarry(self, enemies: Seq<Option<Enemy>>) -> Option<Enemy> {
        if self.target < enemies.len() {
            match enemies[self.target as int] {
                Some(e) => if e.tameable {
                    None
                } else {
                    Some(e)
                },
                None => None,
            }
        } else {
            None
        }
    }

    /// The length that this projectile flies in `delta_ms` milliseconds.
    pub open spec fn stride(self, delta_ms: u32) -> nat {
        (self.speed * delta_ms) as nat
    }

    /// Whether this projectile hits its target within this tick: the target
    /// can be hit, and is no farther off than the projectile flies. It flies
    /// to where the target is now, not to where it was when the shot was
    /// fired.
    pub open spec fn lands(self, enemies: Seq<Option<Enemy>>, delta_ms: u32) -> bool {
        self.quarry(enemies) matches Some(e) && reaches(
            self.position,
            e.position,
            self.stride(delta_ms),
        )
    }

    /// The projectile after a tick, or `None` if the tick is its last: it is
    /// spent when it lands, and dropped when its target can no longer be hit.
    pub open spec fn flown(self, enemies: Seq<Option<Enemy>>, delta_ms: u32) -> Option<Bullet> {
        match self.quarry(enemies) {
            None => None,
            Some(e) => if reaches(self.position, e.position, self.stride(delta_ms)) {
                None
            } else {
                Some(
                    Bullet {
                        position: step_toward(self.position, e.position, self.stride(delta_ms)),
                        ..self
                    },
                )
            },
        }
    }

    /// The length that this projectile flies in `delta_ms` milliseconds.
    pub fn flight(&self, delta_ms: u32) -> (stride: u64)
        ensures
            stride == self.stride(delta_ms),
    {
        assert(0 <= self.speed * delta_ms <= u64::MAX) by (nonlinear_arith)
            requires
                0 <= self.speed <= u32::MAX,
                0 <= delta_ms <= u32::MAX,
        ;
        self.speed as u64 * delta_ms as u64
    }

    /// Looks up the enemy that this projectile is after.
    pub fn resolve(&self, enemies: &Vec<Option<Enemy>>) -> (found: Option<Enemy>)
        ensures
            found == self.quarry(enemies@),
    {
        if self.target < enemies.len() {
            match enemies[self.target] {
                Some(e) => if e.tameable {
                    None
                } else {
                    Some(e)
                },
                None => None,
            }
        } else {
            None
        }
    }
}

/// The slot of a projectile after a tick.
pub open spec fn flown_slot(
    slot: Option<Bullet>,
    enemies: Seq<Option<Enemy>>,
    delta_ms: u32,
) -> Option<Bullet> {
    match slot {
        Some(b) => b.flown(enemies, delta_ms),
        None => None,
    }
}

/// The damage that the projectile in a slot does to the enemy in roster slot
/// `id` within this tick.
pub open spec fn damage_of(
    slot: Option<Bullet>,
    enemies: Seq<Option<Enemy>>,
    delta_ms: u32,
    id: int,
) -> nat {
    match slot {
        Some(b) => if b.target == id && b.lands(enemies, delta_ms) {
            b.damage as nat
        } else {
            0
        },
        None => 0,
    }
}

/// The damage that the projectiles in the first `count` slots together do to
/// the enemy in roster slot `id` within this tick.
pub open spec fn damage_landing(
    bullets: Seq<Option<Bullet>>,
    enemies: Seq<Option<Enemy>>,
    delta_ms: u32,
    id: int,
    count: nat,
) -> nat
    decreases count,
{
    if count == 0 {
        0
    } else {
        damage_landing(bullets, enemies, delta_ms, id, (count - 1) as nat) + damage_of(
            bullets[count - 1],
            enemies,
            delta_ms,
            id,
        )
    }
}

/// The slot of an enemy after the projectiles in the first `count` slots have
/// had their tick.
pub open spec fn wounded_slot(
    slot: Option<Enemy>,
    bullets: Seq<Option<Bullet>>,
    enemies: Seq<Option<Enemy>>,
    delta_ms: u32,
    id: int,
    count: nat,
) -> Option<Enemy> {
    match slot {
        Some(e) => Some(e.wounded(damage_landing(bullets, enemies, delta_ms, id, count))),
        None => None,
    }
}

/// The first free slot at or after `from`, or the number of slots when all
/// are taken.
pub open spec fn first_free(bullets: Seq<Option<Bullet>>, from: nat) -> nat
    decreases bullets.len() - from,
{
    if from < bullets.len() && bullets[from as int] is Some {
        first_free(bullets, from + 1)
    } else {
        from
    }
}

/// The projectiles with one more among them: in the first free slot, or in a
/// new slot at the end when none is free.
pub open spec fn with_bullet(bullets: Seq<Option<Bullet>>, bullet: Bullet) -> Seq<Option<Bullet>> {
    let slot = first_free(bullets, 0);
    if slot < bullets.len() {
        bullets.update(slot as int, Some(bullet))
    } else {
        bullets.push(Some(bullet))
    }
}

/// Puts a projectile into play and returns the number of its slot.
pub fn spawn_bullet(bullets: &mut Vec<Option<Bullet>>, bullet: Bullet) -> (id: usize)
    ensures
        final(bullets)@ == with_bullet(old(bullets)@, bullet),
        id == first_free(old(bullets)@, 0),
        final(bullets)@[id as int] == Some(bullet),
{
    let mut i: usize = 0;
    while i < bullets.len() && bullets[i].is_some()
        invariant
            i <= bullets.len(),
            bullets@ == old(bullets)@,
            first_free(bullets@, i as nat) == first_free(bullets@, 0),
        decreases bullets.len() - i,
    {
        i += 1;
    }
    if i < bullets.len() {
        bullets[i] = Some(bullet);
    } else {
        bullets.push(Some(bullet));
    }
    i
}

/// Two rounds of damage add up.
proof fn lemma_wounded_twice(e: Enemy, a: nat, b: nat)
    ensures
        e.wounded(a).wounded(b) == e.wounded(a + b),
{
}

/// Gives every projectile its tick of `delta_ms` milliseconds.
///
/// A projectile whose target can no longer be hit is dropped. One that gets
/// to its target does its damage and is spent. Any other flies on towards
/// where its target now is. The enemies change in health only, each by all
/// the damage that lands on it.
pub fn update_bullets(
    bullets: &mut Vec<Option<Bullet>>,
    enemies: &mut Vec<Option<Enemy>>,
    delta_ms: u32,
)
    ensures
        final(bullets)@.len() == old(bullets)@.len(),
        forall|k: int|
            0 <= k < old(bullets)@.len() ==> #[trigger] final(bullets)@[k] == flown_slot(
                old(bullets)@[k],
                old(enemies)@,
                delta_ms,
            ),
        final(enemies)@.len() == old(enemies)@.len(),
        forall|i: int|
            0 <= i < old(enemies)@.len() ==> #[trigger] final(enemies)@[i] == wounded_slot(
                old(enemies)@[i],
                old(bullets)@,
                old(enemies)@,
                delta_ms,
                i,
                old(bullets)@.len(),
            ),
        roster_evolves(final(enemies)@, old(enemies)@),
{
    let mut k: usize = 0;
    while k < bullets.len()
        invariant
            k <= bullets.len(),
            bullets@.len() == old(bullets)@.len(),
            enemies@.len() == old(enemies)@.len(),
            forall|j: int|
                0 <= j < k ==> #[trigger] bullets@[j] == flown_slot(
                    old(bullets)@[j],
                    old(enemies)@,
                    delta_ms,
                ),
            forall|j: int| k <= j < bullets@.len() ==> bullets@[j] == old(bullets)@[j],
            forall|i: int|
                0 <= i < enemies@.len() ==> #[trigger] enemies@[i] == wounded_slot(
                    old(enemies)@[i],
                    old(bullets)@,
                    old(enemies)@,
                    delta_ms,
                    i,
                    k as nat,
                ),
        decreases bullets.len() - k,
    {
        if let Some(bullet) = bullets[k] {
            assert(bullet.quarry(enemies@) is None ==> bullet.quarry(old(enemies)@) is None);
            match bullet.resolve(enemies) {
                None => {
                    bullets[k] = None;
                },
                Some(enemy) => {
                    let stride = bullet.flight(delta_ms);
                    if walk_reaches(bullet.position, enemy.position, stride) {
                        enemies[bullet.target] = Some(enemy.wound(bullet.damage));
                        bullets[k] = None;
                        proof {
                            let p = old(enemies)@[bullet.target as int]->Some_0;
                            lemma_wounded_twice(
                                p,
                                damage_landing(
                                    old(bullets)@,
                                    old(enemies)@,
                                    delta_ms,
                                    bullet.target as int,
                                    k as nat,
                                ),
                                bullet.damage as nat,
                            );
                        }
                    } else {
                        bullets[k] = Some(
                            Bullet {
                                position: walk_toward(bullet.position, enemy.position, stride),
                                ..bullet
                            },
                        );
                    }
                },
            }
        }
        k += 1;
    }
}

/// A projectile lands once: the tick in which it does its damage is its
/// last.
pub proof fn lemma_landing_is_final(bullet: Bullet, enemies: Seq<Option<Enemy>>, delta_ms: u32)
    requires
        bullet.lands(enemies, delta_ms),
    ensures
        bullet.flown(enemies, delta_ms) is None,
{
}

/// An enemy that is tameable takes no damage from projectiles, however many
/// are after it, and every projectile that is after it is dropped.
pub proof fn lemma_tameable_is_immune(
    bullets: Seq<Option<Bullet>>,
    enemies: Seq<Option<Enemy>>,
    delta_ms: u32,
    id: int,
    count: nat,
)
    requires
        0 <= id < enemies.len(),
        enemies[id] matches Some(e) && e.tameable,
    ensures
        damage_landing(bullets, enemies, delta_ms, id, count) == 0,
        wounded_slot(enemies[id], bullets, enemies, delta_ms, id, count) == enemies[id],
        forall|b: Bullet| b.target == id ==> #[trigger] b.flown(enemies, delta_ms) is None,
    decreases count,
{
    if count > 0 {
        lemma_tameable_is_immune(bullets, enemies, delta_ms, id, (count - 1) as nat);
    }
}

/// The slots among the first `count` whose projectiles are after the enemy
/// in roster slot `id`, in order.
pub open spec fn pursuers(bullets: Seq<Option<Bullet>>, id: usize, count: nat) -> Seq<usize>
    decreases count,
{
    if count == 0 {
        Seq::empty()
    } else {
        let before = pursuers(bullets, id, (count - 1) as nat);
        match bullets[count - 1] {
            Some(b) => if b.target == id {
                before.push((count - 1) as usize)
            } else {
                before
            },
            None => before,
        }
    }
}

/// Lists the slots of the projectiles that are after the enemy in roster
/// slot `id`.
pub fn active_projectiles(bullets: &Vec<Option<Bullet>>, id: usize) -> (slots: Vec<usize>)
    ensures
        slots@ == pursuers(bullets@, id, bullets@.len()),
{
    let mut slots: Vec<usize> = Vec::new();
    let mut k: usize = 0;
    while k < bullets.len()
        invariant
            k <= bullets.len(),
            slots@ == pursuers(bullets@, id, k as nat),
        decreases bullets.len() - k,
    {
        if let Some(bullet) = bullets[k] {
            if bullet.target == id {
                slots.push(k);
            }
        }
        k += 1;
    }
    slots
}

} // verus!
