//! The whole game, and the order in which its parts take their turns within
//! a tick.
//!
//! A tick goes through six phases. First the projectiles fly and do their
//! damage. Then the roster is judged: whoever was shot down turns tameable,
//! whoever got through is removed. Then everyone moves: the wave sends out
//! its next enemy, the living walk the road, the tamed flee. Then the towers
//! fire. Then the player's hand is served: a held creature follows the
//! cursor, and a press of the button catches or places. Last, the puzzles
//! are settled, and completed ones are replaced and build or improve their
//! towers. Every phase sees what the phases before it left behind, so the
//! invariants of the enemies and of the ledger hold between any two ticks.

use crate::bullets::{flown_slot, update_bullets, wounded_slot, Bullet};
use crate::enemies::{
    breaches_among, cleared_slot, fled_slot, judged_slot, ledger_after,
    lemma_evolution_transitive, marched_slot, remove_enemies, roster_evolves, spawn_enemies,
    update_enemies, update_tamable_enemies, with_newborn, Enemy, Trees, WaveState, BONUS_LIMIT,
    COLOR_COUNT, ENEMY_SPEED, FLEE_SPEED, FORM_COUNT,
};
use crate::map::{Coordinate, GameMap, Tile};
use crate::puzzle::{
    blank, carried, completions, despawned, fed, lemma_blank_sound, lemma_completion_keeps_sound,
    lemma_completions_bound, picked_up, place_puzzle_piece, placement, puzzle_input,
    puzzles_sound, renewed_all, set_puzzles, update_picked_up_piece, update_puzzle,
    CompletePuzzle, CurrentPiece, PickSource, Placement, Puzzle, PuzzleIdFactory, Puzzles,
};
use crate::towers::{
    build_and_upgrade_towers, built_all, lemma_built_all_keeps_plots, plots_distinct, shoot,
    shots_fired, spawn_map_tower, volley, Tower,
};
use crate::ui::GameState;
use vstd::prelude::*;

verus! {

/// Everything that is in play.
#[derive(Debug)]
pub struct World {
    pub map: GameMap,
    pub trees: Trees,
    pub enemies: Vec<Option<Enemy>>,
    pub bullets: Vec<Option<Bullet>>,
    pub towers: Vec<Tower>,
    pub puzzles: Puzzles,
    pub puzzle_ids: PuzzleIdFactory,
    pub game_state: GameState,
    pub wave_state: WaveState,
    pub current_piece: CurrentPiece,
    pub pick_source: PickSource,
}

/// What the outside world brings to a tick: the time on the game's clock if
/// it has ticked before, the milliseconds since the last tick, where the
/// cursor is if it is in sight, and whether the primary button was pressed
/// since the last tick.
#[derive(Debug, Clone, Copy, PartialEq, Eq, Structural)]
pub struct TickInput {
    pub now: Option<u64>,
    pub delta_ms: u32,
    pub cursor: Option<Coordinate>,
    pub pressed: bool,
}

/// What a tick has to tell the outside world: how many enemies got through
/// to the castle, the roster slot of the enemy that was sent out if one was,
/// how many towers fired, and the puzzles that were completed.
#[derive(Debug)]
pub struct TickReport {
    pub breaches: usize,
    pub spawned: Option<usize>,
    pub shots: usize,
    pub completed: Vec<CompletePuzzle>,
}

impl World {
    /// The invariant of the world: the player's hand is in order.
    pub open spec fn wf(self) -> bool {
        self.current_piece.wf()
    }

    /// Whether there are numbers left for the puzzles that a tick may need
    /// to set up: as many as there are puzzles.
    pub open spec fn numbers_left(self) -> bool {
        self.puzzle_ids.next_id + self.puzzles.towers@.len() <= usize::MAX
    }

    /// Whether the field and its clouds are the same in both worlds.
    pub open spec fn same_field(self, other: World) -> bool {
        self.map == other.map && self.trees == other.trees
    }

    /// Whether the player's hand, the cursor and the puzzles with their
    /// numbers are the same in both worlds.
    pub open spec fn same_table(self, other: World) -> bool {
        &&& self.puzzles == other.puzzles
        &&& self.puzzle_ids == other.puzzle_ids
        &&& self.current_piece == other.current_piece
        &&& self.pick_source == other.pick_source
    }

    /// Whether `after` is this world once the projectiles have had their
    /// tick: each has flown, landed or been dropped, and every enemy has
    /// taken the damage that landed on it.
    pub open spec fn struck(self, after: World, delta_ms: u32) -> bool {
        &&& after.bullets@.len() == self.bullets@.len()
        &&& forall|k: int|
            0 <= k < self.bullets@.len() ==> #[trigger] after.bullets@[k] == flown_slot(
                self.bullets@[k],
                self.enemies@,
                delta_ms,
            )
        &&& after.enemies@.len() == self.enemies@.len()
        &&& forall|i: int|
            0 <= i < self.enemies@.len() ==> #[trigger] after.enemies@[i] == wounded_slot(
                self.enemies@[i],
                self.bullets@,
                self.enemies@,
                delta_ms,
                i,
                self.bullets@.len(),
            )
        &&& after.towers == self.towers
        &&& after.game_state == self.game_state
        &&& after.wave_state == self.wave_state
        &&& self.same_field(after)
        &&& self.same_table(after)
    }

    /// Whether `after` is this world once the roster has been judged.
    pub open spec fn judged(self, after: World) -> bool {
        &&& after.enemies@.len() == self.enemies@.len()
        &&& forall|i: int|
            0 <= i < self.enemies@.len() ==> #[trigger] after.enemies@[i] == judged_slot(
                self.enemies@[i],
                self.map.waypoints@.len(),
            )
        &&& after.bullets@.len() == self.bullets@.len()
        &&& forall|k: int|
            0 <= k < self.bullets@.len() ==> #[trigger] after.bullets@[k] == cleared_slot(
                self.bullets@[k],
                self.enemies@,
                self.map.waypoints@.len(),
            )
        &&& after.game_state == ledger_after(
            self.enemies@,
            self.map.waypoints@.len(),
            self.game_state,
            self.enemies@.len(),
        )
        &&& after.towers == self.towers
        &&& after.wave_state == self.wave_state
        &&& self.same_field(after)
        &&& self.same_table(after)
    }

    /// Whether `after` is this world once the wave has had its turn at the
    /// time `now`: if an enemy was due and the castle stands, one was sent
    /// out, on some draws.
    pub open spec fn waved(self, after: World, now: Option<u64>) -> bool {
        &&& after.wave_state == self.wave_state.asked(now)
        &&& if self.wave_state.due(now) && self.game_state.alive() {
            &&& after.game_state == self.game_state.raised()
            &&& exists|form_draw: u32, color_draw: u32, percent: u32|
                form_draw < FORM_COUNT && color_draw < COLOR_COUNT && percent < BONUS_LIMIT
                    && after.enemies@ == #[trigger] with_newborn(
                    self.enemies@,
                    self.map.spawn,
                    self.game_state,
                    form_draw,
                    color_draw,
                    percent,
                )
        } else {
            after.game_state == self.game_state && after.enemies@ == self.enemies@
        }
        &&& after.bullets == self.bullets
        &&& after.towers == self.towers
        &&& self.same_field(after)
        &&& self.same_table(after)
    }

    /// Whether `after` is this world once the living have walked the road
    /// and the tamed have fled, for `delta_ms` milliseconds.
    pub open spec fn moved(self, after: World, delta_ms: u32) -> bool {
        &&& after.enemies@.len() == self.enemies@.len()
        &&& forall|i: int|
            0 <= i < self.enemies@.len() ==> #[trigger] after.enemies@[i] == fled_slot(
                marched_slot(
                    self.enemies@[i],
                    self.map.waypoints@,
                    (ENEMY_SPEED * delta_ms) as nat,
                ),
                i,
                self.current_piece,
                self.trees.coordinates@,
                (FLEE_SPEED * delta_ms) as nat,
            )
        &&& after.bullets == self.bullets
        &&& after.towers == self.towers
        &&& after.game_state == self.game_state
        &&& after.wave_state == self.wave_state
        &&& self.same_field(after)
        &&& self.same_table(after)
    }

    /// Whether `after` is this world once the towers have had their tick.
    pub open spec fn fired(self, after: World, delta_ms: u32) -> bool {
        &&& after.towers@.len() == self.towers@.len()
        &&& forall|i: int|
            0 <= i < self.towers@.len() ==> #[trigger] after.towers@[i] == self.towers@[i].waited(
                delta_ms,
            )
        &&& after.bullets@ == volley(
            self.towers@,
            self.enemies@,
            delta_ms,
            self.bullets@,
            self.towers@.len(),
        )
        &&& after.enemies == self.enemies
        &&& after.game_state == self.game_state
        &&& after.wave_state == self.wave_state
        &&& self.same_field(after)
        &&& self.same_table(after)
    }

    /// Where the cursor is taken to be when it was seen at `seen`.
    pub open spec fn cursor(self, seen: Option<Coordinate>) -> Coordinate {
        match seen {
            Some(position) => position,
            None => self.pick_source.last_cursor_pos,
        }
    }

    /// The hand and the roster once the held creature has followed the
    /// cursor.
    pub open spec fn carrying(self, seen: Option<Coordinate>) -> (Seq<Option<Enemy>>, CurrentPiece) {
        carried(self.enemies@, self.current_piece, self.cursor(seen))
    }

    /// Whether `after` is this world once the player's hand has been served:
    /// the cursor was noted, a held creature followed it, and a press of the
    /// button was acted on.
    pub open spec fn handled(self, after: World, seen: Option<Coordinate>, pressed: bool) -> bool {
        let cursor = self.cursor(seen);
        let (roster, hand) = self.carrying(seen);
        &&& after.pick_source.last_cursor_pos == cursor
        &&& if !pressed {
            &&& after.enemies@ == roster
            &&& after.puzzles.towers@ == self.puzzles.towers@
            &&& after.current_piece == hand
        } else if hand.entity is None {
            &&& after.enemies@ == roster
            &&& after.puzzles.towers@ == self.puzzles.towers@
            &&& after.current_piece == picked_up(roster, cursor)
        } else {
            &&& after.puzzles.towers@ == fed(self.puzzles.towers@, cursor, hand.piece->Some_0)
            &&& match placement(self.puzzles.towers@, cursor, hand.piece->Some_0) {
                Placement::Placed { .. } => after.enemies@ == despawned(roster, hand.entity->Some_0)
                    && after.current_piece == CurrentPiece::empty(),
                Placement::Refused => after.enemies@ == roster && after.current_piece == hand,
                Placement::OutOfReach => after.enemies@ == roster && after.current_piece
                    == CurrentPiece::empty(),
            }
        }
        &&& after.puzzle_ids == self.puzzle_ids
        &&& after.bullets == self.bullets
        &&& after.towers == self.towers
        &&& after.game_state == self.game_state
        &&& after.wave_state == self.wave_state
        &&& self.same_field(after)
    }

    /// The puzzles once their slots have been settled.
    pub open spec fn settled_puzzles(self) -> Seq<Puzzle> {
        Seq::new(self.puzzles.towers@.len(), |i: int| self.puzzles.towers@[i].settled())
    }

    /// Whether `after` is this world once the puzzles have been settled and
    /// the completed ones, `completed`, have been acted on: each was replaced
    /// by a puzzle with nothing in it and a number of its own, and each built
    /// or improved the tower on its plot.
    pub open spec fn completed(self, after: World, completed: Seq<CompletePuzzle>) -> bool {
        &&& completed == completions(self.puzzles.towers@, self.puzzles.towers@.len())
        &&& after.puzzle_ids.next_id == self.puzzle_ids.next_id + completed.len()
        &&& exists|successors: Seq<Puzzle>|
            {
                &&& successors.len() == completed.len()
                &&& forall|k: int|
                    0 <= k < completed.len() ==> blank(
                        #[trigger] successors[k],
                        self.puzzle_ids.next_id + k,
                        completed[k].coordinate,
                    )
                &&& after.puzzles.towers@ == #[trigger] renewed_all(
                    self.settled_puzzles(),
                    completed,
                    successors,
                    completed.len(),
                )
            }
        &&& after.towers@ == built_all(self.towers@, completed, completed.len())
        &&& after.enemies == self.enemies
        &&& after.bullets == self.bullets
        &&& after.game_state == self.game_state
        &&& after.wave_state == self.wave_state
        &&& after.current_piece == self.current_piece
        &&& after.pick_source == self.pick_source
        &&& self.same_field(after)
    }

    /// Whether `after` is this world a tick on, with `report` what the tick
    /// has to tell: the six phases have had their turns, each on what the one
    /// before it left behind.
    pub open spec fn ticked(self, after: World, input: TickInput, report: TickReport) -> bool {
        exists|a: World, b: World, c: World, d: World, e: World, f: World|
            {
                &&& #[trigger] self.struck(a, input.delta_ms)
                &&& #[trigger] a.judged(b)
                &&& report.breaches == breaches_among(
                    a.enemies@,
                    a.map.waypoints@.len(),
                    a.enemies@.len(),
                )
                &&& #[trigger] b.waved(c, input.now)
                &&& report.spawned == if b.wave_state.due(input.now) && b.game_state.alive() {
                    Some(b.enemies@.len() as usize)
                } else {
                    None
                }
                &&& #[trigger] c.moved(d, input.delta_ms)
                &&& #[trigger] d.fired(e, input.delta_ms)
                &&& report.shots == shots_fired(d.towers@, d.enemies@, input.delta_ms, d.towers@.len())
                &&& #[trigger] e.handled(f, input.cursor, input.pressed)
                &&& f.completed(after, report.completed@)
            }
    }

    /// Sets the game up on a field at the time `now` on the game's clock:
    /// with the clouds and towers that the field comes with, a puzzle on
    /// every tower plot, no enemies, a fresh ledger and an empty hand.
    pub fn new(map: GameMap, now: u64) -> (world: World)
        ensures
            world.map == map,
            world.trees.coordinates@ == map.places(Tile::Cloud, Tile::Cloud),
            world.enemies@.len() == 0,
            world.bullets@.len() == 0,
            world.towers@.len() == map.places(Tile::Tower, Tile::Tower).len(),
            forall|i: int|
                0 <= i < world.towers@.len() ==> #[trigger] world.towers@[i] == Tower::fresh(
                    map.places(Tile::Tower, Tile::Tower)[i],
                ),
            world.puzzles.towers@.len() == map.places(Tile::TowerPlot, Tile::Tower).len(),
            forall|i: int|
                0 <= i < world.puzzles.towers@.len() ==> blank(
                    #[trigger] world.puzzles.towers@[i],
                    i,
                    map.places(Tile::TowerPlot, Tile::Tower)[i],
                ),
            puzzles_sound(world.puzzles.towers@),
            world.puzzle_ids.next_id == world.puzzles.towers@.len(),
            world.game_state == (GameState { health: 20, score: 0, enemy_health: 1 }),
            world.wave_state == (WaveState { last_spawn: now }),
            world.current_piece == CurrentPiece::empty(),
            world.pick_source.last_cursor_pos == (Coordinate { x: 0, y: 0 }),
    {
        let trees = map.gather_trees();
        let towers = spawn_map_tower(&map);
        let mut puzzles = Puzzles { towers: Vec::new() };
        let mut puzzle_ids = PuzzleIdFactory::default();
        let plots = map.find_tiles(Tile::TowerPlot, Tile::Tower);
        assert(plots@.len() == plots.len());
        set_puzzles(&mut puzzles, &plots, &mut puzzle_ids);
        proof {
            assert forall|i: int| 0 <= i < puzzles.towers@.len() implies (
            #[trigger] puzzles.towers@[i]).sound() by {
                lemma_blank_sound(puzzles.towers@[i], i, plots@[i]);
            }
        }
        World {
            map,
            trees,
            enemies: Vec::new(),
            bullets: Vec::new(),
            towers,
            puzzles,
            puzzle_ids,
            game_state: GameState::default(),
            wave_state: WaveState { last_spawn: now },
            current_piece: CurrentPiece { entity: None, piece: None },
            pick_source: PickSource { last_cursor_pos: Coordinate { x: 0, y: 0 } },
        }
    }

    /// Lets the projectiles fly and do their damage.
    pub fn strike(&mut self, delta_ms: u32)
        ensures
            old(self).struck(*final(self), delta_ms),
            roster_evolves(final(self).enemies@, old(self).enemies@),
    {
        update_bullets(&mut self.bullets, &mut self.enemies, delta_ms);
    }

    /// Judges the roster. Returns how many enemies got through to the castle.
    pub fn judge(&mut self) -> (breaches: usize)
        ensures
            old(self).judged(*final(self)),
            breaches == breaches_among(
                old(self).enemies@,
                old(self).map.waypoints@.len(),
                old(self).enemies@.len(),
            ),
            final(self).game_state.follows(old(self).game_state),
            roster_evolves(final(self).enemies@, old(self).enemies@),
    {
        remove_enemies(&mut self.enemies, &mut self.bullets, &self.map, &mut self.game_state)
    }

    /// Gives the wave its turn. Returns the roster slot of the enemy that was
    /// sent out, if one was.
    pub fn wave(&mut self, now: Option<u64>) -> (spawned: Option<usize>)
        ensures
            old(self).waved(*final(self), now),
            spawned == if old(self).wave_state.due(now) && old(self).game_state.alive() {
                Some(old(self).enemies@.len() as usize)
            } else {
                None
            },
            final(self).game_state.follows(old(self).game_state),
            roster_evolves(final(self).enemies@, old(self).enemies@),
    {
        spawn_enemies(
            &mut self.enemies,
            &self.map,
            now,
            &mut self.game_state,
            &mut self.wave_state,
        )
    }

    /// Lets the living walk the road and the tamed flee.
    pub fn advance(&mut self, delta_ms: u32)
        ensures
            old(self).moved(*final(self), delta_ms),
            roster_evolves(final(self).enemies@, old(self).enemies@),
    {
        update_enemies(&mut self.enemies, &self.map, delta_ms);
        let ghost walked = self.enemies@;
        update_tamable_enemies(&mut self.enemies, &self.trees, &self.current_piece, delta_ms);
        proof {
            lemma_evolution_transitive(old(self).enemies@, walked, self.enemies@);
        }
    }

    /// Gives the towers their tick. Returns how many of them fired.
    pub fn fire(&mut self, delta_ms: u32) -> (shots: usize)
        ensures
            old(self).fired(*final(self), delta_ms),
            shots == shots_fired(
                old(self).towers@,
                old(self).enemies@,
                delta_ms,
                old(self).towers@.len(),
            ),
    {
        shoot(&mut self.towers, &self.enemies, &mut self.bullets, delta_ms)
    }

    /// Serves the player's hand.
    pub fn handle(&mut self, seen: Option<Coordinate>, pressed: bool)
        requires
            old(self).current_piece.wf(),
        ensures
            old(self).handled(*final(self), seen, pressed),
            final(self).current_piece.wf(),
            final(self).puzzles.towers@.len() == old(self).puzzles.towers@.len(),
            roster_evolves(final(self).enemies@, old(self).enemies@),
            puzzles_sound(old(self).puzzles.towers@) ==> puzzles_sound(final(self).puzzles.towers@),
    {
        let cursor = self.pick_source.track(seen);
        update_picked_up_piece(cursor, &mut self.current_piece, &mut self.enemies);
        let ghost roster = self.enemies@;
        puzzle_input(
            pressed,
            cursor,
            &mut self.enemies,
            &mut self.puzzles,
            &mut self.current_piece,
        );
        proof {
            lemma_evolution_transitive(old(self).enemies@, roster, self.enemies@);
        }
    }

    /// Settles the puzzles and acts on the completed ones. Returns their
    /// records.
    pub fn complete(&mut self) -> (completed: Vec<CompletePuzzle>)
        requires
            old(self).puzzle_ids.next_id + old(self).puzzles.towers@.len() <= usize::MAX,
        ensures
            old(self).completed(*final(self), completed@),
            puzzles_sound(old(self).puzzles.towers@) ==> puzzles_sound(final(self).puzzles.towers@),
            plots_distinct(old(self).towers@) ==> plots_distinct(final(self).towers@),
    {
        let completed = place_puzzle_piece(&mut self.puzzles);
        proof {
            lemma_completions_bound(
                old(self).puzzles.towers@,
                old(self).puzzles.towers@.len(),
            );
            assert(self.puzzles.towers@ =~= old(self).settled_puzzles());
        }
        update_puzzle(&mut self.puzzles, &completed, &mut self.puzzle_ids);
        proof {
            if puzzles_sound(old(self).puzzles.towers@) {
                let successors = choose|successors: Seq<Puzzle>|
                    {
                        &&& successors.len() == completed@.len()
                        &&& forall|k: int|
                            0 <= k < completed@.len() ==> blank(
                                #[trigger] successors[k],
                                old(self).puzzle_ids.next_id + k,
                                completed@[k].coordinate,
                            )
                        &&& self.puzzles.towers@ == #[trigger] renewed_all(
                            old(self).settled_puzzles(),
                            completed@,
                            successors,
                            completed@.len(),
                        )
                    };
                lemma_completion_keeps_sound(
                    old(self).puzzles.towers@,
                    old(self).settled_puzzles(),
                    successors,
                    old(self).puzzle_ids.next_id as int,
                );
            }
            if plots_distinct(old(self).towers@) {
                lemma_built_all_keeps_plots(old(self).towers@, completed@, completed@.len());
            }
        }
        build_and_upgrade_towers(&mut self.towers, &completed);
        completed
    }

    /// Whether there are numbers left for the puzzles that a tick may need
    /// to set up.
    pub fn has_numbers_left(&self) -> (left: bool)
        ensures
            left == self.numbers_left(),
    {
        self.puzzles.towers.len() <= usize::MAX - self.puzzle_ids.next_id
    }

    /// Takes the game a tick on. There must be numbers left for the puzzles
    /// that the tick may need to set up.
    ///
    /// Whatever the tick does, the enemies keep to their course: none gains
    /// health, walks backwards or turns from tameable to living again, and
    /// the ledger moves one way only. Puzzles that counted their filled slots
    /// still do, with none left complete, and towers that stood apart still
    /// stand apart.
    pub fn tick(&mut self, input: TickInput) -> (report: TickReport)
        requires
            old(self).wf(),
            old(self).numbers_left(),
        ensures
            old(self).ticked(*final(self), input, report),
            final(self).wf(),
            roster_evolves(final(self).enemies@, old(self).enemies@),
            final(self).game_state.follows(old(self).game_state),
            puzzles_sound(old(self).puzzles.towers@) ==> puzzles_sound(final(self).puzzles.towers@),
            plots_distinct(old(self).towers@) ==> plots_distinct(final(self).towers@),
    {
        self.strike(input.delta_ms);
        let ghost a = *self;
        let breaches = self.judge();
        let ghost b = *self;
        let spawned = self.wave(input.now);
        let ghost c = *self;
        self.advance(input.delta_ms);
        let ghost d = *self;
        let shots = self.fire(input.delta_ms);
        let ghost e = *self;
        self.handle(input.cursor, input.pressed);
        let ghost f = *self;
        let completed = self.complete();
        let report = TickReport { breaches, spawned, shots, completed };
        proof {
            lemma_evolution_transitive(old(self).enemies@, a.enemies@, b.enemies@);
            lemma_evolution_transitive(old(self).enemies@, b.enemies@, c.enemies@);
            lemma_evolution_transitive(old(self).enemies@, c.enemies@, d.enemies@);
            lemma_evolution_transitive(old(self).enemies@, d.enemies@, f.enemies@);
            assert(old(self).struck(a, input.delta_ms) && a.judged(b) && b.waved(c, input.now)
                && c.moved(d, input.delta_ms) && d.fired(e, input.delta_ms) && e.handled(
                f,
                input.cursor,
                input.pressed,
            ) && f.completed(*self, report.completed@));
        }
        report
    }
}

/// A fallen castle holds the wave back, and a castle that stands again lets
/// it go on where it stopped. While the castle has no health, the wave's turn
/// adds no enemy and leaves the ledger alone. Once it has health again and an
/// enemy is due, the wave's turn adds just one enemy, in a new slot at the
/// end of the roster, and takes the baseline up by one from where it rested,
/// unless the baseline is already the largest it can be.
pub proof fn lemma_wave_holds_and_resumes(before: World, after: World, now: Option<u64>)
    requires
        before.waved(after, now),
    ensures
        !before.game_state.alive() ==> after.enemies@ == before.enemies@ && after.game_state
            == before.game_state,
        before.game_state.alive() && before.wave_state.due(now) ==> {
            &&& after.enemies@.len() == before.enemies@.len() + 1
            &&& forall|i: int|
                0 <= i < before.enemies@.len() ==> after.enemies@[i] == before.enemies@[i]
            &&& after.enemies@.last() is Some
            &&& after.game_state.health == before.game_state.health
            &&& after.game_state.score == before.game_state.score
            &&& after.game_state.enemy_health == if before.game_state.enemy_health < u32::MAX {
                before.game_state.enemy_health + 1
            } else {
                u32::MAX as int
            }
        },
{
}

} // verus!
