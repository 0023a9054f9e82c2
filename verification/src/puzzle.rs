//! The puzzles beside the tower plots, and the hand that feeds them.

use crate::enemies::{roster_evolves, Enemy, EnemyColor, EnemyForm, COLOR_COUNT, FORM_COUNT};
use crate::geometry::{inside, is_inside, is_within, offset, offset_by, within};
use crate::map::{Coordinate, GameMap, Tile};
use crate::rng::random_below;
use vstd::prelude::*;

verus! {

/// What a puzzle slot asks for, and what a caught creature is worth: a colour
/// and a form.
#[derive(Debug, Clone, Copy, PartialEq, Eq, Structural)]
pub struct Piece {
    pub color: EnemyColor,
    pub form: EnemyForm,
}

/// What the player holds: the roster slot of the caught creature and the
/// piece it stands for, both or neither.
#[derive(Debug, Clone, Copy, PartialEq, Eq, Structural)]
pub struct CurrentPiece {
    pub entity: Option<usize>,
    pub piece: Option<Piece>,
}

impl Piece {
    /// The piece that an enemy stands for.
    pub open spec fn of(enemy: Enemy) -> Piece {
        Piece { color: enemy.color, form: enemy.form }
    }
}

impl CurrentPiece {
    /// An empty hand.
    pub open spec fn empty() -> CurrentPiece {
        CurrentPiece { entity: None, piece: None }
    }

    /// Whether the hand holds the creature in roster slot `id`.
    pub open spec fn holds(self, id: int) -> bool {
        self.entity matches Some(held) && held == id
    }
}

/// The record that a puzzle was completed: where it stood, and which it was.
#[derive(Debug, Clone, Copy, PartialEq, Eq, Structural)]
pub struct CompletePuzzle {
    pub coordinate: Coordinate,
    pub puzzle_id: usize,
}

/// How near the cursor must be to a creature to catch it, or to a slot to
/// feed it, in thousandths of a world unit.
pub const PICK_RADIUS: u32 = 12_000;

/// How far the slots of a puzzle lie from its plot, along each axis, in
/// thousandths of a world unit.
pub const SLOT_OFFSET: i32 = 16_000;

/// How many pieces complete a puzzle.
pub const PUZZLE_SIZE: usize = 4;

/// One slot of a puzzle: the piece it asks for, whether it has been filled,
/// and whether a piece has been put in and awaits settling.
#[derive(Debug, Clone, Copy, PartialEq, Eq, Structural)]
pub struct PuzzleSlot {
    pub piece: Piece,
    pub filled: bool,
    pub to_fill: bool,
}

/// The puzzle beside a tower plot: four slots on the diagonals around the
/// plot, and the count of pieces settled so far.
#[derive(Debug, Clone, Copy)]
pub struct Puzzle {
    pub id: usize,
    pub coordinate: Coordinate,
    pub slots: [PuzzleSlot; 4],
    pub filled: usize,
}

/// All puzzles in play, one for each tower plot.
#[derive(Debug)]
pub struct Puzzles {
    pub towers: Vec<Puzzle>,
}

/// What came of an attempt to feed a held piece to the puzzles.
#[derive(Debug, Clone, Copy, PartialEq, Eq, Structural)]
pub enum Placement {
    /// The piece went into a slot of a puzzle.
    Placed { puzzle: usize, slot: usize },
    /// Slots were in reach, but none asked for this piece.
    Refused,
    /// No slot was in reach.
    OutOfReach,
}

/// The slots `slots` with the one at `k` replaced.
pub open spec fn with_slot(slots: [PuzzleSlot; 4], k: int, slot: PuzzleSlot) -> [PuzzleSlot; 4] {
    [
        if k == 0 {
            slot
        } else {
            slots[0]
        },
        if k == 1 {
            slot
        } else {
            slots[1]
        },
        if k == 2 {
            slot
        } else {
            slots[2]
        },
        if k == 3 {
            slot
        } else {
            slots[3]
        },
    ]
}

impl PuzzleSlot {
    /// An empty slot that asks for `piece`.
    pub open spec fn asking(piece: Piece) -> PuzzleSlot {
        PuzzleSlot { piece, filled: false, to_fill: false }
    }

    /// Whether a piece can still be put into the slot: it is neither filled
    /// nor awaiting settling.
    pub open spec fn open(self) -> bool {
        !self.filled && !self.to_fill
    }
}

impl Puzzle {
    /// A puzzle with nothing in it, whose slots ask for `pieces`.
    pub open spec fn fresh(id: usize, coordinate: Coordinate, pieces: [Piece; 4]) -> Puzzle {
        Puzzle {
            id,
            coordinate,
            slots: [
                PuzzleSlot::asking(pieces[0]),
                PuzzleSlot::asking(pieces[1]),
                PuzzleSlot::asking(pieces[2]),
                PuzzleSlot::asking(pieces[3]),
            ],
            filled: 0,
        }
    }

    /// Where slot `k` lies: the slots go round the plot from the lower left,
    /// by the lower right and the upper right, to the upper left.
    pub open spec fn slot_position(self, k: int) -> Coordinate {
        if k == 0 {
            offset(self.coordinate, -SLOT_OFFSET, -SLOT_OFFSET)
        } else if k == 1 {
            offset(self.coordinate, SLOT_OFFSET as int, -SLOT_OFFSET)
        } else if k == 2 {
            offset(self.coordinate, SLOT_OFFSET as int, SLOT_OFFSET as int)
        } else {
            offset(self.coordinate, -SLOT_OFFSET, SLOT_OFFSET as int)
        }
    }

    /// Whether slot `k` is open and in reach of the cursor.
    pub open spec fn offers(self, k: int, cursor: Coordinate) -> bool {
        self.slots[k].open() && within(self.slot_position(k), cursor, PICK_RADIUS as nat)
    }

    /// Whether slot `k` is open, in reach of the cursor, and asks for `piece`.
    pub open spec fn fits(self, k: int, cursor: Coordinate, piece: Piece) -> bool {
        self.offers(k, cursor) && self.slots[k].piece == piece
    }

    /// Whether any slot is open and in reach of the cursor.
    pub open spec fn offers_any(self, cursor: Coordinate) -> bool {
        self.offers(0, cursor) || self.offers(1, cursor) || self.offers(2, cursor) || self.offers(
            3,
            cursor,
        )
    }

    /// The first slot that `piece` fits into with the cursor where it is.
    pub open spec fn fitting_slot(self, cursor: Coordinate, piece: Piece) -> Option<int> {
        if self.fits(0, cursor, piece) {
            Some(0)
        } else if self.fits(1, cursor, piece) {
            Some(1)
        } else if self.fits(2, cursor, piece) {
            Some(2)
        } else if self.fits(3, cursor, piece) {
            Some(3)
        } else {
            None
        }
    }

    /// The puzzle with a piece put into slot `k`, to be settled.
    pub open spec fn marked(self, k: int) -> Puzzle {
        Puzzle { slots: with_slot(self.slots, k, PuzzleSlot { to_fill: true, ..self.slots[k] }), ..self }
    }

    /// How many slots await settling.
    pub open spec fn pending(self) -> nat {
        (if self.slots[0].to_fill {
            1nat
        } else {
            0nat
        }) + (if self.slots[1].to_fill {
            1nat
        } else {
            0nat
        }) + (if self.slots[2].to_fill {
            1nat
        } else {
            0nat
        }) + (if self.slots[3].to_fill {
            1nat
        } else {
            0nat
        })
    }

    /// The puzzle after slot `k` was settled. A slot that awaits nothing is
    /// passed over. Otherwise the count goes up by one (and stops at the
    /// largest value it can hold); unless that makes the count four, the slot
    /// is now filled and awaits nothing more. The slot that makes the count
    /// four is left as it is: the puzzle is complete and about to be replaced.
    pub open spec fn settled_slot(self, k: int) -> Puzzle {
        if !self.slots[k].to_fill {
            self
        } else {
            let count = if self.filled < usize::MAX {
                (self.filled + 1) as usize
            } else {
                self.filled
            };
            if count == PUZZLE_SIZE {
                Puzzle { filled: count, ..self }
            } else {
                Puzzle {
                    filled: count,
                    slots: with_slot(
                        self.slots,
                        k,
                        PuzzleSlot { filled: true, to_fill: false, ..self.slots[k] },
                    ),
                    ..self
                }
            }
        }
    }

    /// Whether settling slot `k` completes the puzzle.
    pub open spec fn completed_by(self, k: int) -> bool {
        self.slots[k].to_fill && self.filled + 1 == PUZZLE_SIZE
    }

    /// The puzzle after its slots were settled, from the first to the last.
    pub open spec fn settled(self) -> Puzzle {
        self.settled_slot(0).settled_slot(1).settled_slot(2).settled_slot(3)
    }

    /// Whether settling the slots, from the first to the last, completes the
    /// puzzle.
    pub open spec fn completes(self) -> bool {
        ||| self.completed_by(0)
        ||| self.settled_slot(0).completed_by(1)
        ||| self.settled_slot(0).settled_slot(1).completed_by(2)
        ||| self.settled_slot(0).settled_slot(1).settled_slot(2).completed_by(3)
    }

    /// The record of this puzzle's completion.
    pub open spec fn completion(self) -> CompletePuzzle {
        CompletePuzzle { coordinate: self.coordinate, puzzle_id: self.id }
    }

    /// Makes a puzzle with nothing in it, whose slots ask for `pieces`.
    pub fn new(id: usize, coordinate: Coordinate, pieces: [Piece; 4]) -> (puzzle: Puzzle)
        ensures
            puzzle == Puzzle::fresh(id, coordinate, pieces),
    {
        let puzzle = Puzzle {
            id,
            coordinate,
            slots: [
                PuzzleSlot { piece: pieces[0], filled: false, to_fill: false },
                PuzzleSlot { piece: pieces[1], filled: false, to_fill: false },
                PuzzleSlot { piece: pieces[2], filled: false, to_fill: false },
                PuzzleSlot { piece: pieces[3], filled: false, to_fill: false },
            ],
            filled: 0,
        };
        puzzle
    }

    /// Where slot `k` lies.
    pub fn slot_coordinate(&self, k: usize) -> (position: Coordinate)
        ensures
            position == self.slot_position(k as int),
    {
        match k {
            0 => offset_by(self.coordinate, -SLOT_OFFSET, -SLOT_OFFSET),
            1 => offset_by(self.coordinate, SLOT_OFFSET, -SLOT_OFFSET),
            2 => offset_by(self.coordinate, SLOT_OFFSET, SLOT_OFFSET),
            _ => offset_by(self.coordinate, -SLOT_OFFSET, SLOT_OFFSET),
        }
    }

    /// Whether slot `k` is open and in reach of the cursor.
    pub fn slot_offers(&self, k: usize, cursor: Coordinate) -> (offered: bool)
        requires
            k < PUZZLE_SIZE,
        ensures
            offered == self.offers(k as int, cursor),
    {
        let slot = self.slots[k];
        !slot.filled && !slot.to_fill && is_within(self.slot_coordinate(k), cursor, PICK_RADIUS)
    }

    /// Whether any slot is open and in reach of the cursor.
    pub fn in_reach(&self, cursor: Coordinate) -> (offered: bool)
        ensures
            offered == self.offers_any(cursor),
    {
        self.slot_offers(0, cursor) || self.slot_offers(1, cursor) || self.slot_offers(2, cursor)
            || self.slot_offers(3, cursor)
    }

    /// Finds the first slot that `piece` fits into with the cursor where it
    /// is.
    pub fn find_fit(&self, cursor: Coordinate, piece: Piece) -> (found: Option<usize>)
        ensures
            match found {
                Some(k) => self.fitting_slot(cursor, piece) == Some(k as int),
                None => self.fitting_slot(cursor, piece) is None,
            },
    {
        let mut k: usize = 0;
        while k < PUZZLE_SIZE
            invariant
                k <= PUZZLE_SIZE,
                forall|j: int| 0 <= j < k ==> !self.fits(j, cursor, piece),
            decreases PUZZLE_SIZE - k,
        {
            if self.slot_offers(k, cursor) && self.slots[k].piece == piece {
                return Some(k);
            }
            k += 1;
        }
        None
    }

    /// Puts a piece into slot `k`, to be settled.
    pub fn mark(&mut self, k: usize)
        requires
            k < PUZZLE_SIZE,
        ensures
            *final(self) == old(self).marked(k as int),
    {
        let slot = self.slots[k];
        self.slots[k] = PuzzleSlot { to_fill: true, ..slot };
        assert(self.slots =~= old(self).marked(k as int).slots);
    }

    /// Settles the slots, from the first to the last, and tells whether that
    /// completed the puzzle.
    pub fn settle(&mut self) -> (complete: bool)
        ensures
            *final(self) == old(self).settled(),
            complete == old(self).completes(),
    {
        let mut complete = false;
        let mut k: usize = 0;
        while k < PUZZLE_SIZE
            invariant
                k <= PUZZLE_SIZE,
                k == 0 ==> *self == *old(self) && !complete,
                k == 1 ==> *self == old(self).settled_slot(0) && complete == old(self).completed_by(
                    0,
                ),
                k == 2 ==> *self == old(self).settled_slot(0).settled_slot(1) && complete == (old(
                    self,
                ).completed_by(0) || old(self).settled_slot(0).completed_by(1)),
                k == 3 ==> *self == old(self).settled_slot(0).settled_slot(1).settled_slot(2)
                    && complete == (old(self).completed_by(0) || old(self).settled_slot(
                    0,
                ).completed_by(1) || old(self).settled_slot(0).settled_slot(1).completed_by(2)),
                k == 4 ==> *self == old(self).settled() && complete == old(self).completes(),
            decreases PUZZLE_SIZE - k,
        {
            let ghost before = *self;
            let slot = self.slots[k];
            if slot.to_fill {
                self.filled = self.filled.saturating_add(1);
                if self.filled == PUZZLE_SIZE {
                    complete = true;
                } else {
                    self.slots[k] = PuzzleSlot { filled: true, to_fill: false, ..slot };
                }
            }
            assert(self.slots =~= before.settled_slot(k as int).slots);
            k += 1;
        }
        complete
    }
}

/// Hands out the numbers by which puzzles are known, each once.
#[derive(Debug, Clone, Copy, PartialEq, Eq, Structural)]
pub struct PuzzleIdFactory {
    pub next_id: usize,
}

impl Default for PuzzleIdFactory {
    fn default() -> (factory: Self)
        ensures
            factory.next_id == 0,
    {
        PuzzleIdFactory { next_id: 0 }
    }
}

impl PuzzleIdFactory {
    /// Hands out the next number. The numbers must not have run out.
    pub fn get_next_id(&mut self) -> (id: usize)
        requires
            old(self).next_id < usize::MAX,
        ensures
            id == old(self).next_id,
            final(self).next_id == id + 1,
    {
        self.next_id += 1;
        self.next_id - 1
    }
}

impl Piece {
    /// The piece that two draws stand for.
    pub open spec fn of_draws(color_draw: u32, form_draw: u32) -> Piece {
        Piece { color: EnemyColor::of_draw(color_draw), form: EnemyForm::of_draw(form_draw) }
    }

    /// Turns two draws into a piece.
    pub fn from_draws(color_draw: u32, form_draw: u32) -> (piece: Piece)
        ensures
            piece == Piece::of_draws(color_draw, form_draw),
    {
        Piece { color: EnemyColor::from_draw(color_draw), form: EnemyForm::from_draw(form_draw) }
    }

    /// A piece picked at random: any colour with any form, each pair with the
    /// same chance. The piece is the one that a colour draw and a form draw
    /// stand for, each made below the count of what there is to draw from.
    pub(crate) fn random() -> (piece: Piece)
        ensures
            exists|color_draw: u32, form_draw: u32|
                color_draw < COLOR_COUNT && form_draw < FORM_COUNT && piece
                    == #[trigger] Piece::of_draws(color_draw, form_draw),
    {
        let color_draw = random_below(COLOR_COUNT);
        let form_draw = random_below(FORM_COUNT);
        Piece::from_draws(color_draw, form_draw)
    }

    /// The piece that a creature is worth.
    pub fn of_enemy(enemy: &Enemy) -> (piece: Piece)
        ensures
            piece == Piece::of(*enemy),
    {
        Piece { color: enemy.color, form: enemy.form }
    }
}

impl CurrentPiece {
    /// The invariant of the hand: it holds a creature and its piece, or
    /// neither.
    pub open spec fn wf(self) -> bool {
        self.entity is Some <==> self.piece is Some
    }

    /// The hand around the creature in roster slot `id`.
    pub open spec fn holding(id: int, enemy: Enemy) -> CurrentPiece {
        CurrentPiece { entity: Some(id as usize), piece: Some(Piece::of(enemy)) }
    }
}

/// Whether the creature in a roster slot can be caught with the cursor where
/// it is: it must be tameable and less than the pick radius away.
pub open spec fn catchable(slot: Option<Enemy>, cursor: Coordinate) -> bool {
    slot matches Some(e) && e.tameable && inside(e.position, cursor, PICK_RADIUS as nat)
}

/// The first roster slot at or after `from` whose creature can be caught, or
/// the number of slots when there is none.
pub open spec fn first_catch(enemies: Seq<Option<Enemy>>, cursor: Coordinate, from: nat) -> nat
    decreases enemies.len() - from,
{
    if from < enemies.len() && !catchable(enemies[from as int], cursor) {
        first_catch(enemies, cursor, from + 1)
    } else {
        from
    }
}

/// The hand after reaching for a creature with an empty hand.
pub open spec fn picked_up(enemies: Seq<Option<Enemy>>, cursor: Coordinate) -> CurrentPiece {
    let id = first_catch(enemies, cursor, 0);
    if id < enemies.len() {
        CurrentPiece::holding(id as int, enemies[id as int]->Some_0)
    } else {
        CurrentPiece::empty()
    }
}

/// The first puzzle at or after `from` that has a slot for `piece` with the
/// cursor where it is, or the number of puzzles when there is none.
pub open spec fn first_fitting(
    puzzles: Seq<Puzzle>,
    cursor: Coordinate,
    piece: Piece,
    from: nat,
) -> nat
    decreases puzzles.len() - from,
{
    if from < puzzles.len() && puzzles[from as int].fitting_slot(cursor, piece) is None {
        first_fitting(puzzles, cursor, piece, from + 1)
    } else {
        from
    }
}

/// Whether any of the first `count` puzzles has an open slot in reach of the
/// cursor.
pub open spec fn any_offers(puzzles: Seq<Puzzle>, cursor: Coordinate, count: nat) -> bool
    decreases count,
{
    count > 0 && (any_offers(puzzles, cursor, (count - 1) as nat) || puzzles[count
        - 1].offers_any(cursor))
}

/// What comes of feeding `piece` to the puzzles with the cursor where it is.
///
/// The piece goes into the first slot in reach that is open and asks for it,
/// puzzles taken in order and the slots of each in order. If there is no such
/// slot but some open slot in reach, the piece is refused. If no open slot is
/// in reach at all, it is out of reach.
pub open spec fn placement(puzzles: Seq<Puzzle>, cursor: Coordinate, piece: Piece) -> Placement {
    let at = first_fitting(puzzles, cursor, piece, 0);
    if at < puzzles.len() {
        Placement::Placed {
            puzzle: at as usize,
            slot: puzzles[at as int].fitting_slot(cursor, piece)->Some_0 as usize,
        }
    } else if any_offers(puzzles, cursor, puzzles.len()) {
        Placement::Refused
    } else {
        Placement::OutOfReach
    }
}

/// The puzzles after feeding `piece` to them with the cursor where it is.
pub open spec fn fed(puzzles: Seq<Puzzle>, cursor: Coordinate, piece: Piece) -> Seq<Puzzle> {
    match placement(puzzles, cursor, piece) {
        Placement::Placed { puzzle, slot } => puzzles.update(
            puzzle as int,
            puzzles[puzzle as int].marked(slot as int),
        ),
        _ => puzzles,
    }
}

/// The roster without the creature in slot `id`.
pub open spec fn despawned(enemies: Seq<Option<Enemy>>, id: usize) -> Seq<Option<Enemy>> {
    if id < enemies.len() {
        enemies.update(id as int, None)
    } else {
        enemies
    }
}

/// Reaches for a creature with an empty hand: the first in the roster that
/// can be caught is held from now on.
pub fn pick_up_piece(enemies: &Vec<Option<Enemy>>, cursor: Coordinate) -> (hand: CurrentPiece)
    ensures
        hand == picked_up(enemies@, cursor),
        hand.wf(),
{
    let mut i: usize = 0;
    while i < enemies.len()
        invariant
            i <= enemies.len(),
            first_catch(enemies@, cursor, i as nat) == first_catch(enemies@, cursor, 0),
        decreases enemies.len() - i,
    {
        if let Some(enemy) = enemies[i] {
            if enemy.tameable && is_inside(enemy.position, cursor, PICK_RADIUS) {
                return CurrentPiece { entity: Some(i), piece: Some(Piece::of_enemy(&enemy)) };
            }
        }
        i += 1;
    }
    CurrentPiece { entity: None, piece: None }
}

/// Feeds `piece` to the puzzles with the cursor where it is, and tells what
/// came of it. A piece that is placed marks its slot for settling.
pub fn place_piece(puzzles: &mut Puzzles, cursor: Coordinate, piece: Piece) -> (outcome: Placement)
    ensures
        outcome == placement(old(puzzles).towers@, cursor, piece),
        final(puzzles).towers@ == fed(old(puzzles).towers@, cursor, piece),
        puzzles_sound(old(puzzles).towers@) ==> puzzles_sound(final(puzzles).towers@),
{
    proof {
        if puzzles_sound(puzzles.towers@) {
            assert(puzzles.towers@.len() == puzzles.towers.len());
            lemma_fed_sound(puzzles.towers@, cursor, piece);
        }
    }
    let mut found_slot = false;
    let mut i: usize = 0;
    while i < puzzles.towers.len()
        invariant
            i <= puzzles.towers.len(),
            *puzzles == *old(puzzles),
            first_fitting(puzzles.towers@, cursor, piece, i as nat) == first_fitting(
                puzzles.towers@,
                cursor,
                piece,
                0,
            ),
            found_slot == any_offers(puzzles.towers@, cursor, i as nat),
        decreases puzzles.towers.len() - i,
    {
        let mut puzzle = puzzles.towers[i];
        if let Some(k) = puzzle.find_fit(cursor, piece) {
            puzzle.mark(k);
            puzzles.towers[i] = puzzle;
            return Placement::Placed { puzzle: i, slot: k };
        }
        if puzzle.in_reach(cursor) {
            found_slot = true;
        }
        i += 1;
    }
    if found_slot {
        Placement::Refused
    } else {
        Placement::OutOfReach
    }
}

/// Acts on the primary button.
///
/// Nothing happens unless the button was pressed in this tick. With an empty
/// hand the player reaches for a creature. With a full hand the player feeds
/// the held piece to the puzzles: if it is placed, the creature is gone for
/// good, into the puzzle, and the hand is empty; if it is refused, the player
/// keeps hold of it; if no slot is in reach, the creature is let go where it
/// is.
pub fn puzzle_input(
    pressed: bool,
    cursor: Coordinate,
    enemies: &mut Vec<Option<Enemy>>,
    puzzles: &mut Puzzles,
    currently_picked: &mut CurrentPiece,
)
    requires
        old(currently_picked).wf(),
    ensures
        final(currently_picked).wf(),
        !pressed ==> {
            &&& final(enemies)@ == old(enemies)@
            &&& final(puzzles).towers@ == old(puzzles).towers@
            &&& *final(currently_picked) == *old(currently_picked)
        },
        pressed && old(currently_picked).entity is None ==> {
            &&& final(enemies)@ == old(enemies)@
            &&& final(puzzles).towers@ == old(puzzles).towers@
            &&& *final(currently_picked) == picked_up(old(enemies)@, cursor)
        },
        pressed && old(currently_picked).entity is Some ==> {
            let id = old(currently_picked).entity->Some_0;
            let piece = old(currently_picked).piece->Some_0;
            &&& final(puzzles).towers@ == fed(old(puzzles).towers@, cursor, piece)
            &&& match placement(old(puzzles).towers@, cursor, piece) {
                Placement::Placed { .. } => {
                    &&& final(enemies)@ == despawned(old(enemies)@, id)
                    &&& *final(currently_picked) == CurrentPiece::empty()
                },
                Placement::Refused => {
                    &&& final(enemies)@ == old(enemies)@
                    &&& *final(currently_picked) == *old(currently_picked)
                },
                Placement::OutOfReach => {
                    &&& final(enemies)@ == old(enemies)@
                    &&& *final(currently_picked) == CurrentPiece::empty()
                },
            }
        },
        roster_evolves(final(enemies)@, old(enemies)@),
        puzzles_sound(old(puzzles).towers@) ==> puzzles_sound(final(puzzles).towers@),
{
    if !pressed {
        return ;
    }
    match (currently_picked.entity, currently_picked.piece) {
        (Some(id), Some(piece)) => {
            match place_piece(puzzles, cursor, piece) {
                Placement::Placed { .. } => {
                    if id < enemies.len() {
                        enemies[id] = None;
                    }
                    *currently_picked = CurrentPiece { entity: None, piece: None };
                },
                Placement::Refused => {},
                Placement::OutOfReach => {
                    *currently_picked = CurrentPiece { entity: None, piece: None };
                },
            }
        },
        _ => {
            *currently_picked = pick_up_piece(enemies, cursor);
        },
    }
}

/// A piece that no slot in reach asks for changes nothing: the puzzles stay
/// as they are, no slot is filled or marked, and no count moves.
pub proof fn lemma_mismatch_changes_nothing(
    puzzles: Seq<Puzzle>,
    cursor: Coordinate,
    piece: Piece,
)
    requires
        forall|p: int, k: int|
            0 <= p < puzzles.len() && 0 <= k < 4 && #[trigger] puzzles[p].offers(k, cursor)
                ==> puzzles[p].slots[k].piece != piece,
    ensures
        !(placement(puzzles, cursor, piece) is Placed),
        fed(puzzles, cursor, piece) == puzzles,
{
    lemma_no_fit(puzzles, cursor, piece, 0);
}

/// Where no slot in reach asks for the piece, the search for a fitting puzzle
/// runs through all of them.
proof fn lemma_no_fit(puzzles: Seq<Puzzle>, cursor: Coordinate, piece: Piece, from: nat)
    requires
        from <= puzzles.len(),
        forall|p: int, k: int|
            0 <= p < puzzles.len() && 0 <= k < 4 && #[trigger] puzzles[p].offers(k, cursor)
                ==> puzzles[p].slots[k].piece != piece,
    ensures
        first_fitting(puzzles, cursor, piece, from) == puzzles.len(),
    decreases puzzles.len() - from,
{
    if from < puzzles.len() {
        lemma_no_fit(puzzles, cursor, piece, from + 1);
    }
}

/// The records of the puzzles among the first `count` that settling
/// completes, in the order of the puzzles.
pub open spec fn completions(puzzles: Seq<Puzzle>, count: nat) -> Seq<CompletePuzzle>
    decreases count,
{
    if count == 0 {
        Seq::empty()
    } else {
        let before = completions(puzzles, (count - 1) as nat);
        if puzzles[count - 1].completes() {
            before.push(puzzles[count - 1].completion())
        } else {
            before
        }
    }
}

/// No more puzzles are completed than there are.
pub proof fn lemma_completions_bound(puzzles: Seq<Puzzle>, count: nat)
    ensures
        completions(puzzles, count).len() <= count,
    decreases count,
{
    if count > 0 {
        lemma_completions_bound(puzzles, (count - 1) as nat);
    }
}

/// Settles every slot that a piece was put into, and returns the records of
/// the puzzles that this completes, one for each, for the later phases of
/// the tick to act on.
pub fn place_puzzle_piece(puzzles: &mut Puzzles) -> (completed: Vec<CompletePuzzle>)
    ensures
        final(puzzles).towers@.len() == old(puzzles).towers@.len(),
        forall|i: int|
            0 <= i < old(puzzles).towers@.len() ==> #[trigger] final(puzzles).towers@[i] == old(
                puzzles,
            ).towers@[i].settled(),
        completed@ == completions(old(puzzles).towers@, old(puzzles).towers@.len()),
{
    let mut completed: Vec<CompletePuzzle> = Vec::new();
    let mut i: usize = 0;
    while i < puzzles.towers.len()
        invariant
            i <= puzzles.towers.len(),
            puzzles.towers@.len() == old(puzzles).towers@.len(),
            forall|j: int|
                0 <= j < i ==> #[trigger] puzzles.towers@[j] == old(puzzles).towers@[j].settled(),
            forall|j: int|
                i <= j < puzzles.towers@.len() ==> puzzles.towers@[j] == old(puzzles).towers@[j],
            completed@ == completions(old(puzzles).towers@, i as nat),
        decreases puzzles.towers.len() - i,
    {
        let mut puzzle = puzzles.towers[i];
        if puzzle.settle() {
            completed.push(CompletePuzzle { coordinate: puzzle.coordinate, puzzle_id: puzzle.id });
        }
        puzzles.towers[i] = puzzle;
        i += 1;
    }
    completed
}

/// The roster and the hand after the held creature followed the cursor.
///
/// A held creature is wherever the cursor is. A hand that holds a creature
/// which is no longer in the roster, or no longer tameable, lets go.
pub open spec fn carried(
    enemies: Seq<Option<Enemy>>,
    hand: CurrentPiece,
    cursor: Coordinate,
) -> (Seq<Option<Enemy>>, CurrentPiece) {
    match hand.entity {
        Some(id) => if id < enemies.len() && enemies[id as int] is Some
            && enemies[id as int]->Some_0.tameable {
            (
                enemies.update(
                    id as int,
                    Some(Enemy { position: cursor, ..enemies[id as int]->Some_0 }),
                ),
                hand,
            )
        } else {
            (enemies, CurrentPiece::empty())
        },
        None => (enemies, hand),
    }
}

/// Moves the held creature to the cursor.
pub fn update_picked_up_piece(
    cursor: Coordinate,
    currently_picked_up: &mut CurrentPiece,
    enemies: &mut Vec<Option<Enemy>>,
)
    ensures
        final(enemies)@ == carried(old(enemies)@, *old(currently_picked_up), cursor).0,
        *final(currently_picked_up) == carried(old(enemies)@, *old(currently_picked_up), cursor).1,
        old(currently_picked_up).wf() ==> final(currently_picked_up).wf(),
        roster_evolves(final(enemies)@, old(enemies)@),
{
    if let Some(id) = currently_picked_up.entity {
        if id < enemies.len() {
            if let Some(enemy) = enemies[id] {
                if enemy.tameable {
                    enemies[id] = Some(Enemy { position: cursor, ..enemy });
                    return ;
                }
            }
        }
        *currently_picked_up = CurrentPiece { entity: None, piece: None };
    }
}

/// Where the cursor was last seen, for the ticks in which it is out of sight.
#[derive(Debug, Clone, Copy, PartialEq, Eq, Structural)]
pub struct PickSource {
    pub last_cursor_pos: Coordinate,
}

impl PickSource {
    /// Takes note of where the cursor is, if it is in sight, and tells where
    /// to take it to be: where it is, or else where it was last seen.
    pub fn track(&mut self, seen: Option<Coordinate>) -> (cursor: Coordinate)
        ensures
            cursor == match seen {
                Some(position) => position,
                None => old(self).last_cursor_pos,
            },
            final(self).last_cursor_pos == cursor,
    {
        if let Some(position) = seen {
            self.last_cursor_pos = position;
        }
        self.last_cursor_pos
    }
}

/// Whether `puzzle` is a puzzle with nothing in it that is known by the
/// number `id` and stands at `coordinate`, whatever its slots ask for.
pub open spec fn blank(puzzle: Puzzle, id: int, coordinate: Coordinate) -> bool {
    &&& puzzle.id == id
    &&& puzzle.coordinate == coordinate
    &&& puzzle.filled == 0
    &&& forall|k: int| 0 <= k < 4 ==> (#[trigger] puzzle.slots[k]).open()
}

/// Makes a puzzle with nothing in it whose slots ask for pieces drawn at
/// random, each on its own.
pub fn spawn_puzzle(id: usize, coordinate: Coordinate) -> (puzzle: Puzzle)
    ensures
        blank(puzzle, id as int, coordinate),
{
    let pieces = [Piece::random(), Piece::random(), Piece::random(), Piece::random()];
    Puzzle::new(id, coordinate, pieces)
}

/// The first `count` puzzles without those known by the number `id`.
pub open spec fn without(puzzles: Seq<Puzzle>, id: usize, count: nat) -> Seq<Puzzle>
    decreases count,
{
    if count == 0 {
        Seq::empty()
    } else {
        let before = without(puzzles, id, (count - 1) as nat);
        if puzzles[count - 1].id != id {
            before.push(puzzles[count - 1])
        } else {
            before
        }
    }
}

/// The puzzles after the completed puzzle `done` was replaced by `successor`:
/// the completed one is taken out, and its successor comes last.
pub open spec fn renewed(puzzles: Seq<Puzzle>, done: CompletePuzzle, successor: Puzzle) -> Seq<
    Puzzle,
> {
    without(puzzles, done.puzzle_id, puzzles.len()).push(successor)
}

/// The puzzles after the first `count` completions were acted on, in order,
/// with `successors` the puzzles that replace the completed ones.
pub open spec fn renewed_all(
    puzzles: Seq<Puzzle>,
    completed: Seq<CompletePuzzle>,
    successors: Seq<Puzzle>,
    count: nat,
) -> Seq<Puzzle>
    decreases count,
{
    if count == 0 {
        puzzles
    } else {
        renewed(
            renewed_all(puzzles, completed, successors, (count - 1) as nat),
            completed[count - 1],
            successors[count - 1],
        )
    }
}

/// Replaces the completed puzzle `done` by `successor`.
pub fn renew_puzzle(puzzles: &mut Puzzles, done: &CompletePuzzle, successor: Puzzle)
    ensures
        final(puzzles).towers@ == renewed(old(puzzles).towers@, *done, successor),
{
    let mut kept: Vec<Puzzle> = Vec::new();
    let mut i: usize = 0;
    while i < puzzles.towers.len()
        invariant
            i <= puzzles.towers.len(),
            *puzzles == *old(puzzles),
            kept@ == without(puzzles.towers@, done.puzzle_id, i as nat),
        decreases puzzles.towers.len() - i,
    {
        if puzzles.towers[i].id != done.puzzle_id {
            kept.push(puzzles.towers[i]);
        }
        i += 1;
    }
    kept.push(successor);
    puzzles.towers = kept;
}

/// Acts on the puzzles completed in this tick, in order: each is taken out,
/// and a new puzzle with a new number and new pieces, drawn at random, is set
/// up in its place. The numbers must not run out.
pub fn update_puzzle(
    puzzles: &mut Puzzles,
    completed: &Vec<CompletePuzzle>,
    puzzle_ids: &mut PuzzleIdFactory,
)
    requires
        old(puzzle_ids).next_id + completed@.len() <= usize::MAX,
    ensures
        final(puzzle_ids).next_id == old(puzzle_ids).next_id + completed@.len(),
        exists|successors: Seq<Puzzle>|
            {
                &&& successors.len() == completed@.len()
                &&& forall|k: int|
                    0 <= k < completed@.len() ==> blank(
                        #[trigger] successors[k],
                        old(puzzle_ids).next_id + k,
                        completed@[k].coordinate,
                    )
                &&& final(puzzles).towers@ == #[trigger] renewed_all(
                    old(puzzles).towers@,
                    completed@,
                    successors,
                    completed@.len(),
                )
            },
{
    let ghost mut successors: Seq<Puzzle> = Seq::empty();
    let mut k: usize = 0;
    while k < completed.len()
        invariant
            k <= completed.len(),
            puzzle_ids.next_id == old(puzzle_ids).next_id + k,
            old(puzzle_ids).next_id + completed@.len() <= usize::MAX,
            successors.len() == k,
            forall|j: int|
                0 <= j < k ==> blank(
                    #[trigger] successors[j],
                    old(puzzle_ids).next_id + j,
                    completed@[j].coordinate,
                ),
            puzzles.towers@ == renewed_all(old(puzzles).towers@, completed@, successors, k as nat),
        decreases completed.len() - k,
    {
        let id = puzzle_ids.get_next_id();
        let successor = spawn_puzzle(id, completed[k].coordinate);
        renew_puzzle(puzzles, &completed[k], successor);
        proof {
            let ghost before = successors;
            successors = successors.push(successor);
            lemma_renewed_all_prefix(
                old(puzzles).towers@,
                completed@,
                before,
                successors,
                k as nat,
            );
        }
        k += 1;
    }
}

/// What the first `count` completions lead to depends on the first `count`
/// successors only.
proof fn lemma_renewed_all_prefix(
    puzzles: Seq<Puzzle>,
    completed: Seq<CompletePuzzle>,
    a: Seq<Puzzle>,
    b: Seq<Puzzle>,
    count: nat,
)
    requires
        count <= a.len() <= b.len(),
        forall|j: int| 0 <= j < count ==> a[j] == b[j],
    ensures
        renewed_all(puzzles, completed, a, count) == renewed_all(puzzles, completed, b, count),
    decreases count,
{
    if count > 0 {
        lemma_renewed_all_prefix(puzzles, completed, a, b, (count - 1) as nat);
    }
}

/// Settling adds the pieces that were put in to the count, and completes the
/// puzzle just when that takes the count from below four to four or beyond.
/// A puzzle is completed at most once, in the settling that makes its count
/// four, and is the same puzzle in the same place afterwards.
pub proof fn lemma_settled(puzzle: Puzzle)
    requires
        puzzle.filled <= PUZZLE_SIZE,
    ensures
        puzzle.settled().filled == puzzle.filled + puzzle.pending(),
        puzzle.completes() <==> puzzle.filled < PUZZLE_SIZE <= puzzle.filled + puzzle.pending(),
        puzzle.settled().id == puzzle.id,
        puzzle.settled().coordinate == puzzle.coordinate,
        puzzle.pending() == 0 ==> puzzle.settled() == puzzle,
{
}

/// The fourth piece completes the puzzle: when three pieces have been settled
/// and one more was put in, settling completes the puzzle.
pub proof fn lemma_fourth_piece_completes(puzzle: Puzzle)
    requires
        puzzle.filled == 3,
        puzzle.pending() == 1,
    ensures
        puzzle.completes(),
        puzzle.settled().filled == PUZZLE_SIZE,
{
    lemma_settled(puzzle);
}

/// Fewer than four pieces do not complete a puzzle, and each of them fills
/// the slot it was put into.
pub proof fn lemma_early_pieces_fill(puzzle: Puzzle, k: int)
    requires
        0 <= k < 4,
        puzzle.filled + puzzle.pending() < PUZZLE_SIZE,
        puzzle.slots[k].to_fill,
    ensures
        !puzzle.completes(),
        puzzle.settled().slots[k].filled,
        !puzzle.settled().slots[k].to_fill,
        puzzle.settled().slots[k].piece == puzzle.slots[k].piece,
{
    lemma_settled(puzzle);
}

/// Whether no two puzzles are known by the same number, and all by numbers
/// below `bound`.
pub open spec fn numbered(puzzles: Seq<Puzzle>, bound: int) -> bool {
    &&& forall|i: int| 0 <= i < puzzles.len() ==> (#[trigger] puzzles[i]).id < bound
    &&& forall|i: int, j: int|
        0 <= i < j < puzzles.len() ==> (#[trigger] puzzles[i]).id != (#[trigger] puzzles[j]).id
}

/// Taking out the puzzles of one number keeps the others apart by their
/// numbers, and apart from the puzzles not yet looked at.
proof fn lemma_without_numbered(puzzles: Seq<Puzzle>, id: usize, count: nat, bound: int)
    requires
        count <= puzzles.len(),
        numbered(puzzles, bound),
    ensures
        numbered(without(puzzles, id, count), bound),
        forall|j: int|
            0 <= j < without(puzzles, id, count).len() ==> (#[trigger] without(
                puzzles,
                id,
                count,
            )[j]).id != id,
        forall|j: int, i: int|
            0 <= j < without(puzzles, id, count).len() && count <= i < puzzles.len() ==> (
            #[trigger] without(puzzles, id, count)[j]).id != (#[trigger] puzzles[i]).id,
    decreases count,
{
    if count > 0 {
        lemma_without_numbered(puzzles, id, (count - 1) as nat, bound);
        let after = without(puzzles, id, count);
        assert forall|a: int, b: int| 0 <= a < b < after.len() implies (#[trigger] after[a]).id != (
        #[trigger] after[b]).id by {
        }
    }
}

/// Taking out the puzzles of one number leaves every other puzzle in.
proof fn lemma_without_keeps(puzzles: Seq<Puzzle>, id: usize, count: nat, i: int)
    requires
        0 <= i < count <= puzzles.len(),
        puzzles[i].id != id,
    ensures
        without(puzzles, id, count).contains(puzzles[i]),
    decreases count,
{
    let after = without(puzzles, id, count);
    if i < count - 1 {
        lemma_without_keeps(puzzles, id, (count - 1) as nat, i);
        let before = without(puzzles, id, (count - 1) as nat);
        let j = choose|j: int| 0 <= j < before.len() && before[j] == puzzles[i];
        assert(after[j] == puzzles[i]);
    } else {
        assert(after[after.len() - 1] == puzzles[i]);
    }
}

/// A completed puzzle gives way to its successor. Once the completion is
/// acted on, no puzzle is known by the number of the completed one, every
/// other puzzle is still there, and the last puzzle is the successor: it
/// stands where the completed one stood and has nothing in it. The puzzles
/// stay apart by their numbers.
pub proof fn lemma_renewed(
    puzzles: Seq<Puzzle>,
    done: CompletePuzzle,
    successor: Puzzle,
    id: int,
)
    requires
        numbered(puzzles, id),
        done.puzzle_id < id,
        blank(successor, id, done.coordinate),
    ensures
        numbered(renewed(puzzles, done, successor), id + 1),
        renewed(puzzles, done, successor).last() == successor,
        successor.pending() == 0,
        forall|j: int|
            0 <= j < renewed(puzzles, done, successor).len() ==> (#[trigger] renewed(
                puzzles,
                done,
                successor,
            )[j]).id != done.puzzle_id,
        forall|i: int|
            0 <= i < puzzles.len() && puzzles[i].id != done.puzzle_id ==> renewed(
                puzzles,
                done,
                successor,
            ).contains(#[trigger] puzzles[i]),
{
    lemma_without_numbered(puzzles, done.puzzle_id, puzzles.len(), id);
    let kept = without(puzzles, done.puzzle_id, puzzles.len());
    let after = renewed(puzzles, done, successor);
    assert forall|j: int| 0 <= j < after.len() implies (#[trigger] after[j]).id < id + 1
        && after[j].id != done.puzzle_id by {
    }
    assert forall|i: int|
        0 <= i < puzzles.len() && puzzles[i].id != done.puzzle_id implies after.contains(
        #[trigger] puzzles[i],
    ) by {
        lemma_without_keeps(puzzles, done.puzzle_id, puzzles.len(), i);
        let j = choose|j: int| 0 <= j < kept.len() && kept[j] == puzzles[i];
        assert(after[j] == puzzles[i]);
    }
}

impl Puzzle {
    /// How many slots are filled.
    pub open spec fn filled_slots(self) -> nat {
        (if self.slots[0].filled {
            1nat
        } else {
            0nat
        }) + (if self.slots[1].filled {
            1nat
        } else {
            0nat
        }) + (if self.slots[2].filled {
            1nat
        } else {
            0nat
        }) + (if self.slots[3].filled {
            1nat
        } else {
            0nat
        })
    }

    /// The invariant of a puzzle in play: its count is the number of its
    /// filled slots, no filled slot awaits settling, and it is not complete.
    pub open spec fn sound(self) -> bool {
        &&& self.filled == self.filled_slots()
        &&& self.filled < PUZZLE_SIZE
        &&& forall|k: int| 0 <= k < 4 ==> !((#[trigger] self.slots[k]).filled && self.slots[k].to_fill)
    }
}

/// Whether every puzzle keeps the invariant of puzzles.
pub open spec fn puzzles_sound(puzzles: Seq<Puzzle>) -> bool {
    forall|i: int| 0 <= i < puzzles.len() ==> (#[trigger] puzzles[i]).sound()
}

/// A puzzle with nothing in it keeps the invariant of puzzles.
pub proof fn lemma_blank_sound(puzzle: Puzzle, id: int, coordinate: Coordinate)
    requires
        blank(puzzle, id, coordinate),
    ensures
        puzzle.sound(),
{
}

/// Putting a piece into an open slot keeps the invariant of puzzles.
pub proof fn lemma_marked_sound(puzzle: Puzzle, k: int)
    requires
        puzzle.sound(),
        0 <= k < 4,
        puzzle.slots[k].open(),
    ensures
        puzzle.marked(k).sound(),
{
}

/// Feeding a piece to the puzzles keeps their invariant.
pub proof fn lemma_fed_sound(puzzles: Seq<Puzzle>, cursor: Coordinate, piece: Piece)
    requires
        puzzles_sound(puzzles),
        puzzles.len() <= usize::MAX,
    ensures
        puzzles_sound(fed(puzzles, cursor, piece)),
{
    lemma_first_fitting(puzzles, cursor, piece, 0);
    let at = first_fitting(puzzles, cursor, piece, 0);
    if at < puzzles.len() {
        let slot = puzzles[at as int].fitting_slot(cursor, piece)->Some_0;
        lemma_marked_sound(puzzles[at as int], slot);
    }
}

/// The search for a fitting puzzle ends within the puzzles, and on one that
/// has a slot for the piece if it ends before the last.
proof fn lemma_first_fitting(puzzles: Seq<Puzzle>, cursor: Coordinate, piece: Piece, from: nat)
    requires
        from <= puzzles.len(),
    ensures
        from <= first_fitting(puzzles, cursor, piece, from) <= puzzles.len(),
        first_fitting(puzzles, cursor, piece, from) < puzzles.len() ==> puzzles[first_fitting(
            puzzles,
            cursor,
            piece,
            from,
        ) as int].fitting_slot(cursor, piece) is Some,
    decreases puzzles.len() - from,
{
    if from < puzzles.len() && puzzles[from as int].fitting_slot(cursor, piece) is None {
        lemma_first_fitting(puzzles, cursor, piece, from + 1);
    }
}

/// Settling keeps the invariant of a puzzle that it does not complete.
pub proof fn lemma_settled_sound(puzzle: Puzzle)
    requires
        puzzle.sound(),
        !puzzle.completes(),
    ensures
        puzzle.settled().sound(),
{
    lemma_settled(puzzle);
}

/// Every puzzle that settling completes has its record among the
/// completions.
proof fn lemma_completions_cover(puzzles: Seq<Puzzle>, count: nat, i: int)
    requires
        0 <= i < count <= puzzles.len(),
        puzzles[i].completes(),
    ensures
        exists|j: int|
            0 <= j < completions(puzzles, count).len() && (#[trigger] completions(
                puzzles,
                count,
            )[j]).puzzle_id == puzzles[i].id,
    decreases count,
{
    let all = completions(puzzles, count);
    if i < count - 1 {
        lemma_completions_cover(puzzles, (count - 1) as nat, i);
        let before = completions(puzzles, (count - 1) as nat);
        let j = choose|j: int|
            0 <= j < before.len() && (#[trigger] before[j]).puzzle_id == puzzles[i].id;
        assert(all[j].puzzle_id == puzzles[i].id);
    } else {
        assert(all[all.len() - 1].puzzle_id == puzzles[i].id);
    }
}

/// Whatever is left after taking out the puzzles of one number was there
/// before, and is not known by that number.
proof fn lemma_without_members(puzzles: Seq<Puzzle>, id: usize, count: nat, j: int)
    requires
        count <= puzzles.len(),
        0 <= j < without(puzzles, id, count).len(),
    ensures
        without(puzzles, id, count)[j].id != id,
        exists|i: int| 0 <= i < count && #[trigger] puzzles[i] == without(puzzles, id, count)[j],
    decreases count,
{
    if count > 0 {
        let before = without(puzzles, id, (count - 1) as nat);
        if j < before.len() {
            lemma_without_members(puzzles, id, (count - 1) as nat, j);
        }
    }
}

/// Whether `puzzle` is one of the first `count` of `successors`.
pub open spec fn is_successor(successors: Seq<Puzzle>, count: nat, puzzle: Puzzle) -> bool {
    exists|k: int| 0 <= k < count && #[trigger] successors[k] == puzzle
}

/// Whether `puzzle` is one of `base` that none of the first `count`
/// completions is about.
pub open spec fn is_survivor(
    base: Seq<Puzzle>,
    completed: Seq<CompletePuzzle>,
    count: nat,
    puzzle: Puzzle,
) -> bool {
    &&& exists|i: int| 0 <= i < base.len() && #[trigger] base[i] == puzzle
    &&& forall|j: int| 0 <= j < count ==> (#[trigger] completed[j]).puzzle_id != puzzle.id
}

/// After completions were acted on, every puzzle is a successor or one that
/// no completion was about.
proof fn lemma_renewed_all_members(
    base: Seq<Puzzle>,
    completed: Seq<CompletePuzzle>,
    successors: Seq<Puzzle>,
    count: nat,
    j: int,
)
    requires
        count <= completed.len(),
        count <= successors.len(),
        0 <= j < renewed_all(base, completed, successors, count).len(),
    ensures
        is_successor(successors, count, renewed_all(base, completed, successors, count)[j])
            || is_survivor(
            base,
            completed,
            count,
            renewed_all(base, completed, successors, count)[j],
        ),
    decreases count,
{
    if count > 0 {
        let before = renewed_all(base, completed, successors, (count - 1) as nat);
        let done = completed[count - 1];
        let kept = without(before, done.puzzle_id, before.len());
        if j < kept.len() {
            lemma_without_members(before, done.puzzle_id, before.len(), j);
            let i = choose|i: int| 0 <= i < before.len() && #[trigger] before[i] == kept[j];
            lemma_renewed_all_members(base, completed, successors, (count - 1) as nat, i);
        }
    }
}

/// Settling the puzzles and acting on the completions keeps the invariant of
/// puzzles: a puzzle whose count has come to four has given way to a puzzle
/// with nothing in it, and every other puzzle counts its filled slots.
pub proof fn lemma_completion_keeps_sound(
    puzzles: Seq<Puzzle>,
    settled: Seq<Puzzle>,
    successors: Seq<Puzzle>,
    first_id: int,
)
    requires
        puzzles_sound(puzzles),
        settled.len() == puzzles.len(),
        forall|i: int| 0 <= i < puzzles.len() ==> #[trigger] settled[i] == puzzles[i].settled(),
        successors.len() == completions(puzzles, puzzles.len()).len(),
        forall|k: int|
            0 <= k < successors.len() ==> blank(
                #[trigger] successors[k],
                first_id + k,
                completions(puzzles, puzzles.len())[k].coordinate,
            ),
    ensures
        puzzles_sound(
            renewed_all(
                settled,
                completions(puzzles, puzzles.len()),
                successors,
                successors.len(),
            ),
        ),
{
    let completed = completions(puzzles, puzzles.len());
    let count = successors.len();
    let after = renewed_all(settled, completed, successors, count);
    assert forall|j: int| 0 <= j < after.len() implies (#[trigger] after[j]).sound() by {
        lemma_renewed_all_members(settled, completed, successors, count, j);
        let q = after[j];
        if is_successor(successors, count, q) {
            let k = choose|k: int| 0 <= k < count && #[trigger] successors[k] == q;
            lemma_blank_sound(q, first_id + k, completed[k].coordinate);
        } else {
            let i = choose|i: int| 0 <= i < settled.len() && #[trigger] settled[i] == q;
            lemma_settled(puzzles[i]);
            if puzzles[i].completes() {
                lemma_completions_cover(puzzles, puzzles.len(), i);
            }
            lemma_settled_sound(puzzles[i]);
        }
    }
}

/// Sets up a puzzle at each of `plots`, in order. Each gets a number of its
/// own and pieces drawn at random. The numbers must not run out.
pub fn set_puzzles(puzzles: &mut Puzzles, plots: &Vec<Coordinate>, puzzle_ids: &mut PuzzleIdFactory)
    requires
        old(puzzle_ids).next_id + plots@.len() <= usize::MAX,
    ensures
        final(puzzle_ids).next_id == old(puzzle_ids).next_id + plots@.len(),
        final(puzzles).towers@.len() == old(puzzles).towers@.len() + plots@.len(),
        forall|i: int|
            0 <= i < old(puzzles).towers@.len() ==> final(puzzles).towers@[i] == old(
                puzzles,
            ).towers@[i],
        forall|i: int|
            old(puzzles).towers@.len() <= i < final(puzzles).towers@.len() ==> blank(
                #[trigger] final(puzzles).towers@[i],
                old(puzzle_ids).next_id + (i - old(puzzles).towers@.len()),
                plots@[i - old(puzzles).towers@.len()],
            ),
{
    let mut k: usize = 0;
    while k < plots.len()
        invariant
            k <= plots.len(),
            old(puzzle_ids).next_id + plots@.len() <= usize::MAX,
            puzzle_ids.next_id == old(puzzle_ids).next_id + k,
            puzzles.towers@.len() == old(puzzles).towers@.len() + k,
            forall|i: int|
                0 <= i < old(puzzles).towers@.len() ==> puzzles.towers@[i] == old(
                    puzzles,
                ).towers@[i],
            forall|i: int|
                old(puzzles).towers@.len() <= i < puzzles.towers@.len() ==> blank(
                    #[trigger] puzzles.towers@[i],
                    old(puzzle_ids).next_id + (i - old(puzzles).towers@.len()),
                    plots@[i - old(puzzles).towers@.len()],
                ),
        decreases plots.len() - k,
    {
        let id = puzzle_ids.get_next_id();
        let puzzle = spawn_puzzle(id, plots[k]);
        puzzles.towers.push(puzzle);
        k += 1;
    }
}

/// Sets up a puzzle on every square of the field that holds a tower plot or
/// a tower, in the order of the squares. Each gets a number of its own and
/// pieces drawn at random. The numbers must not run out.
pub fn set_tower_puzzles(puzzles: &mut Puzzles, map: &GameMap, puzzle_ids: &mut PuzzleIdFactory)
    requires
        old(puzzle_ids).next_id + map.places(Tile::TowerPlot, Tile::Tower).len() <= usize::MAX,
    ensures
        final(puzzle_ids).next_id == old(puzzle_ids).next_id + map.places(
            Tile::TowerPlot,
            Tile::Tower,
        ).len(),
        final(puzzles).towers@.len() == old(puzzles).towers@.len() + map.places(
            Tile::TowerPlot,
            Tile::Tower,
        ).len(),
        forall|i: int|
            0 <= i < old(puzzles).towers@.len() ==> final(puzzles).towers@[i] == old(
                puzzles,
            ).towers@[i],
        forall|i: int|
            old(puzzles).towers@.len() <= i < final(puzzles).towers@.len() ==> blank(
                #[trigger] final(puzzles).towers@[i],
                old(puzzle_ids).next_id + (i - old(puzzles).towers@.len()),
                map.places(Tile::TowerPlot, Tile::Tower)[i - old(puzzles).towers@.len()],
            ),
{
    let plots = map.find_tiles(Tile::TowerPlot, Tile::Tower);
    set_puzzles(puzzles, &plots, puzzle_ids);
}

} // verus!
