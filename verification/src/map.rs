//! The playing field: tiles, the road the enemies walk, and the clouds that
//! tamed creatures flee to.

use crate::geometry::clamp_i32;
use vstd::prelude::*;
use vstd::string::StringSliceAdditionalSpecFns;

verus! {

/// A point of the plane, in thousandths of a world unit.
#[derive(Debug, Clone, Copy, PartialEq, Eq, Structural)]
pub struct Coordinate {
    pub x: i32,
    pub y: i32,
}

impl Default for Coordinate {
    fn default() -> (c: Self)
        ensures
            c == (Coordinate { x: 0, y: 0 }),
    {
        Coordinate { x: 0, y: 0 }
    }
}

/// What stands on one square of the field.
#[derive(Debug, Clone, Copy, PartialEq, Eq, Structural)]
pub enum Tile {
    Path,
    Spawn,
    TowerPlot,
    Tower,
    Castle,
    Cloud,
    Empty,
}

/// The field: its squares, row by row from the bottom, and the road across it
/// from the spawn to the castle.
#[derive(Debug)]
pub struct GameMap {
    pub height: usize,
    pub width: usize,
    pub tiles: Vec<Vec<Tile>>,
    pub tile_size: i32,
    pub spawn: Coordinate,
    pub sink: Coordinate,
    pub waypoints: Vec<Coordinate>,
}

/// The side of a square of the field, in thousandths of a world unit.
pub const TILE_SIZE: i32 = 64_000;

/// The middle of the square in column `column` of row `row`, on a field
/// whose squares have the side `tile_size`. Squares too far out to be named
/// are taken to lie on the rim of the plane.
pub open spec fn grid_position(column: int, row: int, tile_size: i32) -> Coordinate {
    Coordinate { x: clamp_i32(column * tile_size), y: clamp_i32(row * tile_size) }
}

/// One step of a grid, `index` squares of side `tile_size` from the origin.
fn grid_step(index: usize, tile_size: i32) -> (step: i32)
    ensures
        step == clamp_i32(index * tile_size),
{
    if tile_size == 0 {
        assert(index * tile_size == 0) by (nonlinear_arith)
            requires
                tile_size == 0,
        ;
        0
    } else if index as u64 > 0x1_0000_0000 {
        if tile_size > 0 {
            assert(index * tile_size > i32::MAX) by (nonlinear_arith)
                requires
                    index > 0x1_0000_0000,
                    tile_size > 0,
            ;
            i32::MAX
        } else {
            assert(index * tile_size < i32::MIN) by (nonlinear_arith)
                requires
                    index > 0x1_0000_0000,
                    tile_size < 0,
            ;
            i32::MIN
        }
    } else {
        assert(-0x8000_0000 * 0x1_0000_0000 <= index * tile_size <= 0x8000_0000 * 0x1_0000_0000)
            by (nonlinear_arith)
            requires
                0 <= index <= 0x1_0000_0000,
                -0x8000_0000 <= tile_size < 0x8000_0000,
        ;
        let product: i128 = index as i128 * tile_size as i128;
        if product < i32::MIN as i128 {
            i32::MIN
        } else if product > i32::MAX as i128 {
            i32::MAX
        } else {
            product as i32
        }
    }
}

/// Computes [`grid_position`].
pub fn grid_coordinate(column: usize, row: usize, tile_size: i32) -> (position: Coordinate)
    ensures
        position == grid_position(column as int, row as int, tile_size),
{
    Coordinate { x: grid_step(column, tile_size), y: grid_step(row, tile_size) }
}

/// The middles of those among the first `count` squares of row number `row`
/// that hold `first` or `second`, from left to right.
pub open spec fn row_hits(
    squares: Seq<Tile>,
    row: int,
    first: Tile,
    second: Tile,
    tile_size: i32,
    count: nat,
) -> Seq<Coordinate>
    decreases count,
{
    if count == 0 {
        Seq::empty()
    } else {
        let before = row_hits(squares, row, first, second, tile_size, (count - 1) as nat);
        if squares[count - 1] == first || squares[count - 1] == second {
            before.push(grid_position(count - 1, row, tile_size))
        } else {
            before
        }
    }
}

/// The middles of the squares in the first `count` rows that hold `first` or
/// `second`, row by row from the bottom and from left to right in each.
pub open spec fn grid_hits(
    tiles: Seq<Vec<Tile>>,
    first: Tile,
    second: Tile,
    tile_size: i32,
    count: nat,
) -> Seq<Coordinate>
    decreases count,
{
    if count == 0 {
        Seq::empty()
    } else {
        grid_hits(tiles, first, second, tile_size, (count - 1) as nat) + row_hits(
            tiles[count - 1]@,
            count - 1,
            first,
            second,
            tile_size,
            tiles[count - 1]@.len(),
        )
    }
}

impl GameMap {
    /// The middles of all squares that hold `first` or `second`, row by row
    /// from the bottom and from left to right in each.
    pub open spec fn places(self, first: Tile, second: Tile) -> Seq<Coordinate> {
        grid_hits(self.tiles@, first, second, self.tile_size, self.tiles@.len())
    }

    /// Finds the middles of all squares that hold `first` or `second`.
    pub fn find_tiles(&self, first: Tile, second: Tile) -> (found: Vec<Coordinate>)
        ensures
            found@ == self.places(first, second),
    {
        let mut found: Vec<Coordinate> = Vec::new();
        let mut row: usize = 0;
        while row < self.tiles.len()
            invariant
                row <= self.tiles.len(),
                found@ == grid_hits(self.tiles@, first, second, self.tile_size, row as nat),
            decreases self.tiles.len() - row,
        {
            let ghost before = found@;
            let squares = &self.tiles[row];
            let mut column: usize = 0;
            while column < squares.len()
                invariant
                    column <= squares.len(),
                    found@ == before + row_hits(
                        squares@,
                        row as int,
                        first,
                        second,
                        self.tile_size,
                        column as nat,
                    ),
                decreases squares.len() - column,
            {
                if squares[column] == first || squares[column] == second {
                    found.push(grid_coordinate(column, row, self.tile_size));
                }
                column += 1;
            }
            row += 1;
        }
        found
    }
}

/// The field that the game is played on, as text: one line for each row of
/// squares, the top row first.
pub const MAP_STR: &'static str =
    "#############\n########t####\n###.#.#######\n#a++++0++++q#\n#####+#+#.###\n#t#+++#++.#t#\n###+.###+++##\n###+++#.#.+##\n#####++++++##\n##t#.#.####t#\n#############";

/// The byte that ends a line.
pub const LINE_END: u8 = 10;

/// A square of the field, by its column and its row.
#[derive(Debug, Clone, Copy, PartialEq, Eq, Structural)]
pub struct Point {
    pub x: usize,
    pub y: usize,
}

impl Tile {
    /// The square that a byte of the text stands for, if it stands for any.
    pub open spec fn of_byte(byte: u8) -> Option<Tile> {
        if byte == 0x30 {
            Some(Tile::Tower)
        } else if byte == 0x2e {
            Some(Tile::TowerPlot)
        } else if byte == 0x23 {
            Some(Tile::Empty)
        } else if byte == 0x74 {
            Some(Tile::Cloud)
        } else if byte == 0x2b {
            Some(Tile::Path)
        } else if byte == 0x61 {
            Some(Tile::Spawn)
        } else if byte == 0x71 {
            Some(Tile::Castle)
        } else {
            None
        }
    }

    /// Reads a square from a byte of the text: `0` is a tower, `.` a tower
    /// plot, `#` empty ground, `t` a cloud, `+` a stretch of road, `a` the
    /// spawn and `q` the castle. No other byte stands for a square.
    pub fn from_byte(byte: u8) -> (tile: Option<Tile>)
        ensures
            tile == Tile::of_byte(byte),
    {
        match byte {
            0x30 => Some(Tile::Tower),
            0x2e => Some(Tile::TowerPlot),
            0x23 => Some(Tile::Empty),
            0x74 => Some(Tile::Cloud),
            0x2b => Some(Tile::Path),
            0x61 => Some(Tile::Spawn),
            0x71 => Some(Tile::Castle),
            _ => None,
        }
    }
}

/// The lines of a text that are ended by a line end, in order.
pub open spec fn closed_lines(text: Seq<u8>) -> Seq<Seq<u8>>
    decreases text.len(),
{
    if text.len() == 0 {
        Seq::empty()
    } else if text.last() == LINE_END {
        closed_lines(text.drop_last()).push(open_line(text.drop_last()))
    } else {
        closed_lines(text.drop_last())
    }
}

/// What follows the last line end of a text.
pub open spec fn open_line(text: Seq<u8>) -> Seq<u8>
    decreases text.len(),
{
    if text.len() == 0 {
        Seq::empty()
    } else if text.last() == LINE_END {
        Seq::empty()
    } else {
        open_line(text.drop_last()).push(text.last())
    }
}

/// The lines of a text. The line ends are not part of them, and a line end
/// at the end of the text does not start another line.
pub open spec fn lines(text: Seq<u8>) -> Seq<Seq<u8>> {
    if open_line(text).len() > 0 {
        closed_lines(text).push(open_line(text))
    } else {
        closed_lines(text)
    }
}

/// Whether `rows` holds the lines `expected`.
pub open spec fn holds_lines(rows: Seq<Vec<u8>>, expected: Seq<Seq<u8>>) -> bool {
    &&& rows.len() == expected.len()
    &&& forall|i: int| 0 <= i < rows.len() ==> (#[trigger] rows[i])@ == expected[i]
}

/// Splits a text into its lines.
pub fn split_lines(text: &[u8]) -> (rows: Vec<Vec<u8>>)
    ensures
        holds_lines(rows@, lines(text@)),
{
    let mut rows: Vec<Vec<u8>> = Vec::new();
    let mut current: Vec<u8> = Vec::new();
    let mut i: usize = 0;
    while i < text.len()
        invariant
            i <= text.len(),
            holds_lines(rows@, closed_lines(text@.take(i as int))),
            current@ == open_line(text@.take(i as int)),
        decreases text.len() - i,
    {
        assert(text@.take(i + 1).drop_last() == text@.take(i as int));
        if text[i] == LINE_END {
            rows.push(current);
            current = Vec::new();
        } else {
            current.push(text[i]);
        }
        i += 1;
    }
    assert(text@.take(text@.len() as int) == text@);
    if current.len() > 0 {
        rows.push(current);
    }
    rows
}

/// Whether every byte of a line stands for a square.
pub open spec fn line_readable(line: Seq<u8>) -> bool {
    forall|j: int| 0 <= j < line.len() ==> Tile::of_byte(#[trigger] line[j]) is Some
}

/// Whether a row of squares is what a line of text stands for.
pub open spec fn row_reads(squares: Seq<Tile>, line: Seq<u8>) -> bool {
    &&& squares.len() == line.len()
    &&& forall|j: int| 0 <= j < line.len() ==> Tile::of_byte(line[j]) == Some(#[trigger] squares[j])
}

/// Whether rows of squares, the bottom row first, are what lines of text,
/// the top line first, stand for.
pub open spec fn tiles_read(tiles: Seq<Vec<Tile>>, text_lines: Seq<Seq<u8>>) -> bool {
    &&& tiles.len() == text_lines.len()
    &&& forall|r: int|
        0 <= r < tiles.len() ==> row_reads((#[trigger] tiles[r])@, text_lines[text_lines.len() - 1 - r])
}

/// Reads a row of squares from a line of text, if every byte of the line
/// stands for a square.
pub fn read_row(line: &Vec<u8>) -> (row: Option<Vec<Tile>>)
    ensures
        row is Some <==> line_readable(line@),
        row matches Some(squares) ==> row_reads(squares@, line@),
{
    let mut squares: Vec<Tile> = Vec::new();
    let mut j: usize = 0;
    while j < line.len()
        invariant
            j <= line.len(),
            squares@.len() == j,
            forall|k: int| 0 <= k < j ==> Tile::of_byte(line@[k]) == Some(#[trigger] squares@[k]),
            forall|k: int| 0 <= k < j ==> Tile::of_byte(#[trigger] line@[k]) is Some,
        decreases line.len() - j,
    {
        match Tile::from_byte(line[j]) {
            Some(tile) => {
                squares.push(tile);
            },
            None => {
                return None;
            },
        }
        j += 1;
    }
    Some(squares)
}

/// Reads the squares of a field from the lines of its text, if every byte of
/// every line stands for a square. The last line is the bottom row, and the
/// bottom row comes first.
pub fn read_tiles(rows: &Vec<Vec<u8>>) -> (tiles: Option<Vec<Vec<Tile>>>)
    ensures
        tiles is Some <==> forall|i: int| 0 <= i < rows@.len() ==> line_readable(#[trigger] rows@[i]@),
        tiles matches Some(grid) ==> {
            &&& grid@.len() == rows@.len()
            &&& forall|r: int|
                0 <= r < grid@.len() ==> row_reads(
                    (#[trigger] grid@[r])@,
                    rows@[rows@.len() - 1 - r]@,
                )
        },
{
    let mut grid: Vec<Vec<Tile>> = Vec::new();
    let mut r: usize = 0;
    while r < rows.len()
        invariant
            r <= rows.len(),
            grid@.len() == r,
            forall|k: int|
                0 <= k < r ==> row_reads((#[trigger] grid@[k])@, rows@[rows@.len() - 1 - k]@),
            forall|k: int| rows@.len() - r <= k < rows@.len() ==> line_readable(#[trigger] rows@[k]@),
        decreases rows.len() - r,
    {
        match read_row(&rows[rows.len() - 1 - r]) {
            Some(squares) => {
                grid.push(squares);
            },
            None => {
                return None;
            },
        }
        r += 1;
    }
    Some(grid)
}

/// The squares among the first `count` of row number `row` that hold
/// `kind`, from left to right.
pub open spec fn row_points(squares: Seq<Tile>, row: int, kind: Tile, count: nat) -> Seq<Point>
    decreases count,
{
    if count == 0 {
        Seq::empty()
    } else {
        let before = row_points(squares, row, kind, (count - 1) as nat);
        if squares[count - 1] == kind {
            before.push(Point { x: (count - 1) as usize, y: row as usize })
        } else {
            before
        }
    }
}

/// The squares in the top `count` rows that hold `kind`, in reading order:
/// row by row from the top, and from left to right in each.
pub open spec fn scan_points(tiles: Seq<Vec<Tile>>, kind: Tile, count: nat) -> Seq<Point>
    decreases count,
{
    if count == 0 {
        Seq::empty()
    } else {
        scan_points(tiles, kind, (count - 1) as nat) + row_points(
            tiles[tiles.len() - count]@,
            tiles.len() - count,
            kind,
            tiles[tiles.len() - count]@.len(),
        )
    }
}

/// The last square in reading order that holds `kind`, or the square in the
/// lower left corner when none does.
pub open spec fn marked_point(tiles: Seq<Vec<Tile>>, kind: Tile) -> Point {
    let all = scan_points(tiles, kind, tiles.len());
    if all.len() > 0 {
        all.last()
    } else {
        Point { x: 0, y: 0 }
    }
}

/// Whether two squares share a side.
pub open spec fn adjacent(a: Point, b: Point) -> bool {
    ||| a.y == b.y && (a.x - b.x == 1 || b.x - a.x == 1)
    ||| a.x == b.x && (a.y - b.y == 1 || b.y - a.y == 1)
}

/// The first square at or after `from` that shares a side with `last`, or
/// the number of squares when there is none.
pub open spec fn first_adjacent(candidates: Seq<Point>, last: Point, from: nat) -> nat
    decreases candidates.len() - from,
{
    if from < candidates.len() && !adjacent(candidates[from as int], last) {
        first_adjacent(candidates, last, from + 1)
    } else {
        from
    }
}

/// The squares `candidates` without the one at `k`.
pub open spec fn dropped(candidates: Seq<Point>, k: int) -> Seq<Point> {
    Seq::new((candidates.len() - 1) as nat, |i: int| if i < k {
        candidates[i]
    } else {
        candidates[i + 1]
    })
}

/// The road from the square `last` to the castle at `sink` over the stretches
/// of road `candidates`, as the middles of the squares to walk to in turn.
///
/// From each square the road goes on to the first stretch not yet walked that
/// shares a side with it. When there is none, the road ends at the castle.
pub open spec fn road(candidates: Seq<Point>, last: Point, sink: Point, tile_size: i32) -> Seq<
    Coordinate,
>
    decreases candidates.len(),
{
    let k = first_adjacent(candidates, last, 0);
    if k < candidates.len() {
        seq![grid_position(candidates[k as int].x as int, candidates[k as int].y as int, tile_size)]
            + road(dropped(candidates, k as int), candidates[k as int], sink, tile_size)
    } else {
        seq![grid_position(sink.x as int, sink.y as int, tile_size)]
    }
}

/// Whether two squares share a side.
pub fn shares_side(a: Point, b: Point) -> (r: bool)
    ensures
        r == adjacent(a, b),
{
    (a.y == b.y && ((a.x > b.x && a.x - b.x == 1) || (b.x > a.x && b.x - a.x == 1))) || (a.x == b.x
        && ((a.y > b.y && a.y - b.y == 1) || (b.y > a.y && b.y - a.y == 1)))
}

/// Finds the squares that hold `kind`, in reading order.
pub fn find_points(tiles: &Vec<Vec<Tile>>, kind: Tile) -> (found: Vec<Point>)
    ensures
        found@ == scan_points(tiles@, kind, tiles@.len()),
{
    let mut found: Vec<Point> = Vec::new();
    let mut done: usize = 0;
    while done < tiles.len()
        invariant
            done <= tiles.len(),
            found@ == scan_points(tiles@, kind, done as nat),
        decreases tiles.len() - done,
    {
        let ghost before = found@;
        let row = tiles.len() - 1 - done;
        let squares = &tiles[row];
        let mut column: usize = 0;
        while column < squares.len()
            invariant
                column <= squares.len(),
                found@ == before + row_points(squares@, row as int, kind, column as nat),
            decreases squares.len() - column,
        {
            if squares[column] == kind {
                found.push(Point { x: column, y: row });
            }
            column += 1;
        }
        done += 1;
    }
    found
}

/// Whether a text can be read as a field: it has at least one line, and
/// every byte of every line stands for a square.
pub open spec fn readable(text: Seq<u8>) -> bool {
    &&& lines(text).len() > 0
    &&& forall|i: int| 0 <= i < lines(text).len() ==> line_readable(#[trigger] lines(text)[i])
}

/// Whether a byte of a text ends a line or stands for a square.
pub open spec fn known_byte(byte: u8) -> bool {
    byte == LINE_END || Tile::of_byte(byte) is Some
}

/// Whether a text is made of line ends and of bytes that stand for squares.
pub open spec fn all_known(text: Seq<u8>) -> bool {
    forall|i: int| 0 <= i < text.len() ==> known_byte(#[trigger] text[i])
}

/// In a text made of line ends and of bytes that stand for squares, every
/// line can be read.
proof fn lemma_known_text_has_readable_lines(text: Seq<u8>)
    requires
        all_known(text),
    ensures
        line_readable(open_line(text)),
        forall|k: int|
            0 <= k < closed_lines(text).len() ==> line_readable(#[trigger] closed_lines(text)[k]),
    decreases text.len(),
{
    if text.len() > 0 {
        let front = text.drop_last();
        lemma_known_text_has_readable_lines(front);
        let closed = closed_lines(text);
        assert forall|k: int| 0 <= k < closed.len() implies line_readable(#[trigger] closed[k]) by {
            if text.last() == LINE_END {
                if k < closed.len() - 1 {
                    assert(closed[k] == closed_lines(front)[k]);
                }
            } else {
                assert(closed[k] == closed_lines(front)[k]);
            }
        }
    }
}

/// In a text whose lines can all be read, every byte ends a line or stands
/// for a square.
proof fn lemma_readable_lines_make_known_text(text: Seq<u8>)
    requires
        line_readable(open_line(text)),
        forall|k: int|
            0 <= k < closed_lines(text).len() ==> line_readable(#[trigger] closed_lines(text)[k]),
    ensures
        all_known(text),
    decreases text.len(),
{
    if text.len() > 0 {
        let front = text.drop_last();
        if text.last() == LINE_END {
            let closed = closed_lines(text);
            assert(closed[closed.len() - 1] == open_line(front));
            assert forall|k: int| 0 <= k < closed_lines(front).len() implies line_readable(
                #[trigger] closed_lines(front)[k],
            ) by {
                assert(closed[k] == closed_lines(front)[k]);
            }
        } else {
            let line = open_line(text);
            assert(line[line.len() - 1] == text.last());
            assert forall|j: int| 0 <= j < open_line(front).len() implies Tile::of_byte(
                #[trigger] open_line(front)[j],
            ) is Some by {
                assert(line[j] == open_line(front)[j]);
            }
            assert(closed_lines(text) == closed_lines(front));
        }
        lemma_readable_lines_make_known_text(front);
        assert forall|i: int| 0 <= i < text.len() implies known_byte(#[trigger] text[i]) by {
            if i < text.len() - 1 {
                assert(front[i] == text[i]);
            }
        }
    }
}

/// A text can be read as a field just when it is not empty and is made of
/// line ends and of bytes that stand for squares.
pub proof fn lemma_readable(text: Seq<u8>)
    ensures
        readable(text) <==> text.len() > 0 && all_known(text),
{
    let all = lines(text);
    if text.len() > 0 && all_known(text) {
        lemma_known_text_has_readable_lines(text);
    }
    if readable(text) {
        assert forall|k: int| 0 <= k < closed_lines(text).len() implies line_readable(
            #[trigger] closed_lines(text)[k],
        ) by {
            assert(all[k] == closed_lines(text)[k]);
        }
        if open_line(text).len() > 0 {
            assert(all[all.len() - 1] == open_line(text));
        }
        lemma_readable_lines_make_known_text(text);
    }
}

impl GameMap {
    /// Whether this field is what `text` reads as.
    ///
    /// The field has a row for each line and is as wide as its bottom row.
    /// The enemies come in at the last square in reading order marked as the
    /// spawn, and the castle is the last marked as such; the road between
    /// them is laid over the stretches of road.
    pub open spec fn reads(self, text: Seq<u8>) -> bool {
        &&& self.height == lines(text).len()
        &&& self.width == lines(text).last().len()
        &&& self.tile_size == TILE_SIZE
        &&& tiles_read(self.tiles@, lines(text))
        &&& self.spawn == grid_position(
            marked_point(self.tiles@, Tile::Spawn).x as int,
            marked_point(self.tiles@, Tile::Spawn).y as int,
            TILE_SIZE,
        )
        &&& self.sink == grid_position(
            marked_point(self.tiles@, Tile::Castle).x as int,
            marked_point(self.tiles@, Tile::Castle).y as int,
            TILE_SIZE,
        )
        &&& self.waypoints@ == road(
            scan_points(self.tiles@, Tile::Path, self.tiles@.len()),
            marked_point(self.tiles@, Tile::Spawn),
            marked_point(self.tiles@, Tile::Castle),
            TILE_SIZE,
        )
    }

    /// Lays the road from the square `spawn` to the castle at `sink` over the
    /// stretches of road `waypoints`, and adds it to the waypoints of the
    /// field.
    pub fn create_way_points(&mut self, waypoints: Vec<Point>, spawn: Point, sink: Point)
        ensures
            final(self).waypoints@ == old(self).waypoints@ + road(
                waypoints@,
                spawn,
                sink,
                old(self).tile_size,
            ),
            final(self).height == old(self).height,
            final(self).width == old(self).width,
            final(self).tiles == old(self).tiles,
            final(self).tile_size == old(self).tile_size,
            final(self).spawn == old(self).spawn,
            final(self).sink == old(self).sink,
    {
        let mut waypoints = waypoints;
        let ghost all = waypoints@;
        let mut last_point = spawn;
        loop
            invariant_except_break
                self.waypoints@ + road(waypoints@, last_point, sink, self.tile_size) == old(
                    self,
                ).waypoints@ + road(all, spawn, sink, self.tile_size),
            invariant
                self.height == old(self).height,
                self.width == old(self).width,
                self.tiles == old(self).tiles,
                self.tile_size == old(self).tile_size,
                self.spawn == old(self).spawn,
                self.sink == old(self).sink,
            ensures
                self.waypoints@ == old(self).waypoints@ + road(all, spawn, sink, self.tile_size),
                self.height == old(self).height,
                self.width == old(self).width,
                self.tiles == old(self).tiles,
                self.tile_size == old(self).tile_size,
                self.spawn == old(self).spawn,
                self.sink == old(self).sink,
            decreases waypoints.len(),
        {
            let mut k: usize = 0;
            while k < waypoints.len() && !shares_side(waypoints[k], last_point)
                invariant
                    k <= waypoints.len(),
                    first_adjacent(waypoints@, last_point, k as nat) == first_adjacent(
                        waypoints@,
                        last_point,
                        0,
                    ),
                decreases waypoints.len() - k,
            {
                k += 1;
            }
            if k >= waypoints.len() {
                self.waypoints.push(grid_coordinate(sink.x, sink.y, self.tile_size));
                break ;
            }
            let ghost before = waypoints@;
            let next_point = waypoints.remove(k);
            assert(waypoints@ =~= dropped(before, k as int));
            self.waypoints.push(grid_coordinate(next_point.x, next_point.y, self.tile_size));
            last_point = next_point;
        }
    }

    /// Reads a field from its text, if the text can be read as one: if it is
    /// not empty and made of line ends and of bytes that stand for squares.
    /// The text has a line for each row of squares, the top row first, and a
    /// byte for each square.
    pub fn parse(text: &[u8]) -> (parsed: Option<GameMap>)
        ensures
            parsed is Some <==> text@.len() > 0 && all_known(text@),
            parsed is Some <==> readable(text@),
            parsed matches Some(map) ==> map.reads(text@),
    {
        proof {
            lemma_readable(text@);
        }
        let rows = split_lines(text);
        if rows.len() == 0 {
            return None;
        }
        let tiles = match read_tiles(&rows) {
            Some(tiles) => tiles,
            None => {
                return None;
            },
        };
        assert forall|i: int| 0 <= i < lines(text@).len() implies line_readable(
            #[trigger] lines(text@)[i],
        ) by {
            assert(line_readable(rows@[i]@));
        }
        let spawns = find_points(&tiles, Tile::Spawn);
        let spawn = if spawns.len() > 0 {
            spawns[spawns.len() - 1]
        } else {
            Point { x: 0, y: 0 }
        };
        let sinks = find_points(&tiles, Tile::Castle);
        let sink = if sinks.len() > 0 {
            sinks[sinks.len() - 1]
        } else {
            Point { x: 0, y: 0 }
        };
        let stretches = find_points(&tiles, Tile::Path);
        let height = rows.len();
        let width = tiles[0].len();
        let mut map = GameMap {
            height,
            width,
            tiles,
            tile_size: TILE_SIZE,
            spawn: grid_coordinate(spawn.x, spawn.y, TILE_SIZE),
            sink: grid_coordinate(sink.x, sink.y, TILE_SIZE),
            waypoints: Vec::new(),
        };
        map.create_way_points(stretches, spawn, sink);
        Some(map)
    }

    /// Reads the field that the game is played on.
    pub fn load_map() -> (map: GameMap)
        ensures
            map.reads(MAP_STR.spec_bytes()),
    {
        proof {
            lemma_shipped_map_readable();
        }
        GameMap::parse(MAP_STR.as_bytes()).unwrap()
    }
}

/// The text of the field that the game is played on can be read as a field.
pub proof fn lemma_shipped_map_readable()
    ensures
        readable(MAP_STR.spec_bytes()),
{
    reveal_strlit(
        "#############\n########t####\n###.#.#######\n#a++++0++++q#\n#####+#+#.###\n#t#+++#++.#t#\n###+.###+++##\n###+++#.#.+##\n#####++++++##\n##t#.#.####t#\n#############",
    );
    let chars = MAP_STR@;
    let bytes = MAP_STR.spec_bytes();
    assert forall|i: int| 0 <= i < chars.len() implies {
        &&& '\0' <= #[trigger] chars[i] <= '\u{7f}'
        &&& known_byte(chars[i] as u8)
    } by {
    }
    vstd::string::is_ascii_spec_bytes(MAP_STR);
    lemma_readable(bytes);
}

/// A square of the field as it is drawn: where it is, and what it holds.
#[derive(Debug, Clone, Copy, PartialEq, Eq, Structural)]
pub struct MapTile {
    pub column: usize,
    pub row: usize,
    pub tile: Tile,
}

/// The first `count` squares of row number `row`, from left to right.
pub open spec fn row_tiles(squares: Seq<Tile>, row: int, count: nat) -> Seq<MapTile>
    decreases count,
{
    if count == 0 {
        Seq::empty()
    } else {
        row_tiles(squares, row, (count - 1) as nat).push(
            MapTile { column: (count - 1) as usize, row: row as usize, tile: squares[count - 1] },
        )
    }
}

/// The squares of the first `count` rows, row by row from the bottom and from
/// left to right in each.
pub open spec fn grid_tiles(tiles: Seq<Vec<Tile>>, count: nat) -> Seq<MapTile>
    decreases count,
{
    if count == 0 {
        Seq::empty()
    } else {
        grid_tiles(tiles, (count - 1) as nat) + row_tiles(
            tiles[count - 1]@,
            count - 1,
            tiles[count - 1]@.len(),
        )
    }
}

impl MapTile {
    /// The middle of the square, on a field whose squares have the side
    /// `tile_size`.
    pub fn position(&self, tile_size: i32) -> (position: Coordinate)
        ensures
            position == grid_position(self.column as int, self.row as int, tile_size),
    {
        grid_coordinate(self.column, self.row, tile_size)
    }
}

impl GameMap {
    /// Lists the squares of the field to draw, row by row from the bottom and
    /// from left to right in each.
    pub fn map_tiles(&self) -> (listed: Vec<MapTile>)
        ensures
            listed@ == grid_tiles(self.tiles@, self.tiles@.len()),
    {
        let mut listed: Vec<MapTile> = Vec::new();
        let mut row: usize = 0;
        while row < self.tiles.len()
            invariant
                row <= self.tiles.len(),
                listed@ == grid_tiles(self.tiles@, row as nat),
            decreases self.tiles.len() - row,
        {
            let ghost before = listed@;
            let squares = &self.tiles[row];
            let mut column: usize = 0;
            while column < squares.len()
                invariant
                    column <= squares.len(),
                    listed@ == before + row_tiles(squares@, row as int, column as nat),
                decreases squares.len() - column,
            {
                listed.push(MapTile { column, row, tile: squares[column] });
                column += 1;
            }
            row += 1;
        }
        listed
    }
}

} // verus!
