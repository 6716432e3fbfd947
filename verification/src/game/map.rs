use vstd::prelude::*;
use crate::utils::color::RGBColor;
use crate::utils::geometry::{on_grid_line, Angle, Axis, Direction, Point};
use crate::utils::number::{fraction, quotient, UNIT};

verus! {

/// Represents the map of the 3D maze.
pub struct TileMap {
    /// The tiles of the map
    tiles: Vec<Vec<Tile>>,
    /// The longest distance between two points within the map
    max_distance: usize,
}

/// What occupies a tile of the map: nothing, or a wall of some colour.
#[derive(PartialEq, Eq, Clone, Copy, Debug, Structural)]
pub enum Tile {
    Empty,
    Wall(RGBColor),
}

/// The tile that a character of a map's text stands for: a space is empty,
/// each of the letters R, G, B, Y and O is a wall of its colour, and every
/// other character is a red wall.
pub open spec fn tile_of(field: char) -> Tile {
    if field == ' ' {
        Tile::Empty
    } else if field == 'G' {
        Tile::Wall(RGBColor { red: 50, green: 128, blue: 0 })
    } else if field == 'B' {
        Tile::Wall(RGBColor { red: 0, green: 64, blue: 128 })
    } else if field == 'Y' {
        Tile::Wall(RGBColor { red: 255, green: 184, blue: 0 })
    } else if field == 'O' {
        Tile::Wall(RGBColor { red: 255, green: 80, blue: 0 })
    } else {
        Tile::Wall(RGBColor { red: 180, green: 0, blue: 0 })
    }
}

/// The row of tiles that a line of text stands for.
pub open spec fn row_of(line: Seq<char>) -> Seq<Tile> {
    line.map_values(|field: char| tile_of(field))
}

/// The number of characters before the first line feed of `text`, or the
/// length of `text` where it has none.
pub open spec fn line_end(text: Seq<char>) -> int
    decreases text.len(),
{
    if text.len() == 0 || text[0] == '\n' {
        0
    } else {
        1 + line_end(text.drop_first())
    }
}

/// The first line of `text`, without its ending: a line feed, or a carriage
/// return and a line feed.
pub open spec fn first_line(text: Seq<char>) -> Seq<char> {
    let end = line_end(text);
    if 0 < end < text.len() && text[end - 1] == '\r' {
        text.subrange(0, end - 1)
    } else {
        text.subrange(0, end)
    }
}

/// The rows of tiles that a map's text stands for, one for each line. The
/// last line needs no line ending, and no row follows a final line ending.
pub open spec fn parse(text: Seq<char>) -> Seq<Seq<Tile>>
    decreases text.len(),
{
    if text.len() == 0 {
        Seq::empty()
    } else if 0 <= line_end(text) < text.len() {
        seq![row_of(first_line(text))] + parse(
            text.subrange(line_end(text) + 1, text.len() as int),
        )
    } else {
        seq![row_of(first_line(text))]
    }
}

/// The length of the longest of `rows`.
pub open spec fn widest(rows: Seq<Seq<Tile>>) -> nat
    decreases rows.len(),
{
    if rows.len() == 0 {
        0
    } else if rows.last().len() > widest(rows.drop_last()) {
        rows.last().len()
    } else {
        widest(rows.drop_last())
    }
}

/// The rows that a vector of rows holds.
pub open spec fn grid(tiles: Seq<Vec<Tile>>) -> Seq<Seq<Tile>> {
    tiles.map_values(|row: Vec<Tile>| row@)
}

/// No row is longer than `widest` says, and one of them is as long, if there
/// is any.
pub proof fn lemma_widest(rows: Seq<Seq<Tile>>)
    ensures
        forall|i: int| 0 <= i < rows.len() ==> (#[trigger] rows[i]).len() <= widest(rows),
        rows.len() > 0 ==> exists|i: int|
            0 <= i < rows.len() && (#[trigger] rows[i]).len() == widest(rows),
        rows.len() == 0 ==> widest(rows) == 0,
    decreases rows.len(),
{
    if rows.len() > 0 {
        let front = rows.drop_last();
        lemma_widest(front);
        assert forall|i: int| 0 <= i < rows.len() implies (#[trigger] rows[i]).len() <= widest(
            rows,
        ) by {
            if i < front.len() {
                assert(front[i] == rows[i]);
            }
        }
        if rows.last().len() > widest(front) {
            assert(rows[rows.len() - 1].len() == widest(rows));
        } else if front.len() > 0 {
            let i = choose|i: int| 0 <= i < front.len() && (#[trigger] front[i]).len() == widest(
                front,
            );
            assert(rows[i] == front[i]);
        } else {
            assert(rows[0].len() == widest(rows));
        }
    }
}

/// A coordinate between two grid lines belongs to the same tile whatever the
/// direction: the one that it is cut off to. A coordinate on a grid line
/// belongs to the tile that starts there for an increasing line, and to the
/// tile before it for a decreasing line.
pub proof fn lemma_resolved(coordinate: int, direction: Direction)
    ensures
        !on_grid_line(coordinate) ==> resolved(coordinate, direction) == quotient(
            coordinate,
            UNIT as int,
        ),
        !on_grid_line(coordinate) && coordinate >= 0 ==> resolved(coordinate, direction) * UNIT
            < coordinate < (resolved(coordinate, direction) + 1) * UNIT,
        on_grid_line(coordinate) && direction == Direction::Increasing ==> resolved(
            coordinate,
            direction,
        ) * UNIT == coordinate,
        on_grid_line(coordinate) && direction == Direction::Decreasing ==> (resolved(
            coordinate,
            direction,
        ) + 1) * UNIT == coordinate,
{
}

/// The first line of a text ends where its first line feed stands.
proof fn lemma_line_end(text: Seq<char>, end: int)
    requires
        0 <= end <= text.len(),
        forall|k: int| 0 <= k < end ==> text[k] != '\n',
        end < text.len() ==> text[end] == '\n',
    ensures
        line_end(text) == end,
    decreases end,
{
    if end > 0 {
        let rest = text.drop_first();
        assert forall|k: int| 0 <= k < end - 1 implies rest[k] != '\n' by {
            assert(rest[k] == text[k + 1]);
        }
        lemma_line_end(rest, end - 1);
    }
}

impl Tile {
    /// The tile that a character of a map's text stands for.
    pub fn from_char(field: char) -> (tile: Tile)
        ensures
            tile == tile_of(field),
    {
        match field {
            ' ' => Tile::Empty,
            'R' => Tile::Wall(RGBColor::red()),
            'G' => Tile::Wall(RGBColor::green()),
            'B' => Tile::Wall(RGBColor::blue()),
            'Y' => Tile::Wall(RGBColor::yellow()),
            'O' => Tile::Wall(RGBColor::orange()),
            _ => Tile::Wall(RGBColor::red()),
        }
    }
}

impl TileMap {
    /// The rows of the map, from the first line of its text to the last.
    pub closed spec fn rows(&self) -> Seq<Seq<Tile>> {
        grid(self.tiles@)
    }

    #[verifier::type_invariant]
    spec fn valid(&self) -> bool {
        self.max_distance == self.spec_max_distance()
    }

    /// The tile at column `x` of row `y`; empty wherever the map has no tile.
    pub open spec fn tile_at(&self, x: int, y: int) -> Tile {
        if 0 <= y < self.rows().len() && 0 <= x < self.rows()[y].len() {
            self.rows()[y][x]
        } else {
            Tile::Empty
        }
    }

    /// The tile that `point` belongs to, for a line under `angle`.
    pub open spec fn tile_under(&self, point: Point, angle: Angle) -> Tile {
        self.tile_at(
            resolved(point.x as int, Direction::along(angle, Axis::X)),
            resolved(point.y as int, Direction::along(angle, Axis::Y)),
        )
    }

    /// The number of rows plus the length of the longest row: no two points
    /// within the map lie further apart.
    pub open spec fn extent(&self) -> nat {
        self.rows().len() + widest(self.rows())
    }

    /// The extent of the map, as far as a `usize` holds it.
    pub open spec fn spec_max_distance(&self) -> usize {
        if self.extent() <= usize::MAX {
            self.extent() as usize
        } else {
            usize::MAX
        }
    }

    /// Creates a new map from the given string.
    ///
    /// # Parameters
    ///    - `map_string`: A string representation of the map, whereas each line represents one
    ///      row of the map and each character of a line represents a tile of a row. Use the
    ///      characters R,G,B,Y,O to designate a wall with a certain color. Use spaces to
    ///      designate empty tiles. Do not use tabs.
    pub fn new(map_string: &str) -> (map: TileMap)
        ensures
            map.rows() == parse(map_string@),
    {
        let mut tiles: Vec<Vec<Tile>> = Vec::new();
        let mut line: Vec<Tile> = Vec::new();
        let mut width: usize = 0;
        let mut after_return: bool = false;
        let ghost text = map_string@;
        let ghost mut start: int = 0;
        assert(text.subrange(0, text.len() as int) =~= text);
        assert(grid(tiles@) =~= Seq::empty());
        assert(row_of(text.subrange(0, 0)) =~= Seq::empty());
        for field in it: map_string.chars()
            invariant
                it.seq() == text,
                0 <= start <= it.index(),
                forall|k: int| start <= k < it.index() ==> text[k] != '\n',
                line@ == row_of(text.subrange(start, it.index() as int)),
                grid(tiles@) + parse(text.subrange(start, text.len() as int)) == parse(text),
                after_return <==> (start < it.index() && text[it.index() - 1] == '\r'),
                width == widest(grid(tiles@)),
        {
            let ghost here = it.index() as int;
            let ghost rest = text.subrange(start, text.len() as int);
            if field == '\n' {
                proof {
                    assert forall|k: int| 0 <= k < here - start implies rest[k] != '\n' by {
                        assert(rest[k] == text[start + k]);
                    }
                    assert(rest[here - start] == text[here]);
                    lemma_line_end(rest, here - start);
                    assert(rest.subrange(here - start + 1, rest.len() as int) =~= text.subrange(
                        here + 1,
                        text.len() as int,
                    ));
                    if after_return {
                        assert(rest[here - start - 1] == text[here - 1]);
                        assert(rest.subrange(0, here - start - 1) =~= text.subrange(
                            start,
                            here - 1,
                        ));
                    } else {
                        assert(here - start > 0 ==> rest[here - start - 1] == text[here - 1]);
                        assert(rest.subrange(0, here - start) =~= text.subrange(start, here));
                    }
                }
                if after_return {
                    line.pop();
                    assert(line@ =~= row_of(text.subrange(start, here - 1)));
                }
                assert(line@ == row_of(first_line(rest)));
                if line.len() > width {
                    width = line.len();
                }
                let ghost before = grid(tiles@);
                tiles.push(line);
                line = Vec::new();
                after_return = false;
                proof {
                    assert(grid(tiles@) =~= before.push(row_of(first_line(rest))));
                    assert(grid(tiles@).drop_last() =~= before);
                    assert(grid(tiles@) + parse(text.subrange(here + 1, text.len() as int))
                        =~= before + parse(rest));
                    assert(row_of(text.subrange(here + 1, here + 1)) =~= Seq::empty());
                    start = here + 1;
                }
            } else {
                line.push(Tile::from_char(field));
                after_return = field == '\r';
                assert(line@ =~= row_of(text.subrange(start, here + 1)));
            }
        }
        let ghost rest = text.subrange(start, text.len() as int);
        if line.len() > 0 {
            proof {
                assert forall|k: int| 0 <= k < rest.len() implies rest[k] != '\n' by {
                    assert(rest[k] == text[start + k]);
                }
                lemma_line_end(rest, rest.len() as int);
                assert(rest.subrange(0, rest.len() as int) =~= rest);
            }
            if line.len() > width {
                width = line.len();
            }
            let ghost before = grid(tiles@);
            tiles.push(line);
            proof {
                assert(grid(tiles@) =~= before.push(row_of(rest)));
                assert(grid(tiles@).drop_last() =~= before);
                assert(grid(tiles@) =~= before + parse(rest));
            }
        } else {
            assert(rest.len() == 0);
            assert(grid(tiles@) + parse(rest) =~= grid(tiles@));
        }
        // Since the map is rectangular, no distance within it is longer than the sum of its
        // height and its width.
        let height: usize = tiles.len();
        let max_distance: usize = if height > usize::MAX - width {
            usize::MAX
        } else {
            height + width
        };
        TileMap { tiles, max_distance }
    }

    /// Returns the contents of a tile inside the map.
    ///
    /// # Parameters
    ///    - `position`: The position of the tile. If the position is outside the map, an empty
    ///      field is returned.
    pub fn tile(&self, position: &TilePosition) -> (tile: Tile)
        ensures
            tile == self.tile_at(position.column(), position.row()),
            position.row() < 0 || position.row() >= self.rows().len() ==> tile == Tile::Empty,
            0 <= position.row() < self.rows().len() && (position.column() < 0 || position.column()
                >= self.rows()[position.row()].len()) ==> tile == Tile::Empty,
    {
        if position.y < 0 || position.y as u64 >= self.tiles.len() as u64 {
            return Tile::Empty;
        }
        let line = &self.tiles[position.y as usize];
        if position.x < 0 || position.x as u64 >= line.len() as u64 {
            return Tile::Empty;
        }
        line[position.x as usize]
    }

    /// The longest distance between two points that can exist within the map: the sum of
    /// its height and its width. Where the sum is more than a `usize` holds, it is the
    /// largest `usize`.
    #[verifier::when_used_as_spec(spec_max_distance)]
    pub fn max_distance(&self) -> (distance: usize)
        ensures
            distance == self.spec_max_distance(),
            self.extent() <= usize::MAX ==> distance == self.rows().len() + widest(self.rows()),
    {
        proof {
            use_type_invariant(self);
        }
        self.max_distance
    }

    /// Returns the light intensity of a wall at a certain point depending on the viewing
    /// angle, in millionths.
    ///
    /// # Parameters:
    ///    - point: The point of the wall from which the light intensity is queried.
    ///    - direction: The direction the wall is viewed from
    pub fn light_intensity_for_wall(point: Point, direction: Angle) -> (intensity: i64)
        ensures
            intensity == wall_light(
                point.closest_axis(),
                Direction::along(direction, point.closest_axis()),
            ),
            intensity == 1_000_000 || intensity == 600_000 || intensity == 400_000 || intensity
                == 800_000,
    {
        // Determine on which side of the wall the point resides.
        let closest_axis = point.closest_grid_line_axis();
        let viewing_direction = Direction::from_angle(&direction, &closest_axis);
        match closest_axis {
            // The ray hit a grid line on the x-axis
            Axis::X => match viewing_direction {
                Direction::Increasing => 1_000_000,
                Direction::Decreasing => 600_000,
            },
            // The ray hit a grid line on the y-axis
            Axis::Y => match viewing_direction {
                Direction::Increasing => 400_000,
                Direction::Decreasing => 800_000,
            },
        }
    }
}

/// The light on a wall that is met on `axis` by a ray that runs in
/// `direction` on that axis, in millionths of full light.
pub open spec fn wall_light(axis: Axis, direction: Direction) -> int {
    match (axis, direction) {
        (Axis::X, Direction::Increasing) => 1_000_000,
        (Axis::X, Direction::Decreasing) => 600_000,
        (Axis::Y, Direction::Increasing) => 400_000,
        (Axis::Y, Direction::Decreasing) => 800_000,
    }
}

/// The position of a tile within the map
#[derive(PartialEq, Eq, Clone, Copy, Debug, Structural)]
pub struct TilePosition {
    x: i64,
    y: i64,
}

/// The index of the tile that a coordinate belongs to. A coordinate between
/// two grid lines is cut off toward zero. One on a grid line belongs to the
/// tile ahead: the tile that starts there for a line that runs toward
/// increasing values, the one before it for a line that runs toward
/// decreasing values.
pub open spec fn resolved(coordinate: int, direction: Direction) -> int {
    if on_grid_line(coordinate) && direction == Direction::Decreasing {
        quotient(coordinate, UNIT as int) - 1
    } else {
        quotient(coordinate, UNIT as int)
    }
}

impl TilePosition {
    /// The column of the tile.
    pub closed spec fn column(self) -> int {
        self.x as int
    }

    /// The row of the tile.
    pub closed spec fn row(self) -> int {
        self.y as int
    }

    /// Rounds a point to a tile position. Makes sure that ambiguous points - i.e. points
    /// between two tiles - are properly rounded using the given angle.
    ///
    /// # Parameters:
    ///    - point: The point that should be converted to a tile position.
    ///    - angle: An angle used to resolve ambiguous points.
    pub fn new(point: &Point, angle: &Angle) -> (position: TilePosition)
        ensures
            position.column() == resolved(point.x as int, Direction::along(*angle, Axis::X)),
            position.row() == resolved(point.y as int, Direction::along(*angle, Axis::Y)),
    {
        let x = TilePosition::component_from_point(point, Axis::X, angle);
        let y = TilePosition::component_from_point(point, Axis::Y, angle);
        TilePosition { x, y }
    }

    /// The column of the tile.
    pub fn x(&self) -> (column: i64)
        ensures
            column == self.column(),
    {
        self.x
    }

    /// The row of the tile.
    pub fn y(&self) -> (row: i64)
        ensures
            row == self.row(),
    {
        self.y
    }

    /// Rounds a single coordinate of a point to a single coordinate of a tile position.
    /// Makes sure that ambiguous coordinates - i.e. points between two tiles - are properly
    /// rounded using the given angle.
    ///
    /// # Parameters:
    ///    - point: The point from which a component should be converted to a tile position
    ///      component.
    ///    - axis: The axis the point's component should be taken from
    ///    - angle: An angle used to resolve ambiguous points.
    fn component_from_point(point: &Point, axis: Axis, angle: &Angle) -> (index: i64)
        ensures
            index == resolved(point.coordinate(axis) as int, Direction::along(*angle, axis)),
    {
        let point_component: i64 = point.component(&axis);
        let whole: i64 = point_component / UNIT;
        if fraction(point_component) == 0 {
            match Direction::from_angle(angle, &axis) {
                Direction::Increasing => whole,
                Direction::Decreasing => whole - 1,
            }
        } else {
            whole
        }
    }
}

} // verus!
