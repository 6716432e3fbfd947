pub mod ray;

use vstd::prelude::*;
use crate::game::map::{wall_light, Tile, TileMap, TilePosition};
use crate::game::Game;
use crate::renderer::ray::{
    grown_times, lemma_grown, lemma_grown_times_shift, lemma_squared_length_bound, Ray, REACH,
};
use crate::utils::color::RGBColor;
use crate::utils::geometry::{Angle, Direction};
use crate::utils::number::{
    clamped, divide, lemma_quotient_bound, magnitude, multiply_divide, quotient, ratio, saturate,
    saturated, UNIT,
};
use crate::window::canvas::{
    lemma_column_is_of_pixels, lemma_differs_in_column_again, lemma_differs_in_pixels_again, Canvas,
};

verus! {

/// Draws a 3D scene for a given map and a player within the map. All four
/// settings are in millionths.
pub struct Renderer {
    /// The state of the virtual world to be rendered
    pub game: Game,
    /// The size of the physical computer display in relation to a grid field
    pub relative_screen_size: i64,
    /// The focal length used for determining the window angle
    pub focal_length: i64,
    /// The radius around the player where objects should appear illuminated
    pub illumination_radius: i64,
    /// The minimum environment light of the scene
    pub minimum_light: i64,
}

/// Describes the result of a casted ray
#[derive(Clone, Copy, Debug, PartialEq, Eq, Structural)]
pub enum Hit {
    /// The ray never hit a wall
    Nothing,
    /// The ray hit a wall with a given color at a given distance.
    Wall { color: RGBColor, distance: i64 },
}

/// Where on a screen of the given size the middle of a column lies, measured
/// from the middle of the screen: the share `column / width - 1/2` of the
/// screen's size.
pub open spec fn screen_offset(column: int, width: int, relative_screen_size: int) -> int {
    ratio(2 * column - width, relative_screen_size, 2 * width)
}

/// The angle between the viewing direction and the line from the eye to a
/// point of the screen: the one between a quarter turn to either side whose
/// tangent is `offset / focal_length`. Without a focal length it is a quarter
/// turn to the side of the offset, and zero where there is no offset either.
pub open spec fn view_angle(focal_length: int, offset: int) -> Angle {
    if focal_length > 0 {
        Angle::toward(focal_length, offset)
    } else if focal_length < 0 {
        Angle::toward(saturated(-focal_length), -offset)
    } else if offset > 0 {
        Angle::toward(0, 1)
    } else if offset < 0 {
        Angle::toward(0, -1)
    } else {
        Angle::toward(1, 0)
    }
}

/// The ray as it hits the first wall on its way through the map. The ray
/// grows from grid line to grid line. It hits nothing once it is longer than
/// the longest distance within the map, or where its next crossing is out of
/// reach.
pub open spec fn first_wall(map: &TileMap, ray: Ray) -> Option<Ray>
    decreases 2 * REACH * REACH - ray.squared_length(),
{
    if !ray.wf() || ray.length > map.max_distance() * UNIT {
        None
    } else {
        match ray.grown() {
            None => None,
            Some(next) => {
                if map.tile_under(next.end, next.angle) != Tile::Empty {
                    Some(next)
                } else {
                    proof {
                        lemma_grown(ray);
                        lemma_squared_length_bound(next);
                    }
                    first_wall(map, next)
                }
            },
        }
    }
}

/// Whether `wall` is what the ray is after it has grown `times` times, stands
/// on a wall, and is the first to do so: up to there the ray was never longer
/// than the longest distance within the map when it grew, and it met only
/// empty tiles.
pub open spec fn meets_wall_after(map: &TileMap, ray: Ray, times: nat, wall: Ray) -> bool {
    &&& times >= 1
    &&& grown_times(ray, times) == Some(wall)
    &&& map.tile_under(wall.end, wall.angle) != Tile::Empty
    &&& forall|k: nat|
        k < times ==> {
            &&& (#[trigger] grown_times(ray, k)) is Some
            &&& grown_times(ray, k)->0.length <= map.max_distance() * UNIT
            &&& k >= 1 ==> map.tile_under(grown_times(ray, k)->0.end, grown_times(ray, k)->0.angle)
                == Tile::Empty
        }
}

/// What `first_wall` finds is the first wall that the growing ray meets.
pub proof fn lemma_first_wall_is_first(map: &TileMap, ray: Ray)
    requires
        first_wall(map, ray) is Some,
    ensures
        exists|times: nat| meets_wall_after(map, ray, times, first_wall(map, ray)->0),
    decreases 2 * REACH * REACH - ray.squared_length(),
{
    let wall = first_wall(map, ray)->0;
    let next = ray.grown()->0;
    assert(grown_times(ray, 0) == Some(ray));
    assert(grown_times(ray, 1) == ray.grown());
    if map.tile_under(next.end, next.angle) != Tile::Empty {
        assert forall|k: nat| k < 1 implies {
            &&& (#[trigger] grown_times(ray, k)) is Some
            &&& grown_times(ray, k)->0.length <= map.max_distance() * UNIT
            &&& k >= 1 ==> map.tile_under(grown_times(ray, k)->0.end, grown_times(ray, k)->0.angle)
                == Tile::Empty
        } by {
            assert(k == 0);
        }
        assert(meets_wall_after(map, ray, 1, wall));
    } else {
        lemma_grown(ray);
        lemma_squared_length_bound(next);
        lemma_first_wall_is_first(map, next);
        let rest = choose|times: nat| meets_wall_after(map, next, times, wall);
        lemma_grown_times_shift(ray, next, rest);
        assert forall|k: nat| k < rest + 1 implies {
            &&& (#[trigger] grown_times(ray, k)) is Some
            &&& grown_times(ray, k)->0.length <= map.max_distance() * UNIT
            &&& k >= 1 ==> map.tile_under(grown_times(ray, k)->0.end, grown_times(ray, k)->0.angle)
                == Tile::Empty
        } by {
            if k >= 1 {
                lemma_grown_times_shift(ray, next, (k - 1) as nat);
                assert(grown_times(next, (k - 1) as nat) is Some);
                if k == 1 {
                    assert(grown_times(next, 0) == Some(next));
                }
            }
        }
        assert(meets_wall_after(map, ray, rest + 1, wall));
    }
}

/// The first wall that the growing ray meets is what `first_wall` finds.
pub proof fn lemma_first_is_first_wall(map: &TileMap, ray: Ray, times: nat, wall: Ray)
    requires
        ray.wf(),
        meets_wall_after(map, ray, times, wall),
    ensures
        first_wall(map, ray) == Some(wall),
    decreases times,
{
    assert(grown_times(ray, 0) == Some(ray));
    assert(grown_times(ray, 1) == ray.grown());
    if times == 1 {
    } else {
        assert(grown_times(ray, 1) is Some);
        let next = ray.grown()->0;
        lemma_grown(ray);
        lemma_grown_times_shift(ray, next, (times - 1) as nat);
        assert forall|k: nat| k < times - 1 implies {
            &&& (#[trigger] grown_times(next, k)) is Some
            &&& grown_times(next, k)->0.length <= map.max_distance() * UNIT
            &&& k >= 1 ==> map.tile_under(
                grown_times(next, k)->0.end,
                grown_times(next, k)->0.angle,
            ) == Tile::Empty
        } by {
            lemma_grown_times_shift(ray, next, k);
            assert(grown_times(ray, k + 1) is Some);
        }
        lemma_first_is_first_wall(map, next, (times - 1) as nat, wall);
    }
}

/// The height of a wall on the screen, as a share of the screen's height, for
/// a wall at the given distance: the inverse of the distance. A wall at no
/// distance fills the screen.
pub open spec fn wall_height_at(distance: int) -> int {
    if distance == 0 {
        UNIT as int
    } else {
        ratio(UNIT as int, UNIT as int, distance)
    }
}

/// The number of pixels that a wall covers in a column of `window_height`
/// pixels: the share `wall_height` of them, at least none and at most all,
/// rounded down.
pub open spec fn wall_pixels(wall_height: int, window_height: int) -> int {
    (window_height * clamped(wall_height, 0, UNIT as int)) / (UNIT as int)
}

/// The row in which the wall starts in a column: the wall stands in the
/// middle of the column.
pub open spec fn wall_top(wall_height: int, window_height: int) -> int {
    (window_height - wall_pixels(wall_height, window_height)) / 2
}

/// The colour of the pixel in row `y` of a column of `window_height` pixels
/// that shows a wall of the given height and colour: black above the wall
/// for the ceiling, the wall's colour within it, and below it the floor, dark
/// gray under light that grows with the row from none at the top of the
/// screen to full at its bottom.
pub open spec fn column_pixel(
    wall_height: int,
    color: RGBColor,
    window_height: int,
    y: int,
) -> RGBColor {
    if y < wall_top(wall_height, window_height) {
        RGBColor { red: 0, green: 0, blue: 0 }
    } else if y < wall_top(wall_height, window_height) + wall_pixels(wall_height, window_height) {
        color
    } else {
        (RGBColor { red: 50, green: 50, blue: 50 }).lit((y * UNIT) / window_height)
    }
}

/// The colour of the pixel in row `y` of a column of `window_height` pixels
/// for what a ray has hit: a wall as high as its distance makes it, or no
/// wall at all.
pub open spec fn hit_pixel(hit: Hit, window_height: int, y: int) -> RGBColor {
    match hit {
        Hit::Nothing => column_pixel(0, RGBColor { red: 0, green: 0, blue: 0 }, window_height, y),
        Hit::Wall { color, distance } => column_pixel(
            wall_height_at(distance as int),
            color,
            window_height,
            y,
        ),
    }
}

impl Renderer {
    /// Initializes the renderer with a map, a player and a focal length that should be used
    /// for rendering.
    ///
    /// # Parameters:
    ///    - game: The virtual world state (i.e. the game's map and player position)
    ///    - relative_screen_size: The size of the physical computer display in relation to a
    ///      grid field
    ///    - focal_length: A focal length that should be used for rendering.
    ///    - illumination_radius: The radius around the player where objects should appear
    ///      illuminated.
    ///    - minimum_light: The minimum environment light of the scene.
    pub fn new(
        game: Game,
        relative_screen_size: i64,
        focal_length: i64,
        illumination_radius: i64,
        minimum_light: i64,
    ) -> (renderer: Renderer)
        ensures
            renderer == (Renderer {
                game,
                relative_screen_size,
                focal_length,
                illumination_radius,
                minimum_light,
            }),
    {
        Renderer { game, relative_screen_size, focal_length, illumination_radius, minimum_light }
    }
}

impl Renderer {
    /// The colour of the pixel in column `x` of row `y` of a frame of the given size.
    pub open spec fn frame_pixel(&self, x: int, y: int, width: int, height: int) -> RGBColor {
        hit_pixel(self.cast(x, width), height, y)
    }

    /// Renders one frame into a canvas.
    ///
    /// # Parameters:
    ///    - canvas: The canvas that should be drawn to.
    pub fn render(&self, canvas: &mut Canvas)
        requires
            old(canvas).wf(),
        ensures
            final(canvas).wf(),
            final(canvas).differs_in_pixels(old(canvas)),
            forall|x: int, y: int|
                0 <= x < old(canvas).spec_width() && 0 <= y < old(canvas).spec_height()
                    ==> #[trigger] final(canvas).pixel_at(x, y) == self.frame_pixel(
                    x,
                    y,
                    old(canvas).spec_width() as int,
                    old(canvas).spec_height() as int,
                ),
    {
        let width: usize = canvas.width();
        for column in 0..width
            invariant
                canvas.wf(),
                width == old(canvas).spec_width(),
                canvas.differs_in_pixels(old(canvas)),
                forall|x: int, y: int|
                    0 <= x < column && 0 <= y < canvas.spec_height() ==> #[trigger] canvas.pixel_at(
                        x,
                        y,
                    ) == self.frame_pixel(x, y, width as int, canvas.spec_height() as int),
        {
            let ghost between = *canvas;
            self.render_column(column, canvas);
            proof {
                lemma_column_is_of_pixels(canvas, &between, column as int);
                lemma_differs_in_pixels_again(canvas, &between, old(canvas));
            }
        }
    }

    /// Renders one pixel column of a frame into a canvas.
    ///
    /// # Parameters:
    ///    - column: The pixel column of the canvas that should be rendered
    ///    - canvas: The canvas that should be drawn to.
    pub fn render_column(&self, column: usize, canvas: &mut Canvas)
        requires
            old(canvas).wf(),
            column < old(canvas).spec_width(),
        ensures
            final(canvas).wf(),
            final(canvas).differs_in_column(old(canvas), column as int),
            forall|y: int|
                0 <= y < old(canvas).spec_height() ==> #[trigger] final(canvas).pixel_at(
                    column as int,
                    y,
                ) == self.frame_pixel(
                    column as int,
                    y,
                    old(canvas).spec_width() as int,
                    old(canvas).spec_height() as int,
                ),
            forall|x: int, y: int|
                0 <= x < old(canvas).spec_width() && 0 <= y < old(canvas).spec_height() && x
                    != column ==> #[trigger] final(canvas).pixel_at(x, y) == old(canvas).pixel_at(
                    x,
                    y,
                ),
    {
        // Cast the ray to find a nearby wall
        let scanning_result = self.cast_ray(column, canvas.width());

        // Draw scanning result to the canvas
        self.draw_hit(scanning_result, column, canvas);
    }
}

// Methods related to ray casting
impl Renderer {
    /// The angle between the viewing direction and the ray for a column.
    pub open spec fn column_angle(&self, column: int, max_column: int) -> Angle {
        view_angle(
            self.focal_length as int,
            screen_offset(column, max_column, self.relative_screen_size as int),
        )
    }

    /// The share of light that is left at the given distance: it falls from
    /// full light at no distance to none at the illumination radius, but not
    /// below the minimum light, and is never more than full light. Without a
    /// radius all is as dark as may be.
    pub open spec fn distance_light(&self, distance: int) -> int {
        if self.illumination_radius == 0 {
            clamped(self.minimum_light as int, self.minimum_light as int, UNIT as int)
        } else {
            clamped(
                UNIT - ratio(distance, UNIT as int, self.illumination_radius as int),
                self.minimum_light as int,
                UNIT as int,
            )
        }
    }

    /// The distance of the end of a ray from the screen's plane: the length of
    /// the ray times the cosine of its angle to the viewing direction.
    pub open spec fn projected(ray: Ray, relative_angle: Angle) -> int {
        ratio(ray.length as int, relative_angle.cosine(), UNIT as int)
    }

    /// What a ray shows that ends on a wall: the colour of the wall, under
    /// the light that its side gets and that its distance leaves, and its
    /// distance from the screen's plane.
    pub open spec fn shaded(&self, ray: Ray, relative_angle: Angle) -> Hit {
        match self.game.map.tile_under(ray.end, ray.angle) {
            Tile::Empty => Hit::Nothing,
            Tile::Wall(color) => Hit::Wall {
                color: color.lit(
                    ratio(
                        self.distance_light(Renderer::projected(ray, relative_angle)),
                        wall_light(
                            ray.end.closest_axis(),
                            Direction::along(ray.angle, ray.end.closest_axis()),
                        ),
                        UNIT as int,
                    ),
                ),
                distance: Renderer::projected(ray, relative_angle) as i64,
            },
        }
    }

    /// What the ray for a column shows: the ray starts at the player's
    /// position, under the player's viewing angle plus the angle of the
    /// column.
    pub open spec fn cast(&self, column: int, max_column: int) -> Hit {
        let relative_angle = self.column_angle(column, max_column);
        let ray = Ray {
            start: self.game.player.position,
            end: self.game.player.position,
            angle: relative_angle.sum(self.game.player.direction),
            length: 0,
        };
        match first_wall(&self.game.map, ray) {
            None => Hit::Nothing,
            Some(end) => self.shaded(end, relative_angle),
        }
    }

    /// Casts a ray from the player's position for a given column on the view and returns what
    /// the ray scanned at its end.
    ///
    /// # Parameters:
    ///    - column: The column that should be drawn
    ///    - max_column: The width of the view
    pub fn cast_ray(&self, column: usize, max_column: usize) -> (hit: Hit)
        requires
            column < max_column,
        ensures
            hit == self.cast(column as int, max_column as int),
    {
        // Determine the absolute angle of the ray
        let relative_angle = self.ray_angle(column, max_column);
        let absolute_angle = relative_angle.plus(&self.game.player.direction);

        // Create the ray
        let mut ray = Ray::new(self.game.player.position, absolute_angle);
        let ghost start = ray;
        let max_distance: usize = self.game.map.max_distance();

        // Grow the ray step by step. Grow it until we either hit a wall or reached the
        // maximal possible distance inside our map
        while ray.length as i128 <= (max_distance as i128) * (UNIT as i128)
            invariant
                ray.wf(),
                max_distance == self.game.map.max_distance(),
                relative_angle.wf(),
                first_wall(&self.game.map, ray) == first_wall(&self.game.map, start),
                self.cast(column as int, max_column as int) == (match first_wall(
                    &self.game.map,
                    start,
                ) {
                    None => Hit::Nothing,
                    Some(end) => self.shaded(end, relative_angle),
                }),
            decreases 2 * REACH * REACH - ray.squared_length(),
        {
            proof {
                lemma_squared_length_bound(ray);
            }
            match ray.grow() {
                None => {
                    return Hit::Nothing;
                },
                Some(grown) => {
                    proof {
                        lemma_squared_length_bound(grown);
                    }
                    ray = grown;
                },
            }
            let tile = self.game.map.tile(&TilePosition::new(&ray.end, &ray.angle));
            match tile {
                Tile::Empty => {
                    // We've found nothing. Just continue scanning.
                },
                Tile::Wall(color) => {
                    return self.shade(color, &ray, &relative_angle);
                },
            }
        }

        // The ray casting reached the outer bounds of our map. We never hit a wall...
        Hit::Nothing
    }

    /// Determines what a ray shows that has hit a wall of the given colour.
    fn shade(&self, color: RGBColor, ray: &Ray, relative_angle: &Angle) -> (hit: Hit)
        requires
            ray.wf(),
            self.game.map.tile_under(ray.end, ray.angle) == Tile::Wall(color),
        ensures
            hit == self.shaded(*ray, *relative_angle),
    {
        proof {
            use_type_invariant(relative_angle);
            crate::renderer::ray::lemma_length_fits(ray.delta_x(), ray.delta_y());
            crate::utils::number::lemma_root_is(ray.squared_length(), ray.length as int);
            lemma_quotient_bound(ray.length * relative_angle.cosine(), UNIT as int);
            assert(magnitude(ray.length * relative_angle.cosine()) <= 6_000_000_000_000_000_000
                * UNIT) by (nonlinear_arith)
                requires
                    0 <= ray.length <= 6_000_000_000_000_000_000,
                    -UNIT <= relative_angle.cosine() <= UNIT,
            ;
        }
        // Fix the calculated distance to correct the fisheye effect
        let projected_distance: i128 = multiply_divide(ray.length, relative_angle.cos(), UNIT);
        assert(magnitude(projected_distance as int) <= 6_000_000_000_000_000_000) by {
            lemma_ratio_of_share(
                ray.length as int,
                relative_angle.cosine(),
                6_000_000_000_000_000_000,
            );
        }
        let projected_distance: i64 = projected_distance as i64;

        // Apply some lighting to the wall's color
        let wall_light_intensity: i64 = TileMap::light_intensity_for_wall(ray.end, ray.angle);
        let distance_light_intensity: i64 = self.light_at(projected_distance);
        proof {
            lemma_ratio_of_share(
                distance_light_intensity as int,
                wall_light_intensity as int,
                0x8000_0000_0000_0000,
            );
        }
        let intensity: i128 = multiply_divide(
            distance_light_intensity,
            wall_light_intensity,
            UNIT,
        );
        let illuminated_color = color.adjust_light_intensity(intensity as i64);

        // Pass the result
        Hit::Wall { color: illuminated_color, distance: projected_distance }
    }

    /// Determines the share of light that is left at the given distance.
    fn light_at(&self, distance: i64) -> (light: i64)
        ensures
            light == self.distance_light(distance as int),
    {
        let low: i128 = self.minimum_light as i128;
        let high: i128 = UNIT as i128;
        let light: i128 = if self.illumination_radius == 0 {
            low
        } else {
            let fallen: i128 = multiply_divide(distance, UNIT, self.illumination_radius);
            proof {
                lemma_quotient_bound(distance * UNIT, self.illumination_radius as int);
                assert(magnitude(distance * UNIT) <= 0x8000_0000_0000_0000 * UNIT)
                    by (nonlinear_arith)
                    requires
                        -0x8000_0000_0000_0000 <= distance < 0x8000_0000_0000_0000,
                        UNIT == 1_000_000,
                ;
            }
            high - fallen
        };
        if light > high || low > high {
            UNIT
        } else if light < low {
            self.minimum_light
        } else {
            light as i64
        }
    }

    /// Determines the angle of a scanning ray for drawing the given column on a view with the
    /// given width, relative to the viewing direction.
    ///
    /// # Parameters:
    ///    - column: The current view column to be drawn (which must be less than the view's
    ///      width).
    ///    - max_column: The width of the view.
    pub fn ray_angle(&self, column: usize, max_column: usize) -> (angle: Angle)
        requires
            column < max_column,
        ensures
            angle.wf(),
            angle == self.column_angle(column as int, max_column as int),
    {
        let relative_position: i128 = 2 * (column as i128) - (max_column as i128);
        let width: i128 = 2 * (max_column as i128);
        proof {
            lemma_quotient_bound(relative_position * self.relative_screen_size, width as int);
            lemma_screen_offset_fits(
                relative_position as int,
                self.relative_screen_size as int,
                max_column as int,
            );
        }
        let virtual_screen_position: i128 = divide(
            relative_position * (self.relative_screen_size as i128),
            width,
        );
        let offset: i64 = virtual_screen_position as i64;
        let vector: (i64, i64) = if self.focal_length > 0 {
            (self.focal_length, offset)
        } else if self.focal_length < 0 {
            (saturate(-(self.focal_length as i128)), -offset)
        } else if offset > 0 {
            (0, 1)
        } else if offset < 0 {
            (0, -1)
        } else {
            (1, 0)
        };
        match Angle::from_vector(vector.0, vector.1) {
            Some(angle) => angle,
            None => self.game.player.direction,
        }
    }
}

// Methods related to drawing
impl Renderer {
    /// Draws the given view column for the result of a particular ray casting operation to a
    /// given canvas
    pub fn draw_hit(&self, hit: Hit, column: usize, canvas: &mut Canvas)
        requires
            old(canvas).wf(),
            column < old(canvas).spec_width(),
        ensures
            final(canvas).wf(),
            final(canvas).differs_in_column(old(canvas), column as int),
            forall|y: int|
                0 <= y < old(canvas).spec_height() ==> #[trigger] final(canvas).pixel_at(
                    column as int,
                    y,
                ) == hit_pixel(hit, old(canvas).spec_height() as int, y),
            forall|x: int, y: int|
                0 <= x < old(canvas).spec_width() && 0 <= y < old(canvas).spec_height() && x
                    != column ==> #[trigger] final(canvas).pixel_at(x, y) == old(canvas).pixel_at(
                    x,
                    y,
                ),
    {
        match hit {
            // We did not find a wall, just draw an empty space
            Hit::Nothing => self.draw_wall(0, RGBColor::black(), canvas, column),
            Hit::Wall { color, distance } => {
                // Determine the visual height of the wall on the screen (normalized to the
                // screen's height)
                let normalized_wall_height: i64 = if distance == 0 {
                    UNIT
                } else {
                    proof {
                        lemma_quotient_bound(UNIT * UNIT, distance as int);
                    }
                    multiply_divide(UNIT, UNIT, distance) as i64
                };

                // Finally: Draw the wall for the current view position…
                self.draw_wall(normalized_wall_height, color, canvas, column)
            },
        }
    }

    /// Draws a column of a wall for the given view position.
    ///
    /// # Parameters:
    ///    - wall_height: The visible height of a wall segment to be drawn, in millionths of
    ///      the view's height (0: no wall, a million and more: full view height).
    ///    - color: The color of the wall to be drawn.
    ///    - canvas: The canvas that should be used for drawing.
    ///    - column: The current view column to be drawn.
    pub fn draw_wall(&self, wall_height: i64, color: RGBColor, canvas: &mut Canvas, column: usize)
        requires
            old(canvas).wf(),
            column < old(canvas).spec_width(),
        ensures
            final(canvas).wf(),
            final(canvas).differs_in_column(old(canvas), column as int),
            forall|y: int|
                0 <= y < old(canvas).spec_height() ==> #[trigger] final(canvas).pixel_at(
                    column as int,
                    y,
                ) == column_pixel(wall_height as int, color, old(canvas).spec_height() as int, y),
            forall|x: int, y: int|
                0 <= x < old(canvas).spec_width() && 0 <= y < old(canvas).spec_height() && x
                    != column ==> #[trigger] final(canvas).pixel_at(x, y) == old(canvas).pixel_at(
                    x,
                    y,
                ),
    {
        let window_height: usize = canvas.height();
        let limited_wall_height: i64 = if wall_height > UNIT {
            UNIT
        } else if wall_height < 0 {
            0
        } else {
            wall_height
        };
        proof {
            lemma_share_of_height(window_height as int, limited_wall_height as int);
        }
        let view_wall_height: usize = ((window_height as u128) * (limited_wall_height as u128) / (
        UNIT as u128)) as usize;

        let wall_top: usize = (window_height - view_wall_height) / 2;
        let wall_bottom: usize = wall_top + view_wall_height;
        let ghost height = window_height as int;
        let ghost tall = wall_height as int;

        // Draw the black ceiling
        for y in 0..wall_top
            invariant
                canvas.wf(),
                canvas.differs_in_column(old(canvas), column as int),
                column < canvas.spec_width(),
                height == canvas.spec_height(),
                wall_top == crate::renderer::wall_top(tall, height),
                wall_top <= height,
                forall|j: int|
                    0 <= j < y ==> #[trigger] canvas.pixel_at(column as int, j) == column_pixel(
                        tall,
                        color,
                        height,
                        j,
                    ),
                forall|i: int, j: int|
                    0 <= i < canvas.spec_width() && 0 <= j < height && i != column
                        ==> #[trigger] canvas.pixel_at(i, j) == old(canvas).pixel_at(i, j),
        {
            let ghost between = *canvas;
            canvas.draw_pixel(column, y, &RGBColor::black());
            proof {
                lemma_differs_in_column_again(canvas, &between, old(canvas), column as int);
            }
        }

        // Draw the wall (if anything is visible)
        for y in wall_top..wall_bottom
            invariant
                canvas.wf(),
                canvas.differs_in_column(old(canvas), column as int),
                column < canvas.spec_width(),
                height == canvas.spec_height(),
                wall_top == crate::renderer::wall_top(tall, height),
                wall_bottom == wall_top + wall_pixels(tall, height),
                wall_top <= wall_bottom <= height,
                forall|j: int|
                    0 <= j < y ==> #[trigger] canvas.pixel_at(column as int, j) == column_pixel(
                        tall,
                        color,
                        height,
                        j,
                    ),
                forall|i: int, j: int|
                    0 <= i < canvas.spec_width() && 0 <= j < height && i != column
                        ==> #[trigger] canvas.pixel_at(i, j) == old(canvas).pixel_at(i, j),
        {
            let ghost between = *canvas;
            canvas.draw_pixel(column, y, &color);
            proof {
                lemma_differs_in_column_again(canvas, &between, old(canvas), column as int);
            }
        }

        // Draw the floor as grey gradient
        for y in wall_bottom..window_height
            invariant
                canvas.wf(),
                canvas.differs_in_column(old(canvas), column as int),
                column < canvas.spec_width(),
                height == canvas.spec_height(),
                window_height == height,
                wall_top == crate::renderer::wall_top(tall, height),
                wall_bottom == wall_top + wall_pixels(tall, height),
                wall_top <= wall_bottom <= height,
                forall|j: int|
                    0 <= j < y ==> #[trigger] canvas.pixel_at(column as int, j) == column_pixel(
                        tall,
                        color,
                        height,
                        j,
                    ),
                forall|i: int, j: int|
                    0 <= i < canvas.spec_width() && 0 <= j < height && i != column
                        ==> #[trigger] canvas.pixel_at(i, j) == old(canvas).pixel_at(i, j),
        {
            proof {
                lemma_share_of_height(y as int, UNIT as int);
                assert((y * UNIT) / (window_height as int) < UNIT) by (nonlinear_arith)
                    requires
                        0 <= y < window_height,
                        UNIT == 1_000_000,
                ;
                assert(0 <= (y * UNIT) / (window_height as int)) by (nonlinear_arith)
                    requires
                        0 <= y < window_height,
                        UNIT == 1_000_000,
                ;
            }
            let gradient_position: u128 = (y as u128) * (UNIT as u128) / (window_height as u128);
            let gradient_color = RGBColor::dark_gray().adjust_light_intensity(
                gradient_position as i64,
            );
            let ghost between = *canvas;
            canvas.draw_pixel(column, y, &gradient_color);
            proof {
                lemma_differs_in_column_again(canvas, &between, old(canvas), column as int);
            }
        }
    }
}

/// A share of a height is no more than the height, and the product from which
/// it is taken fits well into `u128`.
proof fn lemma_share_of_height(height: int, share: int)
    by (nonlinear_arith)
    requires
        0 <= height <= 0xffff_ffff_ffff_ffff,
        0 <= share <= 1_000_000,
    ensures
        0 <= height * share <= 0xffff_ffff_ffff_ffff * 1_000_000,
        0 <= (height * share) / 1_000_000 <= height,
{
}

/// The offset of a column on the screen is at most half the size of the
/// screen.
proof fn lemma_screen_offset_fits(position: int, size: int, width: int)
    requires
        -width <= position < width,
        -0x8000_0000_0000_0000 <= size < 0x8000_0000_0000_0000,
        0 < width <= 0xffff_ffff_ffff_ffff,
    ensures
        magnitude(position * size) < 0x7fff_ffff_ffff_ffff_ffff_ffff_ffff_ffff,
        magnitude(quotient(position * size, 2 * width)) <= 0x4000_0000_0000_0000,
{
    let m = magnitude(position * size);
    assert(m <= width * 0x8000_0000_0000_0000 && m < 0x7fff_ffff_ffff_ffff_ffff_ffff_ffff_ffff)
        by (nonlinear_arith)
        requires
            m == magnitude(position * size),
            -width <= position < width,
            -0x8000_0000_0000_0000 <= size < 0x8000_0000_0000_0000,
            0 < width <= 0xffff_ffff_ffff_ffff,
    ;
    assert(m / (2 * width) <= 0x4000_0000_0000_0000) by (nonlinear_arith)
        requires
            0 <= m <= width * 0x8000_0000_0000_0000,
            0 < width,
    ;
}

/// A share of at most the whole of a number is no larger than the number.
proof fn lemma_ratio_of_share(value: int, share: int, bound: int)
    requires
        magnitude(value) <= bound,
        -UNIT <= share <= UNIT,
    ensures
        magnitude(ratio(value, share, UNIT as int)) <= bound,
{
    let m = magnitude(value * share);
    assert(m <= bound * UNIT) by (nonlinear_arith)
        requires
            m == magnitude(value * share),
            magnitude(value) <= bound,
            -UNIT <= share <= UNIT,
            UNIT == 1_000_000,
    ;
    assert(m / (UNIT as int) <= bound) by (nonlinear_arith)
        requires
            0 <= m <= bound * UNIT,
            UNIT == 1_000_000,
    ;
}

} // verus!
