pub mod map;
pub mod player;

use vstd::prelude::*;
use crate::game::map::{Tile, TileMap, TilePosition};
use crate::game::player::Player;
use crate::utils::geometry::Angle;
use crate::utils::number::{saturate, saturated};
use crate::window::event::{Event, Keycode};

verus! {

/// Represents the state of our game's virtual world
pub struct Game {
    /// The map of our virtual world
    pub map: TileMap,
    /// The player of our virtual world
    pub player: Player,
}

/// How far a held key moves or turns the player in one tick.
pub struct Controls {
    /// The distance that the player moves, in millionths of a tile
    pub movement_speed: i64,
    /// The angle by which the player turns
    pub rotation_speed: Angle,
}

/// What is to be done at the end of a tick.
#[derive(Clone, Copy, Debug, PartialEq, Eq, Structural)]
pub enum Tick {
    /// The application should be terminated.
    Quit,
    /// The scene has to be drawn again.
    Refresh,
    /// Nothing has changed.
    Idle,
}

/// Where the player stands after turning by `step`.
pub open spec fn rotated(player: Player, step: Angle) -> Player {
    Player { position: player.position, direction: player.direction.sum(step) }
}

/// Where the player stands after a request to move by `distance` in the
/// viewing direction: on the point that lies there if its tile is empty, and
/// at the old place if it is a wall.
pub open spec fn walked(map: &TileMap, player: Player, distance: int) -> Player {
    let target = player.position.moved(distance, player.direction);
    if map.tile_under(target, player.direction) == Tile::Empty {
        Player { position: target, direction: player.direction }
    } else {
        player
    }
}

/// Where the player stands after one tick in which `keycode` is held: the
/// up and down keys move forward and backward, the right and left keys turn
/// by the rotation speed and against it. The way backward is as long as the
/// way forward, cut to what an `i64` holds.
pub open spec fn steered(
    map: &TileMap,
    player: Player,
    keycode: Keycode,
    controls: Controls,
) -> Player {
    match keycode {
        Keycode::Up => walked(map, player, controls.movement_speed as int),
        Keycode::Down => walked(map, player, saturated(-controls.movement_speed)),
        Keycode::Right => rotated(player, controls.rotation_speed),
        Keycode::Left => rotated(player, controls.rotation_speed.negated()),
    }
}

/// Where the player stands after one tick in which each of `keycodes` is
/// held, taken in their order.
pub open spec fn steered_by_all(
    map: &TileMap,
    player: Player,
    keycodes: Seq<Keycode>,
    controls: Controls,
) -> Player
    decreases keycodes.len(),
{
    if keycodes.len() == 0 {
        player
    } else {
        steered(
            map,
            steered_by_all(map, player, keycodes.drop_last(), controls),
            keycodes.last(),
            controls,
        )
    }
}

/// A request to move leaves the viewing direction as it is. Where it moves
/// the player, the player then stands on an empty tile; where a wall refuses
/// it, the same request is refused again.
pub proof fn lemma_walked(map: &TileMap, player: Player, distance: int)
    ensures
        walked(map, player, distance).direction == player.direction,
        walked(map, player, distance).position != player.position ==> map.tile_under(
            walked(map, player, distance).position,
            player.direction,
        ) == Tile::Empty,
        walked(map, player, distance).position == player.position ==> walked(
            map,
            walked(map, player, distance),
            distance,
        ) == walked(map, player, distance),
{
}

impl Game {
    /// Initializes a new game based on a given map and player.
    pub fn new(map: TileMap, player: Player) -> (game: Game)
        ensures
            game.map == map,
            game.player == player,
    {
        Game { map, player }
    }

    /// Rotates the player's viewing angle with the given angle.
    ///
    /// # Parameters:
    ///    - `step`: The angle the player should be rotated with.
    pub fn rotate_player(&mut self, step: &Angle)
        ensures
            final(self).map == old(self).map,
            final(self).player == rotated(old(self).player, *step),
    {
        self.player.direction = self.player.direction.plus(step);
    }

    /// Moves the player by the given distance in its current viewing direction. The player is
    /// not moved if it would collide with a wall.
    ///
    /// # Parameters:
    ///    - `distance`: The distance the player should be moved by.
    pub fn move_player(&mut self, distance: i64)
        ensures
            final(self).map == old(self).map,
            final(self).player == walked(&old(self).map, old(self).player, distance as int),
            final(self).player.position != old(self).player.position ==> final(self).map.tile_under(
                final(self).player.position,
                final(self).player.direction,
            ) == Tile::Empty,
    {
        let new_position = self.player.position.add(distance, &self.player.direction);
        match self.map.tile(&TilePosition::new(&new_position, &self.player.direction)) {
            Tile::Empty => {
                self.player.position = new_position
            },
            Tile::Wall(_) => {},
        }
    }

    /// Moves or turns the player as a key asks that is held during one tick.
    pub fn press(&mut self, keycode: Keycode, controls: &Controls)
        ensures
            final(self).map == old(self).map,
            final(self).player == steered(&old(self).map, old(self).player, keycode, *controls),
    {
        match keycode {
            // Arrow up/down: Move player forward/backwards
            Keycode::Up => {
                self.move_player(controls.movement_speed)
            },
            Keycode::Down => {
                self.move_player(saturate(-(controls.movement_speed as i128)))
            },
            // Arrow right/left: Rotate player
            Keycode::Right => {
                self.rotate_player(&controls.rotation_speed)
            },
            Keycode::Left => {
                self.rotate_player(&controls.rotation_speed.negate())
            },
        }
    }

    /// Takes the world through one tick: a request to quit ends the tick at once; else each
    /// held key moves or turns the player. The scene has to be drawn again on the first run,
    /// after a resize, and whenever a key was held.
    pub fn tick(
        &mut self,
        initial_run: bool,
        event: Option<Event>,
        pressed: &Vec<Keycode>,
        controls: &Controls,
    ) -> (tick: Tick)
        ensures
            final(self).map == old(self).map,
            event == Some(Event::Quit) ==> tick == Tick::Quit && final(self).player == old(
                self,
            ).player,
            event != Some(Event::Quit) ==> {
                &&& final(self).player == steered_by_all(
                    &old(self).map,
                    old(self).player,
                    pressed@,
                    *controls,
                )
                &&& tick == (if initial_run || event == Some(Event::Resize) || pressed@.len() > 0 {
                    Tick::Refresh
                } else {
                    Tick::Idle
                })
            },
    {
        let mut needs_refresh = initial_run;
        // Get pending UI events
        match event {
            None => {},
            Some(Event::Quit) => {
                return Tick::Quit;
            },
            Some(Event::Resize) => {
                needs_refresh = true;
            },
        }
        // Handle key presses
        for index in 0..pressed.len()
            invariant
                self.map == old(self).map,
                self.player == steered_by_all(
                    &old(self).map,
                    old(self).player,
                    pressed@.take(index as int),
                    *controls,
                ),
                needs_refresh == (initial_run || event == Some(Event::Resize) || index > 0),
        {
            needs_refresh = true;
            self.press(pressed[index], controls);
            assert(pressed@.take(index + 1).drop_last() =~= pressed@.take(index as int));
        }
        assert(pressed@.take(pressed@.len() as int) =~= pressed@);
        if needs_refresh {
            Tick::Refresh
        } else {
            Tick::Idle
        }
    }
}

} // verus!
