//! Themes: which glyph of the console font stands for a tile.

use vstd::prelude::*;
use crate::map::TileType;

verus! {

/// The number that `bracket_lib::terminal::to_cp437` gives for a character:
/// its place in code page 437.
pub uninterp spec fn cp437(c: char) -> u16;

/// `bracket_lib::terminal::to_cp437`: the glyph number of a character. The
/// outside function is a table; for the characters from the space to the
/// tilde the table holds their ASCII codes.
#[verifier::external_body]
pub(crate) fn to_glyph(c: char) -> (glyph: u16)
    ensures
        glyph == cp437(c),
        ' ' <= c <= '~' ==> glyph == c as u32,
{
    bracket_lib::terminal::to_cp437(c)
}

/// The character that the dungeon theme shows for a tile.
pub open spec fn dungeon_symbol(tile: TileType) -> char {
    match tile {
        TileType::Floor => '.',
        TileType::Wall => '#',
        TileType::Exit => '>',
    }
}

/// The character that the forest theme shows for a tile.
pub open spec fn forest_symbol(tile: TileType) -> char {
    match tile {
        TileType::Floor => ';',
        TileType::Wall => '"',
        TileType::Exit => '>',
    }
}

/// A theme maps each tile to a glyph of the console font.
pub trait MapTheme {
    /// The character that the theme shows for a tile.
    spec fn symbol_of(&self, tile: TileType) -> char;

    /// The glyph that the theme shows for a tile.
    fn tile_to_render(&self, tile: TileType) -> (glyph: u16)
        ensures
            glyph == cp437(self.symbol_of(tile)),
            ' ' <= self.symbol_of(tile) <= '~' ==> glyph == self.symbol_of(tile) as u32,
    ;
}

/// Stone floors and walls.
#[derive(Clone, Copy, Debug, PartialEq, Eq, Structural)]
pub struct DungeonTheme {}

/// Grass and trees.
#[derive(Clone, Copy, Debug, PartialEq, Eq, Structural)]
pub struct ForestTheme {}

/// The theme of a generated level, chosen once when the level is built.
#[derive(Clone, Copy, Debug, PartialEq, Eq, Structural)]
pub enum Theme {
    Dungeon(DungeonTheme),
    Forest(ForestTheme),
}

impl DungeonTheme {
    pub fn new() -> (theme: Theme)
        ensures
            theme == Theme::Dungeon(DungeonTheme {  }),
    {
        Theme::Dungeon(DungeonTheme {  })
    }

    /// The character that the dungeon theme shows for a tile.
    pub fn symbol(tile: TileType) -> (c: char)
        ensures
            c == dungeon_symbol(tile),
    {
        match tile {
            TileType::Floor => '.',
            TileType::Wall => '#',
            TileType::Exit => '>',
        }
    }
}

impl MapTheme for DungeonTheme {
    open spec fn symbol_of(&self, tile: TileType) -> char {
        dungeon_symbol(tile)
    }

    fn tile_to_render(&self, tile: TileType) -> (glyph: u16)
        ensures
            glyph == match tile {
                TileType::Floor => 46u16,
                TileType::Wall => 35u16,
                TileType::Exit => 62u16,
            },
    {
        to_glyph(DungeonTheme::symbol(tile))
    }
}

impl ForestTheme {
    pub fn new() -> (theme: Theme)
        ensures
            theme == Theme::Forest(ForestTheme {  }),
    {
        Theme::Forest(ForestTheme {  })
    }

    /// The character that the forest theme shows for a tile.
    pub fn symbol(tile: TileType) -> (c: char)
        ensures
            c == forest_symbol(tile),
    {
        match tile {
            TileType::Floor => ';',
            TileType::Wall => '"',
            TileType::Exit => '>',
        }
    }
}

impl MapTheme for ForestTheme {
    open spec fn symbol_of(&self, tile: TileType) -> char {
        forest_symbol(tile)
    }

    fn tile_to_render(&self, tile: TileType) -> (glyph: u16)
        ensures
            glyph == match tile {
                TileType::Floor => 59u16,
                TileType::Wall => 34u16,
                TileType::Exit => 62u16,
            },
    {
        to_glyph(ForestTheme::symbol(tile))
    }
}

impl MapTheme for Theme {
    open spec fn symbol_of(&self, tile: TileType) -> char {
        match self {
            Theme::Dungeon(_) => dungeon_symbol(tile),
            Theme::Forest(_) => forest_symbol(tile),
        }
    }

    fn tile_to_render(&self, tile: TileType) -> (glyph: u16) {
        match self {
            Theme::Dungeon(theme) => theme.tile_to_render(tile),
            Theme::Forest(theme) => theme.tile_to_render(tile),
        }
    }
}

} // verus!
