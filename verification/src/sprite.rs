//! Glyphs of the sprites that entities are drawn with.
use vstd::prelude::*;
use crate::geom::Direction;

verus! {

/// The code page 437 glyph the terminal library draws for a character (0 for a
/// character the code page lacks).
pub uninterp spec fn cp437(c: char) -> u16;

/// Calls `rltk::to_cp437`, a fixed table from characters to code page 437
/// glyphs. Claimed: the result is [`cp437`] of the character, a function of the
/// character alone; the table itself is left to the library.
#[verifier::external_body]
fn to_cp437(c: char) -> (r: u16)
    ensures
        r == cp437(c),
{
    rltk::to_cp437(c)
}

#[derive(Clone, Copy, PartialEq, Eq, Structural, Debug)]
pub enum Sprite {
    Human,
    Tank,
}

/// The character a human is drawn with when facing `d`: the numpad digit of
/// that direction.
pub open spec fn spec_human_char(d: Direction) -> char {
    match d {
        Direction::Up => '8',
        Direction::UpRight => '9',
        Direction::Right => '6',
        Direction::DownRight => '3',
        Direction::Down => '2',
        Direction::DownLeft => '1',
        Direction::Left => '4',
        Direction::UpLeft => '7',
    }
}

/// The nine characters of the 3 by 3 tank sprite facing `d`, row by row.
pub open spec fn spec_tank_chars(d: Direction) -> Seq<char> {
    match d {
        Direction::Up => seq!['╒', '│', '╕', '╞', '█', '╡', '╘', '═', '╛'],
        Direction::UpRight => seq!['┌', '/', '/', '/', '█', '/', '\\', '/', '┘'],
        Direction::Right => seq!['╓', '╥', '╖', '║', '█', '─', '╙', '╨', '╜'],
        Direction::DownRight => seq!['/', '\\', '┐', '\\', '█', '\\', '└', '\\', '\\'],
        Direction::Down => seq!['╒', '═', '╕', '╞', '█', '╡', '╘', '│', '╛'],
        Direction::DownLeft => seq!['┌', '/', '\\', '/', '█', '/', '/', '/', '┘'],
        Direction::Left => seq!['╓', '╥', '╖', '─', '█', '║', '╙', '╨', '╜'],
        Direction::UpLeft => seq!['\\', '\\', '┐', '\\', '█', '\\', '└', '\\', '/'],
    }
}

pub open spec fn spec_tank_sheet(d: Direction) -> Seq<u16> {
    Seq::new(9, |i: int| cp437(spec_tank_chars(d)[i]))
}

/// The glyph of a sprite facing `facing`; `index` picks the tile of a
/// multi-tile sprite (0 to 8, row by row) and is ignored for a human.
pub open spec fn spec_glyph(s: Sprite, facing: Direction, index: u32) -> u16 {
    match s {
        Sprite::Human => cp437(spec_human_char(facing)),
        Sprite::Tank => if index > 8 {
            cp437('?')
        } else {
            spec_tank_sheet(facing)[index as int]
        },
    }
}

/// Tile `index` of the tank sprite facing `facing`: the sheet entry for
/// indices 0 to 8, the code page glyph of `?` past the sheet.
pub open spec fn spec_tank_sprite(index: u32, facing: Direction) -> u16 {
    if index > 8 {
        cp437('?')
    } else {
        spec_tank_sheet(facing)[index as int]
    }
}

impl Sprite {
    /// The glyph to draw for tile `index` of this sprite facing `facing`.
    pub fn glyph(&self, facing: Direction, index: u32) -> (r: u16)
        ensures
            r == spec_glyph(*self, facing, index),
    {
        match self {
            Sprite::Human => self.human_sprite(facing),
            Sprite::Tank => self.tank_sprite(index, facing),
        }
    }

    fn human_sprite(&self, facing: Direction) -> (r: u16)
        ensures
            r == cp437(spec_human_char(facing)),
    {
        match facing {
            Direction::Up => to_cp437('8'),
            Direction::UpRight => to_cp437('9'),
            Direction::Right => to_cp437('6'),
            Direction::DownRight => to_cp437('3'),
            Direction::Down => to_cp437('2'),
            Direction::DownLeft => to_cp437('1'),
            Direction::Left => to_cp437('4'),
            Direction::UpLeft => to_cp437('7'),
        }
    }

    /// The glyph of tile `index` of the tank sprite facing `facing`.
    pub fn tank_sprite(&self, index: u32, facing: Direction) -> (r: u16)
        ensures
            r == spec_tank_sprite(index, facing),
    {
        if index > 8 {
            return to_cp437('?');
        }
        let sheet = self.tank_sprite_sheet(facing);
        sheet[index as usize]
    }

    /// The nine glyphs of the tank sprite facing `facing`, row by row.
    pub fn tank_sprite_sheet(&self, facing: Direction) -> (r: [u16; 9])
        ensures
            r@ == spec_tank_sheet(facing),
    {
        let r = match facing {
            Direction::Up => {
                [
                    to_cp437('╒'),
                    to_cp437('│'),
                    to_cp437('╕'),
                    to_cp437('╞'),
                    to_cp437('█'),
                    to_cp437('╡'),
                    to_cp437('╘'),
                    to_cp437('═'),
                    to_cp437('╛'),
                ]
            },
            Direction::UpRight => {
                [
                    to_cp437('┌'),
                    to_cp437('/'),
                    to_cp437('/'),
                    to_cp437('/'),
                    to_cp437('█'),
                    to_cp437('/'),
                    to_cp437('\\'),
                    to_cp437('/'),
                    to_cp437('┘'),
                ]
            },
            Direction::Right => {
                [
                    to_cp437('╓'),
                    to_cp437('╥'),
                    to_cp437('╖'),
                    to_cp437('║'),
                    to_cp437('█'),
                    to_cp437('─'),
                    to_cp437('╙'),
                    to_cp437('╨'),
                    to_cp437('╜'),
                ]
            },
            Direction::DownRight => {
                [
                    to_cp437('/'),
                    to_cp437('\\'),
                    to_cp437('┐'),
                    to_cp437('\\'),
                    to_cp437('█'),
                    to_cp437('\\'),
                    to_cp437('└'),
                    to_cp437('\\'),
                    to_cp437('\\'),
                ]
            },
            Direction::Down => {
                [
                    to_cp437('╒'),
                    to_cp437('═'),
                    to_cp437('╕'),
                    to_cp437('╞'),
                    to_cp437('█'),
                    to_cp437('╡'),
                    to_cp437('╘'),
                    to_cp437('│'),
                    to_cp437('╛'),
                ]
            },
            Direction::DownLeft => {
                [
                    to_cp437('┌'),
                    to_cp437('/'),
                    to_cp437('\\'),
                    to_cp437('/'),
                    to_cp437('█'),
                    to_cp437('/'),
                    to_cp437('/'),
                    to_cp437('/'),
                    to_cp437('┘'),
                ]
            },
            Direction::Left => {
                [
                    to_cp437('╓'),
                    to_cp437('╥'),
                    to_cp437('╖'),
                    to_cp437('─'),
                    to_cp437('█'),
                    to_cp437('║'),
                    to_cp437('╙'),
                    to_cp437('╨'),
                    to_cp437('╜'),
                ]
            },
            Direction::UpLeft => {
                [
                    to_cp437('\\'),
                    to_cp437('\\'),
                    to_cp437('┐'),
                    to_cp437('\\'),
                    to_cp437('█'),
                    to_cp437('\\'),
                    to_cp437('└'),
                    to_cp437('\\'),
                    to_cp437('/'),
                ]
            },
        };
        assert(r@ =~= spec_tank_sheet(facing));
        r
    }
}

/// A tank tile's glyph is its tank sprite tile, for every index and facing:
/// the sheet entry at the index for indices 0 to 8, the code page glyph of
/// `?` past the sheet; no index falls outside the sheet.
pub proof fn law_tank_glyph(facing: Direction, index: u32)
    ensures
        spec_glyph(Sprite::Tank, facing, index) == spec_tank_sprite(index, facing),
        index <= 8 ==> spec_tank_sprite(index, facing) == cp437(spec_tank_chars(facing)[index as int]),
        index > 8 ==> spec_tank_sprite(index, facing) == cp437('?'),
        spec_tank_sheet(facing).len() == 9,
{
}

} // verus!
