use vstd::prelude::*;
use crate::error::{IntErrorKind, ParseError};
use crate::text::{chars_of, decimal, digits_value, lemma_decimal_of_digits, lemma_digits_of_decimal, parse_u8, parse_u8_spec, push_char, push_decimal};

verus! {

/// An unbounded row-column pair representing a hypothetical location, which may or may not
/// be on the board, including locations with negative row or column values.
#[derive(Debug, Copy, Clone, PartialEq, Eq, Structural)]
pub struct Coords {
    pub row: i8,
    pub col: i8,
}

impl Coords {
    pub fn new(row: i8, col: i8) -> (r: Coords)
        ensures
            r.row == row,
            r.col == col,
    {
        Coords { row, col }
    }

    /// The coordinates of a tile.
    pub fn from_tile(t: Tile) -> (r: Coords)
        requires
            t.row <= 127,
            t.col <= 127,
        ensures
            r.row == t.row,
            r.col == t.col,
    {
        Coords { row: t.row as i8, col: t.col as i8 }
    }

    /// These coordinates moved by the given row and column offsets.
    pub fn offset(&self, delta: (i8, i8)) -> (r: Coords)
        requires
            i8::MIN <= self.row + delta.0 <= i8::MAX,
            i8::MIN <= self.col + delta.1 <= i8::MAX,
        ensures
            r.row == self.row + delta.0,
            r.col == self.col + delta.1,
    {
        Coords { row: self.row + delta.0, col: self.col + delta.1 }
    }
}

/// The location of a single tile on the board, ie, row and column. It refers to a location
/// only, and holds nothing of what stands there.
#[derive(Debug, Copy, Clone, PartialEq, Eq, Structural, Hash, PartialOrd, Ord)]
pub struct Tile {
    pub row: u8,
    pub col: u8,
}

/// A single axis of movement (vertical or horizontal).
#[derive(Debug, Copy, Clone, PartialEq, Eq, Structural)]
pub enum Axis {
    Vertical,
    Horizontal,
}

impl Axis {
    pub open spec fn other_spec(self) -> Axis {
        match self {
            Axis::Vertical => Axis::Horizontal,
            Axis::Horizontal => Axis::Vertical,
        }
    }

    /// The axis across this one.
    pub fn other(&self) -> (r: Axis)
        ensures
            r == self.other_spec(),
    {
        match self {
            Axis::Vertical => Axis::Horizontal,
            Axis::Horizontal => Axis::Vertical,
        }
    }
}

/// The position of a tile along an axis: its row for `Vertical`, its column for `Horizontal`.
pub open spec fn posn(t: Tile, axis: Axis) -> u8 {
    match axis {
        Axis::Vertical => t.row,
        Axis::Horizontal => t.col,
    }
}

/// The column letter of a column: `a` for the first.
pub open spec fn col_char(col: u8) -> char {
    ((col + 97) as u8) as char
}

/// Text notation of a tile: its column letter, then its 1-based row in decimal.
pub open spec fn tile_text(t: Tile) -> Seq<char> {
    seq![col_char(t.col)] + decimal((t.row + 1) as nat)
}

/// Reading a tile from text: a lower-case letter for the column, then a 1-based row.
pub open spec fn tile_parse(s: Seq<char>) -> Result<Tile, ParseError> {
    if s.len() == 0 {
        Err(ParseError::EmptyString)
    } else if !('a' <= s[0] <= 'z') {
        Err(ParseError::BadChar(s[0]))
    } else {
        match parse_u8_spec(s.drop_first()) {
            Err(k) => Err(ParseError::BadInt(k)),
            Ok(v) => if v == 0 {
                Err(ParseError::BadInt(IntErrorKind::Zero))
            } else {
                Ok(Tile { row: (v - 1) as u8, col: (s[0] as u32 - 97) as u8 })
            },
        }
    }
}

/// Read a tile from the characters `cs[lo..hi]`.
pub(crate) fn parse_tile(cs: &Vec<char>, lo: usize, hi: usize) -> (r: Result<Tile, ParseError>)
    requires
        lo <= hi <= cs@.len(),
    ensures
        r == tile_parse(cs@.subrange(lo as int, hi as int)),
{
    let ghost s = cs@.subrange(lo as int, hi as int);
    if lo == hi {
        return Err(ParseError::EmptyString);
    }
    let c = cs[lo];
    if c < 'a' || c > 'z' {
        return Err(ParseError::BadChar(c));
    }
    assert(cs@.subrange(lo + 1, hi as int) =~= s.drop_first());
    match parse_u8(cs, lo + 1, hi) {
        Err(k) => Err(ParseError::BadInt(k)),
        Ok(v) => {
            if v == 0 {
                Err(ParseError::BadInt(IntErrorKind::Zero))
            } else {
                Ok(Tile { row: v - 1, col: (c as u32 - 97) as u8 })
            }
        },
    }
}

impl Tile {
    /// Create a new `Tile` with the given row and column.
    pub fn new(row: u8, col: u8) -> (r: Tile)
        ensures
            r.row == row,
            r.col == col,
    {
        Tile { row, col }
    }

    /// The tile's position on the given axis, ie, the tile's row if `axis` is `Vertical` and
    /// its column if `axis` is `Horizontal`.
    pub fn posn_on_axis(&self, axis: Axis) -> (r: u8)
        ensures
            r == posn(*self, axis),
    {
        match axis {
            Axis::Vertical => self.row,
            Axis::Horizontal => self.col,
        }
    }

    /// The tile's row and column, as a pair.
    pub fn as_pair(&self) -> (r: (u8, u8))
        ensures
            r == (self.row, self.col),
    {
        (self.row, self.col)
    }

    /// Parse a tile from its text notation, such as `a8` for row 7, column 0.
    pub fn from_str(s: &str) -> (r: Result<Tile, ParseError>)
        ensures
            r == tile_parse(s@),
    {
        let cs = chars_of(s);
        let r = parse_tile(&cs, 0, cs.len());
        assert(cs@.subrange(0, cs@.len() as int) =~= s@);
        r
    }

    /// Append the text notation of this tile to `s`.
    pub(crate) fn write_to(&self, s: &mut String)
        requires
            self.col <= 158,
        ensures
            final(s)@ == old(s)@ + tile_text(*self),
    {
        push_char(s, (self.col + 97) as char);
        push_decimal(s, self.row as u16 + 1);
        assert(final(s)@ =~= old(s)@ + tile_text(*self));
    }

    /// The text notation of this tile: its column letter, then its 1-based row.
    pub fn to_string(&self) -> (r: String)
        requires
            self.col <= 158,
        ensures
            r@ == tile_text(*self),
    {
        let mut s = String::new();
        self.write_to(&mut s);
        assert(s@ =~= tile_text(*self));
        s
    }
}

/// Reading a tile from text and writing it back gives the same text, where the row is
/// written without sign or leading zero.
pub proof fn lemma_tile_text_round_trip(s: Seq<char>)
    requires
        tile_parse(s) is Ok,
        s.len() >= 2,
        s[1] != '+',
        s[1] != '0',
    ensures
        tile_text(tile_parse(s)->Ok_0) == s,
{
    let d = s.drop_first();
    assert(d[0] == s[1]);
    lemma_decimal_of_digits(d);
    let t = tile_parse(s)->Ok_0;
    assert(t.row + 1 == digits_value(d));
    assert(col_char(t.col) == s[0]);
    assert(s =~= seq![s[0]] + d);
}

/// Writing a tile whose column has a letter and whose row is at most 254 and reading the text
/// back gives the same tile.
pub proof fn lemma_tile_parse_of_text(t: Tile)
    requires
        t.col <= 25,
        t.row <= 254,
    ensures
        tile_parse(tile_text(t)) == Ok::<Tile, ParseError>(t),
{
    let s = tile_text(t);
    let d = decimal((t.row + 1) as nat);
    lemma_digits_of_decimal((t.row + 1) as nat);
    assert(s.drop_first() =~= d);
    assert(s[0] == col_char(t.col));
}

} // verus!
