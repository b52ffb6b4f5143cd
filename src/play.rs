use vstd::prelude::*;
use crate::error::{ParseError, PlayError};
use crate::text::{chars_of, push_char};
use crate::text::{decimal, is_digit, lemma_digits_of_decimal};
use crate::tiles::{lemma_tile_parse_of_text, parse_tile, posn, tile_parse, tile_text, Axis, Tile};

verus! {

/// A single straight-line move: the tile it starts from, the axis it moves along and the
/// signed number of tiles it moves.
#[derive(Debug, Copy, Clone, PartialEq, Eq, Structural)]
pub struct Play {
    pub from: Tile,
    pub axis: Axis,
    pub displacement: i16,
}

/// Two distinct tiles that share a row or a column.
pub open spec fn collinear(from: Tile, to: Tile) -> bool {
    (from.row == to.row) != (from.col == to.col)
}

/// The play that moves from `from` to `to`, for collinear tiles.
pub open spec fn play_between(from: Tile, to: Tile) -> Play {
    let axis = if from.row == to.row {
        Axis::Horizontal
    } else {
        Axis::Vertical
    };
    Play { from, axis, displacement: (posn(to, axis) - posn(from, axis)) as i16 }
}

pub open spec fn abs(x: int) -> int {
    if x < 0 {
        -x
    } else {
        x
    }
}

/// The number of `-` characters in a text.
pub open spec fn dash_count(s: Seq<char>) -> nat
    decreases s.len(),
{
    if s.len() == 0 {
        0
    } else {
        dash_count(s.drop_last()) + if s.last() == '-' {
            1nat
        } else {
            0nat
        }
    }
}

/// Reading a play from the text on each side of its `-`.
pub open spec fn play_parse_parts(left: Seq<char>, right: Seq<char>) -> Result<Play, ParseError> {
    match tile_parse(left) {
        Err(e) => Err(e),
        Ok(a) => match tile_parse(right) {
            Err(e) => Err(e),
            Ok(b) => if collinear(a, b) {
                Ok(play_between(a, b))
            } else {
                Err(ParseError::BadPlay(PlayError::DisjointTiles))
            },
        },
    }
}

impl Play {
    /// A play moves at least one tile and ends on a tile that a `u8` row and column can name.
    pub open spec fn wf(&self) -> bool {
        &&& self.displacement != 0
        &&& 0 <= posn(self.from, self.axis) + self.displacement <= 255
    }

    /// The tile on which the play ends.
    pub open spec fn dest(&self) -> Tile {
        match self.axis {
            Axis::Vertical => Tile {
                row: (self.from.row + self.displacement) as u8,
                col: self.from.col,
            },
            Axis::Horizontal => Tile {
                row: self.from.row,
                col: (self.from.col + self.displacement) as u8,
            },
        }
    }

    /// Create the play that moves from `from` to `to`. The two tiles must share exactly one
    /// coordinate, else the play is refused with `DisjointTiles`.
    pub fn from_tiles(from: Tile, to: Tile) -> (r: Result<Play, PlayError>)
        ensures
            collinear(from, to) ==> r == Ok::<Play, PlayError>(play_between(from, to)),
            !collinear(from, to) ==> r == Err::<Play, PlayError>(PlayError::DisjointTiles),
            r matches Ok(p) ==> p.wf() && p.dest() == to,
    {
        if from.row == to.row && from.col != to.col {
            Ok(Play {
                from,
                axis: Axis::Horizontal,
                displacement: to.col as i16 - from.col as i16,
            })
        } else if from.col == to.col && from.row != to.row {
            Ok(Play { from, axis: Axis::Vertical, displacement: to.row as i16 - from.row as i16 })
        } else {
            Err(PlayError::DisjointTiles)
        }
    }

    /// The tile on which the play ends.
    pub fn to(&self) -> (r: Tile)
        requires
            self.wf(),
        ensures
            r == self.dest(),
    {
        match self.axis {
            Axis::Vertical => Tile {
                row: (self.from.row as i16 + self.displacement) as u8,
                col: self.from.col,
            },
            Axis::Horizontal => Tile {
                row: self.from.row,
                col: (self.from.col as i16 + self.displacement) as u8,
            },
        }
    }

    /// The number of tiles the play moves.
    pub fn distance(&self) -> (r: u8)
        requires
            self.wf(),
        ensures
            r == abs(self.displacement as int),
    {
        if self.displacement < 0 {
            (-self.displacement) as u8
        } else {
            self.displacement as u8
        }
    }

    /// Parse a play from its text notation `<from>-<to>`, such as `a8-a11`. Text that does
    /// not hold exactly one `-` is refused with `BadString`; an error in reading either tile
    /// is passed on; tiles that are not collinear are refused with `BadPlay`.
    pub fn from_str(s: &str) -> (r: Result<Play, ParseError>)
        ensures
            dash_count(s@) != 1 ==> (r matches Err(ParseError::BadString(x)) && x@ == s@),
            forall|k: int|
                0 <= k < s@.len() && s@[k] == '-' && dash_count(s@) == 1 ==> r == play_parse_parts(
                    s@.subrange(0, k),
                    s@.subrange(k + 1, s@.len() as int),
                ),
    {
        let cs = chars_of(s);
        let n = cs.len();
        let mut dashes: usize = 0;
        let mut first: usize = 0;
        let mut i: usize = 0;
        while i < n
            invariant
                n == cs@.len(),
                cs@ == s@,
                0 <= i <= n,
                dashes <= i,
                dashes == dash_count(cs@.subrange(0, i as int)),
                dashes >= 1 ==> first < i && cs@[first as int] == '-',
            decreases n - i,
        {
            assert(cs@.subrange(0, i + 1).drop_last() =~= cs@.subrange(0, i as int));
            if cs[i] == '-' {
                if dashes == 0 {
                    first = i;
                }
                dashes = dashes + 1;
            }
            i = i + 1;
        }
        assert(cs@.subrange(0, n as int) =~= s@);
        if dashes != 1 {
            return Err(ParseError::BadString(s.to_owned()));
        }
        assert forall|k: int| 0 <= k < s@.len() && s@[k] == '-' implies k == first by {
            if k < first {
                lemma_two_dashes(s@, k, first as int);
            } else if k > first {
                lemma_two_dashes(s@, first as int, k);
            }
        }
        let a = match parse_tile(&cs, 0, first) {
            Ok(a) => a,
            Err(e) => return Err(e),
        };
        let b = match parse_tile(&cs, first + 1, n) {
            Ok(b) => b,
            Err(e) => return Err(e),
        };
        match Play::from_tiles(a, b) {
            Ok(p) => Ok(p),
            Err(e) => Err(ParseError::BadPlay(e)),
        }
    }

    /// Append the text notation of this play to `s`.
    fn write_to(&self, s: &mut String)
        requires
            self.wf(),
            self.from.col <= 158,
            self.dest().col <= 158,
        ensures
            final(s)@ == old(s)@ + play_text(*self),
    {
        self.from.write_to(s);
        push_char(s, '-');
        self.to().write_to(s);
        assert(final(s)@ =~= old(s)@ + play_text(*self));
    }

    /// The text notation of this play: `<from>-<to>`.
    pub fn to_string(&self) -> (r: String)
        requires
            self.wf(),
            self.from.col <= 158,
            self.dest().col <= 158,
        ensures
            r@ == play_text(*self),
    {
        let mut s = String::new();
        self.write_to(&mut s);
        assert(s@ =~= play_text(*self));
        s
    }
}

/// Text notation of a play: its origin, a `-`, and its destination.
pub open spec fn play_text(p: Play) -> Seq<char> {
    tile_text(p.from) + seq!['-'] + tile_text(p.dest())
}

proof fn lemma_one_dash(s: Seq<char>, a: int)
    requires
        0 <= a < s.len(),
        s[a] == '-',
    ensures
        dash_count(s) >= 1,
    decreases s.len(),
{
    if a < s.len() - 1 {
        lemma_one_dash(s.drop_last(), a);
    }
}

proof fn lemma_two_dashes(s: Seq<char>, a: int, b: int)
    requires
        0 <= a < b < s.len(),
        s[a] == '-',
        s[b] == '-',
    ensures
        dash_count(s) >= 2,
    decreases s.len(),
{
    if b == s.len() - 1 {
        lemma_one_dash(s.drop_last(), a);
    } else {
        lemma_two_dashes(s.drop_last(), a, b);
    }
}

/// A play made from two collinear tiles ends on the second of them and moves as many tiles
/// as its displacement says, in absolute value.
pub proof fn lemma_play_between(from: Tile, to: Tile)
    requires
        collinear(from, to),
    ensures
        play_between(from, to).wf(),
        play_between(from, to).dest() == to,
        play_between(from, to).from == from,
        abs(play_between(from, to).displacement as int) > 0,
{
}

proof fn lemma_dash_count_concat(a: Seq<char>, b: Seq<char>)
    ensures
        dash_count(a + b) == dash_count(a) + dash_count(b),
    decreases b.len(),
{
    if b.len() == 0 {
        assert(a + b =~= a);
    } else {
        assert((a + b).drop_last() =~= a + b.drop_last());
        assert((a + b).last() == b.last());
        lemma_dash_count_concat(a, b.drop_last());
    }
}

proof fn lemma_no_dash(s: Seq<char>)
    requires
        forall|i: int| 0 <= i < s.len() ==> s[i] != '-',
    ensures
        dash_count(s) == 0,
    decreases s.len(),
{
    if s.len() > 0 {
        assert(forall|i: int| 0 <= i < s.len() - 1 ==> s.drop_last()[i] == s[i]);
        lemma_no_dash(s.drop_last());
    }
}

proof fn lemma_tile_text_no_dash(t: Tile)
    requires
        t.col <= 25,
    ensures
        dash_count(tile_text(t)) == 0,
{
    let d = decimal((t.row + 1) as nat);
    lemma_digits_of_decimal((t.row + 1) as nat);
    assert forall|i: int| 0 <= i < tile_text(t).len() implies tile_text(t)[i] != '-' by {
        if i > 0 {
            assert(tile_text(t)[i] == d[i - 1]);
            assert(is_digit(d[i - 1]));
        }
    }
    lemma_no_dash(tile_text(t));
}

/// Writing a play whose tiles have column letters and rows of at most 254, and reading the
/// text back, gives the same play: the text holds one `-`, and the parts on either side of it
/// read as the play.
pub proof fn lemma_play_text_round_trip(p: Play)
    requires
        p.wf(),
        p.from.col <= 25,
        p.from.row <= 254,
        p.dest().col <= 25,
        p.dest().row <= 254,
    ensures
        dash_count(play_text(p)) == 1,
        play_text(p)[tile_text(p.from).len() as int] == '-',
        play_parse_parts(
            play_text(p).subrange(0, tile_text(p.from).len() as int),
            play_text(p).subrange(tile_text(p.from).len() as int + 1, play_text(p).len() as int),
        ) == Ok::<Play, ParseError>(p),
{
    let a = tile_text(p.from);
    let b = tile_text(p.dest());
    let s = play_text(p);
    lemma_tile_text_no_dash(p.from);
    lemma_tile_text_no_dash(p.dest());
    lemma_dash_count_concat(a + seq!['-'], b);
    lemma_dash_count_concat(a, seq!['-']);
    assert(dash_count(seq!['-']) == 1) by {
        let one = seq!['-'];
        assert(one.drop_last() =~= Seq::<char>::empty());
        assert(dash_count(one.drop_last()) == 0);
        assert(one.last() == '-');
    }
    assert(s.subrange(0, a.len() as int) =~= a);
    assert(s.subrange(a.len() as int + 1, s.len() as int) =~= b);
    lemma_tile_parse_of_text(p.from);
    lemma_tile_parse_of_text(p.dest());
}

} // verus!
