use vstd::prelude::*;

verus! {

/// The two sides of a tafl game.
#[derive(Debug, Copy, Clone, PartialEq, Eq, Structural)]
pub enum Side {
    Attacker,
    Defender,
}

impl Side {
    pub open spec fn other_spec(self) -> Side {
        match self {
            Side::Attacker => Side::Defender,
            Side::Defender => Side::Attacker,
        }
    }

    /// Return the other side.
    pub fn other(&self) -> (r: Side)
        ensures
            r == self.other_spec(),
    {
        match self {
            Side::Attacker => Side::Defender,
            Side::Defender => Side::Attacker,
        }
    }
}

/// The different types of pieces that can occupy a board.
#[derive(Debug, Copy, Clone, PartialEq, Eq, Structural)]
pub enum PieceType {
    King,
    Soldier,
    Knight,
    Commander,
    Guard,
    Mercenary,
}

/// A piece belonging to a particular side.
#[derive(Debug, Copy, Clone, PartialEq, Eq, Structural)]
pub struct Piece {
    pub piece_type: PieceType,
    pub side: Side,
}

/// The position of a piece type within one side's byte of a `PieceSet`.
pub open spec fn type_index(t: PieceType) -> u16 {
    match t {
        PieceType::King => 0,
        PieceType::Soldier => 1,
        PieceType::Knight => 2,
        PieceType::Commander => 3,
        PieceType::Guard => 4,
        PieceType::Mercenary => 5,
    }
}

/// The bit of a `PieceSet` that stands for the given piece type on the given side.
pub open spec fn slot(t: PieceType, s: Side) -> u16 {
    (type_index(t) + if s == Side::Defender { 8u16 } else { 0u16 }) as u16
}

pub open spec fn slot_bit(t: PieceType, s: Side) -> u16 {
    1u16 << slot(t, s)
}

/// Single-character letter of a piece type, lower case.
pub open spec fn type_letter(t: PieceType) -> char {
    match t {
        PieceType::King => 'k',
        PieceType::Soldier => 't',
        PieceType::Knight => 'n',
        PieceType::Commander => 'c',
        PieceType::Guard => 'g',
        PieceType::Mercenary => 'm',
    }
}

pub open spec fn upper(c: char) -> char {
    ((c as u32) - 32) as char
}

/// The character of a piece: its type's letter, upper case for the defenders.
pub open spec fn piece_char(p: Piece) -> char {
    if p.side == Side::Attacker {
        type_letter(p.piece_type)
    } else {
        upper(type_letter(p.piece_type))
    }
}

proof fn lemma_upper_letter(t: PieceType)
    ensures
        'a' <= type_letter(t) <= 'z',
        'A' <= upper(type_letter(t)) <= 'Z',
        (upper(type_letter(t)) as u32) + 32 == type_letter(t) as u32,
{
}

fn type_index_exec(t: PieceType) -> (r: u16)
    ensures
        r == type_index(t),
{
    match t {
        PieceType::King => 0,
        PieceType::Soldier => 1,
        PieceType::Knight => 2,
        PieceType::Commander => 3,
        PieceType::Guard => 4,
        PieceType::Mercenary => 5,
    }
}

fn type_letter_exec(t: PieceType) -> (r: char)
    ensures
        r == type_letter(t),
{
    match t {
        PieceType::King => 'k',
        PieceType::Soldier => 't',
        PieceType::Knight => 'n',
        PieceType::Commander => 'c',
        PieceType::Guard => 'g',
        PieceType::Mercenary => 'm',
    }
}

fn letter_type(c: char) -> (r: Option<PieceType>)
    ensures
        r matches Some(t) ==> type_letter(t) == c,
        r is None ==> forall|t: PieceType| type_letter(t) != c,
{
    match c {
        'k' => Some(PieceType::King),
        't' => Some(PieceType::Soldier),
        'n' => Some(PieceType::Knight),
        'c' => Some(PieceType::Commander),
        'g' => Some(PieceType::Guard),
        'm' => Some(PieceType::Mercenary),
        _ => None,
    }
}

impl Piece {
    /// Create a new piece of the given type and side.
    pub fn new(piece_type: PieceType, side: Side) -> (r: Piece)
        ensures
            r.piece_type == piece_type,
            r.side == side,
    {
        Piece { piece_type, side }
    }

    /// Create a new king piece.
    pub fn king() -> (r: Piece)
        ensures
            r.piece_type == PieceType::King,
            r.side == Side::Defender,
    {
        Piece { piece_type: PieceType::King, side: Side::Defender }
    }

    /// Create a new attacking piece of the given type.
    pub fn attacker(piece_type: PieceType) -> (r: Piece)
        ensures
            r.piece_type == piece_type,
            r.side == Side::Attacker,
    {
        Piece { piece_type, side: Side::Attacker }
    }

    /// Create a new defending piece of the given type.
    pub fn defender(piece_type: PieceType) -> (r: Piece)
        ensures
            r.piece_type == piece_type,
            r.side == Side::Defender,
    {
        Piece { piece_type, side: Side::Defender }
    }

    /// A single-character representation of the piece: its type's letter, in upper case
    /// for a defender.
    pub fn to_char(&self) -> (r: char)
        ensures
            r == piece_char(*self),
    {
        let c = type_letter_exec(self.piece_type);
        match self.side {
            Side::Attacker => c,
            Side::Defender => ((c as u8) - 32) as char,
        }
    }

    /// Read a piece from its single-character representation. A character that is no
    /// piece's letter is refused with `BadChar`, lowered to lower case where it is an
    /// upper-case ASCII letter.
    pub fn from_char(c: char) -> (r: Result<Piece, crate::error::ParseError>)
        ensures
            r matches Ok(p) ==> piece_char(p) == c,
            r is Err <==> (forall|p: Piece| piece_char(p) != c),
            r matches Err(e) ==> e == crate::error::ParseError::BadChar(
                if 'A' <= c <= 'Z' { ((c as u32) + 32) as char } else { c },
            ),
    {
        if 'A' <= c && c <= 'Z' {
            let lower = ((c as u8) + 32) as char;
            match letter_type(lower) {
                Some(t) => {
                    assert(upper(lower) == c);
                    Ok(Piece { piece_type: t, side: Side::Defender })
                },
                None => {
                    assert forall|p: Piece| piece_char(p) != c by {
                        lemma_upper_letter(p.piece_type);
                        if p.side == Side::Defender {
                            assert(upper(type_letter(p.piece_type)) != c);
                        }
                    }
                    Err(crate::error::ParseError::BadChar(lower))
                },
            }
        } else {
            match letter_type(c) {
                Some(t) => Ok(Piece { piece_type: t, side: Side::Attacker }),
                None => {
                    assert forall|p: Piece| piece_char(p) != c by {
                        lemma_upper_letter(p.piece_type);
                    }
                    Err(crate::error::ParseError::BadChar(c))
                },
            }
        }
    }
}

/// A set of pieces, held as one bit per piece type and side.
#[derive(Debug, Copy, Clone)]
pub struct PieceSet(u16);

impl View for PieceSet {
    type V = Set<Piece>;

    closed spec fn view(&self) -> Set<Piece> {
        Set::new(|p: Piece| self.0 & slot_bit(p.piece_type, p.side) != 0)
    }
}

proof fn lemma_slot_bound(t: PieceType, s: Side)
    ensures
        slot(t, s) < 16,
{
}

proof fn lemma_slot_injective(p: Piece, q: Piece)
    ensures
        slot(p.piece_type, p.side) == slot(q.piece_type, q.side) <==> p == q,
{
}

proof fn lemma_set_bit(x: u16, a: u16, b: u16)
    requires
        a < 16,
        b < 16,
    ensures
        ((x | (1u16 << a)) & (1u16 << b) != 0) == ((x & (1u16 << b) != 0) || a == b),
        ((x & !(1u16 << a)) & (1u16 << b) != 0) == ((x & (1u16 << b) != 0) && a != b),
        (0u16 & (1u16 << b)) == 0,
        (0xffffu16 & (1u16 << b)) != 0,
{
    assert(((x | (1u16 << a)) & (1u16 << b) != 0) == ((x & (1u16 << b) != 0) || a == b))
        by (bit_vector)
        requires
            a < 16,
            b < 16,
    ;
    assert(((x & !(1u16 << a)) & (1u16 << b) != 0) == ((x & (1u16 << b) != 0) && a != b))
        by (bit_vector)
        requires
            a < 16,
            b < 16,
    ;
    assert((0u16 & (1u16 << b)) == 0) by (bit_vector);
    assert((0xffffu16 & (1u16 << b)) != 0) by (bit_vector)
        requires
            b < 16,
    ;
}

/// The set's bits after adding the piece `p`, as seen by the piece `q`.
proof fn lemma_with_piece(x: u16, p: Piece, q: Piece)
    ensures
        ((x | slot_bit(p.piece_type, p.side)) & slot_bit(q.piece_type, q.side) != 0) == ((x
            & slot_bit(q.piece_type, q.side) != 0) || p == q),
        ((x & !slot_bit(p.piece_type, p.side)) & slot_bit(q.piece_type, q.side) != 0) == ((x
            & slot_bit(q.piece_type, q.side) != 0) && p != q),
{
    lemma_slot_bound(p.piece_type, p.side);
    lemma_slot_bound(q.piece_type, q.side);
    lemma_slot_injective(p, q);
    lemma_set_bit(x, slot(p.piece_type, p.side), slot(q.piece_type, q.side));
}

fn mask_of(piece_type: PieceType, side: Side) -> (r: u16)
    ensures
        r == slot_bit(piece_type, side),
{
    let i = type_index_exec(piece_type);
    let s: u16 = match side {
        Side::Attacker => 0,
        Side::Defender => 8,
    };
    1u16 << (i + s)
}

impl PieceSet {
    /// The set whose bits are the given ones: bit `t` for the piece type of index `t` on the
    /// attacking side, bit `8 + t` on the defending side.
    pub fn from_bits(bits: u16) -> (r: PieceSet)
        ensures
            forall|p: Piece| r@.contains(p) <==> bits & slot_bit(p.piece_type, p.side) != 0,
    {
        PieceSet(bits)
    }

    /// Create a new empty `PieceSet`.
    pub fn none() -> (r: PieceSet)
        ensures
            r@ == Set::<Piece>::empty(),
    {
        let r = PieceSet(0);
        assert forall|p: Piece| !r@.contains(p) by {
            lemma_slot_bound(p.piece_type, p.side);
            lemma_set_bit(0, 0, slot(p.piece_type, p.side));
        }
        assert(r@ =~= Set::<Piece>::empty());
        r
    }

    /// Create a new `PieceSet` which includes all pieces on both sides.
    pub fn all() -> (r: PieceSet)
        ensures
            r@ == Set::<Piece>::full(),
    {
        let r = PieceSet(0xffff);
        assert forall|p: Piece| r@.contains(p) by {
            lemma_slot_bound(p.piece_type, p.side);
            lemma_set_bit(0, 0, slot(p.piece_type, p.side));
        }
        assert(r@ =~= Set::<Piece>::full());
        r
    }

    /// Create a new `PieceSet` which includes only the given piece type (on each side).
    pub fn from_piece_type(piece_type: PieceType) -> (r: PieceSet)
        ensures
            forall|p: Piece| r@.contains(p) <==> p.piece_type == piece_type,
    {
        let mut r = PieceSet::none();
        r.set_piece_type(piece_type);
        r
    }

    /// Create a new `PieceSet` containing the given piece types (on both sides).
    pub fn from_piece_types(piece_types: Vec<PieceType>) -> (r: PieceSet)
        ensures
            forall|p: Piece| r@.contains(p) <==> piece_types@.contains(p.piece_type),
    {
        let mut r = PieceSet::none();
        let mut i: usize = 0;
        while i < piece_types.len()
            invariant
                0 <= i <= piece_types.len(),
                forall|p: Piece|
                    r@.contains(p) <==> piece_types@.subrange(0, i as int).contains(p.piece_type),
            decreases piece_types.len() - i,
        {
            let t = piece_types[i];
            r.set_piece_type(t);
            assert forall|p: Piece|
                r@.contains(p) <==> piece_types@.subrange(0, i + 1).contains(p.piece_type) by {
                let prefix = piece_types@.subrange(0, i as int);
                assert(piece_types@.subrange(0, i + 1) =~= prefix.push(t));
                if prefix.contains(p.piece_type) {
                    let k = choose|k: int| 0 <= k < prefix.len() && prefix[k] == p.piece_type;
                    assert(prefix.push(t)[k] == p.piece_type);
                }
                if prefix.push(t).contains(p.piece_type) && p.piece_type != t {
                    let k = choose|k: int|
                        0 <= k < prefix.len() + 1 && prefix.push(t)[k] == p.piece_type;
                    assert(prefix[k] == p.piece_type);
                }
                if p.piece_type == t {
                    assert(prefix.push(t)[i as int] == t);
                }
            }
            i = i + 1;
        }
        assert(piece_types@.subrange(0, i as int) =~= piece_types@);
        r
    }

    /// Add the given piece to the set.
    pub fn set_piece(&mut self, piece: Piece)
        ensures
            final(self)@ == old(self)@.insert(piece),
    {
        let ghost x = self.0;
        self.0 = self.0 | mask_of(piece.piece_type, piece.side);
        assert forall|q: Piece| #[trigger] self@.contains(q) == old(self)@.insert(piece).contains(q) by {
            lemma_with_piece(x, piece, q);
        }
        assert(self@ =~= old(self)@.insert(piece));
    }

    /// Add the given piece type (both sides) to the set.
    pub fn set_piece_type(&mut self, piece_type: PieceType)
        ensures
            forall|p: Piece|
                final(self)@.contains(p) <==> (old(self)@.contains(p) || p.piece_type == piece_type),
    {
        self.set_piece(Piece { piece_type, side: Side::Attacker });
        self.set_piece(Piece { piece_type, side: Side::Defender });
    }

    /// Remove the given piece from the set.
    pub fn unset_piece(&mut self, piece: Piece)
        ensures
            final(self)@ == old(self)@.remove(piece),
    {
        let ghost x = self.0;
        self.0 = self.0 & !mask_of(piece.piece_type, piece.side);
        assert forall|q: Piece| #[trigger] self@.contains(q) == old(self)@.remove(piece).contains(q) by {
            lemma_with_piece(x, piece, q);
        }
        assert(self@ =~= old(self)@.remove(piece));
    }

    /// Remove the given piece type (both sides) from the set.
    pub fn unset_piece_type(&mut self, piece_type: PieceType)
        ensures
            forall|p: Piece|
                final(self)@.contains(p) <==> (old(self)@.contains(p) && p.piece_type != piece_type),
    {
        self.unset_piece(Piece { piece_type, side: Side::Attacker });
        self.unset_piece(Piece { piece_type, side: Side::Defender });
    }

    /// Check whether the set contains the given piece.
    pub fn contains(&self, piece: Piece) -> (r: bool)
        ensures
            r == self@.contains(piece),
    {
        self.0 & mask_of(piece.piece_type, piece.side) != 0
    }
}

} // verus!
