use tafl::{ParseError, Piece, PieceSet, PieceType, Side};
use tafl::PieceType::{Commander, Guard, King, Knight, Mercenary, Soldier};
use tafl::Side::{Attacker, Defender};

#[test]
fn test_piece_set() {
    let mut ps = PieceSet::from_piece_types(vec![King, Soldier, Guard]);
    for s in [Attacker, Defender] {
        assert!(ps.contains(Piece::new(King, s)));
        assert!(ps.contains(Piece::new(Soldier, s)));
        assert!(ps.contains(Piece::new(Guard, s)));
        assert!(!ps.contains(Piece::new(Commander, s)));
        assert!(!ps.contains(Piece::new(Knight, s)));
        assert!(!ps.contains(Piece::new(Mercenary, s)));
    }

    ps.unset_piece(Piece::new(King, Attacker));
    assert!(ps.contains(Piece::new(King, Defender)));
    assert!(!ps.contains(Piece::new(King, Attacker)));
    for s in [Attacker, Defender] {
        assert!(ps.contains(Piece::new(Soldier, s)));
        assert!(ps.contains(Piece::new(Guard, s)));
        assert!(!ps.contains(Piece::new(Commander, s)));
        assert!(!ps.contains(Piece::new(Knight, s)));
        assert!(!ps.contains(Piece::new(Mercenary, s)));
    }

    ps.set_piece(Piece::new(Commander, Defender));
    assert!(ps.contains(Piece::new(Commander, Defender)));
    assert!(!ps.contains(Piece::new(Commander, Attacker)));
    assert!(ps.contains(Piece::new(King, Defender)));
    assert!(!ps.contains(Piece::new(King, Attacker)));
    for s in [Attacker, Defender] {
        assert!(ps.contains(Piece::new(Soldier, s)));
        assert!(ps.contains(Piece::new(Guard, s)));
        assert!(!ps.contains(Piece::new(Knight, s)));
        assert!(!ps.contains(Piece::new(Mercenary, s)));
    }
}

const ALL_TYPES: [PieceType; 6] = [King, Soldier, Knight, Commander, Guard, Mercenary];

#[test]
fn piece_set_none_all_and_types() {
    let none = PieceSet::none();
    let all = PieceSet::all();
    let mut one = PieceSet::from_piece_type(Knight);
    for t in ALL_TYPES {
        for s in [Attacker, Defender] {
            assert!(!none.contains(Piece::new(t, s)));
            assert!(all.contains(Piece::new(t, s)));
            assert_eq!(one.contains(Piece::new(t, s)), t == Knight);
        }
    }
    one.set_piece_type(Mercenary);
    one.unset_piece_type(Knight);
    for t in ALL_TYPES {
        for s in [Attacker, Defender] {
            assert_eq!(one.contains(Piece::new(t, s)), t == Mercenary);
        }
    }
    assert!(!PieceSet::from_piece_types(vec![]).contains(Piece::king()));
}

#[test]
fn piece_constructors_and_sides() {
    assert_eq!(Piece::king(), Piece::new(King, Defender));
    assert_eq!(Piece::attacker(Soldier), Piece::new(Soldier, Attacker));
    assert_eq!(Piece::defender(Guard), Piece::new(Guard, Defender));
    assert_eq!(Side::Attacker.other(), Side::Defender);
    assert_eq!(Side::Defender.other(), Side::Attacker);
}

#[test]
fn piece_characters() {
    assert_eq!(Piece::king().to_char(), 'K');
    assert_eq!(Piece::attacker(Soldier).to_char(), 't');
    assert_eq!(Piece::defender(Mercenary).to_char(), 'M');
    for t in ALL_TYPES {
        for s in [Attacker, Defender] {
            let p = Piece::new(t, s);
            assert_eq!(Piece::from_char(p.to_char()), Ok(p));
        }
    }
    assert_eq!(Piece::from_char('X'), Err(ParseError::BadChar('x')));
    assert_eq!(Piece::from_char('.'), Err(ParseError::BadChar('.')));
    assert_eq!(Piece::from_char('q'), Err(ParseError::BadChar('q')));
}

#[test]
fn piece_set_from_bits() {
    let ps = PieceSet::from_bits(0b0000_0001_0000_0010);
    assert!(ps.contains(Piece::new(Soldier, Attacker)));
    assert!(ps.contains(Piece::new(King, Defender)));
    assert!(!ps.contains(Piece::new(King, Attacker)));
    assert!(!ps.contains(Piece::new(Soldier, Defender)));
}
