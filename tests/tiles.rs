use tafl::{Axis, Coords, IntErrorKind, ParseError, Play, PlayError, Tile};

#[test]
fn test_tile_creation() {
    for r in 0..16 {
        for c in 0..16 {
            let t = Tile::new(r, c);
            assert_eq!(t.row, r);
            assert_eq!(t.col, c);
        }
    }
}

#[test]
fn test_moves() {
    let m_res = Play::from_tiles(Tile::new(2, 4), Tile::new(2, 6));
    assert!(m_res.is_ok());
    let m = m_res.unwrap();
    assert_eq!(m.from, Tile::new(2, 4));
    assert_eq!(m.axis, Axis::Horizontal);
    assert_eq!(m.displacement, 2);
    assert_eq!(m.to(), Tile::new(2, 6));

    let m_res = Play::from_tiles(Tile::new(2, 3), Tile::new(5, 3));
    assert!(m_res.is_ok());
    let m = m_res.unwrap();
    assert_eq!(m.from, Tile::new(2, 3));
    assert_eq!(m.axis, Axis::Vertical);
    assert_eq!(m.displacement, 3);
    assert_eq!(m.to(), Tile::new(5, 3));

    let m_res = Play::from_tiles(Tile::new(1, 4), Tile::new(1, 1));
    assert!(m_res.is_ok());
    let m = m_res.unwrap();
    assert_eq!(m.from, Tile::new(1, 4));
    assert_eq!(m.axis, Axis::Horizontal);
    assert_eq!(m.displacement, -3);
    assert_eq!(m.distance(), 3);
    assert_eq!(m.to(), Tile::new(1, 1));

    let m_res = Play::from_tiles(Tile::new(7, 5), Tile::new(0, 5));
    assert!(m_res.is_ok());
    let m = m_res.unwrap();
    assert_eq!(m.from, Tile::new(7, 5));
    assert_eq!(m.axis, Axis::Vertical);
    assert_eq!(m.displacement, -7);
    assert_eq!(m.to(), Tile::new(0, 5));

    let m_res = Play::from_tiles(Tile::new(2, 3), Tile::new(3, 6));
    assert!(m_res.is_err());
}

#[test]
fn test_parsing_tiles() {
    let parsed_t = Tile::from_str("a8");
    let t = Tile::new(7, 0);
    assert!(parsed_t.is_ok());
    assert_eq!(parsed_t.unwrap(), t);
    assert_eq!(t.to_string(), "a8");

    let parsed_t = Tile::from_str("f14");
    let t = Tile::new(13, 5);
    assert!(parsed_t.is_ok());
    assert_eq!(parsed_t.unwrap(), t);
    assert_eq!(t.to_string(), "f14");

    assert_eq!(Tile::from_str(""), Err(ParseError::EmptyString));
    assert_eq!(Tile::from_str("[53"), Err(ParseError::BadChar('[')));
    assert!(matches!(Tile::from_str("a!!"), Err(ParseError::BadInt(_))));
}

#[test]
fn test_parsing_moves() {
    let parsed_m = Play::from_str("a8-a11");
    let m = Play::from_tiles(Tile::new(7, 0), Tile::new(10, 0)).unwrap();
    assert!(parsed_m.is_ok());
    assert_eq!(parsed_m.unwrap(), m);
    assert_eq!(m.to_string(), "a8-a11");

    let parsed_m = Play::from_str("f5-d5");
    let m = Play::from_tiles(Tile::new(4, 5), Tile::new(4, 3)).unwrap();
    assert!(parsed_m.is_ok());
    assert_eq!(parsed_m.unwrap(), m);
    assert_eq!(m.to_string(), "f5-d5");

    let parsed_m = Play::from_str("f5-d6");
    assert_eq!(parsed_m, Err(ParseError::BadPlay(PlayError::DisjointTiles)));

    let parsed_m = Play::from_str("f5-d7-d6");
    assert_eq!(parsed_m, Err(ParseError::BadString(String::from("f5-d7-d6"))));

    let parsed_m = Play::from_str("f5-d]");
    assert!(matches!(parsed_m, Err(ParseError::BadInt(_))));

    let parsed_m = Play::from_str("!5-d5");
    assert_eq!(parsed_m, Err(ParseError::BadChar('!')));
}

#[test]
fn tile_text_round_trips() {
    for s in ["a1", "z255", "k11", "b10", "c100", "m7"] {
        let t = Tile::from_str(s).unwrap();
        assert_eq!(t.to_string(), s);
    }
}

#[test]
fn tile_parse_errors_name_the_cause() {
    assert_eq!(Tile::from_str("a"), Err(ParseError::BadInt(IntErrorKind::Empty)));
    assert_eq!(Tile::from_str("a+"), Err(ParseError::BadInt(IntErrorKind::InvalidDigit)));
    assert_eq!(Tile::from_str("a256"), Err(ParseError::BadInt(IntErrorKind::PosOverflow)));
    assert_eq!(Tile::from_str("a0"), Err(ParseError::BadInt(IntErrorKind::Zero)));
    assert_eq!(Tile::from_str("A1"), Err(ParseError::BadChar('A')));
    assert_eq!(Tile::from_str("é1"), Err(ParseError::BadChar('é')));
    assert_eq!(Tile::from_str("a+5"), Ok(Tile::new(4, 0)));
    assert_eq!(Tile::from_str("c007"), Ok(Tile::new(6, 2)));
}

#[test]
fn non_collinear_tiles_are_disjoint() {
    assert_eq!(Play::from_tiles(Tile::new(0, 0), Tile::new(1, 1)), Err(PlayError::DisjointTiles));
    assert_eq!(Play::from_tiles(Tile::new(3, 3), Tile::new(3, 3)), Err(PlayError::DisjointTiles));
    assert_eq!(Play::from_tiles(Tile::new(9, 2), Tile::new(0, 8)), Err(PlayError::DisjointTiles));
}

#[test]
fn collinear_play_reaches_destination() {
    let pairs = [
        (Tile::new(0, 0), Tile::new(0, 255)),
        (Tile::new(255, 4), Tile::new(0, 4)),
        (Tile::new(6, 6), Tile::new(6, 5)),
    ];
    for (a, b) in pairs {
        let p = Play::from_tiles(a, b).unwrap();
        assert_eq!(p.to(), b);
        assert_eq!(p.distance() as i16, p.displacement.abs());
    }
}

#[test]
fn play_parse_errors() {
    assert_eq!(Play::from_str("a1a2"), Err(ParseError::BadString(String::from("a1a2"))));
    assert_eq!(Play::from_str("-a1"), Err(ParseError::EmptyString));
    assert_eq!(Play::from_str("a1-"), Err(ParseError::EmptyString));
    assert_eq!(Play::from_str("c3-c3"), Err(ParseError::BadPlay(PlayError::DisjointTiles)));
    assert_eq!(Play::from_str("b2-b12").unwrap().to_string(), "b2-b12");
}

#[test]
fn coords_and_axes() {
    let c = Coords::from_tile(Tile::new(3, 4));
    assert_eq!(c, Coords::new(3, 4));
    assert_eq!(c.offset((-4, 2)), Coords::new(-1, 6));
    assert_eq!(Axis::Vertical.other(), Axis::Horizontal);
    assert_eq!(Axis::Horizontal.other(), Axis::Vertical);
    assert_eq!(Tile::new(3, 9).posn_on_axis(Axis::Vertical), 3);
    assert_eq!(Tile::new(3, 9).posn_on_axis(Axis::Horizontal), 9);
}

#[test]
fn tile_as_pair() {
    assert_eq!(Tile::new(4, 9).as_pair(), (4, 9));
}

#[test]
fn play_text_round_trips() {
    let pairs = [
        (Tile::new(0, 0), Tile::new(0, 25)),
        (Tile::new(254, 3), Tile::new(9, 3)),
        (Tile::new(12, 7), Tile::new(12, 6)),
    ];
    for (a, b) in pairs {
        let p = Play::from_tiles(a, b).unwrap();
        assert_eq!(Play::from_str(&p.to_string()), Ok(p));
        assert_eq!(Tile::from_str(&a.to_string()), Ok(a));
    }
}
