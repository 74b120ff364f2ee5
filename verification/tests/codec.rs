use tttai::game::{Board, FieldOcc, HashError, MAX_BOARD_HASH};

const E: FieldOcc = FieldOcc::Empty;
const X: FieldOcc = FieldOcc::X;
const O: FieldOcc = FieldOcc::O;

#[test]
fn value_mapping() {
    assert_eq!(E.value(), 0);
    assert_eq!(X.value(), 1);
    assert_eq!(O.value(), 2);
}

#[test]
fn from_value_inverts_value() {
    assert_eq!(FieldOcc::from_value(0), E);
    assert_eq!(FieldOcc::from_value(1), X);
    assert_eq!(FieldOcc::from_value(2), O);
}

#[test]
fn default_is_empty() {
    assert_eq!(FieldOcc::default(), E);
}

#[test]
fn init_board_is_empty_with_x_to_move() {
    let b = Board::init();
    assert_eq!(b.fields, [E; 9]);
    assert_eq!(b.turn, X);
}

#[test]
fn encode_all_empty_is_zero() {
    assert_eq!(Board::init().hash(), 0);
    assert_eq!(Board::new([E; 9], X).hash(), 0);
}

#[test]
fn decode_zero_is_all_empty() {
    let b = Board::parse(0, X).unwrap();
    assert_eq!(b.fields, [E; 9]);
}

#[test]
fn decode_max_is_all_o() {
    let b = Board::parse(MAX_BOARD_HASH, X).unwrap();
    assert_eq!(b.fields, [O; 9]);
}

#[test]
fn decode_rejects_out_of_range() {
    assert!(matches!(Board::parse(19683, X), Err(HashError::OutOfRangeHash)));
    assert!(matches!(Board::parse(20000, O), Err(HashError::OutOfRangeHash)));
    assert!(matches!(Board::parse(u16::MAX, E), Err(HashError::OutOfRangeHash)));
}

#[test]
fn decode_stores_the_given_turn() {
    assert_eq!(Board::parse(5, O).unwrap().turn, O);
    assert_eq!(Board::parse(5, X).unwrap().turn, X);
}

#[test]
fn encode_single_cells() {
    // cell i alone holding X contributes 3^i; O contributes twice that
    let mut place: u16 = 1;
    for i in 0..9 {
        let mut fields = [E; 9];
        fields[i] = X;
        assert_eq!(Board::new(fields, X).hash(), place);
        fields[i] = O;
        assert_eq!(Board::new(fields, X).hash(), 2 * place);
        place *= 3;
    }
}

#[test]
fn round_trip_encode_of_decode_full_sweep() {
    for h in 0..=MAX_BOARD_HASH {
        let b = Board::parse(h, X).unwrap();
        assert_eq!(b.hash(), h);
    }
}

#[test]
fn round_trip_decode_of_encode() {
    let boards = [
        [X, O, E, E, X, O, X, E, O],
        [X, X, X, X, X, X, X, X, X],
        [O, E, O, E, O, E, O, E, O],
        [E, E, E, E, X, E, E, E, E],
    ];
    for fields in boards {
        let b = Board::new(fields, O);
        let back = Board::parse(b.hash(), O).unwrap();
        assert_eq!(back.fields, fields);
    }
}
