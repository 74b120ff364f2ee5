use tttai::enumerate::{classify, winning_hashes};
use tttai::game::{Board, FieldOcc, MAX_BOARD_HASH};

const E: FieldOcc = FieldOcc::Empty;
const X: FieldOcc = FieldOcc::X;
const O: FieldOcc = FieldOcc::O;

fn board(fields: [FieldOcc; 9]) -> Board {
    Board::new(fields, X)
}

#[test]
fn count_gap_of_two_is_illegal() {
    // five X's against three O's, whatever the lines hold
    let b = board([X, X, O, O, X, X, O, X, E]);
    assert_eq!(classify(&b), (false, false));
    // even when X holds a winning line
    let b = board([X, X, X, O, O, X, O, X, E]);
    assert_eq!(classify(&b), (false, false));
}

#[test]
fn more_o_than_x_is_illegal() {
    let b = board([O, O, E, E, E, E, E, E, E]);
    assert_eq!(classify(&b), (false, false));
}

#[test]
fn simultaneous_wins_are_illegal() {
    // X holds the top row, O the middle row: counts balance, both win
    let b = board([X, X, X, O, O, O, E, E, E]);
    assert_eq!(classify(&b), (false, false));
}

#[test]
fn single_winner_is_legal_and_winning() {
    let b = board([X, X, X, O, O, E, E, E, E]);
    assert_eq!(classify(&b), (true, true));
}

#[test]
fn no_winner_is_legal_and_not_winning() {
    assert_eq!(classify(&board([E; 9])), (true, false));
    assert_eq!(classify(&board([X, O, E, E, E, E, E, E, E])), (true, false));
}

#[test]
fn sweep_is_ascending_and_duplicate_free() {
    let hashes = winning_hashes();
    assert!(!hashes.is_empty());
    for pair in hashes.windows(2) {
        assert!(pair[0] < pair[1]);
    }
}

#[test]
fn sweep_members_classify_as_legal_winning() {
    for h in winning_hashes() {
        assert!(h <= MAX_BOARD_HASH);
        let b = Board::parse(h, E).unwrap();
        assert_eq!(classify(&b), (true, true));
        assert_eq!(b.hash(), h);
    }
}

#[test]
fn sweep_is_complete() {
    let hashes = winning_hashes();
    let mut expected = Vec::new();
    for h in 0..=MAX_BOARD_HASH {
        let b = Board::parse(h, E).unwrap();
        if classify(&b) == (true, true) {
            expected.push(h);
        }
    }
    assert_eq!(hashes, expected);
}
