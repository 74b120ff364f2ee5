//! The legality filter and the sweep over the whole hash space.

use vstd::prelude::*;

use crate::game::{decoded_cells, Board, FieldOcc, MAX_BOARD_HASH};
use crate::win_check::{is_winning, wins};

verus! {

/// How often the mark occurs among the first n cells.
pub open spec fn count_prefix(cells: Seq<FieldOcc>, mark: FieldOcc, n: nat) -> int
    decreases n,
{
    if n == 0 {
        0
    } else {
        count_prefix(cells, mark, (n - 1) as nat) + if cells[n - 1] == mark {
            1int
        } else {
            0int
        }
    }
}

/// How often the mark occurs among the nine cells of a board.
pub open spec fn count_occ(cells: Seq<FieldOcc>, mark: FieldOcc) -> int {
    count_prefix(cells, mark, 9)
}

/// The move-count invariant of real play: X moves first, so the number of
/// X cells exceeds the number of O cells by exactly 0 or 1.
pub open spec fn counts_legal(cells: Seq<FieldOcc>) -> bool {
    let d = count_occ(cells, FieldOcc::X) - count_occ(cells, FieldOcc::O);
    d == 0 || d == 1
}

/// A board is rule-legal when its counts satisfy the move-count invariant
/// and not both colors hold a winning line at once.
pub open spec fn legal(cells: Seq<FieldOcc>) -> bool {
    counts_legal(cells) && !(wins(cells, FieldOcc::X) && wins(cells, FieldOcc::O))
}

/// A legal board on which exactly one color holds a winning line.
pub open spec fn legal_winning(cells: Seq<FieldOcc>) -> bool {
    legal(cells) && (wins(cells, FieldOcc::X) || wins(cells, FieldOcc::O))
}

/// Classifies a board: the first flag says whether it is rule-legal, the
/// second whether it is additionally a single-winner position. An illegal
/// board is never reported winning.
pub fn classify(board: &Board) -> (r: (bool, bool))
    ensures
        r.0 == legal(board.fields@),
        r.1 == legal_winning(board.fields@),
{
    let mut xs: u32 = 0;
    let mut os: u32 = 0;
    let mut i: usize = 0;
    while i < 9
        invariant
            i <= 9,
            xs == count_prefix(board.fields@, FieldOcc::X, i as nat),
            os == count_prefix(board.fields@, FieldOcc::O, i as nat),
            xs <= i,
            os <= i,
        decreases 9 - i,
    {
        match board.fields[i] {
            FieldOcc::X => {
                xs = xs + 1;
            },
            FieldOcc::O => {
                os = os + 1;
            },
            FieldOcc::Empty => {},
        }
        i = i + 1;
    }
    // the signed count difference must be 0 or 1
    if !(xs == os || xs == os + 1) {
        return (false, false);
    }
    let x_wins = is_winning(board, FieldOcc::X);
    let o_wins = is_winning(board, FieldOcc::O);
    if x_wins && o_wins {
        (false, false)
    } else if x_wins || o_wins {
        (true, true)
    } else {
        (true, false)
    }
}

/// Sweeps every hash in `[0, MAX_BOARD_HASH]`, decodes it, and collects the
/// hashes of all legal single-winner boards: a strictly ascending,
/// duplicate-free list holding exactly those hashes whose board classifies
/// as legal and winning.
pub fn winning_hashes() -> (r: Vec<u16>)
    ensures
        forall|k: int|
            0 <= k < r@.len() ==> (0 <= #[trigger] r@[k] <= MAX_BOARD_HASH && legal_winning(
                decoded_cells(r@[k] as int),
            )),
        forall|k: int, l: int| 0 <= k < l < r@.len() ==> r@[k] < r@[l],
        forall|h: int|
            0 <= h <= MAX_BOARD_HASH && legal_winning(decoded_cells(h)) ==> r@.contains(
                h as u16,
            ),
{
    let mut out: Vec<u16> = Vec::new();
    let mut hash: u16 = 0;
    while hash <= MAX_BOARD_HASH
        invariant
            hash <= MAX_BOARD_HASH + 1,
            forall|k: int|
                0 <= k < out@.len() ==> (0 <= #[trigger] out@[k] < hash && legal_winning(
                    decoded_cells(out@[k] as int),
                )),
            forall|k: int, l: int| 0 <= k < l < out@.len() ==> out@[k] < out@[l],
            forall|h: int|
                0 <= h < hash && legal_winning(decoded_cells(h)) ==> out@.contains(h as u16),
        decreases MAX_BOARD_HASH + 1 - hash,
    {
        let board = match Board::parse(hash, FieldOcc::Empty) {
            Ok(b) => b,
            Err(_) => vstd::pervasive::unreached(),
        };
        let verdict = classify(&board);
        let ghost old_out = out@;
        if verdict.0 && verdict.1 {
            out.push(board.hash());
            proof {
                crate::game::lemma_round_trip(hash as int);
                assert(out@ == old_out.push(hash));
            }
        }
        proof {
            assert forall|h: int|
                0 <= h < hash + 1 && legal_winning(decoded_cells(h)) implies out@.contains(
                h as u16,
            ) by {
                if h < hash {
                    let k = choose|k: int| 0 <= k < old_out.len() && old_out[k] == h as u16;
                    assert(out@[k] == h as u16);
                } else {
                    assert(out@[out@.len() - 1] == h as u16);
                }
            }
        }
        hash = hash + 1;
    }
    out
}

/// A board whose X and O counts differ by anything but 0 or 1 is illegal,
/// whatever its lines hold.
pub proof fn lemma_count_gap_illegal(cells: Seq<FieldOcc>)
    requires
        count_occ(cells, FieldOcc::X) - count_occ(cells, FieldOcc::O) != 0,
        count_occ(cells, FieldOcc::X) - count_occ(cells, FieldOcc::O) != 1,
    ensures
        !legal(cells),
        !legal_winning(cells),
{
}

/// A board on which both colors hold a winning line at once is illegal,
/// whatever its counts are.
pub proof fn lemma_double_win_illegal(cells: Seq<FieldOcc>)
    requires
        wins(cells, FieldOcc::X),
        wins(cells, FieldOcc::O),
    ensures
        !legal(cells),
        !legal_winning(cells),
{
}

} // verus!
