//! The win detector: the 8 fixed lines of the 3-by-3 grid.

use vstd::prelude::*;

use crate::game::{Board, FieldOcc};

verus! {

/// The three cells at indices a, b, c all hold the given mark.
pub open spec fn line_wins(cells: Seq<FieldOcc>, a: int, b: int, c: int, mark: FieldOcc) -> bool {
    cells[a] == mark && cells[b] == mark && cells[c] == mark
}

/// The mark holds at least one of the 8 winning lines: 3 rows, 3 columns,
/// 2 diagonals, by cell index in row-major order.
pub open spec fn wins(cells: Seq<FieldOcc>, mark: FieldOcc) -> bool {
    ||| line_wins(cells, 0, 1, 2, mark)
    ||| line_wins(cells, 3, 4, 5, mark)
    ||| line_wins(cells, 6, 7, 8, mark)
    ||| line_wins(cells, 0, 3, 6, mark)
    ||| line_wins(cells, 1, 4, 7, mark)
    ||| line_wins(cells, 2, 5, 8, mark)
    ||| line_wins(cells, 0, 4, 8, mark)
    ||| line_wins(cells, 2, 4, 6, mark)
}

/// True iff the given mark holds a full line. The mark must not be Empty:
/// an all-Empty line is not a win for anybody.
pub fn is_winning(board: &Board, mark: FieldOcc) -> (r: bool)
    requires
        mark != FieldOcc::Empty,
    ensures
        r == wins(board.fields@, mark),
{
    let f = &board.fields;
    // rows
    if f[0] == mark && f[1] == mark && f[2] == mark {
        return true;
    }
    if f[3] == mark && f[4] == mark && f[5] == mark {
        return true;
    }
    if f[6] == mark && f[7] == mark && f[8] == mark {
        return true;
    }
    // columns
    if f[0] == mark && f[3] == mark && f[6] == mark {
        return true;
    }
    if f[1] == mark && f[4] == mark && f[7] == mark {
        return true;
    }
    if f[2] == mark && f[5] == mark && f[8] == mark {
        return true;
    }
    // diagonals
    if f[0] == mark && f[4] == mark && f[8] == mark {
        return true;
    }
    if f[2] == mark && f[4] == mark && f[6] == mark {
        return true;
    }
    false
}

} // verus!
