//! The board, its cell marks, and the bijective base-3 board codec.

use vstd::prelude::*;

verus! {

/// The occupancy of one cell: X or O if the cell was played on, Empty if not.
#[derive(Copy, Clone, Debug, PartialEq, Eq, Structural)]
pub enum FieldOcc {
    X,
    O,
    Empty,
}

/// Largest valid board hash: 3^9 - 1, the board with all nine cells O.
pub const MAX_BOARD_HASH: u16 = 19682;

/// The color that moves first.
pub const STARTING_COLOR: FieldOcc = FieldOcc::X;

impl FieldOcc {
    /// The base-3 digit a mark encodes to: Empty is 0, X is 1, O is 2.
    /// This mapping is an invariant of the hash format.
    pub open spec fn spec_value(self) -> int {
        match self {
            FieldOcc::Empty => 0,
            FieldOcc::X => 1,
            FieldOcc::O => 2,
        }
    }

    /// The numeric value of a mark, as used by the board hash.
    pub fn value(self) -> (v: u16)
        ensures
            v == self.spec_value(),
    {
        match self {
            FieldOcc::Empty => 0,
            FieldOcc::X => 1,
            FieldOcc::O => 2,
        }
    }

    /// The mark a base-3 digit decodes to: the inverse of `value`.
    /// A digit of 3 or more cannot come out of an in-range hash, so it is an
    /// internal-invariant violation and excluded by precondition rather than
    /// mapped to anything.
    pub fn from_value(v: u16) -> (r: FieldOcc)
        requires
            v <= 2,
        ensures
            r.spec_value() == v,
            r == occ_of_digit(v as int),
    {
        if v == 0 {
            FieldOcc::Empty
        } else if v == 1 {
            FieldOcc::X
        } else {
            FieldOcc::O
        }
    }
}

impl Default for FieldOcc {
    /// An untouched cell is Empty.
    fn default() -> (r: FieldOcc)
        ensures
            r == FieldOcc::Empty,
    {
        FieldOcc::Empty
    }
}

/// 3 to the power n: the place value of cell n in the board hash.
pub open spec fn pow3(n: nat) -> nat
    decreases n,
{
    if n == 0 {
        1
    } else {
        3 * pow3((n - 1) as nat)
    }
}

/// The hash of the first n cells: the sum of value(cells[i]) * 3^i for i < n.
pub open spec fn hash_prefix(cells: Seq<FieldOcc>, n: nat) -> int
    decreases n,
{
    if n == 0 {
        0
    } else {
        hash_prefix(cells, (n - 1) as nat) + cells[n - 1].spec_value() * pow3((n - 1) as nat)
    }
}

/// The hash of a nine-cell board: its cells read as a base-3 number,
/// cell 0 in the least significant place.
pub open spec fn hash_of(cells: Seq<FieldOcc>) -> int {
    hash_prefix(cells, 9)
}

/// Base-3 digit i of a hash value.
pub open spec fn digit_at(h: int, i: nat) -> int {
    (h / pow3(i) as int) % 3
}

/// The mark a base-3 digit stands for: the spec-level inverse of `spec_value`.
pub open spec fn occ_of_digit(d: int) -> FieldOcc {
    if d == 0 {
        FieldOcc::Empty
    } else if d == 1 {
        FieldOcc::X
    } else {
        FieldOcc::O
    }
}

/// The nine cells a hash decodes to: digit i of the hash names cell i.
pub open spec fn decoded_cells(h: int) -> Seq<FieldOcc> {
    Seq::new(9, |i: int| occ_of_digit(digit_at(h, i as nat)))
}

/// The first n place values sum below 3^n, whatever marks the cells hold.
proof fn lemma_hash_prefix_bound(cells: Seq<FieldOcc>, n: nat)
    ensures
        0 <= hash_prefix(cells, n) < pow3(n),
    decreases n,
{
    if n > 0 {
        lemma_hash_prefix_bound(cells, (n - 1) as nat);
        let p = pow3((n - 1) as nat);
        assert(cells[n - 1].spec_value() * p <= 2 * p) by {
            assert(cells[n - 1].spec_value() <= 2);
            vstd::arithmetic::mul::lemma_mul_inequality(cells[n - 1].spec_value(), 2, p as int);
        }
        assert(cells[n - 1].spec_value() * p >= 0) by {
            vstd::arithmetic::mul::lemma_mul_nonnegative(cells[n - 1].spec_value(), p as int);
        }
    }
}

/// Every board hash fits below 3^9 = 19683.
pub proof fn lemma_hash_of_bound(cells: Seq<FieldOcc>)
    ensures
        0 <= hash_of(cells) <= MAX_BOARD_HASH,
{
    lemma_hash_prefix_bound(cells, 9);
    assert(pow3(9) == 19683) by {
        reveal_with_fuel(pow3, 10);
    }
}

/// pow3 grows with its exponent.
proof fn lemma_pow3_increases(a: nat, b: nat)
    requires
        a <= b,
    ensures
        pow3(a) <= pow3(b),
    decreases b,
{
    if a < b {
        lemma_pow3_increases(a, (b - 1) as nat);
    }
}

/// Decoding a hash that is too large fails with this error; it is the only
/// error the codec can report.
#[derive(Copy, Clone, Debug, PartialEq, Eq, Structural)]
pub enum HashError {
    OutOfRangeHash,
}

/// A tic-tac-toe board: nine cells in row-major order, and an advisory
/// record of whose turn it is. The turn takes no part in hashing, decoding
/// or legality, and is not validated against the cells.
pub struct Board {
    pub fields: [FieldOcc; 9],
    pub turn: FieldOcc,
}

impl Board {
    /// An untouched board: every cell Empty, X (the starting color) to move.
    pub fn init() -> (b: Board)
        ensures
            forall|i: int| 0 <= i < 9 ==> b.fields@[i] == FieldOcc::Empty,
            b.turn == FieldOcc::X,
    {
        Board { fields: [FieldOcc::Empty; 9], turn: STARTING_COLOR }
    }

    /// A board with the given cells and turn.
    pub fn new(fields: [FieldOcc; 9], turn: FieldOcc) -> (b: Board)
        ensures
            b.fields == fields,
            b.turn == turn,
    {
        Board { fields, turn }
    }

    /// The board's hash: the nine cells read as a base-3 number, cell 0 in
    /// the least significant place. Invertible, ignores whose turn it is,
    /// and never exceeds `MAX_BOARD_HASH`.
    pub fn hash(&self) -> (h: u16)
        ensures
            h == hash_of(self.fields@),
            h <= MAX_BOARD_HASH,
    {
        let mut h: u16 = 0;
        let mut place: u16 = 1;
        let mut i: usize = 0;
        while i < 9
            invariant
                i <= 9,
                place == pow3(i as nat),
                h == hash_prefix(self.fields@, i as nat),
            decreases 9 - i,
        {
            proof {
                lemma_hash_prefix_bound(self.fields@, i as nat);
                lemma_hash_prefix_bound(self.fields@, (i + 1) as nat);
                lemma_pow3_increases(i as nat, 8);
                lemma_pow3_increases((i + 1) as nat, 9);
                assert(pow3(8) == 6561 && pow3(9) == 19683) by {
                    reveal_with_fuel(pow3, 10);
                }
            }
            let v = self.fields[i].value();
            assert(v * place <= 2 * place) by (nonlinear_arith)
                requires
                    v <= 2,
                    place >= 0,
            ;
            h = h + v * place;
            place = place * 3;
            i = i + 1;
        }
        proof {
            lemma_hash_of_bound(self.fields@);
        }
        h
    }

    /// Rebuilds the board a hash encodes: digit i of the hash (base 3) names
    /// cell i. Fails, with the one error the codec has, exactly when the hash
    /// lies above `MAX_BOARD_HASH`. The turn is caller-supplied metadata: it
    /// is stored as given and takes no part in the decoding.
    pub fn parse(hash: u16, turn: FieldOcc) -> (r: Result<Board, HashError>)
        ensures
            r is Ok <==> hash <= MAX_BOARD_HASH,
            r matches Err(e) ==> e == HashError::OutOfRangeHash,
            r matches Ok(b) ==> b.fields@ == decoded_cells(hash as int),
            r matches Ok(b) ==> hash_of(b.fields@) == hash,
            r matches Ok(b) ==> b.turn == turn,
    {
        if hash > MAX_BOARD_HASH {
            return Err(HashError::OutOfRangeHash);
        }
        let mut fields: [FieldOcc; 9] = [FieldOcc::Empty; 9];
        let mut h: u16 = hash;
        let mut i: usize = 0;
        proof {
            vstd::arithmetic::div_mod::lemma_div_basics(hash as int);
        }
        while i < 9
            invariant
                i <= 9,
                hash <= MAX_BOARD_HASH,
                h == hash as int / pow3(i as nat) as int,
                forall|j: int|
                    0 <= j < i ==> fields@[j] == occ_of_digit(digit_at(hash as int, j as nat)),
                hash as int == hash_prefix(fields@, i as nat) + h * pow3(i as nat),
            decreases 9 - i,
        {
            let ghost old_fields = fields@;
            let ghost p = pow3(i as nat) as int;
            let ghost q = h as int / 3;
            let d = h % 3;
            fields[i] = FieldOcc::from_value(d);
            proof {
                lemma_pow3_increases(0, i as nat);
                lemma_hash_prefix_agrees(old_fields, fields@, i as nat);
                vstd::arithmetic::div_mod::lemma_fundamental_div_mod(h as int, 3);
                vstd::arithmetic::div_mod::lemma_div_denominator(hash as int, p, 3);
                assert(h * p == d * p + q * (3 * p)) by (nonlinear_arith)
                    requires
                        h == 3 * q + d,
                ;
            }
            h = h / 3;
            i = i + 1;
        }
        proof {
            assert(pow3(9) == 19683) by {
                reveal_with_fuel(pow3, 10);
            }
            vstd::arithmetic::div_mod::lemma_basic_div(hash as int, 19683);
        }
        let b = Board::new(fields, turn);
        proof {
            assert(b.fields@ =~= decoded_cells(hash as int));
            assert(hash as int == hash_prefix(fields@, 9) + 0 * pow3(9));
        }
        Ok(b)
    }
}

/// The hash of the first n decoded cells recovers the hash modulo 3^n.
proof fn lemma_decode_prefix(h: int, n: nat)
    requires
        0 <= h,
        n <= 9,
    ensures
        hash_prefix(decoded_cells(h), n) == h % pow3(n) as int,
    decreases n,
{
    if n == 0 {
        vstd::arithmetic::div_mod::lemma_fundamental_div_mod(h, 1);
        vstd::arithmetic::div_mod::lemma_div_basics(h);
    } else {
        lemma_decode_prefix(h, (n - 1) as nat);
        let p = pow3((n - 1) as nat) as int;
        lemma_pow3_increases(0, (n - 1) as nat);
        vstd::arithmetic::div_mod::lemma_breakdown(h, p, 3);
        let d = digit_at(h, (n - 1) as nat);
        assert(0 <= d < 3);
        assert(occ_of_digit(d).spec_value() == d);
        assert(decoded_cells(h)[n - 1] == occ_of_digit(d));
        assert(decoded_cells(h)[n - 1].spec_value() * p == p * ((h / p) % 3));
    }
}

/// Round trip: decoding any hash in `[0, MAX_BOARD_HASH]` and re-encoding
/// the cells gives the hash back. Together with `lemma_decode_encode` this
/// makes the codec a bijection.
pub proof fn lemma_round_trip(h: int)
    requires
        0 <= h <= MAX_BOARD_HASH,
    ensures
        hash_of(decoded_cells(h)) == h,
{
    lemma_decode_prefix(h, 9);
    assert(pow3(9) == 19683) by {
        reveal_with_fuel(pow3, 10);
    }
    vstd::arithmetic::div_mod::lemma_small_mod(h as nat, 19683);
}

/// Prefixes with equal hashes hold equal cells: each base-3 digit of the
/// hash is pinned by division and remainder.
proof fn lemma_hash_prefix_injective(a: Seq<FieldOcc>, b: Seq<FieldOcc>, n: nat)
    requires
        hash_prefix(a, n) == hash_prefix(b, n),
    ensures
        forall|j: int| 0 <= j < n ==> a[j] == b[j],
    decreases n,
{
    if n > 0 {
        let p = pow3((n - 1) as nat) as int;
        lemma_pow3_increases(0, (n - 1) as nat);
        lemma_hash_prefix_bound(a, (n - 1) as nat);
        lemma_hash_prefix_bound(b, (n - 1) as nat);
        let va = a[n - 1].spec_value();
        let vb = b[n - 1].spec_value();
        vstd::arithmetic::div_mod::lemma_fundamental_div_mod_converse(
            hash_prefix(a, n),
            p,
            va,
            hash_prefix(a, (n - 1) as nat),
        );
        vstd::arithmetic::div_mod::lemma_fundamental_div_mod_converse(
            hash_prefix(b, n),
            p,
            vb,
            hash_prefix(b, (n - 1) as nat),
        );
        assert(va == vb);
        assert(a[n - 1] == b[n - 1]);
        lemma_hash_prefix_injective(a, b, (n - 1) as nat);
    }
}

/// Round trip the other way: a board's cells come back unchanged from
/// decoding its own hash. The turn is not round-tripped: it is metadata
/// that the hash never held.
pub proof fn lemma_decode_encode(cells: Seq<FieldOcc>)
    requires
        cells.len() == 9,
    ensures
        decoded_cells(hash_of(cells)) == cells,
{
    lemma_hash_of_bound(cells);
    lemma_round_trip(hash_of(cells));
    lemma_hash_prefix_injective(decoded_cells(hash_of(cells)), cells, 9);
    assert(decoded_cells(hash_of(cells)) =~= cells);
}

/// The hash of the first n cells reads nothing past them.
proof fn lemma_hash_prefix_agrees(a: Seq<FieldOcc>, b: Seq<FieldOcc>, n: nat)
    requires
        forall|j: int| 0 <= j < n ==> a[j] == b[j],
    ensures
        hash_prefix(a, n) == hash_prefix(b, n),
    decreases n,
{
    if n > 0 {
        lemma_hash_prefix_agrees(a, b, (n - 1) as nat);
    }
}

} // verus!
