//! Bitboard codec and win detector.
//!
//! Each player's board is one `u64`. A column is allotted 7 consecutive bit
//! positions: 6 playable rows plus 1 overflow sentinel. Column `c`'s base bit
//! index is `7 * c`; its sentinel bit is `7 * c + 6`. The sentinel padding row
//! is what keeps the shift-based win check from wrapping across column
//! boundaries.

use vstd::prelude::*;

verus! {

/// Bitwise union of the seven overflow-sentinel bits, one above each column's
/// six playable rows: bits 6, 13, 20, 27, 34, 41 and 48.
pub const TOP_ROW: u64 = 283691315109952;

/// True when bit `i` of `board` is set.
pub open spec fn bit_at(board: u64, i: u64) -> bool
    recommends
        i < 64,
{
    (board >> i) & 1u64 == 1u64
}

/// The four direction strides of the 7-bits-per-column packing:
/// 1 = vertical, 7 = horizontal, 6 and 8 = the two diagonals.
pub open spec fn is_direction(d: u64) -> bool {
    d == 1 || d == 7 || d == 6 || d == 8
}

/// Four bits of `board` are set at consecutive stride-`d` positions starting
/// from bit index `i`.
pub open spec fn line_at(board: u64, i: u64, d: u64) -> bool {
    &&& i + 3 * d < 64
    &&& bit_at(board, i)
    &&& bit_at(board, (i + d) as u64)
    &&& bit_at(board, (i + 2 * d) as u64)
    &&& bit_at(board, (i + 3 * d) as u64)
}

/// Four bits are bitboard-adjacent in one of the four direction strides.
pub open spec fn is_win(board: u64) -> bool {
    exists|i: u64, d: u64| is_direction(d) && #[trigger] line_at(board, i, d)
}

/// The shift-AND reduction for one direction: nonzero exactly when four
/// consecutive stride-`d` positions are all occupied.
pub open spec fn stride_hit(board: u64, d: u64) -> bool
    recommends
        is_direction(d),
{
    (board & (board >> d)) & ((board & (board >> d)) >> ((2 * d) as u64)) != 0
}

/// A line of four at stride `d` makes the shift-AND reduction nonzero.
proof fn lemma_line_implies_stride(board: u64, i: u64, d: u64)
    requires
        is_direction(d),
        line_at(board, i, d),
    ensures
        stride_hit(board, d),
{
    assert((board & (board >> d)) & ((board & (board >> d)) >> ((2 * d) as u64)) != 0)
        by (bit_vector)
        requires
            d == 1 || d == 7 || d == 6 || d == 8,
            i + 3 * d < 64,
            (board >> i) & 1u64 == 1u64,
            (board >> ((i + d) as u64)) & 1u64 == 1u64,
            (board >> ((i + 2 * d) as u64)) & 1u64 == 1u64,
            (board >> ((i + 3 * d) as u64)) & 1u64 == 1u64,
    ;
}

/// Every nonzero word has a set bit below position 64.
proof fn lemma_nonzero_has_set_bit(x: u64)
    requires
        x != 0,
    ensures
        exists|i: u64| i < 64 && #[trigger] bit_at(x, i),
    decreases x,
{
    if x & 1 == 1 {
        assert((x >> 0u64) & 1u64 == 1u64) by (bit_vector)
            requires
                x & 1u64 == 1u64,
        ;
        assert(0u64 < 64 && bit_at(x, 0u64));
    } else {
        assert(x >> 1u64 != 0 && x >> 1u64 < x) by (bit_vector)
            requires
                x != 0 && x & 1u64 != 1u64,
        ;
        lemma_nonzero_has_set_bit(x >> 1u64);
        let j = choose|i: u64| i < 64 && #[trigger] bit_at(x >> 1u64, i);
        assert(j < 63 && (x >> ((j + 1) as u64)) & 1u64 == 1u64) by (bit_vector)
            requires
                j < 64,
                ((x >> 1u64) >> j) & 1u64 == 1u64,
        ;
        assert(((j + 1) as u64) < 64 && bit_at(x, (j + 1) as u64));
    }
}

/// A nonzero shift-AND reduction yields a line of four at stride `d`.
proof fn lemma_stride_implies_line(board: u64, d: u64)
    requires
        is_direction(d),
        stride_hit(board, d),
    ensures
        exists|i: u64| #[trigger] line_at(board, i, d),
{
    lemma_nonzero_has_set_bit(
        (board & (board >> d)) & ((board & (board >> d)) >> ((2 * d) as u64)),
    );
    let j = choose|i: u64|
        i < 64 && #[trigger] bit_at(
            (board & (board >> d)) & ((board & (board >> d)) >> ((2 * d) as u64)),
            i,
        );
    assert(j + 3 * d < 64
        && (board >> j) & 1u64 == 1u64
        && (board >> ((j + d) as u64)) & 1u64 == 1u64
        && (board >> ((j + 2 * d) as u64)) & 1u64 == 1u64
        && (board >> ((j + 3 * d) as u64)) & 1u64 == 1u64) by (bit_vector)
        requires
            d == 1 || d == 7 || d == 6 || d == 8,
            j < 64,
            ((((board & (board >> d)) & ((board & (board >> d)) >> ((2 * d) as u64))))
                >> j) & 1u64 == 1u64,
    ;
    assert(line_at(board, j, d));
}

/// Bit index of row `r` in column `c` under the 7-bits-per-column packing.
pub open spec fn cell_bit(c: int, r: int) -> u64
    recommends
        0 <= c < 7,
        0 <= r < 7,
{
    (7 * c + r) as u64
}

/// AND and OR of words are commutative.
pub(crate) proof fn lemma_and_or_comm(x: u64, y: u64)
    ensures
        x & y == y & x,
        x | y == y | x,
{
    assert(x & y == y & x && x | y == y | x) by (bit_vector);
}

/// A bit of a union is a bit of one of its parts.
pub(crate) proof fn lemma_or_bits(x: u64, y: u64, i: u64)
    ensures
        bit_at(x | y, i) == (bit_at(x, i) || bit_at(y, i)),
{
    assert(((x | y) >> i) & 1u64 == 1u64 <==> ((x >> i) & 1u64 == 1u64 || (y >> i) & 1u64
        == 1u64)) by (bit_vector);
}

/// XOR with a bit that is not set acts as OR.
pub(crate) proof fn lemma_xor_fresh_bit(x: u64, c: u64)
    requires
        c < 64,
        (x >> c) & 1u64 != 1u64,
    ensures
        x ^ (1u64 << c) == x | (1u64 << c),
{
    assert(x ^ (1u64 << c) == x | (1u64 << c)) by (bit_vector)
        requires
            c < 64 && (x >> c) & 1u64 != 1u64,
    ;
}

/// ORing in a single bit sets that bit and leaves every other bit alone.
pub(crate) proof fn lemma_or_single_bit(x: u64, c: u64, i: u64)
    requires
        c < 64,
        i < 64,
    ensures
        bit_at(x | (1u64 << c), i) == (bit_at(x, i) || i == c),
{
    assert(((x | (1u64 << c)) >> i) & 1u64 == 1u64 <==> ((x >> i) & 1u64 == 1u64 || i == c))
        by (bit_vector)
        requires
            c < 64 && i < 64,
    ;
}

/// Setting a bit in one side of a disjoint union sets it in the union.
pub(crate) proof fn lemma_union_single_bit(x: u64, y: u64, c: u64)
    requires
        c < 64,
        (x >> c) & 1u64 != 1u64,
        (y >> c) & 1u64 != 1u64,
    ensures
        (x ^ (1u64 << c)) | y == (x | y) | (1u64 << c),
        x | (y ^ (1u64 << c)) == (x | y) | (1u64 << c),
{
    assert((x ^ (1u64 << c)) | y == (x | y) | (1u64 << c) && x | (y ^ (1u64 << c)) == (x | y) | (
    1u64 << c)) by (bit_vector)
        requires
            c < 64 && (x >> c) & 1u64 != 1u64 && (y >> c) & 1u64 != 1u64,
    ;
}

/// Adding a bit that the other board does not hold keeps the boards disjoint.
pub(crate) proof fn lemma_disjoint_after_set(x: u64, y: u64, c: u64)
    requires
        c < 64,
        x & y == 0,
        (y >> c) & 1u64 != 1u64,
    ensures
        (x ^ (1u64 << c)) & y == 0,
        y & (x ^ (1u64 << c)) == 0,
{
    assert((x ^ (1u64 << c)) & y == 0 && y & (x ^ (1u64 << c)) == 0) by (bit_vector)
        requires
            c < 64 && x & y == 0 && (y >> c) & 1u64 != 1u64,
    ;
}

/// A word with none of the seven sentinel bits set is clear of `TOP_ROW`.
pub(crate) proof fn lemma_sentinel_mask(occ: u64)
    requires
        !bit_at(occ, 6),
        !bit_at(occ, 13),
        !bit_at(occ, 20),
        !bit_at(occ, 27),
        !bit_at(occ, 34),
        !bit_at(occ, 41),
        !bit_at(occ, 48),
    ensures
        occ & TOP_ROW == 0,
{
    assert(occ & 283691315109952u64 == 0) by (bit_vector)
        requires
            (occ >> 6u64) & 1u64 != 1u64,
            (occ >> 13u64) & 1u64 != 1u64,
            (occ >> 20u64) & 1u64 != 1u64,
            (occ >> 27u64) & 1u64 != 1u64,
            (occ >> 34u64) & 1u64 != 1u64,
            (occ >> 41u64) & 1u64 != 1u64,
            (occ >> 48u64) & 1u64 != 1u64,
    ;
}

/// A mask clear of a union is clear of each part.
pub(crate) proof fn lemma_mask_union_split(x: u64, y: u64, m: u64)
    requires
        (x | y) & m == 0,
    ensures
        x & m == 0,
        y & m == 0,
{
    assert((x | y) & m == 0 ==> x & m == 0 && y & m == 0) by (bit_vector);
}

/// Flipping bit `c` into a board clear of `TOP_ROW` trips the mask exactly
/// when `c` is one of the seven sentinel indices.
pub(crate) proof fn lemma_full_probe(b: u64, c: u64)
    requires
        b & TOP_ROW == 0,
        c < 49,
    ensures
        ((b ^ (1u64 << c)) & TOP_ROW != 0) <==> (c == 6 || c == 13 || c == 20 || c == 27 || c
            == 34 || c == 41 || c == 48),
{
    assert(((b ^ (1u64 << c)) & 283691315109952u64 != 0) <==> (c == 6 || c == 13 || c == 20 || c
        == 27 || c == 34 || c == 41 || c == 48)) by (bit_vector)
        requires
            b & 283691315109952u64 == 0 && c < 49,
    ;
}

/// The zero board has no bit set.
pub(crate) proof fn lemma_zero_board(i: u64)
    ensures
        !bit_at(0u64, i),
        0u64 | 0u64 == 0u64,
        0u64 & 0u64 == 0u64,
{
    assert((0u64 >> i) & 1u64 != 1u64 && 0u64 | 0u64 == 0u64 && 0u64 & 0u64 == 0u64)
        by (bit_vector);
}

/// Win detection: true exactly when four of the player's bits are
/// bitboard-adjacent in one of the four directions. Each direction takes two
/// shifts and two ANDs, independent of board size.
pub fn has_won(board: u64) -> (r: bool)
    ensures
        r == is_win(board),
{
    let directions: [u64; 4] = [1, 7, 6, 8];
    for k in 0..4usize
        invariant
            directions@[0] == 1 && directions@[1] == 7 && directions@[2] == 6
                && directions@[3] == 8,
            forall|m: int| 0 <= m < k ==> !stride_hit(board, directions@[m]),
    {
        let d = directions[k];
        let bb = board & (board >> d);
        if bb & (bb >> (2 * d)) != 0 {
            proof {
                lemma_stride_implies_line(board, d);
                let i = choose|i: u64| line_at(board, i, d);
                assert(is_direction(d) && line_at(board, i, d));
            }
            return true;
        }
    }
    proof {
        assert(!stride_hit(board, 1) && !stride_hit(board, 7) && !stride_hit(board, 6)
            && !stride_hit(board, 8));
        assert forall|i: u64, d: u64| is_direction(d) implies !line_at(board, i, d) by {
            if line_at(board, i, d) {
                lemma_line_implies_stride(board, i, d);
            }
        }
    }
    false
}

/// True when `(c, r)` is one of the 42 playable cells: 7 columns, 6 rows.
pub open spec fn valid_cell(c: int, r: int) -> bool {
    0 <= c < 7 && 0 <= r < 6
}

/// The playable cell in column `c`, row `r` is occupied on `board`.
pub open spec fn cell_at(board: u64, c: int, r: int) -> bool
    recommends
        valid_cell(c, r),
{
    bit_at(board, cell_bit(c, r))
}

/// The four grid directions: up, right, and the two rising/falling diagonals.
pub open spec fn grid_dir(dc: int, dr: int) -> bool {
    (dc == 0 && dr == 1) || (dc == 1 && dr == 0) || (dc == 1 && dr == -1) || (dc == 1 && dr == 1)
}

/// Four occupied cells in a row on the 7x6 grid, starting at `(c, r)` and
/// stepping by `(dc, dr)`, staying inside the playable area.
pub open spec fn grid_line(board: u64, c: int, r: int, dc: int, dr: int) -> bool {
    &&& valid_cell(c, r)
    &&& valid_cell(c + 3 * dc, r + 3 * dr)
    &&& cell_at(board, c, r)
    &&& cell_at(board, c + dc, r + dr)
    &&& cell_at(board, c + 2 * dc, r + 2 * dr)
    &&& cell_at(board, c + 3 * dc, r + 3 * dr)
}

/// Four in a row somewhere on the playable grid.
pub open spec fn grid_win(board: u64) -> bool {
    exists|c: int, r: int, dc: int, dr: int|
        grid_dir(dc, dr) && #[trigger] grid_line(board, c, r, dc, dr)
}

/// A board that can arise in play: every set bit addresses a playable cell,
/// so no sentinel bit and nothing at or beyond bit 49.
pub open spec fn board_valid(board: u64) -> bool {
    forall|i: u64| i < 64 && #[trigger] bit_at(board, i) ==> i < 49 && i % 7 < 6
}

/// An index written as `7 * q + p` with `0 <= p < 7` has column `q` and
/// position `p` under the 7-bits-per-column packing.
proof fn lemma_pos_of_index(x: int, q: int, p: int)
    requires
        0 <= p < 7,
        x == 7 * q + p,
    ensures
        x % 7 == p,
        x / 7 == q,
{
    vstd::arithmetic::div_mod::lemma_fundamental_div_mod_converse(x, 7, q, p);
}

/// A grid line of four yields a bitboard-adjacent line at the matching
/// stride.
proof fn lemma_grid_to_line(board: u64, c: int, r: int, dc: int, dr: int)
    requires
        grid_dir(dc, dr),
        grid_line(board, c, r, dc, dr),
    ensures
        is_win(board),
{
    let d = (7 * dc + dr) as u64;
    let i = cell_bit(c, r);
    assert(is_direction(d));
    assert(cell_bit(c + dc, r + dr) == (i + d) as u64);
    assert(cell_bit(c + 2 * dc, r + 2 * dr) == (i + 2 * d) as u64);
    assert(cell_bit(c + 3 * dc, r + 3 * dr) == (i + 3 * d) as u64);
    assert(line_at(board, i, d));
}

/// A bitboard-adjacent line on a valid board lies inside the playable grid:
/// the sentinel padding row above each column rules out every arrangement
/// that would wrap across a column boundary.
proof fn lemma_line_to_grid(board: u64, i: u64, d: u64)
    requires
        board_valid(board),
        is_direction(d),
        line_at(board, i, d),
    ensures
        grid_win(board),
{
    let n = i as int;
    vstd::arithmetic::div_mod::lemma_fundamental_div_mod(n, 7);
    vstd::arithmetic::div_mod::lemma_mod_bound(n, 7);
    let c = n / 7;
    let r = n % 7;
    assert(cell_bit(c, r) == i);
    if d == 1 {
        // A vertical line reaching position 6 would set a sentinel bit.
        if r == 3 {
            lemma_pos_of_index(n + 3, c, 6);
            assert(false);
        }
        if r == 4 {
            lemma_pos_of_index(n + 2, c, 6);
            assert(false);
        }
        if r == 5 {
            lemma_pos_of_index(n + 1, c, 6);
            assert(false);
        }
        assert(cell_bit(c, r + 1) == (i + 1) as u64);
        assert(cell_bit(c, r + 2) == (i + 2) as u64);
        assert(cell_bit(c, r + 3) == (i + 3) as u64);
        assert(grid_dir(0, 1) && grid_line(board, c, r, 0, 1));
    } else if d == 7 {
        // A horizontal line keeps its row; its last column stays on the board.
        lemma_pos_of_index(n + 7, c + 1, r);
        lemma_pos_of_index(n + 14, c + 2, r);
        lemma_pos_of_index(n + 21, c + 3, r);
        assert(cell_bit(c + 1, r) == (i + 7) as u64);
        assert(cell_bit(c + 2, r) == (i + 14) as u64);
        assert(cell_bit(c + 3, r) == (i + 21) as u64);
        assert(grid_dir(1, 0) && grid_line(board, c, r, 1, 0));
    } else if d == 8 {
        // The rising diagonal: each step would hit a sentinel before it
        // could wrap into the next column's bottom row.
        lemma_pos_of_index(n + 8, c + 1, r + 1);
        lemma_pos_of_index(n + 16, c + 2, r + 2);
        lemma_pos_of_index(n + 24, c + 3, r + 3);
        assert(cell_bit(c + 1, r + 1) == (i + 8) as u64);
        assert(cell_bit(c + 2, r + 2) == (i + 16) as u64);
        assert(cell_bit(c + 3, r + 3) == (i + 24) as u64);
        assert(grid_dir(1, 1) && grid_line(board, c, r, 1, 1));
    } else {
        // The falling diagonal: starting below row 3 runs into a sentinel.
        if r == 0 {
            lemma_pos_of_index(n + 6, c, 6);
            assert(false);
        }
        if r == 1 {
            lemma_pos_of_index(n + 12, c + 1, 6);
            assert(false);
        }
        if r == 2 {
            lemma_pos_of_index(n + 18, c + 2, 6);
            assert(false);
        }
        lemma_pos_of_index(n + 6, c + 1, r - 1);
        lemma_pos_of_index(n + 12, c + 2, r - 2);
        lemma_pos_of_index(n + 18, c + 3, r - 3);
        assert(cell_bit(c + 1, r - 1) == (i + 6) as u64);
        assert(cell_bit(c + 2, r - 2) == (i + 12) as u64);
        assert(cell_bit(c + 3, r - 3) == (i + 18) as u64);
        assert(grid_dir(1, -1) && grid_line(board, c, r, 1, -1));
    }
}

/// On a valid board, the stride-based win test of `has_won` agrees exactly
/// with four in a row on the playable grid, in every direction and at every
/// position; the per-column sentinel padding prevents any false positive
/// from wrapping across a column boundary.
pub proof fn lemma_win_iff_grid_win(board: u64)
    requires
        board_valid(board),
    ensures
        is_win(board) <==> grid_win(board),
{
    if is_win(board) {
        let (i, d) = choose|i: u64, d: u64| is_direction(d) && #[trigger] line_at(board, i, d);
        lemma_line_to_grid(board, i, d);
    }
    if grid_win(board) {
        let (c, r, dc, dr) = choose|c: int, r: int, dc: int, dr: int|
            grid_dir(dc, dr) && #[trigger] grid_line(board, c, r, dc, dr);
        lemma_grid_to_line(board, c, r, dc, dr);
    }
}

} // verus!
