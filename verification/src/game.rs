//! Game state, move validation and the lifecycle state machine.

use vstd::prelude::*;

use crate::board::{bit_at, board_valid, cell_bit, grid_win, has_won, is_win, lemma_and_or_comm,
    lemma_win_iff_grid_win, lemma_disjoint_after_set, lemma_full_probe,
    lemma_mask_union_split, lemma_or_bits, lemma_or_single_bit, lemma_sentinel_mask,
    lemma_union_single_bit, lemma_xor_fresh_bit, TOP_ROW};
use crate::lobby::{lobby_wf, ConnectFour};

verus! {

/// An opaque 256-bit player identity, held as four 64-bit words.
#[derive(Clone, Copy, Debug, PartialEq, Eq, Structural)]
pub struct Player(pub u64, pub u64, pub u64, pub u64);

/// The outcome a finished game carries.
#[derive(Clone, Copy, Debug, PartialEq, Eq, Structural)]
pub enum GameResult {
    Player1Won,
    Player2Won,
    Draw,
}

/// Lifecycle of a game. `Idle` is kept for storage-format compatibility; no
/// operation of this crate ever produces it.
#[derive(Clone, Copy, Debug, PartialEq, Eq, Structural)]
pub enum GameStatus {
    Idle,
    Ongoing,
    Finished(GameResult),
}

/// Every way an operation can reject. Rejection never changes state.
#[derive(Clone, Copy, Debug, PartialEq, Eq, Structural)]
pub enum GameError {
    NotPlayerTurn,
    GameAlreadyFinished,
    InvalidColumnInput,
    ColumnAlreadyFull,
    SamePlayers,
}

/// One match between two players.
#[derive(Clone, Copy, Debug, PartialEq)]
pub struct Game {
    /// Identifier assigned by the lobby, unique per lobby.
    pub game_id: u64,
    /// Moves first, owns even-numbered turns.
    pub player1: Player,
    /// Owns odd-numbered turns.
    pub player2: Player,
    /// Next free bit index per column, from `7 * c` up to the sentinel
    /// `7 * c + 6`.
    pub next_cell_index_by_column: [u64; 7],
    /// One bitboard per player; the two never share a set bit.
    pub board: [u64; 2],
    /// Total discs placed, `0..=42`.
    pub move_count: u8,
    /// Lifecycle state; `Finished` is terminal.
    pub status: GameStatus,
}

/// Bits set in either player's board.
pub open spec fn occupied(g: Game) -> u64 {
    g.board@[0] | g.board@[1]
}

/// Total discs on the board, measured by how far each column cursor has
/// advanced past its base index.
pub open spec fn filled_count(g: Game) -> int {
    (g.next_cell_index_by_column@[0] - 0) + (g.next_cell_index_by_column@[1] - 7) + (
    g.next_cell_index_by_column@[2] - 14) + (g.next_cell_index_by_column@[3] - 21) + (
    g.next_cell_index_by_column@[4] - 28) + (g.next_cell_index_by_column@[5] - 35) + (
    g.next_cell_index_by_column@[6] - 42)
}

/// Column `c` already holds its six discs: the cursor sits on the sentinel.
pub open spec fn col_full(g: Game, c: int) -> bool
    recommends
        0 <= c < 7,
{
    g.next_cell_index_by_column@[c] == 7 * c + 6
}

/// The game's status is terminal.
pub open spec fn is_finished(s: GameStatus) -> bool {
    s is Finished
}

/// The player whose turn it is: even move counts belong to player 1.
pub open spec fn turn_player(g: Game) -> Player {
    if g.move_count % 2 == 0 {
        g.player1
    } else {
        g.player2
    }
}

/// The board index of the side acting on the current move.
pub open spec fn mover_index(g: Game) -> int {
    if g.move_count % 2 == 0 {
        0
    } else {
        1
    }
}

/// Well-formedness of a game's board state:
/// - each column cursor lies between its base index and its sentinel index;
/// - the two player boards share no set bit;
/// - within each column, exactly the cells below the cursor are occupied
///   (so sentinel bits are never set in a committed board);
/// - no bit beyond the 49-bit addressable space is set;
/// - the move count equals the number of discs placed.
pub open spec fn game_wf(g: Game) -> bool {
    &&& forall|c: int|
        0 <= c < 7 ==> 7 * c <= #[trigger] g.next_cell_index_by_column@[c] <= 7 * c + 6
    &&& g.board@[0] & g.board@[1] == 0
    &&& forall|c: int, r: int|
        0 <= c < 7 && 0 <= r < 7 ==> (#[trigger] bit_at(occupied(g), cell_bit(c, r)) <==> 7 * c + r
            < g.next_cell_index_by_column@[c])
    &&& forall|i: u64| 49 <= i < 64 ==> !(#[trigger] bit_at(occupied(g), i))
    &&& g.move_count as int == filled_count(g)
}

/// How a successful move into column `col` transforms the game: the mover's
/// board gains the bit at the column's cursor, that cursor advances by one,
/// the move count increments, and the status becomes a win for the mover if
/// the new board has four in a row, a draw on the 42nd move otherwise, and is
/// unchanged in every other case.
pub open spec fn move_applied(pre: Game, post: Game, col: int) -> bool
    recommends
        0 <= col < 7,
{
    let m = mover_index(pre);
    let cell = pre.next_cell_index_by_column@[col];
    let new_board = pre.board@[m] | (1u64 << cell);
    &&& post.game_id == pre.game_id
    &&& post.player1 == pre.player1
    &&& post.player2 == pre.player2
    &&& post.board@ == pre.board@.update(m, new_board)
    &&& post.next_cell_index_by_column@ == pre.next_cell_index_by_column@.update(
        col,
        (cell + 1) as u64,
    )
    &&& post.move_count == pre.move_count + 1
    &&& post.status == (if is_win(new_board) {
        GameStatus::Finished(
            if m == 0 {
                GameResult::Player1Won
            } else {
                GameResult::Player2Won
            },
        )
    } else if pre.move_count + 1 == 42 {
        GameStatus::Finished(GameResult::Draw)
    } else {
        pre.status
    })
}

/// Validates and applies one move. The checks run in order, each rejecting
/// with its own error and leaving the game unchanged: terminal status, turn
/// ownership, column bounds, column fullness. A valid move flips the bit at
/// the column's cursor in the mover's board and advances the lifecycle.
pub fn make_move(
    connect_four: &ConnectFour,
    game: &mut Game,
    player: Player,
    column_index: u8,
) -> (r: Result<(), GameError>)
    requires
        lobby_wf(*connect_four),
        game_wf(*old(game)),
    ensures
        game_wf(*final(game)),
        r is Err ==> *final(game) == *old(game),
        (r == Err::<(), GameError>(GameError::GameAlreadyFinished)) <==> is_finished(
            old(game).status,
        ),
        (r == Err::<(), GameError>(GameError::NotPlayerTurn)) <==> (!is_finished(old(game).status)
            && player != turn_player(*old(game))),
        (r == Err::<(), GameError>(GameError::InvalidColumnInput)) <==> (!is_finished(
            old(game).status,
        ) && player == turn_player(*old(game)) && column_index >= 7),
        (r == Err::<(), GameError>(GameError::ColumnAlreadyFull)) <==> (!is_finished(
            old(game).status,
        ) && player == turn_player(*old(game)) && column_index < 7 && col_full(
            *old(game),
            column_index as int,
        )),
        (r is Ok) <==> (!is_finished(old(game).status) && player == turn_player(*old(game))
            && column_index < 7 && !col_full(*old(game), column_index as int)),
        r is Ok ==> move_applied(*old(game), *final(game), column_index as int),
{
    match game.status {
        GameStatus::Finished(_) => {
            return Err(GameError::GameAlreadyFinished);
        },
        _ => {},
    }
    let next_player_index = (game.move_count & 1) as usize;
    proof {
        let mc = game.move_count;
        assert(mc & 1 == mc % 2) by (bit_vector);
    }
    let next_player = if next_player_index == 0 {
        game.player1
    } else {
        game.player2
    };
    if player != next_player {
        return Err(GameError::NotPlayerTurn);
    }
    if column_index >= 7 {
        return Err(GameError::InvalidColumnInput);
    }
    let column = column_index as usize;
    let cell = game.next_cell_index_by_column[column];
    proof {
        assert(7 * (column as int) <= cell <= 7 * (column as int) + 6);
        // The mover's board is clear of the sentinel mask.
        assert(cell_bit(0, 6) == 6u64 && cell_bit(1, 6) == 13u64 && cell_bit(2, 6) == 20u64
            && cell_bit(3, 6) == 27u64 && cell_bit(4, 6) == 34u64 && cell_bit(5, 6) == 41u64
            && cell_bit(6, 6) == 48u64);
        assert(!bit_at(occupied(*game), 6) && !bit_at(occupied(*game), 13) && !bit_at(
            occupied(*game),
            20,
        ) && !bit_at(occupied(*game), 27) && !bit_at(occupied(*game), 34) && !bit_at(
            occupied(*game),
            41,
        ) && !bit_at(occupied(*game), 48));
        lemma_sentinel_mask(occupied(*game));
        lemma_mask_union_split(game.board@[0], game.board@[1], TOP_ROW);
    }
    let staged = game.board[next_player_index] ^ (1u64 << cell);
    proof {
        lemma_full_probe(game.board@[next_player_index as int], cell);
    }
    if staged & connect_four.top_row != 0 {
        proof {
            assert(cell == 7 * (column as int) + 6);
        }
        return Err(GameError::ColumnAlreadyFull);
    }
    proof {
        // The cursor points at a playable cell, which is still free.
        assert(cell < 7 * (column as int) + 6);
        let r0 = cell - 7 * (column as int);
        assert(cell_bit(column as int, r0) == cell);
        assert(!bit_at(occupied(*game), cell));
        lemma_or_bits(game.board@[0], game.board@[1], cell);
        lemma_xor_fresh_bit(game.board@[next_player_index as int], cell);
    }
    let ghost pre = *game;
    game.board[next_player_index] = staged;
    game.next_cell_index_by_column[column] = cell + 1;
    proof {
        lemma_move_preserves_wf(pre, *game, column as int, cell);
    }
    let won = has_won(staged);
    if won {
        game.status = GameStatus::Finished(
            if next_player_index == 0 {
                GameResult::Player1Won
            } else {
                GameResult::Player2Won
            },
        );
    }
    game.move_count = game.move_count + 1;
    if !won && game.move_count == 42 {
        game.status = GameStatus::Finished(GameResult::Draw);
    }
    Ok(())
}

/// For every well-formed game, `has_won` on either player's board decides
/// exactly "four of that player's discs in a row on the 7x6 grid", in all
/// four directions and at every position, with no column-boundary wraparound.
pub proof fn lemma_game_win_iff_grid_win(g: Game)
    requires
        game_wf(g),
    ensures
        is_win(g.board@[0]) <==> grid_win(g.board@[0]),
        is_win(g.board@[1]) <==> grid_win(g.board@[1]),
{
    lemma_wf_boards_valid(g);
    lemma_win_iff_grid_win(g.board@[0]);
    lemma_win_iff_grid_win(g.board@[1]);
}

/// Turns alternate: after a successful move the other side is to play, so
/// the first move belongs to player 1, the second to player 2, and so on.
pub proof fn lemma_turns_alternate(pre: Game, post: Game, col: int)
    requires
        0 <= col < 7,
        move_applied(pre, post, col),
    ensures
        mover_index(post) == 1 - mover_index(pre),
        turn_player(pre) == pre.player1 ==> turn_player(post) == post.player2,
        turn_player(pre) == pre.player2 && pre.player1 != pre.player2 ==> turn_player(post)
            == post.player1,
{
}

/// The lifecycle advances exactly as the state machine prescribes: a line of
/// four for the mover ends the game at once in the mover's favour; failing
/// that, the 42nd move — and no earlier one — ends it in a draw; otherwise
/// the status is untouched.
pub proof fn lemma_status_transition(pre: Game, post: Game, col: int)
    requires
        0 <= col < 7,
        move_applied(pre, post, col),
    ensures
        is_win(post.board@[mover_index(pre)]) ==> post.status == GameStatus::Finished(
            if mover_index(pre) == 0 {
                GameResult::Player1Won
            } else {
                GameResult::Player2Won
            },
        ),
        !is_win(post.board@[mover_index(pre)]) && post.move_count == 42 ==> post.status
            == GameStatus::Finished(GameResult::Draw),
        !is_win(post.board@[mover_index(pre)]) && post.move_count < 42 ==> post.status
            == pre.status,
{
}

/// Decides `game_wf` at run time, for callers that load a game from
/// storage they do not control.
pub fn game_is_wf(game: &Game) -> (b: bool)
    ensures
        b == game_wf(*game),
{
    let mut c: usize = 0;
    while c < 7
        invariant
            c <= 7,
            forall|j: int|
                0 <= j < c ==> 7 * j <= #[trigger] game.next_cell_index_by_column@[j] <= 7 * j + 6,
        decreases 7 - c,
    {
        let p = game.next_cell_index_by_column[c];
        if p < 7 * (c as u64) || p > 7 * (c as u64) + 6 {
            return false;
        }
        c += 1;
    }
    if game.board[0] & game.board[1] != 0 {
        return false;
    }
    let occ = game.board[0] | game.board[1];
    proof {
        assert(occ == occupied(*game));
    }
    let mut cc: usize = 0;
    while cc < 7
        invariant
            cc <= 7,
            occ == occupied(*game),
            forall|j: int|
                0 <= j < 7 ==> 7 * j <= #[trigger] game.next_cell_index_by_column@[j] <= 7 * j + 6,
            forall|j: int, r: int|
                0 <= j < cc && 0 <= r < 7 ==> (#[trigger] bit_at(occupied(*game), cell_bit(j, r))
                    <==> 7 * j + r < game.next_cell_index_by_column@[j]),
        decreases 7 - cc,
    {
        let mut r: usize = 0;
        while r < 7
            invariant
                cc < 7,
                r <= 7,
                occ == occupied(*game),
                forall|j: int|
                    0 <= j < 7 ==> 7 * j <= #[trigger] game.next_cell_index_by_column@[j] <= 7 * j
                        + 6,
                forall|j: int, s: int|
                    0 <= j < cc && 0 <= s < 7 ==> (#[trigger] bit_at(
                        occupied(*game),
                        cell_bit(j, s),
                    ) <==> 7 * j + s < game.next_cell_index_by_column@[j]),
                forall|s: int|
                    0 <= s < r ==> (#[trigger] bit_at(occupied(*game), cell_bit(cc as int, s))
                        <==> 7 * (cc as int) + s < game.next_cell_index_by_column@[cc as int]),
            decreases 7 - r,
        {
            let idx = 7 * (cc as u64) + (r as u64);
            let below = idx < game.next_cell_index_by_column[cc];
            proof {
                assert(cell_bit(cc as int, r as int) == idx);
                assert(bit_at(occupied(*game), idx) == ((occ >> idx) & 1u64 == 1u64));
            }
            if ((occ >> idx) & 1 == 1) != below {
                return false;
            }
            r += 1;
        }
        cc += 1;
    }
    let mut i: u64 = 49;
    while i < 64
        invariant
            49 <= i <= 64,
            occ == occupied(*game),
            forall|j: u64| 49 <= j < i ==> !(#[trigger] bit_at(occupied(*game), j)),
        decreases 64 - i,
    {
        proof {
            assert(bit_at(occupied(*game), i) == ((occ >> i) & 1u64 == 1u64));
        }
        if (occ >> i) & 1 == 1 {
            return false;
        }
        i += 1;
    }
    let t = &game.next_cell_index_by_column;
    let sum = (t[0] - 0) + (t[1] - 7) + (t[2] - 14) + (t[3] - 21) + (t[4] - 28) + (t[5] - 35) + (
    t[6] - 42);
    if game.move_count as u64 != sum {
        return false;
    }
    true
}

/// In a well-formed game, both players' boards — and their union — hold
/// bits only at playable cells, so `lemma_win_iff_grid_win` applies to them:
/// `has_won` answers true on such a board exactly when four of its bits form
/// a line on the 7x6 grid.
pub proof fn lemma_wf_boards_valid(g: Game)
    requires
        game_wf(g),
    ensures
        board_valid(g.board@[0]),
        board_valid(g.board@[1]),
        board_valid(occupied(g)),
{
    assert forall|i: u64| i < 64 && #[trigger] bit_at(occupied(g), i) implies i < 49 && i % 7 < 6
        by {
        if i < 49 {
            let n = i as int;
            vstd::arithmetic::div_mod::lemma_fundamental_div_mod(n, 7);
            vstd::arithmetic::div_mod::lemma_mod_bound(n, 7);
            let c = n / 7;
            let r = n % 7;
            assert(cell_bit(c, r) == i);
            assert(bit_at(occupied(g), cell_bit(c, r)));
            assert(g.next_cell_index_by_column@[c] <= 7 * c + 6);
        }
    }
    assert forall|i: u64| i < 64 && #[trigger] bit_at(g.board@[0], i) implies i < 49 && i % 7 < 6
        by {
        lemma_or_bits(g.board@[0], g.board@[1], i);
        assert(bit_at(occupied(g), i));
    }
    assert forall|i: u64| i < 64 && #[trigger] bit_at(g.board@[1], i) implies i < 49 && i % 7 < 6
        by {
        lemma_or_bits(g.board@[0], g.board@[1], i);
        assert(bit_at(occupied(g), i));
    }
}

/// After the bit flip and cursor advance of a valid move, the board
/// invariants still hold; status and move count are handled by the caller.
proof fn lemma_move_preserves_wf(pre: Game, mid: Game, col: int, cell: u64)
    requires
        game_wf(pre),
        0 <= col < 7,
        cell == pre.next_cell_index_by_column@[col],
        7 * col <= cell < 7 * col + 6,
        mid.board@ == pre.board@.update(
            mover_index(pre),
            pre.board@[mover_index(pre)] ^ (1u64 << cell),
        ),
        mid.next_cell_index_by_column@ == pre.next_cell_index_by_column@.update(
            col,
            (cell + 1) as u64,
        ),
        mid.move_count == pre.move_count,
        mid.player1 == pre.player1,
        mid.player2 == pre.player2,
    ensures
        forall|c: int| 0 <= c < 7 ==> 7 * c <= #[trigger] mid.next_cell_index_by_column@[c] <= 7
            * c + 6,
        mid.board@[0] & mid.board@[1] == 0,
        forall|c: int, r: int|
            0 <= c < 7 && 0 <= r < 7 ==> (#[trigger] bit_at(occupied(mid), cell_bit(c, r)) <==> 7
                * c + r < mid.next_cell_index_by_column@[c]),
        forall|i: u64| 49 <= i < 64 ==> !(#[trigger] bit_at(occupied(mid), i)),
        mid.move_count as int == filled_count(mid) - 1,
        occupied(mid) == occupied(pre) | (1u64 << cell),
        mid.board@[mover_index(pre)] == pre.board@[mover_index(pre)] | (1u64 << cell),
        mid.board@[1 - mover_index(pre)] == pre.board@[1 - mover_index(pre)],
{
    let m = mover_index(pre);
    let r0 = cell - 7 * col;
    let b0 = pre.board@[0];
    let b1 = pre.board@[1];
    assert(cell_bit(col, r0) == cell);
    assert(!bit_at(occupied(pre), cell));
    lemma_or_bits(b0, b1, cell);
    lemma_and_or_comm(b0, b1);
    lemma_union_single_bit(b0, b1, cell);
    if m == 0 {
        lemma_xor_fresh_bit(b0, cell);
        lemma_disjoint_after_set(b0, b1, cell);
        assert(occupied(mid) == (b0 ^ (1u64 << cell)) | b1);
    } else {
        lemma_xor_fresh_bit(b1, cell);
        lemma_disjoint_after_set(b1, b0, cell);
        assert(occupied(mid) == b0 | (b1 ^ (1u64 << cell)));
    }
    assert(occupied(mid) == occupied(pre) | (1u64 << cell));
    assert forall|c: int, r: int| 0 <= c < 7 && 0 <= r < 7 implies (#[trigger] bit_at(
        occupied(mid),
        cell_bit(c, r),
    ) <==> 7 * c + r < mid.next_cell_index_by_column@[c]) by {
        lemma_or_single_bit(occupied(pre), cell, cell_bit(c, r));
        if cell_bit(c, r) == cell {
            assert(7 * c + r == cell);
            assert(c == col && r == r0);
        }
    }
    assert forall|i: u64| 49 <= i < 64 implies !(#[trigger] bit_at(occupied(mid), i)) by {
        lemma_or_single_bit(occupied(pre), cell, i);
    }
}

} // verus!
