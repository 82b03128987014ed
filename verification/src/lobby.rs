//! Lobby sequencer: issues monotonic game identifiers and holds the shared
//! board-geometry constants.

use vstd::prelude::*;

use crate::board::{bit_at, cell_bit, lemma_zero_board, TOP_ROW};
use crate::game::{filled_count, game_wf, occupied, Game, GameError, GameStatus, Player};

verus! {

/// The shared lobby: a monotonic game counter plus board-geometry constants,
/// read by every game.
pub struct ConnectFour {
    /// Count of games created so far; the next game's identifier.
    pub game_count: u64,
    /// The overflow-sentinel mask, `TOP_ROW`.
    pub top_row: u64,
    /// The write cursor each new game starts with: column `c` begins at its
    /// base bit index `7 * c`.
    pub initial_next_cell_index_by_column: [u64; 7],
}

/// The lobby carries the fixed board geometry.
pub open spec fn lobby_wf(l: ConnectFour) -> bool {
    &&& l.top_row == TOP_ROW
    &&& forall|c: int| 0 <= c < 7 ==> #[trigger] l.initial_next_cell_index_by_column@[c] == 7 * c
}

/// Initializes the lobby: zero games created, geometry constants set.
pub fn create() -> (connect_four: ConnectFour)
    ensures
        lobby_wf(connect_four),
        connect_four.game_count == 0,
{
    ConnectFour {
        game_count: 0,
        top_row: 283691315109952,
        initial_next_cell_index_by_column: [0, 7, 14, 21, 28, 35, 42],
    }
}

/// Decides `lobby_wf` at run time, for callers that load a lobby from
/// storage they do not control.
pub fn lobby_is_wf(lobby: &ConnectFour) -> (b: bool)
    ensures
        b == lobby_wf(*lobby),
{
    if lobby.top_row != 283691315109952 {
        return false;
    }
    let mut c: usize = 0;
    while c < 7
        invariant
            c <= 7,
            lobby.top_row == TOP_ROW,
            forall|j: int|
                0 <= j < c ==> #[trigger] lobby.initial_next_cell_index_by_column@[j] == 7 * j,
        decreases 7 - c,
    {
        if lobby.initial_next_cell_index_by_column[c] != 7 * (c as u64) {
            return false;
        }
        c += 1;
    }
    true
}

/// A game as `new_game_with_opponent` creates it: identified by the lobby's
/// counter, cursors on the column bases, empty boards, player 1 to move.
pub open spec fn fresh_game(g: Game, lobby: ConnectFour, player: Player, opponent: Player) -> bool {
    &&& g.game_id == lobby.game_count
    &&& g.player1 == player
    &&& g.player2 == opponent
    &&& g.next_cell_index_by_column@ == lobby.initial_next_cell_index_by_column@
    &&& g.board@[0] == 0 && g.board@[1] == 0
    &&& g.move_count == 0
    &&& g.status == GameStatus::Ongoing
    &&& game_wf(g)
}

/// Creates a new game between two distinct players, assigning it the lobby's
/// current counter value and advancing the counter by one; a player paired
/// with themselves is rejected and nothing changes.
pub fn new_game_with_opponent(
    connect_four: &mut ConnectFour,
    player: Player,
    opponent: Player,
) -> (r: Result<Game, GameError>)
    requires
        lobby_wf(*old(connect_four)),
        old(connect_four).game_count < u64::MAX,
    ensures
        lobby_wf(*final(connect_four)),
        (player == opponent) <==> (r == Err::<Game, GameError>(GameError::SamePlayers)),
        player == opponent ==> *final(connect_four) == *old(connect_four),
        player != opponent ==> {
            &&& final(connect_four).game_count == old(connect_four).game_count + 1
            &&& final(connect_four).top_row == old(connect_four).top_row
            &&& final(connect_four).initial_next_cell_index_by_column == old(
                connect_four,
            ).initial_next_cell_index_by_column
            &&& match r {
                Ok(g) => fresh_game(g, *old(connect_four), player, opponent),
                Err(_) => false,
            }
        },
{
    if player == opponent {
        return Err(GameError::SamePlayers);
    }
    let game = Game {
        game_id: connect_four.game_count,
        player1: player,
        player2: opponent,
        next_cell_index_by_column: connect_four.initial_next_cell_index_by_column,
        board: [0, 0],
        move_count: 0,
        status: GameStatus::Ongoing,
    };
    connect_four.game_count = connect_four.game_count + 1;
    proof {
        lemma_zero_board(0);
        assert(occupied(game) == 0u64);
        assert forall|c: int, r: int| 0 <= c < 7 && 0 <= r < 7 implies (#[trigger] bit_at(
            occupied(game),
            cell_bit(c, r),
        ) <==> 7 * c + r < game.next_cell_index_by_column@[c]) by {
            lemma_zero_board(cell_bit(c, r));
        }
        assert forall|i: u64| 49 <= i < 64 implies !(#[trigger] bit_at(occupied(game), i)) by {
            lemma_zero_board(i);
        }
        assert(filled_count(game) == 0);
    }
    Ok(game)
}

} // verus!
