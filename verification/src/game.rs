//! The session record, its lifecycle states, and the join handler.

use vstd::prelude::*;

verus! {

/// Lifecycle of a session. It starts in `Lobby`, where players may join.
/// `InProgress` is declared for a future start-of-play transition; no
/// operation in this library drives a session into it. `Ended` is terminal:
/// no operation ever leaves it.
#[derive(Clone, Copy, PartialEq, Eq, Structural, Debug)]
pub enum GameState {
    Lobby,
    InProgress,
    Ended,
}

/// Every way an operation on a session can be refused.
///
/// `TransferFailed` stands for a failure of the custodial value transfer
/// (the player's funding source cannot cover the entry fee); it is the one
/// error on which a retry can make sense. All the others mean the request
/// is invalid regardless of retry.
#[derive(Clone, Copy, PartialEq, Eq, Structural, Debug)]
pub enum GameError {
    GameNotInLobby,
    GameFull,
    UnauthorizedHost,
    GameAlreadyEnded,
    InvalidWinnerShares,
    TransferFailed,
}

/// The persistent record of one game session.
///
/// `host`, `entry_fee` and `max_players` are set once at creation and never
/// change. `total_prize_pool` is the sum of entry fees collected so far;
/// while the session is in the lobby it always equals
/// `entry_fee * player_count`.
#[derive(Clone, Copy, PartialEq, Eq, Structural, Debug)]
pub struct Game {
    pub host: u64,
    pub entry_fee: u64,
    pub max_players: u8,
    pub player_count: u8,
    pub state: GameState,
    pub total_prize_pool: u64,
}

/// Well-formedness of a session record: positive fee and capacity, the
/// capacity respected, the pool bounded so that one more fee can never
/// overflow, and exact accounting while the session is in the lobby.
pub open spec fn game_wf(g: Game) -> bool {
    &&& g.entry_fee > 0
    &&& g.max_players > 0
    &&& g.player_count <= g.max_players
    &&& g.entry_fee as int * g.max_players as int <= u64::MAX as int
    &&& (g.state is Lobby ==> g.total_prize_pool as int == g.entry_fee as int
        * g.player_count as int)
}

/// The custodial vault is controlled exclusively by the session's own
/// operations: until settlement it holds exactly the collected pool, and
/// once the session has ended it has been fully disbursed.
pub open spec fn custody_ok(g: Game, vault: u64) -> bool {
    if g.state is Ended {
        vault == 0
    } else {
        vault == g.total_prize_pool
    }
}

/// The decision the join handler makes, given the session and the balance of
/// the joining player's funding source: either the error it must return, or
/// `None` when the join is owed success.
pub open spec fn join_err(g: Game, funds: u64) -> Option<GameError> {
    if !(g.state is Lobby) {
        Some(GameError::GameNotInLobby)
    } else if g.player_count >= g.max_players {
        Some(GameError::GameFull)
    } else if funds < g.entry_fee {
        Some(GameError::TransferFailed)
    } else {
        None
    }
}

/// Open a new session: the caller becomes the host, the fee and capacity are
/// fixed, and the session starts empty in the lobby.
///
/// The bound on `entry_fee * max_players` is a machine limit: it keeps the
/// pool representable even when the session fills completely.
pub fn initialize_game(host: u64, entry_fee: u64, max_players: u8) -> (g: Game)
    requires
        entry_fee > 0,
        max_players > 0,
        entry_fee as int * max_players as int <= u64::MAX as int,
    ensures
        g == (Game {
            host,
            entry_fee,
            max_players,
            player_count: 0,
            state: GameState::Lobby,
            total_prize_pool: 0,
        }),
        game_wf(g),
        custody_ok(g, 0),
{
    Game {
        host,
        entry_fee,
        max_players,
        player_count: 0,
        state: GameState::Lobby,
        total_prize_pool: 0,
    }
}

/// Join a session: move exactly `entry_fee` from the player's funding source
/// into the custodial vault and count the player in.
///
/// The join is all-or-nothing: on any error — wrong state, full session, or
/// a funding source that cannot cover the fee — the session, the vault and
/// the funding source are all left exactly as they were.
pub fn join_game(game: &mut Game, player_funds: &mut u64, vault: &mut u64) -> (r: Result<
    (),
    GameError,
>)
    requires
        game_wf(*old(game)),
        custody_ok(*old(game), *old(vault)),
    ensures
        game_wf(*final(game)),
        custody_ok(*final(game), *final(vault)),
        final(game).host == old(game).host,
        final(game).entry_fee == old(game).entry_fee,
        final(game).max_players == old(game).max_players,
        final(game).state == old(game).state,
        (match join_err(*old(game), *old(player_funds)) {
            Some(e) => {
                &&& r == Err::<(), GameError>(e)
                &&& *final(game) == *old(game)
                &&& *final(vault) == *old(vault)
                &&& *final(player_funds) == *old(player_funds)
            },
            None => {
                &&& r == Ok::<(), GameError>(())
                &&& final(game).player_count == old(game).player_count + 1
                &&& final(game).total_prize_pool == old(game).total_prize_pool + old(
                    game,
                ).entry_fee
                &&& *final(vault) == *old(vault) + old(game).entry_fee
                &&& *final(player_funds) == *old(player_funds) - old(game).entry_fee
            },
        }),
{
    if game.state != GameState::Lobby {
        return Err(GameError::GameNotInLobby);
    }
    if game.player_count >= game.max_players {
        return Err(GameError::GameFull);
    }
    if *player_funds < game.entry_fee {
        return Err(GameError::TransferFailed);
    }
    proof {
        let fee = game.entry_fee as int;
        let cnt = game.player_count as int;
        let cap = game.max_players as int;
        assert(fee * cnt + fee == fee * (cnt + 1)) by (nonlinear_arith);
        assert(fee * (cnt + 1) <= fee * cap) by (nonlinear_arith)
            requires
                0 <= fee,
                cnt + 1 <= cap,
        ;
    }
    let fee = game.entry_fee;
    *player_funds = *player_funds - fee;
    *vault = *vault + fee;
    game.player_count = game.player_count + 1;
    game.total_prize_pool = game.total_prize_pool + fee;
    Ok(())
}

/// Law: while a session is in the lobby, the collected pool equals the entry
/// fee times the number of players who joined — every deposited fee is
/// accounted for, and nothing else ever enters the pool.
pub proof fn lemma_lobby_accounting(g: Game)
    requires
        game_wf(g),
        g.state is Lobby,
    ensures
        g.total_prize_pool as int == g.entry_fee as int * g.player_count as int,
{
}

} // verus!
