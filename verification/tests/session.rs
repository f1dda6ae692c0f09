use triviajam::game::{initialize_game, join_game, GameError, GameState};
use triviajam::settle::end_game;

const HOST: u64 = 7;
const ALICE: u64 = 21;
const BOB: u64 = 22;
const CAROL: u64 = 23;

#[test]
fn initialize_game_starts_empty_lobby() {
    let g = initialize_game(HOST, 100, 2);
    assert_eq!(g.host, HOST);
    assert_eq!(g.entry_fee, 100);
    assert_eq!(g.max_players, 2);
    assert_eq!(g.player_count, 0);
    assert_eq!(g.state, GameState::Lobby);
    assert_eq!(g.total_prize_pool, 0);
}

#[test]
fn join_accumulates_pool_exactly() {
    let mut g = initialize_game(HOST, 100, 2);
    let mut vault: u64 = 0;

    let mut alice_funds: u64 = 250;
    assert_eq!(join_game(&mut g, &mut alice_funds, &mut vault), Ok(()));
    assert_eq!(g.player_count, 1);
    assert_eq!(g.total_prize_pool, 100);
    assert_eq!(g.total_prize_pool, g.entry_fee * g.player_count as u64);
    assert_eq!(alice_funds, 150);
    assert_eq!(vault, 100);

    let mut bob_funds: u64 = 100;
    assert_eq!(join_game(&mut g, &mut bob_funds, &mut vault), Ok(()));
    assert_eq!(g.player_count, 2);
    assert_eq!(g.total_prize_pool, 200);
    assert_eq!(g.total_prize_pool, g.entry_fee * g.player_count as u64);
    assert_eq!(bob_funds, 0);
    assert_eq!(vault, 200);
    assert_eq!(g.state, GameState::Lobby);
}

#[test]
fn join_beyond_capacity_fails_and_changes_nothing() {
    let mut g = initialize_game(HOST, 100, 2);
    let mut vault: u64 = 0;
    let mut funds: u64 = 1000;
    assert_eq!(join_game(&mut g, &mut funds, &mut vault), Ok(()));
    assert_eq!(join_game(&mut g, &mut funds, &mut vault), Ok(()));

    let before = g;
    assert_eq!(
        join_game(&mut g, &mut funds, &mut vault),
        Err(GameError::GameFull)
    );
    assert_eq!(g, before);
    assert_eq!(g.player_count, 2);
    assert_eq!(funds, 800);
    assert_eq!(vault, 200);
}

#[test]
fn join_outside_lobby_fails_and_changes_nothing() {
    let mut g = initialize_game(HOST, 100, 2);
    let mut vault: u64 = 0;
    let mut funds: u64 = 100;
    assert_eq!(join_game(&mut g, &mut funds, &mut vault), Ok(()));
    let winners = vec![(ALICE, 100u8)];
    end_game(&mut g, &mut vault, HOST, &winners).unwrap();
    assert_eq!(g.state, GameState::Ended);

    let before = g;
    let mut late_funds: u64 = 500;
    assert_eq!(
        join_game(&mut g, &mut late_funds, &mut vault),
        Err(GameError::GameNotInLobby)
    );
    assert_eq!(g, before);
    assert_eq!(late_funds, 500);
    assert_eq!(vault, 0);
}

#[test]
fn join_with_insufficient_funds_fails_and_changes_nothing() {
    let mut g = initialize_game(HOST, 100, 2);
    let mut vault: u64 = 0;
    let mut funds: u64 = 99;
    let before = g;
    assert_eq!(
        join_game(&mut g, &mut funds, &mut vault),
        Err(GameError::TransferFailed)
    );
    assert_eq!(g, before);
    assert_eq!(funds, 99);
    assert_eq!(vault, 0);
}

#[test]
fn settle_by_non_host_fails_and_changes_nothing() {
    let mut g = initialize_game(HOST, 100, 2);
    let mut vault: u64 = 0;
    let mut funds: u64 = 100;
    join_game(&mut g, &mut funds, &mut vault).unwrap();

    let before = g;
    let winners = vec![(ALICE, 100u8)];
    let r = end_game(&mut g, &mut vault, ALICE, &winners);
    assert_eq!(r.unwrap_err(), GameError::UnauthorizedHost);
    assert_eq!(g, before);
    assert_eq!(g.state, GameState::Lobby);
    assert_eq!(vault, 100);
}

#[test]
fn settle_example_distribution() {
    let mut g = initialize_game(HOST, 100, 2);
    let mut vault: u64 = 0;
    let mut alice_funds: u64 = 100;
    let mut bob_funds: u64 = 100;
    join_game(&mut g, &mut alice_funds, &mut vault).unwrap();
    join_game(&mut g, &mut bob_funds, &mut vault).unwrap();
    assert_eq!(g.total_prize_pool, 200);

    let winners = vec![(ALICE, 100u8)];
    let s = end_game(&mut g, &mut vault, HOST, &winners).unwrap();
    assert_eq!(s.host_fee, 8);
    assert_eq!(s.platform_fee, 2);
    assert_eq!(s.winner_payouts, vec![(ALICE, 190)]);
    assert_eq!(s.dust, 0);
    assert_eq!(vault, 0);
    assert_eq!(g.state, GameState::Ended);
    assert_eq!(g.total_prize_pool, 200);
}

#[test]
fn settle_with_zero_shares_fails_and_changes_nothing() {
    let mut g = initialize_game(HOST, 100, 2);
    let mut vault: u64 = 0;
    let mut funds: u64 = 200;
    join_game(&mut g, &mut funds, &mut vault).unwrap();
    join_game(&mut g, &mut funds, &mut vault).unwrap();

    let before = g;
    let winners = vec![(ALICE, 0u8), (BOB, 0u8)];
    let r = end_game(&mut g, &mut vault, HOST, &winners);
    assert_eq!(r.unwrap_err(), GameError::InvalidWinnerShares);
    assert_eq!(g, before);
    assert_eq!(g.state, GameState::Lobby);
    assert_eq!(vault, 200);
}

#[test]
fn settle_with_shares_over_denomination_fails() {
    let mut g = initialize_game(HOST, 100, 2);
    let mut vault: u64 = 0;
    let mut funds: u64 = 100;
    join_game(&mut g, &mut funds, &mut vault).unwrap();

    let before = g;
    let winners = vec![(ALICE, 60u8), (BOB, 41u8)];
    let r = end_game(&mut g, &mut vault, HOST, &winners);
    assert_eq!(r.unwrap_err(), GameError::InvalidWinnerShares);
    assert_eq!(g, before);
    assert_eq!(vault, 100);
}

#[test]
fn settle_with_empty_winner_list_fails() {
    let mut g = initialize_game(HOST, 100, 2);
    let mut vault: u64 = 0;
    let mut funds: u64 = 100;
    join_game(&mut g, &mut funds, &mut vault).unwrap();

    let winners: Vec<(u64, u8)> = Vec::new();
    let r = end_game(&mut g, &mut vault, HOST, &winners);
    assert_eq!(r.unwrap_err(), GameError::InvalidWinnerShares);
    assert_eq!(g.state, GameState::Lobby);
}

#[test]
fn settle_twice_fails_and_never_double_pays() {
    let mut g = initialize_game(HOST, 100, 2);
    let mut vault: u64 = 0;
    let mut funds: u64 = 200;
    join_game(&mut g, &mut funds, &mut vault).unwrap();
    join_game(&mut g, &mut funds, &mut vault).unwrap();

    let winners = vec![(ALICE, 100u8)];
    end_game(&mut g, &mut vault, HOST, &winners).unwrap();
    assert_eq!(g.state, GameState::Ended);
    assert_eq!(vault, 0);

    let before = g;
    let r = end_game(&mut g, &mut vault, HOST, &winners);
    assert_eq!(r.unwrap_err(), GameError::GameAlreadyEnded);
    assert_eq!(g, before);
    assert_eq!(vault, 0);
}

#[test]
fn settle_sweeps_floor_rounding_dust() {
    let mut g = initialize_game(HOST, 33, 3);
    let mut vault: u64 = 0;
    let mut funds: u64 = 99;
    join_game(&mut g, &mut funds, &mut vault).unwrap();
    join_game(&mut g, &mut funds, &mut vault).unwrap();
    join_game(&mut g, &mut funds, &mut vault).unwrap();
    assert_eq!(g.total_prize_pool, 99);

    // host fee = floor(99 * 4 / 100) = 3, platform fee = floor(99 / 100) = 0,
    // distributable = 96; each winner gets floor(96 * 33 / 100) = 31.
    let winners = vec![(ALICE, 33u8), (BOB, 33u8), (CAROL, 33u8)];
    let s = end_game(&mut g, &mut vault, HOST, &winners).unwrap();
    assert_eq!(s.host_fee, 3);
    assert_eq!(s.platform_fee, 0);
    assert_eq!(s.winner_payouts, vec![(ALICE, 31), (BOB, 31), (CAROL, 31)]);
    assert_eq!(s.dust, 3);
    // Nothing is lost: fees + payouts + swept dust drain the pool exactly.
    let paid: u64 = s.winner_payouts.iter().map(|p| p.1).sum();
    assert_eq!(s.host_fee + s.platform_fee + s.dust + paid, 99);
    assert_eq!(vault, 0);
}

#[test]
fn settle_splits_between_multiple_winners_in_order() {
    let mut g = initialize_game(HOST, 100, 2);
    let mut vault: u64 = 0;
    let mut funds: u64 = 200;
    join_game(&mut g, &mut funds, &mut vault).unwrap();
    join_game(&mut g, &mut funds, &mut vault).unwrap();

    let winners = vec![(BOB, 60u8), (ALICE, 40u8)];
    let s = end_game(&mut g, &mut vault, HOST, &winners).unwrap();
    // distributable = 200 - 8 - 2 = 190; 60% -> 114, 40% -> 76.
    assert_eq!(s.winner_payouts, vec![(BOB, 114), (ALICE, 76)]);
    assert_eq!(s.dust, 0);
    assert_eq!(vault, 0);
}

#[test]
fn settle_empty_session_pays_nothing() {
    let mut g = initialize_game(HOST, 100, 2);
    let mut vault: u64 = 0;
    let winners = vec![(ALICE, 100u8)];
    let s = end_game(&mut g, &mut vault, HOST, &winners).unwrap();
    assert_eq!(s.host_fee, 0);
    assert_eq!(s.platform_fee, 0);
    assert_eq!(s.winner_payouts, vec![(ALICE, 0)]);
    assert_eq!(s.dust, 0);
    assert_eq!(g.state, GameState::Ended);
    assert_eq!(vault, 0);
}
