//! The settlement engine: fee deduction and per-winner payout computation.
//!
//! Winner shares are percentages: a share is an integer number of hundredths
//! of the distributable pool, and a valid winner list has shares summing to
//! more than 0 and at most 100. All division is floor division; the fees are
//! floored, so any rounding remainder from the fee computation stays in the
//! distributable pool, and the remainder left by the floored winner payouts
//! is reported as `dust`, to be swept to the platform account.

use vstd::arithmetic::div_mod::{
    lemma_div_is_ordered,
    lemma_div_multiples_vanish,
    lemma_div_pos_is_pos,
    lemma_fundamental_div_mod,
};
use vstd::prelude::*;

use crate::game::{custody_ok, game_wf, Game, GameError, GameState};

verus! {

/// The host's service fee: 4% of the pool, floored.
pub open spec fn host_fee_of(t: int) -> int {
    t * 4 / 100
}

/// The platform's service fee: 1% of the pool, floored.
pub open spec fn platform_fee_of(t: int) -> int {
    t / 100
}

/// What remains of the pool for the winners once both fees are deducted.
pub open spec fn distributable_of(t: int) -> int {
    t - host_fee_of(t) - platform_fee_of(t)
}

/// A single winner's payout: the given percentage share of the
/// distributable pool, floored.
pub open spec fn payout_of(d: int, share: u8) -> int {
    d * (share as int) / 100
}

/// The sum of the shares of a winner list.
pub open spec fn sum_shares(w: Seq<(u64, u8)>) -> int
    decreases w.len(),
{
    if w.len() == 0 {
        0
    } else {
        sum_shares(w.drop_last()) + w.last().1
    }
}

/// The sum of the floored payouts of a winner list, out of a distributable
/// pool of `d`.
pub open spec fn sum_payouts(d: int, w: Seq<(u64, u8)>) -> int
    decreases w.len(),
{
    if w.len() == 0 {
        0
    } else {
        sum_payouts(d, w.drop_last()) + payout_of(d, w.last().1)
    }
}

proof fn lemma_sum_shares_nonneg(w: Seq<(u64, u8)>)
    ensures
        0 <= sum_shares(w),
    decreases w.len(),
{
    if w.len() > 0 {
        lemma_sum_shares_nonneg(w.drop_last());
    }
}

proof fn lemma_sum_shares_take_step(w: Seq<(u64, u8)>, i: int)
    requires
        0 <= i < w.len(),
    ensures
        sum_shares(w.take(i + 1)) == sum_shares(w.take(i)) + w[i].1,
{
    assert(w.take(i + 1).drop_last() =~= w.take(i));
    assert(w.take(i + 1).last() == w[i]);
}

proof fn lemma_sum_shares_prefix_le(w: Seq<(u64, u8)>, i: int)
    requires
        0 <= i <= w.len(),
    ensures
        sum_shares(w.take(i)) <= sum_shares(w),
    decreases w.len() - i,
{
    if i == w.len() {
        assert(w.take(i) =~= w);
    } else {
        lemma_sum_shares_take_step(w, i);
        lemma_sum_shares_prefix_le(w, i + 1);
    }
}

proof fn lemma_share_le_sum(w: Seq<(u64, u8)>, i: int)
    requires
        0 <= i < w.len(),
    ensures
        w[i].1 <= sum_shares(w),
{
    lemma_sum_shares_take_step(w, i);
    lemma_sum_shares_nonneg(w.take(i));
    lemma_sum_shares_prefix_le(w, i + 1);
}

/// Floor division distributes over addition with a loss of at most one
/// divisor's worth: the sum of two floored quotients never exceeds the
/// floored quotient of the sum.
proof fn lemma_div_add_le(a: int, b: int, d: int)
    requires
        0 <= a,
        0 <= b,
        0 < d,
    ensures
        a / d + b / d <= (a + b) / d,
{
    lemma_fundamental_div_mod(a, d);
    lemma_fundamental_div_mod(b, d);
    let q = a / d + b / d;
    assert(0 <= a % d && 0 <= b % d) by (nonlinear_arith)
        requires
            0 <= a,
            0 <= b,
            0 < d,
    ;
    assert(d * (a / d + b / d) == d * (a / d) + d * (b / d)) by (nonlinear_arith);
    assert(d * q <= a + b);
    lemma_div_is_ordered(d * q, a + b, d);
    lemma_div_multiples_vanish(q, d);
}

/// A floored percentage of a non-negative amount lies between 0 and the
/// amount itself, as long as the percentage is at most 100.
proof fn lemma_percent_le_whole(d: int, s: int)
    requires
        0 <= d,
        0 <= s,
        s <= 100,
    ensures
        0 <= d * s / 100,
        d * s / 100 <= d,
        d * s <= d * 100,
{
    assert(0 <= d * s) by (nonlinear_arith)
        requires
            0 <= d,
            0 <= s,
    ;
    lemma_div_pos_is_pos(d * s, 100);
    assert(d * s <= d * 100) by (nonlinear_arith)
        requires
            0 <= d,
            s <= 100,
    ;
    lemma_div_is_ordered(d * s, d * 100, 100);
    assert(d * 100 == 100 * d);
    lemma_div_multiples_vanish(d, 100);
}

/// Both service fees together never exceed the pool they are taken from, so
/// the distributable remainder is a well-defined, non-negative amount.
pub proof fn lemma_fee_bounds(t: int)
    requires
        0 <= t,
    ensures
        0 <= host_fee_of(t),
        0 <= platform_fee_of(t),
        host_fee_of(t) + platform_fee_of(t) <= t,
        0 <= distributable_of(t) <= t,
{
    lemma_div_pos_is_pos(t * 4, 100);
    lemma_div_pos_is_pos(t, 100);
    lemma_div_add_le(t * 4, t, 100);
    assert(t * 4 + t == t * 5);
    lemma_div_is_ordered(t * 5, t * 100, 100);
    assert(t * 100 == 100 * t);
    lemma_div_multiples_vanish(t, 100);
}

proof fn lemma_sum_payouts_take_step(d: int, w: Seq<(u64, u8)>, i: int)
    requires
        0 <= i < w.len(),
    ensures
        sum_payouts(d, w.take(i + 1)) == sum_payouts(d, w.take(i)) + payout_of(d, w[i].1),
{
    assert(w.take(i + 1).drop_last() =~= w.take(i));
    assert(w.take(i + 1).last() == w[i]);
}

proof fn lemma_sum_payouts_le(d: int, w: Seq<(u64, u8)>)
    requires
        0 <= d,
    ensures
        0 <= sum_payouts(d, w),
        sum_payouts(d, w) <= d * sum_shares(w) / 100,
    decreases w.len(),
{
    if w.len() == 0 {
        assert(d * 0 / 100 == 0);
    } else {
        let wp = w.drop_last();
        let c = w.last().1 as int;
        lemma_sum_payouts_le(d, wp);
        lemma_sum_shares_nonneg(wp);
        let s = sum_shares(wp);
        assert(0 <= d * c) by (nonlinear_arith)
            requires
                0 <= d,
                0 <= c,
        ;
        lemma_div_pos_is_pos(d * c, 100);
        assert(0 <= d * s) by (nonlinear_arith)
            requires
                0 <= d,
                0 <= s,
        ;
        lemma_div_add_le(d * s, d * c, 100);
        assert(d * s + d * c == d * (s + c)) by (nonlinear_arith);
    }
}

/// The floored winner payouts never overdraw the distributable pool when
/// the shares sum to at most 100.
pub proof fn lemma_payouts_within_pool(d: int, w: Seq<(u64, u8)>)
    requires
        0 <= d,
        sum_shares(w) <= 100,
    ensures
        0 <= sum_payouts(d, w),
        sum_payouts(d, w) <= d,
{
    lemma_sum_payouts_le(d, w);
    lemma_sum_shares_nonneg(w);
    lemma_percent_le_whole(d, sum_shares(w));
}

/// The full payout plan of one settlement: what each winner is owed, in the
/// order of the winner list, and the two service fees. `dust` is the
/// remainder the floored winner payouts leave in the vault; it is swept to
/// the platform account rather than dropped, so the vault always drains to
/// exactly zero.
#[derive(Debug)]
pub struct Settlement {
    pub winner_payouts: Vec<(u64, u64)>,
    pub host_fee: u64,
    pub platform_fee: u64,
    pub dust: u64,
}

/// The decision the settlement engine makes, given the session, the caller
/// and the winner list: either the error it must return, or `None` when
/// settlement is owed success.
pub open spec fn settle_err(g: Game, caller: u64, winners: Seq<(u64, u8)>) -> Option<GameError> {
    if caller != g.host {
        Some(GameError::UnauthorizedHost)
    } else if g.state is Ended {
        Some(GameError::GameAlreadyEnded)
    } else if sum_shares(winners) == 0 || sum_shares(winners) > 100 {
        Some(GameError::InvalidWinnerShares)
    } else {
        None
    }
}

/// What a correct payout plan for a pool of `t` and the given winner list
/// states: exact fees, one exact floored payout per winner in list order,
/// and the exact rounding remainder.
pub open spec fn settlement_ok(t: int, winners: Seq<(u64, u8)>, s: Settlement) -> bool {
    &&& s.host_fee as int == host_fee_of(t)
    &&& s.platform_fee as int == platform_fee_of(t)
    &&& s.winner_payouts@.len() == winners.len()
    &&& (forall|i: int|
        0 <= i < winners.len() ==> s.winner_payouts@[i].0 == winners[i].0
            && s.winner_payouts@[i].1 as int == payout_of(distributable_of(t), winners[i].1))
    &&& s.dust as int == distributable_of(t) - sum_payouts(distributable_of(t), winners)
}

/// Settle a session: deduct the two service fees from the pool, compute the
/// floored payout owed to each winner, drain the custodial vault, and move
/// the session to its terminal state.
///
/// Only the host may settle, a session can be settled only once, and the
/// winner shares must sum to more than 0 and at most 100. On any error the
/// session and the vault are left exactly as they were — in particular a
/// second settlement of an ended session fails with `GameAlreadyEnded` and
/// pays nothing. On success the returned plan accounts for every unit of
/// the pool: fees, payouts and swept dust sum exactly to it.
#[verifier::loop_isolation(false)]
pub fn end_game(game: &mut Game, vault: &mut u64, caller: u64, winners: &Vec<(u64, u8)>) -> (r:
    Result<Settlement, GameError>)
    requires
        game_wf(*old(game)),
        custody_ok(*old(game), *old(vault)),
    ensures
        game_wf(*final(game)),
        custody_ok(*final(game), *final(vault)),
        final(game).host == old(game).host,
        final(game).entry_fee == old(game).entry_fee,
        final(game).max_players == old(game).max_players,
        final(game).player_count == old(game).player_count,
        final(game).total_prize_pool == old(game).total_prize_pool,
        (match settle_err(*old(game), caller, winners@) {
            Some(e) => {
                &&& r == Err::<Settlement, GameError>(e)
                &&& *final(game) == *old(game)
                &&& *final(vault) == *old(vault)
            },
            None => {
                &&& final(game).state is Ended
                &&& *final(vault) == 0
                &&& (match r {
                    Ok(s) => settlement_ok(old(game).total_prize_pool as int, winners@, s),
                    Err(_) => false,
                })
            },
        }),
{
    if game.host != caller {
        return Err(GameError::UnauthorizedHost);
    }
    if game.state == GameState::Ended {
        return Err(GameError::GameAlreadyEnded);
    }
    let ghost w = winners@;
    let n = winners.len();

    // Validate the winner shares before touching anything.
    let mut share_sum: u64 = 0;
    let mut i: usize = 0;
    while i < n
        invariant
            i <= n,
            share_sum as int == sum_shares(w.take(i as int)),
            share_sum <= 100,
        decreases n - i,
    {
        proof {
            lemma_sum_shares_take_step(w, i as int);
        }
        share_sum = share_sum + (winners[i].1 as u64);
        i = i + 1;
        if share_sum > 100 {
            proof {
                lemma_sum_shares_prefix_le(w, i as int);
            }
            return Err(GameError::InvalidWinnerShares);
        }
    }
    proof {
        assert(w.take(n as int) =~= w);
    }
    if share_sum == 0 {
        return Err(GameError::InvalidWinnerShares);
    }

    // Snapshot the pool and take the floored service fees off it.
    let t = game.total_prize_pool;
    proof {
        lemma_fee_bounds(t as int);
    }
    let hf_wide: u128 = (t as u128) * 4 / 100;
    let pf_wide: u128 = (t as u128) / 100;
    let host_fee: u64 = hf_wide as u64;
    let platform_fee: u64 = pf_wide as u64;
    let d: u64 = t - host_fee - platform_fee;
    let ghost di = d as int;

    // One floored payout per winner, in list order.
    let mut winner_payouts: Vec<(u64, u64)> = Vec::new();
    let mut paid: u64 = 0;
    let mut j: usize = 0;
    while j < n
        invariant
            j <= n,
            winner_payouts@.len() == j as int,
            forall|k: int|
                0 <= k < j as int ==> winner_payouts@[k].0 == w[k].0 && winner_payouts@[k].1
                    as int == payout_of(di, w[k].1),
            paid as int == sum_payouts(di, w.take(j as int)),
            paid <= d,
        decreases n - j,
    {
        let share = winners[j].1;
        proof {
            lemma_share_le_sum(w, j as int);
            lemma_percent_le_whole(di, share as int);
        }
        let amt_wide: u128 = (d as u128) * (share as u128) / 100;
        let amount: u64 = amt_wide as u64;
        winner_payouts.push((winners[j].0, amount));
        proof {
            lemma_sum_payouts_take_step(di, w, j as int);
            lemma_sum_shares_prefix_le(w, j as int + 1);
            lemma_payouts_within_pool(di, w.take(j as int + 1));
        }
        paid = paid + amount;
        j = j + 1;
    }
    proof {
        assert(w.take(n as int) =~= w);
    }
    let dust = d - paid;

    // Every transfer amount is fixed; the vault drains completely and the
    // session reaches its terminal state.
    *vault = 0;
    game.state = GameState::Ended;
    Ok(Settlement { winner_payouts, host_fee, platform_fee, dust })
}

/// Law: settlement neither loses nor invents funds. For any payout plan a
/// settlement states for a pool of `t`, the two service fees, the swept
/// dust and the winner payouts together sum to exactly `t`.
pub proof fn lemma_settlement_conserves_pool(t: int, winners: Seq<(u64, u8)>, s: Settlement)
    requires
        0 <= t,
        settlement_ok(t, winners, s),
    ensures
        s.host_fee as int + s.platform_fee as int + s.dust as int + sum_payouts(
            distributable_of(t),
            winners,
        ) == t,
{
}

/// Law: settlement is final. Once a session has ended, any further
/// settlement attempt is refused — for the host with `GameAlreadyEnded` —
/// and the settlement contract then leaves the session and the vault
/// untouched, so a settled session can never pay out twice.
pub proof fn lemma_settled_session_is_final(g: Game, caller: u64, winners: Seq<(u64, u8)>)
    requires
        g.state is Ended,
    ensures
        settle_err(g, caller, winners) is Some,
        caller == g.host ==> settle_err(g, caller, winners) == Some(GameError::GameAlreadyEnded),
{
}

} // verus!
