//! What a vouch earns, a fee takes and the pool pays, in plain numbers.
use vstd::prelude::*;
use crate::arith::{bps_of, mul_div, trunc_div};
use crate::contract;
use crate::insurance::{loan_fee, loan_fee_fits, payout, slash_to_pool, slash_to_pool_fits};
use crate::laws::plain::{
    added_up, adds_up_in_range, count_at, divides_in_range, fits, has_loan, in_token,
    law_backing_is_by_token, law_lookups_read_the_record, law_one_quotient,
    law_products_are_divided, law_division_rounds_towards_zero, rounds_to, size, staked,
    vouches_at,
};
use crate::ledger::LedgerView;
use crate::loan;
use crate::shares::{share_fits, share_of};
use crate::types::{Address, VouchRecord};

verus! {

/// True if `a` is the age bonus of a vouch: twenty-five basis points for each full thirty days
/// since it was made, and two hundred at most. A vouch from the future has no age.
pub open spec fn age_bonus_is(a: int, made: int, now: int) -> bool {
    &&& 0 <= a <= 200
    &&& a % 25 == 0
    &&& a > 0 ==> now - made >= 2_592_000 * (a / 25)
    &&& a < 200 ==> now - made < 2_592_000 * (a / 25 + 1)
}

/// True if `h` is the bonus of a borrower's history: ten basis points for each repaid loan, less
/// twenty for each default, from nothing to a hundred.
pub open spec fn history_bonus_is(h: int, repaid: int, defaulted: int) -> bool {
    &&& 0 <= h <= 100
    &&& h > 0 ==> 10 * repaid - 20 * defaulted >= h
    &&& h < 100 ==> 10 * repaid - 20 * defaulted <= h
}

/// True if `raw` is the configured rate with both bonuses.
pub open spec fn raw_rate_is(
    l: LedgerView,
    vouch: VouchRecord,
    borrower: Address,
    now: u64,
    raw: int,
) -> bool {
    exists|a: int, h: int|
        {
            &&& #[trigger] age_bonus_is(a, vouch.vouch_timestamp as int, now as int)
            &&& #[trigger] history_bonus_is(
                h,
                count_at(l.repayment_counts, borrower.id),
                count_at(l.default_counts, borrower.id),
            )
            &&& raw == l.config->0.yield_bps + a + h
        }
}

/// True if `rate` is the rate at which a vouch earns: the configured rate with both bonuses, or
/// nothing where that is negative.
pub open spec fn rate_is(
    l: LedgerView,
    vouch: VouchRecord,
    borrower: Address,
    now: u64,
    rate: int,
) -> bool {
    exists|raw: int|
        {
            &&& #[trigger] raw_rate_is(l, vouch, borrower, now, raw)
            &&& rate >= 0
            &&& rate >= raw
            &&& rate == 0 || rate == raw
        }
}

/// There is one age bonus and one history bonus.
proof fn lemma_one_bonus(
    a: int,
    b: int,
    made: int,
    now: int,
    g: int,
    h: int,
    repaid: int,
    defaulted: int,
)
    requires
        age_bonus_is(a, made, now),
        age_bonus_is(b, made, now),
        history_bonus_is(g, repaid, defaulted),
        history_bonus_is(h, repaid, defaulted),
    ensures
        a == b,
        g == h,
{
}

/// There is one rate.
pub proof fn law_one_rate(
    l: LedgerView,
    vouch: VouchRecord,
    borrower: Address,
    now: u64,
    x: int,
    y: int,
)
    ensures
        raw_rate_is(l, vouch, borrower, now, x) && raw_rate_is(l, vouch, borrower, now, y)
            ==> x == y,
        rate_is(l, vouch, borrower, now, x) && rate_is(l, vouch, borrower, now, y) ==> x == y,
{
    let made = vouch.vouch_timestamp as int;
    let repaid = count_at(l.repayment_counts, borrower.id);
    let defaulted = count_at(l.default_counts, borrower.id);
    assert forall|p: int, q: int| #[trigger]
        raw_rate_is(l, vouch, borrower, now, p) && #[trigger] raw_rate_is(
            l,
            vouch,
            borrower,
            now,
            q,
        ) implies p == q by {
        let (a, g) = choose|a: int, g: int|
            {
                &&& #[trigger] age_bonus_is(a, made, now as int)
                &&& #[trigger] history_bonus_is(g, repaid, defaulted)
                &&& p == l.config->0.yield_bps + a + g
            };
        let (b, h) = choose|b: int, h: int|
            {
                &&& #[trigger] age_bonus_is(b, made, now as int)
                &&& #[trigger] history_bonus_is(h, repaid, defaulted)
                &&& q == l.config->0.yield_bps + b + h
            };
        lemma_one_bonus(a, b, made, now as int, g, h, repaid, defaulted);
    }
}

/// A vouch earns at the configured rate with its age bonus and the borrower's history bonus, and
/// the rate can be worked out exactly where that sum is in range.
pub proof fn law_rate_of_a_vouch(l: LedgerView, vouch: VouchRecord, borrower: Address, now: u64)
    ensures
        rate_is(l, vouch, borrower, now, loan::yield_rate(l, vouch, borrower, now)),
        loan::yield_rate_fits(l, vouch, borrower, now) <==> l.config is Some && (forall|raw: int|
            #[trigger] raw_rate_is(l, vouch, borrower, now, raw) ==> fits(raw)),
{
    let raw = loan::raw_rate(l, vouch, borrower, now);
    let age = loan::vouch_age(vouch, now);
    let a = loan::age_bonus(age);
    let repaid = count_at(l.repayment_counts, borrower.id);
    let defaulted = count_at(l.default_counts, borrower.id);
    let h = loan::reputation_bonus(repaid, defaulted);
    assert(age_bonus_is(a, vouch.vouch_timestamp as int, now as int));
    assert(history_bonus_is(h, repaid, defaulted));
    assert(raw == l.config->0.yield_bps + a + h);
    assert(raw_rate_is(l, vouch, borrower, now, raw));
    assert forall|x: int| #[trigger] raw_rate_is(l, vouch, borrower, now, x) implies x == raw by {
        law_one_rate(l, vouch, borrower, now, x, raw);
    }
}

/// The rate by credit score: one basis point on the configured rate for each hundred points,
/// fifty off for each default, and never below nothing. It can be worked out where each step is in
/// range.
pub proof fn law_rate_by_score(
    l: LedgerView,
    borrower: Address,
    nft_balance: Option<i128>,
    points: int,
)
    requires
        nft_balance matches Some(score) ==> rounds_to(points, score as int, 100),
        nft_balance is None ==> points == 0,
    ensures
        ({
            let rate = loan::dynamic_yield(l, borrower, nft_balance);
            let base = l.config->0.yield_bps as int;
            let off = 50 * count_at(l.default_counts, borrower.id);
            &&& rate >= 0
            &&& rate >= base + points - off
            &&& rate == 0 || rate == base + points - off
            &&& loan::dynamic_yield_fits(l, borrower, nft_balance) <==> {
                &&& l.config is Some
                &&& fits(base + points)
                &&& fits(base + points - off)
            }
        }),
{
    let score: int = match nft_balance {
        Some(s) => s as int,
        None => 0,
    };
    law_division_rounds_towards_zero(score, 100);
    law_one_quotient(
        points,
        trunc_div(score, 100),
        score,
        100,
    );
}

/// A borrower is eligible who has no active loan and has the threshold, above nothing, staked in
/// the token. It can be told where the stakes that count add up in range.
pub proof fn law_eligibility_is_by_stake(
    l: LedgerView,
    borrower: Address,
    threshold: i128,
    token: Address,
)
    ensures
        loan::eligible(l, borrower, threshold, token) <==> {
            &&& threshold > 0
            &&& !has_loan(l, borrower)
            &&& added_up(staked(in_token(vouches_at(l, borrower), token))) >= threshold
        },
        loan::eligible_fits(l, borrower, threshold, token) <==> (threshold > 0 && !has_loan(
            l,
            borrower,
        ) ==> adds_up_in_range(staked(in_token(vouches_at(l, borrower), token)))),
{
    law_lookups_read_the_record(l, borrower, 0, Seq::empty(), Map::empty());
    law_backing_is_by_token(vouches_at(l, borrower), token);
}

/// The share of a stake in a pot is in proportion to all stakes; without any stake there is none.
pub proof fn law_shares_are_in_proportion(pot: int, stake: int, total: int)
    ensures
        total > 0 ==> rounds_to(share_of(pot, stake, total), pot * stake, total),
        total <= 0 ==> share_of(pot, stake, total) == 0,
        share_fits(pot, stake, total) <==> (total > 0 ==> divides_in_range(pot, stake, total)),
{
    law_products_are_divided(pot, stake, total);
}

/// The yield of a loan, the fee on it and the pool's part of a slash are the configured basis
/// points of the amount, and a fifth of what was slashed.
pub proof fn law_fees_and_parts(l: LedgerView, amount: i128, slashed: int)
    ensures
        rounds_to(contract::flat_yield(l, amount), amount * l.config->0.yield_bps, 10_000),
        rounds_to(loan_fee(l, amount as int), amount * l.insurance_fee_bps, 10_000),
        loan_fee_fits(l, amount as int) <==> fits(amount * l.insurance_fee_bps) && fits(
            l.insurance_pool + loan_fee(l, amount as int),
        ),
        rounds_to(slash_to_pool(slashed), slashed * 2_000, 10_000),
        rounds_to(slash_to_pool(slashed), slashed, 5),
        slash_to_pool_fits(l, slashed) <==> fits(slashed * 2_000) && fits(
            l.insurance_pool + slash_to_pool(slashed),
        ),
{
    law_products_are_divided(amount as int, l.config->0.yield_bps as int, 1);
    law_products_are_divided(amount as int, l.insurance_fee_bps as int, 1);
    law_products_are_divided(slashed, 2_000, 1);
    let part = slash_to_pool(slashed);
    assert(size(10_000) == 10_000 && size(5) == 5);
    assert(size(slashed * 2_000) == 2_000 * size(slashed));
    assert(5 * size(part) <= size(slashed) < 5 * size(part) + 5);
}

/// The pool pays the covered part of the slashed stake, or all that it holds where that is less.
pub proof fn law_payout_is_the_covered_part(
    pool: int,
    slashed: int,
    coverage_bps: int,
    covered: int,
)
    requires
        rounds_to(covered, slashed * coverage_bps, 10_000),
    ensures
        payout(pool, slashed, coverage_bps) <= pool,
        payout(pool, slashed, coverage_bps) <= covered,
        payout(pool, slashed, coverage_bps) == pool || payout(pool, slashed, coverage_bps)
            == covered,
{
    law_products_are_divided(slashed, coverage_bps, 1);
    law_one_quotient(
        covered,
        bps_of(slashed, coverage_bps),
        slashed * coverage_bps,
        10_000,
    );
}

/// True if `y` is the yield of one vouch: its stake's share of the loan, at its rate.
pub open spec fn yield_is(y: int, amount: int, stake: int, total: int, rate: int) -> bool {
    exists|share: int|
        #[trigger] rounds_to(share, amount * stake, total) && rounds_to(y, share * rate, 10_000)
}

/// True if that yield can be worked out step by step on `i128` numbers.
pub open spec fn yield_in_range(amount: int, stake: int, total: int, rate: int) -> bool {
    &&& divides_in_range(amount, stake, total)
    &&& forall|share: int| #[trigger]
        rounds_to(share, amount * stake, total) ==> fits(share * rate)
}

/// There is one yield.
pub proof fn law_one_yield(x: int, y: int, amount: int, stake: int, total: int, rate: int)
    requires
        yield_is(x, amount, stake, total, rate),
        yield_is(y, amount, stake, total, rate),
    ensures
        x == y,
{
    let p = choose|p: int|
        #[trigger] rounds_to(p, amount * stake, total) && rounds_to(x, p * rate, 10_000);
    let q = choose|q: int|
        #[trigger] rounds_to(q, amount * stake, total) && rounds_to(y, q * rate, 10_000);
    law_one_quotient(p, q, amount * stake, total);
    law_one_quotient(x, y, p * rate, 10_000);
}

/// The yield of one vouch is its stake's share of the loan, at its own rate.
pub proof fn law_yield_of_a_vouch(
    l: LedgerView,
    v: VouchRecord,
    borrower: Address,
    amount: i128,
    total: int,
    rate: int,
)
    requires
        rate_is(l, v, borrower, l.now, rate),
    ensures
        total != 0 ==> yield_is(
            loan::vouch_yield(l, v, borrower, amount, total),
            amount as int,
            v.stake as int,
            total,
            rate,
        ),
        loan::vouch_yield_fits(l, v, borrower, amount, total) <==> {
            &&& l.config is Some
            &&& forall|raw: int| #[trigger]
                raw_rate_is(l, v, borrower, l.now, raw) ==> fits(raw)
            &&& yield_in_range(amount as int, v.stake as int, total, rate)
        },
{
    law_rate_of_a_vouch(l, v, borrower, l.now);
    law_one_rate(l, v, borrower, l.now, rate, loan::yield_rate(l, v, borrower, l.now));
    law_products_are_divided(amount as int, v.stake as int, total);
    let share = mul_div(amount as int, v.stake as int, total);
    law_products_are_divided(share, rate, 1);
    assert forall|q: int| #[trigger] rounds_to(q, amount * v.stake, total) && total != 0 implies q
        == share by {
        law_one_quotient(q, share, amount * v.stake, total);
    }
}

} // verus!
