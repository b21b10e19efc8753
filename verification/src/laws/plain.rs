//! Quotients, totals and lookups in plain arithmetic over what is on record. The laws about the
//! operations are stated in these words; none of the operations uses them.
use vstd::prelude::*;
use crate::arith::{
    bps_of, bps_of_fits, in_i128, mul_div, mul_div_fits, sum, sums_fit, trunc_div,
};
use crate::ledger::{approvals, count_of, LedgerView};
use crate::shares::{backing, locked_yield, stakes, total_stake};
use crate::types::{Address, HostCall, LoanView, VouchRecord, YieldDistributionEntry};

verus! {

/// True for the integers that an `i128` can hold.
pub open spec fn fits(x: int) -> bool {
    -170141183460469231731687303715884105728 <= x <= 170141183460469231731687303715884105727
}

/// An integer without its sign.
pub open spec fn size(x: int) -> int {
    if x < 0 {
        -x
    } else {
        x
    }
}

/// True if `q` is what is left of `n / d` without its fraction.
pub open spec fn rounds_to(q: int, n: int, d: int) -> bool {
    &&& size(d) * size(q) <= size(n) < size(d) * size(q) + size(d)
    &&& q > 0 ==> (n > 0) == (d > 0)
    &&& q < 0 ==> (n > 0) != (d > 0)
}

/// True if `a * b / d` can be worked out step by step on `i128` numbers.
pub open spec fn divides_in_range(a: int, b: int, d: int) -> bool {
    fits(a * b) && d != 0 && !(d == -1 && a * b == i128::MIN)
}

/// There is at most one such quotient.
pub proof fn law_one_quotient(q: int, r: int, n: int, d: int)
    requires
        rounds_to(q, n, d),
        rounds_to(r, n, d),
    ensures
        q == r,
{
    let (x, y, m, e) = (size(q), size(r), size(n), size(d));
    assert(x == y) by (nonlinear_arith)
        requires
            e >= 0,
            x >= 0,
            y >= 0,
            e * x <= m < e * x + e,
            e * y <= m < e * y + e,
    ;
}

proof fn lemma_sizes_divide(m: int, e: int)
    requires
        m >= 0,
        e > 0,
    ensures
        m / e >= 0,
        e * (m / e) <= m < e * (m / e) + e,
        m / e <= m,
        e >= 2 ==> 2 * (m / e) <= m,
{
    vstd::arithmetic::div_mod::lemma_fundamental_div_mod(m, e);
    vstd::arithmetic::div_mod::lemma_mod_bound(m, e);
    vstd::arithmetic::div_mod::lemma_div_pos_is_pos(m, e);
    let q = m / e;
    assert(q <= m && (e >= 2 ==> 2 * q <= m)) by (nonlinear_arith)
        requires
            q >= 0,
            e > 0,
            e * q <= m,
    ;
}

/// Division rounds towards zero, and on `i128` numbers it fails for a divisor of zero and for the
/// one quotient that is too large.
pub proof fn law_division_rounds_towards_zero(n: int, d: int)
    requires
        d != 0,
    ensures
        rounds_to(trunc_div(n, d), n, d),
        fits(n) ==> (in_i128(trunc_div(n, d)) <==> !(d == -1 && n == i128::MIN)),
{
    lemma_sizes_divide(size(n), size(d));
    let x = size(n) / size(d);
    assert(size(trunc_div(n, d)) == x);
    if size(d) == 1 {
        assert(x == size(n)) by (nonlinear_arith)
            requires
                1 * x <= size(n) < 1 * x + 1,
        ;
    }
    if n == 0 {
        assert(x == 0);
    }
}

/// A product over a divisor, and basis points of an amount, come out rounded towards zero, and
/// can be worked out exactly where each step of them is in range.
pub proof fn law_products_are_divided(a: int, b: int, d: int)
    ensures
        d != 0 ==> rounds_to(mul_div(a, b, d), a * b, d),
        mul_div_fits(a, b, d) <==> divides_in_range(a, b, d),
        rounds_to(bps_of(a, b), a * b, 10_000),
        bps_of_fits(a, b) <==> fits(a * b),
{
    if d != 0 {
        law_division_rounds_towards_zero(a * b, d);
    }
    law_division_rounds_towards_zero(a * b, 10_000);
}

/// All items of a sequence together.
pub open spec fn added_up(s: Seq<int>) -> int
    decreases s.len(),
{
    if s.len() == 0 {
        0
    } else {
        s[0] + added_up(s.skip(1))
    }
}

/// True if the items can be added up, one after the other, on `i128` numbers.
pub open spec fn adds_up_in_range(s: Seq<int>) -> bool {
    forall|k: int| 0 <= k <= s.len() ==> fits(#[trigger] added_up(s.take(k)))
}

/// One more item makes the total larger by it.
pub proof fn lemma_added_push(s: Seq<int>, x: int)
    ensures
        added_up(s.push(x)) == added_up(s) + x,
    decreases s.len(),
{
    reveal_with_fuel(added_up, 2);
    if s.len() == 0 {
        assert(s.push(x).skip(1) =~= Seq::<int>::empty());
    } else {
        lemma_added_push(s.skip(1), x);
        assert(s.push(x).skip(1) =~= s.skip(1).push(x));
    }
}

/// A sum is all items added up, and it stays in range where the running total does.
pub proof fn law_sums_add_up(s: Seq<int>)
    ensures
        sum(s) == added_up(s),
        sums_fit(s) <==> adds_up_in_range(s),
{
    assert forall|k: int| 0 <= k <= s.len() implies #[trigger] sum(s.take(k)) == added_up(
        s.take(k),
    ) by {
        lemma_sum_is_added_up(s.take(k));
    }
    assert(s.take(s.len() as int) =~= s);
    if sums_fit(s) {
        assert forall|k: int| 0 <= k <= s.len() implies fits(#[trigger] added_up(s.take(k))) by {
            assert(in_i128(sum(s.take(k))));
        }
    }
    if adds_up_in_range(s) {
        assert forall|k: int| 0 <= k <= s.len() implies in_i128(#[trigger] sum(s.take(k))) by {
            assert(fits(added_up(s.take(k))));
        }
    }
}

proof fn lemma_sum_is_added_up(s: Seq<int>)
    ensures
        sum(s) == added_up(s),
    decreases s.len(),
{
    if s.len() > 0 {
        lemma_sum_is_added_up(s.drop_last());
        lemma_added_push(s.drop_last(), s.last());
        assert(s.drop_last().push(s.last()) =~= s);
    }
}

/// The vouches in one token, in order.
pub open spec fn in_token(vouches: Seq<VouchRecord>, token: Address) -> Seq<VouchRecord>
    decreases vouches.len(),
{
    if vouches.len() == 0 {
        Seq::empty()
    } else if vouches[0].token == token {
        seq![vouches[0]] + in_token(vouches.skip(1), token)
    } else {
        in_token(vouches.skip(1), token)
    }
}

/// The stakes of some vouches, one by one.
pub open spec fn staked(vouches: Seq<VouchRecord>) -> Seq<int> {
    Seq::new(vouches.len(), |i: int| vouches[i].stake as int)
}

proof fn lemma_in_token_push(vouches: Seq<VouchRecord>, v: VouchRecord, token: Address)
    ensures
        in_token(vouches.push(v), token) == (if v.token == token {
            in_token(vouches, token).push(v)
        } else {
            in_token(vouches, token)
        }),
    decreases vouches.len(),
{
    reveal_with_fuel(in_token, 2);
    if vouches.len() == 0 {
        assert(vouches.push(v).skip(1) =~= Seq::<VouchRecord>::empty());
        assert(in_token(vouches.push(v), token) =~= (if v.token == token {
            in_token(vouches, token).push(v)
        } else {
            in_token(vouches, token)
        }));
    } else {
        lemma_in_token_push(vouches.skip(1), v, token);
        assert(vouches.push(v).skip(1) =~= vouches.skip(1).push(v));
        assert(in_token(vouches.push(v), token) =~= (if v.token == token {
            in_token(vouches, token).push(v)
        } else {
            in_token(vouches, token)
        }));
    }
}

/// A loan is backed by the vouches in its token, all of them and no others, in order; and their
/// total is their stakes added up.
pub proof fn law_backing_is_by_token(vouches: Seq<VouchRecord>, token: Address)
    ensures
        backing(vouches, token) == in_token(vouches, token),
        total_stake(backing(vouches, token)) == added_up(staked(in_token(vouches, token))),
        sums_fit(stakes(backing(vouches, token))) <==> adds_up_in_range(
            staked(in_token(vouches, token)),
        ),
{
    lemma_backing_is_in_token(vouches, token);
    let b = backing(vouches, token);
    assert(stakes(b) =~= staked(b));
    law_sums_add_up(stakes(b));
}

proof fn lemma_backing_is_in_token(vouches: Seq<VouchRecord>, token: Address)
    ensures
        backing(vouches, token) == in_token(vouches, token),
    decreases vouches.len(),
{
    reveal(Seq::filter);
    if vouches.len() > 0 {
        lemma_backing_is_in_token(vouches.drop_last(), token);
        lemma_in_token_push(vouches.drop_last(), vouches.last(), token);
        assert(vouches.drop_last().push(vouches.last()) =~= vouches);
    } else {
        assert(backing(vouches, token) =~= in_token(vouches, token));
    }
}

/// The signers that are admins, in order, each as often as it signed.
pub open spec fn admins_among(admins: Seq<Address>, signers: Seq<Address>) -> Seq<Address>
    decreases signers.len(),
{
    if signers.len() == 0 {
        Seq::empty()
    } else if admins.contains(signers[0]) {
        seq![signers[0]] + admins_among(admins, signers.skip(1))
    } else {
        admins_among(admins, signers.skip(1))
    }
}

proof fn lemma_admins_among_push(admins: Seq<Address>, signers: Seq<Address>, s: Address)
    ensures
        admins_among(admins, signers.push(s)) == (if admins.contains(s) {
            admins_among(admins, signers).push(s)
        } else {
            admins_among(admins, signers)
        }),
    decreases signers.len(),
{
    reveal_with_fuel(admins_among, 2);
    if signers.len() == 0 {
        assert(signers.push(s).skip(1) =~= Seq::<Address>::empty());
    } else {
        lemma_admins_among_push(admins, signers.skip(1), s);
        assert(signers.push(s).skip(1) =~= signers.skip(1).push(s));
    }
    assert(admins_among(admins, signers.push(s)) =~= (if admins.contains(s) {
        admins_among(admins, signers).push(s)
    } else {
        admins_among(admins, signers)
    }));
}

/// The approvals are those of the signers that are admins, all of them and no others.
pub proof fn law_approvals_are_the_admins(admins: Seq<Address>, signers: Seq<Address>)
    ensures
        approvals(admins, signers) == admins_among(admins, signers),
    decreases signers.len(),
{
    reveal(Seq::filter);
    if signers.len() > 0 {
        law_approvals_are_the_admins(admins, signers.drop_last());
        lemma_admins_among_push(admins, signers.drop_last(), signers.last());
        assert(signers.drop_last().push(signers.last()) =~= signers);
    } else {
        assert(approvals(admins, signers) =~= admins_among(admins, signers));
    }
}

/// The count under a handle; zero without an entry.
pub open spec fn count_at(counts: Map<u64, u32>, id: u64) -> int {
    if counts.contains_key(id) {
        counts[id] as int
    } else {
        0
    }
}

/// True if the number under which a borrower's active loan is kept leads to a loan.
pub open spec fn has_loan(l: LedgerView, borrower: Address) -> bool {
    l.active_loans.contains_key(borrower.id) && l.loans.contains_key(
        l.active_loans[borrower.id],
    )
}

/// The loan under that number.
pub open spec fn loan_at(l: LedgerView, borrower: Address) -> LoanView {
    l.loans[l.active_loans[borrower.id]]
}

/// The vouches under a borrower's handle; none without an entry.
pub open spec fn vouches_at(l: LedgerView, borrower: Address) -> Seq<VouchRecord> {
    if l.vouches.contains_key(borrower.id) {
        l.vouches[borrower.id]
    } else {
        Seq::empty()
    }
}

/// The entries under a loan's number; none without any.
pub open spec fn entries_at(l: LedgerView, id: u64) -> Seq<YieldDistributionEntry> {
    if l.yield_distributions.contains_key(id) {
        l.yield_distributions[id]
    } else {
        Seq::empty()
    }
}

/// True if the token is the main one or an allowed one.
pub open spec fn takes_token(l: LedgerView, token: Address) -> bool {
    l.config->0.token == token || exists|i: int|
        0 <= i < l.config->0.allowed_tokens.len() && #[trigger] l.config->0.allowed_tokens[i]
            == token
}

/// True if at least as many of the signers are admins as the settings ask for.
pub open spec fn enough_admins(l: LedgerView, signers: Seq<Address>) -> bool {
    admins_among(l.config->0.admins, signers).len() >= l.config->0.admin_threshold
}

/// What is looked up is what is on record.
pub proof fn law_lookups_read_the_record(
    l: LedgerView,
    address: Address,
    id: u64,
    signers: Seq<Address>,
    counts: Map<u64, u32>,
)
    ensures
        l.active_loan(address) == (if has_loan(l, address) {
            Some(loan_at(l, address))
        } else {
            None
        }),
        l.vouches_of(address) == vouches_at(l, address),
        l.locked_yields_of(id) == entries_at(l, id),
        l.config is Some ==> l.allows_token(address) == takes_token(l, address),
        l.config is Some ==> l.approved_by(signers) == enough_admins(l, signers),
        l.config is None ==> !l.allows_token(address) && !l.approved_by(signers),
        count_of(counts, address) == count_at(counts, address.id),
{
    if l.config is Some {
        law_approvals_are_the_admins(l.config->0.admins, signers);
        let allowed = l.config->0.allowed_tokens;
        if allowed.contains(address) {
            let i = choose|i: int| 0 <= i < allowed.len() && allowed[i] == address;
            assert(allowed[i] == address);
        }
    }
}

/// True if `y` is the yield of the voucher's first entry, or nothing where it has none.
pub open spec fn locked_for(
    entries: Seq<YieldDistributionEntry>,
    voucher: Address,
    y: int,
) -> bool {
    ||| exists|j: int|
        {
            &&& 0 <= j < entries.len()
            &&& (#[trigger] entries[j]).voucher == voucher
            &&& entries[j].yield_amount == y
            &&& forall|k: int| 0 <= k < j ==> (#[trigger] entries[k]).voucher != voucher
        }
    ||| y == 0 && forall|k: int|
        0 <= k < entries.len() ==> (#[trigger] entries[k]).voucher != voucher
}

/// A voucher's locked yield is that of its first entry.
pub proof fn law_first_entry_counts(entries: Seq<YieldDistributionEntry>, voucher: Address)
    ensures
        locked_for(entries, voucher, locked_yield(entries, voucher)),
    decreases entries.len(),
{
    if entries.len() > 0 {
        let rest = entries.drop_first();
        if entries[0].voucher == voucher {
            assert(entries[0].yield_amount == locked_yield(entries, voucher));
        } else {
            law_first_entry_counts(rest, voucher);
            let y = locked_yield(rest, voucher);
            if exists|j: int|
                {
                    &&& 0 <= j < rest.len()
                    &&& (#[trigger] rest[j]).voucher == voucher
                    &&& rest[j].yield_amount == y
                    &&& forall|k: int| 0 <= k < j ==> (#[trigger] rest[k]).voucher != voucher
                } {
                let j = choose|j: int|
                    {
                        &&& 0 <= j < rest.len()
                        &&& (#[trigger] rest[j]).voucher == voucher
                        &&& rest[j].yield_amount == y
                        &&& forall|k: int| 0 <= k < j ==> (#[trigger] rest[k]).voucher != voucher
                    };
                assert(entries[j + 1] == rest[j]);
                assert forall|k: int| 0 <= k < j + 1 implies (#[trigger] entries[k]).voucher
                    != voucher by {
                    if k > 0 {
                        assert(entries[k] == rest[k - 1]);
                    }
                }
            } else {
                assert forall|k: int| 0 <= k < entries.len() implies (
                #[trigger] entries[k]).voucher != voucher by {
                    if k > 0 {
                        assert(entries[k] == rest[k - 1]);
                    }
                }
            }
        }
    }
}

/// There is only one such yield.
pub proof fn lemma_one_locked_yield(
    entries: Seq<YieldDistributionEntry>,
    voucher: Address,
    x: int,
    y: int,
)
    requires
        locked_for(entries, voucher, x),
        locked_for(entries, voucher, y),
    ensures
        x == y,
{
}

/// True if a call moves that amount in that token from one address to the other.
pub open spec fn moves(
    call: HostCall,
    token: Address,
    from: Address,
    to: Address,
    amount: int,
) -> bool {
    call matches HostCall::Transfer { token: t, from: f, to: r, amount: a } && t == token && f
        == from && r == to && a == amount
}

/// The demands for some authorizations, in order.
pub open spec fn demands(addresses: Seq<Address>) -> Seq<HostCall> {
    Seq::new(addresses.len(), |i: int| HostCall::RequireAuth(addresses[i]))
}

} // verus!
