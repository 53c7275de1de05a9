//! Positions and the conversion of a scaled balance into a signed token amount.
use vstd::prelude::*;
use crate::record::Market;

verus! {

#[derive(Clone, Copy, Debug, PartialEq, Eq)]
pub enum BalanceType {
    Deposit,
    Borrow,
}

/// A user's stake in one market.
#[derive(Clone, Copy, Debug, PartialEq, Eq)]
pub struct Position {
    pub market_index: u16,
    pub balance_type: BalanceType,
    pub scaled_balance: u64,
}


/// Decimal exponent of the scale that scaled balances are carried at.
pub const BALANCE_PRECISION_EXP: u32 = 9;

/// Decimal exponent of the scale of the cumulative interest accumulators.
pub const INTEREST_PRECISION_EXP: u32 = 10;

/// One unit of scaled balance.
pub const BALANCE_PRECISION: u64 = 1_000_000_000;

/// A cumulative interest accumulator that has accrued nothing.
pub const CUMULATIVE_INTEREST_PRECISION: u128 = 10_000_000_000;

/// `10^n`.
pub open spec fn pow10(n: nat) -> nat
    decreases n,
{
    if n == 0 {
        1
    } else {
        10 * pow10((n - 1) as nat)
    }
}

/// The accumulator that applies to a balance of the given type.
pub open spec fn cumulative_interest(market: Market, balance_type: BalanceType) -> u128 {
    match balance_type {
        BalanceType::Deposit => market.cumulative_deposit_interest,
        BalanceType::Borrow => market.cumulative_borrow_interest,
    }
}

/// The divisor that takes `scaled_balance * interest` to the market's natural unit.
pub open spec fn precision_decrease(market: Market) -> nat {
    pow10((BALANCE_PRECISION_EXP + INTEREST_PRECISION_EXP - market.decimals) as nat)
}

/// Unsigned token amount of a scaled balance: `scaled * interest / 10^(19 - decimals)`,
/// rounded down for a deposit and up for a borrow. None where `decimals` exceeds 19
/// or the product overflows `u128`.
pub open spec fn token_amount(scaled_balance: u64, balance_type: BalanceType, market: Market) -> Option<nat> {
    let product = scaled_balance * cumulative_interest(market, balance_type);
    let divisor = precision_decrease(market);
    if market.decimals > BALANCE_PRECISION_EXP + INTEREST_PRECISION_EXP || product > u128::MAX {
        None
    } else {
        match balance_type {
            BalanceType::Deposit => Some(product as nat / divisor),
            BalanceType::Borrow => Some(
                (product as nat / divisor) + (if product as nat % divisor == 0 {
                    0nat
                } else {
                    1nat
                }),
            ),
        }
    }
}

/// Signed token amount: positive for a deposit, negative for a borrow. None where the
/// unsigned amount cannot be computed or does not fit in `i128`.
pub open spec fn signed_amount(scaled_balance: u64, balance_type: BalanceType, market: Market) -> Option<i128> {
    match token_amount(scaled_balance, balance_type, market) {
        None => None,
        Some(a) => if a > i128::MAX {
            None
        } else {
            match balance_type {
                BalanceType::Deposit => Some(a as i128),
                BalanceType::Borrow => Some(-a as i128),
            }
        },
    }
}

proof fn lemma_pow10_mono(a: nat, b: nat)
    requires
        a <= b,
    ensures
        1 <= pow10(a) <= pow10(b),
    decreases b,
{
    if a < b {
        lemma_pow10_mono(a, (b - 1) as nat);
    } else if a > 0 {
        lemma_pow10_mono((a - 1) as nat, (a - 1) as nat);
    }
}

fn pow10_u128(n: u32) -> (r: u128)
    requires
        n <= BALANCE_PRECISION_EXP + INTEREST_PRECISION_EXP,
    ensures
        r as nat == pow10(n as nat),
        r >= 1,
{
    proof {
        reveal_with_fuel(pow10, 20);
        assert(pow10(19) == 10_000_000_000_000_000_000);
    }
    let mut r: u128 = 1;
    let mut i: u32 = 0;
    while i < n
        invariant
            i <= n <= 19,
            r as nat == pow10(i as nat),
            pow10(19) == 10_000_000_000_000_000_000,
        decreases n - i,
    {
        proof {
            lemma_pow10_mono(i as nat, 18);
        }
        r = r * 10;
        i = i + 1;
    }
    proof {
        lemma_pow10_mono(0, n as nat);
    }
    r
}

/// The signed token amount that `position` holds in `market`.
pub fn get_signed_token_amount(position: &Position, market: &Market) -> (r: Option<i128>)
    ensures
        r == signed_amount(position.scaled_balance, position.balance_type, *market),
{
    if market.decimals > BALANCE_PRECISION_EXP + INTEREST_PRECISION_EXP {
        return None;
    }
    let divisor = pow10_u128(BALANCE_PRECISION_EXP + INTEREST_PRECISION_EXP - market.decimals);
    let interest = match position.balance_type {
        BalanceType::Deposit => market.cumulative_deposit_interest,
        BalanceType::Borrow => market.cumulative_borrow_interest,
    };
    let product = match (position.scaled_balance as u128).checked_mul(interest) {
        None => return None,
        Some(p) => p,
    };
    let amount: u128 = match position.balance_type {
        BalanceType::Deposit => product / divisor,
        BalanceType::Borrow => {
            let q = product / divisor;
            if product % divisor == 0 {
                q
            } else {
                assert(q < u128::MAX) by (nonlinear_arith)
                    requires
                        divisor >= 2,
                        q == product / divisor,
                        product <= u128::MAX,
                ;
                q + 1
            }
        },
    };
    if amount > i128::MAX as u128 {
        return None;
    }
    match position.balance_type {
        BalanceType::Deposit => Some(amount as i128),
        BalanceType::Borrow => Some(-(amount as i128)),
    }
}

/// A positive scaled balance gives a positive amount as a deposit and a negative one
/// as a borrow, wherever the conversion succeeds, a deposit's product reaches the
/// divisor (below it the amount rounds to zero) and a borrow's accumulator is not zero.
pub proof fn lemma_sign(scaled_balance: u64, balance_type: BalanceType, market: Market)
    requires
        scaled_balance > 0,
        signed_amount(scaled_balance, balance_type, market) is Some,
        balance_type == BalanceType::Deposit ==> scaled_balance
            * market.cumulative_deposit_interest >= precision_decrease(market),
        balance_type == BalanceType::Borrow ==> market.cumulative_borrow_interest > 0,
    ensures
        balance_type == BalanceType::Deposit ==> signed_amount(
            scaled_balance,
            balance_type,
            market,
        )->Some_0 > 0,
        balance_type == BalanceType::Borrow ==> signed_amount(
            scaled_balance,
            balance_type,
            market,
        )->Some_0 < 0,
{
    let product: int = scaled_balance * cumulative_interest(market, balance_type);
    let divisor: int = precision_decrease(market) as int;
    lemma_pow10_mono(0, (BALANCE_PRECISION_EXP + INTEREST_PRECISION_EXP - market.decimals) as nat);
    assert(divisor >= 1);
    match balance_type {
        BalanceType::Deposit => {
            assert(product / divisor >= 1) by (nonlinear_arith)
                requires
                    product >= divisor,
                    divisor >= 1,
            ;
        },
        BalanceType::Borrow => {
            assert(product >= 1) by (nonlinear_arith)
                requires
                    product == scaled_balance * market.cumulative_borrow_interest,
                    scaled_balance >= 1,
                    market.cumulative_borrow_interest >= 1,
            ;
            if product % divisor == 0 {
                assert(product / divisor >= 1) by (nonlinear_arith)
                    requires
                        product >= 1,
                        divisor >= 1,
                        product % divisor == 0,
                ;
            }
        },
    }
}

} // verus!
