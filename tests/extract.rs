use token_amounts::{
    get_signed_token_amount, get_token_amounts, BalanceType, ExtractError, Key, Layout, Market,
    MarketLayout, Position, Record, UserLayout, UserTokenAmount, BALANCE_PRECISION,
    CUMULATIVE_INTEREST_PRECISION,
};

const MARKET_TAG: [u8; 8] = [10, 20, 30, 40, 50, 60, 70, 80];
const USER_TAG: [u8; 8] = [11, 21, 31, 41, 51, 61, 71, 81];

fn layout() -> Layout {
    Layout {
        market: MarketLayout {
            tag: MARKET_TAG,
            size: 46,
            market_index: 8,
            cumulative_deposit_interest: 10,
            cumulative_borrow_interest: 26,
            decimals: 42,
        },
        user: UserLayout {
            tag: USER_TAG,
            size: 168,
            authority: 8,
            positions: 40,
            position_count: 8,
            position_size: 16,
            scaled_balance: 0,
            position_market_index: 8,
            balance_type: 10,
        },
    }
}

fn key(b: u8) -> Key {
    Key { bytes: [b; 32] }
}

fn market(index: u16, deposit: u128, borrow: u128, decimals: u32) -> Record {
    let mut data = MARKET_TAG.to_vec();
    data.extend_from_slice(&index.to_le_bytes());
    data.extend_from_slice(&deposit.to_le_bytes());
    data.extend_from_slice(&borrow.to_le_bytes());
    data.extend_from_slice(&decimals.to_le_bytes());
    Record { key: key(200), data }
}

/// A user record; each position is (slot, market index, balance type byte, scaled balance).
fn user(id: u8, authority: u8, positions: &[(usize, u16, u8, u64)]) -> Record {
    let mut data = USER_TAG.to_vec();
    data.extend_from_slice(&[authority; 32]);
    data.extend_from_slice(&[0u8; 128]);
    for &(slot, index, kind, scaled) in positions {
        let start = 40 + slot * 16;
        data[start..start + 8].copy_from_slice(&scaled.to_le_bytes());
        data[start + 8..start + 10].copy_from_slice(&index.to_le_bytes());
        data[start + 10] = kind;
    }
    Record { key: key(id), data }
}

fn entry(id: u8, authority: u8, token_amount: i128) -> UserTokenAmount {
    UserTokenAmount { user: key(id), authority: key(authority), token_amount }
}

const DEPOSIT: u8 = 0;
const BORROW: u8 = 1;

fn unit_market(index: u16) -> Record {
    market(index, CUMULATIVE_INTEREST_PRECISION, CUMULATIVE_INTEREST_PRECISION, 9)
}

#[test]
fn test() {
    let hundred = 100 * BALANCE_PRECISION;
    let records = vec![
        unit_market(1),
        unit_market(6),
        user(1, 101, &[(1, 6, DEPOSIT, hundred)]),
        user(2, 102, &[(1, 6, BORROW, hundred)]),
        user(3, 103, &[(1, 1, DEPOSIT, hundred)]),
    ];
    let token_amounts = get_token_amounts(&records, 6, &layout()).unwrap();
    assert_eq!(
        token_amounts,
        vec![entry(1, 101, 100 * 10_i128.pow(9)), entry(2, 102, -100 * 10_i128.pow(9))]
    );
}

#[test]
fn market_without_users_gives_nothing() {
    let records = vec![unit_market(6)];
    assert_eq!(get_token_amounts(&records, 6, &layout()), Ok(vec![]));
}

#[test]
fn user_without_position_in_market_is_left_out() {
    let records = vec![
        unit_market(6),
        user(1, 101, &[(0, 2, DEPOSIT, 5), (3, 7, BORROW, 9)]),
        user(2, 102, &[(4, 6, DEPOSIT, BALANCE_PRECISION)]),
    ];
    assert_eq!(
        get_token_amounts(&records, 6, &layout()),
        Ok(vec![entry(2, 102, 1_000_000_000)])
    );
}

#[test]
fn deposit_is_positive_and_borrow_negative() {
    let records = vec![
        unit_market(3),
        user(1, 101, &[(0, 3, DEPOSIT, 7)]),
        user(2, 102, &[(0, 3, BORROW, 7)]),
    ];
    let out = get_token_amounts(&records, 3, &layout()).unwrap();
    assert!(out[0].token_amount > 0);
    assert!(out[1].token_amount < 0);
    assert_eq!(out[0].token_amount, 7);
    assert_eq!(out[1].token_amount, -7);
}

#[test]
fn order_follows_records() {
    let records = vec![
        user(5, 105, &[(0, 4, BORROW, 2 * BALANCE_PRECISION)]),
        user(9, 109, &[(0, 1, DEPOSIT, 3)]),
        unit_market(4),
        user(3, 103, &[(2, 4, DEPOSIT, 3 * BALANCE_PRECISION)]),
        user(7, 107, &[(7, 4, DEPOSIT, BALANCE_PRECISION)]),
    ];
    let out = get_token_amounts(&records, 4, &layout()).unwrap();
    let users: Vec<Key> = out.iter().map(|a| a.user).collect();
    assert_eq!(users, vec![key(5), key(3), key(7)]);
    assert_eq!(out[0].token_amount, -2_000_000_000);
}

#[test]
fn repeated_calls_agree() {
    let records = vec![
        unit_market(2),
        user(1, 101, &[(0, 2, DEPOSIT, 123_456)]),
        user(2, 102, &[(5, 2, BORROW, 654_321)]),
    ];
    let first = get_token_amounts(&records, 2, &layout());
    let second = get_token_amounts(&records, 2, &layout());
    assert_eq!(first, second);
}

#[test]
fn missing_market_is_an_error() {
    let records = vec![unit_market(1), user(1, 101, &[(0, 6, DEPOSIT, 1)])];
    assert_eq!(get_token_amounts(&records, 6, &layout()), Err(ExtractError::MarketNotFound));
    assert_eq!(get_token_amounts(&vec![], 0, &layout()), Err(ExtractError::MarketNotFound));
}

#[test]
fn last_market_record_wins() {
    let records = vec![
        market(6, CUMULATIVE_INTEREST_PRECISION, CUMULATIVE_INTEREST_PRECISION, 9),
        user(1, 101, &[(0, 6, DEPOSIT, BALANCE_PRECISION)]),
        market(6, 2 * CUMULATIVE_INTEREST_PRECISION, CUMULATIVE_INTEREST_PRECISION, 9),
    ];
    assert_eq!(
        get_token_amounts(&records, 6, &layout()),
        Ok(vec![entry(1, 101, 2_000_000_000)])
    );
}

#[test]
fn first_matching_position_is_used() {
    let records = vec![
        unit_market(6),
        user(1, 101, &[(2, 6, BORROW, 5), (6, 6, DEPOSIT, 50)]),
    ];
    assert_eq!(get_token_amounts(&records, 6, &layout()), Ok(vec![entry(1, 101, -5)]));
}

#[test]
fn unknown_short_and_malformed_records_are_skipped() {
    let mut short_user = user(4, 104, &[(0, 6, DEPOSIT, 1)]);
    short_user.data.truncate(100);
    let bad_kind = user(5, 105, &[(0, 6, 9, 1)]);
    let records = vec![
        Record { key: key(1), data: vec![1, 2, 3] },
        Record { key: key(2), data: vec![0; 300] },
        unit_market(6),
        short_user,
        bad_kind,
        user(6, 106, &[(0, 6, DEPOSIT, 1)]),
    ];
    assert_eq!(get_token_amounts(&records, 6, &layout()), Ok(vec![entry(6, 106, 1)]));
}

#[test]
fn short_market_record_is_not_found() {
    let mut m = unit_market(6);
    m.data.truncate(45);
    assert_eq!(get_token_amounts(&vec![m], 6, &layout()), Err(ExtractError::MarketNotFound));
}

#[test]
fn overflow_fails_for_that_user() {
    let records = vec![
        market(6, u128::MAX, u128::MAX, 9),
        user(1, 101, &[(0, 6, DEPOSIT, 0)]),
        user(2, 102, &[(0, 6, DEPOSIT, 2)]),
        user(3, 103, &[(0, 6, DEPOSIT, 2)]),
    ];
    assert_eq!(
        get_token_amounts(&records, 6, &layout()),
        Err(ExtractError::BalanceComputationFailed(key(2)))
    );
}

#[test]
fn too_many_decimals_fails() {
    let records = vec![market(6, 1, 1, 20), user(1, 101, &[(0, 6, DEPOSIT, 1)])];
    assert_eq!(
        get_token_amounts(&records, 6, &layout()),
        Err(ExtractError::BalanceComputationFailed(key(1)))
    );
}

fn market_value(deposit: u128, borrow: u128, decimals: u32) -> Market {
    Market {
        market_index: 0,
        cumulative_deposit_interest: deposit,
        cumulative_borrow_interest: borrow,
        decimals,
    }
}

#[test]
fn conversion_applies_interest_and_decimals() {
    let m = market_value(15_000_000_000, 15_000_000_000, 6);
    let p = Position {
        market_index: 0,
        balance_type: BalanceType::Deposit,
        scaled_balance: 3 * BALANCE_PRECISION,
    };
    assert_eq!(get_signed_token_amount(&p, &m), Some(4_500_000));
    let b = Position { balance_type: BalanceType::Borrow, ..p };
    assert_eq!(get_signed_token_amount(&b, &m), Some(-4_500_000));
}

#[test]
fn deposit_rounds_down_and_borrow_rounds_up() {
    let m = market_value(CUMULATIVE_INTEREST_PRECISION + 1, CUMULATIVE_INTEREST_PRECISION + 1, 9);
    let d = Position { market_index: 0, balance_type: BalanceType::Deposit, scaled_balance: 1 };
    let b = Position { balance_type: BalanceType::Borrow, ..d };
    assert_eq!(get_signed_token_amount(&d, &m), Some(1));
    assert_eq!(get_signed_token_amount(&b, &m), Some(-2));
    let tiny = market_value(CUMULATIVE_INTEREST_PRECISION, CUMULATIVE_INTEREST_PRECISION, 0);
    assert_eq!(get_signed_token_amount(&d, &tiny), Some(0));
    assert_eq!(get_signed_token_amount(&b, &tiny), Some(-1));
}

#[test]
fn amount_beyond_i128_fails() {
    let m = market_value(u128::MAX / 2, u128::MAX / 2, 19);
    let p = Position { market_index: 0, balance_type: BalanceType::Deposit, scaled_balance: 2 };
    assert_eq!(get_signed_token_amount(&p, &m), None);
    let q = Position { scaled_balance: 1, ..p };
    assert_eq!(get_signed_token_amount(&q, &m), Some((u128::MAX / 2) as i128));
}

#[test]
fn layout_validity() {
    assert!(layout().is_valid());
    let mut same_tags = layout();
    same_tags.user.tag = MARKET_TAG;
    assert!(!same_tags.is_valid());
    let mut overlong = layout();
    overlong.market.decimals = 43;
    assert!(!overlong.is_valid());
    let mut too_many_positions = layout();
    too_many_positions.user.position_count = 9;
    assert!(!too_many_positions.is_valid());
    let mut huge = layout();
    huge.user.position_count = usize::MAX;
    assert!(!huge.is_valid());
}
