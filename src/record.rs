//! Record layouts and the decoding of market and user records.
use vstd::prelude::*;
use crate::balance::{BalanceType, Position};
use crate::encoding::{field, lemma_pow256_values, read_le};

verus! {

/// Length of the type tag that opens every record.
pub const TAG_LEN: usize = 8;

/// Length of an account key.
pub const KEY_LEN: usize = 32;

/// A 32-byte account key.
#[derive(Clone, Copy, Debug, PartialEq, Eq)]
pub struct Key {
    pub bytes: [u8; 32],
}

/// Where a market record keeps the fields that the extraction reads.
/// Every offset counts from the start of the record, tag included.
#[derive(Clone, Copy, Debug)]
pub struct MarketLayout {
    pub tag: [u8; 8],
    /// Least length of a decodable record.
    pub size: usize,
    /// `u16`
    pub market_index: usize,
    /// `u128`
    pub cumulative_deposit_interest: usize,
    /// `u128`
    pub cumulative_borrow_interest: usize,
    /// `u32`
    pub decimals: usize,
}

/// Where a user record keeps its authority and its positions.
/// Offsets of a position's fields count from the start of that position.
#[derive(Clone, Copy, Debug)]
pub struct UserLayout {
    pub tag: [u8; 8],
    /// Least length of a decodable record.
    pub size: usize,
    /// 32-byte key
    pub authority: usize,
    /// Start of the position array.
    pub positions: usize,
    pub position_count: usize,
    pub position_size: usize,
    /// `u64`
    pub scaled_balance: usize,
    /// `u16`
    pub position_market_index: usize,
    /// one byte: 0 for a deposit, 1 for a borrow
    pub balance_type: usize,
}

/// The binary schema of the two record shapes.
#[derive(Clone, Copy, Debug)]
pub struct Layout {
    pub market: MarketLayout,
    pub user: UserLayout,
}

impl Layout {
    /// Every field lies inside its record, and the two tags differ.
    pub open spec fn wf(&self) -> bool {
        let m = self.market;
        let u = self.user;
        &&& m.size >= TAG_LEN
        &&& m.market_index + 2 <= m.size
        &&& m.cumulative_deposit_interest + 16 <= m.size
        &&& m.cumulative_borrow_interest + 16 <= m.size
        &&& m.decimals + 4 <= m.size
        &&& u.size >= TAG_LEN
        &&& u.authority + KEY_LEN <= u.size
        &&& u.positions + u.position_count * u.position_size <= u.size
        &&& u.scaled_balance + 8 <= u.position_size
        &&& u.position_market_index + 2 <= u.position_size
        &&& u.balance_type + 1 <= u.position_size
        &&& m.tag@ != u.tag@
    }
}

/// Whether `width` bytes from `offset` on lie inside `size` bytes.
fn fits(offset: usize, width: usize, size: usize) -> (r: bool)
    ensures
        r == (offset + width <= size),
{
    offset <= size && width <= size - offset
}

fn tags_equal(a: &[u8; 8], b: &[u8; 8]) -> (r: bool)
    ensures
        r == (a@ == b@),
{
    let mut k: usize = 0;
    while k < TAG_LEN
        invariant
            k <= TAG_LEN,
            a@.len() == TAG_LEN,
            b@.len() == TAG_LEN,
            forall|t: int| 0 <= t < k ==> a@[t] == b@[t],
        decreases TAG_LEN - k,
    {
        if a[k] != b[k] {
            return false;
        }
        k = k + 1;
    }
    assert(a@ =~= b@);
    true
}

impl Layout {
    /// Whether the layout is well formed; callers outside verified code test this
    /// before handing a layout to the extraction.
    pub fn is_valid(&self) -> (r: bool)
        ensures
            r == self.wf(),
    {
        let m = &self.market;
        let u = &self.user;
        let positions_fit = match u.position_count.checked_mul(u.position_size) {
            None => false,
            Some(len) => fits(u.positions, len, u.size),
        };
        m.size >= TAG_LEN && fits(m.market_index, 2, m.size) && fits(
            m.cumulative_deposit_interest,
            16,
            m.size,
        ) && fits(m.cumulative_borrow_interest, 16, m.size) && fits(m.decimals, 4, m.size)
            && u.size >= TAG_LEN && fits(u.authority, KEY_LEN, u.size) && positions_fit && fits(
            u.scaled_balance,
            8,
            u.position_size,
        ) && fits(u.position_market_index, 2, u.position_size) && fits(
            u.balance_type,
            1,
            u.position_size,
        ) && !tags_equal(&m.tag, &u.tag)
    }
}

/// A market record, as far as the extraction reads it.
#[derive(Clone, Copy, Debug, PartialEq, Eq)]
pub struct Market {
    pub market_index: u16,
    pub cumulative_deposit_interest: u128,
    pub cumulative_borrow_interest: u128,
    pub decimals: u32,
}

/// `data` opens with `tag`.
pub open spec fn has_tag(data: Seq<u8>, tag: Seq<u8>) -> bool {
    data.len() >= TAG_LEN && data.subrange(0, TAG_LEN as int) == tag
}

pub open spec fn is_market(layout: Layout, data: Seq<u8>) -> bool {
    has_tag(data, layout.market.tag@) && data.len() >= layout.market.size
}

pub open spec fn is_user(layout: Layout, data: Seq<u8>) -> bool {
    has_tag(data, layout.user.tag@) && data.len() >= layout.user.size
}

/// The market that a market record holds.
pub open spec fn market_of(layout: Layout, data: Seq<u8>) -> Market {
    let m = layout.market;
    Market {
        market_index: field(data, m.market_index as int, 2) as u16,
        cumulative_deposit_interest: field(data, m.cumulative_deposit_interest as int, 16) as u128,
        cumulative_borrow_interest: field(data, m.cumulative_borrow_interest as int, 16) as u128,
        decimals: field(data, m.decimals as int, 4) as u32,
    }
}

/// The authority that a user record holds.
pub open spec fn authority_of(layout: Layout, data: Seq<u8>) -> Seq<u8> {
    data.subrange(layout.user.authority as int, layout.user.authority + KEY_LEN)
}

/// Offset of the `j`-th position of a user record.
pub open spec fn position_start(layout: Layout, j: int) -> int {
    layout.user.positions + j * layout.user.position_size
}

pub open spec fn position_market(layout: Layout, data: Seq<u8>, j: int) -> u16 {
    field(data, position_start(layout, j) + layout.user.position_market_index, 2) as u16
}

pub open spec fn position_balance(layout: Layout, data: Seq<u8>, j: int) -> u64 {
    field(data, position_start(layout, j) + layout.user.scaled_balance, 8) as u64
}

pub open spec fn position_kind(layout: Layout, data: Seq<u8>, j: int) -> u8 {
    data[position_start(layout, j) + layout.user.balance_type]
}

pub open spec fn balance_type_of(b: u8) -> Option<BalanceType> {
    if b == 0 {
        Some(BalanceType::Deposit)
    } else if b == 1 {
        Some(BalanceType::Borrow)
    } else {
        None
    }
}

/// Index of the first position at or after `j` that belongs to market `m`.
pub open spec fn first_position_from(layout: Layout, data: Seq<u8>, m: u16, j: int) -> Option<int>
    decreases layout.user.position_count - j,
{
    if j < 0 || j >= layout.user.position_count {
        None
    } else if position_market(layout, data, j) == m {
        Some(j)
    } else {
        first_position_from(layout, data, m, j + 1)
    }
}

/// The first position of a user record in market `m`, in storage order; none where
/// there is no such position or its balance type byte is neither 0 nor 1.
pub open spec fn position_of(layout: Layout, data: Seq<u8>, m: u16) -> Option<Position> {
    match first_position_from(layout, data, m, 0) {
        None => None,
        Some(j) => match balance_type_of(position_kind(layout, data, j)) {
            None => None,
            Some(bt) => Some(
                Position {
                    market_index: m,
                    balance_type: bt,
                    scaled_balance: position_balance(layout, data, j),
                },
            ),
        },
    }
}

/// Whether `data` opens with `tag`.
pub fn tag_matches(data: &Vec<u8>, tag: &[u8; 8]) -> (r: bool)
    ensures
        r == has_tag(data@, tag@),
{
    if data.len() < TAG_LEN {
        return false;
    }
    let mut k: usize = 0;
    while k < TAG_LEN
        invariant
            k <= TAG_LEN,
            data@.len() >= TAG_LEN,
            tag@.len() == TAG_LEN,
            forall|t: int| 0 <= t < k ==> data@[t] == tag@[t],
        decreases TAG_LEN - k,
    {
        if data[k] != tag[k] {
            assert(data@.subrange(0, TAG_LEN as int)[k as int] != tag@[k as int]);
            return false;
        }
        k = k + 1;
    }
    assert(data@.subrange(0, TAG_LEN as int) =~= tag@);
    true
}

fn read_key(data: &Vec<u8>, offset: usize) -> (r: Key)
    requires
        offset + KEY_LEN <= data@.len(),
    ensures
        r.bytes@ == data@.subrange(offset as int, offset + KEY_LEN),
{
    let n: usize = data.len();
    let mut bytes: [u8; 32] = [0u8; 32];
    let mut k: usize = 0;
    while k < KEY_LEN
        invariant
            k <= KEY_LEN,
            offset + KEY_LEN <= n,
            n == data@.len(),
            bytes@.len() == KEY_LEN,
            forall|t: int| 0 <= t < k ==> bytes@[t] == data@[offset + t],
        decreases KEY_LEN - k,
    {
        bytes[k] = data[offset + k];
        k = k + 1;
    }
    assert(bytes@ =~= data@.subrange(offset as int, offset + KEY_LEN));
    Key { bytes }
}

/// Decodes a market record; none where `data` is not one.
pub fn decode_market(layout: &Layout, data: &Vec<u8>) -> (r: Option<Market>)
    requires
        layout.wf(),
    ensures
        r == (if is_market(*layout, data@) {
            Some(market_of(*layout, data@))
        } else {
            None
        }),
{
    if !tag_matches(data, &layout.market.tag) || data.len() < layout.market.size {
        return None;
    }
    let m = &layout.market;
    let index = read_le(data, m.market_index, 2);
    let deposit = read_le(data, m.cumulative_deposit_interest, 16);
    let borrow = read_le(data, m.cumulative_borrow_interest, 16);
    let decimals = read_le(data, m.decimals, 4);
    proof {
        lemma_pow256_values();
    }
    Some(
        Market {
            market_index: index as u16,
            cumulative_deposit_interest: deposit,
            cumulative_borrow_interest: borrow,
            decimals: decimals as u32,
        },
    )
}

/// The authority of a user record.
pub fn decode_authority(layout: &Layout, data: &Vec<u8>) -> (r: Key)
    requires
        layout.wf(),
        is_user(*layout, data@),
    ensures
        r.bytes@ == authority_of(*layout, data@),
{
    read_key(data, layout.user.authority)
}

proof fn lemma_position_inside(layout: Layout, j: int)
    requires
        layout.wf(),
        0 <= j < layout.user.position_count,
    ensures
        position_start(layout, j) + layout.user.position_size <= layout.user.size,
{
    let u = layout.user;
    assert(j * u.position_size + u.position_size <= u.position_count * u.position_size)
        by (nonlinear_arith)
        requires
            0 <= j < u.position_count,
    ;
}

/// Finds the first position of a user record in market `m`.
pub fn find_position(layout: &Layout, data: &Vec<u8>, m: u16) -> (r: Option<Position>)
    requires
        layout.wf(),
        is_user(*layout, data@),
    ensures
        r == position_of(*layout, data@, m),
{
    let u = &layout.user;
    let mut j: usize = 0;
    while j < u.position_count
        invariant
            layout.wf(),
            is_user(*layout, data@),
            *u == layout.user,
            j <= u.position_count,
            first_position_from(*layout, data@, m, 0) == first_position_from(
                *layout,
                data@,
                m,
                j as int,
            ),
        decreases u.position_count - j,
    {
        proof {
            lemma_position_inside(*layout, j as int);
            lemma_pow256_values();
        }
        let start: usize = u.positions + j * u.position_size;
        let index = read_le(data, start + u.position_market_index, 2) as u16;
        if index == m {
            let kind = data[start + u.balance_type];
            let scaled = read_le(data, start + u.scaled_balance, 8) as u64;
            if kind == 0 {
                return Some(
                    Position {
                        market_index: m,
                        balance_type: BalanceType::Deposit,
                        scaled_balance: scaled,
                    },
                );
            } else if kind == 1 {
                return Some(
                    Position { market_index: m, balance_type: BalanceType::Borrow, scaled_balance: scaled },
                );
            } else {
                return None;
            }
        }
        j = j + 1;
    }
    None
}

} // verus!
