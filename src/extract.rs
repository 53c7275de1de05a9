//! The extraction: resolve the target market, then the signed balance of every
//! user record that holds a position in it.
use vstd::prelude::*;
use crate::balance::{get_signed_token_amount, signed_amount};
use crate::record::{
    authority_of, decode_authority, decode_market, find_position, is_market, is_user,
    first_position_from, market_of, position_of, tag_matches, Key, Layout, Market, TAG_LEN,
};

verus! {

/// One raw record: the account's key and its bytes.
#[derive(Debug)]
pub struct Record {
    pub key: Key,
    pub data: Vec<u8>,
}

/// A user's balance in the target market.
#[derive(Clone, Copy, Debug, PartialEq, Eq)]
pub struct UserTokenAmount {
    /// key of the user record
    pub user: Key,
    /// key that controls the user record
    pub authority: Key,
    /// positive for a deposit, negative for a borrow
    pub token_amount: i128,
}

impl View for UserTokenAmount {
    type V = (Key, Seq<u8>, i128);

    open spec fn view(&self) -> (Key, Seq<u8>, i128) {
        (self.user, self.authority.bytes@, self.token_amount)
    }
}

#[derive(Clone, Copy, Debug, PartialEq, Eq)]
pub enum ExtractError {
    /// No record of the batch is a market record with the target index.
    MarketNotFound,
    /// The balance of this user record could not be converted.
    BalanceComputationFailed(Key),
}

/// The market record that the extraction uses: the last one in `records` with
/// index `m`.
pub open spec fn resolved_market(layout: Layout, records: Seq<Record>, m: u16) -> Option<Market>
    decreases records.len(),
{
    if records.len() == 0 {
        None
    } else {
        let data = records.last().data@;
        if is_market(layout, data) && market_of(layout, data).market_index == m {
            Some(market_of(layout, data))
        } else {
            resolved_market(layout, records.drop_last(), m)
        }
    }
}

/// What one record adds to the result: nothing where it is no user record or
/// has no position in `m`, an entry, or the failure of its conversion.
pub open spec fn entry_of(layout: Layout, record: Record, m: u16, market: Market) -> Option<
    Result<(Key, Seq<u8>, i128), ExtractError>,
> {
    let data = record.data@;
    if !is_user(layout, data) {
        None
    } else {
        match position_of(layout, data, m) {
            None => None,
            Some(p) => match signed_amount(p.scaled_balance, p.balance_type, market) {
                None => Some(Err(ExtractError::BalanceComputationFailed(record.key))),
                Some(a) => Some(Ok((record.key, authority_of(layout, data), a))),
            },
        }
    }
}

/// The entries of `records` in their order, or the first failure.
pub open spec fn amounts(layout: Layout, records: Seq<Record>, m: u16, market: Market) -> Result<
    Seq<(Key, Seq<u8>, i128)>,
    ExtractError,
>
    decreases records.len(),
{
    if records.len() == 0 {
        Ok(Seq::empty())
    } else {
        match amounts(layout, records.drop_last(), m, market) {
            Err(e) => Err(e),
            Ok(s) => match entry_of(layout, records.last(), m, market) {
                None => Ok(s),
                Some(Ok(a)) => Ok(s.push(a)),
                Some(Err(e)) => Err(e),
            },
        }
    }
}

/// The whole extraction over `records` for market `m`.
pub open spec fn extraction(layout: Layout, records: Seq<Record>, m: u16) -> Result<
    Seq<(Key, Seq<u8>, i128)>,
    ExtractError,
> {
    match resolved_market(layout, records, m) {
        None => Err(ExtractError::MarketNotFound),
        Some(market) => amounts(layout, records, m, market),
    }
}

pub open spec fn views(v: Seq<UserTokenAmount>) -> Seq<(Key, Seq<u8>, i128)> {
    v.map_values(|a: UserTokenAmount| a@)
}

proof fn lemma_failure_persists(
    layout: Layout,
    records: Seq<Record>,
    i: int,
    m: u16,
    market: Market,
)
    requires
        0 <= i <= records.len(),
        amounts(layout, records.subrange(0, i), m, market) is Err,
    ensures
        amounts(layout, records, m, market) == amounts(layout, records.subrange(0, i), m, market),
    decreases records.len(),
{
    if i < records.len() {
        assert(records.drop_last().subrange(0, i) =~= records.subrange(0, i));
        lemma_failure_persists(layout, records.drop_last(), i, m, market);
    } else {
        assert(records.subrange(0, i) =~= records);
    }
}

/// Finds the market record with index `m`; the last one wins.
pub fn resolve_market(layout: &Layout, records: &Vec<Record>, m: u16) -> (r: Option<Market>)
    requires
        layout.wf(),
    ensures
        r == resolved_market(*layout, records@, m),
{
    let mut found: Option<Market> = None;
    let mut i: usize = 0;
    while i < records.len()
        invariant
            layout.wf(),
            i <= records@.len(),
            found == resolved_market(*layout, records@.subrange(0, i as int), m),
        decreases records@.len() - i,
    {
        let ghost prefix = records@.subrange(0, i + 1);
        assert(prefix.drop_last() =~= records@.subrange(0, i as int));
        if let Some(market) = decode_market(layout, &records[i].data) {
            if market.market_index == m {
                found = Some(market);
            }
        }
        i = i + 1;
    }
    assert(records@.subrange(0, records@.len() as int) =~= records@);
    found
}

/// The signed balance in market `m` of every user record of `records` that holds a
/// position there, in the order of `records`.
///
/// Records whose tag is neither the market tag nor the user tag are ignored, as are
/// user records without a position in `m`. Fails with `MarketNotFound` where no
/// market record has index `m`, and with `BalanceComputationFailed` for the first
/// user record whose balance overflows in the conversion.
pub fn get_token_amounts(records: &Vec<Record>, spot_market_index: u16, layout: &Layout) -> (r:
    Result<Vec<UserTokenAmount>, ExtractError>)
    requires
        layout.wf(),
    ensures
        r is Ok <==> extraction(*layout, records@, spot_market_index) is Ok,
        r is Ok ==> views(r->Ok_0@) == extraction(*layout, records@, spot_market_index)->Ok_0,
        r is Err ==> r->Err_0 == extraction(*layout, records@, spot_market_index)->Err_0,
{
    let m = spot_market_index;
    let market = match resolve_market(layout, records, m) {
        None => return Err(ExtractError::MarketNotFound),
        Some(market) => market,
    };
    let mut out: Vec<UserTokenAmount> = Vec::new();
    let mut i: usize = 0;
    assert(views(out@) =~= Seq::empty());
    assert(records@.subrange(0, 0) =~= Seq::<Record>::empty());
    while i < records.len()
        invariant
            layout.wf(),
            i <= records@.len(),
            m == spot_market_index,
            resolved_market(*layout, records@, m) == Some(market),
            amounts(*layout, records@.subrange(0, i as int), m, market) == Ok::<
                Seq<(Key, Seq<u8>, i128)>,
                ExtractError,
            >(views(out@)),
        decreases records@.len() - i,
    {
        let ghost prefix = records@.subrange(0, i + 1);
        assert(prefix.drop_last() =~= records@.subrange(0, i as int));
        let record = &records[i];
        if tag_matches(&record.data, &layout.user.tag) && record.data.len() >= layout.user.size {
            if let Some(position) = find_position(layout, &record.data, m) {
                match get_signed_token_amount(&position, &market) {
                    None => {
                        proof {
                            assert(prefix.last() == records@[i as int]);
                            assert(entry_of(*layout, records@[i as int], m, market) == Some(
                                Err::<(Key, Seq<u8>, i128), ExtractError>(
                                    ExtractError::BalanceComputationFailed(record.key),
                                ),
                            ));
                            assert(amounts(*layout, prefix, m, market) == Err::<
                                Seq<(Key, Seq<u8>, i128)>,
                                ExtractError,
                            >(ExtractError::BalanceComputationFailed(record.key)));
                            lemma_failure_persists(*layout, records@, i + 1, m, market);
                        }
                        let failed = ExtractError::BalanceComputationFailed(record.key);
                        return Err(failed);
                    },
                    Some(token_amount) => {
                        let authority = decode_authority(layout, &record.data);
                        let entry = UserTokenAmount { user: record.key, authority, token_amount };
                        proof {
                            assert(views(out@.push(entry)) =~= views(out@).push(entry@));
                        }
                        out.push(entry);
                    },
                }
            }
        }
        i = i + 1;
    }
    assert(records@.subrange(0, records@.len() as int) =~= records@);
    Ok(out)
}

/// Whether record `r` is a market record with index `m`.
pub open spec fn is_target_market(layout: Layout, r: Record, m: u16) -> bool {
    is_market(layout, r.data@) && market_of(layout, r.data@).market_index == m
}

proof fn lemma_resolved_some(layout: Layout, records: Seq<Record>, i: int, m: u16)
    requires
        0 <= i < records.len(),
        is_target_market(layout, records[i], m),
    ensures
        resolved_market(layout, records, m) is Some,
    decreases records.len(),
{
    if i < records.len() - 1 {
        lemma_resolved_some(layout, records.drop_last(), i, m);
    }
}

proof fn lemma_resolved_none(layout: Layout, records: Seq<Record>, m: u16)
    requires
        forall|i: int| 0 <= i < records.len() ==> !is_target_market(layout, #[trigger] records[i], m),
    ensures
        resolved_market(layout, records, m) is None,
    decreases records.len(),
{
    if records.len() > 0 {
        lemma_resolved_none(layout, records.drop_last(), m);
    }
}

proof fn lemma_no_users(layout: Layout, records: Seq<Record>, m: u16, market: Market)
    requires
        forall|i: int| 0 <= i < records.len() ==> !is_user(layout, (#[trigger] records[i]).data@),
    ensures
        amounts(layout, records, m, market) == Ok::<Seq<(Key, Seq<u8>, i128)>, ExtractError>(
            Seq::empty(),
        ),
    decreases records.len(),
{
    if records.len() > 0 {
        lemma_no_users(layout, records.drop_last(), m, market);
    }
}

/// A batch with a market record of index `m` and no user record yields an empty
/// result.
pub proof fn lemma_no_user_records(layout: Layout, records: Seq<Record>, m: u16)
    requires
        layout.wf(),
        exists|i: int| 0 <= i < records.len() && is_target_market(layout, #[trigger] records[i], m),
        forall|i: int| 0 <= i < records.len() ==> !is_user(layout, (#[trigger] records[i]).data@),
    ensures
        extraction(layout, records, m) == Ok::<Seq<(Key, Seq<u8>, i128)>, ExtractError>(
            Seq::empty(),
        ),
{
    let i = choose|i: int| 0 <= i < records.len() && is_target_market(layout, #[trigger] records[i], m);
    lemma_resolved_some(layout, records, i, m);
    lemma_no_users(layout, records, m, resolved_market(layout, records, m)->Some_0);
}

/// Where no record is a market record with index `m`, the extraction fails with
/// `MarketNotFound`.
pub proof fn lemma_missing_market(layout: Layout, records: Seq<Record>, m: u16)
    requires
        forall|i: int| 0 <= i < records.len() ==> !is_target_market(layout, #[trigger] records[i], m),
    ensures
        extraction(layout, records, m) == Err::<Seq<(Key, Seq<u8>, i128)>, ExtractError>(
            ExtractError::MarketNotFound,
        ),
{
    lemma_resolved_none(layout, records, m);
}

proof fn lemma_remove_resolved(layout: Layout, records: Seq<Record>, i: int, m: u16)
    requires
        0 <= i < records.len(),
        !is_target_market(layout, records[i], m),
    ensures
        resolved_market(layout, records, m) == resolved_market(layout, records.remove(i), m),
    decreases records.len(),
{
    if i == records.len() - 1 {
        assert(records.remove(i) =~= records.drop_last());
    } else {
        assert(records.remove(i).drop_last() =~= records.drop_last().remove(i));
        assert(records.remove(i).last() == records.last());
        lemma_remove_resolved(layout, records.drop_last(), i, m);
    }
}

proof fn lemma_remove_amounts(
    layout: Layout,
    records: Seq<Record>,
    i: int,
    m: u16,
    market: Market,
)
    requires
        0 <= i < records.len(),
        entry_of(layout, records[i], m, market) is None,
    ensures
        amounts(layout, records, m, market) == amounts(layout, records.remove(i), m, market),
    decreases records.len(),
{
    if i == records.len() - 1 {
        assert(records.remove(i) =~= records.drop_last());
    } else {
        assert(records.remove(i).drop_last() =~= records.drop_last().remove(i));
        assert(records.remove(i).last() == records.last());
        lemma_remove_amounts(layout, records.drop_last(), i, m, market);
    }
}

/// A user record without a position in market `m` leaves the result as it would be
/// without that record.
pub proof fn lemma_user_without_position(layout: Layout, records: Seq<Record>, i: int, m: u16)
    requires
        layout.wf(),
        0 <= i < records.len(),
        is_user(layout, records[i].data@),
        first_position_from(layout, records[i].data@, m, 0) is None,
    ensures
        extraction(layout, records, m) == extraction(layout, records.remove(i), m),
{
    assert(records[i].data@.subrange(0, TAG_LEN as int) == layout.user.tag@);
    lemma_remove_resolved(layout, records, i, m);
    if let Some(market) = resolved_market(layout, records, m) {
        lemma_remove_amounts(layout, records, i, m, market);
    }
}

proof fn lemma_amounts_append(
    layout: Layout,
    a: Seq<Record>,
    b: Seq<Record>,
    m: u16,
    market: Market,
)
    requires
        amounts(layout, a, m, market) is Ok,
        amounts(layout, b, m, market) is Ok,
    ensures
        amounts(layout, a + b, m, market) == Ok::<Seq<(Key, Seq<u8>, i128)>, ExtractError>(
            amounts(layout, a, m, market)->Ok_0 + amounts(layout, b, m, market)->Ok_0,
        ),
    decreases b.len(),
{
    let x = amounts(layout, a, m, market)->Ok_0;
    if b.len() == 0 {
        assert(a + b =~= a);
        assert(x + Seq::empty() =~= x);
    } else {
        assert((a + b).drop_last() =~= a + b.drop_last());
        assert((a + b).last() == b.last());
        lemma_amounts_append(layout, a, b.drop_last(), m, market);
        let y = amounts(layout, b.drop_last(), m, market)->Ok_0;
        if let Some(Ok(e)) = entry_of(layout, b.last(), m, market) {
            assert((x + y).push(e) =~= x + y.push(e));
        }
    }
}

/// The entries come in the order of the records: the result for a batch `a + b` is
/// the entries of `a` followed by those of `b`, both taken against the market that
/// the whole batch resolves to.
pub proof fn lemma_order(layout: Layout, a: Seq<Record>, b: Seq<Record>, m: u16)
    requires
        resolved_market(layout, a + b, m) is Some,
        amounts(layout, a, m, resolved_market(layout, a + b, m)->Some_0) is Ok,
        amounts(layout, b, m, resolved_market(layout, a + b, m)->Some_0) is Ok,
    ensures
        extraction(layout, a + b, m) == Ok::<Seq<(Key, Seq<u8>, i128)>, ExtractError>(
            amounts(layout, a, m, resolved_market(layout, a + b, m)->Some_0)->Ok_0 + amounts(
                layout,
                b,
                m,
                resolved_market(layout, a + b, m)->Some_0,
            )->Ok_0,
        ),
{
    lemma_amounts_append(layout, a, b, m, resolved_market(layout, a + b, m)->Some_0);
}

/// Two batches with the same keys and bytes, record by record.
pub open spec fn same_batch(a: Seq<Record>, b: Seq<Record>) -> bool {
    &&& a.len() == b.len()
    &&& forall|i: int|
        0 <= i < a.len() ==> (#[trigger] a[i]).key == b[i].key && a[i].data@ == b[i].data@
}

proof fn lemma_same_batch_drop_last(a: Seq<Record>, b: Seq<Record>)
    requires
        same_batch(a, b),
        a.len() > 0,
    ensures
        same_batch(a.drop_last(), b.drop_last()),
{
    assert forall|i: int| 0 <= i < a.drop_last().len() implies (#[trigger] a.drop_last()[i]).key
        == b.drop_last()[i].key && a.drop_last()[i].data@ == b.drop_last()[i].data@ by {
        assert(a.drop_last()[i] == a[i]);
        assert(b.drop_last()[i] == b[i]);
    }
}

proof fn lemma_same_batch_amounts(
    layout: Layout,
    a: Seq<Record>,
    b: Seq<Record>,
    m: u16,
    market: Market,
)
    requires
        same_batch(a, b),
    ensures
        resolved_market(layout, a, m) == resolved_market(layout, b, m),
        amounts(layout, a, m, market) == amounts(layout, b, m, market),
    decreases a.len(),
{
    if a.len() > 0 {
        lemma_same_batch_drop_last(a, b);
        lemma_same_batch_amounts(layout, a.drop_last(), b.drop_last(), m, market);
        assert(a.last() == a[a.len() - 1]);
        assert(b.last() == b[b.len() - 1]);
    }
}

/// The result depends on the keys and bytes of the records alone: batches that agree
/// on them give the same result, on every call.
pub proof fn lemma_deterministic(layout: Layout, a: Seq<Record>, b: Seq<Record>, m: u16)
    requires
        same_batch(a, b),
    ensures
        extraction(layout, a, m) == extraction(layout, b, m),
{
    lemma_same_batch_amounts(layout, a, b, m, resolved_market(layout, a, m)->Some_0);
}

} // verus!
