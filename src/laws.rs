use vstd::prelude::*;

use crate::data::Offer;
use crate::market::{counts_cover, lemma_owned_holds, owned_in, Market};
use crate::market::{
    lemma_split_bounds, offer_ok, offer_remainder, offer_split, payments_for, transfers_total,
    MarketView, SettlementKind, Transfer,
};

verus! {

/// A listing that an offer locks takes no second one: a purchase with NEAR
/// is turned down, and a payment with tokens is handed back.
pub proof fn locked_listing_takes_no_offer(
    v: MarketView,
    key: Seq<char>,
    buyer: Seq<char>,
    attached: u128,
    ft: Seq<char>,
    amount: u128,
    referrer_id: Option<String>,
    affiliate_id: Option<String>,
)
    requires
        v.listings.contains_key(key),
        v.listings[key].current_offer is Some,
    ensures
        v.buy_rejection(buyer, attached, key, referrer_id, affiliate_id) is Some,
        v.ft_refund_reason(ft, buyer, key, amount, referrer_id, affiliate_id) is Some,
{
}

/// A sale splits the offer exactly: the payout, the affiliate's share and
/// what the market keeps add up to the amount, and the market keeps at
/// least its own share. Nothing pays out more than the amount.
pub proof fn sale_conserves_amount(offer: Offer, payout: Seq<Transfer>)
    requires
        offer_ok(offer),
        transfers_total(payout) <= offer_remainder(offer),
    ensures
        ({
            let (aff, mb) = offer_split(offer);
            let a = match aff {
                Some(x) => x,
                None => 0,
            };
            let retained = offer.amount - transfers_total(payout) - a;
            &&& transfers_total(payout) + a + retained == offer.amount
            &&& 0 <= mb <= retained
            &&& transfers_total(payout) + a <= offer.amount
        }),
{
    lemma_split_bounds(offer);
}

/// An offer that does not end in a sale is refunded once: with NEAR by a
/// single payment of the whole amount to the buyer, with tokens by no
/// payment at all, the token contract refunding the amount returned to it.
pub proof fn failed_offer_refunded_once(offer: Offer, kind: SettlementKind, payout: Seq<Transfer>, aff: int, near: bool)
    requires
        kind != SettlementKind::Sold,
    ensures
        near ==> payments_for(offer, kind, payout, aff, near) == seq![
            Transfer { receiver_id: offer.offerer_id, amount: offer.amount },
        ],
        !near ==> payments_for(offer, kind, payout, aff, near).len() == 0,
{
}

/// Banning a contract that is banned already adds nothing to the removal
/// and refund that end the offer: the market ends as it would have on a
/// plain failure.
pub proof fn ban_is_idempotent(v: MarketView, key: Seq<char>)
    requires
        v.listings.contains_key(key),
        v.is_banned(v.listings[key].nft_contract_id@),
    ensures
        v.settled(key, SettlementKind::Banned) == v.settled(key, SettlementKind::Failed),
        v.settled(key, SettlementKind::Banned).banned == v.banned,
{
    let c = v.listings[key].nft_contract_id@;
    assert(v.banned.insert(c) =~= v.banned);
}

/// In a solvent market every listing's deposit can be paid back to its
/// lister, so resolving an offer whose payout outcome is known never fails
/// for want of deposit.
pub proof fn solvent_listing_is_refundable(m: Market, key: Seq<char>)
    requires
        m.wf(),
        m.solvent(),
        m@.listings.contains_key(key),
    ensures
        m@.can_refund(m@.listings[key].nft_owner_id@, 1),
{
    let i = m.listings.index_of(key);
    assert(m.listings.has(key));
    assert(m.listings.key_at(i) == key);
    m.listings.lemma_index(i);
    let owner = m@.listings[key].nft_owner_id@;
    lemma_owned_holds(m.listings.entries@, i);
    assert(counts_cover(m@, m.listings.entries@));
    assert(m@.count_of(owner) >= owned_in(m.listings.entries@, owner));
    let c = m@.count_of(owner);
    let p = m@.listing_storage_deposit as int;
    assert(m@.deposit_of(owner) >= c * p);
    assert(c * p >= p) by (nonlinear_arith)
        requires
            c >= 1,
            p >= 0,
    ;
}

} // verus!
