use mb_market::data::{BuyWithFtMessage, CreateListingMsg, Currency, TEN_MILLINEAR};
use mb_market::fraction::{bp_of, SafeFraction};
use mb_market::market::{
    FtPurchase, Market, MarketError, PayoutResult, RefundReason, Resolution, Settlement,
    SettlementKind, Transfer,
};

fn s(x: &str) -> String {
    x.to_string()
}

fn pay(to: &str, amount: u128) -> Transfer {
    Transfer { receiver_id: s(to), amount }
}

/// A market with a 2.5 % cut and one NEAR listing of token "1" at 100.
fn market_with_listing(ft: Option<&str>) -> Market {
    let mut m = Market::init(s("owner.near"), 2_000, 250, 0).unwrap();
    m.deposit_storage(&s("seller.near"), TEN_MILLINEAR).unwrap();
    let msg = CreateListingMsg { price: 100, ft_contract: ft.map(s) };
    m.nft_on_approve(&s("nft.near"), s("1"), s("seller.near"), 7, msg, 1_000).unwrap();
    m
}

fn settled(r: Result<Resolution, MarketError>) -> Settlement {
    match r {
        Ok(Resolution::Settled(st)) => st,
        _ => panic!("expected a settlement"),
    }
}

fn key() -> String {
    s("nft.near<$>1")
}

#[test]
fn native_sale_without_affiliate() {
    let mut m = market_with_listing(None);
    let req = m.buy(&s("buyer.near"), 100, s("nft.near"), s("1"), None, None).unwrap();
    assert_eq!(req.balance, 98);
    assert_eq!(req.platform_amount, 2);
    assert_eq!(req.affiliate_amount, None);
    assert_eq!(req.max_len_payout, 50);
    assert_eq!(req.receiver_id, "buyer.near");
    assert_eq!(req.approval_id, 7);
    assert_eq!(req.token_key, key());
    let st = settled(m.nft_resolve_payout_near(key(), PayoutResult::Parsed(vec![pay("seller.near", 98)])));
    assert_eq!(st.kind, SettlementKind::Sold);
    assert_eq!(st.payments.len(), 1);
    assert_eq!(st.payments[0].receiver_id, "seller.near");
    assert_eq!(st.payments[0].amount, 98);
    assert_eq!(st.platform_retained, 2);
    assert_eq!(st.returned, 0);
    assert_eq!(st.storage_refund.receiver_id, "seller.near");
    assert_eq!(st.storage_refund.amount, TEN_MILLINEAR);
    assert!(m.get_listing(s("nft.near"), s("1")).is_none());
    assert_eq!(m.get_storage_deposit(&s("seller.near")), 0);
    assert_eq!(m.get_listings_count(&s("seller.near")), 0);
}

#[test]
fn malformed_payout_bans_and_refunds_native_buyer() {
    let mut m = market_with_listing(None);
    m.buy(&s("buyer.near"), 100, s("nft.near"), s("1"), None, None).unwrap();
    let st = settled(m.nft_resolve_payout_near(key(), PayoutResult::Malformed));
    assert_eq!(st.kind, SettlementKind::Banned);
    assert_eq!(st.payments.len(), 1);
    assert_eq!(st.payments[0].receiver_id, "buyer.near");
    assert_eq!(st.payments[0].amount, 100);
    assert_eq!(st.returned, 0);
    assert_eq!(m.banned_accounts(), vec![s("nft.near")]);
    assert!(m.get_listing(s("nft.near"), s("1")).is_none());
}

#[test]
fn malformed_payout_returns_ft_amount_without_transfer() {
    let mut m = market_with_listing(Some("usdc.near"));
    let msg = BuyWithFtMessage {
        nft_contract_id: s("nft.near"),
        token_id: s("1"),
        referrer_id: None,
        affiliate_id: None,
    };
    match m.ft_on_transfer(&s("usdc.near"), s("buyer.near"), 100, msg) {
        FtPurchase::Started(req) => {
            assert_eq!(req.max_len_payout, 10);
            assert!(!req.near);
        }
        FtPurchase::Refund { .. } => panic!("the purchase should start"),
    }
    let st = settled(m.nft_resolve_payout_ft(key(), PayoutResult::Malformed));
    assert_eq!(st.kind, SettlementKind::Banned);
    assert!(st.payments.is_empty());
    assert_eq!(st.returned, 100);
    assert_eq!(m.banned_accounts(), vec![s("nft.near")]);
}

#[test]
fn failed_transfer_refunds_once() {
    let mut m = market_with_listing(None);
    m.buy(&s("buyer.near"), 120, s("nft.near"), s("1"), None, None).unwrap();
    let st = settled(m.nft_resolve_payout_near(key(), PayoutResult::Failed));
    assert_eq!(st.kind, SettlementKind::Failed);
    assert_eq!(st.payments.len(), 1);
    assert_eq!(st.payments[0].amount, 120);
    assert!(m.banned_accounts().is_empty());
}

#[test]
fn payout_not_ready_is_retried() {
    let mut m = market_with_listing(None);
    m.buy(&s("buyer.near"), 100, s("nft.near"), s("1"), None, None).unwrap();
    assert!(matches!(m.nft_resolve_payout_near(key(), PayoutResult::NotReady), Ok(Resolution::Retry)));
    assert!(m.get_listing(s("nft.near"), s("1")).unwrap().current_offer.is_some());
}

#[test]
fn overspending_payout_bans() {
    let mut m = market_with_listing(None);
    m.buy(&s("buyer.near"), 100, s("nft.near"), s("1"), None, None).unwrap();
    let st = settled(m.nft_resolve_payout_near(key(), PayoutResult::Parsed(vec![pay("seller.near", 99)])));
    assert_eq!(st.kind, SettlementKind::Banned);
    assert_eq!(st.payments[0].receiver_id, "buyer.near");
}

#[test]
fn too_many_recipients_bans() {
    let mut m = market_with_listing(Some("usdc.near"));
    let msg = BuyWithFtMessage {
        nft_contract_id: s("nft.near"),
        token_id: s("1"),
        referrer_id: None,
        affiliate_id: None,
    };
    m.ft_on_transfer(&s("usdc.near"), s("buyer.near"), 100, msg);
    let payout: Vec<Transfer> = (0..11).map(|i| pay(&format!("r{}.near", i), 1)).collect();
    let st = settled(m.nft_resolve_payout_ft(key(), PayoutResult::Parsed(payout)));
    assert_eq!(st.kind, SettlementKind::Banned);
    assert_eq!(st.returned, 100);
}

#[test]
fn stuck_offer_cleared_by_owner() {
    let mut m = market_with_listing(None);
    m.buy(&s("buyer.near"), 100, s("nft.near"), s("1"), None, None).unwrap();
    assert_eq!(m.remove_offer(&s("buyer.near"), s("nft.near"), s("1")), Err(MarketError::NotOwner));
    assert_eq!(m.remove_offer(&s("owner.near"), s("nft.near"), s("1")), Ok(()));
    let l = m.get_listing(s("nft.near"), s("1")).unwrap();
    assert!(l.current_offer.is_none());
    assert_eq!(m.get_storage_deposit(&s("seller.near")), TEN_MILLINEAR);
    assert_eq!(m.remove_offer(&s("owner.near"), s("nft.near"), s("1")), Err(MarketError::NoOffer));
}

#[test]
fn second_offer_on_locked_listing_is_refused() {
    let mut m = market_with_listing(None);
    m.buy(&s("buyer.near"), 100, s("nft.near"), s("1"), None, None).unwrap();
    let again = m.buy(&s("other.near"), 500, s("nft.near"), s("1"), None, None);
    assert!(matches!(again, Err(MarketError::OfferInProgress)));
}

#[test]
fn second_ft_offer_on_locked_listing_is_handed_back() {
    let mut m = market_with_listing(Some("usdc.near"));
    let msg = || BuyWithFtMessage {
        nft_contract_id: s("nft.near"),
        token_id: s("1"),
        referrer_id: None,
        affiliate_id: None,
    };
    m.ft_on_transfer(&s("usdc.near"), s("buyer.near"), 100, msg());
    match m.ft_on_transfer(&s("usdc.near"), s("other.near"), 300, msg()) {
        FtPurchase::Refund { amount, reason } => {
            assert_eq!(amount, 300);
            assert_eq!(reason, RefundReason::OfferInProgress);
        }
        FtPurchase::Started(_) => panic!("a locked listing took a second offer"),
    }
}

#[test]
fn ft_payment_mismatches_are_handed_back() {
    let mut m = market_with_listing(Some("usdc.near"));
    let msg = || BuyWithFtMessage {
        nft_contract_id: s("nft.near"),
        token_id: s("1"),
        referrer_id: None,
        affiliate_id: None,
    };
    match m.ft_on_transfer(&s("dai.near"), s("buyer.near"), 100, msg()) {
        FtPurchase::Refund { reason, .. } => assert_eq!(reason, RefundReason::WrongFtContract),
        _ => panic!("wrong token accepted"),
    }
    match m.ft_on_transfer(&s("usdc.near"), s("buyer.near"), 99, msg()) {
        FtPurchase::Refund { amount, reason } => {
            assert_eq!(amount, 99);
            assert_eq!(reason, RefundReason::BelowPrice);
        }
        _ => panic!("underpayment accepted"),
    }
    let mut n = market_with_listing(None);
    match n.ft_on_transfer(&s("usdc.near"), s("buyer.near"), 100, msg()) {
        FtPurchase::Refund { reason, .. } => assert_eq!(reason, RefundReason::ListedForNear),
        _ => panic!("NEAR listing sold for tokens"),
    }
}

#[test]
fn buy_rejections() {
    let mut m = market_with_listing(Some("usdc.near"));
    assert!(matches!(
        m.buy(&s("b.near"), 100, s("nft.near"), s("1"), None, None),
        Err(MarketError::NotListedForNear)
    ));
    assert!(matches!(
        m.buy(&s("b.near"), 100, s("nft.near"), s("2"), None, None),
        Err(MarketError::ListingNotFound)
    ));
    assert!(matches!(
        m.buy(&s("b.near"), 100, s("nft.near"), s("1"), Some(s("a")), Some(s("b"))),
        Err(MarketError::AmbiguousAffiliate)
    ));
    let mut n = market_with_listing(None);
    assert!(matches!(
        n.buy(&s("b.near"), 99, s("nft.near"), s("1"), None, None),
        Err(MarketError::DepositBelowPrice)
    ));
    n.ban(&s("owner.near"), s("b.near")).unwrap();
    assert!(matches!(
        n.buy(&s("b.near"), 100, s("nft.near"), s("1"), None, None),
        Err(MarketError::AccountBanned)
    ));
}

#[test]
fn affiliate_split_is_frozen_into_the_offer() {
    let mut m = market_with_listing(None);
    m.add_referrer(&s("owner.near"), s("aff.near"), 1_000).unwrap();
    let req = m.buy(&s("buyer.near"), 10_000, s("nft.near"), s("1"), None, Some(s("aff.near"))).unwrap();
    // cut 10 % = 1000, of which the market keeps 20 % = 200
    assert_eq!(req.platform_amount, 200);
    assert_eq!(req.affiliate_amount, Some(800));
    assert_eq!(req.balance, 9_000);
    m.add_referrer(&s("owner.near"), s("aff.near"), 5_000).unwrap();
    let st = settled(m.nft_resolve_payout_near(key(), PayoutResult::Parsed(vec![pay("seller.near", 9_000)])));
    assert_eq!(st.kind, SettlementKind::Sold);
    assert_eq!(st.payments.len(), 2);
    assert_eq!(st.payments[1].receiver_id, "aff.near");
    assert_eq!(st.payments[1].amount, 800);
    assert_eq!(st.platform_retained, 200);
}

#[test]
fn unregistered_affiliate_gets_fallback_cut() {
    let mut m = market_with_listing(None);
    let req = m.buy(&s("buyer.near"), 10_000, s("nft.near"), s("1"), Some(s("x.near")), None).unwrap();
    // fallback 2.5 % = 250, the market keeps 20 % of it
    assert_eq!(req.platform_amount, 50);
    assert_eq!(req.affiliate_amount, Some(200));
    assert_eq!(req.balance, 9_750);
}

#[test]
fn listing_needs_storage_and_short_token_ids() {
    let mut m = Market::init(s("owner.near"), 0, 0, 0).unwrap();
    let msg = || CreateListingMsg { price: 1, ft_contract: None };
    assert!(matches!(
        m.nft_on_approve(&s("nft.near"), s("1"), s("seller.near"), 0, msg(), 0),
        Err(MarketError::StorageNotCovered)
    ));
    m.deposit_storage(&s("seller.near"), TEN_MILLINEAR).unwrap();
    let long_id = "x".repeat(129);
    assert!(matches!(
        m.nft_on_approve(&s("nft.near"), long_id, s("seller.near"), 0, msg(), 0),
        Err(MarketError::TokenIdTooLong)
    ));
    let id128 = "x".repeat(128);
    assert!(m.nft_on_approve(&s("nft.near"), id128, s("seller.near"), 0, msg(), 0).is_ok());
    assert!(matches!(
        m.nft_on_approve(&s("nft.near"), s("2"), s("seller.near"), 0, msg(), 0),
        Err(MarketError::StorageNotCovered)
    ));
    m.ban(&s("owner.near"), s("usdc.near")).unwrap();
    m.deposit_storage(&s("seller.near"), TEN_MILLINEAR).unwrap();
    let ft_msg = CreateListingMsg { price: 1, ft_contract: Some(s("usdc.near")) };
    assert!(matches!(
        m.nft_on_approve(&s("nft.near"), s("3"), s("seller.near"), 0, ft_msg, 0),
        Err(MarketError::AccountBanned)
    ));
}

#[test]
fn relisting_replaces_unlocked_listing() {
    let mut m = market_with_listing(None);
    m.deposit_storage(&s("seller.near"), TEN_MILLINEAR).unwrap();
    let msg = CreateListingMsg { price: 500, ft_contract: None };
    let old = m.nft_on_approve(&s("nft.near"), s("1"), s("seller.near"), 8, msg, 2_000).unwrap();
    assert_eq!(old.unwrap().price, 100);
    assert_eq!(m.get_listing(s("nft.near"), s("1")).unwrap().price, 500);
    m.buy(&s("buyer.near"), 500, s("nft.near"), s("1"), None, None).unwrap();
    m.deposit_storage(&s("seller.near"), TEN_MILLINEAR).unwrap();
    let msg = CreateListingMsg { price: 1, ft_contract: None };
    assert!(matches!(
        m.nft_on_approve(&s("nft.near"), s("1"), s("seller.near"), 9, msg, 3_000),
        Err(MarketError::OfferInProgress)
    ));
}

#[test]
fn unlist_rules_and_refund() {
    let mut m = Market::init(s("owner.near"), 0, 0, 10).unwrap();
    m.deposit_storage(&s("seller.near"), 2 * TEN_MILLINEAR).unwrap();
    for id in ["1", "2"] {
        let msg = CreateListingMsg { price: 1, ft_contract: None };
        m.nft_on_approve(&s("nft.near"), s(id), s("seller.near"), 0, msg, 1_000).unwrap();
    }
    let ids = || vec![s("1"), s("2")];
    let late = 1_000 + 10 * 1_000_000_000;
    assert!(matches!(
        m.unlist(&s("seller.near"), 1, s("nft.near"), ids(), late - 1),
        Err(MarketError::ListingStillLocked)
    ));
    assert!(matches!(m.unlist(&s("thief.near"), 1, s("nft.near"), ids(), late), Err(MarketError::NotSeller)));
    assert!(matches!(m.unlist(&s("seller.near"), 0, s("nft.near"), ids(), late), Err(MarketError::OneYoctoRequired)));
    assert!(matches!(
        m.unlist(&s("seller.near"), 1, s("nft.near"), vec![s("1"), s("1")], late),
        Err(MarketError::ListingNotFound)
    ));
    assert!(m.get_listing(s("nft.near"), s("1")).is_some());
    let (removed, refund) = m.unlist(&s("seller.near"), 1, s("nft.near"), ids(), late).unwrap();
    assert_eq!(removed.len(), 2);
    assert_eq!(refund.receiver_id, "seller.near");
    assert_eq!(refund.amount, 2 * TEN_MILLINEAR);
    assert_eq!(m.get_listings_count(&s("seller.near")), 0);
    assert_eq!(m.get_storage_deposit(&s("seller.near")), 0);
}

#[test]
fn storage_deposit_accounting() {
    let mut m = market_with_listing(None);
    m.deposit_storage(&s("seller.near"), 5).unwrap();
    assert!(matches!(
        m.claim_unused_storage_deposit(&s("seller.near"), 0),
        Err(MarketError::OneYoctoRequired)
    ));
    let t = m.claim_unused_storage_deposit(&s("seller.near"), 1).unwrap();
    assert_eq!(t.amount, 5);
    assert_eq!(m.get_storage_deposit(&s("seller.near")), TEN_MILLINEAR);
    assert_eq!(m.get_listings_count(&s("seller.near")), 1);
    let t = m.claim_unused_storage_deposit(&s("seller.near"), 1).unwrap();
    assert_eq!(t.amount, 0);
}

#[test]
fn banning_twice_changes_nothing() {
    let mut m = market_with_listing(None);
    m.ban(&s("owner.near"), s("bad.near")).unwrap();
    m.ban(&s("owner.near"), s("bad.near")).unwrap();
    assert_eq!(m.banned_accounts(), vec![s("bad.near")]);
    m.unban(&s("owner.near"), s("bad.near")).unwrap();
    assert!(m.banned_accounts().is_empty());
    assert_eq!(m.ban(&s("x.near"), s("bad.near")), Err(MarketError::NotOwner));
}

#[test]
fn owner_configuration() {
    let mut m = Market::init(s("owner.near"), 100, 200, 5).unwrap();
    assert_eq!(m.set_fallback_cut(&s("owner.near"), 10_001), Err(MarketError::CutAboveLimit));
    assert_eq!(m.set_mintbase_cut(&s("x.near"), 1), Err(MarketError::NotOwner));
    m.set_mintbase_cut(&s("owner.near"), 300).unwrap();
    m.set_fallback_cut(&s("owner.near"), 400).unwrap();
    m.set_listing_lock_seconds(&s("owner.near"), 9).unwrap();
    m.set_listing_storage_deposit(&s("owner.near"), 77).unwrap();
    m.add_referrer(&s("owner.near"), s("aff.near"), 12).unwrap();
    assert_eq!(m.get_mintbase_cut(), 300);
    assert_eq!(m.get_fallback_cut(), 400);
    assert_eq!(m.get_listing_lock_seconds(), 9);
    assert_eq!(m.get_listing_storage_deposit(), 77);
    assert_eq!(m.referrers(), vec![(s("aff.near"), 12)]);
    m.del_referrer(&s("owner.near"), s("aff.near")).unwrap();
    assert!(m.referrers().is_empty());
    m.set_owner(&s("owner.near"), s("new.near")).unwrap();
    assert_eq!(m.get_owner(), "new.near");
    assert!(matches!(Market::init(s("o"), 10_001, 0, 0), Err(MarketError::CutAboveLimit)));
}

#[test]
fn basis_point_shares() {
    assert_eq!(bp_of(100, 250), 2);
    assert_eq!(bp_of(10_000, 250), 250);
    assert_eq!(bp_of(u128::MAX, 10_000), u128::MAX);
    assert_eq!(bp_of(u128::MAX, 0), 0);
    assert_eq!(bp_of(19_999, 5_000), 9_999);
    assert_eq!(SafeFraction::new(250).unwrap().multiply_balance(100), 2);
    assert!(SafeFraction::new(10_001).is_none());
}

#[test]
fn currency_text() {
    assert_eq!(Currency::Near.to_string(), "near");
    assert_eq!(Currency::FtContract(s("usdc.near")).to_string(), "ft::usdc.near");
    assert_eq!(Currency::from_ft_contract(None).get_ft_contract_id(), None);
    assert!(Currency::from_ft_contract(None).is_near());
    assert_eq!(
        Currency::FtContract(s("a")).get_ft_contract_id(),
        Some(s("a"))
    );
}

#[test]
fn listing_json_shows_currency_and_offer() {
    let mut m = market_with_listing(Some("usdc.near"));
    let j = m.get_listing(s("nft.near"), s("1")).unwrap();
    assert_eq!(j.currency, "ft::usdc.near");
    assert_eq!(j.created_at, 1_000);
    assert_eq!(j.nft_approval_id, 7);
    let msg = BuyWithFtMessage {
        nft_contract_id: s("nft.near"),
        token_id: s("1"),
        referrer_id: None,
        affiliate_id: None,
    };
    m.ft_on_transfer(&s("usdc.near"), s("buyer.near"), 150, msg);
    let j = m.get_listing(s("nft.near"), s("1")).unwrap();
    assert_eq!(j.current_offer.unwrap().amount, 150);
    let l = m.get_listing_internal(&key()).unwrap();
    assert_eq!(l.token_key(), key());
}

fn ft_msg(token: &str, referrer: Option<&str>, affiliate: Option<&str>) -> BuyWithFtMessage {
    BuyWithFtMessage {
        nft_contract_id: s("nft.near"),
        token_id: s(token),
        referrer_id: referrer.map(s),
        affiliate_id: affiliate.map(s),
    }
}

fn refund_reason(p: FtPurchase, paid: u128) -> RefundReason {
    match p {
        FtPurchase::Refund { amount, reason } => {
            assert_eq!(amount, paid);
            reason
        }
        FtPurchase::Started(_) => panic!("the payment should come back"),
    }
}

#[test]
fn ft_input_errors_hand_the_payment_back() {
    let mut m = market_with_listing(Some("usdc.near"));
    let r = m.ft_on_transfer(&s("usdc.near"), s("buyer.near"), 100, ft_msg("2", None, None));
    assert_eq!(refund_reason(r, 100), RefundReason::ListingNotFound);
    let r = m.ft_on_transfer(&s("usdc.near"), s("buyer.near"), 100, ft_msg("1", Some("a.near"), Some("b.near")));
    assert_eq!(refund_reason(r, 100), RefundReason::AmbiguousAffiliate);
    m.ban(&s("owner.near"), s("buyer.near")).unwrap();
    let r = m.ft_on_transfer(&s("usdc.near"), s("buyer.near"), 100, ft_msg("1", None, None));
    assert_eq!(refund_reason(r, 100), RefundReason::AccountBanned);
    m.ban(&s("owner.near"), s("usdc.near")).unwrap();
    let r = m.ft_on_transfer(&s("usdc.near"), s("other.near"), 100, ft_msg("1", None, None));
    assert_eq!(refund_reason(r, 100), RefundReason::AccountBanned);
    assert!(m.get_listing(s("nft.near"), s("1")).unwrap().current_offer.is_none());
}

#[test]
fn later_cut_changes_leave_an_offer_alone() {
    let mut m = market_with_listing(None);
    let req = m.buy(&s("buyer.near"), 100, s("nft.near"), s("1"), None, None).unwrap();
    assert_eq!(req.balance, 98);
    m.set_fallback_cut(&s("owner.near"), 500).unwrap();
    let st = settled(m.nft_resolve_payout_near(key(), PayoutResult::Parsed(vec![pay("seller.near", 98)])));
    assert_eq!(st.kind, SettlementKind::Sold);
    assert_eq!(st.platform_amount, 2);
    assert_eq!(st.platform_retained, 2);
}

#[test]
fn later_mintbase_cut_change_leaves_an_affiliate_offer_alone() {
    let mut m = market_with_listing(None);
    m.add_referrer(&s("owner.near"), s("aff.near"), 1_000).unwrap();
    m.buy(&s("buyer.near"), 10_000, s("nft.near"), s("1"), Some(s("aff.near")), None).unwrap();
    m.set_mintbase_cut(&s("owner.near"), 10_000).unwrap();
    let st = settled(m.nft_resolve_payout_near(key(), PayoutResult::Parsed(vec![pay("seller.near", 9_000)])));
    assert_eq!(st.kind, SettlementKind::Sold);
    assert_eq!(st.affiliate_amount, Some(800));
    assert_eq!(st.platform_amount, 200);
}

#[test]
fn raising_the_listing_deposit_must_stay_covered() {
    let mut m = market_with_listing(None);
    assert_eq!(
        m.set_listing_storage_deposit(&s("owner.near"), TEN_MILLINEAR + 1),
        Err(MarketError::StorageNotCovered)
    );
    assert_eq!(m.get_listing_storage_deposit(), TEN_MILLINEAR);
    m.deposit_storage(&s("seller.near"), TEN_MILLINEAR).unwrap();
    m.set_listing_storage_deposit(&s("owner.near"), 2 * TEN_MILLINEAR).unwrap();
    assert_eq!(m.get_listing_storage_deposit(), 2 * TEN_MILLINEAR);
    m.set_listing_storage_deposit(&s("owner.near"), 1).unwrap();
    assert_eq!(m.set_listing_storage_deposit(&s("x.near"), 1), Err(MarketError::NotOwner));
}
