use mb_market::auction::{get_pred_base_account, AuctionError, AuctionResolution, Marketplace};
use mb_market::auction_data::{parse_decimal_u64, split_colon, SaleArgs, TimeUnit, TokenKey, TokenOffer};
use mb_market::costs::{StorageCosts, StorageCostsMarket};
use mb_market::market::{PayoutResult, SettlementKind, Transfer};

fn s(x: &str) -> String {
    x.to_string()
}

const HOUR: u64 = 3_600_000_000_000;
const LIST: u128 = 360 * 10_000_000_000_000_000_000;

/// A market owned by "owner.near" that lets "store.near" list, with token
/// 1 listed by "seller.near" at 100.
fn market(autotransfer: bool) -> Marketplace {
    let mut m = Marketplace::new(s("owner.near"), 0, vec![s("store.near")]);
    let args = SaleArgs { price: 100, autotransfer };
    m.nft_on_approve(&s("store.near"), 1, s("seller.near"), 3, args).unwrap();
    m
}

#[test]
fn token_keys_parse() {
    let k = TokenKey::parse("12:store.near").unwrap();
    assert_eq!(k.token_id, 12);
    assert_eq!(k.account_id, "store.near");
    assert_eq!(TokenKey::parse("+7:a").unwrap().token_id, 7);
    assert!(TokenKey::parse("x:a").is_none());
    assert!(TokenKey::parse("12").is_none());
    assert!(TokenKey::parse(":a").is_none());
    assert!(TokenKey::parse("18446744073709551616:a").is_none());
    assert_eq!(TokenKey::parse("18446744073709551615:a:b").unwrap().account_id, "a:b");
    assert_eq!(split_colon("a:b:c"), Some(("a", "b:c")));
    assert_eq!(split_colon("abc"), None);
    assert_eq!(parse_decimal_u64("0042"), Some(42));
    assert_eq!(parse_decimal_u64("+"), None);
}

#[test]
fn base_accounts() {
    assert_eq!(get_pred_base_account(&s("12345678901234567890")), "12345678901234567890");
    assert_eq!(get_pred_base_account(&s("abc.near")), "abc.near");
    assert_eq!(get_pred_base_account(&s("sub.abc.near")), "abc.near");
    assert_eq!(get_pred_base_account(&s("dub.sub.abc.near")), "sub.abc.near");
}

#[test]
fn listing_requires_allowlist() {
    let mut m = Marketplace::new(s("owner.near"), 0, vec![s("abc.near")]);
    let args = || SaleArgs { price: 1, autotransfer: false };
    assert!(m.nft_on_approve(&s("store.abc.near"), 1, s("o"), 0, args()).is_ok());
    assert_eq!(m.nft_on_approve(&s("other.near"), 1, s("o"), 0, args()).unwrap_err(), AuctionError::NotAllowed);
    m.update_banlist(&s("owner.near"), 1, s("store.abc.near"), true).unwrap();
    assert_eq!(m.nft_on_approve(&s("store.abc.near"), 2, s("o"), 0, args()).unwrap_err(), AuctionError::NotAllowed);
    assert_eq!(m.get_banlist(), vec![s("store.abc.near")]);
    assert_eq!(m.deposit_required, LIST);
}

#[test]
fn buy_now_offer_locks_and_sells() {
    let mut m = market(true);
    assert_eq!(
        m.make_offer(&s("buyer.near"), 100, 0, vec![s("1:store.near")], vec![99], vec![TimeUnit::Hours(24)]).unwrap_err(),
        AuctionError::BelowAsk
    );
    let (refunds, requests) = m
        .make_offer(&s("buyer.near"), 100, 0, vec![s("1:store.near")], vec![100], vec![TimeUnit::Hours(24)])
        .unwrap();
    assert!(refunds.is_empty());
    assert_eq!(requests.len(), 1);
    assert_eq!(requests[0].others_keep, 98);
    assert_eq!(requests[0].market_keeps, 2);
    assert_eq!(requests[0].receiver_id, "buyer.near");
    assert_eq!(requests[0].approval_id, 3);
    assert_eq!(m.deposit_required, LIST + 100);
    assert!(m.get_token(s("1:store.near")).unwrap().locked);
    let payout = vec![Transfer { receiver_id: s("seller.near"), amount: 98 }];
    match m.resolve_nft_payout(s("1:store.near"), 98, 2, PayoutResult::Parsed(payout)).unwrap() {
        AuctionResolution::Settled { kind, payments } => {
            assert_eq!(kind, SettlementKind::Sold);
            assert_eq!(payments.len(), 1);
            assert_eq!(payments[0].amount, 98);
        }
        AuctionResolution::Retry => panic!("expected a sale"),
    }
    assert_eq!(m.get_token(s("1:store.near")).unwrap_err(), AuctionError::ListingNotFound);
    assert_eq!(m.deposit_required, LIST + 2);
}

#[test]
fn malformed_payout_bans_store_and_refunds() {
    let mut m = market(true);
    m.make_offer(&s("buyer.near"), 100, 0, vec![s("1:store.near")], vec![100], vec![TimeUnit::Hours(24)]).unwrap();
    match m.resolve_nft_payout(s("1:store.near"), 98, 2, PayoutResult::Malformed).unwrap() {
        AuctionResolution::Settled { kind, payments } => {
            assert_eq!(kind, SettlementKind::Banned);
            assert_eq!(payments.len(), 1);
            assert_eq!(payments[0].receiver_id, "buyer.near");
            assert_eq!(payments[0].amount, 100);
        }
        AuctionResolution::Retry => panic!("expected a settlement"),
    }
    assert_eq!(m.get_banlist(), vec![s("store.near")]);
    assert_eq!(m.deposit_required, 0);
}

#[test]
fn auction_offers_outbid_and_withdraw() {
    let mut m = market(false);
    let key = || vec![s("1:store.near")];
    let day = || vec![TimeUnit::Hours(24)];
    assert_eq!(m.make_offer(&s("a.near"), 50, 0, key(), vec![50], vec![TimeUnit::Hours(23)]).unwrap_err(), AuctionError::OfferTooShort);
    assert_eq!(m.make_offer(&s("a.near"), 49, 0, key(), vec![50], day()).unwrap_err(), AuctionError::DepositMismatch);
    assert_eq!(m.make_offer(&s("owner.near"), 50, 0, key(), vec![50], day()).unwrap_err(), AuctionError::OwnerCannotOffer);
    assert_eq!(m.make_offer(&s("a.near"), 50, 0, key(), vec![50, 1], day()).unwrap_err(), AuctionError::LengthMismatch);
    let (refunds, requests) = m.make_offer(&s("a.near"), 50, 0, key(), vec![50], day()).unwrap();
    assert!(refunds.is_empty() && requests.is_empty());
    assert_eq!(m.make_offer(&s("b.near"), 50, 1, key(), vec![50], day()).unwrap_err(), AuctionError::NotAboveCurrentOffer);
    let (refunds, _) = m.make_offer(&s("b.near"), 60, 1, key(), vec![60], day()).unwrap();
    assert_eq!(refunds.len(), 1);
    assert_eq!(refunds[0].receiver_id, "a.near");
    assert_eq!(refunds[0].amount, 50);
    assert_eq!(m.deposit_required, LIST + 60);
    let offer = m.get_current_offer(s("1:store.near")).unwrap().unwrap();
    assert_eq!(offer.id, 2);
    assert_eq!(offer.timeout, 1 + 24 * HOUR);
    assert_eq!(m.withdraw_offer(&s("a.near"), 25 * HOUR, s("1:store.near")).unwrap_err(), AuctionError::NotOfferer);
    assert_eq!(m.withdraw_offer(&s("b.near"), 24 * HOUR, s("1:store.near")).unwrap_err(), AuctionError::OfferTooRecent);
    let t = m.withdraw_offer(&s("b.near"), 24 * HOUR + 2, s("1:store.near")).unwrap();
    assert_eq!(t.amount, 60);
    assert_eq!(m.deposit_required, LIST);
    assert!(m.get_current_offer(s("1:store.near")).unwrap().is_none());
}

#[test]
fn expired_offer_is_replaced_by_a_lower_one() {
    let mut m = market(false);
    m.make_offer(&s("a.near"), 50, 0, vec![s("1:store.near")], vec![50], vec![TimeUnit::Hours(24)]).unwrap();
    let (refunds, _) = m
        .make_offer(&s("b.near"), 10, 24 * HOUR + 1, vec![s("1:store.near")], vec![10], vec![TimeUnit::Hours(24)])
        .unwrap();
    assert_eq!(refunds[0].amount, 50);
}

#[test]
fn owner_accepts_and_failed_transfer_delists() {
    let mut m = market(false);
    assert_eq!(m.accept_and_transfer(&s("seller.near"), 1, s("1:store.near")).unwrap_err(), AuctionError::NoOffer);
    m.make_offer(&s("a.near"), 40, 0, vec![s("1:store.near")], vec![40], vec![TimeUnit::Hours(24)]).unwrap();
    assert_eq!(m.accept_and_transfer(&s("x.near"), 1, s("1:store.near")).unwrap_err(), AuctionError::NotTokenOwner);
    assert_eq!(m.accept_and_transfer(&s("seller.near"), 0, s("1:store.near")).unwrap_err(), AuctionError::OneYoctoRequired);
    let req = m.accept_and_transfer(&s("seller.near"), 1, s("1:store.near")).unwrap();
    assert_eq!(req.others_keep, 39);
    assert_eq!(req.market_keeps, 1);
    assert_eq!(m.set_token_asking_price(&s("seller.near"), 1, s("1:store.near"), 5).unwrap_err(), AuctionError::ListingLocked);
    assert!(matches!(
        m.resolve_nft_payout(s("1:store.near"), 39, 1, PayoutResult::NotReady),
        Ok(AuctionResolution::Retry)
    ));
    match m.resolve_nft_payout(s("1:store.near"), 39, 1, PayoutResult::Failed).unwrap() {
        AuctionResolution::Settled { kind, payments } => {
            assert_eq!(kind, SettlementKind::Failed);
            assert_eq!(payments[0].receiver_id, "a.near");
            assert_eq!(payments[0].amount, 40);
        }
        AuctionResolution::Retry => panic!("expected a settlement"),
    }
    assert!(m.get_banlist().is_empty());
    assert_eq!(m.deposit_required, 0);
}

#[test]
fn owner_edits_and_delists() {
    let mut m = market(false);
    m.set_token_asking_price(&s("seller.near"), 1, s("1:store.near"), 500).unwrap();
    m.set_token_autotransfer(&s("seller.near"), s("1:store.near"), true).unwrap();
    assert_eq!(m.get_token_asking_price(s("1:store.near")).unwrap(), 500);
    assert!(m.get_token_autotransfer(s("1:store.near")).unwrap());
    assert_eq!(m.get_token_owner_id(s("1:store.near")).unwrap(), "seller.near");
    assert_eq!(m.set_token_autotransfer(&s("x.near"), s("1:store.near"), false).unwrap_err(), AuctionError::NotTokenOwner);
    assert_eq!(m.delist(&s("x.near"), 1, s("store.near"), vec![s("1")]).unwrap_err(), AuctionError::NotTokenOwner);
    assert_eq!(m.delist(&s("seller.near"), 1, s("store.near"), vec![s("one")]).unwrap_err(), AuctionError::MalformedKey);
    let t = m.delist(&s("seller.near"), 1, s("store.near"), vec![s("1")]).unwrap();
    assert!(t.is_empty());
    assert_eq!(m.get_token(s("1:store.near")).unwrap_err(), AuctionError::ListingNotFound);
    assert_eq!(m.deposit_required, 0);
}

#[test]
fn batch_listing_and_kicking() {
    let mut m = Marketplace::new(s("owner.near"), 0, vec![s("store.near")]);
    let args = || SaleArgs { price: 7, autotransfer: false };
    assert_eq!(
        m.nft_on_batch_approve(&s("store.near"), LIST, vec![1, 2], vec![0, 0], s("o.near"), args()).unwrap_err(),
        AuctionError::DepositTooLow
    );
    m.nft_on_batch_approve(&s("store.near"), 2 * LIST, vec![1, 2], vec![5, 6], s("o.near"), args()).unwrap();
    assert_eq!(m.get_token(s("2:store.near")).unwrap().approval_id, 6);
    assert_eq!(m.deposit_required, 2 * LIST);
    assert_eq!(m.kick_tokens(&s("o.near"), 1, vec![s("1:store.near")]).unwrap_err(), AuctionError::NotOwner);
    assert_eq!(
        m.kick_tokens(&s("owner.near"), 1, vec![s("1:store.near"), s("3:store.near")]).unwrap_err(),
        AuctionError::ListingNotFound
    );
    assert!(m.get_token(s("1:store.near")).is_ok());
    m.kick_tokens(&s("owner.near"), 1, vec![s("1:store.near"), s("2:store.near")]).unwrap();
    assert_eq!(m.deposit_required, 0);
}

#[test]
fn marketplace_configuration() {
    let mut m = Marketplace::new(s("owner.near"), 1_000, vec![]);
    assert_eq!(m.set_take(&s("owner.near"), 1, 1_000).unwrap_err(), AuctionError::TakeTooHigh);
    m.set_take(&s("owner.near"), 1, 999).unwrap();
    assert_eq!(m.get_take().numerator, 999);
    assert_eq!(m.set_min_offer_hours(&s("owner.near"), 0, 1).unwrap_err(), AuctionError::OneYoctoRequired);
    m.set_min_offer_hours(&s("owner.near"), 1, 1).unwrap();
    assert_eq!(m.get_min_offer_hours(), 1);
    let t = m.withdraw_revenue(&s("owner.near"), 1, 1_500).unwrap();
    assert_eq!(t.amount, 500);
    assert_eq!(m.withdraw_revenue(&s("owner.near"), 1, 999).unwrap_err(), AuctionError::Overflow);
    assert_eq!(
        m.update_allowlist(&s("owner.near"), 1, s("a.near"), true, 10u128.pow(21), 0, 1).unwrap_err(),
        AuctionError::StorageNotCovered
    );
    m.update_allowlist(&s("owner.near"), 1, s("a.near"), true, 10u128.pow(21) + 1, 0, 1).unwrap();
    assert_eq!(m.get_allowlist(), vec![s("a.near")]);
    m.update_allowlist(&s("owner.near"), 1, s("a.near"), false, 0, 0, 0).unwrap();
    assert!(m.get_allowlist().is_empty());
    m.set_storage_price_per_byte(&s("owner.near"), 1, 3).unwrap();
    assert_eq!(m.storage_costs.storage_price_per_byte, 3);
    m.set_owner(&s("owner.near"), 1, s("n.near")).unwrap();
    assert_eq!(m.get_owner(), "n.near");
}

#[test]
fn storage_cost_tables() {
    let c = StorageCosts::new(5);
    assert_eq!(c.storage_price_per_byte, 5);
    assert_eq!(c.common, 80 * 10_000_000_000_000_000_000);
    assert_eq!(c.token, LIST);
    assert_eq!(StorageCostsMarket::new(9).list, LIST);
}

#[test]
fn offers_expire_and_overflow() {
    let o = TokenOffer::new(1, s("a"), 10, TimeUnit::Hours(1), 1).unwrap();
    assert_eq!(o.timeout, 10 + HOUR);
    assert!(o.is_active(10 + HOUR));
    assert!(!o.is_active(11 + HOUR));
    assert!(TokenOffer::new(1, s("a"), u64::MAX, TimeUnit::Hours(1), 1).is_none());
}
