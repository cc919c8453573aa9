use vstd::prelude::*;
use vstd::string::StrSliceExecFns;

use crate::auction_data::{
    first_colon, parse_decimal_u64, parse_u64, ListingTable, SaleArgs, TimeUnit, TokenKey,
    TokenListing, TokenOffer, NANOS_PER_HOUR,
};
use crate::costs::{stake_of, StorageCostsMarket, TOKEN_BYTES, YOCTO_PER_BYTE};
use crate::data::AccountId;
use crate::fraction::{bp_share, lemma_bp_share_bounds, SafeFraction};
use crate::keyed::StrSet;
use crate::market::{payout_total, transfers_total, PayoutResult, SettlementKind, Transfer};

verus! {

/// Most payout recipients that the auction market processes.
pub const MAX_LEN_PAYOUT: u32 = 50;

/// Balance that must stay free before an account is allowed to list.
pub const ALLOWLIST_CUSHION: u128 = 1_000_000_000_000_000_000_000;

/// Why the auction market turns a call down. A call that is turned down
/// changes nothing.
#[derive(Clone, Copy, Debug, PartialEq, Eq, Structural)]
pub enum AuctionError {
    NotOwner,
    OneYoctoRequired,
    /// The market's take must stay below 10 %.
    TakeTooHigh,
    /// The calling contract may not list here.
    NotAllowed,
    MalformedKey,
    ListingNotFound,
    /// A transfer of the token is being processed.
    ListingLocked,
    /// Only the token's owner may do this.
    NotTokenOwner,
    /// The attached deposit does not cover the listings' storage.
    DepositTooLow,
    /// The market's free balance does not cover more storage.
    StorageNotCovered,
    NoOffer,
    /// Only the account that made the offer may withdraw it.
    NotOfferer,
    /// The offer is younger than the minimum offer time.
    OfferTooRecent,
    /// The offer's validity is shorter than the minimum offer time.
    OfferTooShort,
    /// The market owner may not make offers.
    OwnerCannotOffer,
    /// A buy-now listing takes no offer below its price.
    BelowAsk,
    /// A valid offer is only replaced by a higher one.
    NotAboveCurrentOffer,
    /// The lists of a batch differ in length.
    LengthMismatch,
    /// The attached deposit differs from the sum of the offers.
    DepositMismatch,
    /// The listing is not waiting for a transfer.
    NotLocked,
    /// A balance or counter would leave its integer range.
    Overflow,
}

/// The call that accepting an offer makes on the NFT contract: transfer the
/// token and compute a payout of `others_keep`.
#[derive(Debug)]
pub struct AuctionPayoutRequest {
    pub store_id: AccountId,
    pub receiver_id: AccountId,
    pub token_id: u64,
    pub approval_id: u64,
    pub others_keep: u128,
    pub market_keeps: u128,
}

/// The outcome of resolving a transfer.
#[derive(Debug)]
pub enum AuctionResolution {
    Retry,
    Settled { kind: SettlementKind, payments: Vec<Transfer> },
}

/// The account that an account's listing rights derive from: an account
/// with at least two dots stands for the account without its first label.
pub open spec fn base_account(a: Seq<char>) -> Seq<char> {
    match first_dot(a) {
        None => a,
        Some(p) => {
            let rest = a.subrange(p + 1, a.len() as int);
            match first_dot(rest) {
                None => a,
                Some(_) => rest,
            }
        },
    }
}

pub open spec fn first_dot(s: Seq<char>) -> Option<int> {
    if exists|i: int| 0 <= i < s.len() && s[i] == '.' {
        Some(choose|i: int| 0 <= i < s.len() && s[i] == '.' && forall|j: int| 0 <= j < i ==> s[j] != '.')
    } else {
        None
    }
}

fn find_dot(s: &str) -> (r: Option<usize>)
    ensures
        match first_dot(s@) {
            None => r is None,
            Some(p) => r matches Some(i) && i as int == p,
        },
        r matches Some(i) ==> i < s@.len(),
{
    let n = s.unicode_len();
    let mut i: usize = 0;
    while i < n
        invariant
            i <= n,
            n == s@.len(),
            forall|j: int| 0 <= j < i ==> s@[j] != '.',
        decreases n - i,
    {
        if s.get_char(i) == '.' {
            proof {
                let q = first_dot(s@)->0;
                assert(s@[q] == '.');
                assert(q == i) by {
                    if (q as int) > (i as int) {
                        assert(s@[i as int] == '.');
                    }
                }
            }
            return Some(i);
        }
        i += 1;
    }
    None
}

/// The account that `account`'s listing rights derive from.
pub fn get_pred_base_account(account: &AccountId) -> (r: AccountId)
    ensures
        r@ == base_account(account@),
{
    let s = account.as_str();
    let n = s.unicode_len();
    match find_dot(s) {
        None => account.clone(),
        Some(p) => {
            let rest = s.substring_char(p + 1, n);
            match find_dot(rest) {
                None => account.clone(),
                Some(_) => rest.to_string(),
            }
        },
    }
}

/// The state of the auction market as the contracts speak of it.
pub struct MarketplaceView {
    pub listings: Map<(u64, Seq<char>), TokenListing>,
    pub owner_id: Seq<char>,
    pub take: u32,
    pub min_offer_hours: u64,
    pub deposit_required: u128,
    pub allowlist: Set<Seq<char>>,
    pub banlist: Set<Seq<char>>,
    pub list_cost: u128,
    pub storage_price_per_byte: u128,
}

/// The refund of the offer that `l` holds, if any.
pub open spec fn offer_refund(l: TokenListing) -> Seq<Transfer> {
    match l.current_offer {
        Some(o) => seq![Transfer { receiver_id: o.from, amount: o.price }],
        None => Seq::empty(),
    }
}

pub open spec fn offer_price(l: TokenListing) -> int {
    match l.current_offer {
        Some(o) => o.price as int,
        None => 0,
    }
}

impl MarketplaceView {
    /// Whether `caller` may list tokens: it is not banned and its base
    /// account is allowed.
    pub open spec fn allowed(self, caller: Seq<char>) -> bool {
        !self.banlist.contains(caller) && self.allowlist.contains(base_account(caller))
    }

    /// The market after removing the listing at `key` and refunding its
    /// offer; `None` where the escrow bookkeeping would go negative.
    pub open spec fn delisted(self, key: (u64, Seq<char>)) -> Option<(MarketplaceView, Seq<Transfer>)> {
        let l = self.listings[key];
        let dr = self.deposit_required - self.list_cost - offer_price(l);
        if dr < 0 {
            None
        } else {
            Some((MarketplaceView { listings: self.listings.remove(key), deposit_required: dr as u128, ..self }, offer_refund(l)))
        }
    }

    /// The market after `store` listed `token_id`; a previous listing of
    /// the token is delisted first and must not be locked.
    pub open spec fn inserted(self, store: Seq<char>, l: TokenListing) -> Result<(MarketplaceView, Seq<Transfer>), AuctionError> {
        let key = (l.id, store);
        if self.listings.contains_key(key) {
            if self.listings[key].locked {
                Err(AuctionError::ListingLocked)
            } else {
                match self.delisted(key) {
                    None => Err(AuctionError::Overflow),
                    Some((w, t)) => Ok((MarketplaceView { listings: w.listings.insert(key, l), ..w }, t)),
                }
            }
        } else {
            Ok((MarketplaceView { listings: self.listings.insert(key, l), ..self }, Seq::empty()))
        }
    }

    /// The market's take of `price` and what is left for the payout.
    pub open spec fn keeps(self, price: int) -> (int, int) {
        let market = bp_share(price, self.take as int);
        (market, price - market)
    }

    /// One offer of a batch: `caller` offers `price` for the listing at
    /// `key` at `now`, valid for `hours`. A buy-now listing reached by its
    /// price is locked for transfer at once.
    pub open spec fn offer_step(self, caller: AccountId, now: u64, key: (u64, Seq<char>), price: u128, hours: u64)
        -> Result<(MarketplaceView, Seq<Transfer>, Option<AuctionPayoutRequest>), AuctionError> {
        if hours < self.min_offer_hours {
            Err(AuctionError::OfferTooShort)
        } else if !self.listings.contains_key(key) {
            Err(AuctionError::ListingNotFound)
        } else {
            let l = self.listings[key];
            let end = now + hours * NANOS_PER_HOUR;
            if l.locked {
                Err(AuctionError::ListingLocked)
            } else if l.num_offers == u64::MAX || end > u64::MAX {
                Err(AuctionError::Overflow)
            } else if self.owner_id == caller@ {
                Err(AuctionError::OwnerCannotOffer)
            } else if l.autotransfer && price < l.asking_price {
                Err(AuctionError::BelowAsk)
            } else {
                let offer = TokenOffer {
                    price,
                    from: caller,
                    timestamp: now,
                    timeout: end as u64,
                    id: (l.num_offers + 1) as u64,
                };
                let replaced = match l.current_offer {
                    Some(old) => old.active_at(now) && price <= old.price,
                    None => false,
                };
                let refund = offer_refund(l);
                let dr = self.deposit_required - offer_price(l);
                if replaced {
                    Err(AuctionError::NotAboveCurrentOffer)
                } else if dr < 0 {
                    Err(AuctionError::Overflow)
                } else {
                    let buy_now = l.autotransfer && price >= l.asking_price;
                    let nl = TokenListing {
                        num_offers: (l.num_offers + 1) as u64,
                        current_offer: Some(offer),
                        locked: buy_now,
                        ..l
                    };
                    let w = MarketplaceView { listings: self.listings.insert(key, nl), deposit_required: dr as u128, ..self };
                    let (mk, ok) = self.keeps(price as int);
                    let req = if buy_now {
                        Some(AuctionPayoutRequest {
                            store_id: l.store_id,
                            receiver_id: caller,
                            token_id: l.id,
                            approval_id: l.approval_id,
                            others_keep: ok as u128,
                            market_keeps: mk as u128,
                        })
                    } else {
                        None
                    };
                    Ok((w, refund, req))
                }
            }
        }
    }
}

/// An auction market: listings that collect offers held in escrow, with
/// buy-now listings sold to the first offer at their price.
pub struct Marketplace {
    pub listings: ListingTable,
    /// Account that may configure the market.
    pub owner_id: AccountId,
    /// The market's take of each sale.
    pub take: SafeFraction,
    /// Minimum number of hours an offer must stay valid.
    pub min_offer_hours: u64,
    /// Balance held for others: listing deposits and escrowed offers.
    pub deposit_required: u128,
    /// Base accounts that may list tokens.
    pub allowlist: StrSet,
    /// Accounts banned from the market.
    pub banlist: StrSet,
    pub storage_costs: StorageCostsMarket,
}

impl View for Marketplace {
    type V = MarketplaceView;

    open spec fn view(&self) -> MarketplaceView {
        MarketplaceView {
            listings: self.listings@,
            owner_id: self.owner_id@,
            take: self.take.numerator,
            min_offer_hours: self.min_offer_hours,
            deposit_required: self.deposit_required,
            allowlist: self.allowlist@,
            banlist: self.banlist@,
            list_cost: self.storage_costs.list,
            storage_price_per_byte: self.storage_costs.storage_price_per_byte,
        }
    }
}

impl Marketplace {
    pub open spec fn wf(&self) -> bool {
        &&& self.listings.wf()
        &&& self.allowlist.wf()
        &&& self.banlist.wf()
        &&& self.take.wf()
    }

    /// A market owned by `caller`, holding `account_balance` for others,
    /// that lets the accounts of `init_allowlist` list tokens.
    pub fn new(caller: AccountId, account_balance: u128, init_allowlist: Vec<AccountId>) -> (r: Marketplace)
        ensures
            r.wf(),
            r@.listings == Map::<(u64, Seq<char>), TokenListing>::empty(),
            r@.owner_id == caller@,
            r@.take == 250,
            r@.min_offer_hours == 24,
            r@.deposit_required == account_balance,
            r@.allowlist == init_allowlist@.map_values(|s: String| s@).to_set(),
            r@.banlist == Set::<Seq<char>>::empty(),
            r@.list_cost == stake_of(TOKEN_BYTES as int),
            r@.storage_price_per_byte == YOCTO_PER_BYTE,
    {
        Marketplace {
            listings: ListingTable::new(),
            owner_id: caller,
            take: SafeFraction { numerator: 250 },
            min_offer_hours: 24,
            deposit_required: account_balance,
            allowlist: StrSet::from_vec(init_allowlist),
            banlist: StrSet::new(),
            storage_costs: StorageCostsMarket::new(YOCTO_PER_BYTE),
        }
    }

    /// Checks that `caller` is the owner and attached one yoctoNEAR.
    fn check_owner(&self, caller: &AccountId, attached: u128) -> (r: Result<(), AuctionError>)
        ensures
            r is Err <==> attached != 1 || caller@ != self.owner_id@,
            r matches Err(e) ==> e == (if attached != 1 {
                AuctionError::OneYoctoRequired
            } else {
                AuctionError::NotOwner
            }),
    {
        if attached != 1 {
            return Err(AuctionError::OneYoctoRequired);
        }
        if *caller != self.owner_id {
            return Err(AuctionError::NotOwner);
        }
        Ok(())
    }

    pub fn set_storage_price_per_byte(&mut self, caller: &AccountId, attached: u128, new_price: u128) -> (r: Result<(), AuctionError>)
        requires
            old(self).wf(),
        ensures
            final(self).wf(),
            r is Err <==> attached != 1 || caller@ != old(self).owner_id@,
            r is Err ==> *final(self) == *old(self),
            r is Ok ==> final(self)@ == (MarketplaceView {
                storage_price_per_byte: new_price,
                list_cost: stake_of(TOKEN_BYTES as int) as u128,
                ..old(self)@
            }),
    {
        self.check_owner(caller, attached)?;
        self.storage_costs = StorageCostsMarket::new(new_price);
        Ok(())
    }

    pub fn set_owner(&mut self, caller: &AccountId, attached: u128, new_owner: AccountId) -> (r: Result<(), AuctionError>)
        requires
            old(self).wf(),
        ensures
            final(self).wf(),
            r is Err <==> attached != 1 || caller@ != old(self).owner_id@,
            r is Err ==> *final(self) == *old(self),
            r is Ok ==> final(self)@ == (MarketplaceView { owner_id: new_owner@, ..old(self)@ }),
    {
        self.check_owner(caller, attached)?;
        self.owner_id = new_owner;
        Ok(())
    }

    /// Sets the market's take, which must stay below 10 %.
    pub fn set_take(&mut self, caller: &AccountId, attached: u128, percentage: u32) -> (r: Result<(), AuctionError>)
        requires
            old(self).wf(),
        ensures
            final(self).wf(),
            r is Err <==> attached != 1 || caller@ != old(self).owner_id@ || percentage >= 1000,
            r matches Err(e) ==> *final(self) == *old(self) && (attached == 1 && caller@ == old(self).owner_id@
                ==> e == AuctionError::TakeTooHigh),
            r is Ok ==> final(self)@ == (MarketplaceView { take: percentage, ..old(self)@ }),
    {
        self.check_owner(caller, attached)?;
        if percentage >= 1000 {
            return Err(AuctionError::TakeTooHigh);
        }
        self.take = SafeFraction { numerator: percentage };
        Ok(())
    }

    pub fn set_min_offer_hours(&mut self, caller: &AccountId, attached: u128, min_offer_hours: u64) -> (r: Result<(), AuctionError>)
        requires
            old(self).wf(),
        ensures
            final(self).wf(),
            r is Err <==> attached != 1 || caller@ != old(self).owner_id@,
            r is Err ==> *final(self) == *old(self),
            r is Ok ==> final(self)@ == (MarketplaceView { min_offer_hours, ..old(self)@ }),
    {
        self.check_owner(caller, attached)?;
        self.min_offer_hours = min_offer_hours;
        Ok(())
    }

    /// Pays the owner what the market's `account_balance` holds beyond the
    /// balance held for others.
    pub fn withdraw_revenue(&self, caller: &AccountId, attached: u128, account_balance: u128) -> (r: Result<Transfer, AuctionError>)
        ensures
            r is Err <==> attached != 1 || caller@ != self.owner_id@ || account_balance < self.deposit_required,
            r matches Ok(t) ==> t == (Transfer {
                receiver_id: self.owner_id,
                amount: (account_balance - self.deposit_required) as u128,
            }),
    {
        self.check_owner(caller, attached)?;
        if account_balance < self.deposit_required {
            return Err(AuctionError::Overflow);
        }
        Ok(Transfer { receiver_id: self.owner_id.clone(), amount: account_balance - self.deposit_required })
    }

    /// Whether `caller` may list tokens here.
    pub fn is_pred_mintbase_or_allowlist_and_not_banlist(&self, caller: &AccountId) -> (r: bool)
        ensures
            r == self@.allowed(caller@),
    {
        if self.banlist.contains(caller) {
            return false;
        }
        let base = get_pred_base_account(caller);
        self.allowlist.contains(&base)
    }

    /// Allows (`state`) or disallows `account_id` to list. Allowing needs
    /// more than a milliNEAR of the market's balance free of storage.
    pub fn update_allowlist(
        &mut self,
        caller: &AccountId,
        attached: u128,
        account_id: AccountId,
        state: bool,
        account_balance: u128,
        storage_usage: u64,
        storage_byte_cost: u128,
    ) -> (r: Result<(), AuctionError>)
        requires
            old(self).wf(),
        ensures
            final(self).wf(),
            r is Err <==> attached != 1 || caller@ != old(self).owner_id@ || (state && account_balance
                - storage_usage * storage_byte_cost <= ALLOWLIST_CUSHION),
            r is Err ==> *final(self) == *old(self),
            r is Ok ==> final(self)@ == (MarketplaceView {
                allowlist: if state {
                    old(self)@.allowlist.insert(account_id@)
                } else {
                    old(self)@.allowlist.remove(account_id@)
                },
                ..old(self)@
            }),
    {
        self.check_owner(caller, attached)?;
        if state {
            let covered = match (storage_usage as u128).checked_mul(storage_byte_cost) {
                Some(used) => account_balance >= used && account_balance - used > ALLOWLIST_CUSHION,
                None => false,
            };
            if !covered {
                return Err(AuctionError::StorageNotCovered);
            }
            self.allowlist.insert(account_id);
        } else {
            self.allowlist.remove(&account_id);
        }
        Ok(())
    }

    /// Bans (`state`) or unbans `account_id`.
    pub fn update_banlist(&mut self, caller: &AccountId, attached: u128, account_id: AccountId, state: bool) -> (r: Result<(), AuctionError>)
        requires
            old(self).wf(),
        ensures
            final(self).wf(),
            r is Err <==> attached != 1 || caller@ != old(self).owner_id@,
            r is Err ==> *final(self) == *old(self),
            r is Ok ==> final(self)@ == (MarketplaceView {
                banlist: if state {
                    old(self)@.banlist.insert(account_id@)
                } else {
                    old(self)@.banlist.remove(account_id@)
                },
                ..old(self)@
            }),
    {
        self.check_owner(caller, attached)?;
        if state {
            self.banlist.insert(account_id);
        } else {
            self.banlist.remove(&account_id);
        }
        Ok(())
    }

    pub fn get_owner(&self) -> (r: &AccountId)
        ensures
            *r == self.owner_id,
    {
        &self.owner_id
    }

    pub fn get_take(&self) -> (r: SafeFraction)
        ensures
            r == self.take,
    {
        self.take
    }

    pub fn get_min_offer_hours(&self) -> (r: u64)
        ensures
            r == self.min_offer_hours,
    {
        self.min_offer_hours
    }

    pub fn get_banlist(&self) -> (r: Vec<AccountId>)
        ensures
            r@ == self.banlist.items@,
    {
        self.banlist.to_vec()
    }

    pub fn get_allowlist(&self) -> (r: Vec<AccountId>)
        ensures
            r@ == self.allowlist.items@,
    {
        self.allowlist.to_vec()
    }

    /// The listing that `token_key` (`"<token id>:<contract>"`) names.
    pub fn get_token(&self, token_key: String) -> (r: Result<TokenListing, AuctionError>)
        requires
            self.wf(),
        ensures
            match key_of(token_key@) {
                None => r == Err::<TokenListing, AuctionError>(AuctionError::MalformedKey),
                Some(k) => if self@.listings.contains_key(k) {
                    r == Ok::<TokenListing, AuctionError>(self@.listings[k])
                } else {
                    r == Err::<TokenListing, AuctionError>(AuctionError::ListingNotFound)
                },
            },
    {
        let key = match TokenKey::parse(token_key.as_str()) {
            Some(k) => k,
            None => {
                return Err(AuctionError::MalformedKey);
            },
        };
        match self.listings.get(key.token_id, &key.account_id) {
            Some(l) => Ok(l.copy()),
            None => Err(AuctionError::ListingNotFound),
        }
    }

    pub fn get_token_owner_id(&self, token_key: String) -> (r: Result<AccountId, AuctionError>)
        requires
            self.wf(),
        ensures
            match key_of(token_key@) {
                None => r is Err,
                Some(k) => if self@.listings.contains_key(k) {
                    r == Ok::<AccountId, AuctionError>(self@.listings[k].owner_id)
                } else {
                    r is Err
                },
            },
    {
        Ok(self.get_token(token_key)?.owner_id)
    }

    pub fn get_token_autotransfer(&self, token_key: String) -> (r: Result<bool, AuctionError>)
        requires
            self.wf(),
        ensures
            match key_of(token_key@) {
                None => r is Err,
                Some(k) => if self@.listings.contains_key(k) {
                    r == Ok::<bool, AuctionError>(self@.listings[k].autotransfer)
                } else {
                    r is Err
                },
            },
    {
        Ok(self.get_token(token_key)?.autotransfer)
    }

    pub fn get_token_asking_price(&self, token_key: String) -> (r: Result<u128, AuctionError>)
        requires
            self.wf(),
        ensures
            match key_of(token_key@) {
                None => r is Err,
                Some(k) => if self@.listings.contains_key(k) {
                    r == Ok::<u128, AuctionError>(self@.listings[k].asking_price)
                } else {
                    r is Err
                },
            },
    {
        Ok(self.get_token(token_key)?.asking_price)
    }

    pub fn get_current_offer(&self, token_key: String) -> (r: Result<Option<TokenOffer>, AuctionError>)
        requires
            self.wf(),
        ensures
            match key_of(token_key@) {
                None => r is Err,
                Some(k) => if self@.listings.contains_key(k) {
                    r == Ok::<Option<TokenOffer>, AuctionError>(self@.listings[k].current_offer)
                } else {
                    r is Err
                },
            },
    {
        Ok(self.get_token(token_key)?.current_offer)
    }
}

/// The listing key that `"<token id>:<contract>"` names.
pub open spec fn key_of(s: Seq<char>) -> Option<(u64, Seq<char>)> {
    match first_colon(s) {
        None => None,
        Some(p) => match parse_u64(s.subrange(0, p)) {
            None => None,
            Some(id) => Some((id, s.subrange(p + 1, s.len() as int))),
        },
    }
}

/// A fresh listing of token `id` on `store` for `owner`.
pub open spec fn new_listing(owner: AccountId, store: AccountId, id: u64, approval_id: u64, args: SaleArgs) -> TokenListing {
    TokenListing {
        id,
        owner_id: owner,
        store_id: store,
        autotransfer: args.autotransfer,
        asking_price: args.price,
        approval_id,
        current_offer: None,
        num_offers: 0,
        locked: false,
    }
}

/// `r` with the transfers `t` in front of its own.
pub open spec fn prefixed<V>(t: Seq<Transfer>, r: Result<(V, Seq<Transfer>), AuctionError>) -> Result<(V, Seq<Transfer>), AuctionError> {
    match r {
        Ok((w, t2)) => Ok((w, t + t2)),
        Err(e) => Err(e),
    }
}

pub open spec fn owner_view(o: Option<AccountId>) -> Option<Seq<char>> {
    match o {
        Some(a) => Some(a@),
        None => None,
    }
}

/// The listing keys that parsed token keys stand for.
pub open spec fn key_views(keys: Seq<Option<TokenKey>>) -> Seq<Option<(u64, Seq<char>)>> {
    keys.map_values(|k: Option<TokenKey>| match k {
        Some(t) => Some((t.token_id, t.account_id@)),
        None => None,
    })
}

impl MarketplaceView {
    /// Removing the listings at `keys`, in order, from the `i`-th on. With
    /// an `owner`, each listing must be unlocked and belong to it.
    pub open spec fn removals_from(self, keys: Seq<Option<(u64, Seq<char>)>>, owner: Option<Seq<char>>, i: int) -> Result<(MarketplaceView, Seq<Transfer>), AuctionError>
        decreases keys.len() - i,
    {
        if i >= keys.len() || i < 0 {
            Ok((self, Seq::empty()))
        } else {
            match keys[i] {
                None => Err(AuctionError::MalformedKey),
                Some(k) => {
                    if !self.listings.contains_key(k) {
                        Err(AuctionError::ListingNotFound)
                    } else if owner is Some && self.listings[k].locked {
                        Err(AuctionError::ListingLocked)
                    } else if owner matches Some(o) && self.listings[k].owner_id@ != o {
                        Err(AuctionError::NotTokenOwner)
                    } else {
                        match self.delisted(k) {
                            None => Err(AuctionError::Overflow),
                            Some((w, t)) => prefixed(t, w.removals_from(keys, owner, i + 1)),
                        }
                    }
                },
            }
        }
    }

    /// Listing `tokens` with their `approvals`, pairwise, from the `i`-th
    /// on.
    pub open spec fn listings_from(self, store: AccountId, tokens: Seq<u64>, approvals: Seq<u64>, owner: AccountId, args: SaleArgs, i: int) -> Result<(MarketplaceView, Seq<Transfer>), AuctionError>
        decreases tokens.len() - i,
    {
        if i >= tokens.len() || i >= approvals.len() || i < 0 {
            Ok((self, Seq::empty()))
        } else {
            let l = new_listing(owner, store, tokens[i], approvals[i], args);
            match self.inserted(store@, l) {
                Err(e) => Err(e),
                Ok((w, t)) => prefixed(t, w.listings_from(store, tokens, approvals, owner, args, i + 1)),
            }
        }
    }
}

impl Marketplace {
    pub fn copy(&self) -> (r: Marketplace)
        requires
            self.wf(),
        ensures
            r.wf(),
            r@ == self@,
    {
        Marketplace {
            listings: self.listings.copy(),
            owner_id: self.owner_id.clone(),
            take: self.take,
            min_offer_hours: self.min_offer_hours,
            deposit_required: self.deposit_required,
            allowlist: self.allowlist.copy(),
            banlist: self.banlist.copy(),
            storage_costs: StorageCostsMarket {
                storage_price_per_byte: self.storage_costs.storage_price_per_byte,
                list: self.storage_costs.list,
            },
        }
    }

    /// Pays `amount` out of the balance held for others.
    fn tx_send(&mut self, account_id: AccountId, amount: u128) -> (r: Result<Transfer, AuctionError>)
        requires
            old(self).wf(),
        ensures
            final(self).wf(),
            r is Ok <==> old(self).deposit_required >= amount,
            r is Err ==> *final(self) == *old(self),
            r matches Ok(t) ==> t == (Transfer { receiver_id: account_id, amount })
                && final(self)@ == (MarketplaceView { deposit_required: (old(self).deposit_required - amount) as u128, ..old(self)@ }),
    {
        if self.deposit_required < amount {
            return Err(AuctionError::Overflow);
        }
        self.deposit_required = self.deposit_required - amount;
        Ok(Transfer { receiver_id: account_id, amount })
    }

    /// Removes the listing at `(id, store)` and refunds its offer.
    fn delist_internal(&mut self, id: u64, store: &AccountId) -> (r: Result<Vec<Transfer>, AuctionError>)
        requires
            old(self).wf(),
            old(self)@.listings.contains_key((id, store@)),
        ensures
            final(self).wf(),
            r is Ok <==> old(self)@.delisted((id, store@)) is Some,
            r matches Err(e) ==> e == AuctionError::Overflow && *final(self) == *old(self),
            r matches Ok(t) ==> old(self)@.delisted((id, store@)) == Some((final(self)@, t@)),
    {
        let token = match self.listings.get(id, store) {
            Some(l) => l.copy(),
            None => {
                return Err(AuctionError::ListingNotFound);
            },
        };
        let price: u128 = match &token.current_offer {
            Some(o) => o.price,
            None => 0,
        };
        if self.deposit_required < self.storage_costs.list || self.deposit_required - self.storage_costs.list < price {
            return Err(AuctionError::Overflow);
        }
        self.listings.remove(id, store);
        self.deposit_required = self.deposit_required - self.storage_costs.list - price;
        let mut refunds: Vec<Transfer> = Vec::new();
        match token.current_offer {
            Some(o) => {
                refunds.push(Transfer { receiver_id: o.from, amount: o.price });
            },
            None => {},
        }
        proof {
            assert(refunds@ =~= offer_refund(token));
        }
        Ok(refunds)
    }

    /// Lists `l` for `store`, replacing an unlocked listing of the token.
    fn listing_insert_internal(&mut self, store: &AccountId, l: TokenListing) -> (r: Result<Vec<Transfer>, AuctionError>)
        requires
            old(self).wf(),
            l.store_id == *store,
        ensures
            final(self).wf(),
            r is Ok <==> old(self)@.inserted(store@, l) is Ok,
            r matches Err(e) ==> old(self)@.inserted(store@, l) == Err::<(MarketplaceView, Seq<Transfer>), AuctionError>(e)
                && *final(self) == *old(self),
            r matches Ok(t) ==> old(self)@.inserted(store@, l) == Ok::<(MarketplaceView, Seq<Transfer>), AuctionError>((final(self)@, t@)),
    {
        let (exists, locked) = match self.listings.get(l.id, store) {
            Some(old_listing) => (true, old_listing.locked),
            None => (false, false),
        };
        if exists {
            if locked {
                return Err(AuctionError::ListingLocked);
            }
            let t = self.delist_internal(l.id, store)?;
            self.listings.insert(l);
            Ok(t)
        } else {
            self.listings.insert(l);
            let t: Vec<Transfer> = Vec::new();
            assert(t@ =~= Seq::<Transfer>::empty());
            Ok(t)
        }
    }

    /// Lists `token_id`, approved by the calling NFT contract `caller` for
    /// its owner `owner_id`, and holds a listing deposit for it.
    pub fn nft_on_approve(&mut self, caller: &AccountId, token_id: u64, owner_id: AccountId, approval_id: u64, sale_args: SaleArgs) -> (r: Result<Vec<Transfer>, AuctionError>)
        requires
            old(self).wf(),
        ensures
            final(self).wf(),
            ({
                let v1 = MarketplaceView { deposit_required: (old(self).deposit_required + old(self).storage_costs.list) as u128, ..old(self)@ };
                let l = TokenListing {
                    id: token_id,
                    owner_id,
                    store_id: *caller,
                    autotransfer: sale_args.autotransfer,
                    asking_price: sale_args.price,
                    approval_id,
                    current_offer: None,
                    num_offers: 0,
                    locked: false,
                };
                let rej = if !old(self)@.allowed(caller@) {
                    Some(AuctionError::NotAllowed)
                } else if old(self).deposit_required + old(self).storage_costs.list > u128::MAX {
                    Some(AuctionError::Overflow)
                } else {
                    match v1.inserted(caller@, l) {
                        Err(e) => Some(e),
                        Ok(_) => None,
                    }
                };
                &&& r is Err <==> rej is Some
                &&& r matches Err(e) ==> rej == Some(e) && *final(self) == *old(self)
                &&& r matches Ok(t) ==> v1.inserted(caller@, l) == Ok::<(MarketplaceView, Seq<Transfer>), AuctionError>((final(self)@, t@))
            }),
    {
        if !self.is_pred_mintbase_or_allowlist_and_not_banlist(caller) {
            return Err(AuctionError::NotAllowed);
        }
        let dr = match self.deposit_required.checked_add(self.storage_costs.list) {
            Some(x) => x,
            None => {
                return Err(AuctionError::Overflow);
            },
        };
        let mut work = self.copy();
        work.deposit_required = dr;
        let l = TokenListing::new(owner_id, caller.clone(), token_id, approval_id, sale_args.autotransfer, sale_args.price);
        let t = work.listing_insert_internal(caller, l)?;
        *self = work;
        Ok(t)
    }

    /// Lists `tokens` with their `approvals`, pairwise, for `owner_id`; the
    /// attached deposit must cover a listing deposit for each token.
    pub fn nft_on_batch_approve(
        &mut self,
        caller: &AccountId,
        attached: u128,
        tokens: Vec<u64>,
        approvals: Vec<u64>,
        owner_id: AccountId,
        sale_args: SaleArgs,
    ) -> (r: Result<Vec<Transfer>, AuctionError>)
        requires
            old(self).wf(),
        ensures
            final(self).wf(),
            ({
                let storage = old(self).storage_costs.list * tokens@.len();
                let v1 = MarketplaceView { deposit_required: (old(self).deposit_required + storage) as u128, ..old(self)@ };
                let res = v1.listings_from(*caller, tokens@, approvals@, owner_id, sale_args, 0);
                let rej = if attached < storage {
                    Some(AuctionError::DepositTooLow)
                } else if !old(self)@.allowed(caller@) {
                    Some(AuctionError::NotAllowed)
                } else if old(self).deposit_required + storage > u128::MAX {
                    Some(AuctionError::Overflow)
                } else {
                    match res {
                        Err(e) => Some(e),
                        Ok(_) => None,
                    }
                };
                &&& r is Err <==> rej is Some
                &&& r matches Err(e) ==> rej == Some(e) && *final(self) == *old(self)
                &&& r matches Ok(t) ==> res == Ok::<(MarketplaceView, Seq<Transfer>), AuctionError>((final(self)@, t@))
            }),
    {
        let storage = match self.storage_costs.list.checked_mul(tokens.len() as u128) {
            Some(x) => x,
            None => {
                return Err(AuctionError::DepositTooLow);
            },
        };
        if attached < storage {
            return Err(AuctionError::DepositTooLow);
        }
        if !self.is_pred_mintbase_or_allowlist_and_not_banlist(caller) {
            return Err(AuctionError::NotAllowed);
        }
        let dr = match self.deposit_required.checked_add(storage) {
            Some(x) => x,
            None => {
                return Err(AuctionError::Overflow);
            },
        };
        let mut work = self.copy();
        work.deposit_required = dr;
        let (m, t) = Self::insert_many(&work, caller, &tokens, &approvals, &owner_id, &sale_args)?;
        *self = m;
        Ok(t)
    }

    /// Lists `tokens` with their `approvals`, pairwise, on `start`.
    fn insert_many(
        start: &Marketplace,
        caller: &AccountId,
        tokens: &Vec<u64>,
        approvals: &Vec<u64>,
        owner_id: &AccountId,
        sale_args: &SaleArgs,
    ) -> (r: Result<(Marketplace, Vec<Transfer>), AuctionError>)
        requires
            start.wf(),
        ensures
            ({
                let res = start@.listings_from(*caller, tokens@, approvals@, *owner_id, *sale_args, 0);
                &&& r is Err <==> res is Err
                &&& r matches Err(e) ==> res == Err::<(MarketplaceView, Seq<Transfer>), AuctionError>(e)
                &&& r matches Ok((m, t)) ==> m.wf() && res == Ok::<(MarketplaceView, Seq<Transfer>), AuctionError>((m@, t@))
            }),
    {
        let ghost v1 = start@;
        let mut work = start.copy();
        let mut transfers: Vec<Transfer> = Vec::new();
        let mut i: usize = 0;
        while i < tokens.len() && i < approvals.len()
            invariant
                work.wf(),
                v1 == start@,
                i <= tokens@.len(),
                v1.listings_from(*caller, tokens@, approvals@, *owner_id, *sale_args, 0) == prefixed(
                    transfers@,
                    work@.listings_from(*caller, tokens@, approvals@, *owner_id, *sale_args, i as int),
                ),
            decreases tokens@.len() - i,
        {
            let l = TokenListing::new(owner_id.clone(), caller.clone(), tokens[i], approvals[i], sale_args.autotransfer, sale_args.price);
            let ghost before = work@;
            let ghost acc = transfers@;
            assert(l == new_listing(*owner_id, *caller, tokens@[i as int], approvals@[i as int], *sale_args));
            assert(before.listings_from(*caller, tokens@, approvals@, *owner_id, *sale_args, i as int) == match before.inserted(caller@, l) {
                Err(e) => Err(e),
                Ok((w, t)) => prefixed(t, w.listings_from(*caller, tokens@, approvals@, *owner_id, *sale_args, i + 1)),
            });
            match work.listing_insert_internal(caller, l) {
                Ok(t) => {
                    let mut t = t;
                    proof {
                        assert(before.listings_from(*caller, tokens@, approvals@, *owner_id, *sale_args, i as int)
                            == prefixed(t@, work@.listings_from(*caller, tokens@, approvals@, *owner_id, *sale_args, i + 1)));
                    }
                    let ghost tv = t@;
                    transfers.append(&mut t);
                    proof {
                        let rest = work@.listings_from(*caller, tokens@, approvals@, *owner_id, *sale_args, i + 1);
                        match rest {
                            Ok((w2, t2)) => {
                                assert(acc + (tv + t2) =~= (acc + tv) + t2);
                            },
                            Err(_) => {},
                        }
                    }
                },
                Err(e) => {
                    return Err(e);
                },
            }
            i += 1;
        }
        proof {
            assert(transfers@ + Seq::<Transfer>::empty() =~= transfers@);
        }
        Ok((work, transfers))
    }

    /// Removes the listings at `keys` from `work`, in order.
    fn remove_many(start: &Marketplace, keys: &Vec<Option<TokenKey>>, owner: &Option<AccountId>) -> (r: Result<(Marketplace, Vec<Transfer>), AuctionError>)
        requires
            start.wf(),
        ensures
            ({
                let res = start@.removals_from(key_views(keys@), owner_view(*owner), 0);
                &&& r is Err <==> res is Err
                &&& r matches Err(e) ==> res == Err::<(MarketplaceView, Seq<Transfer>), AuctionError>(e)
                &&& r matches Ok((m, t)) ==> m.wf() && res == Ok::<(MarketplaceView, Seq<Transfer>), AuctionError>((m@, t@))
            }),
    {
        let ghost o = owner_view(*owner);
        let ghost ks = key_views(keys@);
        let ghost v0 = start@;
        let mut work = start.copy();
        let mut transfers: Vec<Transfer> = Vec::new();
        let mut i: usize = 0;
        while i < keys.len()
            invariant
                work.wf(),
                v0 == start@,
                i <= keys@.len(),
                ks == key_views(keys@),
                o == owner_view(*owner),
                v0.removals_from(ks, o, 0) == prefixed(transfers@, work@.removals_from(ks, o, i as int)),
            decreases keys@.len() - i,
        {
            let (id, store) = match &keys[i] {
                Some(k) => (k.token_id, k.account_id.clone()),
                None => {
                    assert(ks[i as int] is None);
                    return Err(AuctionError::MalformedKey);
                },
            };
            let ghost k = (id, store@);
            assert(ks[i as int] == Some(k));
            let (locked, listed_owner) = match work.listings.get(id, &store) {
                Some(l) => (l.locked, l.owner_id.clone()),
                None => {
                    return Err(AuctionError::ListingNotFound);
                },
            };
            match owner {
                Some(a) => {
                    if locked {
                        return Err(AuctionError::ListingLocked);
                    }
                    if listed_owner != *a {
                        return Err(AuctionError::NotTokenOwner);
                    }
                },
                None => {},
            }
            let ghost acc = transfers@;
            let ghost before = work@;
            let mut t = match work.delist_internal(id, &store) {
                Ok(t) => t,
                Err(e) => {
                    return Err(e);
                },
            };
            proof {
                assert(before.listings.contains_key(k));
                assert(before.delisted(k) == Some((work@, t@)));
                assert(before.removals_from(ks, o, i as int) == prefixed(t@, work@.removals_from(ks, o, i + 1)));
            }
            let ghost tv = t@;
            transfers.append(&mut t);
            proof {
                let rest = work@.removals_from(ks, o, i + 1);
                match rest {
                    Ok((w2, t2)) => {
                        assert(acc + (tv + t2) =~= (acc + tv) + t2);
                    },
                    Err(_) => {},
                }
            }
            i += 1;
        }
        proof {
            assert(transfers@ + Seq::<Transfer>::empty() =~= transfers@);
        }
        Ok((work, transfers))
    }

    /// Withdraws the caller's listings of `token_ids` on
    /// `nft_contract_id`, all of them or none, refunding their offers. Each
    /// must be unlocked and belong to the caller; one yoctoNEAR must be
    /// attached.
    pub fn delist(&mut self, caller: &AccountId, attached: u128, nft_contract_id: AccountId, token_ids: Vec<String>) -> (r: Result<Vec<Transfer>, AuctionError>)
        requires
            old(self).wf(),
        ensures
            final(self).wf(),
            ({
                let keys = token_ids@.map_values(|t: String| match parse_u64(t@) {
                    Some(id) => Some((id, nft_contract_id@)),
                    None => None,
                });
                let res = old(self)@.removals_from(keys, Some(caller@), 0);
                &&& r is Err <==> attached != 1 || res is Err
                &&& r matches Err(e) ==> *final(self) == *old(self) && (if attached != 1 {
                    e == AuctionError::OneYoctoRequired
                } else {
                    res == Err::<(MarketplaceView, Seq<Transfer>), AuctionError>(e)
                })
                &&& r matches Ok(t) ==> res == Ok::<(MarketplaceView, Seq<Transfer>), AuctionError>((final(self)@, t@))
            }),
    {
        if attached != 1 {
            return Err(AuctionError::OneYoctoRequired);
        }
        let mut keys: Vec<Option<TokenKey>> = Vec::new();
        let mut i: usize = 0;
        while i < token_ids.len()
            invariant
                *self == *old(self),
                i <= token_ids@.len(),
                keys@.len() == i,
                forall|j: int| 0 <= j < i ==> #[trigger] key_views(keys@)[j] == match parse_u64(token_ids@[j]@) {
                    Some(id) => Some((id, nft_contract_id@)),
                    None => None,
                },
            decreases token_ids@.len() - i,
        {
            let k = match parse_decimal_u64(token_ids[i].as_str()) {
                Some(id) => Some(TokenKey { token_id: id, account_id: nft_contract_id.clone() }),
                None => None,
            };
            let ghost prev = keys@;
            keys.push(k);
            proof {
                assert forall|j: int| 0 <= j < i + 1 implies #[trigger] key_views(keys@)[j] == match parse_u64(token_ids@[j]@) {
                    Some(id) => Some((id, nft_contract_id@)),
                    None => None,
                } by {
                    if j < i {
                        assert(keys@[j] == prev[j]);
                        assert(key_views(prev)[j] == key_views(keys@)[j]);
                    }
                }
            }
            i += 1;
        }
        proof {
            let want = token_ids@.map_values(|t: String| match parse_u64(t@) {
                Some(id) => Some((id, nft_contract_id@)),
                None => None,
            });
            assert(key_views(keys@) =~= want);
        }
        let (m, t) = Self::remove_many(self, &keys, &Some(caller.clone()))?;
        *self = m;
        Ok(t)
    }

    /// Removes the listings that `token_keys` name, all of them or none,
    /// refunding their offers. Only the owner may do this.
    pub fn kick_tokens(&mut self, caller: &AccountId, attached: u128, token_keys: Vec<String>) -> (r: Result<Vec<Transfer>, AuctionError>)
        requires
            old(self).wf(),
        ensures
            final(self).wf(),
            ({
                let keys = token_keys@.map_values(|t: String| key_of(t@));
                let res = old(self)@.removals_from(keys, None, 0);
                &&& r is Err <==> attached != 1 || caller@ != old(self).owner_id@ || res is Err
                &&& r is Err ==> *final(self) == *old(self)
                &&& (attached == 1 && caller@ == old(self).owner_id@) ==> (r matches Err(e) ==> res == Err::<(MarketplaceView, Seq<Transfer>), AuctionError>(e))
                &&& r matches Ok(t) ==> res == Ok::<(MarketplaceView, Seq<Transfer>), AuctionError>((final(self)@, t@))
            }),
    {
        self.check_owner(caller, attached)?;
        let mut keys: Vec<Option<TokenKey>> = Vec::new();
        let mut i: usize = 0;
        while i < token_keys.len()
            invariant
                *self == *old(self),
                i <= token_keys@.len(),
                keys@.len() == i,
                forall|j: int| 0 <= j < i ==> #[trigger] key_views(keys@)[j] == key_of(token_keys@[j]@),
            decreases token_keys@.len() - i,
        {
            let ghost prev = keys@;
            keys.push(TokenKey::parse(token_keys[i].as_str()));
            proof {
                assert forall|j: int| 0 <= j < i + 1 implies #[trigger] key_views(keys@)[j] == key_of(token_keys@[j]@) by {
                    if j < i {
                        assert(keys@[j] == prev[j]);
                        assert(key_views(prev)[j] == key_views(keys@)[j]);
                    }
                }
            }
            i += 1;
        }
        proof {
            assert(key_views(keys@) =~= token_keys@.map_values(|t: String| key_of(t@)));
        }
        let (m, t) = Self::remove_many(self, &keys, &None)?;
        *self = m;
        Ok(t)
    }
}

/// The hours of each validity.
pub open spec fn hours_of(t: Seq<TimeUnit>) -> Seq<u64> {
    t.map_values(|u: TimeUnit| match u {
        TimeUnit::Hours(h) => h,
    })
}

/// The sum of `s`.
pub open spec fn sum_of(s: Seq<u128>) -> int
    decreases s.len(),
{
    if s.len() == 0 {
        0
    } else {
        sum_of(s.drop_last()) + s.last()
    }
}

pub open spec fn prefixed3(
    t: Seq<Transfer>,
    q: Seq<AuctionPayoutRequest>,
    r: Result<(MarketplaceView, Seq<Transfer>, Seq<AuctionPayoutRequest>), AuctionError>,
) -> Result<(MarketplaceView, Seq<Transfer>, Seq<AuctionPayoutRequest>), AuctionError> {
    match r {
        Ok((w, t2, q2)) => Ok((w, t + t2, q + q2)),
        Err(e) => Err(e),
    }
}

pub open spec fn opt_seq(q: Option<AuctionPayoutRequest>) -> Seq<AuctionPayoutRequest> {
    match q {
        Some(x) => seq![x],
        None => Seq::empty(),
    }
}

/// How a transfer of a locked listing ends once the payout is known: a
/// malformed payout, one above `others_keep`, or one with too many
/// recipients bans the NFT contract.
pub open spec fn auction_kind(result: PayoutResult, others_keep: int) -> SettlementKind {
    match result {
        PayoutResult::Parsed(p) => if transfers_total(p@) > others_keep || p@.len() > MAX_LEN_PAYOUT {
            SettlementKind::Banned
        } else {
            SettlementKind::Sold
        },
        PayoutResult::Malformed => SettlementKind::Banned,
        _ => SettlementKind::Failed,
    }
}

impl MarketplaceView {
    /// The offers of a batch, in order, from the `i`-th on.
    pub open spec fn offers_from(
        self,
        caller: AccountId,
        now: u64,
        keys: Seq<Option<(u64, Seq<char>)>>,
        prices: Seq<u128>,
        hours: Seq<u64>,
        i: int,
    ) -> Result<(MarketplaceView, Seq<Transfer>, Seq<AuctionPayoutRequest>), AuctionError>
        decreases keys.len() - i,
    {
        if i >= keys.len() || i >= prices.len() || i >= hours.len() || i < 0 {
            Ok((self, Seq::empty(), Seq::empty()))
        } else {
            match keys[i] {
                None => Err(AuctionError::MalformedKey),
                Some(k) => match self.offer_step(caller, now, k, prices[i], hours[i]) {
                    Err(e) => Err(e),
                    Ok((w, t, q)) => prefixed3(t, opt_seq(q), w.offers_from(caller, now, keys, prices, hours, i + 1)),
                },
            }
        }
    }

    /// The request that transfers the listing at `key` to its offer.
    pub open spec fn transfer_request(self, l: TokenListing) -> AuctionPayoutRequest {
        let o = l.current_offer->0;
        let (mk, ok) = self.keeps(o.price as int);
        AuctionPayoutRequest {
            store_id: l.store_id,
            receiver_id: o.from,
            token_id: l.id,
            approval_id: l.approval_id,
            others_keep: ok as u128,
            market_keeps: mk as u128,
        }
    }
}

impl Marketplace {
    /// Locks `l` for the transfer to its offer and builds the payout
    /// request for the NFT contract.
    fn help_transfer(&mut self, l: TokenListing) -> (r: AuctionPayoutRequest)
        requires
            old(self).wf(),
            l.current_offer is Some,
        ensures
            final(self).wf(),
            final(self)@ == (MarketplaceView { listings: old(self)@.listings.insert(l.key(), TokenListing { locked: true, ..l }), ..old(self)@ }),
            r == old(self)@.transfer_request(l),
    {
        let mut l = l;
        l.locked = true;
        let price = match &l.current_offer {
            Some(o) => o.price,
            None => 0,
        };
        let receiver_id = match &l.current_offer {
            Some(o) => o.from.clone(),
            None => l.owner_id.clone(),
        };
        proof {
            lemma_bp_share_bounds(price as int, self.take.numerator as int);
        }
        let market_keeps = self.take.multiply_balance(price);
        let r = AuctionPayoutRequest {
            store_id: l.store_id.clone(),
            receiver_id,
            token_id: l.id,
            approval_id: l.approval_id,
            others_keep: price - market_keeps,
            market_keeps,
        };
        self.listings.insert(l);
        r
    }

    /// One offer of a batch on `work`.
    fn try_make_offer(&mut self, caller: &AccountId, now: u64, id: u64, store: &AccountId, price: u128, hours: u64) -> (r: Result<(Vec<Transfer>, Option<AuctionPayoutRequest>), AuctionError>)
        requires
            old(self).wf(),
        ensures
            final(self).wf(),
            ({
                let res = old(self)@.offer_step(*caller, now, (id, store@), price, hours);
                &&& r is Err <==> res is Err
                &&& r matches Err(e) ==> res == Err::<(MarketplaceView, Seq<Transfer>, Option<AuctionPayoutRequest>), AuctionError>(e)
                &&& r matches Ok((t, q)) ==> res == Ok::<(MarketplaceView, Seq<Transfer>, Option<AuctionPayoutRequest>), AuctionError>((final(self)@, t@, q))
            }),
    {
        if hours < self.min_offer_hours {
            return Err(AuctionError::OfferTooShort);
        }
        let l = match self.listings.get(id, store) {
            Some(l) => l.copy(),
            None => {
                return Err(AuctionError::ListingNotFound);
            },
        };
        if l.locked {
            return Err(AuctionError::ListingLocked);
        }
        if l.num_offers == u64::MAX {
            return Err(AuctionError::Overflow);
        }
        let offer = match TokenOffer::new(price, caller.clone(), now, TimeUnit::Hours(hours), l.num_offers + 1) {
            Some(o) => o,
            None => {
                return Err(AuctionError::Overflow);
            },
        };
        if self.owner_id == *caller {
            return Err(AuctionError::OwnerCannotOffer);
        }
        if l.autotransfer && price < l.asking_price {
            return Err(AuctionError::BelowAsk);
        }
        let mut refunds: Vec<Transfer> = Vec::new();
        let old_price: u128 = match &l.current_offer {
            Some(old) => {
                if old.is_active(now) && price <= old.price {
                    return Err(AuctionError::NotAboveCurrentOffer);
                }
                refunds.push(Transfer { receiver_id: old.from.clone(), amount: old.price });
                old.price
            },
            None => 0,
        };
        assert(refunds@ =~= offer_refund(l));
        if self.deposit_required < old_price {
            return Err(AuctionError::Overflow);
        }
        self.deposit_required = self.deposit_required - old_price;
        let buy_now = l.autotransfer && price >= l.asking_price;
        let nl = TokenListing {
            num_offers: l.num_offers + 1,
            current_offer: Some(offer),
            locked: false,
            ..l
        };
        if buy_now {
            let q = self.help_transfer(nl);
            Ok((refunds, Some(q)))
        } else {
            self.listings.insert(nl);
            Ok((refunds, None))
        }
    }

    /// The offers of a batch on `start`, in order.
    fn offer_many(
        start: &Marketplace,
        caller: &AccountId,
        now: u64,
        keys: &Vec<Option<TokenKey>>,
        prices: &Vec<u128>,
        hours: &Vec<u64>,
    ) -> (r: Result<(Marketplace, Vec<Transfer>, Vec<AuctionPayoutRequest>), AuctionError>)
        requires
            start.wf(),
        ensures
            ({
                let res = start@.offers_from(*caller, now, key_views(keys@), prices@, hours@, 0);
                &&& r is Err <==> res is Err
                &&& r matches Err(e) ==> res == Err::<(MarketplaceView, Seq<Transfer>, Seq<AuctionPayoutRequest>), AuctionError>(e)
                &&& r matches Ok((m, t, q)) ==> m.wf() && res == Ok::<(MarketplaceView, Seq<Transfer>, Seq<AuctionPayoutRequest>), AuctionError>((m@, t@, q@))
            }),
    {
        let ghost v0 = start@;
        let ghost ks = key_views(keys@);
        let mut work = start.copy();
        let mut transfers: Vec<Transfer> = Vec::new();
        let mut requests: Vec<AuctionPayoutRequest> = Vec::new();
        let mut i: usize = 0;
        while i < keys.len() && i < prices.len() && i < hours.len()
            invariant
                work.wf(),
                v0 == start@,
                ks == key_views(keys@),
                i <= keys@.len(),
                v0.offers_from(*caller, now, ks, prices@, hours@, 0) == prefixed3(
                    transfers@,
                    requests@,
                    work@.offers_from(*caller, now, ks, prices@, hours@, i as int),
                ),
            decreases keys@.len() - i,
        {
            let (id, store) = match &keys[i] {
                Some(k) => (k.token_id, k.account_id.clone()),
                None => {
                    return Err(AuctionError::MalformedKey);
                },
            };
            assert(ks[i as int] == Some((id, store@)));
            let ghost before = work@;
            let ghost acc = transfers@;
            let ghost qacc = requests@;
            let (mut t, q) = match work.try_make_offer(caller, now, id, &store, prices[i], hours[i]) {
                Ok(x) => x,
                Err(e) => {
                    return Err(e);
                },
            };
            let ghost tv = t@;
            proof {
                assert(before.offers_from(*caller, now, ks, prices@, hours@, i as int) == prefixed3(
                    tv,
                    opt_seq(q),
                    work@.offers_from(*caller, now, ks, prices@, hours@, i + 1),
                ));
            }
            transfers.append(&mut t);
            match q {
                Some(x) => {
                    requests.push(x);
                },
                None => {},
            }
            proof {
                assert(requests@ =~= qacc + opt_seq(q));
                let rest = work@.offers_from(*caller, now, ks, prices@, hours@, i + 1);
                match rest {
                    Ok((w2, t2, q2)) => {
                        assert(acc + (tv + t2) =~= (acc + tv) + t2);
                        assert(qacc + (opt_seq(q) + q2) =~= (qacc + opt_seq(q)) + q2);
                    },
                    Err(_) => {},
                }
            }
            i += 1;
        }
        proof {
            assert(transfers@ + Seq::<Transfer>::empty() =~= transfers@);
            assert(requests@ + Seq::<AuctionPayoutRequest>::empty() =~= requests@);
        }
        Ok((work, transfers, requests))
    }

    /// Offers `price[i]` for the listing that `token_key[i]` names, valid
    /// for `timeout[i]`, for every `i`, all of them or none. The attached
    /// deposit must equal the sum of the prices; it is held in escrow.
    /// Outbid offers are refunded; buy-now listings reached by their price
    /// are locked and their payout requests returned.
    pub fn make_offer(
        &mut self,
        caller: &AccountId,
        attached: u128,
        now: u64,
        token_key: Vec<String>,
        price: Vec<u128>,
        timeout: Vec<TimeUnit>,
    ) -> (r: Result<(Vec<Transfer>, Vec<AuctionPayoutRequest>), AuctionError>)
        requires
            old(self).wf(),
        ensures
            final(self).wf(),
            ({
                let keys = token_key@.map_values(|t: String| key_of(t@));
                let res = old(self)@.offers_from(*caller, now, keys, price@, hours_of(timeout@), 0);
                let total = sum_of(price@);
                let rej = if price@.len() != token_key@.len() || timeout@.len() != token_key@.len() {
                    Some(AuctionError::LengthMismatch)
                } else {
                    match res {
                        Err(e) => Some(e),
                        Ok((w, t, q)) => if total != attached {
                            Some(AuctionError::DepositMismatch)
                        } else if w.deposit_required + total > u128::MAX {
                            Some(AuctionError::Overflow)
                        } else {
                            None
                        },
                    }
                };
                &&& r is Err <==> rej is Some
                &&& r matches Err(e) ==> rej == Some(e) && *final(self) == *old(self)
                &&& r matches Ok((t, q)) ==> res matches Ok((w, t2, q2)) && t@ == t2 && q@ == q2 && final(self)@ == (MarketplaceView {
                    deposit_required: (w.deposit_required + total) as u128,
                    ..w
                })
            }),
    {
        if price.len() != token_key.len() || timeout.len() != token_key.len() {
            return Err(AuctionError::LengthMismatch);
        }
        let mut keys: Vec<Option<TokenKey>> = Vec::new();
        let mut hours: Vec<u64> = Vec::new();
        let mut total: u128 = 0;
        let mut overflow = false;
        let mut i: usize = 0;
        while i < token_key.len()
            invariant
                price@.len() == token_key@.len(),
                timeout@.len() == token_key@.len(),
                i <= token_key@.len(),
                keys@.len() == i,
                hours@.len() == i,
                forall|j: int| 0 <= j < i ==> #[trigger] key_views(keys@)[j] == key_of(token_key@[j]@),
                forall|j: int| 0 <= j < i ==> #[trigger] hours@[j] == hours_of(timeout@)[j],
                !overflow ==> total == sum_of(price@.subrange(0, i as int)),
                overflow ==> sum_of(price@.subrange(0, i as int)) > u128::MAX,
            decreases token_key@.len() - i,
        {
            let ghost prev = keys@;
            keys.push(TokenKey::parse(token_key[i].as_str()));
            let TimeUnit::Hours(h) = timeout[i];
            hours.push(h);
            proof {
                assert forall|j: int| 0 <= j < i + 1 implies #[trigger] key_views(keys@)[j] == key_of(token_key@[j]@) by {
                    if j < i {
                        assert(keys@[j] == prev[j]);
                        assert(key_views(prev)[j] == key_views(keys@)[j]);
                    }
                }
                assert(price@.subrange(0, i + 1).drop_last() =~= price@.subrange(0, i as int));
            }
            if !overflow {
                match total.checked_add(price[i]) {
                    Some(x) => {
                        total = x;
                    },
                    None => {
                        overflow = true;
                    },
                }
            }
            i += 1;
        }
        proof {
            assert(key_views(keys@) =~= token_key@.map_values(|t: String| key_of(t@)));
            assert(hours@ =~= hours_of(timeout@));
            assert(price@.subrange(0, price@.len() as int) =~= price@);
        }
        let (m, t, q) = Self::offer_many(self, caller, now, &keys, &price, &hours)?;
        if overflow || total != attached {
            return Err(AuctionError::DepositMismatch);
        }
        let dr = match m.deposit_required.checked_add(total) {
            Some(x) => x,
            None => {
                return Err(AuctionError::Overflow);
            },
        };
        let mut m = m;
        m.deposit_required = dr;
        *self = m;
        Ok((t, q))
    }
}

impl MarketplaceView {
    /// Why the owner's change of the listing that `s` names is turned
    /// down, if it is.
    pub open spec fn owner_change_rejection(self, caller: Seq<char>, s: Seq<char>) -> Option<AuctionError> {
        match key_of(s) {
            None => Some(AuctionError::MalformedKey),
            Some(k) => if !self.listings.contains_key(k) {
                Some(AuctionError::ListingNotFound)
            } else if self.listings[k].locked {
                Some(AuctionError::ListingLocked)
            } else if self.listings[k].owner_id@ != caller {
                Some(AuctionError::NotTokenOwner)
            } else {
                None
            },
        }
    }
}

impl Marketplace {
    /// The unlocked listing that `token_key` names, if `caller` owns it.
    fn owned_listing(&self, caller: &AccountId, token_key: &String) -> (r: Result<TokenListing, AuctionError>)
        requires
            self.wf(),
        ensures
            ({
                let rej = self@.owner_change_rejection(caller@, token_key@);
                &&& r is Err <==> rej is Some
                &&& r matches Err(e) ==> rej == Some(e)
                &&& r matches Ok(l) ==> key_of(token_key@) matches Some(k) && l == self@.listings[k] && l.key() == k
            }),
    {
        let key = match TokenKey::parse(token_key.as_str()) {
            Some(k) => k,
            None => {
                return Err(AuctionError::MalformedKey);
            },
        };
        let l = match self.listings.get(key.token_id, &key.account_id) {
            Some(l) => l.copy(),
            None => {
                return Err(AuctionError::ListingNotFound);
            },
        };
        if l.locked {
            return Err(AuctionError::ListingLocked);
        }
        if l.owner_id != *caller {
            return Err(AuctionError::NotTokenOwner);
        }
        proof {
            let k = key_of(token_key@)->0;
            let j = self.listings.index_of(k);
            assert(self.listings.key_at(j) == k);
        }
        Ok(l)
    }

    /// Turns buy-now on or off for the caller's listing.
    pub fn set_token_autotransfer(&mut self, caller: &AccountId, token_key: String, state: bool) -> (r: Result<(), AuctionError>)
        requires
            old(self).wf(),
        ensures
            final(self).wf(),
            ({
                let rej = old(self)@.owner_change_rejection(caller@, token_key@);
                let k = key_of(token_key@)->0;
                &&& r is Err <==> rej is Some
                &&& r matches Err(e) ==> rej == Some(e) && *final(self) == *old(self)
                &&& r is Ok ==> final(self)@ == (MarketplaceView {
                    listings: old(self)@.listings.insert(k, TokenListing { autotransfer: state, ..old(self)@.listings[k] }),
                    ..old(self)@
                })
            }),
    {
        let mut l = self.owned_listing(caller, &token_key)?;
        l.autotransfer = state;
        self.listings.insert(l);
        Ok(())
    }

    /// Sets the price of the caller's listing; one yoctoNEAR must be
    /// attached.
    pub fn set_token_asking_price(&mut self, caller: &AccountId, attached: u128, token_key: String, price: u128) -> (r: Result<(), AuctionError>)
        requires
            old(self).wf(),
        ensures
            final(self).wf(),
            ({
                let rej = if attached != 1 {
                    Some(AuctionError::OneYoctoRequired)
                } else {
                    old(self)@.owner_change_rejection(caller@, token_key@)
                };
                let k = key_of(token_key@)->0;
                &&& r is Err <==> rej is Some
                &&& r matches Err(e) ==> rej == Some(e) && *final(self) == *old(self)
                &&& r is Ok ==> final(self)@ == (MarketplaceView {
                    listings: old(self)@.listings.insert(k, TokenListing { asking_price: price, ..old(self)@.listings[k] }),
                    ..old(self)@
                })
            }),
    {
        if attached != 1 {
            return Err(AuctionError::OneYoctoRequired);
        }
        let mut l = self.owned_listing(caller, &token_key)?;
        l.asking_price = price;
        self.listings.insert(l);
        Ok(())
    }

    /// The owner accepts the current offer on the listing; one yoctoNEAR
    /// must be attached. The listing is locked and the payout request for
    /// the NFT contract returned.
    pub fn accept_and_transfer(&mut self, caller: &AccountId, attached: u128, token_key: String) -> (r: Result<AuctionPayoutRequest, AuctionError>)
        requires
            old(self).wf(),
        ensures
            final(self).wf(),
            ({
                let v = old(self)@;
                let k = key_of(token_key@)->0;
                let rej = if attached != 1 {
                    Some(AuctionError::OneYoctoRequired)
                } else if key_of(token_key@) is None {
                    Some(AuctionError::MalformedKey)
                } else if !v.listings.contains_key(k) {
                    Some(AuctionError::ListingNotFound)
                } else if v.listings[k].locked {
                    Some(AuctionError::ListingLocked)
                } else if v.listings[k].current_offer is None {
                    Some(AuctionError::NoOffer)
                } else if v.listings[k].owner_id@ != caller@ {
                    Some(AuctionError::NotTokenOwner)
                } else {
                    None
                };
                &&& r is Err <==> rej is Some
                &&& r matches Err(e) ==> rej == Some(e) && *final(self) == *old(self)
                &&& r matches Ok(q) ==> {
                    &&& final(self)@ == (MarketplaceView {
                        listings: old(self)@.listings.insert(k, TokenListing { locked: true, ..old(self)@.listings[k] }),
                        ..old(self)@
                    })
                    &&& q == old(self)@.transfer_request(old(self)@.listings[k])
                }
            }),
    {
        if attached != 1 {
            return Err(AuctionError::OneYoctoRequired);
        }
        let key = match TokenKey::parse(token_key.as_str()) {
            Some(k) => k,
            None => {
                return Err(AuctionError::MalformedKey);
            },
        };
        let l = match self.listings.get(key.token_id, &key.account_id) {
            Some(l) => l.copy(),
            None => {
                return Err(AuctionError::ListingNotFound);
            },
        };
        if l.locked {
            return Err(AuctionError::ListingLocked);
        }
        if l.current_offer.is_none() {
            return Err(AuctionError::NoOffer);
        }
        if l.owner_id != *caller {
            return Err(AuctionError::NotTokenOwner);
        }
        proof {
            let k = key_of(token_key@)->0;
            let j = self.listings.index_of(k);
            assert(self.listings.key_at(j) == k);
        }
        Ok(self.help_transfer(l))
    }

    /// The account that made the current offer withdraws it, once it is
    /// older than the minimum offer time; the escrow is paid back.
    pub fn withdraw_offer(&mut self, caller: &AccountId, now: u64, token_key: String) -> (r: Result<Transfer, AuctionError>)
        requires
            old(self).wf(),
        ensures
            final(self).wf(),
            ({
                let v = old(self)@;
                let k = key_of(token_key@)->0;
                let l = v.listings[k];
                let o = l.current_offer->0;
                let rej = if key_of(token_key@) is None {
                    Some(AuctionError::MalformedKey)
                } else if !v.listings.contains_key(k) {
                    Some(AuctionError::ListingNotFound)
                } else if l.locked {
                    Some(AuctionError::ListingLocked)
                } else if l.current_offer is None {
                    Some(AuctionError::NoOffer)
                } else if o.from@ != caller@ {
                    Some(AuctionError::NotOfferer)
                } else if now - o.timestamp <= v.min_offer_hours * NANOS_PER_HOUR {
                    Some(AuctionError::OfferTooRecent)
                } else if v.deposit_required < o.price {
                    Some(AuctionError::Overflow)
                } else {
                    None
                };
                &&& r is Err <==> rej is Some
                &&& r matches Err(e) ==> rej == Some(e) && *final(self) == *old(self)
                &&& r matches Ok(t) ==> {
                    &&& t == (Transfer { receiver_id: o.from, amount: o.price })
                    &&& final(self)@ == (MarketplaceView {
                        listings: v.listings.insert(k, TokenListing { current_offer: None, ..l }),
                        deposit_required: (v.deposit_required - o.price) as u128,
                        ..v
                    })
                }
            }),
    {
        let key = match TokenKey::parse(token_key.as_str()) {
            Some(k) => k,
            None => {
                return Err(AuctionError::MalformedKey);
            },
        };
        let l = match self.listings.get(key.token_id, &key.account_id) {
            Some(l) => l.copy(),
            None => {
                return Err(AuctionError::ListingNotFound);
            },
        };
        if l.locked {
            return Err(AuctionError::ListingLocked);
        }
        let (from, price, timestamp) = match &l.current_offer {
            Some(o) => (o.from.clone(), o.price, o.timestamp),
            None => {
                return Err(AuctionError::NoOffer);
            },
        };
        if from != *caller {
            return Err(AuctionError::NotOfferer);
        }
        let old_enough = match self.min_offer_hours.checked_mul(NANOS_PER_HOUR) {
            Some(min_ns) => now >= timestamp && now - timestamp > min_ns,
            None => false,
        };
        if !old_enough {
            return Err(AuctionError::OfferTooRecent);
        }
        if self.deposit_required < price {
            return Err(AuctionError::Overflow);
        }
        proof {
            let k = key_of(token_key@)->0;
            let j = self.listings.index_of(k);
            assert(self.listings.key_at(j) == k);
        }
        let t = self.tx_send(from, price)?;
        let mut l = l;
        l.current_offer = None;
        self.listings.insert(l);
        Ok(t)
    }

    /// Resolves the transfer of the locked listing that `token_key` names
    /// once the NFT contract's payout is known. A sale pays the payout out
    /// of the escrow and removes the listing; a failed transfer delists it
    /// and refunds the offer; a misbehaving NFT contract is banned as well.
    pub fn resolve_nft_payout(&mut self, token_key: String, others_keep: u128, market_keeps: u128, result: PayoutResult) -> (r: Result<AuctionResolution, AuctionError>)
        requires
            old(self).wf(),
        ensures
            final(self).wf(),
            ({
                let v = old(self)@;
                let k = key_of(token_key@)->0;
                let l = v.listings[k];
                let kind = auction_kind(result, others_keep as int);
                let paid = match result {
                    PayoutResult::Parsed(p) => transfers_total(p@),
                    _ => 0,
                };
                let vb = MarketplaceView { banlist: v.banlist.insert(l.store_id@), ..v };
                let rej = if key_of(token_key@) is None {
                    Some(AuctionError::MalformedKey)
                } else if !v.listings.contains_key(k) {
                    Some(AuctionError::ListingNotFound)
                } else if !l.locked {
                    Some(AuctionError::NotLocked)
                } else if result is NotReady {
                    None
                } else if kind == SettlementKind::Sold {
                    if v.deposit_required < paid {
                        Some(AuctionError::Overflow)
                    } else {
                        None
                    }
                } else if kind == SettlementKind::Banned {
                    if vb.delisted(k) is None {
                        Some(AuctionError::Overflow)
                    } else {
                        None
                    }
                } else if v.delisted(k) is None {
                    Some(AuctionError::Overflow)
                } else {
                    None
                };
                &&& r is Err <==> rej is Some
                &&& r matches Err(e) ==> rej == Some(e) && *final(self) == *old(self)
                &&& r matches Ok(AuctionResolution::Retry) ==> result is NotReady && *final(self) == *old(self)
                &&& r matches Ok(AuctionResolution::Settled { kind: kd, payments }) ==> {
                    &&& !(result is NotReady)
                    &&& kd == kind
                    &&& kind == SettlementKind::Sold ==> {
                        &&& result matches PayoutResult::Parsed(p) && payments@ == p@
                        &&& final(self)@ == (MarketplaceView {
                            listings: v.listings.remove(k),
                            deposit_required: (v.deposit_required - paid) as u128,
                            ..v
                        })
                    }
                    &&& kind == SettlementKind::Banned ==> vb.delisted(k) == Some((final(self)@, payments@))
                    &&& kind == SettlementKind::Failed ==> v.delisted(k) == Some((final(self)@, payments@))
                }
            }),
    {
        let key = match TokenKey::parse(token_key.as_str()) {
            Some(k) => k,
            None => {
                return Err(AuctionError::MalformedKey);
            },
        };
        let (locked, store) = match self.listings.get(key.token_id, &key.account_id) {
            Some(l) => (l.locked, l.store_id.clone()),
            None => {
                return Err(AuctionError::ListingNotFound);
            },
        };
        if !locked {
            return Err(AuctionError::NotLocked);
        }
        match result {
            PayoutResult::NotReady => Ok(AuctionResolution::Retry),
            PayoutResult::Parsed(p) => {
                let total = payout_total(&p);
                let valid = match total {
                    Some(x) => x <= others_keep && p.len() <= MAX_LEN_PAYOUT as usize,
                    None => false,
                };
                if valid {
                    let paid = match total {
                        Some(x) => x,
                        None => 0,
                    };
                    if self.deposit_required < paid {
                        return Err(AuctionError::Overflow);
                    }
                    self.deposit_required = self.deposit_required - paid;
                    self.listings.remove(key.token_id, &key.account_id);
                    Ok(AuctionResolution::Settled { kind: SettlementKind::Sold, payments: p })
                } else {
                    self.ban_and_delist(key.token_id, &key.account_id, store)
                }
            },
            PayoutResult::Malformed => self.ban_and_delist(key.token_id, &key.account_id, store),
            PayoutResult::Failed => {
                let t = self.delist_internal(key.token_id, &key.account_id)?;
                Ok(AuctionResolution::Settled { kind: SettlementKind::Failed, payments: t })
            },
        }
    }

    /// Bans the NFT contract `store` and delists the listing at `(id,
    /// store_key)`, refunding its offer.
    fn ban_and_delist(&mut self, id: u64, store_key: &AccountId, store: AccountId) -> (r: Result<AuctionResolution, AuctionError>)
        requires
            old(self).wf(),
            old(self)@.listings.contains_key((id, store_key@)),
        ensures
            final(self).wf(),
            ({
                let vb = MarketplaceView { banlist: old(self)@.banlist.insert(store@), ..old(self)@ };
                &&& r is Err <==> vb.delisted((id, store_key@)) is None
                &&& r matches Err(e) ==> e == AuctionError::Overflow && *final(self) == *old(self)
                &&& r matches Ok(AuctionResolution::Settled { kind, payments }) ==> kind == SettlementKind::Banned
                    && vb.delisted((id, store_key@)) == Some((final(self)@, payments@))
                &&& !(r matches Ok(AuctionResolution::Retry))
            }),
    {
        let mut work = self.copy();
        work.banlist.insert(store);
        let t = work.delist_internal(id, store_key)?;
        *self = work;
        Ok(AuctionResolution::Settled { kind: SettlementKind::Banned, payments: t })
    }
}

} // verus!
