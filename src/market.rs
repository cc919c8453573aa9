use vstd::prelude::*;

use crate::data::{
    key_separator, make_token_key, offer_json_of, token_key_of, AccountId, ListingJson, BuyWithFtMessage, CreateListingMsg, Currency, Listing,
    Offer, MAX_LEN_PAYOUT_FT, MAX_LEN_PAYOUT_NEAR, MAX_TOKEN_ID_BYTES, TEN_MILLINEAR,
};
use crate::fraction::{bp_of, bp_share, lemma_bp_share_bounds};
use crate::keyed::{StrMap, StrSet};
use vstd::utf8::encode_utf8;

verus! {

/// Why the market turns a call down. A call that is turned down changes
/// nothing.
#[derive(Clone, Copy, Debug, PartialEq, Eq, Structural)]
pub enum MarketError {
    /// The caller is not the market owner.
    NotOwner,
    /// An account involved in the call is banned from the market.
    AccountBanned,
    /// There is no listing for the token.
    ListingNotFound,
    /// The listing is locked by an offer that is being processed.
    OfferInProgress,
    /// The listing has no offer to resolve or remove.
    NoOffer,
    /// The token ID is longer than the market accepts.
    TokenIdTooLong,
    /// The lister's free storage deposit does not cover one more listing.
    StorageNotCovered,
    /// Both a referrer and an affiliate were named.
    AmbiguousAffiliate,
    /// The listing asks for a fungible token, not native NEAR.
    NotListedForNear,
    /// The payment is below the asking price.
    DepositBelowPrice,
    /// Exactly one yoctoNEAR must be attached.
    OneYoctoRequired,
    /// Only the lister may do this.
    NotSeller,
    /// The listing cannot be withdrawn before its lock time has passed.
    ListingStillLocked,
    /// The resolution does not match the listing's currency.
    CurrencyMismatch,
    /// The ledger holds less for the account than the operation takes out.
    LedgerShortfall,
    /// A balance or counter would leave its integer range.
    Overflow,
    /// A cut above 10_000 basis points.
    CutAboveLimit,
}

/// A payment of `amount` to `receiver_id`.
#[derive(Debug)]
pub struct Transfer {
    pub receiver_id: AccountId,
    pub amount: u128,
}

/// The outcome of the payout computation that the NFT contract was asked
/// for, as far as this market can know it.
#[derive(Debug)]
pub enum PayoutResult {
    /// The result has not materialized yet.
    NotReady,
    /// The NFT contract's call failed.
    Failed,
    /// The call succeeded, but its result is not a payout.
    Malformed,
    /// The call succeeded with this payout: who gets how much.
    Parsed(Vec<Transfer>),
}

/// The sum of the amounts of `s`.
pub open spec fn transfers_total(s: Seq<Transfer>) -> int
    decreases s.len(),
{
    if s.len() == 0 {
        0
    } else {
        transfers_total(s.drop_last()) + s.last().amount
    }
}

pub proof fn lemma_transfers_total_push(s: Seq<Transfer>, t: Transfer)
    ensures
        transfers_total(s.push(t)) == transfers_total(s) + t.amount,
{
    assert(s.push(t).drop_last() =~= s);
}

pub proof fn lemma_transfers_total_prefix(s: Seq<Transfer>, i: int)
    requires
        0 <= i <= s.len(),
    ensures
        0 <= transfers_total(s.subrange(0, i)) <= transfers_total(s),
    decreases s.len() - i,
{
    if i < s.len() {
        lemma_transfers_total_prefix(s, i + 1);
        assert(s.subrange(0, i + 1).drop_last() =~= s.subrange(0, i));
        assert(transfers_total(s.subrange(0, i + 1)) == transfers_total(s.subrange(0, i))
            + s[i].amount);
        lemma_transfers_total_nonneg(s.subrange(0, i));
    } else {
        assert(s.subrange(0, i) =~= s);
        lemma_transfers_total_nonneg(s);
    }
}

pub proof fn lemma_transfers_total_nonneg(s: Seq<Transfer>)
    ensures
        transfers_total(s) >= 0,
    decreases s.len(),
{
    if s.len() > 0 {
        lemma_transfers_total_nonneg(s.drop_last());
    }
}

/// How a resolved offer ended.
#[derive(Clone, Copy, Debug, PartialEq, Eq, Structural)]
pub enum SettlementKind {
    /// The NFT contract's call failed; the buyer gets the payment back.
    Failed,
    /// The NFT contract misbehaved: it is banned and the buyer gets the
    /// payment back.
    Banned,
    /// The sale went through.
    Sold,
}

/// What the resolution of an offer moves.
#[derive(Debug)]
pub struct Settlement {
    pub kind: SettlementKind,
    /// Payments in the listing's currency, in this order.
    pub payments: Vec<Transfer>,
    /// Amount handed back to the token contract as unused (fungible-token
    /// sales only); that contract refunds it to the buyer.
    pub returned: u128,
    /// Storage deposit returned to the lister, in NEAR.
    pub storage_refund: Transfer,
    /// The affiliate's share of the offer, if it names one.
    pub affiliate_amount: Option<u128>,
    /// The market's share of the offer.
    pub platform_amount: u128,
    /// What the market keeps of a sale: the offer less every payment.
    pub platform_retained: u128,
}

/// The step after the NFT contract was asked for a payout.
#[derive(Debug)]
pub enum Resolution {
    /// The payout is not known yet: the same resolution is to be issued
    /// again.
    Retry,
    /// The offer is resolved and the listing removed.
    Settled(Settlement),
}

/// The call that an accepted offer makes on the NFT contract: transfer the
/// token to the buyer and compute a payout of `balance`, then resolve.
#[derive(Debug)]
pub struct PayoutRequest {
    pub nft_contract_id: AccountId,
    pub receiver_id: AccountId,
    pub token_id: String,
    pub approval_id: u64,
    /// What the payout may spend: the offer less the market's and the
    /// affiliate's shares.
    pub balance: u128,
    pub max_len_payout: u32,
    /// Key of the listing to resolve afterwards.
    pub token_key: String,
    /// Whether the resolution is the native-NEAR one.
    pub near: bool,
    pub affiliate_amount: Option<u128>,
    pub platform_amount: u128,
}

/// Why a payment with fungible tokens is handed back.
#[derive(Clone, Copy, Debug, PartialEq, Eq, Structural)]
pub enum RefundReason {
    /// The paying account or the token contract is banned.
    AccountBanned,
    /// There is no listing for the token.
    ListingNotFound,
    /// The instructions name both a referrer and an affiliate.
    AmbiguousAffiliate,
    /// The listing asks for native NEAR.
    ListedForNear,
    /// The listing asks for tokens of another contract.
    WrongFtContract,
    /// The payment is below the asking price.
    BelowPrice,
    /// Another offer is being processed on the listing.
    OfferInProgress,
}

/// The answer to a payment with fungible tokens.
#[derive(Debug)]
pub enum FtPurchase {
    /// The whole amount is handed back to the token contract.
    Refund { amount: u128, reason: RefundReason },
    /// The offer is accepted and the listing locked.
    Started(PayoutRequest),
}

/// `m[a]`, or 0 where `m` has no entry.
pub open spec fn bal(m: Map<Seq<char>, u128>, a: Seq<char>) -> int {
    if m.contains_key(a) {
        m[a] as int
    } else {
        0
    }
}

pub open spec fn cnt(m: Map<Seq<char>, u64>, a: Seq<char>) -> int {
    if m.contains_key(a) {
        m[a] as int
    } else {
        0
    }
}

/// Sets `a` to `v`, dropping the entry when `v` is 0.
pub open spec fn put_bal(m: Map<Seq<char>, u128>, a: Seq<char>, v: int) -> Map<Seq<char>, u128> {
    if v == 0 {
        m.remove(a)
    } else {
        m.insert(a, v as u128)
    }
}

pub open spec fn put_cnt(m: Map<Seq<char>, u64>, a: Seq<char>, v: int) -> Map<Seq<char>, u64> {
    if v == 0 {
        m.remove(a)
    } else {
        m.insert(a, v as u64)
    }
}

/// The cuts of `o` are basis points.
pub open spec fn offer_ok(o: Offer) -> bool {
    &&& o.referral_cut matches Some(c) ==> c <= 10_000
    &&& o.platform_cut <= 10_000
}

/// The affiliate's and the market's shares of offer `o`, fixed by the offer
/// alone. With a referral cut the market keeps `platform_cut` of it and the
/// affiliate the rest; without, the market keeps `platform_cut` of the
/// amount.
pub open spec fn offer_split(o: Offer) -> (Option<int>, int) {
    match o.referral_cut {
        Some(c) => {
            let total = bp_share(o.amount as int, c as int);
            let mb = bp_share(total, o.platform_cut as int);
            (Some(total - mb), mb)
        },
        None => (None, bp_share(o.amount as int, o.platform_cut as int)),
    }
}

/// What is left of offer `o` for the payout.
pub open spec fn offer_remainder(o: Offer) -> int {
    let (aff, mb) = offer_split(o);
    o.amount - mb - match aff {
        Some(x) => x,
        None => 0,
    }
}

/// The state of the market as the contracts speak of it.
pub struct MarketView {
    pub listings: Map<Seq<char>, Listing>,
    pub banned: Set<Seq<char>>,
    pub referrers: Map<Seq<char>, u16>,
    pub deposits: Map<Seq<char>, u128>,
    pub counts: Map<Seq<char>, u64>,
    pub listing_storage_deposit: u128,
    pub listing_lock_seconds: u64,
    pub mintbase_cut: u16,
    pub fallback_cut: u16,
    pub owner: Seq<char>,
}

impl MarketView {
    pub open spec fn deposit_of(self, a: Seq<char>) -> int {
        bal(self.deposits, a)
    }

    pub open spec fn count_of(self, a: Seq<char>) -> int {
        cnt(self.counts, a)
    }

    /// Every account's deposit covers all of its listings.
    pub open spec fn ledger_ok(self) -> bool {
        forall|a: Seq<char>| #[trigger]
            self.deposit_of(a) >= self.count_of(a) * self.listing_storage_deposit
    }

    /// The deposit of `a` that no listing needs.
    pub open spec fn free_deposit(self, a: Seq<char>) -> int {
        self.deposit_of(a) - self.count_of(a) * self.listing_storage_deposit
    }

    /// After `n` listings of `a` were given up and their deposits paid back.
    pub open spec fn refunded(self, a: Seq<char>, n: int) -> MarketView {
        MarketView {
            deposits: put_bal(
                self.deposits,
                a,
                self.deposit_of(a) - self.listing_storage_deposit * n,
            ),
            counts: put_cnt(self.counts, a, self.count_of(a) - n),
            ..self
        }
    }

    /// Whether `n` listings of `a` can be given up.
    pub open spec fn can_refund(self, a: Seq<char>, n: int) -> bool {
        self.count_of(a) >= n && self.deposit_of(a) >= self.listing_storage_deposit * n
    }

    pub open spec fn is_banned(self, a: Seq<char>) -> bool {
        self.banned.contains(a)
    }

    /// The cut frozen into an offer made through `referrer`: its own cut if
    /// it is a registered referrer, the fallback cut otherwise.
    pub open spec fn cut_for(self, referrer: Option<AccountId>) -> Option<u16> {
        match referrer {
            None => None,
            Some(r) => Some(
                if self.referrers.contains_key(r@) {
                    self.referrers[r@]
                } else {
                    self.fallback_cut
                },
            ),
        }
    }

    pub open spec fn cuts_ok(self) -> bool {
        &&& self.mintbase_cut <= 10_000
        &&& self.fallback_cut <= 10_000
        &&& forall|a: Seq<char>| #[trigger]
            self.referrers.contains_key(a) ==> self.referrers[a] <= 10_000
        &&& forall|k: Seq<char>| #[trigger]
            self.listings.contains_key(k) ==> offer_cut_ok(self.listings[k])
    }

    pub open spec fn with_offer(self, key: Seq<char>, offer: Option<Offer>) -> MarketView {
        MarketView {
            listings: self.listings.insert(key, Listing { current_offer: offer, ..self.listings[key] }),
            ..self
        }
    }
}

pub open spec fn first_some(a: Option<AccountId>, b: Option<AccountId>) -> Option<AccountId> {
    match a {
        Some(x) => Some(x),
        None => b,
    }
}

/// The marketplace for simple sales, in native NEAR or fungible tokens.
pub struct Market {
    /// Listed tokens by lookup key.
    pub listings: StrMap<Listing>,
    /// Accounts that the market does no business with.
    pub banned_accounts: StrSet,
    /// Registered affiliates with their cuts.
    pub referrers: StrMap<u16>,
    /// Storage deposits by account.
    pub storage_deposits_by_account: StrMap<u128>,
    /// Number of listings by account.
    pub listings_count_by_account: StrMap<u64>,
    /// Deposit that backs a single listing.
    pub listing_storage_deposit: u128,
    /// Seconds a listing must stay before it can be withdrawn.
    pub listing_lock_seconds: u64,
    /// Share, in basis points, that the market keeps of an affiliate's cut.
    pub mintbase_cut: u16,
    /// Cut, in basis points, for sales without registered affiliate.
    pub fallback_cut: u16,
    /// Account that may configure the market.
    pub owner: AccountId,
}

impl View for Market {
    type V = MarketView;

    open spec fn view(&self) -> MarketView {
        MarketView {
            listings: self.listings@,
            banned: self.banned_accounts@,
            referrers: self.referrers@,
            deposits: self.storage_deposits_by_account@,
            counts: self.listings_count_by_account@,
            listing_storage_deposit: self.listing_storage_deposit,
            listing_lock_seconds: self.listing_lock_seconds,
            mintbase_cut: self.mintbase_cut,
            fallback_cut: self.fallback_cut,
            owner: self.owner@,
        }
    }
}

impl Market {
    pub open spec fn wf(&self) -> bool {
        &&& self.listings.wf()
        &&& self.banned_accounts.wf()
        &&& self.referrers.wf()
        &&& self.storage_deposits_by_account.wf()
        &&& self.listings_count_by_account.wf()
        &&& self@.cuts_ok()
    }

    /// Every deposit covers its account's listing count, and every count
    /// covers the listings the account holds: a listing's deposit can
    /// always be paid back.
    pub open spec fn solvent(&self) -> bool {
        &&& self@.ledger_ok()
        &&& counts_cover(self@, self.listings.entries@)
    }

    /// A market without listings, owned by `owner`.
    pub fn init(owner: AccountId, mintbase_cut: u16, fallback_cut: u16, listing_lock_seconds: u64) -> (r: Result<Market, MarketError>)
        ensures
            r is Err <==> mintbase_cut > 10_000 || fallback_cut > 10_000,
            r matches Err(e) ==> e == MarketError::CutAboveLimit,
            r matches Ok(m) ==> {
                &&& m.wf()
                &&& m@.listings == Map::<Seq<char>, Listing>::empty()
                &&& m@.banned == Set::<Seq<char>>::empty()
                &&& m@.referrers == Map::<Seq<char>, u16>::empty()
                &&& m@.deposits == Map::<Seq<char>, u128>::empty()
                &&& m@.counts == Map::<Seq<char>, u64>::empty()
                &&& m.listing_storage_deposit == TEN_MILLINEAR
                &&& m.listing_lock_seconds == listing_lock_seconds
                &&& m.mintbase_cut == mintbase_cut
                &&& m.fallback_cut == fallback_cut
                &&& m.owner == owner
                &&& m@.ledger_ok()
                &&& m.solvent()
            },
    {
        if mintbase_cut > 10_000 || fallback_cut > 10_000 {
            return Err(MarketError::CutAboveLimit);
        }
        let m = Market {
            listings: StrMap::new(),
            banned_accounts: StrSet::new(),
            referrers: StrMap::new(),
            storage_deposits_by_account: StrMap::new(),
            listings_count_by_account: StrMap::new(),
            listing_storage_deposit: TEN_MILLINEAR,
            listing_lock_seconds,
            mintbase_cut,
            fallback_cut,
            owner,
        };
        proof {
            assert forall|a: Seq<char>| #[trigger]
                m@.deposit_of(a) >= m@.count_of(a) * m@.listing_storage_deposit by {}
            assert forall|a: Seq<char>| #[trigger] m@.count_of(a) >= owned_in(m.listings.entries@, a) by {}
        }
        Ok(m)
    }

    // ------------------------------------------------------------ ledger

    pub fn get_listings_count(&self, account: &AccountId) -> (r: u64)
        requires
            self.wf(),
        ensures
            r == self@.count_of(account@),
    {
        match self.listings_count_by_account.get(account) {
            Some(n) => *n,
            None => 0,
        }
    }

    fn storage_deposit_by(&self, account: &AccountId) -> (r: u128)
        requires
            self.wf(),
        ensures
            r == self@.deposit_of(account@),
    {
        match self.storage_deposits_by_account.get(account) {
            Some(n) => *n,
            None => 0,
        }
    }

    /// Storage deposit held for `account`.
    pub fn get_storage_deposit(&self, account: &AccountId) -> (r: u128)
        requires
            self.wf(),
        ensures
            r == self@.deposit_of(account@),
    {
        self.storage_deposit_by(account)
    }

    /// The deposit of `account` that no listing needs; `None` where its
    /// listings need more than it holds.
    fn free_storage_deposit(&self, account: &AccountId) -> (r: Option<u128>)
        requires
            self.wf(),
        ensures
            r is Some <==> self@.free_deposit(account@) >= 0,
            r matches Some(x) ==> x == self@.free_deposit(account@),
    {
        let deposit = self.storage_deposit_by(account);
        let count = self.get_listings_count(account);
        match (count as u128).checked_mul(self.listing_storage_deposit) {
            Some(required) => {
                if deposit >= required {
                    Some(deposit - required)
                } else {
                    None
                }
            },
            None => {
                assert(count * self.listing_storage_deposit > deposit);
                None
            },
        }
    }

    fn put_deposit(&mut self, account: &AccountId, v: u128)
        requires
            old(self).wf(),
        ensures
            final(self).listings == old(self).listings,
            final(self).wf(),
            final(self)@ == (MarketView { deposits: put_bal(old(self)@.deposits, account@, v as int), ..old(self)@ }),
    {
        if v == 0 {
            self.storage_deposits_by_account.remove(account);
        } else {
            self.storage_deposits_by_account.insert(account.clone(), v);
        }
    }

    fn put_count(&mut self, account: &AccountId, v: u64)
        requires
            old(self).wf(),
        ensures
            final(self).listings == old(self).listings,
            final(self).wf(),
            final(self)@ == (MarketView { counts: put_cnt(old(self)@.counts, account@, v as int), ..old(self)@ }),
    {
        if v == 0 {
            self.listings_count_by_account.remove(account);
        } else {
            self.listings_count_by_account.insert(account.clone(), v);
        }
    }

    /// One more listing for `account`.
    fn increase_listings_count(&mut self, account: &AccountId)
        requires
            old(self).wf(),
            old(self)@.count_of(account@) < u64::MAX,
        ensures
            final(self).listings == old(self).listings,
            final(self).wf(),
            final(self)@ == (MarketView {
                counts: old(self)@.counts.insert(account@, (old(self)@.count_of(account@) + 1) as u64),
                ..old(self)@
            }),
    {
        let n = self.get_listings_count(account);
        self.listings_count_by_account.insert(account.clone(), n + 1);
    }

    /// `n` listings fewer for `account`.
    fn decrease_listings_count(&mut self, account: &AccountId, n: u64)
        requires
            old(self).wf(),
            old(self)@.count_of(account@) >= n,
        ensures
            final(self).listings == old(self).listings,
            final(self).wf(),
            final(self)@ == (MarketView {
                counts: put_cnt(old(self)@.counts, account@, old(self)@.count_of(account@) - n),
                ..old(self)@
            }),
    {
        let c = self.get_listings_count(account);
        self.put_count(account, c - n);
    }

    /// Takes `refund` out of the deposit of `account` and pays it back.
    fn refund_storage_deposit(&mut self, account: &AccountId, refund: u128) -> (r: Transfer)
        requires
            old(self).wf(),
            old(self)@.deposit_of(account@) >= refund,
        ensures
            final(self).listings == old(self).listings,
            final(self).wf(),
            final(self)@ == (MarketView {
                deposits: put_bal(old(self)@.deposits, account@, old(self)@.deposit_of(account@) - refund),
                ..old(self)@
            }),
            r == (Transfer { receiver_id: *account, amount: refund }),
    {
        let d = self.storage_deposit_by(account);
        self.put_deposit(account, d - refund);
        Transfer { receiver_id: account.clone(), amount: refund }
    }

    /// Gives up `n` listings of `account` and pays their deposits back.
    fn refund_listings(&mut self, account: &AccountId, n: u64) -> (r: Result<Transfer, MarketError>)
        requires
            old(self).wf(),
        ensures
            final(self).listings == old(self).listings,
            final(self).wf(),
            r is Ok <==> old(self)@.can_refund(account@, n as int),
            r matches Err(e) ==> e == MarketError::LedgerShortfall && *final(self) == *old(self),
            r matches Ok(t) ==> {
                &&& final(self)@ == old(self)@.refunded(account@, n as int)
                &&& t == (Transfer {
                    receiver_id: *account,
                    amount: (old(self).listing_storage_deposit * n) as u128,
                })
            },
            old(self)@.ledger_ok() ==> final(self)@.ledger_ok(),
    {
        let c = self.get_listings_count(account);
        let d = self.storage_deposit_by(account);
        let amount = match self.listing_storage_deposit.checked_mul(n as u128) {
            Some(x) => x,
            None => {
                return Err(MarketError::LedgerShortfall);
            },
        };
        if c < n || d < amount {
            return Err(MarketError::LedgerShortfall);
        }
        let ghost v0 = self@;
        self.decrease_listings_count(account, n);
        let t = self.refund_storage_deposit(account, amount);
        proof {
            assert(self@ =~= v0.refunded(account@, n as int));
            lemma_refund_keeps_ledger(v0, account@, n as int);
        }
        Ok(t)
    }

    /// Deposits the attached NEAR for storage of `caller`.
    pub fn deposit_storage(&mut self, caller: &AccountId, attached: u128) -> (r: Result<(), MarketError>)
        requires
            old(self).wf(),
        ensures
            final(self).wf(),
            r is Err <==> old(self)@.is_banned(caller@) || old(self)@.deposit_of(caller@) + attached > u128::MAX,
            r matches Err(e) ==> *final(self) == *old(self) && e == (if old(self)@.is_banned(caller@) {
                MarketError::AccountBanned
            } else {
                MarketError::Overflow
            }),
            r is Ok ==> final(self)@ == (MarketView {
                deposits: old(self)@.deposits.insert(
                    caller@,
                    (old(self)@.deposit_of(caller@) + attached) as u128,
                ),
                ..old(self)@
            }),
            old(self)@.ledger_ok() ==> final(self)@.ledger_ok(),
            old(self).solvent() ==> final(self).solvent(),
    {
        let ghost m0 = *self;
        if self.banned_accounts.contains(caller) {
            return Err(MarketError::AccountBanned);
        }
        let old_deposit = self.storage_deposit_by(caller);
        match old_deposit.checked_add(attached) {
            Some(d) => {
                let ghost v0 = self@;
                self.storage_deposits_by_account.insert(caller.clone(), d);
                proof {
                    if v0.ledger_ok() {
                        assert forall|a: Seq<char>| #[trigger]
                            self@.deposit_of(a) >= self@.count_of(a) * self@.listing_storage_deposit
                            by {
                            assert(v0.deposit_of(a) >= v0.count_of(a) * v0.listing_storage_deposit);
                        }
                    }
                }
                proof {
                    if counts_cover(m0@, m0.listings.entries@) {
                        lemma_cover_same_counts(m0@, self@, self.listings.entries@);
                    }
                }
                Ok(())
            },
            None => Err(MarketError::Overflow),
        }
    }

    /// Pays `caller` the part of its deposit that no listing needs; exactly
    /// one yoctoNEAR must be attached.
    pub fn claim_unused_storage_deposit(&mut self, caller: &AccountId, attached: u128) -> (r: Result<Transfer, MarketError>)
        requires
            old(self).wf(),
        ensures
            final(self).wf(),
            r is Err <==> old(self)@.is_banned(caller@) || attached != 1 || old(self)@.free_deposit(caller@) < 0,
            r matches Err(e) ==> *final(self) == *old(self) && e == (if old(self)@.is_banned(caller@) {
                MarketError::AccountBanned
            } else if attached != 1 {
                MarketError::OneYoctoRequired
            } else {
                MarketError::LedgerShortfall
            }),
            r matches Ok(t) ==> {
                &&& t == (Transfer { receiver_id: *caller, amount: old(self)@.free_deposit(caller@) as u128 })
                &&& final(self)@ == (MarketView {
                    deposits: put_bal(
                        old(self)@.deposits,
                        caller@,
                        old(self)@.count_of(caller@) * old(self).listing_storage_deposit,
                    ),
                    ..old(self)@
                })
            },
            old(self)@.ledger_ok() ==> final(self)@.ledger_ok(),
            old(self).solvent() ==> final(self).solvent(),
    {
        let ghost m0 = *self;
        if self.banned_accounts.contains(caller) {
            return Err(MarketError::AccountBanned);
        }
        if attached != 1 {
            return Err(MarketError::OneYoctoRequired);
        }
        match self.free_storage_deposit(caller) {
            Some(refund) => {
                let ghost v0 = self@;
                let t = self.refund_storage_deposit(caller, refund);
                proof {
                    if v0.ledger_ok() {
                        assert forall|a: Seq<char>| #[trigger]
                            self@.deposit_of(a) >= self@.count_of(a) * self@.listing_storage_deposit
                            by {
                            assert(v0.deposit_of(a) >= v0.count_of(a) * v0.listing_storage_deposit);
                        }
                    }
                }
                proof {
                    if counts_cover(m0@, m0.listings.entries@) {
                        lemma_cover_same_counts(m0@, self@, self.listings.entries@);
                    }
                }
                Ok(t)
            },
            None => Err(MarketError::LedgerShortfall),
        }
    }
}

impl MarketView {
    /// Why resolving the offer on the listing at `key` is turned down, if it
    /// is; `ready` tells whether the payout outcome is known.
    pub open spec fn settle_rejection(self, key: Seq<char>, near: bool, ready: bool) -> Option<MarketError> {
        if !self.listings.contains_key(key) {
            Some(MarketError::ListingNotFound)
        } else if self.listings[key].current_offer is None {
            Some(MarketError::NoOffer)
        } else if (self.listings[key].currency is Near) != near {
            Some(MarketError::CurrencyMismatch)
        } else if !ready {
            None
        } else if !self.can_refund(self.listings[key].nft_owner_id@, 1) {
            Some(MarketError::LedgerShortfall)
        } else {
            None
        }
    }

    /// How an offer ends for a known payout outcome: a failed call is a
    /// failure; a malformed payout, one that spends more than the offer
    /// leaves for it, or one with more than `cap` recipients bans the NFT
    /// contract; any other payout is a sale.
    pub open spec fn settle_kind(self, offer: Offer, result: PayoutResult, cap: int) -> SettlementKind {
        payout_kind(result, offer_remainder(offer), cap)
    }

    /// The market after the offer on the listing at `key` ended as `kind`:
    /// the listing is gone, its deposit paid back, and a misbehaving NFT
    /// contract banned.
    pub open spec fn settled(self, key: Seq<char>, kind: SettlementKind) -> MarketView {
        let l = self.listings[key];
        MarketView {
            listings: self.listings.remove(key),
            banned: if kind == SettlementKind::Banned {
                self.banned.insert(l.nft_contract_id@)
            } else {
                self.banned
            },
            ..self
        }.refunded(l.nft_owner_id@, 1)
    }

    /// The payments that end an offer as `kind`.
    pub open spec fn settle_payments(self, offer: Offer, result: PayoutResult, kind: SettlementKind, near: bool) -> Seq<Transfer> {
        let p = match result {
            PayoutResult::Parsed(p) => p@,
            _ => Seq::empty(),
        };
        let aff = match offer_split(offer).0 {
            Some(x) => x,
            None => 0,
        };
        payments_for(offer, kind, p, aff, near)
    }
}

/// The shares of an offer never exceed it.
pub proof fn lemma_split_bounds(o: Offer)
    requires
        offer_ok(o),
    ensures
        ({
            let (aff, mb) = offer_split(o);
            &&& 0 <= mb
            &&& aff matches Some(x) ==> 0 <= x
            &&& mb + match aff {
                Some(x) => x,
                None => 0,
            } <= o.amount
        }),
        0 <= offer_remainder(o) <= o.amount,
{
    match o.referral_cut {
        Some(c) => {
            lemma_bp_share_bounds(o.amount as int, c as int);
            let total = bp_share(o.amount as int, c as int);
            lemma_bp_share_bounds(total, o.platform_cut as int);
        },
        None => {
            lemma_bp_share_bounds(o.amount as int, o.platform_cut as int);
        },
    }
}

/// The sum of the amounts of `p`; `None` where it leaves `u128`.
pub(crate) fn payout_total(p: &Vec<Transfer>) -> (r: Option<u128>)
    ensures
        r matches Some(x) ==> x == transfers_total(p@),
        r is None ==> transfers_total(p@) > u128::MAX,
{
    let mut acc: u128 = 0;
    let mut i: usize = 0;
    while i < p.len()
        invariant
            i <= p@.len(),
            acc == transfers_total(p@.subrange(0, i as int)),
        decreases p@.len() - i,
    {
        proof {
            assert(p@.subrange(0, i + 1).drop_last() =~= p@.subrange(0, i as int));
        }
        match acc.checked_add(p[i].amount) {
            Some(x) => {
                acc = x;
            },
            None => {
                proof {
                    lemma_transfers_total_prefix(p@, i + 1);
                }
                return None;
            },
        }
        i += 1;
    }
    assert(p@.subrange(0, p@.len() as int) =~= p@);
    Some(acc)
}

impl Market {
    /// The affiliate's and the market's shares of `offer`.
    fn get_affiliate_mintbase_amounts(&self, offer: &Offer) -> (r: (Option<u128>, u128))
        requires
            offer_ok(*offer),
        ensures
            ({
                let (aff, mb) = offer_split(*offer);
                &&& r.1 == mb
                &&& match r.0 {
                    Some(x) => aff == Some(x as int),
                    None => aff is None,
                }
            }),
    {
        proof {
            lemma_split_bounds(*offer);
        }
        match offer.referral_cut {
            Some(cut) => {
                let total = bp_of(offer.amount, cut);
                let mb = bp_of(total, offer.platform_cut);
                (Some(total - mb), mb)
            },
            None => (None, bp_of(offer.amount, offer.platform_cut)),
        }
    }

    /// Removes the listing at `token_key`, pays its deposit back to the
    /// lister and, for a misbehaving NFT contract, bans it.
    fn apply_settlement(&mut self, token_key: &String, listing: &Listing, kind: SettlementKind) -> (r: Result<Transfer, MarketError>)
        requires
            old(self).wf(),
            old(self)@.listings.contains_key(token_key@),
            old(self)@.listings[token_key@] == *listing,
        ensures
            final(self).wf(),
            r is Ok <==> old(self)@.can_refund(listing.nft_owner_id@, 1),
            r matches Err(e) ==> *final(self) == *old(self) && e == MarketError::LedgerShortfall,
            r matches Ok(t) ==> {
                &&& final(self)@ == old(self)@.settled(token_key@, kind)
                &&& t == (Transfer { receiver_id: listing.nft_owner_id, amount: old(self).listing_storage_deposit })
            },
            old(self)@.ledger_ok() ==> final(self)@.ledger_ok(),
            old(self).solvent() ==> r is Ok && final(self).solvent(),
    {
        let ghost v0 = self@;
        let ghost s0 = self.listings.entries@;
        let ghost owner = listing.nft_owner_id@;
        let ghost i = self.listings.index_of(token_key@);
        proof {
            assert(self.listings.has(token_key@));
            assert(self.listings.key_at(i) == token_key@);
            self.listings.lemma_index(i);
            if self.solvent() {
                lemma_owned_holds(s0, i);
                assert(v0.count_of(owner) >= owned_in(s0, owner));
                let c = v0.count_of(owner);
                let p = v0.listing_storage_deposit as int;
                assert(v0.deposit_of(owner) >= c * p);
                assert(c * p >= p) by (nonlinear_arith)
                    requires
                        c >= 1,
                        p >= 0,
                ;
            }
        }
        let t = self.refund_listings(&listing.nft_owner_id, 1)?;
        let ghost v1 = self@;
        self.listings.remove(token_key);
        if kind == SettlementKind::Banned {
            self.banned_accounts.insert(listing.nft_contract_id.clone());
        }
        proof {
            lemma_same_ledger(v1, self@);
            if counts_cover(v0, s0) {
                assert forall|a: Seq<char>| #[trigger] self@.count_of(a) >= owned_in(self.listings.entries@, a) by {
                    lemma_owned_swap_remove(s0, i, a);
                    assert(v0.count_of(a) >= owned_in(s0, a));
                }
            }
        }
        Ok(t)
    }

    /// Resolves the offer on the listing at `token_key` once the NFT
    /// contract's payout computation has an outcome. `near` selects the
    /// native-NEAR rail, whose buyer this market refunds itself; on the
    /// fungible-token rail the unused amount is returned to the token
    /// contract, which refunds the buyer.
    fn settle(&mut self, token_key: &String, result: PayoutResult, near: bool) -> (r: Result<Resolution, MarketError>)
        requires
            old(self).wf(),
        ensures
            final(self).wf(),
            ({
                let rej = old(self)@.settle_rejection(token_key@, near, !(result is NotReady));
                &&& r is Err <==> rej is Some
                &&& r matches Err(e) ==> rej == Some(e) && *final(self) == *old(self)
            }),
            r matches Ok(res) ==> settle_post(*old(self), *final(self), token_key@, result, near, res),
            old(self)@.ledger_ok() ==> final(self)@.ledger_ok(),
            old(self).solvent() ==> final(self).solvent(),
            old(self).solvent() ==> (r matches Err(e) ==> e != MarketError::LedgerShortfall),
    {
        let listing = match self.listings.get(token_key) {
            Some(l) => l.copy(),
            None => {
                return Err(MarketError::ListingNotFound);
            },
        };
        let offer = match &listing.current_offer {
            Some(o) => o.copy(),
            None => {
                return Err(MarketError::NoOffer);
            },
        };
        if listing.currency.is_near() != near {
            return Err(MarketError::CurrencyMismatch);
        }
        if matches!(result, PayoutResult::NotReady) {
            return Ok(Resolution::Retry);
        }
        let ghost v0 = self@;
        proof {
            assert(v0.cuts_ok());
            assert(v0.listings.contains_key(token_key@));
            assert(v0.listings[token_key@] == listing);
            assert(listing.current_offer == Some(offer));
            lemma_split_bounds(offer);
        }
        let cap: u32 = if near {
            MAX_LEN_PAYOUT_NEAR
        } else {
            MAX_LEN_PAYOUT_FT
        };
        let (aff, mb) = self.get_affiliate_mintbase_amounts(&offer);
        let aff_amount: u128 = match aff {
            Some(x) => x,
            None => 0,
        };
        let remainder = offer.amount - mb - aff_amount;
        let (kind, payout, payout_sum) = classify(result, remainder, cap);
        let storage_refund = self.apply_settlement(token_key, &listing, kind)?;
        let (payments, returned, platform_retained) = settlement_payments(
            &offer,
            kind,
            payout,
            payout_sum,
            aff_amount,
            mb,
            remainder,
            near,
        );
        Ok(
            Resolution::Settled(
                Settlement {
                    kind,
                    payments,
                    returned,
                    storage_refund,
                    affiliate_amount: aff,
                    platform_amount: mb,
                    platform_retained,
                },
            ),
        )
    }
}

/// How an offer ends for a known payout outcome, `remainder` being what the
/// offer leaves for the payout.
pub open spec fn payout_kind(result: PayoutResult, remainder: int, cap: int) -> SettlementKind {
    match result {
        PayoutResult::Parsed(p) => {
            if transfers_total(p@) > remainder || p@.len() > cap {
                SettlementKind::Banned
            } else {
                SettlementKind::Sold
            }
        },
        PayoutResult::Malformed => SettlementKind::Banned,
        _ => SettlementKind::Failed,
    }
}

/// Classifies a known payout outcome; a payout that makes a sale is handed
/// back with its total.
fn classify(result: PayoutResult, remainder: u128, cap: u32) -> (r: (SettlementKind, Vec<Transfer>, u128))
    requires
        !(result is NotReady),
    ensures
        r.0 == payout_kind(result, remainder as int, cap as int),
        r.0 == SettlementKind::Sold ==> {
            &&& result matches PayoutResult::Parsed(p) && r.1@ == p@
            &&& r.2 == transfers_total(r.1@)
            &&& r.2 <= remainder
        },
        r.0 != SettlementKind::Sold ==> r.1@.len() == 0,
{
    match result {
        PayoutResult::Parsed(p) => {
            match payout_total(&p) {
                Some(total) => {
                    if total > remainder || p.len() > cap as usize {
                        (SettlementKind::Banned, Vec::new(), 0)
                    } else {
                        (SettlementKind::Sold, p, total)
                    }
                },
                None => (SettlementKind::Banned, Vec::new(), 0),
            }
        },
        PayoutResult::Malformed => (SettlementKind::Banned, Vec::new(), 0),
        _ => (SettlementKind::Failed, Vec::new(), 0),
    }
}

/// The payments that end an offer as `kind`: on a sale the payout and then
/// the affiliate's share `aff`; otherwise the buyer's payment back where it
/// was made in NEAR, and nothing where the token contract refunds it.
pub open spec fn payments_for(offer: Offer, kind: SettlementKind, payout: Seq<Transfer>, aff: int, near: bool) -> Seq<Transfer> {
    if kind == SettlementKind::Sold {
        match offer.referrer_id {
            Some(r) => payout.push(Transfer { receiver_id: r, amount: aff as u128 }),
            None => payout,
        }
    } else if near {
        seq![Transfer { receiver_id: offer.offerer_id, amount: offer.amount }]
    } else {
        Seq::empty()
    }
}

/// Builds the payments that end `offer` as `kind`, the amount returned to a
/// token contract, and what the market keeps of a sale.
fn settlement_payments(
    offer: &Offer,
    kind: SettlementKind,
    payout: Vec<Transfer>,
    payout_sum: u128,
    aff_amount: u128,
    mb: u128,
    remainder: u128,
    near: bool,
) -> (r: (Vec<Transfer>, u128, u128))
    requires
        remainder + mb + aff_amount == offer.amount,
        kind == SettlementKind::Sold ==> payout_sum == transfers_total(payout@) && payout_sum <= remainder,
        kind != SettlementKind::Sold ==> payout@.len() == 0,
    ensures
        r.0@ == payments_for(*offer, kind, payout@, aff_amount as int, near),
        r.1 == (if !near && kind != SettlementKind::Sold { offer.amount } else { 0 }),
        transfers_total(r.0@) <= offer.amount,
        kind == SettlementKind::Sold ==> {
            &&& transfers_total(r.0@) + r.2 == offer.amount
            &&& r.2 >= mb
        },
{
    let mut payments = payout;
    let mut platform_retained: u128 = 0;
    let mut returned: u128 = 0;
    let ghost given = payments@;
    if kind == SettlementKind::Sold {
        let mut paid = payout_sum;
        match &offer.referrer_id {
            Some(referrer) => {
                payments.push(Transfer { receiver_id: referrer.clone(), amount: aff_amount });
                proof {
                    lemma_transfers_total_push(given, Transfer { receiver_id: *referrer, amount: aff_amount });
                }
                paid = payout_sum + aff_amount;
            },
            None => {},
        }
        platform_retained = offer.amount - paid;
    } else if near {
        payments.push(Transfer { receiver_id: offer.offerer_id.clone(), amount: offer.amount });
        proof {
            assert(given =~= Seq::<Transfer>::empty());
            lemma_transfers_total_push(given, Transfer { receiver_id: offer.offerer_id, amount: offer.amount });
            assert(payments@ =~= seq![Transfer { receiver_id: offer.offerer_id, amount: offer.amount }]);
        }
    } else {
        returned = offer.amount;
        assert(payments@ =~= Seq::<Transfer>::empty());
    }
    (payments, returned, platform_retained)
}

impl Market {
    /// Resolves an offer paid in native NEAR once the NFT contract's payout
    /// computation has an outcome.
    ///
    /// - Not ready: the same resolution is to be issued again.
    /// - Failed: the buyer is refunded, the listing removed and the lister's
    ///   deposit paid back.
    /// - Malformed, overspending or too many recipients: as on failure, and
    ///   the NFT contract is banned.
    /// - Otherwise the payout and the affiliate are paid, the market keeps
    ///   the rest, the listing is removed and the deposit paid back.
    pub fn nft_resolve_payout_near(&mut self, token_key: String, result: PayoutResult) -> (r: Result<Resolution, MarketError>)
        requires
            old(self).wf(),
        ensures
            final(self).wf(),
            ({
                let rej = old(self)@.settle_rejection(token_key@, true, !(result is NotReady));
                &&& r is Err <==> rej is Some
                &&& r matches Err(e) ==> rej == Some(e) && *final(self) == *old(self)
            }),
            r matches Ok(res) ==> settle_post(*old(self), *final(self), token_key@, result, true, res),
            old(self)@.ledger_ok() ==> final(self)@.ledger_ok(),
            old(self).solvent() ==> final(self).solvent(),
            old(self).solvent() ==> (r matches Err(e) ==> e != MarketError::LedgerShortfall),
    {
        self.settle(&token_key, result, true)
    }

    /// Resolves an offer paid in fungible tokens, as
    /// [`Market::nft_resolve_payout_near`] does, except that the buyer's
    /// payment is never sent back from here: its amount is returned to the
    /// token contract, which refunds it.
    pub fn nft_resolve_payout_ft(&mut self, token_key: String, result: PayoutResult) -> (r: Result<Resolution, MarketError>)
        requires
            old(self).wf(),
        ensures
            final(self).wf(),
            ({
                let rej = old(self)@.settle_rejection(token_key@, false, !(result is NotReady));
                &&& r is Err <==> rej is Some
                &&& r matches Err(e) ==> rej == Some(e) && *final(self) == *old(self)
            }),
            r matches Ok(res) ==> settle_post(*old(self), *final(self), token_key@, result, false, res),
            old(self)@.ledger_ok() ==> final(self)@.ledger_ok(),
            old(self).solvent() ==> final(self).solvent(),
            old(self).solvent() ==> (r matches Err(e) ==> e != MarketError::LedgerShortfall),
    {
        self.settle(&token_key, result, false)
    }
}

impl MarketView {
    /// Whether `r` is the payout request for offer `o` on listing `l` at
    /// `key`, the token going to `receiver`.
    pub open spec fn is_request(self, r: PayoutRequest, l: Listing, o: Offer, receiver: Seq<char>, key: Seq<char>, near: bool) -> bool {
        let (aff, mb) = offer_split(o);
        &&& r.nft_contract_id == l.nft_contract_id
        &&& r.receiver_id@ == receiver
        &&& r.token_id == l.nft_token_id
        &&& r.approval_id == l.nft_approval_id
        &&& r.balance == offer_remainder(o)
        &&& r.max_len_payout == (if near { MAX_LEN_PAYOUT_NEAR } else { MAX_LEN_PAYOUT_FT })
        &&& r.token_key@ == key
        &&& r.near == near
        &&& r.platform_amount == mb
        &&& match r.affiliate_amount {
            Some(x) => aff == Some(x as int),
            None => aff is None,
        }
    }

    /// The offer that `buyer` makes with `amount` through `referrer`. It
    /// freezes the cuts in force: the referral cut, and the market's share of
    /// it (`mintbase_cut`) or of the whole amount (`fallback_cut`).
    pub open spec fn new_offer(self, buyer: AccountId, amount: u128, referrer: Option<AccountId>) -> Offer {
        Offer {
            offerer_id: buyer,
            amount,
            referrer_id: referrer,
            referral_cut: self.cut_for(referrer),
            platform_cut: self.platform_cut_for(referrer),
        }
    }

    /// The market's share frozen into an offer made through `referrer`.
    pub open spec fn platform_cut_for(self, referrer: Option<AccountId>) -> u16 {
        match referrer {
            Some(_) => self.mintbase_cut,
            None => self.fallback_cut,
        }
    }

    /// Why a purchase with native NEAR is turned down, if it is.
    pub open spec fn buy_rejection(
        self,
        caller: Seq<char>,
        attached: u128,
        key: Seq<char>,
        referrer_id: Option<AccountId>,
        affiliate_id: Option<AccountId>,
    ) -> Option<MarketError> {
        if self.is_banned(caller) {
            Some(MarketError::AccountBanned)
        } else if !self.listings.contains_key(key) {
            Some(MarketError::ListingNotFound)
        } else if referrer_id is Some && affiliate_id is Some {
            Some(MarketError::AmbiguousAffiliate)
        } else if self.listings[key].currency is FtContract {
            Some(MarketError::NotListedForNear)
        } else if attached < self.listings[key].price {
            Some(MarketError::DepositBelowPrice)
        } else if self.listings[key].current_offer is Some {
            Some(MarketError::OfferInProgress)
        } else {
            None
        }
    }

    /// Why a payment of `amount` tokens of `ft` by `sender` for the listing
    /// at `key` is handed back, if it is. A payment with tokens is never
    /// turned down with an error: the token contract expects an answer, and
    /// the unused amount it is told of goes back to the payer.
    pub open spec fn ft_refund_reason(
        self,
        ft: Seq<char>,
        sender: Seq<char>,
        key: Seq<char>,
        amount: u128,
        referrer_id: Option<AccountId>,
        affiliate_id: Option<AccountId>,
    ) -> Option<RefundReason> {
        if self.is_banned(sender) || self.is_banned(ft) {
            Some(RefundReason::AccountBanned)
        } else if !self.listings.contains_key(key) {
            Some(RefundReason::ListingNotFound)
        } else if referrer_id is Some && affiliate_id is Some {
            Some(RefundReason::AmbiguousAffiliate)
        } else {
            let l = self.listings[key];
            match l.currency {
                Currency::Near => Some(RefundReason::ListedForNear),
                Currency::FtContract(c) => {
                    if c@ != ft {
                        Some(RefundReason::WrongFtContract)
                    } else if l.price > amount {
                        Some(RefundReason::BelowPrice)
                    } else if l.current_offer is Some {
                        Some(RefundReason::OfferInProgress)
                    } else {
                        None
                    }
                },
            }
        }
    }
}

impl Market {
    fn check_not_banned(&self, account: &AccountId) -> (r: Result<(), MarketError>)
        ensures
            r is Err <==> self@.is_banned(account@),
            r matches Err(e) ==> e == MarketError::AccountBanned,
    {
        if self.banned_accounts.contains(account) {
            Err(MarketError::AccountBanned)
        } else {
            Ok(())
        }
    }

    fn check_owner(&self, caller: &AccountId) -> (r: Result<(), MarketError>)
        ensures
            r is Err <==> caller@ != self.owner@,
            r matches Err(e) ==> e == MarketError::NotOwner,
    {
        if *caller == self.owner {
            Ok(())
        } else {
            Err(MarketError::NotOwner)
        }
    }

    /// The cut of an offer made through `referrer`.
    fn cut_for(&self, referrer: &Option<AccountId>) -> (r: Option<u16>)
        requires
            self.wf(),
        ensures
            r == self@.cut_for(*referrer),
            r matches Some(c) ==> c <= 10_000,
    {
        match referrer {
            None => None,
            Some(account) => match self.referrers.get(account) {
                Some(c) => Some(*c),
                None => Some(self.fallback_cut),
            },
        }
    }

    /// The payout request for the offer on `listing`, which sits at
    /// `token_key`.
    fn execute_transfer(&self, listing: &Listing, offer: &Offer, receiver_id: AccountId, token_key: String) -> (r: PayoutRequest)
        requires
            self.wf(),
            offer_ok(*offer),
        ensures
            self@.is_request(r, *listing, *offer, receiver_id@, token_key@, listing.currency is Near),
    {
        proof {
            lemma_split_bounds(*offer);
        }
        let (aff, mb) = self.get_affiliate_mintbase_amounts(offer);
        let aff_amount: u128 = match aff {
            Some(x) => x,
            None => 0,
        };
        let near = listing.currency.is_near();
        PayoutRequest {
            nft_contract_id: listing.nft_contract_id.clone(),
            receiver_id,
            token_id: listing.nft_token_id.clone(),
            approval_id: listing.nft_approval_id,
            balance: offer.amount - mb - aff_amount,
            max_len_payout: if near {
                MAX_LEN_PAYOUT_NEAR
            } else {
                MAX_LEN_PAYOUT_FT
            },
            token_key,
            near,
            affiliate_amount: aff,
            platform_amount: mb,
        }
    }

    /// Locks the listing at `key` with `offer`.
    fn lock_with_offer(&mut self, key: &String, listing: Listing, offer: Offer) -> (r: Listing)
        requires
            old(self).wf(),
            old(self)@.listings.contains_key(key@),
            old(self)@.listings[key@] == listing,
            offer_ok(offer),
        ensures
            final(self).wf(),
            final(self)@ == old(self)@.with_offer(key@, Some(offer)),
            r == (Listing { current_offer: Some(offer), ..listing }),
            old(self)@.ledger_ok() ==> final(self)@.ledger_ok(),
            old(self).solvent() ==> final(self).solvent(),
    {
        let ghost old_listing = listing;
        let mut listing = listing;
        listing.current_offer = Some(offer);
        let ghost v0 = self@;
        let ghost s0 = self.listings.entries@;
        let ghost i = self.listings.index_of(key@);
        proof {
            assert(self.listings.has(key@));
            assert(self.listings.key_at(i) == key@);
            self.listings.lemma_index(i);
        }
        self.listings.insert(key.clone(), listing.copy());
        proof {
            lemma_same_ledger(v0, self@);
            lemma_cuts_after_insert(v0, key@, listing);
            if counts_cover(v0, s0) {
                assert forall|a: Seq<char>| #[trigger] self@.count_of(a) >= owned_in(self.listings.entries@, a) by {
                    lemma_owned_update(s0, i, (*key, listing), a);
                    assert(v0.count_of(a) >= owned_in(s0, a));
                }
            }
        }
        listing
    }

    /// Buys the token listed at `nft_contract_id` / `token_id` with the
    /// `attached` NEAR of `caller`, possibly through an affiliate (named
    /// either way, not both). The listing is locked with the offer and the
    /// payout request for the NFT contract is returned.
    pub fn buy(
        &mut self,
        caller: &AccountId,
        attached: u128,
        nft_contract_id: AccountId,
        token_id: String,
        referrer_id: Option<AccountId>,
        affiliate_id: Option<AccountId>,
    ) -> (r: Result<PayoutRequest, MarketError>)
        requires
            old(self).wf(),
        ensures
            final(self).wf(),
            ({
                let key = token_key_of(nft_contract_id@, token_id@);
                let rej = old(self)@.buy_rejection(caller@, attached, key, referrer_id, affiliate_id);
                let offer = old(self)@.new_offer(*caller, attached, first_some(referrer_id, affiliate_id));
                &&& r is Err <==> rej is Some
                &&& r matches Err(e) ==> rej == Some(e) && *final(self) == *old(self)
                &&& r matches Ok(req) ==> {
                    &&& final(self)@ == old(self)@.with_offer(key, Some(offer))
                    &&& old(self)@.is_request(req, old(self)@.listings[key], offer, caller@, key, true)
                }
            }),
            old(self)@.ledger_ok() ==> final(self)@.ledger_ok(),
            old(self).solvent() ==> final(self).solvent(),
    {
        self.check_not_banned(caller)?;
        let token_key = make_token_key(&nft_contract_id, &token_id);
        let listing = match self.listings.get(&token_key) {
            None => {
                return Err(MarketError::ListingNotFound);
            },
            Some(l) => l.copy(),
        };
        if referrer_id.is_some() && affiliate_id.is_some() {
            return Err(MarketError::AmbiguousAffiliate);
        }
        let referrer_id = match referrer_id {
            Some(x) => Some(x),
            None => affiliate_id,
        };
        let referral_cut = self.cut_for(&referrer_id);
        if !listing.currency.is_near() {
            return Err(MarketError::NotListedForNear);
        }
        if attached < listing.price {
            return Err(MarketError::DepositBelowPrice);
        }
        if listing.current_offer.is_some() {
            return Err(MarketError::OfferInProgress);
        }
        let platform_cut = if referrer_id.is_some() {
            self.mintbase_cut
        } else {
            self.fallback_cut
        };
        let offer = Offer { offerer_id: caller.clone(), amount: attached, referrer_id, referral_cut, platform_cut };
        self.lock_with_offer(&token_key, listing.copy(), offer.copy());
        Ok(self.execute_transfer(&listing, &offer, caller.clone(), token_key))
    }

    /// Takes a payment of `amount` tokens of the calling token contract
    /// `ft_contract_id`, made by `sender_id` to buy the token that `msg`
    /// names. A payment that cannot buy the listing (a banned payer or
    /// token contract, no such listing, both a referrer and an affiliate
    /// named, listed for NEAR or another token, below the price, or locked
    /// by another offer) is handed back whole; otherwise the listing is
    /// locked and the payout request for the NFT contract is returned.
    pub fn ft_on_transfer(
        &mut self,
        ft_contract_id: &AccountId,
        sender_id: AccountId,
        amount: u128,
        msg: BuyWithFtMessage,
    ) -> (r: FtPurchase)
        requires
            old(self).wf(),
        ensures
            final(self).wf(),
            ({
                let key = token_key_of(msg.nft_contract_id@, msg.token_id@);
                let reason = old(self)@.ft_refund_reason(
                    ft_contract_id@,
                    sender_id@,
                    key,
                    amount,
                    msg.referrer_id,
                    msg.affiliate_id,
                );
                let offer = old(self)@.new_offer(sender_id, amount, first_some(msg.referrer_id, msg.affiliate_id));
                &&& reason is Some <==> r is Refund
                &&& r matches FtPurchase::Refund { amount: a, reason: why } ==> {
                    &&& reason == Some(why)
                    &&& a == amount
                    &&& *final(self) == *old(self)
                }
                &&& r matches FtPurchase::Started(req) ==> {
                    &&& final(self)@ == old(self)@.with_offer(key, Some(offer))
                    &&& old(self)@.is_request(req, old(self)@.listings[key], offer, sender_id@, key, false)
                }
            }),
            old(self)@.ledger_ok() ==> final(self)@.ledger_ok(),
            old(self).solvent() ==> final(self).solvent(),
    {
        if self.banned_accounts.contains(&sender_id) || self.banned_accounts.contains(ft_contract_id) {
            return FtPurchase::Refund { amount, reason: RefundReason::AccountBanned };
        }
        let token_key = make_token_key(&msg.nft_contract_id, &msg.token_id);
        let listing = match self.listings.get(&token_key) {
            None => {
                return FtPurchase::Refund { amount, reason: RefundReason::ListingNotFound };
            },
            Some(l) => l.copy(),
        };
        if msg.referrer_id.is_some() && msg.affiliate_id.is_some() {
            return FtPurchase::Refund { amount, reason: RefundReason::AmbiguousAffiliate };
        }
        let referrer_id = match msg.referrer_id {
            Some(x) => Some(x),
            None => msg.affiliate_id,
        };
        let referral_cut = self.cut_for(&referrer_id);
        match &listing.currency {
            Currency::Near => {
                return FtPurchase::Refund { amount, reason: RefundReason::ListedForNear };
            },
            Currency::FtContract(requested) => {
                if *requested != *ft_contract_id {
                    return FtPurchase::Refund { amount, reason: RefundReason::WrongFtContract };
                }
            },
        }
        if listing.price > amount {
            return FtPurchase::Refund { amount, reason: RefundReason::BelowPrice };
        }
        if listing.current_offer.is_some() {
            return FtPurchase::Refund { amount, reason: RefundReason::OfferInProgress };
        }
        let platform_cut = if referrer_id.is_some() {
            self.mintbase_cut
        } else {
            self.fallback_cut
        };
        let offer = Offer { offerer_id: sender_id.clone(), amount, referrer_id, referral_cut, platform_cut };
        self.lock_with_offer(&token_key, listing.copy(), offer.copy());
        FtPurchase::Started(self.execute_transfer(&listing, &offer, sender_id, token_key))
    }

    /// Clears a stuck offer on the listing of `token_id` on
    /// `nft_contract_id`, without moving any funds. Only the owner may do
    /// this.
    pub fn remove_offer(&mut self, caller: &AccountId, nft_contract_id: AccountId, token_id: String) -> (r: Result<(), MarketError>)
        requires
            old(self).wf(),
        ensures
            final(self).wf(),
            ({
                let key = token_key_of(nft_contract_id@, token_id@);
                let rej = if caller@ != old(self).owner@ {
                    Some(MarketError::NotOwner)
                } else if !old(self)@.listings.contains_key(key) {
                    Some(MarketError::ListingNotFound)
                } else if old(self)@.listings[key].current_offer is None {
                    Some(MarketError::NoOffer)
                } else {
                    None
                };
                &&& r is Err <==> rej is Some
                &&& r matches Err(e) ==> rej == Some(e) && *final(self) == *old(self)
                &&& r is Ok ==> final(self)@ == old(self)@.with_offer(key, None)
            }),
            old(self)@.ledger_ok() ==> final(self)@.ledger_ok(),
            old(self).solvent() ==> final(self).solvent(),
    {
        self.check_owner(caller)?;
        let token_key = make_token_key(&nft_contract_id, &token_id);
        let mut listing = match self.listings.get(&token_key) {
            None => {
                return Err(MarketError::ListingNotFound);
            },
            Some(l) => l.copy(),
        };
        if listing.current_offer.is_none() {
            return Err(MarketError::NoOffer);
        }
        let ghost before = self@.listings[token_key@];
        listing.current_offer = None;
        let ghost v0 = self@;
        let ghost s0 = self.listings.entries@;
        let ghost i = self.listings.index_of(token_key@);
        let ghost kx = token_key;
        let ghost lx = listing;
        proof {
            assert(self.listings.has(token_key@));
            assert(self.listings.key_at(i) == token_key@);
            self.listings.lemma_index(i);
        }
        self.listings.insert(token_key, listing);
        proof {
            lemma_same_ledger(v0, self@);
            lemma_cuts_after_insert(v0, token_key_of(nft_contract_id@, token_id@), self@.listings[token_key_of(nft_contract_id@, token_id@)]);
            if counts_cover(v0, s0) {
                assert forall|a: Seq<char>| #[trigger] self@.count_of(a) >= owned_in(self.listings.entries@, a) by {
                    lemma_owned_update(s0, i, (kx, lx), a);
                    assert(v0.count_of(a) >= owned_in(s0, a));
                }
            }
        }
        Ok(())
    }
}

impl MarketView {
    /// Why listing `token_id` of `contract` for `owner` is turned down, if
    /// it is.
    pub open spec fn approve_rejection(self, contract: Seq<char>, token_id: Seq<char>, owner: Seq<char>, ft: Option<AccountId>) -> Option<MarketError> {
        let key = token_key_of(contract, token_id);
        if self.is_banned(owner) || self.is_banned(contract) || (ft matches Some(f) && self.is_banned(f@)) {
            Some(MarketError::AccountBanned)
        } else if encode_utf8(token_id).len() as usize > MAX_TOKEN_ID_BYTES {
            Some(MarketError::TokenIdTooLong)
        } else if self.free_deposit(owner) < self.listing_storage_deposit {
            Some(MarketError::StorageNotCovered)
        } else if self.count_of(owner) >= u64::MAX {
            Some(MarketError::Overflow)
        } else if self.listings.contains_key(key) && self.listings[key].current_offer is Some {
            Some(MarketError::OfferInProgress)
        } else {
            None
        }
    }
}

impl Market {
    /// Lists a token that its NFT contract `nft_contract_id` approved this
    /// market for, at block time `now`. The owner, the NFT contract and a
    /// requested token contract must not be banned, the token ID must fit in
    /// 128 bytes, and the owner's free deposit must cover one more listing.
    /// A listing that the token had is replaced, unless an offer executes on
    /// it, and is returned.
    pub fn nft_on_approve(
        &mut self,
        nft_contract_id: &AccountId,
        token_id: String,
        owner_id: AccountId,
        approval_id: u64,
        msg: CreateListingMsg,
        now: u64,
    ) -> (r: Result<Option<Listing>, MarketError>)
        requires
            old(self).wf(),
        ensures
            final(self).wf(),
            ({
                let key = token_key_of(nft_contract_id@, token_id@);
                let rej = old(self)@.approve_rejection(nft_contract_id@, token_id@, owner_id@, msg.ft_contract);
                let listing = Listing {
                    nft_token_id: token_id,
                    nft_approval_id: approval_id,
                    nft_owner_id: owner_id,
                    nft_contract_id: *nft_contract_id,
                    price: msg.price,
                    currency: match msg.ft_contract {
                        None => Currency::Near,
                        Some(acc) => Currency::FtContract(acc),
                    },
                    created_at: now,
                    current_offer: None,
                };
                &&& r is Err <==> rej is Some
                &&& r matches Err(e) ==> rej == Some(e) && *final(self) == *old(self)
                &&& r matches Ok(replaced) ==> {
                    &&& final(self)@ == (MarketView {
                        listings: old(self)@.listings.insert(key, listing),
                        counts: old(self)@.counts.insert(owner_id@, (old(self)@.count_of(owner_id@) + 1) as u64),
                        ..old(self)@
                    })
                    &&& replaced == (if old(self)@.listings.contains_key(key) {
                        Some(old(self)@.listings[key])
                    } else {
                        None
                    })
                }
            }),
            old(self)@.ledger_ok() ==> final(self)@.ledger_ok(),
            old(self).solvent() ==> final(self).solvent(),
    {
        let listing = Listing::new(token_id, approval_id, owner_id, nft_contract_id.clone(), msg, now);
        self.check_not_banned(&listing.nft_owner_id)?;
        self.check_not_banned(&listing.nft_contract_id)?;
        if let Currency::FtContract(ft_contract_id) = &listing.currency {
            self.check_not_banned(ft_contract_id)?;
        }
        if listing.nft_token_id.as_str().len() > MAX_TOKEN_ID_BYTES {
            return Err(MarketError::TokenIdTooLong);
        }
        match self.free_storage_deposit(&listing.nft_owner_id) {
            Some(free) => {
                if free < self.listing_storage_deposit {
                    return Err(MarketError::StorageNotCovered);
                }
            },
            None => {
                return Err(MarketError::StorageNotCovered);
            },
        }
        if self.get_listings_count(&listing.nft_owner_id) == u64::MAX {
            return Err(MarketError::Overflow);
        }
        let token_key = listing.token_key();
        let replaced = match self.listings.get(&token_key) {
            Some(old_listing) => {
                if old_listing.current_offer.is_some() {
                    return Err(MarketError::OfferInProgress);
                }
                Some(old_listing.copy())
            },
            None => None,
        };
        let ghost v0 = self@;
        let ghost owner = listing.nft_owner_id@;
        self.increase_listings_count(&listing.nft_owner_id);
        let ghost v1 = self@;
        let ghost s0 = self.listings.entries@;
        let ghost had = self.listings@.contains_key(token_key@);
        let ghost i = self.listings.index_of(token_key@);
        let ghost kx = token_key;
        let ghost lx = listing;
        self.listings.insert(token_key, listing);
        proof {
            if counts_cover(v0, s0) {
                assert forall|a: Seq<char>| #[trigger] self@.count_of(a) >= owned_in(self.listings.entries@, a) by {
                    assert(v0.count_of(a) >= owned_in(s0, a));
                    if had {
                        assert(0 <= i < s0.len()) by {
                            assert(v1.listings.contains_key(kx@));
                        }
                        lemma_owned_update(s0, i, (kx, lx), a);
                    } else {
                        lemma_owned_push(s0, (kx, lx), a);
                    }
                }
            }
            lemma_cuts_after_insert(v1, token_key@, self@.listings[token_key@]);
            lemma_same_ledger(v1, self@);
            if v0.ledger_ok() {
                assert forall|a: Seq<char>| #[trigger] v1.deposit_of(a) >= v1.count_of(a) * v1.listing_storage_deposit by {
                    assert(v0.deposit_of(a) >= v0.count_of(a) * v0.listing_storage_deposit);
                    if a == owner {
                        let p = v0.listing_storage_deposit as int;
                        let c = v0.count_of(a);
                        assert((c + 1) * p == c * p + p) by (nonlinear_arith);
                    }
                }
            }
        }
        Ok(replaced)
    }
}

impl Market {
    /// Hands the market to `new_owner`. Only the owner may do this.
    pub fn set_owner(&mut self, caller: &AccountId, new_owner: AccountId) -> (r: Result<(), MarketError>)
        requires
            old(self).wf(),
        ensures
            final(self).wf(),
            r is Err <==> caller@ != old(self).owner@,
            r matches Err(e) ==> e == MarketError::NotOwner && *final(self) == *old(self),
            r is Ok ==> final(self)@ == (MarketView { owner: new_owner@, ..old(self)@ }) && final(self).owner == new_owner,
            old(self)@.ledger_ok() ==> final(self)@.ledger_ok(),
            old(self).solvent() ==> final(self).solvent(),
    {
        let ghost m0 = *self;
        self.check_owner(caller)?;
        let ghost v0 = self@;
        self.owner = new_owner;
        proof {
            lemma_same_ledger(v0, self@);
        }
        proof {
            if counts_cover(m0@, m0.listings.entries@) {
                lemma_cover_same_counts(m0@, self@, self.listings.entries@);
            }
        }
        Ok(())
    }

    pub fn get_owner(&self) -> (r: AccountId)
        ensures
            r == self.owner,
    {
        self.owner.clone()
    }

    /// Sets the share of an affiliate's cut that the market keeps. Only the
    /// owner may do this.
    pub fn set_mintbase_cut(&mut self, caller: &AccountId, new_cut: u16) -> (r: Result<(), MarketError>)
        requires
            old(self).wf(),
        ensures
            final(self).wf(),
            r is Err <==> caller@ != old(self).owner@ || new_cut > 10_000,
            r matches Err(e) ==> *final(self) == *old(self) && e == (if caller@ != old(self).owner@ {
                MarketError::NotOwner
            } else {
                MarketError::CutAboveLimit
            }),
            r is Ok ==> final(self)@ == (MarketView { mintbase_cut: new_cut, ..old(self)@ }),
            old(self)@.ledger_ok() ==> final(self)@.ledger_ok(),
            old(self).solvent() ==> final(self).solvent(),
    {
        let ghost m0 = *self;
        self.check_owner(caller)?;
        if new_cut > 10_000 {
            return Err(MarketError::CutAboveLimit);
        }
        let ghost v0 = self@;
        self.mintbase_cut = new_cut;
        proof {
            lemma_same_ledger(v0, self@);
        }
        proof {
            if counts_cover(m0@, m0.listings.entries@) {
                lemma_cover_same_counts(m0@, self@, self.listings.entries@);
            }
        }
        Ok(())
    }

    pub fn get_mintbase_cut(&self) -> (r: u16)
        ensures
            r == self.mintbase_cut,
    {
        self.mintbase_cut
    }

    /// Sets the cut for sales without registered affiliate. Offers already
    /// made keep the cuts frozen into them. Only the owner may do this.
    pub fn set_fallback_cut(&mut self, caller: &AccountId, new_cut: u16) -> (r: Result<(), MarketError>)
        requires
            old(self).wf(),
        ensures
            final(self).wf(),
            r is Err <==> caller@ != old(self).owner@ || new_cut > 10_000,
            r matches Err(e) ==> *final(self) == *old(self) && e == (if caller@ != old(self).owner@ {
                MarketError::NotOwner
            } else {
                MarketError::CutAboveLimit
            }),
            r is Ok ==> final(self)@ == (MarketView { fallback_cut: new_cut, ..old(self)@ }),
            old(self)@.ledger_ok() ==> final(self)@.ledger_ok(),
            old(self).solvent() ==> final(self).solvent(),
    {
        let ghost m0 = *self;
        self.check_owner(caller)?;
        if new_cut > 10_000 {
            return Err(MarketError::CutAboveLimit);
        }
        let ghost v0 = self@;
        self.fallback_cut = new_cut;
        proof {
            lemma_same_ledger(v0, self@);
        }
        proof {
            if counts_cover(m0@, m0.listings.entries@) {
                lemma_cover_same_counts(m0@, self@, self.listings.entries@);
            }
        }
        Ok(())
    }

    pub fn get_fallback_cut(&self) -> (r: u16)
        ensures
            r == self.fallback_cut,
    {
        self.fallback_cut
    }

    /// Sets how long a listing stays before it can be withdrawn. Only the
    /// owner may do this.
    pub fn set_listing_lock_seconds(&mut self, caller: &AccountId, secs: u64) -> (r: Result<(), MarketError>)
        requires
            old(self).wf(),
        ensures
            final(self).wf(),
            r is Err <==> caller@ != old(self).owner@,
            r matches Err(e) ==> e == MarketError::NotOwner && *final(self) == *old(self),
            r is Ok ==> final(self)@ == (MarketView { listing_lock_seconds: secs, ..old(self)@ }),
            old(self)@.ledger_ok() ==> final(self)@.ledger_ok(),
            old(self).solvent() ==> final(self).solvent(),
    {
        let ghost m0 = *self;
        self.check_owner(caller)?;
        let ghost v0 = self@;
        self.listing_lock_seconds = secs;
        proof {
            lemma_same_ledger(v0, self@);
        }
        proof {
            if counts_cover(m0@, m0.listings.entries@) {
                lemma_cover_same_counts(m0@, self@, self.listings.entries@);
            }
        }
        Ok(())
    }

    pub fn get_listing_lock_seconds(&self) -> (r: u64)
        ensures
            r == self.listing_lock_seconds,
    {
        self.listing_lock_seconds
    }

    /// Whether every account's deposit covers its listings at `per` a
    /// listing.
    fn deposits_cover(&self, per: u128) -> (r: bool)
        requires
            self.wf(),
        ensures
            r == (MarketView { listing_storage_deposit: per, ..self@ }).ledger_ok(),
    {
        let ghost w = MarketView { listing_storage_deposit: per, ..self@ };
        let mut i: usize = 0;
        while i < self.listings_count_by_account.entries.len()
            invariant
                self.wf(),
                w == (MarketView { listing_storage_deposit: per, ..self@ }),
                i <= self.listings_count_by_account.entries@.len(),
                forall|j: int| 0 <= j < i ==> w.deposit_of(#[trigger] self.listings_count_by_account.key_at(j))
                    >= self.listings_count_by_account.entries@[j].1 * per,
            decreases self.listings_count_by_account.entries@.len() - i,
        {
            let entry = &self.listings_count_by_account.entries[i];
            let d = self.storage_deposit_by(&entry.0);
            proof {
                self.listings_count_by_account.lemma_index(i as int);
            }
            let ghost a = self.listings_count_by_account.key_at(i as int);
            match (entry.1 as u128).checked_mul(per) {
                Some(x) => {
                    if d < x {
                        assert(!(w.deposit_of(a) >= w.count_of(a) * w.listing_storage_deposit));
                        return false;
                    }
                },
                None => {
                    assert(!(w.deposit_of(a) >= w.count_of(a) * w.listing_storage_deposit));
                    return false;
                },
            }
            i += 1;
        }
        proof {
            assert forall|a: Seq<char>| #[trigger] w.deposit_of(a) >= w.count_of(a) * w.listing_storage_deposit by {
                if self.listings_count_by_account@.contains_key(a) {
                    let j = self.listings_count_by_account.index_of(a);
                    assert(self.listings_count_by_account.key_at(j) == a);
                    self.listings_count_by_account.lemma_index(j);
                    assert(0 <= j < self.listings_count_by_account.entries@.len());
                    assert(w.deposit_of(self.listings_count_by_account.key_at(j)) >= self.listings_count_by_account.entries@[j].1 * per);
                    assert(w.count_of(a) == self.listings_count_by_account.entries@[j].1);
                    assert(w.listing_storage_deposit == per);
                } else {
                    let c = w.count_of(a);
                    let q = w.listing_storage_deposit as int;
                    assert(c == 0);
                    assert(c * q == 0) by (nonlinear_arith)
                        requires
                            c == 0,
                    ;
                }
            }
        }
        true
    }

    /// Sets the deposit that backs each listing. Only the owner may do
    /// this, and a deposit that some account's deposits would no longer
    /// cover for its listings is turned down.
    pub fn set_listing_storage_deposit(&mut self, caller: &AccountId, deposit: u128) -> (r: Result<(), MarketError>)
        requires
            old(self).wf(),
        ensures
            final(self).wf(),
            ({
                let covered = (MarketView { listing_storage_deposit: deposit, ..old(self)@ }).ledger_ok();
                &&& r is Err <==> caller@ != old(self).owner@ || !covered
                &&& r matches Err(e) ==> *final(self) == *old(self) && e == (if caller@ != old(self).owner@ {
                    MarketError::NotOwner
                } else {
                    MarketError::StorageNotCovered
                })
            }),
            r is Ok ==> final(self)@ == (MarketView { listing_storage_deposit: deposit, ..old(self)@ }),
            r is Ok ==> final(self)@.ledger_ok(),
            old(self)@.ledger_ok() ==> final(self)@.ledger_ok(),
            old(self).solvent() ==> final(self).solvent(),
    {
        let ghost m0 = *self;
        self.check_owner(caller)?;
        if !self.deposits_cover(deposit) {
            return Err(MarketError::StorageNotCovered);
        }
        self.listing_storage_deposit = deposit;
        proof {
            if counts_cover(m0@, m0.listings.entries@) {
                lemma_cover_same_counts(m0@, self@, self.listings.entries@);
            }
        }
        Ok(())
    }

    pub fn get_listing_storage_deposit(&self) -> (r: u128)
        ensures
            r == self.listing_storage_deposit,
    {
        self.listing_storage_deposit
    }

    /// Bans `account_id` from the market. Banning a banned account changes
    /// nothing. Only the owner may do this.
    pub fn ban(&mut self, caller: &AccountId, account_id: AccountId) -> (r: Result<(), MarketError>)
        requires
            old(self).wf(),
        ensures
            final(self).wf(),
            r is Err <==> caller@ != old(self).owner@,
            r matches Err(e) ==> e == MarketError::NotOwner && *final(self) == *old(self),
            r is Ok ==> final(self)@ == (MarketView { banned: old(self)@.banned.insert(account_id@), ..old(self)@ }),
            r is Ok && old(self)@.is_banned(account_id@) ==> *final(self) == *old(self),
            old(self)@.ledger_ok() ==> final(self)@.ledger_ok(),
            old(self).solvent() ==> final(self).solvent(),
    {
        let ghost m0 = *self;
        self.check_owner(caller)?;
        let ghost v0 = self@;
        self.banned_accounts.insert(account_id);
        proof {
            lemma_same_ledger(v0, self@);
        }
        proof {
            if counts_cover(m0@, m0.listings.entries@) {
                lemma_cover_same_counts(m0@, self@, self.listings.entries@);
            }
        }
        Ok(())
    }

    /// Lifts the ban on `account_id`. Only the owner may do this.
    pub fn unban(&mut self, caller: &AccountId, account_id: AccountId) -> (r: Result<(), MarketError>)
        requires
            old(self).wf(),
        ensures
            final(self).wf(),
            r is Err <==> caller@ != old(self).owner@,
            r matches Err(e) ==> e == MarketError::NotOwner && *final(self) == *old(self),
            r is Ok ==> final(self)@ == (MarketView { banned: old(self)@.banned.remove(account_id@), ..old(self)@ }),
            old(self)@.ledger_ok() ==> final(self)@.ledger_ok(),
            old(self).solvent() ==> final(self).solvent(),
    {
        let ghost m0 = *self;
        self.check_owner(caller)?;
        let ghost v0 = self@;
        self.banned_accounts.remove(&account_id);
        proof {
            lemma_same_ledger(v0, self@);
        }
        proof {
            if counts_cover(m0@, m0.listings.entries@) {
                lemma_cover_same_counts(m0@, self@, self.listings.entries@);
            }
        }
        Ok(())
    }

    /// The banned accounts, in stored order.
    pub fn banned_accounts(&self) -> (r: Vec<AccountId>)
        ensures
            r@ == self.banned_accounts.items@,
    {
        self.banned_accounts.to_vec()
    }

    /// Registers `account_id` as affiliate with its own `cut`. Only the
    /// owner may do this.
    pub fn add_referrer(&mut self, caller: &AccountId, account_id: AccountId, cut: u16) -> (r: Result<(), MarketError>)
        requires
            old(self).wf(),
        ensures
            final(self).wf(),
            r is Err <==> caller@ != old(self).owner@ || cut > 10_000,
            r matches Err(e) ==> *final(self) == *old(self) && e == (if caller@ != old(self).owner@ {
                MarketError::NotOwner
            } else {
                MarketError::CutAboveLimit
            }),
            r is Ok ==> final(self)@ == (MarketView { referrers: old(self)@.referrers.insert(account_id@, cut), ..old(self)@ }),
            old(self)@.ledger_ok() ==> final(self)@.ledger_ok(),
            old(self).solvent() ==> final(self).solvent(),
    {
        let ghost m0 = *self;
        self.check_owner(caller)?;
        if cut > 10_000 {
            return Err(MarketError::CutAboveLimit);
        }
        let ghost v0 = self@;
        self.referrers.insert(account_id, cut);
        proof {
            lemma_same_ledger(v0, self@);
            assert forall|a: Seq<char>| #[trigger] self@.referrers.contains_key(a) implies self@.referrers[a] <= 10_000 by {
                if v0.referrers.contains_key(a) {
                    assert(v0.referrers[a] <= 10_000);
                }
            }
        }
        proof {
            if counts_cover(m0@, m0.listings.entries@) {
                lemma_cover_same_counts(m0@, self@, self.listings.entries@);
            }
        }
        Ok(())
    }

    /// Unregisters the affiliate `account_id`. Only the owner may do this.
    pub fn del_referrer(&mut self, caller: &AccountId, account_id: AccountId) -> (r: Result<(), MarketError>)
        requires
            old(self).wf(),
        ensures
            final(self).wf(),
            r is Err <==> caller@ != old(self).owner@,
            r matches Err(e) ==> e == MarketError::NotOwner && *final(self) == *old(self),
            r is Ok ==> final(self)@ == (MarketView { referrers: old(self)@.referrers.remove(account_id@), ..old(self)@ }),
            old(self)@.ledger_ok() ==> final(self)@.ledger_ok(),
            old(self).solvent() ==> final(self).solvent(),
    {
        let ghost m0 = *self;
        self.check_owner(caller)?;
        let ghost v0 = self@;
        self.referrers.remove(&account_id);
        proof {
            lemma_same_ledger(v0, self@);
            assert forall|a: Seq<char>| #[trigger] self@.referrers.contains_key(a) implies self@.referrers[a] <= 10_000 by {
                assert(v0.referrers.contains_key(a));
                assert(v0.referrers[a] <= 10_000);
            }
        }
        proof {
            if counts_cover(m0@, m0.listings.entries@) {
                lemma_cover_same_counts(m0@, self@, self.listings.entries@);
            }
        }
        Ok(())
    }

    /// The registered affiliates with their cuts, in stored order.
    pub fn referrers(&self) -> (r: Vec<(AccountId, u16)>)
        ensures
            r@ == self.referrers.entries@,
    {
        let mut r: Vec<(AccountId, u16)> = Vec::new();
        let mut i: usize = 0;
        while i < self.referrers.entries.len()
            invariant
                i <= self.referrers.entries@.len(),
                r@ == self.referrers.entries@.subrange(0, i as int),
            decreases self.referrers.entries@.len() - i,
        {
            let e = &self.referrers.entries[i];
            r.push((e.0.clone(), e.1));
            assert(r@ =~= self.referrers.entries@.subrange(0, i + 1));
            i += 1;
        }
        assert(r@ =~= self.referrers.entries@);
        r
    }

    /// The listing at `token_key`, if there is one.
    pub fn get_listing_internal(&self, token_key: &String) -> (r: Option<Listing>)
        requires
            self.wf(),
        ensures
            r is Some <==> self@.listings.contains_key(token_key@),
            r matches Some(l) ==> l == self@.listings[token_key@],
    {
        match self.listings.get(token_key) {
            Some(l) => Some(l.copy()),
            None => None,
        }
    }

    /// The listing of `token_id` on `nft_contract_id`, as shown to users.
    pub fn get_listing(&self, nft_contract_id: AccountId, token_id: String) -> (r: Option<ListingJson>)
        requires
            self.wf(),
        ensures
            ({
                let key = token_key_of(nft_contract_id@, token_id@);
                &&& r is Some <==> self@.listings.contains_key(key)
                &&& r matches Some(j) ==> {
                    let l = self@.listings[key];
                    &&& j.nft_token_id == l.nft_token_id
                    &&& j.nft_approval_id == l.nft_approval_id
                    &&& j.nft_owner_id == l.nft_owner_id
                    &&& j.nft_contract_id == l.nft_contract_id
                    &&& j.price == l.price
                    &&& j.currency@ == l.currency.text()
                    &&& j.created_at == l.created_at
                    &&& j.current_offer == (match l.current_offer {
                        Some(o) => Some(offer_json_of(o)),
                        None => None,
                    })
                }
            }),
    {
        let token_key = make_token_key(&nft_contract_id, &token_id);
        match self.get_listing_internal(&token_key) {
            Some(l) => Some(ListingJson::from_listing(l)),
            None => None,
        }
    }
}

impl MarketView {
    /// Why withdrawing the `i`-th of `tokens` is turned down, if it is. A
    /// token named a second time is no longer listed.
    pub open spec fn unlist_error_at(
        self,
        caller: Seq<char>,
        attached: u128,
        contract: Seq<char>,
        tokens: Seq<String>,
        now: u64,
        i: int,
    ) -> Option<MarketError> {
        let key = token_key_of(contract, tokens[i]@);
        if !self.listings.contains_key(key) || (exists|j: int| 0 <= j < i && #[trigger] tokens[j]@ == tokens[i]@) {
            Some(MarketError::ListingNotFound)
        } else {
            let l = self.listings[key];
            if l.current_offer is Some {
                Some(MarketError::OfferInProgress)
            } else if l.nft_owner_id@ != caller {
                Some(MarketError::NotSeller)
            } else if attached != 1 {
                Some(MarketError::OneYoctoRequired)
            } else if (now as int) < l.created_at as int + self.listing_lock_seconds as int * 1_000_000_000 {
                Some(MarketError::ListingStillLocked)
            } else {
                None
            }
        }
    }

    /// The first reason, from the `i`-th token on, to turn a withdrawal down;
    /// after the tokens, the deposits must be refundable.
    pub open spec fn unlist_rejection_from(
        self,
        caller: Seq<char>,
        attached: u128,
        contract: Seq<char>,
        tokens: Seq<String>,
        now: u64,
        i: int,
    ) -> Option<MarketError>
        decreases tokens.len() - i,
    {
        if i >= tokens.len() {
            if self.can_refund(caller, tokens.len() as int) {
                None
            } else {
                Some(MarketError::LedgerShortfall)
            }
        } else {
            match self.unlist_error_at(caller, attached, contract, tokens, now, i) {
                Some(e) => Some(e),
                None => self.unlist_rejection_from(caller, attached, contract, tokens, now, i + 1),
            }
        }
    }
}

/// The lookup keys of the first `n` of `tokens` on `contract`.
pub open spec fn keys_of(contract: Seq<char>, tokens: Seq<String>, n: int) -> Set<Seq<char>> {
    Set::new(|k: Seq<char>| exists|j: int| 0 <= j < n && k == #[trigger] token_key_of(contract, tokens[j]@))
}

proof fn lemma_rejection_skip(
    v: MarketView,
    caller: Seq<char>,
    attached: u128,
    contract: Seq<char>,
    tokens: Seq<String>,
    now: u64,
    i: int,
)
    requires
        0 <= i <= tokens.len(),
        forall|j: int| 0 <= j < i ==> #[trigger] v.unlist_error_at(caller, attached, contract, tokens, now, j) is None,
    ensures
        v.unlist_rejection_from(caller, attached, contract, tokens, now, 0) == v.unlist_rejection_from(
            caller,
            attached,
            contract,
            tokens,
            now,
            i,
        ),
    decreases i,
{
    if i > 0 {
        lemma_rejection_skip(v, caller, attached, contract, tokens, now, i - 1);
        assert(v.unlist_error_at(caller, attached, contract, tokens, now, i - 1) is None);
    }
}

/// Different tokens of one contract have different keys.
proof fn lemma_token_key_injective(contract: Seq<char>, a: Seq<char>, b: Seq<char>)
    requires
        token_key_of(contract, a) == token_key_of(contract, b),
    ensures
        a == b,
{
    let p = contract + key_separator();
    assert(token_key_of(contract, a) == p + a);
    assert(token_key_of(contract, b) == p + b);
    assert((p + a).subrange(p.len() as int, (p + a).len() as int) =~= a);
    assert((p + b).subrange(p.len() as int, (p + b).len() as int) =~= b);
}

impl Market {
    /// Whether `n` listings of `account` can be given up.
    fn can_refund(&self, account: &AccountId, n: u64) -> (r: bool)
        requires
            self.wf(),
        ensures
            r == self@.can_refund(account@, n as int),
    {
        let c = self.get_listings_count(account);
        let d = self.storage_deposit_by(account);
        match self.listing_storage_deposit.checked_mul(n as u128) {
            Some(x) => c >= n && d >= x,
            None => false,
        }
    }

    /// Why withdrawing the `i`-th token is turned down, if it is.
    fn unlist_check(
        &self,
        caller: &AccountId,
        attached: u128,
        nft_contract_id: &AccountId,
        token_ids: &Vec<String>,
        now: u64,
        i: usize,
    ) -> (r: Option<MarketError>)
        requires
            self.wf(),
            i < token_ids@.len(),
        ensures
            r == self@.unlist_error_at(caller@, attached, nft_contract_id@, token_ids@, now, i as int),
    {
        let key = make_token_key(nft_contract_id, &token_ids[i]);
        let mut j: usize = 0;
        while j < i
            invariant
                i < token_ids@.len(),
                j <= i,
                forall|q: int| 0 <= q < j ==> #[trigger] token_ids@[q]@ != token_ids@[i as int]@,
            decreases i - j,
        {
            if token_ids[j] == token_ids[i] {
                return Some(MarketError::ListingNotFound);
            }
            j += 1;
        }
        let listing = match self.listings.get(&key) {
            Some(l) => l,
            None => {
                return Some(MarketError::ListingNotFound);
            },
        };
        if listing.current_offer.is_some() {
            return Some(MarketError::OfferInProgress);
        }
        if listing.nft_owner_id != *caller {
            return Some(MarketError::NotSeller);
        }
        if attached != 1 {
            return Some(MarketError::OneYoctoRequired);
        }
        let ends = listing.created_at as u128 + (self.listing_lock_seconds as u128) * 1_000_000_000;
        let unlocked = now as u128 >= ends;
        if !unlocked {
            return Some(MarketError::ListingStillLocked);
        }
        None
    }

    /// Withdraws the listings of `token_ids` on `nft_contract_id`, all of
    /// them or none. Each must exist, carry no offer, belong to `caller` and
    /// have been listed for at least its lock time, and one yoctoNEAR must be attached. The
    /// removed listings come back in the order of `token_ids`, with the
    /// refund of their deposits.
    pub fn unlist(
        &mut self,
        caller: &AccountId,
        attached: u128,
        nft_contract_id: AccountId,
        token_ids: Vec<String>,
        now: u64,
    ) -> (r: Result<(Vec<Listing>, Transfer), MarketError>)
        requires
            old(self).wf(),
        ensures
            final(self).wf(),
            ({
                let rej = old(self)@.unlist_rejection_from(caller@, attached, nft_contract_id@, token_ids@, now, 0);
                &&& r is Err <==> rej is Some
                &&& r matches Err(e) ==> rej == Some(e) && *final(self) == *old(self)
                &&& r matches Ok((removed, refund)) ==> {
                    &&& final(self)@ == (MarketView {
                        listings: old(self)@.listings.remove_keys(keys_of(nft_contract_id@, token_ids@, token_ids@.len() as int)),
                        ..old(self)@
                    }).refunded(caller@, token_ids@.len() as int)
                    &&& removed@.len() == token_ids@.len()
                    &&& forall|j: int| 0 <= j < token_ids@.len() ==> removed@[j] == old(self)@.listings[#[trigger] token_key_of(nft_contract_id@, token_ids@[j]@)]
                    &&& refund == (Transfer {
                        receiver_id: *caller,
                        amount: (old(self).listing_storage_deposit * token_ids@.len()) as u128,
                    })
                }
            }),
            old(self)@.ledger_ok() ==> final(self)@.ledger_ok(),
            old(self).solvent() ==> final(self).solvent(),
    {
        let ghost v0 = self@;
        let ghost tokens = token_ids@;
        let ghost contract = nft_contract_id@;
        let mut i: usize = 0;
        while i < token_ids.len()
            invariant
                self.wf(),
                self@ == v0,
                tokens == token_ids@,
                contract == nft_contract_id@,
                i <= token_ids@.len(),
                forall|j: int| 0 <= j < i ==> #[trigger] v0.unlist_error_at(caller@, attached, contract, tokens, now, j) is None,
            decreases token_ids@.len() - i,
        {
            match self.unlist_check(caller, attached, &nft_contract_id, &token_ids, now, i) {
                Some(e) => {
                    proof {
                        lemma_rejection_skip(v0, caller@, attached, contract, tokens, now, i as int);
                    }
                    return Err(e);
                },
                None => {},
            }
            i += 1;
        }
        proof {
            lemma_rejection_skip(v0, caller@, attached, contract, tokens, now, tokens.len() as int);
        }
        let n = token_ids.len() as u64;
        if !self.can_refund(caller, n) {
            return Err(MarketError::LedgerShortfall);
        }
        let mut removed: Vec<Listing> = Vec::new();
        let mut i: usize = 0;
        let ghost s_init = self.listings.entries@;
        proof {
            assert(v0.listings.remove_keys(keys_of(contract, tokens, 0)) =~= v0.listings);
        }
        while i < token_ids.len()
            invariant
                self.wf(),
                counts_cover(v0, s_init) ==> forall|a: Seq<char>| #[trigger] v0.count_of(a) >= owned_in(self.listings.entries@, a)
                    + (if a == caller@ { i as int } else { 0 }),
                tokens == token_ids@,
                contract == nft_contract_id@,
                i <= token_ids@.len(),
                n == tokens.len(),
                forall|j: int| 0 <= j < tokens.len() ==> #[trigger] v0.unlist_error_at(caller@, attached, contract, tokens, now, j) is None,
                self@ == (MarketView { listings: v0.listings.remove_keys(keys_of(contract, tokens, i as int)), ..v0 }),
                removed@.len() == i,
                forall|j: int| 0 <= j < i ==> removed@[j] == v0.listings[#[trigger] token_key_of(contract, tokens[j]@)],
            decreases token_ids@.len() - i,
        {
            let key = make_token_key(&nft_contract_id, &token_ids[i]);
            let ghost ki = key@;
            proof {
                assert(v0.unlist_error_at(caller@, attached, contract, tokens, now, i as int) is None);
                assert(v0.listings.contains_key(ki));
                assert(!keys_of(contract, tokens, i as int).contains(ki)) by {
                    if keys_of(contract, tokens, i as int).contains(ki) {
                        let j = choose|j: int| 0 <= j < i && ki == #[trigger] token_key_of(contract, tokens[j]@);
                        lemma_token_key_injective(contract, tokens[j]@, tokens[i as int]@);
                        assert(tokens[j]@ == tokens[i as int]@);
                    }
                }
            }
            let listing = match self.listings.get(&key) {
                Some(l) => l.copy(),
                None => {
                    proof {
                        assert(false);
                    }
                    return Err(MarketError::ListingNotFound);
                },
            };
            let ghost before = self@;
            let ghost s_before = self.listings.entries@;
            let ghost idx = self.listings.index_of(ki);
            proof {
                assert(self.listings.has(ki));
                assert(self.listings.key_at(idx) == ki);
                self.listings.lemma_index(idx);
                assert(s_before[idx].1 == v0.listings[ki]);
                assert(s_before[idx].1.nft_owner_id@ == caller@);
            }
            self.listings.remove(&key);
            removed.push(listing);
            proof {
                if counts_cover(v0, s_init) {
                    assert forall|a: Seq<char>| #[trigger] v0.count_of(a) >= owned_in(self.listings.entries@, a)
                        + (if a == caller@ { i + 1 } else { 0 }) by {
                        lemma_owned_swap_remove(s_before, idx, a);
                        assert(v0.count_of(a) >= owned_in(s_before, a) + (if a == caller@ { i as int } else { 0 }));
                    }
                }
                assert(keys_of(contract, tokens, i + 1) =~= keys_of(contract, tokens, i as int).insert(ki)) by {
                    assert forall|k: Seq<char>| keys_of(contract, tokens, i + 1).contains(k) implies keys_of(contract, tokens, i as int).insert(ki).contains(k) by {
                        let j = choose|j: int| 0 <= j < i + 1 && k == #[trigger] token_key_of(contract, tokens[j]@);
                        if j < i {
                            assert(keys_of(contract, tokens, i as int).contains(k));
                        }
                    }
                    assert forall|k: Seq<char>| keys_of(contract, tokens, i as int).insert(ki).contains(k) implies keys_of(contract, tokens, i + 1).contains(k) by {
                        if k == ki {
                            assert(k == token_key_of(contract, tokens[i as int]@));
                        } else {
                            let j = choose|j: int| 0 <= j < i && k == #[trigger] token_key_of(contract, tokens[j]@);
                            assert(0 <= j < i + 1);
                        }
                    }
                }
                assert(self@.listings =~= v0.listings.remove_keys(keys_of(contract, tokens, i + 1)));
                lemma_cuts_after_remove(before, ki);
                assert(self@ == (MarketView { listings: before.listings.remove(ki), ..before }));
            }
            i += 1;
        }
        let ghost v2 = self@;
        proof {
            lemma_same_ledger(v0, v2);
        }
        let refund = match self.refund_listings(caller, n) {
            Ok(t) => t,
            Err(e) => {
                return Err(e);
            },
        };
        proof {
            if counts_cover(v0, s_init) {
                assert forall|a: Seq<char>| #[trigger] self@.count_of(a) >= owned_in(self.listings.entries@, a) by {
                    assert(v0.count_of(a) >= owned_in(self.listings.entries@, a) + (if a == caller@ { n as int } else { 0 }));
                }
            }
        }
        Ok((removed, refund))
    }
}

/// What a resolution that was not turned down leaves and returns.
pub open spec fn settle_post(old: Market, new: Market, key: Seq<char>, result: PayoutResult, near: bool, res: Resolution) -> bool {
    let l = old@.listings[key];
    let o = l.current_offer->0;
    let cap: int = if near { MAX_LEN_PAYOUT_NEAR as int } else { MAX_LEN_PAYOUT_FT as int };
    let (aff, mb) = offer_split(o);
    match res {
        Resolution::Retry => result is NotReady && new == old,
        Resolution::Settled(s) => {
            &&& !(result is NotReady)
            &&& s.kind == old@.settle_kind(o, result, cap)
            &&& new@ == old@.settled(key, s.kind)
            &&& s.payments@ == old@.settle_payments(o, result, s.kind, near)
            &&& s.returned == (if !near && s.kind != SettlementKind::Sold { o.amount } else { 0 })
            &&& s.storage_refund == (Transfer {
                receiver_id: l.nft_owner_id,
                amount: old.listing_storage_deposit,
            })
            &&& s.platform_amount == mb
            &&& match s.affiliate_amount {
                Some(x) => aff == Some(x as int),
                None => aff is None,
            }
            &&& transfers_total(s.payments@) <= o.amount
            &&& (s.kind == SettlementKind::Sold ==> {
                &&& transfers_total(s.payments@) + s.platform_retained == o.amount
                &&& s.platform_retained >= s.platform_amount
            })
        },
    }
}

/// The cuts frozen into a listing's offer, if any, are at most 10_000.
pub open spec fn offer_cut_ok(l: Listing) -> bool {
    match l.current_offer {
        Some(o) => offer_ok(o),
        None => true,
    }
}

proof fn lemma_cuts_after_insert(v: MarketView, key: Seq<char>, l: Listing)
    requires
        v.cuts_ok(),
        offer_cut_ok(l),
    ensures
        (MarketView { listings: v.listings.insert(key, l), ..v }).cuts_ok(),
{
    let w = MarketView { listings: v.listings.insert(key, l), ..v };
    assert forall|k: Seq<char>| #[trigger] w.listings.contains_key(k) implies offer_cut_ok(w.listings[k]) by {
        if k != key {
            assert(v.listings.contains_key(k));
            assert(offer_cut_ok(v.listings[k]));
        }
    }
}

proof fn lemma_cuts_after_remove(v: MarketView, key: Seq<char>)
    requires
        v.cuts_ok(),
    ensures
        (MarketView { listings: v.listings.remove(key), ..v }).cuts_ok(),
{
    let w = MarketView { listings: v.listings.remove(key), ..v };
    assert forall|k: Seq<char>| #[trigger] w.listings.contains_key(k) implies offer_cut_ok(w.listings[k]) by {
        assert(v.listings.contains_key(k));
        assert(offer_cut_ok(v.listings[k]));
    }
}

/// 1 where entry `e` is a listing of `a`, else 0.
pub open spec fn owner_ind(e: (String, Listing), a: Seq<char>) -> int {
    if e.1.nft_owner_id@ == a {
        1
    } else {
        0
    }
}

/// How many of the entries `s` are listings of `a`.
pub open spec fn owned_in(s: Seq<(String, Listing)>, a: Seq<char>) -> int
    decreases s.len(),
{
    if s.len() == 0 {
        0
    } else {
        owned_in(s.drop_last(), a) + owner_ind(s.last(), a)
    }
}

/// Every account's listing count covers the listings it holds.
pub open spec fn counts_cover(v: MarketView, s: Seq<(String, Listing)>) -> bool {
    forall|a: Seq<char>| #[trigger] v.count_of(a) >= owned_in(s, a)
}

pub proof fn lemma_owned_push(s: Seq<(String, Listing)>, x: (String, Listing), a: Seq<char>)
    ensures
        owned_in(s.push(x), a) == owned_in(s, a) + owner_ind(x, a),
{
    assert(s.push(x).drop_last() =~= s);
}

pub proof fn lemma_owned_update(s: Seq<(String, Listing)>, i: int, x: (String, Listing), a: Seq<char>)
    requires
        0 <= i < s.len(),
    ensures
        owned_in(s.update(i, x), a) == owned_in(s, a) - owner_ind(s[i], a) + owner_ind(x, a),
    decreases s.len(),
{
    if i == s.len() - 1 {
        assert(s.update(i, x).drop_last() =~= s.drop_last());
    } else {
        lemma_owned_update(s.drop_last(), i, x, a);
        assert(s.update(i, x).drop_last() =~= s.drop_last().update(i, x));
    }
}

pub proof fn lemma_owned_swap_remove(s: Seq<(String, Listing)>, i: int, a: Seq<char>)
    requires
        0 <= i < s.len(),
    ensures
        owned_in(s.update(i, s.last()).drop_last(), a) == owned_in(s, a) - owner_ind(s[i], a),
{
    lemma_owned_update(s, i, s.last(), a);
}

pub proof fn lemma_owned_holds(s: Seq<(String, Listing)>, i: int)
    requires
        0 <= i < s.len(),
    ensures
        owned_in(s, s[i].1.nft_owner_id@) >= 1,
    decreases s.len(),
{
    let a = s[i].1.nft_owner_id@;
    lemma_owned_nonneg(s.drop_last(), a);
    if i < s.len() - 1 {
        lemma_owned_holds(s.drop_last(), i);
    }
}

pub proof fn lemma_owned_nonneg(s: Seq<(String, Listing)>, a: Seq<char>)
    ensures
        owned_in(s, a) >= 0,
    decreases s.len(),
{
    if s.len() > 0 {
        lemma_owned_nonneg(s.drop_last(), a);
    }
}

proof fn lemma_cover_same_counts(v: MarketView, w: MarketView, s: Seq<(String, Listing)>)
    requires
        v.counts == w.counts,
        counts_cover(v, s),
    ensures
        counts_cover(w, s),
{
    assert forall|a: Seq<char>| #[trigger] w.count_of(a) >= owned_in(s, a) by {
        assert(v.count_of(a) >= owned_in(s, a));
    }
}

/// Removing a listing leaves the ledger as it is.
proof fn lemma_remove_listing_keeps_ledger(v: MarketView, key: Seq<char>)
    ensures
        v.ledger_ok() ==> (MarketView { listings: v.listings.remove(key), ..v }).ledger_ok(),
{
    lemma_same_ledger(v, MarketView { listings: v.listings.remove(key), ..v });
}

/// The ledger's health depends on deposits, counts and the per-listing
/// deposit alone.
proof fn lemma_same_ledger(v: MarketView, w: MarketView)
    requires
        v.deposits == w.deposits,
        v.counts == w.counts,
        v.listing_storage_deposit == w.listing_storage_deposit,
    ensures
        v.ledger_ok() == w.ledger_ok(),
{
    if v.ledger_ok() {
        assert forall|a: Seq<char>| #[trigger] w.deposit_of(a) >= w.count_of(a) * w.listing_storage_deposit by {
            assert(v.deposit_of(a) >= v.count_of(a) * v.listing_storage_deposit);
        }
    }
    if w.ledger_ok() {
        assert forall|a: Seq<char>| #[trigger] v.deposit_of(a) >= v.count_of(a) * v.listing_storage_deposit by {
            assert(w.deposit_of(a) >= w.count_of(a) * w.listing_storage_deposit);
        }
    }
}

/// Giving up listings with their deposits keeps every deposit covering its
/// listings.
pub proof fn lemma_refund_keeps_ledger(v: MarketView, a: Seq<char>, n: int)
    requires
        v.can_refund(a, n),
        n >= 0,
    ensures
        v.ledger_ok() ==> v.refunded(a, n).ledger_ok(),
{
    let w = v.refunded(a, n);
    if v.ledger_ok() {
        assert forall|b: Seq<char>| #[trigger] w.deposit_of(b) >= w.count_of(b) * w.listing_storage_deposit by {
            assert(v.deposit_of(b) >= v.count_of(b) * v.listing_storage_deposit);
            if b == a {
                let p = v.listing_storage_deposit as int;
                let c = v.count_of(a);
                assert((c - n) * p == c * p - p * n) by (nonlinear_arith);
            }
        }
    }
}

} // verus!
