use vstd::prelude::*;
use vstd::string::StringExecFns;

verus! {

/// Account names are plain strings to this library.
pub type AccountId = String;

/// Storage deposit for 1 kB of data, in yoctoNEAR.
pub const TEN_MILLINEAR: u128 = 10_000_000_000_000_000_000_000;

/// Most payout recipients processed for a sale in native NEAR.
pub const MAX_LEN_PAYOUT_NEAR: u32 = 50;

/// Most payout recipients processed for a sale in fungible tokens.
pub const MAX_LEN_PAYOUT_FT: u32 = 10;

/// Longest token ID, in bytes, that a listing may carry.
pub const MAX_TOKEN_ID_BYTES: usize = 128;

/// Separator between contract and token in a listing's lookup key.
pub open spec fn key_separator() -> Seq<char> {
    seq!['<', '$', '>']
}

/// The lookup key of the listing of `token` on `contract`.
pub open spec fn token_key_of(contract: Seq<char>, token: Seq<char>) -> Seq<char> {
    contract + key_separator() + token
}

/// Builds the lookup key of the listing of `token_id` on `nft_contract_id`.
pub fn make_token_key(nft_contract_id: &AccountId, token_id: &String) -> (r: String)
    ensures
        r@ == token_key_of(nft_contract_id@, token_id@),
{
    let mut k = nft_contract_id.clone();
    proof {
        reveal_strlit("<$>");
    }
    k.append("<$>");
    k.append(token_id.as_str());
    k
}

/// How a listing is paid for.
#[derive(Debug)]
pub enum Currency {
    /// Native NEAR.
    Near,
    /// Tokens of the given fungible-token contract.
    FtContract(AccountId),
}

impl Currency {
    pub fn is_near(&self) -> (r: bool)
        ensures
            r == (*self is Near),
    {
        match self {
            Currency::Near => true,
            Currency::FtContract(_) => false,
        }
    }

    pub fn get_ft_contract_id(&self) -> (r: Option<AccountId>)
        ensures
            match *self {
                Currency::Near => r is None,
                Currency::FtContract(acc) => r == Some(acc),
            },
    {
        match self {
            Currency::FtContract(acc) => Some(acc.clone()),
            Currency::Near => None,
        }
    }

    /// `None` stands for native NEAR.
    pub fn from_ft_contract(x: Option<AccountId>) -> (r: Currency)
        ensures
            match x {
                None => r is Near,
                Some(acc) => r == Currency::FtContract(acc),
            },
    {
        match x {
            None => Currency::Near,
            Some(acc) => Currency::FtContract(acc),
        }
    }

    pub open spec fn text(&self) -> Seq<char> {
        match *self {
            Currency::Near => seq!['n', 'e', 'a', 'r'],
            Currency::FtContract(acc) => seq!['f', 't', ':', ':'] + acc@,
        }
    }

    /// `"near"`, or `"ft::"` followed by the token contract.
    pub fn to_string(&self) -> (r: String)
        ensures
            r@ == self.text(),
    {
        match self {
            Currency::Near => {
                proof {
                    reveal_strlit("near");
                }
                String::from_str("near")
            },
            Currency::FtContract(acc) => {
                proof {
                    reveal_strlit("ft::");
                }
                let mut s = String::from_str("ft::");
                s.append(acc.as_str());
                s
            },
        }
    }

    pub fn copy(&self) -> (r: Currency)
        ensures
            r == *self,
    {
        match self {
            Currency::Near => Currency::Near,
            Currency::FtContract(acc) => Currency::FtContract(acc.clone()),
        }
    }
}

pub fn copy_account_opt(a: &Option<AccountId>) -> (r: Option<AccountId>)
    ensures
        r == *a,
{
    match a {
        Some(x) => Some(x.clone()),
        None => None,
    }
}

/// An offer that currently executes on a listing.
#[derive(Debug)]
pub struct Offer {
    /// The buyer.
    pub offerer_id: AccountId,
    /// Amount paid, in yoctoNEAR or atomic units of the token contract.
    pub amount: u128,
    /// Affiliate through which the offer was made.
    pub referrer_id: Option<AccountId>,
    /// Cut, in basis points, shared between market and affiliate; fixed when
    /// the offer is made.
    pub referral_cut: Option<u16>,
    /// Share, in basis points, that the market keeps: of the referral cut
    /// when there is one, of the whole amount otherwise; fixed when the offer
    /// is made.
    pub platform_cut: u16,
}

impl Offer {
    pub fn copy(&self) -> (r: Offer)
        ensures
            r == *self,
    {
        Offer {
            offerer_id: self.offerer_id.clone(),
            amount: self.amount,
            referrer_id: copy_account_opt(&self.referrer_id),
            referral_cut: self.referral_cut,
            platform_cut: self.platform_cut,
        }
    }
}

/// Listing parameters that an NFT contract passes along with an approval.
#[derive(Debug)]
pub struct CreateListingMsg {
    /// Price in yoctoNEAR or atomic units of the token contract.
    pub price: u128,
    /// Token contract to be paid in; `None` for native NEAR.
    pub ft_contract: Option<AccountId>,
}

/// Purchase instructions that a token contract passes along with a
/// transfer.
#[derive(Debug)]
pub struct BuyWithFtMessage {
    pub nft_contract_id: AccountId,
    pub token_id: String,
    pub referrer_id: Option<AccountId>,
    pub affiliate_id: Option<AccountId>,
}

/// A token offered for sale.
#[derive(Debug)]
pub struct Listing {
    pub nft_token_id: String,
    /// Approval that created the listing.
    pub nft_approval_id: u64,
    /// Owner of the token when it was listed.
    pub nft_owner_id: AccountId,
    pub nft_contract_id: AccountId,
    /// Price in yoctoNEAR or atomic units of the token contract.
    pub price: u128,
    pub currency: Currency,
    /// Block time, in nanoseconds, at which the listing was created.
    pub created_at: u64,
    /// The offer that executes on this listing; while there is one, the
    /// listing is locked.
    pub current_offer: Option<Offer>,
}

impl Listing {
    pub open spec fn key(&self) -> Seq<char> {
        token_key_of(self.nft_contract_id@, self.nft_token_id@)
    }

    /// A listing without offer, created at `created_at`.
    pub fn new(
        nft_token_id: String,
        nft_approval_id: u64,
        nft_owner_id: AccountId,
        nft_contract_id: AccountId,
        msg: CreateListingMsg,
        created_at: u64,
    ) -> (r: Listing)
        ensures
            r.nft_token_id == nft_token_id,
            r.nft_approval_id == nft_approval_id,
            r.nft_owner_id == nft_owner_id,
            r.nft_contract_id == nft_contract_id,
            r.price == msg.price,
            r.currency == (match msg.ft_contract {
                None => Currency::Near,
                Some(acc) => Currency::FtContract(acc),
            }),
            r.created_at == created_at,
            r.current_offer is None,
    {
        Listing {
            nft_token_id,
            nft_approval_id,
            nft_owner_id,
            nft_contract_id,
            price: msg.price,
            currency: Currency::from_ft_contract(msg.ft_contract),
            created_at,
            current_offer: None,
        }
    }

    pub fn token_key(&self) -> (r: String)
        ensures
            r@ == self.key(),
    {
        make_token_key(&self.nft_contract_id, &self.nft_token_id)
    }

    pub fn copy(&self) -> (r: Listing)
        ensures
            r == *self,
    {
        Listing {
            nft_token_id: self.nft_token_id.clone(),
            nft_approval_id: self.nft_approval_id,
            nft_owner_id: self.nft_owner_id.clone(),
            nft_contract_id: self.nft_contract_id.clone(),
            price: self.price,
            currency: self.currency.copy(),
            created_at: self.created_at,
            current_offer: match &self.current_offer {
                Some(o) => Some(o.copy()),
                None => None,
            },
        }
    }
}

/// An offer as shown to users.
#[derive(Debug)]
pub struct OfferJson {
    pub offerer_id: AccountId,
    pub amount: u128,
    pub referrer_id: Option<AccountId>,
    pub referral_cut: Option<u16>,
}

/// A listing as shown to users, its currency written out as text.
#[derive(Debug)]
pub struct ListingJson {
    pub nft_token_id: String,
    pub nft_approval_id: u64,
    pub nft_owner_id: AccountId,
    pub nft_contract_id: AccountId,
    pub price: u128,
    pub currency: String,
    pub created_at: u64,
    pub current_offer: Option<OfferJson>,
}

pub open spec fn offer_json_of(offer: Offer) -> OfferJson {
    OfferJson {
        offerer_id: offer.offerer_id,
        amount: offer.amount,
        referrer_id: offer.referrer_id,
        referral_cut: offer.referral_cut,
    }
}

impl From<Offer> for OfferJson {
    fn from(offer: Offer) -> (r: OfferJson) {
        OfferJson {
            offerer_id: offer.offerer_id,
            amount: offer.amount,
            referrer_id: offer.referrer_id,
            referral_cut: offer.referral_cut,
        }
    }
}

impl vstd::std_specs::convert::FromSpecImpl<Offer> for OfferJson {
    open spec fn obeys_from_spec() -> bool {
        true
    }

    open spec fn from_spec(offer: Offer) -> OfferJson {
        offer_json_of(offer)
    }
}

impl ListingJson {
    pub fn from_listing(listing: Listing) -> (r: ListingJson)
        ensures
            r.nft_token_id == listing.nft_token_id,
            r.nft_approval_id == listing.nft_approval_id,
            r.nft_owner_id == listing.nft_owner_id,
            r.nft_contract_id == listing.nft_contract_id,
            r.price == listing.price,
            r.currency@ == listing.currency.text(),
            r.created_at == listing.created_at,
            r.current_offer == (match listing.current_offer {
                Some(o) => Some(offer_json_of(o)),
                None => None,
            }),
    {
        let currency = listing.currency.to_string();
        ListingJson {
            nft_token_id: listing.nft_token_id,
            nft_approval_id: listing.nft_approval_id,
            nft_owner_id: listing.nft_owner_id,
            nft_contract_id: listing.nft_contract_id,
            price: listing.price,
            currency,
            created_at: listing.created_at,
            current_offer: match listing.current_offer {
                Some(o) => Some(OfferJson::from(o)),
                None => None,
            },
        }
    }
}

} // verus!
