use vstd::prelude::*;
use vstd::string::StrSliceExecFns;

use crate::data::AccountId;

verus! {

/// Nanoseconds in an hour.
pub const NANOS_PER_HOUR: u64 = 3_600_000_000_000;

/// How long an offer stays valid.
#[derive(Debug)]
pub enum TimeUnit {
    Hours(u64),
}

/// Listing parameters that an NFT contract passes along with approvals.
#[derive(Debug)]
pub struct SaleArgs {
    pub price: u128,
    /// Whether an offer at or above the price is accepted at once.
    pub autotransfer: bool,
}

/// Identifies a listed token: its ID and the NFT contract it lives on.
#[derive(Debug)]
pub struct TokenKey {
    pub token_id: u64,
    pub account_id: String,
}

pub open spec fn is_digit(c: char) -> bool {
    '0' <= c <= '9'
}

/// The value of a string of decimal digits.
pub open spec fn digits_value(s: Seq<char>) -> int
    decreases s.len(),
{
    if s.len() == 0 {
        0
    } else {
        digits_value(s.drop_last()) * 10 + (s.last() as int - '0' as int)
    }
}

/// `s` without a leading `+`.
pub open spec fn unsigned_part(s: Seq<char>) -> Seq<char> {
    if s.len() > 0 && s[0] == '+' {
        s.drop_first()
    } else {
        s
    }
}

pub open spec fn all_digits(d: Seq<char>) -> bool {
    forall|i: int| 0 <= i < d.len() ==> is_digit(#[trigger] d[i])
}

/// What `u64`'s textual parse gives: an optional `+`, then at least one
/// decimal digit, the value fitting in `u64`.
pub open spec fn parse_u64(s: Seq<char>) -> Option<u64> {
    let d = unsigned_part(s);
    if d.len() > 0 && all_digits(d) && digits_value(d) <= u64::MAX {
        Some(digits_value(d) as u64)
    } else {
        None
    }
}

/// The position of the first `:` in `s`, if any.
pub open spec fn first_colon(s: Seq<char>) -> Option<int> {
    if exists|i: int| 0 <= i < s.len() && s[i] == ':' {
        Some(choose|i: int| 0 <= i < s.len() && s[i] == ':' && forall|j: int| 0 <= j < i ==> s[j] != ':')
    } else {
        None
    }
}

/// Parses a string of decimal digits, with an optional leading `+`.
pub fn parse_decimal_u64(s: &str) -> (r: Option<u64>)
    ensures
        r == parse_u64(s@),
{
    let n = s.unicode_len();
    let mut i: usize = 0;
    if n > 0 && s.get_char(0) == '+' {
        i = 1;
    }
    let start = i;
    let ghost d = unsigned_part(s@);
    assert(d =~= s@.subrange(start as int, n as int));
    if i == n {
        assert(d.len() == 0);
        return None;
    }
    let mut acc: u64 = 0;
    while i < n
        invariant
            start <= i <= n,
            n == s@.len(),
            d =~= s@.subrange(start as int, n as int),
            d == unsigned_part(s@),
            d.len() > 0,
            forall|j: int| start <= j < i ==> is_digit(#[trigger] s@[j]),
            acc == digits_value(s@.subrange(start as int, i as int)),
        decreases n - i,
    {
        let c = s.get_char(i);
        assert(s@.subrange(start as int, i + 1).drop_last() =~= s@.subrange(start as int, i as int));
        if !('0' <= c && c <= '9') {
            assert(d[i - start] == c);
            assert(!is_digit(d[i - start]));
            assert(!all_digits(d));
            return None;
        }
        let digit = (c as u32 - '0' as u32) as u64;
        let next = match acc.checked_mul(10) {
            Some(x) => x.checked_add(digit),
            None => None,
        };
        match next {
            Some(x) => {
                acc = x;
            },
            None => {
                proof {
                    assert(digits_value(s@.subrange(start as int, i + 1)) == acc * 10 + digit);
                    assert(acc * 10 + digit > u64::MAX);
                    assert(d.subrange(0, i - start + 1) =~= s@.subrange(start as int, i + 1));
                    if all_digits(d) {
                        lemma_digits_value_grows(d, i - start + 1);
                        assert(digits_value(d) > u64::MAX);
                    }
                }
                return None;
            },
        }
        i += 1;
    }
    assert(s@.subrange(start as int, n as int) =~= d);
    assert(all_digits(d)) by {
        assert forall|j: int| 0 <= j < d.len() implies is_digit(#[trigger] d[j]) by {
            assert(d[j] == s@[start + j]);
        }
    }
    Some(acc)
}

/// A longer prefix of digits never has a smaller value.
pub proof fn lemma_digits_value_grows(d: Seq<char>, k: int)
    requires
        0 <= k <= d.len(),
        forall|i: int| 0 <= i < d.len() ==> is_digit(#[trigger] d[i]),
    ensures
        0 <= digits_value(d.subrange(0, k)) <= digits_value(d),
    decreases d.len() - k,
{
    if k < d.len() {
        lemma_digits_value_grows(d, k + 1);
        let p = d.subrange(0, k + 1);
        assert(p.drop_last() =~= d.subrange(0, k));
        lemma_digits_value_nonneg(d.subrange(0, k));
    } else {
        assert(d.subrange(0, k) =~= d);
        lemma_digits_value_nonneg(d);
    }
}

pub proof fn lemma_digits_value_nonneg(d: Seq<char>)
    requires
        forall|i: int| 0 <= i < d.len() ==> is_digit(#[trigger] d[i]),
    ensures
        digits_value(d) >= 0,
    decreases d.len(),
{
    if d.len() > 0 {
        let e = d.drop_last();
        assert forall|i: int| 0 <= i < e.len() implies is_digit(#[trigger] e[i]) by {
            assert(e[i] == d[i]);
        }
        lemma_digits_value_nonneg(e);
    }
}

/// Splits `string` at its first colon; `None` where it has none.
pub fn split_colon(string: &str) -> (r: Option<(&str, &str)>)
    ensures
        match first_colon(string@) {
            None => r is None,
            Some(p) => r matches Some((a, b)) && a@ == string@.subrange(0, p) && b@ == string@.subrange(
                p + 1,
                string@.len() as int,
            ),
        },
{
    let n = string.unicode_len();
    let mut i: usize = 0;
    while i < n
        invariant
            i <= n,
            n == string@.len(),
            forall|j: int| 0 <= j < i ==> string@[j] != ':',
        decreases n - i,
    {
        if string.get_char(i) == ':' {
            proof {
                let p = first_colon(string@);
                assert(p is Some);
                let q = p->0;
                assert(string@[q] == ':');
                assert(q == i) by {
                    if (q as int) < (i as int) {
                    } else if (q as int) > (i as int) {
                        assert(string@[i as int] == ':');
                    }
                }
            }
            return Some((string.substring_char(0, i), string.substring_char(i + 1, n)));
        }
        i += 1;
    }
    None
}

impl TokenKey {
    /// Reads `"<token id>:<contract>"`; `None` without colon or without a
    /// number before it.
    pub fn parse(s: &str) -> (r: Option<TokenKey>)
        ensures
            match first_colon(s@) {
                None => r is None,
                Some(p) => match parse_u64(s@.subrange(0, p)) {
                    None => r is None,
                    Some(id) => r matches Some(k) && k.token_id == id && k.account_id@ == s@.subrange(
                        p + 1,
                        s@.len() as int,
                    ),
                },
            },
    {
        match split_colon(s) {
            None => None,
            Some((id, account)) => match parse_decimal_u64(id) {
                None => None,
                Some(token_id) => Some(TokenKey { token_id, account_id: account.to_string() }),
            },
        }
    }
}

/// An offer on a listed token, held in escrow by the market.
#[derive(Debug)]
pub struct TokenOffer {
    pub price: u128,
    pub from: AccountId,
    /// Block time at which the offer was made.
    pub timestamp: u64,
    /// Block time until which the offer stays valid.
    pub timeout: u64,
    /// Number of the offer on its listing.
    pub id: u64,
}

impl TokenOffer {
    /// An offer by `from`, made at `now` and valid for `timeout`; `None`
    /// where its end leaves `u64`.
    pub fn new(price: u128, from: AccountId, now: u64, timeout: TimeUnit, id: u64) -> (r: Option<TokenOffer>)
        ensures
            ({
                let TimeUnit::Hours(h) = timeout;
                let end = now + h * NANOS_PER_HOUR;
                &&& r is Some <==> end <= u64::MAX
                &&& r matches Some(o) ==> o == (TokenOffer {
                    price,
                    from,
                    timestamp: now,
                    timeout: end as u64,
                    id,
                })
            }),
    {
        let TimeUnit::Hours(h) = timeout;
        match h.checked_mul(NANOS_PER_HOUR) {
            Some(span) => match now.checked_add(span) {
                Some(end) => Some(TokenOffer { price, from, timestamp: now, timeout: end, id }),
                None => None,
            },
            None => {
                assert(h * NANOS_PER_HOUR > u64::MAX);
                None
            },
        }
    }

    pub open spec fn active_at(&self, now: u64) -> bool {
        now <= self.timeout
    }

    /// Whether the offer is still valid at `now`.
    pub fn is_active(&self, now: u64) -> (r: bool)
        ensures
            r == self.active_at(now),
    {
        now <= self.timeout
    }

    pub fn copy(&self) -> (r: TokenOffer)
        ensures
            r == *self,
    {
        TokenOffer {
            price: self.price,
            from: self.from.clone(),
            timestamp: self.timestamp,
            timeout: self.timeout,
            id: self.id,
        }
    }
}

/// A token listed on the auction market.
#[derive(Debug)]
pub struct TokenListing {
    pub id: u64,
    pub owner_id: AccountId,
    /// The NFT contract.
    pub store_id: AccountId,
    pub autotransfer: bool,
    pub asking_price: u128,
    pub approval_id: u64,
    pub current_offer: Option<TokenOffer>,
    pub num_offers: u64,
    /// Set while a transfer of the token is being processed.
    pub locked: bool,
}

impl TokenListing {
    pub open spec fn key(&self) -> (u64, Seq<char>) {
        (self.id, self.store_id@)
    }

    pub fn new(
        owner_id: AccountId,
        store_id: AccountId,
        id: u64,
        approval_id: u64,
        autotransfer: bool,
        asking_price: u128,
    ) -> (r: TokenListing)
        ensures
            r == (TokenListing {
                id,
                owner_id,
                store_id,
                autotransfer,
                asking_price,
                approval_id,
                current_offer: None,
                num_offers: 0,
                locked: false,
            }),
    {
        TokenListing {
            id,
            owner_id,
            store_id,
            autotransfer,
            asking_price,
            approval_id,
            current_offer: None,
            num_offers: 0,
            locked: false,
        }
    }

    pub fn get_token_key(&self) -> (r: TokenKey)
        ensures
            r.token_id == self.id,
            r.account_id == self.store_id,
    {
        TokenKey { token_id: self.id, account_id: self.store_id.clone() }
    }

    pub fn copy(&self) -> (r: TokenListing)
        ensures
            r == *self,
    {
        TokenListing {
            id: self.id,
            owner_id: self.owner_id.clone(),
            store_id: self.store_id.clone(),
            autotransfer: self.autotransfer,
            asking_price: self.asking_price,
            approval_id: self.approval_id,
            current_offer: match &self.current_offer {
                Some(o) => Some(o.copy()),
                None => None,
            },
            num_offers: self.num_offers,
            locked: self.locked,
        }
    }
}

/// Listings keyed by token ID and NFT contract, each under its own key.
pub struct ListingTable {
    pub entries: Vec<TokenListing>,
}

impl ListingTable {
    pub open spec fn key_at(&self, i: int) -> (u64, Seq<char>) {
        self.entries@[i].key()
    }

    pub open spec fn wf(&self) -> bool {
        forall|i: int, j: int|
            0 <= i < self.entries@.len() && 0 <= j < self.entries@.len() && i != j
                ==> #[trigger] self.key_at(i) != #[trigger] self.key_at(j)
    }

    pub open spec fn has(&self, k: (u64, Seq<char>)) -> bool {
        exists|i: int| 0 <= i < self.entries@.len() && #[trigger] self.key_at(i) == k
    }

    pub open spec fn index_of(&self, k: (u64, Seq<char>)) -> int {
        choose|i: int| 0 <= i < self.entries@.len() && #[trigger] self.key_at(i) == k
    }

    pub open spec fn view(&self) -> Map<(u64, Seq<char>), TokenListing> {
        Map::new(|k: (u64, Seq<char>)| self.has(k), |k: (u64, Seq<char>)| self.entries@[self.index_of(k)])
    }

    pub proof fn lemma_index(&self, i: int)
        requires
            self.wf(),
            0 <= i < self.entries@.len(),
        ensures
            self@.contains_key(self.key_at(i)),
            self@[self.key_at(i)] == self.entries@[i],
            self.index_of(self.key_at(i)) == i,
    {
        let k = self.key_at(i);
        assert(self.has(k));
        let j = self.index_of(k);
        assert(self.key_at(j) == k);
    }

    pub fn new() -> (r: Self)
        ensures
            r.wf(),
            r@ == Map::<(u64, Seq<char>), TokenListing>::empty(),
    {
        let r = ListingTable { entries: Vec::new() };
        assert(r@ =~= Map::<(u64, Seq<char>), TokenListing>::empty());
        r
    }

    fn find(&self, id: u64, store: &String) -> (r: Option<usize>)
        ensures
            match r {
                Some(i) => i < self.entries@.len() && self.key_at(i as int) == (id, store@),
                None => !self.has((id, store@)),
            },
    {
        let mut i: usize = 0;
        while i < self.entries.len()
            invariant
                i <= self.entries@.len(),
                forall|j: int| 0 <= j < i ==> #[trigger] self.key_at(j) != (id, store@),
            decreases self.entries@.len() - i,
        {
            if self.entries[i].id == id && self.entries[i].store_id == *store {
                return Some(i);
            }
            i += 1;
        }
        None
    }

    pub fn get(&self, id: u64, store: &String) -> (r: Option<&TokenListing>)
        requires
            self.wf(),
        ensures
            r is Some == self@.contains_key((id, store@)),
            r matches Some(v) ==> *v == self@[(id, store@)],
    {
        match self.find(id, store) {
            Some(i) => {
                proof {
                    self.lemma_index(i as int);
                }
                Some(&self.entries[i])
            },
            None => None,
        }
    }

    /// Puts `l` under its own key.
    pub fn insert(&mut self, l: TokenListing)
        requires
            old(self).wf(),
        ensures
            final(self).wf(),
            final(self)@ == old(self)@.insert(l.key(), l),
    {
        let ghost old_self = *self;
        let ghost kv = l.key();
        match self.find(l.id, &l.store_id) {
            Some(i) => {
                proof {
                    old_self.lemma_index(i as int);
                }
                self.entries.set(i, l);
                proof {
                    assert forall|a: int, b: int|
                        0 <= a < self.entries@.len() && 0 <= b < self.entries@.len() && a != b
                            implies #[trigger] self.key_at(a) != #[trigger] self.key_at(b) by {
                        assert(old_self.key_at(a) != old_self.key_at(b));
                    }
                    assert forall|q: (u64, Seq<char>)| #[trigger] self.has(q) == old_self@.insert(kv, l).contains_key(q) by {
                        if self.has(q) {
                            let a = self.index_of(q);
                            assert(old_self.key_at(a) == q);
                        }
                        if old_self.has(q) {
                            let a = old_self.index_of(q);
                            assert(self.key_at(a) == q);
                        }
                        if q == kv {
                            assert(self.key_at(i as int) == q);
                        }
                    }
                    assert forall|q: (u64, Seq<char>)| #[trigger] self.has(q) implies self@[q] == old_self@.insert(kv, l)[q] by {
                        let a = self.index_of(q);
                        self.lemma_index(a);
                        if q != kv {
                            assert(old_self.key_at(a) == q);
                            old_self.lemma_index(a);
                        } else {
                            assert(self.key_at(i as int) == kv);
                            assert(a == i as int);
                        }
                    }
                    assert(self@ =~= old_self@.insert(kv, l));
                }
            },
            None => {
                self.entries.push(l);
                proof {
                    let n = old_self.entries@.len() as int;
                    assert(self.key_at(n) == kv);
                    assert forall|a: int, b: int|
                        0 <= a < self.entries@.len() && 0 <= b < self.entries@.len() && a != b
                            implies #[trigger] self.key_at(a) != #[trigger] self.key_at(b) by {
                        if a < n && b < n {
                            assert(old_self.key_at(a) != old_self.key_at(b));
                        } else if a < n {
                            assert(old_self.key_at(a) == self.key_at(a));
                        } else {
                            assert(old_self.key_at(b) == self.key_at(b));
                        }
                    }
                    assert forall|q: (u64, Seq<char>)| #[trigger] self.has(q) == old_self@.insert(kv, l).contains_key(q) by {
                        if self.has(q) {
                            let a = self.index_of(q);
                            if a < n {
                                assert(old_self.key_at(a) == q);
                            }
                        }
                        if old_self.has(q) {
                            let a = old_self.index_of(q);
                            assert(self.key_at(a) == q);
                        }
                    }
                    assert forall|q: (u64, Seq<char>)| #[trigger] self.has(q) implies self@[q] == old_self@.insert(kv, l)[q] by {
                        let a = self.index_of(q);
                        self.lemma_index(a);
                        if q != kv {
                            assert(a < n);
                            assert(old_self.key_at(a) == q);
                            old_self.lemma_index(a);
                        }
                    }
                    assert(self@ =~= old_self@.insert(kv, l));
                }
            },
        }
    }

    pub fn remove(&mut self, id: u64, store: &String)
        requires
            old(self).wf(),
        ensures
            final(self).wf(),
            final(self)@ == old(self)@.remove((id, store@)),
    {
        let ghost old_self = *self;
        let ghost k = (id, store@);
        match self.find(id, store) {
            Some(i) => {
                proof {
                    old_self.lemma_index(i as int);
                }
                self.entries.swap_remove(i);
                proof {
                    let n = old_self.entries@.len() as int;
                    assert forall|a: int| 0 <= a < self.entries@.len() implies #[trigger] self.key_at(a)
                        == old_self.key_at(if a == i { n - 1 } else { a }) by {}
                    assert forall|a: int, b: int|
                        0 <= a < self.entries@.len() && 0 <= b < self.entries@.len() && a != b
                            implies #[trigger] self.key_at(a) != #[trigger] self.key_at(b) by {
                        let oa = if a == i { n - 1 } else { a };
                        let ob = if b == i { n - 1 } else { b };
                        assert(old_self.key_at(oa) != old_self.key_at(ob));
                    }
                    assert forall|q: (u64, Seq<char>)| #[trigger] self.has(q) == old_self@.remove(k).contains_key(q) by {
                        if self.has(q) {
                            let a = self.index_of(q);
                            let oa = if a == i { n - 1 } else { a };
                            assert(old_self.key_at(oa) == q);
                            assert(oa != i);
                        }
                        if old_self.has(q) && q != k {
                            let a = old_self.index_of(q);
                            assert(a != i);
                            if a == n - 1 {
                                assert(self.key_at(i as int) == q);
                            } else {
                                assert(self.key_at(a) == q);
                            }
                        }
                    }
                    assert forall|q: (u64, Seq<char>)| #[trigger] self.has(q) implies self@[q] == old_self@.remove(k)[q] by {
                        let a = self.index_of(q);
                        self.lemma_index(a);
                        let oa = if a == i { n - 1 } else { a };
                        assert(old_self.key_at(oa) == q);
                        old_self.lemma_index(oa);
                    }
                    assert(self@ =~= old_self@.remove(k));
                }
            },
            None => {
                assert(self@ =~= old_self@.remove(k));
            },
        }
    }

    pub fn copy(&self) -> (r: ListingTable)
        requires
            self.wf(),
        ensures
            r.wf(),
            r.entries@ == self.entries@,
            r@ == self@,
    {
        let mut entries: Vec<TokenListing> = Vec::new();
        let mut i: usize = 0;
        while i < self.entries.len()
            invariant
                i <= self.entries@.len(),
                entries@ == self.entries@.subrange(0, i as int),
            decreases self.entries@.len() - i,
        {
            entries.push(self.entries[i].copy());
            assert(entries@ =~= self.entries@.subrange(0, i + 1));
            i += 1;
        }
        assert(entries@ =~= self.entries@);
        let r = ListingTable { entries };
        assert forall|a: int, b: int|
            0 <= a < r.entries@.len() && 0 <= b < r.entries@.len() && a != b
                implies #[trigger] r.key_at(a) != #[trigger] r.key_at(b) by {
            assert(self.key_at(a) != self.key_at(b));
        }
        assert forall|q: (u64, Seq<char>)| #[trigger] r.has(q) == self.has(q) by {
            if r.has(q) {
                let a = r.index_of(q);
                assert(self.key_at(a) == q);
            }
            if self.has(q) {
                let a = self.index_of(q);
                assert(r.key_at(a) == q);
            }
        }
        assert forall|q: (u64, Seq<char>)| #[trigger] r.has(q) implies r@[q] == self@[q] by {
            let a = r.index_of(q);
            r.lemma_index(a);
            self.lemma_index(a);
        }
        assert(r@ =~= self@);
        r
    }
}

} // verus!
