//! NFT marketplace: minting, listing, cancelling and buying tokens.
//!
//! Each operation is specified as a function from the marketplace's view to
//! the next view and the result. Whatever the operation returns, a token never
//! has two active listings.

use vstd::prelude::*;
use crate::keyed::{KeyedMap, key_index, viewed, put_entry, keys_unique, has_key, lemma_key_index};
use crate::text::{is_blank, is_blank_seq, dec_u64, dec_nat, str_eq, lemma_numbered_injective};

verus! {

/// A token.
#[derive(Debug, Clone, PartialEq, Eq)]
pub struct NftToken {
    /// Unique id.
    pub token_id: String,
    /// Current holder.
    pub owner: String,
    /// Name.
    pub name: String,
    /// Description.
    pub description: String,
    /// Image link.
    pub image_url: String,
}

/// A token with its strings viewed as characters.
pub struct NftTokenV {
    pub token_id: Seq<char>,
    pub owner: Seq<char>,
    pub name: Seq<char>,
    pub description: Seq<char>,
    pub image_url: Seq<char>,
}

impl View for NftToken {
    type V = NftTokenV;

    open spec fn view(&self) -> NftTokenV {
        NftTokenV {
            token_id: self.token_id@,
            owner: self.owner@,
            name: self.name@,
            description: self.description@,
            image_url: self.image_url@,
        }
    }
}

/// State of a listing.
#[derive(Debug, Clone, Copy, PartialEq, Eq, Structural)]
pub enum ListingStatus {
    /// Can be bought.
    Active,
    /// Bought.
    Sold,
    /// Withdrawn by the seller.
    Cancelled,
}

/// A listing.
#[derive(Debug, Clone, PartialEq, Eq)]
pub struct NftListing {
    /// Listing id.
    pub listing_id: String,
    /// Token offered.
    pub token_id: String,
    /// Seller.
    pub seller: String,
    /// Asking price.
    pub price: u64,
    /// State.
    pub status: ListingStatus,
}

/// A listing with its strings viewed as characters.
pub struct NftListingV {
    pub listing_id: Seq<char>,
    pub token_id: Seq<char>,
    pub seller: Seq<char>,
    pub price: u64,
    pub status: ListingStatus,
}

impl View for NftListing {
    type V = NftListingV;

    open spec fn view(&self) -> NftListingV {
        NftListingV {
            listing_id: self.listing_id@,
            token_id: self.token_id@,
            seller: self.seller@,
            price: self.price,
            status: self.status,
        }
    }
}

/// Marketplace errors.
#[derive(Debug, Clone, PartialEq, Eq)]
pub enum NftError {
    /// A required argument is blank.
    MissingField(&'static str),
    /// Prices must be positive.
    InvalidPrice,
    /// No such token.
    TokenNotFound { token_id: String },
    /// The caller does not hold the token (or did not list it).
    NotTokenOwner,
    /// The token already has an active listing.
    TokenAlreadyListed,
    /// No such listing.
    ListingNotFound { listing_id: String },
    /// The listing is sold or cancelled.
    ListingClosed { status: ListingStatus },
    /// A seller cannot buy their own listing.
    SelfPurchaseNotAllowed,
}

/// A marketplace error with strings viewed as characters.
pub enum NftErrorV {
    MissingField(&'static str),
    InvalidPrice,
    TokenNotFound { token_id: Seq<char> },
    NotTokenOwner,
    TokenAlreadyListed,
    ListingNotFound { listing_id: Seq<char> },
    ListingClosed { status: ListingStatus },
    SelfPurchaseNotAllowed,
}

impl View for NftError {
    type V = NftErrorV;

    open spec fn view(&self) -> NftErrorV {
        match self {
            NftError::MissingField(f) => NftErrorV::MissingField(*f),
            NftError::InvalidPrice => NftErrorV::InvalidPrice,
            NftError::TokenNotFound { token_id } => NftErrorV::TokenNotFound { token_id: token_id@ },
            NftError::NotTokenOwner => NftErrorV::NotTokenOwner,
            NftError::TokenAlreadyListed => NftErrorV::TokenAlreadyListed,
            NftError::ListingNotFound { listing_id } => NftErrorV::ListingNotFound { listing_id: listing_id@ },
            NftError::ListingClosed { status } => NftErrorV::ListingClosed { status: *status },
            NftError::SelfPurchaseNotAllowed => NftErrorV::SelfPurchaseNotAllowed,
        }
    }
}

/// The name a listing status is printed with.
pub open spec fn status_name(s: ListingStatus) -> Seq<char> {
    match s {
        ListingStatus::Active => "Active"@,
        ListingStatus::Sold => "Sold"@,
        ListingStatus::Cancelled => "Cancelled"@,
    }
}

/// The text of a marketplace error.
pub open spec fn nft_error_text(e: NftErrorV) -> Seq<char> {
    match e {
        NftErrorV::MissingField(f) => "参数不能为空: "@ + f@,
        NftErrorV::InvalidPrice => "价格必须大于 0"@,
        NftErrorV::TokenNotFound { token_id } => "NFT 不存在: token_id="@ + token_id,
        NftErrorV::NotTokenOwner => "当前用户不是 NFT 持有人"@,
        NftErrorV::TokenAlreadyListed => "NFT 已经在售"@,
        NftErrorV::ListingNotFound { listing_id } => "挂单不存在: listing_id="@ + listing_id,
        NftErrorV::ListingClosed { status } => "挂单状态不可操作: status="@ + status_name(status),
        NftErrorV::SelfPurchaseNotAllowed => "不能购买自己的挂单"@,
    }
}

/// `prefix` followed by `tail`.
fn prefixed(prefix: &str, tail: &str) -> (r: String)
    ensures
        r@ == prefix@ + tail@,
{
    let mut t = String::from_str(prefix);
    t.append(tail);
    t
}

impl NftError {
    /// The error as text.
    pub fn message(&self) -> (r: String)
        ensures
            r@ == nft_error_text(self@),
    {
        match self {
            NftError::MissingField(f) => prefixed("参数不能为空: ", f),
            NftError::InvalidPrice => String::from_str("价格必须大于 0"),
            NftError::TokenNotFound { token_id } => prefixed("NFT 不存在: token_id=", token_id.as_str()),
            NftError::NotTokenOwner => String::from_str("当前用户不是 NFT 持有人"),
            NftError::TokenAlreadyListed => String::from_str("NFT 已经在售"),
            NftError::ListingNotFound { listing_id } => prefixed("挂单不存在: listing_id=", listing_id.as_str()),
            NftError::ListingClosed { status } => {
                let name = match status {
                    ListingStatus::Active => "Active",
                    ListingStatus::Sold => "Sold",
                    ListingStatus::Cancelled => "Cancelled",
                };
                prefixed("挂单状态不可操作: status=", name)
            },
            NftError::SelfPurchaseNotAllowed => String::from_str("不能购买自己的挂单"),
        }
    }
}

/// What a purchase did.
#[derive(Debug, Clone, PartialEq, Eq)]
pub struct PurchaseOutcome {
    /// Listing bought.
    pub listing_id: String,
    /// Buyer.
    pub buyer: String,
    /// The token, now held by the buyer.
    pub token: NftToken,
    /// Price paid.
    pub paid_price: u64,
}

/// A purchase outcome, viewed.
pub struct PurchaseOutcomeV {
    pub listing_id: Seq<char>,
    pub buyer: Seq<char>,
    pub token: NftTokenV,
    pub paid_price: u64,
}

impl View for PurchaseOutcome {
    type V = PurchaseOutcomeV;

    open spec fn view(&self) -> PurchaseOutcomeV {
        PurchaseOutcomeV { listing_id: self.listing_id@, buyer: self.buyer@, token: self.token@, paid_price: self.paid_price }
    }
}

/// The marketplace.
pub struct NftMarketplace {
    /// Tokens by id.
    pub tokens: KeyedMap<NftToken>,
    /// Listings by id.
    pub listings: KeyedMap<NftListing>,
    /// Last token number handed out.
    next_token_seq: u64,
    /// Last listing number handed out.
    next_listing_seq: u64,
}

/// Tokens in order, viewed.
pub type TokenSeq = Seq<(Seq<char>, NftTokenV)>;
/// Listings in order, viewed.
pub type ListingSeq = Seq<(Seq<char>, NftListingV)>;

/// The marketplace, viewed.
pub struct MarketView {
    pub tokens: TokenSeq,
    pub listings: ListingSeq,
    pub next_token_seq: u64,
    pub next_listing_seq: u64,
}

impl View for NftMarketplace {
    type V = MarketView;

    closed spec fn view(&self) -> MarketView {
        MarketView {
            tokens: viewed(self.tokens.seq()),
            listings: viewed(self.listings.seq()),
            next_token_seq: self.next_token_seq,
            next_listing_seq: self.next_listing_seq,
        }
    }
}

/// `n + 1`, staying at `u64::MAX`.
pub open spec fn bump(n: u64) -> u64 {
    if n == u64::MAX { n } else { (n + 1) as u64 }
}

/// The id of the `n`-th token.
pub open spec fn token_id_for(n: u64) -> Seq<char> {
    "nft-"@ + dec_nat(n as nat)
}

/// The id of the `n`-th listing.
pub open spec fn listing_id_for(n: u64) -> Seq<char> {
    "listing-"@ + dec_nat(n as nat)
}

/// Whether some listing of `token` is active.
pub open spec fn has_active_listing(ls: ListingSeq, token: Seq<char>) -> bool {
    exists|i: int| 0 <= i < ls.len() && #[trigger] ls[i].1.token_id == token && ls[i].1.status == ListingStatus::Active
}

/// No token has two active listings.
pub open spec fn one_active_listing(ls: ListingSeq) -> bool {
    forall|i: int, j: int|
        0 <= i < ls.len() && 0 <= j < ls.len() && i != j && ls[i].1.status == ListingStatus::Active
            && ls[j].1.status == ListingStatus::Active ==> #[trigger] ls[i].1.token_id != #[trigger] ls[j].1.token_id
}

/// What minting does.
pub open spec fn mint_spec(v: MarketView, owner: Seq<char>, name: Seq<char>, description: Seq<char>, image_url: Seq<char>) -> (MarketView, Result<NftTokenV, NftErrorV>) {
    if is_blank_seq(owner) {
        (v, Err(NftErrorV::MissingField("owner")))
    } else if is_blank_seq(name) {
        (v, Err(NftErrorV::MissingField("name")))
    } else if is_blank_seq(image_url) {
        (v, Err(NftErrorV::MissingField("image_url")))
    } else {
        let n = bump(v.next_token_seq);
        let t = NftTokenV { token_id: token_id_for(n), owner, name, description, image_url };
        (MarketView { tokens: put_entry(v.tokens, t.token_id, t), next_token_seq: n, ..v }, Ok(t))
    }
}

/// What listing a token does.
pub open spec fn list_spec(v: MarketView, seller: Seq<char>, token_id: Seq<char>, price: u64) -> (MarketView, Result<NftListingV, NftErrorV>) {
    if is_blank_seq(seller) {
        (v, Err(NftErrorV::MissingField("seller")))
    } else if is_blank_seq(token_id) {
        (v, Err(NftErrorV::MissingField("token_id")))
    } else if price == 0 {
        (v, Err(NftErrorV::InvalidPrice))
    } else {
        match key_index(v.tokens, token_id) {
            None => (v, Err(NftErrorV::TokenNotFound { token_id })),
            Some(i) => if v.tokens[i].1.owner != seller {
                (v, Err(NftErrorV::NotTokenOwner))
            } else if has_active_listing(v.listings, token_id) {
                (v, Err(NftErrorV::TokenAlreadyListed))
            } else {
                let n = bump(v.next_listing_seq);
                let l = NftListingV { listing_id: listing_id_for(n), token_id, seller, price, status: ListingStatus::Active };
                (MarketView { listings: put_entry(v.listings, l.listing_id, l), next_listing_seq: n, ..v }, Ok(l))
            },
        }
    }
}

/// What cancelling a listing does.
pub open spec fn cancel_spec(v: MarketView, seller: Seq<char>, listing_id: Seq<char>) -> (MarketView, Result<NftListingV, NftErrorV>) {
    if is_blank_seq(seller) {
        (v, Err(NftErrorV::MissingField("seller")))
    } else if is_blank_seq(listing_id) {
        (v, Err(NftErrorV::MissingField("listing_id")))
    } else {
        match key_index(v.listings, listing_id) {
            None => (v, Err(NftErrorV::ListingNotFound { listing_id })),
            Some(i) => {
                let l = v.listings[i].1;
                if l.seller != seller {
                    (v, Err(NftErrorV::NotTokenOwner))
                } else if l.status != ListingStatus::Active {
                    (v, Err(NftErrorV::ListingClosed { status: l.status }))
                } else {
                    let l2 = NftListingV { status: ListingStatus::Cancelled, ..l };
                    (MarketView { listings: v.listings.update(i, (v.listings[i].0, l2)), ..v }, Ok(l2))
                }
            },
        }
    }
}

/// What buying a listing does.
pub open spec fn buy_spec(v: MarketView, buyer: Seq<char>, listing_id: Seq<char>) -> (MarketView, Result<PurchaseOutcomeV, NftErrorV>) {
    if is_blank_seq(buyer) {
        (v, Err(NftErrorV::MissingField("buyer")))
    } else if is_blank_seq(listing_id) {
        (v, Err(NftErrorV::MissingField("listing_id")))
    } else {
        match key_index(v.listings, listing_id) {
            None => (v, Err(NftErrorV::ListingNotFound { listing_id })),
            Some(i) => {
                let l = v.listings[i].1;
                if l.status != ListingStatus::Active {
                    (v, Err(NftErrorV::ListingClosed { status: l.status }))
                } else if l.seller == buyer {
                    (v, Err(NftErrorV::SelfPurchaseNotAllowed))
                } else {
                    match key_index(v.tokens, l.token_id) {
                        None => (v, Err(NftErrorV::TokenNotFound { token_id: l.token_id })),
                        Some(j) => {
                            let t = NftTokenV { owner: buyer, ..v.tokens[j].1 };
                            let l2 = NftListingV { status: ListingStatus::Sold, ..l };
                            (
                                MarketView {
                                    tokens: v.tokens.update(j, (v.tokens[j].0, t)),
                                    listings: v.listings.update(i, (v.listings[i].0, l2)),
                                    ..v
                                },
                                Ok(PurchaseOutcomeV { listing_id: l.listing_id, buyer, token: t, paid_price: l.price }),
                            )
                        },
                    }
                }
            },
        }
    }
}

/// A token result, viewed.
pub open spec fn token_result(r: Result<NftToken, NftError>) -> Result<NftTokenV, NftErrorV> {
    match r {
        Ok(t) => Ok(t@),
        Err(e) => Err(e@),
    }
}

/// A listing result, viewed.
pub open spec fn listing_result(r: Result<NftListing, NftError>) -> Result<NftListingV, NftErrorV> {
    match r {
        Ok(l) => Ok(l@),
        Err(e) => Err(e@),
    }
}

/// A purchase result, viewed.
pub open spec fn purchase_result(r: Result<PurchaseOutcome, NftError>) -> Result<PurchaseOutcomeV, NftErrorV> {
    match r {
        Ok(o) => Ok(o@),
        Err(e) => Err(e@),
    }
}

/// A copy of a token.
fn copy_token(t: &NftToken) -> (r: NftToken)
    ensures
        r@ == t@,
{
    NftToken {
        token_id: t.token_id.clone(),
        owner: t.owner.clone(),
        name: t.name.clone(),
        description: t.description.clone(),
        image_url: t.image_url.clone(),
    }
}

/// A copy of a listing.
fn copy_listing(l: &NftListing) -> (r: NftListing)
    ensures
        r@ == l@,
{
    NftListing {
        listing_id: l.listing_id.clone(),
        token_id: l.token_id.clone(),
        seller: l.seller.clone(),
        price: l.price,
        status: l.status,
    }
}

/// Whether a listing is active.
fn is_active(s: ListingStatus) -> (r: bool)
    ensures
        r == (s == ListingStatus::Active),
{
    match s {
        ListingStatus::Active => true,
        _ => false,
    }
}

/// `prefix` followed by the decimal text of `n`.
fn numbered_id(prefix: &str, n: u64) -> (r: String)
    ensures
        r@ == prefix@ + dec_nat(n as nat),
{
    let mut s = String::from_str(prefix);
    let digits = dec_u64(n);
    s.append(digits.as_str());
    s
}

/// The listings that are active, in order.
pub open spec fn active_of(ls: ListingSeq) -> Seq<NftListingV> {
    ls.map_values(|e: (Seq<char>, NftListingV)| e.1).filter(|l: NftListingV| l.status == ListingStatus::Active)
}

/// The tokens `owner` holds, in order.
pub open spec fn tokens_of(ts: TokenSeq, owner: Seq<char>) -> Seq<NftTokenV> {
    ts.map_values(|e: (Seq<char>, NftTokenV)| e.1).filter(|t: NftTokenV| t.owner == owner)
}

impl NftMarketplace {
    /// The token with id `token_id`.
    pub fn token(&self, token_id: &str) -> (r: Result<NftToken, NftError>)
        ensures
            match key_index(self@.tokens, token_id@) {
                Some(i) => r is Ok && r->Ok_0@ == self@.tokens[i].1,
                None => r is Err && r->Err_0@ == NftErrorV::TokenNotFound { token_id: token_id@ },
            },
    {
        match self.tokens.lookup(token_id) {
            Some(i) => Ok(copy_token(self.tokens.value_at(i))),
            None => Err(NftError::TokenNotFound { token_id: String::from_str(token_id) }),
        }
    }

    /// The listing with id `listing_id`.
    pub fn listing(&self, listing_id: &str) -> (r: Result<NftListing, NftError>)
        ensures
            match key_index(self@.listings, listing_id@) {
                Some(i) => r is Ok && r->Ok_0@ == self@.listings[i].1,
                None => r is Err && r->Err_0@ == NftErrorV::ListingNotFound { listing_id: listing_id@ },
            },
    {
        match self.listings.lookup(listing_id) {
            Some(i) => Ok(copy_listing(self.listings.value_at(i))),
            None => Err(NftError::ListingNotFound { listing_id: String::from_str(listing_id) }),
        }
    }

    /// The active listings, in the order they were made.
    pub fn active_listings(&self) -> (r: Vec<NftListing>)
        ensures
            r@.map_values(|l: NftListing| l@) == active_of(self@.listings),
    {
        let n = self.listings.len();
        let ghost all = self@.listings.map_values(|e: (Seq<char>, NftListingV)| e.1);
        let mut out: Vec<NftListing> = Vec::new();
        let mut i: usize = 0;
        while i < n
            invariant
                n == self.listings.seq().len(),
                i <= n,
                all == self@.listings.map_values(|e: (Seq<char>, NftListingV)| e.1),
                all.len() == n,
                forall|k: int| 0 <= k < n ==> #[trigger] all[k] == self.listings.seq()[k].1@,
                out@.map_values(|l: NftListing| l@) == all.subrange(0, i as int).filter(|l: NftListingV| l.status == ListingStatus::Active),
            decreases n - i,
        {
            let l = self.listings.value_at(i);
            let ghost before = out@.map_values(|l: NftListing| l@);
            if is_active(l.status) {
                out.push(copy_listing(l));
            }
            proof {
                assert(all[i as int] == l@);
                all.subrange(0, i as int).lemma_filter_push(l@, |l: NftListingV| l.status == ListingStatus::Active);
                assert(all.subrange(0, i + 1) =~= all.subrange(0, i as int).push(l@));
                assert(out@.map_values(|l: NftListing| l@) =~= (if l@.status == ListingStatus::Active { before.push(l@) } else { before }));
            }
            i = i + 1;
        }
        proof { assert(all.subrange(0, n as int) =~= all); }
        out
    }

    /// The tokens `owner` holds, in the order they were minted.
    pub fn owner_tokens(&self, owner: &str) -> (r: Vec<NftToken>)
        ensures
            r@.map_values(|t: NftToken| t@) == tokens_of(self@.tokens, owner@),
    {
        let n = self.tokens.len();
        let ghost all = self@.tokens.map_values(|e: (Seq<char>, NftTokenV)| e.1);
        let mut out: Vec<NftToken> = Vec::new();
        let mut i: usize = 0;
        while i < n
            invariant
                n == self.tokens.seq().len(),
                i <= n,
                all == self@.tokens.map_values(|e: (Seq<char>, NftTokenV)| e.1),
                all.len() == n,
                forall|k: int| 0 <= k < n ==> #[trigger] all[k] == self.tokens.seq()[k].1@,
                out@.map_values(|t: NftToken| t@) == all.subrange(0, i as int).filter(|t: NftTokenV| t.owner == owner@),
            decreases n - i,
        {
            let t = self.tokens.value_at(i);
            let ghost before = out@.map_values(|t: NftToken| t@);
            if str_eq(t.owner.as_str(), owner) {
                out.push(copy_token(t));
            }
            proof {
                assert(all[i as int] == t@);
                all.subrange(0, i as int).lemma_filter_push(t@, |t: NftTokenV| t.owner == owner@);
                assert(all.subrange(0, i + 1) =~= all.subrange(0, i as int).push(t@));
                assert(out@.map_values(|t: NftToken| t@) =~= (if t@.owner == owner@ { before.push(t@) } else { before }));
            }
            i = i + 1;
        }
        proof { assert(all.subrange(0, n as int) =~= all); }
        out
    }

    /// An empty marketplace.
    pub fn new() -> (r: Self)
        ensures
            r@ == (MarketView { tokens: Seq::empty(), listings: Seq::empty(), next_token_seq: 0, next_listing_seq: 0 }),
    {
        let r = NftMarketplace { tokens: KeyedMap::new(), listings: KeyedMap::new(), next_token_seq: 0, next_listing_seq: 0 };
        assert(r@.tokens =~= Seq::<(Seq<char>, NftTokenV)>::empty());
        assert(r@.listings =~= Seq::<(Seq<char>, NftListingV)>::empty());
        r
    }

    /// Mints a token to `owner` under the next token id.
    pub fn mint(&mut self, owner: &str, name: &str, description: &str, image_url: &str) -> (r: Result<NftToken, NftError>)
        ensures
            (final(self)@, token_result(r)) == mint_spec(old(self)@, owner@, name@, description@, image_url@),
    {
        if is_blank(owner) {
            return Err(NftError::MissingField("owner"));
        }
        if is_blank(name) {
            return Err(NftError::MissingField("name"));
        }
        if is_blank(image_url) {
            return Err(NftError::MissingField("image_url"));
        }
        self.next_token_seq = if self.next_token_seq == u64::MAX { self.next_token_seq } else { self.next_token_seq + 1 };
        let token_id = numbered_id("nft-", self.next_token_seq);
        let token = NftToken {
            token_id: token_id.clone(),
            owner: String::from_str(owner),
            name: String::from_str(name),
            description: String::from_str(description),
            image_url: String::from_str(image_url),
        };
        let out = copy_token(&token);
        self.tokens.store(token_id, token);
        Ok(out)
    }

    /// Whether some listing of `token_id` is active.
    fn has_active(&self, token_id: &str) -> (r: bool)
        ensures
            r == has_active_listing(self@.listings, token_id@),
    {
        let n = self.listings.len();
        let mut k: usize = 0;
        while k < n
            invariant
                n == self@.listings.len(),
                k <= n,
                forall|j: int| 0 <= j < k ==> !(#[trigger] self@.listings[j].1.token_id == token_id@ && self@.listings[j].1.status == ListingStatus::Active),
            decreases n - k,
        {
            let l = self.listings.value_at(k);
            if is_active(l.status) && l.token_id == String::from_str(token_id) {
                proof { assert(self@.listings[k as int].1.token_id == token_id@); }
                return true;
            }
            proof { assert(self@.listings[k as int].1 == l@); }
            k = k + 1;
        }
        false
    }

    /// Lists a token held by `seller` at `price`.
    pub fn list(&mut self, seller: &str, token_id: &str, price: u64) -> (r: Result<NftListing, NftError>)
        ensures
            (final(self)@, listing_result(r)) == list_spec(old(self)@, seller@, token_id@, price),
            one_active_listing(old(self)@.listings) ==> one_active_listing(final(self)@.listings),
    {
        if is_blank(seller) {
            return Err(NftError::MissingField("seller"));
        }
        if is_blank(token_id) {
            return Err(NftError::MissingField("token_id"));
        }
        if price == 0 {
            return Err(NftError::InvalidPrice);
        }
        let i = match self.tokens.lookup(token_id) {
            Some(i) => i,
            None => { return Err(NftError::TokenNotFound { token_id: String::from_str(token_id) }); },
        };
        let token = self.tokens.value_at(i);
        if token.owner != String::from_str(seller) {
            return Err(NftError::NotTokenOwner);
        }
        if self.has_active(token_id) {
            return Err(NftError::TokenAlreadyListed);
        }
        self.next_listing_seq = if self.next_listing_seq == u64::MAX { self.next_listing_seq } else { self.next_listing_seq + 1 };
        let listing_id = numbered_id("listing-", self.next_listing_seq);
        let listing = NftListing {
            listing_id: listing_id.clone(),
            token_id: String::from_str(token_id),
            seller: String::from_str(seller),
            price,
            status: ListingStatus::Active,
        };
        let out = copy_listing(&listing);
        let ghost before = self@.listings;
        self.listings.store(listing_id, listing);
        proof {
            let ls = self@.listings;
            if one_active_listing(before) {
                assert forall|a: int, b: int|
                    0 <= a < ls.len() && 0 <= b < ls.len() && a != b && ls[a].1.status == ListingStatus::Active
                        && ls[b].1.status == ListingStatus::Active implies #[trigger] ls[a].1.token_id != #[trigger] ls[b].1.token_id by {
                    match key_index(before, out@.listing_id) {
                        Some(p) => {
                            if a != p && b != p {
                                assert(ls[a] == before[a] && ls[b] == before[b]);
                                assert(before[a].1.token_id != before[b].1.token_id);
                            } else if a == p {
                                assert(ls[b] == before[b]);
                                assert(before[b].1.token_id != token_id@);
                            } else {
                                assert(ls[a] == before[a]);
                                assert(before[a].1.token_id != token_id@);
                            }
                        },
                        None => {
                            if a < before.len() && b < before.len() {
                                assert(ls[a] == before[a] && ls[b] == before[b]);
                                assert(before[a].1.token_id != before[b].1.token_id);
                            } else if a == before.len() {
                                assert(ls[b] == before[b]);
                                assert(before[b].1.token_id != token_id@);
                            } else {
                                assert(ls[a] == before[a]);
                                assert(before[a].1.token_id != token_id@);
                            }
                        },
                    }
                }
            }
        }
        Ok(out)
    }

    /// Cancels an active listing of `seller`.
    pub fn cancel_listing(&mut self, seller: &str, listing_id: &str) -> (r: Result<NftListing, NftError>)
        ensures
            (final(self)@, listing_result(r)) == cancel_spec(old(self)@, seller@, listing_id@),
            one_active_listing(old(self)@.listings) ==> one_active_listing(final(self)@.listings),
    {
        if is_blank(seller) {
            return Err(NftError::MissingField("seller"));
        }
        if is_blank(listing_id) {
            return Err(NftError::MissingField("listing_id"));
        }
        let i = match self.listings.lookup(listing_id) {
            Some(i) => i,
            None => { return Err(NftError::ListingNotFound { listing_id: String::from_str(listing_id) }); },
        };
        let l = copy_listing(self.listings.value_at(i));
        if l.seller != String::from_str(seller) {
            return Err(NftError::NotTokenOwner);
        }
        if !is_active(l.status) {
            return Err(NftError::ListingClosed { status: l.status });
        }
        let cancelled = NftListing {
            listing_id: l.listing_id.clone(),
            token_id: l.token_id.clone(),
            seller: l.seller.clone(),
            price: l.price,
            status: ListingStatus::Cancelled,
        };
        let out = copy_listing(&cancelled);
        let ghost before = self@.listings;
        self.listings.replace_at(i, cancelled);
        proof {
            let ls = self@.listings;
            if one_active_listing(before) {
                assert forall|a: int, b: int|
                    0 <= a < ls.len() && 0 <= b < ls.len() && a != b && ls[a].1.status == ListingStatus::Active
                        && ls[b].1.status == ListingStatus::Active implies #[trigger] ls[a].1.token_id != #[trigger] ls[b].1.token_id by {
                    assert(ls[a] == before[a] && ls[b] == before[b]);
                    assert(before[a].1.token_id != before[b].1.token_id);
                }
            }
        }
        Ok(out)
    }

    /// Buys an active listing: the token passes to `buyer` and the listing is sold.
    pub fn buy(&mut self, buyer: &str, listing_id: &str) -> (r: Result<PurchaseOutcome, NftError>)
        ensures
            (final(self)@, purchase_result(r)) == buy_spec(old(self)@, buyer@, listing_id@),
            one_active_listing(old(self)@.listings) ==> one_active_listing(final(self)@.listings),
    {
        if is_blank(buyer) {
            return Err(NftError::MissingField("buyer"));
        }
        if is_blank(listing_id) {
            return Err(NftError::MissingField("listing_id"));
        }
        let i = match self.listings.lookup(listing_id) {
            Some(i) => i,
            None => { return Err(NftError::ListingNotFound { listing_id: String::from_str(listing_id) }); },
        };
        let l = copy_listing(self.listings.value_at(i));
        if !is_active(l.status) {
            return Err(NftError::ListingClosed { status: l.status });
        }
        if l.seller == String::from_str(buyer) {
            return Err(NftError::SelfPurchaseNotAllowed);
        }
        let j = match self.tokens.lookup(l.token_id.as_str()) {
            Some(j) => j,
            None => { return Err(NftError::TokenNotFound { token_id: l.token_id.clone() }); },
        };
        let t = self.tokens.value_at(j);
        let token = NftToken {
            token_id: t.token_id.clone(),
            owner: String::from_str(buyer),
            name: t.name.clone(),
            description: t.description.clone(),
            image_url: t.image_url.clone(),
        };
        let token_out = copy_token(&token);
        self.tokens.replace_at(j, token);
        let sold = NftListing {
            listing_id: l.listing_id.clone(),
            token_id: l.token_id.clone(),
            seller: l.seller.clone(),
            price: l.price,
            status: ListingStatus::Sold,
        };
        let ghost before = self@.listings;
        self.listings.replace_at(i, sold);
        proof {
            let ls = self@.listings;
            if one_active_listing(before) {
                assert forall|a: int, b: int|
                    0 <= a < ls.len() && 0 <= b < ls.len() && a != b && ls[a].1.status == ListingStatus::Active
                        && ls[b].1.status == ListingStatus::Active implies #[trigger] ls[a].1.token_id != #[trigger] ls[b].1.token_id by {
                    assert(ls[a] == before[a] && ls[b] == before[b]);
                    assert(before[a].1.token_id != before[b].1.token_id);
                }
            }
        }
        Ok(PurchaseOutcome { listing_id: l.listing_id.clone(), buyer: String::from_str(buyer), token: token_out, paid_price: l.price })
    }
}

// ---------------------------------------------------------------- invariant

/// Every listing is keyed by a listing id handed out so far.
pub open spec fn listing_keys_issued(ls: ListingSeq, next: u64) -> bool {
    forall|i: int| #![trigger ls[i]] 0 <= i < ls.len() ==> exists|m: u64| 1 <= m <= next && #[trigger] listing_id_for(m) == ls[i].0
}

/// Every token is keyed by a token id handed out so far.
pub open spec fn token_keys_issued(ts: TokenSeq, next: u64) -> bool {
    forall|i: int| #![trigger ts[i]] 0 <= i < ts.len() ==> exists|m: u64| 1 <= m <= next && #[trigger] token_id_for(m) == ts[i].0
}

/// The seller of every active listing holds the listed token.
pub open spec fn sellers_hold(v: MarketView) -> bool {
    forall|i: int| #![trigger v.listings[i]] 0 <= i < v.listings.len() && v.listings[i].1.status == ListingStatus::Active ==> {
        &&& key_index(v.tokens, v.listings[i].1.token_id) is Some
        &&& v.tokens[key_index(v.tokens, v.listings[i].1.token_id)->0].1.owner == v.listings[i].1.seller
    }
}

/// What every marketplace keeps: unique keys, at most one active listing
/// per token, every active listing's seller holding its token, and ids
/// that were all handed out by the counters.
pub open spec fn market_inv(v: MarketView) -> bool {
    &&& keys_unique(v.tokens)
    &&& keys_unique(v.listings)
    &&& one_active_listing(v.listings)
    &&& sellers_hold(v)
    &&& listing_keys_issued(v.listings, v.next_listing_seq)
    &&& token_keys_issued(v.tokens, v.next_token_seq)
}

/// The entry a key lookup names holds that key.
proof fn lemma_key_at<W>(s: Seq<(Seq<char>, W)>, k: Seq<char>)
    requires
        key_index(s, k) is Some,
    ensures
        0 <= key_index(s, k)->0 < s.len(),
        s[key_index(s, k)->0].0 == k,
{
}

/// The next listing id is not yet in use.
proof fn lemma_fresh_listing(v: MarketView)
    requires
        market_inv(v),
        v.next_listing_seq < u64::MAX,
    ensures
        key_index(v.listings, listing_id_for(bump(v.next_listing_seq))) is None,
{
    let id = listing_id_for(bump(v.next_listing_seq));
    if has_key(v.listings, id) {
        let i = choose|i: int| 0 <= i < v.listings.len() && #[trigger] v.listings[i].0 == id;
        assert(v.listings[i].0 == id);
        let m = choose|m: u64| 1 <= m <= v.next_listing_seq && #[trigger] listing_id_for(m) == v.listings[i].0;
        lemma_numbered_injective("listing-"@, m as nat, bump(v.next_listing_seq) as nat);
    }
}

/// The next token id is not yet in use.
proof fn lemma_fresh_token(v: MarketView)
    requires
        market_inv(v),
        v.next_token_seq < u64::MAX,
    ensures
        key_index(v.tokens, token_id_for(bump(v.next_token_seq))) is None,
{
    let id = token_id_for(bump(v.next_token_seq));
    if has_key(v.tokens, id) {
        let i = choose|i: int| 0 <= i < v.tokens.len() && #[trigger] v.tokens[i].0 == id;
        assert(v.tokens[i].0 == id);
        let m = choose|m: u64| 1 <= m <= v.next_token_seq && #[trigger] token_id_for(m) == v.tokens[i].0;
        lemma_numbered_injective("nft-"@, m as nat, bump(v.next_token_seq) as nat);
    }
}

/// An empty marketplace keeps the invariant.
pub proof fn law_new_market_inv()
    ensures
        market_inv(MarketView { tokens: Seq::empty(), listings: Seq::empty(), next_token_seq: 0, next_listing_seq: 0 }),
{
}

/// Minting keeps the marketplace invariant, as long as the token counter
/// has room left.
pub proof fn law_mint_keeps_market(v: MarketView, owner: Seq<char>, name: Seq<char>, description: Seq<char>, image_url: Seq<char>)
    requires
        market_inv(v),
        v.next_token_seq < u64::MAX,
    ensures
        market_inv(mint_spec(v, owner, name, description, image_url).0),
{
    let w = mint_spec(v, owner, name, description, image_url).0;
    if w != v {
        lemma_fresh_token(v);
        let n = bump(v.next_token_seq);
        let id = token_id_for(n);
        assert(w.tokens == v.tokens.push((id, w.tokens.last().1)));
        assert(keys_unique(w.tokens)) by {
            assert forall|a: int, b: int| 0 <= a < w.tokens.len() && 0 <= b < w.tokens.len() && a != b
                implies #[trigger] w.tokens[a].0 != #[trigger] w.tokens[b].0 by {
                if a < v.tokens.len() && b < v.tokens.len() {
                    assert(w.tokens[a] == v.tokens[a] && w.tokens[b] == v.tokens[b]);
                } else if a < v.tokens.len() {
                    assert(w.tokens[a] == v.tokens[a]);
                    if v.tokens[a].0 == id { assert(has_key(v.tokens, id)); }
                } else {
                    assert(w.tokens[b] == v.tokens[b]);
                    if v.tokens[b].0 == id { assert(has_key(v.tokens, id)); }
                }
            }
        }
        assert(token_keys_issued(w.tokens, n)) by {
            assert forall|i: int| #![trigger w.tokens[i]] 0 <= i < w.tokens.len()
                implies exists|m: u64| 1 <= m <= n && #[trigger] token_id_for(m) == w.tokens[i].0 by {
                if i < v.tokens.len() {
                    assert(w.tokens[i] == v.tokens[i]);
                    let m = choose|m: u64| 1 <= m <= v.next_token_seq && #[trigger] token_id_for(m) == v.tokens[i].0;
                    assert(token_id_for(m) == w.tokens[i].0);
                } else {
                    assert(token_id_for(n) == w.tokens[i].0);
                }
            }
        }
        assert(sellers_hold(w)) by {
            assert forall|i: int| #![trigger w.listings[i]] 0 <= i < w.listings.len() && w.listings[i].1.status == ListingStatus::Active implies {
                &&& key_index(w.tokens, w.listings[i].1.token_id) is Some
                &&& w.tokens[key_index(w.tokens, w.listings[i].1.token_id)->0].1.owner == w.listings[i].1.seller
            } by {
                assert(v.listings[i] == w.listings[i]);
                let tk = v.listings[i].1.token_id;
                lemma_key_at(v.tokens, tk);
                let j = key_index(v.tokens, tk)->0;
                assert(w.tokens[j] == v.tokens[j]);
                lemma_key_index(w.tokens, tk, j);
            }
        }
    }
}

/// Listing keeps the marketplace invariant, as long as the listing counter
/// has room left; a new listing takes an id not in use and is added after
/// the others.
pub proof fn law_list_keeps_market(v: MarketView, seller: Seq<char>, token_id: Seq<char>, price: u64)
    requires
        market_inv(v),
        v.next_listing_seq < u64::MAX,
    ensures
        market_inv(list_spec(v, seller, token_id, price).0),
        list_spec(v, seller, token_id, price).1 matches Ok(l) ==> {
            &&& key_index(v.listings, l.listing_id) is None
            &&& list_spec(v, seller, token_id, price).0.listings == v.listings.push((l.listing_id, l))
            &&& list_spec(v, seller, token_id, price).0.tokens == v.tokens
        },
{
    let (w, r) = list_spec(v, seller, token_id, price);
    if r is Ok {
        lemma_fresh_listing(v);
        let n = bump(v.next_listing_seq);
        let id = listing_id_for(n);
        let l = r->Ok_0;
        assert(w.listings == v.listings.push((id, l)));
        assert(!has_active_listing(v.listings, token_id));
        assert(keys_unique(w.listings)) by {
            assert forall|a: int, b: int| 0 <= a < w.listings.len() && 0 <= b < w.listings.len() && a != b
                implies #[trigger] w.listings[a].0 != #[trigger] w.listings[b].0 by {
                if a < v.listings.len() && b < v.listings.len() {
                    assert(w.listings[a] == v.listings[a] && w.listings[b] == v.listings[b]);
                } else if a < v.listings.len() {
                    assert(w.listings[a] == v.listings[a]);
                    if v.listings[a].0 == id { assert(has_key(v.listings, id)); }
                } else {
                    assert(w.listings[b] == v.listings[b]);
                    if v.listings[b].0 == id { assert(has_key(v.listings, id)); }
                }
            }
        }
        assert(one_active_listing(w.listings)) by {
            assert forall|a: int, b: int|
                0 <= a < w.listings.len() && 0 <= b < w.listings.len() && a != b && w.listings[a].1.status == ListingStatus::Active
                    && w.listings[b].1.status == ListingStatus::Active implies #[trigger] w.listings[a].1.token_id != #[trigger] w.listings[b].1.token_id by {
                if a < v.listings.len() && b < v.listings.len() {
                    assert(w.listings[a] == v.listings[a] && w.listings[b] == v.listings[b]);
                } else if a < v.listings.len() {
                    assert(w.listings[a] == v.listings[a]);
                    assert(w.listings[b].1 == l);
                    if v.listings[a].1.token_id == token_id {
                        assert(v.listings[a].1.token_id == token_id && v.listings[a].1.status == ListingStatus::Active);
                    }
                } else {
                    assert(w.listings[b] == v.listings[b]);
                    assert(w.listings[a].1 == l);
                    if v.listings[b].1.token_id == token_id {
                        assert(v.listings[b].1.token_id == token_id && v.listings[b].1.status == ListingStatus::Active);
                    }
                }
            }
        }
        assert(listing_keys_issued(w.listings, n)) by {
            assert forall|i: int| #![trigger w.listings[i]] 0 <= i < w.listings.len()
                implies exists|m: u64| 1 <= m <= n && #[trigger] listing_id_for(m) == w.listings[i].0 by {
                if i < v.listings.len() {
                    assert(w.listings[i] == v.listings[i]);
                    let m = choose|m: u64| 1 <= m <= v.next_listing_seq && #[trigger] listing_id_for(m) == v.listings[i].0;
                    assert(listing_id_for(m) == w.listings[i].0);
                } else {
                    assert(listing_id_for(n) == w.listings[i].0);
                }
            }
        }
        assert(sellers_hold(w)) by {
            assert forall|i: int| #![trigger w.listings[i]] 0 <= i < w.listings.len() && w.listings[i].1.status == ListingStatus::Active implies {
                &&& key_index(w.tokens, w.listings[i].1.token_id) is Some
                &&& w.tokens[key_index(w.tokens, w.listings[i].1.token_id)->0].1.owner == w.listings[i].1.seller
            } by {
                if i < v.listings.len() {
                    assert(v.listings[i] == w.listings[i]);
                } else {
                    assert(w.listings[i].1 == l);
                }
            }
        }
    }
}

/// Cancelling keeps the marketplace invariant.
pub proof fn law_cancel_keeps_market(v: MarketView, seller: Seq<char>, listing_id: Seq<char>)
    requires
        market_inv(v),
    ensures
        market_inv(cancel_spec(v, seller, listing_id).0),
{
    let (w, r) = cancel_spec(v, seller, listing_id);
    if r is Ok {
        let i = key_index(v.listings, listing_id)->0;
        lemma_key_at(v.listings, listing_id);
        assert forall|k: int| 0 <= k < w.listings.len() && k != i implies #[trigger] w.listings[k] == v.listings[k] by {}
        assert(w.listings[i].1.status == ListingStatus::Cancelled);
        assert(w.listings[i].0 == v.listings[i].0);
        assert(keys_unique(w.listings)) by {
            assert forall|a: int, b: int| 0 <= a < w.listings.len() && 0 <= b < w.listings.len() && a != b
                implies #[trigger] w.listings[a].0 != #[trigger] w.listings[b].0 by {
                assert(w.listings[a].0 == v.listings[a].0 && w.listings[b].0 == v.listings[b].0);
            }
        }
        assert(one_active_listing(w.listings)) by {
            assert forall|a: int, b: int|
                0 <= a < w.listings.len() && 0 <= b < w.listings.len() && a != b && w.listings[a].1.status == ListingStatus::Active
                    && w.listings[b].1.status == ListingStatus::Active implies #[trigger] w.listings[a].1.token_id != #[trigger] w.listings[b].1.token_id by {
                assert(w.listings[a] == v.listings[a] && w.listings[b] == v.listings[b]);
            }
        }
        assert(listing_keys_issued(w.listings, w.next_listing_seq)) by {
            assert forall|k: int| #![trigger w.listings[k]] 0 <= k < w.listings.len()
                implies exists|m: u64| 1 <= m <= w.next_listing_seq && #[trigger] listing_id_for(m) == w.listings[k].0 by {
                assert(w.listings[k].0 == v.listings[k].0);
                assert(v.listings[k] == v.listings[k]);
                let m = choose|m: u64| 1 <= m <= v.next_listing_seq && #[trigger] listing_id_for(m) == v.listings[k].0;
                assert(listing_id_for(m) == w.listings[k].0);
            }
        }
        assert(sellers_hold(w)) by {
            assert forall|k: int| #![trigger w.listings[k]] 0 <= k < w.listings.len() && w.listings[k].1.status == ListingStatus::Active implies {
                &&& key_index(w.tokens, w.listings[k].1.token_id) is Some
                &&& w.tokens[key_index(w.tokens, w.listings[k].1.token_id)->0].1.owner == w.listings[k].1.seller
            } by {
                assert(v.listings[k] == w.listings[k]);
            }
        }
    }
}

/// Buying keeps the marketplace invariant.
pub proof fn law_buy_keeps_market(v: MarketView, buyer: Seq<char>, listing_id: Seq<char>)
    requires
        market_inv(v),
    ensures
        market_inv(buy_spec(v, buyer, listing_id).0),
{
    let (w, r) = buy_spec(v, buyer, listing_id);
    if r is Ok {
        let i = key_index(v.listings, listing_id)->0;
        lemma_key_at(v.listings, listing_id);
        let l = v.listings[i].1;
        let j = key_index(v.tokens, l.token_id)->0;
        lemma_key_at(v.tokens, l.token_id);
        assert forall|k: int| 0 <= k < w.listings.len() && k != i implies #[trigger] w.listings[k] == v.listings[k] by {}
        assert forall|k: int| 0 <= k < w.tokens.len() && k != j implies #[trigger] w.tokens[k] == v.tokens[k] by {}
        assert(w.listings[i].1.status == ListingStatus::Sold);
        assert(w.listings[i].0 == v.listings[i].0);
        assert(w.tokens[j].0 == v.tokens[j].0);
        assert(keys_unique(w.listings)) by {
            assert forall|a: int, b: int| 0 <= a < w.listings.len() && 0 <= b < w.listings.len() && a != b
                implies #[trigger] w.listings[a].0 != #[trigger] w.listings[b].0 by {
                assert(w.listings[a].0 == v.listings[a].0 && w.listings[b].0 == v.listings[b].0);
            }
        }
        assert(keys_unique(w.tokens)) by {
            assert forall|a: int, b: int| 0 <= a < w.tokens.len() && 0 <= b < w.tokens.len() && a != b
                implies #[trigger] w.tokens[a].0 != #[trigger] w.tokens[b].0 by {
                assert(w.tokens[a].0 == v.tokens[a].0 && w.tokens[b].0 == v.tokens[b].0);
            }
        }
        assert(one_active_listing(w.listings)) by {
            assert forall|a: int, b: int|
                0 <= a < w.listings.len() && 0 <= b < w.listings.len() && a != b && w.listings[a].1.status == ListingStatus::Active
                    && w.listings[b].1.status == ListingStatus::Active implies #[trigger] w.listings[a].1.token_id != #[trigger] w.listings[b].1.token_id by {
                assert(w.listings[a] == v.listings[a] && w.listings[b] == v.listings[b]);
            }
        }
        assert(listing_keys_issued(w.listings, w.next_listing_seq)) by {
            assert forall|k: int| #![trigger w.listings[k]] 0 <= k < w.listings.len()
                implies exists|m: u64| 1 <= m <= w.next_listing_seq && #[trigger] listing_id_for(m) == w.listings[k].0 by {
                assert(w.listings[k].0 == v.listings[k].0);
                assert(v.listings[k] == v.listings[k]);
                let m = choose|m: u64| 1 <= m <= v.next_listing_seq && #[trigger] listing_id_for(m) == v.listings[k].0;
                assert(listing_id_for(m) == w.listings[k].0);
            }
        }
        assert(token_keys_issued(w.tokens, w.next_token_seq)) by {
            assert forall|k: int| #![trigger w.tokens[k]] 0 <= k < w.tokens.len()
                implies exists|m: u64| 1 <= m <= w.next_token_seq && #[trigger] token_id_for(m) == w.tokens[k].0 by {
                assert(w.tokens[k].0 == v.tokens[k].0);
                assert(v.tokens[k] == v.tokens[k]);
                let m = choose|m: u64| 1 <= m <= v.next_token_seq && #[trigger] token_id_for(m) == v.tokens[k].0;
                assert(token_id_for(m) == w.tokens[k].0);
            }
        }
        assert(sellers_hold(w)) by {
            assert forall|k: int| #![trigger w.listings[k]] 0 <= k < w.listings.len() && w.listings[k].1.status == ListingStatus::Active implies {
                &&& key_index(w.tokens, w.listings[k].1.token_id) is Some
                &&& w.tokens[key_index(w.tokens, w.listings[k].1.token_id)->0].1.owner == w.listings[k].1.seller
            } by {
                assert(k != i);
                assert(v.listings[k] == w.listings[k]);
                let tk = v.listings[k].1.token_id;
                assert(tk != l.token_id);
                lemma_key_at(v.tokens, tk);
                let j2 = key_index(v.tokens, tk)->0;
                assert(j2 != j);
                assert(w.tokens[j2] == v.tokens[j2]);
                lemma_key_index(w.tokens, tk, j2);
            }
        }
    }
}

/// Only the seller cancels a listing, and only an active one: a successful
/// cancellation names a listing that was active and whose seller is the
/// caller, and marks it cancelled leaving everything else as it was; anyone
/// else's attempt is refused as not the owner, with nothing changed.
pub proof fn law_only_seller_cancels(v: MarketView, seller: Seq<char>, listing_id: Seq<char>)
    ensures
        cancel_spec(v, seller, listing_id).1 matches Ok(l) ==> {
            let i = key_index(v.listings, listing_id)->0;
            &&& key_index(v.listings, listing_id) is Some
            &&& v.listings[i].1.seller == seller
            &&& v.listings[i].1.status == ListingStatus::Active
            &&& l == NftListingV { status: ListingStatus::Cancelled, ..v.listings[i].1 }
            &&& cancel_spec(v, seller, listing_id).0 == MarketView { listings: v.listings.update(i, (v.listings[i].0, l)), ..v }
        },
        !is_blank_seq(seller) && !is_blank_seq(listing_id) && key_index(v.listings, listing_id) is Some
            && v.listings[key_index(v.listings, listing_id)->0].1.seller != seller
            ==> cancel_spec(v, seller, listing_id) == (v, Err::<NftListingV, NftErrorV>(NftErrorV::NotTokenOwner)),
{
}

/// Only the holder lists a token: a successful listing names a token whose
/// owner is the seller, at a price above zero, with no other active listing.
pub proof fn law_only_owner_lists(v: MarketView, seller: Seq<char>, token_id: Seq<char>, price: u64)
    ensures
        list_spec(v, seller, token_id, price).1 matches Ok(l) ==> {
            &&& key_index(v.tokens, token_id) is Some
            &&& v.tokens[key_index(v.tokens, token_id)->0].1.owner == seller
            &&& price > 0
            &&& !has_active_listing(v.listings, token_id)
            &&& l.seller == seller && l.token_id == token_id && l.price == price && l.status == ListingStatus::Active
        },
        !is_blank_seq(seller) && !is_blank_seq(token_id) && price > 0 && key_index(v.tokens, token_id) is Some
            && v.tokens[key_index(v.tokens, token_id)->0].1.owner != seller
            ==> list_spec(v, seller, token_id, price) == (v, Err::<NftListingV, NftErrorV>(NftErrorV::NotTokenOwner)),
{
}

/// A purchase takes an active listing of someone else: the buyer becomes
/// the token's owner, pays the listed price, and the listing is sold.
pub proof fn law_buy_transfers(v: MarketView, buyer: Seq<char>, listing_id: Seq<char>)
    ensures
        buy_spec(v, buyer, listing_id).1 matches Ok(o) ==> {
            let i = key_index(v.listings, listing_id)->0;
            let l = v.listings[i].1;
            let j = key_index(v.tokens, l.token_id)->0;
            let w = buy_spec(v, buyer, listing_id).0;
            &&& key_index(v.listings, listing_id) is Some
            &&& l.status == ListingStatus::Active
            &&& l.seller != buyer
            &&& key_index(v.tokens, l.token_id) is Some
            &&& o.buyer == buyer && o.paid_price == l.price
            &&& o.token == NftTokenV { owner: buyer, ..v.tokens[j].1 }
            &&& w.tokens == v.tokens.update(j, (v.tokens[j].0, o.token))
            &&& w.listings == v.listings.update(i, (v.listings[i].0, NftListingV { status: ListingStatus::Sold, ..l }))
        },
{
}

} // verus!
