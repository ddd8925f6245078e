use rustchain::defi::{DefiError, InterestRateModel, LendingConfig, LendingPool, SECONDS_PER_YEAR};
use rustchain::nft::{ListingStatus, NftError, NftMarketplace};

#[test]
fn deposit_and_borrow_should_work() {
    let mut pool = LendingPool::new(LendingConfig::default(), 0);
    pool.deposit_collateral("alice", 200).expect("抵押应成功");

    let position = pool.borrow("alice", 100, 10).expect("借款应成功");
    assert_eq!(position.debt_amount, 100);
    assert_eq!(position.collateral_ratio_bps, 20_000);
}

#[test]
fn over_borrow_should_fail() {
    let mut pool = LendingPool::new(LendingConfig::default(), 0);
    pool.deposit_collateral("alice", 100).expect("抵押应成功");

    let result = pool.borrow("alice", 100, 5);
    assert_eq!(
        result,
        Err(DefiError::CollateralRatioTooLow {
            actual: 10_000,
            required: 15_000,
        })
    );
}

#[test]
fn interest_accrual_should_increase_debt() {
    let config = LendingConfig {
        interest_rate_model: InterestRateModel {
            base_rate_bps: 10_000,
            utilization_slope_bps: 0,
        },
        ..LendingConfig::default()
    };
    let mut pool = LendingPool::new(config, 0);
    pool.deposit_collateral("alice", 300).expect("抵押应成功");
    pool.borrow("alice", 100, 0).expect("借款应成功");

    let minted = pool
        .accrue_interest(SECONDS_PER_YEAR as i64)
        .expect("计息应成功");
    assert_eq!(minted, 100);
    assert_eq!(pool.total_debt, 200);
}

#[test]
fn repay_should_reduce_debt() {
    let mut pool = LendingPool::new(LendingConfig::default(), 0);
    pool.deposit_collateral("alice", 400).expect("抵押应成功");
    pool.borrow("alice", 120, 0).expect("借款应成功");

    let repaid = pool.repay("alice", 50, 100).expect("还款应成功");
    let position = pool.positions.get("alice").expect("仓位应存在");
    assert_eq!(repaid, 50);
    assert_eq!(position.debt_amount, 70);
}

#[test]
fn unsafe_withdraw_should_fail() {
    let mut pool = LendingPool::new(LendingConfig::default(), 0);
    pool.deposit_collateral("alice", 150).expect("抵押应成功");
    pool.borrow("alice", 100, 0).expect("借款应成功");

    let result = pool.withdraw_collateral("alice", 10, 1);
    assert_eq!(
        result,
        Err(DefiError::CollateralRatioTooLow {
            actual: 14_000,
            required: 15_000,
        })
    );
}

#[test]
fn liquidation_should_work_when_ratio_below_threshold() {
    let config = LendingConfig {
        interest_rate_model: InterestRateModel {
            base_rate_bps: 50_000,
            utilization_slope_bps: 0,
        },
        ..LendingConfig::default()
    };
    let mut pool = LendingPool::new(config, 0);
    pool.deposit_collateral("alice", 150).expect("抵押应成功");
    pool.borrow("alice", 100, 0).expect("借款应成功");
    pool.accrue_interest(SECONDS_PER_YEAR as i64)
        .expect("计息应成功");

    let outcome = pool.liquidate("alice", 80, SECONDS_PER_YEAR as i64 + 1);
    assert!(outcome.is_ok());
    let final_position = pool.positions.get("alice").expect("仓位应存在");
    assert!(final_position.debt_amount < 600);
}

#[test]
fn healthy_position_should_not_be_liquidated() {
    let mut pool = LendingPool::new(LendingConfig::default(), 0);
    pool.deposit_collateral("alice", 300).expect("抵押应成功");
    pool.borrow("alice", 100, 0).expect("借款应成功");
    let result = pool.liquidate("alice", 50, 0);
    assert!(result.is_err());
    assert_eq!(pool.positions.get("alice").expect("仓位应存在").debt_amount, 100);
}

#[test]
fn zero_amount_deposit_should_fail_and_keep_totals() {
    let mut pool = LendingPool::new(LendingConfig::default(), 0);
    assert!(pool.deposit_collateral("alice", 0).is_err());
    assert_eq!(pool.total_collateral, 0);
    pool.deposit_collateral("alice", 10).expect("抵押应成功");
    assert_eq!(pool.total_collateral, 10);
}

#[test]
fn repay_more_than_debt_should_only_repay_debt() {
    let mut pool = LendingPool::new(LendingConfig::default(), 0);
    pool.deposit_collateral("alice", 400).expect("抵押应成功");
    pool.borrow("alice", 120, 0).expect("借款应成功");
    let repaid = pool.repay("alice", 500, 0).expect("还款应成功");
    assert_eq!(repaid, 120);
    assert_eq!(pool.total_debt, 0);
}

#[test]
fn mint_should_generate_unique_token_id() {
    let mut market = NftMarketplace::new();
    let t1 = market
        .mint("alice", "Sunset", "digital art", "https://img/1.png")
        .expect("铸造应成功");
    let t2 = market
        .mint("alice", "River", "digital art", "https://img/2.png")
        .expect("铸造应成功");

    assert_ne!(t1.token_id, t2.token_id);
    assert_eq!(market.tokens.len(), 2);
}

#[test]
fn non_owner_should_not_list_token() {
    let mut market = NftMarketplace::new();
    let token = market
        .mint("alice", "Sunset", "digital art", "https://img/1.png")
        .expect("铸造应成功");

    let result = market.list("bob", &token.token_id, 100);
    assert_eq!(result, Err(NftError::NotTokenOwner));
}

#[test]
fn buy_should_transfer_ownership() {
    let mut market = NftMarketplace::new();
    let token = market
        .mint("alice", "Sunset", "digital art", "https://img/1.png")
        .expect("铸造应成功");
    let listing = market
        .list("alice", &token.token_id, 188)
        .expect("挂单应成功");

    let outcome = market.buy("bob", &listing.listing_id).expect("购买应成功");
    assert_eq!(outcome.paid_price, 188);
    assert_eq!(outcome.token.owner, "bob");
    assert_eq!(
        market
            .listings
            .get(&listing.listing_id)
            .expect("挂单应存在")
            .status,
        ListingStatus::Sold
    );
}

#[test]
fn seller_should_cancel_active_listing() {
    let mut market = NftMarketplace::new();
    let token = market
        .mint("alice", "Sunset", "digital art", "https://img/1.png")
        .expect("铸造应成功");
    let listing = market
        .list("alice", &token.token_id, 200)
        .expect("挂单应成功");

    let cancelled = market
        .cancel_listing("alice", &listing.listing_id)
        .expect("取消应成功");
    assert_eq!(cancelled.status, ListingStatus::Cancelled);
}

#[test]
fn closed_listing_should_not_be_buyable() {
    let mut market = NftMarketplace::new();
    let token = market
        .mint("alice", "Sunset", "digital art", "https://img/1.png")
        .expect("铸造应成功");
    let listing = market
        .list("alice", &token.token_id, 200)
        .expect("挂单应成功");
    market
        .cancel_listing("alice", &listing.listing_id)
        .expect("取消应成功");

    let result = market.buy("bob", &listing.listing_id);
    assert_eq!(
        result,
        Err(NftError::ListingClosed {
            status: ListingStatus::Cancelled
        })
    );
}

#[test]
fn seller_should_not_buy_own_listing() {
    let mut market = NftMarketplace::new();
    let token = market
        .mint("alice", "Sunset", "digital art", "https://img/1.png")
        .expect("铸造应成功");
    let listing = market
        .list("alice", &token.token_id, 200)
        .expect("挂单应成功");

    let result = market.buy("alice", &listing.listing_id);
    assert_eq!(result, Err(NftError::SelfPurchaseNotAllowed));
}

#[test]
fn mint_ids_should_count_up_and_missing_fields_should_fail() {
    let mut market = NftMarketplace::new();
    let t1 = market.mint("alice", "A", "", "https://img/a.png").expect("铸造应成功");
    assert_eq!(t1.token_id, "nft-1");
    assert_eq!(market.mint(" ", "A", "", "u"), Err(NftError::MissingField("owner")));
    assert_eq!(market.mint("alice", "", "", "u"), Err(NftError::MissingField("name")));
    assert_eq!(market.mint("alice", "A", "", " "), Err(NftError::MissingField("image_url")));
    let t2 = market.mint("bob", "B", "", "https://img/b.png").expect("铸造应成功");
    assert_eq!(t2.token_id, "nft-2");
}

#[test]
fn listing_twice_and_zero_price_should_fail() {
    let mut market = NftMarketplace::new();
    let token = market.mint("alice", "A", "", "u").expect("铸造应成功");
    assert_eq!(market.list("alice", &token.token_id, 0), Err(NftError::InvalidPrice));
    let listing = market.list("alice", &token.token_id, 5).expect("挂单应成功");
    assert_eq!(listing.listing_id, "listing-1");
    assert_eq!(market.list("alice", &token.token_id, 5), Err(NftError::TokenAlreadyListed));
    assert_eq!(
        market.list("alice", "nft-9", 5),
        Err(NftError::TokenNotFound { token_id: "nft-9".to_string() })
    );
    assert_eq!(
        market.buy("bob", "listing-9"),
        Err(NftError::ListingNotFound { listing_id: "listing-9".to_string() })
    );
}
