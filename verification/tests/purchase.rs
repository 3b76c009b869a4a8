use portfolio::{Portfolio, Stock, StockPrice, CASH_ID};

fn stock(id: u64, price: u32) -> Stock {
    Stock::new(
        id,
        "ISIN".to_string(),
        "LSE".to_string(),
        "DISPLAY_NAME".to_string(),
        "TICKER".to_string(),
        StockPrice::new(price, 0),
    )
}

#[test]
fn purchase_without_cash_is_refused() {
    let mut portfolio = Portfolio::new(None);
    let outcome = portfolio.purchase(stock(123, 50), 50);
    assert_eq!(outcome, Err("Not enough cash".to_string()));
    assert_eq!(portfolio.portfolio_value(), 0);
    assert_eq!(portfolio.quantity_of(123), None);
    assert_eq!(portfolio.holding_count(), 1);
}

#[test]
fn purchase_with_cash_adds_to_the_total_and_keeps_the_cash() {
    let mut portfolio = Portfolio::new(Some(10_000));
    let outcome = portfolio.purchase(stock(123, 50), 50);
    assert_eq!(outcome, Ok(()));
    assert_eq!(portfolio.portfolio_value(), 12_500);
    assert_eq!(portfolio.cash_value(), 10_000);
    assert_eq!(portfolio.quantity_of(CASH_ID), Some(10_000));
}

#[test]
fn first_purchase_inserts_one_holding() {
    let mut portfolio = Portfolio::new(Some(1_000));
    assert_eq!(portfolio.holding_count(), 1);
    assert_eq!(portfolio.quantity_of(7), None);
    assert_eq!(portfolio.purchase(stock(7, 10), 3), Ok(()));
    assert_eq!(portfolio.holding_count(), 2);
    assert_eq!(portfolio.quantity_of(7), Some(3));
    assert_eq!(portfolio.quantity_of(8), None);
}

#[test]
fn repeated_purchase_accumulates_in_place() {
    let mut portfolio = Portfolio::new(Some(1_000));
    assert_eq!(portfolio.purchase(stock(7, 10), 3), Ok(()));
    assert_eq!(portfolio.purchase(stock(7, 10), 4), Ok(()));
    assert_eq!(portfolio.holding_count(), 2);
    assert_eq!(portfolio.quantity_of(7), Some(7));
    assert_eq!(portfolio.portfolio_value(), 1_000 + 7 * 10);
}

#[test]
fn repeated_purchase_keeps_the_asset_first_recorded() {
    let mut portfolio = Portfolio::new(Some(1_000));
    assert_eq!(portfolio.purchase(stock(7, 10), 3), Ok(()));
    // The second quote decides whether the purchase is affordable, but the
    // holding goes on being valued at the price recorded with it.
    assert_eq!(portfolio.purchase(stock(7, 100), 2), Ok(()));
    assert_eq!(portfolio.quantity_of(7), Some(5));
    assert_eq!(portfolio.portfolio_value(), 1_000 + 5 * 10);
}

#[test]
fn refused_purchase_changes_nothing() {
    let mut portfolio = Portfolio::new(Some(100));
    assert_eq!(portfolio.purchase(stock(7, 10), 3), Ok(()));
    let before = portfolio.portfolio_value();
    let outcome = portfolio.purchase(stock(7, 10), 11);
    assert_eq!(outcome, Err("Not enough cash".to_string()));
    assert_eq!(portfolio.holding_count(), 2);
    assert_eq!(portfolio.quantity_of(7), Some(3));
    assert_eq!(portfolio.quantity_of(CASH_ID), Some(100));
    assert_eq!(portfolio.portfolio_value(), before);
    let outcome = portfolio.purchase(stock(9, 101), 1);
    assert_eq!(outcome, Err("Not enough cash".to_string()));
    assert_eq!(portfolio.holding_count(), 2);
    assert_eq!(portfolio.quantity_of(9), None);
    assert_eq!(portfolio.portfolio_value(), before);
}

#[test]
fn purchase_costing_exactly_the_cash_is_accepted() {
    let mut portfolio = Portfolio::new(Some(2_500));
    assert_eq!(portfolio.purchase(stock(123, 50), 50), Ok(()));
    assert_eq!(portfolio.quantity_of(123), Some(50));
    assert_eq!(portfolio.portfolio_value(), 5_000);
}

#[test]
fn purchase_costing_one_more_than_the_cash_is_refused() {
    let mut portfolio = Portfolio::new(Some(2_499));
    let outcome = portfolio.purchase(stock(123, 50), 50);
    assert_eq!(outcome, Err("Not enough cash".to_string()));
    assert_eq!(portfolio.quantity_of(123), None);
}

#[test]
fn purchase_of_nothing_is_always_affordable() {
    let mut portfolio = Portfolio::new(None);
    assert_eq!(portfolio.purchase(stock(5, 4_000_000_000), 0), Ok(()));
    assert_eq!(portfolio.quantity_of(5), Some(0));
    assert_eq!(portfolio.holding_count(), 2);
    assert_eq!(portfolio.portfolio_value(), 0);
}

#[test]
fn cost_is_compared_without_wrapping() {
    // 65_536 shares at 65_536 a share cost 2^32, which a 32-bit product
    // would wrap to nothing.
    let mut portfolio = Portfolio::new(Some(u32::MAX));
    let outcome = portfolio.purchase(stock(5, 65_536), 65_536);
    assert_eq!(outcome, Err("Not enough cash".to_string()));
    assert_eq!(portfolio.holding_count(), 1);
}

#[test]
fn stock_under_the_cash_identifier_tops_up_the_cash_holding() {
    let mut portfolio = Portfolio::new(Some(100));
    assert_eq!(portfolio.purchase(stock(CASH_ID, 2), 30), Ok(()));
    assert_eq!(portfolio.holding_count(), 1);
    assert_eq!(portfolio.quantity_of(CASH_ID), Some(130));
    assert_eq!(portfolio.cash_value(), 130);
    assert_eq!(portfolio.portfolio_value(), 130);
}

#[test]
fn new_portfolio_holds_only_the_starting_cash() {
    let empty = Portfolio::new(None);
    assert_eq!(empty.holding_count(), 1);
    assert_eq!(empty.quantity_of(CASH_ID), Some(0));
    assert_eq!(empty.cash_value(), 0);
    assert_eq!(empty.portfolio_value(), 0);
    let funded = Portfolio::new(Some(42));
    assert_eq!(funded.holding_count(), 1);
    assert_eq!(funded.quantity_of(CASH_ID), Some(42));
    assert_eq!(funded.cash_value(), 42);
    assert_eq!(funded.portfolio_value(), 42);
}
