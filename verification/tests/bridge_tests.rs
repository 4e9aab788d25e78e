use mahala::june::JuneClient;
use mahala::market_maker::{ExchangeDirection, MarketMaker, MarketMakerError};
use mahala::reserves::Reserves;
use mahala::security::{SecurityError, SecurityManager};
use mahala::MICRO;

#[test]
fn amm_quote_exact_numbers() {
    let pool = MarketMaker::new(10_000 * MICRO, 10_000 * MICRO);
    let quote = pool.quote_mahala_to_june(100 * MICRO).unwrap();
    assert_eq!(quote.input, 100 * MICRO);
    assert_eq!(quote.fee, MICRO / 10);
    assert_eq!(quote.output, 98_911_870);
    assert_eq!(quote.rate, 989_118);
}

#[test]
fn amm_rejects_zero_input() {
    let pool = MarketMaker::new(10_000 * MICRO, 10_000 * MICRO);
    let quote = pool.quote_june_to_mahala(0);
    assert_eq!(quote.unwrap_err(), MarketMakerError::AmountTooSmall);
}

#[test]
fn amm_rejects_empty_reserves() {
    let pool = MarketMaker::new(0, 0);
    let quote = pool.quote_mahala_to_june(100 * MICRO);
    assert_eq!(quote.unwrap_err(), MarketMakerError::InsufficientReserves);
}

#[test]
fn amm_product_never_decreases() {
    let mut pool = MarketMaker::new(10_000 * MICRO, 10_000 * MICRO);
    let mut last_k = pool.get_stats().total_liquidity;
    for amount in [100 * MICRO, 5 * MICRO, 2_500 * MICRO, 33 * MICRO] {
        pool.execute_exchange(ExchangeDirection::MahalaToJune, amount).unwrap();
        let k = pool.get_stats().total_liquidity;
        assert!(k >= last_k);
        last_k = k;
        pool.execute_exchange(ExchangeDirection::JuneToMahala, amount / 2).unwrap();
        let k = pool.get_stats().total_liquidity;
        assert!(k >= last_k);
        last_k = k;
    }
}

#[test]
fn amm_execute_moves_reserves() {
    let mut pool = MarketMaker::new(10_000 * MICRO, 10_000 * MICRO);
    let result = pool.execute_exchange(ExchangeDirection::MahalaToJune, 100 * MICRO).unwrap();
    assert_eq!(result.amount_received, 98_911_870);
    assert_eq!(result.fee, MICRO / 10);
    assert!(result.tx_hash.starts_with("0x"));
    let stats = pool.get_stats();
    assert_eq!(stats.mahala_reserve, 10_000 * MICRO + 99_900_000);
    assert_eq!(stats.june_reserve, 10_000 * MICRO - 98_911_870);
}

#[test]
fn reserves_track_updates() {
    let mut reserves = Reserves::new(10 * MICRO, 20 * MICRO);
    reserves.update_june(5 * MICRO);
    reserves.update_mahala(-2 * MICRO);
    let stats = reserves.get_stats();
    assert_eq!(stats.june, 15 * MICRO);
    assert_eq!(stats.mahala, 18 * MICRO);
    assert_eq!(stats.initial_june, 10 * MICRO);
    assert_eq!(stats.initial_mahala, 20 * MICRO);
}

#[test]
fn guard_enforces_daily_limit() {
    let mut guard = SecurityManager::new(1_000 * MICRO, 5_000 * MICRO);
    assert!(guard.check_exchange_at("alice", 600 * MICRO, 1_000).is_ok());
    let refused = guard.check_exchange_at("alice", 600 * MICRO, 1_100);
    assert_eq!(refused.unwrap_err(), SecurityError::DailyLimitExceeded);
    let next_day = 1_000 + 86_400;
    assert!(guard.check_exchange_at("alice", 600 * MICRO, next_day).is_ok());
}

#[test]
fn guard_enforces_monthly_limit() {
    let mut guard = SecurityManager::new(1_000 * MICRO, 1_500 * MICRO);
    assert!(guard.check_exchange_at("bob", 900 * MICRO, 0).is_ok());
    assert!(guard.check_exchange_at("bob", 500 * MICRO, 86_400).is_ok());
    let refused = guard.check_exchange_at("bob", 500 * MICRO, 2 * 86_400);
    assert_eq!(refused.unwrap_err(), SecurityError::MonthlyLimitExceeded);
    let stats = guard.get_user_stats("bob").unwrap();
    assert_eq!(stats.monthly_volume, 1_400 * MICRO);
}

#[test]
fn june_client_reports_simulated_balance() {
    let client = JuneClient::new("http://localhost:1234".to_string());
    let balance = client.get_balance("addr").unwrap();
    assert_eq!(balance.address, "addr");
    assert_eq!(balance.balance, 100 * MICRO);
    assert!(client.verify_transaction("0xabc").unwrap());
}
