use adex_market::policy::dai_addr;
use adex_market::policy::filter_by_asset;
use adex_market::policy::sort_channels;
use adex_market::BalanceEntry;
use adex_market::BigNum;
use adex_market::ChannelSort;
use adex_market::ChannelSpec;
use adex_market::MarketChannel;
use adex_market::MarketStatus;
use adex_market::MarketStatusType;
use adex_market::ValidatorDesc;

fn channel(id: &str, asset: &str, deposit: &str, status: MarketStatusType) -> MarketChannel {
    MarketChannel {
        id: id.to_string(),
        deposit_asset: asset.to_string(),
        deposit_amount: BigNum::parse(deposit).unwrap(),
        status: MarketStatus {
            status_type: status,
            usd_estimate_cents: 0,
            balances: vec![BalanceEntry {
                validator_id: "v".to_string(),
                amount: BigNum::parse("1").unwrap(),
            }],
            last_checked_ms: 0,
        },
        spec: ChannelSpec {
            min_per_impression: BigNum::parse("1").unwrap(),
            validators: vec![ValidatorDesc { url: "https://validator.example".to_string() }],
        },
    }
}

fn ids(channels: &[MarketChannel]) -> Vec<String> {
    channels.iter().map(|c| c.id.clone()).collect()
}

#[test]
fn filter_keeps_only_the_target_asset_in_order() {
    let dai = dai_addr();
    let all = vec![
        channel("a", &dai, "1", MarketStatusType::Active),
        channel("x", "0xother", "2", MarketStatusType::Active),
        channel("b", &dai, "3", MarketStatusType::Active),
    ];
    let filtered = filter_by_asset(&all, &dai);
    assert_eq!(ids(&filtered), vec!["a", "b"]);
    // the input list is untouched
    assert_eq!(all.len(), 3);
}

#[test]
fn sort_by_deposit_puts_larger_deposits_first() {
    let dai = dai_addr();
    let all = vec![
        channel("small", &dai, "5", MarketStatusType::Active),
        channel("big", &dai, "500", MarketStatusType::Active),
        channel("mid", &dai, "50", MarketStatusType::Active),
    ];
    let sorted = sort_channels(&ChannelSort::Deposit, &all);
    assert_eq!(ids(&sorted), vec!["big", "mid", "small"]);
}

#[test]
fn sort_by_status_follows_declared_order() {
    let dai = dai_addr();
    let all = vec![
        channel("w", &dai, "1", MarketStatusType::Withdraw),
        channel("i", &dai, "1", MarketStatusType::Initializing),
        channel("a", &dai, "1", MarketStatusType::Active),
        channel("e", &dai, "1", MarketStatusType::Exhausted),
    ];
    let sorted = sort_channels(&ChannelSort::Status, &all);
    assert_eq!(ids(&sorted), vec!["i", "a", "w", "e"]);
}

#[test]
fn sort_is_stable_under_ties() {
    let dai = dai_addr();
    let all = vec![
        channel("first", &dai, "10", MarketStatusType::Active),
        channel("second", &dai, "10", MarketStatusType::Active),
        channel("third", &dai, "10", MarketStatusType::Active),
    ];
    let sorted = sort_channels(&ChannelSort::Deposit, &all);
    assert_eq!(ids(&sorted), vec!["first", "second", "third"]);
}

#[test]
fn sort_is_idempotent() {
    let dai = dai_addr();
    let all = vec![
        channel("a", &dai, "3", MarketStatusType::Active),
        channel("b", &dai, "30", MarketStatusType::Active),
        channel("c", &dai, "30", MarketStatusType::Active),
        channel("d", &dai, "1", MarketStatusType::Active),
    ];
    let once = sort_channels(&ChannelSort::Deposit, &all);
    let twice = sort_channels(&ChannelSort::Deposit, &once);
    assert_eq!(ids(&once), ids(&twice));
    assert_eq!(ids(&once), vec!["b", "c", "a", "d"]);
}
