use adex_market::aggregate::dai_readable;
use adex_market::aggregate::format_grouped;
use adex_market::aggregate::paid_percentage;
use adex_market::aggregate::total_deposit;
use adex_market::aggregate::total_impressions;
use adex_market::aggregate::total_paid;
use adex_market::policy::dai_addr;
use adex_market::policy::filter_by_asset;
use adex_market::policy::sort_channels;
use adex_market::BalanceEntry;
use adex_market::BigNum;
use adex_market::ChannelSort;
use adex_market::ChannelSpec;
use adex_market::MarketChannel;
use adex_market::MarketStatus;
use adex_market::MarketStatusType;
use adex_market::ValidatorDesc;

fn channel(
    id: &str,
    asset: &str,
    deposit: &str,
    balances: &[(&str, &str)],
    min_per: &str,
) -> MarketChannel {
    MarketChannel {
        id: id.to_string(),
        deposit_asset: asset.to_string(),
        deposit_amount: BigNum::parse(deposit).unwrap(),
        status: MarketStatus {
            status_type: MarketStatusType::Active,
            usd_estimate_cents: 0,
            balances: balances
                .iter()
                .map(|(k, v)| BalanceEntry {
                    validator_id: k.to_string(),
                    amount: BigNum::parse(v).unwrap(),
                })
                .collect(),
            last_checked_ms: 0,
        },
        spec: ChannelSpec {
            min_per_impression: BigNum::parse(min_per).unwrap(),
            validators: vec![ValidatorDesc { url: "https://validator.example".to_string() }],
        },
    }
}

#[test]
fn two_asset_scenario_totals_percentages_and_order() {
    let dai = dai_addr();
    let a1 = channel("a1", &dai, "100", &[("v1", "10")], "1");
    let a2 = channel("a2", &dai, "50", &[("v1", "5")], "1");
    let b = channel("b", "0xother", "1000", &[("v1", "0")], "1");
    let all = vec![a2, b, a1];

    let filtered = filter_by_asset(&all, &dai);
    assert_eq!(total_deposit(&filtered).format(), "150");
    assert_eq!(total_paid(&filtered).format(), "15");
    assert_eq!(paid_percentage(&filtered[0]), "10.000%");
    assert_eq!(paid_percentage(&filtered[1]), "10.000%");

    let sorted = sort_channels(&ChannelSort::Deposit, &filtered);
    assert_eq!(sorted[0].id, "a1");
    assert_eq!(sorted[0].deposit_amount.format(), "100");
    assert_eq!(sorted[1].id, "a2");
    assert_eq!(sorted[1].deposit_amount.format(), "50");
}

#[test]
fn totals_do_not_depend_on_input_order() {
    let dai = dai_addr();
    let one = vec![
        channel("a", &dai, "7", &[("v", "3")], "1"),
        channel("b", &dai, "11", &[("v", "4")], "1"),
        channel("c", &dai, "13", &[("v", "5")], "1"),
    ];
    let other = vec![
        channel("c", &dai, "13", &[("v", "5")], "1"),
        channel("a", &dai, "7", &[("v", "3")], "1"),
        channel("b", &dai, "11", &[("v", "4")], "1"),
    ];
    assert_eq!(total_deposit(&one).format(), total_deposit(&other).format());
    assert_eq!(total_paid(&one).format(), total_paid(&other).format());
    assert_eq!(total_deposit(&one).format(), "31");
    assert_eq!(total_paid(&one).format(), "12");
}

#[test]
fn impressions_exclude_zero_minimum_without_raising() {
    let dai = dai_addr();
    let counted = channel("a", &dai, "100", &[("v", "10")], "1");
    let excluded = channel("b", &dai, "100", &[("v", "99")], "0");
    let all = vec![counted, excluded];
    assert_eq!(total_impressions(&all).format(), "10");
}

#[test]
fn impressions_sum_multiple_balances_per_channel() {
    let dai = dai_addr();
    let c = channel("a", &dai, "100", &[("v1", "6"), ("v2", "7")], "2");
    let all = vec![c];
    // (6 + 7) / 2 = 6, floored
    assert_eq!(total_impressions(&all).format(), "6");
}

#[test]
fn grouping_inserts_thousands_separators() {
    assert_eq!(format_grouped(&BigNum::parse("1234567").unwrap()), "1,234,567");
    assert_eq!(format_grouped(&BigNum::parse("1000").unwrap()), "1,000");
    assert_eq!(format_grouped(&BigNum::parse("999").unwrap()), "999");
    assert_eq!(format_grouped(&BigNum::parse("0").unwrap()), "0");
}

#[test]
fn dai_readable_shows_two_decimals() {
    assert_eq!(dai_readable(&BigNum::parse("1234500000000000000").unwrap()), "1.23 DAI");
    assert_eq!(dai_readable(&BigNum::parse("0").unwrap()), "0.00 DAI");
    assert_eq!(dai_readable(&BigNum::parse("10000000000000000").unwrap()), "0.01 DAI");
}

#[test]
fn dai_readable_saturates_beyond_displayable_range() {
    let mut s = String::from("1");
    for _ in 0..325 {
        s.push('0');
    }
    assert_eq!(dai_readable(&BigNum::parse(&s).unwrap()), ">max");
}

#[test]
fn paid_percentage_of_zero_deposit_is_the_placeholder() {
    let dai = dai_addr();
    let c = channel("a", &dai, "0", &[("v", "10")], "1");
    assert_eq!(paid_percentage(&c), "100.000%");
}

#[test]
fn paid_percentage_saturates_beyond_displayable_range() {
    let dai = dai_addr();
    let mut huge = String::from("1");
    for _ in 0..309 {
        huge.push('0');
    }
    let c = channel("a", &dai, "1", &[("v", &huge)], "1");
    assert_eq!(paid_percentage(&c), "100.000%");
}

#[test]
fn paid_percentage_keeps_three_decimals() {
    let dai = dai_addr();
    let c = channel("a", &dai, "3", &[("v", "1")], "1");
    // 1 * 100000 / 3 = 33333 -> 33.333%
    assert_eq!(paid_percentage(&c), "33.333%");
}
