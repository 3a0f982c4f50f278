use adex_market::state::update;
use adex_market::view::view_channel;
use adex_market::view::view_dashboard;
use adex_market::view::status_text;
use adex_market::BalanceEntry;
use adex_market::BigNum;
use adex_market::ChannelSort;
use adex_market::ChannelSpec;
use adex_market::Cmd;
use adex_market::FetchError;
use adex_market::Loadable;
use adex_market::MarketChannel;
use adex_market::MarketStatus;
use adex_market::MarketStatusType;
use adex_market::Model;
use adex_market::Msg;
use adex_market::ValidatorDesc;
use adex_market::ViewTree;

fn channel(id: &str, asset: &str, deposit: &str, paid: &str, min_per: &str) -> MarketChannel {
    MarketChannel {
        id: id.to_string(),
        deposit_asset: asset.to_string(),
        deposit_amount: BigNum::parse(deposit).unwrap(),
        status: MarketStatus {
            status_type: MarketStatusType::Active,
            usd_estimate_cents: 1234,
            balances: vec![BalanceEntry {
                validator_id: "v".to_string(),
                amount: BigNum::parse(paid).unwrap(),
            }],
            last_checked_ms: 0,
        },
        spec: ChannelSpec {
            min_per_impression: BigNum::parse(min_per).unwrap(),
            validators: vec![ValidatorDesc { url: "https://v.example".to_string() }],
        },
    }
}

fn ready_ids(model: &Model) -> Vec<String> {
    match &model.channels {
        Loadable::Ready(cs) => cs.iter().map(|c| c.id.clone()).collect(),
        Loadable::Loading => panic!("expected loaded channels"),
    }
}

#[test]
fn startup_state_is_loading_sorted_by_deposit() {
    let model = Model::default();
    assert!(matches!(model.channels, Loadable::Loading));
    assert_eq!(model.sort, ChannelSort::Deposit);
}

#[test]
fn load_campaigns_requests_a_fetch_and_keeps_state() {
    let mut model = Model::default();
    let cmd = update(Msg::LoadCampaigns, &mut model);
    assert_eq!(cmd, Cmd::FetchCampaigns);
    assert!(matches!(model.channels, Loadable::Loading));
    assert_eq!(model.sort, ChannelSort::Deposit);
}

#[test]
fn channels_loaded_replaces_the_list_wholesale() {
    let dai = adex_market::policy::dai_addr();
    let mut model = Model::default();
    update(Msg::ChannelsLoaded(vec![channel("old", &dai, "1", "0", "1")]), &mut model);
    let cmd = update(Msg::ChannelsLoaded(vec![channel("new", &dai, "2", "0", "1")]), &mut model);
    assert_eq!(cmd, Cmd::Nothing);
    assert_eq!(ready_ids(&model), vec!["new"]);
}

#[test]
fn refresh_failure_leaves_ready_state_untouched() {
    let dai = adex_market::policy::dai_addr();
    let mut model = Model::default();
    update(Msg::ChannelsLoaded(vec![channel("x", &dai, "1", "0", "1")]), &mut model);
    let cmd = update(Msg::OnFetchErr(FetchError::Network), &mut model);
    assert_eq!(cmd, Cmd::Nothing);
    assert_eq!(ready_ids(&model), vec!["x"]);
    assert_eq!(model.sort, ChannelSort::Deposit);
}

#[test]
fn recognized_sort_names_switch_the_mode() {
    let mut model = Model::default();
    update(Msg::SortSelected("status".to_string()), &mut model);
    assert_eq!(model.sort, ChannelSort::Status);
    update(Msg::SortSelected("deposit".to_string()), &mut model);
    assert_eq!(model.sort, ChannelSort::Deposit);
}

#[test]
fn unrecognized_sort_name_is_ignored() {
    let mut model = Model::default();
    update(Msg::SortSelected("status".to_string()), &mut model);
    let cmd = update(Msg::SortSelected("bogus".to_string()), &mut model);
    assert_eq!(cmd, Cmd::Nothing);
    assert_eq!(model.sort, ChannelSort::Status);
    assert!(matches!(model.channels, Loadable::Loading));
}

#[test]
fn view_of_loading_state_is_the_placeholder() {
    let model = Model::default();
    assert!(matches!(view_dashboard(&model), ViewTree::Loading));
}

#[test]
fn view_renders_totals_and_rows() {
    let dai = adex_market::policy::dai_addr();
    let c = channel("0xdeadbeef", &dai, "1234500000000000000", "617250000000000000", "1000000000000000000");
    let other = channel("skipme", "0xother", "99990000000000000000", "0", "1");
    let mut model = Model::default();
    update(Msg::ChannelsLoaded(vec![other, c]), &mut model);
    match view_dashboard(&model) {
        ViewTree::Loading => panic!("expected the dashboard"),
        ViewTree::Ready(d) => {
            assert_eq!(d.total_deposit_text, "1.23 DAI");
            assert_eq!(d.total_paid_text, "0.61 DAI");
            assert_eq!(d.total_impressions_text, "0");
            assert_eq!(d.rows.len(), 1);
            let row = &d.rows[0];
            assert_eq!(row.id_prefix, "0xdead");
            assert_eq!(row.url, "https://v.example/channel/0xdeadbeef/status");
            assert_eq!(row.usd_text, "$12.34");
            assert_eq!(row.deposit_text, "1.23 DAI");
            assert_eq!(row.paid_text, "0.61 DAI");
            assert_eq!(row.paid_pct_text, "50.000%");
            assert_eq!(row.status_text, "Active");
            assert_eq!(row.last_checked_text, "1970-01-01");
        }
    }
}

#[test]
fn row_date_follows_the_observation_instant() {
    let dai = adex_market::policy::dai_addr();
    let mut c = channel("abc", &dai, "10", "1", "1");
    c.status.last_checked_ms = 4 * 86_400_000;
    let row = view_channel(&c);
    assert_eq!(row.last_checked_text, "1970-01-05");
    assert_eq!(row.id_prefix, "abc");
}

#[test]
fn usd_text_pads_small_cent_amounts() {
    let dai = adex_market::policy::dai_addr();
    let mut c = channel("abc", &dai, "10", "1", "1");
    c.status.usd_estimate_cents = 5;
    let row = view_channel(&c);
    assert_eq!(row.usd_text, "$0.05");
}

#[test]
fn refresh_interval_is_thirty_seconds() {
    assert_eq!(adex_market::state::UPDATE_MS, 30000);
}

#[test]
fn status_labels_match_the_variants() {
    assert_eq!(status_text(&MarketStatusType::Initializing), "Initializing");
    assert_eq!(status_text(&MarketStatusType::Unhealthy), "Unhealthy");
    assert_eq!(status_text(&MarketStatusType::Exhausted), "Exhausted");
}
