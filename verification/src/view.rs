use vstd::prelude::*;
use vstd::string::StrSliceExecFns;
use vstd::string::StringExecFns;
use crate::aggregate::append_digit;
use crate::aggregate::channel_paid;
use crate::aggregate::dai_readable;
use crate::aggregate::dai_readable_spec;
use crate::bignum::dec_chars;
use crate::aggregate::format_grouped;
use crate::aggregate::grouped;
use crate::aggregate::paid_percentage;
use crate::aggregate::paid_percentage_spec;
use crate::aggregate::pad2;
use crate::aggregate::total_deposit;
use crate::aggregate::total_deposit_spec;
use crate::aggregate::total_impressions;
use crate::aggregate::total_impressions_spec;
use crate::aggregate::total_paid;
use crate::aggregate::total_paid_spec;
use crate::bignum::BigNum;
use crate::domain::ChannelModel;
use crate::domain::MarketChannel;
use crate::domain::MarketStatusType;
use crate::domain::MAX_TIMESTAMP_MS;
use crate::domain::all_wf;
use crate::domain::models;
use crate::policy::ChannelSort;
use crate::policy::asset_filter;
use crate::policy::dai_addr;
use crate::policy::dai_addr_spec;
use crate::policy::filter_by_asset;
use crate::policy::sort_channels;
use crate::policy::sort_spec;
use crate::state::Loadable;
use crate::state::Model;

verus! {

/// The calendar-date text of an epoch-millisecond instant, as the date
/// formatter renders it; it depends on the instant alone.
pub uninterp spec fn date_text_of(ms: int) -> Seq<char>;

/// Relies on chrono's `DateTime::from_timestamp_millis` and `format` with
/// "%Y-%m-%d": the UTC calendar date of the instant, a pure function of the
/// millisecond value. The precondition keeps the instant inside the range
/// chrono accepts.
#[verifier::external_body]
fn format_date(ms: i64) -> (r: String)
    requires
        0 <= ms <= MAX_TIMESTAMP_MS,
    ensures
        r@ == date_text_of(ms as int),
{
    let dt = chrono::DateTime::from_timestamp_millis(ms).unwrap();
    dt.format("%Y-%m-%d").to_string()
}

/// The label shown for a status.
pub open spec fn status_label(t: MarketStatusType) -> Seq<char> {
    match t {
        MarketStatusType::Initializing => "Initializing"@,
        MarketStatusType::Ready => "Ready"@,
        MarketStatusType::Active => "Active"@,
        MarketStatusType::Offline => "Offline"@,
        MarketStatusType::Disconnected => "Disconnected"@,
        MarketStatusType::Unhealthy => "Unhealthy"@,
        MarketStatusType::Withdraw => "Withdraw"@,
        MarketStatusType::Expired => "Expired"@,
        MarketStatusType::Exhausted => "Exhausted"@,
    }
}

/// The label shown for a status.
pub fn status_text(t: &MarketStatusType) -> (r: String)
    ensures
        r@ == status_label(*t),
{
    match t {
        MarketStatusType::Initializing => String::from_str("Initializing"),
        MarketStatusType::Ready => String::from_str("Ready"),
        MarketStatusType::Active => String::from_str("Active"),
        MarketStatusType::Offline => String::from_str("Offline"),
        MarketStatusType::Disconnected => String::from_str("Disconnected"),
        MarketStatusType::Unhealthy => String::from_str("Unhealthy"),
        MarketStatusType::Withdraw => String::from_str("Withdraw"),
        MarketStatusType::Expired => String::from_str("Expired"),
        MarketStatusType::Exhausted => String::from_str("Exhausted"),
    }
}

/// The USD estimate shown with two decimals.
pub open spec fn usd_text_spec(cents: u64) -> Seq<char> {
    "$"@ + dec_chars((cents as nat) / 100) + seq!['.'] + pad2((cents as nat) % 100)
}

/// The link target of a channel row: the first validator's status endpoint
/// for the channel, or a relative path when no validator is listed.
pub open spec fn channel_url(c: ChannelModel) -> Seq<char> {
    (if c.spec.validator_urls.len() > 0 {
        c.spec.validator_urls[0]
    } else {
        Seq::<char>::empty()
    }) + "/channel/"@ + c.id + "/status"@
}

/// The identifier prefix shown in a row: the first six characters.
pub open spec fn id_prefix_spec(id: Seq<char>) -> Seq<char> {
    if id.len() <= 6 {
        id
    } else {
        id.take(6)
    }
}

/// Everything one channel row displays.
pub ghost struct RowModel {
    pub url: Seq<char>,
    pub id_prefix: Seq<char>,
    pub usd_text: Seq<char>,
    pub deposit_text: Seq<char>,
    pub paid_text: Seq<char>,
    pub paid_pct_text: Seq<char>,
    pub status_text: Seq<char>,
    pub last_checked_text: Seq<char>,
}

/// What one channel's row displays.
pub open spec fn row_of(c: ChannelModel) -> RowModel {
    RowModel {
        url: channel_url(c),
        id_prefix: id_prefix_spec(c.id),
        usd_text: usd_text_spec(c.status.usd_estimate_cents),
        deposit_text: dai_readable_spec(c.deposit_amount),
        paid_text: dai_readable_spec(channel_paid(c)),
        paid_pct_text: paid_percentage_spec(channel_paid(c), c.deposit_amount),
        status_text: status_label(c.status.status_type),
        last_checked_text: date_text_of(c.status.last_checked_ms),
    }
}

/// One rendered channel row.
pub struct ChannelRow {
    pub url: String,
    pub id_prefix: String,
    pub usd_text: String,
    pub deposit_text: String,
    pub paid_text: String,
    pub paid_pct_text: String,
    pub status_text: String,
    pub last_checked_text: String,
}

impl View for ChannelRow {
    type V = RowModel;

    open spec fn view(&self) -> RowModel {
        RowModel {
            url: self.url@,
            id_prefix: self.id_prefix@,
            usd_text: self.usd_text@,
            deposit_text: self.deposit_text@,
            paid_text: self.paid_text@,
            paid_pct_text: self.paid_pct_text@,
            status_text: self.status_text@,
            last_checked_text: self.last_checked_text@,
        }
    }
}

/// Renders one channel's row.
pub fn view_channel(channel: &MarketChannel) -> (r: ChannelRow)
    requires
        channel.wf(),
    ensures
        r@ == row_of(channel@),
{
    let mut url = String::new();
    if channel.spec.validators.len() > 0 {
        url.append(channel.spec.validators[0].url.as_str());
    }
    url.append("/channel/");
    url.append(channel.id.as_str());
    url.append("/status");

    let idlen = channel.id.as_str().unicode_len();
    let upto = if idlen <= 6 {
        idlen
    } else {
        6
    };
    let id_prefix = channel.id.as_str().substring_char(0, upto).to_owned();

    let cents = channel.status.usd_estimate_cents;
    let mut usd_text = String::from_str("$");
    let whole = BigNum::from_u64(cents / 100);
    let whole_text = whole.format();
    usd_text.append(whole_text.as_str());
    usd_text.append(".");
    let frac = cents % 100;
    append_digit(&mut usd_text, ((frac / 10) % 10) as u8);
    append_digit(&mut usd_text, (frac % 10) as u8);

    let deposit_text = dai_readable(&channel.deposit_amount);
    let paid = channel.status.balances_sum();
    let paid_text = dai_readable(&paid);
    let paid_pct_text = paid_percentage(channel);
    let status_text = status_text(&channel.status.status_type);
    let last_checked_text = format_date(channel.status.last_checked_ms);

    let r = ChannelRow {
        url,
        id_prefix,
        usd_text,
        deposit_text,
        paid_text,
        paid_pct_text,
        status_text,
        last_checked_text,
    };
    proof {
        reveal_strlit(".");
        assert(("."@) =~= seq!['.']);
        assert(r.url@ =~= channel_url(channel@));
        assert(r.id_prefix@ =~= id_prefix_spec(channel@.id));
        assert(r.usd_text@ =~= usd_text_spec(cents));
    }
    r
}

/// Renders the rows of a channel table, one per channel, in order.
pub fn view_channel_table(channels: &Vec<MarketChannel>) -> (r: Vec<ChannelRow>)
    requires
        all_wf(channels@),
    ensures
        r@.len() == channels@.len(),
        forall|i: int| 0 <= i < channels@.len() ==> (#[trigger] r@[i])@ == row_of(channels@[i]@),
{
    let mut r: Vec<ChannelRow> = Vec::new();
    let mut i: usize = 0;
    while i < channels.len()
        invariant
            all_wf(channels@),
            i <= channels@.len(),
            r@.len() == i,
            forall|t: int| 0 <= t < i ==> (#[trigger] r@[t])@ == row_of(channels@[t]@),
        decreases channels@.len() - i,
    {
        let row = view_channel(&channels[i]);
        r.push(row);
        i += 1;
    }
    r
}

/// Everything the dashboard displays once data has loaded.
pub ghost struct DashboardModel {
    pub total_deposit_text: Seq<char>,
    pub total_paid_text: Seq<char>,
    pub total_impressions_text: Seq<char>,
    pub rows: Seq<RowModel>,
}

/// What the dashboard displays for a channel list and sort mode: totals over
/// the asset-filtered channels, the impressions estimate over all channels,
/// and one row per filtered channel in sorted order.
pub open spec fn dashboard_of(channels: Seq<ChannelModel>, sort: ChannelSort) -> DashboardModel {
    let filtered = asset_filter(channels, dai_addr_spec());
    DashboardModel {
        total_deposit_text: dai_readable_spec(total_deposit_spec(filtered)),
        total_paid_text: dai_readable_spec(total_paid_spec(filtered)),
        total_impressions_text: grouped(dec_chars(total_impressions_spec(channels))),
        rows: sort_spec(sort, filtered).map_values(|c: ChannelModel| row_of(c)),
    }
}

/// The loaded dashboard.
pub struct Dashboard {
    pub total_deposit_text: String,
    pub total_paid_text: String,
    pub total_impressions_text: String,
    pub rows: Vec<ChannelRow>,
}

impl View for Dashboard {
    type V = DashboardModel;

    open spec fn view(&self) -> DashboardModel {
        DashboardModel {
            total_deposit_text: self.total_deposit_text@,
            total_paid_text: self.total_paid_text@,
            total_impressions_text: self.total_impressions_text@,
            rows: self.rows@.map_values(|r: ChannelRow| r@),
        }
    }
}

/// The whole view: a loading placeholder, or the dashboard.
pub enum ViewTree {
    Loading,
    Ready(Dashboard),
}

/// Projects the current state into what the display layer paints: the
/// loading placeholder before data arrives, afterwards the totals and the
/// filtered, sorted channel rows.
pub fn view_dashboard(model: &Model) -> (r: ViewTree)
    requires
        model.wf(),
    ensures
        (model.channels matches Loadable::Loading) ==> (r matches ViewTree::Loading),
        model.channels matches Loadable::Ready(cs) ==> (r matches ViewTree::Ready(d) && d@
            == dashboard_of(models(cs@), model.sort)),
{
    match &model.channels {
        Loadable::Loading => ViewTree::Loading,
        Loadable::Ready(cs) => {
            let imp = total_impressions(cs);
            let total_impressions_text = format_grouped(&imp);
            let target = dai_addr();
            let filtered = filter_by_asset(cs, &target);
            let dep = total_deposit(&filtered);
            let total_deposit_text = dai_readable(&dep);
            let paid = total_paid(&filtered);
            let total_paid_text = dai_readable(&paid);
            let sorted = sort_channels(&model.sort, &filtered);
            let rows = view_channel_table(&sorted);
            let d = Dashboard {
                total_deposit_text,
                total_paid_text,
                total_impressions_text,
                rows,
            };
            proof {
                let want = dashboard_of(models(cs@), model.sort);
                assert(d@.rows =~= want.rows);
                assert(d@ == want);
            }
            ViewTree::Ready(d)
        },
    }
}

} // verus!
