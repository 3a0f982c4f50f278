use vstd::prelude::*;
use vstd::string::StringExecFns;
use crate::domain::MarketChannel;
use crate::domain::all_wf;
use crate::policy::ChannelSort;

verus! {

/// How often the host re-emits `Msg::LoadCampaigns`, in milliseconds: once at
/// startup and then on this fixed interval for the whole session, with no
/// backoff and no deduplication of in-flight requests.
pub const UPDATE_MS: i32 = 30000;

/// Whether remote data has arrived yet.
pub enum Loadable<T> {
    Loading,
    Ready(T),
}

/// A transport or decode failure reported by the fetch edge. The whole fetch
/// result is discarded in either case; no partial model is published.
#[derive(Clone, Copy, Debug, PartialEq, Eq, Structural)]
pub enum FetchError {
    Network,
    Decode,
}

/// What the host must do after an update step: start an asynchronous fetch of
/// the channel listing, or nothing.
#[derive(Clone, Copy, Debug, PartialEq, Eq, Structural)]
pub enum Cmd {
    FetchCampaigns,
    Nothing,
}

/// The single application state cell: the channel list once loaded, and the
/// selected sort mode.
pub struct Model {
    pub channels: Loadable<Vec<MarketChannel>>,
    pub sort: ChannelSort,
}

impl Model {
    pub open spec fn wf(&self) -> bool {
        self.channels matches Loadable::Ready(cs) ==> all_wf(cs@)
    }
}

impl Default for Model {
    /// The startup state: no data yet, sorted by deposit.
    fn default() -> (r: Model)
        ensures
            r.channels matches Loadable::Loading,
            r.sort == ChannelSort::Deposit,
            r.wf(),
    {
        Model { channels: Loadable::Loading, sort: ChannelSort::Deposit }
    }
}

/// The messages of the reactive cycle.
pub enum Msg {
    /// The timer fired: ask the host to fetch the listing.
    LoadCampaigns,
    /// A fetch succeeded and decoded into these channels.
    ChannelsLoaded(Vec<MarketChannel>),
    /// A fetch failed; the state is left as it was.
    OnFetchErr(FetchError),
    /// The sort selector changed to the named option.
    SortSelected(String),
}

/// Applies one message to the state and says what the host must do next.
///
/// `LoadCampaigns` leaves the state untouched and asks for a fetch.
/// `ChannelsLoaded` replaces the channel list wholesale. `OnFetchErr` leaves
/// the state exactly as it was. `SortSelected` switches the sort mode when
/// the name is recognized ("deposit" or "status") and is ignored otherwise.
pub fn update(msg: Msg, model: &mut Model) -> (cmd: Cmd)
    requires
        old(model).wf(),
        msg matches Msg::ChannelsLoaded(cs) ==> all_wf(cs@),
    ensures
        final(model).wf(),
        msg matches Msg::LoadCampaigns ==> *final(model) == *old(model) && cmd
            == Cmd::FetchCampaigns,
        msg matches Msg::ChannelsLoaded(cs) ==> (final(model).channels matches Loadable::Ready(v)
            && v == cs) && final(model).sort == old(model).sort && cmd == Cmd::Nothing,
        msg matches Msg::OnFetchErr(e) ==> *final(model) == *old(model) && cmd == Cmd::Nothing,
        msg matches Msg::SortSelected(name) ==> {
            &&& final(model).channels == old(model).channels
            &&& cmd == Cmd::Nothing
            &&& (name@ == "deposit"@ ==> final(model).sort == ChannelSort::Deposit)
            &&& (name@ == "status"@ ==> final(model).sort == ChannelSort::Status)
            &&& (name@ != "deposit"@ && name@ != "status"@ ==> final(model).sort == old(
                model,
            ).sort)
        },
{
    match msg {
        Msg::LoadCampaigns => Cmd::FetchCampaigns,
        Msg::ChannelsLoaded(cs) => {
            model.channels = Loadable::Ready(cs);
            Cmd::Nothing
        },
        Msg::OnFetchErr(_) => Cmd::Nothing,
        Msg::SortSelected(name) => {
            let deposit_name = String::from_str("deposit");
            let status_name = String::from_str("status");
            if name.eq(&deposit_name) {
                model.sort = ChannelSort::Deposit;
            } else if name.eq(&status_name) {
                model.sort = ChannelSort::Status;
            }
            proof {
                reveal_strlit("deposit");
                reveal_strlit("status");
                assert(("deposit"@).len() == 7);
                assert(("status"@).len() == 6);
                assert(("deposit"@) != ("status"@));
                assert(model.channels == old(model).channels);
                assert(name@ == "deposit"@ ==> model.sort == ChannelSort::Deposit);
                assert(name@ == "status"@ ==> model.sort == ChannelSort::Status);
                assert(name@ != "deposit"@ && name@ != "status"@ ==> model.sort == old(
                    model,
                ).sort);
            }
            Cmd::Nothing
        },
    }
}

} // verus!
