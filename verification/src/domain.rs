use vstd::prelude::*;
use vstd::string::StringExecFns;
use crate::bignum::BigNum;
use crate::bignum::digits_wf;
use crate::bignum::digits_value;

verus! {

/// Latest observation instant accepted by the model, in milliseconds since the
/// epoch: the last instant of calendar year 9999, so that a calendar date can
/// always be rendered for it.
pub const MAX_TIMESTAMP_MS: i64 = 253_402_300_799_999;

/// A channel's current on-chain state, in its declared order. The order of
/// the variants is the order used when sorting by status.
#[derive(Clone, Copy, Debug, PartialEq, Eq, PartialOrd, Ord, Structural)]
pub enum MarketStatusType {
    Initializing,
    Ready,
    Active,
    Offline,
    Disconnected,
    Unhealthy,
    Withdraw,
    Expired,
    Exhausted,
}

/// The position of a status in the declared order.
pub open spec fn status_rank_spec(t: MarketStatusType) -> int {
    match t {
        MarketStatusType::Initializing => 0,
        MarketStatusType::Ready => 1,
        MarketStatusType::Active => 2,
        MarketStatusType::Offline => 3,
        MarketStatusType::Disconnected => 4,
        MarketStatusType::Unhealthy => 5,
        MarketStatusType::Withdraw => 6,
        MarketStatusType::Expired => 7,
        MarketStatusType::Exhausted => 8,
    }
}

/// The position of a status in the declared order.
pub fn status_rank(t: &MarketStatusType) -> (r: u8)
    ensures
        r as int == status_rank_spec(*t),
{
    match t {
        MarketStatusType::Initializing => 0,
        MarketStatusType::Ready => 1,
        MarketStatusType::Active => 2,
        MarketStatusType::Offline => 3,
        MarketStatusType::Disconnected => 4,
        MarketStatusType::Unhealthy => 5,
        MarketStatusType::Withdraw => 6,
        MarketStatusType::Expired => 7,
        MarketStatusType::Exhausted => 8,
    }
}

/// One validator's approved balance for a channel.
pub struct BalanceEntry {
    pub validator_id: String,
    pub amount: BigNum,
}

/// Mathematical content of a `BalanceEntry`.
pub ghost struct BalanceModel {
    pub validator_id: Seq<char>,
    pub amount: nat,
}

impl View for BalanceEntry {
    type V = BalanceModel;

    open spec fn view(&self) -> BalanceModel {
        BalanceModel { validator_id: self.validator_id@, amount: self.amount.value() }
    }
}

/// A channel's observed status: its lifecycle state, a display-only USD
/// valuation in whole cents, the balances approved per validator, and the
/// observation instant in epoch milliseconds.
pub struct MarketStatus {
    pub status_type: MarketStatusType,
    pub usd_estimate_cents: u64,
    pub balances: Vec<BalanceEntry>,
    pub last_checked_ms: i64,
}

/// Mathematical content of a `MarketStatus`.
pub ghost struct StatusModel {
    pub status_type: MarketStatusType,
    pub usd_estimate_cents: u64,
    pub balances: Seq<BalanceModel>,
    pub last_checked_ms: int,
}

impl View for MarketStatus {
    type V = StatusModel;

    open spec fn view(&self) -> StatusModel {
        StatusModel {
            status_type: self.status_type,
            usd_estimate_cents: self.usd_estimate_cents,
            balances: self.balances@.map_values(|b: BalanceEntry| b@),
            last_checked_ms: self.last_checked_ms as int,
        }
    }
}

/// A validator descriptor: the base URL of its status endpoint.
pub struct ValidatorDesc {
    pub url: String,
}

/// Channel configuration: the minimum payout per impression and the ordered
/// validator descriptors.
pub struct ChannelSpec {
    pub min_per_impression: BigNum,
    pub validators: Vec<ValidatorDesc>,
}

/// Mathematical content of a `ChannelSpec`.
pub ghost struct SpecModel {
    pub min_per_impression: nat,
    pub validator_urls: Seq<Seq<char>>,
}

impl View for ChannelSpec {
    type V = SpecModel;

    open spec fn view(&self) -> SpecModel {
        SpecModel {
            min_per_impression: self.min_per_impression.value(),
            validator_urls: self.validators@.map_values(|v: ValidatorDesc| v.url@),
        }
    }
}

/// One advertising payment channel.
pub struct MarketChannel {
    pub id: String,
    pub deposit_asset: String,
    pub deposit_amount: BigNum,
    pub status: MarketStatus,
    pub spec: ChannelSpec,
}

/// Mathematical content of a `MarketChannel`.
pub ghost struct ChannelModel {
    pub id: Seq<char>,
    pub deposit_asset: Seq<char>,
    pub deposit_amount: nat,
    pub status: StatusModel,
    pub spec: SpecModel,
}

impl View for MarketChannel {
    type V = ChannelModel;

    open spec fn view(&self) -> ChannelModel {
        ChannelModel {
            id: self.id@,
            deposit_asset: self.deposit_asset@,
            deposit_amount: self.deposit_amount.value(),
            status: self.status@,
            spec: self.spec@,
        }
    }
}

/// The models of a list of channels.
pub open spec fn models(s: Seq<MarketChannel>) -> Seq<ChannelModel> {
    s.map_values(|c: MarketChannel| c@)
}

impl MarketStatus {
    pub open spec fn wf(&self) -> bool {
        &&& forall|i: int|
            0 <= i < self.balances@.len() ==> (#[trigger] self.balances@[i]).amount.wf()
        &&& 0 <= self.last_checked_ms <= MAX_TIMESTAMP_MS
    }

    /// The total amount approved for payout across this channel's validators,
    /// recomputed on demand from the current balances.
    pub fn balances_sum(&self) -> (r: BigNum)
        requires
            self.wf(),
        ensures
            r.wf(),
            r.value() == balances_total(self@.balances),
    {
        let mut acc = BigNum::zero();
        let mut i: usize = 0;
        while i < self.balances.len()
            invariant
                self.wf(),
                i <= self.balances@.len(),
                acc.wf(),
                acc.value() == balances_total(self@.balances.take(i as int)),
            decreases self.balances@.len() - i,
        {
            acc = acc.add(&self.balances[i].amount);
            proof {
                let m = self@.balances;
                assert(m.take(i + 1).drop_last() =~= m.take(i as int));
                assert(m.take(i + 1).last() == m[i as int]);
                assert(m[i as int] == self.balances@[i as int]@);
            }
            i += 1;
        }
        proof {
            assert(self@.balances.take(self@.balances.len() as int) =~= self@.balances);
        }
        acc
    }

    fn duplicate(&self) -> (r: MarketStatus)
        requires
            self.wf(),
        ensures
            r.wf(),
            r@ == self@,
    {
        let mut balances: Vec<BalanceEntry> = Vec::new();
        let mut i: usize = 0;
        while i < self.balances.len()
            invariant
                self.wf(),
                i <= self.balances@.len(),
                balances@.len() == i,
                forall|t: int|
                    0 <= t < i ==> (#[trigger] balances@[t])@ == self.balances@[t]@
                        && balances@[t].amount.wf(),
            decreases self.balances@.len() - i,
        {
            let e = &self.balances[i];
            balances.push(
                BalanceEntry { validator_id: e.validator_id.clone(), amount: e.amount.duplicate() },
            );
            i += 1;
        }
        let r = MarketStatus {
            status_type: self.status_type,
            usd_estimate_cents: self.usd_estimate_cents,
            balances,
            last_checked_ms: self.last_checked_ms,
        };
        proof {
            assert(r@.balances =~= self@.balances);
        }
        r
    }
}

/// The sum of the approved balances in a balance list.
pub open spec fn balances_total(s: Seq<BalanceModel>) -> nat
    decreases s.len(),
{
    if s.len() == 0 {
        0
    } else {
        balances_total(s.drop_last()) + s.last().amount
    }
}

impl ChannelSpec {
    pub open spec fn wf(&self) -> bool {
        self.min_per_impression.wf()
    }

    fn duplicate(&self) -> (r: ChannelSpec)
        requires
            self.wf(),
        ensures
            r.wf(),
            r@ == self@,
    {
        let mut validators: Vec<ValidatorDesc> = Vec::new();
        let mut i: usize = 0;
        while i < self.validators.len()
            invariant
                i <= self.validators@.len(),
                validators@.len() == i,
                forall|t: int|
                    0 <= t < i ==> (#[trigger] validators@[t]).url@ == self.validators@[t].url@,
            decreases self.validators@.len() - i,
        {
            validators.push(ValidatorDesc { url: self.validators[i].url.clone() });
            i += 1;
        }
        let r = ChannelSpec { min_per_impression: self.min_per_impression.duplicate(), validators };
        proof {
            assert(r@.validator_urls =~= self@.validator_urls);
        }
        r
    }
}

impl MarketChannel {
    pub open spec fn wf(&self) -> bool {
        &&& self.deposit_amount.wf()
        &&& self.status.wf()
        &&& self.spec.wf()
    }

    /// An identical copy; the model is unchanged.
    pub fn duplicate(&self) -> (r: MarketChannel)
        requires
            self.wf(),
        ensures
            r.wf(),
            r@ == self@,
    {
        MarketChannel {
            id: self.id.clone(),
            deposit_asset: self.deposit_asset.clone(),
            deposit_amount: self.deposit_amount.duplicate(),
            status: self.status.duplicate(),
            spec: self.spec.duplicate(),
        }
    }
}

/// Every channel in the list is well-formed.
pub open spec fn all_wf(s: Seq<MarketChannel>) -> bool {
    forall|i: int| 0 <= i < s.len() ==> (#[trigger] s[i]).wf()
}

} // verus!
