use vstd::prelude::*;
use vstd::string::StringExecFns;
use crate::domain::ChannelModel;
use crate::domain::MarketChannel;
use crate::domain::all_wf;
use crate::domain::models;
use crate::domain::status_rank;
use crate::domain::status_rank_spec;

verus! {

/// The two orderings the dashboard offers.
#[derive(Clone, Copy, Debug, PartialEq, Eq, Structural)]
pub enum ChannelSort {
    Deposit,
    Status,
}

/// The deposit-asset identifier the dashboard restricts itself to.
pub open spec fn dai_addr_spec() -> Seq<char> {
    "0x89d24A6b4CcB1B6fAA2625fE562bDD9a23260359"@
}

/// The deposit-asset identifier the dashboard restricts itself to.
pub fn dai_addr() -> (r: String)
    ensures
        r@ == dai_addr_spec(),
{
    String::from_str("0x89d24A6b4CcB1B6fAA2625fE562bDD9a23260359")
}

/// The channels whose deposit asset is `a`, in their input order.
pub open spec fn asset_filter(s: Seq<ChannelModel>, a: Seq<char>) -> Seq<ChannelModel> {
    s.filter(|c: ChannelModel| c.deposit_asset == a)
}

/// The sort key of a channel under a mode. Sorting is ascending by key:
/// deposits sort descending (larger first), statuses ascending in their
/// declared order.
pub open spec fn sort_key(mode: ChannelSort, c: ChannelModel) -> int {
    match mode {
        ChannelSort::Deposit => -(c.deposit_amount as int),
        ChannelSort::Status => status_rank_spec(c.status.status_type),
    }
}

/// `a` must come strictly before `b` under `mode`; ties never order.
pub open spec fn strictly_before(mode: ChannelSort, a: ChannelModel, b: ChannelModel) -> bool {
    sort_key(mode, a) < sort_key(mode, b)
}

/// Keys are non-decreasing along the list.
pub open spec fn sorted_by(mode: ChannelSort, s: Seq<ChannelModel>) -> bool {
    forall|i: int, j: int|
        0 <= i <= j < s.len() ==> sort_key(mode, s[i]) <= sort_key(mode, s[j])
}

/// The position where a stable insertion places `x`: after every element it
/// does not strictly precede.
pub open spec fn first_pos(mode: ChannelSort, s: Seq<ChannelModel>, x: ChannelModel) -> int
    decreases s.len(),
{
    if s.len() == 0 {
        0
    } else if strictly_before(mode, x, s[0]) {
        0
    } else {
        1 + first_pos(mode, s.drop_first(), x)
    }
}

/// Stable insertion of `x` into `s`.
pub open spec fn insert_sorted(
    mode: ChannelSort,
    s: Seq<ChannelModel>,
    x: ChannelModel,
) -> Seq<ChannelModel>
    decreases s.len(),
{
    if s.len() == 0 {
        seq![x]
    } else if strictly_before(mode, x, s[0]) {
        seq![x] + s
    } else {
        seq![s[0]] + insert_sorted(mode, s.drop_first(), x)
    }
}

/// Stable insertion sort of `s` under `mode`.
pub open spec fn sort_spec(mode: ChannelSort, s: Seq<ChannelModel>) -> Seq<ChannelModel>
    decreases s.len(),
{
    if s.len() == 0 {
        Seq::empty()
    } else {
        insert_sorted(mode, sort_spec(mode, s.drop_last()), s.last())
    }
}

/// The elements with sort key `k`.
pub open spec fn key_pred(mode: ChannelSort, k: int) -> spec_fn(ChannelModel) -> bool {
    |c: ChannelModel| sort_key(mode, c) == k
}

proof fn lemma_first_pos_props(mode: ChannelSort, s: Seq<ChannelModel>, x: ChannelModel)
    ensures
        0 <= first_pos(mode, s, x) <= s.len(),
        forall|j: int| 0 <= j < first_pos(mode, s, x) ==> !strictly_before(mode, x, s[j]),
        first_pos(mode, s, x) < s.len() ==> strictly_before(
            mode,
            x,
            s[first_pos(mode, s, x)],
        ),
    decreases s.len(),
{
    if s.len() == 0 {
    } else if strictly_before(mode, x, s[0]) {
    } else {
        let t = s.drop_first();
        lemma_first_pos_props(mode, t, x);
        assert(forall|j: int| 0 <= j < t.len() ==> t[j] == s[j + 1]);
        let p = first_pos(mode, s, x);
        assert(p == 1 + first_pos(mode, t, x));
        assert forall|j: int| 0 <= j < p implies !strictly_before(mode, x, s[j]) by {
            if j > 0 {
                assert(!strictly_before(mode, x, t[j - 1]));
            }
        }
        if p < s.len() {
            assert(s[p] == t[p - 1]);
        }
    }
}

proof fn lemma_insert_eq(mode: ChannelSort, s: Seq<ChannelModel>, x: ChannelModel)
    ensures
        insert_sorted(mode, s, x) == s.insert(first_pos(mode, s, x), x),
    decreases s.len(),
{
    lemma_first_pos_props(mode, s, x);
    if s.len() == 0 {
        assert(insert_sorted(mode, s, x) =~= s.insert(0, x));
    } else if strictly_before(mode, x, s[0]) {
        assert(seq![x] + s =~= s.insert(0, x));
    } else {
        let t = s.drop_first();
        lemma_insert_eq(mode, t, x);
        let p = first_pos(mode, t, x);
        assert(seq![s[0]] + t.insert(p, x) =~= s.insert(p + 1, x));
    }
}

/// Inserting at the first admissible position keeps the list sorted.
proof fn lemma_insert_keeps_sorted(mode: ChannelSort, s: Seq<ChannelModel>, x: ChannelModel)
    requires
        sorted_by(mode, s),
    ensures
        sorted_by(mode, insert_sorted(mode, s, x)),
{
    lemma_first_pos_props(mode, s, x);
    lemma_insert_eq(mode, s, x);
    let p = first_pos(mode, s, x);
    let r = s.insert(p, x);
    assert forall|i: int, j: int|
        0 <= i <= j < r.len() implies sort_key(mode, r[i]) <= sort_key(mode, r[j]) by {
        assert(forall|t: int| 0 <= t < p ==> r[t] == s[t]);
        assert(r[p] == x);
        assert(forall|t: int| p < t < r.len() ==> r[t] == s[t - 1]);
        if p < s.len() {
            assert(strictly_before(mode, x, s[p]));
        }
    }
}

/// The output of the sort is sorted.
pub proof fn lemma_sort_spec_sorted(mode: ChannelSort, s: Seq<ChannelModel>)
    ensures
        sorted_by(mode, sort_spec(mode, s)),
    decreases s.len(),
{
    if s.len() == 0 {
    } else {
        lemma_sort_spec_sorted(mode, s.drop_last());
        lemma_insert_keeps_sorted(mode, sort_spec(mode, s.drop_last()), s.last());
    }
}

proof fn lemma_insert_all_after(mode: ChannelSort, s: Seq<ChannelModel>, x: ChannelModel)
    requires
        forall|i: int| 0 <= i < s.len() ==> !strictly_before(mode, x, #[trigger] s[i]),
    ensures
        insert_sorted(mode, s, x) == s.push(x),
{
    lemma_first_pos_props(mode, s, x);
    lemma_insert_eq(mode, s, x);
    let p = first_pos(mode, s, x);
    assert(p == s.len());
    assert(s.insert(p, x) =~= s.push(x));
}

/// Law: sorting an already-sorted list leaves it exactly as it is.
pub proof fn lemma_sort_of_sorted_identity(mode: ChannelSort, s: Seq<ChannelModel>)
    requires
        sorted_by(mode, s),
    ensures
        sort_spec(mode, s) == s,
    decreases s.len(),
{
    if s.len() == 0 {
        assert(sort_spec(mode, s) =~= s);
    } else {
        let t = s.drop_last();
        assert(sorted_by(mode, t)) by {
            assert(forall|i: int| 0 <= i < t.len() ==> t[i] == s[i]);
        }
        lemma_sort_of_sorted_identity(mode, t);
        assert(forall|i: int| 0 <= i < t.len() ==> !strictly_before(mode, s.last(), #[trigger] t[i]))
            by {
            assert(forall|i: int| 0 <= i < t.len() ==> t[i] == s[i]);
            assert(s.last() == s[s.len() - 1]);
        }
        lemma_insert_all_after(mode, t, s.last());
        assert(t.push(s.last()) =~= s);
    }
}

/// Law: sorting is idempotent — sorting a list sorted by the same mode
/// produces the same order.
pub proof fn lemma_sort_idempotent(mode: ChannelSort, s: Seq<ChannelModel>)
    ensures
        sort_spec(mode, sort_spec(mode, s)) == sort_spec(mode, s),
{
    lemma_sort_spec_sorted(mode, s);
    lemma_sort_of_sorted_identity(mode, sort_spec(mode, s));
}

/// Law: sorting only rearranges — the sorted list holds exactly the channels
/// of the input, each as often as it occurs there.
pub proof fn lemma_sort_permutation(mode: ChannelSort, s: Seq<ChannelModel>)
    ensures
        sort_spec(mode, s).to_multiset() == s.to_multiset(),
    decreases s.len(),
{
    broadcast use vstd::seq_lib::group_to_multiset_ensures;
    broadcast use vstd::multiset::group_multiset_axioms;

    if s.len() == 0 {
        assert(sort_spec(mode, s) =~= s);
    } else {
        let t = s.drop_last();
        lemma_sort_permutation(mode, t);
        lemma_first_pos_props(mode, sort_spec(mode, t), s.last());
        lemma_insert_eq(mode, sort_spec(mode, t), s.last());
        let p = first_pos(mode, sort_spec(mode, t), s.last());
        assert(sort_spec(mode, t).insert(p, s.last()).to_multiset() =~= sort_spec(
            mode,
            t,
        ).to_multiset().insert(s.last()));
        assert(t.push(s.last()) =~= s);
        assert(s.to_multiset() =~= t.to_multiset().insert(s.last()));
    }
}

proof fn lemma_insert_filter(
    mode: ChannelSort,
    s: Seq<ChannelModel>,
    x: ChannelModel,
    k: int,
)
    requires
        sorted_by(mode, s),
    ensures
        insert_sorted(mode, s, x).filter(key_pred(mode, k)) == if sort_key(mode, x) == k {
            s.filter(key_pred(mode, k)).push(x)
        } else {
            s.filter(key_pred(mode, k))
        },
{
    reveal(Seq::filter);
    let pred = key_pred(mode, k);
    lemma_first_pos_props(mode, s, x);
    lemma_insert_eq(mode, s, x);
    let p = first_pos(mode, s, x);
    let front = s.take(p);
    let back = s.skip(p);
    assert(s.insert(p, x) =~= front + (seq![x] + back));
    Seq::<ChannelModel>::filter_distributes_over_add(front, seq![x] + back, pred);
    Seq::<ChannelModel>::filter_distributes_over_add(seq![x], back, pred);
    assert(front + back =~= s);
    Seq::<ChannelModel>::filter_distributes_over_add(front, back, pred);
    assert(seq![x].drop_last() =~= Seq::<ChannelModel>::empty());
    assert(seq![x].last() == x);
    assert(Seq::<ChannelModel>::empty().filter(pred) =~= Seq::<ChannelModel>::empty());
    if sort_key(mode, x) == k {
        // every element at or past the insertion point has a strictly larger
        // key, so none of them carries key `k`
        assert(back.filter(pred) =~= Seq::<ChannelModel>::empty()) by {
            if back.filter(pred).len() > 0 {
                let e = back.filter(pred)[0];
                Seq::lemma_filter_pred(back, pred, 0);
                assert(back.filter(pred).contains(e));
                Seq::lemma_filter_contains_rev(back, pred, e);
                let bi = choose|bi: int| 0 <= bi < back.len() && back[bi] == e;
                assert(back[bi] == s[p + bi]);
                assert(strictly_before(mode, x, s[p]));
                assert(sort_key(mode, s[p]) <= sort_key(mode, s[p + bi]));
                assert(false);
            }
        }
        assert(seq![x].filter(pred) =~= seq![x]);
        assert(front.filter(pred) + (seq![x] + Seq::<ChannelModel>::empty()) =~= front.filter(pred).push(x));
        assert(s.filter(pred) =~= front.filter(pred));
        assert(insert_sorted(mode, s, x).filter(pred) =~= s.filter(pred).push(x));
    } else {
        assert(seq![x].filter(pred) =~= Seq::<ChannelModel>::empty());
        assert(insert_sorted(mode, s, x).filter(pred) =~= front.filter(pred) + back.filter(pred));
        assert(insert_sorted(mode, s, x).filter(pred) =~= s.filter(pred));
    }
}

/// Law: sorting is stable — for every key, the elements carrying that key
/// keep their original relative order.
pub proof fn lemma_sort_stable(mode: ChannelSort, s: Seq<ChannelModel>, k: int)
    ensures
        sort_spec(mode, s).filter(key_pred(mode, k)) == s.filter(key_pred(mode, k)),
    decreases s.len(),
{
    reveal(Seq::filter);
    let pred = key_pred(mode, k);
    if s.len() == 0 {
        assert(sort_spec(mode, s) =~= s);
        assert(s.filter(pred) =~= s);
    } else {
        let t = s.drop_last();
        lemma_sort_stable(mode, t, k);
        lemma_sort_spec_sorted(mode, t);
        lemma_insert_filter(mode, sort_spec(mode, t), s.last(), k);
        // s.filter unfolds over its last element the same way
        assert(s.filter(pred) == if pred(s.last()) {
            t.filter(pred).push(s.last())
        } else {
            t.filter(pred)
        });
    }
}

/// Retains the channels whose deposit asset is `asset`, in input order,
/// leaving the given list untouched.
pub fn filter_by_asset(channels: &Vec<MarketChannel>, asset: &String) -> (r: Vec<MarketChannel>)
    requires
        all_wf(channels@),
    ensures
        all_wf(r@),
        models(r@) == asset_filter(models(channels@), asset@),
{
    let mut r: Vec<MarketChannel> = Vec::new();
    let mut i: usize = 0;
    while i < channels.len()
        invariant
            all_wf(channels@),
            i <= channels@.len(),
            all_wf(r@),
            models(r@) == asset_filter(models(channels@.take(i as int)), asset@),
        decreases channels@.len() - i,
    {
        let c = &channels[i];
        if c.deposit_asset.eq(asset) {
            let ghost prev = models(r@);
            let d = c.duplicate();
            r.push(d);
            proof {
                assert(models(r@) =~= prev.push(c@));
            }
        }
        proof {
            reveal(Seq::filter);
            let m = models(channels@.take(i + 1));
            assert(m.drop_last() =~= models(channels@.take(i as int)));
            assert(m.last() == channels@[i as int]@);
        }
        i += 1;
    }
    proof {
        assert(channels@.take(channels@.len() as int) =~= channels@);
    }
    r
}

/// `a` must come strictly before `b` under `mode`.
fn channel_before(mode: &ChannelSort, a: &MarketChannel, b: &MarketChannel) -> (r: bool)
    requires
        a.wf(),
        b.wf(),
    ensures
        r == strictly_before(*mode, a@, b@),
{
    match mode {
        ChannelSort::Deposit => b.deposit_amount.lt(&a.deposit_amount),
        ChannelSort::Status => status_rank(&a.status.status_type) < status_rank(
            &b.status.status_type,
        ),
    }
}

/// The position where the stable sort inserts `x` into the sorted list `out`.
fn find_insert_pos(mode: &ChannelSort, out: &Vec<MarketChannel>, x: &MarketChannel) -> (pos:
    usize)
    requires
        all_wf(out@),
        x.wf(),
    ensures
        0 <= pos <= out@.len(),
        pos == first_pos(*mode, models(out@), x@),
{
    let ghost m = models(out@);
    let mut pos: usize = 0;
    let mut stop = false;
    while !stop
        invariant
            all_wf(out@),
            x.wf(),
            m == models(out@),
            pos <= out@.len(),
            forall|j: int| 0 <= j < pos ==> !strictly_before(*mode, x@, m[j]),
            stop ==> pos == out@.len() || strictly_before(*mode, x@, m[pos as int]),
        decreases out@.len() - pos + (if stop { 0int } else { 1int }),
    {
        if pos >= out.len() {
            stop = true;
        } else if channel_before(mode, x, &out[pos]) {
            stop = true;
        } else {
            pos += 1;
        }
    }
    proof {
        lemma_first_pos_props(*mode, m, x@);
        let p = first_pos(*mode, m, x@);
        if pos < p {
            assert(strictly_before(*mode, x@, m[pos as int]));
            assert(!strictly_before(*mode, x@, m[pos as int]));
        } else if p < pos {
            assert(strictly_before(*mode, x@, m[p]));
            assert(!strictly_before(*mode, x@, m[p]));
        }
    }
    pos
}

/// Sorts the given channels by the selected mode: by deposit descending or by
/// status in its declared order, stably in either case. The given list is
/// left untouched.
pub fn sort_channels(mode: &ChannelSort, channels: &Vec<MarketChannel>) -> (r: Vec<MarketChannel>)
    requires
        all_wf(channels@),
    ensures
        all_wf(r@),
        models(r@) == sort_spec(*mode, models(channels@)),
{
    let mut out: Vec<MarketChannel> = Vec::new();
    let mut i: usize = 0;
    while i < channels.len()
        invariant
            all_wf(channels@),
            i <= channels@.len(),
            all_wf(out@),
            models(out@) == sort_spec(*mode, models(channels@.take(i as int))),
        decreases channels@.len() - i,
    {
        let x = channels[i].duplicate();
        let ghost before = models(out@);
        let ghost vpre = out@;
        let pos = find_insert_pos(mode, &out, &x);
        proof {
            lemma_insert_eq(*mode, before, x@);
        }
        out.insert(pos, x);
        proof {
            assert(out@ == vpre.insert(pos as int, x));
            vpre.insert_ensures(pos as int, x);
            before.insert_ensures(pos as int, x@);
            assert forall|t: int| 0 <= t < out@.len() implies (#[trigger] out@[t]).wf()
                && out@[t]@ == before.insert(pos as int, x@)[t] by {
                if t < pos {
                    assert(out@[t] == vpre[t]);
                } else if t == pos {
                    assert(out@[t] == x);
                } else {
                    assert(out@[t] == vpre[t - 1]);
                }
            }
            assert(models(out@) =~= before.insert(pos as int, x@));
            let m = models(channels@.take(i + 1));
            assert(m.drop_last() =~= models(channels@.take(i as int)));
            assert(m.last() == channels@[i as int]@);
        }
        i += 1;
    }
    proof {
        assert(channels@.take(channels@.len() as int) =~= channels@);
    }
    out
}

} // verus!
