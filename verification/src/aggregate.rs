use vstd::prelude::*;
use vstd::string::StringExecFns;
use crate::bignum::BigNum;
use crate::bignum::chars_of;
use crate::bignum::dec_chars;
use crate::bignum::digit_char;
use crate::bignum::digits_all_valid;
use crate::bignum::digits_of;
use crate::bignum::lemma_chars_of_props;
use crate::bignum::lemma_digits_of_value;
use crate::domain::ChannelModel;
use crate::domain::MarketChannel;
use crate::domain::all_wf;
use crate::domain::balances_total;
use crate::domain::models;

verus! {

/// Fixed scale factor giving three decimal digits of percentage precision.
pub const PERCENT_SCALE: u64 = 100000;

/// One whole display unit of the deposit asset is split into this many
/// hundredths: the asset has 18 decimals, reduced to 2 for display.
pub const HUNDREDTH_UNIT: u64 = 10_000_000_000_000_000;

/// Texts longer than this many digits are beyond what the display layer
/// renders as a number; the saturation placeholder is shown instead.
pub const MAX_DISPLAY_DIGITS: usize = 308;

/// The sum of `f` over a list of channel models.
pub open spec fn sum_of(s: Seq<ChannelModel>, f: spec_fn(ChannelModel) -> nat) -> nat
    decreases s.len(),
{
    if s.len() == 0 {
        0
    } else {
        sum_of(s.drop_last(), f) + f(s.last())
    }
}

/// The total deposited across the given channels.
pub open spec fn total_deposit_spec(s: Seq<ChannelModel>) -> nat {
    sum_of(s, |c: ChannelModel| c.deposit_amount)
}

/// The total approved for payout in one channel.
pub open spec fn channel_paid(c: ChannelModel) -> nat {
    balances_total(c.status.balances)
}

/// The total approved for payout across the given channels.
pub open spec fn total_paid_spec(s: Seq<ChannelModel>) -> nat {
    sum_of(s, |c: ChannelModel| channel_paid(c))
}

/// The estimated impressions one channel has paid for: its paid total divided
/// by its minimum payout per impression. A channel configured with a zero
/// minimum contributes nothing rather than raising a division error.
pub open spec fn channel_impressions(c: ChannelModel) -> nat {
    if c.spec.min_per_impression == 0 {
        0
    } else {
        channel_paid(c) / c.spec.min_per_impression
    }
}

/// The estimated impressions across the given channels.
pub open spec fn total_impressions_spec(s: Seq<ChannelModel>) -> nat {
    sum_of(s, |c: ChannelModel| channel_impressions(c))
}

/// Removing one element removes exactly its contribution from the sum.
proof fn lemma_sum_of_remove(s: Seq<ChannelModel>, f: spec_fn(ChannelModel) -> nat, i: int)
    requires
        0 <= i < s.len(),
    ensures
        sum_of(s, f) == f(s[i]) + sum_of(s.remove(i), f),
    decreases s.len(),
{
    if i == s.len() - 1 {
        assert(s.remove(i) =~= s.drop_last());
    } else {
        let t = s.drop_last();
        lemma_sum_of_remove(t, f, i);
        assert(s.remove(i).drop_last() =~= t.remove(i));
        assert(s.remove(i).last() == s.last());
        assert(t[i] == s[i]);
    }
}

/// Law: a sum over channels does not depend on their order.
pub proof fn lemma_sum_of_permutation(
    s1: Seq<ChannelModel>,
    s2: Seq<ChannelModel>,
    f: spec_fn(ChannelModel) -> nat,
)
    requires
        s1.to_multiset() == s2.to_multiset(),
    ensures
        sum_of(s1, f) == sum_of(s2, f),
    decreases s1.len(),
{
    broadcast use vstd::seq_lib::group_to_multiset_ensures;
    broadcast use vstd::multiset::group_multiset_axioms;

    if s1.len() == 0 {
        assert(s1.to_multiset().len() == s1.len());
        assert(s2.to_multiset().len() == s2.len());
        assert(s2.len() == 0);
    } else {
        let x = s1.last();
        assert(s1.contains(x));
        assert(s2.to_multiset().count(x) > 0);
        assert(s2.contains(x));
        let j = choose|j: int| 0 <= j < s2.len() && s2[j] == x;
        assert(s1.drop_last().push(x) =~= s1);
        assert(s1.to_multiset() =~= s1.drop_last().to_multiset().insert(x));
        assert(s2.remove(j).to_multiset() =~= s2.to_multiset().remove(x));
        assert(s1.drop_last().to_multiset() =~= s2.remove(j).to_multiset());
        lemma_sum_of_permutation(s1.drop_last(), s2.remove(j), f);
        lemma_sum_of_remove(s2, f, j);
    }
}

/// Law: `total_deposit` and `total_paid` are invariant under any reordering
/// of the channel list.
pub proof fn lemma_totals_reorder(s1: Seq<ChannelModel>, s2: Seq<ChannelModel>)
    requires
        s1.to_multiset() == s2.to_multiset(),
    ensures
        total_deposit_spec(s1) == total_deposit_spec(s2),
        total_paid_spec(s1) == total_paid_spec(s2),
        total_impressions_spec(s1) == total_impressions_spec(s2),
{
    lemma_sum_of_permutation(s1, s2, |c: ChannelModel| c.deposit_amount);
    lemma_sum_of_permutation(s1, s2, |c: ChannelModel| channel_paid(c));
    lemma_sum_of_permutation(s1, s2, |c: ChannelModel| channel_impressions(c));
}

/// The total deposited across the given channels.
pub fn total_deposit(channels: &Vec<MarketChannel>) -> (r: BigNum)
    requires
        all_wf(channels@),
    ensures
        r.wf(),
        r.value() == total_deposit_spec(models(channels@)),
{
    let mut acc = BigNum::zero();
    let mut i: usize = 0;
    while i < channels.len()
        invariant
            all_wf(channels@),
            i <= channels@.len(),
            acc.wf(),
            acc.value() == total_deposit_spec(models(channels@.take(i as int))),
        decreases channels@.len() - i,
    {
        acc = acc.add(&channels[i].deposit_amount);
        proof {
            let m = models(channels@.take(i + 1));
            assert(m.drop_last() =~= models(channels@.take(i as int)));
            assert(m.last() == channels@[i as int]@);
        }
        i += 1;
    }
    proof {
        assert(channels@.take(channels@.len() as int) =~= channels@);
    }
    acc
}

/// The total approved for payout across the given channels.
pub fn total_paid(channels: &Vec<MarketChannel>) -> (r: BigNum)
    requires
        all_wf(channels@),
    ensures
        r.wf(),
        r.value() == total_paid_spec(models(channels@)),
{
    let mut acc = BigNum::zero();
    let mut i: usize = 0;
    while i < channels.len()
        invariant
            all_wf(channels@),
            i <= channels@.len(),
            acc.wf(),
            acc.value() == total_paid_spec(models(channels@.take(i as int))),
        decreases channels@.len() - i,
    {
        let paid = channels[i].status.balances_sum();
        acc = acc.add(&paid);
        proof {
            let m = models(channels@.take(i + 1));
            assert(m.drop_last() =~= models(channels@.take(i as int)));
            assert(m.last() == channels@[i as int]@);
        }
        i += 1;
    }
    proof {
        assert(channels@.take(channels@.len() as int) =~= channels@);
    }
    acc
}

/// The estimated impressions across the given channels. Channels whose
/// minimum payout per impression is zero are excluded from the division and
/// contribute nothing; no input raises a division error.
pub fn total_impressions(channels: &Vec<MarketChannel>) -> (r: BigNum)
    requires
        all_wf(channels@),
    ensures
        r.wf(),
        r.value() == total_impressions_spec(models(channels@)),
{
    let mut acc = BigNum::zero();
    let mut i: usize = 0;
    while i < channels.len()
        invariant
            all_wf(channels@),
            i <= channels@.len(),
            acc.wf(),
            acc.value() == total_impressions_spec(models(channels@.take(i as int))),
        decreases channels@.len() - i,
    {
        let c = &channels[i];
        if !c.spec.min_per_impression.is_zero() {
            let paid = c.status.balances_sum();
            let part = paid.div_unchecked(&c.spec.min_per_impression);
            acc = acc.add(&part);
        }
        proof {
            let m = models(channels@.take(i + 1));
            assert(m.drop_last() =~= models(channels@.take(i as int)));
            assert(m.last() == channels@[i as int]@);
        }
        i += 1;
    }
    proof {
        assert(channels@.take(channels@.len() as int) =~= channels@);
    }
    acc
}

/// The last two decimal digits of `n`, zero-padded.
pub open spec fn pad2(n: nat) -> Seq<char> {
    seq![digit_char(((n / 10) % 10) as u8), digit_char((n % 10) as u8)]
}

/// The last three decimal digits of `n`, zero-padded.
pub open spec fn pad3(n: nat) -> Seq<char> {
    seq![
        digit_char(((n / 100) % 10) as u8),
        digit_char(((n / 10) % 10) as u8),
        digit_char((n % 10) as u8),
    ]
}

/// The human-readable deposit-asset text of a raw balance: the balance in
/// hundredths of a display unit, shown with two decimals and the unit label;
/// or the saturation placeholder where the magnitude is beyond what the
/// display layer renders as a number.
pub open spec fn dai_readable_spec(v: nat) -> Seq<char> {
    let hundredths = v / (HUNDREDTH_UNIT as nat);
    if digits_of(hundredths).len() > MAX_DISPLAY_DIGITS {
        ">max"@
    } else {
        dec_chars(hundredths / 100) + seq!['.'] + pad2(hundredths % 100) + " DAI"@
    }
}

/// The paid percentage of a channel with the given paid total and deposit,
/// with three decimal digits. A zero deposit reports the saturation
/// placeholder instead of failing, as does a ratio beyond what the display
/// layer renders as a number.
pub open spec fn paid_percentage_spec(paid: nat, deposit: nat) -> Seq<char> {
    if deposit == 0 {
        "100.000%"@
    } else {
        let units = (paid * (PERCENT_SCALE as nat)) / deposit;
        if digits_of(units).len() > MAX_DISPLAY_DIGITS {
            "100.000%"@
        } else {
            dec_chars(units / 1000) + seq!['.'] + pad3(units % 1000) + "%"@
        }
    }
}

/// Decimal text with thousands separators: a comma before every group of
/// three digits counted from the right.
pub open spec fn grouped(s: Seq<char>) -> Seq<char>
    decreases s.len(),
{
    if s.len() <= 3 {
        s
    } else {
        grouped(s.take(s.len() - 3)) + seq![','] + s.skip(s.len() - 3)
    }
}

/// Appends the character of one digit value.
pub(crate) fn append_digit(out: &mut String, d: u8)
    requires
        d < 10,
    ensures
        final(out)@ == old(out)@.push(digit_char(d)),
{
    let piece: &str = if d == 0 {
        "0"
    } else if d == 1 {
        "1"
    } else if d == 2 {
        "2"
    } else if d == 3 {
        "3"
    } else if d == 4 {
        "4"
    } else if d == 5 {
        "5"
    } else if d == 6 {
        "6"
    } else if d == 7 {
        "7"
    } else if d == 8 {
        "8"
    } else {
        "9"
    };
    out.append(piece);
    proof {
        reveal_strlit("0");
        reveal_strlit("1");
        reveal_strlit("2");
        reveal_strlit("3");
        reveal_strlit("4");
        reveal_strlit("5");
        reveal_strlit("6");
        reveal_strlit("7");
        reveal_strlit("8");
        reveal_strlit("9");
        assert(piece@ =~= seq![digit_char(d)]);
        assert(out@ =~= old(out)@.push(digit_char(d)));
    }
}

/// Formats a raw balance of the deposit asset for display.
pub fn dai_readable(bal: &BigNum) -> (r: String)
    requires
        bal.wf(),
    ensures
        r@ == dai_readable_spec(bal.value()),
{
    let unit = BigNum::from_u64(HUNDREDTH_UNIT);
    let hundredths = bal.div_unchecked(&unit);
    proof {
        lemma_digits_of_value(hundredths.digits@);
    }
    if hundredths.digits.len() > MAX_DISPLAY_DIGITS {
        let r = String::from_str(">max");
        return r;
    }
    let hundred = BigNum::from_u64(100);
    let whole = hundredths.div_unchecked(&hundred);
    let frac = hundredths.mod_unchecked(&hundred).to_u64();
    let mut out = whole.format();
    out.append(".");
    append_digit(&mut out, ((frac / 10) % 10) as u8);
    append_digit(&mut out, (frac % 10) as u8);
    out.append(" DAI");
    proof {
        reveal_strlit(".");
        let h = hundredths.value();
        assert(("."@) =~= seq!['.']);
        assert(out@ =~= dec_chars(h / 100) + seq!['.'] + pad2(h % 100) + " DAI"@);
    }
    out
}

/// The paid percentage of a channel: its paid total scaled, divided by its
/// deposit, shown with three decimals; the saturation placeholder where the
/// deposit is zero or the ratio is beyond the displayable range.
pub fn paid_percentage(channel: &MarketChannel) -> (r: String)
    requires
        channel.wf(),
    ensures
        r@ == paid_percentage_spec(channel_paid(channel@), channel@.deposit_amount),
{
    let paid = channel.status.balances_sum();
    if channel.deposit_amount.is_zero() {
        let r = String::from_str("100.000%");
        return r;
    }
    let scaled = paid.multiply(PERCENT_SCALE);
    let units = scaled.div_unchecked(&channel.deposit_amount);
    proof {
        lemma_digits_of_value(units.digits@);
    }
    if units.digits.len() > MAX_DISPLAY_DIGITS {
        let r = String::from_str("100.000%");
        return r;
    }
    let thousand = BigNum::from_u64(1000);
    let whole = units.div_unchecked(&thousand);
    let frac = units.mod_unchecked(&thousand).to_u64();
    let mut out = whole.format();
    out.append(".");
    append_digit(&mut out, ((frac / 100) % 10) as u8);
    append_digit(&mut out, ((frac / 10) % 10) as u8);
    append_digit(&mut out, (frac % 10) as u8);
    out.append("%");
    proof {
        reveal_strlit(".");
        reveal_strlit("%");
        let u = units.value();
        assert(("."@) =~= seq!['.']);
        assert(out@ =~= dec_chars(u / 1000) + seq!['.'] + pad3(u % 1000) + "%"@);
    }
    out
}

/// Renders the digits `digits[..end]` with thousands separators.
fn grouped_rec(digits: &Vec<u8>, end: usize) -> (r: String)
    requires
        digits_all_valid(digits@),
        1 <= end <= digits@.len(),
    ensures
        r@ == grouped(chars_of(digits@.take(end as int))),
    decreases end,
{
    proof {
        lemma_chars_of_props(digits@.take(end as int));
    }
    if end <= 3 {
        let mut out = String::new();
        let mut i: usize = 0;
        while i < end
            invariant
                digits_all_valid(digits@),
                end <= digits@.len(),
                i <= end,
                out@ == chars_of(digits@.take(i as int)),
            decreases end - i,
        {
            append_digit(&mut out, digits[i]);
            proof {
                assert(digits@.take(i + 1).drop_last() =~= digits@.take(i as int));
                assert(digits@.take(i + 1).last() == digits@[i as int]);
            }
            i += 1;
        }
        out
    } else {
        let mut out = grouped_rec(digits, end - 3);
        out.append(",");
        append_digit(&mut out, digits[end - 3]);
        append_digit(&mut out, digits[end - 2]);
        append_digit(&mut out, digits[end - 1]);
        proof {
            reveal_strlit(",");
            lemma_chars_of_props(digits@.take(end - 3));
            let s = chars_of(digits@.take(end as int));
            assert(s.take(end - 3) =~= chars_of(digits@.take(end - 3)));
            assert(s.skip(end - 3) =~= seq![
                digit_char(digits@[end - 3]),
                digit_char(digits@[end - 2]),
                digit_char(digits@[end - 1]),
            ]);
            assert((","@) =~= seq![',']);
            assert(out@ =~= grouped(s.take(end - 3)) + seq![','] + s.skip(end - 3));
        }
        out
    }
}

/// Decimal text of a number with thousands separators, as the impressions
/// total is displayed.
pub fn format_grouped(b: &BigNum) -> (r: String)
    requires
        b.wf(),
    ensures
        r@ == grouped(dec_chars(b.value())),
{
    proof {
        lemma_digits_of_value(b.digits@);
        assert(b.digits@.take(b.digits@.len() as int) =~= b.digits@);
    }
    grouped_rec(&b.digits, b.digits.len())
}

} // verus!
