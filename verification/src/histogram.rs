//! Latency and batch size histograms.
use hdrhistogram::{AdditionError, CreationError, RecordError};
use vstd::prelude::*;
use vstd::arithmetic::power2::{lemma2_to64, lemma2_to64_rest, lemma_pow2_unfold, pow2};
use vstd::multiset::Multiset;

verus! {

/// A histogram of counted values.
#[verifier::external_body]
pub struct SampleHistogram {
    inner: hdrhistogram::Histogram<u64>,
}

/// Why a histogram could not be made.
#[verifier::external_type_specification]
#[verifier::external_body]
pub struct ExCreationError(hdrhistogram::CreationError);

/// Why a value could not be recorded.
#[verifier::external_type_specification]
#[verifier::external_body]
pub struct ExRecordError(hdrhistogram::RecordError);

/// Why a histogram could not be added to another.
#[verifier::external_type_specification]
#[verifier::external_body]
pub struct ExAdditionError(hdrhistogram::AdditionError);

/// What a histogram holds: for each value that it counts, the lowest value of its bucket, as
/// often as it was counted.
pub uninterp spec fn recorded(h: SampleHistogram) -> Multiset<u64>;

/// The number of significant decimal digits that a histogram was made to keep.
pub uninterp spec fn digits_kept(h: SampleHistogram) -> u8;

/// Whether a histogram grows to take values beyond its range.
pub uninterp spec fn grows(h: SampleHistogram) -> bool;

/// The lowest value of the bucket in which a histogram of three digits counts `v`: values below
/// 2048 have a bucket each, and from there on the width of a bucket doubles with the value.
pub open spec fn bucket_floor(v: nat) -> nat
    decreases v,
{
    if v < 2048 {
        v
    } else {
        2 * bucket_floor(v / 2)
    }
}

/// The highest value of the bucket in which a histogram of three digits counts `v`.
pub open spec fn bucket_ceiling(v: nat) -> nat
    decreases v,
{
    if v < 2048 {
        v
    } else {
        2 * bucket_ceiling(v / 2) + 1
    }
}

/// Whether no counted value lies above `v`.
pub open spec fn is_top(counted: Multiset<u64>, v: u64) -> bool {
    forall|u: u64| #[trigger] counted.contains(u) ==> u <= v
}

/// Whether `m` is the maximum that a histogram reads out: zero where nothing was counted, and
/// otherwise the highest value of the highest bucket in use. The last bucket of all ends at
/// `u64::MAX`, and may read one less.
pub open spec fn is_maximum(m: u64, counted: Multiset<u64>) -> bool {
    if counted.len() == 0 {
        m == 0
    } else {
        exists|v: u64|
            {
                &&& #[trigger] counted.contains(v)
                &&& is_top(counted, v)
                &&& m == bucket_ceiling(v as nat) || (bucket_ceiling(v as nat) == u64::MAX && m
                    == u64::MAX - 1)
            }
    }
}

/// The value that a histogram reads out for a bucket: its highest one, or one less for the last
/// bucket of all.
pub open spec fn bucket_top(v: u64) -> u64 {
    if bucket_ceiling(v as nat) >= u64::MAX {
        (u64::MAX - 1) as u64
    } else {
        bucket_ceiling(v as nat) as u64
    }
}

/// Whether `list` has one entry for each bucket in use, with the value that is read out for it
/// and the number of values counted there, in ascending order.
pub open spec fn lists_buckets(list: Seq<(u64, u64)>, counted: Multiset<u64>) -> bool {
    &&& forall|i: int, j: int| 0 <= i < j < list.len() ==> (#[trigger] list[i]).0 < (
    #[trigger] list[j]).0
    &&& lists_used_buckets(list, counted)
    &&& lists_every_bucket(list, counted)
}

/// Whether every entry is that of a bucket in use.
#[verifier::opaque]
pub open spec fn lists_used_buckets(list: Seq<(u64, u64)>, counted: Multiset<u64>) -> bool {
    forall|i: int|
        0 <= i < list.len() ==> exists|v: u64| #[trigger]
            counted.contains(v) && lists_bucket(#[trigger] list[i], v, counted)
}

/// Whether every bucket in use has an entry.
#[verifier::opaque]
pub open spec fn lists_every_bucket(list: Seq<(u64, u64)>, counted: Multiset<u64>) -> bool {
    forall|v: u64| #[trigger]
        counted.contains(v) ==> exists|i: int|
            0 <= i < list.len() && lists_bucket(#[trigger] list[i], v, counted)
}

/// Whether `entry` is that of the bucket whose lowest value is `v`.
pub open spec fn lists_bucket(entry: (u64, u64), v: u64, counted: Multiset<u64>) -> bool {
    &&& bucket_floor(v as nat) == v
    &&& entry.0 == bucket_top(v)
    &&& entry.1 == counted.count(v)
}

/// `n` times the value `v`.
pub open spec fn repeated(v: u64, n: nat) -> Multiset<u64>
    decreases n,
{
    if n == 0 {
        Multiset::empty()
    } else {
        repeated(v, (n - 1) as nat).insert(v)
    }
}

/// What an empty histogram holds once it has counted each value of a list as often as the list
/// says.
pub open spec fn recounted(list: Seq<(u64, u64)>) -> Multiset<u64>
    decreases list.len(),
{
    if list.len() == 0 {
        Multiset::empty()
    } else {
        recounted(list.drop_last()).add(
            repeated(bucket_floor(list.last().0 as nat) as u64, list.last().1 as nat),
        )
    }
}

/// Whether a histogram is of the kind that is used here: three digits, and growing.
pub open spec fn standard(h: SampleHistogram) -> bool {
    digits_kept(h) == 3 && grows(h)
}

/// `hdrhistogram::Histogram::new`: an empty histogram that grows and keeps `sigfig` digits, of
/// which there can be at most five.
#[verifier::external_body]
pub(crate) fn histogram_new(sigfig: u8) -> (r: Result<SampleHistogram, CreationError>)
    ensures
        r is Ok <==> sigfig <= 5,
        r matches Ok(h) ==> recorded(h) == Multiset::<u64>::empty() && digits_kept(h) == sigfig
            && grows(h),
{
    hdrhistogram::Histogram::new(sigfig).map(|inner| SampleHistogram { inner })
}

/// `hdrhistogram::Histogram::record`: counts one value in its bucket. A histogram that grows
/// always takes it; one that refuses it is as before. Nothing is claimed of the contents once
/// the counters have reached their limit.
#[verifier::external_body]
pub(crate) fn histogram_record(h: &mut SampleHistogram, value: u64) -> (r: Result<(), RecordError>)
    requires
        digits_kept(*old(h)) == 3,
    ensures
        digits_kept(*final(h)) == digits_kept(*old(h)),
        grows(*final(h)) == grows(*old(h)),
        grows(*old(h)) ==> r is Ok,
        r is Ok && recorded(*old(h)).len() < u64::MAX ==> recorded(*final(h)) == recorded(
            *old(h),
        ).insert(bucket_floor(value as nat) as u64),
        r is Err ==> recorded(*final(h)) == recorded(*old(h)),
{
    h.inner.record(value)
}

/// `hdrhistogram::Histogram::add`: counts all that another histogram holds. A histogram that
/// grows always takes it; one that refuses it is as before. Nothing is claimed of the contents
/// once the counters have reached their limit.
#[verifier::external_body]
pub(crate) fn histogram_add(h: &mut SampleHistogram, source: &SampleHistogram) -> (r: Result<
    (),
    AdditionError,
>)
    requires
        digits_kept(*old(h)) == 3,
        digits_kept(*source) == 3,
    ensures
        digits_kept(*final(h)) == digits_kept(*old(h)),
        grows(*final(h)) == grows(*old(h)),
        grows(*old(h)) ==> r is Ok,
        r is Ok && recorded(*old(h)).len() + recorded(*source).len() <= u64::MAX ==> recorded(
            *final(h),
        ) == recorded(*old(h)).add(recorded(*source)),
        r is Err ==> recorded(*final(h)) == recorded(*old(h)),
{
    h.inner.add(&source.inner)
}

/// `hdrhistogram::Histogram::len`: the number of values counted. Nothing is claimed of it once
/// the counters have reached their limit.
#[verifier::external_body]
pub(crate) fn histogram_len(h: &SampleHistogram) -> (n: u64)
    ensures
        recorded(*h).len() <= u64::MAX ==> n == recorded(*h).len(),
{
    h.inner.len()
}

/// `hdrhistogram::Histogram::is_empty`: whether no value has been counted.
#[verifier::external_body]
pub(crate) fn histogram_is_empty(h: &SampleHistogram) -> (r: bool)
    ensures
        r == (recorded(*h).len() == 0),
{
    h.inner.is_empty()
}

/// `hdrhistogram::Histogram::max`: zero for an empty histogram, and otherwise the highest value
/// of the highest bucket that counts something, or one less for the last bucket of all where
/// `u64::MAX` itself was not counted.
#[verifier::external_body]
pub(crate) fn histogram_max(h: &SampleHistogram) -> (m: u64)
    requires
        digits_kept(*h) == 3,
    ensures
        is_maximum(m, recorded(*h)),
{
    h.inner.max()
}

/// `hdrhistogram::Histogram::iter_recorded`: the buckets that count something, from the lowest to
/// the highest. What a bucket counts is held under its lowest value. An entry is
/// `value_iterated_to`, the value that is read out for the bucket, and `count_at_value`, the
/// number of values counted there.
#[verifier::external_body]
pub(crate) fn histogram_iter_recorded(h: &SampleHistogram) -> (list: Vec<(u64, u64)>)
    requires
        digits_kept(*h) == 3,
    ensures
        lists_buckets(list@, recorded(*h)),
{
    h.inner.iter_recorded().map(|b| (b.value_iterated_to(), b.count_at_value())).collect()
}

/// An empty histogram.
pub fn new_histogram() -> (h: SampleHistogram)
    ensures
        standard(h),
        recorded(h) == Multiset::<u64>::empty(),
{
    histogram_new(3).unwrap()
}

/// Counts one value.
pub fn count_value(h: &mut SampleHistogram, value: u64)
    requires
        standard(*old(h)),
    ensures
        standard(*final(h)),
        recorded(*old(h)).len() < u64::MAX ==> recorded(*final(h)) == recorded(*old(h)).insert(
            bucket_floor(value as nat) as u64,
        ),
{
    let _ = histogram_record(h, value);
}

/// Counts all that another histogram holds.
pub fn count_all(h: &mut SampleHistogram, source: &SampleHistogram)
    requires
        standard(*old(h)),
        standard(*source),
    ensures
        standard(*final(h)),
        recorded(*old(h)).len() + recorded(*source).len() <= u64::MAX ==> recorded(*final(h))
            == recorded(*old(h)).add(recorded(*source)),
{
    let _ = histogram_add(h, source);
}

/// The number of values counted.
pub fn counted(h: &SampleHistogram) -> (n: u64)
    ensures
        recorded(*h).len() <= u64::MAX ==> n == recorded(*h).len(),
{
    histogram_len(h)
}

/// Whether no value has been counted.
pub fn nothing_counted(h: &SampleHistogram) -> (r: bool)
    ensures
        r == (recorded(*h).len() == 0),
{
    histogram_is_empty(h)
}

/// The highest value counted, to the precision of the histogram.
pub fn highest_counted(h: &SampleHistogram) -> (m: u64)
    requires
        standard(*h),
    ensures
        is_maximum(m, recorded(*h)),
{
    histogram_max(h)
}

/// The buckets in use, each with the value that is read out for it and the number of values
/// counted there, in ascending order. Counted again, they give the same contents.
pub fn bucket_counts(h: &SampleHistogram) -> (list: Vec<(u64, u64)>)
    requires
        standard(*h),
    ensures
        lists_buckets(list@, recorded(*h)),
        recounted(list@) == recorded(*h),
{
    let list: Vec<(u64, u64)> = histogram_iter_recorded(h);
    proof {
        law_listed_buckets_are_the_contents(list@, recorded(*h));
    }
    list
}

/// A bucket holds its bounds: the value that is counted lies between them, and they are less
/// than a thousandth of it apart.
pub proof fn law_bucket_precision(v: nat)
    ensures
        bucket_floor(v) <= v <= bucket_ceiling(v),
        v >= 2048 ==> 1024 * (bucket_ceiling(v) - bucket_floor(v) + 1) <= bucket_floor(v),
        bucket_floor(bucket_floor(v)) == bucket_floor(v),
        v < 2048 ==> bucket_floor(v) == v && bucket_ceiling(v) == v,
    decreases v,
{
    if v >= 2048 {
        law_bucket_precision(v / 2);
        lemma_floor_large(v);
        assert(bucket_floor(v) / 2 == bucket_floor(v / 2));
        if v / 2 < 2048 {
            assert(bucket_floor(v / 2) == v / 2 && bucket_ceiling(v / 2) == v / 2);
        }
    }
}

/// A bucket of large values starts at a large value.
proof fn lemma_floor_large(v: nat)
    requires
        v >= 2048,
    ensures
        bucket_floor(v) >= 2048,
    decreases v,
{
    reveal_with_fuel(bucket_floor, 2);
    if v / 2 >= 2048 {
        lemma_floor_large(v / 2);
    }
}

/// The highest value of a bucket lies in that bucket.
proof fn lemma_ceiling_in_bucket(v: nat)
    ensures
        bucket_floor(bucket_ceiling(v)) == bucket_floor(v),
    decreases v,
{
    if v >= 2048 {
        lemma_ceiling_in_bucket(v / 2);
        law_bucket_precision(v);
        assert(bucket_ceiling(v) / 2 == bucket_ceiling(v / 2));
    }
}

/// A bucket does not reach beyond a power of two.
proof fn lemma_ceiling_below(v: nat, k: nat)
    requires
        v < 2048 * pow2(k),
    ensures
        bucket_ceiling(v) < 2048 * pow2(k),
    decreases v,
{
    if v >= 2048 {
        if k == 0 {
            lemma2_to64();
        } else {
            lemma_pow2_unfold(k);
            lemma_ceiling_below(v / 2, (k - 1) as nat);
        }
    }
}

/// The value that is read out for a bucket lies in that bucket.
pub proof fn law_read_out_value_is_in_its_bucket(v: u64)
    ensures
        bucket_floor(bucket_top(v) as nat) == bucket_floor(v as nat),
{
    lemma_ceiling_in_bucket(v as nat);
    lemma2_to64();
    lemma2_to64_rest();
    assert(2048 * pow2(53) == 0x1_0000_0000_0000_0000);
    lemma_ceiling_below(v as nat, 53);
    let (top, below) = (u64::MAX as nat, (u64::MAX - 1) as nat);
    if bucket_ceiling(v as nat) >= u64::MAX {
        assert(bucket_ceiling(v as nat) == top);
        assert(top / 2 == below / 2);
    }
}

/// A value that is repeated is there as often.
proof fn lemma_repeated_count(v: u64, n: nat)
    ensures
        forall|u: u64| #[trigger] repeated(v, n).count(u) == if u == v {
            n
        } else {
            0
        },
    decreases n,
{
    broadcast use vstd::multiset::group_multiset_axioms;

    if n > 0 {
        let fewer = repeated(v, (n - 1) as nat);
        lemma_repeated_count(v, (n - 1) as nat);
        assert forall|u: u64| #[trigger] repeated(v, n).count(u) == if u == v {
            n
        } else {
            0
        } by {
            assert(fewer.insert(v).count(u) == fewer.count(u) + Multiset::singleton(v).count(u));
        }
    }
}

/// The entry of a list whose value lies in the bucket of `u`, as a number of values.
spec fn entry_count(list: Seq<(u64, u64)>, u: u64) -> nat
    decreases list.len(),
{
    if list.len() == 0 {
        0
    } else {
        entry_count(list.drop_last(), u) + if bucket_floor(list.last().0 as nat) as u64 == u {
            list.last().1 as nat
        } else {
            0
        }
    }
}

/// What a list counts again of a value is what its entries say of it.
proof fn lemma_recounted_count(list: Seq<(u64, u64)>, u: u64)
    ensures
        recounted(list).count(u) == entry_count(list, u),
    decreases list.len(),
{
    broadcast use vstd::multiset::group_multiset_axioms;

    if list.len() > 0 {
        lemma_recounted_count(list.drop_last(), u);
        lemma_repeated_count(
            bucket_floor(list.last().0 as nat) as u64,
            list.last().1 as nat,
        );
    }
}

/// Where entry `at` is the only one of its bucket, it alone counts.
proof fn lemma_single_entry(list: Seq<(u64, u64)>, u: u64, at: int)
    requires
        forall|i: int|
            0 <= i < list.len() && i != at ==> bucket_floor((#[trigger] list[i]).0 as nat) as u64
                != u,
        0 <= at < list.len() ==> bucket_floor(list[at].0 as nat) as u64 == u,
    ensures
        entry_count(list, u) == if 0 <= at < list.len() {
            list[at].1 as nat
        } else {
            0
        },
    decreases list.len(),
{
    if list.len() > 0 {
        let before = list.drop_last();
        assert forall|i: int| 0 <= i < before.len() && i != at implies bucket_floor(
            (#[trigger] before[i]).0 as nat,
        ) as u64 != u by {
            assert(before[i] == list[i]);
        }
        if 0 <= at < before.len() {
            assert(before[at] == list[at]);
        }
        lemma_single_entry(before, u, at);
        let last = list.len() - 1;
        assert(list[last] == list.last());
    }
}

/// The bucket of an entry.
proof fn lemma_bucket_of_entry(list: Seq<(u64, u64)>, counted: Multiset<u64>, i: int) -> (v: u64)
    requires
        lists_buckets(list, counted),
        0 <= i < list.len(),
    ensures
        counted.contains(v),
        lists_bucket(list[i], v, counted),
        bucket_floor(list[i].0 as nat) == v,
{
    reveal(lists_used_buckets);
    let v = choose|v: u64| #[trigger]
        counted.contains(v) && lists_bucket(list[i], v, counted);
    law_read_out_value_is_in_its_bucket(v);
    v
}

/// The entry of a bucket.
proof fn lemma_entry_of_bucket(list: Seq<(u64, u64)>, counted: Multiset<u64>, v: u64) -> (i: int)
    requires
        lists_buckets(list, counted),
        counted.contains(v),
    ensures
        0 <= i < list.len(),
        lists_bucket(list[i], v, counted),
        bucket_floor(list[i].0 as nat) == v,
{
    reveal(lists_every_bucket);
    law_read_out_value_is_in_its_bucket(v);
    choose|i: int| 0 <= i < list.len() && lists_bucket(#[trigger] list[i], v, counted)
}

/// The listed buckets, counted again, hold each value as often.
proof fn lemma_listed_count(list: Seq<(u64, u64)>, counted: Multiset<u64>, u: u64)
    requires
        lists_buckets(list, counted),
    ensures
        recounted(list).count(u) == counted.count(u),
{
    broadcast use vstd::multiset::group_multiset_axioms;

    lemma_recounted_count(list, u);
    let at = if counted.contains(u) {
        lemma_entry_of_bucket(list, counted, u)
    } else {
        -1
    };
    assert forall|i: int| 0 <= i < list.len() && i != at implies bucket_floor(
        (#[trigger] list[i]).0 as nat,
    ) as u64 != u by {
        let v = lemma_bucket_of_entry(list, counted, i);
        if v == u {
            assert(list[i].0 == list[at].0);
            if i < at {
                assert(list[i].0 < list[at].0);
            } else {
                assert(list[at].0 < list[i].0);
            }
        }
    }
    lemma_single_entry(list, u, at);
}

/// The listed buckets, counted again, are the contents of the histogram that they were listed of.
pub proof fn law_listed_buckets_are_the_contents(list: Seq<(u64, u64)>, counted: Multiset<u64>)
    requires
        lists_buckets(list, counted),
    ensures
        recounted(list) == counted,
{
    broadcast use vstd::multiset::group_multiset_axioms;

    assert forall|u: u64| #[trigger] recounted(list).count(u) == counted.count(u) by {
        lemma_listed_count(list, counted, u);
    }
    assert(recounted(list) =~= counted);
}

/// A bucket is as wide as its values need and no wider: its width is a power of two, it starts at
/// a multiple of it, and its values have at least ten and at most eleven bits above it. Values
/// below 2048 have a bucket each.
pub proof fn law_bucket_width(v: nat) -> (k: nat)
    ensures
        bucket_ceiling(v) + 1 - bucket_floor(v) == pow2(k),
        bucket_floor(v) % pow2(k) == 0,
        bucket_floor(v) < 2048 * pow2(k),
        v < 2048 ==> k == 0,
        v >= 2048 ==> k > 0 && bucket_floor(v) >= 1024 * pow2(k),
    decreases v,
{
    lemma2_to64();
    if v < 2048 {
        assert(v % 1 == 0);
        0
    } else {
        let half = law_bucket_width(v / 2);
        let k = half + 1;
        lemma_pow2_unfold(k);
        let (a, w) = (bucket_floor(v / 2) as int, pow2(half) as int);
        vstd::arithmetic::power2::lemma_pow2_pos(half);
        vstd::arithmetic::div_mod::lemma_fundamental_div_mod(a, w);
        let q = a / w;
        assert(2 * a == q * (2 * w) + 0) by (nonlinear_arith)
            requires
                a == w * q,
        ;
        vstd::arithmetic::div_mod::lemma_fundamental_div_mod_converse(2 * a, 2 * w, q, 0);
        if v / 2 < 2048 {
            assert(bucket_floor(v / 2) == v / 2);
        }
        k
    }
}

/// Lists of values are counted one after the other, each value as often as its list says.
pub proof fn law_counts_add_up(a: Seq<(u64, u64)>, b: Seq<(u64, u64)>, v: u64, n: u64)
    ensures
        recounted(a + b) == recounted(a).add(recounted(b)),
        recounted(Seq::empty()) == Multiset::<u64>::empty(),
        recounted(seq![(v, n)]).count(bucket_floor(v as nat) as u64) == n,
        recounted(seq![(v, n)]).len() == n,
    decreases b.len(),
{
    broadcast use vstd::multiset::group_multiset_axioms;

    let one = seq![(v, n)];
    let low = bucket_floor(v as nat) as u64;
    assert(one.drop_last() =~= Seq::<(u64, u64)>::empty());
    assert(recounted(one.drop_last()) == Multiset::<u64>::empty());
    assert(one.last() == (v, n));
    lemma_repeated_count(low, n as nat);
    lemma_repeated_len(low, n as nat);
    assert(recounted(one) =~= repeated(low, n as nat));
    if b.len() == 0 {
        assert(a + b =~= a);
        assert(recounted(a) =~= recounted(a).add(Multiset::empty()));
    } else {
        assert((a + b).drop_last() =~= a + b.drop_last());
        assert((a + b).last() == b.last());
        law_counts_add_up(a, b.drop_last(), v, n);
        assert(recounted(a + b) =~= recounted(a).add(recounted(b)));
    }
}

/// A value that is repeated is the only one there.
proof fn lemma_repeated_len(v: u64, n: nat)
    ensures
        repeated(v, n).len() == n,
    decreases n,
{
    broadcast use vstd::multiset::group_multiset_axioms;

    if n > 0 {
        lemma_repeated_len(v, (n - 1) as nat);
    }
}

} // verus!
