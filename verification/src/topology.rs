//! Which producer writes to which partitions.
use vstd::prelude::*;
use vstd::string::*;
use crate::text::{decimal, push_decimal};

verus! {

/// The partition that producer `producer_id` writes to in its place `i`.
pub open spec fn assigned(producer_id: nat, i: nat, num_partitions: nat, redundancy: nat) -> nat {
    (producer_id * redundancy + i) % num_partitions
}

/// The partitions that producer `producer_id` writes to, place by place.
pub open spec fn partitions_of(producer_id: nat, num_partitions: u32, redundancy: u32) -> Seq<u32> {
    Seq::new(
        redundancy as nat,
        |i: int|
            assigned(producer_id, i as nat, num_partitions as nat, redundancy as nat) as u32,
    )
}

/// How many times the first `producers` producers together write to a partition.
pub open spec fn times_assigned(
    producers: nat,
    num_partitions: u32,
    redundancy: u32,
    partition: u32,
) -> nat
    decreases producers,
{
    if producers == 0 {
        0
    } else {
        let last = (producers - 1) as nat;
        times_assigned(last, num_partitions, redundancy, partition) + partitions_of(
            last,
            num_partitions,
            redundancy,
        ).to_multiset().count(partition)
    }
}

/// Why a topology is refused.
#[derive(Clone, Copy, Debug, PartialEq, Eq, Structural)]
pub enum TopologyError {
    /// A producer would write to more partitions than there are.
    RedundancyTooHigh { redundancy: u32, partitions: u32 },
    /// Some partition would have no producer.
    NotCovered { producers: usize, redundancy: u32, partitions: u32 },
}

impl TopologyError {
    /// The error in words.
    pub open spec fn text(self) -> Seq<char> {
        match self {
            TopologyError::RedundancyTooHigh { redundancy, partitions } => "R ("@ + decimal(
                redundancy as nat,
            ) + ") must be <= N ("@ + decimal(partitions as nat) + ")"@,
            TopologyError::NotCovered { producers, redundancy, partitions } => "P * R ("@ + decimal(
                producers as nat,
            ) + " * "@ + decimal(redundancy as nat) + " = "@ + decimal(
                (producers * redundancy) as nat,
            ) + ") must be >= N ("@ + decimal(partitions as nat) + ")"@,
        }
    }

    /// The error in words.
    pub fn message(&self) -> (r: String)
        ensures
            r@ == self.text(),
    {
        match *self {
            TopologyError::RedundancyTooHigh { redundancy, partitions } => {
                let mut s: String = "R (".to_string();
                push_decimal(&mut s, redundancy as u128);
                s.append(") must be <= N (");
                push_decimal(&mut s, partitions as u128);
                s.append(")");
                s
            },
            TopologyError::NotCovered { producers, redundancy, partitions } => {
                let mut s: String = "P * R (".to_string();
                push_decimal(&mut s, producers as u128);
                s.append(" * ");
                push_decimal(&mut s, redundancy as u128);
                s.append(" = ");
                push_decimal(&mut s, writers(producers, redundancy));
                s.append(") must be >= N (");
                push_decimal(&mut s, partitions as u128);
                s.append(")");
                s
            },
        }
    }
}

/// The number of places in which producers write.
fn writers(producers: usize, redundancy: u32) -> (r: u128)
    ensures
        r == producers * redundancy,
{
    assert(producers * redundancy <= 0xffff_ffff_ffff_ffff * 0xffff_ffff) by (nonlinear_arith)
        requires
            producers <= 0xffff_ffff_ffff_ffff,
            redundancy <= 0xffff_ffff,
    ;
    assert(producers * redundancy >= 0) by (nonlinear_arith);
    producers as u128 * redundancy as u128
}

/// What is wrong with a topology, if anything.
pub open spec fn topology_fault(
    producers: usize,
    partitions: u32,
    redundancy: u32,
    balanced: bool,
) -> Option<TopologyError> {
    if balanced {
        None
    } else if redundancy > partitions {
        Some(TopologyError::RedundancyTooHigh { redundancy, partitions })
    } else if producers * redundancy < partitions {
        Some(TopologyError::NotCovered { producers, redundancy, partitions })
    } else {
        None
    }
}

/// Checks that no producer needs more partitions than there are and that every partition gets a
/// producer. A server that routes messages itself needs neither.
pub fn validate_topology(
    producers: usize,
    partitions: u32,
    redundancy: u32,
    balanced: bool,
) -> (r: Result<(), TopologyError>)
    ensures
        r is Ok <==> balanced || (redundancy <= partitions && producers * redundancy >= partitions),
        !balanced && redundancy > partitions ==> r == Err::<(), TopologyError>(
            TopologyError::RedundancyTooHigh { redundancy, partitions },
        ),
        !balanced && redundancy <= partitions && producers * redundancy < partitions ==> r == Err::<
            (),
            TopologyError,
        >(TopologyError::NotCovered { producers, redundancy, partitions }),
        r == match topology_fault(producers, partitions, redundancy, balanced) {
            Some(e) => Err::<(), TopologyError>(e),
            None => Ok(()),
        },
{
    if !balanced {
        if redundancy > partitions {
            return Err(TopologyError::RedundancyTooHigh { redundancy, partitions });
        }
        if writers(producers, redundancy) < partitions as u128 {
            return Err(TopologyError::NotCovered { producers, redundancy, partitions });
        }
    }
    Ok(())
}

/// Compute which partitions a producer writes to.
pub fn compute_producer_partitions(
    producer_id: usize,
    _num_producers: usize,
    num_partitions: u32,
    redundancy: u32,
) -> (r: Vec<u32>)
    requires
        num_partitions > 0,
        producer_id * redundancy <= usize::MAX,
    ensures
        r@ == partitions_of(producer_id as nat, num_partitions, redundancy),
        r@.len() == redundancy,
        forall|i: int|
            0 <= i < redundancy ==> #[trigger] r@[i] == assigned(
                producer_id as nat,
                i as nat,
                num_partitions as nat,
                redundancy as nat,
            ),
{
    let mut partitions: Vec<u32> = Vec::with_capacity(redundancy as usize);
    let first: u128 = writers(producer_id, redundancy);
    let n: u128 = num_partitions as u128;
    let start: u128 = first % n;
    let mut i: u32 = 0;
    while i < redundancy
        invariant
            i <= redundancy,
            n == num_partitions,
            num_partitions > 0,
            first == producer_id * redundancy,
            start == first as int % n as int,
            start < n,
            partitions@.len() == i,
            forall|j: int|
                0 <= j < i ==> #[trigger] partitions@[j] == assigned(
                    producer_id as nat,
                    j as nat,
                    num_partitions as nat,
                    redundancy as nat,
                ),
        decreases redundancy - i,
    {
        let p: u128 = (start + i as u128) % n;
        proof {
            vstd::arithmetic::div_mod::lemma_add_mod_noop_right(i as int, first as int, n as int);
            assert(p == (i + first) % (n as int));
            assert(0 <= p < n) by (nonlinear_arith)
                requires
                    p == (start + i) % (n as int),
                    n > 0,
            ;
        }
        partitions.push(p as u32);
        i = i + 1;
    }
    assert(partitions@ =~= partitions_of(producer_id as nat, num_partitions, redundancy));
    partitions
}

/// The number of messages that producer `producer_id` sends: an equal share, and one more for
/// the first producers where the messages cannot be shared out evenly.
pub open spec fn quota(messages: nat, producers: nat, producer_id: nat) -> nat {
    messages / producers + if producer_id < messages % producers {
        1nat
    } else {
        0
    }
}

/// The number of messages that the first `n` of all producers send together.
pub open spec fn quota_total(messages: nat, producers: nat, n: nat) -> nat
    decreases n,
{
    if n == 0 {
        0
    } else {
        quota_total(messages, producers, (n - 1) as nat) + quota(
            messages,
            producers,
            (n - 1) as nat,
        )
    }
}

/// The number of messages that a producer sends.
pub fn quota_of(messages: u64, producers: usize, producer_id: usize) -> (r: u64)
    requires
        producer_id < producers,
    ensures
        r == quota(messages as nat, producers as nat, producer_id as nat),
        r as int == messages as int / producers as int + if producer_id < messages as int
            % producers as int {
            1int
        } else {
            0
        },
{
    let n: u64 = producers as u64;
    let share: u64 = messages / n;
    if (producer_id as u64) < messages % n {
        assert(share < u64::MAX) by (nonlinear_arith)
            requires
                share == messages / n,
                messages % n > 0,
                n > 0,
                messages <= u64::MAX,
        ;
        share + 1
    } else {
        share
    }
}

/// With enough producers every partition is written to by one of them.
pub proof fn law_every_partition_is_covered(
    producers: nat,
    num_partitions: nat,
    redundancy: nat,
    partition: nat,
) -> (place: (nat, nat))
    requires
        producers * redundancy >= num_partitions,
        partition < num_partitions,
    ensures
        place.0 < producers,
        place.1 < redundancy,
        assigned(place.0, place.1, num_partitions, redundancy) == partition,
{
    assert(redundancy > 0) by (nonlinear_arith)
        requires
            producers * redundancy > 0,
    ;
    let p = partition / redundancy;
    let i = partition % redundancy;
    vstd::arithmetic::div_mod::lemma_fundamental_div_mod(partition as int, redundancy as int);
    assert(redundancy * p == p * redundancy) by (nonlinear_arith);
    assert(p < producers) by (nonlinear_arith)
        requires
            p * redundancy <= partition,
            partition < producers * redundancy,
            redundancy > 0,
    ;
    vstd::arithmetic::div_mod::lemma_small_mod(partition, num_partitions);
    (p, i)
}

/// How many of the numbers below `m` leave the remainder `k` when divided by `n`.
spec fn remainders(m: nat, n: nat, k: nat) -> nat {
    m / n + if k < m % n {
        1nat
    } else {
        0
    }
}

/// One more number counts where it leaves the remainder itself.
proof fn lemma_remainders_step(m: nat, n: nat, k: nat)
    requires
        k < n,
    ensures
        remainders(m + 1, n, k) == remainders(m, n, k) + if m % n == k {
            1nat
        } else {
            0
        },
{
    let (q, r) = (m / n, m % n);
    vstd::arithmetic::div_mod::lemma_fundamental_div_mod(m as int, n as int);
    vstd::arithmetic::div_mod::lemma_mod_bound(m as int, n as int);
    assert(n * q == q * n) by (nonlinear_arith);
    assert((q + 1) * n == q * n + n) by (nonlinear_arith);
    if r + 1 < n {
        vstd::arithmetic::div_mod::lemma_fundamental_div_mod_converse(
            (m + 1) as int,
            n as int,
            q as int,
            (r + 1) as int,
        );
    } else {
        vstd::arithmetic::div_mod::lemma_fundamental_div_mod_converse(
            (m + 1) as int,
            n as int,
            (q + 1) as int,
            0,
        );
    }
}

/// The first places of a producer continue where the producers before it have stopped.
proof fn lemma_places_continue(
    producer_id: nat,
    num_partitions: u32,
    redundancy: u32,
    partition: u32,
    places: nat,
)
    requires
        partition < num_partitions,
        places <= redundancy,
    ensures
        remainders(
            producer_id * redundancy as nat + places,
            num_partitions as nat,
            partition as nat,
        ) == remainders(
            producer_id * redundancy as nat,
            num_partitions as nat,
            partition as nat,
        ) + partitions_of(producer_id, num_partitions, redundancy).take(
            places as int,
        ).to_multiset().count(partition),
    decreases places,
{
    let list = partitions_of(producer_id, num_partitions, redundancy);
    let first = producer_id * redundancy as nat;
    if places == 0 {
        assert(list.take(0) =~= Seq::<u32>::empty());
        list.take(0).to_multiset_ensures();
    } else {
        let before = (places - 1) as nat;
        lemma_places_continue(producer_id, num_partitions, redundancy, partition, before);
        lemma_remainders_step(first + before, num_partitions as nat, partition as nat);
        assert(list.take(places as int) =~= list.take(before as int).push(list[before as int]));
        list.take(before as int).to_multiset_ensures();
        vstd::arithmetic::div_mod::lemma_mod_bound(
            (first + before) as int,
            num_partitions as int,
        );
        assert(list[before as int] == (first + before) % num_partitions as nat);
    }
}

/// The load is as even as it can be: all producers together write to each partition the same
/// number of times, but for one time more to the first partitions where the places cannot be
/// shared out evenly. That is P * R / N times, rounded down or up.
pub proof fn law_load_is_even(
    producers: nat,
    num_partitions: u32,
    redundancy: u32,
    partition: u32,
)
    requires
        partition < num_partitions,
    ensures
        ({
            let (places, n) = (producers * redundancy as nat, num_partitions as nat);
            let times = times_assigned(producers, num_partitions, redundancy, partition);
            &&& times == places / n + if partition < places % n {
                1nat
            } else {
                0
            }
            &&& times == places / n || times == (places + n - 1) as nat / n
            &&& places >= n ==> times >= 1
        }),
{
    let (places, n) = (producers * redundancy as nat, num_partitions as nat);
    lemma_load(producers, num_partitions, redundancy, partition);
    let (q, r) = (places / n, places % n);
    vstd::arithmetic::div_mod::lemma_fundamental_div_mod(places as int, n as int);
    vstd::arithmetic::div_mod::lemma_mod_bound(places as int, n as int);
    assert(n * q == q * n) by (nonlinear_arith);
    assert((q + 1) * n == q * n + n) by (nonlinear_arith);
    if r > 0 {
        vstd::arithmetic::div_mod::lemma_fundamental_div_mod_converse(
            places + n - 1,
            n as int,
            (q + 1) as int,
            r - 1,
        );
    }
    if places >= n {
        assert(q >= 1) by (nonlinear_arith)
            requires
                places == n * q + r,
                r < n,
                places >= n,
        ;
    }
}

/// The places of the first producers are the numbers below P * R.
proof fn lemma_load(producers: nat, num_partitions: u32, redundancy: u32, partition: u32)
    requires
        partition < num_partitions,
    ensures
        times_assigned(producers, num_partitions, redundancy, partition) == remainders(
            producers * redundancy as nat,
            num_partitions as nat,
            partition as nat,
        ),
    decreases producers,
{
    let n = num_partitions as nat;
    if producers == 0 {
        assert(0 * redundancy as nat == 0) by (nonlinear_arith);
        vstd::arithmetic::div_mod::lemma_small_mod(0, n);
        vstd::arithmetic::div_mod::lemma_fundamental_div_mod_converse(0, n as int, 0, 0);
    } else {
        let last = (producers - 1) as nat;
        let list = partitions_of(last, num_partitions, redundancy);
        lemma_load(last, num_partitions, redundancy, partition);
        lemma_places_continue(
            last,
            num_partitions,
            redundancy,
            partition,
            redundancy as nat,
        );
        assert(list.take(redundancy as int) =~= list);
        assert(last * redundancy as nat + redundancy as nat == producers * redundancy as nat)
            by (nonlinear_arith)
            requires
                producers == last + 1,
        ;
    }
}

/// A producer never writes to one partition in two places, as long as there are as many
/// partitions as places.
pub proof fn law_partitions_of_a_producer_are_distinct(
    producer_id: nat,
    num_partitions: nat,
    redundancy: nat,
    i: nat,
    j: nat,
)
    requires
        redundancy <= num_partitions,
        i < redundancy,
        j < redundancy,
        i != j,
    ensures
        assigned(producer_id, i, num_partitions, redundancy) != assigned(
            producer_id,
            j,
            num_partitions,
            redundancy,
        ),
{
    let n = num_partitions as int;
    let a = (producer_id * redundancy) as int;
    if (a + i) % n == (a + j) % n {
        vstd::arithmetic::div_mod::lemma_mod_equivalence(a + i, a + j, n);
        let d = (a + i) - (a + j);
        assert(d == i - j);
        assert(d % n == 0);
        if d > 0 {
            vstd::arithmetic::div_mod::lemma_small_mod(d as nat, num_partitions);
        } else {
            vstd::arithmetic::div_mod::lemma_mod_equivalence(a + j, a + i, n);
            vstd::arithmetic::div_mod::lemma_small_mod((j - i) as nat, num_partitions);
        }
    }
}

/// Every place of every producer is a partition that exists.
pub proof fn law_assignments_exist(
    producer_id: nat,
    num_partitions: nat,
    redundancy: nat,
    i: nat,
)
    requires
        num_partitions > 0,
    ensures
        assigned(producer_id, i, num_partitions, redundancy) < num_partitions,
{
    vstd::arithmetic::div_mod::lemma_mod_bound(
        (producer_id * redundancy + i) as int,
        num_partitions as int,
    );
}

/// The producers together send all messages, and no others.
pub proof fn law_quotas_add_up(messages: nat, producers: nat)
    requires
        producers > 0,
    ensures
        quota_total(messages, producers, producers) == messages,
{
    lemma_quota_total(messages, producers, producers);
    vstd::arithmetic::div_mod::lemma_fundamental_div_mod(messages as int, producers as int);
    vstd::arithmetic::div_mod::lemma_mod_bound(messages as int, producers as int);
}

/// What the first producers send: their equal shares, and what they take of the remainder.
proof fn lemma_quota_total(messages: nat, producers: nat, n: nat)
    requires
        producers > 0,
    ensures
        quota_total(messages, producers, n) == n * (messages / producers) + if n < messages
            % producers {
            n
        } else {
            messages % producers
        },
    decreases n,
{
    let share = messages / producers;
    vstd::arithmetic::div_mod::lemma_mod_bound(messages as int, producers as int);
    if n == 0 {
        assert(0 * share == 0) by (nonlinear_arith);
    } else {
        lemma_quota_total(messages, producers, (n - 1) as nat);
        assert(n * share == (n - 1) * share + share) by (nonlinear_arith);
    }
}

/// The places of all producers go round the partitions: the first place of the first producer is
/// the first partition, each place is the partition behind the one before, and each producer goes
/// on where the one before it stopped. Behind the last partition comes the first.
pub proof fn law_places_go_round(producer_id: nat, i: nat, num_partitions: nat, redundancy: nat)
    requires
        num_partitions > 0,
    ensures
        assigned(0, 0, num_partitions, redundancy) == 0,
        ({
            let here = assigned(producer_id, i, num_partitions, redundancy);
            let next = assigned(producer_id, i + 1, num_partitions, redundancy);
            next == if here + 1 == num_partitions {
                0
            } else {
                here + 1
            }
        }),
        redundancy > 0 ==> {
            let here = assigned(producer_id, (redundancy - 1) as nat, num_partitions, redundancy);
            let next = assigned(producer_id + 1, 0, num_partitions, redundancy);
            next == if here + 1 == num_partitions {
                0
            } else {
                here + 1
            }
        },
{
    assert(0 * redundancy + 0 == 0) by (nonlinear_arith);
    vstd::arithmetic::div_mod::lemma_small_mod(0, num_partitions);
    lemma_next_remainder(producer_id * redundancy + i, num_partitions);
    if redundancy > 0 {
        lemma_next_remainder(
            (producer_id * redundancy + redundancy - 1) as nat,
            num_partitions,
        );
        assert((producer_id + 1) * redundancy == producer_id * redundancy + redundancy)
            by (nonlinear_arith);
    }
}

/// The remainder of the next number is one more, or zero.
proof fn lemma_next_remainder(m: nat, n: nat)
    requires
        n > 0,
    ensures
        m % n < n,
        (m + 1) % n == if m % n + 1 == n {
            0
        } else {
            m % n + 1
        },
{
    let (q, r) = (m as int / n as int, m as int % n as int);
    vstd::arithmetic::div_mod::lemma_fundamental_div_mod(m as int, n as int);
    vstd::arithmetic::div_mod::lemma_mod_bound(m as int, n as int);
    assert(n * q == q * n) by (nonlinear_arith);
    if r + 1 == n {
        assert((q + 1) * n == q * n + n) by (nonlinear_arith);
        vstd::arithmetic::div_mod::lemma_fundamental_div_mod_converse(
            (m + 1) as int,
            n as int,
            q + 1,
            0,
        );
    } else {
        vstd::arithmetic::div_mod::lemma_fundamental_div_mod_converse(
            (m + 1) as int,
            n as int,
            q,
            r + 1,
        );
    }
}

/// A producer has as many places as it is to have, and each is the partition assigned to it.
pub proof fn law_every_place_is_listed(
    producer_id: nat,
    num_partitions: u32,
    redundancy: u32,
    i: int,
)
    requires
        num_partitions > 0,
        0 <= i < redundancy,
    ensures
        partitions_of(producer_id, num_partitions, redundancy).len() == redundancy,
        partitions_of(producer_id, num_partitions, redundancy)[i] == assigned(
            producer_id,
            i as nat,
            num_partitions as nat,
            redundancy as nat,
        ),
{
    law_assignments_exist(producer_id, num_partitions as nat, redundancy as nat, i as nat);
}

/// No producer sends more than one message more than another, and a later one never more than an
/// earlier one.
pub proof fn law_quotas_are_even(messages: nat, producers: nat, earlier: nat, later: nat)
    requires
        producers > 0,
        earlier <= later,
    ensures
        quota(messages, producers, later) <= quota(messages, producers, earlier),
        quota(messages, producers, earlier) <= quota(messages, producers, later) + 1,
        messages == 0 ==> quota(messages, producers, later) == 0,
{
    if messages == 0 {
        vstd::arithmetic::div_mod::lemma_small_mod(0, producers);
        vstd::arithmetic::div_mod::lemma_fundamental_div_mod_converse(0, producers as int, 0, 0);
    }
}

/// The quotas of the first producers, added one by one.
pub proof fn law_quotas_are_added(messages: nat, producers: nat, n: nat)
    ensures
        quota_total(messages, producers, 0) == 0,
        quota_total(messages, producers, n + 1) == quota_total(messages, producers, n) + quota(
            messages,
            producers,
            n,
        ),
{
}

/// An error names the numbers that do not fit, and their product where that is too small.
pub proof fn law_errors_name_the_numbers(producers: usize, redundancy: u32, partitions: u32)
    ensures
        (TopologyError::RedundancyTooHigh { redundancy, partitions }).text() == "R ("@ + decimal(
            redundancy as nat,
        ) + ") must be <= N ("@ + decimal(partitions as nat) + ")"@,
        (TopologyError::NotCovered { producers, redundancy, partitions }).text() == "P * R ("@
            + decimal(producers as nat) + " * "@ + decimal(redundancy as nat) + " = "@ + decimal(
            (producers * redundancy) as nat,
        ) + ") must be >= N ("@ + decimal(partitions as nat) + ")"@,
{
}

/// Whether some producer writes to a partition in some place.
pub open spec fn has_producer(
    partition: nat,
    producers: nat,
    num_partitions: nat,
    redundancy: nat,
) -> bool {
    exists|p: nat, i: nat|
        p < producers && i < redundancy && #[trigger] assigned(p, i, num_partitions, redundancy)
            == partition
}

/// A topology is refused for a reason. One that is accepted, where producers choose partitions,
/// has a producer for every partition, and none that writes to one partition in two places; one
/// that is refused has a producer that would, or a partition without a producer. A server that
/// routes messages itself is never refused.
pub proof fn law_topology_is_refused_for_a_reason(
    producers: usize,
    partitions: u32,
    redundancy: u32,
    balanced: bool,
)
    requires
        producers > 0,
        partitions > 0,
    ensures
        ({
            let fault = topology_fault(producers, partitions, redundancy, balanced);
            let (n, r) = (partitions as nat, redundancy as nat);
            let covered = forall|x: nat|
                x < n ==> #[trigger] has_producer(x, producers as nat, n, r);
            let doubled = exists|p: nat, i: nat, j: nat|
                p < producers && i < j < r && #[trigger] assigned(p, i, n, r)
                    == #[trigger] assigned(p, j, n, r);
            &&& balanced ==> fault is None
            &&& !balanced && fault is None ==> covered && !doubled
            &&& fault is Some ==> !covered || doubled
            &&& fault matches Some(e) ==> (e is RedundancyTooHigh <==> redundancy > partitions)
        }),
{
    let fault = topology_fault(producers, partitions, redundancy, balanced);
    let (n, r) = (partitions as nat, redundancy as nat);
    if !balanced && fault is None {
        assert forall|x: nat| x < n implies #[trigger] has_producer(
            x,
            producers as nat,
            n,
            r,
        ) by {
            let place = law_every_partition_is_covered(producers as nat, n, r, x);
            assert(assigned(place.0, place.1, n, r) == x);
        }
        assert forall|p: nat, i: nat, j: nat|
            p < producers && i < j < r implies #[trigger] assigned(p, i, n, r)
            != #[trigger] assigned(p, j, n, r) by {
            law_partitions_of_a_producer_are_distinct(p, n, r, i, j);
        }
    }
    if fault is Some {
        if redundancy > partitions {
            // The places of the first producer begin again at the first partition.
            assert(0 * r == 0) by (nonlinear_arith);
            vstd::arithmetic::div_mod::lemma_small_mod(0, n);
            vstd::arithmetic::div_mod::lemma_mod_self_0(n as int);
            assert(assigned(0, 0, n, r) == assigned(0, n, n, r));
        } else {
            // All places lie below P * R, and that partition lies above them.
            let x = (producers * redundancy) as nat;
            assert(x >= 0) by (nonlinear_arith)
                requires
                    x == producers * redundancy,
            ;
            assert forall|p: nat, i: nat| p < producers && i < r implies #[trigger] assigned(
                p,
                i,
                n,
                r,
            ) != x by {
                assert(p * r + i < producers * redundancy) by (nonlinear_arith)
                    requires
                        p + 1 <= producers,
                        i < r,
                        r == redundancy,
                ;
                vstd::arithmetic::div_mod::lemma_small_mod(p * r + i, n);
            }
            assert(x < n && !has_producer(x, producers as nat, n, r));
        }
    }
}

} // verus!
