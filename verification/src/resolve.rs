//! SIP server location per a subset of RFC 3263: DNS SRV lookup with RFC 2782 ordering, falling
//! back to plain A/AAAA.
//!
//! An explicit port, or an IP literal as the server, skips SRV. Otherwise the SRV records are
//! tried by priority, then by weighted-random choice within a priority class; the first target
//! that resolves wins. Without SRV records the bare host is looked up at the default port.

use crate::account::{text_or, SipAccount, Transport};
use crate::net::{ip_of, IpAddr, SocketAddr};
use crate::text::{chars_of, same_str, string_of};
use vstd::prelude::*;
use vstd::string::*;

verus! {

/// One DNS SRV record (RFC 2782) describing a SIP server candidate.
#[derive(Debug, Clone, PartialEq, Eq)]
pub struct SrvRecord {
    /// Lower priority classes are tried first.
    pub priority: u16,
    /// Relative weight for selection within a priority class.
    pub weight: u16,
    /// Port the service listens on at `target`.
    pub port: u16,
    /// Target host name, without a trailing dot. `"."` means the service is decidedly not
    /// available at this domain.
    pub target: String,
}

impl SrvRecord {
    fn copy(&self) -> (res: Self)
        ensures
            res == *self,
    {
        SrvRecord {
            priority: self.priority,
            weight: self.weight,
            port: self.port,
            target: self.target.clone(),
        }
    }
}

/// The number that a SplitMix64 generator gives in the state `s`, and the state after it.
pub open spec fn splitmix(s: u64) -> (u64, u64) {
    let t = s.wrapping_add(0x9E37_79B9_7F4A_7C15);
    let a = (t ^ (t >> 30)).wrapping_mul(0xBF58_476D_1CE4_E5B9);
    let b = (a ^ (a >> 27)).wrapping_mul(0x94D0_49BB_1331_11EB);
    ((b ^ (b >> 31)), t)
}

/// Minimal deterministic generator (SplitMix64) for the weighted choice.
struct SplitMix64(u64);

impl SplitMix64 {
    fn next_u64(&mut self) -> (res: u64)
        ensures
            (res, final(self).0) == splitmix(old(self).0),
    {
        self.0 = self.0.wrapping_add(0x9E37_79B9_7F4A_7C15);
        let t: u64 = self.0;
        let a: u64 = (t ^ (t >> 30)).wrapping_mul(0xBF58_476D_1CE4_E5B9);
        let b: u64 = (a ^ (a >> 27)).wrapping_mul(0x94D0_49BB_1331_11EB);
        b ^ (b >> 31)
    }
}

/// The sum of the weights of `class`.
pub open spec fn total_weight(class: Seq<SrvRecord>) -> nat
    decreases class.len(),
{
    if class.len() == 0 {
        0
    } else {
        total_weight(class.drop_last()) + class.last().weight as nat
    }
}

/// The first position, from `i` on, up to which the weights of `class` sum up to `roll`; 0 when
/// there is none.
pub open spec fn weighted_position(class: Seq<SrvRecord>, roll: nat, i: int) -> int
    decreases class.len() - i,
{
    if i >= class.len() {
        0
    } else if total_weight(class.take(i + 1)) >= roll {
        i
    } else {
        weighted_position(class, roll, i + 1)
    }
}

/// The position of the record that the random number `r` picks from `class`: uniform when all
/// weights are zero, else by the running sum of weights against a roll up to their total.
pub open spec fn pick(class: Seq<SrvRecord>, r: u64) -> int {
    let total = total_weight(class);
    if total == 0 {
        r as int % class.len() as int
    } else {
        weighted_position(class, (r as nat % (total + 1)) as nat, 0)
    }
}

/// The records of `class` drawn one after the other without replacement, and the state of the
/// generator after the last draw.
pub open spec fn drawn(class: Seq<SrvRecord>, state: u64) -> (Seq<SrvRecord>, u64)
    decreases class.len(),
{
    let (r, next) = splitmix(state);
    let i = pick(class, r);
    if class.len() == 0 || !(0 <= i < class.len()) {
        (Seq::empty(), state)
    } else {
        let (rest, last) = drawn(class.remove(i), next);
        (seq![class[i]] + rest, last)
    }
}

/// Picks the records of priority `p` and weight zero.
pub open spec fn is_idle(p: u16) -> spec_fn(SrvRecord) -> bool {
    |r: SrvRecord| r.priority == p && r.weight == 0
}

/// Picks the records of priority `p` with a weight.
pub open spec fn is_weighted(p: u16) -> spec_fn(SrvRecord) -> bool {
    |r: SrvRecord| r.priority == p && r.weight != 0
}

/// Picks the records of other priorities than `p`.
pub open spec fn is_other(p: u16) -> spec_fn(SrvRecord) -> bool {
    |r: SrvRecord| r.priority != p
}

/// The records of priority `p`, those of weight zero first, each group in its given order.
pub open spec fn class_of(records: Seq<SrvRecord>, p: u16) -> Seq<SrvRecord> {
    records.filter(is_idle(p)) + records.filter(is_weighted(p))
}

/// The records of other priorities than `p`.
pub open spec fn without_class(records: Seq<SrvRecord>, p: u16) -> Seq<SrvRecord> {
    records.filter(is_other(p))
}

/// The lowest priority among `records`.
pub open spec fn lowest(records: Seq<SrvRecord>) -> u16
    decreases records.len(),
{
    if records.len() <= 1 {
        records[0].priority
    } else {
        let p = lowest(records.drop_last());
        if records.last().priority < p {
            records.last().priority
        } else {
            p
        }
    }
}

/// The records in the order in which to try them: by priority, and within a priority as drawn
/// by a generator that starts with `state`.
pub open spec fn ordered(records: Seq<SrvRecord>, state: u64) -> Seq<SrvRecord>
    decreases records.len(),
{
    let p = lowest(records);
    let rest = without_class(records, p);
    if records.len() == 0 || rest.len() >= records.len() {
        Seq::empty()
    } else {
        let (head, next) = drawn(class_of(records, p), state);
        head + ordered(rest, next)
    }
}

proof fn lemma_lowest(records: Seq<SrvRecord>)
    requires
        records.len() > 0,
    ensures
        forall|i: int| 0 <= i < records.len() ==> lowest(records) <= (#[trigger] records[i]).priority,
        exists|i: int| 0 <= i < records.len() && (#[trigger] records[i]).priority == lowest(records),
    decreases records.len(),
{
    if records.len() > 1 {
        let init = records.drop_last();
        lemma_lowest(init);
        let k = choose|i: int| 0 <= i < init.len() && (#[trigger] init[i]).priority == lowest(init);
        assert(records[k].priority == lowest(init));
        assert(records[records.len() - 1] == records.last());
        assert forall|i: int| 0 <= i < records.len() implies lowest(records) <= (
        #[trigger] records[i]).priority by {
            if i < init.len() {
                assert(records[i] == init[i]);
            }
        }
    } else {
        assert(records[0].priority == lowest(records));
    }
}

proof fn lemma_weighted_position(class: Seq<SrvRecord>, roll: nat, i: int)
    requires
        0 <= i <= class.len(),
        class.len() > 0,
    ensures
        0 <= weighted_position(class, roll, i) < class.len(),
    decreases class.len() - i,
{
    if i < class.len() && total_weight(class.take(i + 1)) < roll {
        lemma_weighted_position(class, roll, i + 1);
    }
}

proof fn lemma_pick(class: Seq<SrvRecord>, r: u64)
    requires
        class.len() > 0,
    ensures
        0 <= pick(class, r) < class.len(),
{
    if total_weight(class) > 0 {
        lemma_weighted_position(
            class,
            (r as nat % (total_weight(class) + 1)) as nat,
            0,
        );
    }
}

proof fn lemma_filter_smaller(records: Seq<SrvRecord>, p: u16, k: int)
    requires
        0 <= k < records.len(),
        records[k].priority == p,
    ensures
        without_class(records, p).len() < records.len(),
    decreases records.len(),
{
    reveal(Seq::filter);
    let init = records.drop_last();
    init.lemma_filter_len(is_other(p));
    if k < init.len() {
        lemma_filter_smaller(init, p, k);
    }
}

proof fn lemma_filter_take(records: Seq<SrvRecord>, f: spec_fn(SrvRecord) -> bool, i: int)
    requires
        0 <= i < records.len(),
    ensures
        records.take(i + 1).filter(f) == if f(records[i]) {
            records.take(i).filter(f).push(records[i])
        } else {
            records.take(i).filter(f)
        },
{
    reveal(Seq::filter);
    assert(records.take(i + 1).drop_last() == records.take(i));
}

/// Splits `records` into the class of priority `p` and the rest.
fn split_class(records: &Vec<SrvRecord>, p: u16) -> (res: (Vec<SrvRecord>, Vec<SrvRecord>))
    ensures
        res.0@ == class_of(records@, p),
        res.1@ == without_class(records@, p),
{
    let mut idle: Vec<SrvRecord> = Vec::new();
    let mut weighted: Vec<SrvRecord> = Vec::new();
    let mut rest: Vec<SrvRecord> = Vec::new();
    let mut i: usize = 0;
    proof {
        reveal(Seq::filter);
        assert(records@.take(0) == Seq::<SrvRecord>::empty());
    }
    while i < records.len()
        invariant
            i <= records@.len(),
            idle@ == records@.take(i as int).filter(is_idle(p)),
            weighted@ == records@.take(i as int).filter(is_weighted(p)),
            rest@ == records@.take(i as int).filter(is_other(p)),
        decreases records.len() - i,
    {
        proof {
            lemma_filter_take(records@, is_idle(p), i as int);
            lemma_filter_take(records@, is_weighted(p), i as int);
            lemma_filter_take(records@, is_other(p), i as int);
        }
        let r = records[i].copy();
        if r.priority != p {
            rest.push(r);
        } else if r.weight == 0 {
            idle.push(r);
        } else {
            weighted.push(r);
        }
        i += 1;
    }
    assert(records@.take(i as int) == records@);
    idle.append(&mut weighted);
    (idle, rest)
}

fn lowest_priority(records: &Vec<SrvRecord>) -> (res: u16)
    requires
        records@.len() > 0,
    ensures
        res == lowest(records@),
{
    let mut p: u16 = records[0].priority;
    let mut i: usize = 1;
    assert(records@.take(1)[0] == records@[0]);
    while i < records.len()
        invariant
            1 <= i <= records@.len(),
            p == lowest(records@.take(i as int)),
        decreases records.len() - i,
    {
        assert(records@.take(i as int + 1).drop_last() == records@.take(i as int));
        assert(records@.take(i as int + 1).last() == records@[i as int]);
        if records[i].priority < p {
            p = records[i].priority;
        }
        i += 1;
    }
    assert(records@.take(i as int) == records@);
    p
}

proof fn lemma_total_weight_bound(class: Seq<SrvRecord>)
    ensures
        total_weight(class) <= class.len() * 65535,
    decreases class.len(),
{
    if class.len() > 0 {
        lemma_total_weight_bound(class.drop_last());
    }
}

/// Draws one record from `class`.
fn draw(class: &mut Vec<SrvRecord>, rng: &mut SplitMix64) -> (res: SrvRecord)
    requires
        0 < old(class)@.len() <= 0xffff_ffff_ffff,
    ensures
        ({
            let i = pick(old(class)@, splitmix(old(rng).0).0);
            &&& 0 <= i < old(class)@.len()
            &&& res == old(class)@[i]
            &&& final(class)@ == old(class)@.remove(i)
            &&& final(rng).0 == splitmix(old(rng).0).1
        }),
{
    let ghost all = class@;
    let r: u64 = rng.next_u64();
    proof {
        lemma_pick(all, r);
    }
    let mut total: u64 = 0;
    let mut i: usize = 0;
    assert(all.take(0) == Seq::<SrvRecord>::empty());
    while i < class.len()
        invariant
            i <= class@.len() <= 0xffff_ffff_ffff,
            class@ == all,
            total == total_weight(all.take(i as int)),
            total <= i * 65535,
        decreases class.len() - i,
    {
        assert(all.take(i as int + 1).drop_last() == all.take(i as int));
        assert(all.take(i as int + 1).last() == class@[i as int]);
        total += class[i].weight as u64;
        i += 1;
    }
    assert(all.take(i as int) == all);
    let mut chosen: usize = 0;
    if total == 0 {
        chosen = (r % class.len() as u64) as usize;
    } else {
        let roll: u64 = r % (total + 1);
        let mut running: u64 = 0;
        let mut k: usize = 0;
        while k < class.len()
            invariant_except_break
                k <= class@.len() <= 0xffff_ffff_ffff,
                class@ == all,
                running == total_weight(all.take(k as int)),
                running <= k * 65535,
                chosen == 0,
                weighted_position(all, roll as nat, k as int) == weighted_position(
                    all,
                    roll as nat,
                    0,
                ),
            ensures
                class@ == all,
                chosen == weighted_position(all, roll as nat, 0),
            decreases class.len() - k,
        {
            assert(all.take(k as int + 1).drop_last() == all.take(k as int));
            assert(all.take(k as int + 1).last() == class@[k as int]);
            running += class[k].weight as u64;
            if running >= roll {
                chosen = k;
                break;
            }
            k += 1;
        }
    }
    class.remove(chosen)
}

proof fn lemma_class_len(records: Seq<SrvRecord>, p: u16)
    ensures
        class_of(records, p).len() + without_class(records, p).len() == records.len(),
    decreases records.len(),
{
    reveal(Seq::filter);
    if records.len() > 0 {
        lemma_class_len(records.drop_last(), p);
    }
}

/// Orders SRV records per RFC 2782: ascending priority, then weighted-random selection without
/// replacement within each priority class, records of weight zero standing first. The order is
/// a function of the records and `seed`.
pub fn order_candidates(records: &[SrvRecord], seed: u64) -> (res: Vec<SrvRecord>)
    requires
        records@.len() <= 0xffff_ffff_ffff,
    ensures
        res@ == ordered(records@, seed),
{
    let mut rng = SplitMix64(seed);
    let mut left: Vec<SrvRecord> = Vec::new();
    let mut i: usize = 0;
    while i < records.len()
        invariant
            i <= records@.len(),
            left@ == records@.take(i as int),
        decreases records.len() - i,
    {
        left.push(records[i].copy());
        i += 1;
    }
    assert(left@ == records@);
    let mut out: Vec<SrvRecord> = Vec::new();
    assert(out@ + ordered(left@, rng.0) == ordered(records@, seed));
    while left.len() > 0
        invariant
            left@.len() <= 0xffff_ffff_ffff,
            out@ + ordered(left@, rng.0) == ordered(records@, seed),
        decreases left.len(),
    {
        let p: u16 = lowest_priority(&left);
        let (mut class, rest) = split_class(&left, p);
        proof {
            lemma_lowest(left@);
            let k = choose|k: int| 0 <= k < left@.len() && (#[trigger] left@[k]).priority == p;
            lemma_filter_smaller(left@, p, k);
            lemma_class_len(left@, p);
        }
        let ghost before = out@;
        let ghost start = rng.0;
        let ghost all = class@;
        assert(before + drawn(class@, rng.0).0 == before + drawn(all, start).0);
        while class.len() > 0
            invariant
                class@.len() <= 0xffff_ffff_ffff,
                out@ + drawn(class@, rng.0).0 == before + drawn(all, start).0,
                drawn(class@, rng.0).1 == drawn(all, start).1,
            decreases class.len(),
        {
            let ghost c = class@;
            let ghost s = rng.0;
            let ghost o = out@;
            let r = draw(&mut class, &mut rng);
            out.push(r);
            assert(out@ + drawn(class@, rng.0).0 == o + drawn(c, s).0);
        }
        assert(out@ + drawn(class@, rng.0).0 == out@);
        assert(out@ + ordered(rest@, rng.0) == before + (drawn(all, start).0 + ordered(
            rest@,
            drawn(all, start).1,
        )));
        left = rest;
    }
    assert(out@ + ordered(left@, rng.0) == out@);
    out
}

proof fn lemma_drawn(class: Seq<SrvRecord>, state: u64)
    ensures
        drawn(class, state).0.to_multiset() == class.to_multiset(),
    decreases class.len(),
{
    if class.len() > 0 {
        let (r, next) = splitmix(state);
        let i = pick(class, r);
        lemma_pick(class, r);
        lemma_drawn(class.remove(i), next);
        let rest = drawn(class.remove(i), next).0;
        vstd::seq_lib::lemma_multiset_commutative(seq![class[i]], rest);
        broadcast use vstd::seq_lib::group_to_multiset_ensures;
        assert(seq![class[i]] == Seq::<SrvRecord>::empty().push(class[i]));
        assert(class.remove(i).to_multiset() == class.to_multiset().remove(class[i]));
        assert(class.to_multiset().contains(class[i])) by {
            assert(class.contains(class[i]));
        }
        assert(drawn(class, state).0.to_multiset() =~= class.to_multiset());
    } else {
        assert(class == Seq::<SrvRecord>::empty());
        assert(drawn(class, state).0 == class);
    }
}

proof fn lemma_split_multiset(records: Seq<SrvRecord>, p: u16)
    ensures
        class_of(records, p).to_multiset().add(without_class(records, p).to_multiset())
            =~= records.to_multiset(),
    decreases records.len(),
{
    reveal(Seq::filter);
    broadcast use vstd::seq_lib::group_to_multiset_ensures;
    vstd::seq_lib::lemma_multiset_commutative(
        records.filter(is_idle(p)),
        records.filter(is_weighted(p)),
    );
    if records.len() > 0 {
        let init = records.drop_last();
        lemma_split_multiset(init, p);
        vstd::seq_lib::lemma_multiset_commutative(
            init.filter(is_idle(p)),
            init.filter(is_weighted(p)),
        );
        assert(init.push(records.last()) == records);
    }
}

/// Ordering loses no record and invents none: the order is a permutation of the records.
pub proof fn ordered_is_a_permutation(records: Seq<SrvRecord>, seed: u64)
    ensures
        ordered(records, seed).to_multiset() == records.to_multiset(),
    decreases records.len(),
{
    if records.len() > 0 {
        let p = lowest(records);
        lemma_lowest(records);
        let k = choose|k: int| 0 <= k < records.len() && (#[trigger] records[k]).priority == p;
        lemma_filter_smaller(records, p, k);
        let class = class_of(records, p);
        let rest = without_class(records, p);
        let (head, next) = drawn(class, seed);
        lemma_drawn(class, seed);
        ordered_is_a_permutation(rest, next);
        vstd::seq_lib::lemma_multiset_commutative(head, ordered(rest, next));
        lemma_split_multiset(records, p);
    } else {
        assert(records == Seq::<SrvRecord>::empty());
    }
}

proof fn lemma_filter_twice(
    records: Seq<SrvRecord>,
    f: spec_fn(SrvRecord) -> bool,
    g: spec_fn(SrvRecord) -> bool,
    both: spec_fn(SrvRecord) -> bool,
)
    requires
        forall|r: SrvRecord| #[trigger] both(r) == (f(r) && g(r)),
    ensures
        records.filter(f).filter(g) == records.filter(both),
    decreases records.len(),
{
    reveal(Seq::filter);
    if records.len() > 0 {
        let init = records.drop_last();
        let last = records.last();
        lemma_filter_twice(init, f, g, both);
        assert(both(last) == (f(last) && g(last)));
        if f(last) {
            let kept = init.filter(f).push(last);
            assert(records.filter(f) == kept);
            assert(kept.drop_last() =~= init.filter(f));
            assert(kept.last() == last);
        }
    }
}

/// Picks the records of priority `q` and those preferred to it.
pub open spec fn is_preferred(q: u16) -> spec_fn(SrvRecord) -> bool {
    |r: SrvRecord| r.priority <= q
}

proof fn lemma_preferred(records: Seq<SrvRecord>, q: u16)
    ensures
        forall|i: int|
            0 <= i < records.filter(is_preferred(q)).len() ==> (#[trigger] records.filter(
                is_preferred(q),
            )[i]).priority <= q && records.contains(records.filter(is_preferred(q))[i]),
        forall|i: int|
            0 <= i < records.len() && (#[trigger] records[i]).priority <= q ==> records.filter(
                is_preferred(q),
            ).contains(records[i]),
    decreases records.len(),
{
    reveal(Seq::filter);
    if records.len() > 0 {
        let init = records.drop_last();
        let last = records.last();
        lemma_preferred(init, q);
        let low = records.filter(is_preferred(q));
        let before = init.filter(is_preferred(q));
        assert forall|i: int| 0 <= i < low.len() implies (#[trigger] low[i]).priority <= q
            && records.contains(low[i]) by {
            if i < before.len() {
                assert(low[i] == before[i]);
                let k = choose|k: int| 0 <= k < init.len() && init[k] == before[i];
                assert(records[k] == low[i]);
            } else {
                assert(low[i] == last);
                assert(records[records.len() - 1] == last);
            }
        }
        assert forall|i: int|
            0 <= i < records.len() && (#[trigger] records[i]).priority <= q implies low.contains(
            records[i],
        ) by {
            if i < init.len() {
                assert(init[i] == records[i]);
                let k = choose|k: int| 0 <= k < before.len() && before[k] == records[i];
                assert(low[k] == records[i]);
            } else {
                assert(low[low.len() - 1] == last);
            }
        }
    }
}

/// Less preferred records never influence how the preferred ones are ordered: those of priority `q`
/// and below, ordered alone, are the front of the order of all.
pub proof fn preferred_records_come_first(records: Seq<SrvRecord>, q: u16, seed: u64)
    ensures
        ({
            let low = records.filter(is_preferred(q));
            ordered(low, seed) == ordered(records, seed).take(low.len() as int)
        }),
    decreases records.len(),
{
    let low = records.filter(is_preferred(q));
    lemma_preferred(records, q);
    ordered_is_a_permutation(records, seed);
    ordered_is_a_permutation(low, seed);
    records.lemma_filter_len(is_preferred(q));
    lemma_multiset_len(ordered(records, seed), records);
    if low.len() == 0 {
        lemma_multiset_len(ordered(low, seed), low);
        assert(ordered(low, seed) =~= ordered(records, seed).take(0));
    } else {
        let p = lowest(records);
        lemma_lowest(records);
        let k = choose|k: int| 0 <= k < records.len() && (#[trigger] records[k]).priority == p;
        lemma_filter_smaller(records, p, k);
        lemma_lowest(low);
        let m = choose|m: int| 0 <= m < low.len() && (#[trigger] low[m]).priority == lowest(low);
        assert(records.contains(low[m]));
        let n = choose|n: int| 0 <= n < records.len() && records[n] == low[m];
        assert(p <= records[n].priority);
        assert(low.contains(records[k]));
        let j = choose|j: int| 0 <= j < low.len() && low[j] == records[k];
        assert(lowest(low) <= low[j].priority);
        assert(lowest(low) == p);
        lemma_filter_smaller(low, p, j);
        let rest = without_class(records, p);
        let low_rest = without_class(low, p);
        lemma_filter_twice(records, is_preferred(q), is_idle(p), is_idle(p));
        lemma_filter_twice(records, is_preferred(q), is_weighted(p), is_weighted(p));
        let both = |r: SrvRecord| r.priority <= q && r.priority != p;
        lemma_filter_twice(records, is_preferred(q), is_other(p), both);
        lemma_filter_twice(records, is_other(p), is_preferred(q), both);
        assert(low_rest == rest.filter(is_preferred(q)));
        let class = class_of(records, p);
        assert(class_of(low, p) == class);
        let (head, next) = drawn(class, seed);
        lemma_drawn(class, seed);
        lemma_multiset_len(head, class);
        lemma_class_len(low, p);
        preferred_records_come_first(rest, q, next);
        assert(ordered(records, seed) == head + ordered(rest, next));
        assert(ordered(low, seed) == head + ordered(low_rest, next));
        ordered_is_a_permutation(rest, next);
        lemma_multiset_len(ordered(rest, next), rest);
        rest.lemma_filter_len(is_preferred(q));
        assert(ordered(low, seed) =~= ordered(records, seed).take(low.len() as int));
    }
}

proof fn lemma_multiset_len(a: Seq<SrvRecord>, b: Seq<SrvRecord>)
    requires
        a.to_multiset() == b.to_multiset(),
    ensures
        a.len() == b.len(),
{
    broadcast use vstd::seq_lib::group_to_multiset_ensures;

    assert(a.to_multiset().len() == a.len());
    assert(b.to_multiset().len() == b.len());
}

proof fn lemma_ordered_members(records: Seq<SrvRecord>, seed: u64, i: int)
    requires
        0 <= i < ordered(records, seed).len(),
    ensures
        records.contains(ordered(records, seed)[i]),
{
    let o = ordered(records, seed);
    ordered_is_a_permutation(records, seed);
    broadcast use vstd::seq_lib::group_to_multiset_ensures;
    assert(o.contains(o[i]));
    assert(records.to_multiset().contains(o[i]));
}

/// A record of a lower priority number always comes before one of a higher.
pub proof fn ordered_by_priority(records: Seq<SrvRecord>, seed: u64, i: int, j: int)
    requires
        0 <= i < j < ordered(records, seed).len(),
    ensures
        ordered(records, seed)[i].priority <= ordered(records, seed)[j].priority,
    decreases records.len(),
{
    let p = lowest(records);
    lemma_lowest(records);
    let k = choose|k: int| 0 <= k < records.len() && (#[trigger] records[k]).priority == p;
    lemma_filter_smaller(records, p, k);
    let class = class_of(records, p);
    let rest = without_class(records, p);
    let (head, next) = drawn(class, seed);
    let o = ordered(records, seed);
    if i >= head.len() {
        ordered_by_priority(rest, next, i - head.len(), j - head.len());
    } else {
        broadcast use vstd::seq_lib::group_to_multiset_ensures;
        lemma_drawn(class, seed);
        assert(head.contains(head[i]));
        assert(class.to_multiset().contains(head[i]));
        let c = choose|c: int| 0 <= c < class.len() && class[c] == head[i];
        lemma_class_priority(records, p, c);
        lemma_ordered_members(records, seed, j);
    }
}

proof fn lemma_class_priority(records: Seq<SrvRecord>, p: u16, c: int)
    requires
        0 <= c < class_of(records, p).len(),
    ensures
        class_of(records, p)[c].priority == p,
{
    let a = records.filter(is_idle(p));
    if c < a.len() {
        records.lemma_filter_pred(is_idle(p), c);
    } else {
        records.lemma_filter_pred(is_weighted(p), c - a.len());
    }
}

/// How to locate the SIP server for an account.
#[derive(Debug, Clone, PartialEq, Eq)]
pub enum LocationPlan {
    /// Skip SRV: the account names a port, or the server is an IP literal.
    Direct {
        /// The host.
        host: String,
        /// The port.
        port: u16,
    },
    /// Query SRV; without records look up the host.
    Srv {
        /// The name to query.
        name: String,
        /// The host.
        host: String,
        /// The port.
        port: u16,
    },
}

/// A location plan, its texts as characters.
pub enum PlanView {
    Direct { host: Seq<char>, port: u16 },
    Srv { name: Seq<char>, host: Seq<char>, port: u16 },
}

impl View for LocationPlan {
    type V = PlanView;

    open spec fn view(&self) -> PlanView {
        match self {
            LocationPlan::Direct { host, port } => PlanView::Direct { host: host@, port: *port },
            LocationPlan::Srv { name, host, port } => PlanView::Srv {
                name: name@,
                host: host@,
                port: *port,
            },
        }
    }
}

/// The SRV service prefix of a transport.
pub open spec fn service(transport: Transport) -> Seq<char> {
    match transport {
        Transport::Udp => "_sip._udp."@,
        Transport::Tcp => "_sip._tcp."@,
        Transport::Tls => "_sips._tcp."@,
    }
}

/// How to locate the SIP server for an account: directly when the account names a port or its
/// server is an IP literal, else by SRV.
pub open spec fn plan_of(account: SipAccount) -> PlanView {
    let host = text_or(account.server, account.domain);
    let port = account.port_number();
    if account.port is Some || ip_of(host) is Some {
        PlanView::Direct { host, port }
    } else {
        PlanView::Srv { name: service(account.transport) + host, host, port }
    }
}

/// How to locate the SIP server for an account.
pub fn location_plan(account: &SipAccount) -> (res: LocationPlan)
    ensures
        res@ == plan_of(*account),
{
    let host = String::from_str(account.server());
    let port: u16 = account.port();
    if account.port.is_some() || IpAddr::parse(host.as_str()).is_some() {
        return LocationPlan::Direct { host, port };
    }
    let mut name = String::from_str(
        match account.transport {
            Transport::Udp => "_sip._udp.",
            Transport::Tcp => "_sip._tcp.",
            Transport::Tls => "_sips._tcp.",
        },
    );
    name.append(host.as_str());
    LocationPlan::Srv { name, host, port }
}

/// A DNS name without its trailing dots.
pub open spec fn without_dots(s: Seq<char>) -> Seq<char>
    decreases s.len(),
{
    if s.len() > 0 && s.last() == '.' {
        without_dots(s.drop_last())
    } else {
        s
    }
}

/// The target of an SRV record, from the name as DNS writes it.
pub fn srv_target(name: &str) -> (res: String)
    ensures
        res@ == without_dots(name@),
{
    let s = chars_of(name);
    let mut n: usize = s.len();
    assert(s@.take(n as int) =~= s@);
    while n > 0 && s[n - 1] == '.'
        invariant
            n <= s@.len(),
            without_dots(s@.take(n as int)) == without_dots(s@),
        decreases n,
    {
        assert(s@.take(n as int).drop_last() =~= s@.take(n as int - 1));
        assert(s@.take(n as int).last() == s@[n - 1]);
        n -= 1;
    }
    assert(n > 0 ==> s@.take(n as int).last() == s@[n - 1]);
    let kept = vstd::slice::slice_subrange(&s, 0, n);
    assert(kept@ =~= s@.take(n as int));
    string_of(kept)
}

/// Whether the record names a host: `.` and the empty target say that there is no service.
pub open spec fn is_usable(r: SrvRecord) -> bool {
    r.target@ != "."@ && r.target@.len() > 0
}

/// The records that name a host, in order.
pub open spec fn usable(records: Seq<SrvRecord>) -> Seq<SrvRecord>
    decreases records.len(),
{
    if records.len() == 0 {
        Seq::empty()
    } else if is_usable(records[0]) {
        seq![records[0]] + usable(records.skip(1))
    } else {
        usable(records.skip(1))
    }
}

fn usable_records(records: &Vec<SrvRecord>) -> (res: Vec<SrvRecord>)
    ensures
        res@ == usable(records@),
{
    let mut out: Vec<SrvRecord> = Vec::new();
    let mut i: usize = 0;
    assert(records@.skip(0) =~= records@);
    assert(out@ + usable(records@) =~= usable(records@));
    while i < records.len()
        invariant
            i <= records@.len(),
            out@ + usable(records@.skip(i as int)) == usable(records@),
        decreases records.len() - i,
    {
        let ghost before = out@;
        let ghost rest = records@.skip(i as int);
        assert(rest.skip(1) =~= records@.skip(i as int + 1));
        let r = &records[i];
        if !same_str(r.target.as_str(), ".") && !r.target.as_str().is_empty() {
            out.push(r.copy());
            assert(out@ + usable(rest.skip(1)) =~= before + usable(rest));
        }
        i += 1;
    }
    assert(out@ + usable(records@.skip(i as int)) =~= out@);
    out
}

/// What to do next in locating a server.
#[derive(Debug, Clone, PartialEq, Eq)]
pub enum ResolveAction {
    /// Query SRV records.
    QuerySrv {
        /// The name to query.
        name: String,
    },
    /// Look up the first address of a host.
    Lookup {
        /// The host.
        host: String,
        /// The port.
        port: u16,
    },
    /// The search is over: the address, if there is one.
    Found(Option<SocketAddr>),
    /// The search failed with the error of the last lookup.
    Fail,
}

/// What to do next in locating a server, its texts as characters.
pub enum ResolveActionView {
    QuerySrv { name: Seq<char> },
    Lookup { host: Seq<char>, port: u16 },
    Found(Option<SocketAddr>),
    Fail,
}

impl View for ResolveAction {
    type V = ResolveActionView;

    open spec fn view(&self) -> ResolveActionView {
        match self {
            ResolveAction::QuerySrv { name } => ResolveActionView::QuerySrv { name: name@ },
            ResolveAction::Lookup { host, port } => ResolveActionView::Lookup {
                host: host@,
                port: *port,
            },
            ResolveAction::Found(a) => ResolveActionView::Found(*a),
            ResolveAction::Fail => ResolveActionView::Fail,
        }
    }
}

/// The outcome of a lookup.
#[derive(Debug, Clone, Copy, PartialEq, Eq)]
pub enum LookupResult {
    /// The first address, if there is one.
    Answered(Option<SocketAddr>),
    /// The lookup failed.
    Failed,
}

/// A search for the address of a server.
#[derive(Debug)]
pub struct Resolution {
    phase: Phase,
}

/// Where a search stands.
#[derive(Debug)]
enum Phase {
    /// Waiting for the only lookup, whose outcome is the outcome of the search.
    LastLookup,
    /// Waiting for SRV records; without them, look up the host.
    AwaitSrv { host: String, port: u16 },
    /// Waiting for the lookup of an SRV target; the records that come after it.
    Candidates { rest: Vec<SrvRecord> },
}

/// Where a search stands, as a view.
#[verifier::ext_equal]
pub enum PhaseView {
    LastLookup,
    AwaitSrv { host: Seq<char>, port: u16 },
    Candidates { rest: Seq<SrvRecord> },
}

impl View for Resolution {
    type V = PhaseView;

    closed spec fn view(&self) -> PhaseView {
        match self.phase {
            Phase::LastLookup => PhaseView::LastLookup,
            Phase::AwaitSrv { host, port } => PhaseView::AwaitSrv { host: host@, port },
            Phase::Candidates { rest } => PhaseView::Candidates { rest: rest@ },
        }
    }
}

/// The start of a search: an IP literal is found at once, another host is looked up; by SRV, the
/// records are queried.
pub open spec fn search_start(plan: PlanView) -> (PhaseView, ResolveActionView) {
    match plan {
        PlanView::Direct { host, port } => (
            PhaseView::LastLookup,
            match ip_of(host) {
                Some(ip) => ResolveActionView::Found(Some(SocketAddr::plain(ip, port))),
                None => ResolveActionView::Lookup { host, port },
            },
        ),
        PlanView::Srv { name, host, port } => (
            PhaseView::AwaitSrv { host, port },
            ResolveActionView::QuerySrv { name },
        ),
    }
}

/// A search through SRV records: the first one is looked up; when none is left there is no
/// address.
pub open spec fn next_candidate(rest: Seq<SrvRecord>) -> (PhaseView, ResolveActionView) {
    if rest.len() == 0 {
        (PhaseView::Candidates { rest }, ResolveActionView::Found(None))
    } else {
        (
            PhaseView::Candidates { rest: rest.skip(1) },
            ResolveActionView::Lookup { host: rest[0].target@, port: rest[0].port },
        )
    }
}

impl PhaseView {
    /// The search after the SRV answer; a failed query counts as an empty one. Records are tried
    /// in their order; only without any is the host looked up.
    pub open spec fn after_srv(self, records: Seq<SrvRecord>, seed: u64) -> (
        PhaseView,
        ResolveActionView,
    ) {
        match self {
            PhaseView::AwaitSrv { host, port } => if records.len() == 0 {
                (PhaseView::LastLookup, ResolveActionView::Lookup { host, port })
            } else {
                next_candidate(usable(ordered(records, seed)))
            },
            _ => (self, ResolveActionView::Fail),
        }
    }

    /// The search after a lookup. An address of an SRV target ends it; else the next target is
    /// tried. The outcome of the last lookup is the outcome of the search.
    pub open spec fn after_lookup(self, result: LookupResult) -> (PhaseView, ResolveActionView) {
        match self {
            PhaseView::Candidates { rest } => match result {
                LookupResult::Answered(Some(addr)) => (
                    self,
                    ResolveActionView::Found(Some(addr)),
                ),
                _ => next_candidate(rest),
            },
            _ => (
                self,
                match result {
                    LookupResult::Answered(a) => ResolveActionView::Found(a),
                    LookupResult::Failed => ResolveActionView::Fail,
                },
            ),
        }
    }
}

fn try_next(rest: Vec<SrvRecord>) -> (res: (Resolution, ResolveAction))
    ensures
        (res.0@, res.1@) == next_candidate(rest@),
{
    if rest.len() == 0 {
        return (Resolution { phase: Phase::Candidates { rest } }, ResolveAction::Found(None));
    }
    let mut left = rest;
    let first = left.remove(0);
    assert(left@ =~= rest@.skip(1));
    (
        Resolution { phase: Phase::Candidates { rest: left } },
        ResolveAction::Lookup { host: first.target, port: first.port },
    )
}

impl Resolution {
    /// Starts a search.
    pub fn start(plan: LocationPlan) -> (res: (Self, ResolveAction))
        ensures
            (res.0@, res.1@) == search_start(plan@),
    {
        match plan {
            LocationPlan::Direct { host, port } => {
                let action = match IpAddr::parse(host.as_str()) {
                    Some(ip) => ResolveAction::Found(Some(SocketAddr::new(ip, port))),
                    None => ResolveAction::Lookup { host, port },
                };
                (Resolution { phase: Phase::LastLookup }, action)
            },
            LocationPlan::Srv { name, host, port } => (
                Resolution { phase: Phase::AwaitSrv { host, port } },
                ResolveAction::QuerySrv { name },
            ),
        }
    }

    /// Takes in the SRV answer; no records when the query failed.
    pub fn on_srv(&mut self, records: &Vec<SrvRecord>, seed: u64) -> (res: ResolveAction)
        requires
            records@.len() <= 0xffff_ffff_ffff,
        ensures
            (final(self)@, res@) == old(self)@.after_srv(records@, seed),
    {
        match &self.phase {
            Phase::AwaitSrv { host, port } => {
                if records.len() == 0 {
                    let action = ResolveAction::Lookup { host: host.clone(), port: *port };
                    self.phase = Phase::LastLookup;
                    return action;
                }
                let candidates = usable_records(&order_candidates(records, seed));
                let (next, action) = try_next(candidates);
                *self = next;
                action
            },
            _ => ResolveAction::Fail,
        }
    }

    /// Takes in the outcome of a lookup.
    pub fn on_lookup(&mut self, result: LookupResult) -> (res: ResolveAction)
        ensures
            (final(self)@, res@) == old(self)@.after_lookup(result),
    {
        let mut phase = Phase::LastLookup;
        std::mem::swap(&mut self.phase, &mut phase);
        match phase {
            Phase::Candidates { rest } => match result {
                LookupResult::Answered(Some(addr)) => {
                    self.phase = Phase::Candidates { rest };
                    ResolveAction::Found(Some(addr))
                },
                _ => {
                    let (next, action) = try_next(rest);
                    *self = next;
                    action
                },
            },
            other => {
                self.phase = other;
                match result {
                    LookupResult::Answered(a) => ResolveAction::Found(a),
                    LookupResult::Failed => ResolveAction::Fail,
                }
            },
        }
    }
}

/// The seed of the weighted choice: random keys mixed with the time.
pub fn mix_seed(hashed: u64, nanos: u64) -> (res: u64)
    ensures
        res == hashed ^ nanos,
{
    hashed ^ nanos
}

/// The address at which a search through SRV records ends, when the lookup of each target gives
/// what `answers` says.
pub open spec fn first_answer(rest: Seq<SrvRecord>, answers: spec_fn(SrvRecord) -> LookupResult) -> Option<
    SocketAddr,
>
    decreases rest.len(),
{
    if rest.len() == 0 {
        None
    } else {
        match answers(rest[0]) {
            LookupResult::Answered(Some(addr)) => Some(addr),
            _ => first_answer(rest.skip(1), answers),
        }
    }
}

/// The end of a search from a phase and action on, when lookups of targets give what `answers`
/// says: the action is followed until it is neither a lookup nor a query.
pub open spec fn candidates_end(rest: Seq<SrvRecord>, answers: spec_fn(SrvRecord) -> LookupResult) -> ResolveActionView
    decreases rest.len(),
{
    let (phase, action) = next_candidate(rest);
    if rest.len() == 0 {
        action
    } else {
        let after = phase.after_lookup(answers(rest[0]));
        match after.1 {
            ResolveActionView::Found(Some(addr)) => after.1,
            _ => candidates_end(rest.skip(1), answers),
        }
    }
}

/// A search through SRV records ends with the first target that resolves, and without an address
/// when none does: the bare host is never looked up once records exist.
pub proof fn srv_records_rule_out_the_fallback(
    rest: Seq<SrvRecord>,
    answers: spec_fn(SrvRecord) -> LookupResult,
)
    ensures
        candidates_end(rest, answers) == ResolveActionView::Found(first_answer(rest, answers)),
    decreases rest.len(),
{
    if rest.len() > 0 {
        srv_records_rule_out_the_fallback(rest.skip(1), answers);
    }
}

/// An explicit port is always used as it is, whatever the transport, and never overridden by SRV.
pub proof fn explicit_port_skips_srv(account: SipAccount)
    requires
        account.port is Some,
    ensures
        plan_of(account) == (PlanView::Direct {
            host: text_or(account.server, account.domain),
            port: account.port->0,
        }),
{
}

/// Where a number of the generator came from: the steps of the mixing undone one by one, each
/// multiplication by the inverse of its factor.
pub open spec fn unmixed(n: u64) -> u64 {
    let b = n ^ (n >> 31) ^ (n >> 62);
    let x = b.wrapping_mul(0x3196_42B2_D24D_8EC3);
    let a = x ^ (x >> 27) ^ (x >> 54);
    let y = a.wrapping_mul(0x96DE_1B17_3F11_9089);
    y ^ (y >> 30) ^ (y >> 60)
}

proof fn lemma_inverse(x: u64, m: u64, inverse: u64)
    requires
        (m * inverse) % 0x1_0000_0000_0000_0000 == 1,
    ensures
        x.wrapping_mul(m).wrapping_mul(inverse) == x,
{
    let n: int = 0x1_0000_0000_0000_0000;
    let p = x * m;
    vstd::arithmetic::div_mod::lemma_mul_mod_noop_left(p, inverse as int, n);
    vstd::arithmetic::mul::lemma_mul_is_associative(x as int, m as int, inverse as int);
    vstd::arithmetic::div_mod::lemma_mul_mod_noop_right(x as int, m * inverse, n);
    vstd::arithmetic::div_mod::lemma_small_mod(x as nat, n as nat);
    assert(x.wrapping_mul(m) == p % n);
    assert(x.wrapping_mul(m).wrapping_mul(inverse) == ((p % n) * inverse) % n);
    assert((p * inverse) % n == (x * (m * inverse)) % n);
    assert((x * 1) % n == x);
}

/// The generator gives every number once in its period: the state goes on by the same odd step each
/// time, and the state can be computed back from the number that it gave.
pub proof fn generator_repeats_no_number(s: u64)
    ensures
        splitmix(s).1 == (s + 0x9E37_79B9_7F4A_7C15) % 0x1_0000_0000_0000_0000,
        unmixed(splitmix(s).0) == splitmix(s).1,
{
    let t = s.wrapping_add(0x9E37_79B9_7F4A_7C15);
    let u = t ^ (t >> 30);
    let a = u.wrapping_mul(0xBF58_476D_1CE4_E5B9);
    let v = a ^ (a >> 27);
    let b = v.wrapping_mul(0x94D0_49BB_1331_11EB);
    let n = b ^ (b >> 31);
    assert(n ^ (n >> 31) ^ (n >> 62) == b) by (bit_vector)
        requires
            n == b ^ (b >> 31),
    ;
    assert((0x94D0_49BB_1331_11EBu64 * 0x3196_42B2_D24D_8EC3u64) % 0x1_0000_0000_0000_0000 == 1);
    lemma_inverse(v, 0x94D0_49BB_1331_11EB, 0x3196_42B2_D24D_8EC3);
    assert(v ^ (v >> 27) ^ (v >> 54) == a) by (bit_vector)
        requires
            v == a ^ (a >> 27),
    ;
    assert((0xBF58_476D_1CE4_E5B9u64 * 0x96DE_1B17_3F11_9089u64) % 0x1_0000_0000_0000_0000 == 1);
    lemma_inverse(u, 0xBF58_476D_1CE4_E5B9, 0x96DE_1B17_3F11_9089);
    assert(u ^ (u >> 30) ^ (u >> 60) == t) by (bit_vector)
        requires
            u == t ^ (t >> 30),
    ;
}

proof fn lemma_weight_grows(class: Seq<SrvRecord>, i: int, j: int)
    requires
        0 <= i <= j <= class.len(),
    ensures
        total_weight(class.take(i)) <= total_weight(class.take(j)),
    decreases j,
{
    if i < j {
        assert(class.take(j).drop_last() =~= class.take(j - 1));
        lemma_weight_grows(class, i, j - 1);
    }
}

proof fn lemma_position_is(class: Seq<SrvRecord>, roll: nat, k: int, i: int)
    requires
        0 <= k <= i < class.len(),
        i > 0 ==> total_weight(class.take(i)) < roll,
        roll <= total_weight(class.take(i + 1)),
    ensures
        weighted_position(class, roll, k) == i,
    decreases i - k,
{
    if k < i {
        lemma_weight_grows(class, k + 1, i);
        lemma_position_is(class, roll, k + 1, i);
    }
}

/// A record is drawn as often as its weight says: of the rolls from 0 to the sum of the weights, as
/// many draw it as its weight counts, and the roll 0 draws the first. Among records without weight
/// each is drawn alike.
pub proof fn weights_share_the_rolls(class: Seq<SrvRecord>, r: u64, i: int)
    requires
        0 <= i < class.len(),
    ensures
        total_weight(class.take(i + 1)) == total_weight(class.take(i)) + class[i].weight,
        total_weight(class.take(class.len() as int)) == total_weight(class),
        total_weight(class) == 0 ==> pick(class, r) == r % (class.len() as u64) || class.len()
            > u64::MAX,
        total_weight(class) > 0 && r as nat % (total_weight(class) + 1) == 0 ==> pick(class, r) == 0,
        total_weight(class) > 0 && total_weight(class.take(i)) < r as nat % (total_weight(class)
            + 1) <= total_weight(class.take(i + 1)) ==> pick(class, r) == i,
{
    assert(class.take(i + 1).drop_last() =~= class.take(i));
    assert(class.take(class.len() as int) =~= class);
    let roll = r as nat % (total_weight(class) + 1);
    if total_weight(class) > 0 {
        if roll == 0 {
            lemma_position_is(class, roll, 0, 0);
        } else if total_weight(class.take(i)) < roll <= total_weight(class.take(i + 1)) {
            lemma_position_is(class, roll, 0, i);
        }
    }
}

/// How a server is located: an IP literal needs no query, and is found at the port of the account.
/// Without a port of its own, an account is looked up by the SRV name of its transport and server;
/// without such records its server is looked up at 5061 under TLS and at 5060 otherwise.
pub proof fn accounts_are_located_by_transport(account: SipAccount, seed: u64)
    ensures
        ({
            let host = text_or(account.server, account.domain);
            let port = match account.port {
                Some(p) => p,
                None => if account.transport == Transport::Tls {
                    5061
                } else {
                    5060
                },
            };
            let (phase, action) = search_start(plan_of(account));
            match ip_of(host) {
                Some(ip) => action == ResolveActionView::Found(
                    Some(SocketAddr::plain(ip, port)),
                ),
                None => if account.port is Some {
                    action == (ResolveActionView::Lookup { host, port })
                } else {
                    &&& action == (ResolveActionView::QuerySrv {
                        name: match account.transport {
                            Transport::Udp => "_sip._udp."@ + host,
                            Transport::Tcp => "_sip._tcp."@ + host,
                            Transport::Tls => "_sips._tcp."@ + host,
                        },
                    })
                    &&& phase.after_srv(Seq::empty(), seed).1 == (ResolveActionView::Lookup {
                        host,
                        port,
                    })
                },
            }
        }),
{
}

/// A record that names no host, by `.` or by nothing, is left out; the others stay, in order.
pub proof fn only_named_targets_are_tried(records: Seq<SrvRecord>)
    ensures
        usable(records) == records.filter(|r: SrvRecord| r.target@ != "."@ && r.target@ != ""@),
    decreases records.len(),
{
    reveal(Seq::filter);
    reveal_strlit("");
    let f = |r: SrvRecord| r.target@ != "."@ && r.target@ != ""@;
    if records.len() > 0 {
        let first = seq![records[0]];
        let rest = records.skip(1);
        only_named_targets_are_tried(rest);
        assert(records =~= first + rest);
        Seq::filter_distributes_over_add(first, rest, f);
        assert(first.drop_last() =~= Seq::<SrvRecord>::empty());
        assert(first.drop_last().filter(f) =~= Seq::<SrvRecord>::empty());
        assert(first.filter(f) =~= if f(records[0]) {
            first
        } else {
            Seq::empty()
        });
        if records[0].target@.len() == 0 {
            assert(records[0].target@ =~= ""@);
        }
        assert(usable(records) =~= first.filter(f) + rest.filter(f));
    } else {
        assert(usable(records) =~= records.filter(f));
    }
}

/// The records of an SRV answer are looked up one after the other at their own hosts and ports, and
/// the first address that comes back is the address of the server.
pub proof fn targets_are_tried_in_turn(
    rest: Seq<SrvRecord>,
    addr: SocketAddr,
    result: LookupResult,
)
    requires
        rest.len() > 0,
    ensures
        next_candidate(rest).1 == (ResolveActionView::Lookup {
            host: rest[0].target@,
            port: rest[0].port,
        }),
        next_candidate(rest).0.after_lookup(LookupResult::Answered(Some(addr))).1
            == ResolveActionView::Found(Some(addr)),
        result == LookupResult::Failed || result == LookupResult::Answered(None) ==> next_candidate(
            rest,
        ).0.after_lookup(result) == next_candidate(rest.skip(1)),
        rest.len() == 1 && result == LookupResult::Failed ==> next_candidate(rest).0.after_lookup(
            result,
        ).1 == ResolveActionView::Found(None),
{
}

/// A DNS name is taken without the dots at its end, and as it is otherwise.
pub proof fn trailing_dots_are_dropped(name: Seq<char>, n: nat)
    requires
        name.len() == 0 || name.last() != '.',
    ensures
        without_dots(name + Seq::new(n, |i: int| '.')) == name,
    decreases n,
{
    let dots = Seq::new(n, |i: int| '.');
    let s = name + dots;
    if n == 0 {
        assert(s =~= name);
    } else {
        assert(s.drop_last() =~= name + Seq::new((n - 1) as nat, |i: int| '.'));
        trailing_dots_are_dropped(name, (n - 1) as nat);
    }
}

/// How the records of one priority are drawn: those of weight zero stand before the others, the
/// generator picks one, and the rest is drawn in the same way from what is left, with the next state
/// of the generator. The generator starts with the seed.
pub proof fn records_are_drawn_one_by_one(records: Seq<SrvRecord>, p: u16, seed: u64, i: int, j: int)
    requires
        0 <= i < j < class_of(records, p).len(),
    ensures
        ({
            let class = class_of(records, p);
            let first = pick(class, splitmix(seed).0);
            &&& class[j].weight == 0 ==> class[i].weight == 0
            &&& class[i].priority == p
            &&& 0 <= first < class.len()
            &&& drawn(class, seed).0[0] == class[first]
            &&& drawn(class, seed).0.skip(1) == drawn(
                class.remove(first),
                splitmix(seed).1,
            ).0
            &&& lowest(records) == p ==> drawn(class, seed).0.is_prefix_of(ordered(records, seed))
        }),
{
    let class = class_of(records, p);
    let idle = records.filter(is_idle(p));
    lemma_class_priority(records, p, i);
    lemma_pick(class, splitmix(seed).0);
    if class[j].weight == 0 {
        if i >= idle.len() {
            records.lemma_filter_pred(is_weighted(p), j - idle.len());
        } else {
            records.lemma_filter_pred(is_idle(p), i);
        }
    }
    let first = pick(class, splitmix(seed).0);
    let rest = drawn(class.remove(first), splitmix(seed).1).0;
    assert(drawn(class, seed).0 == seq![class[first]] + rest);
    assert(drawn(class, seed).0.skip(1) =~= rest);
    if lowest(records) == p {
        assert(records.len() > 0) by {
            if records.len() == 0 {
                reveal(Seq::filter);
            }
        }
        lemma_lowest(records);
        let k = choose|k: int| 0 <= k < records.len() && (#[trigger] records[k]).priority == p;
        lemma_filter_smaller(records, p, k);
        let (head, next) = drawn(class, seed);
        let more = ordered(without_class(records, p), next);
        assert(ordered(records, seed) == head + more);
        assert(head.is_prefix_of(head + more));
    }
}

} // verus!
