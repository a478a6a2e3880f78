//! Grouping the runs' metrics by load level, each group ordered by
//! descending throughput.
use vstd::prelude::*;
use crate::config::{Target, LoadLevel};
use crate::extract::{MetricsView, ParseError, extract, extract_spec};

verus! {

/// The metrics of one server at one load level.
#[derive(Debug, Clone)]
pub struct MetricSample {
    pub name: String,
    /// Requests per second, in hundredths.
    pub requests_per_second: u64,
    pub average_latency: String,
    pub max_latency: String,
    pub total_requests: u64,
    pub concurrency: u32,
}

pub struct SampleView {
    pub name: Seq<char>,
    pub requests_per_second: nat,
    pub average_latency: Seq<char>,
    pub max_latency: Seq<char>,
    pub total_requests: nat,
    pub concurrency: nat,
}

impl View for MetricSample {
    type V = SampleView;

    open spec fn view(&self) -> SampleView {
        SampleView {
            name: self.name@,
            requests_per_second: self.requests_per_second as nat,
            average_latency: self.average_latency@,
            max_latency: self.max_latency@,
            total_requests: self.total_requests as nat,
            concurrency: self.concurrency as nat,
        }
    }
}

pub open spec fn views(s: Seq<MetricSample>) -> Seq<SampleView> {
    s.map_values(|m: MetricSample| m@)
}

/// `x` placed after every leading sample of `s` at least as fast as it.
pub open spec fn insert_desc(s: Seq<SampleView>, x: SampleView) -> Seq<SampleView>
    decreases s.len(),
{
    if s.len() == 0 {
        seq![x]
    } else if s[0].requests_per_second >= x.requests_per_second {
        seq![s[0]] + insert_desc(s.drop_first(), x)
    } else {
        seq![x] + s
    }
}

/// `s` ordered by descending throughput; equal throughputs keep their order.
pub open spec fn sort_desc(s: Seq<SampleView>) -> Seq<SampleView>
    decreases s.len(),
{
    if s.len() == 0 {
        s
    } else {
        insert_desc(sort_desc(s.drop_last()), s.last())
    }
}

/// Each sample is at least as fast as the next.
pub open spec fn descending(s: Seq<SampleView>) -> bool {
    forall|i: int| 0 <= i < s.len() - 1 ==> #[trigger] s[i].requests_per_second >= s[i + 1].requests_per_second
}

pub open spec fn descending_pairs(s: Seq<SampleView>) -> bool {
    forall|i: int, j: int| 0 <= i < j < s.len() ==> #[trigger] s[i].requests_per_second >= #[trigger] s[j].requests_per_second
}

proof fn lemma_insert_at(s: Seq<SampleView>, x: SampleView, p: int)
    requires
        0 <= p <= s.len(),
        forall|j: int| 0 <= j < p ==> #[trigger] s[j].requests_per_second >= x.requests_per_second,
        p < s.len() ==> s[p].requests_per_second < x.requests_per_second,
    ensures
        insert_desc(s, x) == s.take(p) + seq![x] + s.skip(p),
    decreases s.len(),
{
    if s.len() == 0 {
        assert(s.take(p) + seq![x] + s.skip(p) =~= seq![x]);
    } else if p == 0 {
        assert(s.take(p) + seq![x] + s.skip(p) =~= seq![x] + s);
    } else {
        let r = s.drop_first();
        assert forall|j: int| 0 <= j < p - 1 implies #[trigger] r[j].requests_per_second >= x.requests_per_second by {
            assert(r[j] == s[j + 1]);
        }
        lemma_insert_at(r, x, p - 1);
        assert(s.take(p) + seq![x] + s.skip(p) =~= seq![s[0]] + (r.take(p - 1) + seq![x] + r.skip(p - 1)));
    }
}

proof fn lemma_insert_position(s: Seq<SampleView>, x: SampleView) -> (p: int)
    ensures
        0 <= p <= s.len(),
        forall|j: int| 0 <= j < p ==> #[trigger] s[j].requests_per_second >= x.requests_per_second,
        p < s.len() ==> s[p].requests_per_second < x.requests_per_second,
    decreases s.len(),
{
    if s.len() == 0 || s[0].requests_per_second < x.requests_per_second {
        0
    } else {
        let q = lemma_insert_position(s.drop_first(), x);
        assert forall|j: int| 0 <= j < q + 1 implies #[trigger] s[j].requests_per_second >= x.requests_per_second by {
            if j > 0 {
                assert(s[j] == s.drop_first()[j - 1]);
            }
        }
        q + 1
    }
}

proof fn lemma_insert_keeps_order(s: Seq<SampleView>, x: SampleView)
    requires
        descending_pairs(s),
    ensures
        descending_pairs(insert_desc(s, x)),
        insert_desc(s, x).len() == s.len() + 1,
{
    let p = lemma_insert_position(s, x);
    lemma_insert_at(s, x, p);
    let r = insert_desc(s, x);
    assert forall|i: int, j: int| 0 <= i < j < r.len() implies #[trigger] r[i].requests_per_second >= #[trigger] r[j].requests_per_second by {
        if i < p {
            assert(r[i] == s[i]);
        } else if i > p {
            assert(r[i] == s[i - 1]);
        }
        if j < p {
            assert(r[j] == s[j]);
        } else if j > p {
            assert(r[j] == s[j - 1]);
        }
        if i == p && j > p {
            assert(s[p].requests_per_second >= s[j - 1].requests_per_second || p == j - 1);
        }
    }
}

proof fn lemma_sort_desc_permutes(s: Seq<SampleView>)
    ensures
        sort_desc(s).to_multiset() == s.to_multiset(),
    decreases s.len(),
{
    if s.len() == 0 {
    } else {
        let r = sort_desc(s.drop_last());
        lemma_sort_desc_permutes(s.drop_last());
        let p = lemma_insert_position(r, s.last());
        lemma_insert_at(r, s.last(), p);
        assert(insert_desc(r, s.last()) =~= r.insert(p, s.last()));
        vstd::seq_lib::to_multiset_insert(r, p, s.last());
        vstd::seq_lib::to_multiset_build(s.drop_last(), s.last());
        assert(s.drop_last().push(s.last()) =~= s);
    }
}

proof fn lemma_sort_desc_pairs(s: Seq<SampleView>)
    ensures
        descending_pairs(sort_desc(s)),
        sort_desc(s).len() == s.len(),
    decreases s.len(),
{
    if s.len() > 0 {
        lemma_sort_desc_pairs(s.drop_last());
        lemma_insert_keeps_order(sort_desc(s.drop_last()), s.last());
    }
}

/// A group put in order holds the same samples, and each of them is at least
/// as fast as the next.
pub proof fn lemma_sorted_group_descending(s: Seq<SampleView>)
    ensures
        sort_desc(s).to_multiset() == s.to_multiset(),
        descending(sort_desc(s)),
{
    lemma_sort_desc_permutes(s);
    lemma_sort_desc_pairs(s);
    let r = sort_desc(s);
    assert forall|i: int| 0 <= i < r.len() - 1 implies #[trigger] r[i].requests_per_second >= r[i + 1].requests_per_second by {
        assert(r[i].requests_per_second >= r[i + 1].requests_per_second);
    }
}

/// Orders a group by descending throughput; equal throughputs keep their order.
pub fn sort_by_rate(group: Vec<MetricSample>) -> (r: Vec<MetricSample>)
    ensures
        views(r@) == sort_desc(views(group@)),
{
    let ghost s = views(group@);
    let mut rest = group;
    let mut out: Vec<MetricSample> = Vec::new();
    let ghost k: int = 0;
    assert(s.take(0) =~= Seq::<SampleView>::empty());
    while rest.len() > 0
        invariant
            0 <= k <= s.len(),
            views(rest@) == s.skip(k),
            views(out@) == sort_desc(s.take(k)),
        decreases rest.len(),
    {
        let ghost prev = rest@;
        let x = rest.remove(0);
        assert(x == prev[0]);
        assert(views(prev)[0] == prev[0]@);
        assert(views(prev) == s.skip(k));
        assert(views(prev).len() == prev.len());
        assert(k < s.len());
        assert(s.skip(k)[0] == s[k]);
        assert(rest@ =~= prev.subrange(1, prev.len() as int));
        assert(views(rest@) =~= views(prev).skip(1));
        assert(views(rest@) =~= s.skip(k + 1));
        let mut p: usize = 0;
        while p < out.len() && out[p].requests_per_second >= x.requests_per_second
            invariant
                p <= out.len(),
                forall|j: int| 0 <= j < p ==> #[trigger] views(out@)[j].requests_per_second >= x@.requests_per_second,
            decreases out.len() - p,
        {
            p = p + 1;
        }
        proof {
            lemma_insert_at(views(out@), x@, p as int);
            assert(s.take(k + 1).drop_last() =~= s.take(k));
            assert(s.take(k + 1).last() == s[k]);
        }
        let ghost before = out@;
        out.insert(p, x);
        assert(views(out@) =~= views(before).take(p as int) + seq![x@] + views(before).skip(p as int));
        proof {
            k = k + 1;
        }
    }
    assert(s.take(k) =~= s);
    out
}

/// Why the runs could not be aggregated: the first failing record, taking
/// load levels in order and, within one, servers in order.
#[derive(Debug, Clone, Copy, PartialEq, Eq, Structural)]
pub enum AggregateError {
    /// The record of this load level and server could not be read.
    MissingRecord { level: usize, target: usize },
    /// The record could not be read as metrics.
    Parse { level: usize, target: usize, error: ParseError },
}

pub open spec fn sample_of(target: Target, level: LoadLevel, m: MetricsView) -> SampleView {
    SampleView {
        name: target.name@,
        requests_per_second: m.requests_per_second,
        average_latency: m.average_latency,
        max_latency: m.max_latency,
        total_requests: m.total_requests,
        concurrency: level.concurrency as nat,
    }
}

/// The record of level `l` and server `t` is there and holds metrics.
pub open spec fn record_ok(records: Seq<Vec<Option<String>>>, l: int, t: int) -> bool {
    records[l]@[t] matches Some(text) && extract_spec(text@) is Ok
}

pub open spec fn failure_of(records: Seq<Vec<Option<String>>>, l: int, t: int) -> AggregateError {
    match records[l]@[t] {
        None => AggregateError::MissingRecord { level: l as usize, target: t as usize },
        Some(text) => AggregateError::Parse {
            level: l as usize,
            target: t as usize,
            error: extract_spec(text@)->Err_0,
        },
    }
}

/// The samples of level `l`, one per server, in the servers' order.
pub open spec fn level_samples(
    targets: Seq<Target>,
    levels: Seq<LoadLevel>,
    records: Seq<Vec<Option<String>>>,
    l: int,
) -> Seq<SampleView> {
    Seq::new(
        targets.len(),
        |t: int| sample_of(targets[t], levels[l], extract_spec(records[l]@[t]->Some_0@)->Ok_0),
    )
}

pub open spec fn records_shaped(
    targets: Seq<Target>,
    levels: Seq<LoadLevel>,
    records: Seq<Vec<Option<String>>>,
) -> bool {
    records.len() == levels.len() && forall|l: int| 0 <= l < records.len() ==> #[trigger] records[l]@.len() == targets.len()
}

/// (l1, t1) comes before (l2, t2): levels first, then servers.
pub open spec fn before(l1: int, t1: int, l2: int, t2: int) -> bool {
    l1 < l2 || (l1 == l2 && t1 < t2)
}

/// Reads every record (`records[l][t]` is the output of server `t` at load
/// level `l`, `None` where it could not be read), and groups the samples by
/// load level, each group by descending throughput.
pub fn aggregate(
    targets: &Vec<Target>,
    levels: &Vec<LoadLevel>,
    records: &Vec<Vec<Option<String>>>,
) -> (r: Result<Vec<Vec<MetricSample>>, AggregateError>)
    requires
        records_shaped(targets@, levels@, records@),
    ensures
        r is Ok <==> forall|l: int, t: int| 0 <= l < levels.len() && 0 <= t < targets.len() ==> #[trigger] record_ok(records@, l, t),
        r matches Ok(groups) ==> groups.len() == levels.len() && forall|l: int| 0 <= l < levels.len() ==>
            views(#[trigger] groups@[l]@) == sort_desc(level_samples(targets@, levels@, records@, l)),
        r matches Err(e) ==> exists|l: int, t: int| 0 <= l < levels.len() && 0 <= t < targets.len() && !#[trigger] record_ok(records@, l, t)
            && e == failure_of(records@, l, t)
            && forall|l2: int, t2: int| 0 <= l2 < levels.len() && 0 <= t2 < targets.len() && #[trigger] before(l2, t2, l, t)
                ==> record_ok(records@, l2, t2),
{
    let mut groups: Vec<Vec<MetricSample>> = Vec::new();
    let mut l: usize = 0;
    while l < levels.len()
        invariant
            records_shaped(targets@, levels@, records@),
            l <= levels.len(),
            groups.len() == l,
            forall|i: int| 0 <= i < l ==> views(#[trigger] groups@[i]@) == sort_desc(level_samples(targets@, levels@, records@, i)),
            forall|l2: int, t2: int| 0 <= l2 < l && 0 <= t2 < targets.len() ==> #[trigger] record_ok(records@, l2, t2),
        decreases levels.len() - l,
    {
        let ghost want = level_samples(targets@, levels@, records@, l as int);
        let mut group: Vec<MetricSample> = Vec::new();
        let mut t: usize = 0;
        assert(records@[l as int]@.len() == targets.len());
        while t < targets.len()
            invariant
                records_shaped(targets@, levels@, records@),
                l < levels.len(),
                t <= targets.len(),
                want == level_samples(targets@, levels@, records@, l as int),
                views(group@) == want.take(t as int),
                forall|l2: int, t2: int| 0 <= l2 < l && 0 <= t2 < targets.len() ==> #[trigger] record_ok(records@, l2, t2),
                forall|t2: int| 0 <= t2 < t ==> #[trigger] record_ok(records@, l as int, t2),
            decreases targets.len() - t,
        {
            assert(records@[l as int]@.len() == targets.len());
            match &records[l][t] {
                None => {
                    let e = AggregateError::MissingRecord { level: l, target: t };
                    assert(!record_ok(records@, l as int, t as int));
                    assert(before(l as int, t as int, l as int, t as int) == false);
                    return Err(e);
                },
                Some(text) => match extract(text.as_str()) {
                    Err(error) => {
                        assert(!record_ok(records@, l as int, t as int));
                        return Err(AggregateError::Parse { level: l, target: t, error });
                    },
                    Ok(m) => {
                        let sample = MetricSample {
                            name: targets[t].name.clone(),
                            requests_per_second: m.requests_per_second,
                            average_latency: m.average_latency,
                            max_latency: m.max_latency,
                            total_requests: m.total_requests,
                            concurrency: levels[l].concurrency,
                        };
                        let ghost prev = group@;
                        group.push(sample);
                        assert(views(group@) =~= views(prev).push(sample@));
                        assert(sample@ == want[t as int]);
                        assert(want.take(t + 1) =~= want.take(t as int).push(want[t as int]));
                    },
                },
            }
            t = t + 1;
        }
        assert(want.take(t as int) =~= want);
        let sorted = sort_by_rate(group);
        groups.push(sorted);
        l = l + 1;
    }
    Ok(groups)
}

} // verus!
