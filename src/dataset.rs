use crate::capture::{work_type_rank, CaptureWork, CaptureWorkType};
use crate::connection::Connection;
use crate::features::{
    add_views, features_view, iat_bin_count, packet_features_at, payload_bin_count, u64_edges,
    usize_edges, zeros, DirectionInferenceMethod, FlowFeatures, PacketDirection, PacketFeatures,
};
use crate::flow_aggregator::{
    bucket_of, connection_periods, is_time_sorted, periods_view, unique_ids, FlowAggregator,
    FlowBucket, PacketKey,
};
use crate::packet::Packet;
use crate::work::WorkReportRequest;
use vstd::multiset::Multiset;
use vstd::prelude::*;

verus! {

broadcast use vstd::seq_lib::group_to_multiset_ensures;

/// The port whose traffic the dataset is built from.
pub const HTTPS_PORT: u16 = 443;

/// Time (in ns) by which a packet may precede its flow.
pub const GRACE_PERIOD_BEFORE: u64 = 1_000_000_000;

/// Time (in ns) by which a packet may follow its flow.
pub const GRACE_PERIOD_AFTER: u64 = 5_000_000_000;

/// Number of bins of each default histogram.
pub const NUM_DEFAULT_BINS: usize = 29;

/// Nanoseconds in a millisecond.
pub const MS: u64 = 1_000_000;

/// Edge `i` of the default payload-size bins: 10 to 100 by 10, 200 to 1000
/// by 100, 2000 to 10000 by 1000, then 65536.
pub open spec fn default_payload_edge(i: int) -> int {
    if i < 10 {
        10 * (i + 1)
    } else if i < 19 {
        100 * (i - 8)
    } else if i < 28 {
        1000 * (i - 17)
    } else {
        65536
    }
}

/// Edge `i` of the default interarrival bins, in ns: 1 to 10 ms by 1 ms,
/// 20 to 100 ms by 10 ms, 200 to 1000 ms by 100 ms, then 10000 ms.
pub open spec fn default_iat_edge(i: int) -> int {
    if i < 10 {
        1_000_000 * (i + 1)
    } else if i < 19 {
        10_000_000 * (i - 8)
    } else if i < 28 {
        100_000_000 * (i - 17)
    } else {
        10_000_000_000
    }
}

/// The default payload-size bin edges, ascending.
pub fn default_payload_bins() -> (r: Vec<usize>)
    ensures
        r@.len() == NUM_DEFAULT_BINS,
        forall|i: int| 0 <= i < NUM_DEFAULT_BINS ==> #[trigger] r@[i] == default_payload_edge(i),
        forall|i: int, j: int| 0 <= i < j < r@.len() ==> r@[i] < r@[j],
{
    let mut r: Vec<usize> = Vec::new();
    let mut v: usize = 10;
    while v <= 100
        invariant
            10 <= v <= 110,
            v % 10 == 0,
            r@.len() == v / 10 - 1,
            forall|i: int| 0 <= i < r@.len() ==> #[trigger] r@[i] == default_payload_edge(i),
        decreases 110 - v,
    {
        r.push(v);
        v = v + 10;
    }
    let mut v: usize = 200;
    while v <= 1000
        invariant
            200 <= v <= 1100,
            v % 100 == 0,
            r@.len() == v / 100 + 8,
            forall|i: int| 0 <= i < r@.len() ==> #[trigger] r@[i] == default_payload_edge(i),
        decreases 1100 - v,
    {
        r.push(v);
        v = v + 100;
    }
    let mut v: usize = 2000;
    while v <= 10000
        invariant
            2000 <= v <= 11000,
            v % 1000 == 0,
            r@.len() == v / 1000 + 17,
            forall|i: int| 0 <= i < r@.len() ==> #[trigger] r@[i] == default_payload_edge(i),
        decreases 11000 - v,
    {
        r.push(v);
        v = v + 1000;
    }
    r.push(65536);
    assert forall|i: int, j: int| 0 <= i < j < r@.len() implies r@[i] < r@[j] by {
        assert(r@[i] == default_payload_edge(i) && r@[j] == default_payload_edge(j));
    }
    r
}

/// The default interarrival-time bin edges, in ns, ascending.
pub fn default_iat_bins() -> (r: Vec<u64>)
    ensures
        r@.len() == NUM_DEFAULT_BINS,
        forall|i: int| 0 <= i < NUM_DEFAULT_BINS ==> #[trigger] r@[i] == default_iat_edge(i),
        forall|i: int, j: int| 0 <= i < j < r@.len() ==> r@[i] < r@[j],
{
    let mut r: Vec<u64> = Vec::new();
    let mut v: u64 = 1;
    while v <= 10
        invariant
            1 <= v <= 11,
            r@.len() == v - 1,
            forall|i: int| 0 <= i < r@.len() ==> #[trigger] r@[i] == default_iat_edge(i),
        decreases 11 - v,
    {
        r.push(v * MS);
        v = v + 1;
    }
    let mut v: u64 = 2;
    while v <= 10
        invariant
            2 <= v <= 11,
            r@.len() == v + 8,
            forall|i: int| 0 <= i < r@.len() ==> #[trigger] r@[i] == default_iat_edge(i),
        decreases 11 - v,
    {
        r.push(v * 10 * MS);
        v = v + 1;
    }
    let mut v: u64 = 2;
    while v <= 10
        invariant
            2 <= v <= 11,
            r@.len() == v + 17,
            forall|i: int| 0 <= i < r@.len() ==> #[trigger] r@[i] == default_iat_edge(i),
        decreases 11 - v,
    {
        r.push(v * 100 * MS);
        v = v + 1;
    }
    r.push(10_000 * MS);
    assert forall|i: int, j: int| 0 <= i < j < r@.len() implies r@[i] < r@[j] by {
        assert(r@[i] == default_iat_edge(i) && r@[j] == default_iat_edge(j));
    }
    r
}

/// Whether a capture is the first of its class that its worker made.
pub fn is_first_of_class(type_index: u64) -> (r: bool)
    ensures
        r == (type_index == 1),
{
    type_index == 1
}

/// `v` reversed.
fn reverse_vec<T>(v: Vec<T>) -> (r: Vec<T>)
    ensures
        r@.len() == v@.len(),
        forall|i: int| 0 <= i < v@.len() ==> #[trigger] r@[i] == v@[v@.len() - 1 - i],
{
    let ghost s = v@;
    let mut v = v;
    let mut r: Vec<T> = Vec::new();
    while v.len() > 0
        invariant
            v@.len() + r@.len() == s.len(),
            forall|i: int| 0 <= i < v@.len() ==> #[trigger] v@[i] == s[i],
            forall|i: int| 0 <= i < r@.len() ==> #[trigger] r@[i] == s[s.len() - 1 - i],
        decreases v@.len(),
    {
        let x = v.pop().unwrap();
        r.push(x);
    }
    r
}

pub open spec fn is_https_connection(c: Connection) -> bool {
    c.orig_port == HTTPS_PORT || c.resp_port == HTTPS_PORT
}

/// The connections of `s` with an endpoint on the HTTPS port, in order.
pub open spec fn https_connections(s: Seq<Connection>) -> Seq<Connection>
    decreases s.len(),
{
    if s.len() == 0 {
        s
    } else if is_https_connection(s.last()) {
        https_connections(s.drop_last()).push(s.last())
    } else {
        https_connections(s.drop_last())
    }
}

pub open spec fn is_https_packet(p: Packet) -> bool {
    p.src_port == HTTPS_PORT || p.dst_port == HTTPS_PORT
}

/// The packets of `s` with an endpoint on the HTTPS port, in order.
pub open spec fn https_packets(s: Seq<Packet>) -> Seq<Packet>
    decreases s.len(),
{
    if s.len() == 0 {
        s
    } else if is_https_packet(s.last()) {
        https_packets(s.drop_last()).push(s.last())
    } else {
        https_packets(s.drop_last())
    }
}

/// Keeps the connections with an endpoint on the HTTPS port.
pub fn filter_https_connections(connections: Vec<Connection>) -> (r: Vec<Connection>)
    ensures
        r@ == https_connections(connections@),
{
    let ghost s = connections@;
    let mut rev = reverse_vec(connections);
    let mut out: Vec<Connection> = Vec::new();
    let mut n: usize = 0;
    assert(rev.len() == s.len());
    while rev.len() > 0
        invariant
            s.len() <= usize::MAX,
            n + rev@.len() == s.len(),
            forall|i: int| 0 <= i < rev@.len() ==> #[trigger] rev@[i] == s[s.len() - 1 - i],
            out@ == https_connections(s.take(n as int)),
        decreases rev@.len(),
    {
        let c = rev.pop().unwrap();
        assert(c == s[n as int]);
        assert(s.take(n + 1).drop_last() =~= s.take(n as int));
        if c.orig_port == HTTPS_PORT || c.resp_port == HTTPS_PORT {
            out.push(c);
        }
        n = n + 1;
    }
    assert(s.take(s.len() as int) =~= s);
    out
}

/// Keeps the packets with an endpoint on the HTTPS port.
pub fn filter_https_packets(packets: Vec<Packet>) -> (r: Vec<Packet>)
    ensures
        r@ == https_packets(packets@),
{
    let ghost s = packets@;
    let mut out: Vec<Packet> = Vec::new();
    let mut n: usize = 0;
    while n < packets.len()
        invariant
            s == packets@,
            0 <= n <= s.len(),
            out@ == https_packets(s.take(n as int)),
        decreases s.len() - n,
    {
        let p = packets[n];
        assert(s.take(n + 1).drop_last() =~= s.take(n as int));
        if p.src_port == HTTPS_PORT || p.dst_port == HTTPS_PORT {
            out.push(p);
        }
        n = n + 1;
    }
    assert(s.take(s.len() as int) =~= s);
    out
}

/// The histograms that `generate` makes of `features` with the given edges.
pub open spec fn generate_view(
    features: Seq<PacketFeatures>,
    pl: Seq<int>,
    iaf: Seq<int>,
    iat: Seq<int>,
) -> (Seq<usize>, Seq<usize>, Seq<usize>) {
    (
        Seq::new(pl.len(), |k: int| payload_bin_count(features, pl, k) as usize),
        Seq::new(
            iaf.len(),
            |k: int| iat_bin_count(features, PacketDirection::FromClient, iaf, k) as usize,
        ),
        Seq::new(iat.len(), |k: int| iat_bin_count(features, PacketDirection::ToClient, iat, k) as usize),
    )
}

/// The histograms of one flow's packets.
pub open spec fn flow_view(
    packets: Seq<crate::packet::StrippedPacket>,
    methods: Seq<DirectionInferenceMethod>,
    pl: Seq<int>,
    iaf: Seq<int>,
    iat: Seq<int>,
) -> (Seq<usize>, Seq<usize>, Seq<usize>) {
    generate_view(
        Seq::new(packets.len(), |i: int| packet_features_at(packets, methods, i)),
        pl,
        iaf,
        iat,
    )
}

/// The bin-wise sum of the histograms of the flows, in order, from empty histograms.
pub open spec fn sum_flows(
    buckets: Seq<FlowBucket>,
    methods: Seq<DirectionInferenceMethod>,
    pl: Seq<int>,
    iaf: Seq<int>,
    iat: Seq<int>,
) -> (Seq<usize>, Seq<usize>, Seq<usize>)
    decreases buckets.len(),
{
    if buckets.len() == 0 {
        (zeros(pl.len()), zeros(iaf.len()), zeros(iat.len()))
    } else {
        add_views(
            sum_flows(buckets.drop_last(), methods, pl, iaf, iat),
            flow_view(buckets.last().packets@, methods, pl, iaf, iat),
        )
    }
}

/// Sums the histograms of every flow into one set of features.
pub fn features_of_flows(
    buckets: Vec<FlowBucket>,
    methods: &[DirectionInferenceMethod],
    payload_bins: &[usize],
    iaf_bins: &[u64],
    iat_bins: &[u64],
) -> (r: FlowFeatures)
    requires
        forall|i: int| 0 <= i < buckets@.len() ==> is_time_sorted(#[trigger] buckets@[i].packets@),
    ensures
        features_view(r) == sum_flows(
            buckets@,
            methods@,
            usize_edges(payload_bins@),
            u64_edges(iaf_bins@),
            u64_edges(iat_bins@),
        ),
{
    let ghost s = buckets@;
    let ghost pe = usize_edges(payload_bins@);
    let ghost fe = u64_edges(iaf_bins@);
    let ghost te = u64_edges(iat_bins@);
    let mut rev = reverse_vec(buckets);
    let mut acc = FlowFeatures::empty(payload_bins.len(), iaf_bins.len(), iat_bins.len());
    let mut n: usize = 0;
    assert(rev.len() == s.len());
    while rev.len() > 0
        invariant
            s.len() <= usize::MAX,
            n + rev@.len() == s.len(),
            forall|i: int| 0 <= i < s.len() ==> is_time_sorted(#[trigger] s[i].packets@),
            forall|i: int| 0 <= i < rev@.len() ==> #[trigger] rev@[i] == s[s.len() - 1 - i],
            pe == usize_edges(payload_bins@),
            fe == u64_edges(iaf_bins@),
            te == u64_edges(iat_bins@),
            features_view(acc) == sum_flows(s.take(n as int), methods@, pe, fe, te),
            acc.payload_length_freq_bins@.len() == payload_bins@.len(),
            acc.interarrival_freq_from_client_bins@.len() == iaf_bins@.len(),
            acc.interarrival_freq_to_client_bins@.len() == iat_bins@.len(),
        decreases rev@.len(),
    {
        let bucket = rev.pop().unwrap();
        assert(bucket == s[n as int]);
        assert(s.take(n + 1).drop_last() =~= s.take(n as int));
        let ghost ps = bucket.packets@;
        let pf = PacketFeatures::from_stripped_packets(bucket.packets, methods);
        assert(pf@ =~= Seq::new(ps.len(), |i: int| packet_features_at(ps, methods@, i)));
        let f = FlowFeatures::generate(pf.as_slice(), payload_bins, iaf_bins, iat_bins);
        assert(features_view(f) =~= flow_view(ps, methods@, pe, fe, te));
        acc = acc.add(f);
        n = n + 1;
    }
    assert(s.take(s.len() as int) =~= s);
    acc
}

/// `buckets` are what an aggregator over `connections`, with the given grace
/// periods, makes of `packets`.
pub open spec fn is_aggregation_of(
    buckets: Seq<FlowBucket>,
    connections: Seq<Connection>,
    packets: Seq<Packet>,
    grace_before: u64,
    grace_after: u64,
) -> bool {
    exists|agg: FlowAggregator|
        {
            &&& agg.wf()
            &&& agg.grace_period_before == grace_before
            &&& agg.grace_period_after == grace_after
            &&& forall|k: PacketKey| #[trigger]
                periods_view(agg.periods(k)) == connection_periods(connections, k)
            &&& unique_ids(buckets)
            &&& forall|i: int|
                0 <= i < buckets.len() ==> #[trigger] buckets[i].packets@.len() > 0
                    && is_time_sorted(buckets[i].packets@)
            &&& forall|id: Seq<char>| #[trigger]
                bucket_of(buckets, id).to_multiset() == agg.assigned(packets, id)
        }
}

/// The feature histograms of one capture: the HTTPS connections and
/// packets are associated into flows with the default grace periods, each
/// flow's packets are featurized with the server port 443, binned with the
/// default edges, and the flows' histograms are summed.
pub fn capture_features(connections: Vec<Connection>, packets: Vec<Packet>) -> (r: FlowFeatures)
    ensures
        exists|buckets: Seq<FlowBucket>|
            {
                &&& is_aggregation_of(
                    buckets,
                    https_connections(connections@),
                    https_packets(packets@),
                    GRACE_PERIOD_BEFORE,
                    GRACE_PERIOD_AFTER,
                )
                &&& features_view(r) == sum_flows(
                    buckets,
                    seq![DirectionInferenceMethod::ServerPort(HTTPS_PORT)],
                    usize_edges(default_payload_bins_spec()),
                    u64_edges(default_iat_bins_spec()),
                    u64_edges(default_iat_bins_spec()),
                )
            },
{
    let conns = filter_https_connections(connections);
    let pkts = filter_https_packets(packets);
    let ghost pkts_view = pkts@;
    let mut agg = FlowAggregator::new(conns, GRACE_PERIOD_BEFORE, GRACE_PERIOD_AFTER);
    let ghost start = agg;
    agg.load_packets(pkts);
    let ghost loaded = agg;
    let buckets = agg.into_aggregated_flows();
    let ghost bv = buckets@;
    proof {
        assert forall|id: Seq<char>| #[trigger]
            bucket_of(bv, id).to_multiset() == start.assigned(pkts_view, id) by {
            assert(loaded.bucket(id).to_multiset() == start.bucket(id).to_multiset().add(
                start.assigned(pkts_view, id),
            ));
            assert(start.bucket(id) =~= Seq::<crate::packet::StrippedPacket>::empty());
            assert(start.bucket(id).to_multiset() =~= Multiset::empty());
            assert(Multiset::<crate::packet::StrippedPacket>::empty().add(start.assigned(pkts_view, id))
                =~= start.assigned(pkts_view, id));
        }
        assert(is_aggregation_of(
            bv,
            https_connections(connections@),
            https_packets(packets@),
            GRACE_PERIOD_BEFORE,
            GRACE_PERIOD_AFTER,
        ));
    }
    let methods = vec![DirectionInferenceMethod::ServerPort(HTTPS_PORT)];
    assert(methods@ =~= seq![DirectionInferenceMethod::ServerPort(HTTPS_PORT)]);
    let payload_bins = default_payload_bins();
    let iat_bins = default_iat_bins();
    assert(payload_bins@ =~= default_payload_bins_spec());
    assert(iat_bins@ =~= default_iat_bins_spec());
    features_of_flows(
        buckets,
        methods.as_slice(),
        payload_bins.as_slice(),
        iat_bins.as_slice(),
        iat_bins.as_slice(),
    )
}

pub open spec fn default_payload_bins_spec() -> Seq<usize> {
    Seq::new(NUM_DEFAULT_BINS as nat, |i: int| default_payload_edge(i) as usize)
}

pub open spec fn default_iat_bins_spec() -> Seq<u64> {
    Seq::new(NUM_DEFAULT_BINS as nat, |i: int| default_iat_edge(i) as u64)
}

pub open spec fn report_key_le(
    a: WorkReportRequest<CaptureWorkType, CaptureWork>,
    b: WorkReportRequest<CaptureWorkType, CaptureWork>,
) -> bool {
    work_type_rank(a.work_type) < work_type_rank(b.work_type) || (work_type_rank(a.work_type)
        == work_type_rank(b.work_type) && a.work.index <= b.work.index)
}

/// The successful reports of `s`, in order.
pub open spec fn successful(s: Seq<WorkReportRequest<CaptureWorkType, CaptureWork>>) -> Seq<
    WorkReportRequest<CaptureWorkType, CaptureWork>,
>
    decreases s.len(),
{
    if s.len() == 0 {
        s
    } else if s.last().success {
        successful(s.drop_last()).push(s.last())
    } else {
        successful(s.drop_last())
    }
}

fn report_key_le_exec(
    a: &WorkReportRequest<CaptureWorkType, CaptureWork>,
    b: &WorkReportRequest<CaptureWorkType, CaptureWork>,
) -> (r: bool)
    ensures
        r == report_key_le(*a, *b),
{
    let ra = a.work_type.rank();
    let rb = b.work_type.rank();
    ra < rb || (ra == rb && a.work.index <= b.work.index)
}

/// The successful reports, ordered by work type and then by work index.
pub fn order_reports(reports: Vec<WorkReportRequest<CaptureWorkType, CaptureWork>>) -> (r: Vec<
    WorkReportRequest<CaptureWorkType, CaptureWork>,
>)
    ensures
        r@.to_multiset() == successful(reports@).to_multiset(),
        forall|i: int, j: int| 0 <= i <= j < r@.len() ==> report_key_le(r@[i], r@[j]),
{
    let ghost s = reports@;
    let mut rev = reverse_vec(reports);
    let mut out: Vec<WorkReportRequest<CaptureWorkType, CaptureWork>> = Vec::new();
    let mut n: usize = 0;
    assert(rev.len() == s.len());
    while rev.len() > 0
        invariant
            s.len() <= usize::MAX,
            n + rev@.len() == s.len(),
            forall|i: int| 0 <= i < rev@.len() ==> #[trigger] rev@[i] == s[s.len() - 1 - i],
            out@.to_multiset() == successful(s.take(n as int)).to_multiset(),
            forall|i: int, j: int| 0 <= i <= j < out@.len() ==> report_key_le(out@[i], out@[j]),
        decreases rev@.len(),
    {
        let report = rev.pop().unwrap();
        assert(report == s[n as int]);
        assert(s.take(n + 1).drop_last() =~= s.take(n as int));
        if report.success {
            let ghost o = out@;
            let mut pos: usize = out.len();
            while pos > 0 && !report_key_le_exec(&out[pos - 1], &report)
                invariant
                    out@ == o,
                    0 <= pos <= o.len(),
                    forall|l: int| pos <= l < o.len() ==> !report_key_le(#[trigger] o[l], report),
                decreases pos,
            {
                pos = pos - 1;
            }
            let ghost x = report;
            out.insert(pos, report);
            proof {
                let r = out@;
                o.insert_ensures(pos as int, x);
                assert(r.remove(pos as int) =~= o);
                assert(r[pos as int] == x);
                assert(r.to_multiset().count(x) > 0);
                assert(r.to_multiset() =~= o.to_multiset().insert(x));
                let prev = successful(s.take(n as int));
                assert(prev.push(x).to_multiset() =~= prev.to_multiset().insert(x));
                assert forall|i: int, j: int| 0 <= i <= j < r.len() implies report_key_le(
                    r[i],
                    r[j],
                ) by {
                    if i < pos && j < pos {
                        assert(r[i] == o[i] && r[j] == o[j]);
                    } else if i < pos && j == pos {
                        assert(r[i] == o[i]);
                        assert(report_key_le(o[pos - 1], x));
                        assert(report_key_le(o[i], o[pos - 1]));
                    } else if i < pos {
                        assert(r[i] == o[i] && r[j] == o[j - 1]);
                    } else if i == pos && j > pos {
                        assert(r[j] == o[j - 1]);
                        assert(!report_key_le(o[j - 1], x));
                    } else if i > pos {
                        assert(r[i] == o[i - 1] && r[j] == o[j - 1]);
                    }
                }
            }
        }
        n = n + 1;
    }
    assert(s.take(s.len() as int) =~= s);
    out
}

} // verus!
