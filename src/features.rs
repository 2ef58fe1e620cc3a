use crate::flow_aggregator::is_time_sorted;
use crate::packet::StrippedPacket;
use std::collections::HashSet;
use vstd::prelude::*;

verus! {

broadcast use vstd::std_specs::hash::group_hash_axioms;

/// Direction of a packet relative to the client of its flow.
#[derive(Clone, Copy, Debug, PartialEq, Eq, Structural)]
pub enum PacketDirection {
    FromClient,
    ToClient,
    Unknown,
}

/// Packet direction inference method.
pub enum DirectionInferenceMethod {
    Ephemeral,
    ServerPort(u16),
    ServerPorts(HashSet<u16>),
}

/// Minimum ephemeral port according to IANA standards.
pub const MIN_IANA_EPH_PORT: u16 = 49152;

/// Maximum ephemeral port according to IANA standards.
pub const MAX_IANA_EPH_PORT: u16 = 65535;

/// Minimum ephemeral port used frequently by the Linux kernel.
pub const MIN_LINUX_EPH_PORT: u16 = 32768;

/// Maximum ephemeral port used frequently by the Linux kernel.
pub const MAX_LINUX_EPH_PORT: u16 = 61000;

/// Direction given by a single known server port.
pub open spec fn server_port_direction(src_port: u16, dst_port: u16, server_port: u16) -> Option<
    PacketDirection,
> {
    if dst_port == server_port {
        Some(PacketDirection::FromClient)
    } else if src_port == server_port {
        Some(PacketDirection::ToClient)
    } else {
        None
    }
}

/// Direction given by a set of known server ports.
pub open spec fn server_ports_direction(src_port: u16, dst_port: u16, server_ports: Set<u16>) -> Option<
    PacketDirection,
> {
    if server_ports.contains(dst_port) {
        Some(PacketDirection::FromClient)
    } else if server_ports.contains(src_port) {
        Some(PacketDirection::ToClient)
    } else {
        None
    }
}

pub open spec fn in_range(port: u16, lo: u16, hi: u16) -> bool {
    lo <= port && port <= hi
}

/// Direction given by which side's port looks ephemeral: IANA range first,
/// then the common Linux range; the ephemeral side is the client.
pub open spec fn ephemeral_direction(src_port: u16, dst_port: u16) -> Option<PacketDirection> {
    if in_range(src_port, MIN_IANA_EPH_PORT, MAX_IANA_EPH_PORT) {
        Some(PacketDirection::FromClient)
    } else if in_range(dst_port, MIN_IANA_EPH_PORT, MAX_IANA_EPH_PORT) {
        Some(PacketDirection::ToClient)
    } else if in_range(src_port, MIN_LINUX_EPH_PORT, MAX_LINUX_EPH_PORT) {
        Some(PacketDirection::FromClient)
    } else if in_range(dst_port, MIN_LINUX_EPH_PORT, MAX_LINUX_EPH_PORT) {
        Some(PacketDirection::ToClient)
    } else {
        None
    }
}

/// What one inference method concludes about a packet.
pub open spec fn method_direction(method: &DirectionInferenceMethod, src_port: u16, dst_port: u16) -> Option<
    PacketDirection,
> {
    match method {
        DirectionInferenceMethod::Ephemeral => ephemeral_direction(src_port, dst_port),
        DirectionInferenceMethod::ServerPort(p) => server_port_direction(src_port, dst_port, *p),
        DirectionInferenceMethod::ServerPorts(ps) => server_ports_direction(
            src_port,
            dst_port,
            ps@,
        ),
    }
}

/// The first conclusion among `methods`, in order, or `Unknown` if none concludes.
pub open spec fn infer_all(methods: Seq<DirectionInferenceMethod>, src_port: u16, dst_port: u16) -> PacketDirection
    decreases methods.len(),
{
    if methods.len() == 0 {
        PacketDirection::Unknown
    } else {
        match method_direction(&methods[0], src_port, dst_port) {
            Some(d) => d,
            None => infer_all(methods.drop_first(), src_port, dst_port),
        }
    }
}

impl DirectionInferenceMethod {
    /// Infers the direction of a packet by trying each method in turn; the
    /// first that reaches a conclusion wins. The ephemeral heuristic is
    /// evaluated at most once.
    pub fn infer_multiple(src_port: u16, dst_port: u16, methods: &[Self]) -> (r: PacketDirection)
        ensures
            r == infer_all(methods@, src_port, dst_port),
    {
        let mut last_ephemeral: Option<Option<PacketDirection>> = None;
        let mut i: usize = 0;
        assert(methods@.skip(0) =~= methods@);
        while i < methods.len()
            invariant
                0 <= i <= methods@.len(),
                infer_all(methods@, src_port, dst_port) == infer_all(
                    methods@.skip(i as int),
                    src_port,
                    dst_port,
                ),
                last_ephemeral matches Some(e) ==> e == ephemeral_direction(src_port, dst_port),
            decreases methods.len() - i,
        {
            let method = &methods[i];
            let dir = match method {
                DirectionInferenceMethod::Ephemeral => {
                    match last_ephemeral {
                        Some(e) => e,
                        None => {
                            let e = Self::infer_ephemeral(src_port, dst_port);
                            last_ephemeral = Some(e);
                            e
                        },
                    }
                },
                _ => method.infer(src_port, dst_port),
            };
            assert(methods@.skip(i as int)[0] == methods@[i as int]);
            assert(methods@.skip(i as int).drop_first() =~= methods@.skip(i + 1));
            match dir {
                Some(d) => {
                    return d;
                },
                None => {},
            }
            i = i + 1;
        }
        PacketDirection::Unknown
    }

    /// Infers the direction of a packet using this method.
    pub fn infer(&self, src_port: u16, dst_port: u16) -> (r: Option<PacketDirection>)
        ensures
            r == method_direction(self, src_port, dst_port),
    {
        match self {
            DirectionInferenceMethod::Ephemeral => Self::infer_ephemeral(src_port, dst_port),
            DirectionInferenceMethod::ServerPort(server_port) => Self::infer_from_server_port(
                src_port,
                dst_port,
                *server_port,
            ),
            DirectionInferenceMethod::ServerPorts(server_ports) => Self::infer_from_server_ports(
                src_port,
                dst_port,
                server_ports,
            ),
        }
    }

    fn infer_from_server_port(src_port: u16, dst_port: u16, server_port: u16) -> (r: Option<
        PacketDirection,
    >)
        ensures
            r == server_port_direction(src_port, dst_port, server_port),
    {
        if dst_port == server_port {
            Some(PacketDirection::FromClient)
        } else if src_port == server_port {
            Some(PacketDirection::ToClient)
        } else {
            None
        }
    }

    fn infer_from_server_ports(src_port: u16, dst_port: u16, server_ports: &HashSet<u16>) -> (r:
        Option<PacketDirection>)
        ensures
            r == server_ports_direction(src_port, dst_port, server_ports@),
    {
        if server_ports.contains(&dst_port) {
            Some(PacketDirection::FromClient)
        } else if server_ports.contains(&src_port) {
            Some(PacketDirection::ToClient)
        } else {
            None
        }
    }

    fn infer_ephemeral(src_port: u16, dst_port: u16) -> (r: Option<PacketDirection>)
        ensures
            r == ephemeral_direction(src_port, dst_port),
    {
        if src_port >= MIN_IANA_EPH_PORT && src_port <= MAX_IANA_EPH_PORT {
            Some(PacketDirection::FromClient)
        } else if dst_port >= MIN_IANA_EPH_PORT && dst_port <= MAX_IANA_EPH_PORT {
            Some(PacketDirection::ToClient)
        } else if src_port >= MIN_LINUX_EPH_PORT && src_port <= MAX_LINUX_EPH_PORT {
            Some(PacketDirection::FromClient)
        } else if dst_port >= MIN_LINUX_EPH_PORT && dst_port <= MAX_LINUX_EPH_PORT {
            Some(PacketDirection::ToClient)
        } else {
            None
        }
    }
}

/// Per-packet features.
#[derive(Clone, Copy, Debug, PartialEq, Eq, Structural)]
pub struct PacketFeatures {
    /// Length of the application-layer payload
    pub payload_length: usize,
    /// Time since the last packet of this direction, in ns
    pub interarrival_time: u64,
    /// Direction
    pub direction: PacketDirection,
}

/// Timestamp of the last packet of `packets` that the methods place in direction `dir`.
pub open spec fn last_time(
    packets: Seq<StrippedPacket>,
    methods: Seq<DirectionInferenceMethod>,
    dir: PacketDirection,
) -> Option<u64>
    decreases packets.len(),
{
    if packets.len() == 0 {
        None
    } else if infer_all(methods, packets.last().src_port, packets.last().dst_port) == dir {
        Some(packets.last().timestamp)
    } else {
        last_time(packets.drop_last(), methods, dir)
    }
}

/// Features of packet `i` of a flow: its direction, and the time since the
/// previous packet of the same direction (zero for the first, and for
/// packets of unknown direction).
pub open spec fn packet_features_at(
    packets: Seq<StrippedPacket>,
    methods: Seq<DirectionInferenceMethod>,
    i: int,
) -> PacketFeatures {
    let p = packets[i];
    let dir = infer_all(methods, p.src_port, p.dst_port);
    let iat = if dir == PacketDirection::Unknown {
        0
    } else {
        match last_time(packets.subrange(0, i), methods, dir) {
            Some(l) => p.timestamp - l,
            None => 0,
        }
    };
    PacketFeatures { payload_length: p.payload_length, interarrival_time: iat as u64, direction: dir }
}

impl PacketFeatures {
    /// Derives the features of each packet of a flow, in timestamp order.
    pub fn from_stripped_packets(
        packets: Vec<StrippedPacket>,
        dir_inference_methods: &[DirectionInferenceMethod],
    ) -> (r: Vec<Self>)
        requires
            is_time_sorted(packets@),
        ensures
            r@.len() == packets@.len(),
            forall|i: int|
                0 <= i < packets@.len() ==> #[trigger] r@[i] == packet_features_at(
                    packets@,
                    dir_inference_methods@,
                    i,
                ),
    {
        let ghost ms = dir_inference_methods@;
        let mut out: Vec<PacketFeatures> = Vec::new();
        let mut from_client: Option<u64> = None;
        let mut to_client: Option<u64> = None;
        let mut i: usize = 0;
        while i < packets.len()
            invariant
                0 <= i <= packets@.len(),
                is_time_sorted(packets@),
                ms == dir_inference_methods@,
                out@.len() == i,
                forall|k: int| 0 <= k < i ==> #[trigger] out@[k] == packet_features_at(packets@, ms, k),
                from_client == last_time(
                    packets@.subrange(0, i as int),
                    ms,
                    PacketDirection::FromClient,
                ),
                to_client == last_time(packets@.subrange(0, i as int), ms, PacketDirection::ToClient),
                from_client matches Some(l) ==> i > 0 && l <= packets@[i - 1].timestamp,
                to_client matches Some(l) ==> i > 0 && l <= packets@[i - 1].timestamp,
            decreases packets@.len() - i,
        {
            let packet = packets[i];
            let direction = DirectionInferenceMethod::infer_multiple(
                packet.src_port,
                packet.dst_port,
                dir_inference_methods,
            );
            let ghost prefix = packets@.subrange(0, i as int);
            let ghost next = packets@.subrange(0, i + 1);
            assert(next.drop_last() =~= prefix);
            assert(next.last() == packet);
            let interarrival_time: u64 = match direction {
                PacketDirection::FromClient => {
                    let iat = match from_client {
                        Some(l) => packet.timestamp - l,
                        None => 0,
                    };
                    from_client = Some(packet.timestamp);
                    iat
                },
                PacketDirection::ToClient => {
                    let iat = match to_client {
                        Some(l) => packet.timestamp - l,
                        None => 0,
                    };
                    to_client = Some(packet.timestamp);
                    iat
                },
                PacketDirection::Unknown => 0,
            };
            out.push(PacketFeatures { payload_length: packet.payload_length, interarrival_time, direction });
            i = i + 1;
        }
        out
    }
}

/// Index of the first edge that `v` is below, or the number of edges if none.
pub open spec fn bin_of(v: int, edges: Seq<int>) -> int
    decreases edges.len(),
{
    if edges.len() == 0 {
        0
    } else if v < edges[0] {
        0
    } else {
        1 + bin_of(v, edges.drop_first())
    }
}

pub open spec fn usize_edges(edges: Seq<usize>) -> Seq<int> {
    edges.map_values(|e: usize| e as int)
}

pub open spec fn u64_edges(edges: Seq<u64>) -> Seq<int> {
    edges.map_values(|e: u64| e as int)
}

/// `bin_of` is the first edge that `v` is below.
pub proof fn lemma_bin_of_first_above(v: int, edges: Seq<int>, idx: int)
    requires
        0 <= idx <= edges.len(),
        forall|l: int| 0 <= l < idx ==> v >= #[trigger] edges[l],
        idx == edges.len() || v < edges[idx],
    ensures
        bin_of(v, edges) == idx,
    decreases idx,
{
    if idx > 0 {
        let rest = edges.drop_first();
        assert forall|l: int| 0 <= l < idx - 1 implies v >= #[trigger] rest[l] by {
            assert(rest[l] == edges[l + 1]);
        }
        assert(v >= edges[0]);
        lemma_bin_of_first_above(v, rest, idx - 1);
    }
}

/// Number of packets whose payload length falls in bin `k`.
pub open spec fn payload_bin_count(features: Seq<PacketFeatures>, edges: Seq<int>, k: int) -> nat
    decreases features.len(),
{
    if features.len() == 0 {
        0
    } else {
        payload_bin_count(features.drop_last(), edges, k) + if bin_of(
            features.last().payload_length as int,
            edges,
        ) == k {
            1nat
        } else {
            0nat
        }
    }
}

/// Number of packets of direction `dir` whose interarrival time falls in bin `k`.
pub open spec fn iat_bin_count(
    features: Seq<PacketFeatures>,
    dir: PacketDirection,
    edges: Seq<int>,
    k: int,
) -> nat
    decreases features.len(),
{
    if features.len() == 0 {
        0
    } else {
        iat_bin_count(features.drop_last(), dir, edges, k) + if features.last().direction == dir
            && bin_of(features.last().interarrival_time as int, edges) == k {
            1nat
        } else {
            0nat
        }
    }
}

proof fn lemma_payload_bin_count_bound(features: Seq<PacketFeatures>, edges: Seq<int>, k: int)
    ensures
        payload_bin_count(features, edges, k) <= features.len(),
    decreases features.len(),
{
    if features.len() > 0 {
        lemma_payload_bin_count_bound(features.drop_last(), edges, k);
    }
}

proof fn lemma_iat_bin_count_bound(
    features: Seq<PacketFeatures>,
    dir: PacketDirection,
    edges: Seq<int>,
    k: int,
)
    ensures
        iat_bin_count(features, dir, edges, k) <= features.len(),
    decreases features.len(),
{
    if features.len() > 0 {
        lemma_iat_bin_count_bound(features.drop_last(), dir, edges, k);
    }
}

fn bin_index_usize(v: usize, edges: &[usize]) -> (r: usize)
    ensures
        r == bin_of(v as int, usize_edges(edges@)),
{
    let ghost es = usize_edges(edges@);
    let mut idx: usize = 0;
    while idx < edges.len() && v >= edges[idx]
        invariant
            0 <= idx <= edges@.len(),
            es == usize_edges(edges@),
            forall|l: int| 0 <= l < idx ==> v >= #[trigger] es[l],
        decreases edges@.len() - idx,
    {
        idx = idx + 1;
    }
    proof {
        lemma_bin_of_first_above(v as int, es, idx as int);
    }
    idx
}

fn bin_index_u64(v: u64, edges: &[u64]) -> (r: usize)
    ensures
        r == bin_of(v as int, u64_edges(edges@)),
{
    let ghost es = u64_edges(edges@);
    let mut idx: usize = 0;
    while idx < edges.len() && v >= edges[idx]
        invariant
            0 <= idx <= edges@.len(),
            es == u64_edges(edges@),
            forall|l: int| 0 <= l < idx ==> v >= #[trigger] es[l],
        decreases edges@.len() - idx,
    {
        idx = idx + 1;
    }
    proof {
        lemma_bin_of_first_above(v as int, es, idx as int);
    }
    idx
}

/// Histograms of a flow's packets: payload lengths, and interarrival times
/// in each direction.
#[derive(Debug)]
pub struct FlowFeatures {
    /// Frequency of payload sizes, by bin
    pub payload_length_freq_bins: Vec<usize>,
    /// Frequency of interarrival times from the client, by bin
    pub interarrival_freq_from_client_bins: Vec<usize>,
    /// Frequency of interarrival times to the client, by bin
    pub interarrival_freq_to_client_bins: Vec<usize>,
}

pub open spec fn features_view(f: FlowFeatures) -> (Seq<usize>, Seq<usize>, Seq<usize>) {
    (
        f.payload_length_freq_bins@,
        f.interarrival_freq_from_client_bins@,
        f.interarrival_freq_to_client_bins@,
    )
}

pub open spec fn zeros(n: nat) -> Seq<usize> {
    Seq::new(n, |i: int| 0usize)
}

/// Bin-wise sums, saturating at `usize::MAX`.
pub open spec fn add_bins(a: Seq<usize>, b: Seq<usize>) -> Seq<usize> {
    Seq::new(
        a.len(),
        |i: int|
            if a[i] + b[i] <= usize::MAX {
                (a[i] + b[i]) as usize
            } else {
                usize::MAX
            },
    )
}

pub open spec fn add_views(
    a: (Seq<usize>, Seq<usize>, Seq<usize>),
    b: (Seq<usize>, Seq<usize>, Seq<usize>),
) -> (Seq<usize>, Seq<usize>, Seq<usize>) {
    (add_bins(a.0, b.0), add_bins(a.1, b.1), add_bins(a.2, b.2))
}

/// The bin counts of two features are the same.
pub open spec fn same_bins(a: FlowFeatures, b: FlowFeatures) -> bool {
    &&& a.payload_length_freq_bins@.len() == b.payload_length_freq_bins@.len()
    &&& a.interarrival_freq_from_client_bins@.len() == b.interarrival_freq_from_client_bins@.len()
    &&& a.interarrival_freq_to_client_bins@.len() == b.interarrival_freq_to_client_bins@.len()
}

impl FlowFeatures {
    /// Calculates flow features from per-packet features.
    ///
    /// A value falls in the first bin whose edge it is below; values at or
    /// above every edge are not counted (add a very large last edge to count
    /// them all). Interarrival times count only for packets of the matching
    /// direction.
    pub fn generate(
        packet_features: &[PacketFeatures],
        payload_length_bin_sizes: &[usize],
        interarrival_from_client_bin_sizes: &[u64],
        interarrival_to_client_bin_sizes: &[u64],
    ) -> (r: Self)
        ensures
            r.payload_length_freq_bins@.len() == payload_length_bin_sizes@.len(),
            r.interarrival_freq_from_client_bins@.len() == interarrival_from_client_bin_sizes@.len(),
            r.interarrival_freq_to_client_bins@.len() == interarrival_to_client_bin_sizes@.len(),
            forall|k: int|
                0 <= k < payload_length_bin_sizes@.len() ==> #[trigger] r.payload_length_freq_bins@[k]
                    == payload_bin_count(packet_features@, usize_edges(payload_length_bin_sizes@), k),
            forall|k: int|
                0 <= k < interarrival_from_client_bin_sizes@.len()
                    ==> #[trigger] r.interarrival_freq_from_client_bins@[k] == iat_bin_count(
                    packet_features@,
                    PacketDirection::FromClient,
                    u64_edges(interarrival_from_client_bin_sizes@),
                    k,
                ),
            forall|k: int|
                0 <= k < interarrival_to_client_bin_sizes@.len()
                    ==> #[trigger] r.interarrival_freq_to_client_bins@[k] == iat_bin_count(
                    packet_features@,
                    PacketDirection::ToClient,
                    u64_edges(interarrival_to_client_bin_sizes@),
                    k,
                ),
    {
        let ghost fs = packet_features@;
        let ghost pe = usize_edges(payload_length_bin_sizes@);
        let ghost fe = u64_edges(interarrival_from_client_bin_sizes@);
        let ghost te = u64_edges(interarrival_to_client_bin_sizes@);
        let mut pl: Vec<usize> = vec![0; payload_length_bin_sizes.len()];
        let mut iaf: Vec<usize> = vec![0; interarrival_from_client_bin_sizes.len()];
        let mut iat: Vec<usize> = vec![0; interarrival_to_client_bin_sizes.len()];
        let mut i: usize = 0;
        while i < packet_features.len()
            invariant
                0 <= i <= fs.len(),
                fs == packet_features@,
                pe == usize_edges(payload_length_bin_sizes@),
                fe == u64_edges(interarrival_from_client_bin_sizes@),
                te == u64_edges(interarrival_to_client_bin_sizes@),
                pl@.len() == payload_length_bin_sizes@.len(),
                iaf@.len() == interarrival_from_client_bin_sizes@.len(),
                iat@.len() == interarrival_to_client_bin_sizes@.len(),
                forall|k: int|
                    0 <= k < pl@.len() ==> #[trigger] pl@[k] == payload_bin_count(
                        fs.subrange(0, i as int),
                        pe,
                        k,
                    ),
                forall|k: int|
                    0 <= k < iaf@.len() ==> #[trigger] iaf@[k] == iat_bin_count(
                        fs.subrange(0, i as int),
                        PacketDirection::FromClient,
                        fe,
                        k,
                    ),
                forall|k: int|
                    0 <= k < iat@.len() ==> #[trigger] iat@[k] == iat_bin_count(
                        fs.subrange(0, i as int),
                        PacketDirection::ToClient,
                        te,
                        k,
                    ),
            decreases fs.len() - i,
        {
            let packet = packet_features[i];
            let ghost prefix = fs.subrange(0, i as int);
            let ghost next = fs.subrange(0, i + 1);
            assert(next.drop_last() =~= prefix);
            assert(next.last() == packet);
            let b = bin_index_usize(packet.payload_length, payload_length_bin_sizes);
            if b < pl.len() {
                proof {
                    lemma_payload_bin_count_bound(prefix, pe, b as int);
                }
                pl[b] = pl[b] + 1;
            }
            if packet.direction == PacketDirection::FromClient {
                let b = bin_index_u64(packet.interarrival_time, interarrival_from_client_bin_sizes);
                if b < iaf.len() {
                    proof {
                        lemma_iat_bin_count_bound(prefix, PacketDirection::FromClient, fe, b as int);
                    }
                    iaf[b] = iaf[b] + 1;
                }
            }
            if packet.direction == PacketDirection::ToClient {
                let b = bin_index_u64(packet.interarrival_time, interarrival_to_client_bin_sizes);
                if b < iat.len() {
                    proof {
                        lemma_iat_bin_count_bound(prefix, PacketDirection::ToClient, te, b as int);
                    }
                    iat[b] = iat[b] + 1;
                }
            }
            i = i + 1;
        }
        assert(fs.subrange(0, fs.len() as int) =~= fs);
        FlowFeatures {
            payload_length_freq_bins: pl,
            interarrival_freq_from_client_bins: iaf,
            interarrival_freq_to_client_bins: iat,
        }
    }

    /// Generates an empty set of flow features, all zeroes.
    pub fn empty(
        num_payload_length_bins: usize,
        num_ia_from_client_bins: usize,
        num_ia_to_client_bins: usize,
    ) -> (r: Self)
        ensures
            features_view(r) == (
                zeros(num_payload_length_bins as nat),
                zeros(num_ia_from_client_bins as nat),
                zeros(num_ia_to_client_bins as nat),
            ),
    {
        let r = FlowFeatures {
            payload_length_freq_bins: vec![0; num_payload_length_bins],
            interarrival_freq_from_client_bins: vec![0; num_ia_from_client_bins],
            interarrival_freq_to_client_bins: vec![0; num_ia_to_client_bins],
        };
        assert(r.payload_length_freq_bins@ =~= zeros(num_payload_length_bins as nat));
        assert(r.interarrival_freq_from_client_bins@ =~= zeros(num_ia_from_client_bins as nat));
        assert(r.interarrival_freq_to_client_bins@ =~= zeros(num_ia_to_client_bins as nat));
        r
    }

    /// Accumulates two flow feature entries with the same bin counts; each
    /// bin's sum saturates at `usize::MAX`.
    pub fn add(self, rhs: Self) -> (r: Self)
        requires
            same_bins(self, rhs),
        ensures
            features_view(r) == add_views(features_view(self), features_view(rhs)),
    {
        FlowFeatures {
            payload_length_freq_bins: add_bin_vecs(
                self.payload_length_freq_bins,
                &rhs.payload_length_freq_bins,
            ),
            interarrival_freq_from_client_bins: add_bin_vecs(
                self.interarrival_freq_from_client_bins,
                &rhs.interarrival_freq_from_client_bins,
            ),
            interarrival_freq_to_client_bins: add_bin_vecs(
                self.interarrival_freq_to_client_bins,
                &rhs.interarrival_freq_to_client_bins,
            ),
        }
    }
}

fn add_bin_vecs(a: Vec<usize>, b: &Vec<usize>) -> (r: Vec<usize>)
    requires
        a@.len() == b@.len(),
    ensures
        r@ == add_bins(a@, b@),
{
    let ghost a0 = a@;
    let mut a = a;
    let mut i: usize = 0;
    while i < b.len()
        invariant
            a0.len() == b@.len(),
            a@.len() == a0.len(),
            0 <= i <= b@.len(),
            forall|k: int| 0 <= k < i ==> #[trigger] a@[k] == add_bins(a0, b@)[k],
            forall|k: int| i <= k < a@.len() ==> #[trigger] a@[k] == a0[k],
        decreases b@.len() - i,
    {
        a[i] = a[i].saturating_add(b[i]);
        i = i + 1;
    }
    assert(a@ =~= add_bins(a0, b@));
    a
}

/// Adding the empty features to any features with the same bin counts gives them back.
pub proof fn lemma_empty_add_identity(x: (Seq<usize>, Seq<usize>, Seq<usize>))
    ensures
        add_views((zeros(x.0.len()), zeros(x.1.len()), zeros(x.2.len())), x) == x,
{
    assert(add_bins(zeros(x.0.len()), x.0) =~= x.0);
    assert(add_bins(zeros(x.1.len()), x.1) =~= x.1);
    assert(add_bins(zeros(x.2.len()), x.2) =~= x.2);
}

/// With strictly ascending edges, a value equal to an edge falls in the next bin.
pub proof fn lemma_edge_value_in_next_bin(edges: Seq<int>, k: int)
    requires
        forall|i: int, j: int| 0 <= i < j < edges.len() ==> edges[i] < edges[j],
        0 <= k < edges.len(),
    ensures
        bin_of(edges[k], edges) == k + 1,
{
    assert forall|l: int| 0 <= l < k + 1 implies edges[k] >= #[trigger] edges[l] by {
        if l < k {
            assert(edges[l] < edges[k]);
        }
    }
    lemma_bin_of_first_above(edges[k], edges, k + 1);
}

/// With the single method `ServerPort(443)`: from the client iff the
/// destination port is 443, to the client iff (otherwise) the source port
/// is 443, else unknown.
pub proof fn lemma_https_server_port_direction(src_port: u16, dst_port: u16)
    ensures
        infer_all(seq![DirectionInferenceMethod::ServerPort(443)], src_port, dst_port) == if dst_port
            == 443 {
            PacketDirection::FromClient
        } else if src_port == 443 {
            PacketDirection::ToClient
        } else {
            PacketDirection::Unknown
        },
{
    let ms = seq![DirectionInferenceMethod::ServerPort(443)];
    assert(ms.drop_first() =~= Seq::<DirectionInferenceMethod>::empty());
    assert(infer_all(ms.drop_first(), src_port, dst_port) == PacketDirection::Unknown);
}

} // verus!
