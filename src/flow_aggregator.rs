use crate::connection::{protocol_code, Connection};
use crate::packet::{strip_spec, IpAddress, Packet, StrippedPacket};
use vstd::multiset::Multiset;
use vstd::prelude::*;

verus! {

broadcast use vstd::seq_lib::group_to_multiset_ensures;

/// Identifies a packet by its endpoints and protocol, independently of its
/// direction. The endpoint with the lower port is stored first.
#[derive(Clone, Copy, Debug, PartialEq, Eq, Structural, Hash)]
pub struct PacketKey {
    pub ip_a: IpAddress,
    pub ip_b: IpAddress,
    pub trans_protocol: u8,
    pub port_a: u16,
    pub port_b: u16,
}

pub open spec fn key_spec(
    ip_a: IpAddress,
    ip_b: IpAddress,
    trans_protocol: u8,
    port_a: u16,
    port_b: u16,
) -> PacketKey {
    if port_a <= port_b {
        PacketKey { ip_a, ip_b, trans_protocol, port_a, port_b }
    } else {
        PacketKey { ip_a: ip_b, ip_b: ip_a, trans_protocol, port_a: port_b, port_b: port_a }
    }
}

pub open spec fn packet_key(p: Packet) -> PacketKey {
    key_spec(p.src_ip, p.dst_ip, p.trans_protocol, p.src_port, p.dst_port)
}

pub open spec fn connection_key(c: Connection) -> PacketKey {
    key_spec(c.orig_ip, c.resp_ip, protocol_code(c.trans_protocol), c.orig_port, c.resp_port)
}

impl PacketKey {
    /// Creates an identification key for a packet or flow: the ip/port pair
    /// with the lower port comes first; on equal ports the arguments' order is kept.
    pub fn new(ip_a: IpAddress, ip_b: IpAddress, trans_protocol: u8, port_a: u16, port_b: u16) -> (r:
        Self)
        ensures
            r == key_spec(ip_a, ip_b, trans_protocol, port_a, port_b),
    {
        if port_a <= port_b {
            PacketKey { ip_a, ip_b, trans_protocol, port_a, port_b }
        } else {
            PacketKey { ip_a: ip_b, ip_b: ip_a, trans_protocol, port_a: port_b, port_b: port_a }
        }
    }

    /// The key of a parsed packet.
    pub fn of_packet(packet: &Packet) -> (r: Self)
        ensures
            r == packet_key(*packet),
    {
        PacketKey::new(
            packet.src_ip,
            packet.dst_ip,
            packet.trans_protocol,
            packet.src_port,
            packet.dst_port,
        )
    }

    /// The key of a connection record.
    pub fn of_connection(connection: &Connection) -> (r: Self)
        ensures
            r == connection_key(*connection),
    {
        PacketKey::new(
            connection.orig_ip,
            connection.resp_ip,
            connection.trans_protocol.code(),
            connection.orig_port,
            connection.resp_port,
        )
    }
}

/// The time during which a flow took place, and the flow's UID.
#[derive(Clone, Debug)]
pub struct FlowPeriod {
    pub start: u64,
    pub end: u64,
    pub id: String,
}

/// End of a connection: start plus duration, clamped to the largest timestamp.
pub open spec fn connection_end(c: Connection) -> u64 {
    if c.timestamp + c.duration <= u64::MAX {
        (c.timestamp + c.duration) as u64
    } else {
        u64::MAX
    }
}

impl FlowPeriod {
    pub fn of_connection(connection: &Connection) -> (r: Self)
        ensures
            r.start == connection.timestamp,
            r.end == connection_end(*connection),
            r.id@ == connection.uid@,
    {
        FlowPeriod {
            start: connection.timestamp,
            end: connection.timestamp.saturating_add(connection.duration),
            id: connection.uid.clone(),
        }
    }
}

/// How a packet's time lies outside a flow period, within the grace periods.
#[derive(Clone, Copy, Debug, PartialEq, Eq, Structural)]
pub enum TimeDifference {
    /// After the end; the value is `end + grace_after - t`.
    After(u64),
    /// Before the start; the value is `t + grace_before - start`.
    Before(u64),
}

pub open spec fn is_exact(p: FlowPeriod, t: u64) -> bool {
    p.start <= t && t <= p.end
}

pub open spec fn time_difference(p: FlowPeriod, t: u64, grace_before: u64, grace_after: u64) -> Option<
    TimeDifference,
> {
    if p.end < t && t < p.end + grace_after {
        Some(TimeDifference::After((p.end + grace_after - t) as u64))
    } else if t < p.start && p.start < t + grace_before {
        Some(TimeDifference::Before((t + grace_before - p.start) as u64))
    } else {
        None
    }
}

/// Candidate order: every `After` precedes every `Before`; within a kind the
/// smaller difference comes first.
pub open spec fn precedes_or_equal(a: TimeDifference, b: TimeDifference) -> bool {
    match (a, b) {
        (TimeDifference::After(x), TimeDifference::After(y)) => x <= y,
        (TimeDifference::Before(x), TimeDifference::Before(y)) => x <= y,
        (TimeDifference::After(_), TimeDifference::Before(_)) => true,
        (TimeDifference::Before(_), TimeDifference::After(_)) => false,
    }
}

pub open spec fn is_candidate(
    periods: Seq<FlowPeriod>,
    t: u64,
    grace_before: u64,
    grace_after: u64,
    i: int,
) -> bool {
    0 <= i < periods.len() && !is_exact(periods[i], t) && time_difference(
        periods[i],
        t,
        grace_before,
        grace_after,
    ).is_some()
}

/// `i` is the first period that contains `t`.
pub open spec fn is_first_exact(periods: Seq<FlowPeriod>, t: u64, i: int) -> bool {
    &&& 0 <= i < periods.len()
    &&& is_exact(periods[i], t)
    &&& forall|j: int| 0 <= j < i ==> !is_exact(#[trigger] periods[j], t)
}

/// `i` is the first of the candidates that precede all others.
pub open spec fn is_best_candidate(
    periods: Seq<FlowPeriod>,
    t: u64,
    grace_before: u64,
    grace_after: u64,
    i: int,
) -> bool {
    &&& is_candidate(periods, t, grace_before, grace_after, i)
    &&& forall|j: int| #[trigger]
        is_candidate(periods, t, grace_before, grace_after, j) ==> precedes_or_equal(
            time_difference(periods[i], t, grace_before, grace_after).unwrap(),
            time_difference(periods[j], t, grace_before, grace_after).unwrap(),
        )
    &&& forall|j: int|
        0 <= j < i && #[trigger] is_candidate(periods, t, grace_before, grace_after, j)
            ==> !precedes_or_equal(
            time_difference(periods[j], t, grace_before, grace_after).unwrap(),
            time_difference(periods[i], t, grace_before, grace_after).unwrap(),
        )
}

/// The period that a packet at time `t` belongs to: the first that contains
/// it; else the best candidate within the grace periods; else none.
pub open spec fn select_period(periods: Seq<FlowPeriod>, t: u64, grace_before: u64, grace_after: u64) -> Option<
    int,
> {
    if exists|i: int| is_exact(periods[i], t) && 0 <= i < periods.len() {
        Some(choose|i: int| is_first_exact(periods, t, i))
    } else if exists|i: int| is_candidate(periods, t, grace_before, grace_after, i) {
        Some(choose|i: int| is_best_candidate(periods, t, grace_before, grace_after, i))
    } else {
        None
    }
}

/// A connection's key and the periods of all connections with that key, in order.
#[derive(Debug)]
pub struct KeyedPeriods {
    pub key: PacketKey,
    pub periods: Vec<FlowPeriod>,
}

/// The packets associated with one flow, in ascending timestamp order.
#[derive(Debug)]
pub struct FlowBucket {
    pub id: String,
    pub packets: Vec<StrippedPacket>,
}

/// The periods of the connections in `conns` whose key is `key`, in order.
pub open spec fn connection_periods(conns: Seq<Connection>, key: PacketKey) -> Seq<(u64, u64, Seq<char>)>
    decreases conns.len(),
{
    if conns.len() == 0 {
        Seq::empty()
    } else {
        let rest = connection_periods(conns.drop_last(), key);
        let c = conns.last();
        if connection_key(c) == key {
            rest.push((c.timestamp, connection_end(c), c.uid@))
        } else {
            rest
        }
    }
}

pub open spec fn period_view(p: FlowPeriod) -> (u64, u64, Seq<char>) {
    (p.start, p.end, p.id@)
}

/// The periods held under `key`, or none.
pub open spec fn periods_of(map: Seq<KeyedPeriods>, key: PacketKey) -> Seq<FlowPeriod> {
    if exists|i: int| 0 <= i < map.len() && #[trigger] map[i].key == key {
        map[choose|i: int| 0 <= i < map.len() && #[trigger] map[i].key == key].periods@
    } else {
        Seq::empty()
    }
}

/// The packets held for flow `id`, or none.
pub open spec fn bucket_of(data: Seq<FlowBucket>, id: Seq<char>) -> Seq<StrippedPacket> {
    if exists|i: int| 0 <= i < data.len() && #[trigger] data[i].id@ == id {
        data[choose|i: int| 0 <= i < data.len() && #[trigger] data[i].id@ == id].packets@
    } else {
        Seq::empty()
    }
}

pub open spec fn is_time_sorted(s: Seq<StrippedPacket>) -> bool {
    forall|i: int, j: int| 0 <= i <= j < s.len() ==> s[i].timestamp <= s[j].timestamp
}

/// Associates packets with flows.
pub struct FlowAggregator {
    /// Packets of each flow, by flow ID
    pub data: Vec<FlowBucket>,
    /// Periods of the connections, by key
    pub connection_map: Vec<KeyedPeriods>,
    /// Time (in ns) by which a packet may precede a flow and still belong to it
    pub grace_period_before: u64,
    /// Time (in ns) by which a packet may follow a flow and still belong to it
    pub grace_period_after: u64,
}

impl FlowAggregator {
    pub open spec fn wf(&self) -> bool {
        &&& forall|i: int, j: int|
            0 <= i < j < self.connection_map@.len() ==> #[trigger] self.connection_map@[i].key
                != #[trigger] self.connection_map@[j].key
        &&& forall|i: int, j: int|
            0 <= i < j < self.data@.len() ==> #[trigger] self.data@[i].id@ != #[trigger] self.data@[j].id@
        &&& forall|i: int|
            0 <= i < self.data@.len() ==> #[trigger] self.data@[i].packets@.len() > 0
                && is_time_sorted(self.data@[i].packets@)
    }

    /// The periods of the connections that share `key`.
    pub open spec fn periods(&self, key: PacketKey) -> Seq<FlowPeriod> {
        periods_of(self.connection_map@, key)
    }

    /// The flow that `p` is assigned to, if any.
    pub open spec fn assignment(&self, p: Packet) -> Option<Seq<char>> {
        let periods = self.periods(packet_key(p));
        match select_period(periods, p.timestamp, self.grace_period_before, self.grace_period_after) {
            Some(i) => Some(periods[i].id@),
            None => None,
        }
    }

    /// The packets of `packets` assigned to flow `id`, stripped.
    pub open spec fn assigned(&self, packets: Seq<Packet>, id: Seq<char>) -> Multiset<StrippedPacket>
        decreases packets.len(),
    {
        if packets.len() == 0 {
            Multiset::empty()
        } else {
            let rest = self.assigned(packets.drop_last(), id);
            if self.assignment(packets.last()) == Some(id) {
                rest.insert(strip_spec(packets.last()))
            } else {
                rest
            }
        }
    }

    /// The packets held for flow `id`.
    pub open spec fn bucket(&self, id: Seq<char>) -> Seq<StrippedPacket> {
        bucket_of(self.data@, id)
    }
}

proof fn lemma_first_exact_unique(periods: Seq<FlowPeriod>, t: u64, a: int, b: int)
    requires
        is_first_exact(periods, t, a),
        is_first_exact(periods, t, b),
    ensures
        a == b,
{
    if a < b {
        assert(!is_exact(periods[a], t));
    } else if b < a {
        assert(!is_exact(periods[b], t));
    }
}

proof fn lemma_best_candidate_unique(
    periods: Seq<FlowPeriod>,
    t: u64,
    grace_before: u64,
    grace_after: u64,
    a: int,
    b: int,
)
    requires
        is_best_candidate(periods, t, grace_before, grace_after, a),
        is_best_candidate(periods, t, grace_before, grace_after, b),
    ensures
        a == b,
{
    if a < b {
        assert(is_candidate(periods, t, grace_before, grace_after, a));
    } else if b < a {
        assert(is_candidate(periods, t, grace_before, grace_after, b));
    }
}

/// The exact period found first decides the selection.
proof fn lemma_select_first_exact(periods: Seq<FlowPeriod>, t: u64, grace_before: u64, grace_after: u64, i: int)
    requires
        is_first_exact(periods, t, i),
    ensures
        select_period(periods, t, grace_before, grace_after) == Some(i),
{
    assert(is_exact(periods[i], t) && 0 <= i < periods.len());
    let c = choose|c: int| is_first_exact(periods, t, c);
    lemma_first_exact_unique(periods, t, c, i);
}

/// Without exact periods, the best candidate decides the selection.
proof fn lemma_select_best_candidate(
    periods: Seq<FlowPeriod>,
    t: u64,
    grace_before: u64,
    grace_after: u64,
    i: int,
)
    requires
        forall|j: int| 0 <= j < periods.len() ==> !is_exact(#[trigger] periods[j], t),
        is_best_candidate(periods, t, grace_before, grace_after, i),
    ensures
        select_period(periods, t, grace_before, grace_after) == Some(i),
{
    assert(is_candidate(periods, t, grace_before, grace_after, i));
    let c = choose|c: int| is_best_candidate(periods, t, grace_before, grace_after, c);
    lemma_best_candidate_unique(periods, t, grace_before, grace_after, c, i);
}

fn time_difference_exec(p: &FlowPeriod, t: u64, grace_before: u64, grace_after: u64) -> (r: Option<
    TimeDifference,
>)
    ensures
        r == time_difference(*p, t, grace_before, grace_after),
{
    if p.end < t && (t as u128) < p.end as u128 + grace_after as u128 {
        Some(TimeDifference::After((p.end as u128 + grace_after as u128 - t as u128) as u64))
    } else if t < p.start && (p.start as u128) < t as u128 + grace_before as u128 {
        Some(TimeDifference::Before((t as u128 + grace_before as u128 - p.start as u128) as u64))
    } else {
        None
    }
}

fn precedes_or_equal_exec(a: TimeDifference, b: TimeDifference) -> (r: bool)
    ensures
        r == precedes_or_equal(a, b),
{
    match (a, b) {
        (TimeDifference::After(x), TimeDifference::After(y)) => x <= y,
        (TimeDifference::Before(x), TimeDifference::Before(y)) => x <= y,
        (TimeDifference::After(_), TimeDifference::Before(_)) => true,
        (TimeDifference::Before(_), TimeDifference::After(_)) => false,
    }
}

/// Index of the period that a packet at time `t` belongs to.
///
/// Candidates outside every period are ordered with all `After` candidates
/// before all `Before` candidates, whatever their magnitudes: a packet seen
/// just past a flow's end far more likely belongs to it than one seen before
/// another flow began.
pub fn select_period_index(periods: &Vec<FlowPeriod>, t: u64, grace_before: u64, grace_after: u64) -> (r:
    Option<usize>)
    ensures
        r matches Some(i) ==> i < periods@.len() && select_period(periods@, t, grace_before, grace_after)
            == Some(i as int),
        r is None ==> select_period(periods@, t, grace_before, grace_after) is None,
{
    let ghost ps = periods@;
    let mut best: Option<(usize, TimeDifference)> = None;
    let mut i: usize = 0;
    while i < periods.len()
        invariant
            ps == periods@,
            0 <= i <= ps.len(),
            forall|j: int| 0 <= j < i ==> !is_exact(#[trigger] ps[j], t),
            best is None ==> forall|j: int|
                0 <= j < i ==> !#[trigger] is_candidate(ps, t, grace_before, grace_after, j),
            best matches Some((b, d)) ==> {
                &&& b < i
                &&& is_candidate(ps, t, grace_before, grace_after, b as int)
                &&& time_difference(ps[b as int], t, grace_before, grace_after) == Some(d)
                &&& forall|j: int|
                    0 <= j < i && #[trigger] is_candidate(ps, t, grace_before, grace_after, j)
                        ==> precedes_or_equal(
                        d,
                        time_difference(ps[j], t, grace_before, grace_after).unwrap(),
                    )
                &&& forall|j: int|
                    0 <= j < b && #[trigger] is_candidate(ps, t, grace_before, grace_after, j)
                        ==> !precedes_or_equal(
                        time_difference(ps[j], t, grace_before, grace_after).unwrap(),
                        d,
                    )
            },
        decreases ps.len() - i,
    {
        let p = &periods[i];
        if p.start <= t && t <= p.end {
            proof {
                lemma_select_first_exact(ps, t, grace_before, grace_after, i as int);
            }
            return Some(i);
        }
        match time_difference_exec(p, t, grace_before, grace_after) {
            Some(d) => {
                match best {
                    None => {
                        best = Some((i, d));
                    },
                    Some((_b, bd)) => {
                        if !precedes_or_equal_exec(bd, d) {
                            best = Some((i, d));
                        }
                    },
                }
            },
            None => {},
        }
        i = i + 1;
    }
    match best {
        Some((b, _d)) => {
            proof {
                lemma_select_best_candidate(ps, t, grace_before, grace_after, b as int);
            }
            Some(b)
        },
        None => None,
    }
}

pub open spec fn periods_view(s: Seq<FlowPeriod>) -> Seq<(u64, u64, Seq<char>)> {
    s.map_values(|p: FlowPeriod| period_view(p))
}

pub open spec fn unique_keys(map: Seq<KeyedPeriods>) -> bool {
    forall|i: int, j: int| 0 <= i < j < map.len() ==> #[trigger] map[i].key != #[trigger] map[j].key
}

pub open spec fn unique_ids(data: Seq<FlowBucket>) -> bool {
    forall|i: int, j: int| 0 <= i < j < data.len() ==> #[trigger] data[i].id@ != #[trigger] data[j].id@
}

proof fn lemma_periods_of_at(map: Seq<KeyedPeriods>, key: PacketKey, j: int)
    requires
        unique_keys(map),
        0 <= j < map.len(),
        map[j].key == key,
    ensures
        periods_of(map, key) == map[j].periods@,
{
    let c = choose|i: int| 0 <= i < map.len() && #[trigger] map[i].key == key;
    if c < j {
        assert(map[c].key != map[j].key);
    } else if j < c {
        assert(map[j].key != map[c].key);
    }
}

proof fn lemma_bucket_of_at(data: Seq<FlowBucket>, id: Seq<char>, j: int)
    requires
        unique_ids(data),
        0 <= j < data.len(),
        data[j].id@ == id,
    ensures
        bucket_of(data, id) == data[j].packets@,
{
    let c = choose|i: int| 0 <= i < data.len() && #[trigger] data[i].id@ == id;
    if c < j {
        assert(data[c].id@ != data[j].id@);
    } else if j < c {
        assert(data[j].id@ != data[c].id@);
    }
}

/// Inserts `x` into a time-sorted sequence after every packet that is not later than it.
fn insert_sorted(v: &mut Vec<StrippedPacket>, x: StrippedPacket)
    requires
        is_time_sorted(old(v)@),
    ensures
        is_time_sorted(final(v)@),
        final(v)@.to_multiset() == old(v)@.to_multiset().insert(x),
        final(v)@.len() == old(v)@.len() + 1,
{
    let ghost s = v@;
    let mut pos: usize = v.len();
    while pos > 0 && v[pos - 1].timestamp > x.timestamp
        invariant
            v@ == s,
            0 <= pos <= s.len(),
            forall|l: int| pos <= l < s.len() ==> #[trigger] s[l].timestamp > x.timestamp,
        decreases pos,
    {
        pos = pos - 1;
    }
    v.insert(pos, x);
    proof {
        let r = v@;
        assert(r == s.insert(pos as int, x));
        s.insert_ensures(pos as int, x);
        assert(r.remove(pos as int) =~= s);
        assert(r[pos as int] == x);
        assert(r.to_multiset().count(x) > 0);
        assert(r.to_multiset() =~= s.to_multiset().insert(x));
        assert forall|i: int, j: int| 0 <= i <= j < r.len() implies r[i].timestamp
            <= r[j].timestamp by {
            if i < pos && j < pos {
                assert(r[i] == s[i] && r[j] == s[j]);
            } else if i < pos && j == pos {
                assert(r[i] == s[i]);
                assert(s[pos - 1].timestamp <= x.timestamp);
            } else if i < pos {
                assert(r[i] == s[i] && r[j] == s[j - 1]);
            } else if i == pos && j > pos {
                assert(r[j] == s[j - 1]);
            } else if i > pos {
                assert(r[i] == s[i - 1] && r[j] == s[j - 1]);
            }
        }
    }
}

impl FlowAggregator {
    /// Creates an aggregator over the given connections.
    ///
    /// * `grace_period_before` - time (in ns) by which a packet may precede a
    ///   flow and still be associated with it
    /// * `grace_period_after` - time (in ns) by which a packet may follow a
    ///   flow and still be associated with it
    pub fn new(connections: Vec<Connection>, grace_period_before: u64, grace_period_after: u64) -> (r:
        Self)
        ensures
            r.wf(),
            r.data@.len() == 0,
            r.grace_period_before == grace_period_before,
            r.grace_period_after == grace_period_after,
            forall|k: PacketKey| #[trigger]
                periods_view(r.periods(k)) == connection_periods(connections@, k),
    {
        let mut map: Vec<KeyedPeriods> = Vec::new();
        let mut i: usize = 0;
        while i < connections.len()
            invariant
                0 <= i <= connections@.len(),
                unique_keys(map@),
                forall|k: PacketKey| #[trigger]
                    periods_view(periods_of(map@, k)) == connection_periods(
                        connections@.subrange(0, i as int),
                        k,
                    ),
            decreases connections@.len() - i,
        {
            let key = PacketKey::of_connection(&connections[i]);
            let period = FlowPeriod::of_connection(&connections[i]);
            let ghost old_map = map@;
            let ghost prefix = connections@.subrange(0, i as int);
            let ghost next = connections@.subrange(0, i + 1);
            assert(next.drop_last() =~= prefix);
            assert(next.last() == connections@[i as int]);
            let mut j: usize = 0;
            while j < map.len() && map[j].key != key
                invariant
                    map@ == old_map,
                    0 <= j <= map@.len(),
                    forall|l: int| 0 <= l < j ==> #[trigger] map@[l].key != key,
                decreases map@.len() - j,
            {
                j = j + 1;
            }
            if j < map.len() {
                map[j].periods.push(period);
                proof {
                    assert(map@.len() == old_map.len());
                    assert forall|l: int| 0 <= l < map@.len() implies #[trigger] map@[l].key
                        == old_map[l].key by {}
                    assert(unique_keys(map@));
                    assert(map@[j as int].periods@ == old_map[j as int].periods@.push(period));
                    assert forall|k: PacketKey| #[trigger]
                        periods_view(periods_of(map@, k)) == connection_periods(next, k) by {
                        assert(periods_view(periods_of(old_map, k)) == connection_periods(prefix, k));
                        if k == key {
                            lemma_periods_of_at(old_map, k, j as int);
                            lemma_periods_of_at(map@, k, j as int);
                            assert(periods_view(periods_of(map@, k)) =~= periods_view(
                                periods_of(old_map, k),
                            ).push(period_view(period)));
                        } else if exists|l: int| 0 <= l < old_map.len() && #[trigger] old_map[l].key == k {
                            let l = choose|l: int| 0 <= l < old_map.len() && #[trigger] old_map[l].key == k;
                            lemma_periods_of_at(old_map, k, l);
                            lemma_periods_of_at(map@, k, l);
                        } else {
                            assert forall|l: int| 0 <= l < map@.len() implies #[trigger] map@[l].key
                                != k by {
                                assert(map@[l].key == old_map[l].key);
                            }
                        }
                    }
                }
            } else {
                let ghost single = period;
                map.push(KeyedPeriods { key, periods: vec![period] });
                proof {
                    assert forall|l: int| 0 <= l < old_map.len() implies #[trigger] map@[l]
                        == old_map[l] by {}
                    assert(map@[old_map.len() as int].key == key);
                    assert forall|a: int, b: int| 0 <= a < b < map@.len() implies #[trigger] map@[a].key
                        != #[trigger] map@[b].key by {
                        if b == old_map.len() {
                            assert(map@[a].key == old_map[a].key);
                        } else {
                            assert(old_map[a].key != old_map[b].key);
                        }
                    }
                    assert(map@[old_map.len() as int].periods@ == seq![single]);
                    assert forall|k: PacketKey| #[trigger]
                        periods_view(periods_of(map@, k)) == connection_periods(next, k) by {
                        assert(periods_view(periods_of(old_map, k)) == connection_periods(prefix, k));
                        if k == key {
                            lemma_periods_of_at(map@, k, old_map.len() as int);
                            assert(periods_of(old_map, k) == Seq::<FlowPeriod>::empty());
                            assert(periods_view(periods_of(map@, k)) =~= periods_view(
                                periods_of(old_map, k),
                            ).push(period_view(single)));
                        } else if exists|l: int| 0 <= l < old_map.len() && #[trigger] old_map[l].key == k {
                            let l = choose|l: int| 0 <= l < old_map.len() && #[trigger] old_map[l].key == k;
                            lemma_periods_of_at(old_map, k, l);
                            lemma_periods_of_at(map@, k, l);
                        } else {
                            assert forall|l: int| 0 <= l < map@.len() implies #[trigger] map@[l].key
                                != k by {
                                if l < old_map.len() {
                                    assert(map@[l].key == old_map[l].key);
                                }
                            }
                        }
                    }
                }
            }
            i = i + 1;
        }
        assert(connections@.subrange(0, connections@.len() as int) =~= connections@);
        FlowAggregator {
            data: Vec::new(),
            connection_map: map,
            grace_period_before,
            grace_period_after,
        }
    }
}

impl FlowAggregator {
    /// Appends `packet` to the bucket of flow `id`, creating the bucket if needed.
    fn add_to_bucket(&mut self, id: String, packet: StrippedPacket)
        requires
            old(self).wf(),
        ensures
            final(self).wf(),
            final(self).connection_map@ == old(self).connection_map@,
            final(self).grace_period_before == old(self).grace_period_before,
            final(self).grace_period_after == old(self).grace_period_after,
            forall|other: Seq<char>| #[trigger]
                final(self).bucket(other).to_multiset() == if other == id@ {
                    old(self).bucket(other).to_multiset().insert(packet)
                } else {
                    old(self).bucket(other).to_multiset()
                },
    {
        let ghost old_data = self.data@;
        let mut k: usize = 0;
        while k < self.data.len() && self.data[k].id != id
            invariant
                self.data@ == old_data,
                0 <= k <= old_data.len(),
                forall|l: int| 0 <= l < k ==> #[trigger] old_data[l].id@ != id@,
            decreases old_data.len() - k,
        {
            k = k + 1;
        }
        if k < self.data.len() {
            assert(old_data[k as int].id@ == id@);
            assert(is_time_sorted(old_data[k as int].packets@));
            insert_sorted(&mut self.data[k].packets, packet);
            proof {
                let data = self.data@;
                assert(data.len() == old_data.len());
                assert forall|l: int| 0 <= l < data.len() && l != k implies #[trigger] data[l]
                    == old_data[l] by {}
                assert(data[k as int].id@ == old_data[k as int].id@);
                assert forall|a: int, b: int| 0 <= a < b < data.len() implies #[trigger] data[a].id@
                    != #[trigger] data[b].id@ by {
                    assert(data[a].id@ == old_data[a].id@ && data[b].id@ == old_data[b].id@);
                }
                assert forall|l: int| 0 <= l < data.len() implies #[trigger] data[l].packets@.len() > 0
                    && is_time_sorted(data[l].packets@) by {
                    if l != k {
                        assert(data[l] == old_data[l]);
                    }
                }
                assert forall|other: Seq<char>| #[trigger]
                    bucket_of(data, other).to_multiset() == if other == id@ {
                        bucket_of(old_data, other).to_multiset().insert(packet)
                    } else {
                        bucket_of(old_data, other).to_multiset()
                    } by {
                    if other == id@ {
                        lemma_bucket_of_at(old_data, other, k as int);
                        lemma_bucket_of_at(data, other, k as int);
                    } else if exists|l: int| 0 <= l < old_data.len() && #[trigger] old_data[l].id@ == other {
                        let l = choose|l: int| 0 <= l < old_data.len() && #[trigger] old_data[l].id@ == other;
                        lemma_bucket_of_at(old_data, other, l);
                        lemma_bucket_of_at(data, other, l);
                    } else {
                        assert forall|l: int| 0 <= l < data.len() implies #[trigger] data[l].id@
                            != other by {
                            assert(data[l].id@ == old_data[l].id@);
                        }
                    }
                }
            }
        } else {
            let ghost gid = id@;
            let packets = vec![packet];
            assert(packets@ == seq![packet]);
            self.data.push(FlowBucket { id, packets });
            proof {
                let data = self.data@;
                let n = old_data.len() as int;
                assert forall|l: int| 0 <= l < n implies #[trigger] data[l] == old_data[l] by {}
                assert(data[n].id@ == gid);
                assert forall|a: int, b: int| 0 <= a < b < data.len() implies #[trigger] data[a].id@
                    != #[trigger] data[b].id@ by {
                    if b == n {
                        assert(data[a].id@ == old_data[a].id@);
                    } else {
                        assert(old_data[a].id@ != old_data[b].id@);
                    }
                }
                assert forall|l: int| 0 <= l < data.len() implies #[trigger] data[l].packets@.len() > 0
                    && is_time_sorted(data[l].packets@) by {
                    if l < n {
                        assert(data[l] == old_data[l]);
                    }
                }
                assert(seq![packet].to_multiset() =~= Multiset::<StrippedPacket>::empty().insert(packet)) by {
                    assert(seq![packet] =~= Seq::<StrippedPacket>::empty().push(packet));
                }
                assert forall|other: Seq<char>| #[trigger]
                    bucket_of(data, other).to_multiset() == if other == gid {
                        bucket_of(old_data, other).to_multiset().insert(packet)
                    } else {
                        bucket_of(old_data, other).to_multiset()
                    } by {
                    if other == gid {
                        lemma_bucket_of_at(data, other, n);
                        assert(bucket_of(old_data, other) == Seq::<StrippedPacket>::empty());
                        assert(Seq::<StrippedPacket>::empty().to_multiset() =~= Multiset::empty());
                    } else if exists|l: int| 0 <= l < old_data.len() && #[trigger] old_data[l].id@ == other {
                        let l = choose|l: int| 0 <= l < old_data.len() && #[trigger] old_data[l].id@ == other;
                        lemma_bucket_of_at(old_data, other, l);
                        lemma_bucket_of_at(data, other, l);
                    } else {
                        assert forall|l: int| 0 <= l < data.len() implies #[trigger] data[l].id@
                            != other by {
                            if l < n {
                                assert(data[l].id@ == old_data[l].id@);
                            }
                        }
                    }
                }
            }
        }
    }

    /// Associates each packet with at most one flow and files it, stripped,
    /// in that flow's bucket. Packets without a matching connection, or
    /// outside every period and grace period of their key, are dropped.
    /// Every bucket stays in ascending timestamp order.
    pub fn load_packets(&mut self, packets: Vec<Packet>)
        requires
            old(self).wf(),
        ensures
            final(self).wf(),
            final(self).connection_map@ == old(self).connection_map@,
            final(self).grace_period_before == old(self).grace_period_before,
            final(self).grace_period_after == old(self).grace_period_after,
            forall|id: Seq<char>| #[trigger]
                final(self).bucket(id).to_multiset() == old(self).bucket(id).to_multiset().add(
                    old(self).assigned(packets@, id),
                ),
            forall|i: int|
                0 <= i < final(self).data@.len() ==> is_time_sorted(
                    #[trigger] final(self).data@[i].packets@,
                ),
    {
        let ghost start = *self;
        let mut i: usize = 0;
        while i < packets.len()
            invariant
                0 <= i <= packets@.len(),
                self.wf(),
                self.connection_map@ == start.connection_map@,
                self.grace_period_before == start.grace_period_before,
                self.grace_period_after == start.grace_period_after,
                forall|id: Seq<char>| #[trigger]
                    self.bucket(id).to_multiset() == start.bucket(id).to_multiset().add(
                        start.assigned(packets@.subrange(0, i as int), id),
                    ),
            decreases packets@.len() - i,
        {
            let packet = packets[i];
            let ghost prefix = packets@.subrange(0, i as int);
            let ghost next = packets@.subrange(0, i + 1);
            assert(next.drop_last() =~= prefix);
            assert(next.last() == packet);
            let ghost before = *self;
            let key = PacketKey::of_packet(&packet);
            let mut j: usize = 0;
            while j < self.connection_map.len() && self.connection_map[j].key != key
                invariant
                    self.connection_map@ == start.connection_map@,
                    0 <= j <= self.connection_map@.len(),
                    forall|l: int| 0 <= l < j ==> #[trigger] self.connection_map@[l].key != key,
                decreases self.connection_map@.len() - j,
            {
                j = j + 1;
            }
            let mut assigned_id: Option<String> = None;
            if j < self.connection_map.len() {
                proof {
                    lemma_periods_of_at(self.connection_map@, key, j as int);
                }
                let periods = &self.connection_map[j].periods;
                match select_period_index(
                    periods,
                    packet.timestamp,
                    self.grace_period_before,
                    self.grace_period_after,
                ) {
                    Some(pi) => {
                        assigned_id = Some(periods[pi].id.clone());
                    },
                    None => {},
                }
            } else {
                assert(periods_of(self.connection_map@, key) =~= Seq::<FlowPeriod>::empty());
                assert(select_period(
                    Seq::<FlowPeriod>::empty(),
                    packet.timestamp,
                    self.grace_period_before,
                    self.grace_period_after,
                ) is None);
            }
            assert(assigned_id matches Some(s) ==> start.assignment(packet) == Some(s@));
            assert(assigned_id is None ==> start.assignment(packet) is None);
            match assigned_id {
                Some(id) => {
                    let ghost gid = id@;
                    self.add_to_bucket(id, packet.strip());
                    proof {
                        assert forall|other: Seq<char>| #[trigger]
                            self.bucket(other).to_multiset() == start.bucket(other).to_multiset().add(
                                start.assigned(next, other),
                            ) by {
                            assert(before.bucket(other).to_multiset() == start.bucket(
                                other,
                            ).to_multiset().add(start.assigned(prefix, other)));
                            if other == gid {
                                assert(self.bucket(other).to_multiset() =~= start.bucket(
                                    other,
                                ).to_multiset().add(start.assigned(next, other)));
                            }
                        }
                    }
                },
                None => {
                    proof {
                        assert forall|other: Seq<char>| #[trigger]
                            self.bucket(other).to_multiset() == start.bucket(other).to_multiset().add(
                                start.assigned(next, other),
                            ) by {
                            assert(before.bucket(other).to_multiset() == start.bucket(
                                other,
                            ).to_multiset().add(start.assigned(prefix, other)));
                        }
                    }
                },
            }
            i = i + 1;
        }
        assert(packets@.subrange(0, packets@.len() as int) =~= packets@);
    }

    /// Consumes the aggregator and returns the flows' buckets.
    pub fn into_aggregated_flows(self) -> (r: Vec<FlowBucket>)
        ensures
            r@ == self.data@,
    {
        self.data
    }
}

/// Among the first `n` periods, if any is a candidate, one is the first of
/// those that precede all others.
proof fn lemma_best_candidate_exists(
    periods: Seq<FlowPeriod>,
    t: u64,
    grace_before: u64,
    grace_after: u64,
    n: int,
) -> (b: int)
    requires
        0 <= n <= periods.len(),
        exists|j: int| 0 <= j < n && #[trigger] is_candidate(periods, t, grace_before, grace_after, j),
    ensures
        0 <= b < n,
        is_candidate(periods, t, grace_before, grace_after, b),
        forall|j: int|
            0 <= j < n && #[trigger] is_candidate(periods, t, grace_before, grace_after, j)
                ==> precedes_or_equal(
                time_difference(periods[b], t, grace_before, grace_after).unwrap(),
                time_difference(periods[j], t, grace_before, grace_after).unwrap(),
            ),
        forall|j: int|
            0 <= j < b && #[trigger] is_candidate(periods, t, grace_before, grace_after, j)
                ==> !precedes_or_equal(
                time_difference(periods[j], t, grace_before, grace_after).unwrap(),
                time_difference(periods[b], t, grace_before, grace_after).unwrap(),
            ),
    decreases n,
{
    let last = n - 1;
    if exists|j: int| 0 <= j < last && #[trigger] is_candidate(periods, t, grace_before, grace_after, j) {
        let b0 = lemma_best_candidate_exists(periods, t, grace_before, grace_after, last);
        if is_candidate(periods, t, grace_before, grace_after, last) && !precedes_or_equal(
            time_difference(periods[b0], t, grace_before, grace_after).unwrap(),
            time_difference(periods[last], t, grace_before, grace_after).unwrap(),
        ) {
            last
        } else {
            b0
        }
    } else {
        last
    }
}

/// A packet whose time lies in exactly one period of its key belongs to that period's flow.
pub proof fn lemma_single_window_assigned(agg: FlowAggregator, p: Packet, i: int)
    requires
        0 <= i < agg.periods(packet_key(p)).len(),
        is_exact(agg.periods(packet_key(p))[i], p.timestamp),
        forall|j: int|
            0 <= j < agg.periods(packet_key(p)).len() && j != i ==> !is_exact(
                #[trigger] agg.periods(packet_key(p))[j],
                p.timestamp,
            ),
    ensures
        agg.assignment(p) == Some(agg.periods(packet_key(p))[i].id@),
{
    lemma_select_first_exact(
        agg.periods(packet_key(p)),
        p.timestamp,
        agg.grace_period_before,
        agg.grace_period_after,
        i,
    );
}

/// A packet in no period of its key, but within the grace period after one
/// of them, goes to a period that it follows, never to one that it precedes.
pub proof fn lemma_after_preferred_over_before(
    periods: Seq<FlowPeriod>,
    t: u64,
    grace_before: u64,
    grace_after: u64,
    i: int,
)
    requires
        forall|j: int| 0 <= j < periods.len() ==> !is_exact(#[trigger] periods[j], t),
        0 <= i < periods.len(),
        periods[i].end < t < periods[i].end + grace_after,
    ensures
        select_period(periods, t, grace_before, grace_after) matches Some(s) && time_difference(
            periods[s],
            t,
            grace_before,
            grace_after,
        ) matches Some(TimeDifference::After(_)),
{
    assert(is_candidate(periods, t, grace_before, grace_after, i));
    let b = lemma_best_candidate_exists(periods, t, grace_before, grace_after, periods.len() as int);
    lemma_select_best_candidate(periods, t, grace_before, grace_after, b);
}

/// Of two periods that a packet follows within the grace period, the one
/// with the larger `(end + grace_after) - t` is never selected.
pub proof fn lemma_after_candidates_by_remaining_grace(
    periods: Seq<FlowPeriod>,
    t: u64,
    grace_before: u64,
    grace_after: u64,
    i: int,
    j: int,
)
    requires
        forall|k: int| 0 <= k < periods.len() ==> !is_exact(#[trigger] periods[k], t),
        0 <= i < periods.len(),
        0 <= j < periods.len(),
        periods[i].end < t < periods[i].end + grace_after,
        periods[j].end < t < periods[j].end + grace_after,
        periods[i].end + grace_after - t < periods[j].end + grace_after - t,
    ensures
        select_period(periods, t, grace_before, grace_after) != Some(j),
{
    assert(is_candidate(periods, t, grace_before, grace_after, i));
    assert(is_candidate(periods, t, grace_before, grace_after, j));
    let b = lemma_best_candidate_exists(periods, t, grace_before, grace_after, periods.len() as int);
    lemma_select_best_candidate(periods, t, grace_before, grace_after, b);
}

/// A packet whose key matches no connection is dropped: it adds to no bucket.
pub proof fn lemma_unmatched_packet_dropped(
    agg: FlowAggregator,
    packets: Seq<Packet>,
    p: Packet,
    id: Seq<char>,
)
    requires
        agg.periods(packet_key(p)).len() == 0,
    ensures
        agg.assignment(p) is None,
        agg.assigned(packets.push(p), id) == agg.assigned(packets, id),
{
    assert(packets.push(p).drop_last() =~= packets);
}

/// A key does not depend on the direction of the packet, when the ports
/// differ; its first endpoint always has the lesser port, and equal ports
/// keep the arguments' order.
pub proof fn lemma_key_direction_agnostic(
    a: IpAddress,
    b: IpAddress,
    proto: u8,
    port_a: u16,
    port_b: u16,
)
    ensures
        port_a != port_b ==> key_spec(a, b, proto, port_a, port_b) == key_spec(
            b,
            a,
            proto,
            port_b,
            port_a,
        ),
        key_spec(a, b, proto, port_a, port_b).port_a <= key_spec(a, b, proto, port_a, port_b).port_b,
        port_a == port_b ==> key_spec(a, b, proto, port_a, port_b) == (PacketKey {
            ip_a: a,
            ip_b: b,
            trans_protocol: proto,
            port_a,
            port_b,
        }),
{
}

} // verus!
