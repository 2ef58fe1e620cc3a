use vstd::prelude::*;

verus! {

/// The header before each record of a capture file.
#[derive(Clone, Copy, Debug, PartialEq, Eq, Structural)]
pub struct PcapRecordHeader {
    /// Timestamp seconds
    pub ts_sec: u32,
    /// Timestamp fraction: microseconds, or nanoseconds in a nanosecond-resolution file
    pub ts_usec: u32,
    /// Number of octets of the packet saved in the file
    pub incl_len: u32,
    /// Actual length of the packet
    pub orig_len: u32,
}

/// A record's timestamp in nanoseconds.
pub open spec fn time_as_nanos(header: PcapRecordHeader, is_nanosecond_res: bool) -> int {
    header.ts_sec as int * 1_000_000_000 + if is_nanosecond_res {
        header.ts_usec as int
    } else {
        header.ts_usec as int * 1000
    }
}

impl PcapRecordHeader {
    /// Returns the timestamp as nanoseconds.
    pub fn get_time_as_nanos(&self, is_nanosecond_res: bool) -> (r: u64)
        ensures
            r == time_as_nanos(*self, is_nanosecond_res),
    {
        let secs = self.ts_sec as u64;
        let frac = self.ts_usec as u64;
        assert(secs * 1_000_000_000 <= 4_294_967_295 * 1_000_000_000) by (nonlinear_arith)
            requires
                secs <= 4_294_967_295,
        ;
        secs * 1_000_000_000 + if is_nanosecond_res {
            frac
        } else {
            frac * 1000
        }
    }
}

/// A header/data pair.
#[derive(Debug)]
pub struct PcapRecord {
    /// The record's header
    pub header: PcapRecordHeader,
    /// The record's captured bytes
    pub data: Vec<u8>,
}

/// Byte order of a capture file.
#[derive(Clone, Copy, Debug, PartialEq, Eq, Structural)]
pub enum ByteOrder {
    Little,
    Big,
}

/// Why a capture file could not be read.
#[derive(Clone, Copy, Debug, PartialEq, Eq, Structural)]
pub enum PcapError {
    /// The magic number is none of the four known ones
    InvalidFormat,
    /// The file ends inside its header
    TruncatedHeader,
    /// The file ends inside a record
    TruncatedRecord,
}

/// The global header of a capture file.
#[derive(Clone, Copy, Debug, PartialEq, Eq, Structural)]
pub struct PcapHeader {
    pub byte_order: ByteOrder,
    pub is_nanosecond_res: bool,
    pub version_major: u16,
    pub version_minor: u16,
    pub thiszone: i32,
    pub sigfigs: u32,
    pub snaplen: u32,
    pub network: u32,
}

pub const MAGIC_MICROS: u32 = 0xA1B2C3D4;

pub const MAGIC_NANOS: u32 = 0xA1B23C4D;

pub const GLOBAL_HEADER_LEN: usize = 24;

pub const RECORD_HEADER_LEN: usize = 16;

#[verifier::opaque]
pub open spec fn u16_at(b: Seq<u8>, i: int, order: ByteOrder) -> nat {
    match order {
        ByteOrder::Little => (b[i] + b[i + 1] * 256) as nat,
        ByteOrder::Big => (b[i] * 256 + b[i + 1]) as nat,
    }
}

#[verifier::opaque]
pub open spec fn u32_at(b: Seq<u8>, i: int, order: ByteOrder) -> nat {
    match order {
        ByteOrder::Little => (b[i] + b[i + 1] * 256 + b[i + 2] * 65536 + b[i + 3] * 16777216) as nat,
        ByteOrder::Big => (b[i] * 16777216 + b[i + 1] * 65536 + b[i + 2] * 256 + b[i + 3]) as nat,
    }
}

/// Byte order and timestamp resolution that the first four bytes announce.
pub open spec fn magic_spec(b: Seq<u8>) -> Option<(ByteOrder, bool)> {
    if u32_at(b, 0, ByteOrder::Little) == MAGIC_MICROS {
        Some((ByteOrder::Little, false))
    } else if u32_at(b, 0, ByteOrder::Big) == MAGIC_MICROS {
        Some((ByteOrder::Big, false))
    } else if u32_at(b, 0, ByteOrder::Little) == MAGIC_NANOS {
        Some((ByteOrder::Little, true))
    } else if u32_at(b, 0, ByteOrder::Big) == MAGIC_NANOS {
        Some((ByteOrder::Big, true))
    } else {
        None
    }
}

pub open spec fn header_spec(b: Seq<u8>) -> Result<PcapHeader, PcapError> {
    if b.len() < 4 {
        Err(PcapError::TruncatedHeader)
    } else {
        match magic_spec(b) {
            None => Err(PcapError::InvalidFormat),
            Some((order, nanos)) => if b.len() < GLOBAL_HEADER_LEN {
                Err(PcapError::TruncatedHeader)
            } else {
                Ok(
                    PcapHeader {
                        byte_order: order,
                        is_nanosecond_res: nanos,
                        version_major: u16_at(b, 4, order) as u16,
                        version_minor: u16_at(b, 6, order) as u16,
                        thiszone: #[verifier::truncate] (u32_at(b, 8, order) as i32),
                        sigfigs: u32_at(b, 12, order) as u32,
                        snaplen: u32_at(b, 16, order) as u32,
                        network: u32_at(b, 20, order) as u32,
                    },
                )
            },
        }
    }
}

pub open spec fn record_header_at(b: Seq<u8>, pos: int, order: ByteOrder) -> PcapRecordHeader {
    PcapRecordHeader {
        ts_sec: u32_at(b, pos, order) as u32,
        ts_usec: u32_at(b, pos + 4, order) as u32,
        incl_len: u32_at(b, pos + 8, order) as u32,
        orig_len: u32_at(b, pos + 12, order) as u32,
    }
}

/// The record that starts at `pos`, with the position after it; none at the
/// end of the file.
pub open spec fn next_record_spec(b: Seq<u8>, pos: int, order: ByteOrder) -> Option<
    Result<(PcapRecordHeader, Seq<u8>, int), PcapError>,
> {
    if pos >= b.len() {
        None
    } else if pos + RECORD_HEADER_LEN > b.len() {
        Some(Err(PcapError::TruncatedRecord))
    } else {
        let h = record_header_at(b, pos, order);
        let end = pos + RECORD_HEADER_LEN + h.incl_len;
        if end > b.len() {
            Some(Err(PcapError::TruncatedRecord))
        } else {
            Some(Ok((h, b.subrange(pos + RECORD_HEADER_LEN, end), end)))
        }
    }
}

/// All records from `pos` to the end of the file.
pub open spec fn records_from(b: Seq<u8>, pos: int, order: ByteOrder) -> Result<
    Seq<(PcapRecordHeader, Seq<u8>)>,
    PcapError,
>
    decreases b.len() - pos,
{
    match next_record_spec(b, pos, order) {
        None => Ok(Seq::empty()),
        Some(Err(e)) => Err(e),
        Some(Ok((h, d, next))) => if next <= pos {
            Ok(Seq::empty())
        } else {
            match records_from(b, next, order) {
                Ok(rest) => Ok(seq![(h, d)] + rest),
                Err(e) => Err(e),
            }
        },
    }
}

/// The records of a whole capture file.
pub open spec fn pcap_records(b: Seq<u8>) -> Result<Seq<(PcapRecordHeader, Seq<u8>)>, PcapError> {
    match header_spec(b) {
        Err(e) => Err(e),
        Ok(h) => records_from(b, GLOBAL_HEADER_LEN as int, h.byte_order),
    }
}

pub open spec fn record_view(r: PcapRecord) -> (PcapRecordHeader, Seq<u8>) {
    (r.header, r.data@)
}

pub open spec fn records_view(v: Seq<PcapRecord>) -> Seq<(PcapRecordHeader, Seq<u8>)> {
    v.map_values(|x: PcapRecord| record_view(x))
}

fn read_u16(b: &[u8], i: usize, order: ByteOrder) -> (r: u16)
    requires
        i + 2 <= b@.len(),
    ensures
        r == u16_at(b@, i as int, order),
{
    proof {
        reveal(u16_at);
    }
    let b0 = b[i] as u16;
    let b1 = b[i + 1] as u16;
    match order {
        ByteOrder::Little => b0 + b1 * 256,
        ByteOrder::Big => b0 * 256 + b1,
    }
}

fn read_u32(b: &[u8], i: usize, order: ByteOrder) -> (r: u32)
    requires
        i + 4 <= b@.len(),
    ensures
        r == u32_at(b@, i as int, order),
{
    proof {
        reveal(u32_at);
    }
    let b0 = b[i] as u32;
    let b1 = b[i + 1] as u32;
    let b2 = b[i + 2] as u32;
    let b3 = b[i + 3] as u32;
    match order {
        ByteOrder::Little => b0 + b1 * 256 + b2 * 65536 + b3 * 16777216,
        ByteOrder::Big => b0 * 16777216 + b1 * 65536 + b2 * 256 + b3,
    }
}

/// Reads the records of a classic capture file one at a time.
pub struct PcapReader2 {
    /// The file's global header
    pub header: PcapHeader,
    /// The file's bytes
    pub data: Vec<u8>,
    /// Where the next record starts
    pub offset: usize,
    /// Set once a record could not be read
    pub failed: bool,
}

impl PcapReader2 {
    /// Decodes the global header of a capture file.
    pub fn from_bytes(data: Vec<u8>) -> (r: Result<Self, PcapError>)
        ensures
            match r {
                Ok(reader) => header_spec(data@) == Ok::<PcapHeader, PcapError>(reader.header)
                    && reader.data@ == data@ && reader.offset == GLOBAL_HEADER_LEN && !reader.failed,
                Err(e) => header_spec(data@) == Err::<PcapHeader, PcapError>(e),
            },
    {
        if data.len() < 4 {
            return Err(PcapError::TruncatedHeader);
        }
        let slice = data.as_slice();
        let le = read_u32(slice, 0, ByteOrder::Little);
        let be = read_u32(slice, 0, ByteOrder::Big);
        let (order, nanos) = if le == MAGIC_MICROS {
            (ByteOrder::Little, false)
        } else if be == MAGIC_MICROS {
            (ByteOrder::Big, false)
        } else if le == MAGIC_NANOS {
            (ByteOrder::Little, true)
        } else if be == MAGIC_NANOS {
            (ByteOrder::Big, true)
        } else {
            return Err(PcapError::InvalidFormat);
        };
        if data.len() < GLOBAL_HEADER_LEN {
            return Err(PcapError::TruncatedHeader);
        }
        let header = PcapHeader {
            byte_order: order,
            is_nanosecond_res: nanos,
            version_major: read_u16(slice, 4, order),
            version_minor: read_u16(slice, 6, order),
            thiszone: read_u32(slice, 8, order) as i32,
            sigfigs: read_u32(slice, 12, order),
            snaplen: read_u32(slice, 16, order),
            network: read_u32(slice, 20, order),
        };
        Ok(PcapReader2 { header, data, offset: GLOBAL_HEADER_LEN, failed: false })
    }

    /// Whether records are timestamped in nanoseconds rather than microseconds.
    pub fn is_nanosecond_res(&self) -> (r: bool)
        ensures
            r == self.header.is_nanosecond_res,
    {
        self.header.is_nanosecond_res
    }

    /// Decodes the next record. After the last record, and after a record
    /// that could not be read, there are none.
    pub fn next_record(&mut self) -> (r: Option<Result<PcapRecord, PcapError>>)
        ensures
            final(self).header == old(self).header,
            final(self).data@ == old(self).data@,
            old(self).failed ==> r is None && final(self).failed,
            !old(self).failed ==> match next_record_spec(
                old(self).data@,
                old(self).offset as int,
                old(self).header.byte_order,
            ) {
                None => r is None && final(self).failed,
                Some(Err(e)) => r == Some(Err::<PcapRecord, PcapError>(e)) && final(self).failed,
                Some(Ok((h, d, next))) => r matches Some(Ok(rec)) && rec.header == h && rec.data@
                    == d && final(self).offset == next && !final(self).failed,
            },
    {
        if self.failed || self.offset >= self.data.len() {
            self.failed = true;
            return None;
        }
        let order = self.header.byte_order;
        let pos = self.offset;
        if self.data.len() - pos < RECORD_HEADER_LEN {
            self.failed = true;
            return Some(Err(PcapError::TruncatedRecord));
        }
        let slice = self.data.as_slice();
        let header = PcapRecordHeader {
            ts_sec: read_u32(slice, pos, order),
            ts_usec: read_u32(slice, pos + 4, order),
            incl_len: read_u32(slice, pos + 8, order),
            orig_len: read_u32(slice, pos + 12, order),
        };
        let start = pos + RECORD_HEADER_LEN;
        if header.incl_len as usize > self.data.len() - start {
            self.failed = true;
            return Some(Err(PcapError::TruncatedRecord));
        }
        let end = start + header.incl_len as usize;
        let mut data: Vec<u8> = Vec::with_capacity(header.incl_len as usize);
        let mut k: usize = start;
        while k < end
            invariant
                start <= k <= end <= slice@.len(),
                data@ == slice@.subrange(start as int, k as int),
            decreases end - k,
        {
            data.push(slice[k]);
            k = k + 1;
        }
        self.offset = end;
        Some(Ok(PcapRecord { header, data }))
    }

    /// Decodes all remaining records; fails if any of them cannot be read.
    pub fn read_all(&mut self) -> (r: Result<Vec<PcapRecord>, PcapError>)
        requires
            !old(self).failed,
        ensures
            match records_from(old(self).data@, old(self).offset as int, old(self).header.byte_order) {
                Ok(recs) => r matches Ok(v) && records_view(v@) == recs,
                Err(e) => r == Err::<Vec<PcapRecord>, PcapError>(e),
            },
    {
        let ghost b = self.data@;
        let ghost order = self.header.byte_order;
        let ghost start = self.offset as int;
        let mut out: Vec<PcapRecord> = Vec::new();
        loop
            invariant
                b == old(self).data@,
                start == old(self).offset,
                order == old(self).header.byte_order,
                self.data@ == b,
                self.header.byte_order == order,
                !self.failed,
                records_from(b, start, order) == match records_from(b, self.offset as int, order) {
                    Ok(rest) => Ok(records_view(out@) + rest),
                    Err(e) => Err(e),
                },
            decreases b.len() - self.offset,
        {
            let ghost pos = self.offset as int;
            let ghost prev = records_view(out@);
            match self.next_record() {
                None => {
                    assert(records_from(b, pos, order) == Ok::<Seq<(PcapRecordHeader, Seq<u8>)>, PcapError>(Seq::empty()));
                    assert(prev + Seq::<(PcapRecordHeader, Seq<u8>)>::empty() =~= prev);
                    assert(records_from(b, start, order) == Ok::<Seq<(PcapRecordHeader, Seq<u8>)>, PcapError>(records_view(out@)));
                    return Ok(out);
                },
                Some(Err(e)) => {
                    assert(records_from(b, pos, order) == Err::<Seq<(PcapRecordHeader, Seq<u8>)>, PcapError>(e));
                    assert(records_from(b, start, order) == Err::<Seq<(PcapRecordHeader, Seq<u8>)>, PcapError>(e));
                    return Err(e);
                },
                Some(Ok(rec)) => {
                    let ghost rv = record_view(rec);
                    out.push(rec);
                    proof {
                        let now = records_view(out@);
                        assert(now =~= prev.push(rv));
                        match records_from(b, self.offset as int, order) {
                            Ok(rest) => {
                                assert(prev + (seq![rv] + rest) =~= now + rest);
                            },
                            Err(_) => {},
                        }
                    }
                },
            }
        }
    }
}

/// The four bytes of `v` in byte order `order`.
pub open spec fn u32_bytes(v: u32, order: ByteOrder) -> Seq<u8> {
    let b0 = (v % 256) as u8;
    let b1 = ((v / 256) % 256) as u8;
    let b2 = ((v / 65536) % 256) as u8;
    let b3 = (v / 16777216) as u8;
    match order {
        ByteOrder::Little => seq![b0, b1, b2, b3],
        ByteOrder::Big => seq![b3, b2, b1, b0],
    }
}

/// The two bytes of `v` in byte order `order`.
pub open spec fn u16_bytes(v: u16, order: ByteOrder) -> Seq<u8> {
    let b0 = (v % 256) as u8;
    let b1 = (v / 256) as u8;
    match order {
        ByteOrder::Little => seq![b0, b1],
        ByteOrder::Big => seq![b1, b0],
    }
}

/// The global header of a capture file with header `h`.
pub open spec fn header_bytes(h: PcapHeader) -> Seq<u8> {
    let o = h.byte_order;
    u32_bytes(
        if h.is_nanosecond_res {
            MAGIC_NANOS
        } else {
            MAGIC_MICROS
        },
        o,
    ) + u16_bytes(h.version_major, o) + u16_bytes(h.version_minor, o) + u32_bytes(
        #[verifier::truncate] (h.thiszone as u32),
        o,
    ) + u32_bytes(h.sigfigs, o) + u32_bytes(h.snaplen, o) + u32_bytes(h.network, o)
}

/// One record of a capture file: its header, then its data.
pub open spec fn record_bytes(r: (PcapRecordHeader, Seq<u8>), o: ByteOrder) -> Seq<u8> {
    u32_bytes(r.0.ts_sec, o) + u32_bytes(r.0.ts_usec, o) + u32_bytes(r.0.incl_len, o) + u32_bytes(
        r.0.orig_len,
        o,
    ) + r.1
}

/// Records laid out one after another.
pub open spec fn records_bytes(recs: Seq<(PcapRecordHeader, Seq<u8>)>, o: ByteOrder) -> Seq<u8>
    decreases recs.len(),
{
    if recs.len() == 0 {
        Seq::empty()
    } else {
        record_bytes(recs[0], o) + records_bytes(recs.drop_first(), o)
    }
}

proof fn lemma_u32_digits(v: u32)
    ensures
        (v % 256) + ((v / 256) % 256) * 256 + ((v / 65536) % 256) * 65536 + (v / 16777216) * 16777216
            == v,
        v / 16777216 < 256,
{
    let x = v as int;
    vstd::arithmetic::div_mod::lemma_fundamental_div_mod(x, 256);
    vstd::arithmetic::div_mod::lemma_fundamental_div_mod(x / 256, 256);
    vstd::arithmetic::div_mod::lemma_fundamental_div_mod(x / 65536, 256);
    vstd::arithmetic::div_mod::lemma_div_denominator(x, 256, 256);
    vstd::arithmetic::div_mod::lemma_div_denominator(x, 65536, 256);
}

proof fn lemma_u16_digits(v: u16)
    ensures
        (v % 256) + (v / 256) * 256 == v,
        v / 256 < 256,
{
    vstd::arithmetic::div_mod::lemma_fundamental_div_mod(v as int, 256);
}

proof fn lemma_read_u32(b: Seq<u8>, i: int, v: u32, o: ByteOrder)
    requires
        0 <= i,
        i + 4 <= b.len(),
        forall|k: int| 0 <= k < 4 ==> b[i + k] == #[trigger] u32_bytes(v, o)[k],
    ensures
        u32_at(b, i, o) == v,
{
    reveal(u32_at);
    lemma_u32_digits(v);
    assert(b[i] == u32_bytes(v, o)[0]);
    assert(b[i + 1] == u32_bytes(v, o)[1]);
    assert(b[i + 2] == u32_bytes(v, o)[2]);
    assert(b[i + 3] == u32_bytes(v, o)[3]);
}

proof fn lemma_read_u16(b: Seq<u8>, i: int, v: u16, o: ByteOrder)
    requires
        0 <= i,
        i + 2 <= b.len(),
        forall|k: int| 0 <= k < 2 ==> b[i + k] == #[trigger] u16_bytes(v, o)[k],
    ensures
        u16_at(b, i, o) == v,
{
    reveal(u16_at);
    lemma_u16_digits(v);
    assert(b[i] == u16_bytes(v, o)[0]);
    assert(b[i + 1] == u16_bytes(v, o)[1]);
}

/// Reading the fixed fields of a record laid out at `n`.
proof fn lemma_record_at(b: Seq<u8>, n: int, r: (PcapRecordHeader, Seq<u8>), o: ByteOrder)
    requires
        0 <= n,
        n + record_bytes(r, o).len() <= b.len(),
        forall|k: int|
            0 <= k < record_bytes(r, o).len() ==> b[n + k] == #[trigger] record_bytes(r, o)[k],
    ensures
        record_header_at(b, n, o) == r.0,
        b.subrange(n + 16, n + 16 + r.1.len()) == r.1,
        record_bytes(r, o).len() == 16 + r.1.len(),
{
    let rb = record_bytes(r, o);
    let s0 = u32_bytes(r.0.ts_sec, o);
    let s1 = u32_bytes(r.0.ts_usec, o);
    let s2 = u32_bytes(r.0.incl_len, o);
    let s3 = u32_bytes(r.0.orig_len, o);
    assert(rb == s0 + s1 + s2 + s3 + r.1);
    assert forall|k: int| 0 <= k < 4 implies b[n + k] == #[trigger] s0[k] by {
        assert(rb[k] == s0[k]);
    }
    assert forall|k: int| 0 <= k < 4 implies b[n + 4 + k] == #[trigger] s1[k] by {
        assert(rb[4 + k] == s1[k]);
        assert(b[n + (4 + k)] == rb[4 + k]);
    }
    assert forall|k: int| 0 <= k < 4 implies b[n + 8 + k] == #[trigger] s2[k] by {
        assert(rb[8 + k] == s2[k]);
        assert(b[n + (8 + k)] == rb[8 + k]);
    }
    assert forall|k: int| 0 <= k < 4 implies b[n + 12 + k] == #[trigger] s3[k] by {
        assert(rb[12 + k] == s3[k]);
        assert(b[n + (12 + k)] == rb[12 + k]);
    }
    lemma_read_u32(b, n, r.0.ts_sec, o);
    lemma_read_u32(b, n + 4, r.0.ts_usec, o);
    lemma_read_u32(b, n + 8, r.0.incl_len, o);
    lemma_read_u32(b, n + 12, r.0.orig_len, o);
    assert forall|k: int| 0 <= k < r.1.len() implies #[trigger] b.subrange(
        n + 16,
        n + 16 + r.1.len(),
    )[k] == r.1[k] by {
        assert(rb[16 + k] == r.1[k]);
        assert(b[n + (16 + k)] == rb[16 + k]);
    }
    assert(b.subrange(n + 16, n + 16 + r.1.len()) =~= r.1);
}

proof fn lemma_records_from_step(
    b: Seq<u8>,
    n: int,
    o: ByteOrder,
    h: PcapRecordHeader,
    d: Seq<u8>,
    next: int,
    rest: Seq<(PcapRecordHeader, Seq<u8>)>,
)
    requires
        n < b.len(),
        n + RECORD_HEADER_LEN <= b.len(),
        record_header_at(b, n, o) == h,
        h.incl_len == d.len(),
        next == n + RECORD_HEADER_LEN + d.len(),
        next <= b.len(),
        b.subrange(n + RECORD_HEADER_LEN, next) == d,
        records_from(b, next, o) == Ok::<Seq<(PcapRecordHeader, Seq<u8>)>, PcapError>(rest),
    ensures
        records_from(b, n, o) == Ok::<Seq<(PcapRecordHeader, Seq<u8>)>, PcapError>(
            seq![(h, d)] + rest,
        ),
{
}

#[verifier::rlimit(50)]
proof fn lemma_records_round_trip(pre: Seq<u8>, recs: Seq<(PcapRecordHeader, Seq<u8>)>, o: ByteOrder)
    requires
        forall|i: int| 0 <= i < recs.len() ==> #[trigger] recs[i].0.incl_len == recs[i].1.len(),
    ensures
        records_from(pre + records_bytes(recs, o), pre.len() as int, o) == Ok::<
            Seq<(PcapRecordHeader, Seq<u8>)>,
            PcapError,
        >(recs),
    decreases recs.len(),
{
    let b = pre + records_bytes(recs, o);
    let n = pre.len() as int;
    if recs.len() == 0 {
        assert(b =~= pre);
        assert(recs =~= Seq::<(PcapRecordHeader, Seq<u8>)>::empty());
    } else {
        let r = recs[0];
        let rest = recs.drop_first();
        let rb = record_bytes(r, o);
        assert(records_bytes(recs, o) == rb + records_bytes(rest, o));
        assert forall|k: int| 0 <= k < rb.len() implies b[n + k] == #[trigger] rb[k] by {
            assert(records_bytes(recs, o)[k] == rb[k]);
        }
        lemma_record_at(b, n, r, o);
        assert(r.0.incl_len == r.1.len());
        let pre2 = pre + rb;
        assert(b =~= pre2 + records_bytes(rest, o));
        assert forall|i: int| 0 <= i < rest.len() implies #[trigger] rest[i].0.incl_len
            == rest[i].1.len() by {
            assert(rest[i] == recs[i + 1]);
        }
        lemma_records_round_trip(pre2, rest, o);
        lemma_records_from_step(b, n, o, r.0, r.1, pre2.len() as int, rest);
        assert(seq![(r.0, r.1)] + rest =~= recs);
    }
}

/// A capture file assembled from a header and records, each record's
/// `incl_len` being the length of its data, reads back as that header and
/// exactly those records, under either byte order and either resolution.
pub proof fn lemma_pcap_round_trip(h: PcapHeader, recs: Seq<(PcapRecordHeader, Seq<u8>)>)
    requires
        forall|i: int| 0 <= i < recs.len() ==> #[trigger] recs[i].0.incl_len == recs[i].1.len(),
    ensures
        header_spec(header_bytes(h) + records_bytes(recs, h.byte_order)) == Ok::<
            PcapHeader,
            PcapError,
        >(h),
        pcap_records(header_bytes(h) + records_bytes(recs, h.byte_order)) == Ok::<
            Seq<(PcapRecordHeader, Seq<u8>)>,
            PcapError,
        >(recs),
{
    let o = h.byte_order;
    let hb = header_bytes(h);
    let b = hb + records_bytes(recs, o);
    lemma_header_fields(h, b);
    lemma_records_round_trip(hb, recs, o);
}

#[verifier::rlimit(50)]
proof fn lemma_header_fields(h: PcapHeader, b: Seq<u8>)
    requires
        b.len() >= 24,
        forall|k: int| 0 <= k < 24 ==> b[k] == #[trigger] header_bytes(h)[k],
    ensures
        header_spec(b) == Ok::<PcapHeader, PcapError>(h),
{
    let o = h.byte_order;
    let magic = if h.is_nanosecond_res {
        MAGIC_NANOS
    } else {
        MAGIC_MICROS
    };
    let hb = header_bytes(h);
    let m = u32_bytes(magic, o);
    let v1 = u16_bytes(h.version_major, o);
    let v2 = u16_bytes(h.version_minor, o);
    let tz = h.thiszone;
    let zone = #[verifier::truncate] (tz as u32);
    assert((#[verifier::truncate] (zone as i32)) == tz) by (bit_vector)
        requires
            zone == #[verifier::truncate] (tz as u32),
    ;
    let z = u32_bytes(zone, o);
    let sf = u32_bytes(h.sigfigs, o);
    let sl = u32_bytes(h.snaplen, o);
    let nw = u32_bytes(h.network, o);
    assert(hb == m + v1 + v2 + z + sf + sl + nw);
    assert(hb.len() == 24);
    assert forall|k: int| 0 <= k < 4 implies b[0 + k] == #[trigger] m[k] by {
        assert(hb[k] == m[k]);
    }
    assert forall|k: int| 0 <= k < 2 implies b[4 + k] == #[trigger] v1[k] by {
        assert(hb[4 + k] == v1[k]);
    }
    assert forall|k: int| 0 <= k < 2 implies b[6 + k] == #[trigger] v2[k] by {
        assert(hb[6 + k] == v2[k]);
    }
    assert forall|k: int| 0 <= k < 4 implies b[8 + k] == #[trigger] z[k] by {
        assert(hb[8 + k] == z[k]);
    }
    assert forall|k: int| 0 <= k < 4 implies b[12 + k] == #[trigger] sf[k] by {
        assert(hb[12 + k] == sf[k]);
    }
    assert forall|k: int| 0 <= k < 4 implies b[16 + k] == #[trigger] sl[k] by {
        assert(hb[16 + k] == sl[k]);
    }
    assert forall|k: int| 0 <= k < 4 implies b[20 + k] == #[trigger] nw[k] by {
        assert(hb[20 + k] == nw[k]);
    }
    lemma_read_u32(b, 0, magic, o);
    lemma_magic(b, h.is_nanosecond_res, o);
    lemma_read_u16(b, 4, h.version_major, o);
    lemma_read_u16(b, 6, h.version_minor, o);
    lemma_read_u32(b, 8, zone, o);
    lemma_read_u32(b, 12, h.sigfigs, o);
    lemma_read_u32(b, 16, h.snaplen, o);
    lemma_read_u32(b, 20, h.network, o);
}

proof fn lemma_magic(b: Seq<u8>, nanos: bool, o: ByteOrder)
    requires
        b.len() >= 4,
        u32_at(b, 0, o) == if nanos {
            MAGIC_NANOS
        } else {
            MAGIC_MICROS
        },
    ensures
        magic_spec(b) == Some((o, nanos)),
{
    reveal(u32_at);
}

} // verus!
