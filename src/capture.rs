use crate::url::UrlEntry;
use vstd::prelude::*;
use vstd::string::StringExecFns;

verus! {

/// The kind of capture that a piece of work asks for.
#[derive(Clone, Copy, Debug, PartialEq, Eq, Structural, Hash, PartialOrd, Ord)]
pub enum CaptureWorkType {
    Normal,
    Tor,
}

pub open spec fn work_type_name(t: CaptureWorkType) -> Seq<char> {
    match t {
        CaptureWorkType::Normal => "normal"@,
        CaptureWorkType::Tor => "tor"@,
    }
}

/// Position of a work type in the ordering of types.
pub open spec fn work_type_rank(t: CaptureWorkType) -> int {
    match t {
        CaptureWorkType::Normal => 0,
        CaptureWorkType::Tor => 1,
    }
}

impl CaptureWorkType {
    /// The type's label, as it appears in reports and output file names.
    pub fn name(&self) -> (r: String)
        ensures
            r@ == work_type_name(*self),
    {
        match self {
            CaptureWorkType::Normal => "normal".to_owned(),
            CaptureWorkType::Tor => "tor".to_owned(),
        }
    }

    pub fn rank(&self) -> (r: u8)
        ensures
            r == work_type_rank(*self),
    {
        match self {
            CaptureWorkType::Normal => 0,
            CaptureWorkType::Tor => 1,
        }
    }
}

/// One capture to perform: visit `url`, record into `filename`.
#[derive(Clone, Debug)]
pub struct CaptureWork {
    /// Rank of the URL; lower indexes are served first
    pub index: u64,
    pub url: String,
    pub filename: String,
}

pub open spec fn hex_digit(n: int) -> char {
    seq!['0', '1', '2', '3', '4', '5', '6', '7', '8', '9', 'a', 'b', 'c', 'd', 'e', 'f'][n]
}

/// Lower-case hexadecimal text of `b`, two digits per byte.
pub open spec fn hex_of(b: Seq<u8>) -> Seq<char>
    decreases b.len(),
{
    if b.len() == 0 {
        Seq::empty()
    } else {
        hex_of(b.drop_last()) + seq![hex_digit(b.last() as int / 16), hex_digit(b.last() as int % 16)]
    }
}

/// Relies on hex::encode: lower-case hexadecimal, two digits per byte, in order.
#[verifier::external_body]
fn to_hex(bytes: &[u8]) -> (r: String)
    ensures
        r@ == hex_of(bytes@),
{
    hex::encode(bytes)
}

/// Relies on rand::random: 32 bytes from the thread-local generator. Nothing
/// is known of their values.
#[verifier::external_body]
fn random_bytes() -> (r: [u8; 32]) {
    rand::random()
}

impl CaptureWork {
    /// Work for `url_entry` whose capture file is named after `name_bytes`:
    /// their hexadecimal text with the extension `.pcap`.
    pub fn with_name_bytes(url_entry: UrlEntry, name_bytes: &[u8]) -> (r: Self)
        ensures
            r.index == url_entry.index,
            r.url@ == url_entry.url@,
            r.filename@ == hex_of(name_bytes@) + ".pcap"@,
    {
        let hex = to_hex(name_bytes);
        CaptureWork { index: url_entry.index, url: url_entry.url, filename: hex.concat(".pcap") }
    }

    /// Work for `url_entry` with a capture file named after 32 random bytes.
    pub fn from_url_entry(url_entry: UrlEntry) -> (r: Self)
        ensures
            r.index == url_entry.index,
            r.url@ == url_entry.url@,
            exists|b: Seq<u8>| b.len() == 32 && r.filename@ == hex_of(b) + ".pcap"@,
    {
        let bytes = random_bytes();
        let r = Self::with_name_bytes(url_entry, &bytes);
        assert(bytes@.len() == 32);
        r
    }
}

/// The work that a list of URLs gives: for each URL in order, a `Normal`
/// capture and then a `Tor` capture, each with its own random file name.
pub fn work_for_urls(entries: Vec<UrlEntry>) -> (r: Vec<(CaptureWorkType, CaptureWork)>)
    ensures
        r@.len() == 2 * entries@.len(),
        forall|i: int|
            0 <= i < entries@.len() ==> {
                &&& (#[trigger] r@[2 * i]).0 == CaptureWorkType::Normal
                &&& r@[2 * i].1.index == entries@[i].index
                &&& r@[2 * i].1.url@ == entries@[i].url@
                &&& r@[2 * i + 1].0 == CaptureWorkType::Tor
                &&& r@[2 * i + 1].1.index == entries@[i].index
                &&& r@[2 * i + 1].1.url@ == entries@[i].url@
            },
{
    let mut out: Vec<(CaptureWorkType, CaptureWork)> = Vec::new();
    let mut i: usize = 0;
    while i < entries.len()
        invariant
            0 <= i <= entries@.len(),
            out@.len() == 2 * i,
            forall|k: int|
                0 <= k < i ==> {
                    &&& (#[trigger] out@[2 * k]).0 == CaptureWorkType::Normal
                    &&& out@[2 * k].1.index == entries@[k].index
                    &&& out@[2 * k].1.url@ == entries@[k].url@
                    &&& out@[2 * k + 1].0 == CaptureWorkType::Tor
                    &&& out@[2 * k + 1].1.index == entries@[k].index
                    &&& out@[2 * k + 1].1.url@ == entries@[k].url@
                },
        decreases entries@.len() - i,
    {
        let normal = CaptureWork::from_url_entry(entries[i].duplicate());
        let tor = CaptureWork::from_url_entry(entries[i].duplicate());
        out.push((CaptureWorkType::Normal, normal));
        out.push((CaptureWorkType::Tor, tor));
        proof {
            assert(out@[2 * i as int].1.index == entries@[i as int].index);
        }
        i = i + 1;
    }
    out
}

} // verus!
