use vstd::prelude::*;

verus! {

/// A URL entry, as in the Alexa top sites list.
#[derive(Clone, Debug)]
pub struct UrlEntry {
    /// ID or rank of the URL
    pub index: u64,
    /// The URL, without a protocol
    pub url: String,
}

impl UrlEntry {
    /// A copy of this entry.
    pub fn duplicate(&self) -> (r: Self)
        ensures
            r == *self,
    {
        UrlEntry { index: self.index, url: self.url.clone() }
    }
}

/// Hands out URL entries in order.
pub struct UrlsReader {
    pub entries: Vec<UrlEntry>,
    /// Index of the next entry to hand out
    pub position: usize,
}

/// Builds a `UrlsReader`.
pub struct UrlsReaderBuilder {
    /// The maximum number of URLs to read
    pub limit: Option<usize>,
}

impl Default for UrlsReaderBuilder {
    fn default() -> (r: Self)
        ensures
            r.limit is None,
    {
        UrlsReaderBuilder { limit: None }
    }
}

/// The entries that a reader with `limit` keeps of `entries`.
pub open spec fn limited(entries: Seq<UrlEntry>, limit: Option<usize>) -> Seq<UrlEntry> {
    match limit {
        Some(l) => if l < entries.len() {
            entries.take(l as int)
        } else {
            entries
        },
        None => entries,
    }
}

impl UrlsReader {
    /// Creates a builder for `UrlsReader`, with no limit.
    pub fn build() -> (r: UrlsReaderBuilder)
        ensures
            r.limit is None,
    {
        UrlsReaderBuilder::default()
    }

    /// The next entry, in order; none once all are handed out.
    pub fn next_entry(&mut self) -> (r: Option<UrlEntry>)
        ensures
            final(self).entries@ == old(self).entries@,
            old(self).position < old(self).entries@.len() ==> r == Some(
                old(self).entries@[old(self).position as int],
            ) && final(self).position == old(self).position + 1,
            old(self).position >= old(self).entries@.len() ==> r is None && final(self).position
                == old(self).position,
    {
        if self.position < self.entries.len() {
            let e = self.entries[self.position].duplicate();
            self.position = self.position + 1;
            Some(e)
        } else {
            None
        }
    }
}

impl UrlsReaderBuilder {
    /// Sets a limit on the number of URLs to read.
    pub fn with_limit(self, limit: usize) -> (r: Self)
        ensures
            r.limit == Some(limit),
    {
        self.with_limit_opt(Some(limit))
    }

    /// Sets an optional limit on the number of URLs to read.
    pub fn with_limit_opt(self, limit: Option<usize>) -> (r: Self)
        ensures
            r.limit == limit,
    {
        let mut b = self;
        b.limit = limit;
        b
    }

    /// A reader over `entries`, cut at the limit.
    pub fn from_entries(self, entries: Vec<UrlEntry>) -> (r: UrlsReader)
        ensures
            r.entries@ == limited(entries@, self.limit),
            r.position == 0,
    {
        let mut entries = entries;
        match self.limit {
            Some(l) => {
                if l < entries.len() {
                    entries.truncate(l);
                }
            },
            None => {},
        }
        UrlsReader { entries, position: 0 }
    }
}

} // verus!
