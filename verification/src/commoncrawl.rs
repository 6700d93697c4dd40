//! The web-crawl archive source. An archive identifier names a
//! gzip-compressed listing of segment paths; the listing, decompressed with
//! support for concatenated gzip members, yields one relative path per
//! line, each rewritten to a fully qualified segment address. The segments
//! are then fetched lazily, in listing order, by a driver that feeds each
//! segment's records into one logical stream.

use vstd::prelude::*;

use crate::lines::{byte_lines_of, lines_of, split_lines};
use crate::pipeline::{
    items_of, segment_prefix, utf8_chars, utf8_to_string, Item, ItemV,
};

verus! {

/// The archive listing could not be resolved: the listing bytes are not a
/// well-formed gzip stream, or a path line is not valid UTF-8.
#[derive(Debug, PartialEq, Eq, Structural, Clone, Copy)]
pub enum CrawlError {
    Decompress,
    BadPath,
}

#[verifier::external_type_specification]
#[verifier::external_body]
pub struct ExIoError(std::io::Error);

/// What the gzip decoder makes of a byte stream that may hold several
/// concatenated members: the decompressed bytes, or nothing when the
/// stream is malformed. The result depends on the compressed bytes alone.
pub uninterp spec fn gunzip_members(b: Seq<u8>) -> Option<Seq<u8>>;

/// Relies on async_compression's gzip decoder (`GzipDecoder` over an
/// in-memory reader, `multiple_members(true)`): it decompresses a stream of
/// one or more concatenated gzip members, a pure function of the input
/// bytes, and reports malformed input as an error. Over an in-memory
/// reader the decoder never suspends, so one poll with a no-op waker
/// (`now_or_never`) completes it; no executor is entered, so the call is
/// safe from inside one.
#[verifier::external_body]
fn gunzip_concat(b: &Vec<u8>) -> (r: Result<Vec<u8>, std::io::Error>)
    ensures
        match r {
            Result::Ok(v) => gunzip_members(b@) == Option::Some(v@),
            Result::Err(_) => gunzip_members(b@) is None,
        },
{
    let mut d = async_compression::futures::bufread::GzipDecoder::new(&b[..]);
    d.multiple_members(true);
    let mut out: Vec<u8> = Vec::new();
    let fut = futures::AsyncReadExt::read_to_end(&mut d, &mut out);
    match futures::FutureExt::now_or_never(fut) {
        Some(Ok(_)) => Ok(out),
        Some(Err(e)) => Err(e),
        None => Err(std::io::Error::from(std::io::ErrorKind::WouldBlock)),
    }
}

/// Decompress a body of one or more concatenated gzip members — the form
/// archive listings and segment bodies take.
pub fn decompress_members(b: &Vec<u8>) -> (r: Result<Vec<u8>, CrawlError>)
    ensures
        match gunzip_members(b@) {
            Option::Some(p) => r matches Ok(v) && v@ == p,
            Option::None => r == Result::<Vec<u8>, CrawlError>::Err(CrawlError::Decompress),
        },
{
    match gunzip_concat(b) {
        Result::Ok(v) => Result::Ok(v),
        Result::Err(_) => Result::Err(CrawlError::Decompress),
    }
}

/// The address of an archive's segment-path listing.
pub open spec fn index_prefix() -> Seq<char> {
    "https://commoncrawl.s3.amazonaws.com/crawl-data/"@
}

/// The trailing component of a listing address.
pub open spec fn index_suffix() -> Seq<char> {
    "/warc.paths.gz"@
}

/// The listing address of the archive named `id`.
pub fn index_url(id: &str) -> (r: String)
    ensures
        r@ == index_prefix() + id@ + index_suffix(),
{
    let mut s = String::from_str("https://commoncrawl.s3.amazonaws.com/crawl-data/");
    s.append(id);
    s.append("/warc.paths.gz");
    s
}

/// Every line of the listing is valid UTF-8.
pub open spec fn all_utf8_lines(plain: Seq<u8>) -> bool {
    forall|i: int|
        0 <= i < lines_of(plain).len() ==> utf8_chars(#[trigger] lines_of(plain)[i]) is Some
}

/// The fully qualified segment addresses of a decompressed listing, one
/// per line, in listing order.
pub open spec fn resolved_urls(plain: Seq<u8>) -> Seq<Seq<char>> {
    Seq::new(
        lines_of(plain).len(),
        |i: int| segment_prefix() + utf8_chars(lines_of(plain)[i])->Some_0,
    )
}

/// A crawl archive, resolved to the list of its segment addresses.
#[derive(Debug)]
pub struct CommonCrawl {
    urls: Vec<String>,
}

impl CommonCrawl {
    /// The resolved segment addresses, in listing order.
    pub closed spec fn url_list(self) -> Seq<Seq<char>> {
        Seq::new(self.urls@.len(), |i: int| self.urls@[i]@)
    }

    /// Resolve an archive from the raw bytes of its compressed
    /// segment-path listing: decompress (all concatenated gzip members),
    /// split into lines, and rewrite each line to its fully qualified
    /// address. A malformed gzip stream or a path line that is not valid
    /// UTF-8 aborts construction — without the listing no records can be
    /// produced.
    pub fn new(index_body: &Vec<u8>) -> (r: Result<CommonCrawl, CrawlError>)
        ensures
            match gunzip_members(index_body@) {
                Option::None => r == Result::<CommonCrawl, CrawlError>::Err(
                    CrawlError::Decompress,
                ),
                Option::Some(plain) => if all_utf8_lines(plain) {
                    r matches Ok(c) && c.url_list() == resolved_urls(plain)
                } else {
                    r == Result::<CommonCrawl, CrawlError>::Err(CrawlError::BadPath)
                },
            },
    {
        let plain = match decompress_members(index_body) {
            Result::Ok(p) => p,
            Result::Err(_) => {
                return Result::Err(CrawlError::Decompress);
            },
        };
        let ls = split_lines(&plain);
        let mut urls: Vec<String> = Vec::new();
        let mut i: usize = 0;
        while i < ls.len()
            invariant
                i <= ls@.len(),
                gunzip_members(index_body@) == Option::Some(plain@),
                byte_lines_of(ls@) == lines_of(plain@),
                urls@.len() == i,
                forall|j: int|
                    0 <= j < i ==> utf8_chars(#[trigger] lines_of(plain@)[j]) is Some,
                forall|j: int|
                    0 <= j < i ==> (#[trigger] urls@[j])@ == segment_prefix() + utf8_chars(
                        lines_of(plain@)[j],
                    )->Some_0,
            decreases ls@.len() - i,
        {
            proof {
                assert(byte_lines_of(ls@)[i as int] == ls@[i as int]@);
            }
            let tail = match utf8_to_string(&ls[i]) {
                Result::Ok(t) => t,
                Result::Err(_) => {
                    proof {
                        assert(utf8_chars(lines_of(plain@)[i as int]) is None);
                    }
                    return Result::Err(CrawlError::BadPath);
                },
            };
            let prefix = String::from_str("http://commoncrawl.s3.amazonaws.com/");
            let url = prefix.concat(tail.as_str());
            let ghost urls_pre = urls@;
            urls.push(url);
            proof {
                assert forall|j: int|
                    0 <= j < i + 1 implies (#[trigger] urls@[j])@ == segment_prefix()
                    + utf8_chars(lines_of(plain@)[j])->Some_0 by {
                    if j < i {
                        assert(urls@[j] == urls_pre[j]);
                    }
                }
            }
            i = i + 1;
        }
        let c = CommonCrawl { urls };
        proof {
            assert(c.url_list() =~= resolved_urls(plain@));
        }
        Result::Ok(c)
    }

    /// How many segments the archive resolves to.
    pub fn url_count(&self) -> (n: usize)
        ensures
            n == self.url_list().len(),
    {
        self.urls.len()
    }

    /// The address of segment `i`.
    pub fn url_at(&self, i: usize) -> (r: &String)
        requires
            i < self.url_list().len(),
        ensures
            r@ == self.url_list()[i as int],
    {
        &self.urls[i]
    }

    /// The lazy, distributed record stream: a driver that fetches each
    /// segment in listing order and concatenates the segments' record
    /// streams into one logical sequence.
    pub fn dist_iter(self) -> (j: CrawlJob)
        ensures
            j.wf(),
            j.segments() == self.url_list(),
            j.position() == 0,
            j.records() == Seq::<ItemV>::empty(),
    {
        let j = CrawlJob { urls: self.urls, next: 0, out: Vec::new() };
        proof {
            assert(j.records() =~= Seq::<ItemV>::empty());
        }
        j
    }

    /// The degenerate synchronous path: this source only produces records
    /// through the distributed stream, so the synchronous iterator yields
    /// nothing.
    pub fn iter(self) -> (r: Vec<Item>)
        ensures
            r@.len() == 0,
    {
        Vec::new()
    }
}

/// A crawl in progress: the segment addresses still to fetch and every
/// record produced so far. The transport and the record tokenizer live
/// outside the library; the job only decides which segment is next and
/// guarantees that the stream is the concatenation, in listing order, of
/// the per-segment record batches it is fed.
#[derive(Debug)]
pub struct CrawlJob {
    urls: Vec<String>,
    next: usize,
    out: Vec<Item>,
}

impl CrawlJob {
    /// The fetch position never passes the segment list's end.
    pub closed spec fn wf(self) -> bool {
        self.next <= self.urls@.len()
    }

    /// The segment addresses, in listing order.
    pub closed spec fn segments(self) -> Seq<Seq<char>> {
        Seq::new(self.urls@.len(), |i: int| self.urls@[i]@)
    }

    /// How many segments have been consumed.
    pub closed spec fn position(self) -> int {
        self.next as int
    }

    /// The records produced so far, in order.
    pub closed spec fn records(self) -> Seq<ItemV> {
        items_of(self.out@)
    }

    /// The next segment to fetch, or nothing when every segment was
    /// consumed.
    pub fn next_url(&self) -> (r: Option<&String>)
        requires
            self.wf(),
        ensures
            match r {
                Option::Some(u) => self.position() < self.segments().len() && u@
                    == self.segments()[self.position()],
                Option::None => self.position() == self.segments().len(),
            },
    {
        if self.next < self.urls.len() {
            Option::Some(&self.urls[self.next])
        } else {
            Option::None
        }
    }

    /// Hand the job the records of the segment `next_url` named — or the
    /// single error item a permanently failed fetch produced. They are
    /// appended after every earlier segment's records, and the job moves
    /// to the next segment.
    pub fn feed(&mut self, batch: Vec<Item>)
        requires
            old(self).wf(),
            old(self).position() < old(self).segments().len(),
        ensures
            final(self).wf(),
            final(self).segments() == old(self).segments(),
            final(self).position() == old(self).position() + 1,
            final(self).records() == old(self).records() + items_of(batch@),
    {
        let ghost out_pre = self.out@;
        let ghost batch_v = batch@;
        let mut batch = batch;
        self.out.append(&mut batch);
        let _n = self.urls.len();
        self.next = self.next + 1;
        proof {
            assert(final(self).segments() =~= old(self).segments());
            assert(items_of(self.out@) =~= items_of(out_pre) + items_of(batch_v));
        }
    }

    /// Surrender the whole record stream once every segment was consumed.
    pub fn into_items(self) -> (r: Vec<Item>)
        requires
            self.wf(),
            self.position() == self.segments().len(),
        ensures
            items_of(r@) == self.records(),
    {
        self.out
    }
}

} // verus!
