use std::io::Write;

use commoncrawl::commoncrawl::{index_url, CommonCrawl, CrawlError};
use commoncrawl::pipeline::{Item, PipeError};
use commoncrawl::value::Value;

fn gzip_member(bytes: &[u8]) -> Vec<u8> {
    let mut enc = flate2::write::GzEncoder::new(Vec::new(), flate2::Compression::default());
    enc.write_all(bytes).unwrap();
    enc.finish().unwrap()
}

fn listing_two_members() -> Vec<u8> {
    // Archive listings are produced as several gzip members back to back.
    let mut body = gzip_member(b"seg/one.warc.gz\n");
    body.extend_from_slice(&gzip_member(b"seg/two.warc.gz\n"));
    body
}

#[test]
fn index_url_format() {
    assert_eq!(
        index_url("CC-MAIN-2018-43"),
        "https://commoncrawl.s3.amazonaws.com/crawl-data/CC-MAIN-2018-43/warc.paths.gz"
    );
}

#[test]
fn listing_resolves_to_prefixed_urls() {
    let cc = CommonCrawl::new(&listing_two_members()).unwrap();
    assert_eq!(cc.url_count(), 2);
    assert_eq!(cc.url_at(0).as_str(), "http://commoncrawl.s3.amazonaws.com/seg/one.warc.gz");
    assert_eq!(cc.url_at(1).as_str(), "http://commoncrawl.s3.amazonaws.com/seg/two.warc.gz");
}

#[test]
fn malformed_gzip_is_a_decompress_error() {
    let err = CommonCrawl::new(&b"not gzip at all".to_vec()).unwrap_err();
    assert_eq!(err, CrawlError::Decompress);
}

#[test]
fn invalid_utf8_path_is_a_bad_path_error() {
    let err = CommonCrawl::new(&gzip_member(&[b's', b'e', b'g', 0xFF, b'\n'])).unwrap_err();
    assert_eq!(err, CrawlError::BadPath);
}

#[test]
fn non_ascii_utf8_path_resolves() {
    let cc = CommonCrawl::new(&gzip_member("s\u{00e9}g/\u{00fc}no.warc.gz\n".as_bytes())).unwrap();
    assert_eq!(cc.url_count(), 1);
    assert_eq!(
        cc.url_at(0).as_str(),
        "http://commoncrawl.s3.amazonaws.com/s\u{00e9}g/\u{00fc}no.warc.gz"
    );
}

#[test]
fn decompressed_bytes_match_library_decoder() {
    let body = listing_two_members();
    let plain = commoncrawl::commoncrawl::decompress_members(&body).unwrap();
    assert_eq!(plain, b"seg/one.warc.gz\nseg/two.warc.gz\n".to_vec());
    assert!(commoncrawl::commoncrawl::decompress_members(&b"garbage".to_vec()).is_err());
}

#[test]
fn crawl_job_concatenates_segments_in_order() {
    let cc = CommonCrawl::new(&listing_two_members()).unwrap();
    let mut job = cc.dist_iter();

    let first = job.next_url().unwrap().clone();
    assert_eq!(first, "http://commoncrawl.s3.amazonaws.com/seg/one.warc.gz");
    job.feed(vec![Ok(Value::Text("page one".to_string()))]);

    let second = job.next_url().unwrap().clone();
    assert_eq!(second, "http://commoncrawl.s3.amazonaws.com/seg/two.warc.gz");
    job.feed(vec![
        Ok(Value::Text("page two".to_string())),
        Err(PipeError::Decode { message: "truncated record".to_string() }),
    ]);

    assert!(job.next_url().is_none());
    let items: Vec<Item> = job.into_items();
    assert_eq!(items.len(), 3);
    assert!(matches!(&items[0], Ok(Value::Text(t)) if t == "page one"));
    assert!(matches!(&items[1], Ok(Value::Text(t)) if t == "page two"));
    assert!(matches!(&items[2], Err(PipeError::Decode { .. })));
}

#[test]
fn iter_yields_nothing() {
    let cc = CommonCrawl::new(&listing_two_members()).unwrap();
    assert_eq!(cc.iter().len(), 0);
}
