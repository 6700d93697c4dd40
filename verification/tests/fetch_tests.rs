use commoncrawl::fetch::{FetchAction, FetchEvent, FetchSession};

const BODY: &[u8] = b"warc/1.0 response bytes: the quick brown fox jumps over the lazy dog";

#[test]
fn interrupted_fetch_is_byte_identical() {
    // Uninterrupted transfer.
    let mut plain = FetchSession::start("http://example.invalid/a.gz".to_string());
    assert_eq!(plain.on_event(FetchEvent::Chunk(BODY.to_vec())), FetchAction::Read);
    assert_eq!(plain.on_event(FetchEvent::Finished), FetchAction::Done);
    let plain_bytes = plain.into_bytes();

    // The same body with a connection drop mid-stream.
    let mut resumed = FetchSession::start("http://example.invalid/a.gz".to_string());
    let cut = 17;
    assert_eq!(
        resumed.on_event(FetchEvent::Chunk(BODY[..cut].to_vec())),
        FetchAction::Read
    );
    // The drop asks for a byte-range continuation from the exact offset.
    assert_eq!(
        resumed.on_event(FetchEvent::Dropped),
        FetchAction::Resume { from: cut }
    );
    assert_eq!(
        resumed.on_event(FetchEvent::Chunk(BODY[cut..].to_vec())),
        FetchAction::Read
    );
    assert_eq!(resumed.on_event(FetchEvent::Finished), FetchAction::Done);
    let resumed_bytes = resumed.into_bytes();

    assert_eq!(resumed_bytes, plain_bytes);
    assert_eq!(resumed_bytes, BODY.to_vec());
}

#[test]
fn drop_before_any_byte_resumes_from_zero() {
    let mut s = FetchSession::start("http://example.invalid/b.gz".to_string());
    assert_eq!(s.on_event(FetchEvent::Dropped), FetchAction::Resume { from: 0 });
    assert_eq!(s.on_event(FetchEvent::Chunk(BODY.to_vec())), FetchAction::Read);
    assert_eq!(s.on_event(FetchEvent::Finished), FetchAction::Done);
    assert_eq!(s.into_bytes(), BODY.to_vec());
}

#[test]
fn repeated_drops_keep_received_bytes() {
    let mut s = FetchSession::start("http://example.invalid/c.gz".to_string());
    s.on_event(FetchEvent::Chunk(BODY[..10].to_vec()));
    assert_eq!(s.on_event(FetchEvent::Dropped), FetchAction::Resume { from: 10 });
    assert_eq!(s.on_event(FetchEvent::Dropped), FetchAction::Resume { from: 10 });
    s.on_event(FetchEvent::Chunk(BODY[10..].to_vec()));
    assert_eq!(s.into_bytes(), BODY.to_vec());
}
