use commoncrawl::pipeline::{FlatOp, Item, MapOp, PipeError, Pipeline};
use commoncrawl::pool::{LocalPool, ProcessPool, ThreadPool};
use commoncrawl::schema::{Field, Schema};
use commoncrawl::value::{GroupField, Kind, Value};

fn listing_input() -> Vec<Item> {
    vec![Ok(Value::Bytes(b"seg/one.warc.gz\nseg/two.warc.gz\n".to_vec()))]
}

fn listing_pipeline() -> Pipeline {
    Pipeline::new().flat_map(FlatOp::Lines).map(MapOp::SegmentUrl)
}

#[test]
fn lines_then_segment_urls() {
    let pool = LocalPool::new();
    let out = pool.collect(&listing_pipeline(), listing_input());
    assert_eq!(out.len(), 2);
    match &out[0] {
        Ok(Value::Text(u)) => {
            assert_eq!(u, "http://commoncrawl.s3.amazonaws.com/seg/one.warc.gz")
        }
        other => panic!("unexpected item: {:?}", other),
    }
    match &out[1] {
        Ok(Value::Text(u)) => {
            assert_eq!(u, "http://commoncrawl.s3.amazonaws.com/seg/two.warc.gz")
        }
        other => panic!("unexpected item: {:?}", other),
    }
}

#[test]
fn flatten_stream_spreads_lists() {
    let p = Pipeline::new().flatten_stream();
    let input: Vec<Item> = vec![
        Ok(Value::List(vec![Value::I32(1), Value::I32(2)])),
        Ok(Value::List(vec![])),
        Ok(Value::List(vec![Value::I32(3)])),
    ];
    let out = LocalPool::new().collect(&p, input);
    assert_eq!(out.len(), 3);
    assert_eq!(format!("{:?}", out[2]), format!("{:?}", Ok::<Value, PipeError>(Value::I32(3))));
}

#[test]
fn lines_strip_cr_only_before_a_line_feed() {
    let p = Pipeline::new().flat_map(FlatOp::Lines);
    let input: Vec<Item> = vec![Ok(Value::Bytes(b"a\r\nb\r".to_vec()))];
    let out = LocalPool::new().collect(&p, input);
    assert_eq!(out.len(), 2);
    assert!(matches!(&out[0], Ok(Value::Bytes(l)) if l == b"a"));
    assert!(matches!(&out[1], Ok(Value::Bytes(l)) if l == b"b\r"));
}

#[test]
fn error_items_pass_through() {
    let p = Pipeline::new().map(MapOp::Identity);
    let input: Vec<Item> = vec![Err(PipeError::Decode { message: "boom".to_string() })];
    let out = LocalPool::new().collect(&p, input);
    assert_eq!(out.len(), 1);
    assert!(matches!(&out[0], Err(PipeError::Decode { .. })));
}

#[test]
fn segment_url_on_wrong_shape_errors() {
    let p = Pipeline::new().map(MapOp::SegmentUrl);
    let input: Vec<Item> = vec![Ok(Value::I32(1))];
    let out = LocalPool::new().collect(&p, input);
    assert!(matches!(
        &out[0],
        Err(PipeError::Shape { expected: Kind::Bytes, actual: Kind::I32 })
    ));
}

fn row(i: i32) -> Value {
    Value::Group(vec![
        GroupField { name: "a".to_string(), value: Value::I32(i) },
        GroupField { name: "b".to_string(), value: Value::Bool(i % 2 == 0) },
    ])
}

fn rows() -> Vec<Item> {
    (0..7).map(|i| Ok(row(i))).collect()
}

#[test]
fn projection_preserves_row_count() {
    let strict = Schema::Tuple(vec![Schema::I32, Schema::Bool]);
    let derived = Schema::Record(vec![Field {
        name: "a".to_string(),
        source_name: None,
        schema: Schema::I32,
    }]);
    let pool = LocalPool::new();
    let n1 = pool.count(&Pipeline::new().map(MapOp::Project(strict)), rows());
    let n2 = pool.count(&Pipeline::new().map(MapOp::Project(derived)), rows());
    let n3 = pool.count(&Pipeline::new().map(MapOp::Identity), rows());
    assert_eq!(n1, 7);
    assert_eq!(n2, 7);
    assert_eq!(n3, 7);
}

#[test]
fn backends_agree_on_count_and_collect() {
    let local = LocalPool::new();
    let threads = ThreadPool::new(3).unwrap();
    let processes = ProcessPool::new(2, 1).unwrap();
    let n0 = local.count(&listing_pipeline(), listing_input());
    let n1 = threads.count(&listing_pipeline(), listing_input());
    let n2 = processes.count(&listing_pipeline(), listing_input());
    assert_eq!(n0, 2);
    assert_eq!(n0, n1);
    assert_eq!(n0, n2);
    let c0 = local.collect(&listing_pipeline(), listing_input());
    let c1 = threads.collect(&listing_pipeline(), listing_input());
    let c2 = processes.collect(&listing_pipeline(), listing_input());
    assert_eq!(format!("{:?}", c0), format!("{:?}", c1));
    assert_eq!(format!("{:?}", c0), format!("{:?}", c2));
}

#[test]
fn zero_workers_is_an_error() {
    assert!(ThreadPool::new(0).is_err());
    assert!(ProcessPool::new(0, 1).is_err());
}

#[test]
fn default_pools_agree_with_local() {
    let local = LocalPool::new();
    let threads = ThreadPool::new_default();
    let processes = ProcessPool::new_default(1);
    let n0 = local.count(&listing_pipeline(), listing_input());
    assert_eq!(n0, threads.count(&listing_pipeline(), listing_input()));
    assert_eq!(n0, processes.count(&listing_pipeline(), listing_input()));
}

#[test]
fn segment_url_accepts_utf8_line() {
    let p = Pipeline::new().map(MapOp::SegmentUrl);
    let input: Vec<Item> = vec![Ok(Value::Bytes("s\u{00e9}g/a.warc.gz".as_bytes().to_vec()))];
    let out = LocalPool::new().collect(&p, input);
    match &out[0] {
        Ok(Value::Text(u)) => {
            assert_eq!(u, "http://commoncrawl.s3.amazonaws.com/s\u{00e9}g/a.warc.gz")
        }
        other => panic!("unexpected item: {:?}", other),
    }
}

#[test]
fn segment_url_rejects_invalid_utf8_line() {
    let p = Pipeline::new().map(MapOp::SegmentUrl);
    let input: Vec<Item> = vec![Ok(Value::Bytes(vec![b'a', 0xFF]))];
    let out = LocalPool::new().collect(&p, input);
    assert!(matches!(&out[0], Err(PipeError::Decode { .. })));
}
