//! The distributed iterator: a lazily evaluated chain of serializable
//! operator descriptors over fallible row items. A pipeline is data — a
//! sequence of operators — so the same definition can be replayed by any
//! worker unit without capturing live references; a worker pool drives it to
//! a terminal count or collection.

use vstd::prelude::*;

use crate::downcast::{sd, DowncastError, DowncastErrorV};
use crate::lines::lines_of;
use crate::schema::{schema_of, Schema, SchemaV};
use crate::value::{val_of, Kind, Val, Value};

verus! {

/// An error carried by a pipeline item: a decode failure reported by the
/// producing source, a failed downcast, or an operator applied to a value of
/// the wrong variant.
#[derive(Debug, PartialEq, Clone)]
pub enum PipeError {
    Decode { message: String },
    Downcast(DowncastError),
    Shape { expected: Kind, actual: Kind },
}

/// The mirror of a `PipeError`.
#[verifier::ext_equal]
pub enum PipeErrorV {
    Decode { message: Seq<char> },
    Downcast(DowncastErrorV),
    Shape { expected: Kind, actual: Kind },
}

impl View for PipeError {
    type V = PipeErrorV;

    open spec fn view(&self) -> PipeErrorV {
        match self {
            PipeError::Decode { message } => PipeErrorV::Decode { message: message@ },
            PipeError::Downcast(e) => PipeErrorV::Downcast(e@),
            PipeError::Shape { expected, actual } => PipeErrorV::Shape {
                expected: *expected,
                actual: *actual,
            },
        }
    }
}

/// One fallible pipeline item: a malformed record travels through the chain
/// as the error it produced, without disturbing its neighbours.
pub type Item = Result<Value, PipeError>;

/// The mirror of an `Item`.
pub type ItemV = Result<Val, PipeErrorV>;

/// The model of an item.
pub open spec fn item_view(it: Item) -> ItemV {
    match it {
        Result::Ok(v) => Result::Ok(val_of(v)),
        Result::Err(e) => Result::Err(e@),
    }
}

/// The models of a sequence of items.
pub open spec fn items_of(s: Seq<Item>) -> Seq<ItemV> {
    Seq::new(s.len(), |i: int| item_view(s[i]))
}

/// A one-to-one transform descriptor.
#[derive(Debug)]
pub enum MapOp {
    /// Hand each row through unchanged.
    Identity,
    /// Downcast each row to a target shape, turning failures into item
    /// errors.
    Project(Schema),
    /// Rewrite a relative archive path line into its fully qualified
    /// segment address.
    SegmentUrl,
}

/// A one-to-many transform descriptor.
#[derive(Debug)]
pub enum FlatOp {
    /// Split a byte stream into one item per line.
    Lines,
}

/// One operator of a pipeline.
#[derive(Debug)]
pub enum Op {
    Transform(MapOp),
    FlatMap(FlatOp),
    FlattenStream,
}

/// The mirror of a `MapOp`.
#[verifier::ext_equal]
pub enum MapOpV {
    Identity,
    Project(SchemaV),
    SegmentUrl,
}

/// The mirror of a `FlatOp`.
#[verifier::ext_equal]
pub enum FlatOpV {
    Lines,
}

/// The mirror of an `Op`.
#[verifier::ext_equal]
pub enum OpV {
    Transform(MapOpV),
    FlatMap(FlatOpV),
    FlattenStream,
}

impl View for MapOp {
    type V = MapOpV;

    open spec fn view(&self) -> MapOpV {
        match self {
            MapOp::Identity => MapOpV::Identity,
            MapOp::Project(s) => MapOpV::Project(schema_of(*s)),
            MapOp::SegmentUrl => MapOpV::SegmentUrl,
        }
    }
}

impl View for FlatOp {
    type V = FlatOpV;

    open spec fn view(&self) -> FlatOpV {
        match self {
            FlatOp::Lines => FlatOpV::Lines,
        }
    }
}

impl View for Op {
    type V = OpV;

    open spec fn view(&self) -> OpV {
        match self {
            Op::Transform(m) => OpV::Transform(m@),
            Op::FlatMap(f) => OpV::FlatMap(f@),
            Op::FlattenStream => OpV::FlattenStream,
        }
    }
}

/// The models of a sequence of operators.
pub open spec fn ops_of(s: Seq<Op>) -> Seq<OpV> {
    Seq::new(s.len(), |i: int| s[i]@)
}

/// The address every segment path is appended to.
pub open spec fn segment_prefix() -> Seq<char> {
    "http://commoncrawl.s3.amazonaws.com/"@
}

/// The report attached to a path line that is not valid UTF-8.
pub open spec fn bad_encoding_note() -> Seq<char> {
    "archive path line is not valid utf-8"@
}

/// Every byte is ASCII.
pub open spec fn is_ascii_bytes(b: Seq<u8>) -> bool {
    forall|i: int| 0 <= i < b.len() ==> b[i] < 128
}

/// ASCII bytes read as characters.
pub open spec fn ascii_chars(b: Seq<u8>) -> Seq<char> {
    Seq::new(b.len(), |i: int| b[i] as char)
}

#[verifier::external_type_specification]
#[verifier::external_body]
pub struct ExFromUtf8Error(std::string::FromUtf8Error);

/// What UTF-8 decoding makes of a byte sequence: its characters, or
/// nothing when the bytes are not valid UTF-8. The result is a function of
/// the bytes alone.
pub uninterp spec fn utf8_chars(b: Seq<u8>) -> Option<Seq<char>>;

/// Relies on `String::from_utf8`: it decodes exactly the valid UTF-8 byte
/// sequences, a function of the bytes alone, and ASCII bytes decode to one
/// character per byte, each the character of that byte.
#[verifier::external_body]
pub(crate) fn utf8_to_string(b: &Vec<u8>) -> (r: Result<String, std::string::FromUtf8Error>)
    ensures
        match r {
            Result::Ok(s) => utf8_chars(b@) == Option::Some(s@) && (is_ascii_bytes(b@) ==> s@
                == ascii_chars(b@)),
            Result::Err(_) => utf8_chars(b@) is None && !is_ascii_bytes(b@),
        },
{
    String::from_utf8(b.clone())
}

/// What a one-to-one transform makes of one item: errors travel through
/// untouched; `Project` downcasts; `SegmentUrl` turns a UTF-8 path line
/// into the fully qualified address.
pub open spec fn apply_map(m: MapOpV, it: ItemV) -> ItemV {
    match it {
        Result::Err(e) => Result::Err(e),
        Result::Ok(v) => match m {
            MapOpV::Identity => Result::Ok(v),
            MapOpV::Project(s) => match sd(v, s) {
                Result::Ok(w) => Result::Ok(w),
                Result::Err(e) => Result::Err(PipeErrorV::Downcast(e)),
            },
            MapOpV::SegmentUrl => match v {
                Val::Bytes(b) => match utf8_chars(b) {
                    Option::Some(cs) => Result::Ok(Val::Text(segment_prefix() + cs)),
                    Option::None => Result::Err(
                        PipeErrorV::Decode { message: bad_encoding_note() },
                    ),
                },
                _ => Result::Err(
                    PipeErrorV::Shape { expected: Kind::Bytes, actual: v.kind() },
                ),
            },
        },
    }
}

/// What a one-to-many transform makes of one item.
pub open spec fn expand(f: FlatOpV, it: ItemV) -> Seq<ItemV> {
    match it {
        Result::Err(e) => seq![Result::Err(e)],
        Result::Ok(v) => match f {
            FlatOpV::Lines => match v {
                Val::Bytes(b) => Seq::new(
                    lines_of(b).len(),
                    |i: int| Result::Ok(Val::Bytes(lines_of(b)[i])),
                ),
                _ => seq![
                    Result::Err(PipeErrorV::Shape { expected: Kind::Bytes, actual: v.kind() }),
                ],
            },
        },
    }
}

/// What flattening makes of one item: a list spreads into its elements in
/// order.
pub open spec fn flatten_one(it: ItemV) -> Seq<ItemV> {
    match it {
        Result::Err(e) => seq![Result::Err(e)],
        Result::Ok(v) => match v {
            Val::List(es) => Seq::new(es.len(), |i: int| Result::Ok(es[i])),
            _ => seq![Result::Err(PipeErrorV::Shape { expected: Kind::List, actual: v.kind() })],
        },
    }
}

/// The concatenation, in order, of what `f` makes of each input item.
pub open spec fn concat_map(f: spec_fn(ItemV) -> Seq<ItemV>, input: Seq<ItemV>) -> Seq<ItemV>
    decreases input.len(),
{
    if input.len() == 0 {
        Seq::empty()
    } else {
        f(input.first()) + concat_map(f, input.drop_first())
    }
}

/// The one-item function of a one-to-one transform.
pub open spec fn map_fn(m: MapOpV) -> spec_fn(ItemV) -> ItemV {
    |it: ItemV| apply_map(m, it)
}

/// The one-item function of a one-to-many transform.
pub open spec fn expand_fn(f: FlatOpV) -> spec_fn(ItemV) -> Seq<ItemV> {
    |it: ItemV| expand(f, it)
}

/// The one-item function of flattening.
pub open spec fn flatten_fn() -> spec_fn(ItemV) -> Seq<ItemV> {
    |it: ItemV| flatten_one(it)
}

/// What one operator makes of a whole input sequence.
pub open spec fn apply_op(op: OpV, input: Seq<ItemV>) -> Seq<ItemV> {
    match op {
        OpV::Transform(m) => input.map_values(map_fn(m)),
        OpV::FlatMap(f) => concat_map(expand_fn(f), input),
        OpV::FlattenStream => concat_map(flatten_fn(), input),
    }
}

/// What a whole operator chain makes of an input sequence, applied left to
/// right.
pub open spec fn run_ops(ops: Seq<OpV>, input: Seq<ItemV>) -> Seq<ItemV>
    decreases ops.len(),
{
    if ops.len() == 0 {
        input
    } else {
        run_ops(ops.drop_first(), apply_op(ops.first(), input))
    }
}

/// `concat_map` distributes over concatenation of inputs.
pub proof fn lemma_concat_map_append(
    f: spec_fn(ItemV) -> Seq<ItemV>,
    a: Seq<ItemV>,
    b: Seq<ItemV>,
)
    ensures
        concat_map(f, a + b) == concat_map(f, a) + concat_map(f, b),
    decreases a.len(),
{
    if a.len() == 0 {
        assert(a + b =~= b);
        assert(concat_map(f, a) + concat_map(f, b) =~= concat_map(f, b));
    } else {
        assert((a + b).first() == a.first());
        assert((a + b).drop_first() =~= a.drop_first() + b);
        lemma_concat_map_append(f, a.drop_first(), b);
        assert(f(a.first()) + (concat_map(f, a.drop_first()) + concat_map(f, b)) =~= (f(a.first())
            + concat_map(f, a.drop_first())) + concat_map(f, b));
    }
}

/// `concat_map` over one appended item appends what `f` makes of it.
pub proof fn lemma_concat_map_push(f: spec_fn(ItemV) -> Seq<ItemV>, s: Seq<ItemV>, x: ItemV)
    ensures
        concat_map(f, s.push(x)) == concat_map(f, s) + f(x),
{
    assert(s.push(x) =~= s + seq![x]);
    lemma_concat_map_append(f, s, seq![x]);
    assert(seq![x].first() == x);
    assert(seq![x].drop_first() =~= Seq::<ItemV>::empty());
    assert(concat_map(f, seq![x].drop_first()) == Seq::<ItemV>::empty());
    assert(f(x) + Seq::<ItemV>::empty() =~= f(x));
    assert(concat_map(f, seq![x]) =~= f(x));
}

/// One operator distributes over concatenation of inputs.
pub proof fn lemma_apply_op_append(op: OpV, a: Seq<ItemV>, b: Seq<ItemV>)
    ensures
        apply_op(op, a + b) == apply_op(op, a) + apply_op(op, b),
{
    match op {
        OpV::Transform(m) => {
            assert(apply_op(op, a + b) =~= apply_op(op, a) + apply_op(op, b));
        },
        OpV::FlatMap(f) => {
            lemma_concat_map_append(expand_fn(f), a, b);
        },
        OpV::FlattenStream => {
            lemma_concat_map_append(flatten_fn(), a, b);
        },
    }
}

/// A whole operator chain distributes over concatenation of inputs: running
/// a pipeline over two batches separately and joining the outputs in order
/// is the same as running it over the joined input. This is what lets a
/// pool split work between workers.
pub proof fn lemma_run_ops_append(ops: Seq<OpV>, a: Seq<ItemV>, b: Seq<ItemV>)
    ensures
        run_ops(ops, a + b) == run_ops(ops, a) + run_ops(ops, b),
    decreases ops.len(),
{
    if ops.len() > 0 {
        lemma_apply_op_append(ops.first(), a, b);
        lemma_run_ops_append(ops.drop_first(), apply_op(ops.first(), a), apply_op(ops.first(), b));
    }
}

/// Appending one operator applies it after the rest of the chain.
pub proof fn lemma_run_ops_push(ops: Seq<OpV>, op: OpV, input: Seq<ItemV>)
    ensures
        run_ops(ops.push(op), input) == apply_op(op, run_ops(ops, input)),
    decreases ops.len(),
{
    if ops.len() == 0 {
        assert(ops.push(op).drop_first() =~= Seq::<OpV>::empty());
        assert(ops.push(op).first() == op);
        assert(run_ops(ops.push(op), input) == run_ops(
            Seq::<OpV>::empty(),
            apply_op(op, input),
        ));
        assert(run_ops(Seq::<OpV>::empty(), apply_op(op, input)) == apply_op(op, input));
        assert(run_ops(ops, input) == input);
    } else {
        assert(ops.push(op).first() == ops.first());
        assert(ops.push(op).drop_first() =~= ops.drop_first().push(op));
        lemma_run_ops_push(ops.drop_first(), op, apply_op(ops.first(), input));
        assert(run_ops(ops.push(op), input) == run_ops(
            ops.drop_first().push(op),
            apply_op(ops.first(), input),
        ));
        assert(run_ops(ops, input) == run_ops(ops.drop_first(), apply_op(ops.first(), input)));
    }
}

} // verus!

// The executable side: one function per operator kind, each proved to
// produce exactly the items its specification function names, and the
// pipeline builder the sources hand to a pool.

verus! {

/// Apply a one-to-one transform to one item.
fn map_item(m: &MapOp, it: Item) -> (r: Item)
    ensures
        item_view(r) == apply_map(m@, item_view(it)),
{
    match it {
        Result::Err(e) => Result::Err(e),
        Result::Ok(v) => match m {
            MapOp::Identity => Result::Ok(v),
            MapOp::Project(s) => match v.downcast(s) {
                Result::Ok(w) => Result::Ok(w),
                Result::Err(e) => Result::Err(PipeError::Downcast(e)),
            },
            MapOp::SegmentUrl => match v {
                Value::Bytes(b) => match utf8_to_string(&b) {
                    Result::Ok(tail) => {
                        let prefix = String::from_str("http://commoncrawl.s3.amazonaws.com/");
                        let url = prefix.concat(tail.as_str());
                        Result::Ok(Value::Text(url))
                    },
                    Result::Err(_) => Result::Err(
                        PipeError::Decode {
                            message: String::from_str("archive path line is not valid utf-8"),
                        },
                    ),
                },
                other => Result::Err(
                    PipeError::Shape { expected: Kind::Bytes, actual: other.kind() },
                ),
            },
        },
    }
}

/// Apply a one-to-many transform to one item.
fn expand_item(f: &FlatOp, it: Item) -> (r: Vec<Item>)
    ensures
        items_of(r@) == expand(f@, item_view(it)),
{
    let ghost target = expand(f@, item_view(it));
    match it {
        Result::Err(e) => {
            let r = vec![Result::<Value, PipeError>::Err(e)];
            proof {
                assert(items_of(r@) =~= target);
            }
            r
        },
        Result::Ok(v) => match f {
            FlatOp::Lines => match v {
                Value::Bytes(b) => {
                    let ls = crate::lines::split_lines(&b);
                    let mut out: Vec<Item> = Vec::new();
                    let mut k: usize = 0;
                    while k < ls.len()
                        invariant
                            k <= ls@.len(),
                            crate::lines::byte_lines_of(ls@) == crate::lines::lines_of(b@),
                            out@.len() == k,
                            forall|j: int|
                                0 <= j < k ==> items_of(out@)[j] == Result::<
                                    Val,
                                    PipeErrorV,
                                >::Ok(Val::Bytes(crate::lines::lines_of(b@)[j])),
                        decreases ls@.len() - k,
                    {
                        let line = crate::lines::copy_range(&ls[k], 0, ls[k].len());
                        proof {
                            assert(line@ =~= ls@[k as int]@);
                            assert(crate::lines::byte_lines_of(ls@)[k as int] == ls@[k as int]@);
                        }
                        let ghost out_pre = out@;
                        out.push(Result::Ok(Value::Bytes(line)));
                        proof {
                            assert forall|j: int|
                                0 <= j < k + 1 implies items_of(out@)[j] == Result::<
                                Val,
                                PipeErrorV,
                            >::Ok(Val::Bytes(crate::lines::lines_of(b@)[j])) by {
                                assert(items_of(out@)[j] == item_view(out@[j]));
                                if j < k {
                                    assert(out@[j] == out_pre[j]);
                                    assert(items_of(out_pre)[j] == item_view(out_pre[j]));
                                }
                            }
                        }
                        k = k + 1;
                    }
                    proof {
                        assert(items_of(out@) =~= target);
                    }
                    out
                },
                other => {
                    let r = vec![
                        Result::<Value, PipeError>::Err(
                            PipeError::Shape { expected: Kind::Bytes, actual: other.kind() },
                        ),
                    ];
                    proof {
                        assert(items_of(r@) =~= target);
                    }
                    r
                },
            },
        },
    }
}

/// Spread one item's list elements into separate items.
fn flatten_item(it: Item) -> (r: Vec<Item>)
    ensures
        items_of(r@) == flatten_one(item_view(it)),
{
    let ghost target = flatten_one(item_view(it));
    match it {
        Result::Err(e) => {
            let r = vec![Result::<Value, PipeError>::Err(e)];
            proof {
                assert(items_of(r@) =~= target);
            }
            r
        },
        Result::Ok(v) => match v {
            Value::List(es) => {
                let ghost es0 = es@;
                proof {
                    crate::value::lemma_vals_of(es0);
                }
                let mut es = es;
                let mut out: Vec<Item> = Vec::new();
                let mut k: usize = 0;
                let n = es.len();
                while k < n
                    invariant
                        k <= n,
                        n == es0.len(),
                        es@.len() == n - k,
                        forall|j: int| 0 <= j < es@.len() ==> es@[j] == es0[k + j],
                        out@.len() == k,
                        forall|j: int|
                            0 <= j < k ==> items_of(out@)[j] == Result::<Val, PipeErrorV>::Ok(
                                val_of(es0[j]),
                            ),
                    decreases n - k,
                {
                    let ghost es_pre = es@;
                    let w = es.remove(0);
                    proof {
                        assert(es@ =~= es_pre.subrange(1, es_pre.len() as int));
                        assert(w == es0[k as int]);
                    }
                    let ghost out_pre = out@;
                    out.push(Result::Ok(w));
                    proof {
                        assert forall|j: int|
                            0 <= j < k + 1 implies items_of(out@)[j] == Result::<
                            Val,
                            PipeErrorV,
                        >::Ok(val_of(es0[j])) by {
                            assert(items_of(out@)[j] == item_view(out@[j]));
                            if j < k {
                                assert(out@[j] == out_pre[j]);
                                assert(items_of(out_pre)[j] == item_view(out_pre[j]));
                            }
                        }
                    }
                    k = k + 1;
                }
                proof {
                    crate::value::lemma_vals_of(es0);
                    assert(items_of(out@) =~= target);
                }
                out
            },
            other => {
                let r = vec![
                    Result::<Value, PipeError>::Err(
                        PipeError::Shape { expected: Kind::List, actual: other.kind() },
                    ),
                ];
                proof {
                    assert(items_of(r@) =~= target);
                }
                r
            },
        },
    }
}

/// Apply one operator to a whole batch of items.
fn apply_op_exec(op: &Op, input: Vec<Item>) -> (r: Vec<Item>)
    ensures
        items_of(r@) == apply_op(op@, items_of(input@)),
{
    let ghost g0 = items_of(input@);
    let mut input = input;
    let mut out: Vec<Item> = Vec::new();
    let mut k: usize = 0;
    let n = input.len();
    match op {
        Op::Transform(m) => {
            while k < n
                invariant
                    k <= n,
                    n == g0.len(),
                    input@.len() == n - k,
                    forall|j: int| 0 <= j < input@.len() ==> item_view(input@[j]) == g0[k + j],
                    out@.len() == k,
                    forall|j: int|
                        0 <= j < k ==> items_of(out@)[j] == apply_map(m@, g0[j]),
                decreases n - k,
            {
                let ghost in_pre = input@;
                let it = input.remove(0);
                proof {
                    assert(input@ =~= in_pre.subrange(1, in_pre.len() as int));
                    assert(item_view(it) == g0[k as int]);
                }
                let w = map_item(m, it);
                let ghost out_pre = out@;
                out.push(w);
                proof {
                    assert forall|j: int|
                        0 <= j < k + 1 implies items_of(out@)[j] == apply_map(m@, g0[j]) by {
                        assert(items_of(out@)[j] == item_view(out@[j]));
                        if j < k {
                            assert(out@[j] == out_pre[j]);
                            assert(items_of(out_pre)[j] == item_view(out_pre[j]));
                        }
                    }
                }
                k = k + 1;
            }
            proof {
                assert(items_of(out@) =~= apply_op(op@, g0));
            }
            out
        },
        Op::FlatMap(f) => {
            while k < n
                invariant
                    k <= n,
                    n == g0.len(),
                    input@.len() == n - k,
                    forall|j: int| 0 <= j < input@.len() ==> item_view(input@[j]) == g0[k + j],
                    items_of(out@) == concat_map(expand_fn(f@), g0.subrange(0, k as int)),
                decreases n - k,
            {
                let ghost in_pre = input@;
                let it = input.remove(0);
                proof {
                    assert(input@ =~= in_pre.subrange(1, in_pre.len() as int));
                    assert(item_view(it) == g0[k as int]);
                }
                let mut chunk = expand_item(f, it);
                let ghost out_pre = out@;
                let ghost chunk_v = chunk@;
                out.append(&mut chunk);
                proof {
                    assert(items_of(out@) =~= items_of(out_pre) + items_of(chunk_v));
                    lemma_concat_map_push(expand_fn(f@), g0.subrange(0, k as int), g0[k as int]);
                    assert(g0.subrange(0, k as int).push(g0[k as int]) =~= g0.subrange(
                        0,
                        k as int + 1,
                    ));
                    assert(expand_fn(f@)(g0[k as int]) == expand(f@, g0[k as int]));
                }
                k = k + 1;
            }
            proof {
                assert(g0.subrange(0, n as int) =~= g0);
            }
            out
        },
        Op::FlattenStream => {
            while k < n
                invariant
                    k <= n,
                    n == g0.len(),
                    input@.len() == n - k,
                    forall|j: int| 0 <= j < input@.len() ==> item_view(input@[j]) == g0[k + j],
                    items_of(out@) == concat_map(flatten_fn(), g0.subrange(0, k as int)),
                decreases n - k,
            {
                let ghost in_pre = input@;
                let it = input.remove(0);
                proof {
                    assert(input@ =~= in_pre.subrange(1, in_pre.len() as int));
                    assert(item_view(it) == g0[k as int]);
                }
                let mut chunk = flatten_item(it);
                let ghost out_pre = out@;
                let ghost chunk_v = chunk@;
                out.append(&mut chunk);
                proof {
                    assert(items_of(out@) =~= items_of(out_pre) + items_of(chunk_v));
                    lemma_concat_map_push(flatten_fn(), g0.subrange(0, k as int), g0[k as int]);
                    assert(g0.subrange(0, k as int).push(g0[k as int]) =~= g0.subrange(
                        0,
                        k as int + 1,
                    ));
                    assert(flatten_fn()(g0[k as int]) == flatten_one(g0[k as int]));
                }
                k = k + 1;
            }
            proof {
                assert(g0.subrange(0, n as int) =~= g0);
            }
            out
        },
    }
}

/// A pipeline: the operator chain a source's records are pulled through.
/// Nothing runs until a worker pool drives the pipeline to a terminal
/// `count` or `collect`.
#[derive(Debug)]
pub struct Pipeline {
    pub ops: Vec<Op>,
}

impl Pipeline {
    /// The empty chain: items flow through unchanged.
    pub fn new() -> (p: Pipeline)
        ensures
            ops_of(p.ops@) == Seq::<OpV>::empty(),
    {
        let p = Pipeline { ops: Vec::new() };
        proof {
            assert(ops_of(p.ops@) =~= Seq::<OpV>::empty());
        }
        p
    }

    /// Append a one-to-one transform stage.
    pub fn map(self, m: MapOp) -> (p: Pipeline)
        ensures
            ops_of(p.ops@) == ops_of(self.ops@).push(OpV::Transform(m@)),
    {
        let ghost before = ops_of(self.ops@);
        let mut ops = self.ops;
        ops.push(Op::Transform(m));
        proof {
            assert(ops_of(ops@) =~= before.push(OpV::Transform(m@)));
        }
        Pipeline { ops }
    }

    /// Append a one-to-many transform stage.
    pub fn flat_map(self, f: FlatOp) -> (p: Pipeline)
        ensures
            ops_of(p.ops@) == ops_of(self.ops@).push(OpV::FlatMap(f@)),
    {
        let ghost before = ops_of(self.ops@);
        let mut ops = self.ops;
        ops.push(Op::FlatMap(f));
        proof {
            assert(ops_of(ops@) =~= before.push(OpV::FlatMap(f@)));
        }
        Pipeline { ops }
    }

    /// Append a flattening stage: list-valued items spread into their
    /// elements, outer order preserved.
    pub fn flatten_stream(self) -> (p: Pipeline)
        ensures
            ops_of(p.ops@) == ops_of(self.ops@).push(OpV::FlattenStream),
    {
        let ghost before = ops_of(self.ops@);
        let mut ops = self.ops;
        ops.push(Op::FlattenStream);
        proof {
            assert(ops_of(ops@) =~= before.push(OpV::FlattenStream));
        }
        Pipeline { ops }
    }

    /// Pull a batch of items through the whole chain.
    pub fn run(&self, input: Vec<Item>) -> (r: Vec<Item>)
        ensures
            items_of(r@) == run_ops(ops_of(self.ops@), items_of(input@)),
    {
        let ghost opsv = ops_of(self.ops@);
        let ghost in0 = items_of(input@);
        let mut cur = input;
        let mut k: usize = 0;
        while k < self.ops.len()
            invariant
                k <= self.ops@.len(),
                opsv == ops_of(self.ops@),
                opsv.len() == self.ops@.len(),
                items_of(cur@) == run_ops(opsv.subrange(0, k as int), in0),
            decreases self.ops@.len() - k,
        {
            cur = apply_op_exec(&self.ops[k], cur);
            proof {
                lemma_run_ops_push(opsv.subrange(0, k as int), opsv[k as int], in0);
                assert(opsv.subrange(0, k as int).push(opsv[k as int]) =~= opsv.subrange(
                    0,
                    k as int + 1,
                ));
            }
            k = k + 1;
        }
        proof {
            assert(opsv.subrange(0, self.ops@.len() as int) =~= opsv);
        }
        cur
    }
}

} // verus!

verus! {

/// Row-count equivalence: reading rows through any projection — the exact
/// positional tuple shape, an equivalent named record shape, or none at
/// all — yields one output item per input row, so every reading of the
/// same input produces the same row count; and because the projection of a
/// row is a function of the row and the target shape alone, repeating it
/// on equal rows yields equal records.
pub proof fn lemma_row_count_equivalence(a: SchemaV, b: SchemaV, rows: Seq<ItemV>)
    ensures
        apply_op(OpV::Transform(MapOpV::Project(a)), rows).len() == rows.len(),
        apply_op(OpV::Transform(MapOpV::Project(b)), rows).len() == rows.len(),
        apply_op(OpV::Transform(MapOpV::Identity), rows).len() == rows.len(),
{
}

} // verus!
