//! Schema-directed downcast: conversion from a dynamic `Value` to a
//! statically declared target shape. The conversion is total over the subset
//! relation — it succeeds exactly when every field the target requires is
//! present and shape-compatible — and reports a typed error naming the
//! offending field path otherwise.

use vstd::prelude::*;

use crate::schema::{schema_of, schemas_of, schema_fields_of, Field, FieldV, Schema, SchemaV};
use crate::value::{
    dict_vals_of, field_vals_of, val_of, vals_of, DictEntry, DictEntryV, GroupField, GroupFieldV,
    Kind, Val, Value,
};

verus! {

broadcast use vstd::std_specs::vec::group_vec_axioms;

/// What went wrong at the offending position: a variant-kind mismatch, a
/// required field missing from the source group, or a positional target
/// whose arity differs from the source group's.
#[derive(Debug, PartialEq, Eq, Clone)]
pub enum ErrorDetail {
    Mismatch { expected: Kind, actual: Kind },
    Missing { field: String },
    Arity { expected: usize, actual: usize },
}

/// A failed downcast: the path of field names leading from the target's root
/// to the offending position, and the mismatch found there.
#[derive(Debug, PartialEq, Clone)]
pub struct DowncastError {
    pub path: Vec<String>,
    pub detail: ErrorDetail,
}

/// The mirror of an `ErrorDetail`.
#[verifier::ext_equal]
pub enum ErrorDetailV {
    Mismatch { expected: Kind, actual: Kind },
    Missing { field: Seq<char> },
    Arity { expected: int, actual: int },
}

/// The mirror of a `DowncastError`.
#[verifier::ext_equal]
pub struct DowncastErrorV {
    pub path: Seq<Seq<char>>,
    pub detail: ErrorDetailV,
}

impl View for ErrorDetail {
    type V = ErrorDetailV;

    open spec fn view(&self) -> ErrorDetailV {
        match self {
            ErrorDetail::Mismatch { expected, actual } => ErrorDetailV::Mismatch {
                expected: *expected,
                actual: *actual,
            },
            ErrorDetail::Missing { field } => ErrorDetailV::Missing { field: field@ },
            ErrorDetail::Arity { expected, actual } => ErrorDetailV::Arity {
                expected: *expected as int,
                actual: *actual as int,
            },
        }
    }
}

impl View for DowncastError {
    type V = DowncastErrorV;

    open spec fn view(&self) -> DowncastErrorV {
        DowncastErrorV {
            path: Seq::new(self.path@.len(), |i: int| self.path@[i]@),
            detail: self.detail@,
        }
    }
}

impl DowncastErrorV {
    /// The same error, seen one group level further out.
    pub open spec fn nested_in(self, name: Seq<char>) -> DowncastErrorV {
        DowncastErrorV { path: seq![name] + self.path, detail: self.detail }
    }
}

/// A kind mismatch at the current position, with an empty path.
pub open spec fn mismatch(expected: Kind, actual: Kind) -> DowncastErrorV {
    DowncastErrorV { path: Seq::empty(), detail: ErrorDetailV::Mismatch { expected, actual } }
}

/// The first group entry carrying `name`, scanning left to right.
pub open spec fn find_entry(entries: Seq<GroupFieldV>, name: Seq<char>) -> Option<Val>
    decreases entries.len(),
{
    if entries.len() == 0 {
        Option::None
    } else if entries.first().name == name {
        Option::Some(entries.first().value)
    } else {
        find_entry(entries.drop_first(), name)
    }
}

/// The meaning of `downcast`: the projected value a downcast of `v` to shape
/// `s` produces, or the error it reports.
///
/// Primitive shapes demand the exact variant; `List` and `Dict` recurse over
/// their contents (`Dict` over all keys, then all values); `Opt` accepts the
/// wrapped-absent case, unwraps the wrapped-present case, and otherwise
/// treats the value itself as present; `Tuple` matches group entries by
/// position after an arity check; `Record` locates each declared field by
/// its lookup name, mapping absence to the empty optional when the field's
/// shape is optional and to a missing-field error otherwise. Source group
/// entries that no target field names are dropped. The leftmost failure is
/// the one reported.
pub open spec fn sd(v: Val, s: SchemaV) -> Result<Val, DowncastErrorV>
    decreases s, 0int,
{
    match s {
        SchemaV::Bool => match v {
            Val::Bool(..) => Result::Ok(v),
            _ => Result::Err(mismatch(Kind::Bool, v.kind())),
        },
        SchemaV::I8 => match v {
            Val::I8(..) => Result::Ok(v),
            _ => Result::Err(mismatch(Kind::I8, v.kind())),
        },
        SchemaV::I16 => match v {
            Val::I16(..) => Result::Ok(v),
            _ => Result::Err(mismatch(Kind::I16, v.kind())),
        },
        SchemaV::I32 => match v {
            Val::I32(..) => Result::Ok(v),
            _ => Result::Err(mismatch(Kind::I32, v.kind())),
        },
        SchemaV::I64 => match v {
            Val::I64(..) => Result::Ok(v),
            _ => Result::Err(mismatch(Kind::I64, v.kind())),
        },
        SchemaV::U8 => match v {
            Val::U8(..) => Result::Ok(v),
            _ => Result::Err(mismatch(Kind::U8, v.kind())),
        },
        SchemaV::U16 => match v {
            Val::U16(..) => Result::Ok(v),
            _ => Result::Err(mismatch(Kind::U16, v.kind())),
        },
        SchemaV::U32 => match v {
            Val::U32(..) => Result::Ok(v),
            _ => Result::Err(mismatch(Kind::U32, v.kind())),
        },
        SchemaV::U64 => match v {
            Val::U64(..) => Result::Ok(v),
            _ => Result::Err(mismatch(Kind::U64, v.kind())),
        },
        SchemaV::F32 => match v {
            Val::F32Bits(..) => Result::Ok(v),
            _ => Result::Err(mismatch(Kind::F32, v.kind())),
        },
        SchemaV::F64 => match v {
            Val::F64Bits(..) => Result::Ok(v),
            _ => Result::Err(mismatch(Kind::F64, v.kind())),
        },
        SchemaV::Bytes => match v {
            Val::Bytes(..) => Result::Ok(v),
            _ => Result::Err(mismatch(Kind::Bytes, v.kind())),
        },
        SchemaV::Text => match v {
            Val::Text(..) => Result::Ok(v),
            _ => Result::Err(mismatch(Kind::Text, v.kind())),
        },
        SchemaV::Timestamp => match v {
            Val::Timestamp(..) => Result::Ok(v),
            _ => Result::Err(mismatch(Kind::Timestamp, v.kind())),
        },
        SchemaV::List(elem) => match v {
            Val::List(es) => match sd_elems(es, *elem) {
                Result::Ok(ws) => Result::Ok(Val::List(ws)),
                Result::Err(e) => Result::Err(e),
            },
            _ => Result::Err(mismatch(Kind::List, v.kind())),
        },
        SchemaV::Dict(ks, vs) => match v {
            Val::Dict(es) => {
                let keys = Seq::new(es.len(), |i: int| es[i].key);
                let vals = Seq::new(es.len(), |i: int| es[i].value);
                match sd_elems(keys, *ks) {
                    Result::Err(e) => Result::Err(e),
                    Result::Ok(wk) => match sd_elems(vals, *vs) {
                        Result::Err(e) => Result::Err(e),
                        Result::Ok(wv) => Result::Ok(
                            Val::Dict(
                                Seq::new(es.len(), |i: int| DictEntryV { key: wk[i], value: wv[i] }),
                            ),
                        ),
                    },
                }
            },
            _ => Result::Err(mismatch(Kind::Dict, v.kind())),
        },
        SchemaV::Opt(inner) => match v {
            Val::Opt(o) => match o {
                Option::None => Result::Ok(Val::Opt(Option::None)),
                Option::Some(w) => match sd(*w, *inner) {
                    Result::Ok(r) => Result::Ok(Val::Opt(Option::Some(Box::new(r)))),
                    Result::Err(e) => Result::Err(e),
                },
            },
            _ => match sd(v, *inner) {
                Result::Ok(r) => Result::Ok(Val::Opt(Option::Some(Box::new(r)))),
                Result::Err(e) => Result::Err(e),
            },
        },
        SchemaV::Tuple(schemas) => match v {
            Val::Group(es) => {
                if es.len() != schemas.len() {
                    Result::Err(
                        DowncastErrorV {
                            path: Seq::empty(),
                            detail: ErrorDetailV::Arity {
                                expected: schemas.len() as int,
                                actual: es.len() as int,
                            },
                        },
                    )
                } else {
                    match sd_positional(es, schemas) {
                        Result::Ok(ws) => Result::Ok(Val::Group(ws)),
                        Result::Err(e) => Result::Err(e),
                    }
                }
            },
            _ => Result::Err(mismatch(Kind::Group, v.kind())),
        },
        SchemaV::Record(fields) => match v {
            Val::Group(es) => match sd_fields(es, fields) {
                Result::Ok(ws) => Result::Ok(Val::Group(ws)),
                Result::Err(e) => Result::Err(e),
            },
            _ => Result::Err(mismatch(Kind::Group, v.kind())),
        },
    }
}

/// Element-wise downcast of a sequence of values to one element shape; the
/// leftmost failing element's error wins.
pub open spec fn sd_elems(es: Seq<Val>, elem: SchemaV) -> Result<Seq<Val>, DowncastErrorV>
    decreases elem, es.len() + 1,
{
    if es.len() == 0 {
        Result::Ok(Seq::empty())
    } else {
        match sd_elems(es.drop_last(), elem) {
            Result::Err(e) => Result::Err(e),
            Result::Ok(ws) => match sd(es.last(), elem) {
                Result::Ok(w) => Result::Ok(ws.push(w)),
                Result::Err(e) => Result::Err(e),
            },
        }
    }
}

/// Position-wise downcast of group entries against a tuple's shapes, both
/// sequences being of equal length; the result keeps the source entry names,
/// and an inner error is reported under the failing entry's name.
pub open spec fn sd_positional(
    es: Seq<GroupFieldV>,
    schemas: Seq<SchemaV>,
) -> Result<Seq<GroupFieldV>, DowncastErrorV>
    decreases schemas, 0int,
{
    if schemas.len() == 0 || es.len() == 0 {
        Result::Ok(Seq::empty())
    } else {
        match sd_positional(es.drop_last(), schemas.drop_last()) {
            Result::Err(e) => Result::Err(e),
            Result::Ok(ws) => match sd(es.last().value, schemas.last()) {
                Result::Ok(w) => Result::Ok(
                    ws.push(GroupFieldV { name: es.last().name, value: w }),
                ),
                Result::Err(e) => Result::Err(e.nested_in(es.last().name)),
            },
        }
    }
}

/// Field-wise downcast of a record target against a source group: each
/// declared field is located by its lookup name; absence maps to the empty
/// optional for optional field shapes and to a missing-field error
/// otherwise; an inner error is reported under the declared field's name.
/// The result carries the target's declared field names.
pub open spec fn sd_fields(
    es: Seq<GroupFieldV>,
    fields: Seq<FieldV>,
) -> Result<Seq<GroupFieldV>, DowncastErrorV>
    decreases fields, 0int,
{
    if fields.len() == 0 {
        Result::Ok(Seq::empty())
    } else {
        match sd_fields(es, fields.drop_last()) {
            Result::Err(e) => Result::Err(e),
            Result::Ok(ws) => {
                let f = fields.last();
                match find_entry(es, f.lookup_name()) {
                    Option::Some(v0) => match sd(v0, f.schema) {
                        Result::Ok(w) => Result::Ok(
                            ws.push(GroupFieldV { name: f.name, value: w }),
                        ),
                        Result::Err(e) => Result::Err(e.nested_in(f.name)),
                    },
                    Option::None => {
                        if f.schema is Opt {
                            Result::Ok(
                                ws.push(
                                    GroupFieldV { name: f.name, value: Val::Opt(Option::None) },
                                ),
                            )
                        } else {
                            Result::Err(
                                DowncastErrorV {
                                    path: seq![f.name],
                                    detail: ErrorDetailV::Missing { field: f.lookup_name() },
                                },
                            )
                        }
                    },
                }
            },
        }
    }
}

} // verus!

// Reasoning principles for the element-wise helpers: how they read on a
// prefix extended by one element, how an error in a prefix decides the
// whole, and what a success says element by element.

verus! {

/// Extending the input by one element extends a successful element-wise
/// downcast by that element's result.
pub proof fn lemma_sd_elems_snoc(es: Seq<Val>, x: Val, elem: SchemaV)
    ensures
        sd_elems(es.push(x), elem) == match sd_elems(es, elem) {
            Result::Err(e) => Result::<Seq<Val>, DowncastErrorV>::Err(e),
            Result::Ok(ws) => match sd(x, elem) {
                Result::Ok(w) => Result::Ok(ws.push(w)),
                Result::Err(e) => Result::Err(e),
            },
        },
{
    assert(es.push(x).drop_last() =~= es);
    assert(es.push(x).last() == x);
}

/// A failing prefix decides the element-wise downcast of the whole input.
pub proof fn lemma_sd_elems_prefix_err(es: Seq<Val>, elem: SchemaV, j: int)
    requires
        0 <= j <= es.len(),
        sd_elems(es.subrange(0, j), elem) is Err,
    ensures
        sd_elems(es, elem) == sd_elems(es.subrange(0, j), elem),
    decreases es.len() - j,
{
    if j == es.len() {
        assert(es.subrange(0, j) =~= es);
    } else {
        let p = es.subrange(0, j + 1);
        assert(p.drop_last() =~= es.subrange(0, j));
        lemma_sd_elems_prefix_err(es, elem, j + 1);
    }
}

/// A successful element-wise downcast succeeds on, and is built from, every
/// single element.
pub proof fn lemma_sd_elems_ok(es: Seq<Val>, elem: SchemaV)
    requires
        sd_elems(es, elem) is Ok,
    ensures
        sd_elems(es, elem)->Ok_0.len() == es.len(),
        forall|i: int|
            0 <= i < es.len() ==> (#[trigger] sd(es[i], elem)) is Ok && sd_elems(es, elem)->Ok_0[i]
                == sd(es[i], elem)->Ok_0,
    decreases es.len(),
{
    if es.len() > 0 {
        lemma_sd_elems_ok(es.drop_last(), elem);
        assert forall|i: int|
            0 <= i < es.len() implies (#[trigger] sd(es[i], elem)) is Ok && sd_elems(
            es,
            elem,
        )->Ok_0[i] == sd(es[i], elem)->Ok_0 by {
            if i < es.len() - 1 {
                assert(es.drop_last()[i] == es[i]);
                assert(sd(es.drop_last()[i], elem) is Ok);
            } else {
                assert(es.last() == es[i]);
            }
        }
    }
}

/// Position-wise analogue of `lemma_sd_elems_snoc`.
pub proof fn lemma_sd_positional_snoc(
    es: Seq<GroupFieldV>,
    e: GroupFieldV,
    schemas: Seq<SchemaV>,
    s: SchemaV,
)
    requires
        es.len() == schemas.len(),
    ensures
        sd_positional(es.push(e), schemas.push(s)) == match sd_positional(es, schemas) {
            Result::Err(err) => Result::<Seq<GroupFieldV>, DowncastErrorV>::Err(err),
            Result::Ok(ws) => match sd(e.value, s) {
                Result::Ok(w) => Result::Ok(ws.push(GroupFieldV { name: e.name, value: w })),
                Result::Err(err) => Result::Err(err.nested_in(e.name)),
            },
        },
{
    assert(es.push(e).drop_last() =~= es);
    assert(schemas.push(s).drop_last() =~= schemas);
}

/// A failing prefix decides the position-wise downcast of the whole input.
pub proof fn lemma_sd_positional_prefix_err(es: Seq<GroupFieldV>, schemas: Seq<SchemaV>, j: int)
    requires
        es.len() == schemas.len(),
        0 <= j <= es.len(),
        sd_positional(es.subrange(0, j), schemas.subrange(0, j)) is Err,
    ensures
        sd_positional(es, schemas) == sd_positional(es.subrange(0, j), schemas.subrange(0, j)),
    decreases es.len() - j,
{
    if j == es.len() {
        assert(es.subrange(0, j) =~= es);
        assert(schemas.subrange(0, j) =~= schemas);
    } else {
        let p = es.subrange(0, j + 1);
        let q = schemas.subrange(0, j + 1);
        assert(p.drop_last() =~= es.subrange(0, j));
        assert(q.drop_last() =~= schemas.subrange(0, j));
        lemma_sd_positional_prefix_err(es, schemas, j + 1);
    }
}

/// Field-wise analogue of `lemma_sd_elems_snoc`.
pub proof fn lemma_sd_fields_snoc(es: Seq<GroupFieldV>, fields: Seq<FieldV>, f: FieldV)
    ensures
        sd_fields(es, fields.push(f)) == match sd_fields(es, fields) {
            Result::Err(err) => Result::<Seq<GroupFieldV>, DowncastErrorV>::Err(err),
            Result::Ok(ws) => match find_entry(es, f.lookup_name()) {
                Option::Some(v0) => match sd(v0, f.schema) {
                    Result::Ok(w) => Result::Ok(ws.push(GroupFieldV { name: f.name, value: w })),
                    Result::Err(err) => Result::Err(err.nested_in(f.name)),
                },
                Option::None => if f.schema is Opt {
                    Result::Ok(
                        ws.push(GroupFieldV { name: f.name, value: Val::Opt(Option::None) }),
                    )
                } else {
                    Result::Err(
                        DowncastErrorV {
                            path: seq![f.name],
                            detail: ErrorDetailV::Missing { field: f.lookup_name() },
                        },
                    )
                },
            },
        },
{
    assert(fields.push(f).drop_last() =~= fields);
}

/// A failing prefix of the declared fields decides the field-wise downcast.
pub proof fn lemma_sd_fields_prefix_err(es: Seq<GroupFieldV>, fields: Seq<FieldV>, j: int)
    requires
        0 <= j <= fields.len(),
        sd_fields(es, fields.subrange(0, j)) is Err,
    ensures
        sd_fields(es, fields) == sd_fields(es, fields.subrange(0, j)),
    decreases fields.len() - j,
{
    if j == fields.len() {
        assert(fields.subrange(0, j) =~= fields);
    } else {
        let q = fields.subrange(0, j + 1);
        assert(q.drop_last() =~= fields.subrange(0, j));
        lemma_sd_fields_prefix_err(es, fields, j + 1);
    }
}

/// Scanning past non-matching entries leaves the located entry unchanged.
pub proof fn lemma_find_entry_skip(entries: Seq<GroupFieldV>, name: Seq<char>, i: int)
    requires
        0 <= i <= entries.len(),
        forall|j: int| 0 <= j < i ==> (#[trigger] entries[j].name) != name,
    ensures
        find_entry(entries, name) == find_entry(entries.subrange(i, entries.len() as int), name),
    decreases i,
{
    if i == 0 {
        assert(entries.subrange(0, entries.len() as int) =~= entries);
    } else {
        lemma_find_entry_skip(entries, name, i - 1);
        let s1 = entries.subrange(i - 1, entries.len() as int);
        assert(s1.first() == entries[i - 1]);
        assert(entries[i - 1].name != name);
        assert(s1.drop_first() =~= entries.subrange(i, entries.len() as int));
        assert(find_entry(s1, name) == find_entry(s1.drop_first(), name));
    }
}

} // verus!

// The executable downcast: a faithful implementation of `sd`, one helper per
// spec helper, each proved to return exactly what the spec says.

verus! {

/// A kind-mismatch error at the current position.
fn kind_mismatch(expected: Kind, v: &Value) -> (e: DowncastError)
    ensures
        e@ == mismatch(expected, v@.kind()),
{
    let e = DowncastError {
        path: Vec::new(),
        detail: ErrorDetail::Mismatch { expected, actual: v.kind() },
    };
    proof {
        assert(e@ =~= mismatch(expected, v@.kind()));
    }
    e
}

/// The same error, reported one group level further out under `name`.
fn nest_error(e: DowncastError, name: &String) -> (r: DowncastError)
    ensures
        r@ == e@.nested_in(name@),
{
    let ghost e0 = e@;
    let mut e = e;
    e.path.insert(0, name.clone());
    proof {
        assert(e@.path =~= seq![name@] + e0.path);
        assert(e@ =~= e0.nested_in(name@));
    }
    e
}

/// A fresh copy of a byte vector.
fn copy_bytes(b: &Vec<u8>) -> (r: Vec<u8>)
    ensures
        r@ == b@,
{
    let mut r: Vec<u8> = Vec::new();
    let mut i: usize = 0;
    while i < b.len()
        invariant
            i <= b.len(),
            r@.len() == i,
            forall|j: int| 0 <= j < i ==> r@[j] == b@[j],
        decreases b.len() - i,
    {
        r.push(b[i]);
        i = i + 1;
    }
    proof {
        assert(r@ =~= b@);
    }
    r
}

/// The index of the first group entry named `name`, scanning left to right.
fn find_in_group(es: &Vec<GroupField>, name: &String) -> (r: Option<usize>)
    ensures
        match r {
            Option::Some(i) => i < es.len() && find_entry(field_vals_of(es@), name@)
                == Option::Some(val_of(es@[i as int].value)),
            Option::None => find_entry(field_vals_of(es@), name@) is None,
        },
{
    let ghost fv = field_vals_of(es@);
    proof {
        crate::value::lemma_field_vals_of(es@);
    }
    let mut i: usize = 0;
    while i < es.len()
        invariant
            i <= es.len(),
            fv == field_vals_of(es@),
            fv.len() == es@.len(),
            forall|j: int| 0 <= j < i ==> (#[trigger] fv[j].name) != name@,
        decreases es.len() - i,
    {
        proof {
            crate::value::lemma_field_vals_of(es@);
        }
        if es[i].name == *name {
            proof {
                lemma_find_entry_skip(fv, name@, i as int);
                let s1 = fv.subrange(i as int, fv.len() as int);
                assert(s1.first() == fv[i as int]);
                assert(fv[i as int].name == name@);
            }
            return Option::Some(i);
        }
        proof {
            assert(fv[i as int].name != name@);
        }
        i = i + 1;
    }
    proof {
        lemma_find_entry_skip(fv, name@, fv.len() as int);
        assert(fv.subrange(fv.len() as int, fv.len() as int) =~= Seq::<GroupFieldV>::empty());
    }
    Option::None
}

impl Value {
    /// Downcast this value to the statically declared shape `s`, producing
    /// the projected value shaped by the target, or the typed error that
    /// `sd` assigns to this value and shape. The conversion reads the source
    /// only; it is repeatable and never panics. When the target shape is
    /// well formed (`SchemaV::wf`) and the source's groups carry unique
    /// names, so does the result's — see `lemma_sd_preserves_groups_wf`.
    #[verifier::rlimit(100)]
    pub fn downcast(&self, s: &Schema) -> (r: Result<Value, DowncastError>)
        ensures
            r is Ok <==> sd(self@, s@) is Ok,
            r matches Ok(w) ==> w@ == sd(self@, s@)->Ok_0,
            r matches Err(e) ==> e@ == sd(self@, s@)->Err_0,
        decreases *s, 0int,
    {
        broadcast use crate::value::lemma_vals_of, crate::value::lemma_dict_vals_of, crate::value::lemma_field_vals_of, crate::schema::lemma_schemas_of, crate::schema::lemma_schema_fields_of;

        match s {
            Schema::Bool => match self {
                Value::Bool(b) => Result::Ok(Value::Bool(*b)),
                _ => Result::Err(kind_mismatch(Kind::Bool, self)),
            },
            Schema::I8 => match self {
                Value::I8(x) => Result::Ok(Value::I8(*x)),
                _ => Result::Err(kind_mismatch(Kind::I8, self)),
            },
            Schema::I16 => match self {
                Value::I16(x) => Result::Ok(Value::I16(*x)),
                _ => Result::Err(kind_mismatch(Kind::I16, self)),
            },
            Schema::I32 => match self {
                Value::I32(x) => Result::Ok(Value::I32(*x)),
                _ => Result::Err(kind_mismatch(Kind::I32, self)),
            },
            Schema::I64 => match self {
                Value::I64(x) => Result::Ok(Value::I64(*x)),
                _ => Result::Err(kind_mismatch(Kind::I64, self)),
            },
            Schema::U8 => match self {
                Value::U8(x) => Result::Ok(Value::U8(*x)),
                _ => Result::Err(kind_mismatch(Kind::U8, self)),
            },
            Schema::U16 => match self {
                Value::U16(x) => Result::Ok(Value::U16(*x)),
                _ => Result::Err(kind_mismatch(Kind::U16, self)),
            },
            Schema::U32 => match self {
                Value::U32(x) => Result::Ok(Value::U32(*x)),
                _ => Result::Err(kind_mismatch(Kind::U32, self)),
            },
            Schema::U64 => match self {
                Value::U64(x) => Result::Ok(Value::U64(*x)),
                _ => Result::Err(kind_mismatch(Kind::U64, self)),
            },
            Schema::F32 => match self {
                Value::F32Bits(x) => Result::Ok(Value::F32Bits(*x)),
                _ => Result::Err(kind_mismatch(Kind::F32, self)),
            },
            Schema::F64 => match self {
                Value::F64Bits(x) => Result::Ok(Value::F64Bits(*x)),
                _ => Result::Err(kind_mismatch(Kind::F64, self)),
            },
            Schema::Bytes => match self {
                Value::Bytes(b) => Result::Ok(Value::Bytes(copy_bytes(b))),
                _ => Result::Err(kind_mismatch(Kind::Bytes, self)),
            },
            Schema::Text => match self {
                Value::Text(t) => Result::Ok(Value::Text(t.clone())),
                _ => Result::Err(kind_mismatch(Kind::Text, self)),
            },
            Schema::Timestamp => match self {
                Value::Timestamp(t) => Result::Ok(Value::Timestamp(*t)),
                _ => Result::Err(kind_mismatch(Kind::Timestamp, self)),
            },
            Schema::List(elem) => match self {
                Value::List(es) => match downcast_elems(es, elem) {
                    Result::Ok(ws) => Result::Ok(Value::List(ws)),
                    Result::Err(e) => Result::Err(e),
                },
                _ => Result::Err(kind_mismatch(Kind::List, self)),
            },
            Schema::Dict(ks, vs) => match self {
                Value::Dict(es) => {
                    proof {
                        crate::value::lemma_dict_vals_of(es@);
                    }
                    match downcast_dict_keys(es, ks) {
                        Result::Err(e) => Result::Err(e),
                        Result::Ok(wk) => {
                            proof {
                                let keys = Seq::new(
                                    dict_vals_of(es@).len(),
                                    |i: int| dict_vals_of(es@)[i].key,
                                );
                                lemma_sd_elems_ok(keys, schema_of(**ks));
                            }
                            match downcast_dict_vals(es, vs, wk) {
                                Result::Err(e) => Result::Err(e),
                                Result::Ok(out) => Result::Ok(Value::Dict(out)),
                            }
                        },
                    }
                },
                _ => Result::Err(kind_mismatch(Kind::Dict, self)),
            },
            Schema::Opt(inner) => match self {
                Value::Opt(o) => match o {
                    Option::None => Result::Ok(Value::Opt(Option::None)),
                    Option::Some(b) => match (**b).downcast(inner) {
                        Result::Ok(w) => Result::Ok(
                            Value::Opt(Option::Some(Box::new(w))),
                        ),
                        Result::Err(e) => Result::Err(e),
                    },
                },
                _ => match self.downcast(inner) {
                    Result::Ok(w) => Result::Ok(Value::Opt(Option::Some(Box::new(w)))),
                    Result::Err(e) => Result::Err(e),
                },
            },
            Schema::Tuple(schemas) => match self {
                Value::Group(es) => {
                    if es.len() != schemas.len() {
                        let e = DowncastError {
                            path: Vec::new(),
                            detail: ErrorDetail::Arity {
                                expected: schemas.len(),
                                actual: es.len(),
                            },
                        };
                        proof {
                            crate::value::lemma_field_vals_of(es@);
                            crate::schema::lemma_schemas_of(schemas@);
                            assert(e@ =~= sd(self@, s@)->Err_0);
                        }
                        Result::Err(e)
                    } else {
                        match downcast_positional(es, schemas) {
                            Result::Ok(ws) => Result::Ok(Value::Group(ws)),
                            Result::Err(e) => Result::Err(e),
                        }
                    }
                },
                _ => Result::Err(kind_mismatch(Kind::Group, self)),
            },
            Schema::Record(fields) => match self {
                Value::Group(es) => match downcast_fields(es, fields) {
                    Result::Ok(ws) => Result::Ok(Value::Group(ws)),
                    Result::Err(e) => Result::Err(e),
                },
                _ => Result::Err(kind_mismatch(Kind::Group, self)),
            },
        }
    }
}

/// Element-wise downcast of a vector of values, mirroring `sd_elems`.
fn downcast_elems(es: &Vec<Value>, elem: &Schema) -> (r: Result<Vec<Value>, DowncastError>)
    ensures
        ({
            let spec = sd_elems(vals_of(es@), schema_of(*elem));
            match r {
                Result::Ok(ws) => spec is Ok && vals_of(ws@) == spec->Ok_0,
                Result::Err(e) => spec is Err && e@ == spec->Err_0,
            }
        }),
    decreases *elem, 1int,
{
    broadcast use crate::value::lemma_vals_of;

    let ghost vv = vals_of(es@);
    proof {
        crate::value::lemma_vals_of(es@);
    }
    let mut out: Vec<Value> = Vec::new();
    let mut i: usize = 0;
    while i < es.len()
        invariant
            i <= es.len(),
            vv == vals_of(es@),
            vv.len() == es@.len(),
            sd_elems(vv.subrange(0, i as int), schema_of(*elem)) == Result::<
                Seq<Val>,
                DowncastErrorV,
            >::Ok(vals_of(out@)),
        decreases es.len() - i,
    {
        let ghost prefix = vv.subrange(0, i as int);
        proof {
            crate::value::lemma_vals_of(es@);
            assert(vals_of(es@)[i as int] == val_of(es@[i as int]));
            lemma_sd_elems_snoc(prefix, vv[i as int], schema_of(*elem));
            assert(prefix.push(vv[i as int]) =~= vv.subrange(0, i as int + 1));
        }
        match es[i].downcast(elem) {
            Result::Ok(w) => {
                proof {
                    crate::value::lemma_vals_of_push(out@, w);
                }
                out.push(w);
            },
            Result::Err(e) => {
                proof {
                    lemma_sd_elems_prefix_err(vv, schema_of(*elem), i as int + 1);
                }
                return Result::Err(e);
            },
        }
        i = i + 1;
    }
    proof {
        assert(vv.subrange(0, es.len() as int) =~= vv);
    }
    Result::Ok(out)
}

/// Position-wise downcast of group entries against tuple shapes, mirroring
/// `sd_positional` after the caller's arity check.
fn downcast_positional(es: &Vec<GroupField>, schemas: &Vec<Schema>) -> (r: Result<
    Vec<GroupField>,
    DowncastError,
>)
    requires
        es@.len() == schemas@.len(),
    ensures
        ({
            let spec = sd_positional(field_vals_of(es@), schemas_of(schemas@));
            match r {
                Result::Ok(ws) => spec is Ok && field_vals_of(ws@) == spec->Ok_0,
                Result::Err(e) => spec is Err && e@ == spec->Err_0,
            }
        }),
    decreases *schemas, 1int,
{
    broadcast use crate::value::lemma_field_vals_of, crate::schema::lemma_schemas_of;

    let ghost ev = field_vals_of(es@);
    let ghost sv = schemas_of(schemas@);
    proof {
        crate::value::lemma_field_vals_of(es@);
        crate::schema::lemma_schemas_of(schemas@);
    }
    let mut out: Vec<GroupField> = Vec::new();
    let mut i: usize = 0;
    while i < es.len()
        invariant
            i <= es.len(),
            es@.len() == schemas@.len(),
            ev == field_vals_of(es@),
            sv == schemas_of(schemas@),
            ev.len() == es@.len(),
            sv.len() == schemas@.len(),
            sd_positional(ev.subrange(0, i as int), sv.subrange(0, i as int)) == Result::<
                Seq<GroupFieldV>,
                DowncastErrorV,
            >::Ok(field_vals_of(out@)),
        decreases es.len() - i,
    {
        let ghost eprefix = ev.subrange(0, i as int);
        let ghost sprefix = sv.subrange(0, i as int);
        proof {
            crate::value::lemma_field_vals_of(es@);
            crate::schema::lemma_schemas_of(schemas@);
            assert(field_vals_of(es@)[i as int] == (GroupFieldV {
                name: es@[i as int].name@,
                value: val_of(es@[i as int].value),
            }));
            assert(schemas_of(schemas@)[i as int] == schema_of(schemas@[i as int]));
            lemma_sd_positional_snoc(eprefix, ev[i as int], sprefix, sv[i as int]);
            assert(eprefix.push(ev[i as int]) =~= ev.subrange(0, i as int + 1));
            assert(sprefix.push(sv[i as int]) =~= sv.subrange(0, i as int + 1));
        }
        match es[i].value.downcast(&schemas[i]) {
            Result::Ok(w) => {
                proof {
                    crate::value::lemma_field_vals_of_push(
                        out@,
                        GroupField { name: es@[i as int].name, value: w },
                    );
                }
                let entry = GroupField { name: es[i].name.clone(), value: w };
                out.push(entry);
            },
            Result::Err(e) => {
                proof {
                    lemma_sd_positional_prefix_err(ev, sv, i as int + 1);
                }
                return Result::Err(nest_error(e, &es[i].name));
            },
        }
        i = i + 1;
    }
    proof {
        assert(ev.subrange(0, es.len() as int) =~= ev);
        assert(sv.subrange(0, es.len() as int) =~= sv);
    }
    Result::Ok(out)
}

/// Field-wise downcast of a record target against a source group, mirroring
/// `sd_fields`.
fn downcast_fields(es: &Vec<GroupField>, fields: &Vec<Field>) -> (r: Result<
    Vec<GroupField>,
    DowncastError,
>)
    ensures
        ({
            let spec = sd_fields(field_vals_of(es@), schema_fields_of(fields@));
            match r {
                Result::Ok(ws) => spec is Ok && field_vals_of(ws@) == spec->Ok_0,
                Result::Err(e) => spec is Err && e@ == spec->Err_0,
            }
        }),
    decreases *fields, 1int,
{
    broadcast use crate::value::lemma_field_vals_of, crate::schema::lemma_schema_fields_of;

    let ghost ev = field_vals_of(es@);
    let ghost fv = schema_fields_of(fields@);
    proof {
        crate::value::lemma_field_vals_of(es@);
        crate::schema::lemma_schema_fields_of(fields@);
    }
    let mut out: Vec<GroupField> = Vec::new();
    let mut i: usize = 0;
    while i < fields.len()
        invariant
            i <= fields.len(),
            ev == field_vals_of(es@),
            fv == schema_fields_of(fields@),
            fv.len() == fields@.len(),
            sd_fields(ev, fv.subrange(0, i as int)) == Result::<
                Seq<GroupFieldV>,
                DowncastErrorV,
            >::Ok(field_vals_of(out@)),
        decreases fields.len() - i,
    {
        let ghost fprefix = fv.subrange(0, i as int);
        proof {
            crate::value::lemma_field_vals_of(es@);
            crate::schema::lemma_schema_fields_of(fields@);
            assert(schema_fields_of(fields@)[i as int] == (FieldV {
                name: fields@[i as int].name@,
                source_name: match fields@[i as int].source_name {
                    Option::None => Option::None,
                    Option::Some(n) => Option::Some(n@),
                },
                schema: schema_of(fields@[i as int].schema),
            }));
            lemma_sd_fields_snoc(ev, fprefix, fv[i as int]);
            assert(fprefix.push(fv[i as int]) =~= fv.subrange(0, i as int + 1));
        }
        let f = &fields[i];
        let lookup: &String = match &f.source_name {
            Option::Some(n) => n,
            Option::None => &f.name,
        };
        proof {
            assert(lookup@ == fv[i as int].lookup_name());
        }
        match find_in_group(es, lookup) {
            Option::Some(idx) => {
                match es[idx].value.downcast(&f.schema) {
                    Result::Ok(w) => {
                        proof {
                            crate::value::lemma_field_vals_of_push(
                                out@,
                                GroupField { name: fields@[i as int].name, value: w },
                            );
                        }
                        let entry = GroupField { name: f.name.clone(), value: w };
                        out.push(entry);
                    },
                    Result::Err(e) => {
                        proof {
                            lemma_sd_fields_prefix_err(ev, fv, i as int + 1);
                        }
                        return Result::Err(nest_error(e, &f.name));
                    },
                }
            },
            Option::None => {
                let is_opt = match &f.schema {
                    Schema::Opt(..) => true,
                    _ => false,
                };
                if is_opt {
                    proof {
                        crate::value::lemma_field_vals_of_push(
                            out@,
                            GroupField {
                                name: fields@[i as int].name,
                                value: Value::Opt(Option::None),
                            },
                        );
                    }
                    let entry = GroupField { name: f.name.clone(), value: Value::Opt(Option::None) };
                    out.push(entry);
                } else {
                    let e = DowncastError {
                        path: vec![f.name.clone()],
                        detail: ErrorDetail::Missing { field: lookup.clone() },
                    };
                    proof {
                        assert(e@.path =~= seq![fv[i as int].name]);
                        assert(e@ =~= sd_fields(ev, fv.subrange(0, i as int + 1))->Err_0);
                        lemma_sd_fields_prefix_err(ev, fv, i as int + 1);
                    }
                    return Result::Err(e);
                }
            },
        }
        i = i + 1;
    }
    proof {
        assert(fv.subrange(0, fields.len() as int) =~= fv);
    }
    Result::Ok(out)
}

/// Downcast of every dictionary key against the key shape, in order.
fn downcast_dict_keys(es: &Vec<DictEntry>, ks: &Schema) -> (r: Result<Vec<Value>, DowncastError>)
    ensures
        ({
            let keys = Seq::new(dict_vals_of(es@).len(), |i: int| dict_vals_of(es@)[i].key);
            let spec = sd_elems(keys, schema_of(*ks));
            match r {
                Result::Ok(wk) => spec is Ok && vals_of(wk@) == spec->Ok_0,
                Result::Err(e) => spec is Err && e@ == spec->Err_0,
            }
        }),
    decreases *ks, 1int,
{
    broadcast use crate::value::lemma_vals_of, crate::value::lemma_dict_vals_of;

    let ghost dv = dict_vals_of(es@);
    let ghost keys = Seq::new(dv.len(), |i: int| dv[i].key);
    proof {
        crate::value::lemma_dict_vals_of(es@);
    }
    let mut wk: Vec<Value> = Vec::new();
    let mut i: usize = 0;
    while i < es.len()
        invariant
            i <= es.len(),
            dv == dict_vals_of(es@),
            dv.len() == es@.len(),
            keys == Seq::new(dv.len(), |i: int| dv[i].key),
            sd_elems(keys.subrange(0, i as int), schema_of(*ks)) == Result::<
                Seq<Val>,
                DowncastErrorV,
            >::Ok(vals_of(wk@)),
        decreases es.len() - i,
    {
        let ghost prefix = keys.subrange(0, i as int);
        proof {
            crate::value::lemma_dict_vals_of(es@);
            assert(dict_vals_of(es@)[i as int] == (DictEntryV {
                key: val_of(es@[i as int].key),
                value: val_of(es@[i as int].value),
            }));
            assert(keys[i as int] == dv[i as int].key);
        }
        match es[i].key.downcast(ks) {
            Result::Ok(w) => {
                proof {
                    lemma_sd_elems_snoc(prefix, keys[i as int], schema_of(*ks));
                    assert(prefix.push(keys[i as int]) =~= keys.subrange(0, i as int + 1));
                    crate::value::lemma_vals_of_push(wk@, w);
                }
                wk.push(w);
            },
            Result::Err(e) => {
                proof {
                    lemma_sd_elems_snoc(prefix, keys[i as int], schema_of(*ks));
                    assert(prefix.push(keys[i as int]) =~= keys.subrange(0, i as int + 1));
                    lemma_sd_elems_prefix_err(keys, schema_of(*ks), i as int + 1);
                }
                return Result::Err(e);
            },
        }
        i = i + 1;
    }
    proof {
        assert(keys.subrange(0, es.len() as int) =~= keys);
    }
    Result::Ok(wk)
}

/// Downcast of every dictionary value against the value shape, re-pairing
/// each result with the already-downcast key at the same position.
fn downcast_dict_vals(es: &Vec<DictEntry>, vs: &Schema, wk: Vec<Value>) -> (r: Result<
    Vec<DictEntry>,
    DowncastError,
>)
    requires
        vals_of(wk@).len() == dict_vals_of(es@).len(),
    ensures
        ({
            let dv = dict_vals_of(es@);
            let vals = Seq::new(dv.len(), |i: int| dv[i].value);
            let gk = vals_of(wk@);
            let spec = sd_elems(vals, schema_of(*vs));
            match r {
                Result::Ok(out) => spec is Ok && dict_vals_of(out@) == Seq::new(
                    dv.len(),
                    |j: int| DictEntryV { key: gk[j], value: spec->Ok_0[j] },
                ),
                Result::Err(e) => spec is Err && e@ == spec->Err_0,
            }
        }),
    decreases *vs, 1int,
{
    broadcast use crate::value::lemma_vals_of, crate::value::lemma_dict_vals_of;

    let ghost dv = dict_vals_of(es@);
    let ghost vals = Seq::new(dv.len(), |i: int| dv[i].value);
    let ghost gk = vals_of(wk@);
    proof {
        crate::value::lemma_dict_vals_of(es@);
        crate::value::lemma_vals_of(wk@);
    }
    let n = es.len();
    let mut wk = wk;
    let mut out: Vec<DictEntry> = Vec::new();
    let mut i: usize = 0;
    while i < n
        invariant
            i <= n,
            n == es.len(),
            dv == dict_vals_of(es@),
            dv.len() == es@.len(),
            vals == Seq::new(dv.len(), |i: int| dv[i].value),
            gk.len() == n,
            vals_of(wk@) =~= gk.subrange(i as int, n as int),
            sd_elems(vals.subrange(0, i as int), schema_of(*vs)) is Ok,
            dict_vals_of(out@) =~= Seq::new(
                i as nat,
                |j: int| DictEntryV {
                    key: gk[j],
                    value: sd_elems(vals.subrange(0, i as int), schema_of(*vs))->Ok_0[j],
                },
            ),
        decreases n - i,
    {
        let ghost prefix = vals.subrange(0, i as int);
        let ghost wpre = wk@;
        proof {
            crate::value::lemma_dict_vals_of(es@);
            assert(dict_vals_of(es@)[i as int] == (DictEntryV {
                key: val_of(es@[i as int].key),
                value: val_of(es@[i as int].value),
            }));
            assert(vals[i as int] == dv[i as int].value);
            lemma_sd_elems_ok(prefix, schema_of(*vs));
            lemma_sd_elems_snoc(prefix, vals[i as int], schema_of(*vs));
            assert(prefix.push(vals[i as int]) =~= vals.subrange(0, i as int + 1));
            crate::value::lemma_vals_of(wpre);
        }
        match es[i].value.downcast(vs) {
            Result::Ok(w) => {
                let key = wk.remove(0);
                proof {
                    assert(wk@ == wpre.remove(0));
                    assert(key == wpre[0]);
                    assert(val_of(key) == vals_of(wpre)[0]);
                    assert(vals_of(wpre)[0] == gk.subrange(i as int, n as int)[0]);
                    assert(val_of(key) == gk[i as int]);
                    crate::value::lemma_vals_of(wk@);
                    assert(vals_of(wk@) =~= gk.subrange(i as int + 1, n as int)) by {
                        assert(forall|j: int| 0 <= j < wk@.len() ==> wk@[j] == wpre[j + 1]);
                        assert(forall|j: int|
                            0 <= j < wk@.len() ==> vals_of(wk@)[j] == val_of(wk@[j])
                                && vals_of(wpre)[j + 1] == val_of(wpre[j + 1]));
                        assert(forall|j: int|
                            0 <= j < wk@.len() ==> #[trigger] vals_of(wpre)[j + 1] == gk.subrange(
                                i as int,
                                n as int,
                            )[j + 1]);
                    };
                    crate::value::lemma_dict_vals_of_push(out@, DictEntry { key, value: w });
                }
                let entry = DictEntry { key, value: w };
                out.push(entry);
                proof {
                    assert(dict_vals_of(out@) =~= Seq::new(
                        i as nat + 1,
                        |j: int| DictEntryV {
                            key: gk[j],
                            value: sd_elems(
                                vals.subrange(0, i as int + 1),
                                schema_of(*vs),
                            )->Ok_0[j],
                        },
                    ));
                }
            },
            Result::Err(e) => {
                proof {
                    lemma_sd_elems_prefix_err(vals, schema_of(*vs), i as int + 1);
                }
                return Result::Err(e);
            },
        }
        i = i + 1;
    }
    proof {
        assert(vals.subrange(0, n as int) =~= vals);
        lemma_sd_elems_ok(vals, schema_of(*vs));
        assert(dict_vals_of(out@) =~= Seq::new(
            dv.len(),
            |j: int| DictEntryV {
                key: gk[j],
                value: sd_elems(vals, schema_of(*vs))->Ok_0[j],
            },
        ));
    }
    Result::Ok(out)
}

} // verus!

// The projection laws: what downcasting to a record target owes its caller.

verus! {

/// Downcasting any group to the zero-field record target succeeds and
/// materializes nothing.
pub proof fn lemma_empty_projection(es: Seq<GroupFieldV>)
    ensures
        sd(Val::Group(es), SchemaV::Record(Seq::empty())) == Result::<
            Val,
            DowncastErrorV,
        >::Ok(Val::Group(Seq::empty())),
{
    assert(sd_fields(es, Seq::<FieldV>::empty()) == Result::<
        Seq<GroupFieldV>,
        DowncastErrorV,
    >::Ok(Seq::<GroupFieldV>::empty()));
    assert(sd(Val::Group(es), SchemaV::Record(Seq::empty())) =~~= Result::<
        Val,
        DowncastErrorV,
    >::Ok(Val::Group(Seq::empty())));
}

/// Every declared field succeeds — it is found under its lookup name and
/// downcasts, or is absent with an optional shape — so the field-wise
/// downcast succeeds.
pub proof fn lemma_sd_fields_all_ok(es: Seq<GroupFieldV>, fields: Seq<FieldV>)
    requires
        forall|i: int|
            0 <= i < fields.len() ==> match find_entry(
                es,
                (#[trigger] fields[i]).lookup_name(),
            ) {
                Option::Some(v0) => sd(v0, fields[i].schema) is Ok,
                Option::None => fields[i].schema is Opt,
            },
    ensures
        sd_fields(es, fields) is Ok,
    decreases fields.len(),
{
    if fields.len() > 0 {
        assert forall|i: int|
            0 <= i < fields.drop_last().len() implies match find_entry(
            es,
            (#[trigger] fields.drop_last()[i]).lookup_name(),
        ) {
            Option::Some(v0) => sd(v0, fields.drop_last()[i].schema) is Ok,
            Option::None => fields.drop_last()[i].schema is Opt,
        } by {
            assert(fields.drop_last()[i] == fields[i]);
        }
        lemma_sd_fields_all_ok(es, fields.drop_last());
        assert(fields[fields.len() - 1] == fields.last());
    }
}

/// Projection correctness: a record target naming a subset of the source
/// group's fields, each present under its lookup name with a matching
/// shape or absent with an optional shape, downcasts without error; fields
/// of the source that the target does not name are simply dropped.
pub proof fn lemma_projection_ok(es: Seq<GroupFieldV>, fields: Seq<FieldV>)
    requires
        forall|i: int|
            0 <= i < fields.len() ==> match find_entry(
                es,
                (#[trigger] fields[i]).lookup_name(),
            ) {
                Option::Some(v0) => sd(v0, fields[i].schema) is Ok,
                Option::None => fields[i].schema is Opt,
            },
    ensures
        sd(Val::Group(es), SchemaV::Record(fields)) is Ok,
{
    lemma_sd_fields_all_ok(es, fields);
}

/// A required field absent from the source is reported as exactly the
/// missing-field error, under the declared field's name, provided every
/// field declared before it succeeds.
pub proof fn lemma_missing_field(es: Seq<GroupFieldV>, fields: Seq<FieldV>, k: int)
    requires
        0 <= k < fields.len(),
        forall|i: int|
            0 <= i < k ==> match find_entry(es, (#[trigger] fields[i]).lookup_name()) {
                Option::Some(v0) => sd(v0, fields[i].schema) is Ok,
                Option::None => fields[i].schema is Opt,
            },
        find_entry(es, fields[k].lookup_name()) is None,
        !(fields[k].schema is Opt),
    ensures
        sd(Val::Group(es), SchemaV::Record(fields)) == Result::<Val, DowncastErrorV>::Err(
            DowncastErrorV {
                path: seq![fields[k].name],
                detail: ErrorDetailV::Missing { field: fields[k].lookup_name() },
            },
        ),
{
    let prefix = fields.subrange(0, k);
    assert forall|i: int|
        0 <= i < prefix.len() implies match find_entry(
        es,
        (#[trigger] prefix[i]).lookup_name(),
    ) {
        Option::Some(v0) => sd(v0, prefix[i].schema) is Ok,
        Option::None => prefix[i].schema is Opt,
    } by {
        assert(prefix[i] == fields[i]);
    }
    lemma_sd_fields_all_ok(es, prefix);
    lemma_sd_fields_snoc(es, prefix, fields[k]);
    assert(prefix.push(fields[k]) =~= fields.subrange(0, k + 1));
    lemma_sd_fields_prefix_err(es, fields, k + 1);
}

} // verus!

// Downcasting preserves structural well-formedness: a well-formed target
// shape applied to a value with unique group names yields a value with
// unique group names, at every nesting level.

verus! {

/// A located entry's value is one of the group's values.
proof fn lemma_find_entry_value(es: Seq<GroupFieldV>, name: Seq<char>)
    requires
        find_entry(es, name) is Some,
    ensures
        exists|i: int|
            0 <= i < es.len() && (#[trigger] es[i]).value == find_entry(es, name)->Some_0,
    decreases es.len(),
{
    if es.len() > 0 && es.first().name != name {
        lemma_find_entry_value(es.drop_first(), name);
        let i = choose|i: int|
            0 <= i < es.drop_first().len() && (#[trigger] es.drop_first()[i]).value == find_entry(
                es.drop_first(),
                name,
            )->Some_0;
        assert(es[i + 1] == es.drop_first()[i]);
    } else if es.len() > 0 {
        assert(es[0] == es.first());
    }
}

/// Element-wise downcast preserves group-name uniqueness of each element.
proof fn lemma_sd_elems_groups_wf(es: Seq<Val>, elem: SchemaV)
    requires
        forall|i: int| 0 <= i < es.len() ==> (#[trigger] es[i]).groups_wf(),
        elem.wf(),
        sd_elems(es, elem) is Ok,
    ensures
        forall|i: int|
            0 <= i < es.len() ==> (#[trigger] sd_elems(es, elem)->Ok_0[i]).groups_wf(),
    decreases elem, es.len() + 1,
{
    lemma_sd_elems_ok(es, elem);
    if es.len() > 0 {
        assert forall|i: int|
            0 <= i < es.drop_last().len() implies (#[trigger] es.drop_last()[i]).groups_wf() by {
            assert(es.drop_last()[i] == es[i]);
        }
        lemma_sd_elems_groups_wf(es.drop_last(), elem);
        lemma_sd_elems_ok(es.drop_last(), elem);
        lemma_sd_preserves_groups_wf(es.last(), elem);
        assert forall|i: int|
            0 <= i < es.len() implies (#[trigger] sd_elems(es, elem)->Ok_0[i]).groups_wf() by {
            if i < es.len() - 1 {
                assert(sd_elems(es.drop_last(), elem)->Ok_0[i].groups_wf());
                assert(sd_elems(es, elem)->Ok_0[i] == sd(es[i], elem)->Ok_0);
                assert(es.drop_last()[i] == es[i]);
                assert(sd_elems(es.drop_last(), elem)->Ok_0[i] == sd(es[i], elem)->Ok_0);
            } else {
                assert(es.last() == es[i]);
                assert(sd_elems(es, elem)->Ok_0[i] == sd(es[i], elem)->Ok_0);
            }
        }
    }
}

/// Position-wise downcast keeps the source entry names and preserves each
/// value's group-name uniqueness.
proof fn lemma_sd_positional_groups_wf(es: Seq<GroupFieldV>, schemas: Seq<SchemaV>)
    requires
        es.len() == schemas.len(),
        forall|i: int| 0 <= i < es.len() ==> (#[trigger] es[i]).value.groups_wf(),
        forall|i: int| 0 <= i < schemas.len() ==> (#[trigger] schemas[i]).wf(),
        sd_positional(es, schemas) is Ok,
    ensures
        sd_positional(es, schemas)->Ok_0.len() == es.len(),
        forall|i: int|
            0 <= i < es.len() ==> (#[trigger] sd_positional(es, schemas)->Ok_0[i]).name
                == es[i].name && sd_positional(es, schemas)->Ok_0[i].value.groups_wf(),
    decreases schemas, 0int,
{
    if es.len() > 0 {
        assert forall|i: int|
            0 <= i < es.drop_last().len() implies (#[trigger] es.drop_last()[i]).value.groups_wf()
            by {
            assert(es.drop_last()[i] == es[i]);
        }
        assert forall|i: int|
            0 <= i < schemas.drop_last().len() implies (#[trigger] schemas.drop_last()[i]).wf() by {
            assert(schemas.drop_last()[i] == schemas[i]);
        }
        lemma_sd_positional_groups_wf(es.drop_last(), schemas.drop_last());
        assert(es.last() == es[es.len() - 1]);
        assert(schemas.last() == schemas[schemas.len() - 1]);
        lemma_sd_preserves_groups_wf(es.last().value, schemas.last());
        assert forall|i: int|
            0 <= i < es.len() implies (#[trigger] sd_positional(es, schemas)->Ok_0[i]).name
            == es[i].name && sd_positional(es, schemas)->Ok_0[i].value.groups_wf() by {
            if i < es.len() - 1 {
                assert(es.drop_last()[i] == es[i]);
                assert(sd_positional(es, schemas)->Ok_0[i] == sd_positional(
                    es.drop_last(),
                    schemas.drop_last(),
                )->Ok_0[i]);
            }
        }
    }
}

/// Field-wise downcast carries the declared field names and preserves each
/// produced value's group-name uniqueness.
proof fn lemma_sd_fields_groups_wf(es: Seq<GroupFieldV>, fields: Seq<FieldV>)
    requires
        forall|i: int| 0 <= i < es.len() ==> (#[trigger] es[i]).value.groups_wf(),
        forall|i: int| 0 <= i < fields.len() ==> (#[trigger] fields[i]).schema.wf(),
        sd_fields(es, fields) is Ok,
    ensures
        sd_fields(es, fields)->Ok_0.len() == fields.len(),
        forall|i: int|
            0 <= i < fields.len() ==> (#[trigger] sd_fields(es, fields)->Ok_0[i]).name
                == fields[i].name && sd_fields(es, fields)->Ok_0[i].value.groups_wf(),
    decreases fields, 0int,
{
    if fields.len() > 0 {
        assert forall|i: int|
            0 <= i < fields.drop_last().len() implies (#[trigger] fields.drop_last()[
                i
            ]).schema.wf() by {
            assert(fields.drop_last()[i] == fields[i]);
        }
        lemma_sd_fields_groups_wf(es, fields.drop_last());
        let f = fields.last();
        assert(f == fields[fields.len() - 1]);
        match find_entry(es, f.lookup_name()) {
            Option::Some(v0) => {
                lemma_find_entry_value(es, f.lookup_name());
                let w = choose|i: int|
                    0 <= i < es.len() && (#[trigger] es[i]).value == find_entry(
                        es,
                        f.lookup_name(),
                    )->Some_0;
                assert(es[w].value.groups_wf());
                lemma_sd_preserves_groups_wf(v0, f.schema);
            },
            Option::None => {
                assert(Val::Opt(Option::None).groups_wf());
            },
        }
        assert forall|i: int|
            0 <= i < fields.len() implies (#[trigger] sd_fields(es, fields)->Ok_0[i]).name
            == fields[i].name && sd_fields(es, fields)->Ok_0[i].value.groups_wf() by {
            if i < fields.len() - 1 {
                assert(fields.drop_last()[i] == fields[i]);
                assert(sd_fields(es, fields)->Ok_0[i] == sd_fields(
                    es,
                    fields.drop_last(),
                )->Ok_0[i]);
            }
        }
    }
}

/// A successful downcast of a value whose groups carry unique field names,
/// to a well-formed target shape, yields a value whose groups carry unique
/// field names — for a record target, exactly the declared names, which
/// the shape declares once each.
pub proof fn lemma_sd_preserves_groups_wf(v: Val, s: SchemaV)
    requires
        v.groups_wf(),
        s.wf(),
        sd(v, s) is Ok,
    ensures
        sd(v, s)->Ok_0.groups_wf(),
    decreases s, 0int,
{
    match s {
        SchemaV::List(elem) => {
            let es = v->List_0;
            lemma_sd_elems_groups_wf(es, *elem);
            lemma_sd_elems_ok(es, *elem);
        },
        SchemaV::Dict(ks, vs) => {
            let es = v->Dict_0;
            let keys = Seq::new(es.len(), |i: int| es[i].key);
            let vals = Seq::new(es.len(), |i: int| es[i].value);
            assert forall|i: int| 0 <= i < keys.len() implies (#[trigger] keys[i]).groups_wf() by {
                assert(es[i].key.groups_wf());
            }
            assert forall|i: int| 0 <= i < vals.len() implies (#[trigger] vals[i]).groups_wf() by {
                assert(es[i].value.groups_wf());
            }
            lemma_sd_elems_groups_wf(keys, *ks);
            lemma_sd_elems_groups_wf(vals, *vs);
            lemma_sd_elems_ok(keys, *ks);
            lemma_sd_elems_ok(vals, *vs);
        },
        SchemaV::Opt(inner) => {
            match v {
                Val::Opt(o) => match o {
                    Option::None => {},
                    Option::Some(w) => {
                        lemma_sd_preserves_groups_wf(*w, *inner);
                    },
                },
                _ => {
                    lemma_sd_preserves_groups_wf(v, *inner);
                },
            }
        },
        SchemaV::Tuple(schemas) => {
            let es = v->Group_0;
            lemma_sd_positional_groups_wf(es, schemas);
        },
        SchemaV::Record(fields) => {
            let es = v->Group_0;
            lemma_sd_fields_groups_wf(es, fields);
        },
        _ => {},
    }
}

} // verus!
