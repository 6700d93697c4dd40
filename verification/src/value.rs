//! The dynamic row model: a self-describing variant value able to represent
//! arbitrarily nested record schemas, together with its mathematical mirror
//! used by every contract in this crate.

use vstd::prelude::*;

verus! {

broadcast use vstd::std_specs::vec::group_vec_axioms;

/// One key-value entry of a `Dict` value.
#[derive(Debug)]
pub struct DictEntry {
    pub key: Value,
    pub value: Value,
}

/// One named field of a `Group` value.
#[derive(Debug)]
pub struct GroupField {
    pub name: String,
    pub value: Value,
}

/// The mirror of a `DictEntry`.
#[verifier::ext_equal]
pub struct DictEntryV {
    pub key: Val,
    pub value: Val,
}

/// The mirror of a `GroupField`.
#[verifier::ext_equal]
pub struct GroupFieldV {
    pub name: Seq<char>,
    pub value: Val,
}

/// An instant with separate seconds and sub-second nanoseconds, as columnar
/// sources deliver 96-bit timestamps.
#[derive(Clone, Copy, PartialEq, Eq, Structural, Debug)]
pub struct Timestamp {
    pub secs: i64,
    pub nanos: u32,
}

/// The tag of a `Value` variant, used to report shape mismatches.
#[derive(Clone, Copy, PartialEq, Eq, Structural, Debug)]
pub enum Kind {
    Null,
    Bool,
    I8,
    I16,
    I32,
    I64,
    U8,
    U16,
    U32,
    U64,
    F32,
    F64,
    Bytes,
    Text,
    Timestamp,
    List,
    Dict,
    Group,
    Opt,
}

/// A dynamic row value. `Group` is the fixed-arity named record shape used
/// both for positional (tuple) and name-matched (struct) targets; `Dict` is a
/// key-value mapping whose keys are unique by convention; `Opt` wraps any
/// value to mark a nullable slot, `Opt(None)` being the present-but-empty
/// case as opposed to the `Null` sentinel. The 32- and 64-bit floating
/// variants carry the IEEE 754 bit pattern of their number, so that the row
/// model itself stays within exactly representable data.
#[derive(Debug)]
pub enum Value {
    Null,
    Bool(bool),
    I8(i8),
    I16(i16),
    I32(i32),
    I64(i64),
    U8(u8),
    U16(u16),
    U32(u32),
    U64(u64),
    F32Bits(u32),
    F64Bits(u64),
    Bytes(Vec<u8>),
    Text(String),
    Timestamp(Timestamp),
    List(Vec<Value>),
    Dict(Vec<DictEntry>),
    Group(Vec<GroupField>),
    Opt(Option<Box<Value>>),
}

/// The mathematical mirror of `Value`: sequences in place of vectors and
/// character sequences in place of strings. Contracts speak of this type.
#[verifier::ext_equal]
pub enum Val {
    Null,
    Bool(bool),
    I8(i8),
    I16(i16),
    I32(i32),
    I64(i64),
    U8(u8),
    U16(u16),
    U32(u32),
    U64(u64),
    F32Bits(u32),
    F64Bits(u64),
    Bytes(Seq<u8>),
    Text(Seq<char>),
    Timestamp(Timestamp),
    List(Seq<Val>),
    Dict(Seq<DictEntryV>),
    Group(Seq<GroupFieldV>),
    Opt(Option<Box<Val>>),
}

/// The model of a value: vectors become sequences and strings become
/// character sequences, recursively.
pub open spec fn val_of(v: Value) -> Val
    decreases v,
{
    match v {
        Value::Null => Val::Null,
        Value::Bool(b) => Val::Bool(b),
        Value::I8(x) => Val::I8(x),
        Value::I16(x) => Val::I16(x),
        Value::I32(x) => Val::I32(x),
        Value::I64(x) => Val::I64(x),
        Value::U8(x) => Val::U8(x),
        Value::U16(x) => Val::U16(x),
        Value::U32(x) => Val::U32(x),
        Value::U64(x) => Val::U64(x),
        Value::F32Bits(x) => Val::F32Bits(x),
        Value::F64Bits(x) => Val::F64Bits(x),
        Value::Bytes(b) => Val::Bytes(b@),
        Value::Text(s) => Val::Text(s@),
        Value::Timestamp(t) => Val::Timestamp(t),
        Value::List(es) => Val::List(vals_of(es@)),
        Value::Dict(es) => Val::Dict(dict_vals_of(es@)),
        Value::Group(es) => Val::Group(field_vals_of(es@)),
        Value::Opt(o) => Val::Opt(
            match o {
                Option::None => Option::None,
                Option::Some(b) => Option::Some(Box::new(val_of(*b))),
            },
        ),
    }
}

/// The models of a sequence of values, element by element.
pub open spec fn vals_of(s: Seq<Value>) -> Seq<Val>
    decreases s,
{
    if s.len() == 0 {
        Seq::empty()
    } else {
        vals_of(s.drop_last()).push(val_of(s.last()))
    }
}

/// The models of a sequence of dictionary entries, entry by entry.
pub open spec fn dict_vals_of(s: Seq<DictEntry>) -> Seq<DictEntryV>
    decreases s,
{
    if s.len() == 0 {
        Seq::empty()
    } else {
        dict_vals_of(s.drop_last()).push(
            DictEntryV { key: val_of(s.last().key), value: val_of(s.last().value) },
        )
    }
}

/// The models of a sequence of group fields, field by field.
pub open spec fn field_vals_of(s: Seq<GroupField>) -> Seq<GroupFieldV>
    decreases s,
{
    if s.len() == 0 {
        Seq::empty()
    } else {
        field_vals_of(s.drop_last()).push(
            GroupFieldV { name: s.last().name@, value: val_of(s.last().value) },
        )
    }
}

/// Element-by-element reading of `vals_of`.
pub broadcast proof fn lemma_vals_of(s: Seq<Value>)
    ensures
        (#[trigger] vals_of(s)).len() == s.len(),
        forall|i: int| 0 <= i < s.len() ==> vals_of(s)[i] == val_of(s[i]),
    decreases s.len(),
{
    if s.len() > 0 {
        lemma_vals_of(s.drop_last());
    }
}

/// Element-by-element reading of `dict_vals_of`.
pub broadcast proof fn lemma_dict_vals_of(s: Seq<DictEntry>)
    ensures
        (#[trigger] dict_vals_of(s)).len() == s.len(),
        forall|i: int|
            0 <= i < s.len() ==> dict_vals_of(s)[i] == (DictEntryV {
                key: val_of(s[i].key),
                value: val_of(s[i].value),
            }),
    decreases s.len(),
{
    if s.len() > 0 {
        lemma_dict_vals_of(s.drop_last());
    }
}

/// Element-by-element reading of `field_vals_of`.
pub broadcast proof fn lemma_field_vals_of(s: Seq<GroupField>)
    ensures
        (#[trigger] field_vals_of(s)).len() == s.len(),
        forall|i: int|
            0 <= i < s.len() ==> field_vals_of(s)[i] == (GroupFieldV {
                name: s[i].name@,
                value: val_of(s[i].value),
            }),
    decreases s.len(),
{
    if s.len() > 0 {
        lemma_field_vals_of(s.drop_last());
    }
}

/// `vals_of` distributes over appending one element.
pub proof fn lemma_vals_of_push(s: Seq<Value>, v: Value)
    ensures
        vals_of(s.push(v)) == vals_of(s).push(val_of(v)),
{
    assert(s.push(v).drop_last() =~= s);
}

/// `dict_vals_of` distributes over appending one entry.
pub proof fn lemma_dict_vals_of_push(s: Seq<DictEntry>, e: DictEntry)
    ensures
        dict_vals_of(s.push(e)) == dict_vals_of(s).push(
            DictEntryV { key: val_of(e.key), value: val_of(e.value) },
        ),
{
    assert(s.push(e).drop_last() =~= s);
}

/// `field_vals_of` distributes over appending one field.
pub proof fn lemma_field_vals_of_push(s: Seq<GroupField>, f: GroupField)
    ensures
        field_vals_of(s.push(f)) == field_vals_of(s).push(
            GroupFieldV { name: f.name@, value: val_of(f.value) },
        ),
{
    assert(s.push(f).drop_last() =~= s);
}

impl View for DictEntry {
    type V = DictEntryV;

    open spec fn view(&self) -> DictEntryV {
        DictEntryV { key: val_of(self.key), value: val_of(self.value) }
    }
}

impl View for GroupField {
    type V = GroupFieldV;

    open spec fn view(&self) -> GroupFieldV {
        GroupFieldV { name: self.name@, value: val_of(self.value) }
    }
}

impl View for Value {
    type V = Val;

    open spec fn view(&self) -> Val {
        val_of(*self)
    }
}

impl Val {
    /// The variant tag of a model value.
    pub open spec fn kind(self) -> Kind {
        match self {
            Val::Null => Kind::Null,
            Val::Bool(..) => Kind::Bool,
            Val::I8(..) => Kind::I8,
            Val::I16(..) => Kind::I16,
            Val::I32(..) => Kind::I32,
            Val::I64(..) => Kind::I64,
            Val::U8(..) => Kind::U8,
            Val::U16(..) => Kind::U16,
            Val::U32(..) => Kind::U32,
            Val::U64(..) => Kind::U64,
            Val::F32Bits(..) => Kind::F32,
            Val::F64Bits(..) => Kind::F64,
            Val::Bytes(..) => Kind::Bytes,
            Val::Text(..) => Kind::Text,
            Val::Timestamp(..) => Kind::Timestamp,
            Val::List(..) => Kind::List,
            Val::Dict(..) => Kind::Dict,
            Val::Group(..) => Kind::Group,
            Val::Opt(..) => Kind::Opt,
        }
    }

    /// Group field names are unique, recursively, in every group this value
    /// contains. Nothing is asked of dictionary keys here: a projection may
    /// drop the very fields that told two keys apart, so key uniqueness is
    /// not preserved by downcasting, while group-name uniqueness is.
    pub open spec fn groups_wf(self) -> bool
        decreases self,
    {
        match self {
            Val::List(es) => forall|i: int|
                0 <= i < es.len() ==> (#[trigger] es[i]).groups_wf(),
            Val::Dict(es) => forall|i: int|
                0 <= i < es.len() ==> ((#[trigger] es[i]).key.groups_wf()
                    && es[i].value.groups_wf()),
            Val::Group(es) => {
                &&& forall|i: int, j: int|
                    0 <= i < j < es.len() ==> (#[trigger] es[i].name) != (#[trigger] es[j].name)
                &&& forall|i: int| 0 <= i < es.len() ==> (#[trigger] es[i]).value.groups_wf()
            },
            Val::Opt(o) => match o {
                Option::None => true,
                Option::Some(b) => (*b).groups_wf(),
            },
            _ => true,
        }
    }

    /// Group field names are unique and every nested value is well formed;
    /// dictionary keys are likewise unique within their instance.
    pub open spec fn wf(self) -> bool
        decreases self,
    {
        match self {
            Val::List(es) => forall|i: int| 0 <= i < es.len() ==> #[trigger] es[i].wf(),
            Val::Dict(es) => {
                &&& forall|i: int, j: int|
                    0 <= i < j < es.len() ==> (#[trigger] es[i].key) != (#[trigger] es[j].key)
                &&& forall|i: int|
                    0 <= i < es.len() ==> ((#[trigger] es[i]).key.wf() && es[i].value.wf())
            },
            Val::Group(es) => {
                &&& forall|i: int, j: int|
                    0 <= i < j < es.len() ==> (#[trigger] es[i].name) != (#[trigger] es[j].name)
                &&& forall|i: int| 0 <= i < es.len() ==> (#[trigger] es[i]).value.wf()
            },
            Val::Opt(o) => match o {
                Option::None => true,
                Option::Some(b) => (*b).wf(),
            },
            _ => true,
        }
    }
}

impl Value {
    /// The variant tag of this value.
    pub fn kind(&self) -> (k: Kind)
        ensures
            k == self@.kind(),
    {
        match self {
            Value::Null => Kind::Null,
            Value::Bool(..) => Kind::Bool,
            Value::I8(..) => Kind::I8,
            Value::I16(..) => Kind::I16,
            Value::I32(..) => Kind::I32,
            Value::I64(..) => Kind::I64,
            Value::U8(..) => Kind::U8,
            Value::U16(..) => Kind::U16,
            Value::U32(..) => Kind::U32,
            Value::U64(..) => Kind::U64,
            Value::F32Bits(..) => Kind::F32,
            Value::F64Bits(..) => Kind::F64,
            Value::Bytes(..) => Kind::Bytes,
            Value::Text(..) => Kind::Text,
            Value::Timestamp(..) => Kind::Timestamp,
            Value::List(..) => Kind::List,
            Value::Dict(..) => Kind::Dict,
            Value::Group(..) => Kind::Group,
            Value::Opt(..) => Kind::Opt,
        }
    }
}

} // verus!
