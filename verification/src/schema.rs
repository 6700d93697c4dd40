//! Compile-time shape descriptors for downcast targets. A target shape is
//! described by a `Schema`: primitives require an exact variant match,
//! containers recurse, `Tuple` matches group entries by position and
//! `Record` matches them by (possibly renamed) field name.

use vstd::prelude::*;

use crate::value::Kind;

verus! {

broadcast use vstd::std_specs::vec::group_vec_axioms;

/// One declared field of a `Record` target: the target's own field name, an
/// optional explicit source-name annotation consulted when locating the
/// field in the source group, and the field's target shape.
#[derive(Debug)]
pub struct Field {
    pub name: String,
    pub source_name: Option<String>,
    pub schema: Schema,
}

/// A statically declared target shape for `downcast`.
#[derive(Debug)]
pub enum Schema {
    Bool,
    I8,
    I16,
    I32,
    I64,
    U8,
    U16,
    U32,
    U64,
    F32,
    F64,
    Bytes,
    Text,
    Timestamp,
    List(Box<Schema>),
    Dict(Box<Schema>, Box<Schema>),
    Opt(Box<Schema>),
    Tuple(Vec<Schema>),
    Record(Vec<Field>),
}

/// The mirror of a `Field`.
#[verifier::ext_equal]
pub struct FieldV {
    pub name: Seq<char>,
    pub source_name: Option<Seq<char>>,
    pub schema: SchemaV,
}

/// The mirror of a `Schema`.
#[verifier::ext_equal]
pub enum SchemaV {
    Bool,
    I8,
    I16,
    I32,
    I64,
    U8,
    U16,
    U32,
    U64,
    F32,
    F64,
    Bytes,
    Text,
    Timestamp,
    List(Box<SchemaV>),
    Dict(Box<SchemaV>, Box<SchemaV>),
    Opt(Box<SchemaV>),
    Tuple(Seq<SchemaV>),
    Record(Seq<FieldV>),
}

/// The model of a schema.
pub open spec fn schema_of(s: Schema) -> SchemaV
    decreases s,
{
    match s {
        Schema::Bool => SchemaV::Bool,
        Schema::I8 => SchemaV::I8,
        Schema::I16 => SchemaV::I16,
        Schema::I32 => SchemaV::I32,
        Schema::I64 => SchemaV::I64,
        Schema::U8 => SchemaV::U8,
        Schema::U16 => SchemaV::U16,
        Schema::U32 => SchemaV::U32,
        Schema::U64 => SchemaV::U64,
        Schema::F32 => SchemaV::F32,
        Schema::F64 => SchemaV::F64,
        Schema::Bytes => SchemaV::Bytes,
        Schema::Text => SchemaV::Text,
        Schema::Timestamp => SchemaV::Timestamp,
        Schema::List(e) => SchemaV::List(Box::new(schema_of(*e))),
        Schema::Dict(k, v) => SchemaV::Dict(Box::new(schema_of(*k)), Box::new(schema_of(*v))),
        Schema::Opt(e) => SchemaV::Opt(Box::new(schema_of(*e))),
        Schema::Tuple(es) => SchemaV::Tuple(schemas_of(es@)),
        Schema::Record(fs) => SchemaV::Record(schema_fields_of(fs@)),
    }
}

/// The models of a sequence of schemas, element by element.
pub open spec fn schemas_of(s: Seq<Schema>) -> Seq<SchemaV>
    decreases s,
{
    if s.len() == 0 {
        Seq::empty()
    } else {
        schemas_of(s.drop_last()).push(schema_of(s.last()))
    }
}

/// The models of a sequence of fields, field by field.
pub open spec fn schema_fields_of(s: Seq<Field>) -> Seq<FieldV>
    decreases s,
{
    if s.len() == 0 {
        Seq::empty()
    } else {
        schema_fields_of(s.drop_last()).push(
            FieldV {
                name: s.last().name@,
                source_name: match s.last().source_name {
                    Option::None => Option::None,
                    Option::Some(n) => Option::Some(n@),
                },
                schema: schema_of(s.last().schema),
            },
        )
    }
}

/// Element-by-element reading of `schemas_of`.
pub broadcast proof fn lemma_schemas_of(s: Seq<Schema>)
    ensures
        (#[trigger] schemas_of(s)).len() == s.len(),
        forall|i: int| 0 <= i < s.len() ==> schemas_of(s)[i] == schema_of(s[i]),
    decreases s.len(),
{
    if s.len() > 0 {
        lemma_schemas_of(s.drop_last());
    }
}

/// Element-by-element reading of `schema_fields_of`.
pub broadcast proof fn lemma_schema_fields_of(s: Seq<Field>)
    ensures
        (#[trigger] schema_fields_of(s)).len() == s.len(),
        forall|i: int|
            0 <= i < s.len() ==> schema_fields_of(s)[i] == (FieldV {
                name: s[i].name@,
                source_name: match s[i].source_name {
                    Option::None => Option::None,
                    Option::Some(n) => Option::Some(n@),
                },
                schema: schema_of(s[i].schema),
            }),
    decreases s.len(),
{
    if s.len() > 0 {
        lemma_schema_fields_of(s.drop_last());
    }
}

impl View for Field {
    type V = FieldV;

    open spec fn view(&self) -> FieldV {
        FieldV {
            name: self.name@,
            source_name: match self.source_name {
                Option::None => Option::None,
                Option::Some(n) => Option::Some(n@),
            },
            schema: schema_of(self.schema),
        }
    }
}

impl View for Schema {
    type V = SchemaV;

    open spec fn view(&self) -> SchemaV {
        schema_of(*self)
    }
}

impl FieldV {
    /// The name under which this field is looked up in the source group: the
    /// explicit source-name annotation when present, the field's own name
    /// otherwise.
    pub open spec fn lookup_name(self) -> Seq<char> {
        match self.source_name {
            Option::None => self.name,
            Option::Some(n) => n,
        }
    }
}

impl SchemaV {
    /// Every record shape in this target declares each of its field names
    /// once.
    pub open spec fn wf(self) -> bool
        decreases self,
    {
        match self {
            SchemaV::List(e) => (*e).wf(),
            SchemaV::Dict(k, v) => (*k).wf() && (*v).wf(),
            SchemaV::Opt(e) => (*e).wf(),
            SchemaV::Tuple(ss) => forall|i: int|
                0 <= i < ss.len() ==> (#[trigger] ss[i]).wf(),
            SchemaV::Record(fs) => {
                &&& forall|i: int, j: int|
                    0 <= i < j < fs.len() ==> (#[trigger] fs[i].name) != (#[trigger] fs[j].name)
                &&& forall|i: int| 0 <= i < fs.len() ==> (#[trigger] fs[i]).schema.wf()
            },
            _ => true,
        }
    }

    /// The variant tag a source value must carry to match this target shape.
    pub open spec fn kind(self) -> Kind {
        match self {
            SchemaV::Bool => Kind::Bool,
            SchemaV::I8 => Kind::I8,
            SchemaV::I16 => Kind::I16,
            SchemaV::I32 => Kind::I32,
            SchemaV::I64 => Kind::I64,
            SchemaV::U8 => Kind::U8,
            SchemaV::U16 => Kind::U16,
            SchemaV::U32 => Kind::U32,
            SchemaV::U64 => Kind::U64,
            SchemaV::F32 => Kind::F32,
            SchemaV::F64 => Kind::F64,
            SchemaV::Bytes => Kind::Bytes,
            SchemaV::Text => Kind::Text,
            SchemaV::Timestamp => Kind::Timestamp,
            SchemaV::List(..) => Kind::List,
            SchemaV::Dict(..) => Kind::Dict,
            SchemaV::Opt(..) => Kind::Opt,
            SchemaV::Tuple(..) => Kind::Group,
            SchemaV::Record(..) => Kind::Group,
        }
    }
}

} // verus!
