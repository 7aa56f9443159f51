//! Record schemas: the shape each field is converted to, and its policy.
use vstd::prelude::*;
use crate::typed::Typed;

verus! {

/// The leaf kinds a document value can be converted to.
pub enum PrimKind {
    Bool,
    I16,
    U16,
    I32,
    U32,
    I64,
    U64,
    /// A 64-bit floating-point number, held as its bit pattern.
    Float,
    Str,
}

/// The shape of a conversion target.
pub enum TypeShape {
    Primitive(PrimKind),
    /// A value that may be absent.
    Optional(Box<TypeShape>),
    /// An ordered list of elements of one shape.
    List(Box<TypeShape>),
    /// A string-keyed table of elements of one shape.
    Dict(Box<TypeShape>),
    /// A record with its own schema.
    Nested(RecordSchema),
}

/// The ordered fields of a record.
pub struct RecordSchema {
    pub fields: Vec<FieldSchema>,
}

/// Which root a field is read from.
pub enum Scope {
    /// The document value the record is built from.
    Local,
    /// The document-wide table of shared definitions.
    Global,
}

/// A named default: the value its zero-argument producer yields.
pub struct NamedDefault {
    pub name: String,
    pub value: Typed,
}

/// What a field holds when its conversion fails.
pub enum DefaultPolicy {
    /// The failure fails the whole record.
    NoDefault,
    /// The zero value of the field's shape.
    UseTypeDefault,
    UseNamedDefault(NamedDefault),
}

/// One field of a record.
pub struct FieldSchema {
    pub name: String,
    pub shape: TypeShape,
    /// A skipped field is never read and is left out of the record.
    pub skip: bool,
    pub scope: Scope,
    pub default: DefaultPolicy,
}

} // verus!
