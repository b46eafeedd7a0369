//! Record definitions as the definition source supplies them, and the field
//! descriptors extracted from them.

use vstd::prelude::*;
use crate::value::{Value, fits, fits_kind};
use crate::annotation::{
    Annotation, Partition, partition, malformed, rename_of,
    position_of, has_key, foreign_of,
};

verus! {

/// The wire shape that a value of a declared type takes.
#[derive(Debug, PartialEq, Eq)]
pub enum Kind {
    Bool,
    Int,
    Text,
    /// Any single value: the type is not inspected.
    Any,
}

/// A field's declared type: its source text, carried through untouched, and
/// the wire shape of its values.
#[derive(Debug, PartialEq, Eq)]
pub struct DeclaredType {
    pub text: String,
    pub kind: Kind,
}

/// A field as declared: a name (absent for a positional field), a type, the
/// value it takes when it is skipped (its kind's default when absent), and its
/// raw annotations. A field that is not skipped must be carried by the wire.
#[derive(Debug, PartialEq, Eq)]
pub struct RawField {
    pub name: Option<String>,
    pub ty: DeclaredType,
    pub default: Option<Value>,
    pub annotations: Vec<Annotation>,
}

/// A record as declared: its name, its fields in declaration order, and its
/// raw annotations.
#[derive(Debug, PartialEq, Eq)]
pub struct RecordDefinition {
    pub name: String,
    pub fields: Vec<RawField>,
    pub annotations: Vec<Annotation>,
}

/// A field with its directives read and its foreign annotations set apart.
#[derive(Debug, PartialEq, Eq)]
pub struct FieldDescriptor {
    pub name: String,
    pub ty: DeclaredType,
    pub default: Option<Value>,
    pub rename: Option<String>,
    pub skip: bool,
    pub position: Option<u64>,
    pub foreign: Vec<Annotation>,
}

/// A record definition that cannot be given a codec.
#[derive(Debug, PartialEq, Eq)]
pub enum ValidationError {
    /// The field at this index has no name.
    UnnamedField { field: usize },
    /// The annotation at index `annotation` of the field at index `owner`
    /// (of the record itself when `owner` is `None`) is a directive whose
    /// value has the wrong shape.
    MalformedDirective { owner: Option<usize>, annotation: usize },
    /// The declared default of the field at this index is not of its kind.
    DefaultMismatch { field: usize },
    /// The fields at these indices, neither of them skipped, share their key
    /// in the object form.
    DuplicateKey { first: usize, second: usize },
}

impl Clone for Kind {
    fn clone(&self) -> (r: Self)
        ensures
            r == *self,
    {
        match self {
            Kind::Bool => Kind::Bool,
            Kind::Int => Kind::Int,
            Kind::Text => Kind::Text,
            Kind::Any => Kind::Any,
        }
    }
}

impl Clone for DeclaredType {
    fn clone(&self) -> (r: Self)
        ensures
            r == *self,
    {
        DeclaredType { text: self.text.clone(), kind: self.kind.clone() }
    }
}

pub open spec fn annotations_ok(s: Seq<Annotation>) -> bool {
    forall|k: int| 0 <= k < s.len() ==> !malformed(#[trigger] s[k])
}

pub open spec fn first_malformed(s: Seq<Annotation>, k: int) -> bool {
    &&& 0 <= k < s.len()
    &&& malformed(s[k])
    &&& forall|j: int| 0 <= j < k ==> !malformed(#[trigger] s[j])
}

/// A raw field from which a descriptor can be extracted.
pub open spec fn field_ok(f: RawField) -> bool {
    f.name is Some && default_fits(f) && annotations_ok(f.annotations@)
}

/// The declared default, if any, is of the field's kind.
pub open spec fn default_fits(f: RawField) -> bool {
    match f.default {
        Some(x) => fits(f.ty.kind, x@),
        None => true,
    }
}

/// `d` is the descriptor of the raw field `f`.
pub open spec fn describes(f: RawField, d: FieldDescriptor) -> bool {
    &&& f.name == Some(d.name)
    &&& d.ty == f.ty
    &&& d.default == f.default
    &&& (match d.rename {
        Some(r) => rename_of(f.annotations@) == Some(r@),
        None => rename_of(f.annotations@) is None,
    })
    &&& d.skip == has_key(f.annotations@, "skip"@)
    &&& d.position == position_of(f.annotations@)
    &&& d.foreign@ == foreign_of(f.annotations@)
}

/// The error that extraction reports for the raw field `f` at index `i`.
pub open spec fn field_error(f: RawField, i: int, e: ValidationError) -> bool {
    match e {
        ValidationError::UnnamedField { field } => field == i && f.name is None,
        ValidationError::MalformedDirective { owner, annotation } => {
            &&& owner == Some(i as usize)
            &&& f.name is Some
            &&& default_fits(f)
            &&& first_malformed(f.annotations@, annotation as int)
        },
        ValidationError::DefaultMismatch { field } => field == i && f.name is Some && !default_fits(f),
        ValidationError::DuplicateKey { .. } => false,
    }
}

/// Turns one raw field into its descriptor.
pub fn extract_field(f: &RawField, i: usize) -> (r: Result<FieldDescriptor, ValidationError>)
    ensures
        match r {
            Ok(d) => field_ok(*f) && describes(*f, d),
            Err(e) => !field_ok(*f) && field_error(*f, i as int, e),
        },
{
    let name = match &f.name {
        Some(n) => n.clone(),
        None => {
            return Err(ValidationError::UnnamedField { field: i });
        },
    };
    let default = match &f.default {
        Some(x) => {
            if !fits_kind(&f.ty.kind, x) {
                return Err(ValidationError::DefaultMismatch { field: i });
            }
            Some(x.clone())
        },
        None => None,
    };
    match partition(&f.annotations) {
        Ok(p) => {
            let Partition { directives, foreign } = p;
            Ok(
                FieldDescriptor {
                    name,
                    ty: f.ty.clone(),
                    default,
                    rename: directives.rename,
                    skip: directives.skip,
                    position: directives.position,
                    foreign,
                },
            )
        },
        Err(k) => Err(ValidationError::MalformedDirective { owner: Some(i), annotation: k }),
    }
}

/// Turns the raw fields of a record into descriptors, in declaration order.
/// Fails on the first field that has no name or holds a malformed directive.
pub fn extract_fields(fields: &Vec<RawField>) -> (r: Result<Vec<FieldDescriptor>, ValidationError>)
    ensures
        match r {
            Ok(ds) => {
                &&& ds@.len() == fields@.len()
                &&& forall|i: int|
                    0 <= i < fields@.len() ==> field_ok(#[trigger] fields@[i]) && describes(
                        fields@[i],
                        ds@[i],
                    )
            },
            Err(e) => exists|i: int|
                {
                    &&& 0 <= i < fields@.len()
                    &&& !field_ok(#[trigger] fields@[i])
                    &&& field_error(fields@[i], i, e)
                    &&& forall|j: int| 0 <= j < i ==> field_ok(#[trigger] fields@[j])
                },
        },
{
    let mut ds: Vec<FieldDescriptor> = Vec::new();
    let mut i: usize = 0;
    while i < fields.len()
        invariant
            i <= fields@.len(),
            ds@.len() == i,
            forall|j: int|
                0 <= j < i ==> field_ok(#[trigger] fields@[j]) && describes(fields@[j], ds@[j]),
        decreases fields@.len() - i,
    {
        match extract_field(&fields[i], i) {
            Ok(d) => {
                ds.push(d);
            },
            Err(e) => {
                assert(!field_ok(fields@[i as int]));
                return Err(e);
            },
        }
        i = i + 1;
    }
    Ok(ds)
}

} // verus!
