//! The codec of a record: its resolved order, the sequence and object forms,
//! and the single-path and dual-mode decoders.

use vstd::prelude::*;
use crate::annotation::{
    Annotation, Partition, partition, foreign_of, has_key, rename_of,
};
use crate::descriptor::{
    FieldDescriptor, Kind, RecordDefinition, ValidationError, annotations_ok, describes,
    extract_fields, field_error, field_ok, first_malformed,
};
use crate::order::{
    ConflictError, covers_live, declared_order, has_shared_position, live, mixed_positions,
    get_sorted_fields, resolved, shared_position,
};
use crate::value::{
    Entry, Value, ValueModel, Wire, WireModel, default_of, default_value, entries_model, fits,
    fits_kind, values_model,
};

verus! {

/// Why a payload could not be decoded.
#[derive(Debug, PartialEq, Eq)]
pub enum DecodeError {
    /// A sequence of `found` elements where `expected` were due.
    ArityMismatch { expected: usize, found: usize },
    /// The value given for the field at this index is not of its kind.
    TypeMismatch { field: usize },
    /// The object has no entry for the field at this index.
    MissingField { field: usize },
    /// The object entry at this index names no field, and unknown keys are denied.
    UnknownField { entry: usize },
    /// The payload is not of the wire form this path reads.
    ShapeMismatch,
}

/// Both paths of a dual-mode decode failed: why each one did.
#[derive(Debug, PartialEq, Eq)]
pub struct DualError {
    pub object: DecodeError,
    pub sequence: DecodeError,
}

/// A record definition that no codec can be generated for.
#[derive(Debug, PartialEq, Eq)]
pub enum GenerationError {
    Validation(ValidationError),
    Conflict(ConflictError),
}

/// The failure of `Codec::decode`: of the sequence path alone, or of both paths
/// when the record accepts either wire form.
#[derive(Debug, PartialEq, Eq)]
pub enum DecodeFailure {
    Sequence(DecodeError),
    Both(DualError),
}

/// The codec of one record shape.
#[derive(Debug, PartialEq, Eq)]
pub struct Codec {
    /// The outer tag at the wire boundary.
    pub name: String,
    /// The fields in declaration order.
    pub fields: Vec<FieldDescriptor>,
    /// The resolved wire order: indices into `fields`.
    pub order: Vec<usize>,
    pub deny_unknown_fields: bool,
    /// Whether decoding accepts the object form besides the sequence form.
    pub untagged: bool,
    /// The record's foreign annotations.
    pub foreign: Vec<Annotation>,
}

/// The key of a field in the object form.
pub open spec fn wire_key(d: FieldDescriptor) -> Seq<char> {
    match d.rename {
        Some(r) => r@,
        None => d.name@,
    }
}

/// No two fields that are not skipped share a key in the object form.
pub open spec fn distinct_keys(f: Seq<FieldDescriptor>) -> bool {
    forall|i: int, j: int|
        live(f, i) && live(f, j) && i != j ==> wire_key(#[trigger] f[i]) != wire_key(
            #[trigger] f[j],
        )
}

/// The fields at `a` and `b`, neither skipped, share their object key.
pub open spec fn shared_key(f: Seq<FieldDescriptor>, a: int, b: int) -> bool {
    &&& a < b
    &&& live(f, a)
    &&& live(f, b)
    &&& wire_key(f[a]) == wire_key(f[b])
}

/// The value a skipped field takes on decoding: its declared default, else
/// the default of its kind.
pub open spec fn fill_of(d: FieldDescriptor) -> ValueModel {
    match d.default {
        Some(x) => x@,
        None => default_of(d.ty.kind),
    }
}

fn field_key(d: &FieldDescriptor) -> (r: &String)
    ensures
        r@ == wire_key(*d),
{
    match &d.rename {
        Some(k) => k,
        None => &d.name,
    }
}

fn fill_value(d: &FieldDescriptor) -> (r: Value)
    ensures
        r@ == fill_of(*d),
{
    match &d.default {
        Some(x) => x.clone(),
        None => default_value(&d.ty.kind),
    }
}

/// Two fields that are not skipped and share their object key, if any.
fn find_shared_key(f: &Vec<FieldDescriptor>) -> (r: Option<(usize, usize)>)
    ensures
        match r {
            Some((a, b)) => shared_key(f@, a as int, b as int),
            None => distinct_keys(f@),
        },
{
    let n = f.len();
    let mut b: usize = 0;
    while b < n
        invariant
            n == f@.len(),
            b <= n,
            forall|i: int, j: int|
                0 <= i < j < b && live(f@, i) && live(f@, j) ==> wire_key(#[trigger] f@[i])
                    != wire_key(#[trigger] f@[j]),
        decreases n - b,
    {
        if !f[b].skip {
            let mut a: usize = 0;
            while a < b
                invariant
                    n == f@.len(),
                    a <= b,
                    b < n,
                    !f@[b as int].skip,
                    forall|i: int| 0 <= i < a && live(f@, i) ==> wire_key(#[trigger] f@[i]) != wire_key(f@[b as int]),
                decreases b - a,
            {
                if !f[a].skip && *field_key(&f[a]) == *field_key(&f[b]) {
                    return Some((a, b));
                }
                a = a + 1;
            }
        }
        b = b + 1;
    }
    None
}

/// The first entry of `es` with key `k` stands at `j`.
pub open spec fn key_at(es: Seq<(Seq<char>, ValueModel)>, k: Seq<char>, j: int) -> bool {
    &&& 0 <= j < es.len()
    &&& es[j].0 == k
    &&& forall|u: int| 0 <= u < j ==> (#[trigger] es[u]).0 != k
}

/// The value of the first entry of `es` with key `k`.
pub open spec fn lookup(es: Seq<(Seq<char>, ValueModel)>, k: Seq<char>) -> Option<ValueModel> {
    if exists|j: int| key_at(es, k, j) {
        Some(es[choose|j: int| key_at(es, k, j)].1)
    } else {
        None
    }
}

/// `ds` are the descriptors of the fields of `def`.
pub open spec fn descriptors_of(def: RecordDefinition, ds: Seq<FieldDescriptor>) -> bool {
    &&& ds.len() == def.fields@.len()
    &&& forall|i: int| 0 <= i < ds.len() ==> describes(def.fields@[i], #[trigger] ds[i])
}

/// `c` is the codec generated from `def`.
pub open spec fn generated(def: RecordDefinition, c: Codec) -> bool {
    &&& descriptors_of(def, c.fields@)
    &&& c.name@ == match rename_of(def.annotations@) {
        Some(r) => r,
        None => def.name@,
    }
    &&& c.deny_unknown_fields == has_key(def.annotations@, "deny_unknown_fields"@)
    &&& c.untagged == has_key(def.annotations@, "untagged"@)
    &&& c.foreign@ == foreign_of(def.annotations@)
    &&& distinct_keys(c.fields@)
    &&& !mixed_positions(c.fields@)
    &&& !has_shared_position(c.fields@)
    &&& resolved(c.fields@, c.order@)
}

/// The field at index `i` is the first that cannot be described, and `e` is
/// the error reported for it.
pub open spec fn first_field_error(def: RecordDefinition, i: int, e: ValidationError) -> bool {
    &&& 0 <= i < def.fields@.len()
    &&& !field_ok(def.fields@[i])
    &&& field_error(def.fields@[i], i, e)
    &&& forall|j: int| 0 <= j < i ==> field_ok(#[trigger] def.fields@[j])
}

pub open spec fn result_model<E>(r: Result<Vec<Value>, E>) -> Result<Seq<ValueModel>, E> {
    match r {
        Ok(v) => Ok(values_model(v@)),
        Err(e) => Err(e),
    }
}

impl Codec {
    /// Generates the codec of a record definition: reads the record's and each
    /// field's directives, keeps their foreign annotations, and resolves the
    /// wire order. Without a `rename` directive the outer tag is the record's
    /// name.
    pub fn generate(def: &RecordDefinition) -> (r: Result<Codec, GenerationError>)
        ensures
            match r {
                Ok(c) => annotations_ok(def.annotations@) && generated(*def, c) && c.wf(),
                Err(GenerationError::Validation(ValidationError::MalformedDirective { owner: None, annotation })) =>
                    first_malformed(def.annotations@, annotation as int),
                Err(GenerationError::Validation(ValidationError::DuplicateKey { first, second })) => {
                    &&& annotations_ok(def.annotations@)
                    &&& exists|ds: Seq<FieldDescriptor>|
                        descriptors_of(*def, ds) && shared_key(ds, first as int, second as int)
                },
                Err(GenerationError::Validation(e)) => annotations_ok(def.annotations@) && exists|i: int|
                    first_field_error(*def, i, e),
                Err(GenerationError::Conflict(ConflictError::MixedPositions)) => {
                    &&& annotations_ok(def.annotations@)
                    &&& exists|ds: Seq<FieldDescriptor>|
                        descriptors_of(*def, ds) && mixed_positions(ds)
                },
                Err(GenerationError::Conflict(ConflictError::DuplicatePosition { position })) => {
                    &&& annotations_ok(def.annotations@)
                    &&& exists|ds: Seq<FieldDescriptor>|
                        descriptors_of(*def, ds) && !mixed_positions(ds) && shared_position(
                            ds,
                            position,
                        )
                },
            },
    {
        let p = match partition(&def.annotations) {
            Ok(p) => p,
            Err(k) => {
                return Err(
                    GenerationError::Validation(
                        ValidationError::MalformedDirective { owner: None, annotation: k },
                    ),
                );
            },
        };
        let fields = match extract_fields(&def.fields) {
            Ok(ds) => ds,
            Err(e) => {
                proof {
                    let i = choose|i: int|
                        {
                            &&& 0 <= i < def.fields@.len()
                            &&& !field_ok(#[trigger] def.fields@[i])
                            &&& field_error(def.fields@[i], i, e)
                            &&& forall|j: int| 0 <= j < i ==> field_ok(#[trigger] def.fields@[j])
                        };
                    assert(first_field_error(*def, i, e));
                }
                return Err(GenerationError::Validation(e));
            },
        };
        assert(descriptors_of(*def, fields@));
        if let Some((a, b)) = find_shared_key(&fields) {
            return Err(
                GenerationError::Validation(ValidationError::DuplicateKey { first: a, second: b }),
            );
        }
        let order = match get_sorted_fields(&fields) {
            Ok(o) => o,
            Err(e) => {
                return Err(GenerationError::Conflict(e));
            },
        };
        let Partition { directives, foreign } = p;
        assert forall|i: int| 0 <= i < fields@.len() implies fits(
            fields@[i].ty.kind,
            #[trigger] fill_of(fields@[i]),
        ) by {
            assert(field_ok(def.fields@[i]) && describes(def.fields@[i], fields@[i]));
        }
        let name = match directives.rename {
            Some(r) => r,
            None => def.name.clone(),
        };
        Ok(
            Codec {
                name,
                fields,
                order,
                deny_unknown_fields: directives.deny_unknown_fields,
                untagged: directives.untagged,
                foreign,
            },
        )
    }

    /// The order lists each field that is not skipped exactly once, no two
    /// such fields share their object key, and each field's fill value is of
    /// its kind.
    pub open spec fn wf(&self) -> bool {
        &&& covers_live(self.fields@, self.order@)
        &&& distinct_keys(self.fields@)
        &&& forall|i: int| 0 <= i < self.fields@.len() ==> fits(self.kind(i), #[trigger] self.fill(i))
    }

    /// The value field `i` takes on decoding when it is skipped.
    pub open spec fn fill(&self, i: int) -> ValueModel {
        fill_of(self.fields@[i])
    }

    pub open spec fn kind(&self, i: int) -> Kind {
        self.fields@[i].ty.kind
    }

    pub open spec fn live(&self, i: int) -> bool {
        live(self.fields@, i)
    }

    /// `v` is a value of the record: one value of the right kind per field.
    pub open spec fn holds(&self, v: Seq<ValueModel>) -> bool {
        &&& v.len() == self.fields@.len()
        &&& forall|i: int| 0 <= i < v.len() ==> fits(self.kind(i), #[trigger] v[i])
    }

    /// Every skipped field of `v` holds its fill value.
    pub open spec fn skipped_default(&self, v: Seq<ValueModel>) -> bool {
        forall|i: int|
            0 <= i < self.fields@.len() && self.fields@[i].skip ==> #[trigger] v[i] == self.fill(i)
    }

    /// The sequence form of `v`: its fields' values in the resolved order.
    pub open spec fn sequence_form(&self, v: Seq<ValueModel>) -> WireModel {
        WireModel::Sequence(Seq::new(self.order@.len(), |t: int| v[self.order@[t] as int]))
    }

    /// The object form of `v`: one entry per field that is not skipped, in
    /// declaration order, keyed by the field's (possibly renamed) name.
    pub open spec fn object_form(&self, v: Seq<ValueModel>) -> WireModel {
        WireModel::Object(
            declared_order(self.fields@).map_values(
                |i: usize| (wire_key(self.fields@[i as int]), v[i as int]),
            ),
        )
    }

    pub open spec fn element_bad(&self, xs: Seq<ValueModel>, t: int) -> bool {
        0 <= t < xs.len() && !fits(self.kind(self.order@[t] as int), xs[t])
    }

    pub open spec fn first_bad_element(&self, xs: Seq<ValueModel>, t: int) -> bool {
        &&& self.element_bad(xs, t)
        &&& forall|u: int| 0 <= u < t ==> !#[trigger] self.element_bad(xs, u)
    }

    /// The place of field `i` in the resolved order.
    pub open spec fn slot_of(&self, i: int) -> int {
        choose|t: int| 0 <= t < self.order@.len() && self.order@[t] == i
    }

    /// The record value that a sequence of elements assigns by position;
    /// skipped fields take their fill value.
    pub open spec fn from_elements(&self, xs: Seq<ValueModel>) -> Seq<ValueModel> {
        Seq::new(
            self.fields@.len(),
            |i: int|
                if self.live(i) {
                    xs[self.slot_of(i)]
                } else {
                    self.fill(i)
                },
        )
    }

    /// What decoding `w` as the sequence form gives.
    pub open spec fn tuple_decode(&self, w: WireModel) -> Result<Seq<ValueModel>, DecodeError> {
        match w {
            WireModel::Object(_) => Err(DecodeError::ShapeMismatch),
            WireModel::Sequence(xs) => if xs.len() != self.order@.len() {
                Err(
                    DecodeError::ArityMismatch {
                        expected: self.order@.len() as usize,
                        found: xs.len() as usize,
                    },
                )
            } else if exists|t: int| self.first_bad_element(xs, t) {
                Err(
                    DecodeError::TypeMismatch {
                        field: self.order@[choose|t: int| self.first_bad_element(xs, t)],
                    },
                )
            } else {
                Ok(self.from_elements(xs))
            },
        }
    }

    /// `k` is the key of some field that is not skipped.
    pub open spec fn is_field_key(&self, k: Seq<char>) -> bool {
        exists|i: int| self.live(i) && wire_key(#[trigger] self.fields@[i]) == k
    }

    pub open spec fn first_unknown(&self, es: Seq<(Seq<char>, ValueModel)>, e: int) -> bool {
        &&& 0 <= e < es.len()
        &&& !self.is_field_key(es[e].0)
        &&& forall|u: int| 0 <= u < e ==> self.is_field_key((#[trigger] es[u]).0)
    }

    /// Field `i` is not skipped, and the object has no entry of its kind for it.
    pub open spec fn field_bad(&self, es: Seq<(Seq<char>, ValueModel)>, i: int) -> bool {
        &&& self.live(i)
        &&& match lookup(es, wire_key(self.fields@[i])) {
            Some(x) => !fits(self.kind(i), x),
            None => true,
        }
    }

    pub open spec fn first_bad_field(&self, es: Seq<(Seq<char>, ValueModel)>, i: int) -> bool {
        &&& self.field_bad(es, i)
        &&& forall|j: int| 0 <= j < i ==> !#[trigger] self.field_bad(es, j)
    }

    /// The record value that an object assigns by key.
    pub open spec fn from_entries(&self, es: Seq<(Seq<char>, ValueModel)>) -> Seq<ValueModel> {
        Seq::new(
            self.fields@.len(),
            |i: int|
                if self.live(i) {
                    match lookup(es, wire_key(self.fields@[i])) {
                        Some(x) => x,
                        None => self.fill(i),
                    }
                } else {
                    self.fill(i)
                },
        )
    }

    /// What decoding `w` as the object form gives.
    pub open spec fn keyed_decode(&self, w: WireModel) -> Result<Seq<ValueModel>, DecodeError> {
        match w {
            WireModel::Sequence(_) => Err(DecodeError::ShapeMismatch),
            WireModel::Object(es) => if self.deny_unknown_fields && exists|e: int|
                self.first_unknown(es, e) {
                Err(
                    DecodeError::UnknownField {
                        entry: (choose|e: int| self.first_unknown(es, e)) as usize,
                    },
                )
            } else if exists|i: int| self.first_bad_field(es, i) {
                let i = choose|i: int| self.first_bad_field(es, i);
                if lookup(es, wire_key(self.fields@[i])) is None {
                    Err(DecodeError::MissingField { field: i as usize })
                } else {
                    Err(DecodeError::TypeMismatch { field: i as usize })
                }
            } else {
                Ok(self.from_entries(es))
            },
        }
    }

    /// What the dual-mode decode of `w` gives: the object path first, then the
    /// sequence path; the first that succeeds decides.
    pub open spec fn dual_decode(&self, w: WireModel) -> Result<Seq<ValueModel>, DualError> {
        match self.keyed_decode(w) {
            Ok(v) => Ok(v),
            Err(a) => match self.tuple_decode(w) {
                Ok(v) => Ok(v),
                Err(b) => Err(DualError { object: a, sequence: b }),
            },
        }
    }

    /// What `decode` gives: both paths for a record that accepts either wire
    /// form, the sequence path alone otherwise.
    pub open spec fn decode_spec(&self, w: WireModel) -> Result<Seq<ValueModel>, DecodeFailure> {
        if self.untagged {
            match self.dual_decode(w) {
                Ok(v) => Ok(v),
                Err(e) => Err(DecodeFailure::Both(e)),
            }
        } else {
            match self.tuple_decode(w) {
                Ok(v) => Ok(v),
                Err(e) => Err(DecodeFailure::Sequence(e)),
            }
        }
    }

    /// Writes the sequence form of a record value.
    pub fn encode_sequence(&self, v: &Vec<Value>) -> (r: Wire)
        requires
            self.wf(),
            v@.len() == self.fields@.len(),
        ensures
            r@ == self.sequence_form(values_model(v@)),
    {
        let mut xs: Vec<Value> = Vec::new();
        let mut t: usize = 0;
        while t < self.order.len()
            invariant
                self.wf(),
                v@.len() == self.fields@.len(),
                t <= self.order@.len(),
                xs@.len() == t,
                forall|u: int| 0 <= u < t ==> #[trigger] xs@[u] == v@[self.order@[u] as int],
            decreases self.order@.len() - t,
        {
            proof {
                assert(live(self.fields@, self.order@[t as int] as int));
            }
            xs.push(v[self.order[t]].clone());
            t = t + 1;
        }
        let r = Wire::Sequence(xs);
        assert(values_model(xs@) =~= Seq::new(
            self.order@.len(),
            |u: int| values_model(v@)[self.order@[u] as int],
        ));
        r
    }

    /// Path B: reads the sequence form and assigns its elements to the fields
    /// by position; skipped fields take their fill value.
    pub fn decode_tuple(&self, w: &Wire) -> (r: Result<Vec<Value>, DecodeError>)
        requires
            self.wf(),
        ensures
            result_model(r) == self.tuple_decode(w@),
    {
        let xs = match w {
            Wire::Sequence(xs) => xs,
            Wire::Object(_) => {
                return Err(DecodeError::ShapeMismatch);
            },
        };
        let ghost xm = values_model(xs@);
        assert(w@ == WireModel::Sequence(xm));
        if xs.len() != self.order.len() {
            return Err(DecodeError::ArityMismatch { expected: self.order.len(), found: xs.len() });
        }
        let mut t: usize = 0;
        while t < xs.len()
            invariant
                self.wf(),
                xm == values_model(xs@),
                w@ == WireModel::Sequence(xm),
                xs@.len() == self.order@.len(),
                t <= xs@.len(),
                forall|u: int| 0 <= u < t ==> !#[trigger] self.element_bad(xm, u),
            decreases xs@.len() - t,
        {
            let i = self.order[t];
            proof {
                assert(live(self.fields@, i as int));
            }
            if !fits_kind(&self.fields[i].ty.kind, &xs[t]) {
                proof {
                    assert(self.first_bad_element(xm, t as int));
                    let c = choose|u: int| self.first_bad_element(xm, u);
                    assert(c == t) by {
                        if c < t {
                            assert(!self.element_bad(xm, c));
                        }
                        if c > t {
                            assert(!self.element_bad(xm, t as int));
                        }
                    }
                    assert(xm.len() == self.order@.len());
                    assert(self.tuple_decode(w@) == Err::<Seq<ValueModel>, DecodeError>(
                        DecodeError::TypeMismatch { field: i },
                    ));
                }
                return Err(DecodeError::TypeMismatch { field: i });
            }
            t = t + 1;
        }
        let n = self.fields.len();
        let mut v: Vec<Value> = Vec::new();
        let mut i: usize = 0;
        while i < n
            invariant
                n == self.fields@.len(),
                i <= n,
                v@.len() == i,
                forall|j: int| 0 <= j < i ==> (#[trigger] v@[j])@ == self.fill(j),
            decreases n - i,
        {
            v.push(fill_value(&self.fields[i]));
            i = i + 1;
        }
        let mut t: usize = 0;
        while t < xs.len()
            invariant
                self.wf(),
                xm == values_model(xs@),
                xs@.len() == self.order@.len(),
                n == self.fields@.len(),
                v@.len() == n,
                t <= xs@.len(),
                forall|u: int| 0 <= u < t ==> (#[trigger] v@[self.order@[u] as int])@ == xm[u],
                forall|j: int|
                    0 <= j < n && (forall|u: int| 0 <= u < t ==> self.order@[u] != j) ==> (
                    #[trigger] v@[j])@ == self.fill(j),
            decreases xs@.len() - t,
        {
            let i = self.order[t];
            proof {
                assert(live(self.fields@, i as int));
                assert forall|u: int| 0 <= u < t implies self.order@[u] != i by {
                    assert(self.order@[u] != self.order@[t as int]);
                }
            }
            v[i] = xs[t].clone();
            t = t + 1;
        }
        proof {
            let fe = self.from_elements(xm);
            assert forall|j: int| 0 <= j < n implies (#[trigger] values_model(v@)[j]) == fe[j] by {
                if self.live(j) {
                    let s = self.slot_of(j);
                    assert(exists|u: int| 0 <= u < self.order@.len() && #[trigger] self.order@[u] == j);
                    assert(v@[self.order@[s] as int]@ == xm[s]);
                } else {
                    assert forall|u: int| 0 <= u < t implies self.order@[u] != j by {
                        assert(live(self.fields@, self.order@[u] as int));
                    }
                }
            }
            assert(values_model(v@) =~= fe);
            assert(!exists|u: int| self.first_bad_element(xm, u));
        }
        Ok(v)
    }
}

impl Codec {
    fn key_of(&self, i: usize) -> (r: &String)
        requires
            i < self.fields@.len(),
        ensures
            r@ == wire_key(self.fields@[i as int]),
    {
        field_key(&self.fields[i])
    }

    /// Writes the object form of a record value.
    pub fn encode_object(&self, v: &Vec<Value>) -> (r: Wire)
        requires
            v@.len() == self.fields@.len(),
        ensures
            r@ == self.object_form(values_model(v@)),
    {
        let ghost f = self.fields@;
        let ghost vm = values_model(v@);
        let n = self.fields.len();
        let mut es: Vec<Entry> = Vec::new();
        let mut i: usize = 0;
        while i < n
            invariant
                n == f.len(),
                f == self.fields@,
                vm == values_model(v@),
                v@.len() == n,
                i <= n,
                entries_model(es@) == declared_order(f.subrange(0, i as int)).map_values(
                    |j: usize| (wire_key(f[j as int]), vm[j as int]),
                ),
            decreases n - i,
        {
            let ghost g = f.subrange(0, i as int + 1);
            assert(g.drop_last() == f.subrange(0, i as int));
            let ghost before = entries_model(es@);
            if !self.fields[i].skip {
                let k = self.key_of(i).clone();
                es.push(Entry { key: k, value: v[i].clone() });
                assert(entries_model(es@) =~= before.push((wire_key(f[i as int]), vm[i as int])));
                assert(declared_order(g) == declared_order(f.subrange(0, i as int)).push(i));
                assert(entries_model(es@) =~= declared_order(g).map_values(
                    |j: usize| (wire_key(f[j as int]), vm[j as int]),
                ));
            } else {
                assert(declared_order(g) == declared_order(f.subrange(0, i as int)));
            }
            i = i + 1;
        }
        assert(f.subrange(0, n as int) == f);
        Wire::Object(es)
    }

    /// The index of the first entry with key `k`.
    fn find_entry(es: &Vec<Entry>, k: &String) -> (r: Option<usize>)
        ensures
            match r {
                Some(j) => key_at(entries_model(es@), k@, j as int),
                None => forall|j: int| 0 <= j < es@.len() ==> (#[trigger] es@[j]).key@ != k@,
            },
    {
        let ghost em = entries_model(es@);
        let mut j: usize = 0;
        while j < es.len()
            invariant
                em == entries_model(es@),
                j <= es@.len(),
                forall|u: int| 0 <= u < j ==> (#[trigger] es@[u]).key@ != k@,
            decreases es@.len() - j,
        {
            if es[j].key == *k {
                assert forall|u: int| 0 <= u < j implies (#[trigger] em[u]).0 != k@ by {
                    assert(em[u].0 == es@[u].key@);
                }
                return Some(j);
            }
            j = j + 1;
        }
        None
    }

    /// Path A: reads the object form, field by field by key; skipped fields take
    /// their default. Entries whose key names no field are ignored, or rejected
    /// when unknown keys are denied.
    pub fn decode_keyed(&self, w: &Wire) -> (r: Result<Vec<Value>, DecodeError>)
        requires
            self.wf(),
        ensures
            result_model(r) == self.keyed_decode(w@),
    {
        let es = match w {
            Wire::Object(es) => es,
            Wire::Sequence(_) => {
                return Err(DecodeError::ShapeMismatch);
            },
        };
        let ghost em = entries_model(es@);
        assert(w@ == WireModel::Object(em));
        let n = self.fields.len();
        if self.deny_unknown_fields {
            let mut e: usize = 0;
            while e < es.len()
                invariant
                    em == entries_model(es@),
                    w@ == WireModel::Object(em),
                    self.deny_unknown_fields,
                    n == self.fields@.len(),
                    e <= es@.len(),
                    forall|u: int| 0 <= u < e ==> self.is_field_key((#[trigger] em[u]).0),
                decreases es@.len() - e,
            {
                let mut known = false;
                let mut i: usize = 0;
                while i < n
                    invariant
                        em == entries_model(es@),
                        n == self.fields@.len(),
                        e < es@.len(),
                        i <= n,
                        known ==> self.is_field_key(em[e as int].0),
                        !known ==> forall|j: int|
                            0 <= j < i && self.live(j) ==> wire_key(#[trigger] self.fields@[j])
                                != em[e as int].0,
                    decreases n - i,
                {
                    if !self.fields[i].skip && *self.key_of(i) == es[e].key {
                        known = true;
                    }
                    i = i + 1;
                }
                if !known {
                    proof {
                        assert(self.first_unknown(em, e as int));
                        let c = choose|u: int| self.first_unknown(em, u);
                        assert(c == e) by {
                            if c < e {
                                assert(self.is_field_key(em[c].0));
                            }
                            if c > e {
                                assert(self.is_field_key(em[e as int].0));
                            }
                        }
                    }
                    return Err(DecodeError::UnknownField { entry: e });
                }
                e = e + 1;
            }
            assert(!exists|u: int| self.first_unknown(em, u));
        }
        let mut v: Vec<Value> = Vec::new();
        let mut i: usize = 0;
        while i < n
            invariant
                self.wf(),
                em == entries_model(es@),
                w@ == WireModel::Object(em),
                !(self.deny_unknown_fields && exists|u: int| self.first_unknown(em, u)),
                n == self.fields@.len(),
                i <= n,
                v@.len() == i,
                forall|j: int| 0 <= j < i ==> !#[trigger] self.field_bad(em, j),
                forall|j: int|
                    0 <= j < i ==> (#[trigger] v@[j])@ == self.from_entries(em)[j],
            decreases n - i,
        {
            if self.fields[i].skip {
                v.push(fill_value(&self.fields[i]));
            } else {
                let k = self.key_of(i);
                match Self::find_entry(es, k) {
                    Some(j) => {
                        proof {
                            assert(lookup(em, k@) == Some(em[j as int].1));
                        }
                        if !fits_kind(&self.fields[i].ty.kind, &es[j].value) {
                            proof {
                                assert(self.first_bad_field(em, i as int));
                                let c = choose|u: int| self.first_bad_field(em, u);
                                assert(c == i) by {
                                    if c < i {
                                        assert(!self.field_bad(em, c));
                                    }
                                    if c > i {
                                        assert(!self.field_bad(em, i as int));
                                    }
                                }
                            }
                            return Err(DecodeError::TypeMismatch { field: i });
                        }
                        v.push(es[j].value.clone());
                    },
                    None => {
                        proof {
                            assert forall|u: int| !key_at(em, k@, u) by {
                                if 0 <= u < em.len() {
                                    assert(em[u].0 == es@[u].key@);
                                }
                            }
                            assert(lookup(em, k@) is None);
                            assert(self.first_bad_field(em, i as int));
                            let c = choose|u: int| self.first_bad_field(em, u);
                            assert(c == i) by {
                                if c < i {
                                    assert(!self.field_bad(em, c));
                                }
                                if c > i {
                                    assert(!self.field_bad(em, i as int));
                                }
                            }
                        }
                        return Err(DecodeError::MissingField { field: i });
                    },
                }
            }
            i = i + 1;
        }
        proof {
            assert(values_model(v@) =~= self.from_entries(em));
            assert forall|u: int| !self.first_bad_field(em, u) by {
                if 0 <= u < n {
                    assert(!self.field_bad(em, u));
                }
            }
        }
        Ok(v)
    }

    /// Decodes either wire form: the object path first, then the sequence
    /// path. The first success decides; when both fail, both reasons are given.
    pub fn decode_dual(&self, w: &Wire) -> (r: Result<Vec<Value>, DualError>)
        requires
            self.wf(),
        ensures
            result_model(r) == self.dual_decode(w@),
    {
        match self.decode_keyed(w) {
            Ok(v) => Ok(v),
            Err(a) => match self.decode_tuple(w) {
                Ok(v) => Ok(v),
                Err(b) => Err(DualError { object: a, sequence: b }),
            },
        }
    }

    /// Decodes a payload as this record's codec is configured to: either wire
    /// form when the record is `untagged`, else the sequence form alone.
    pub fn decode(&self, w: &Wire) -> (r: Result<Vec<Value>, DecodeFailure>)
        requires
            self.wf(),
        ensures
            result_model(r) == self.decode_spec(w@),
    {
        if self.untagged {
            match self.decode_dual(w) {
                Ok(v) => Ok(v),
                Err(e) => Err(DecodeFailure::Both(e)),
            }
        } else {
            match self.decode_tuple(w) {
                Ok(v) => Ok(v),
                Err(e) => Err(DecodeFailure::Sequence(e)),
            }
        }
    }

    /// Writes the sequence form of a record value; the default encoding.
    pub fn encode(&self, v: &Vec<Value>) -> (r: Wire)
        requires
            self.wf(),
            v@.len() == self.fields@.len(),
        ensures
            r@ == self.sequence_form(values_model(v@)),
    {
        self.encode_sequence(v)
    }
}


} // verus!
