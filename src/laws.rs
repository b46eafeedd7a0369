//! Laws that relate the generator, the encoders and the decoders.

use vstd::prelude::*;
use crate::annotation::{Annotation, foreign_of, is_directive};
use crate::codec::{Codec, generated, key_at, lookup, wire_key};
use crate::descriptor::RecordDefinition;
use crate::order::{declared_order, lemma_declared_order, live};
use crate::value::{ValueModel, WireModel};

verus! {

/// Every foreign annotation of a list is kept by the partition.
pub proof fn lemma_foreign_of_contains(s: Seq<Annotation>, k: int)
    requires
        0 <= k < s.len(),
        !is_directive(s[k]),
    ensures
        foreign_of(s).contains(s[k]),
    decreases s.len(),
{
    if k == s.len() - 1 {
        assert(foreign_of(s) == foreign_of(s.drop_last()).push(s[k]));
        assert(foreign_of(s)[foreign_of(s).len() - 1] == s[k]);
    } else {
        let t = s.drop_last();
        assert(t[k] == s[k]);
        lemma_foreign_of_contains(t, k);
        let j = choose|j: int| 0 <= j < foreign_of(t).len() && foreign_of(t)[j] == s[k];
        if !is_directive(s.last()) {
            assert(foreign_of(s)[j] == s[k]);
        }
    }
}

/// An annotation of a field that is not a directive stands, unchanged, among
/// the foreign annotations of that field in the generated codec; and one of
/// the record among the record's.
pub proof fn lemma_foreign_preserved(def: RecordDefinition, c: Codec)
    requires
        generated(def, c),
    ensures
        forall|i: int, k: int|
            0 <= i < def.fields@.len() && 0 <= k < def.fields@[i].annotations@.len()
                && !is_directive(#[trigger] def.fields@[i].annotations@[k]) ==> c.fields@[i].foreign@.contains(
                def.fields@[i].annotations@[k],
            ),
        forall|k: int|
            0 <= k < def.annotations@.len() && !is_directive(#[trigger] def.annotations@[k])
                ==> c.foreign@.contains(def.annotations@[k]),
{
    assert forall|i: int, k: int|
        0 <= i < def.fields@.len() && 0 <= k < def.fields@[i].annotations@.len() && !is_directive(
            #[trigger] def.fields@[i].annotations@[k],
        ) implies c.fields@[i].foreign@.contains(def.fields@[i].annotations@[k]) by {
        lemma_foreign_of_contains(def.fields@[i].annotations@, k);
    }
    assert forall|k: int|
        0 <= k < def.annotations@.len() && !is_directive(
            #[trigger] def.annotations@[k],
        ) implies c.foreign@.contains(def.annotations@[k]) by {
        lemma_foreign_of_contains(def.annotations@, k);
    }
}

/// Decoding the sequence form of a record value gives the value back, when
/// its skipped fields hold their fill values (declared default, else the
/// kind's default).
pub proof fn lemma_sequence_round_trip(c: Codec, v: Seq<ValueModel>)
    requires
        c.wf(),
        c.holds(v),
        c.skipped_default(v),
    ensures
        c.tuple_decode(c.sequence_form(v)) == Ok::<Seq<ValueModel>, crate::codec::DecodeError>(v),
{
    let o = c.order@;
    let xs = Seq::new(o.len(), |t: int| v[o[t] as int]);
    assert(c.sequence_form(v) == WireModel::Sequence(xs));
    assert forall|t: int| 0 <= t < xs.len() implies !#[trigger] c.element_bad(xs, t) by {
        assert(live(c.fields@, o[t] as int));
    }
    assert forall|i: int| 0 <= i < v.len() implies #[trigger] c.from_elements(xs)[i] == v[i] by {
        if c.live(i) {
            assert(exists|t: int| 0 <= t < o.len() && #[trigger] o[t] == i);
            let s = c.slot_of(i);
            assert(o[s] == i);
        }
    }
    assert(c.from_elements(xs) =~= v);
}

/// Dual-mode decoding gives a record value back from its object form and from
/// its sequence form, when its skipped fields hold their fill values.
pub proof fn lemma_dual_round_trip(c: Codec, v: Seq<ValueModel>)
    requires
        c.wf(),
        c.holds(v),
        c.skipped_default(v),
        c.fields@.len() <= usize::MAX,
    ensures
        c.dual_decode(c.object_form(v)) == Ok::<Seq<ValueModel>, crate::codec::DualError>(v),
        c.dual_decode(c.sequence_form(v)) == Ok::<Seq<ValueModel>, crate::codec::DualError>(v),
{
    lemma_sequence_round_trip(c, v);
    let f = c.fields@;
    let d = declared_order(f);
    lemma_declared_order(f);
    let es = d.map_values(|i: usize| (wire_key(f[i as int]), v[i as int]));
    assert(c.object_form(v) == WireModel::Object(es));
    assert forall|e: int| 0 <= e < es.len() implies c.is_field_key((#[trigger] es[e]).0) by {
        assert(live(f, d[e] as int));
        assert(wire_key(f[d[e] as int]) == es[e].0);
    }
    assert(!exists|e: int| c.first_unknown(es, e));
    assert forall|i: int| c.live(i) implies lookup(es, wire_key(f[i])) == Some(v[i]) by {
        let t = choose|t: int| 0 <= t < d.len() && #[trigger] d[t] == i;
        let k = wire_key(f[i]);
        assert forall|u: int| 0 <= u < t implies (#[trigger] es[u]).0 != k by {
            assert(d[u] != d[t]);
            assert(live(f, d[u] as int));
        }
        assert(key_at(es, k, t));
        let j = choose|j: int| key_at(es, k, j);
        assert(j == t) by {
            if j < t {
                assert(es[j].0 != k);
            }
            if j > t {
                assert(es[t].0 == k);
            }
        }
    }
    assert forall|i: int| 0 <= i < v.len() implies !#[trigger] c.field_bad(es, i) by {
        if c.live(i) {
            assert(lookup(es, wire_key(f[i])) == Some(v[i]));
        }
    }
    assert(!exists|i: int| c.first_bad_field(es, i));
    assert forall|i: int| 0 <= i < v.len() implies #[trigger] c.from_entries(es)[i] == v[i] by {
        if c.live(i) {
            assert(lookup(es, wire_key(f[i])) == Some(v[i]));
        }
    }
    assert(c.from_entries(es) =~= v);
    assert(c.keyed_decode(c.object_form(v)) == Ok::<Seq<ValueModel>, crate::codec::DecodeError>(v));
}

/// A skipped field takes no part in either wire form: the sequence form has
/// one element per field that is not skipped, and neither form changes with the
/// skipped field's value. Decoding still yields the field, with its fill value,
/// beside the values of the fields that are not skipped.
pub proof fn lemma_skip_semantics(c: Codec, v: Seq<ValueModel>, w: Seq<ValueModel>, i: int)
    requires
        c.wf(),
        c.holds(v),
        0 <= i < v.len(),
        c.fields@[i].skip,
        w.len() == v.len(),
        forall|j: int| 0 <= j < v.len() && j != i ==> w[j] == v[j],
        c.fields@.len() <= usize::MAX,
    ensures
        c.sequence_form(w) == c.sequence_form(v),
        c.object_form(w) == c.object_form(v),
        c.order@.len() == declared_order(c.fields@).len(),
        c.tuple_decode(c.sequence_form(v)) matches Ok(u) && u.len() == v.len() && u[i]
            == c.fill(i) && forall|j: int| #[trigger] c.live(j) ==> u[j] == v[j],
{
    let f = c.fields@;
    let o = c.order@;
    let d = declared_order(f);
    lemma_declared_order(f);
    assert forall|t: int| 0 <= t < o.len() implies #[trigger] o[t] != i by {
        assert(live(f, o[t] as int));
    }
    assert(Seq::new(o.len(), |t: int| w[o[t] as int]) =~= Seq::new(o.len(), |t: int| v[o[t] as int]));
    assert forall|t: int| 0 <= t < d.len() implies #[trigger] d[t] != i by {
        assert(live(f, d[t] as int));
    }
    assert(d.map_values(|j: usize| (wire_key(f[j as int]), w[j as int])) =~= d.map_values(
        |j: usize| (wire_key(f[j as int]), v[j as int]),
    ));
    assert(o.to_set() =~= d.to_set()) by {
        assert forall|j: usize| o.to_set().contains(j) implies d.to_set().contains(j) by {
            assert(o.contains(j));
            let t = choose|t: int| 0 <= t < o.len() && o[t] == j;
            assert(live(f, o[t] as int));
            assert(exists|s: int| 0 <= s < d.len() && #[trigger] d[s] == j);
        }
        assert forall|j: usize| d.to_set().contains(j) implies o.to_set().contains(j) by {
            assert(d.contains(j));
            let t = choose|t: int| 0 <= t < d.len() && d[t] == j;
            assert(live(f, d[t] as int));
            assert(exists|s: int| 0 <= s < o.len() && #[trigger] o[s] == j);
        }
    }
    o.unique_seq_to_set();
    d.unique_seq_to_set();
    let v2 = Seq::new(
        v.len(),
        |j: int|
            if f[j].skip {
                c.fill(j)
            } else {
                v[j]
            },
    );
    assert(c.holds(v2));
    lemma_sequence_round_trip(c, v2);
    assert(Seq::new(o.len(), |t: int| v2[o[t] as int]) =~= Seq::new(o.len(), |t: int| v[o[t] as int])) by {
        assert forall|t: int| 0 <= t < o.len() implies v2[o[t] as int] == v[o[t] as int] by {
            assert(live(f, o[t] as int));
        }
    }
}

} // verus!
