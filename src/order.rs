//! The resolved wire order of a record's fields.
//!
//! Either every field that is not skipped declares an explicit position, all of
//! them distinct, and the fields go in ascending order of position (gaps between
//! positions are allowed and kept); or none does, and the fields go in
//! declaration order. A skipped field has no place in the order, but no two
//! fields, skipped or not, may declare the same position.

use vstd::prelude::*;
use crate::descriptor::FieldDescriptor;

verus! {

/// A set of positions that no order can be resolved from.
#[derive(Debug, PartialEq, Eq)]
pub enum ConflictError {
    /// Two fields declare this position.
    DuplicatePosition { position: u64 },
    /// Some fields declare a position and others do not.
    MixedPositions,
}

pub open spec fn live(f: Seq<FieldDescriptor>, i: int) -> bool {
    0 <= i < f.len() && !f[i].skip
}

pub open spec fn pos(f: Seq<FieldDescriptor>, i: int) -> int {
    match f[i].position {
        Some(p) => p as int,
        None => -1,
    }
}

/// Some field that is not skipped declares a position.
pub open spec fn any_positioned(f: Seq<FieldDescriptor>) -> bool {
    exists|i: int| live(f, i) && (#[trigger] f[i]).position is Some
}

/// Every field that is not skipped declares a position.
pub open spec fn all_positioned(f: Seq<FieldDescriptor>) -> bool {
    forall|i: int| live(f, i) ==> (#[trigger] f[i]).position is Some
}

pub open spec fn mixed_positions(f: Seq<FieldDescriptor>) -> bool {
    any_positioned(f) && !all_positioned(f)
}

/// Two distinct fields, skipped or not, declare the position `p`.
pub open spec fn shared_position(f: Seq<FieldDescriptor>, p: u64) -> bool {
    exists|i: int, j: int|
        0 <= i < f.len() && 0 <= j < f.len() && i != j && (#[trigger] f[i]).position == Some(p)
            && (#[trigger] f[j]).position == Some(p)
}

/// No two fields declare the same position.
pub open spec fn positions_distinct(f: Seq<FieldDescriptor>) -> bool {
    forall|i: int, j: int|
        0 <= i < f.len() && 0 <= j < f.len() && i != j && (#[trigger] f[i]).position is Some
            ==> f[i].position != (#[trigger] f[j]).position
}

pub open spec fn has_shared_position(f: Seq<FieldDescriptor>) -> bool {
    exists|p: u64| shared_position(f, p)
}

/// The indices of the fields that are not skipped, in declaration order.
pub open spec fn declared_order(f: Seq<FieldDescriptor>) -> Seq<usize>
    decreases f.len(),
{
    if f.len() == 0 {
        Seq::empty()
    } else {
        let o = declared_order(f.drop_last());
        if f.last().skip {
            o
        } else {
            o.push((f.len() - 1) as usize)
        }
    }
}

/// `o` lists each field that is not skipped exactly once, and nothing else.
pub open spec fn covers_live(f: Seq<FieldDescriptor>, o: Seq<usize>) -> bool {
    &&& forall|t: int| 0 <= t < o.len() ==> live(f, #[trigger] o[t] as int)
    &&& forall|a: int, b: int| 0 <= a < b < o.len() ==> #[trigger] o[a] != #[trigger] o[b]
    &&& forall|i: int| live(f, i) ==> exists|t: int| 0 <= t < o.len() && #[trigger] o[t] == i
}

/// Along `o` the declared positions strictly ascend.
pub open spec fn ascending(f: Seq<FieldDescriptor>, o: Seq<usize>) -> bool {
    forall|a: int, b: int|
        0 <= a < b < o.len() ==> pos(f, #[trigger] o[a] as int) < pos(f, #[trigger] o[b] as int)
}

/// The order that `get_sorted_fields` gives when it succeeds.
pub open spec fn resolved(f: Seq<FieldDescriptor>, o: Seq<usize>) -> bool {
    &&& covers_live(f, o)
    &&& !any_positioned(f) ==> o == declared_order(f)
    &&& any_positioned(f) ==> ascending(f, o)
}

pub proof fn lemma_declared_order(f: Seq<FieldDescriptor>)
    requires
        f.len() <= usize::MAX,
    ensures
        covers_live(f, declared_order(f)),
        forall|a: int, b: int|
            0 <= a < b < declared_order(f).len() ==> #[trigger] declared_order(f)[a]
                < #[trigger] declared_order(f)[b],
    decreases f.len(),
{
    if f.len() > 0 {
        let g = f.drop_last();
        lemma_declared_order(g);
        let o = declared_order(g);
        let o2 = declared_order(f);
        let last = f.len() - 1;
        assert forall|t: int| 0 <= t < o.len() implies (#[trigger] o[t]) < last && live(
            f,
            o[t] as int,
        ) by {
            assert(live(g, o[t] as int));
            assert(g[o[t] as int] == f[o[t] as int]);
        }
        assert forall|i: int| live(f, i) implies exists|t: int|
            0 <= t < o2.len() && #[trigger] o2[t] == i by {
            if i < last {
                assert(g[i] == f[i]);
                assert(live(g, i));
                let t = choose|t: int| 0 <= t < o.len() && #[trigger] o[t] == i;
                assert(o2[t] == i);
            } else {
                assert(o2 == o.push(last as usize));
                assert(o2[o.len() as int] == i);
            }
        }
        if f.last().skip {
            assert(o2 == o);
        } else {
            assert(o2 == o.push(last as usize));
        }
        assert forall|a: int, b: int| 0 <= a < b < o2.len() implies #[trigger] o2[a] != #[trigger] o2[b] by {
            assert(o2[a] < o2[b]);
        }
    }
}

/// Computes the resolved wire order: the indices of the fields that are not
/// skipped, in ascending order of their explicit positions where they declare
/// them, else in declaration order.
pub fn get_sorted_fields(fields: &Vec<FieldDescriptor>) -> (r: Result<Vec<usize>, ConflictError>)
    ensures
        match r {
            Ok(o) => !mixed_positions(fields@) && !has_shared_position(fields@) && resolved(
                fields@,
                o@,
            ),
            Err(ConflictError::MixedPositions) => mixed_positions(fields@),
            Err(ConflictError::DuplicatePosition { position }) => !mixed_positions(fields@)
                && shared_position(fields@, position),
        },
{
    let ghost f = fields@;
    let n = fields.len();
    let mut some_positioned = false;
    let mut some_unpositioned = false;
    let mut i: usize = 0;
    while i < n
        invariant
            n == f.len(),
            f == fields@,
            i <= n,
            some_positioned == exists|j: int|
                0 <= j < i && live(f, j) && (#[trigger] f[j]).position is Some,
            some_unpositioned == exists|j: int|
                0 <= j < i && live(f, j) && (#[trigger] f[j]).position is None,
        decreases n - i,
    {
        if !fields[i].skip {
            if fields[i].position.is_some() {
                some_positioned = true;
            } else {
                some_unpositioned = true;
            }
        }
        i = i + 1;
    }
    if some_positioned && some_unpositioned {
        return Err(ConflictError::MixedPositions);
    }
    let mut b: usize = 0;
    while b < n
        invariant
            n == f.len(),
            f == fields@,
            b <= n,
            !mixed_positions(f),
            forall|i: int, j: int|
                0 <= i < b && 0 <= j < b && i != j && (#[trigger] f[i]).position is Some
                    ==> f[i].position != (#[trigger] f[j]).position,
        decreases n - b,
    {
        if let Some(pb) = fields[b].position {
            let mut a: usize = 0;
            while a < b
                invariant
                    n == f.len(),
                    f == fields@,
                    a <= b,
                    b < n,
                    !mixed_positions(f),
                    f[b as int].position == Some(pb),
                    forall|i: int| 0 <= i < a ==> (#[trigger] f[i]).position != Some(pb),
                decreases b - a,
            {
                if let Some(pa) = fields[a].position {
                    if pa == pb {
                        proof {
                            assert(f[a as int].position == Some(pb));
                            assert(shared_position(f, pb));
                        }
                        return Err(ConflictError::DuplicatePosition { position: pb });
                    }
                }
                a = a + 1;
            }
        }
        b = b + 1;
    }
    assert(positions_distinct(f));
    assert forall|p: u64| !shared_position(f, p) by {
        if shared_position(f, p) {
            let (i, j) = choose|i: int, j: int|
                0 <= i < f.len() && 0 <= j < f.len() && i != j && (#[trigger] f[i]).position
                    == Some(p) && (#[trigger] f[j]).position == Some(p);
            assert(f[i].position != f[j].position);
        }
    }
    if !some_positioned {
        let mut o: Vec<usize> = Vec::new();
        let mut i: usize = 0;
        while i < n
            invariant
                n == f.len(),
                f == fields@,
                i <= n,
                o@ == declared_order(f.subrange(0, i as int)),
            decreases n - i,
        {
            let ghost g = f.subrange(0, i as int + 1);
            assert(g.drop_last() == f.subrange(0, i as int));
            if !fields[i].skip {
                o.push(i);
            }
            i = i + 1;
        }
        assert(f.subrange(0, n as int) == f);
        proof {
            lemma_declared_order(f);
        }
        return Ok(o);
    }
    let mut o: Vec<usize> = Vec::new();
    let mut i: usize = 0;
    while i < n
        invariant
            n == f.len(),
            f == fields@,
            i <= n,
            all_positioned(f),
            positions_distinct(f),
            forall|t: int| 0 <= t < o@.len() ==> live(f, #[trigger] o@[t] as int) && o@[t] < i,
            ascending(f, o@),
            forall|j: int|
                0 <= j < i && live(f, j) ==> exists|t: int| 0 <= t < o@.len() && #[trigger] o@[t] == j,
        decreases n - i,
    {
        if !fields[i].skip {
            let p = match fields[i].position {
                Some(p) => p,
                None => {
                    proof {
                        assert(live(f, i as int));
                    }
                    return Err(ConflictError::MixedPositions);
                },
            };
            let mut k: usize = 0;
            while k < o.len() && fields[o[k]].position.unwrap() < p
                invariant
                    n == f.len(),
                    f == fields@,
                    all_positioned(f),
                    forall|t: int| 0 <= t < o@.len() ==> live(f, #[trigger] o@[t] as int),
                    k <= o@.len(),
                    forall|t: int| 0 <= t < k ==> pos(f, #[trigger] o@[t] as int) < p,
                decreases o@.len() - k,
            {
                k = k + 1;
            }
            proof {
                if k < o@.len() {
                    let j = o@[k as int] as int;
                    assert(live(f, j) && j < i);
                    assert(f[j].position != f[i as int].position);
                }
            }
            let ghost old_o = o@;
            o.insert(k, i);
            proof {
                assert(o@ == old_o.insert(k as int, i));
                assert forall|t: int| 0 <= t < k implies o@[t] == old_o[t] by {}
                assert forall|t: int| k < t < o@.len() implies o@[t] == old_o[t - 1] by {}
                assert forall|t: int| k <= t < old_o.len() implies pos(f, #[trigger] old_o[t] as int) > p by {
                    if t > k {
                        assert(pos(f, old_o[k as int] as int) < pos(f, old_o[t] as int));
                    }
                }
                assert forall|j: int|
                    0 <= j < i + 1 && live(f, j) implies exists|t: int|
                        0 <= t < o@.len() && #[trigger] o@[t] == j by {
                    if j == i {
                        assert(o@[k as int] == j);
                    } else {
                        let t = choose|t: int| 0 <= t < old_o.len() && #[trigger] old_o[t] == j;
                        if t < k {
                            assert(o@[t] == j);
                        } else {
                            assert(o@[t + 1] == j);
                        }
                    }
                }
            }
        }
        i = i + 1;
    }
    proof {
        assert forall|a: int, b: int| 0 <= a < b < o@.len() implies #[trigger] o@[a] != #[trigger] o@[b] by {
            assert(pos(f, o@[a] as int) < pos(f, o@[b] as int));
        }
    }
    Ok(o)
}

} // verus!
