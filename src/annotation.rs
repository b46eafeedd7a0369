//! Annotations on records and fields, and their split into directives and
//! foreign annotations.

use vstd::prelude::*;

verus! {

/// The value that an annotation carries.
#[derive(Debug, PartialEq, Eq)]
pub enum AnnotationValue {
    /// A bare marker, as in `skip`.
    Flag,
    /// A string, as in `rename = "name"`.
    Text(String),
    /// A non-negative integer, as in `position = 3`.
    Int(u64),
}

/// One annotation of a record or of a field: a key and its value.
#[derive(Debug, PartialEq, Eq)]
pub struct Annotation {
    pub key: String,
    pub value: AnnotationValue,
}

impl Clone for AnnotationValue {
    fn clone(&self) -> (r: Self)
        ensures
            r == *self,
    {
        match self {
            AnnotationValue::Flag => AnnotationValue::Flag,
            AnnotationValue::Text(s) => AnnotationValue::Text(s.clone()),
            AnnotationValue::Int(n) => AnnotationValue::Int(*n),
        }
    }
}

impl Clone for Annotation {
    fn clone(&self) -> (r: Self)
        ensures
            r == *self,
    {
        Annotation { key: self.key.clone(), value: self.value.clone() }
    }
}

/// The keys this library consumes; every other key is foreign.
pub open spec fn is_directive_key(k: Seq<char>) -> bool {
    ||| k == "rename"@
    ||| k == "skip"@
    ||| k == "position"@
    ||| k == "deny_unknown_fields"@
    ||| k == "untagged"@
}

pub open spec fn is_directive(a: Annotation) -> bool {
    is_directive_key(a.key@)
}

/// A directive is well formed when its value has the shape its key asks for:
/// text for `rename`, an integer for `position`, a bare flag for the others.
pub open spec fn well_shaped(a: Annotation) -> bool {
    if a.key@ == "rename"@ {
        a.value is Text
    } else if a.key@ == "position"@ {
        a.value is Int
    } else {
        a.value is Flag
    }
}

pub open spec fn malformed(a: Annotation) -> bool {
    is_directive(a) && !well_shaped(a)
}

/// The foreign annotations of a list, in their order.
pub open spec fn foreign_of(s: Seq<Annotation>) -> Seq<Annotation>
    decreases s.len(),
{
    if s.len() == 0 {
        Seq::empty()
    } else {
        let f = foreign_of(s.drop_last());
        if is_directive(s.last()) {
            f
        } else {
            f.push(s.last())
        }
    }
}

/// The first annotation of a list with key `k`.
pub open spec fn first_with_key(s: Seq<Annotation>, k: Seq<char>) -> Option<Annotation>
    decreases s.len(),
{
    if s.len() == 0 {
        None
    } else {
        match first_with_key(s.drop_last(), k) {
            Some(a) => Some(a),
            None => if s.last().key@ == k {
                Some(s.last())
            } else {
                None
            },
        }
    }
}

/// The rename target of a list: the text of its first `rename`.
pub open spec fn rename_of(s: Seq<Annotation>) -> Option<Seq<char>> {
    match first_with_key(s, "rename"@) {
        Some(a) => match a.value {
            AnnotationValue::Text(t) => Some(t@),
            _ => None,
        },
        None => None,
    }
}

/// The explicit position of a list: the integer of its first `position`.
pub open spec fn position_of(s: Seq<Annotation>) -> Option<u64> {
    match first_with_key(s, "position"@) {
        Some(a) => match a.value {
            AnnotationValue::Int(n) => Some(n),
            _ => None,
        },
        None => None,
    }
}

pub proof fn lemma_first_well_shaped(s: Seq<Annotation>, k: Seq<char>)
    requires
        forall|j: int| 0 <= j < s.len() ==> !malformed(#[trigger] s[j]),
    ensures
        match first_with_key(s, k) {
            Some(b) => b.key@ == k && (is_directive(b) ==> well_shaped(b)),
            None => true,
        },
    decreases s.len(),
{
    if s.len() > 0 {
        let t = s.drop_last();
        assert forall|j: int| 0 <= j < t.len() implies !malformed(#[trigger] t[j]) by {
            assert(t[j] == s[j]);
        }
        lemma_first_well_shaped(t, k);
        assert(!malformed(s[s.len() - 1]));
    }
}

pub open spec fn has_key(s: Seq<Annotation>, k: Seq<char>) -> bool {
    first_with_key(s, k) is Some
}

/// The directives of one annotation list.
#[derive(Debug, PartialEq, Eq)]
pub struct Directives {
    pub rename: Option<String>,
    pub skip: bool,
    pub position: Option<u64>,
    pub deny_unknown_fields: bool,
    pub untagged: bool,
}

/// An annotation list split in two.
#[derive(Debug, PartialEq, Eq)]
pub struct Partition {
    pub directives: Directives,
    pub foreign: Vec<Annotation>,
}

/// What `partition` makes of a list in which no directive is malformed.
pub open spec fn partition_spec(s: Seq<Annotation>, p: Partition) -> bool {
    &&& p.foreign@ == foreign_of(s)
    &&& (match p.directives.rename {
        Some(r) => rename_of(s) == Some(r@),
        None => rename_of(s) is None,
    })
    &&& p.directives.skip == has_key(s, "skip"@)
    &&& p.directives.position == position_of(s)
    &&& p.directives.deny_unknown_fields == has_key(s, "deny_unknown_fields"@)
    &&& p.directives.untagged == has_key(s, "untagged"@)
}

fn key_is(a: &Annotation, lit: &str) -> (r: bool)
    ensures
        r == (a.key@ == lit@),
{
    let l = lit.to_owned();
    a.key == l
}

/// Splits an annotation list into the directives it holds and its foreign
/// annotations, which come back unchanged and in their order. Fails with the
/// index of the first directive whose value has the wrong shape.
pub fn partition(annotations: &Vec<Annotation>) -> (r: Result<Partition, usize>)
    ensures
        match r {
            Ok(p) => partition_spec(annotations@, p) && forall|k: int|
                0 <= k < annotations@.len() ==> !malformed(#[trigger] annotations@[k]),
            Err(k) => k < annotations@.len() && malformed(annotations@[k as int]) && forall|
                j: int,
            |
                0 <= j < k ==> !malformed(#[trigger] annotations@[j]),
        },
{
    let mut rename: Option<String> = None;
    let mut skip = false;
    let mut position: Option<u64> = None;
    let mut deny = false;
    let mut untagged = false;
    let mut foreign: Vec<Annotation> = Vec::new();
    let mut i: usize = 0;
    while i < annotations.len()
        invariant
            i <= annotations@.len(),
            forall|j: int| 0 <= j < i ==> !malformed(#[trigger] annotations@[j]),
            ({
                let s = annotations@.subrange(0, i as int);
                partition_spec(
                    s,
                    Partition {
                        directives: Directives {
                            rename,
                            skip,
                            position,
                            deny_unknown_fields: deny,
                            untagged,
                        },
                        foreign,
                    },
                )
            }),
        decreases annotations@.len() - i,
    {
        let a = &annotations[i];
        let ghost s = annotations@.subrange(0, i as int);
        let ghost s1 = annotations@.subrange(0, i as int + 1);
        assert(s1.drop_last() == s);
        assert(s1.last() == *a);
        let is_rename = key_is(a, "rename");
        let is_skip = key_is(a, "skip");
        let is_position = key_is(a, "position");
        let is_deny = key_is(a, "deny_unknown_fields");
        let is_untagged = key_is(a, "untagged");
        proof {
            reveal_strlit("rename");
            reveal_strlit("skip");
            reveal_strlit("position");
            reveal_strlit("deny_unknown_fields");
            reveal_strlit("untagged");
            lemma_first_well_shaped(s, "rename"@);
            lemma_first_well_shaped(s, "position"@);
            assert("rename"@.len() == 6 && "skip"@.len() == 4 && "position"@.len() == 8);
            assert("deny_unknown_fields"@.len() == 19 && "untagged"@.len() == 8);
            assert("position"@[0] != "untagged"@[0]);
            assert(foreign_of(s1) == if is_directive(*a) {
                foreign_of(s)
            } else {
                foreign_of(s).push(*a)
            });
            assert(first_with_key(s1, "rename"@) == match first_with_key(s, "rename"@) {
                Some(b) => Some(b),
                None => if a.key@ == "rename"@ {
                    Some(*a)
                } else {
                    None
                },
            });
            assert(first_with_key(s1, "position"@) == match first_with_key(s, "position"@) {
                Some(b) => Some(b),
                None => if a.key@ == "position"@ {
                    Some(*a)
                } else {
                    None
                },
            });
            assert(has_key(s1, "skip"@) == (has_key(s, "skip"@) || a.key@ == "skip"@));
            assert(has_key(s1, "deny_unknown_fields"@) == (has_key(s, "deny_unknown_fields"@)
                || a.key@ == "deny_unknown_fields"@));
            assert(has_key(s1, "untagged"@) == (has_key(s, "untagged"@) || a.key@ == "untagged"@));
        }
        if is_rename {
            match &a.value {
                AnnotationValue::Text(t) => {
                    if rename.is_none() {
                        rename = Some(t.clone());
                    }
                },
                _ => {
                    return Err(i);
                },
            }
        } else if is_position {
            match &a.value {
                AnnotationValue::Int(n) => {
                    if position.is_none() {
                        position = Some(*n);
                    }
                },
                _ => {
                    return Err(i);
                },
            }
        } else if is_skip || is_deny || is_untagged {
            match &a.value {
                AnnotationValue::Flag => {
                    if is_skip {
                        skip = true;
                    } else if is_deny {
                        deny = true;
                    } else {
                        untagged = true;
                    }
                },
                _ => {
                    return Err(i);
                },
            }
        } else {
            foreign.push(a.clone());
        }
        assert(foreign@ == foreign_of(s1));
        assert(skip == has_key(s1, "skip"@));
        assert(deny == has_key(s1, "deny_unknown_fields"@));
        assert(untagged == has_key(s1, "untagged"@));
        assert(position == position_of(s1));
        assert(match rename {
            Some(r) => rename_of(s1) == Some(r@),
            None => rename_of(s1) is None,
        });
        i = i + 1;
    }
    assert(annotations@.subrange(0, i as int) == annotations@);
    Ok(
        Partition {
            directives: Directives { rename, skip, position, deny_unknown_fields: deny, untagged },
            foreign,
        },
    )
}

} // verus!
