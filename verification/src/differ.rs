//! The identifier differ: computes and validates the positional pairing of
//! renamed identifiers between two walks of a corresponding file pair.
//!
//! Identifiers present with the same `(name, scope)` key in both lists are
//! unchanged and excluded; the remainders are sorted ascending by sequence
//! id (restoring emission order) and must pair up index by index.

use vstd::prelude::*;

use crate::types::{
    ident_models, same_key, DiffError, IdentModel, Identifier, Mapping,
};

verus! {

/// Whether some identifier in `list` shares the key of `m`.
pub open spec fn key_in(list: Seq<IdentModel>, m: IdentModel) -> bool {
    exists|j: int| 0 <= j < list.len() && same_key(list[j], m)
}

/// The identifiers of `a` that are unchanged: their key also appears in `b`.
pub open spec fn unchanged_in(a: Seq<IdentModel>, b: Seq<IdentModel>) -> Seq<IdentModel> {
    a.filter(|m: IdentModel| key_in(b, m))
}

/// The identifiers of `a` whose key does not appear in `b`, in list order.
pub open spec fn only_in(a: Seq<IdentModel>, b: Seq<IdentModel>) -> Seq<IdentModel> {
    a.filter(|m: IdentModel| !key_in(b, m))
}

/// Stable insertion of `m` into a list sorted ascending by sequence id: `m`
/// lands after every element whose id is not greater.
pub open spec fn insert_by_id(sorted: Seq<IdentModel>, m: IdentModel) -> Seq<IdentModel>
    decreases sorted.len(),
{
    if sorted.len() == 0 {
        seq![m]
    } else if m.id < sorted.last().id {
        insert_by_id(sorted.drop_last(), m).push(sorted.last())
    } else {
        sorted.push(m)
    }
}

/// Stable insertion sort ascending by sequence id.
pub open spec fn sort_by_id(s: Seq<IdentModel>) -> Seq<IdentModel>
    decreases s.len(),
{
    if s.len() == 0 {
        Seq::empty()
    } else {
        insert_by_id(sort_by_id(s.drop_last()), s.last())
    }
}

/// Inserting at the position `p` where everything at or after `p` has a
/// strictly greater id, and the element before `p` (if any) does not, is
/// what [`insert_by_id`] denotes.
proof fn lemma_insert_by_id_at(s: Seq<IdentModel>, m: IdentModel, p: int)
    requires
        0 <= p <= s.len(),
        forall|k: int| p <= k < s.len() ==> m.id < #[trigger] s[k].id,
        p > 0 ==> !(m.id < s[p - 1].id),
    ensures
        insert_by_id(s, m) == s.subrange(0, p) + seq![m] + s.subrange(p, s.len() as int),
    decreases s.len(),
{
    if s.len() == 0 {
        assert(insert_by_id(s, m) =~= s.subrange(0, p) + seq![m] + s.subrange(p, s.len() as int));
    } else if p == s.len() {
        assert(!(m.id < s.last().id));
        assert(insert_by_id(s, m) =~= s.subrange(0, p) + seq![m] + s.subrange(p, s.len() as int));
    } else {
        assert(m.id < s.last().id) by {
            assert(m.id < s[s.len() - 1].id);
        }
        lemma_insert_by_id_at(s.drop_last(), m, p);
        assert(insert_by_id(s.drop_last(), m).push(s.last()) =~= s.subrange(0, p) + seq![m]
            + s.subrange(p, s.len() as int));
    }
}

/// Insert one identifier into a vector at its stable sorted position.
fn insert_identifier(sorted: &mut Vec<Identifier>, m: Identifier)
    ensures
        ident_models(final(sorted)@) == insert_by_id(ident_models(old(sorted)@), m@),
{
    let ghost s = ident_models(sorted@);
    let mut p: usize = sorted.len();
    while p > 0 && sorted[p - 1].id > m.id
        invariant
            0 <= p <= sorted@.len(),
            s == ident_models(sorted@),
            forall|k: int| p <= k < s.len() ==> m@.id < #[trigger] s[k].id,
        decreases p,
    {
        proof {
            assert(s[p - 1] == sorted@[p - 1]@);
        }
        p = p - 1;
    }
    proof {
        if p > 0 {
            assert(s[p - 1] == sorted@[p - 1]@);
        }
        lemma_insert_by_id_at(s, m@, p as int);
    }
    sorted.insert(p, m);
    proof {
        assert(ident_models(sorted@) =~= s.subrange(0, p as int) + seq![m@] + s.subrange(
            p as int,
            s.len() as int,
        ));
    }
}

/// Sort identifiers ascending by sequence id, stably.
fn sort_identifiers(v: &Vec<Identifier>) -> (r: Vec<Identifier>)
    ensures
        ident_models(r@) == sort_by_id(ident_models(v@)),
{
    let ghost s = ident_models(v@);
    let mut r: Vec<Identifier> = Vec::new();
    proof {
        assert(ident_models(r@) =~= sort_by_id(s.subrange(0, 0)));
    }
    let mut i: usize = 0;
    while i < v.len()
        invariant
            0 <= i <= v@.len(),
            s == ident_models(v@),
            ident_models(r@) == sort_by_id(s.subrange(0, i as int)),
        decreases v@.len() - i,
    {
        let m = v[i].duplicate();
        proof {
            assert(s.subrange(0, i + 1).drop_last() =~= s.subrange(0, i as int));
            assert(s.subrange(0, i + 1).last() == s[i as int]);
            assert(s[i as int] == v@[i as int]@);
        }
        insert_identifier(&mut r, m);
        i = i + 1;
    }
    proof {
        assert(s.subrange(0, s.len() as int) =~= s);
    }
    r
}

/// Whether some identifier in `list` shares the key of `m`.
fn key_in_list(list: &Vec<Identifier>, m: &Identifier) -> (r: bool)
    ensures
        r == key_in(ident_models(list@), m@),
{
    let ghost lm = ident_models(list@);
    let mut i: usize = 0;
    while i < list.len()
        invariant
            0 <= i <= list@.len(),
            lm == ident_models(list@),
            forall|k: int| 0 <= k < i ==> !same_key(lm[k], m@),
        decreases list@.len() - i,
    {
        if list[i].keys_match(m) {
            proof {
                assert(lm[i as int] == list@[i as int]@);
                assert(same_key(lm[i as int], m@));
            }
            return true;
        }
        proof {
            assert(lm[i as int] == list@[i as int]@);
        }
        i = i + 1;
    }
    false
}

/// The identifiers of `a` whose key does not appear in `b`, in list order.
fn filter_only(a: &Vec<Identifier>, b: &Vec<Identifier>) -> (r: Vec<Identifier>)
    ensures
        ident_models(r@) == only_in(ident_models(a@), ident_models(b@)),
{
    let ghost am = ident_models(a@);
    let ghost bm = ident_models(b@);
    let ghost pred = |m: IdentModel| !key_in(bm, m);
    let mut r: Vec<Identifier> = Vec::new();
    proof {
        reveal(Seq::filter);
        assert(ident_models(r@) =~= am.subrange(0, 0).filter(pred));
    }
    let mut i: usize = 0;
    while i < a.len()
        invariant
            0 <= i <= a@.len(),
            am == ident_models(a@),
            bm == ident_models(b@),
            pred == (|m: IdentModel| !key_in(bm, m)),
            ident_models(r@) == am.subrange(0, i as int).filter(pred),
        decreases a@.len() - i,
    {
        let ghost pre = ident_models(r@);
        let keep = !key_in_list(b, &a[i]);
        proof {
            reveal(Seq::filter);
            assert(am.subrange(0, i + 1).drop_last() =~= am.subrange(0, i as int));
            assert(am.subrange(0, i + 1).last() == am[i as int]);
            assert(am[i as int] == a@[i as int]@);
        }
        if keep {
            let m = a[i].duplicate();
            r.push(m);
            proof {
                assert(ident_models(r@) =~= pre.push(a@[i as int]@));
            }
        }
        i = i + 1;
    }
    proof {
        assert(am.subrange(0, am.len() as int) =~= am);
    }
    r
}

/// Compute the two remainders of the value-equality comparison on `(name,
/// scope)` keys: identifiers only in the first list and identifiers only in
/// the second, each sorted ascending by sequence id.
pub fn compare_identifiers(identifiers1: &Vec<Identifier>, identifiers2: &Vec<Identifier>) -> (r: (
    Vec<Identifier>,
    Vec<Identifier>,
))
    ensures
        ident_models(r.0@) == sort_by_id(
            only_in(ident_models(identifiers1@), ident_models(identifiers2@)),
        ),
        ident_models(r.1@) == sort_by_id(
            only_in(ident_models(identifiers2@), ident_models(identifiers1@)),
        ),
{
    let only1 = filter_only(identifiers1, identifiers2);
    let only2 = filter_only(identifiers2, identifiers1);
    (sort_identifiers(&only1), sort_identifiers(&only2))
}

/// Validate that the two remainders can be paired index by index: equal
/// length, and lexically corresponding positions (equal scope labels).
pub fn check_identifiers(identifiers1: &Vec<Identifier>, identifiers2: &Vec<Identifier>) -> (r:
    Result<(), DiffError>)
    ensures
        r is Ok <==> {
            &&& identifiers1@.len() == identifiers2@.len()
            &&& forall|i: int|
                0 <= i < identifiers1@.len() ==> #[trigger] identifiers1@[i]@.scope_id
                    == identifiers2@[i]@.scope_id
        },
        identifiers1@.len() != identifiers2@.len() ==> r matches Err(DiffError::CountMismatch { .. }),
        r matches Err(DiffError::CountMismatch { left, right }) ==> left == identifiers1@.len()
            && right == identifiers2@.len() && identifiers1@.len() != identifiers2@.len(),
        r matches Err(DiffError::ScopeMismatch { index, left, right }) ==> {
            &&& identifiers1@.len() == identifiers2@.len()
            &&& 0 <= index < identifiers1@.len()
            &&& left@ == identifiers1@[index as int]@
            &&& right@ == identifiers2@[index as int]@
            &&& left@.scope_id != right@.scope_id
        },
{
    if identifiers1.len() != identifiers2.len() {
        return Err(
            DiffError::CountMismatch { left: identifiers1.len(), right: identifiers2.len() },
        );
    }
    let mut i: usize = 0;
    while i < identifiers1.len()
        invariant
            0 <= i <= identifiers1@.len(),
            identifiers1@.len() == identifiers2@.len(),
            forall|k: int|
                0 <= k < i ==> #[trigger] identifiers1@[k]@.scope_id == identifiers2@[k]@.scope_id,
        decreases identifiers1@.len() - i,
    {
        if identifiers1[i].scope_id != identifiers2[i].scope_id {
            proof {
                assert(identifiers1@[i as int]@.scope_id != identifiers2@[i as int]@.scope_id);
            }
            return Err(
                DiffError::ScopeMismatch {
                    index: i,
                    left: identifiers1[i].duplicate(),
                    right: identifiers2[i].duplicate(),
                },
            );
        }
        i = i + 1;
    }
    Ok(())
}

/// The index-aligned rename candidates two equally long identifier lists
/// give rise to, with no declaration kind recorded.
pub open spec fn pair_models(a: Seq<IdentModel>, b: Seq<IdentModel>) -> Seq<crate::types::MapModel> {
    Seq::new(
        a.len(),
        |i: int| crate::types::MapModel { original: a[i], modified: b[i], declaration_kind: None },
    )
}

/// Pair the two validated remainders index by index into rename candidates:
/// `original[i]` is renamed to `modified[i].name`.
pub fn pair_identifiers(original: &Vec<Identifier>, modified: &Vec<Identifier>) -> (r: Vec<Mapping>)
    requires
        original@.len() == modified@.len(),
    ensures
        crate::types::map_models(r@) == pair_models(ident_models(original@), ident_models(modified@)),
        r@.len() == original@.len(),
        forall|i: int|
            0 <= i < r@.len() ==> #[trigger] r@[i]@.original == original@[i]@ && r@[i]@.modified
                == modified@[i]@ && r@[i]@.declaration_kind is None,
{
    let mut r: Vec<Mapping> = Vec::new();
    let mut i: usize = 0;
    while i < original.len()
        invariant
            0 <= i <= original@.len(),
            original@.len() == modified@.len(),
            r@.len() == i,
            forall|k: int|
                0 <= k < i ==> #[trigger] r@[k]@.original == original@[k]@ && r@[k]@.modified
                    == modified@[k]@ && r@[k]@.declaration_kind is None,
        decreases original@.len() - i,
    {
        let m = Mapping {
            original: original[i].duplicate(),
            modified: modified[i].duplicate(),
            declaration_kind: None,
        };
        r.push(m);
        i = i + 1;
    }
    proof {
        assert forall|k: int| 0 <= k < r@.len() implies crate::types::map_models(r@)[k]
            == pair_models(ident_models(original@), ident_models(modified@))[k] by {
            assert(r@[k]@.original == original@[k]@);
            assert(r@[k]@.modified == modified@[k]@);
            assert(r@[k]@.declaration_kind is None);
        }
        assert(crate::types::map_models(r@) =~= pair_models(
            ident_models(original@),
            ident_models(modified@),
        ));
    }
    r
}

/// Diff completeness: the remainders exclude every unchanged identifier, and
/// together with the unchanged ones they account for the whole input list.
pub proof fn lemma_diff_completeness(a: Seq<IdentModel>, b: Seq<IdentModel>)
    ensures
        forall|m: IdentModel| only_in(a, b).contains(m) ==> !unchanged_in(a, b).contains(m),
        forall|m: IdentModel| #[trigger] only_in(a, b).contains(m) ==> a.contains(m) && !key_in(b, m),
        only_in(a, b).len() == a.len() - unchanged_in(a, b).len(),
{
    let p1 = |m: IdentModel| key_in(b, m);
    lemma_filter_partition(a, p1);
    assert((|m: IdentModel| !p1(m)) =~= (|m: IdentModel| !key_in(b, m)));
    assert forall|m: IdentModel| #[trigger] only_in(a, b).contains(m) implies a.contains(m)
        && !key_in(b, m) by {
        let i = choose|i: int| 0 <= i < only_in(a, b).len() && only_in(a, b)[i] == m;
        a.lemma_filter_pred(|m: IdentModel| !key_in(b, m), i);
        lemma_filter_element_of(a, |m: IdentModel| !key_in(b, m), i);
    }
    assert forall|m: IdentModel| only_in(a, b).contains(m) implies !unchanged_in(a, b).contains(m) by {
        if unchanged_in(a, b).contains(m) {
            let i = choose|i: int|
                0 <= i < unchanged_in(a, b).len() && unchanged_in(a, b)[i] == m;
            a.lemma_filter_pred(|m: IdentModel| key_in(b, m), i);
        }
    }
}

/// Every element a filter keeps is an element of the original list.
proof fn lemma_filter_element_of(s: Seq<IdentModel>, pred: spec_fn(IdentModel) -> bool, i: int)
    requires
        0 <= i < s.filter(pred).len(),
    ensures
        s.contains(s.filter(pred)[i]),
    decreases s.len(),
{
    reveal(Seq::filter);
    if s.len() != 0 {
        if pred(s.last()) && i == s.filter(pred).len() - 1 {
            assert(s.filter(pred)[i] == s.last());
            assert(s[s.len() - 1] == s.last());
        } else {
            lemma_filter_element_of(s.drop_last(), pred, i);
            let j = choose|j: int| 0 <= j < s.drop_last().len() && s.drop_last()[j] == s.filter(pred)[i];
            assert(s[j] == s.filter(pred)[i]);
        }
    }
}

/// A list splits into the part a predicate keeps and the part it drops.
proof fn lemma_filter_partition(s: Seq<IdentModel>, pred: spec_fn(IdentModel) -> bool)
    ensures
        s.filter(pred).len() + s.filter(|m: IdentModel| !pred(m)).len() == s.len(),
    decreases s.len(),
{
    reveal(Seq::filter);
    if s.len() != 0 {
        lemma_filter_partition(s.drop_last(), pred);
    }
}

} // verus!
