//! The conflict checker: validates that independently produced mapping
//! artifacts for one logical source file agree with each other.
//!
//! Two mappings from two distinct artifacts that share an original `(name,
//! scope)` key conflict when their modified names differ: fatal, both
//! artifact identities and both names are reported.  When they agree the
//! duplicate is benign and at most one warning per distinct key is emitted.

use vstd::prelude::*;

use crate::types::{copy_bytes, map_models, same_key, ArtifactModel, MapModel, Mapping};

verus! {

/// One persisted mapping artifact: the identity it is reported under (its
/// file path, as bytes) and its mappings.
#[derive(Debug)]
pub struct Artifact {
    pub name: Vec<u8>,
    pub mappings: Vec<Mapping>,
}

impl View for Artifact {
    type V = ArtifactModel;

    open spec fn view(&self) -> ArtifactModel {
        ArtifactModel { name: self.name@, maps: map_models(self.mappings@) }
    }
}

/// Models of a sequence of artifacts.
pub open spec fn artifact_models(s: Seq<Artifact>) -> Seq<ArtifactModel> {
    s.map_values(|x: Artifact| x@)
}

/// A fatal disagreement: two artifacts assign different modified names to
/// the same original key.
#[derive(Debug)]
pub struct Conflict {
    pub artifact_a: Vec<u8>,
    pub artifact_b: Vec<u8>,
    pub original_name: Vec<u8>,
    pub original_scope: usize,
    pub modified_a: Vec<u8>,
    pub modified_b: Vec<u8>,
}

/// A benign duplicate: two artifacts repeat the same rename for one key.
#[derive(Debug)]
pub struct DuplicateWarning {
    pub artifact_a: Vec<u8>,
    pub artifact_b: Vec<u8>,
    pub original_name: Vec<u8>,
    pub original_scope: usize,
    pub modified_name: Vec<u8>,
}

/// Mapping `j2` of artifact `i2` clashes with `m` of artifact `i1`: same
/// original key, different artifact, different modified name.
pub open spec fn conflicts_with(
    arts: Seq<ArtifactModel>,
    m: MapModel,
    i1: int,
    i2: int,
    j2: int,
) -> bool {
    &&& 0 <= i2 < arts.len()
    &&& 0 <= j2 < arts[i2].maps.len()
    &&& i2 != i1
    &&& same_key(arts[i2].maps[j2].original, m.original)
    &&& arts[i2].maps[j2].modified.name != m.modified.name
}

/// Mapping `j2` of artifact `i2` repeats `m` of artifact `i1`: same
/// original key, different artifact, same modified name.
pub open spec fn agrees_with(
    arts: Seq<ArtifactModel>,
    m: MapModel,
    i1: int,
    i2: int,
    j2: int,
) -> bool {
    &&& 0 <= i2 < arts.len()
    &&& 0 <= j2 < arts[i2].maps.len()
    &&& i2 != i1
    &&& same_key(arts[i2].maps[j2].original, m.original)
    &&& arts[i2].maps[j2].modified.name == m.modified.name
}

/// Mappings `(i1, j1)` and `(i2, j2)` form a conflicting pair.
pub open spec fn conflicting(arts: Seq<ArtifactModel>, i1: int, j1: int, i2: int, j2: int) -> bool {
    &&& 0 <= i1 < arts.len()
    &&& 0 <= j1 < arts[i1].maps.len()
    &&& conflicts_with(arts, arts[i1].maps[j1], i1, i2, j2)
}

/// Mappings `(i1, j1)` and `(i2, j2)` form a benign duplicate pair.
pub open spec fn duplicated(arts: Seq<ArtifactModel>, i1: int, j1: int, i2: int, j2: int) -> bool {
    &&& 0 <= i1 < arts.len()
    &&& 0 <= j1 < arts[i1].maps.len()
    &&& agrees_with(arts, arts[i1].maps[j1], i1, i2, j2)
}

/// Some pair of mappings from two distinct artifacts conflicts.
pub open spec fn has_conflict(arts: Seq<ArtifactModel>) -> bool {
    exists|i1: int, j1: int, i2: int, j2: int| conflicting(arts, i1, j1, i2, j2)
}

/// A warning for this key was already emitted.
pub open spec fn key_warned(ws: Seq<DuplicateWarning>, name: Seq<u8>, scope: nat) -> bool {
    exists|k: int|
        0 <= k < ws.len() && ws[k].original_name@ == name && ws[k].original_scope as nat == scope
}

/// Find a mapping in another artifact that clashes with `m` of artifact `i1`.
fn find_conflicting(artifacts: &Vec<Artifact>, i1: usize, m: &Mapping) -> (r: Option<(usize, usize)>)
    ensures
        match r {
            Some(p) => conflicts_with(artifact_models(artifacts@), m@, i1 as int, p.0 as int, p.1 as int),
            None => forall|i2: int, j2: int|
                !conflicts_with(artifact_models(artifacts@), m@, i1 as int, i2, j2),
        },
{
    let ghost am = artifact_models(artifacts@);
    let mut i2: usize = 0;
    while i2 < artifacts.len()
        invariant
            0 <= i2 <= artifacts@.len(),
            am == artifact_models(artifacts@),
            forall|a: int, b: int| a < i2 ==> !conflicts_with(am, m@, i1 as int, a, b),
        decreases artifacts@.len() - i2,
    {
        if i2 != i1 {
            let mut j2: usize = 0;
            while j2 < artifacts[i2].mappings.len()
                invariant
                    0 <= i2 < artifacts@.len(),
                    0 <= j2 <= artifacts@[i2 as int].mappings@.len(),
                    i2 != i1,
                    am == artifact_models(artifacts@),
                    forall|b: int| b < j2 ==> !conflicts_with(am, m@, i1 as int, i2 as int, b),
                decreases artifacts@[i2 as int].mappings@.len() - j2,
            {
                let other = &artifacts[i2].mappings[j2];
                proof {
                    assert(am[i2 as int] == artifacts@[i2 as int]@);
                    assert(am[i2 as int].maps[j2 as int] == artifacts@[i2 as int].mappings@[j2 as int]@);
                }
                if other.original.keys_match(&m.original) && !crate::types::bytes_eq(
                    &other.modified.name,
                    &m.modified.name,
                ) {
                    return Some((i2, j2));
                }
                j2 = j2 + 1;
            }
        }
        i2 = i2 + 1;
    }
    None
}

/// Find a mapping in another artifact that repeats `m` of artifact `i1`.
fn find_agreeing(artifacts: &Vec<Artifact>, i1: usize, m: &Mapping) -> (r: Option<(usize, usize)>)
    ensures
        match r {
            Some(p) => agrees_with(artifact_models(artifacts@), m@, i1 as int, p.0 as int, p.1 as int),
            None => forall|i2: int, j2: int|
                !agrees_with(artifact_models(artifacts@), m@, i1 as int, i2, j2),
        },
{
    let ghost am = artifact_models(artifacts@);
    let mut i2: usize = 0;
    while i2 < artifacts.len()
        invariant
            0 <= i2 <= artifacts@.len(),
            am == artifact_models(artifacts@),
            forall|a: int, b: int| a < i2 ==> !agrees_with(am, m@, i1 as int, a, b),
        decreases artifacts@.len() - i2,
    {
        if i2 != i1 {
            let mut j2: usize = 0;
            while j2 < artifacts[i2].mappings.len()
                invariant
                    0 <= i2 < artifacts@.len(),
                    0 <= j2 <= artifacts@[i2 as int].mappings@.len(),
                    i2 != i1,
                    am == artifact_models(artifacts@),
                    forall|b: int| b < j2 ==> !agrees_with(am, m@, i1 as int, i2 as int, b),
                decreases artifacts@[i2 as int].mappings@.len() - j2,
            {
                let other = &artifacts[i2].mappings[j2];
                proof {
                    assert(am[i2 as int] == artifacts@[i2 as int]@);
                    assert(am[i2 as int].maps[j2 as int] == artifacts@[i2 as int].mappings@[j2 as int]@);
                }
                if other.original.keys_match(&m.original) && crate::types::bytes_eq(
                    &other.modified.name,
                    &m.modified.name,
                ) {
                    return Some((i2, j2));
                }
                j2 = j2 + 1;
            }
        }
        i2 = i2 + 1;
    }
    None
}

/// Whether a warning for this key was already emitted.
fn warned(ws: &Vec<DuplicateWarning>, name: &Vec<u8>, scope: usize) -> (r: bool)
    ensures
        r == key_warned(ws@, name@, scope as nat),
{
    let mut k: usize = 0;
    while k < ws.len()
        invariant
            0 <= k <= ws@.len(),
            forall|a: int|
                0 <= a < k ==> !(ws@[a].original_name@ == name@ && ws@[a].original_scope as nat
                    == scope as nat),
        decreases ws@.len() - k,
    {
        if ws[k].original_scope == scope && crate::types::bytes_eq(&ws[k].original_name, name) {
            return true;
        }
        k = k + 1;
    }
    false
}


/// Some benign duplicate pair exists for this key.
pub open spec fn dup_key(arts: Seq<ArtifactModel>, name: Seq<u8>, scope: nat) -> bool {
    exists|i1: int, j1: int, i2: int, j2: int|
        #[trigger] duplicated(arts, i1, j1, i2, j2) && arts[i1].maps[j1].original.name == name
            && arts[i1].maps[j1].original.scope_id == scope
}

/// No two warnings repeat a key.
pub open spec fn warnings_distinct(ws: Seq<DuplicateWarning>) -> bool {
    forall|a: int, b: int|
        0 <= a < b < ws.len() ==> !(ws[a].original_name@ == ws[b].original_name@
            && ws[a].original_scope == ws[b].original_scope)
}

/// Every warning names a key for which a benign duplicate pair exists.
pub open spec fn warnings_sound(arts: Seq<ArtifactModel>, ws: Seq<DuplicateWarning>) -> bool {
    forall|k: int|
        0 <= k < ws.len() ==> dup_key(
            arts,
            #[trigger] ws[k].original_name@,
            ws[k].original_scope as nat,
        )
}

/// Every benign duplicate pair whose first coordinate precedes `(i1, j1)` in
/// scan order already has its key warned.
pub open spec fn dups_warned_before(
    arts: Seq<ArtifactModel>,
    ws: Seq<DuplicateWarning>,
    i1: int,
    j1: int,
) -> bool {
    forall|a: int, b: int, c: int, d: int|
        #[trigger] duplicated(arts, a, b, c, d) && (a < i1 || (a == i1 && b < j1)) ==> key_warned(
            ws,
            arts[a].maps[b].original.name,
            arts[a].maps[b].original.scope_id,
        )
}

/// No conflicting pair starts before `(i1, j1)` in scan order.
pub open spec fn no_conflict_before(arts: Seq<ArtifactModel>, i1: int, j1: int) -> bool {
    forall|a: int, b: int, c: int, d: int|
        #[trigger] conflicting(arts, a, b, c, d) ==> a > i1 || (a == i1 && b >= j1)
}

/// An already-warned key stays warned when a warning is appended.
proof fn lemma_key_warned_push(ws: Seq<DuplicateWarning>, w: DuplicateWarning, name: Seq<u8>, scope: nat)
    requires
        key_warned(ws, name, scope),
    ensures
        key_warned(ws.push(w), name, scope),
{
    let k = choose|k: int|
        0 <= k < ws.len() && ws[k].original_name@ == name && ws[k].original_scope as nat == scope;
    assert(ws.push(w)[k] == ws[k]);
}

/// Appending a warning for a fresh key keeps the warning list sound,
/// distinct, and at least as complete.
proof fn lemma_warnings_push(
    arts: Seq<ArtifactModel>,
    ws: Seq<DuplicateWarning>,
    w: DuplicateWarning,
    i1: int,
    j1: int,
)
    requires
        warnings_distinct(ws),
        warnings_sound(arts, ws),
        dups_warned_before(arts, ws, i1, j1),
        !key_warned(ws, w.original_name@, w.original_scope as nat),
        dup_key(arts, w.original_name@, w.original_scope as nat),
    ensures
        warnings_distinct(ws.push(w)),
        warnings_sound(arts, ws.push(w)),
        dups_warned_before(arts, ws.push(w), i1, j1),
        key_warned(ws.push(w), w.original_name@, w.original_scope as nat),
{
    let ws2 = ws.push(w);
    assert forall|a: int, b: int| 0 <= a < b < ws2.len() implies !(ws2[a].original_name@
        == ws2[b].original_name@ && ws2[a].original_scope == ws2[b].original_scope) by {
        if b == ws2.len() - 1 {
            assert(ws2[b] == w);
            assert(ws2[a] == ws[a]);
            if ws2[a].original_name@ == w.original_name@ && ws2[a].original_scope
                == w.original_scope {
                assert(key_warned(ws, w.original_name@, w.original_scope as nat));
            }
        } else {
            assert(ws2[a] == ws[a] && ws2[b] == ws[b]);
        }
    }
    assert forall|k: int| 0 <= k < ws2.len() implies dup_key(
        arts,
        #[trigger] ws2[k].original_name@,
        ws2[k].original_scope as nat,
    ) by {
        if k < ws.len() {
            assert(ws2[k] == ws[k]);
        } else {
            assert(ws2[k] == w);
        }
    }
    assert forall|a: int, b: int, c: int, d: int|
        #[trigger] duplicated(arts, a, b, c, d) && (a < i1 || (a == i1 && b < j1))
        implies key_warned(ws2, arts[a].maps[b].original.name, arts[a].maps[b].original.scope_id) by {
        lemma_key_warned_push(ws, w, arts[a].maps[b].original.name, arts[a].maps[b].original.scope_id);
    }
    assert(ws2[ws2.len() - 1] == w);
}

/// Check the artifacts that apply to one logical source file against each
/// other.  Fails with a [`Conflict`] exactly when two mappings from two
/// distinct artifacts give the same original key different modified names;
/// otherwise returns one [`DuplicateWarning`] per distinct key that two or
/// more artifacts repeat.
pub fn check_artifacts(artifacts: &Vec<Artifact>) -> (r: Result<Vec<DuplicateWarning>, Conflict>)
    ensures
        r is Err <==> has_conflict(artifact_models(artifacts@)),
        r matches Err(c) ==> exists|i1: int, j1: int, i2: int, j2: int|
            {
                &&& #[trigger] conflicting(artifact_models(artifacts@), i1, j1, i2, j2)
                &&& c.artifact_a@ == artifact_models(artifacts@)[i1].name
                &&& c.artifact_b@ == artifact_models(artifacts@)[i2].name
                &&& c.original_name@ == artifact_models(artifacts@)[i1].maps[j1].original.name
                &&& c.original_scope as nat == artifact_models(
                    artifacts@,
                )[i1].maps[j1].original.scope_id
                &&& c.modified_a@ == artifact_models(artifacts@)[i1].maps[j1].modified.name
                &&& c.modified_b@ == artifact_models(artifacts@)[i2].maps[j2].modified.name
            },
        r matches Ok(ws) ==> {
            &&& warnings_distinct(ws@)
            &&& warnings_sound(artifact_models(artifacts@), ws@)
            &&& forall|i1: int, j1: int, i2: int, j2: int|
                #[trigger] duplicated(artifact_models(artifacts@), i1, j1, i2, j2) ==> key_warned(
                    ws@,
                    artifact_models(artifacts@)[i1].maps[j1].original.name,
                    artifact_models(artifacts@)[i1].maps[j1].original.scope_id,
                )
        },
{
    let ghost am = artifact_models(artifacts@);
    let mut warnings: Vec<DuplicateWarning> = Vec::new();
    let mut i1: usize = 0;
    while i1 < artifacts.len()
        invariant
            0 <= i1 <= artifacts@.len(),
            am == artifact_models(artifacts@),
            no_conflict_before(am, i1 as int, 0),
            warnings_distinct(warnings@),
            warnings_sound(am, warnings@),
            dups_warned_before(am, warnings@, i1 as int, 0),
        decreases artifacts@.len() - i1,
    {
        let mut j1: usize = 0;
        while j1 < artifacts[i1].mappings.len()
            invariant
                0 <= i1 < artifacts@.len(),
                0 <= j1 <= artifacts@[i1 as int].mappings@.len(),
                am == artifact_models(artifacts@),
                no_conflict_before(am, i1 as int, j1 as int),
                warnings_distinct(warnings@),
                warnings_sound(am, warnings@),
                dups_warned_before(am, warnings@, i1 as int, j1 as int),
            decreases artifacts@[i1 as int].mappings@.len() - j1,
        {
            let m = &artifacts[i1].mappings[j1];
            proof {
                assert(am[i1 as int] == artifacts@[i1 as int]@);
                assert(am[i1 as int].maps[j1 as int] == artifacts@[i1 as int].mappings@[j1 as int]@);
            }
            let found_conflict = find_conflicting(artifacts, i1, m);
            if let Some((i2, j2)) = found_conflict {
                proof {
                    assert(conflicting(am, i1 as int, j1 as int, i2 as int, j2 as int));
                    assert(am[i2 as int] == artifacts@[i2 as int]@);
                    assert(am[i2 as int].maps[j2 as int] == artifacts@[i2 as int].mappings@[j2 as int]@);
                }
                let conflict = Conflict {
                    artifact_a: copy_bytes(&artifacts[i1].name),
                    artifact_b: copy_bytes(&artifacts[i2].name),
                    original_name: copy_bytes(&m.original.name),
                    original_scope: m.original.scope_id,
                    modified_a: copy_bytes(&m.modified.name),
                    modified_b: copy_bytes(&artifacts[i2].mappings[j2].modified.name),
                };
                return Err(conflict);
            }
            let found_dup = find_agreeing(artifacts, i1, m);
            if let Some((i2, j2)) = found_dup {
                proof {
                    assert(duplicated(am, i1 as int, j1 as int, i2 as int, j2 as int));
                    assert(am[i2 as int] == artifacts@[i2 as int]@);
                }
                if !warned(&warnings, &m.original.name, m.original.scope_id) {
                    let ghost w0 = warnings@;
                    let warning = DuplicateWarning {
                        artifact_a: copy_bytes(&artifacts[i1].name),
                        artifact_b: copy_bytes(&artifacts[i2].name),
                        original_name: copy_bytes(&m.original.name),
                        original_scope: m.original.scope_id,
                        modified_name: copy_bytes(&m.modified.name),
                    };
                    proof {
                        assert(dup_key(am, warning.original_name@, warning.original_scope as nat));
                        lemma_warnings_push(am, w0, warning, i1 as int, j1 as int);
                    }
                    warnings.push(warning);
                }
                proof {
                    assert(key_warned(
                        warnings@,
                        am[i1 as int].maps[j1 as int].original.name,
                        am[i1 as int].maps[j1 as int].original.scope_id,
                    ));
                    assert forall|a: int, b: int, c: int, d: int|
                        #[trigger] duplicated(am, a, b, c, d) && (a < i1 as int || (a == i1 as int
                            && b < j1 + 1)) implies key_warned(
                        warnings@,
                        am[a].maps[b].original.name,
                        am[a].maps[b].original.scope_id,
                    ) by {}
                }
            } else {
                proof {
                    assert forall|a: int, b: int, c: int, d: int|
                        #[trigger] duplicated(am, a, b, c, d) && (a < i1 as int || (a == i1 as int
                            && b < j1 + 1)) implies key_warned(
                        warnings@,
                        am[a].maps[b].original.name,
                        am[a].maps[b].original.scope_id,
                    ) by {
                        if a == i1 as int && b == j1 as int {
                            assert(agrees_with(am, am[a].maps[b], a, c, d));
                            assert(false);
                        }
                    }
                }
            }
            proof {
                assert forall|a: int, b: int, c: int, d: int|
                    #[trigger] conflicting(am, a, b, c, d) implies a > i1 as int || (a == i1 as int
                    && b >= j1 + 1) by {
                    if a == i1 as int && b == j1 as int {
                        assert(conflicts_with(am, am[a].maps[b], a, c, d));
                        assert(false);
                    }
                }
            }
            j1 = j1 + 1;
        }
        proof {
            assert forall|a: int, b: int, c: int, d: int|
                #[trigger] conflicting(am, a, b, c, d) implies a > i1 + 1 || (a == i1 + 1 && b >= 0) by {
                if a == i1 as int {
                    assert(0 <= b < am[a].maps.len());
                }
            }
            assert forall|a: int, b: int, c: int, d: int|
                #[trigger] duplicated(am, a, b, c, d) && (a < i1 + 1 || (a == i1 + 1 && b < 0))
                implies key_warned(
                warnings@,
                am[a].maps[b].original.name,
                am[a].maps[b].original.scope_id,
            ) by {
                if a == i1 as int {
                    assert(0 <= b < am[a].maps.len());
                }
            }
        }
        i1 = i1 + 1;
    }
    proof {
        if has_conflict(am) {
            let (a, b, c, d) = choose|a: int, b: int, c: int, d: int| conflicting(am, a, b, c, d);
            assert(a < artifacts@.len());
            assert(false);
        }
        assert forall|i1: int, j1: int, i2: int, j2: int|
            #[trigger] duplicated(am, i1, j1, i2, j2) implies key_warned(
            warnings@,
            am[i1].maps[j1].original.name,
            am[i1].maps[j1].original.scope_id,
        ) by {
            assert(i1 < artifacts@.len());
        }
    }
    Ok(warnings)
}

} // verus!
