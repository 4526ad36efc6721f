use imap::conflict::{check_artifacts, Artifact};
use imap::differ::{check_identifiers, compare_identifiers};
use imap::rewrite::apply_changes;
use imap::store::merge_mappings;
use imap::types::{DeclarationKind, DiffError, Edit, Identifier, Mapping};

fn ident(name: &str, scope_id: usize, id: usize) -> Identifier {
    Identifier { name: name.as_bytes().to_vec(), scope_id, id }
}

fn mapping(orig: &str, scope: usize, modified: &str) -> Mapping {
    Mapping {
        original: ident(orig, scope, 0),
        modified: ident(modified, scope, 0),
        declaration_kind: None,
    }
}

fn artifact(name: &str, mappings: Vec<Mapping>) -> Artifact {
    Artifact { name: name.as_bytes().to_vec(), mappings }
}

#[test]
fn conflicting_artifacts_are_fatal_and_report_both_sides() {
    // Artifact X maps (a, scope 3) to x; artifact Y maps it to y.
    let artifacts = vec![
        artifact("X", vec![mapping("a", 3, "x")]),
        artifact("Y", vec![mapping("a", 3, "y")]),
    ];
    let r = check_artifacts(&artifacts);
    match r {
        Err(c) => {
            let names = vec![c.artifact_a.clone(), c.artifact_b.clone()];
            assert!(names.contains(&b"X".to_vec()));
            assert!(names.contains(&b"Y".to_vec()));
            let modified = vec![c.modified_a.clone(), c.modified_b.clone()];
            assert!(modified.contains(&b"x".to_vec()));
            assert!(modified.contains(&b"y".to_vec()));
            assert_eq!(c.original_name, b"a".to_vec());
            assert_eq!(c.original_scope, 3);
        }
        Ok(_) => panic!("expected a conflict"),
    }
}

#[test]
fn three_agreeing_artifacts_warn_once() {
    let artifacts = vec![
        artifact("X", vec![mapping("a", 3, "x")]),
        artifact("Y", vec![mapping("a", 3, "x")]),
        artifact("Z", vec![mapping("a", 3, "x")]),
    ];
    let ws = check_artifacts(&artifacts).unwrap();
    assert_eq!(ws.len(), 1);
    assert_eq!(ws[0].original_name, b"a".to_vec());
    assert_eq!(ws[0].original_scope, 3);
    assert_eq!(ws[0].modified_name, b"x".to_vec());
}

#[test]
fn distinct_keys_do_not_interact() {
    let artifacts = vec![
        artifact("X", vec![mapping("a", 3, "x")]),
        artifact("Y", vec![mapping("a", 4, "y"), mapping("b", 3, "z")]),
    ];
    let ws = check_artifacts(&artifacts).unwrap();
    assert_eq!(ws.len(), 0);
}

#[test]
fn single_artifact_never_conflicts_with_itself() {
    let artifacts = vec![artifact("X", vec![mapping("a", 3, "x"), mapping("a", 3, "y")])];
    let ws = check_artifacts(&artifacts).unwrap();
    assert_eq!(ws.len(), 0);
}

#[test]
fn compare_excludes_unchanged_and_sorts_by_sequence_id() {
    let list1 = vec![ident("keep", 0, 0), ident("z", 1, 1), ident("a", 2, 2)];
    let list2 = vec![ident("keep", 0, 0), ident("y", 1, 1), ident("b", 2, 2)];
    let (only1, only2) = compare_identifiers(&list1, &list2);
    assert_eq!(only1.len(), 2);
    assert_eq!(only1[0].name, b"z".to_vec());
    assert_eq!(only1[1].name, b"a".to_vec());
    assert_eq!(only2.len(), 2);
    assert_eq!(only2[0].name, b"y".to_vec());
    assert_eq!(only2[1].name, b"b".to_vec());
}

#[test]
fn unchanged_means_same_name_and_scope() {
    // Same name in a different scope is not unchanged.
    let list1 = vec![ident("a", 1, 0)];
    let list2 = vec![ident("a", 2, 0)];
    let (only1, only2) = compare_identifiers(&list1, &list2);
    assert_eq!(only1.len(), 1);
    assert_eq!(only2.len(), 1);
}

#[test]
fn check_accepts_aligned_lists() {
    let l = vec![ident("a", 1, 0), ident("b", 2, 1)];
    let r = vec![ident("x", 1, 0), ident("y", 2, 1)];
    assert!(check_identifiers(&l, &r).is_ok());
}

#[test]
fn check_rejects_count_mismatch() {
    let l = vec![ident("a", 1, 0)];
    let r = vec![];
    match check_identifiers(&l, &r) {
        Err(DiffError::CountMismatch { left, right }) => {
            assert_eq!(left, 1);
            assert_eq!(right, 0);
        }
        _ => panic!("expected a count mismatch"),
    }
}

#[test]
fn check_rejects_scope_divergence() {
    let l = vec![ident("a", 1, 0), ident("b", 2, 1)];
    let r = vec![ident("x", 1, 0), ident("y", 3, 1)];
    match check_identifiers(&l, &r) {
        Err(DiffError::ScopeMismatch { index, left, right }) => {
            assert_eq!(index, 1);
            assert_eq!(left.scope_id, 2);
            assert_eq!(right.scope_id, 3);
        }
        _ => panic!("expected a scope mismatch"),
    }
}

#[test]
fn merge_skips_present_keys_and_appends_new_ones() {
    let existing = vec![mapping("a", 1, "x")];
    let candidates = vec![mapping("a", 1, "ignored"), mapping("b", 1, "y")];
    let merged = merge_mappings(existing, &candidates);
    assert_eq!(merged.len(), 2);
    assert_eq!(merged[0].original.name, b"a".to_vec());
    assert_eq!(merged[0].modified.name, b"x".to_vec());
    assert_eq!(merged[1].original.name, b"b".to_vec());
    assert_eq!(merged[1].modified.name, b"y".to_vec());
}

#[test]
fn merge_preserves_declaration_kinds() {
    let mut m = mapping("a", 1, "x");
    m.declaration_kind = Some(DeclarationKind::Variable);
    let merged = merge_mappings(vec![m], &vec![mapping("b", 1, "y")]);
    assert_eq!(merged[0].declaration_kind, Some(DeclarationKind::Variable));
    assert_eq!(merged[1].declaration_kind, None);
}

#[test]
fn apply_interleaves_replacements_with_verbatim_source() {
    let src = b"abcdef".to_vec();
    let changes = vec![
        Edit { start: 1, end: 3, text: b"XY".to_vec() },
        Edit { start: 4, end: 5, text: b"LONGER".to_vec() },
    ];
    let out = apply_changes(&src, &changes).unwrap();
    assert_eq!(out, b"aXYdLONGERf".to_vec());
}

#[test]
fn apply_with_no_edits_is_identity() {
    let src = b"untouched".to_vec();
    let out = apply_changes(&src, &Vec::new()).unwrap();
    assert_eq!(out, src);
}

#[test]
fn apply_rejects_overlapping_edits() {
    let src = b"abcdef".to_vec();
    let changes = vec![
        Edit { start: 1, end: 4, text: b"X".to_vec() },
        Edit { start: 3, end: 5, text: b"Y".to_vec() },
    ];
    assert!(apply_changes(&src, &changes).is_none());
}

#[test]
fn apply_rejects_out_of_bounds_edits() {
    let src = b"abc".to_vec();
    let changes = vec![Edit { start: 2, end: 9, text: b"X".to_vec() }];
    assert!(apply_changes(&src, &changes).is_none());
}

#[test]
fn diff_remainders_partition_the_input() {
    // |onlyA| = |A| - |A intersect B|, and the remainder excludes every
    // unchanged identifier.
    let a = vec![ident("k1", 0, 0), ident("r1", 1, 1), ident("k2", 1, 2), ident("r2", 2, 3)];
    let b = vec![ident("k1", 0, 0), ident("s1", 1, 1), ident("k2", 1, 2), ident("s2", 2, 3)];
    let (only_a, only_b) = compare_identifiers(&a, &b);
    let unchanged = a.len() - only_a.len();
    assert_eq!(unchanged, 2);
    assert_eq!(only_a.len(), a.len() - unchanged);
    for m in &only_a {
        assert!(!b.iter().any(|x| x.name == m.name && x.scope_id == m.scope_id));
    }
    for m in &only_b {
        assert!(!a.iter().any(|x| x.name == m.name && x.scope_id == m.scope_id));
    }
}

#[test]
fn empty_lists_compare_and_check_cleanly() {
    let empty: Vec<Identifier> = Vec::new();
    let (only1, only2) = compare_identifiers(&empty, &empty);
    assert!(only1.is_empty());
    assert!(only2.is_empty());
    assert!(check_identifiers(&empty, &empty).is_ok());
}

#[test]
fn no_artifacts_check_cleanly() {
    let artifacts: Vec<Artifact> = Vec::new();
    let ws = check_artifacts(&artifacts).unwrap();
    assert!(ws.is_empty());
}

#[test]
fn merge_into_empty_takes_all_candidates() {
    let merged = merge_mappings(Vec::new(), &vec![mapping("a", 1, "x"), mapping("b", 2, "y")]);
    assert_eq!(merged.len(), 2);
}
