use imap::pipeline::{create_mappings, generate_text};
use imap::tree::{Name, Node};
use imap::types::Mapping;
use imap::walker::collect_identifiers;

fn name(text: &str, start: usize, end: usize) -> Name {
    Name { text: text.as_bytes().to_vec(), span_start: start, span_end: end }
}

/// `function foo(bar){ return bar+1; }`
fn original_tree() -> Vec<Node> {
    vec![Node::Function {
        name: Some(name("foo", 9, 12)),
        params: vec![name("bar", 13, 16)],
        body: vec![Node::Other { children: vec![Node::Ref { name: name("bar", 26, 29) }] }],
    }]
}

/// `function unwrap(value){ return value+1; }`
fn modified_tree() -> Vec<Node> {
    vec![Node::Function {
        name: Some(name("unwrap", 9, 15)),
        params: vec![name("value", 16, 21)],
        body: vec![Node::Other { children: vec![Node::Ref { name: name("value", 32, 37) }] }],
    }]
}

#[test]
fn end_to_end_example() {
    let original_src = b"function foo(bar){ return bar+1; }".to_vec();
    let modified_src = b"function unwrap(value){ return value+1; }".to_vec();

    let original_ids = collect_identifiers(&original_tree());
    let modified_ids = collect_identifiers(&modified_tree());

    let mappings = create_mappings(&original_ids, &modified_ids, Vec::new()).unwrap();
    assert_eq!(mappings.len(), 2);
    assert_eq!(mappings[0].original.name, b"foo".to_vec());
    assert_eq!(mappings[0].original.scope_id, 0);
    assert_eq!(mappings[0].modified.name, b"unwrap".to_vec());
    assert_eq!(mappings[1].original.name, b"bar".to_vec());
    assert_eq!(mappings[1].original.scope_id, 1);
    assert_eq!(mappings[1].modified.name, b"value".to_vec());

    let out = generate_text(&original_tree(), &original_src, mappings).unwrap();
    assert_eq!(out, modified_src);
}

#[test]
fn round_trip_reproduces_modified_text() {
    // A richer pair: a class with a method, an object literal and a block.
    // original: `class C{ m(x){ { var y; this.f; } } }` (spans made up but ascending)
    let original = vec![Node::Class {
        name: Some(name("C", 6, 7)),
        body: vec![Node::Method {
            name: name("m", 9, 10),
            is_private: false,
            params: vec![name("x", 11, 12)],
            body: vec![Node::Block {
                body: vec![
                    Node::VarDecl { name: name("y", 21, 22), init: vec![] },
                    Node::ThisMember { name: name("f", 29, 30) },
                ],
            }],
        }],
    }];
    let modified = vec![Node::Class {
        name: Some(name("Car", 6, 9)),
        body: vec![Node::Method {
            name: name("move", 11, 15),
            is_private: false,
            params: vec![name("dx", 16, 18)],
            body: vec![Node::Block {
                body: vec![
                    Node::VarDecl { name: name("pos", 26, 29), init: vec![] },
                    Node::ThisMember { name: name("fuel", 37, 41) },
                ],
            }],
        }],
    }];
    let original_src = b"class C{ m(x){ { var y; this.f; } } }".to_vec();
    let modified_src = b"class Car{ move(dx){ { var pos; this.fuel; } } }".to_vec();

    let original_ids = collect_identifiers(&original);
    let modified_ids = collect_identifiers(&modified);
    let mappings = create_mappings(&original_ids, &modified_ids, Vec::new()).unwrap();
    let out = generate_text(&original, &original_src, mappings).unwrap();
    assert_eq!(out, modified_src);
}

#[test]
fn create_twice_appends_nothing() {
    let original_ids = collect_identifiers(&original_tree());
    let modified_ids = collect_identifiers(&modified_tree());

    let first = create_mappings(&original_ids, &modified_ids, Vec::new()).unwrap();
    let first_len = first.len();
    assert_eq!(first_len, 2);

    let second = create_mappings(&original_ids, &modified_ids, first).unwrap();
    assert_eq!(second.len(), first_len);
}

#[test]
fn scope_precedence_inner_wins() {
    // Nested scopes 1 (outer block) and 2 (inner block) both declare `a`; a
    // reference inside scope 2 rewrites by the inner mapping, a reference in
    // scope 1 outside scope 2 by the outer one.
    // source: `{ var a; { var a; a; } a; }`
    let tree = vec![Node::Block {
        body: vec![
            Node::VarDecl { name: name("a", 6, 7), init: vec![] },
            Node::Block {
                body: vec![
                    Node::VarDecl { name: name("a", 15, 16), init: vec![] },
                    Node::Ref { name: name("a", 18, 19) },
                ],
            },
            Node::Ref { name: name("a", 23, 24) },
        ],
    }];
    let src = b"{ var a; { var a; a; } a; }".to_vec();

    let ident = |scope_id: usize, id: usize| imap::types::Identifier {
        name: b"a".to_vec(),
        scope_id,
        id,
    };
    let renamed = |n: &str, scope_id: usize, id: usize| imap::types::Identifier {
        name: n.as_bytes().to_vec(),
        scope_id,
        id,
    };
    let mappings = vec![
        Mapping { original: ident(1, 0), modified: renamed("p", 1, 0), declaration_kind: None },
        Mapping { original: ident(2, 1), modified: renamed("q", 2, 1), declaration_kind: None },
    ];

    let out = generate_text(&tree, &src, mappings).unwrap();
    assert_eq!(out, b"{ var p; { var q; q; } p; }".to_vec());
}

#[test]
fn generate_with_no_mappings_is_identity() {
    let src = b"function foo(bar){ return bar+1; }".to_vec();
    let out = generate_text(&original_tree(), &src, Vec::new()).unwrap();
    assert_eq!(out, src);
}

#[test]
fn private_names_keep_their_sigil() {
    // `class A{ #k(){ this.#k; } }` - the bare name is looked up, the sigil
    // re-prefixed.  Method key `#k` spans include the sigil.
    let tree = vec![Node::Class {
        name: Some(name("A", 6, 7)),
        body: vec![Node::Method {
            name: name("k", 9, 11),
            is_private: true,
            params: vec![],
            body: vec![Node::Other {
                children: vec![Node::PrivateRef { name: name("k", 20, 22) }],
            }],
        }],
    }];
    let src = b"class A{ #k(){ this.#k; } }".to_vec();
    let ident = |n: &str, scope_id: usize, id: usize| imap::types::Identifier {
        name: n.as_bytes().to_vec(),
        scope_id,
        id,
    };
    // `k` was collected in the class-body scope (scope 1).
    let mappings = vec![Mapping {
        original: ident("k", 1, 1),
        modified: ident("key", 1, 1),
        declaration_kind: None,
    }];
    let out = generate_text(&tree, &src, mappings).unwrap();
    assert_eq!(out, b"class A{ #key(){ this.#key; } }".to_vec());
}

#[test]
fn count_mismatch_is_reported() {
    let original_ids = collect_identifiers(&original_tree());
    // modified tree with an extra declaration: one more renamed identifier
    let modified = vec![Node::Function {
        name: Some(name("unwrap", 9, 15)),
        params: vec![name("value", 16, 21), name("extra", 23, 28)],
        body: vec![],
    }];
    let modified_ids = collect_identifiers(&modified);
    let r = create_mappings(&original_ids, &modified_ids, Vec::new());
    match r {
        Err(imap::types::DiffError::CountMismatch { left, right }) => {
            assert_eq!(left, 2);
            assert_eq!(right, 3);
        }
        _ => panic!("expected a count mismatch"),
    }
}

#[test]
fn scope_mismatch_is_reported() {
    // Same number of renamed identifiers, but one sits in a different scope.
    let original = vec![
        Node::VarDecl { name: name("a", 4, 5), init: vec![] },
        Node::Block { body: vec![Node::VarDecl { name: name("b", 12, 13), init: vec![] }] },
    ];
    let modified = vec![
        Node::VarDecl { name: name("x", 4, 5), init: vec![] },
        Node::Block { body: vec![] },
        Node::VarDecl { name: name("y", 16, 17), init: vec![] },
    ];
    let original_ids = collect_identifiers(&original);
    let modified_ids = collect_identifiers(&modified);
    let r = create_mappings(&original_ids, &modified_ids, Vec::new());
    match r {
        Err(imap::types::DiffError::ScopeMismatch { index, left, right }) => {
            assert_eq!(index, 1);
            assert_eq!(left.name, b"b".to_vec());
            assert_eq!(left.scope_id, 1);
            assert_eq!(right.name, b"y".to_vec());
            assert_eq!(right.scope_id, 0);
        }
        _ => panic!("expected a scope mismatch"),
    }
}

#[test]
fn identical_files_yield_no_mappings() {
    let ids = collect_identifiers(&original_tree());
    let mappings = create_mappings(&ids, &ids, Vec::new()).unwrap();
    assert_eq!(mappings.len(), 0);
}

#[test]
fn empty_tree_walks_to_nothing() {
    let ids = collect_identifiers(&Vec::new());
    assert!(ids.is_empty());
    let out = generate_text(&Vec::new(), &b"plain text".to_vec(), Vec::new()).unwrap();
    assert_eq!(out, b"plain text".to_vec());
}
