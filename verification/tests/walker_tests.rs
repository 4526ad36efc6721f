use imap::tree::{count_scopes, Name, Node};
use imap::walker::{collect_identifiers, IdentifierCollector};

fn name(text: &str, start: usize, end: usize) -> Name {
    Name { text: text.as_bytes().to_vec(), span_start: start, span_end: end }
}

#[test]
fn function_own_name_emitted_once_in_enclosing_scope() {
    // A named function must contribute its own name exactly once, attributed
    // to the enclosing scope, never spuriously again inside its fresh scope.
    let tree = vec![Node::Function {
        name: Some(name("foo", 9, 12)),
        params: vec![name("bar", 13, 16)],
        body: vec![],
    }];
    let ids = collect_identifiers(&tree);
    assert_eq!(ids.len(), 2);
    assert_eq!(ids[0].name, b"foo".to_vec());
    assert_eq!(ids[0].scope_id, 0);
    assert_eq!(ids[0].id, 0);
    assert_eq!(ids[1].name, b"bar".to_vec());
    assert_eq!(ids[1].scope_id, 1);
    assert_eq!(ids[1].id, 1);
    let foo_count = ids.iter().filter(|i| i.name == b"foo".to_vec()).count();
    assert_eq!(foo_count, 1);
}

#[test]
fn object_literal_opens_synthetic_scope() {
    // `var o = { a: 1 };` - the property key gets its own nestable scope.
    let tree = vec![Node::VarDecl {
        name: name("o", 4, 5),
        init: vec![Node::ObjectLiteral {
            properties: vec![Node::Property { key: name("a", 10, 11), is_private: false, value: vec![] }],
        }],
    }];
    let ids = collect_identifiers(&tree);
    assert_eq!(ids.len(), 2);
    assert_eq!(ids[0].name, b"o".to_vec());
    assert_eq!(ids[0].scope_id, 0);
    assert_eq!(ids[1].name, b"a".to_vec());
    assert_eq!(ids[1].scope_id, 1);
}

#[test]
fn this_member_attributed_to_class_body_scope() {
    // Inside a method body, `this.f` belongs to the nearest enclosing
    // class-body scope, not to the method's own scope.
    let tree = vec![Node::Class {
        name: Some(name("C", 6, 7)),
        body: vec![Node::Method {
            name: name("m", 9, 10),
            is_private: false,
            params: vec![],
            body: vec![Node::ThisMember { name: name("f", 20, 21) }],
        }],
    }];
    let ids = collect_identifiers(&tree);
    assert_eq!(ids.len(), 3);
    assert_eq!(ids[0].name, b"C".to_vec());
    assert_eq!(ids[0].scope_id, 0);
    assert_eq!(ids[1].name, b"m".to_vec());
    assert_eq!(ids[1].scope_id, 1);
    assert_eq!(ids[2].name, b"f".to_vec());
    assert_eq!(ids[2].scope_id, 1);
}

#[test]
fn this_member_outside_class_uses_current_scope() {
    let tree = vec![Node::Function {
        name: None,
        params: vec![],
        body: vec![Node::ThisMember { name: name("f", 10, 11) }],
    }];
    let ids = collect_identifiers(&tree);
    assert_eq!(ids.len(), 1);
    assert_eq!(ids[0].name, b"f".to_vec());
    assert_eq!(ids[0].scope_id, 1);
}

#[test]
fn duplicate_key_is_dropped() {
    // Two `this.f` accesses in one class body yield one record.
    let tree = vec![Node::Class {
        name: None,
        body: vec![
            Node::ThisMember { name: name("f", 10, 11) },
            Node::ThisMember { name: name("f", 20, 21) },
        ],
    }];
    let ids = collect_identifiers(&tree);
    assert_eq!(ids.len(), 1);
    assert_eq!(ids[0].name, b"f".to_vec());
    assert_eq!(ids[0].scope_id, 1);
}

#[test]
fn sequence_ids_follow_emission_order() {
    let tree = vec![
        Node::VarDecl { name: name("a", 4, 5), init: vec![] },
        Node::VarDecl { name: name("b", 11, 12), init: vec![] },
        Node::Arrow {
            params: vec![name("x", 14, 15)],
            body: vec![Node::VarDecl { name: name("c", 20, 21), init: vec![] }],
        },
    ];
    let ids = collect_identifiers(&tree);
    let names: Vec<&[u8]> = ids.iter().map(|i| i.name.as_slice()).collect();
    assert_eq!(names, vec![b"a".as_slice(), b"b".as_slice(), b"x".as_slice(), b"c".as_slice()]);
    for (k, id) in ids.iter().enumerate() {
        assert_eq!(id.id, k);
    }
    assert_eq!(ids[2].scope_id, 1);
    assert_eq!(ids[3].scope_id, 1);
}

#[test]
fn sibling_scopes_get_distinct_labels() {
    // Two sibling blocks must not share a label: the counter never rewinds.
    let tree = vec![
        Node::Block { body: vec![Node::VarDecl { name: name("a", 6, 7), init: vec![] }] },
        Node::Block { body: vec![Node::VarDecl { name: name("b", 16, 17), init: vec![] }] },
    ];
    let ids = collect_identifiers(&tree);
    assert_eq!(ids.len(), 2);
    assert_eq!(ids[0].scope_id, 1);
    assert_eq!(ids[1].scope_id, 2);
}

#[test]
fn analogous_trees_walk_analogously() {
    // Two structurally analogous trees yield the same scope-label sequence,
    // differing only in names.
    let t1 = vec![Node::Function {
        name: Some(name("f", 0, 1)),
        params: vec![name("p", 2, 3)],
        body: vec![Node::Block { body: vec![Node::VarDecl { name: name("v", 6, 7), init: vec![] }] }],
    }];
    let t2 = vec![Node::Function {
        name: Some(name("run", 0, 3)),
        params: vec![name("count", 4, 9)],
        body: vec![Node::Block {
            body: vec![Node::VarDecl { name: name("total", 12, 17), init: vec![] }],
        }],
    }];
    let ids1 = collect_identifiers(&t1);
    let ids2 = collect_identifiers(&t2);
    assert_eq!(ids1.len(), ids2.len());
    for (a, b) in ids1.iter().zip(ids2.iter()) {
        assert_eq!(a.scope_id, b.scope_id);
        assert_eq!(a.id, b.id);
    }
}

#[test]
fn collector_builds_records_at_current_position() {
    let collector = IdentifierCollector::new();
    let record = collector.get_identifier_name(b"x".to_vec());
    assert_eq!(record.name, b"x".to_vec());
    assert_eq!(record.scope_id, 0);
    assert_eq!(record.id, 0);
}

#[test]
fn add_identifier_with_scope_dedups() {
    let mut collector = IdentifierCollector::new();
    collector.add_identifier_with_scope(b"n".to_vec(), 3);
    collector.add_identifier_with_scope(b"n".to_vec(), 3);
    collector.add_identifier_with_scope(b"n".to_vec(), 4);
    assert_eq!(collector.identifiers.len(), 2);
    assert_eq!(collector.identifiers[0].scope_id, 3);
    assert_eq!(collector.identifiers[1].scope_id, 4);
    assert_eq!(collector.identifiers[1].id, 1);
}

#[test]
fn scope_counting_matches_the_walk() {
    let tree = vec![
        Node::Function {
            name: Some(name("f", 0, 1)),
            params: vec![],
            body: vec![
                Node::Block { body: vec![] },
                Node::VarDecl {
                    name: name("o", 10, 11),
                    init: vec![Node::ObjectLiteral { properties: vec![] }],
                },
            ],
        },
        Node::Ref { name: name("f", 30, 31) },
    ];
    // function scope + block scope + object-literal scope
    assert_eq!(count_scopes(&tree), Some(3));
}
