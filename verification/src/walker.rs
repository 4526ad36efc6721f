//! The scope-aware walker: turns a parsed tree into the ordered list of
//! scoped identifier records that the differ and the mapping store consume.
//!
//! Scope labels come from the single counter in [`ScopeContext`]; a fresh
//! label is allocated on entering any function body, arrow function, block,
//! class body or object literal.  A named function's or class's own name is
//! attributed to the enclosing scope, by construction emitted exactly once;
//! a `this.<name>` member is attributed to the nearest enclosing class-body
//! scope when one is open.  An identifier whose `(name, scope)` pair was
//! already emitted in the current pass is dropped, not re-emitted.

use vstd::prelude::*;

use crate::scope::ScopeContext;
use crate::tree::{scope_count, scope_count_nodes, Node};
use crate::types::{bytes_eq, ident_models, IdentModel, Identifier};

verus! {

/// State of a collecting walk: the identifiers emitted so far and the
/// highest scope label handed out so far.
pub ghost struct CollectState {
    pub ids: Seq<IdentModel>,
    pub head: nat,
}

/// Whether an identifier with this `(name, scope)` pair was already emitted.
pub open spec fn emitted(ids: Seq<IdentModel>, name: Seq<u8>, scope: nat) -> bool {
    exists|j: int| 0 <= j < ids.len() && ids[j].name == name && ids[j].scope_id == scope
}

/// Emit one identifier, unless its `(name, scope)` pair is a duplicate; a
/// new record's sequence id is its position in the emission order.
pub open spec fn emit(ids: Seq<IdentModel>, name: Seq<u8>, scope: nat) -> Seq<IdentModel> {
    if emitted(ids, name, scope) {
        ids
    } else {
        ids.push(IdentModel { name, scope_id: scope, id: ids.len() })
    }
}

/// Emit all parameter names, in order, into scope `scope`.
pub open spec fn emit_params(ids: Seq<IdentModel>, params: Seq<crate::tree::Name>, scope: nat) -> Seq<
    IdentModel,
>
    decreases params.len(),
{
    if params.len() == 0 {
        ids
    } else {
        emit_params(
            emit(ids, params[0].text@, scope),
            params.subrange(1, params.len() as int),
            scope,
        )
    }
}

/// The collecting walk over one node.  `cur` is the current scope, `cls`
/// the nearest open class-body scope.
pub open spec fn collect_node(n: Node, st: CollectState, cur: nat, cls: Option<nat>) -> CollectState
    decreases n,
{
    match n {
        Node::Function { name, params, body } => {
            let ids1 = match name {
                Some(nm) => emit(st.ids, nm.text@, cur),
                None => st.ids,
            };
            let s = (st.head + 1) as nat;
            collect_nodes(body@, CollectState { ids: emit_params(ids1, params@, s), head: s }, s, cls)
        },
        Node::Arrow { params, body } => {
            let s = (st.head + 1) as nat;
            collect_nodes(body@, CollectState { ids: emit_params(st.ids, params@, s), head: s }, s, cls)
        },
        Node::Block { body } => {
            let s = (st.head + 1) as nat;
            collect_nodes(body@, CollectState { ids: st.ids, head: s }, s, cls)
        },
        Node::Class { name, body } => {
            let ids1 = match name {
                Some(nm) => emit(st.ids, nm.text@, cur),
                None => st.ids,
            };
            let s = (st.head + 1) as nat;
            collect_nodes(body@, CollectState { ids: ids1, head: s }, s, Some(s))
        },
        Node::Method { name, is_private, params, body } => {
            let ids1 = emit(st.ids, name.text@, cur);
            let s = (st.head + 1) as nat;
            collect_nodes(body@, CollectState { ids: emit_params(ids1, params@, s), head: s }, s, cls)
        },
        Node::Property { key, is_private, value } => {
            collect_nodes(value@, CollectState { ids: emit(st.ids, key.text@, cur), head: st.head }, cur, cls)
        },
        Node::ObjectLiteral { properties } => {
            let s = (st.head + 1) as nat;
            collect_nodes(properties@, CollectState { ids: st.ids, head: s }, s, cls)
        },
        Node::VarDecl { name, init } => {
            collect_nodes(init@, CollectState { ids: emit(st.ids, name.text@, cur), head: st.head }, cur, cls)
        },
        Node::ThisMember { name } => {
            let s = match cls {
                Some(c) => c,
                None => cur,
            };
            CollectState { ids: emit(st.ids, name.text@, s), head: st.head }
        },
        Node::PrivateRef { name } => st,
        Node::Ref { name } => st,
        Node::Other { children } => collect_nodes(children@, st, cur, cls),
    }
}

/// The collecting walk over a node list, left to right.
pub open spec fn collect_nodes(ns: Seq<Node>, st: CollectState, cur: nat, cls: Option<nat>) -> CollectState
    decreases ns,
{
    if ns.len() == 0 {
        st
    } else {
        collect_nodes(ns.subrange(1, ns.len() as int), collect_node(ns[0], st, cur, cls), cur, cls)
    }
}

/// The walk advances the scope counter by exactly the number of scopes the
/// subtree opens: label allocation is a function of the tree's shape alone.
pub proof fn lemma_collect_node_head(n: Node, st: CollectState, cur: nat, cls: Option<nat>)
    ensures
        collect_node(n, st, cur, cls).head == st.head + scope_count(n),
    decreases n,
{
    match n {
        Node::Function { name, params, body } => {
            let ids1 = match name {
                Some(nm) => emit(st.ids, nm.text@, cur),
                None => st.ids,
            };
            let s = (st.head + 1) as nat;
            lemma_collect_nodes_head(
                body@,
                CollectState { ids: emit_params(ids1, params@, s), head: s },
                s,
                cls,
            );
        },
        Node::Arrow { params, body } => {
            let s = (st.head + 1) as nat;
            lemma_collect_nodes_head(
                body@,
                CollectState { ids: emit_params(st.ids, params@, s), head: s },
                s,
                cls,
            );
        },
        Node::Block { body } => {
            let s = (st.head + 1) as nat;
            lemma_collect_nodes_head(body@, CollectState { ids: st.ids, head: s }, s, cls);
        },
        Node::Class { name, body } => {
            let ids1 = match name {
                Some(nm) => emit(st.ids, nm.text@, cur),
                None => st.ids,
            };
            let s = (st.head + 1) as nat;
            lemma_collect_nodes_head(body@, CollectState { ids: ids1, head: s }, s, Some(s));
        },
        Node::Method { name, is_private, params, body } => {
            let ids1 = emit(st.ids, name.text@, cur);
            let s = (st.head + 1) as nat;
            lemma_collect_nodes_head(
                body@,
                CollectState { ids: emit_params(ids1, params@, s), head: s },
                s,
                cls,
            );
        },
        Node::Property { key, is_private, value } => {
            lemma_collect_nodes_head(
                value@,
                CollectState { ids: emit(st.ids, key.text@, cur), head: st.head },
                cur,
                cls,
            );
        },
        Node::ObjectLiteral { properties } => {
            let s = (st.head + 1) as nat;
            lemma_collect_nodes_head(properties@, CollectState { ids: st.ids, head: s }, s, cls);
        },
        Node::VarDecl { name, init } => {
            lemma_collect_nodes_head(
                init@,
                CollectState { ids: emit(st.ids, name.text@, cur), head: st.head },
                cur,
                cls,
            );
        },
        Node::ThisMember { name } => {},
        Node::PrivateRef { name } => {},
        Node::Ref { name } => {},
        Node::Other { children } => {
            lemma_collect_nodes_head(children@, st, cur, cls);
        },
    }
}

/// List form of [`lemma_collect_node_head`].
pub proof fn lemma_collect_nodes_head(ns: Seq<Node>, st: CollectState, cur: nat, cls: Option<nat>)
    ensures
        collect_nodes(ns, st, cur, cls).head == st.head + scope_count_nodes(ns),
    decreases ns,
{
    if ns.len() == 0 {
    } else {
        lemma_collect_node_head(ns[0], st, cur, cls);
        lemma_collect_nodes_head(
            ns.subrange(1, ns.len() as int),
            collect_node(ns[0], st, cur, cls),
            cur,
            cls,
        );
    }
}

/// The scope-aware walker.  `identifiers` is the emission-ordered output;
/// the scope context and the nearest open class-body scope are threaded
/// through the traversal explicitly.
#[derive(Debug)]
pub struct IdentifierCollector {
    pub identifiers: Vec<Identifier>,
    pub ctx: ScopeContext,
    pub current_class_scope: Option<usize>,
}

impl IdentifierCollector {
    /// The emitted identifiers as mathematical values.
    pub open spec fn models(&self) -> Seq<IdentModel> {
        ident_models(self.identifiers@)
    }

    /// The walk state this collector is in.
    pub open spec fn st(&self) -> CollectState {
        CollectState { ids: self.models(), head: self.ctx.scope_head as nat }
    }

    /// The nearest open class-body scope, as a mathematical value.
    pub open spec fn cls(&self) -> Option<nat> {
        match self.current_class_scope {
            Some(c) => Some(c as nat),
            None => None,
        }
    }

    pub open spec fn wf(&self) -> bool {
        self.ctx.wf()
    }

    /// A fresh collector: nothing emitted, only the root scope open.
    pub fn new() -> (r: IdentifierCollector)
        ensures
            r.wf(),
            r.models() == Seq::<IdentModel>::empty(),
            r.ctx.scope_head == 0,
            r.ctx.scope_stack@ == seq![0usize],
            r.current_class_scope is None,
    {
        let r = IdentifierCollector {
            identifiers: Vec::new(),
            ctx: ScopeContext::new(),
            current_class_scope: None,
        };
        proof {
            assert(r.models() =~= Seq::<IdentModel>::empty());
        }
        r
    }

    /// An identifier record for `name` as seen at the current position: the
    /// current scope, and the next free slot in the emission order.
    pub fn get_identifier_name(&self, name: Vec<u8>) -> (r: Identifier)
        requires
            self.wf(),
        ensures
            r@ == (IdentModel {
                name: name@,
                scope_id: self.ctx.spec_current(),
                id: self.identifiers@.len() as nat,
            }),
    {
        Identifier { name, scope_id: self.ctx.current(), id: self.identifiers.len() }
    }

    /// Emit `name` into the given scope, dropping `(name, scope)` duplicates.
    pub fn add_identifier_with_scope(&mut self, name: Vec<u8>, scope_id: usize)
        requires
            old(self).wf(),
        ensures
            final(self).wf(),
            final(self).models() == emit(old(self).models(), name@, scope_id as nat),
            final(self).ctx == old(self).ctx,
            final(self).current_class_scope == old(self).current_class_scope,
    {
        let ghost ids0 = self.models();
        let mut j: usize = 0;
        while j < self.identifiers.len()
            invariant
                0 <= j <= self.identifiers.len(),
                self.wf(),
                ids0 == self.models(),
                *self == *old(self),
                forall|k: int|
                    0 <= k < j ==> !(ids0[k].name == name@ && ids0[k].scope_id == scope_id as nat),
            decreases self.identifiers.len() - j,
        {
            if self.identifiers[j].scope_id == scope_id && bytes_eq(&self.identifiers[j].name, &name) {
                proof {
                    assert(ids0[j as int] == self.identifiers@[j as int]@);
                    assert(ids0[j as int].name == name@ && ids0[j as int].scope_id
                        == scope_id as nat);
                    assert(emitted(ids0, name@, scope_id as nat));
                }
                return ;
            }
            j = j + 1;
        }
        proof {
            assert(!emitted(ids0, name@, scope_id as nat));
        }
        let ghost name_view = name@;
        let id = Identifier { name, scope_id, id: self.identifiers.len() };
        self.identifiers.push(id);
        proof {
            assert(self.models() =~= emit(ids0, name_view, scope_id as nat));
        }
    }

    /// Emit `name` into the current scope.
    pub fn add_identifier(&mut self, name: Vec<u8>)
        requires
            old(self).wf(),
        ensures
            final(self).wf(),
            final(self).models() == emit(
                old(self).models(),
                name@,
                old(self).ctx.spec_current(),
            ),
            final(self).ctx == old(self).ctx,
            final(self).current_class_scope == old(self).current_class_scope,
    {
        let scope_id = self.ctx.current();
        self.add_identifier_with_scope(name, scope_id);
    }

    /// Emit every parameter name into the current scope, in order.
    fn add_params(&mut self, params: &Vec<crate::tree::Name>)
        requires
            old(self).wf(),
        ensures
            final(self).wf(),
            final(self).models() == emit_params(
                old(self).models(),
                params@,
                old(self).ctx.spec_current(),
            ),
            final(self).ctx == old(self).ctx,
            final(self).current_class_scope == old(self).current_class_scope,
    {
        let ghost scope = self.ctx.spec_current();
        let ghost ids0 = self.models();
        proof {
            assert(params@.subrange(0, params@.len() as int) =~= params@);
        }
        let mut i: usize = 0;
        while i < params.len()
            invariant
                0 <= i <= params.len(),
                self.wf(),
                self.ctx == old(self).ctx,
                self.current_class_scope == old(self).current_class_scope,
                scope == self.ctx.spec_current(),
                emit_params(ids0, params@, scope) == emit_params(
                    self.models(),
                    params@.subrange(i as int, params@.len() as int),
                    scope,
                ),
            decreases params.len() - i,
        {
            let ghost pre = self.models();
            let ghost rest = params@.subrange(i as int, params@.len() as int);
            let text = crate::types::copy_bytes(&params[i].text);
            self.add_identifier(text);
            proof {
                assert(rest[0] == params@[i as int]);
                assert(rest.subrange(1, rest.len() as int) =~= params@.subrange(
                    i + 1,
                    params@.len() as int,
                ));
                assert(emit_params(pre, rest, scope) == emit_params(
                    self.models(),
                    params@.subrange(i + 1, params@.len() as int),
                    scope,
                ));
            }
            i = i + 1;
        }
        proof {
            assert(params@.subrange(params@.len() as int, params@.len() as int)
                =~= Seq::<crate::tree::Name>::empty());
        }
    }

    /// Walk one node, emitting its identifiers.
    pub fn visit_node(&mut self, n: &Node)
        requires
            old(self).wf(),
            old(self).ctx.scope_head + scope_count(*n) <= usize::MAX,
        ensures
            final(self).wf(),
            final(self).ctx.scope_stack@ == old(self).ctx.scope_stack@,
            final(self).current_class_scope == old(self).current_class_scope,
            final(self).models() == collect_node(
                *n,
                old(self).st(),
                old(self).ctx.spec_current(),
                old(self).cls(),
            ).ids,
            final(self).ctx.scope_head as nat == collect_node(
                *n,
                old(self).st(),
                old(self).ctx.spec_current(),
                old(self).cls(),
            ).head,
        decreases *n,
    {
        match n {
            Node::Function { name, params, body } => {
                if let Some(nm) = name {
                    let text = crate::types::copy_bytes(&nm.text);
                    self.add_identifier(text);
                }
                self.ctx.enter_scope();
                self.add_params(params);
                self.visit_nodes(body);
                self.ctx.leave_scope();
                proof {
                    assert(self.ctx.scope_stack@ =~= old(self).ctx.scope_stack@);
                }
            },
            Node::Arrow { params, body } => {
                self.ctx.enter_scope();
                self.add_params(params);
                self.visit_nodes(body);
                self.ctx.leave_scope();
                proof {
                    assert(self.ctx.scope_stack@ =~= old(self).ctx.scope_stack@);
                }
            },
            Node::Block { body } => {
                self.ctx.enter_scope();
                self.visit_nodes(body);
                self.ctx.leave_scope();
                proof {
                    assert(self.ctx.scope_stack@ =~= old(self).ctx.scope_stack@);
                }
            },
            Node::Class { name, body } => {
                if let Some(nm) = name {
                    let text = crate::types::copy_bytes(&nm.text);
                    self.add_identifier(text);
                }
                self.ctx.enter_scope();
                let saved_class_scope = self.current_class_scope;
                self.current_class_scope = Some(self.ctx.current());
                self.visit_nodes(body);
                self.current_class_scope = saved_class_scope;
                self.ctx.leave_scope();
                proof {
                    assert(self.ctx.scope_stack@ =~= old(self).ctx.scope_stack@);
                }
            },
            Node::Method { name, is_private, params, body } => {
                let text = crate::types::copy_bytes(&name.text);
                self.add_identifier(text);
                self.ctx.enter_scope();
                self.add_params(params);
                self.visit_nodes(body);
                self.ctx.leave_scope();
                proof {
                    assert(self.ctx.scope_stack@ =~= old(self).ctx.scope_stack@);
                }
            },
            Node::Property { key, is_private, value } => {
                let text = crate::types::copy_bytes(&key.text);
                self.add_identifier(text);
                self.visit_nodes(value);
            },
            Node::ObjectLiteral { properties } => {
                self.ctx.enter_scope();
                self.visit_nodes(properties);
                self.ctx.leave_scope();
                proof {
                    assert(self.ctx.scope_stack@ =~= old(self).ctx.scope_stack@);
                }
            },
            Node::VarDecl { name, init } => {
                let text = crate::types::copy_bytes(&name.text);
                self.add_identifier(text);
                self.visit_nodes(init);
            },
            Node::ThisMember { name } => {
                let text = crate::types::copy_bytes(&name.text);
                let scope_id = match self.current_class_scope {
                    Some(c) => c,
                    None => self.ctx.current(),
                };
                self.add_identifier_with_scope(text, scope_id);
            },
            Node::PrivateRef { name } => {},
            Node::Ref { name } => {},
            Node::Other { children } => {
                self.visit_nodes(children);
            },
        }
    }

    /// Walk a node list, left to right.
    pub fn visit_nodes(&mut self, ns: &Vec<Node>)
        requires
            old(self).wf(),
            old(self).ctx.scope_head + scope_count_nodes(ns@) <= usize::MAX,
        ensures
            final(self).wf(),
            final(self).ctx.scope_stack@ == old(self).ctx.scope_stack@,
            final(self).current_class_scope == old(self).current_class_scope,
            final(self).models() == collect_nodes(
                ns@,
                old(self).st(),
                old(self).ctx.spec_current(),
                old(self).cls(),
            ).ids,
            final(self).ctx.scope_head as nat == collect_nodes(
                ns@,
                old(self).st(),
                old(self).ctx.spec_current(),
                old(self).cls(),
            ).head,
        decreases *ns,
    {
        let ghost cur = self.ctx.spec_current();
        let ghost cls0 = self.cls();
        let ghost st0 = self.st();
        proof {
            assert(ns@.subrange(0, ns@.len() as int) =~= ns@);
        }
        let mut i: usize = 0;
        while i < ns.len()
            invariant
                0 <= i <= ns.len(),
                self.wf(),
                self.ctx.scope_stack@ == old(self).ctx.scope_stack@,
                self.current_class_scope == old(self).current_class_scope,
                cur == self.ctx.spec_current(),
                cls0 == self.cls(),
                self.ctx.scope_head + scope_count_nodes(ns@.subrange(i as int, ns@.len() as int))
                    <= usize::MAX,
                collect_nodes(ns@, st0, cur, cls0) == collect_nodes(
                    ns@.subrange(i as int, ns@.len() as int),
                    self.st(),
                    cur,
                    cls0,
                ),
            decreases ns.len() - i,
        {
            let ghost pre = self.st();
            let ghost rest = ns@.subrange(i as int, ns@.len() as int);
            proof {
                assert(rest[0] == ns@[i as int]);
                assert(rest.subrange(1, rest.len() as int) =~= ns@.subrange(
                    i + 1,
                    ns@.len() as int,
                ));
                lemma_collect_node_head(ns@[i as int], pre, cur, cls0);
            }
            self.visit_node(&ns[i]);
            proof {
                assert(collect_nodes(rest, pre, cur, cls0) == collect_nodes(
                    ns@.subrange(i + 1, ns@.len() as int),
                    collect_node(ns@[i as int], pre, cur, cls0),
                    cur,
                    cls0,
                ));
                assert(self.st() == collect_node(ns@[i as int], pre, cur, cls0));
            }
            i = i + 1;
        }
        proof {
            assert(ns@.subrange(ns@.len() as int, ns@.len() as int) =~= Seq::<Node>::empty());
        }
    }
}

/// `f` maps distinct names to distinct names.
pub open spec fn injective(f: spec_fn(Seq<u8>) -> Seq<u8>) -> bool {
    forall|a: Seq<u8>, b: Seq<u8>| #[trigger] f(a) == #[trigger] f(b) ==> a == b
}

/// Name lists correspond under `f`: same length, each name mapped; spans are
/// free.
pub open spec fn renamed_params(
    p1: Seq<crate::tree::Name>,
    p2: Seq<crate::tree::Name>,
    f: spec_fn(Seq<u8>) -> Seq<u8>,
) -> bool {
    p1.len() == p2.len() && forall|i: int|
        0 <= i < p1.len() ==> (#[trigger] p2[i].text@) == f(p1[i].text@)
}

/// Tree `n2` is `n1` with every identifier renamed by `f`: the same shape
/// and scope structure, each name mapped, spans free.
pub open spec fn renamed_node(n1: Node, n2: Node, f: spec_fn(Seq<u8>) -> Seq<u8>) -> bool
    decreases n1,
{
    match (n1, n2) {
        (
            Node::Function { name: a1, params: p1, body: b1 },
            Node::Function { name: a2, params: p2, body: b2 },
        ) => {
            &&& match (a1, a2) {
                (Some(x1), Some(x2)) => x2.text@ == f(x1.text@),
                (None, None) => true,
                _ => false,
            }
            &&& renamed_params(p1@, p2@, f)
            &&& renamed_nodes(b1@, b2@, f)
        },
        (Node::Arrow { params: p1, body: b1 }, Node::Arrow { params: p2, body: b2 }) => {
            renamed_params(p1@, p2@, f) && renamed_nodes(b1@, b2@, f)
        },
        (Node::Block { body: b1 }, Node::Block { body: b2 }) => renamed_nodes(b1@, b2@, f),
        (Node::Class { name: a1, body: b1 }, Node::Class { name: a2, body: b2 }) => {
            &&& match (a1, a2) {
                (Some(x1), Some(x2)) => x2.text@ == f(x1.text@),
                (None, None) => true,
                _ => false,
            }
            &&& renamed_nodes(b1@, b2@, f)
        },
        (
            Node::Method { name: a1, is_private: q1, params: p1, body: b1 },
            Node::Method { name: a2, is_private: q2, params: p2, body: b2 },
        ) => {
            a2.text@ == f(a1.text@) && renamed_params(p1@, p2@, f) && renamed_nodes(b1@, b2@, f)
        },
        (
            Node::Property { key: a1, is_private: q1, value: v1 },
            Node::Property { key: a2, is_private: q2, value: v2 },
        ) => a2.text@ == f(a1.text@) && renamed_nodes(v1@, v2@, f),
        (Node::ObjectLiteral { properties: c1 }, Node::ObjectLiteral { properties: c2 }) => {
            renamed_nodes(c1@, c2@, f)
        },
        (Node::VarDecl { name: a1, init: i1 }, Node::VarDecl { name: a2, init: i2 }) => {
            a2.text@ == f(a1.text@) && renamed_nodes(i1@, i2@, f)
        },
        (Node::ThisMember { name: a1 }, Node::ThisMember { name: a2 }) => a2.text@ == f(a1.text@),
        (Node::PrivateRef { name: a1 }, Node::PrivateRef { name: a2 }) => a2.text@ == f(a1.text@),
        (Node::Ref { name: a1 }, Node::Ref { name: a2 }) => a2.text@ == f(a1.text@),
        (Node::Other { children: c1 }, Node::Other { children: c2 }) => renamed_nodes(c1@, c2@, f),
        _ => false,
    }
}

/// List form of [`renamed_node`].
pub open spec fn renamed_nodes(ns1: Seq<Node>, ns2: Seq<Node>, f: spec_fn(Seq<u8>) -> Seq<u8>) -> bool
    decreases ns1,
{
    &&& ns1.len() == ns2.len()
    &&& (ns1.len() == 0 || {
        &&& renamed_node(ns1[0], ns2[0], f)
        &&& renamed_nodes(
            ns1.subrange(1, ns1.len() as int),
            ns2.subrange(1, ns2.len() as int),
            f,
        )
    })
}

/// Emitted identifier lists correspond under `f`: same scope labels and
/// sequence ids, each name mapped.
pub open spec fn ids_renamed(
    ids1: Seq<IdentModel>,
    ids2: Seq<IdentModel>,
    f: spec_fn(Seq<u8>) -> Seq<u8>,
) -> bool {
    ids1.len() == ids2.len() && forall|i: int|
        0 <= i < ids1.len() ==> (#[trigger] ids2[i]) == (IdentModel {
            name: f(ids1[i].name),
            scope_id: ids1[i].scope_id,
            id: ids1[i].id,
        })
}

/// One emission keeps two renamed walks in correspondence: the duplicate
/// check fires in one exactly when it fires in the other.
proof fn lemma_emit_renamed(
    ids1: Seq<IdentModel>,
    ids2: Seq<IdentModel>,
    f: spec_fn(Seq<u8>) -> Seq<u8>,
    name: Seq<u8>,
    scope: nat,
)
    requires
        injective(f),
        ids_renamed(ids1, ids2, f),
    ensures
        ids_renamed(emit(ids1, name, scope), emit(ids2, f(name), scope), f),
{
    if emitted(ids1, name, scope) {
        let j = choose|j: int|
            0 <= j < ids1.len() && ids1[j].name == name && ids1[j].scope_id == scope;
        assert(ids2[j].name == f(name) && ids2[j].scope_id == scope);
        assert(emitted(ids2, f(name), scope));
    } else {
        if emitted(ids2, f(name), scope) {
            let j = choose|j: int|
                0 <= j < ids2.len() && ids2[j].name == f(name) && ids2[j].scope_id == scope;
            assert(ids2[j].name == f(ids1[j].name));
            assert(ids1[j].name == name);
            assert(false);
        }
        let e1 = emit(ids1, name, scope);
        let e2 = emit(ids2, f(name), scope);
        assert forall|i: int| 0 <= i < e1.len() implies (#[trigger] e2[i]) == (IdentModel {
            name: f(e1[i].name),
            scope_id: e1[i].scope_id,
            id: e1[i].id,
        }) by {
            if i < ids1.len() {
                assert(e1[i] == ids1[i] && e2[i] == ids2[i]);
            } else {
                assert(e1[i] == (IdentModel { name, scope_id: scope, id: ids1.len() }));
                assert(e2[i] == (IdentModel { name: f(name), scope_id: scope, id: ids2.len() }));
            }
        }
    }
}

/// Parameter emission keeps two renamed walks in correspondence.
proof fn lemma_emit_params_renamed(
    ids1: Seq<IdentModel>,
    ids2: Seq<IdentModel>,
    f: spec_fn(Seq<u8>) -> Seq<u8>,
    p1: Seq<crate::tree::Name>,
    p2: Seq<crate::tree::Name>,
    scope: nat,
)
    requires
        injective(f),
        ids_renamed(ids1, ids2, f),
        renamed_params(p1, p2, f),
    ensures
        ids_renamed(emit_params(ids1, p1, scope), emit_params(ids2, p2, scope), f),
    decreases p1.len(),
{
    if p1.len() > 0 {
        lemma_emit_renamed(ids1, ids2, f, p1[0].text@, scope);
        let r1 = p1.subrange(1, p1.len() as int);
        let r2 = p2.subrange(1, p2.len() as int);
        assert forall|i: int| 0 <= i < r1.len() implies (#[trigger] r2[i].text@) == f(r1[i].text@) by {
            assert(r2[i] == p2[i + 1] && r1[i] == p1[i + 1]);
            assert(p2[i + 1].text@ == f(p1[i + 1].text@));
        }
        lemma_emit_params_renamed(
            emit(ids1, p1[0].text@, scope),
            emit(ids2, p2[0].text@, scope),
            f,
            r1,
            r2,
            scope,
        );
    }
}

/// Scope assignment is a pure, deterministic function of the tree's shape:
/// two walks of a consistently renamed tree emit identifiers with identical
/// scope labels and sequence ids, differing only in name, and leave the
/// scope counter at the same value.
pub proof fn lemma_walker_deterministic_node(
    n1: Node,
    n2: Node,
    f: spec_fn(Seq<u8>) -> Seq<u8>,
    st1: CollectState,
    st2: CollectState,
    cur: nat,
    cls: Option<nat>,
)
    requires
        injective(f),
        renamed_node(n1, n2, f),
        ids_renamed(st1.ids, st2.ids, f),
        st1.head == st2.head,
    ensures
        ids_renamed(
            collect_node(n1, st1, cur, cls).ids,
            collect_node(n2, st2, cur, cls).ids,
            f,
        ),
        collect_node(n1, st1, cur, cls).head == collect_node(n2, st2, cur, cls).head,
    decreases n1,
{
    match (n1, n2) {
        (
            Node::Function { name: a1, params: p1, body: b1 },
            Node::Function { name: a2, params: p2, body: b2 },
        ) => {
            let ids1 = match a1 {
                Some(nm) => emit(st1.ids, nm.text@, cur),
                None => st1.ids,
            };
            let ids2 = match a2 {
                Some(nm) => emit(st2.ids, nm.text@, cur),
                None => st2.ids,
            };
            if let (Some(x1), Some(x2)) = (a1, a2) {
                lemma_emit_renamed(st1.ids, st2.ids, f, x1.text@, cur);
            }
            let s = (st1.head + 1) as nat;
            lemma_emit_params_renamed(ids1, ids2, f, p1@, p2@, s);
            lemma_walker_deterministic_nodes(
                b1@,
                b2@,
                f,
                CollectState { ids: emit_params(ids1, p1@, s), head: s },
                CollectState { ids: emit_params(ids2, p2@, s), head: s },
                s,
                cls,
            );
        },
        (Node::Arrow { params: p1, body: b1 }, Node::Arrow { params: p2, body: b2 }) => {
            let s = (st1.head + 1) as nat;
            lemma_emit_params_renamed(st1.ids, st2.ids, f, p1@, p2@, s);
            lemma_walker_deterministic_nodes(
                b1@,
                b2@,
                f,
                CollectState { ids: emit_params(st1.ids, p1@, s), head: s },
                CollectState { ids: emit_params(st2.ids, p2@, s), head: s },
                s,
                cls,
            );
        },
        (Node::Block { body: b1 }, Node::Block { body: b2 }) => {
            let s = (st1.head + 1) as nat;
            lemma_walker_deterministic_nodes(
                b1@,
                b2@,
                f,
                CollectState { ids: st1.ids, head: s },
                CollectState { ids: st2.ids, head: s },
                s,
                cls,
            );
        },
        (Node::Class { name: a1, body: b1 }, Node::Class { name: a2, body: b2 }) => {
            let ids1 = match a1 {
                Some(nm) => emit(st1.ids, nm.text@, cur),
                None => st1.ids,
            };
            let ids2 = match a2 {
                Some(nm) => emit(st2.ids, nm.text@, cur),
                None => st2.ids,
            };
            if let (Some(x1), Some(x2)) = (a1, a2) {
                lemma_emit_renamed(st1.ids, st2.ids, f, x1.text@, cur);
            }
            let s = (st1.head + 1) as nat;
            lemma_walker_deterministic_nodes(
                b1@,
                b2@,
                f,
                CollectState { ids: ids1, head: s },
                CollectState { ids: ids2, head: s },
                s,
                Some(s),
            );
        },
        (
            Node::Method { name: a1, is_private: q1, params: p1, body: b1 },
            Node::Method { name: a2, is_private: q2, params: p2, body: b2 },
        ) => {
            lemma_emit_renamed(st1.ids, st2.ids, f, a1.text@, cur);
            let ids1 = emit(st1.ids, a1.text@, cur);
            let ids2 = emit(st2.ids, a2.text@, cur);
            let s = (st1.head + 1) as nat;
            lemma_emit_params_renamed(ids1, ids2, f, p1@, p2@, s);
            lemma_walker_deterministic_nodes(
                b1@,
                b2@,
                f,
                CollectState { ids: emit_params(ids1, p1@, s), head: s },
                CollectState { ids: emit_params(ids2, p2@, s), head: s },
                s,
                cls,
            );
        },
        (
            Node::Property { key: a1, is_private: q1, value: v1 },
            Node::Property { key: a2, is_private: q2, value: v2 },
        ) => {
            lemma_emit_renamed(st1.ids, st2.ids, f, a1.text@, cur);
            lemma_walker_deterministic_nodes(
                v1@,
                v2@,
                f,
                CollectState { ids: emit(st1.ids, a1.text@, cur), head: st1.head },
                CollectState { ids: emit(st2.ids, a2.text@, cur), head: st2.head },
                cur,
                cls,
            );
        },
        (Node::ObjectLiteral { properties: c1 }, Node::ObjectLiteral { properties: c2 }) => {
            let s = (st1.head + 1) as nat;
            lemma_walker_deterministic_nodes(
                c1@,
                c2@,
                f,
                CollectState { ids: st1.ids, head: s },
                CollectState { ids: st2.ids, head: s },
                s,
                cls,
            );
        },
        (Node::VarDecl { name: a1, init: i1 }, Node::VarDecl { name: a2, init: i2 }) => {
            lemma_emit_renamed(st1.ids, st2.ids, f, a1.text@, cur);
            lemma_walker_deterministic_nodes(
                i1@,
                i2@,
                f,
                CollectState { ids: emit(st1.ids, a1.text@, cur), head: st1.head },
                CollectState { ids: emit(st2.ids, a2.text@, cur), head: st2.head },
                cur,
                cls,
            );
        },
        (Node::ThisMember { name: a1 }, Node::ThisMember { name: a2 }) => {
            let s = match cls {
                Some(c) => c,
                None => cur,
            };
            lemma_emit_renamed(st1.ids, st2.ids, f, a1.text@, s);
        },
        (Node::PrivateRef { name: a1 }, Node::PrivateRef { name: a2 }) => {},
        (Node::Ref { name: a1 }, Node::Ref { name: a2 }) => {},
        (Node::Other { children: c1 }, Node::Other { children: c2 }) => {
            lemma_walker_deterministic_nodes(c1@, c2@, f, st1, st2, cur, cls);
        },
        _ => {},
    }
}

/// List form of [`lemma_walker_deterministic_node`].
pub proof fn lemma_walker_deterministic_nodes(
    ns1: Seq<Node>,
    ns2: Seq<Node>,
    f: spec_fn(Seq<u8>) -> Seq<u8>,
    st1: CollectState,
    st2: CollectState,
    cur: nat,
    cls: Option<nat>,
)
    requires
        injective(f),
        renamed_nodes(ns1, ns2, f),
        ids_renamed(st1.ids, st2.ids, f),
        st1.head == st2.head,
    ensures
        ids_renamed(
            collect_nodes(ns1, st1, cur, cls).ids,
            collect_nodes(ns2, st2, cur, cls).ids,
            f,
        ),
        collect_nodes(ns1, st1, cur, cls).head == collect_nodes(ns2, st2, cur, cls).head,
    decreases ns1,
{
    if ns1.len() > 0 {
        lemma_walker_deterministic_node(ns1[0], ns2[0], f, st1, st2, cur, cls);
        lemma_walker_deterministic_nodes(
            ns1.subrange(1, ns1.len() as int),
            ns2.subrange(1, ns2.len() as int),
            f,
            collect_node(ns1[0], st1, cur, cls),
            collect_node(ns2[0], st2, cur, cls),
            cur,
            cls,
        );
    }
}

/// Walk a whole file and return its ordered scoped-identifier records.
pub fn collect_identifiers(program: &Vec<Node>) -> (r: Vec<Identifier>)
    requires
        scope_count_nodes(program@) <= usize::MAX,
    ensures
        ident_models(r@) == collect_nodes(
            program@,
            CollectState { ids: Seq::empty(), head: 0 },
            0,
            None,
        ).ids,
{
    let mut collector = IdentifierCollector::new();
    collector.visit_nodes(program);
    collector.identifiers
}

} // verus!
