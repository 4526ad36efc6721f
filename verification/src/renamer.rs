//! The rename engine: re-walks a tree with exactly the same scope rules as
//! the walker and records one edit for every identifier occurrence whose
//! name resolves against the accumulated mappings.
//!
//! Resolution searches the stack of open scopes from the innermost outward
//! for a mapping whose original `(name, scope)` key matches; the first hit
//! wins, which implements lexical shadowing.  A private name keeps its `#`
//! sigil: the bare name is looked up and the sigil is re-prefixed onto the
//! replacement.  Duplicate `(span, text)` records are kept once.

use vstd::prelude::*;

use crate::scope::ScopeContext;
use crate::tree::{scope_count, scope_count_nodes, Name, Node};
use crate::types::{bytes_eq, copy_bytes, edit_models, map_models, Edit, EditModel, MapModel, Mapping};

verus! {

/// The byte value of the `#` sigil that introduces a private name.
pub const PRIVATE_SIGIL: u8 = 35;

/// The first mapping whose original key is `(name, scope)`.
pub open spec fn find_mapping(maps: Seq<MapModel>, name: Seq<u8>, scope: nat) -> Option<MapModel>
    decreases maps.len(),
{
    if maps.len() == 0 {
        None
    } else if maps[0].original.name == name && maps[0].original.scope_id == scope {
        Some(maps[0])
    } else {
        find_mapping(maps.subrange(1, maps.len() as int), name, scope)
    }
}

/// Innermost-wins resolution of `name` against the open scopes: the scopes
/// are searched from the innermost (last) outward, and within one scope the
/// first mapping with the matching key decides.
pub open spec fn resolve(stack: Seq<nat>, maps: Seq<MapModel>, name: Seq<u8>) -> Option<Seq<u8>>
    decreases stack.len(),
{
    if stack.len() == 0 {
        None
    } else {
        match find_mapping(maps, name, stack.last()) {
            Some(m) => Some(m.modified.name),
            None => resolve(stack.drop_last(), maps, name),
        }
    }
}

/// Scope precedence.  When an outer and an inner open scope both carry a
/// mapping for `name`, a position inside the inner scope resolves by the
/// inner mapping, and a position inside the outer scope alone resolves by
/// the outer one: lexical shadowing.
pub proof fn lemma_scope_precedence(
    prefix: Seq<nat>,
    maps: Seq<MapModel>,
    name: Seq<u8>,
    outer: nat,
    inner: nat,
)
    requires
        find_mapping(maps, name, outer) is Some,
        find_mapping(maps, name, inner) is Some,
    ensures
        resolve(prefix.push(outer).push(inner), maps, name) == Some(
            find_mapping(maps, name, inner)->Some_0.modified.name,
        ),
        resolve(prefix.push(outer), maps, name) == Some(
            find_mapping(maps, name, outer)->Some_0.modified.name,
        ),
{
    assert(prefix.push(outer).push(inner).last() == inner);
    assert(prefix.push(outer).last() == outer);
}

/// Whether this exact `(span, text)` record was already made.
pub open spec fn recorded(edits: Seq<EditModel>, e: EditModel) -> bool {
    exists|j: int| 0 <= j < edits.len() && edits[j] == e
}

/// Record one edit, keeping duplicates once.
pub open spec fn record(edits: Seq<EditModel>, e: EditModel) -> Seq<EditModel> {
    if recorded(edits, e) {
        edits
    } else {
        edits.push(e)
    }
}

/// The replacement text for one occurrence: the resolved name, with the `#`
/// sigil re-prefixed when the occurrence is private.
pub open spec fn replacement_text(new_name: Seq<u8>, private: bool) -> Seq<u8> {
    if private {
        seq![PRIVATE_SIGIL] + new_name
    } else {
        new_name
    }
}

/// Rewrite one identifier occurrence, if its name resolves.
pub open spec fn rewrite_one(
    edits: Seq<EditModel>,
    maps: Seq<MapModel>,
    stack: Seq<nat>,
    nm: Name,
    private: bool,
) -> Seq<EditModel> {
    match resolve(stack, maps, nm.text@) {
        Some(new_name) => record(
            edits,
            EditModel {
                start: nm.span_start as nat,
                end: nm.span_end as nat,
                text: replacement_text(new_name, private),
            },
        ),
        None => edits,
    }
}

/// Rewrite all parameter names, in order.
pub open spec fn rewrite_params(
    edits: Seq<EditModel>,
    maps: Seq<MapModel>,
    stack: Seq<nat>,
    params: Seq<Name>,
) -> Seq<EditModel>
    decreases params.len(),
{
    if params.len() == 0 {
        edits
    } else {
        rewrite_params(
            rewrite_one(edits, maps, stack, params[0], false),
            maps,
            stack,
            params.subrange(1, params.len() as int),
        )
    }
}

/// State of a renaming walk: the edits recorded so far and the highest scope
/// label handed out so far.
pub ghost struct RenameState {
    pub edits: Seq<EditModel>,
    pub head: nat,
}

/// The renaming walk over one node.  `stack` is the open-scope stack,
/// innermost last; it follows exactly the same entry and exit rules as the
/// collecting walk, so the labels line up with those recorded when the
/// mappings were created.
pub open spec fn rename_node(n: Node, st: RenameState, stack: Seq<nat>, maps: Seq<MapModel>) -> RenameState
    decreases n,
{
    match n {
        Node::Function { name, params, body } => {
            let e1 = match name {
                Some(nm) => rewrite_one(st.edits, maps, stack, nm, false),
                None => st.edits,
            };
            let s = (st.head + 1) as nat;
            let stack2 = stack.push(s);
            rename_nodes(
                body@,
                RenameState { edits: rewrite_params(e1, maps, stack2, params@), head: s },
                stack2,
                maps,
            )
        },
        Node::Arrow { params, body } => {
            let s = (st.head + 1) as nat;
            let stack2 = stack.push(s);
            rename_nodes(
                body@,
                RenameState { edits: rewrite_params(st.edits, maps, stack2, params@), head: s },
                stack2,
                maps,
            )
        },
        Node::Block { body } => {
            let s = (st.head + 1) as nat;
            rename_nodes(body@, RenameState { edits: st.edits, head: s }, stack.push(s), maps)
        },
        Node::Class { name, body } => {
            let e1 = match name {
                Some(nm) => rewrite_one(st.edits, maps, stack, nm, false),
                None => st.edits,
            };
            let s = (st.head + 1) as nat;
            rename_nodes(body@, RenameState { edits: e1, head: s }, stack.push(s), maps)
        },
        Node::Method { name, is_private, params, body } => {
            let e1 = rewrite_one(st.edits, maps, stack, name, is_private);
            let s = (st.head + 1) as nat;
            let stack2 = stack.push(s);
            rename_nodes(
                body@,
                RenameState { edits: rewrite_params(e1, maps, stack2, params@), head: s },
                stack2,
                maps,
            )
        },
        Node::Property { key, is_private, value } => {
            rename_nodes(
                value@,
                RenameState { edits: rewrite_one(st.edits, maps, stack, key, is_private), head: st.head },
                stack,
                maps,
            )
        },
        Node::ObjectLiteral { properties } => {
            let s = (st.head + 1) as nat;
            rename_nodes(properties@, RenameState { edits: st.edits, head: s }, stack.push(s), maps)
        },
        Node::VarDecl { name, init } => {
            rename_nodes(
                init@,
                RenameState { edits: rewrite_one(st.edits, maps, stack, name, false), head: st.head },
                stack,
                maps,
            )
        },
        Node::ThisMember { name } => {
            RenameState { edits: rewrite_one(st.edits, maps, stack, name, false), head: st.head }
        },
        Node::PrivateRef { name } => {
            RenameState { edits: rewrite_one(st.edits, maps, stack, name, true), head: st.head }
        },
        Node::Ref { name } => {
            RenameState { edits: rewrite_one(st.edits, maps, stack, name, false), head: st.head }
        },
        Node::Other { children } => rename_nodes(children@, st, stack, maps),
    }
}

/// The renaming walk over a node list, left to right.
pub open spec fn rename_nodes(ns: Seq<Node>, st: RenameState, stack: Seq<nat>, maps: Seq<MapModel>) -> RenameState
    decreases ns,
{
    if ns.len() == 0 {
        st
    } else {
        rename_nodes(ns.subrange(1, ns.len() as int), rename_node(ns[0], st, stack, maps), stack, maps)
    }
}

/// The renaming walk advances the scope counter by exactly the number of
/// scopes the subtree opens - the same amount as the collecting walk, so
/// the numeric labels of the two walks line up.
pub proof fn lemma_rename_node_head(n: Node, st: RenameState, stack: Seq<nat>, maps: Seq<MapModel>)
    ensures
        rename_node(n, st, stack, maps).head == st.head + scope_count(n),
    decreases n,
{
    match n {
        Node::Function { name, params, body } => {
            let e1 = match name {
                Some(nm) => rewrite_one(st.edits, maps, stack, nm, false),
                None => st.edits,
            };
            let s = (st.head + 1) as nat;
            let stack2 = stack.push(s);
            lemma_rename_nodes_head(
                body@,
                RenameState { edits: rewrite_params(e1, maps, stack2, params@), head: s },
                stack2,
                maps,
            );
        },
        Node::Arrow { params, body } => {
            let s = (st.head + 1) as nat;
            let stack2 = stack.push(s);
            lemma_rename_nodes_head(
                body@,
                RenameState { edits: rewrite_params(st.edits, maps, stack2, params@), head: s },
                stack2,
                maps,
            );
        },
        Node::Block { body } => {
            let s = (st.head + 1) as nat;
            lemma_rename_nodes_head(body@, RenameState { edits: st.edits, head: s }, stack.push(s), maps);
        },
        Node::Class { name, body } => {
            let e1 = match name {
                Some(nm) => rewrite_one(st.edits, maps, stack, nm, false),
                None => st.edits,
            };
            let s = (st.head + 1) as nat;
            lemma_rename_nodes_head(body@, RenameState { edits: e1, head: s }, stack.push(s), maps);
        },
        Node::Method { name, is_private, params, body } => {
            let e1 = rewrite_one(st.edits, maps, stack, name, is_private);
            let s = (st.head + 1) as nat;
            let stack2 = stack.push(s);
            lemma_rename_nodes_head(
                body@,
                RenameState { edits: rewrite_params(e1, maps, stack2, params@), head: s },
                stack2,
                maps,
            );
        },
        Node::Property { key, is_private, value } => {
            lemma_rename_nodes_head(
                value@,
                RenameState { edits: rewrite_one(st.edits, maps, stack, key, is_private), head: st.head },
                stack,
                maps,
            );
        },
        Node::ObjectLiteral { properties } => {
            let s = (st.head + 1) as nat;
            lemma_rename_nodes_head(properties@, RenameState { edits: st.edits, head: s }, stack.push(s), maps);
        },
        Node::VarDecl { name, init } => {
            lemma_rename_nodes_head(
                init@,
                RenameState { edits: rewrite_one(st.edits, maps, stack, name, false), head: st.head },
                stack,
                maps,
            );
        },
        Node::ThisMember { name } => {},
        Node::PrivateRef { name } => {},
        Node::Ref { name } => {},
        Node::Other { children } => {
            lemma_rename_nodes_head(children@, st, stack, maps);
        },
    }
}

/// List form of [`lemma_rename_node_head`].
pub proof fn lemma_rename_nodes_head(ns: Seq<Node>, st: RenameState, stack: Seq<nat>, maps: Seq<MapModel>)
    ensures
        rename_nodes(ns, st, stack, maps).head == st.head + scope_count_nodes(ns),
    decreases ns,
{
    if ns.len() == 0 {
    } else {
        lemma_rename_node_head(ns[0], st, stack, maps);
        lemma_rename_nodes_head(
            ns.subrange(1, ns.len() as int),
            rename_node(ns[0], st, stack, maps),
            stack,
            maps,
        );
    }
}

/// The rename engine: the recorded edits, the mappings consulted read-only,
/// and the scope context re-walked with the walker's rules.
#[derive(Debug)]
pub struct Renamer {
    pub changes: Vec<Edit>,
    pub mappings: Vec<Mapping>,
    pub ctx: ScopeContext,
}

impl Renamer {
    /// The recorded edits as mathematical values.
    pub open spec fn edits(&self) -> Seq<EditModel> {
        edit_models(self.changes@)
    }

    /// The mappings as mathematical values.
    pub open spec fn maps(&self) -> Seq<MapModel> {
        map_models(self.mappings@)
    }

    /// The walk state this renamer is in.
    pub open spec fn st(&self) -> RenameState {
        RenameState { edits: self.edits(), head: self.ctx.scope_head as nat }
    }

    pub open spec fn wf(&self) -> bool {
        self.ctx.wf()
    }

    /// A fresh renamer over the given mappings: no edits recorded, only the
    /// root scope open.
    pub fn new(mappings: Vec<Mapping>) -> (r: Renamer)
        ensures
            r.wf(),
            r.edits() == Seq::<EditModel>::empty(),
            r.maps() == map_models(mappings@),
            r.ctx.scope_head == 0,
            r.ctx.scope_stack@ == seq![0usize],
            r.ctx.spec_stack() == seq![0nat],
    {
        let r = Renamer { changes: Vec::new(), mappings, ctx: ScopeContext::new() };
        proof {
            assert(r.edits() =~= Seq::<EditModel>::empty());
            assert(r.ctx.spec_stack() =~= seq![0nat]);
        }
        r
    }

    /// The replacement for `name`, searching the open scopes from the
    /// innermost outward; the innermost mapping wins.
    pub fn get_new_identifier(&self, name: &Vec<u8>) -> (r: Option<Vec<u8>>)
        requires
            self.wf(),
        ensures
            match r {
                Some(v) => resolve(self.ctx.spec_stack(), self.maps(), name@) == Some(v@),
                None => resolve(self.ctx.spec_stack(), self.maps(), name@) is None,
            },
    {
        let ghost stack = self.ctx.spec_stack();
        let ghost maps = self.maps();
        let mut k: usize = self.ctx.scope_stack.len();
        proof {
            assert(stack.subrange(0, k as int) =~= stack);
        }
        while k > 0
            invariant
                0 <= k <= self.ctx.scope_stack@.len(),
                stack == self.ctx.spec_stack(),
                maps == self.maps(),
                resolve(stack, maps, name@) == resolve(stack.subrange(0, k as int), maps, name@),
            decreases k,
        {
            k = k - 1;
            let scope: usize = self.ctx.scope_stack[k];
            let ghost prefix = stack.subrange(0, k + 1);
            proof {
                assert(prefix.last() == stack[k as int]);
                assert(prefix.drop_last() =~= stack.subrange(0, k as int));
            }
            let found = self.find_in_mappings(name, scope);
            match found {
                Some(idx) => {
                    let text = copy_bytes(&self.mappings[idx].modified.name);
                    return Some(text);
                },
                None => {
                    proof {
                        assert(resolve(prefix, maps, name@) == resolve(
                            stack.subrange(0, k as int),
                            maps,
                            name@,
                        ));
                    }
                },
            }
        }
        proof {
            assert(stack.subrange(0, 0) =~= Seq::<nat>::empty());
        }
        None
    }

    /// The index of the first mapping whose original key is `(name, scope)`.
    fn find_in_mappings(&self, name: &Vec<u8>, scope: usize) -> (r: Option<usize>)
        ensures
            match r {
                Some(idx) => {
                    &&& 0 <= idx < self.mappings@.len()
                    &&& find_mapping(self.maps(), name@, scope as nat) == Some(
                        self.mappings@[idx as int]@,
                    )
                },
                None => find_mapping(self.maps(), name@, scope as nat) is None,
            },
    {
        let ghost maps = self.maps();
        proof {
            assert(maps.subrange(0, maps.len() as int) =~= maps);
        }
        let mut i: usize = 0;
        while i < self.mappings.len()
            invariant
                0 <= i <= self.mappings@.len(),
                maps == self.maps(),
                find_mapping(maps, name@, scope as nat) == find_mapping(
                    maps.subrange(i as int, maps.len() as int),
                    name@,
                    scope as nat,
                ),
            decreases self.mappings@.len() - i,
        {
            let ghost rest = maps.subrange(i as int, maps.len() as int);
            proof {
                assert(rest[0] == maps[i as int]);
                assert(rest.subrange(1, rest.len() as int) =~= maps.subrange(
                    i + 1,
                    maps.len() as int,
                ));
            }
            let m = &self.mappings[i];
            if m.original.scope_id == scope && bytes_eq(&m.original.name, name) {
                return Some(i);
            }
            i = i + 1;
        }
        proof {
            assert(maps.subrange(maps.len() as int, maps.len() as int) =~= Seq::<MapModel>::empty());
        }
        None
    }

    /// Record one edit, keeping exact duplicates once.
    pub fn add_change(&mut self, start: usize, end: usize, text: Vec<u8>)
        requires
            old(self).wf(),
        ensures
            final(self).wf(),
            final(self).edits() == record(
                old(self).edits(),
                EditModel { start: start as nat, end: end as nat, text: text@ },
            ),
            final(self).ctx == old(self).ctx,
            final(self).mappings@ == old(self).mappings@,
    {
        let ghost e = EditModel { start: start as nat, end: end as nat, text: text@ };
        let ghost edits0 = self.edits();
        let mut j: usize = 0;
        while j < self.changes.len()
            invariant
                0 <= j <= self.changes.len(),
                self.wf(),
                e == (EditModel { start: start as nat, end: end as nat, text: text@ }),
                edits0 == self.edits(),
                *self == *old(self),
                forall|k: int| 0 <= k < j ==> edits0[k] != e,
            decreases self.changes.len() - j,
        {
            if self.changes[j].start == start && self.changes[j].end == end && bytes_eq(
                &self.changes[j].text,
                &text,
            ) {
                proof {
                    assert(edits0[j as int] == self.changes@[j as int]@);
                    assert(edits0[j as int] == e);
                    assert(recorded(edits0, e));
                }
                return ;
            }
            proof {
                assert(edits0[j as int] == self.changes@[j as int]@);
            }
            j = j + 1;
        }
        proof {
            assert(!recorded(edits0, e));
        }
        let edit = Edit { start, end, text };
        self.changes.push(edit);
        proof {
            assert(self.edits() =~= record(edits0, e));
        }
    }

    /// Rewrite one identifier occurrence, if its name resolves.
    fn rewrite_name(&mut self, nm: &Name, private: bool)
        requires
            old(self).wf(),
        ensures
            final(self).wf(),
            final(self).edits() == rewrite_one(
                old(self).edits(),
                old(self).maps(),
                old(self).ctx.spec_stack(),
                *nm,
                private,
            ),
            final(self).ctx == old(self).ctx,
            final(self).mappings@ == old(self).mappings@,
    {
        let resolved = self.get_new_identifier(&nm.text);
        match resolved {
            Some(new_name) => {
                if private {
                    let mut text: Vec<u8> = Vec::new();
                    text.push(PRIVATE_SIGIL);
                    let mut i: usize = 0;
                    while i < new_name.len()
                        invariant
                            0 <= i <= new_name.len(),
                            text@ == seq![PRIVATE_SIGIL] + new_name@.subrange(0, i as int),
                        decreases new_name.len() - i,
                    {
                        text.push(new_name[i]);
                        proof {
                            assert(text@ =~= seq![PRIVATE_SIGIL] + new_name@.subrange(0, i + 1));
                        }
                        i = i + 1;
                    }
                    proof {
                        assert(new_name@.subrange(0, new_name@.len() as int) =~= new_name@);
                        assert(text@ == replacement_text(new_name@, private));
                    }
                    self.add_change(nm.span_start, nm.span_end, text);
                } else {
                    self.add_change(nm.span_start, nm.span_end, new_name);
                }
            },
            None => {},
        }
    }

    /// Rewrite every parameter name, in order.
    fn rewrite_param_names(&mut self, params: &Vec<Name>)
        requires
            old(self).wf(),
        ensures
            final(self).wf(),
            final(self).edits() == rewrite_params(
                old(self).edits(),
                old(self).maps(),
                old(self).ctx.spec_stack(),
                params@,
            ),
            final(self).ctx == old(self).ctx,
            final(self).mappings@ == old(self).mappings@,
    {
        let ghost stack = self.ctx.spec_stack();
        let ghost maps = self.maps();
        let ghost edits0 = self.edits();
        proof {
            assert(params@.subrange(0, params@.len() as int) =~= params@);
        }
        let mut i: usize = 0;
        while i < params.len()
            invariant
                0 <= i <= params.len(),
                self.wf(),
                self.ctx == old(self).ctx,
                self.mappings@ == old(self).mappings@,
                stack == self.ctx.spec_stack(),
                maps == self.maps(),
                rewrite_params(edits0, maps, stack, params@) == rewrite_params(
                    self.edits(),
                    maps,
                    stack,
                    params@.subrange(i as int, params@.len() as int),
                ),
            decreases params.len() - i,
        {
            let ghost pre = self.edits();
            let ghost rest = params@.subrange(i as int, params@.len() as int);
            self.rewrite_name(&params[i], false);
            proof {
                assert(rest[0] == params@[i as int]);
                assert(rest.subrange(1, rest.len() as int) =~= params@.subrange(
                    i + 1,
                    params@.len() as int,
                ));
            }
            i = i + 1;
        }
        proof {
            assert(params@.subrange(params@.len() as int, params@.len() as int)
                =~= Seq::<Name>::empty());
        }
    }

    /// Walk one node, recording its edits.
    pub fn visit_node(&mut self, n: &Node)
        requires
            old(self).wf(),
            old(self).ctx.scope_head + scope_count(*n) <= usize::MAX,
        ensures
            final(self).wf(),
            final(self).ctx.scope_stack@ == old(self).ctx.scope_stack@,
            final(self).mappings@ == old(self).mappings@,
            final(self).edits() == rename_node(
                *n,
                old(self).st(),
                old(self).ctx.spec_stack(),
                old(self).maps(),
            ).edits,
            final(self).ctx.scope_head as nat == rename_node(
                *n,
                old(self).st(),
                old(self).ctx.spec_stack(),
                old(self).maps(),
            ).head,
        decreases *n,
    {
        match n {
            Node::Function { name, params, body } => {
                if let Some(nm) = name {
                    self.rewrite_name(nm, false);
                }
                self.ctx.enter_scope();
                proof {
                    assert(self.ctx.spec_stack() =~= old(self).ctx.spec_stack().push(
                        self.ctx.scope_head as nat,
                    ));
                }
                self.rewrite_param_names(params);
                self.visit_nodes(body);
                self.ctx.leave_scope();
                proof {
                    assert(self.ctx.scope_stack@ =~= old(self).ctx.scope_stack@);
                }
            },
            Node::Arrow { params, body } => {
                self.ctx.enter_scope();
                proof {
                    assert(self.ctx.spec_stack() =~= old(self).ctx.spec_stack().push(
                        self.ctx.scope_head as nat,
                    ));
                }
                self.rewrite_param_names(params);
                self.visit_nodes(body);
                self.ctx.leave_scope();
                proof {
                    assert(self.ctx.scope_stack@ =~= old(self).ctx.scope_stack@);
                }
            },
            Node::Block { body } => {
                self.ctx.enter_scope();
                proof {
                    assert(self.ctx.spec_stack() =~= old(self).ctx.spec_stack().push(
                        self.ctx.scope_head as nat,
                    ));
                }
                self.visit_nodes(body);
                self.ctx.leave_scope();
                proof {
                    assert(self.ctx.scope_stack@ =~= old(self).ctx.scope_stack@);
                }
            },
            Node::Class { name, body } => {
                if let Some(nm) = name {
                    self.rewrite_name(nm, false);
                }
                self.ctx.enter_scope();
                proof {
                    assert(self.ctx.spec_stack() =~= old(self).ctx.spec_stack().push(
                        self.ctx.scope_head as nat,
                    ));
                }
                self.visit_nodes(body);
                self.ctx.leave_scope();
                proof {
                    assert(self.ctx.scope_stack@ =~= old(self).ctx.scope_stack@);
                }
            },
            Node::Method { name, is_private, params, body } => {
                self.rewrite_name(name, *is_private);
                self.ctx.enter_scope();
                proof {
                    assert(self.ctx.spec_stack() =~= old(self).ctx.spec_stack().push(
                        self.ctx.scope_head as nat,
                    ));
                }
                self.rewrite_param_names(params);
                self.visit_nodes(body);
                self.ctx.leave_scope();
                proof {
                    assert(self.ctx.scope_stack@ =~= old(self).ctx.scope_stack@);
                }
            },
            Node::Property { key, is_private, value } => {
                self.rewrite_name(key, *is_private);
                self.visit_nodes(value);
            },
            Node::ObjectLiteral { properties } => {
                self.ctx.enter_scope();
                proof {
                    assert(self.ctx.spec_stack() =~= old(self).ctx.spec_stack().push(
                        self.ctx.scope_head as nat,
                    ));
                }
                self.visit_nodes(properties);
                self.ctx.leave_scope();
                proof {
                    assert(self.ctx.scope_stack@ =~= old(self).ctx.scope_stack@);
                }
            },
            Node::VarDecl { name, init } => {
                self.rewrite_name(name, false);
                self.visit_nodes(init);
            },
            Node::ThisMember { name } => {
                self.rewrite_name(name, false);
            },
            Node::PrivateRef { name } => {
                self.rewrite_name(name, true);
            },
            Node::Ref { name } => {
                self.rewrite_name(name, false);
            },
            Node::Other { children } => {
                self.visit_nodes(children);
            },
        }
    }

    /// Walk a node list, left to right.
    pub fn visit_nodes(&mut self, ns: &Vec<Node>)
        requires
            old(self).wf(),
            old(self).ctx.scope_head + scope_count_nodes(ns@) <= usize::MAX,
        ensures
            final(self).wf(),
            final(self).ctx.scope_stack@ == old(self).ctx.scope_stack@,
            final(self).mappings@ == old(self).mappings@,
            final(self).edits() == rename_nodes(
                ns@,
                old(self).st(),
                old(self).ctx.spec_stack(),
                old(self).maps(),
            ).edits,
            final(self).ctx.scope_head as nat == rename_nodes(
                ns@,
                old(self).st(),
                old(self).ctx.spec_stack(),
                old(self).maps(),
            ).head,
        decreases *ns,
    {
        let ghost stack = self.ctx.spec_stack();
        let ghost maps = self.maps();
        let ghost st0 = self.st();
        proof {
            assert(ns@.subrange(0, ns@.len() as int) =~= ns@);
        }
        let mut i: usize = 0;
        while i < ns.len()
            invariant
                0 <= i <= ns.len(),
                self.wf(),
                self.ctx.scope_stack@ == old(self).ctx.scope_stack@,
                self.mappings@ == old(self).mappings@,
                stack == self.ctx.spec_stack(),
                maps == self.maps(),
                self.ctx.scope_head + scope_count_nodes(ns@.subrange(i as int, ns@.len() as int))
                    <= usize::MAX,
                rename_nodes(ns@, st0, stack, maps) == rename_nodes(
                    ns@.subrange(i as int, ns@.len() as int),
                    self.st(),
                    stack,
                    maps,
                ),
            decreases ns.len() - i,
        {
            let ghost pre = self.st();
            let ghost rest = ns@.subrange(i as int, ns@.len() as int);
            proof {
                assert(rest[0] == ns@[i as int]);
                assert(rest.subrange(1, rest.len() as int) =~= ns@.subrange(
                    i + 1,
                    ns@.len() as int,
                ));
                lemma_rename_node_head(ns@[i as int], pre, stack, maps);
            }
            self.visit_node(&ns[i]);
            i = i + 1;
        }
        proof {
            assert(ns@.subrange(ns@.len() as int, ns@.len() as int) =~= Seq::<Node>::empty());
        }
    }
}

/// Re-walk a whole file against the merged mappings and return the recorded
/// edits, in traversal order.
pub fn get_changes(program: &Vec<Node>, mappings: Vec<Mapping>) -> (r: Vec<Edit>)
    requires
        scope_count_nodes(program@) <= usize::MAX,
    ensures
        edit_models(r@) == rename_nodes(
            program@,
            RenameState { edits: Seq::empty(), head: 0 },
            seq![0nat],
            map_models(mappings@),
        ).edits,
{
    let mut renamer = Renamer::new(mappings);
    renamer.visit_nodes(program);
    renamer.changes
}

} // verus!
