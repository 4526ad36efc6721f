//! The per-file operations the command surface is built from: deriving the
//! mappings for one file pair (`create`) and regenerating a file from its
//! mappings (`generate`).  Both take plain values: the caller parses the
//! file and walks it where needed.

use vstd::prelude::*;

use crate::differ::{
    check_identifiers, compare_identifiers, only_in, pair_identifiers, pair_models, sort_by_id,
};
use crate::renamer::{
    find_mapping, get_changes, rename_node, rename_nodes, resolve, rewrite_one, rewrite_params,
    RenameState,
};
use crate::rewrite::{apply_changes, edits_wf, spec_apply};
use crate::store::{merge_mappings, merge_spec};
use crate::tree::{scope_count_nodes, Name, Node};
use crate::types::{
    ident_models, map_models, DiffError, EditModel, Identifier, MapModel, Mapping,
};

verus! {

/// Derive the rename mappings for one file pair and merge them into the
/// loaded artifact.  The remainders of the key comparison must pair up
/// positionally; otherwise the file pair is rejected with the reason.
pub fn create_mappings(
    original_ids: &Vec<Identifier>,
    modified_ids: &Vec<Identifier>,
    existing: Vec<Mapping>,
) -> (r: Result<Vec<Mapping>, DiffError>)
    ensures
        ({
            let oa = sort_by_id(only_in(ident_models(original_ids@), ident_models(modified_ids@)));
            let ob = sort_by_id(only_in(ident_models(modified_ids@), ident_models(original_ids@)));
            &&& (r is Ok <==> oa.len() == ob.len() && (forall|i: int|
                0 <= i < oa.len() ==> #[trigger] oa[i].scope_id == ob[i].scope_id))
            &&& (r matches Ok(out) ==> map_models(out@) == merge_spec(
                map_models(existing@),
                pair_models(oa, ob),
            ))
            &&& (r matches Err(DiffError::CountMismatch { left, right }) ==> left == oa.len()
                && right == ob.len() && oa.len() != ob.len())
            &&& (r matches Err(DiffError::ScopeMismatch { index, left, right }) ==> oa.len()
                == ob.len() && 0 <= index < oa.len() && left@ == oa[index as int] && right@
                == ob[index as int] && left@.scope_id != right@.scope_id)
        }),
{
    let ghost oa = sort_by_id(only_in(ident_models(original_ids@), ident_models(modified_ids@)));
    let ghost ob = sort_by_id(only_in(ident_models(modified_ids@), ident_models(original_ids@)));
    let (only_original, only_modified) = compare_identifiers(original_ids, modified_ids);
    proof {
        assert(only_original@.len() == oa.len());
        assert(only_modified@.len() == ob.len());
        assert forall|i: int| 0 <= i < oa.len() implies (#[trigger] oa[i]) == only_original@[i]@
            by {}
        assert forall|i: int| 0 <= i < ob.len() implies (#[trigger] ob[i]) == only_modified@[i]@
            by {}
        assert forall|i: int| 0 <= i < only_original@.len() implies (#[trigger] only_original@[i]@)
            == oa[i] by {}
        assert forall|i: int| 0 <= i < only_modified@.len() implies (#[trigger] only_modified@[i]@)
            == ob[i] by {}
    }
    match check_identifiers(&only_original, &only_modified) {
        Ok(()) => {
            proof {
                assert(oa.len() == ob.len());
                assert forall|i: int| 0 <= i < oa.len() implies #[trigger] oa[i].scope_id
                    == ob[i].scope_id by {
                    assert(only_original@[i]@.scope_id == only_modified@[i]@.scope_id);
                }
            }
            let candidates = pair_identifiers(&only_original, &only_modified);
            Ok(merge_mappings(existing, &candidates))
        },
        Err(e) => {
            proof {
                match &e {
                    DiffError::CountMismatch { left, right } => {
                        assert(*left == oa.len() && *right == ob.len() && oa.len() != ob.len());
                    },
                    DiffError::ScopeMismatch { index, left, right } => {
                        assert(left@ == only_original@[*index as int]@);
                        assert(left@ == oa[*index as int]);
                        assert(right@ == ob[*index as int]);
                        assert(oa[*index as int].scope_id != ob[*index as int].scope_id);
                    },
                }
            }
            Err(e)
        },
    }
}

/// Regenerate one file: re-walk the tree against the merged mappings and
/// apply the recorded edits to the original text.  Succeeds exactly when
/// the recorded edits land in ascending, non-overlapping order.
pub fn generate_text(program: &Vec<Node>, source_text: &Vec<u8>, mappings: Vec<Mapping>) -> (r:
    Option<Vec<u8>>)
    requires
        scope_count_nodes(program@) <= usize::MAX,
    ensures
        ({
            let edits = rename_nodes(
                program@,
                RenameState { edits: Seq::empty(), head: 0 },
                seq![0nat],
                map_models(mappings@),
            ).edits;
            &&& (r is Some <==> edits_wf(edits, 0, source_text@.len()))
            &&& (r matches Some(out) ==> out@ == spec_apply(source_text@, edits, 0))
        }),
{
    let changes = get_changes(program, mappings);
    apply_changes(source_text, &changes)
}

/// Nothing resolves against an empty mapping set.
proof fn lemma_resolve_empty(stack: Seq<nat>, name: Seq<u8>)
    ensures
        resolve(stack, Seq::empty(), name) is None,
    decreases stack.len(),
{
    if stack.len() > 0 {
        assert(find_mapping(Seq::empty(), name, stack.last()) is None);
        lemma_resolve_empty(stack.drop_last(), name);
    }
}

/// With no mappings, a parameter list records no edits.
proof fn lemma_rewrite_params_empty(edits: Seq<EditModel>, stack: Seq<nat>, params: Seq<Name>)
    ensures
        rewrite_params(edits, Seq::empty(), stack, params) == edits,
    decreases params.len(),
{
    if params.len() > 0 {
        lemma_resolve_empty(stack, params[0].text@);
        lemma_rewrite_params_empty(edits, stack, params.subrange(1, params.len() as int));
    }
}

/// With no mappings, the renaming walk of one node records no edits.
proof fn lemma_rename_node_empty(n: Node, st: RenameState, stack: Seq<nat>)
    ensures
        rename_node(n, st, stack, Seq::empty()).edits == st.edits,
    decreases n,
{
    let maps = Seq::<MapModel>::empty();
    match n {
        Node::Function { name, params, body } => {
            if let Some(nm) = name {
                lemma_resolve_empty(stack, nm.text@);
            }
            let s = (st.head + 1) as nat;
            let stack2 = stack.push(s);
            lemma_rewrite_params_empty(st.edits, stack2, params@);
            lemma_rename_nodes_empty(
                body@,
                RenameState { edits: rewrite_params(st.edits, maps, stack2, params@), head: s },
                stack2,
            );
        },
        Node::Arrow { params, body } => {
            let s = (st.head + 1) as nat;
            let stack2 = stack.push(s);
            lemma_rewrite_params_empty(st.edits, stack2, params@);
            lemma_rename_nodes_empty(
                body@,
                RenameState { edits: rewrite_params(st.edits, maps, stack2, params@), head: s },
                stack2,
            );
        },
        Node::Block { body } => {
            let s = (st.head + 1) as nat;
            lemma_rename_nodes_empty(body@, RenameState { edits: st.edits, head: s }, stack.push(s));
        },
        Node::Class { name, body } => {
            if let Some(nm) = name {
                lemma_resolve_empty(stack, nm.text@);
            }
            let e1 = match name {
                Some(nm) => rewrite_one(st.edits, maps, stack, nm, false),
                None => st.edits,
            };
            let s = (st.head + 1) as nat;
            lemma_rename_nodes_empty(body@, RenameState { edits: e1, head: s }, stack.push(s));
        },
        Node::Method { name, is_private, params, body } => {
            lemma_resolve_empty(stack, name.text@);
            let e1 = rewrite_one(st.edits, maps, stack, name, is_private);
            let s = (st.head + 1) as nat;
            let stack2 = stack.push(s);
            lemma_rewrite_params_empty(e1, stack2, params@);
            lemma_rename_nodes_empty(
                body@,
                RenameState { edits: rewrite_params(e1, maps, stack2, params@), head: s },
                stack2,
            );
        },
        Node::Property { key, is_private, value } => {
            lemma_resolve_empty(stack, key.text@);
            lemma_rename_nodes_empty(
                value@,
                RenameState { edits: rewrite_one(st.edits, maps, stack, key, is_private), head: st.head },
                stack,
            );
        },
        Node::ObjectLiteral { properties } => {
            let s = (st.head + 1) as nat;
            lemma_rename_nodes_empty(
                properties@,
                RenameState { edits: st.edits, head: s },
                stack.push(s),
            );
        },
        Node::VarDecl { name, init } => {
            lemma_resolve_empty(stack, name.text@);
            lemma_rename_nodes_empty(
                init@,
                RenameState { edits: rewrite_one(st.edits, maps, stack, name, false), head: st.head },
                stack,
            );
        },
        Node::ThisMember { name } => {
            lemma_resolve_empty(stack, name.text@);
        },
        Node::PrivateRef { name } => {
            lemma_resolve_empty(stack, name.text@);
        },
        Node::Ref { name } => {
            lemma_resolve_empty(stack, name.text@);
        },
        Node::Other { children } => {
            lemma_rename_nodes_empty(children@, st, stack);
        },
    }
}

/// List form of [`lemma_rename_node_empty`].
proof fn lemma_rename_nodes_empty(ns: Seq<Node>, st: RenameState, stack: Seq<nat>)
    ensures
        rename_nodes(ns, st, stack, Seq::empty()).edits == st.edits,
    decreases ns,
{
    if ns.len() > 0 {
        lemma_rename_node_empty(ns[0], st, stack);
        let st2 = rename_node(ns[0], st, stack, Seq::empty());
        lemma_rename_nodes_empty(ns.subrange(1, ns.len() as int), st2, stack);
    }
}

/// The identity instance of the round trip: regenerating a file against an
/// empty mapping set records no edits and reproduces the original text byte
/// for byte.
pub proof fn lemma_generate_identity(ns: Seq<Node>, src: Seq<u8>)
    ensures
        rename_nodes(ns, RenameState { edits: Seq::empty(), head: 0 }, seq![0nat], Seq::empty()).edits
            == Seq::<EditModel>::empty(),
        spec_apply(
            src,
            rename_nodes(
                ns,
                RenameState { edits: Seq::empty(), head: 0 },
                seq![0nat],
                Seq::empty(),
            ).edits,
            0,
        ) == src,
{
    lemma_rename_nodes_empty(ns, RenameState { edits: Seq::empty(), head: 0 }, seq![0nat]);
    crate::rewrite::lemma_apply_empty(src);
}

} // verus!
