//! Tagged-variant model of the parsed syntax tree.
//!
//! The parser collaborator reduces a source file to this shape: only the
//! constructs that open lexical scopes or bear identifiers are distinguished;
//! everything else is folded into [`Node::Other`], which keeps the traversal
//! order of its children.  Every identifier occurrence carries the byte span
//! it occupies in the original text.

use vstd::prelude::*;

verus! {

/// One identifier occurrence: its bytes and the byte range `[span_start,
/// span_end)` it occupies in the original source text.  For a private name
/// the span covers the `#` sigil while `text` holds the bare name.
#[derive(Debug, Clone)]
pub struct Name {
    pub text: Vec<u8>,
    pub span_start: usize,
    pub span_end: usize,
}

/// A syntax-tree node.  Variants that open a lexical scope are the function
/// body, arrow function, block, class body and (synthetically) the object
/// literal.
#[derive(Debug)]
pub enum Node {
    /// A function; its own name, if any, belongs to the enclosing scope while
    /// parameters and body live in the function's fresh scope.
    Function { name: Option<Name>, params: Vec<Name>, body: Vec<Node> },
    /// An arrow function: parameters and body in a fresh scope.
    Arrow { params: Vec<Name>, body: Vec<Node> },
    /// A braced block opening a fresh scope.
    Block { body: Vec<Node> },
    /// A class; its name belongs to the enclosing scope, its body opens the
    /// class-body scope.
    Class { name: Option<Name>, body: Vec<Node> },
    /// A method definition inside a class body or object literal: the name is
    /// emitted in the current scope, parameters and body in a fresh scope.
    Method { name: Name, is_private: bool, params: Vec<Name>, body: Vec<Node> },
    /// A property definition or object-literal property: the key is emitted
    /// in the current scope and the value does not open a scope.
    Property { key: Name, is_private: bool, value: Vec<Node> },
    /// An object literal, treated as opening a synthetic scope.
    ObjectLiteral { properties: Vec<Node> },
    /// A variable-declarator binding and its initialiser.
    VarDecl { name: Name, init: Vec<Node> },
    /// A `this.<name>` member access.
    ThisMember { name: Name },
    /// A `#name` private-field reference.
    PrivateRef { name: Name },
    /// A plain identifier reference or binding occurrence.
    Ref { name: Name },
    /// Any other construct: only its children matter, in source order.
    Other { children: Vec<Node> },
}

/// How many lexical scopes a walk of `n` opens.
pub open spec fn scope_count(n: Node) -> nat
    decreases n,
{
    match n {
        Node::Function { name, params, body } => 1 + scope_count_nodes(body@),
        Node::Arrow { params, body } => 1 + scope_count_nodes(body@),
        Node::Block { body } => 1 + scope_count_nodes(body@),
        Node::Class { name, body } => 1 + scope_count_nodes(body@),
        Node::Method { name, is_private, params, body } => 1 + scope_count_nodes(body@),
        Node::Property { key, is_private, value } => scope_count_nodes(value@),
        Node::ObjectLiteral { properties } => 1 + scope_count_nodes(properties@),
        Node::VarDecl { name, init } => scope_count_nodes(init@),
        Node::ThisMember { name } => 0,
        Node::PrivateRef { name } => 0,
        Node::Ref { name } => 0,
        Node::Other { children } => scope_count_nodes(children@),
    }
}

/// How many lexical scopes a walk of the node list opens.
pub open spec fn scope_count_nodes(ns: Seq<Node>) -> nat
    decreases ns,
{
    if ns.len() == 0 {
        0
    } else {
        scope_count(ns[0]) + scope_count_nodes(ns.subrange(1, ns.len() as int))
    }
}

/// Count the scopes a walk of `n` opens, or report that the count does not
/// fit the machine word (the bound every walk entry point asks for).
pub fn count_scopes_node(n: &Node) -> (r: Option<usize>)
    ensures
        r matches Some(c) ==> c as nat == scope_count(*n),
        r is None ==> scope_count(*n) > usize::MAX,
    decreases *n,
{
    match n {
        Node::Function { name, params, body } => add_one(count_scopes(body)),
        Node::Arrow { params, body } => add_one(count_scopes(body)),
        Node::Block { body } => add_one(count_scopes(body)),
        Node::Class { name, body } => add_one(count_scopes(body)),
        Node::Method { name, is_private, params, body } => add_one(count_scopes(body)),
        Node::Property { key, is_private, value } => count_scopes(value),
        Node::ObjectLiteral { properties } => add_one(count_scopes(properties)),
        Node::VarDecl { name, init } => count_scopes(init),
        Node::ThisMember { name } => Some(0),
        Node::PrivateRef { name } => Some(0),
        Node::Ref { name } => Some(0),
        Node::Other { children } => count_scopes(children),
    }
}

/// One more scope than the subtree opens, if that still fits.
fn add_one(r: Option<usize>) -> (out: Option<usize>)
    ensures
        out matches Some(c) ==> (r matches Some(b) && c == b + 1),
        out is None ==> (r is None || (r matches Some(b) && b == usize::MAX)),
{
    match r {
        Some(c) => {
            if c < usize::MAX {
                Some(c + 1)
            } else {
                None
            }
        },
        None => None,
    }
}

/// Count the scopes a walk of the node list opens, or report that the count
/// does not fit the machine word.
pub fn count_scopes(ns: &Vec<Node>) -> (r: Option<usize>)
    ensures
        r matches Some(c) ==> c as nat == scope_count_nodes(ns@),
        r is None ==> scope_count_nodes(ns@) > usize::MAX,
    decreases *ns,
{
    let mut total: usize = 0;
    proof {
        assert(ns@.subrange(0, ns@.len() as int) =~= ns@);
    }
    let mut i: usize = 0;
    while i < ns.len()
        invariant
            0 <= i <= ns@.len(),
            scope_count_nodes(ns@) == total + scope_count_nodes(
                ns@.subrange(i as int, ns@.len() as int),
            ),
        decreases ns@.len() - i,
    {
        let ghost rest = ns@.subrange(i as int, ns@.len() as int);
        proof {
            assert(rest[0] == ns@[i as int]);
            assert(rest.subrange(1, rest.len() as int) =~= ns@.subrange(i + 1, ns@.len() as int));
        }
        match count_scopes_node(&ns[i]) {
            Some(c) => {
                if total <= usize::MAX - c {
                    total = total + c;
                } else {
                    return None;
                }
            },
            None => {
                return None;
            },
        }
        i = i + 1;
    }
    proof {
        assert(ns@.subrange(ns@.len() as int, ns@.len() as int) =~= Seq::<Node>::empty());
    }
    Some(total)
}

} // verus!
