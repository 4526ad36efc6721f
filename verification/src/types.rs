//! Core data model: scoped identifiers, rename mappings, and the errors the
//! pipeline can report.
//!
//! Identifier names and file paths are held as raw bytes (`Vec<u8>`), matching
//! the byte-offset spans into the original source text that the rename engine
//! rewrites.

use vstd::prelude::*;

verus! {

/// Mathematical model of an [`Identifier`].
pub ghost struct IdentModel {
    pub name: Seq<u8>,
    pub scope_id: nat,
    pub id: nat,
}

/// A named declaration or reference occurrence, tagged with the flat lexical
/// scope label it was seen in and its 0-based position in the walk's emission
/// order (`id`, the sequence id used as the sole tie-break for pairing).
#[derive(Debug, Clone, PartialEq, Eq, Hash)]
pub struct Identifier {
    pub name: Vec<u8>,
    pub scope_id: usize,
    pub id: usize,
}

impl View for Identifier {
    type V = IdentModel;

    open spec fn view(&self) -> IdentModel {
        IdentModel { name: self.name@, scope_id: self.scope_id as nat, id: self.id as nat }
    }
}

/// The syntactic role a mapped identifier was declared in.  The field is
/// optional in persisted artifacts; readers treat a missing value as unknown.
#[derive(Debug, Clone, Copy, PartialEq, Eq, Structural)]
pub enum DeclarationKind {
    Variable,
    Function,
    FunctionParameter,
    ArrowParameter,
    Class,
    Method,
    MethodParameter,
    Property,
}

/// Mathematical model of a [`Mapping`].
pub ghost struct MapModel {
    pub original: IdentModel,
    pub modified: IdentModel,
    pub declaration_kind: Option<DeclarationKind>,
}

/// A persisted rename pairing: `original` is renamed to `modified.name`.
#[derive(Debug, Clone)]
pub struct Mapping {
    pub original: Identifier,
    pub modified: Identifier,
    pub declaration_kind: Option<DeclarationKind>,
}

impl View for Mapping {
    type V = MapModel;

    open spec fn view(&self) -> MapModel {
        MapModel {
            original: self.original@,
            modified: self.modified@,
            declaration_kind: self.declaration_kind,
        }
    }
}

/// Two identifiers denote the same mapping key when their name and scope
/// label agree; the sequence id is ignored.
pub open spec fn same_key(a: IdentModel, b: IdentModel) -> bool {
    a.name == b.name && a.scope_id == b.scope_id
}

/// Model of a sequence of identifiers.
pub open spec fn ident_models(s: Seq<Identifier>) -> Seq<IdentModel> {
    s.map_values(|x: Identifier| x@)
}

/// Model of a sequence of mappings.
pub open spec fn map_models(s: Seq<Mapping>) -> Seq<MapModel> {
    s.map_values(|x: Mapping| x@)
}

/// Mathematical model of a mapping artifact: the identity it is reported
/// under and its mappings.
pub ghost struct ArtifactModel {
    pub name: Seq<u8>,
    pub maps: Seq<MapModel>,
}

/// Mathematical model of an [`Edit`].
pub ghost struct EditModel {
    pub start: nat,
    pub end: nat,
    pub text: Seq<u8>,
}

/// One recorded rewrite: the byte range `[start, end)` of the *original*
/// text is replaced by `text`.
#[derive(Debug, Clone)]
pub struct Edit {
    pub start: usize,
    pub end: usize,
    pub text: Vec<u8>,
}

impl View for Edit {
    type V = EditModel;

    open spec fn view(&self) -> EditModel {
        EditModel { start: self.start as nat, end: self.end as nat, text: self.text@ }
    }
}

/// Model of a sequence of edits.
pub open spec fn edit_models(s: Seq<Edit>) -> Seq<EditModel> {
    s.map_values(|x: Edit| x@)
}

/// Why a file pair could not be positionally diffed.
#[derive(Debug, Clone)]
pub enum DiffError {
    /// The two identifier lists have different lengths.
    CountMismatch { left: usize, right: usize },
    /// At `index` the two lists disagree on the scope label.
    ScopeMismatch { index: usize, left: Identifier, right: Identifier },
}

/// Byte-wise equality of two names.
pub fn bytes_eq(a: &Vec<u8>, b: &Vec<u8>) -> (r: bool)
    ensures
        r == (a@ == b@),
{
    if a.len() != b.len() {
        return false;
    }
    let mut i: usize = 0;
    while i < a.len()
        invariant
            0 <= i <= a.len(),
            a.len() == b.len(),
            forall|j: int| 0 <= j < i ==> a@[j] == b@[j],
        decreases a.len() - i,
    {
        if a[i] != b[i] {
            return false;
        }
        i = i + 1;
    }
    proof {
        assert(a@ =~= b@);
    }
    true
}

/// Byte-for-byte copy of a name.
pub fn copy_bytes(a: &Vec<u8>) -> (r: Vec<u8>)
    ensures
        r@ == a@,
{
    let mut r: Vec<u8> = Vec::new();
    let mut i: usize = 0;
    while i < a.len()
        invariant
            0 <= i <= a.len(),
            r@ == a@.subrange(0, i as int),
        decreases a.len() - i,
    {
        r.push(a[i]);
        proof {
            assert(r@ =~= a@.subrange(0, i + 1));
        }
        i = i + 1;
    }
    proof {
        assert(a@.subrange(0, a@.len() as int) =~= a@);
    }
    r
}

impl Identifier {
    /// A copy whose model is identical.
    pub fn duplicate(&self) -> (r: Identifier)
        ensures
            r@ == self@,
    {
        Identifier { name: copy_bytes(&self.name), scope_id: self.scope_id, id: self.id }
    }

    /// Whether `self` and `other` share the mapping key `(name, scope_id)`.
    pub fn keys_match(&self, other: &Identifier) -> (r: bool)
        ensures
            r == same_key(self@, other@),
    {
        self.scope_id == other.scope_id && bytes_eq(&self.name, &other.name)
    }
}

impl Mapping {
    /// A copy whose model is identical.
    pub fn duplicate(&self) -> (r: Mapping)
        ensures
            r@ == self@,
    {
        Mapping {
            original: self.original.duplicate(),
            modified: self.modified.duplicate(),
            declaration_kind: self.declaration_kind,
        }
    }
}

} // verus!
