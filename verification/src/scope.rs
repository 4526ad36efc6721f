//! The explicit scope context threaded through every traversal: a
//! monotonically increasing counter and a stack of open scope labels,
//! innermost last.  The root scope `0` is always open, so the labels of two
//! independent walks over structurally analogous trees line up exactly.

use vstd::prelude::*;

verus! {

/// Scope counter and stack of open scopes.  `scope_head` is the highest
/// label handed out so far; the stack always starts with the root label `0`.
#[derive(Debug, Clone)]
pub struct ScopeContext {
    pub scope_head: usize,
    pub scope_stack: Vec<usize>,
}

impl ScopeContext {
    /// The stack is non-empty, rooted at `0`, and never holds a label that
    /// was not yet handed out.
    pub open spec fn wf(&self) -> bool {
        &&& self.scope_stack@.len() >= 1
        &&& self.scope_stack@[0] == 0
        &&& forall|i: int|
            0 <= i < self.scope_stack@.len() ==> self.scope_stack@[i] <= self.scope_head
    }

    /// The innermost open scope.
    pub open spec fn spec_current(&self) -> nat
        recommends
            self.wf(),
    {
        self.scope_stack@.last() as nat
    }

    /// The open scopes as mathematical values, innermost last.
    pub open spec fn spec_stack(&self) -> Seq<nat> {
        self.scope_stack@.map_values(|x: usize| x as nat)
    }

    /// A fresh context: counter `0`, only the root scope open.
    pub fn new() -> (r: ScopeContext)
        ensures
            r.wf(),
            r.scope_head == 0,
            r.scope_stack@ == seq![0usize],
            r.spec_current() == 0,
    {
        let mut scope_stack: Vec<usize> = Vec::new();
        scope_stack.push(0);
        proof {
            assert(scope_stack@ =~= seq![0usize]);
        }
        ScopeContext { scope_head: 0, scope_stack }
    }

    /// Allocate the next label and open it as the current scope.
    pub fn enter_scope(&mut self)
        requires
            old(self).wf(),
            old(self).scope_head < usize::MAX,
        ensures
            final(self).wf(),
            final(self).scope_head == old(self).scope_head + 1,
            final(self).scope_stack@ == old(self).scope_stack@.push(
                (old(self).scope_head + 1) as usize,
            ),
            final(self).spec_current() == final(self).scope_head as nat,
    {
        self.scope_head = self.scope_head + 1;
        self.scope_stack.push(self.scope_head);
    }

    /// Close the current scope and restore its parent.
    pub fn leave_scope(&mut self)
        requires
            old(self).wf(),
            old(self).scope_stack@.len() >= 2,
        ensures
            final(self).wf(),
            final(self).scope_head == old(self).scope_head,
            final(self).scope_stack@ == old(self).scope_stack@.drop_last(),
    {
        self.scope_stack.pop();
    }

    /// The label of the innermost open scope.
    pub fn current(&self) -> (r: usize)
        requires
            self.wf(),
        ensures
            r as nat == self.spec_current(),
            r <= self.scope_head,
    {
        self.scope_stack[self.scope_stack.len() - 1]
    }
}

} // verus!
