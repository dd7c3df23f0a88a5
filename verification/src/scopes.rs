//! Borrow scopes of a word being lowered.
//!
//! Each scoped block opens a numbered scope.  Values borrowed inside it
//! carry its number, on the stack or in the locals they are bound to.  A
//! scope may close only when nothing carries its number any more; its
//! locals then die and the scope is left.
use vstd::prelude::*;

use crate::error::TcError;
use crate::types::Span;
use crate::value::{check_no_scoped_live, no_scoped_live, stack_view, Value, ValueView};

verus! {

/// Deepest nesting of open scopes.
pub const SCOPE_CAP: usize = 16;

/// Most locals a word may bind.
pub const LOCAL_CAP: usize = 64;

/// The scope bookkeeping: the next scope number, the open scopes
/// (innermost last), and for each local whether it is live and the scope
/// its value is bound to (0 for none).
pub struct Scopes {
    pub next_scope: u16,
    pub open: Vec<u16>,
    pub local_live: Vec<bool>,
    pub local_scoped: Vec<u16>,
}

/// The bookkeeping as plain values: next number, open scopes, liveness
/// and scope of each local.
pub type ScopesView = (u16, Seq<u16>, Seq<bool>, Seq<u16>);

impl View for Scopes {
    type V = ScopesView;

    open spec fn view(&self) -> ScopesView {
        (self.next_scope, self.open@, self.local_live@, self.local_scoped@)
    }
}

/// At most `SCOPE_CAP` open scopes, and one liveness flag and one scope
/// per local, for at most `LOCAL_CAP` locals.
pub open spec fn scopes_wf(v: ScopesView) -> bool {
    &&& v.1.len() <= SCOPE_CAP
    &&& v.2.len() == v.3.len()
    &&& v.3.len() <= LOCAL_CAP
}

/// The next number after `n`, wrapping.
pub open spec fn next_number(n: u16) -> u16 {
    if n == u16::MAX {
        0
    } else {
        (n + 1) as u16
    }
}

/// Opening a scope: refused when `SCOPE_CAP` scopes are open; otherwise
/// the next number is pushed and returned.
pub open spec fn spec_enter(v: ScopesView) -> (ScopesView, Option<u16>) {
    if v.1.len() >= SCOPE_CAP {
        (v, None)
    } else {
        ((next_number(v.0), v.1.push(v.0), v.2, v.3), Some(v.0))
    }
}

/// Leaving scope `id`: it is popped when it is the innermost open scope;
/// otherwise nothing changes.
pub open spec fn spec_leave(v: ScopesView, id: u16) -> ScopesView {
    if v.1.len() == 0 {
        v
    } else if v.1.last() == id {
        (v.0, v.1.drop_last(), v.2, v.3)
    } else {
        v
    }
}

/// Killing the locals bound to `scope`: each is no longer live and no
/// longer bound to a scope.
pub open spec fn spec_invalidate(v: ScopesView, scope: u16) -> ScopesView {
    (
        v.0,
        v.1,
        Seq::new(v.2.len(), |i: int| if v.3[i] == scope { false } else { v.2[i] }),
        Seq::new(v.3.len(), |i: int| if v.3[i] == scope { 0u16 } else { v.3[i] }),
    )
}

/// A live local is bound to `scope`.
pub open spec fn local_live_in(v: ScopesView, scope: u16) -> bool {
    exists|i: int| 0 <= i < v.3.len() && #[trigger] v.3[i] == scope && v.2[i]
}

/// A live local is bound to some scope.
pub open spec fn any_local_scoped(v: ScopesView) -> bool {
    exists|i: int| 0 <= i < v.3.len() && v.2[i] && #[trigger] v.3[i] != 0
}

/// A value on the stack carries `scope`.
pub open spec fn stack_in(s: Seq<ValueView>, scope: u16) -> bool {
    exists|i: int| 0 <= i < s.len() && (#[trigger] s[i] matches ValueView::Scoped(_, n) && n == scope)
}

impl Scopes {
    /// No scope open, numbering from 1, no locals.
    pub fn new() -> (s: Scopes)
        ensures
            s@ == (1u16, Seq::<u16>::empty(), Seq::<bool>::empty(), Seq::<u16>::empty()),
            scopes_wf(s@),
    {
        Scopes { next_scope: 1, open: Vec::new(), local_live: Vec::new(), local_scoped: Vec::new() }
    }

    /// Opens a scope (see `spec_enter`).
    pub fn enter_scope(&mut self) -> (r: Option<u16>)
        requires
            scopes_wf(old(self)@),
        ensures
            (final(self)@, r) == spec_enter(old(self)@),
            scopes_wf(final(self)@),
    {
        if self.open.len() >= SCOPE_CAP {
            return None;
        }
        let id = self.next_scope;
        self.next_scope = id.wrapping_add(1);
        self.open.push(id);
        Some(id)
    }

    /// Leaves scope `id` (see `spec_leave`).
    pub fn leave_scope(&mut self, id: u16)
        requires
            scopes_wf(old(self)@),
        ensures
            final(self)@ == spec_leave(old(self)@, id),
            scopes_wf(final(self)@),
    {
        let n = self.open.len();
        if n == 0 {
            return;
        }
        if self.open[n - 1] == id {
            self.open.pop();
        }
    }

    /// Whether a live local is bound to `scope`.
    pub fn local_has_scope_live(&self, scope: u16) -> (r: bool)
        requires
            scopes_wf(self@),
        ensures
            r == local_live_in(self@, scope),
    {
        let mut i: usize = 0;
        while i < self.local_scoped.len()
            invariant
                scopes_wf(self@),
                i <= self.local_scoped@.len(),
                forall|j: int| 0 <= j < i ==> !(#[trigger] self.local_scoped@[j] == scope && self.local_live@[j]),
            decreases self.local_scoped@.len() - i,
        {
            if self.local_scoped[i] == scope && self.local_live[i] {
                return true;
            }
            i += 1;
        }
        false
    }

    /// Kills the locals bound to `scope` (see `spec_invalidate`).
    pub fn invalidate_scope_locals(&mut self, scope: u16)
        requires
            scopes_wf(old(self)@),
        ensures
            final(self)@ == spec_invalidate(old(self)@, scope),
            scopes_wf(final(self)@),
            !local_live_in(final(self)@, scope),
    {
        let ghost v0 = self@;
        let mut i: usize = 0;
        while i < self.local_scoped.len()
            invariant
                scopes_wf(self@),
                self.next_scope == v0.0,
                self.open@ == v0.1,
                scopes_wf(v0),
                self.local_scoped@.len() == v0.3.len(),
                self.local_live@.len() == v0.3.len(),
                i <= v0.3.len(),
                forall|j: int| 0 <= j < i ==> self.local_scoped@[j] == spec_invalidate(v0, scope).3[j],
                forall|j: int| 0 <= j < i ==> self.local_live@[j] == spec_invalidate(v0, scope).2[j],
                forall|j: int| i <= j < v0.3.len() ==> self.local_scoped@[j] == v0.3[j],
                forall|j: int| i <= j < v0.3.len() ==> self.local_live@[j] == v0.2[j],
            decreases v0.3.len() - i,
        {
            if self.local_scoped[i] == scope {
                self.local_scoped.set(i, 0);
                self.local_live.set(i, false);
            }
            i += 1;
        }
        assert(self.local_scoped@ =~= spec_invalidate(v0, scope).3);
        assert(self.local_live@ =~= spec_invalidate(v0, scope).2);
        proof {
            let w = spec_invalidate(v0, scope);
            assert forall|j: int| 0 <= j < w.3.len() implies !(#[trigger] w.3[j] == scope && w.2[j]) by {
                if v0.3[j] == scope {
                } else {
                }
            }
        }
    }

    /// Whether anything still carries a scope: a scoped value on the stack
    /// or a live local bound to a scope.
    pub fn any_scoped_live(&self, stack: &[Value]) -> (r: bool)
        requires
            scopes_wf(self@),
        ensures
            r == (!no_scoped_live(stack_view(stack@)) || any_local_scoped(self@)),
    {
        if !check_no_scoped_live(stack) {
            return true;
        }
        let mut i: usize = 0;
        while i < self.local_scoped.len()
            invariant
                scopes_wf(self@),
                i <= self.local_scoped@.len(),
                forall|j: int| 0 <= j < i ==> !(self.local_live@[j] && #[trigger] self.local_scoped@[j] != 0),
            decreases self.local_scoped@.len() - i,
        {
            if self.local_live[i] && self.local_scoped[i] != 0 {
                return true;
            }
            i += 1;
        }
        false
    }

    /// Closes `scope`: refused with a borrow escape at `span` while a value
    /// on the stack or a live local still carries it.
    pub fn close_scope(&self, stack: &[Value], scope: u16, span: Span) -> (r: Result<(), TcError>)
        requires
            scopes_wf(self@),
        ensures
            r == (if stack_in(stack_view(stack@), scope) || local_live_in(self@, scope) {
                Err::<(), TcError>(TcError::BorrowEscape { span })
            } else {
                Ok(())
            }),
    {
        if stack_has_scope(stack, scope) || self.local_has_scope_live(scope) {
            return Err(TcError::BorrowEscape { span });
        }
        Ok(())
    }
}

/// Whether a value on the stack carries `scope`.
pub fn stack_has_scope(stack: &[Value], scope: u16) -> (r: bool)
    ensures
        r == stack_in(stack_view(stack@), scope),
{
    let mut i: usize = 0;
    while i < stack.len()
        invariant
            i <= stack@.len(),
            forall|j: int| 0 <= j < i ==> !(#[trigger] stack_view(stack@)[j] matches ValueView::Scoped(_, n) && n == scope),
        decreases stack@.len() - i,
    {
        match &stack[i] {
            Value::Scoped { scope: s, .. } => {
                if *s == scope {
                    assert(stack_view(stack@)[i as int] == stack@[i as int]@);
                    return true;
                }
            },
            _ => {},
        }
        assert(stack_view(stack@)[i as int] == stack@[i as int]@);
        i += 1;
    }
    false
}

/// A scoped block opened, closed, its locals killed and left, gives back
/// the open scopes it started with, and no live local is bound to it any
/// more.
pub proof fn lemma_scope_round_trip(v: ScopesView)
    requires
        scopes_wf(v),
        spec_enter(v).1 is Some,
    ensures
        ({
            let (v1, id) = spec_enter(v);
            let v2 = spec_leave(spec_invalidate(v1, id->0), id->0);
            &&& v2.1 == v.1
            &&& v2.0 == next_number(v.0)
            &&& !local_live_in(v2, id->0)
        }),
{
    let (v1, id) = spec_enter(v);
    let w = spec_invalidate(v1, id->0);
    assert(w.1.last() == id->0);
    assert(w.1.drop_last() =~= v.1);
    let v2 = spec_leave(w, id->0);
    assert forall|j: int| 0 <= j < v2.3.len() implies !(#[trigger] v2.3[j] == id->0 && v2.2[j]) by {
        if v1.3[j] == id->0 {
        } else {
        }
    }
}

} // verus!
