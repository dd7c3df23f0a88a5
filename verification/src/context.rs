//! The context stack: the ambient capability/effect fold used while
//! checking.  Each scope boundary pushes a frame; the ambient state is the
//! union of the grants and forbids of every enclosing frame.
use vstd::prelude::*;

use crate::effects::{CapSet, EffectSet};
use crate::error::TcError;
use crate::types::{Span, TypeAtom};

verus! {

/// The kind of a context frame.
#[derive(Clone, Copy, Debug, PartialEq, Eq, Structural)]
pub enum ContextKind {
    WordBody,
    Lock,
    ReadBorrow,
    MutBorrow,
    Isr,
    Handler,
    Bounded,
}

/// Parameter carried by a context frame.
#[derive(Clone, Copy, Debug, PartialEq, Eq)]
pub enum FrameParam {
    NoParam,
    Scope(u16),
    Resource(TypeAtom),
}

/// One row of the context matrix: what a context kind grants and forbids.
#[derive(Clone, Copy, Debug)]
pub struct MatrixRow {
    pub kind: ContextKind,
    pub grants: CapSet,
    pub forbids: EffectSet,
    pub conditional_suspend: bool,
}

/// Capabilities a context of `kind` grants.
pub open spec fn row_grants(kind: ContextKind) -> u32 {
    match kind {
        ContextKind::WordBody => CapSet::SUSPENDABLE,
        ContextKind::Handler => CapSet::SUSPENDABLE,
        ContextKind::Bounded => CapSet::BOUNDED_STACK,
        _ => 0,
    }
}

/// Effects a context of `kind` forbids.
pub open spec fn row_forbids(kind: ContextKind) -> u32 {
    match kind {
        ContextKind::Lock => EffectSet::SUSPEND,
        ContextKind::MutBorrow => EffectSet::SUSPEND,
        ContextKind::Isr => EffectSet::SUSPEND,
        ContextKind::Bounded => EffectSet::DIVERGE,
        _ => 0,
    }
}

/// Whether suspension inside a context of `kind` depends on what is borrowed.
pub open spec fn row_conditional(kind: ContextKind) -> bool {
    kind == ContextKind::ReadBorrow
}

/// The matrix row for `kind`, as a value.
pub open spec fn spec_row(kind: ContextKind) -> (ContextKind, u32, u32, bool) {
    (kind, row_grants(kind), row_forbids(kind), row_conditional(kind))
}

/// The kinds in matrix order.
pub open spec fn matrix_kinds() -> Seq<ContextKind> {
    seq![
        ContextKind::WordBody,
        ContextKind::Lock,
        ContextKind::ReadBorrow,
        ContextKind::MutBorrow,
        ContextKind::Isr,
        ContextKind::Handler,
        ContextKind::Bounded,
    ]
}

impl MatrixRow {
    pub open spec fn as_spec(self) -> (ContextKind, u32, u32, bool) {
        (self.kind, self.grants@, self.forbids@, self.conditional_suspend)
    }
}

/// The row of the context matrix for `kind`.
pub fn row(kind: ContextKind) -> (r: MatrixRow)
    ensures
        r.as_spec() == spec_row(kind),
{
    match kind {
        ContextKind::WordBody => MatrixRow {
            kind,
            grants: CapSet::from_bits(CapSet::SUSPENDABLE),
            forbids: EffectSet::empty(),
            conditional_suspend: false,
        },
        ContextKind::Lock => MatrixRow {
            kind,
            grants: CapSet::empty(),
            forbids: EffectSet::from_bits(EffectSet::SUSPEND),
            conditional_suspend: false,
        },
        ContextKind::ReadBorrow => MatrixRow {
            kind,
            grants: CapSet::empty(),
            forbids: EffectSet::empty(),
            conditional_suspend: true,
        },
        ContextKind::MutBorrow => MatrixRow {
            kind,
            grants: CapSet::empty(),
            forbids: EffectSet::from_bits(EffectSet::SUSPEND),
            conditional_suspend: false,
        },
        ContextKind::Isr => MatrixRow {
            kind,
            grants: CapSet::empty(),
            forbids: EffectSet::from_bits(EffectSet::SUSPEND),
            conditional_suspend: false,
        },
        ContextKind::Handler => MatrixRow {
            kind,
            grants: CapSet::from_bits(CapSet::SUSPENDABLE),
            forbids: EffectSet::empty(),
            conditional_suspend: false,
        },
        ContextKind::Bounded => MatrixRow {
            kind,
            grants: CapSet::from_bits(CapSet::BOUNDED_STACK),
            forbids: EffectSet::from_bits(EffectSet::DIVERGE),
            conditional_suspend: false,
        },
    }
}

/// The context matrix, one row per context kind, in the order of
/// `matrix_kinds`.
pub fn matrix() -> (m: Vec<MatrixRow>)
    ensures
        m@.len() == matrix_kinds().len(),
        forall|i: int| 0 <= i < m@.len() ==> #[trigger] m@[i].as_spec() == spec_row(matrix_kinds()[i]),
{
    let mut m: Vec<MatrixRow> = Vec::new();
    m.push(row(ContextKind::WordBody));
    m.push(row(ContextKind::Lock));
    m.push(row(ContextKind::ReadBorrow));
    m.push(row(ContextKind::MutBorrow));
    m.push(row(ContextKind::Isr));
    m.push(row(ContextKind::Handler));
    m.push(row(ContextKind::Bounded));
    m
}

/// Every context kind has exactly one row in the matrix.
pub proof fn lemma_matrix_rows_distinct()
    ensures
        forall|i: int, j: int|
            0 <= i < j < matrix_kinds().len() ==> matrix_kinds()[i] != matrix_kinds()[j],
        forall|k: ContextKind| #[trigger] matrix_kinds().contains(k),
{
    assert forall|k: ContextKind| #[trigger] matrix_kinds().contains(k) by {
        match k {
            ContextKind::WordBody => assert(matrix_kinds()[0] == k),
            ContextKind::Lock => assert(matrix_kinds()[1] == k),
            ContextKind::ReadBorrow => assert(matrix_kinds()[2] == k),
            ContextKind::MutBorrow => assert(matrix_kinds()[3] == k),
            ContextKind::Isr => assert(matrix_kinds()[4] == k),
            ContextKind::Handler => assert(matrix_kinds()[5] == k),
            ContextKind::Bounded => assert(matrix_kinds()[6] == k),
        }
    }
}

/// Most frames the context stack holds.
pub const MAX_CONTEXT_DEPTH: u8 = 16;

/// A single context frame on the stack.
#[derive(Clone, Copy, Debug)]
pub struct ContextFrame {
    pub kind: ContextKind,
    pub grants: CapSet,
    pub forbids: EffectSet,
    pub param: FrameParam,
    pub span: Span,
}

impl ContextFrame {
    /// The scope id carried by a borrow frame.
    pub fn scope(&self) -> (r: Option<u16>)
        ensures
            r == (match self.param {
                FrameParam::Scope(s) => Some(s),
                _ => None,
            }),
    {
        match self.param {
            FrameParam::Scope(s) => Some(s),
            _ => None,
        }
    }

    /// The resource carried by a lock frame.
    pub fn resource(&self) -> (r: Option<TypeAtom>)
        ensures
            r == (match self.param {
                FrameParam::Resource(a) => Some(a),
                _ => None,
            }),
    {
        match self.param {
            FrameParam::Resource(a) => Some(a),
            _ => None,
        }
    }
}

/// Union of the grants of `frames`.
pub open spec fn fold_grants(frames: Seq<ContextFrame>) -> u32
    decreases frames.len(),
{
    if frames.len() == 0 {
        0
    } else {
        fold_grants(frames.drop_last()) | frames.last().grants@
    }
}

/// Union of the forbids of `frames`.
pub open spec fn fold_forbids(frames: Seq<ContextFrame>) -> u32
    decreases frames.len(),
{
    if frames.len() == 0 {
        0
    } else {
        fold_forbids(frames.drop_last()) | frames.last().forbids@
    }
}

/// The frame `push(kind, param, span)` puts on the stack.
pub open spec fn frame_for(f: ContextFrame, kind: ContextKind, param: FrameParam, span: Span) -> bool {
    &&& f.kind == kind
    &&& f.grants@ == row_grants(kind)
    &&& f.forbids@ == row_forbids(kind)
    &&& f.param == param
    &&& f.span == span
}

/// Index of the innermost frame of `kind`.
pub open spec fn innermost_of_kind(frames: Seq<ContextFrame>, kind: ContextKind) -> Option<int>
    decreases frames.len(),
{
    if frames.len() == 0 {
        None
    } else if frames.last().kind == kind {
        Some(frames.len() - 1)
    } else {
        innermost_of_kind(frames.drop_last(), kind)
    }
}

/// Index of the innermost frame that forbids some effect in `effect`.
pub open spec fn innermost_forbidding(frames: Seq<ContextFrame>, effect: u32) -> Option<int>
    decreases frames.len(),
{
    if frames.len() == 0 {
        None
    } else if frames.last().forbids@ & effect != 0 {
        Some(frames.len() - 1)
    } else {
        innermost_forbidding(frames.drop_last(), effect)
    }
}

/// The frames of `kind`, innermost first.
pub open spec fn frames_of_kind(frames: Seq<ContextFrame>, kind: ContextKind) -> Seq<ContextFrame>
    decreases frames.len(),
{
    if frames.len() == 0 {
        Seq::empty()
    } else if frames.last().kind == kind {
        seq![frames.last()] + frames_of_kind(frames.drop_last(), kind)
    } else {
        frames_of_kind(frames.drop_last(), kind)
    }
}

/// The context stack: the frames in force, innermost last, and the
/// running union of their grants and forbids.  Popping restores the
/// ambient union from a snapshot taken when the frame was pushed.
pub struct ContextStack {
    frames: Vec<ContextFrame>,
    saved: Vec<(CapSet, EffectSet)>,
    pub ambient_grants: CapSet,
    pub ambient_forbids: EffectSet,
}

impl ContextStack {
    /// The frames in force, outermost first.
    pub closed spec fn frames_view(&self) -> Seq<ContextFrame> {
        self.frames@
    }

    /// The ambient grants.
    pub closed spec fn grants_view(&self) -> u32 {
        self.ambient_grants@
    }

    /// The ambient forbids.
    pub closed spec fn forbids_view(&self) -> u32 {
        self.ambient_forbids@
    }

    /// The ambient grants (the field `ambient_grants`), for verified callers,
    /// to whom the fields of this type are not visible.
    pub fn grants(&self) -> (g: CapSet)
        ensures
            g@ == self.grants_view(),
    {
        self.ambient_grants
    }

    /// The ambient forbids (the field `ambient_forbids`), for verified
    /// callers.
    pub fn forbids(&self) -> (f: EffectSet)
        ensures
            f@ == self.forbids_view(),
    {
        self.ambient_forbids
    }

    /// Internal consistency: the ambient state is the union over the
    /// frames, and each snapshot is the union over the frames below it.
    pub closed spec fn wf(&self) -> bool {
        &&& self.frames@.len() <= MAX_CONTEXT_DEPTH
        &&& self.saved@.len() == self.frames@.len()
        &&& self.ambient_grants@ == fold_grants(self.frames@)
        &&& self.ambient_forbids@ == fold_forbids(self.frames@)
        &&& forall|i: int|
            0 <= i < self.frames@.len() ==> {
                &&& (#[trigger] self.saved@[i]).0@ == fold_grants(self.frames@.subrange(0, i))
                &&& self.saved@[i].1@ == fold_forbids(self.frames@.subrange(0, i))
            }
    }

    /// A well-formed stack has at most `MAX_CONTEXT_DEPTH` frames and its
    /// ambient state is the union over its frames.
    pub proof fn lemma_ambient_is_union(&self)
        requires
            self.wf(),
        ensures
            self.frames_view().len() <= MAX_CONTEXT_DEPTH,
            self.grants_view() == fold_grants(self.frames_view()),
            self.forbids_view() == fold_forbids(self.frames_view()),
    {
    }

    pub fn new() -> (s: ContextStack)
        ensures
            s.wf(),
            s.frames_view().len() == 0,
            s.grants_view() == 0,
            s.forbids_view() == 0,
    {
        ContextStack {
            frames: Vec::new(),
            saved: Vec::new(),
            ambient_grants: CapSet::empty(),
            ambient_forbids: EffectSet::empty(),
        }
    }

    /// Empties the stack (at the start of each word).
    pub fn reset(&mut self)
        ensures
            final(self).wf(),
            final(self).frames_view().len() == 0,
            final(self).grants_view() == 0,
            final(self).forbids_view() == 0,
    {
        self.frames = Vec::new();
        self.saved = Vec::new();
        self.ambient_grants = CapSet::empty();
        self.ambient_forbids = EffectSet::empty();
    }

    /// Pushes a frame of `kind`, taking its grants and forbids from the
    /// matrix and adding them to the ambient state.  At full depth the
    /// stack is left alone and the push fails with `ScopeDepthExceeded`.
    pub fn push(&mut self, kind: ContextKind, param: FrameParam, span: Span) -> (r: Result<(), TcError>)
        requires
            old(self).wf(),
        ensures
            final(self).wf(),
            old(self).frames_view().len() >= MAX_CONTEXT_DEPTH ==> {
                &&& r == Err::<(), TcError>(TcError::ScopeDepthExceeded { span })
                &&& final(self).frames_view() == old(self).frames_view()
                &&& final(self).grants_view() == old(self).grants_view()
                &&& final(self).forbids_view() == old(self).forbids_view()
            },
            old(self).frames_view().len() < MAX_CONTEXT_DEPTH ==> {
                &&& r is Ok
                &&& final(self).frames_view().len() == old(self).frames_view().len() + 1
                &&& final(self).frames_view().drop_last() == old(self).frames_view()
                &&& frame_for(final(self).frames_view().last(), kind, param, span)
                &&& final(self).grants_view() == old(self).grants_view() | row_grants(kind)
                &&& final(self).forbids_view() == old(self).forbids_view() | row_forbids(kind)
            },
    {
        if self.frames.len() >= MAX_CONTEXT_DEPTH as usize {
            return Err(TcError::ScopeDepthExceeded { span });
        }
        let r = row(kind);
        let ghost old_frames = self.frames@;
        let ghost old_saved = self.saved@;
        let frame = ContextFrame { kind, grants: r.grants, forbids: r.forbids, param, span };
        self.saved.push((self.ambient_grants, self.ambient_forbids));
        self.frames.push(frame);
        self.ambient_grants = self.ambient_grants.union(r.grants);
        self.ambient_forbids = self.ambient_forbids.union(r.forbids);
        proof {
            assert(self.frames@.drop_last() =~= old_frames);
            assert forall|i: int| 0 <= i < self.frames@.len() implies {
                &&& (#[trigger] self.saved@[i]).0@ == fold_grants(self.frames@.subrange(0, i))
                &&& self.saved@[i].1@ == fold_forbids(self.frames@.subrange(0, i))
            } by {
                if i < old_frames.len() {
                    assert(self.frames@.subrange(0, i) =~= old_frames.subrange(0, i));
                    assert(self.saved@[i] == old_saved[i]);
                } else {
                    assert(self.frames@.subrange(0, i) =~= old_frames);
                }
            }
        }
        Ok(())
    }

    /// Pops the innermost frame, restoring the ambient state it found.
    pub fn pop(&mut self)
        requires
            old(self).wf(),
            old(self).frames_view().len() > 0,
        ensures
            final(self).wf(),
            final(self).frames_view() == old(self).frames_view().drop_last(),
            final(self).grants_view() == fold_grants(old(self).frames_view().drop_last()),
            final(self).forbids_view() == fold_forbids(old(self).frames_view().drop_last()),
    {
        let ghost old_frames = self.frames@;
        let ghost old_saved = self.saved@;
        let n = self.frames.len();
        let (g, f) = self.saved[n - 1];
        self.frames.pop();
        self.saved.pop();
        self.ambient_grants = g;
        self.ambient_forbids = f;
        proof {
            assert(old_frames.subrange(0, n - 1) =~= old_frames.drop_last());
            assert(self.frames@ =~= old_frames.drop_last());
            assert forall|i: int| 0 <= i < self.frames@.len() implies {
                &&& (#[trigger] self.saved@[i]).0@ == fold_grants(self.frames@.subrange(0, i))
                &&& self.saved@[i].1@ == fold_forbids(self.frames@.subrange(0, i))
            } by {
                assert(self.frames@.subrange(0, i) =~= old_frames.subrange(0, i));
                assert(self.saved@[i] == old_saved[i]);
            }
        }
    }

    /// Number of frames in force.
    pub fn depth(&self) -> (d: u8)
        requires
            self.wf(),
        ensures
            d == self.frames_view().len(),
    {
        self.frames.len() as u8
    }

    /// The frames in force, outermost first.
    pub fn frames(&self) -> (r: &[ContextFrame])
        ensures
            r@ == self.frames_view(),
    {
        self.frames.as_slice()
    }

    /// The innermost lock frame, if any.
    pub fn lock_frame(&self) -> (r: Option<&ContextFrame>)
        ensures
            r matches Some(f) ==> innermost_of_kind(self.frames_view(), ContextKind::Lock) matches Some(i)
                && *f == self.frames_view()[i],
            r is None ==> innermost_of_kind(self.frames_view(), ContextKind::Lock) is None,
    {
        let mut i = self.frames.len();
        assert(self.frames@.subrange(0, i as int) =~= self.frames@);
        while i > 0
            invariant
                i <= self.frames@.len(),
                innermost_of_kind(self.frames@, ContextKind::Lock) == innermost_of_kind(
                    self.frames@.subrange(0, i as int),
                    ContextKind::Lock,
                ),
            decreases i,
        {
            let ghost pre = self.frames@.subrange(0, i as int);
            assert(pre.drop_last() =~= self.frames@.subrange(0, i - 1));
            if self.frames[i - 1].kind == ContextKind::Lock {
                return Some(&self.frames[i - 1]);
            }
            i -= 1;
        }
        None
    }

    /// Every frame of `kind`, innermost first.
    pub fn frames_of(&self, kind: ContextKind) -> (r: Vec<ContextFrame>)
        ensures
            r@ == frames_of_kind(self.frames_view(), kind),
    {
        let mut out: Vec<ContextFrame> = Vec::new();
        let mut i = self.frames.len();
        assert(self.frames@.subrange(0, i as int) =~= self.frames@);
        assert(out@ + frames_of_kind(self.frames@, kind) =~= frames_of_kind(self.frames@, kind));
        while i > 0
            invariant
                i <= self.frames@.len(),
                out@ + frames_of_kind(self.frames@.subrange(0, i as int), kind) == frames_of_kind(self.frames@, kind),
            decreases i,
        {
            let ghost pre = self.frames@.subrange(0, i as int);
            assert(pre.drop_last() =~= self.frames@.subrange(0, i - 1));
            if self.frames[i - 1].kind == kind {
                let ghost before = out@;
                out.push(self.frames[i - 1]);
                assert(out@ + frames_of_kind(self.frames@.subrange(0, i - 1), kind) =~= before
                    + frames_of_kind(pre, kind));
            }
            i -= 1;
        }
        assert(out@ + frames_of_kind(self.frames@.subrange(0, 0), kind) =~= out@);
        out
    }

    /// Span of the innermost frame that forbids any effect in `effect`.
    pub fn forbidding_span(&self, effect: EffectSet) -> (r: Option<Span>)
        ensures
            r == (match innermost_forbidding(self.frames_view(), effect@) {
                Some(i) => Some(self.frames_view()[i].span),
                None => None,
            }),
    {
        let mut i = self.frames.len();
        assert(self.frames@.subrange(0, i as int) =~= self.frames@);
        while i > 0
            invariant
                i <= self.frames@.len(),
                innermost_forbidding(self.frames@, effect@) == innermost_forbidding(
                    self.frames@.subrange(0, i as int),
                    effect@,
                ),
            decreases i,
        {
            let ghost pre = self.frames@.subrange(0, i as int);
            assert(pre.drop_last() =~= self.frames@.subrange(0, i - 1));
            if self.frames[i - 1].forbids.intersect(effect).bits() != 0 {
                return Some(self.frames[i - 1].span);
            }
            i -= 1;
        }
        None
    }
}

/// Popping a frame that was just pushed restores the stack: the same
/// frames and the same ambient grants and forbids as before the push.
/// `pushed` is any stack `push` may produce from `before` on success, and
/// `popped` any stack `pop` may produce from `pushed`.
pub proof fn lemma_push_pop_restores(
    before: ContextStack,
    pushed: ContextStack,
    popped: ContextStack,
    kind: ContextKind,
    param: FrameParam,
    span: Span,
)
    requires
        before.wf(),
        pushed.wf(),
        popped.wf(),
        pushed.frames_view().drop_last() == before.frames_view(),
        pushed.frames_view().len() == before.frames_view().len() + 1,
        frame_for(pushed.frames_view().last(), kind, param, span),
        popped.frames_view() == pushed.frames_view().drop_last(),
        popped.grants_view() == fold_grants(pushed.frames_view().drop_last()),
        popped.forbids_view() == fold_forbids(pushed.frames_view().drop_last()),
    ensures
        popped.frames_view() == before.frames_view(),
        popped.grants_view() == before.grants_view(),
        popped.forbids_view() == before.forbids_view(),
{
    before.lemma_ambient_is_union();
}

/// Pushing a frame of `kind` never takes a grant or a forbid away from the
/// ambient state: the ambient grants and forbids after the push (see
/// `ContextStack::push`) contain those before it, and the frame's own.
pub proof fn lemma_push_only_adds(grants: u32, forbids: u32, kind: ContextKind)
    ensures
        (grants | row_grants(kind)) & grants == grants,
        (grants | row_grants(kind)) & row_grants(kind) == row_grants(kind),
        (forbids | row_forbids(kind)) & forbids == forbids,
        (forbids | row_forbids(kind)) & row_forbids(kind) == row_forbids(kind),
{
    let rg = row_grants(kind);
    let rf = row_forbids(kind);
    assert((grants | rg) & grants == grants) by (bit_vector);
    assert((grants | rg) & rg == rg) by (bit_vector);
    assert((forbids | rf) & forbids == forbids) by (bit_vector);
    assert((forbids | rf) & rf == rf) by (bit_vector);
}

/// A frame on top that forbids one of the effects is the innermost
/// forbidding frame.
pub proof fn lemma_top_forbidding(frames: Seq<ContextFrame>, effect: u32)
    requires
        frames.len() > 0,
        frames.last().forbids@ & effect != 0,
    ensures
        innermost_forbidding(frames, effect) == Some(frames.len() - 1),
{
}

} // verus!
