use semantics::context::{matrix, row, ContextKind, ContextStack, FrameParam, MAX_CONTEXT_DEPTH};
use semantics::effects::{CapSet, EffectSet};
use semantics::types::Span;

#[test]
fn matrix_rows_are_distinct() {
    let m = matrix();
    let mut kinds: Vec<ContextKind> = m.iter().map(|r| r.kind).collect();
    kinds.sort_by(|a, b| (*a as u8).cmp(&(*b as u8)));
    kinds.dedup();
    assert_eq!(kinds.len(), m.len(), "duplicate ContextKind in MATRIX");
}

#[test]
fn new_stack_is_empty() {
    let ctx = ContextStack::new();
    assert_eq!(ctx.depth(), 0);
    assert!(ctx.ambient_grants.is_empty());
    assert!(ctx.ambient_forbids.is_empty());
}

#[test]
fn reset_clears_stack() {
    let mut ctx = ContextStack::new();
    ctx.push(ContextKind::Lock, FrameParam::NoParam, Span::new(0, 0)).unwrap();
    assert_eq!(ctx.depth(), 1);
    ctx.reset();
    assert_eq!(ctx.depth(), 0);
    assert!(ctx.ambient_grants.is_empty());
    assert!(ctx.ambient_forbids.is_empty());
}

#[test]
fn push_then_pop_restores_ambient() {
    let mut ctx = ContextStack::new();
    let grants_before = ctx.ambient_grants;
    let forbids_before = ctx.ambient_forbids;
    ctx.push(ContextKind::Lock, FrameParam::NoParam, Span::new(0, 0)).unwrap();
    assert_eq!(ctx.depth(), 1);
    assert!(!ctx.ambient_forbids.is_empty());
    ctx.pop();
    assert_eq!(ctx.depth(), 0);
    assert_eq!(ctx.ambient_grants, grants_before);
    assert_eq!(ctx.ambient_forbids, forbids_before);
}

#[test]
fn nested_push_pop_restores_correctly() {
    let mut ctx = ContextStack::new();
    let g0 = ctx.ambient_grants;
    let f0 = ctx.ambient_forbids;

    ctx.push(ContextKind::Lock, FrameParam::NoParam, Span::new(0, 0)).unwrap();
    let g1 = ctx.ambient_grants;
    let f1 = ctx.ambient_forbids;
    assert!(!f1.is_empty());

    ctx.push(ContextKind::Handler, FrameParam::NoParam, Span::new(0, 0)).unwrap();
    let g2 = ctx.ambient_grants;
    assert!(!g2.is_empty());

    ctx.pop();
    assert_eq!(ctx.ambient_grants, g1);
    assert_eq!(ctx.ambient_forbids, f1);

    ctx.pop();
    assert_eq!(ctx.ambient_grants, g0);
    assert_eq!(ctx.ambient_forbids, f0);
}

#[test]
fn lock_frame_returns_inner_lock() {
    let mut ctx = ContextStack::new();
    assert!(ctx.lock_frame().is_none());
    ctx.push(ContextKind::Isr, FrameParam::NoParam, Span::new(0, 0)).unwrap();
    assert!(ctx.lock_frame().is_none());
    ctx.push(ContextKind::Lock, FrameParam::NoParam, Span::new(1, 2)).unwrap();
    let lf = ctx.lock_frame().unwrap();
    assert_eq!(lf.kind, ContextKind::Lock);
    assert_eq!(lf.span, Span::new(1, 2));
}

#[test]
fn forbidding_span_returns_correct_frame() {
    let mut ctx = ContextStack::new();
    ctx.push(ContextKind::WordBody, FrameParam::NoParam, Span::new(0, 0)).unwrap();
    ctx.push(ContextKind::Lock, FrameParam::NoParam, Span::new(5, 10)).unwrap();
    let span = ctx.forbidding_span(EffectSet::from_bits(EffectSet::SUSPEND));
    assert_eq!(span, Some(Span::new(5, 10)));
}

#[test]
fn depth_overflow_returns_error() {
    let mut ctx = ContextStack::new();
    for _ in 0..MAX_CONTEXT_DEPTH {
        ctx.push(ContextKind::WordBody, FrameParam::NoParam, Span::new(0, 0)).unwrap();
    }
    assert_eq!(ctx.depth(), MAX_CONTEXT_DEPTH);
    let result = ctx.push(ContextKind::WordBody, FrameParam::NoParam, Span::new(0, 0));
    assert!(result.is_err());
}

#[test]
fn read_borrow_does_not_forbid_suspend() {
    let mut ctx = ContextStack::new();
    ctx.push(ContextKind::WordBody, FrameParam::NoParam, Span::new(0, 0)).unwrap();
    assert!(ctx.forbidding_span(EffectSet::from_bits(EffectSet::SUSPEND)).is_none());
    ctx.push(ContextKind::ReadBorrow, FrameParam::Scope(1), Span::new(0, 0)).unwrap();
    assert!(ctx.forbidding_span(EffectSet::from_bits(EffectSet::SUSPEND)).is_none());
}

#[test]
fn ambient_grants_wordbody_grants_suspendable() {
    let mut ctx = ContextStack::new();
    assert!(!ctx.ambient_grants.contains(CapSet::SUSPENDABLE));
    ctx.push(ContextKind::WordBody, FrameParam::NoParam, Span::new(0, 0)).unwrap();
    assert!(ctx.ambient_grants.contains(CapSet::SUSPENDABLE));
}

#[test]
fn ambient_grants_handler_grants_suspendable() {
    let mut ctx = ContextStack::new();
    assert!(!ctx.ambient_grants.contains(CapSet::SUSPENDABLE));
    ctx.push(ContextKind::Handler, FrameParam::NoParam, Span::new(0, 0)).unwrap();
    assert!(ctx.ambient_grants.contains(CapSet::SUSPENDABLE));
}

#[test]
fn lock_forbids_suspend() {
    let mut ctx = ContextStack::new();
    ctx.push(ContextKind::WordBody, FrameParam::NoParam, Span::new(0, 0)).unwrap();
    assert!(ctx.forbidding_span(EffectSet::from_bits(EffectSet::SUSPEND)).is_none());
    ctx.push(ContextKind::Lock, FrameParam::NoParam, Span::new(0, 0)).unwrap();
    assert!(ctx.forbidding_span(EffectSet::from_bits(EffectSet::SUSPEND)).is_some());
}

#[test]
fn isr_forbids_suspend() {
    let mut ctx = ContextStack::new();
    ctx.push(ContextKind::Isr, FrameParam::NoParam, Span::new(0, 0)).unwrap();
    assert!(ctx.forbidding_span(EffectSet::from_bits(EffectSet::SUSPEND)).is_some());
}

#[test]
fn depth_overflow_is_scope_depth_error() {
    let mut ctx = ContextStack::new();
    for _ in 0..MAX_CONTEXT_DEPTH {
        ctx.push(ContextKind::Lock, FrameParam::NoParam, Span::new(0, 0)).unwrap();
    }
    let err = ctx.push(ContextKind::Lock, FrameParam::NoParam, Span::new(3, 4)).unwrap_err();
    assert_eq!(err.code(), 3512);
    assert_eq!(ctx.depth(), MAX_CONTEXT_DEPTH);
}

#[test]
fn frames_of_lists_matching_frames_innermost_first() {
    let mut ctx = ContextStack::new();
    ctx.push(ContextKind::Lock, FrameParam::NoParam, Span::new(1, 1)).unwrap();
    ctx.push(ContextKind::WordBody, FrameParam::NoParam, Span::new(2, 2)).unwrap();
    ctx.push(ContextKind::Lock, FrameParam::NoParam, Span::new(3, 3)).unwrap();
    let locks = ctx.frames_of(ContextKind::Lock);
    assert_eq!(locks.len(), 2);
    assert_eq!(locks[0].span, Span::new(3, 3));
    assert_eq!(locks[1].span, Span::new(1, 1));
    assert_eq!(ctx.frames().len(), 3);
    assert_eq!(ctx.lock_frame().unwrap().span, Span::new(3, 3));
}

#[test]
fn frame_params_read_back() {
    let mut ctx = ContextStack::new();
    ctx.push(ContextKind::ReadBorrow, FrameParam::Scope(7), Span::new(0, 0)).unwrap();
    let f = ctx.frames()[0];
    assert_eq!(f.scope(), Some(7));
    assert!(f.resource().is_none());
}

#[test]
fn row_of_lock_forbids_suspend() {
    let r = row(ContextKind::Lock);
    assert_eq!(r.kind, ContextKind::Lock);
    assert!(r.forbids.contains(EffectSet::SUSPEND));
    assert_eq!(matrix().len(), 7);
}

#[test]
fn ambient_getters_read_the_fields() {
    let mut ctx = ContextStack::new();
    ctx.push(ContextKind::WordBody, FrameParam::NoParam, Span::new(0, 0)).unwrap();
    ctx.push(ContextKind::Lock, FrameParam::NoParam, Span::new(1, 2)).unwrap();
    assert_eq!(ctx.grants(), ctx.ambient_grants);
    assert_eq!(ctx.forbids(), ctx.ambient_forbids);
    assert!(ctx.grants().contains(CapSet::SUSPENDABLE));
    assert!(ctx.forbids().contains(EffectSet::SUSPEND));
}
