//! The borrow ledger of a word: each borrowed place gets an id, and a new
//! borrow is checked against the borrows still live on the stack or
//! shelved in locals.
use vstd::prelude::*;

use crate::error::TcError;
use crate::lit::{lit_ptr_mut, sp_ptr_mut};
use crate::types::{Span, TypeAtom};
use crate::value::{stack_view, PlaceId, Value, ValueView, PLACE_NONE};

verus! {

/// A borrowed place: the root it borrows from, the full place, and where
/// it was first borrowed.
#[derive(Clone, Copy, Debug)]
pub struct PlaceKey {
    pub root: TypeAtom,
    pub full: TypeAtom,
    pub origin: Span,
}

impl View for PlaceKey {
    type V = (Seq<u8>, Seq<u8>, Span);

    open spec fn view(&self) -> (Seq<u8>, Seq<u8>, Span) {
        (self.root@, self.full@, self.origin)
    }
}

/// Most distinct borrowed places tracked per word.
pub const LEDGER_CAP: usize = 64;

/// The ledger entries, by view.
pub open spec fn ledger_view(l: Seq<PlaceKey>) -> Seq<(Seq<u8>, Seq<u8>, Span)> {
    l.map_values(|k: PlaceKey| k@)
}

/// First position at or after `i`, below `n`, whose entry has root `root`
/// and full place `full`.
pub open spec fn first_key(l: Seq<(Seq<u8>, Seq<u8>, Span)>, n: int, root: Seq<u8>, full: Seq<u8>, i: int) -> Option<int>
    decreases n - i,
{
    if i < 0 || i >= n || i >= l.len() {
        None
    } else if l[i].0 == root && l[i].1 == full {
        Some(i)
    } else {
        first_key(l, n, root, full, i + 1)
    }
}

/// Number of ledger entries in use when the count reads `len`.
pub open spec fn used(len: u8) -> int {
    if len as int <= LEDGER_CAP { len as int } else { LEDGER_CAP as int }
}

/// Minting an id for the place `(root, full)` first borrowed at `origin`:
/// an entry already holding that pair gives its id; otherwise a full
/// ledger is an error, and else the pair is added at the end.  The result,
/// the ledger after and its count after.
pub open spec fn spec_mint(
    l: Seq<(Seq<u8>, Seq<u8>, Span)>,
    len: u8,
    root: Seq<u8>,
    full: Seq<u8>,
    origin: Span,
) -> (Result<u16, TcError>, Seq<(Seq<u8>, Seq<u8>, Span)>, u8) {
    match first_key(l, used(len), root, full, 0) {
        Some(i) => (Ok(i as u16), l, len),
        None => if len as int >= LEDGER_CAP {
            (Err(TcError::BorrowLedgerFull { span: origin }), l, len)
        } else {
            (Ok(len as u16), l.update(len as int, (root, full, origin)), (len + 1) as u8)
        },
    }
}

/// Gives the id of the place `(root, full)` in the ledger, adding it when
/// it is new (see `spec_mint`).
pub fn mint_id(
    ledger: &mut [PlaceKey; 64],
    ledger_len: &mut u8,
    root: TypeAtom,
    full: TypeAtom,
    origin: Span,
) -> (r: Result<PlaceId, TcError>)
    ensures
        ({
            let (res, l2, n2) = spec_mint(ledger_view(old(ledger)@), *old(ledger_len), root@, full@, origin);
            &&& ledger_view(final(ledger)@) == l2
            &&& *final(ledger_len) == n2
            &&& r matches Ok(id) ==> res == Ok::<u16, TcError>(id.0)
            &&& r matches Err(e) ==> res == Err::<u16, TcError>(e)
        }),
{
    let ghost l0 = ledger_view(ledger@);
    let n = *ledger_len;
    let m: usize = if (n as usize) <= LEDGER_CAP { n as usize } else { LEDGER_CAP };
    let mut i: usize = 0;
    while i < m
        invariant
            m == used(n),
            n == *old(ledger_len),
            n == *ledger_len,
            l0 == ledger_view(old(ledger)@),
            m <= LEDGER_CAP,
            i <= m,
            l0 == ledger_view(ledger@),
            ledger@.len() == LEDGER_CAP,
            first_key(l0, m as int, root@, full@, 0) == first_key(l0, m as int, root@, full@, i as int),
        decreases m - i,
    {
        let e = ledger[i];
        assert(l0[i as int] == e@);
        if e.root.same(&root) && e.full.same(&full) {
            assert(first_key(l0, m as int, root@, full@, i as int) == Some(i as int));
            return Ok(PlaceId(i as u16));
        }
        i += 1;
    }
    if (n as usize) >= LEDGER_CAP {
        return Err(TcError::BorrowLedgerFull { span: origin });
    }
    ledger[n as usize] = PlaceKey { root, full, origin };
    *ledger_len = n + 1;
    assert(ledger_view(ledger@) =~= l0.update(n as int, (root@, full@, origin)));
    Ok(PlaceId(n as u16))
}

proof fn lemma_first_key_found(l: Seq<(Seq<u8>, Seq<u8>, Span)>, n: int, root: Seq<u8>, full: Seq<u8>, i: int, k: int)
    requires
        0 <= i <= k < n,
        k < l.len(),
        l[k].0 == root && l[k].1 == full,
        forall|j: int| i <= j < k ==> !(l[j].0 == root && l[j].1 == full),
    ensures
        first_key(l, n, root, full, i) == Some(k),
    decreases k - i,
{
    if i < k {
        lemma_first_key_found(l, n, root, full, i + 1, k);
    }
}

proof fn lemma_first_key_none(l: Seq<(Seq<u8>, Seq<u8>, Span)>, n: int, root: Seq<u8>, full: Seq<u8>, i: int)
    requires
        0 <= i,
        first_key(l, n, root, full, i) is None,
    ensures
        forall|j: int| i <= j < n && j < l.len() ==> !(l[j].0 == root && l[j].1 == full),
    decreases n - i,
{
    if i < n && i < l.len() {
        lemma_first_key_none(l, n, root, full, i + 1);
    }
}

proof fn lemma_first_key_bound(l: Seq<(Seq<u8>, Seq<u8>, Span)>, n: int, root: Seq<u8>, full: Seq<u8>, i: int)
    requires
        0 <= i,
    ensures
        first_key(l, n, root, full, i) matches Some(k) ==> i <= k < n && k < l.len() && l[k].0 == root
            && l[k].1 == full,
    decreases n - i,
{
    if i < n && i < l.len() && !(l[i].0 == root && l[i].1 == full) {
        lemma_first_key_bound(l, n, root, full, i + 1);
    }
}

/// Minting is idempotent: once a place has an id, minting it again gives
/// the same id and leaves the ledger and its count unchanged.
pub proof fn lemma_mint_idempotent(
    l: Seq<(Seq<u8>, Seq<u8>, Span)>,
    len: u8,
    root: Seq<u8>,
    full: Seq<u8>,
    origin: Span,
    origin2: Span,
)
    requires
        l.len() == LEDGER_CAP,
        spec_mint(l, len, root, full, origin).0 is Ok,
    ensures
        ({
            let (r1, l1, n1) = spec_mint(l, len, root, full, origin);
            spec_mint(l1, n1, root, full, origin2) == (r1, l1, n1)
        }),
{
    lemma_first_key_bound(l, used(len), root, full, 0);
    match first_key(l, used(len), root, full, 0) {
        Some(i) => {},
        None => {
            lemma_first_key_none(l, used(len), root, full, 0);
            let l1 = l.update(len as int, (root, full, origin));
            let n1 = (len + 1) as u8;
            assert(used(n1) == len + 1);
            assert forall|j: int| 0 <= j < len implies !(l1[j].0 == root && l1[j].1 == full) by {
                assert(l1[j] == l[j]);
            }
            lemma_first_key_found(l1, used(n1), root, full, 0, len as int);
        },
    }
}

/// Distinct places get distinct ids: once a place has been minted, minting
/// a different place never gives the same id.
pub proof fn lemma_mint_distinct(
    l: Seq<(Seq<u8>, Seq<u8>, Span)>,
    len: u8,
    root1: Seq<u8>,
    full1: Seq<u8>,
    origin1: Span,
    root2: Seq<u8>,
    full2: Seq<u8>,
    origin2: Span,
)
    requires
        l.len() == LEDGER_CAP,
        spec_mint(l, len, root1, full1, origin1).0 is Ok,
        !(root1 == root2 && full1 == full2),
    ensures
        ({
            let (r1, l1, n1) = spec_mint(l, len, root1, full1, origin1);
            let (r2, l2, n2) = spec_mint(l1, n1, root2, full2, origin2);
            r2 is Ok ==> r2 != r1
        }),
{
    let (r1, l1, n1) = spec_mint(l, len, root1, full1, origin1);
    lemma_first_key_bound(l, used(len), root1, full1, 0);
    lemma_first_key_bound(l1, used(n1), root2, full2, 0);
    match first_key(l, used(len), root1, full1, 0) {
        Some(i) => {},
        None => {
            assert(l1[len as int] == (root1, full1, origin1));
        },
    }
}

/// A live borrow on the stack that a new borrow of `root` conflicts with:
/// a tracked pointer into the same root, when either is mutable.  Its
/// origin, if so.
pub open spec fn stack_hit(
    v: ValueView,
    l: Seq<(Seq<u8>, Seq<u8>, Span)>,
    ll: u8,
    root: Seq<u8>,
    mutable: bool,
) -> Option<Span> {
    match v {
        ValueView::Ptr(_, m2, place) => if place != PLACE_NONE && place < ll && l[place as int].0 == root && (
        mutable || m2) {
            Some(l[place as int].2)
        } else {
            None
        },
        _ => None,
    }
}

/// The first conflicting borrow on the stack at or above position `i`.
pub open spec fn first_stack_conflict(
    s: Seq<ValueView>,
    l: Seq<(Seq<u8>, Seq<u8>, Span)>,
    ll: u8,
    root: Seq<u8>,
    mutable: bool,
    i: int,
) -> Option<Span>
    decreases s.len() - i,
{
    if i < 0 || i >= s.len() {
        None
    } else {
        match stack_hit(s[i], l, ll, root, mutable) {
            Some(o) => Some(o),
            None => first_stack_conflict(s, l, ll, root, mutable, i + 1),
        }
    }
}

/// A live mutable pointer blocks every new borrow of its root: if the
/// stack at or above position `i` holds a tracked mutable pointer into
/// `root`, a new borrow of `root`, shared or mutable, finds a conflict
/// there.  A new mutable borrow conflicts with any tracked pointer into
/// `root`, shared ones included.
pub proof fn lemma_live_mutable_borrow_blocks(
    s: Seq<ValueView>,
    l: Seq<(Seq<u8>, Seq<u8>, Span)>,
    ll: u8,
    root: Seq<u8>,
    mutable: bool,
    i: int,
    j: int,
)
    requires
        0 <= i <= j < s.len(),
        s[j] matches ValueView::Ptr(_, m2, place) && place != PLACE_NONE && place < ll && l[place as int].0 == root
            && (m2 || mutable),
    ensures
        first_stack_conflict(s, l, ll, root, mutable, i) is Some,
    decreases j - i,
{
    if i < j && stack_hit(s[i], l, ll, root, mutable) is None {
        lemma_live_mutable_borrow_blocks(s, l, ll, root, mutable, i + 1, j);
    }
}

/// The borrows shelved in locals: for each local, whether it is live, the
/// place it holds and its type.
pub open spec fn local_hit(
    live: bool,
    place: u16,
    ty: Seq<u8>,
    l: Seq<(Seq<u8>, Seq<u8>, Span)>,
    ll: u8,
    root: Seq<u8>,
    mutable: bool,
) -> Option<Span> {
    if live && place != PLACE_NONE && place < ll && l[place as int].0 == root && (mutable || ty
        == sp_ptr_mut()) {
        Some(l[place as int].2)
    } else {
        None
    }
}

/// The first conflicting shelved borrow among locals `i..n`.
pub open spec fn first_local_conflict(
    live: Seq<bool>,
    places: Seq<PlaceId>,
    tys: Seq<TypeAtom>,
    n: int,
    l: Seq<(Seq<u8>, Seq<u8>, Span)>,
    ll: u8,
    root: Seq<u8>,
    mutable: bool,
    i: int,
) -> Option<Span>
    decreases n - i,
{
    if i < 0 || i >= n {
        None
    } else {
        match local_hit(live[i], places[i].0, tys[i]@, l, ll, root, mutable) {
            Some(o) => Some(o),
            None => first_local_conflict(live, places, tys, n, l, ll, root, mutable, i + 1),
        }
    }
}

/// Checks a new borrow of `root` at `new_span`: a mutable borrow conflicts
/// with any live borrow of the same root, a shared one with a live
/// mutable borrow; the stack is searched first, bottom up, then the live
/// locals.  The error names the first conflicting borrow's origin.
pub fn scan_conflict(
    stack: &[Value],
    ledger: &[PlaceKey; 64],
    ledger_len: u8,
    local_place: &[PlaceId; 64],
    local_live: &[bool; 64],
    local_tys: &[TypeAtom; 64],
    local_len: usize,
    root: TypeAtom,
    mutable: bool,
    new_span: Span,
) -> (r: Result<(), TcError>)
    requires
        ledger_len as int <= LEDGER_CAP,
        local_len <= 64,
    ensures
        ({
            let l = ledger_view(ledger@);
            match first_stack_conflict(stack_view(stack@), l, ledger_len, root@, mutable, 0) {
                Some(o) => r == Err::<(), TcError>(TcError::BorrowAlias { span: new_span, first: o }),
                None => match first_local_conflict(
                    local_live@,
                    local_place@,
                    local_tys@,
                    local_len as int,
                    l,
                    ledger_len,
                    root@,
                    mutable,
                    0,
                ) {
                    Some(o) => r == Err::<(), TcError>(TcError::BorrowAlias { span: new_span, first: o }),
                    None => r is Ok,
                },
            }
        }),
{
    let ghost l = ledger_view(ledger@);
    let ghost s = stack_view(stack@);
    let mut i: usize = 0;
    while i < stack.len()
        invariant
            i <= stack@.len(),
            s == stack_view(stack@),
            l == ledger_view(ledger@),
            ledger_len as int <= LEDGER_CAP,
            first_stack_conflict(s, l, ledger_len, root@, mutable, 0) == first_stack_conflict(
                s,
                l,
                ledger_len,
                root@,
                mutable,
                i as int,
            ),
        decreases stack@.len() - i,
    {
        assert(s[i as int] == stack@[i as int]@);
        if let Value::Ptr { place, mutable: m2, .. } = stack[i] {
            if place.0 != PLACE_NONE && place.0 < ledger_len as u16 {
                let k = ledger[place.0 as usize];
                assert(l[place.0 as int] == k@);
                if k.root.same(&root) && (mutable || m2) {
                    return Err(TcError::BorrowAlias { span: new_span, first: k.origin });
                }
            }
        }
        i += 1;
    }
    let ptr_mut = TypeAtom::new(&lit_ptr_mut()).unwrap();
    let mut j: usize = 0;
    while j < local_len
        invariant
            j <= local_len <= 64,
            l == ledger_view(ledger@),
            first_stack_conflict(stack_view(stack@), l, ledger_len, root@, mutable, 0) is None,
            ledger_len as int <= LEDGER_CAP,
            ptr_mut@ == sp_ptr_mut(),
            first_local_conflict(
                local_live@,
                local_place@,
                local_tys@,
                local_len as int,
                l,
                ledger_len,
                root@,
                mutable,
                0,
            ) == first_local_conflict(
                local_live@,
                local_place@,
                local_tys@,
                local_len as int,
                l,
                ledger_len,
                root@,
                mutable,
                j as int,
            ),
        decreases local_len - j,
    {
        if local_live[j] {
            let pid = local_place[j];
            if pid.0 != PLACE_NONE && pid.0 < ledger_len as u16 {
                let local_mutable = local_tys[j].same(&ptr_mut);
                let k = ledger[pid.0 as usize];
                assert(l[pid.0 as int] == k@);
                if k.root.same(&root) && (mutable || local_mutable) {
                    return Err(TcError::BorrowAlias { span: new_span, first: k.origin });
                }
            }
        }
        j += 1;
    }
    Ok(())
}

} // verus!
