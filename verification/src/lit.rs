use vstd::prelude::*;

use crate::types::TypeAtom;

verus! {

// Fixed spellings the checker compares against, as byte sequences (spec)
// and as byte arrays (exec).  Each pair spells the text in its doc comment.

/// ``
pub open spec fn sp_empty() -> Seq<u8> {
    Seq::empty()
}

/// ``
pub fn lit_empty() -> (r: [u8; 0])
    ensures
        r@ == sp_empty(),
{
    let r: [u8; 0] = [];
    assert(r@ =~= sp_empty());
    r
}

/// `i64`
pub open spec fn sp_i64() -> Seq<u8> {
    seq![105u8, 54u8, 52u8]
}

/// `i64`
pub fn lit_i64() -> (r: [u8; 3])
    ensures
        r@ == sp_i64(),
{
    let r: [u8; 3] = [105, 54, 52];
    assert(r@ =~= sp_i64());
    r
}

/// `bool`
pub open spec fn sp_bool() -> Seq<u8> {
    seq![98u8, 111u8, 111u8, 108u8]
}

/// `bool`
pub fn lit_bool() -> (r: [u8; 4])
    ensures
        r@ == sp_bool(),
{
    let r: [u8; 4] = [98, 111, 111, 108];
    assert(r@ =~= sp_bool());
    r
}

/// `quot`
pub open spec fn sp_quot() -> Seq<u8> {
    seq![113u8, 117u8, 111u8, 116u8]
}

/// `quot`
pub fn lit_quot() -> (r: [u8; 4])
    ensures
        r@ == sp_quot(),
{
    let r: [u8; 4] = [113, 117, 111, 116];
    assert(r@ =~= sp_quot());
    r
}

/// `str`
pub open spec fn sp_str() -> Seq<u8> {
    seq![115u8, 116u8, 114u8]
}

/// `str`
pub fn lit_str() -> (r: [u8; 3])
    ensures
        r@ == sp_str(),
{
    let r: [u8; 3] = [115, 116, 114];
    assert(r@ =~= sp_str());
    r
}

/// `ptr`
pub open spec fn sp_ptr() -> Seq<u8> {
    seq![112u8, 116u8, 114u8]
}

/// `ptr`
pub fn lit_ptr() -> (r: [u8; 3])
    ensures
        r@ == sp_ptr(),
{
    let r: [u8; 3] = [112, 116, 114];
    assert(r@ =~= sp_ptr());
    r
}

/// `ptr_mut`
pub open spec fn sp_ptr_mut() -> Seq<u8> {
    seq![112u8, 116u8, 114u8, 95u8, 109u8, 117u8, 116u8]
}

/// `ptr_mut`
pub fn lit_ptr_mut() -> (r: [u8; 7])
    ensures
        r@ == sp_ptr_mut(),
{
    let r: [u8; 7] = [112, 116, 114, 95, 109, 117, 116];
    assert(r@ =~= sp_ptr_mut());
    r
}

/// `mmio`
pub open spec fn sp_mmio() -> Seq<u8> {
    seq![109u8, 109u8, 105u8, 111u8]
}

/// `mmio`
pub fn lit_mmio() -> (r: [u8; 4])
    ensures
        r@ == sp_mmio(),
{
    let r: [u8; 4] = [109, 109, 105, 111];
    assert(r@ =~= sp_mmio());
    r
}

/// `resource`
pub open spec fn sp_resource() -> Seq<u8> {
    seq![114u8, 101u8, 115u8, 111u8, 117u8, 114u8, 99u8, 101u8]
}

/// `resource`
pub fn lit_resource() -> (r: [u8; 8])
    ensures
        r@ == sp_resource(),
{
    let r: [u8; 8] = [114, 101, 115, 111, 117, 114, 99, 101];
    assert(r@ =~= sp_resource());
    r
}

/// `scoped`
pub open spec fn sp_scoped() -> Seq<u8> {
    seq![115u8, 99u8, 111u8, 112u8, 101u8, 100u8]
}

/// `scoped`
pub fn lit_scoped() -> (r: [u8; 6])
    ensures
        r@ == sp_scoped(),
{
    let r: [u8; 6] = [115, 99, 111, 112, 101, 100];
    assert(r@ =~= sp_scoped());
    r
}

/// `Region`
pub open spec fn sp_region() -> Seq<u8> {
    seq![82u8, 101u8, 103u8, 105u8, 111u8, 110u8]
}

/// `Region`
pub fn lit_region() -> (r: [u8; 6])
    ensures
        r@ == sp_region(),
{
    let r: [u8; 6] = [82, 101, 103, 105, 111, 110];
    assert(r@ =~= sp_region());
    r
}

/// `RegionRef`
pub open spec fn sp_region_ref() -> Seq<u8> {
    seq![82u8, 101u8, 103u8, 105u8, 111u8, 110u8, 82u8, 101u8, 102u8]
}

/// `RegionRef`
pub fn lit_region_ref() -> (r: [u8; 9])
    ensures
        r@ == sp_region_ref(),
{
    let r: [u8; 9] = [82, 101, 103, 105, 111, 110, 82, 101, 102];
    assert(r@ =~= sp_region_ref());
    r
}

/// `RegionRefMut`
pub open spec fn sp_region_ref_mut() -> Seq<u8> {
    seq![82u8, 101u8, 103u8, 105u8, 111u8, 110u8, 82u8, 101u8, 102u8, 77u8, 117u8, 116u8]
}

/// `RegionRefMut`
pub fn lit_region_ref_mut() -> (r: [u8; 12])
    ensures
        r@ == sp_region_ref_mut(),
{
    let r: [u8; 12] = [82, 101, 103, 105, 111, 110, 82, 101, 102, 77, 117, 116];
    assert(r@ =~= sp_region_ref_mut());
    r
}

/// `Array`
pub open spec fn sp_array() -> Seq<u8> {
    seq![65u8, 114u8, 114u8, 97u8, 121u8]
}

/// `Array`
pub fn lit_array() -> (r: [u8; 5])
    ensures
        r@ == sp_array(),
{
    let r: [u8; 5] = [65, 114, 114, 97, 121];
    assert(r@ =~= sp_array());
    r
}

/// `Slice`
pub open spec fn sp_slice() -> Seq<u8> {
    seq![83u8, 108u8, 105u8, 99u8, 101u8]
}

/// `Slice`
pub fn lit_slice() -> (r: [u8; 5])
    ensures
        r@ == sp_slice(),
{
    let r: [u8; 5] = [83, 108, 105, 99, 101];
    assert(r@ =~= sp_slice());
    r
}

/// `SliceMut`
pub open spec fn sp_slice_mut() -> Seq<u8> {
    seq![83u8, 108u8, 105u8, 99u8, 101u8, 77u8, 117u8, 116u8]
}

/// `SliceMut`
pub fn lit_slice_mut() -> (r: [u8; 8])
    ensures
        r@ == sp_slice_mut(),
{
    let r: [u8; 8] = [83, 108, 105, 99, 101, 77, 117, 116];
    assert(r@ =~= sp_slice_mut());
    r
}

/// `Chan`
pub open spec fn sp_chan() -> Seq<u8> {
    seq![67u8, 104u8, 97u8, 110u8]
}

/// `Chan`
pub fn lit_chan() -> (r: [u8; 4])
    ensures
        r@ == sp_chan(),
{
    let r: [u8; 4] = [67, 104, 97, 110];
    assert(r@ =~= sp_chan());
    r
}

/// `Array(`
pub open spec fn sp_array_open() -> Seq<u8> {
    seq![65u8, 114u8, 114u8, 97u8, 121u8, 40u8]
}

/// `Array(`
pub fn lit_array_open() -> (r: [u8; 6])
    ensures
        r@ == sp_array_open(),
{
    let r: [u8; 6] = [65, 114, 114, 97, 121, 40];
    assert(r@ =~= sp_array_open());
    r
}

/// `Slice(`
pub open spec fn sp_slice_open() -> Seq<u8> {
    seq![83u8, 108u8, 105u8, 99u8, 101u8, 40u8]
}

/// `Slice(`
pub fn lit_slice_open() -> (r: [u8; 6])
    ensures
        r@ == sp_slice_open(),
{
    let r: [u8; 6] = [83, 108, 105, 99, 101, 40];
    assert(r@ =~= sp_slice_open());
    r
}

/// `SliceMut(`
pub open spec fn sp_slice_mut_open() -> Seq<u8> {
    seq![83u8, 108u8, 105u8, 99u8, 101u8, 77u8, 117u8, 116u8, 40u8]
}

/// `SliceMut(`
pub fn lit_slice_mut_open() -> (r: [u8; 9])
    ensures
        r@ == sp_slice_mut_open(),
{
    let r: [u8; 9] = [83, 108, 105, 99, 101, 77, 117, 116, 40];
    assert(r@ =~= sp_slice_mut_open());
    r
}

/// `Chan(`
pub open spec fn sp_chan_open() -> Seq<u8> {
    seq![67u8, 104u8, 97u8, 110u8, 40u8]
}

/// `Chan(`
pub fn lit_chan_open() -> (r: [u8; 5])
    ensures
        r@ == sp_chan_open(),
{
    let r: [u8; 5] = [67, 104, 97, 110, 40];
    assert(r@ =~= sp_chan_open());
    r
}

/// `u8`
pub open spec fn sp_u8() -> Seq<u8> {
    seq![117u8, 56u8]
}

/// `u8`
pub fn lit_u8() -> (r: [u8; 2])
    ensures
        r@ == sp_u8(),
{
    let r: [u8; 2] = [117, 56];
    assert(r@ =~= sp_u8());
    r
}

/// `i8`
pub open spec fn sp_i8() -> Seq<u8> {
    seq![105u8, 56u8]
}

/// `i8`
pub fn lit_i8() -> (r: [u8; 2])
    ensures
        r@ == sp_i8(),
{
    let r: [u8; 2] = [105, 56];
    assert(r@ =~= sp_i8());
    r
}

/// `u16`
pub open spec fn sp_u16() -> Seq<u8> {
    seq![117u8, 49u8, 54u8]
}

/// `u16`
pub fn lit_u16() -> (r: [u8; 3])
    ensures
        r@ == sp_u16(),
{
    let r: [u8; 3] = [117, 49, 54];
    assert(r@ =~= sp_u16());
    r
}

/// `i16`
pub open spec fn sp_i16() -> Seq<u8> {
    seq![105u8, 49u8, 54u8]
}

/// `i16`
pub fn lit_i16() -> (r: [u8; 3])
    ensures
        r@ == sp_i16(),
{
    let r: [u8; 3] = [105, 49, 54];
    assert(r@ =~= sp_i16());
    r
}

/// `u32`
pub open spec fn sp_u32() -> Seq<u8> {
    seq![117u8, 51u8, 50u8]
}

/// `u32`
pub fn lit_u32() -> (r: [u8; 3])
    ensures
        r@ == sp_u32(),
{
    let r: [u8; 3] = [117, 51, 50];
    assert(r@ =~= sp_u32());
    r
}

/// `i32`
pub open spec fn sp_i32() -> Seq<u8> {
    seq![105u8, 51u8, 50u8]
}

/// `i32`
pub fn lit_i32() -> (r: [u8; 3])
    ensures
        r@ == sp_i32(),
{
    let r: [u8; 3] = [105, 51, 50];
    assert(r@ =~= sp_i32());
    r
}

/// `u64`
pub open spec fn sp_u64() -> Seq<u8> {
    seq![117u8, 54u8, 52u8]
}

/// `u64`
pub fn lit_u64() -> (r: [u8; 3])
    ensures
        r@ == sp_u64(),
{
    let r: [u8; 3] = [117, 54, 52];
    assert(r@ =~= sp_u64());
    r
}

/// `volatile`
pub open spec fn sp_volatile() -> Seq<u8> {
    seq![118u8, 111u8, 108u8, 97u8, 116u8, 105u8, 108u8, 101u8]
}

/// `volatile`
pub fn lit_volatile() -> (r: [u8; 8])
    ensures
        r@ == sp_volatile(),
{
    let r: [u8; 8] = [118, 111, 108, 97, 116, 105, 108, 101];
    assert(r@ =~= sp_volatile());
    r
}

/// `ro`
pub open spec fn sp_ro() -> Seq<u8> {
    seq![114u8, 111u8]
}

/// `ro`
pub fn lit_ro() -> (r: [u8; 2])
    ensures
        r@ == sp_ro(),
{
    let r: [u8; 2] = [114, 111];
    assert(r@ =~= sp_ro());
    r
}

/// `wo`
pub open spec fn sp_wo() -> Seq<u8> {
    seq![119u8, 111u8]
}

/// `wo`
pub fn lit_wo() -> (r: [u8; 2])
    ensures
        r@ == sp_wo(),
{
    let r: [u8; 2] = [119, 111];
    assert(r@ =~= sp_wo());
    r
}

/// `rw`
pub open spec fn sp_rw() -> Seq<u8> {
    seq![114u8, 119u8]
}

/// `rw`
pub fn lit_rw() -> (r: [u8; 2])
    ensures
        r@ == sp_rw(),
{
    let r: [u8; 2] = [114, 119];
    assert(r@ =~= sp_rw());
    r
}

/// `w1c`
pub open spec fn sp_w1c() -> Seq<u8> {
    seq![119u8, 49u8, 99u8]
}

/// `w1c`
pub fn lit_w1c() -> (r: [u8; 3])
    ensures
        r@ == sp_w1c(),
{
    let r: [u8; 3] = [119, 49, 99];
    assert(r@ =~= sp_w1c());
    r
}

/// `w1s`
pub open spec fn sp_w1s() -> Seq<u8> {
    seq![119u8, 49u8, 115u8]
}

/// `w1s`
pub fn lit_w1s() -> (r: [u8; 3])
    ensures
        r@ == sp_w1s(),
{
    let r: [u8; 3] = [119, 49, 115];
    assert(r@ =~= sp_w1s());
    r
}

/// `rc`
pub open spec fn sp_rc() -> Seq<u8> {
    seq![114u8, 99u8]
}

/// `rc`
pub fn lit_rc() -> (r: [u8; 2])
    ensures
        r@ == sp_rc(),
{
    let r: [u8; 2] = [114, 99];
    assert(r@ =~= sp_rc());
    r
}

/// `dup`
pub open spec fn sp_dup() -> Seq<u8> {
    seq![100u8, 117u8, 112u8]
}

/// `dup`
pub fn lit_dup() -> (r: [u8; 3])
    ensures
        r@ == sp_dup(),
{
    let r: [u8; 3] = [100, 117, 112];
    assert(r@ =~= sp_dup());
    r
}

/// `drop`
pub open spec fn sp_drop() -> Seq<u8> {
    seq![100u8, 114u8, 111u8, 112u8]
}

/// `drop`
pub fn lit_drop() -> (r: [u8; 4])
    ensures
        r@ == sp_drop(),
{
    let r: [u8; 4] = [100, 114, 111, 112];
    assert(r@ =~= sp_drop());
    r
}

/// `swap`
pub open spec fn sp_swap() -> Seq<u8> {
    seq![115u8, 119u8, 97u8, 112u8]
}

/// `swap`
pub fn lit_swap() -> (r: [u8; 4])
    ensures
        r@ == sp_swap(),
{
    let r: [u8; 4] = [115, 119, 97, 112];
    assert(r@ =~= sp_swap());
    r
}

/// `+`
pub open spec fn sp_plus() -> Seq<u8> {
    seq![43u8]
}

/// `+`
pub fn lit_plus() -> (r: [u8; 1])
    ensures
        r@ == sp_plus(),
{
    let r: [u8; 1] = [43];
    assert(r@ =~= sp_plus());
    r
}

/// `-`
pub open spec fn sp_minus() -> Seq<u8> {
    seq![45u8]
}

/// `-`
pub fn lit_minus() -> (r: [u8; 1])
    ensures
        r@ == sp_minus(),
{
    let r: [u8; 1] = [45];
    assert(r@ =~= sp_minus());
    r
}

/// `*`
pub open spec fn sp_star() -> Seq<u8> {
    seq![42u8]
}

/// `*`
pub fn lit_star() -> (r: [u8; 1])
    ensures
        r@ == sp_star(),
{
    let r: [u8; 1] = [42];
    assert(r@ =~= sp_star());
    r
}

/// `>`
pub open spec fn sp_gt() -> Seq<u8> {
    seq![62u8]
}

/// `>`
pub fn lit_gt() -> (r: [u8; 1])
    ensures
        r@ == sp_gt(),
{
    let r: [u8; 1] = [62];
    assert(r@ =~= sp_gt());
    r
}

/// `<`
pub open spec fn sp_lt() -> Seq<u8> {
    seq![60u8]
}

/// `<`
pub fn lit_lt() -> (r: [u8; 1])
    ensures
        r@ == sp_lt(),
{
    let r: [u8; 1] = [60];
    assert(r@ =~= sp_lt());
    r
}

/// `>=`
pub open spec fn sp_ge() -> Seq<u8> {
    seq![62u8, 61u8]
}

/// `>=`
pub fn lit_ge() -> (r: [u8; 2])
    ensures
        r@ == sp_ge(),
{
    let r: [u8; 2] = [62, 61];
    assert(r@ =~= sp_ge());
    r
}

/// `<=`
pub open spec fn sp_le() -> Seq<u8> {
    seq![60u8, 61u8]
}

/// `<=`
pub fn lit_le() -> (r: [u8; 2])
    ensures
        r@ == sp_le(),
{
    let r: [u8; 2] = [60, 61];
    assert(r@ =~= sp_le());
    r
}

/// `==`
pub open spec fn sp_eqeq() -> Seq<u8> {
    seq![61u8, 61u8]
}

/// `==`
pub fn lit_eqeq() -> (r: [u8; 2])
    ensures
        r@ == sp_eqeq(),
{
    let r: [u8; 2] = [61, 61];
    assert(r@ =~= sp_eqeq());
    r
}

/// `and`
pub open spec fn sp_and() -> Seq<u8> {
    seq![97u8, 110u8, 100u8]
}

/// `and`
pub fn lit_and() -> (r: [u8; 3])
    ensures
        r@ == sp_and(),
{
    let r: [u8; 3] = [97, 110, 100];
    assert(r@ =~= sp_and());
    r
}

/// `or`
pub open spec fn sp_or() -> Seq<u8> {
    seq![111u8, 114u8]
}

/// `or`
pub fn lit_or() -> (r: [u8; 2])
    ensures
        r@ == sp_or(),
{
    let r: [u8; 2] = [111, 114];
    assert(r@ =~= sp_or());
    r
}

/// `not`
pub open spec fn sp_not() -> Seq<u8> {
    seq![110u8, 111u8, 116u8]
}

/// `not`
pub fn lit_not() -> (r: [u8; 3])
    ensures
        r@ == sp_not(),
{
    let r: [u8; 3] = [110, 111, 116];
    assert(r@ =~= sp_not());
    r
}

/// `call`
pub open spec fn sp_call() -> Seq<u8> {
    seq![99u8, 97u8, 108u8, 108u8]
}

/// `call`
pub fn lit_call() -> (r: [u8; 4])
    ensures
        r@ == sp_call(),
{
    let r: [u8; 4] = [99, 97, 108, 108];
    assert(r@ =~= sp_call());
    r
}

/// `platform.task.yield`
pub open spec fn sp_task_yield() -> Seq<u8> {
    seq![112u8, 108u8, 97u8, 116u8, 102u8, 111u8, 114u8, 109u8, 46u8, 116u8, 97u8, 115u8, 107u8, 46u8, 121u8, 105u8, 101u8, 108u8, 100u8]
}

/// `platform.task.yield`
pub fn lit_task_yield() -> (r: [u8; 19])
    ensures
        r@ == sp_task_yield(),
{
    let r: [u8; 19] = [112, 108, 97, 116, 102, 111, 114, 109, 46, 116, 97, 115, 107, 46, 121, 105, 101, 108, 100];
    assert(r@ =~= sp_task_yield());
    r
}

/// `true`
pub open spec fn sp_true() -> Seq<u8> {
    seq![116u8, 114u8, 117u8, 101u8]
}

/// `true`
pub fn lit_true() -> (r: [u8; 4])
    ensures
        r@ == sp_true(),
{
    let r: [u8; 4] = [116, 114, 117, 101];
    assert(r@ =~= sp_true());
    r
}

/// `false`
pub open spec fn sp_false() -> Seq<u8> {
    seq![102u8, 97u8, 108u8, 115u8, 101u8]
}

/// `false`
pub fn lit_false() -> (r: [u8; 5])
    ensures
        r@ == sp_false(),
{
    let r: [u8; 5] = [102, 97, 108, 115, 101];
    assert(r@ =~= sp_false());
    r
}

/// `if`
pub open spec fn sp_if() -> Seq<u8> {
    seq![105u8, 102u8]
}

/// `if`
pub fn lit_if() -> (r: [u8; 2])
    ensures
        r@ == sp_if(),
{
    let r: [u8; 2] = [105, 102];
    assert(r@ =~= sp_if());
    r
}

/// `while`
pub open spec fn sp_while() -> Seq<u8> {
    seq![119u8, 104u8, 105u8, 108u8, 101u8]
}

/// `while`
pub fn lit_while() -> (r: [u8; 5])
    ensures
        r@ == sp_while(),
{
    let r: [u8; 5] = [119, 104, 105, 108, 101];
    assert(r@ =~= sp_while());
    r
}

/// `loop`
pub open spec fn sp_loop() -> Seq<u8> {
    seq![108u8, 111u8, 111u8, 112u8]
}

/// `loop`
pub fn lit_loop() -> (r: [u8; 4])
    ensures
        r@ == sp_loop(),
{
    let r: [u8; 4] = [108, 111, 111, 112];
    assert(r@ =~= sp_loop());
    r
}

/// `lock`
pub open spec fn sp_lock() -> Seq<u8> {
    seq![108u8, 111u8, 99u8, 107u8]
}

/// `lock`
pub fn lit_lock() -> (r: [u8; 4])
    ensures
        r@ == sp_lock(),
{
    let r: [u8; 4] = [108, 111, 99, 107];
    assert(r@ =~= sp_lock());
    r
}

/// `as`
pub open spec fn sp_as() -> Seq<u8> {
    seq![97u8, 115u8]
}

/// `as`
pub fn lit_as() -> (r: [u8; 2])
    ensures
        r@ == sp_as(),
{
    let r: [u8; 2] = [97, 115];
    assert(r@ =~= sp_as());
    r
}

/// `as?`
pub open spec fn sp_as_checked() -> Seq<u8> {
    seq![97u8, 115u8, 63u8]
}

/// `as?`
pub fn lit_as_checked() -> (r: [u8; 3])
    ensures
        r@ == sp_as_checked(),
{
    let r: [u8; 3] = [97, 115, 63];
    assert(r@ =~= sp_as_checked());
    r
}

/// `bitcast`
pub open spec fn sp_bitcast() -> Seq<u8> {
    seq![98u8, 105u8, 116u8, 99u8, 97u8, 115u8, 116u8]
}

/// `bitcast`
pub fn lit_bitcast() -> (r: [u8; 7])
    ensures
        r@ == sp_bitcast(),
{
    let r: [u8; 7] = [98, 105, 116, 99, 97, 115, 116];
    assert(r@ =~= sp_bitcast());
    r
}

/// `return`
pub open spec fn sp_return() -> Seq<u8> {
    seq![114u8, 101u8, 116u8, 117u8, 114u8, 110u8]
}

/// `return`
pub fn lit_return() -> (r: [u8; 6])
    ensures
        r@ == sp_return(),
{
    let r: [u8; 6] = [114, 101, 116, 117, 114, 110];
    assert(r@ =~= sp_return());
    r
}

/// The atom spelled `bytes`, which fits in an atom.
pub fn atom_of(bytes: &[u8]) -> (a: TypeAtom)
    requires
        bytes@.len() <= crate::types::ATOM_CAP,
    ensures
        a@ == bytes@,
{
    TypeAtom::new(bytes).unwrap()
}

/// Whether two byte strings are equal.
pub fn bytes_eq(a: &[u8], b: &[u8]) -> (r: bool)
    ensures
        r == (a@ == b@),
{
    if a.len() != b.len() {
        return false;
    }
    let mut i: usize = 0;
    while i < a.len()
        invariant
            a@.len() == b@.len(),
            i <= a@.len(),
            forall|j: int| 0 <= j < i ==> a@[j] == b@[j],
        decreases a@.len() - i,
    {
        if a[i] != b[i] {
            return false;
        }
        i += 1;
    }
    assert(a@ =~= b@);
    true
}

/// Whether `a` begins with `prefix`.
pub fn starts_with(a: &[u8], prefix: &[u8]) -> (r: bool)
    ensures
        r == (prefix@.len() <= a@.len() && a@.subrange(0, prefix@.len() as int) == prefix@),
{
    if prefix.len() > a.len() {
        return false;
    }
    let mut i: usize = 0;
    while i < prefix.len()
        invariant
            prefix@.len() <= a@.len(),
            i <= prefix@.len(),
            forall|j: int| 0 <= j < i ==> a@[j] == prefix@[j],
        decreases prefix@.len() - i,
    {
        if a[i] != prefix[i] {
            assert(a@.subrange(0, prefix@.len() as int)[i as int] != prefix@[i as int]);
            return false;
        }
        i += 1;
    }
    assert(a@.subrange(0, prefix@.len() as int) =~= prefix@);
    true
}

} // verus!
