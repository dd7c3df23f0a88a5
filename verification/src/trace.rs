//! The fixed pieces of text the stack checker's trace is made of.
use vstd::prelude::*;

verus! {

/// `  `
pub open spec fn sp_ind() -> Seq<u8> {
    seq![32u8, 32u8]
}

/// `  `
pub fn lit_ind() -> (r: [u8; 2])
    ensures
        r@ == sp_ind(),
{
    let r: [u8; 2] = [32, 32];
    assert(r@ =~= sp_ind());
    r
}

/// ` | stack: `
pub open spec fn sp_stack_sep() -> Seq<u8> {
    seq![32u8, 124u8, 32u8, 115u8, 116u8, 97u8, 99u8, 107u8, 58u8, 32u8]
}

/// ` | stack: `
pub fn lit_stack_sep() -> (r: [u8; 10])
    ensures
        r@ == sp_stack_sep(),
{
    let r: [u8; 10] = [32, 124, 32, 115, 116, 97, 99, 107, 58, 32];
    assert(r@ =~= sp_stack_sep());
    r
}

/// `\n`
pub open spec fn sp_nl() -> Seq<u8> {
    seq![10u8]
}

/// `\n`
pub fn lit_nl() -> (r: [u8; 1])
    ensures
        r@ == sp_nl(),
{
    let r: [u8; 1] = [10];
    assert(r@ =~= sp_nl());
    r
}

/// `  <str>`
pub open spec fn sp_str_head() -> Seq<u8> {
    seq![32u8, 32u8, 60u8, 115u8, 116u8, 114u8, 62u8]
}

/// `  <str>`
pub fn lit_str_head() -> (r: [u8; 7])
    ensures
        r@ == sp_str_head(),
{
    let r: [u8; 7] = [32, 32, 60, 115, 116, 114, 62];
    assert(r@ =~= sp_str_head());
    r
}

/// `  => `
pub open spec fn sp_bind_head() -> Seq<u8> {
    seq![32u8, 32u8, 61u8, 62u8, 32u8]
}

/// `  => `
pub fn lit_bind_head() -> (r: [u8; 5])
    ensures
        r@ == sp_bind_head(),
{
    let r: [u8; 5] = [32, 32, 61, 62, 32];
    assert(r@ =~= sp_bind_head());
    r
}

/// `  <quot>`
pub open spec fn sp_quot_head() -> Seq<u8> {
    seq![32u8, 32u8, 60u8, 113u8, 117u8, 111u8, 116u8, 62u8]
}

/// `  <quot>`
pub fn lit_quot_head() -> (r: [u8; 8])
    ensures
        r@ == sp_quot_head(),
{
    let r: [u8; 8] = [32, 32, 60, 113, 117, 111, 116, 62];
    assert(r@ =~= sp_quot_head());
    r
}

/// `&!`
pub open spec fn sp_amp_bang() -> Seq<u8> {
    seq![38u8, 33u8]
}

/// `&!`
pub fn lit_amp_bang() -> (r: [u8; 2])
    ensures
        r@ == sp_amp_bang(),
{
    let r: [u8; 2] = [38, 33];
    assert(r@ =~= sp_amp_bang());
    r
}

/// `&`
pub open spec fn sp_amp() -> Seq<u8> {
    seq![38u8]
}

/// `&`
pub fn lit_amp() -> (r: [u8; 1])
    ensures
        r@ == sp_amp(),
{
    let r: [u8; 1] = [38];
    assert(r@ =~= sp_amp());
    r
}

/// `&![...]`
pub open spec fn sp_amp_bang_block() -> Seq<u8> {
    seq![38u8, 33u8, 91u8, 46u8, 46u8, 46u8, 93u8]
}

/// `&![...]`
pub fn lit_amp_bang_block() -> (r: [u8; 7])
    ensures
        r@ == sp_amp_bang_block(),
{
    let r: [u8; 7] = [38, 33, 91, 46, 46, 46, 93];
    assert(r@ =~= sp_amp_bang_block());
    r
}

/// `&[...]`
pub open spec fn sp_amp_block() -> Seq<u8> {
    seq![38u8, 91u8, 46u8, 46u8, 46u8, 93u8]
}

/// `&[...]`
pub fn lit_amp_block() -> (r: [u8; 6])
    ensures
        r@ == sp_amp_block(),
{
    let r: [u8; 6] = [38, 91, 46, 46, 46, 93];
    assert(r@ =~= sp_amp_block());
    r
}

/// `vol_load `
pub open spec fn sp_vol_load() -> Seq<u8> {
    seq![118u8, 111u8, 108u8, 95u8, 108u8, 111u8, 97u8, 100u8, 32u8]
}

/// `vol_load `
pub fn lit_vol_load() -> (r: [u8; 9])
    ensures
        r@ == sp_vol_load(),
{
    let r: [u8; 9] = [118, 111, 108, 95, 108, 111, 97, 100, 32];
    assert(r@ =~= sp_vol_load());
    r
}

/// `load `
pub open spec fn sp_load() -> Seq<u8> {
    seq![108u8, 111u8, 97u8, 100u8, 32u8]
}

/// `load `
pub fn lit_load() -> (r: [u8; 5])
    ensures
        r@ == sp_load(),
{
    let r: [u8; 5] = [108, 111, 97, 100, 32];
    assert(r@ =~= sp_load());
    r
}

/// `vol_load_field `
pub open spec fn sp_vol_load_field() -> Seq<u8> {
    seq![118u8, 111u8, 108u8, 95u8, 108u8, 111u8, 97u8, 100u8, 95u8, 102u8, 105u8, 101u8, 108u8, 100u8, 32u8]
}

/// `vol_load_field `
pub fn lit_vol_load_field() -> (r: [u8; 15])
    ensures
        r@ == sp_vol_load_field(),
{
    let r: [u8; 15] = [118, 111, 108, 95, 108, 111, 97, 100, 95, 102, 105, 101, 108, 100, 32];
    assert(r@ =~= sp_vol_load_field());
    r
}

/// `load_field `
pub open spec fn sp_load_field() -> Seq<u8> {
    seq![108u8, 111u8, 97u8, 100u8, 95u8, 102u8, 105u8, 101u8, 108u8, 100u8, 32u8]
}

/// `load_field `
pub fn lit_load_field() -> (r: [u8; 11])
    ensures
        r@ == sp_load_field(),
{
    let r: [u8; 11] = [108, 111, 97, 100, 95, 102, 105, 101, 108, 100, 32];
    assert(r@ =~= sp_load_field());
    r
}

/// ` mask=0x`
pub open spec fn sp_mask_hex() -> Seq<u8> {
    seq![32u8, 109u8, 97u8, 115u8, 107u8, 61u8, 48u8, 120u8]
}

/// ` mask=0x`
pub fn lit_mask_hex() -> (r: [u8; 8])
    ensures
        r@ == sp_mask_hex(),
{
    let r: [u8; 8] = [32, 109, 97, 115, 107, 61, 48, 120];
    assert(r@ =~= sp_mask_hex());
    r
}

/// ` shift=`
pub open spec fn sp_shift_eq() -> Seq<u8> {
    seq![32u8, 115u8, 104u8, 105u8, 102u8, 116u8, 61u8]
}

/// ` shift=`
pub fn lit_shift_eq() -> (r: [u8; 7])
    ensures
        r@ == sp_shift_eq(),
{
    let r: [u8; 7] = [32, 115, 104, 105, 102, 116, 61];
    assert(r@ =~= sp_shift_eq());
    r
}

/// `vol_store `
pub open spec fn sp_vol_store() -> Seq<u8> {
    seq![118u8, 111u8, 108u8, 95u8, 115u8, 116u8, 111u8, 114u8, 101u8, 32u8]
}

/// `vol_store `
pub fn lit_vol_store() -> (r: [u8; 10])
    ensures
        r@ == sp_vol_store(),
{
    let r: [u8; 10] = [118, 111, 108, 95, 115, 116, 111, 114, 101, 32];
    assert(r@ =~= sp_vol_store());
    r
}

/// `store `
pub open spec fn sp_store() -> Seq<u8> {
    seq![115u8, 116u8, 111u8, 114u8, 101u8, 32u8]
}

/// `store `
pub fn lit_store() -> (r: [u8; 6])
    ensures
        r@ == sp_store(),
{
    let r: [u8; 6] = [115, 116, 111, 114, 101, 32];
    assert(r@ =~= sp_store());
    r
}

/// `vol_store_field `
pub open spec fn sp_vol_store_field() -> Seq<u8> {
    seq![118u8, 111u8, 108u8, 95u8, 115u8, 116u8, 111u8, 114u8, 101u8, 95u8, 102u8, 105u8, 101u8, 108u8, 100u8, 32u8]
}

/// `vol_store_field `
pub fn lit_vol_store_field() -> (r: [u8; 16])
    ensures
        r@ == sp_vol_store_field(),
{
    let r: [u8; 16] = [118, 111, 108, 95, 115, 116, 111, 114, 101, 95, 102, 105, 101, 108, 100, 32];
    assert(r@ =~= sp_vol_store_field());
    r
}

/// `store_field `
pub open spec fn sp_store_field() -> Seq<u8> {
    seq![115u8, 116u8, 111u8, 114u8, 101u8, 95u8, 102u8, 105u8, 101u8, 108u8, 100u8, 32u8]
}

/// `store_field `
pub fn lit_store_field() -> (r: [u8; 12])
    ensures
        r@ == sp_store_field(),
{
    let r: [u8; 12] = [115, 116, 111, 114, 101, 95, 102, 105, 101, 108, 100, 32];
    assert(r@ =~= sp_store_field());
    r
}

/// `  mmio `
pub open spec fn sp_mmio_head() -> Seq<u8> {
    seq![32u8, 32u8, 109u8, 109u8, 105u8, 111u8, 32u8]
}

/// `  mmio `
pub fn lit_mmio_head() -> (r: [u8; 7])
    ensures
        r@ == sp_mmio_head(),
{
    let r: [u8; 7] = [32, 32, 109, 109, 105, 111, 32];
    assert(r@ =~= sp_mmio_head());
    r
}

/// `  dup`
pub open spec fn sp_dup_head() -> Seq<u8> {
    seq![32u8, 32u8, 100u8, 117u8, 112u8]
}

/// `  dup`
pub fn lit_dup_head() -> (r: [u8; 5])
    ensures
        r@ == sp_dup_head(),
{
    let r: [u8; 5] = [32, 32, 100, 117, 112];
    assert(r@ =~= sp_dup_head());
    r
}

/// `  drop`
pub open spec fn sp_drop_head() -> Seq<u8> {
    seq![32u8, 32u8, 100u8, 114u8, 111u8, 112u8]
}

/// `  drop`
pub fn lit_drop_head() -> (r: [u8; 6])
    ensures
        r@ == sp_drop_head(),
{
    let r: [u8; 6] = [32, 32, 100, 114, 111, 112];
    assert(r@ =~= sp_drop_head());
    r
}

/// `  swap`
pub open spec fn sp_swap_head() -> Seq<u8> {
    seq![32u8, 32u8, 115u8, 119u8, 97u8, 112u8]
}

/// `  swap`
pub fn lit_swap_head() -> (r: [u8; 6])
    ensures
        r@ == sp_swap_head(),
{
    let r: [u8; 6] = [32, 32, 115, 119, 97, 112];
    assert(r@ =~= sp_swap_head());
    r
}

/// `  check_subtype `
pub open spec fn sp_check_subtype() -> Seq<u8> {
    seq![32u8, 32u8, 99u8, 104u8, 101u8, 99u8, 107u8, 95u8, 115u8, 117u8, 98u8, 116u8, 121u8, 112u8, 101u8, 32u8]
}

/// `  check_subtype `
pub fn lit_check_subtype() -> (r: [u8; 16])
    ensures
        r@ == sp_check_subtype(),
{
    let r: [u8; 16] = [32, 32, 99, 104, 101, 99, 107, 95, 115, 117, 98, 116, 121, 112, 101, 32];
    assert(r@ =~= sp_check_subtype());
    r
}

/// `  trap_if_false SUBTYPE_FAIL\n`
pub open spec fn sp_trap_line() -> Seq<u8> {
    seq![32u8, 32u8, 116u8, 114u8, 97u8, 112u8, 95u8, 105u8, 102u8, 95u8, 102u8, 97u8, 108u8, 115u8, 101u8, 32u8, 83u8, 85u8, 66u8, 84u8, 89u8, 80u8, 69u8, 95u8, 70u8, 65u8, 73u8, 76u8, 10u8]
}

/// `  trap_if_false SUBTYPE_FAIL\n`
pub fn lit_trap_line() -> (r: [u8; 29])
    ensures
        r@ == sp_trap_line(),
{
    let r: [u8; 29] = [32, 32, 116, 114, 97, 112, 95, 105, 102, 95, 102, 97, 108, 115, 101, 32, 83, 85, 66, 84, 89, 80, 69, 95, 70, 65, 73, 76, 10];
    assert(r@ =~= sp_trap_line());
    r
}

/// `  as `
pub open spec fn sp_as_head() -> Seq<u8> {
    seq![32u8, 32u8, 97u8, 115u8, 32u8]
}

/// `  as `
pub fn lit_as_head() -> (r: [u8; 5])
    ensures
        r@ == sp_as_head(),
{
    let r: [u8; 5] = [32, 32, 97, 115, 32];
    assert(r@ =~= sp_as_head());
    r
}

/// `  if`
pub open spec fn sp_if_head() -> Seq<u8> {
    seq![32u8, 32u8, 105u8, 102u8]
}

/// `  if`
pub fn lit_if_head() -> (r: [u8; 4])
    ensures
        r@ == sp_if_head(),
{
    let r: [u8; 4] = [32, 32, 105, 102];
    assert(r@ =~= sp_if_head());
    r
}

/// `  while`
pub open spec fn sp_while_head() -> Seq<u8> {
    seq![32u8, 32u8, 119u8, 104u8, 105u8, 108u8, 101u8]
}

/// `  while`
pub fn lit_while_head() -> (r: [u8; 7])
    ensures
        r@ == sp_while_head(),
{
    let r: [u8; 7] = [32, 32, 119, 104, 105, 108, 101];
    assert(r@ =~= sp_while_head());
    r
}

/// `  loop`
pub open spec fn sp_loop_head() -> Seq<u8> {
    seq![32u8, 32u8, 108u8, 111u8, 111u8, 112u8]
}

/// `  loop`
pub fn lit_loop_head() -> (r: [u8; 6])
    ensures
        r@ == sp_loop_head(),
{
    let r: [u8; 6] = [32, 32, 108, 111, 111, 112];
    assert(r@ =~= sp_loop_head());
    r
}

/// `  return`
pub open spec fn sp_return_head() -> Seq<u8> {
    seq![32u8, 32u8, 114u8, 101u8, 116u8, 117u8, 114u8, 110u8]
}

/// `  return`
pub fn lit_return_head() -> (r: [u8; 8])
    ensures
        r@ == sp_return_head(),
{
    let r: [u8; 8] = [32, 32, 114, 101, 116, 117, 114, 110];
    assert(r@ =~= sp_return_head());
    r
}

/// `  lock`
pub open spec fn sp_lock_head() -> Seq<u8> {
    seq![32u8, 32u8, 108u8, 111u8, 99u8, 107u8]
}

/// `  lock`
pub fn lit_lock_head() -> (r: [u8; 6])
    ensures
        r@ == sp_lock_head(),
{
    let r: [u8; 6] = [32, 32, 108, 111, 99, 107];
    assert(r@ =~= sp_lock_head());
    r
}

/// `word `
pub open spec fn sp_word_head() -> Seq<u8> {
    seq![119u8, 111u8, 114u8, 100u8, 32u8]
}

/// `word `
pub fn lit_word_head() -> (r: [u8; 5])
    ensures
        r@ == sp_word_head(),
{
    let r: [u8; 5] = [119, 111, 114, 100, 32];
    assert(r@ =~= sp_word_head());
    r
}

/// ` `
pub open spec fn sp_space() -> Seq<u8> {
    seq![32u8]
}

/// ` `
pub fn lit_space() -> (r: [u8; 1])
    ensures
        r@ == sp_space(),
{
    let r: [u8; 1] = [32];
    assert(r@ =~= sp_space());
    r
}

} // verus!
