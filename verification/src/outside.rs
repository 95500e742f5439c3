//! The calls into the rushdown crate that the verified code makes, with the
//! contracts that are believed of them.

use vstd::prelude::*;

verus! {

/// A byte that rushdown counts as a space: tab, line feed, carriage return
/// or the space itself.
pub open spec fn is_space_byte(c: u8) -> bool {
    c == 0x09u8 || c == 0x0au8 || c == 0x0du8 || c == 0x20u8
}

/// A byte string that is empty or holds only space bytes.
pub open spec fn all_space(s: Seq<u8>) -> bool {
    forall|i: int| 0 <= i < s.len() ==> #[trigger] is_space_byte(s[i])
}

/// Calls `rushdown::util::is_blank`. Its source walks the bytes and answers
/// `false` at the first byte that its space table does not mark; the table
/// marks exactly the bytes 9, 10, 13 and 32. So the result is whether every
/// byte is one of those.
#[verifier::external_body]
pub fn is_blank(s: &[u8]) -> (res: bool)
    ensures
        res == all_space(s@),
{
    rushdown::util::is_blank(s)
}

/// What `rushdown::util::indent_position(s, current_pos, width)` returns: the
/// number of bytes of `s` that make up an indentation of `width` columns,
/// tabs counted to the next multiple of four from `current_pos`, and the
/// columns that the last tab leaves over; `None` when the indentation of `s`
/// is narrower than `width`.
pub uninterp spec fn indent_position_of(s: Seq<u8>, current_pos: usize, width: usize) -> Option<(usize, usize)>;

/// Calls `rushdown::util::indent_position`. The result is named by
/// `indent_position_of`; the one fact stated of it is that the position it
/// gives lies within `s` (its loop stops at `s.len()` and it returns that
/// counter). The source adds `current_pos` to a width that stays below
/// `width + 4` only when it meets a tab, so where `s` holds a tab `requires`
/// keeps that sum from overflowing.
#[verifier::external_body]
pub fn indent_position(s: &[u8], current_pos: usize, width: usize) -> (res: Option<(usize, usize)>)
    requires
        s@.contains(0x09u8) ==> current_pos as int + width as int + 4 <= usize::MAX as int,
    ensures
        res == indent_position_of(s@, current_pos, width),
        res matches Some((pos, _)) ==> pos <= s@.len(),
{
    rushdown::util::indent_position(s, current_pos, width)
}

/// `level` levels of indentation as rushdown's pretty printer writes them:
/// two spaces per level.
pub open spec fn indent_text(level: nat) -> Seq<char> {
    Seq::new(2 * level, |i: int| ' ')
}

/// Calls `rushdown::ast::pp_indent`, whose body is `"  ".repeat(level)`:
/// the result is `2 * level` spaces. `repeat` panics when the length
/// overflows, which `requires` rules out.
#[verifier::external_body]
pub fn pp_indent(level: usize) -> (res: String)
    requires
        2 * level <= isize::MAX as int,
    ensures
        res@ == indent_text(level as nat),
{
    rushdown::ast::pp_indent(level)
}

} // verus!
