use vstd::prelude::*;

verus! {

/// The definition offset that the computation network derives from a
/// definition's name.
pub uninterp spec fn comp_def_offset_of(name: Seq<char>) -> u32;

/// Relies on `arcium_anchor::comp_def_offset`: the first four bytes of the
/// SHA-256 digest of the name's UTF-8 bytes, read little-endian; the result
/// depends on the name alone.
#[verifier::external_body]
pub(crate) fn derive_offset(name: &str) -> (offset: u32)
    ensures
        offset == comp_def_offset_of(name@),
{
    arcium_anchor::comp_def_offset(name)
}

} // verus!
