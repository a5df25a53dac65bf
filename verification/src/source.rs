//! Detection of zstd-compressed input.
use vstd::prelude::*;

verus! {

/// The zstd frame magic number (`0xFD2FB528`, little-endian on the wire).
///
/// Only the standard Zstandard frame magic is detected, not skippable-frame
/// magic (`0x184D2A50..=0x184D2A5F`).
pub open spec fn zstd_magic() -> Seq<u8> {
    seq![0x28u8, 0xb5u8, 0x2fu8, 0xfdu8]
}

/// Whether the input that begins with `prefix` is zstd-compressed: it starts
/// with the zstd frame magic number. Shorter prefixes never match.
pub fn starts_with_zstd_magic(prefix: &[u8]) -> (r: bool)
    ensures
        r == (prefix@.len() >= 4 && prefix@.take(4) == zstd_magic()),
{
    if prefix.len() < 4 {
        return false;
    }
    let r = prefix[0] == 0x28 && prefix[1] == 0xb5 && prefix[2] == 0x2f && prefix[3] == 0xfd;
    assert(r ==> prefix@.take(4) =~= zstd_magic());
    assert(prefix@.take(4) == zstd_magic() ==> prefix@.take(4)[0] == 0x28 && prefix@.take(4)[1] == 0xb5
        && prefix@.take(4)[2] == 0x2f && prefix@.take(4)[3] == 0xfd);
    r
}

} // verus!
