//! Reading and writing little-endian numbers in byte buffers.
use crate::enc::{le, le_val, pow256};
use vstd::prelude::*;
use vstd::slice::slice_index_get;

verus! {

/// The powers of 256 up to a width of eight bytes.
pub proof fn lemma_pow256_values()
    ensures
        pow256(0) == 1,
        pow256(1) == 0x100,
        pow256(2) == 0x1_0000,
        pow256(3) == 0x100_0000,
        pow256(4) == 0x1_0000_0000,
        pow256(5) == 0x100_0000_0000,
        pow256(6) == 0x1_0000_0000_0000,
        pow256(7) == 0x100_0000_0000_0000,
        pow256(8) == 0x1_0000_0000_0000_0000,
{
    assert(pow256(0) == 1);
    assert(pow256(1) == 256 * pow256(0));
    assert(pow256(2) == 256 * pow256(1));
    assert(pow256(3) == 256 * pow256(2));
    assert(pow256(4) == 256 * pow256(3));
    assert(pow256(5) == 256 * pow256(4));
    assert(pow256(6) == 256 * pow256(5));
    assert(pow256(7) == 256 * pow256(6));
    assert(pow256(8) == 256 * pow256(7));
}

/// Read `nbytes` little-endian bytes at `p`; the caller has already checked
/// the bounds.
pub fn take_le(src: &[u8], p: u32, nbytes: u32) -> (x: u64)
    requires
        nbytes <= 8,
        p + nbytes <= src@.len(),
        p + nbytes <= 0xFFFF_FFFF,
    ensures
        x == le_val(src@.subrange(p as int, p + nbytes)),
        x < pow256(nbytes as int),
    decreases nbytes,
{
    proof {
        lemma_pow256_values();
    }
    if nbytes == 0 {
        proof {
            assert(src@.subrange(p as int, p as int).len() == 0);
        }
        0
    } else {
        let b0 = *slice_index_get(src, p as usize);
        let rest = take_le(src, p + 1, nbytes - 1);
        proof {
            let s = src@.subrange(p as int, p + nbytes);
            assert(s[0] == src@[p as int]);
            assert(s.skip(1) =~= src@.subrange(p + 1, p + nbytes));
            assert(rest < pow256(nbytes - 1));
            assert(256 * rest + b0 < 256 * pow256(nbytes - 1)) by (nonlinear_arith)
                requires
                    rest < pow256(nbytes - 1),
                    b0 < 256,
            ;
        }
        b0 as u64 + 256 * rest
    }
}

/// Append `nbytes` little-endian bytes of `x`.
pub fn write_le(dest: &mut Vec<u8>, x: u64, nbytes: u32)
    requires
        nbytes <= 8,
        x < pow256(nbytes as int),
    ensures
        final(dest)@ == old(dest)@ + le(nbytes as int, x as int),
    decreases nbytes,
{
    proof {
        lemma_pow256_values();
    }
    if nbytes == 0 {
        proof {
            assert(dest@ =~= dest@ + le(0, x as int));
        }
    } else {
        dest.push((x % 256) as u8);
        write_le(dest, x / 256, nbytes - 1);
        proof {
            assert(dest@ =~= old(dest)@ + le(nbytes as int, x as int));
        }
    }
}

/// Overwrite the four bytes at `pos` with the little-endian form of `x`.
pub fn patch_le4(dest: &mut Vec<u8>, pos: usize, x: u32)
    requires
        pos + 4 <= old(dest)@.len(),
    ensures
        final(dest)@.len() == old(dest)@.len(),
        final(dest)@.subrange(pos as int, pos + 4) == le(4, x as int),
        forall|j: int|
            0 <= j < final(dest)@.len() && !(pos <= j < pos + 4) ==> final(dest)@[j] == old(
                dest,
            )@[j],
{
    proof {
        lemma_pow256_values();
    }
    let len = dest.len();
    proof {
        assert(pos + 4 <= len);
    }
    let b0 = (x % 256) as u8;
    let r1 = x / 256;
    let b1 = (r1 % 256) as u8;
    let r2 = r1 / 256;
    let b2 = (r2 % 256) as u8;
    let b3 = (r2 / 256) as u8;
    dest.set(pos, b0);
    dest.set(pos + 1, b1);
    dest.set(pos + 2, b2);
    dest.set(pos + 3, b3);
    proof {
        let v = x as int;
        assert(le(4, v) == seq![
            (v % 256) as u8,
        ] + le(3, v / 256));
        assert(le(3, v / 256) == seq![
            ((v / 256) % 256) as u8,
        ] + le(2, v / 256 / 256));
        assert(le(2, v / 256 / 256) == seq![
            ((v / 256 / 256) % 256) as u8,
        ] + le(1, v / 256 / 256 / 256));
        assert(le(1, v / 256 / 256 / 256) == seq![
            ((v / 256 / 256 / 256) % 256) as u8,
        ] + le(0, v / 256 / 256 / 256 / 256));
        assert(v / 256 / 256 / 256 < 256);
        assert((v / 256 / 256 / 256) % 256 == v / 256 / 256 / 256);
        assert(dest@.subrange(pos as int, pos + 4) =~= le(4, x as int));
    }
}

} // verus!
