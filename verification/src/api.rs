//! Whole-buffer decode and verify: the consumer-facing operations.
use crate::dec::{unpack_heap, unpack_inplace, verify_heap, verify_inplace};
use crate::enc::enc;
use crate::err::Error;
use crate::roundtrip::lemma_top_of_enc;
use crate::sdec::sdec_top;
use crate::sound::lemma_top_sound;
use crate::ty::Ty;
use crate::value::{SVal, Value};
use vstd::prelude::*;

verus! {

/// Decode a whole buffer as one value of the given type.
///
/// Succeeds exactly on the canonical encoding of some well-formed value,
/// and then returns that value: together with `pack`, decoding inverts
/// encoding and accepts nothing else.
pub fn unpack(t: &Ty, src: &[u8]) -> (r: Result<Value, Error>)
    requires
        t@.valid(),
    ensures
        r matches Ok(v) ==> (v@.wf(t@) && src@ == enc(t@, v@) && src@.len() <= 0xFFFF_FFFF
            && sdec_top(t@, src@) == Result::<SVal, Error>::Ok(v@)),
        r matches Err(e) ==> sdec_top(t@, src@) == Result::<SVal, Error>::Err(e),
        forall|v0: SVal|
            v0.wf(t@) && src@ == #[trigger] enc(t@, v0) && src@.len() <= 0xFFFF_FFFF ==> (
            r matches Ok(v) && v@ == v0),
{
    proof {
        lemma_top_sound(t@, src@);
        assert forall|v0: SVal|
            v0.wf(t@) && src@ == #[trigger] enc(t@, v0) && src@.len()
                <= 0xFFFF_FFFF implies sdec_top(t@, src@) == Result::<SVal, Error>::Ok(v0) by {
            lemma_top_of_enc(t@, v0, src@);
        }
    }
    let run = match t {
        Ty::Record(_) => {
            let mut pos: u32 = 0;
            match unpack_heap(t, src, &mut pos) {
                Ok(v) => Ok((v, pos)),
                Err(e) => Err(e),
            }
        },
        _ => {
            let mut fp: u32 = 0;
            let mut hp: u32 = t.fixed_size();
            match unpack_inplace(t, src, &mut fp, &mut hp) {
                Ok(v) => Ok((v, hp)),
                Err(e) => Err(e),
            }
        },
    };
    match run {
        Ok((v, end)) => {
            if end as u64 == src.len() as u64 {
                Ok(v)
            } else {
                Err(Error::BadSize)
            }
        },
        Err(e) => Err(e),
    }
}

/// Check that a whole buffer is the canonical encoding of some well-formed
/// value of the given type, without building the value.
///
/// Nothing but such an encoding passes: no alternative offsets, no
/// heap-side empty forms, no bytes left over.
pub fn verify(t: &Ty, src: &[u8]) -> (r: Result<(), Error>)
    requires
        t@.valid(),
    ensures
        r is Ok ==> (src@.len() <= 0xFFFF_FFFF && exists|v: SVal|
            v.wf(t@) && src@ == #[trigger] enc(t@, v)),
        forall|v0: SVal|
            v0.wf(t@) && src@ == #[trigger] enc(t@, v0) && src@.len() <= 0xFFFF_FFFF ==> r is Ok,
        r matches Err(e) ==> sdec_top(t@, src@) == Result::<SVal, Error>::Err(e),
        sdec_top(t@, src@) matches Ok(v0) ==> r is Ok,
{
    proof {
        lemma_top_sound(t@, src@);
        assert forall|v0: SVal|
            v0.wf(t@) && src@ == #[trigger] enc(t@, v0) && src@.len()
                <= 0xFFFF_FFFF implies sdec_top(t@, src@) == Result::<SVal, Error>::Ok(v0) by {
            lemma_top_of_enc(t@, v0, src@);
        }
    }
    let run = match t {
        Ty::Record(_) => {
            let mut pos: u32 = 0;
            match verify_heap(t, src, &mut pos) {
                Ok(()) => Ok(pos),
                Err(e) => Err(e),
            }
        },
        _ => {
            let mut fp: u32 = 0;
            let mut hp: u32 = t.fixed_size();
            match verify_inplace(t, src, &mut fp, &mut hp) {
                Ok(()) => Ok(hp),
                Err(e) => Err(e),
            }
        },
    };
    match run {
        Ok(end) => {
            if end as u64 == src.len() as u64 {
                Ok(())
            } else {
                Err(Error::BadSize)
            }
        },
        Err(e) => Err(e),
    }
}

} // verus!
