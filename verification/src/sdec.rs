//! The strict decoder, as a mathematical function of a type and a buffer.
//!
//! Decoding advances two positions in lockstep: a fixed position inside the
//! current fixed region, and a heap position into the trailing bodies. Every
//! offset read must equal the distance from its slot to the present heap
//! position; anything else is rejected, so at most one byte string decodes
//! to a given value.
use crate::enc::le_val;
use crate::err::Error;
use crate::ty::STy;
use crate::utf8::utf8_ok;
use crate::value::SVal;
use vstd::prelude::*;

verus! {

/// Whether `n` bytes can be taken at position `p`: inside the buffer, and
/// without the end position leaving 32 bits.
pub open spec fn read_ok(b: Seq<u8>, p: int, n: int) -> bool {
    p + n <= b.len() && p + n <= 0xFFFF_FFFF
}

/// The 32-bit little-endian number at position `p`.
pub open spec fn ru32(b: Seq<u8>, p: int) -> int {
    le_val(b.subrange(p, p + 4))
}

/// The scalar value a width's unsigned integer stands for.
pub open spec fn scalar_of_uint(t: STy, n: int) -> SVal {
    match t {
        STy::U8 => SVal::U8(n as u8),
        STy::U16 => SVal::U16(n as u16),
        STy::U32 => SVal::U32(n as u32),
        STy::U64 => SVal::U64(n as u64),
        STy::I8 => SVal::I8(
            if n < 0x80 {
                n as i8
            } else {
                (n - 0x100) as i8
            },
        ),
        STy::I16 => SVal::I16(
            if n < 0x8000 {
                n as i16
            } else {
                (n - 0x1_0000) as i16
            },
        ),
        STy::I32 => SVal::I32(
            if n < 0x8000_0000 {
                n as i32
            } else {
                (n - 0x1_0000_0000) as i32
            },
        ),
        STy::I64 => SVal::I64(
            if n < 0x8000_0000_0000_0000 {
                n as i64
            } else {
                (n - 0x1_0000_0000_0000_0000) as i64
            },
        ),
        STy::F32 => SVal::F32(n as u32),
        STy::F64 => SVal::F64(n as u64),
        _ => SVal::U8(0),
    }
}

/// Decode one field from its fixed-region bytes at `fp`, with the heap
/// position at `hp`. The fixed position advances by the field's slot size;
/// the result carries the new heap position.
pub open spec fn sdec_inplace(t: STy, b: Seq<u8>, fp: int, hp: int) -> Result<(SVal, int), Error>
    decreases t, 1int, 0int,
{
    match t {
        STy::Str => if !read_ok(b, fp, 4) {
            Result::Err(Error::ReadPastEnd)
        } else {
            let c = ru32(b, fp);
            if c == 0 {
                Result::Ok((SVal::Str(Seq::empty()), hp))
            } else if hp == fp + c {
                sdec_heap(t, b, hp)
            } else {
                Result::Err(Error::BadOffset)
            }
        },
        STy::List(_) => if !read_ok(b, fp, 4) {
            Result::Err(Error::ReadPastEnd)
        } else {
            let c = ru32(b, fp);
            if c == 0 {
                Result::Ok((SVal::List(Seq::empty()), hp))
            } else if hp == fp + c {
                sdec_heap(t, b, hp)
            } else {
                Result::Err(Error::BadOffset)
            }
        },
        STy::Optional(it) => if !read_ok(b, fp, 4) {
            Result::Err(Error::ReadPastEnd)
        } else {
            let c = ru32(b, fp);
            if c == 1 {
                Result::Ok((SVal::Optional(Option::None), hp))
            } else if c == 0 {
                match *it {
                    STy::Str => Result::Ok(
                        (SVal::Optional(Option::Some(Box::new(SVal::Str(Seq::empty())))), hp),
                    ),
                    STy::List(_) => Result::Ok(
                        (SVal::Optional(Option::Some(Box::new(SVal::List(Seq::empty())))), hp),
                    ),
                    _ => Result::Err(Error::BadOffset),
                }
            } else if hp == fp + c {
                match sdec_heap(*it, b, hp) {
                    Result::Ok((v, p2)) => Result::Ok(
                        (SVal::Optional(Option::Some(Box::new(v))), p2),
                    ),
                    Result::Err(e) => Result::Err(e),
                }
            } else {
                Result::Err(Error::BadOffset)
            }
        },
        STy::Record(ts) => if STy::any_variable(ts) {
            if !read_ok(b, fp, 4) {
                Result::Err(Error::ReadPastEnd)
            } else {
                let c = ru32(b, fp);
                if hp == fp + c {
                    sdec_heap(t, b, hp)
                } else {
                    Result::Err(Error::BadOffset)
                }
            }
        } else {
            match sdec_fields(ts, b, fp, hp) {
                Result::Ok((vs, hp2)) => Result::Ok((SVal::Record(vs), hp2)),
                Result::Err(e) => Result::Err(e),
            }
        },
        _ => if !read_ok(b, fp, t.slot_size()) {
            Result::Err(Error::ReadPastEnd)
        } else {
            Result::Ok(
                (scalar_of_uint(t, le_val(b.subrange(fp, fp + t.slot_size()))), hp),
            )
        },
    }
}

/// Decode a heap body at position `p`; the result carries the position just
/// past it.
pub open spec fn sdec_heap(t: STy, b: Seq<u8>, p: int) -> Result<(SVal, int), Error>
    decreases t, 0int, 0int,
{
    match t {
        STy::Str => if !read_ok(b, p, 4) {
            Result::Err(Error::ReadPastEnd)
        } else {
            let n = ru32(b, p);
            if n == 0 {
                Result::Err(Error::BadEmptyEncoding)
            } else if !read_ok(b, p + 4, n) {
                Result::Err(Error::ReadPastEnd)
            } else {
                let s = b.subrange(p + 4, p + 4 + n);
                if utf8_ok(s) {
                    Result::Ok((SVal::Str(s), p + 4 + n))
                } else {
                    Result::Err(Error::BadUTF8)
                }
            }
        },
        STy::List(et) => if !read_ok(b, p, 4) {
            Result::Err(Error::ReadPastEnd)
        } else {
            let n = ru32(b, p);
            if n == 0 {
                Result::Err(Error::BadEmptyEncoding)
            } else if n % et.slot_size() != 0 {
                Result::Err(Error::BadSize)
            } else if p + 4 + n > 0xFFFF_FFFF {
                Result::Err(Error::ReadPastEnd)
            } else {
                match sdec_elems(*et, n / et.slot_size(), b, p + 4, p + 4 + n) {
                    Result::Ok((vs, hp2)) => Result::Ok((SVal::List(vs), hp2)),
                    Result::Err(e) => Result::Err(e),
                }
            }
        },
        STy::Record(ts) => if p + STy::slots_len(ts) > 0xFFFF_FFFF {
            Result::Err(Error::ReadPastEnd)
        } else {
            match sdec_fields(ts, b, p, p + STy::slots_len(ts)) {
                Result::Ok((vs, hp2)) => Result::Ok((SVal::Record(vs), hp2)),
                Result::Err(e) => Result::Err(e),
            }
        },
        STy::Optional(_) => Result::Err(Error::BadOffset),
        _ => if !read_ok(b, p, t.slot_size()) {
            Result::Err(Error::ReadPastEnd)
        } else {
            Result::Ok(
                (scalar_of_uint(t, le_val(b.subrange(p, p + t.slot_size()))), p + t.slot_size()),
            )
        },
    }
}

/// Decode a record's fields in order; `fp` walks the fixed region while the
/// heap position threads through.
pub open spec fn sdec_fields(ts: Seq<STy>, b: Seq<u8>, fp: int, hp: int) -> Result<
    (Seq<SVal>, int),
    Error,
>
    decreases ts, 3int, 0int,
{
    if ts.len() == 0 {
        Result::Ok((Seq::empty(), hp))
    } else {
        match sdec_inplace(ts[0], b, fp, hp) {
            Result::Ok((v, hp1)) => match sdec_fields(
                ts.skip(1),
                b,
                fp + ts[0].slot_size(),
                hp1,
            ) {
                Result::Ok((vs, hp2)) => Result::Ok((seq![v] + vs, hp2)),
                Result::Err(e) => Result::Err(e),
            },
            Result::Err(e) => Result::Err(e),
        }
    }
}

/// Decode `n` list elements of one type, walking the element fixed region.
pub open spec fn sdec_elems(et: STy, n: int, b: Seq<u8>, fp: int, hp: int) -> Result<
    (Seq<SVal>, int),
    Error,
>
    decreases et, 3int, n,
{
    if n <= 0 {
        Result::Ok((Seq::empty(), hp))
    } else {
        match sdec_inplace(et, b, fp, hp) {
            Result::Ok((v, hp1)) => match sdec_elems(et, n - 1, b, fp + et.slot_size(), hp1) {
                Result::Ok((vs, hp2)) => Result::Ok((seq![v] + vs, hp2)),
                Result::Err(e) => Result::Err(e),
            },
            Result::Err(e) => Result::Err(e),
        }
    }
}

/// Decode a whole buffer, with nothing left over: a record's fixed region
/// starts the buffer with its heap right after it; any other value is one
/// field at position 0 whose heap begins right after its fixed bytes.
pub open spec fn sdec_top(t: STy, b: Seq<u8>) -> Result<SVal, Error> {
    let run = if t is Record {
        sdec_heap(t, b, 0)
    } else {
        sdec_inplace(t, b, 0, t.slot_size())
    };
    match run {
        Result::Ok((v, hp2)) => if hp2 == b.len() {
            Result::Ok(v)
        } else {
            Result::Err(Error::BadSize)
        },
        Result::Err(e) => Result::Err(e),
    }
}

} // verus!
