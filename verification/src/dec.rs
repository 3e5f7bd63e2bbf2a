//! The executable decoder: a faithful runner of the strict decode rules.
//!
//! Every function mirrors its mathematical twin in `sdec` result for
//! result, error for error, so the round-trip and canonicity lemmas carry
//! over to the code that actually runs.
use crate::bytes::{lemma_pow256_values, take_le};
use crate::check::{lemma_tys_view_sub, tys_any_variable, tys_slots_len};
use crate::enc::pow256;
use crate::err::Error;
use crate::sdec::{ru32, scalar_of_uint, sdec_elems, sdec_fields, sdec_heap, sdec_inplace};
use crate::ty::{lemma_slot_size_pos, ty_view, tys_view, STy, Ty};
use crate::value::{val_view, vals_view, SVal, Value};
use vstd::prelude::*;
use vstd::slice::{slice_subrange, slice_to_vec};

verus! {

/// Build the scalar value a width's unsigned integer stands for.
fn scalar_value(t: &Ty, x: u64) -> (v: Value)
    requires
        t@.is_scalar(),
        x < pow256(t@.slot_size()),
    ensures
        v@ == scalar_of_uint(t@, x as int),
{
    proof {
        lemma_pow256_values();
    }
    match t {
        Ty::U8 => Value::U8(x as u8),
        Ty::U16 => Value::U16(x as u16),
        Ty::U32 => Value::U32(x as u32),
        Ty::U64 => Value::U64(x),
        Ty::I8 => Value::I8(
            if x < 0x80 {
                x as i8
            } else {
                ((x as i64) - 0x100) as i8
            },
        ),
        Ty::I16 => Value::I16(
            if x < 0x8000 {
                x as i16
            } else {
                ((x as i64) - 0x1_0000) as i16
            },
        ),
        Ty::I32 => Value::I32(
            if x < 0x8000_0000 {
                x as i32
            } else {
                ((x as i64) - 0x1_0000_0000) as i32
            },
        ),
        Ty::I64 => Value::I64(
            if x < 0x8000_0000_0000_0000 {
                x as i64
            } else {
                ((x as i128) - 0x1_0000_0000_0000_0000) as i64
            },
        ),
        Ty::F32 => Value::F32(x as u32),
        Ty::F64 => Value::F64(x),
        _ => Value::U8(0),
    }
}

/// Decode one field at the fixed position, with the heap position in step.
pub fn unpack_inplace(t: &Ty, src: &[u8], fixed_pos: &mut u32, heap_pos: &mut u32) -> (r: Result<
    Value,
    Error,
>)
    requires
        t@.valid(),
    ensures
        r matches Ok(v) ==> sdec_inplace(t@, src@, *old(fixed_pos) as int, *old(heap_pos) as int)
            == Result::<(SVal, int), Error>::Ok((v@, *final(heap_pos) as int)) && *final(fixed_pos)
            == *old(fixed_pos) + t@.slot_size(),
        r matches Err(e) ==> sdec_inplace(t@, src@, *old(fixed_pos) as int, *old(heap_pos) as int)
            == Result::<(SVal, int), Error>::Err(e),
    decreases t, 1int, 0int,
{
    proof {
        lemma_slot_size_pos(t@);
    }
    match t {
        Ty::Str => {
            let orig = *fixed_pos;
            let end = orig as u64 + 4;
            if end > src.len() as u64 || end > 0xFFFF_FFFF {
                return Err(Error::ReadPastEnd);
            }
            let c = take_le(src, orig, 4) as u32;
            *fixed_pos = orig + 4;
            proof {
                lemma_pow256_values();
                assert(c == ru32(src@, orig as int));
            }
            if c == 0 {
                let v = Value::Str(Vec::new());
                proof {
                    assert(v@ == SVal::Str(Seq::<u8>::empty()));
                }
                Ok(v)
            } else if *heap_pos as u64 == orig as u64 + c as u64 {
                unpack_heap(t, src, heap_pos)
            } else {
                Err(Error::BadOffset)
            }
        },
        Ty::List(_) => {
            let orig = *fixed_pos;
            let end = orig as u64 + 4;
            if end > src.len() as u64 || end > 0xFFFF_FFFF {
                return Err(Error::ReadPastEnd);
            }
            let c = take_le(src, orig, 4) as u32;
            *fixed_pos = orig + 4;
            proof {
                lemma_pow256_values();
                assert(c == ru32(src@, orig as int));
            }
            if c == 0 {
                let v = Value::List(Vec::new());
                proof {
                    assert(v@ == SVal::List(vals_view(Seq::<Value>::empty())));
                    assert(vals_view(Seq::<Value>::empty()) =~= Seq::<SVal>::empty());
                }
                Ok(v)
            } else if *heap_pos as u64 == orig as u64 + c as u64 {
                unpack_heap(t, src, heap_pos)
            } else {
                Err(Error::BadOffset)
            }
        },
        Ty::Optional(it) => {
            let orig = *fixed_pos;
            let end = orig as u64 + 4;
            if end > src.len() as u64 || end > 0xFFFF_FFFF {
                return Err(Error::ReadPastEnd);
            }
            let c = take_le(src, orig, 4) as u32;
            *fixed_pos = orig + 4;
            proof {
                lemma_pow256_values();
                assert(c == ru32(src@, orig as int));
            }
            if c == 1 {
                Ok(Value::Optional(None))
            } else if c == 0 {
                match &**it {
                    Ty::Str => {
                        let v = Value::Optional(Some(Box::new(Value::Str(Vec::new()))));
                        proof {
                            reveal_with_fuel(val_view, 2);
                            assert(v@ == SVal::Optional(
                                Option::Some(Box::new(SVal::Str(Seq::<u8>::empty()))),
                            ));
                        }
                        Ok(v)
                    },
                    Ty::List(_) => {
                        let v = Value::Optional(Some(Box::new(Value::List(Vec::new()))));
                        proof {
                            reveal_with_fuel(val_view, 2);
                            assert(vals_view(Seq::<Value>::empty()) =~= Seq::<SVal>::empty());
                            assert(v@ == SVal::Optional(
                                Option::Some(Box::new(SVal::List(Seq::<SVal>::empty()))),
                            ));
                        }
                        Ok(v)
                    },
                    _ => {
                        proof {
                            match **it {
                                Ty::U8 => {},
                                Ty::U16 => {},
                                Ty::U32 => {},
                                Ty::U64 => {},
                                Ty::I8 => {},
                                Ty::I16 => {},
                                Ty::I32 => {},
                                Ty::I64 => {},
                                Ty::F32 => {},
                                Ty::F64 => {},
                                Ty::Str => {},
                                Ty::List(_) => {},
                                Ty::Optional(_) => {},
                                Ty::Record(_) => {},
                            }
                            assert(!(ty_view(**it) is Str) && !(ty_view(**it) is List));
                        }
                        Err(Error::BadOffset)
                    },
                }
            } else if *heap_pos as u64 == orig as u64 + c as u64 {
                match unpack_heap(it, src, heap_pos) {
                    Ok(x) => Ok(Value::Optional(Some(Box::new(x)))),
                    Err(e) => Err(e),
                }
            } else {
                Err(Error::BadOffset)
            }
        },
        Ty::Record(ts) => {
            if tys_any_variable(ts.as_slice()) {
                let orig = *fixed_pos;
                let end = orig as u64 + 4;
                if end > src.len() as u64 || end > 0xFFFF_FFFF {
                    return Err(Error::ReadPastEnd);
                }
                let c = take_le(src, orig, 4) as u32;
                *fixed_pos = orig + 4;
                proof {
                    lemma_pow256_values();
                    assert(c == ru32(src@, orig as int));
                }
                if *heap_pos as u64 == orig as u64 + c as u64 {
                    unpack_heap(t, src, heap_pos)
                } else {
                    Err(Error::BadOffset)
                }
            } else {
                match unpack_fields(ts.as_slice(), src, fixed_pos, heap_pos) {
                    Ok(vs) => Ok(Value::Record(vs)),
                    Err(e) => Err(e),
                }
            }
        },
        _ => {
            let w = t.fixed_size();
            let orig = *fixed_pos;
            let end = orig as u64 + w as u64;
            if end > src.len() as u64 || end > 0xFFFF_FFFF {
                return Err(Error::ReadPastEnd);
            }
            let x = take_le(src, orig, w);
            *fixed_pos = orig + w;
            Ok(scalar_value(t, x))
        },
    }
}

/// Decode a heap body at the given position.
pub fn unpack_heap(t: &Ty, src: &[u8], pos: &mut u32) -> (r: Result<Value, Error>)
    requires
        t@.valid(),
    ensures
        r matches Ok(v) ==> sdec_heap(t@, src@, *old(pos) as int) == Result::<
            (SVal, int),
            Error,
        >::Ok((v@, *final(pos) as int)),
        r matches Err(e) ==> sdec_heap(t@, src@, *old(pos) as int) == Result::<
            (SVal, int),
            Error,
        >::Err(e),
    decreases t, 0int, 0int,
{
    match t {
        Ty::Str => {
            let orig = *pos;
            let end4 = orig as u64 + 4;
            if end4 > src.len() as u64 || end4 > 0xFFFF_FFFF {
                return Err(Error::ReadPastEnd);
            }
            let n = take_le(src, orig, 4) as u32;
            proof {
                lemma_pow256_values();
                assert(n == ru32(src@, orig as int));
            }
            if n == 0 {
                return Err(Error::BadEmptyEncoding);
            }
            let end = orig as u64 + 4 + n as u64;
            if end > src.len() as u64 || end > 0xFFFF_FFFF {
                return Err(Error::ReadPastEnd);
            }
            let body = slice_subrange(src, (orig + 4) as usize, end as usize);
            if crate::utf8::check_utf8(body) {
                *pos = end as u32;
                let v = Value::Str(slice_to_vec(body));
                Ok(v)
            } else {
                Err(Error::BadUTF8)
            }
        },
        Ty::List(et) => {
            let orig = *pos;
            let end4 = orig as u64 + 4;
            if end4 > src.len() as u64 || end4 > 0xFFFF_FFFF {
                return Err(Error::ReadPastEnd);
            }
            let n = take_le(src, orig, 4) as u32;
            proof {
                lemma_pow256_values();
                assert(n == ru32(src@, orig as int));
                lemma_slot_size_pos(et@);
            }
            if n == 0 {
                return Err(Error::BadEmptyEncoding);
            }
            let ss = et.fixed_size();
            if n % ss != 0 {
                return Err(Error::BadSize);
            }
            let hp0 = orig as u64 + 4 + n as u64;
            if hp0 > 0xFFFF_FFFF {
                return Err(Error::ReadPastEnd);
            }
            let cnt = n / ss;
            let mut fp: u32 = orig + 4;
            let mut hp: u32 = hp0 as u32;
            match unpack_elems(et, cnt, src, &mut fp, &mut hp) {
                Ok(vs) => {
                    *pos = hp;
                    Ok(Value::List(vs))
                },
                Err(e) => Err(e),
            }
        },
        Ty::Record(ts) => {
            let orig = *pos;
            let fl64 = tys_slots_len(ts.as_slice());
            proof {
                assert(STy::slots_len(tys_view(ts@)) < 0x1_0000_0000);
            }
            if orig as u64 + fl64 > 0xFFFF_FFFF {
                return Err(Error::ReadPastEnd);
            }
            let mut fp: u32 = orig;
            let mut hp: u32 = (orig as u64 + fl64) as u32;
            match unpack_fields(ts.as_slice(), src, &mut fp, &mut hp) {
                Ok(vs) => {
                    *pos = hp;
                    Ok(Value::Record(vs))
                },
                Err(e) => Err(e),
            }
        },
        Ty::Optional(_) => Err(Error::BadOffset),
        _ => {
            let w = t.fixed_size();
            let orig = *pos;
            let end = orig as u64 + w as u64;
            if end > src.len() as u64 || end > 0xFFFF_FFFF {
                return Err(Error::ReadPastEnd);
            }
            let x = take_le(src, orig, w);
            *pos = orig + w;
            Ok(scalar_value(t, x))
        },
    }
}

/// Decode a record's fields in order, walking the fixed region.
fn unpack_fields(fields: &[Ty], src: &[u8], fixed_pos: &mut u32, heap_pos: &mut u32) -> (r: Result<
    Vec<Value>,
    Error,
>)
    requires
        STy::all_valid(tys_view(fields@)),
    ensures
        r matches Ok(vs) ==> sdec_fields(
            tys_view(fields@),
            src@,
            *old(fixed_pos) as int,
            *old(heap_pos) as int,
        ) == Result::<(Seq<SVal>, int), Error>::Ok((vals_view(vs@), *final(heap_pos) as int))
            && *final(fixed_pos) == *old(fixed_pos) + STy::slots_len(tys_view(fields@)),
        r matches Err(e) ==> sdec_fields(
            tys_view(fields@),
            src@,
            *old(fixed_pos) as int,
            *old(heap_pos) as int,
        ) == Result::<(Seq<SVal>, int), Error>::Err(e),
    decreases fields@, 2int, 0int,
{
    if fields.len() == 0 {
        let vs: Vec<Value> = Vec::new();
        proof {
            assert(vals_view(vs@) =~= Seq::<SVal>::empty());
        }
        Ok(vs)
    } else {
        let head = vstd::slice::slice_index_get(fields, 0);
        let rest = slice_subrange(fields, 1, fields.len());
        proof {
            lemma_tys_view_sub(fields@, 1, fields@.len() as int);
            assert(tys_view(fields@)[0] == head@);
            assert(tys_view(fields@).skip(1) =~= tys_view(fields@).subrange(
                1,
                fields@.len() as int,
            ));
            crate::roundtrip::lemma_slots_len_nonneg(tys_view(fields@).skip(1));
            lemma_slot_size_pos(head@);
        }
        match unpack_inplace(head, src, fixed_pos, heap_pos) {
            Ok(v0) => {
                match unpack_fields(rest, src, fixed_pos, heap_pos) {
                    Ok(mut vs) => {
                        let ghost prev = vs@;
                        vs.insert(0, v0);
                        proof {
                            assert(vs@.skip(1) =~= prev);
                            assert(vals_view(vs@) =~= seq![v0@] + vals_view(prev));
                        }
                        Ok(vs)
                    },
                    Err(e) => Err(e),
                }
            },
            Err(e) => Err(e),
        }
    }
}

/// Decode a fixed count of list elements of one type.
fn unpack_elems(et: &Ty, n: u32, src: &[u8], fixed_pos: &mut u32, heap_pos: &mut u32) -> (r: Result<
    Vec<Value>,
    Error,
>)
    requires
        et@.valid(),
    ensures
        r matches Ok(vs) ==> sdec_elems(
            et@,
            n as int,
            src@,
            *old(fixed_pos) as int,
            *old(heap_pos) as int,
        ) == Result::<(Seq<SVal>, int), Error>::Ok((vals_view(vs@), *final(heap_pos) as int))
            && vs@.len() == n,
        r matches Err(e) ==> sdec_elems(
            et@,
            n as int,
            src@,
            *old(fixed_pos) as int,
            *old(heap_pos) as int,
        ) == Result::<(Seq<SVal>, int), Error>::Err(e),
    decreases et, 2int, n,
{
    if n == 0 {
        let vs: Vec<Value> = Vec::new();
        proof {
            assert(vals_view(vs@) =~= Seq::<SVal>::empty());
        }
        Ok(vs)
    } else {
        match unpack_inplace(et, src, fixed_pos, heap_pos) {
            Ok(v0) => {
                match unpack_elems(et, n - 1, src, fixed_pos, heap_pos) {
                    Ok(mut vs) => {
                        let ghost prev = vs@;
                        vs.insert(0, v0);
                        proof {
                            assert(vs@.skip(1) =~= prev);
                            assert(vals_view(vs@) =~= seq![v0@] + vals_view(prev));
                        }
                        Ok(vs)
                    },
                    Err(e) => Err(e),
                }
            },
            Err(e) => Err(e),
        }
    }
}

/// Check one field at the fixed position without building a value.
pub fn verify_inplace(t: &Ty, src: &[u8], fixed_pos: &mut u32, heap_pos: &mut u32) -> (r: Result<
    (),
    Error,
>)
    requires
        t@.valid(),
    ensures
        sdec_inplace(t@, src@, *old(fixed_pos) as int, *old(heap_pos) as int) matches Ok(p) ==> (
        r is Ok && *final(heap_pos) == p.1 && *final(fixed_pos) == *old(fixed_pos)
            + t@.slot_size()),
        sdec_inplace(t@, src@, *old(fixed_pos) as int, *old(heap_pos) as int) matches Err(e) ==> r
            == Result::<(), Error>::Err(e),
    decreases t, 1int, 0int,
{
    proof {
        lemma_slot_size_pos(t@);
    }
    match t {
        Ty::Str => {
            let orig = *fixed_pos;
            let end = orig as u64 + 4;
            if end > src.len() as u64 || end > 0xFFFF_FFFF {
                return Err(Error::ReadPastEnd);
            }
            let c = take_le(src, orig, 4) as u32;
            *fixed_pos = orig + 4;
            proof {
                lemma_pow256_values();
                assert(c == ru32(src@, orig as int));
            }
            if c == 0 {
                Ok(())
            } else if *heap_pos as u64 == orig as u64 + c as u64 {
                verify_heap(t, src, heap_pos)
            } else {
                Err(Error::BadOffset)
            }
        },
        Ty::List(_) => {
            let orig = *fixed_pos;
            let end = orig as u64 + 4;
            if end > src.len() as u64 || end > 0xFFFF_FFFF {
                return Err(Error::ReadPastEnd);
            }
            let c = take_le(src, orig, 4) as u32;
            *fixed_pos = orig + 4;
            proof {
                lemma_pow256_values();
                assert(c == ru32(src@, orig as int));
            }
            if c == 0 {
                Ok(())
            } else if *heap_pos as u64 == orig as u64 + c as u64 {
                verify_heap(t, src, heap_pos)
            } else {
                Err(Error::BadOffset)
            }
        },
        Ty::Optional(it) => {
            let orig = *fixed_pos;
            let end = orig as u64 + 4;
            if end > src.len() as u64 || end > 0xFFFF_FFFF {
                return Err(Error::ReadPastEnd);
            }
            let c = take_le(src, orig, 4) as u32;
            *fixed_pos = orig + 4;
            proof {
                lemma_pow256_values();
                assert(c == ru32(src@, orig as int));
            }
            if c == 1 {
                Ok(())
            } else if c == 0 {
                match &**it {
                    Ty::Str => Ok(()),
                    Ty::List(_) => Ok(()),
                    _ => {
                        proof {
                            match **it {
                                Ty::U8 => {},
                                Ty::U16 => {},
                                Ty::U32 => {},
                                Ty::U64 => {},
                                Ty::I8 => {},
                                Ty::I16 => {},
                                Ty::I32 => {},
                                Ty::I64 => {},
                                Ty::F32 => {},
                                Ty::F64 => {},
                                Ty::Str => {},
                                Ty::List(_) => {},
                                Ty::Optional(_) => {},
                                Ty::Record(_) => {},
                            }
                            assert(!(ty_view(**it) is Str) && !(ty_view(**it) is List));
                        }
                        Err(Error::BadOffset)
                    },
                }
            } else if *heap_pos as u64 == orig as u64 + c as u64 {
                verify_heap(it, src, heap_pos)
            } else {
                Err(Error::BadOffset)
            }
        },
        Ty::Record(ts) => {
            if tys_any_variable(ts.as_slice()) {
                let orig = *fixed_pos;
                let end = orig as u64 + 4;
                if end > src.len() as u64 || end > 0xFFFF_FFFF {
                    return Err(Error::ReadPastEnd);
                }
                let c = take_le(src, orig, 4) as u32;
                *fixed_pos = orig + 4;
                proof {
                    lemma_pow256_values();
                    assert(c == ru32(src@, orig as int));
                }
                if *heap_pos as u64 == orig as u64 + c as u64 {
                    verify_heap(t, src, heap_pos)
                } else {
                    Err(Error::BadOffset)
                }
            } else {
                verify_fields(ts.as_slice(), src, fixed_pos, heap_pos)
            }
        },
        _ => {
            let w = t.fixed_size();
            let orig = *fixed_pos;
            let end = orig as u64 + w as u64;
            if end > src.len() as u64 || end > 0xFFFF_FFFF {
                return Err(Error::ReadPastEnd);
            }
            *fixed_pos = orig + w;
            Ok(())
        },
    }
}

/// Check a heap body at the given position without building a value.
pub fn verify_heap(t: &Ty, src: &[u8], pos: &mut u32) -> (r: Result<(), Error>)
    requires
        t@.valid(),
    ensures
        sdec_heap(t@, src@, *old(pos) as int) matches Ok(p) ==> (r is Ok && *final(pos) == p.1),
        sdec_heap(t@, src@, *old(pos) as int) matches Err(e) ==> r == Result::<(), Error>::Err(e),
    decreases t, 0int, 0int,
{
    match t {
        Ty::Str => {
            let orig = *pos;
            let end4 = orig as u64 + 4;
            if end4 > src.len() as u64 || end4 > 0xFFFF_FFFF {
                return Err(Error::ReadPastEnd);
            }
            let n = take_le(src, orig, 4) as u32;
            proof {
                lemma_pow256_values();
                assert(n == ru32(src@, orig as int));
            }
            if n == 0 {
                return Err(Error::BadEmptyEncoding);
            }
            let end = orig as u64 + 4 + n as u64;
            if end > src.len() as u64 || end > 0xFFFF_FFFF {
                return Err(Error::ReadPastEnd);
            }
            let body = slice_subrange(src, (orig + 4) as usize, end as usize);
            if crate::utf8::check_utf8(body) {
                *pos = end as u32;
                Ok(())
            } else {
                Err(Error::BadUTF8)
            }
        },
        Ty::List(et) => {
            let orig = *pos;
            let end4 = orig as u64 + 4;
            if end4 > src.len() as u64 || end4 > 0xFFFF_FFFF {
                return Err(Error::ReadPastEnd);
            }
            let n = take_le(src, orig, 4) as u32;
            proof {
                lemma_pow256_values();
                assert(n == ru32(src@, orig as int));
                lemma_slot_size_pos(et@);
            }
            if n == 0 {
                return Err(Error::BadEmptyEncoding);
            }
            let ss = et.fixed_size();
            if n % ss != 0 {
                return Err(Error::BadSize);
            }
            let hp0 = orig as u64 + 4 + n as u64;
            if hp0 > 0xFFFF_FFFF {
                return Err(Error::ReadPastEnd);
            }
            let cnt = n / ss;
            let mut fp: u32 = orig + 4;
            let mut hp: u32 = hp0 as u32;
            match verify_elems(et, cnt, src, &mut fp, &mut hp) {
                Ok(()) => {
                    *pos = hp;
                    Ok(())
                },
                Err(e) => Err(e),
            }
        },
        Ty::Record(ts) => {
            let orig = *pos;
            let fl64 = tys_slots_len(ts.as_slice());
            proof {
                assert(STy::slots_len(tys_view(ts@)) < 0x1_0000_0000);
            }
            if orig as u64 + fl64 > 0xFFFF_FFFF {
                return Err(Error::ReadPastEnd);
            }
            let mut fp: u32 = orig;
            let mut hp: u32 = (orig as u64 + fl64) as u32;
            match verify_fields(ts.as_slice(), src, &mut fp, &mut hp) {
                Ok(()) => {
                    *pos = hp;
                    Ok(())
                },
                Err(e) => Err(e),
            }
        },
        Ty::Optional(_) => Err(Error::BadOffset),
        _ => {
            let w = t.fixed_size();
            let orig = *pos;
            let end = orig as u64 + w as u64;
            if end > src.len() as u64 || end > 0xFFFF_FFFF {
                return Err(Error::ReadPastEnd);
            }
            *pos = orig + w;
            Ok(())
        },
    }
}

/// Check a record's fields in order without building values.
fn verify_fields(fields: &[Ty], src: &[u8], fixed_pos: &mut u32, heap_pos: &mut u32) -> (r: Result<
    (),
    Error,
>)
    requires
        STy::all_valid(tys_view(fields@)),
    ensures
        sdec_fields(tys_view(fields@), src@, *old(fixed_pos) as int, *old(heap_pos) as int)
            matches Ok(p) ==> (r is Ok && *final(heap_pos) == p.1 && *final(fixed_pos) == *old(
            fixed_pos,
        ) + STy::slots_len(tys_view(fields@))),
        sdec_fields(tys_view(fields@), src@, *old(fixed_pos) as int, *old(heap_pos) as int)
            matches Err(e) ==> r == Result::<(), Error>::Err(e),
    decreases fields@, 2int, 0int,
{
    if fields.len() == 0 {
        Ok(())
    } else {
        let head = vstd::slice::slice_index_get(fields, 0);
        let rest = slice_subrange(fields, 1, fields.len());
        proof {
            lemma_tys_view_sub(fields@, 1, fields@.len() as int);
            assert(tys_view(fields@)[0] == head@);
            assert(tys_view(fields@).skip(1) =~= tys_view(fields@).subrange(
                1,
                fields@.len() as int,
            ));
            crate::roundtrip::lemma_slots_len_nonneg(tys_view(fields@).skip(1));
            lemma_slot_size_pos(head@);
        }
        match verify_inplace(head, src, fixed_pos, heap_pos) {
            Ok(()) => verify_fields(rest, src, fixed_pos, heap_pos),
            Err(e) => Err(e),
        }
    }
}

/// Check a fixed count of list elements without building values.
fn verify_elems(et: &Ty, n: u32, src: &[u8], fixed_pos: &mut u32, heap_pos: &mut u32) -> (r: Result<
    (),
    Error,
>)
    requires
        et@.valid(),
    ensures
        sdec_elems(et@, n as int, src@, *old(fixed_pos) as int, *old(heap_pos) as int) matches Ok(
            p,
        ) ==> (r is Ok && *final(heap_pos) == p.1),
        sdec_elems(et@, n as int, src@, *old(fixed_pos) as int, *old(heap_pos) as int) matches Err(
            e,
        ) ==> r == Result::<(), Error>::Err(e),
    decreases et, 2int, n,
{
    if n == 0 {
        Ok(())
    } else {
        match verify_inplace(et, src, fixed_pos, heap_pos) {
            Ok(()) => verify_elems(et, n - 1, src, fixed_pos, heap_pos),
            Err(e) => Err(e),
        }
    }
}

} // verus!
