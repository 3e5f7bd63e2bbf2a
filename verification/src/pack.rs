//! The executable encoder: fixed bytes first, then per-field offset
//! patching with the bodies appended behind, exactly as the canonical
//! layout prescribes.
use crate::bytes::{lemma_pow256_values, patch_le4, write_le};
use crate::check::{lemma_tys_view_sub, lemma_vals_view_sub, tys_any_variable};
use crate::enc::{
    benc, bseq, ebseq, efseq, einit, enc, fenc, fenc_init, finit, fseq, henc, le, lemma_efseq_len,
    lemma_einit_len, lemma_fenc_init_fixed, lemma_fenc_init_len, lemma_fenc_len,
    lemma_finit_len, lemma_fseq_len, lemma_le_len, lemma_scalar_uint_range, pow256, scalar_uint,
    empty_sentinel,
};
use crate::roundtrip::{lemma_slots_len_nonneg, lemma_subrange_split};
use crate::ty::{lemma_slot_size_pos, ty_view, tys_view, STy, Ty};
use crate::value::{val_view, vals_view, SVal, Value};
use vstd::prelude::*;
use vstd::slice::{slice_index_get, slice_subrange};

verus! {

/// The unsigned integer a scalar value encodes.
fn scalar_uint_of(t: &Ty, v: &Value) -> (x: u64)
    requires
        t@.is_scalar(),
        v@.wf(t@),
    ensures
        x == scalar_uint(v@),
        x < pow256(t@.slot_size()),
{
    proof {
        lemma_scalar_uint_range(t@, v@);
        lemma_pow256_values();
    }
    match v {
        Value::U8(x) => *x as u64,
        Value::U16(x) => *x as u64,
        Value::U32(x) => *x as u64,
        Value::U64(x) => *x,
        Value::I8(x) => if *x >= 0 {
            *x as u64
        } else {
            (*x as i64 + 0x100) as u64
        },
        Value::I16(x) => if *x >= 0 {
            *x as u64
        } else {
            (*x as i64 + 0x1_0000) as u64
        },
        Value::I32(x) => if *x >= 0 {
            *x as u64
        } else {
            (*x as i64 + 0x1_0000_0000) as u64
        },
        Value::I64(x) => if *x >= 0 {
            *x as u64
        } else {
            ((*x as i128) + 0x1_0000_0000_0000_0000) as u64
        },
        Value::F32(x) => *x as u64,
        Value::F64(x) => *x,
        _ => 0,
    }
}

/// Append a byte string.
fn append_bytes(dest: &mut Vec<u8>, s: &Vec<u8>)
    ensures
        final(dest)@ == old(dest)@ + s@,
{
    let mut i: usize = 0;
    while i < s.len()
        invariant
            i <= s@.len(),
            dest@ == old(dest)@ + s@.subrange(0, i as int),
        decreases s@.len() - i,
    {
        let b = s[i];
        dest.push(b);
        i = i + 1;
        proof {
            assert(dest@ =~= old(dest)@ + s@.subrange(0, i as int));
        }
    }
    proof {
        assert(s@.subrange(0, s@.len() as int) =~= s@);
    }
}

/// First pass: append a field's fixed bytes, with zeroed or sentinel slots
/// for what the second pass will settle.
fn pack_fixed_part(t: &Ty, v: &Value, dest: &mut Vec<u8>)
    requires
        t@.valid(),
        v@.wf(t@),
    ensures
        final(dest)@ == old(dest)@ + fenc_init(t@, v@),
    decreases t, 1int, 0int,
{
    proof {
        lemma_pow256_values();
    }
    match t {
        Ty::Str => {
            write_le(dest, 0, 4);
        },
        Ty::List(_) => {
            write_le(dest, 0, 4);
        },
        Ty::Optional(_) => {
            write_le(dest, 1, 4);
        },
        Ty::Record(ts) => {
            if tys_any_variable(ts.as_slice()) {
                write_le(dest, 0, 4);
            } else {
                match v {
                    Value::Record(vs) => {
                        pack_fields_init(ts.as_slice(), vs.as_slice(), dest);
                    },
                    _ => {
                        proof {
                            assert(false);
                        }
                    },
                }
            }
        },
        _ => {
            let x = scalar_uint_of(t, v);
            let w = t.fixed_size();
            write_le(dest, x, w);
        },
    }
}

/// First pass over a field list.
fn pack_fields_init(fields: &[Ty], vals: &[Value], dest: &mut Vec<u8>)
    requires
        STy::all_valid(tys_view(fields@)),
        SVal::fields_wf(vals_view(vals@), tys_view(fields@)),
    ensures
        final(dest)@ == old(dest)@ + finit(tys_view(fields@), vals_view(vals@)),
    decreases fields@, 2int, 0int,
{
    if fields.len() == 0 {
        proof {
            assert(dest@ =~= dest@ + finit(tys_view(fields@), vals_view(vals@)));
        }
    } else {
        let th = slice_index_get(fields, 0);
        let vh = slice_index_get(vals, 0);
        let trest = slice_subrange(fields, 1, fields.len());
        let vrest = slice_subrange(vals, 1, vals.len());
        proof {
            lemma_tys_view_sub(fields@, 1, fields@.len() as int);
            lemma_vals_view_sub(vals@, 1, vals@.len() as int);
            assert(tys_view(fields@)[0] == th@);
            assert(vals_view(vals@)[0] == vh@);
            assert(tys_view(fields@).skip(1) =~= tys_view(fields@).subrange(
                1,
                fields@.len() as int,
            ));
            assert(vals_view(vals@).skip(1) =~= vals_view(vals@).subrange(1, vals@.len() as int));
        }
        pack_fixed_part(th, vh, dest);
        pack_fields_init(trest, vrest, dest);
        proof {
            assert(dest@ =~= old(dest)@ + finit(tys_view(fields@), vals_view(vals@)));
        }
    }
}

/// First pass over a list's elements.
fn pack_elems_init(et: &Ty, vals: &[Value], dest: &mut Vec<u8>)
    requires
        et@.valid(),
        SVal::all_wf(vals_view(vals@), et@),
    ensures
        final(dest)@ == old(dest)@ + einit(et@, vals_view(vals@)),
    decreases et, 2int, vals@.len(),
{
    if vals.len() == 0 {
        proof {
            assert(dest@ =~= dest@ + einit(et@, vals_view(vals@)));
        }
    } else {
        let vh = slice_index_get(vals, 0);
        let vrest = slice_subrange(vals, 1, vals.len());
        proof {
            lemma_vals_view_sub(vals@, 1, vals@.len() as int);
            assert(vals_view(vals@)[0] == vh@);
            assert(vals_view(vals@).skip(1) =~= vals_view(vals@).subrange(1, vals@.len() as int));
        }
        pack_fixed_part(et, vh, dest);
        pack_elems_init(et, vrest, dest);
        proof {
            assert(dest@ =~= old(dest)@ + einit(et@, vals_view(vals@)));
        }
    }
}

/// Append a value's heap body.
fn pack_heap(t: &Ty, v: &Value, dest: &mut Vec<u8>)
    requires
        t@.valid(),
        v@.wf(t@),
        old(dest)@.len() + henc(t@, v@).len() <= 0xFFFF_FFFF,
    ensures
        final(dest)@ == old(dest)@ + henc(t@, v@),
    decreases t, 0int, 0int,
{
    proof {
        lemma_pow256_values();
    }
    match t {
        Ty::Str => {
            match v {
                Value::Str(s) => {
                    proof {
                        lemma_le_len(4, s@.len() as int);
                    }
                    write_le(dest, s.len() as u64, 4);
                    append_bytes(dest, s);
                    proof {
                        assert(dest@ =~= old(dest)@ + henc(t@, v@));
                    }
                },
                _ => {
                    proof {
                        assert(false);
                    }
                },
            }
        },
        Ty::List(et) => {
            match v {
                Value::List(vs) => {
                    let ghost svs = vals_view(vs@);
                    let ghost nbs = svs.len() * et@.slot_size();
                    proof {
                        lemma_slot_size_pos(et@);
                        lemma_einit_len(et@, svs);
                        lemma_efseq_len(et@, svs, nbs);
                        lemma_le_len(4, nbs);
                        assert(henc(t@, v@) == le(4, nbs) + efseq(et@, svs, nbs) + ebseq(
                            et@,
                            svs,
                        ));
                        assert(henc(t@, v@).len() == 4 + nbs + ebseq(et@, svs).len());
                    }
                    let ss = et.fixed_size();
                    let nb = vs.len() as u64 * ss as u64;
                    write_le(dest, nb, 4);
                    let start = dest.len();
                    pack_elems_init(et, vs.as_slice(), dest);
                    proof {
                        assert(dest@.subrange(start as int, start + nbs) =~= einit(et@, svs));
                    }
                    pack_elems_finish(et, vs.as_slice(), start, dest);
                    proof {
                        assert(dest@ =~= old(dest)@ + henc(t@, v@));
                    }
                },
                _ => {
                    proof {
                        assert(false);
                    }
                },
            }
        },
        Ty::Record(ts) => {
            match v {
                Value::Record(vs) => {
                    let ghost sts = tys_view(ts@);
                    let ghost svs = vals_view(vs@);
                    let ghost fl = STy::slots_len(sts);
                    proof {
                        crate::value::lemma_fields_wf_len(svs, sts);
                        lemma_finit_len(sts, svs);
                        lemma_fseq_len(sts, svs, fl);
                        lemma_slots_len_nonneg(sts);
                        assert(henc(t@, v@) == fseq(sts, svs, fl) + bseq(sts, svs));
                        assert(henc(t@, v@).len() == fl + bseq(sts, svs).len());
                    }
                    let start = dest.len();
                    pack_fields_init(ts.as_slice(), vs.as_slice(), dest);
                    proof {
                        assert(dest@.subrange(start as int, start + fl) =~= finit(sts, svs));
                    }
                    pack_fields_finish(ts.as_slice(), vs.as_slice(), start, dest);
                    proof {
                        assert(dest@ =~= old(dest)@ + henc(t@, v@));
                    }
                },
                _ => {
                    proof {
                        assert(false);
                    }
                },
            }
        },
        Ty::Optional(_) => {
            proof {
                assert(henc(t@, v@) =~= Seq::<u8>::empty());
                assert(dest@ =~= dest@ + henc(t@, v@));
            }
        },
        _ => {
            let x = scalar_uint_of(t, v);
            let w = t.fixed_size();
            write_le(dest, x, w);
        },
    }
}

/// Whether an optional's present value is encoded with the 0 sentinel.
pub(crate) fn is_empty_sentinel(it: &Ty, x: &Value) -> (r: bool)
    requires
        x@.wf(it@),
    ensures
        r == empty_sentinel(it@, x@),
{
    match it {
        Ty::Str => match x {
            Value::Str(s) => {
                let r0 = s.len() == 0;
                proof {
                    assert(it@ == STy::Str);
                    assert(x@ == SVal::Str(s@));
                    assert(empty_sentinel(it@, x@) == (s@.len() == 0));
                }
                r0
            },
            _ => {
                proof {
                    assert(x@ is Str);
                    match *x {
                        Value::U8(_) => {},
                        Value::U16(_) => {},
                        Value::U32(_) => {},
                        Value::U64(_) => {},
                        Value::I8(_) => {},
                        Value::I16(_) => {},
                        Value::I32(_) => {},
                        Value::I64(_) => {},
                        Value::F32(_) => {},
                        Value::F64(_) => {},
                        Value::Str(_) => {},
                        Value::List(_) => {},
                        Value::Optional(_) => {},
                        Value::Record(_) => {},
                    }
                    assert(false);
                }
                false
            },
        },
        Ty::List(_) => match x {
            Value::List(vs) => {
                let r0 = vs.len() == 0;
                proof {
                    assert(it@ is List);
                    assert(x@ == SVal::List(vals_view(vs@)));
                    assert(empty_sentinel(it@, x@) == (vals_view(vs@).len() == 0));
                }
                r0
            },
            _ => {
                proof {
                    assert(x@ is List);
                    match *x {
                        Value::U8(_) => {},
                        Value::U16(_) => {},
                        Value::U32(_) => {},
                        Value::U64(_) => {},
                        Value::I8(_) => {},
                        Value::I16(_) => {},
                        Value::I32(_) => {},
                        Value::I64(_) => {},
                        Value::F32(_) => {},
                        Value::F64(_) => {},
                        Value::Str(_) => {},
                        Value::List(_) => {},
                        Value::Optional(_) => {},
                        Value::Record(_) => {},
                    }
                    assert(false);
                }
                false
            },
        },
        _ => {
            proof {
                match *it {
                    Ty::U8 => {},
                    Ty::U16 => {},
                    Ty::U32 => {},
                    Ty::U64 => {},
                    Ty::I8 => {},
                    Ty::I16 => {},
                    Ty::I32 => {},
                    Ty::I64 => {},
                    Ty::F32 => {},
                    Ty::F64 => {},
                    Ty::Str => {},
                    Ty::List(_) => {},
                    Ty::Optional(_) => {},
                    Ty::Record(_) => {},
                }
                assert(!(ty_view(*it) is Str) && !(ty_view(*it) is List));
            }
            false
        },
    }
}

/// Second pass for one field: patch its slot with the real offset or the
/// right sentinel, then append its body.
fn pack_finish_field(t: &Ty, v: &Value, slot_pos: usize, dest: &mut Vec<u8>)
    requires
        t@.valid(),
        v@.wf(t@),
        slot_pos + t@.slot_size() <= old(dest)@.len(),
        old(dest)@.len() + benc(t@, v@).len() <= 0xFFFF_FFFF,
        old(dest)@.subrange(slot_pos as int, slot_pos + t@.slot_size()) == fenc_init(t@, v@),
    ensures
        final(dest)@.len() == old(dest)@.len() + benc(t@, v@).len(),
        final(dest)@.subrange(slot_pos as int, slot_pos + t@.slot_size()) == fenc(
            t@,
            v@,
            old(dest)@.len() - slot_pos,
        ),
        final(dest)@.subrange(old(dest)@.len() as int, final(dest)@.len() as int) == benc(t@, v@),
        forall|j: int|
            0 <= j < old(dest)@.len() && !(slot_pos <= j < slot_pos + t@.slot_size())
                ==> final(dest)@[j] == old(dest)@[j],
    decreases t, 1int, 0int,
{
    proof {
        lemma_slot_size_pos(t@);
        lemma_fenc_init_len(t@, v@);
    }
    let len0 = dest.len();
    match t {
        Ty::Str => {
            match v {
                Value::Str(s) => {
                    if s.len() == 0 {
                        proof {
                            assert(dest@.subrange(len0 as int, len0 as int) =~= benc(t@, v@));
                        }
                    } else {
                        let gap = len0 - slot_pos;
                        patch_le4(dest, slot_pos, gap as u32);
                        pack_heap(t, v, dest);
                        proof {
                            assert(dest@.subrange(slot_pos as int, slot_pos + 4) =~= le(
                                4,
                                len0 - slot_pos,
                            ));
                            assert(dest@.subrange(len0 as int, dest@.len() as int) =~= benc(
                                t@,
                                v@,
                            ));
                        }
                    }
                },
                _ => {
                    proof {
                        assert(false);
                    }
                },
            }
        },
        Ty::List(_) => {
            match v {
                Value::List(vs) => {
                    proof {
                        assert(v@ == SVal::List(vals_view(vs@)));
                        assert(vals_view(vs@).len() == vs@.len());
                    }
                    if vs.len() == 0 {
                        proof {
                            assert(benc(t@, v@) == Seq::<u8>::empty());
                            assert(dest@.subrange(len0 as int, len0 as int) =~= benc(t@, v@));
                        }
                    } else {
                        proof {
                            assert(benc(t@, v@) == henc(t@, v@));
                        }
                        let gap = len0 - slot_pos;
                        patch_le4(dest, slot_pos, gap as u32);
                        pack_heap(t, v, dest);
                        proof {
                            assert(dest@.subrange(slot_pos as int, slot_pos + 4) =~= le(
                                4,
                                len0 - slot_pos,
                            ));
                            assert(dest@.subrange(len0 as int, dest@.len() as int) =~= benc(
                                t@,
                                v@,
                            ));
                        }
                    }
                },
                _ => {
                    proof {
                        assert(false);
                    }
                },
            }
        },
        Ty::Optional(it) => {
            match v {
                Value::Optional(o) => {
                    match o {
                        None => {
                            proof {
                                assert(dest@.subrange(len0 as int, len0 as int) =~= benc(t@, v@));
                            }
                        },
                        Some(x) => {
                            proof {
                                reveal_with_fuel(SVal::wf, 2);
                            }
                            if is_empty_sentinel(it, x) {
                                proof {
                                    assert(benc(t@, v@) == Seq::<u8>::empty());
                                }
                                patch_le4(dest, slot_pos, 0);
                                proof {
                                    assert(dest@.subrange(len0 as int, len0 as int) =~= benc(
                                        t@,
                                        v@,
                                    ));
                                }
                            } else {
                                proof {
                                    assert(benc(t@, v@) == henc(it@, x@));
                                }
                                let gap = len0 - slot_pos;
                                patch_le4(dest, slot_pos, gap as u32);
                                pack_heap(it, x, dest);
                                proof {
                                    assert(dest@.subrange(slot_pos as int, slot_pos + 4) =~= le(
                                        4,
                                        len0 - slot_pos,
                                    ));
                                    assert(dest@.subrange(len0 as int, dest@.len() as int)
                                        =~= benc(t@, v@));
                                }
                            }
                        },
                    }
                },
                _ => {
                    proof {
                        assert(false);
                    }
                },
            }
        },
        Ty::Record(ts) => {
            if tys_any_variable(ts.as_slice()) {
                let gap = len0 - slot_pos;
                patch_le4(dest, slot_pos, gap as u32);
                pack_heap(t, v, dest);
                proof {
                    assert(dest@.subrange(slot_pos as int, slot_pos + 4) =~= le(
                        4,
                        len0 - slot_pos,
                    ));
                    assert(dest@.subrange(len0 as int, dest@.len() as int) =~= benc(t@, v@));
                }
            } else {
                proof {
                    lemma_fenc_init_fixed(t@, v@, len0 - slot_pos);
                    assert(dest@.subrange(len0 as int, len0 as int) =~= benc(t@, v@));
                }
            }
        },
        _ => {
            proof {
                lemma_fenc_init_fixed(t@, v@, len0 - slot_pos);
                assert(dest@.subrange(len0 as int, len0 as int) =~= benc(t@, v@));
            }
        },
    }
}

/// Second pass over a field list: patch each slot in order, each body
/// landing exactly where its offset says.
fn pack_fields_finish(fields: &[Ty], vals: &[Value], slot_pos: usize, dest: &mut Vec<u8>)
    requires
        STy::all_valid(tys_view(fields@)),
        SVal::fields_wf(vals_view(vals@), tys_view(fields@)),
        slot_pos + STy::slots_len(tys_view(fields@)) <= old(dest)@.len(),
        old(dest)@.len() + bseq(tys_view(fields@), vals_view(vals@)).len() <= 0xFFFF_FFFF,
        old(dest)@.subrange(slot_pos as int, slot_pos + STy::slots_len(tys_view(fields@)))
            == finit(tys_view(fields@), vals_view(vals@)),
    ensures
        final(dest)@.len() == old(dest)@.len() + bseq(tys_view(fields@), vals_view(vals@)).len(),
        final(dest)@.subrange(slot_pos as int, slot_pos + STy::slots_len(tys_view(fields@)))
            == fseq(tys_view(fields@), vals_view(vals@), old(dest)@.len() - slot_pos),
        final(dest)@.subrange(old(dest)@.len() as int, final(dest)@.len() as int) == bseq(
            tys_view(fields@),
            vals_view(vals@),
        ),
        forall|j: int|
            0 <= j < old(dest)@.len() && !(slot_pos <= j < slot_pos + STy::slots_len(
                tys_view(fields@),
            )) ==> final(dest)@[j] == old(dest)@[j],
    decreases fields@, 2int, 0int,
{
    let ghost sts = tys_view(fields@);
    let ghost svs = vals_view(vals@);
    if fields.len() == 0 {
        proof {
            assert(dest@.subrange(slot_pos as int, slot_pos as int) =~= fseq(
                sts,
                svs,
                dest@.len() - slot_pos,
            ));
            assert(dest@.subrange(dest@.len() as int, dest@.len() as int) =~= bseq(sts, svs));
        }
    } else {
        let th = slice_index_get(fields, 0);
        let vh = slice_index_get(vals, 0);
        let trest = slice_subrange(fields, 1, fields.len());
        let vrest = slice_subrange(vals, 1, vals.len());
        let len0 = dest.len();
        proof {
            lemma_tys_view_sub(fields@, 1, fields@.len() as int);
            lemma_vals_view_sub(vals@, 1, vals@.len() as int);
            assert(sts[0] == th@);
            assert(svs[0] == vh@);
            assert(sts.skip(1) =~= tys_view(trest@));
            assert(svs.skip(1) =~= vals_view(vrest@));
            lemma_slot_size_pos(th@);
            lemma_slots_len_nonneg(sts.skip(1));
            lemma_fenc_init_len(th@, vh@);
            lemma_finit_len(sts.skip(1), svs.skip(1));
            lemma_subrange_split(
                old(dest)@,
                slot_pos as int,
                fenc_init(th@, vh@),
                finit(sts.skip(1), svs.skip(1)),
            );
        }
        pack_finish_field(th, vh, slot_pos, dest);
        let ghost mid = dest@;
        proof {
            lemma_fenc_len(th@, vh@, len0 - slot_pos);
            assert(mid.subrange(
                slot_pos + th@.slot_size(),
                slot_pos + STy::slots_len(sts),
            ) =~= finit(sts.skip(1), svs.skip(1)));
        }
        pack_fields_finish(trest, vrest, slot_pos + th.fixed_size() as usize, dest);
        proof {
            let ss0 = th@.slot_size();
            let b0 = benc(th@, vh@);
            let fl = STy::slots_len(sts);
            assert(dest@.subrange(slot_pos as int, slot_pos + ss0) =~= fenc(
                th@,
                vh@,
                len0 - slot_pos,
            ));
            assert(dest@.subrange(slot_pos as int, slot_pos + fl) =~= fseq(
                sts,
                svs,
                len0 - slot_pos,
            ));
            assert(dest@.subrange(len0 as int, dest@.len() as int) =~= bseq(sts, svs));
        }
    }
}

/// Second pass over a list's elements.
fn pack_elems_finish(et: &Ty, vals: &[Value], slot_pos: usize, dest: &mut Vec<u8>)
    requires
        et@.valid(),
        SVal::all_wf(vals_view(vals@), et@),
        slot_pos + vals@.len() * et@.slot_size() <= old(dest)@.len(),
        old(dest)@.len() + ebseq(et@, vals_view(vals@)).len() <= 0xFFFF_FFFF,
        old(dest)@.subrange(slot_pos as int, slot_pos + vals@.len() * et@.slot_size()) == einit(
            et@,
            vals_view(vals@),
        ),
    ensures
        final(dest)@.len() == old(dest)@.len() + ebseq(et@, vals_view(vals@)).len(),
        final(dest)@.subrange(slot_pos as int, slot_pos + vals@.len() * et@.slot_size()) == efseq(
            et@,
            vals_view(vals@),
            old(dest)@.len() - slot_pos,
        ),
        final(dest)@.subrange(old(dest)@.len() as int, final(dest)@.len() as int) == ebseq(
            et@,
            vals_view(vals@),
        ),
        forall|j: int|
            0 <= j < old(dest)@.len() && !(slot_pos <= j < slot_pos + vals@.len()
                * et@.slot_size()) ==> final(dest)@[j] == old(dest)@[j],
    decreases et, 2int, vals@.len(),
{
    let ghost svs = vals_view(vals@);
    let ghost ss = et@.slot_size();
    proof {
        lemma_slot_size_pos(et@);
    }
    if vals.len() == 0 {
        proof {
            assert(vals@.len() * ss == 0);
            assert(dest@.subrange(slot_pos as int, slot_pos as int) =~= efseq(
                et@,
                svs,
                dest@.len() - slot_pos,
            ));
            assert(dest@.subrange(dest@.len() as int, dest@.len() as int) =~= ebseq(et@, svs));
        }
    } else {
        let vh = slice_index_get(vals, 0);
        let vrest = slice_subrange(vals, 1, vals.len());
        let len0 = dest.len();
        proof {
            lemma_vals_view_sub(vals@, 1, vals@.len() as int);
            assert(svs[0] == vh@);
            assert(svs.skip(1) =~= vals_view(vrest@));
            assert(vals@.len() * ss == ss + (vals@.len() - 1) * ss && (vals@.len() - 1) * ss >= 0)
                by (nonlinear_arith)
                requires
                    vals@.len() >= 1,
                    ss >= 1,
            ;
            lemma_fenc_init_len(et@, vh@);
            lemma_einit_len(et@, svs.skip(1));
            lemma_subrange_split(
                old(dest)@,
                slot_pos as int,
                fenc_init(et@, vh@),
                einit(et@, svs.skip(1)),
            );
        }
        pack_finish_field(et, vh, slot_pos, dest);
        let ghost mid = dest@;
        proof {
            lemma_fenc_len(et@, vh@, len0 - slot_pos);
            assert(mid.subrange(
                slot_pos + ss,
                slot_pos + vals@.len() * ss,
            ) =~= einit(et@, svs.skip(1)));
        }
        pack_elems_finish(et, vrest, slot_pos + et.fixed_size() as usize, dest);
        proof {
            assert(dest@.subrange(slot_pos as int, slot_pos + ss) =~= fenc(
                et@,
                vh@,
                len0 - slot_pos,
            ));
            assert(dest@.subrange(slot_pos as int, slot_pos + vals@.len() * ss) =~= efseq(
                et@,
                svs,
                len0 - slot_pos,
            ));
            assert(dest@.subrange(len0 as int, dest@.len() as int) =~= ebseq(et@, svs));
        }
    }
}

/// Encode a well-formed value into its canonical byte string.
///
/// Encoding is total on well-formed values whose encoding fits the format's
/// 32-bit reach, and produces exactly the canonical bytes.
pub fn pack(t: &Ty, v: &Value) -> (out: Vec<u8>)
    requires
        t@.valid(),
        v@.wf(t@),
        enc(t@, v@).len() <= 0xFFFF_FFFF,
    ensures
        out@ == enc(t@, v@),
{
    let mut out: Vec<u8> = Vec::new();
    proof {
        lemma_slot_size_pos(t@);
        lemma_fenc_init_len(t@, v@);
        lemma_fenc_len(t@, v@, t@.slot_size());
    }
    match t {
        Ty::Record(_) => {
            pack_heap(t, v, &mut out);
            proof {
                assert(out@ =~= enc(t@, v@));
            }
        },
        _ => {
            pack_fixed_part(t, v, &mut out);
            proof {
                assert(out@.subrange(0, t@.slot_size() as int) =~= fenc_init(t@, v@));
            }
            pack_finish_field(t, v, 0, &mut out);
            proof {
                assert(out@ =~= out@.subrange(0, t@.slot_size() as int) + out@.subrange(
                    t@.slot_size() as int,
                    out@.len() as int,
                ));
                assert(out@ =~= enc(t@, v@));
            }
        },
    }
    out
}

} // verus!
