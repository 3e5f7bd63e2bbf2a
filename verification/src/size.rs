//! How long an encoding will be, computed ahead of packing and capped at
//! the format's 32-bit reach.
use crate::check::{cap32, lemma_tys_view_sub, lemma_vals_view_sub, tys_any_variable};
use crate::enc::{
    benc, bseq, ebseq, efseq, enc, fseq, henc, le, lemma_efseq_len, lemma_fenc_len,
    lemma_fseq_len, lemma_le_len,
};
use crate::pack::pack;
use crate::roundtrip::lemma_slots_len_nonneg;
use crate::ty::{lemma_slot_size_pos, tys_view, STy, Ty};
use crate::value::{vals_view, SVal, Value};
use vstd::prelude::*;
use vstd::slice::{slice_index_get, slice_subrange};

verus! {

/// The cap never hides whether a length fits the format.
pub proof fn lemma_cap32_add(a: int, b: int)
    requires
        0 <= a,
        0 <= b,
    ensures
        cap32(cap32(a) + cap32(b)) == cap32(a + b),
        cap32(a) <= 0x1_0000_0000,
{
}

/// The capped length of a value's heap body.
fn size_henc(t: &Ty, v: &Value) -> (r: u64)
    requires
        t@.valid(),
        v@.wf(t@),
    ensures
        r == cap32(henc(t@, v@).len() as int),
    decreases t, 0int, 0int,
{
    match t {
        Ty::Str => {
            match v {
                Value::Str(s) => {
                    proof {
                        lemma_le_len(4, s@.len() as int);
                    }
                    let cl = if s.len() as u64 > 0x1_0000_0000 {
                        0x1_0000_0000u64
                    } else {
                        s.len() as u64
                    };
                    proof {
                        lemma_cap32_add(4, s@.len() as int);
                    }
                    let total = 4u64 + cl;
                    if total > 0x1_0000_0000 {
                        0x1_0000_0000
                    } else {
                        total
                    }
                },
                _ => {
                    proof {
                        assert(false);
                    }
                    0
                },
            }
        },
        Ty::List(et) => {
            match v {
                Value::List(vs) => {
                    let ghost svs = vals_view(vs@);
                    let ghost nbs = svs.len() * et@.slot_size();
                    proof {
                        lemma_slot_size_pos(et@);
                        lemma_efseq_len(et@, svs, nbs);
                        lemma_le_len(4, nbs);
                        assert(henc(t@, v@) == le(4, nbs) + efseq(et@, svs, nbs) + ebseq(
                            et@,
                            svs,
                        ));
                        assert(henc(t@, v@).len() == 4 + nbs + ebseq(et@, svs).len());
                        assert(nbs >= 0) by (nonlinear_arith)
                            requires
                                svs.len() >= 0,
                                et@.slot_size() >= 1,
                                nbs == svs.len() * et@.slot_size(),
                        ;
                    }
                    let ss = et.fixed_size();
                    let nb = if vs.len() as u64 > 0x1_0000_0000 {
                        0x1_0000_0000u64
                    } else {
                        proof {
                            assert(vs@.len() * (ss as int) <= 0x1_0000_0000 * 0xFFFF_FFFF)
                                by (nonlinear_arith)
                                requires
                                    0 <= vs@.len() <= 0x1_0000_0000,
                                    0 <= ss < 0x1_0000_0000,
                            ;
                        }
                        let p = vs.len() as u64 * ss as u64;
                        if p > 0x1_0000_0000 {
                            0x1_0000_0000u64
                        } else {
                            proof {
                                assert(vs@.len() as int * ss as int == nbs);
                            }
                            p
                        }
                    };
                    proof {
                        if vs@.len() > 0x1_0000_0000 {
                            assert(nbs >= svs.len() * 1) by (nonlinear_arith)
                                requires
                                    et@.slot_size() >= 1,
                                    svs.len() >= 0,
                                    nbs == svs.len() * et@.slot_size(),
                            ;
                            assert(cap32(nbs) == 0x1_0000_0000);
                        }
                        assert(nb == cap32(nbs));
                    }
                    let bodies = size_ebseq(et, vs.as_slice());
                    proof {
                        lemma_cap32_add(nbs, ebseq(et@, svs).len() as int);
                        lemma_cap32_add(4, nbs + ebseq(et@, svs).len() as int);
                        lemma_cap32_add(4 + nbs, ebseq(et@, svs).len() as int);
                    }
                    let t1 = nb + bodies;
                    let t2 = if t1 > 0x1_0000_0000 {
                        0x1_0000_0000u64
                    } else {
                        t1
                    };
                    let t3 = 4u64 + t2;
                    if t3 > 0x1_0000_0000 {
                        0x1_0000_0000
                    } else {
                        t3
                    }
                },
                _ => {
                    proof {
                        assert(false);
                    }
                    0
                },
            }
        },
        Ty::Record(ts) => {
            match v {
                Value::Record(vs) => {
                    let ghost sts = tys_view(ts@);
                    let ghost svs = vals_view(vs@);
                    let ghost fl = STy::slots_len(sts);
                    proof {
                        crate::value::lemma_fields_wf_len(svs, sts);
                        lemma_fseq_len(sts, svs, fl);
                        lemma_slots_len_nonneg(sts);
                        assert(henc(t@, v@) == fseq(sts, svs, fl) + bseq(sts, svs));
                        assert(henc(t@, v@).len() == fl + bseq(sts, svs).len());
                    }
                    let flx = crate::check::tys_slots_len(ts.as_slice());
                    let bodies = size_bseq(ts.as_slice(), vs.as_slice());
                    proof {
                        lemma_cap32_add(fl, bseq(sts, svs).len() as int);
                        assert(flx == cap32(fl));
                    }
                    let t1 = flx + bodies;
                    if t1 > 0x1_0000_0000 {
                        0x1_0000_0000
                    } else {
                        t1
                    }
                },
                _ => {
                    proof {
                        assert(false);
                    }
                    0
                },
            }
        },
        Ty::Optional(_) => {
            proof {
                assert(henc(t@, v@).len() == 0);
            }
            0
        },
        _ => {
            proof {
                lemma_le_len(t@.slot_size(), crate::enc::scalar_uint(v@));
                lemma_slot_size_pos(t@);
            }
            t.fixed_size() as u64
        },
    }
}

/// The capped length of a field's heap contribution.
fn size_benc(t: &Ty, v: &Value) -> (r: u64)
    requires
        t@.valid(),
        v@.wf(t@),
    ensures
        r == cap32(benc(t@, v@).len() as int),
    decreases t, 1int, 0int,
{
    proof {
        reveal_with_fuel(SVal::wf, 2);
    }
    match t {
        Ty::Str => {
            match v {
                Value::Str(s) => {
                    if s.len() == 0 {
                        0
                    } else {
                        size_henc(t, v)
                    }
                },
                _ => {
                    proof {
                        assert(false);
                    }
                    0
                },
            }
        },
        Ty::List(_) => {
            match v {
                Value::List(vs) => {
                    proof {
                        assert(v@ == SVal::List(vals_view(vs@)));
                    }
                    if vs.len() == 0 {
                        0
                    } else {
                        size_henc(t, v)
                    }
                },
                _ => {
                    proof {
                        assert(false);
                    }
                    0
                },
            }
        },
        Ty::Optional(it) => {
            match v {
                Value::Optional(o) => {
                    match o {
                        None => 0,
                        Some(x) => {
                            if crate::pack::is_empty_sentinel(it, x) {
                                proof {
                                    assert(benc(t@, v@) == Seq::<u8>::empty());
                                }
                                0
                            } else {
                                proof {
                                    assert(benc(t@, v@) == henc(it@, x@));
                                }
                                size_henc(it, x)
                            }
                        },
                    }
                },
                _ => {
                    proof {
                        assert(false);
                    }
                    0
                },
            }
        },
        Ty::Record(ts) => {
            if tys_any_variable(ts.as_slice()) {
                proof {
                    assert(benc(t@, v@) == henc(t@, v@));
                }
                size_henc(t, v)
            } else {
                proof {
                    assert(benc(t@, v@).len() == 0);
                }
                0
            }
        },
        _ => {
            proof {
                assert(benc(t@, v@).len() == 0);
            }
            0
        },
    }
}

/// The capped length of a list's element bodies.
fn size_ebseq(et: &Ty, vals: &[Value]) -> (r: u64)
    requires
        et@.valid(),
        SVal::all_wf(vals_view(vals@), et@),
    ensures
        r == cap32(ebseq(et@, vals_view(vals@)).len() as int),
    decreases et, 2int, vals@.len(),
{
    if vals.len() == 0 {
        0
    } else {
        let vh = slice_index_get(vals, 0);
        let vrest = slice_subrange(vals, 1, vals.len());
        proof {
            lemma_vals_view_sub(vals@, 1, vals@.len() as int);
            assert(vals_view(vals@)[0] == vh@);
            assert(vals_view(vals@).skip(1) =~= vals_view(vrest@));
        }
        let h = size_benc(et, vh);
        let rest = size_ebseq(et, vrest);
        proof {
            lemma_cap32_add(
                benc(et@, vh@).len() as int,
                ebseq(et@, vals_view(vrest@)).len() as int,
            );
        }
        let total = h + rest;
        if total > 0x1_0000_0000 {
            0x1_0000_0000
        } else {
            total
        }
    }
}

/// The capped length of a field list's bodies.
fn size_bseq(fields: &[Ty], vals: &[Value]) -> (r: u64)
    requires
        STy::all_valid(tys_view(fields@)),
        SVal::fields_wf(vals_view(vals@), tys_view(fields@)),
    ensures
        r == cap32(bseq(tys_view(fields@), vals_view(vals@)).len() as int),
    decreases fields@, 2int, 0int,
{
    if fields.len() == 0 {
        0
    } else {
        let th = slice_index_get(fields, 0);
        let vh = slice_index_get(vals, 0);
        let trest = slice_subrange(fields, 1, fields.len());
        let vrest = slice_subrange(vals, 1, vals.len());
        proof {
            lemma_tys_view_sub(fields@, 1, fields@.len() as int);
            lemma_vals_view_sub(vals@, 1, vals@.len() as int);
            assert(tys_view(fields@)[0] == th@);
            assert(vals_view(vals@)[0] == vh@);
            assert(tys_view(fields@).skip(1) =~= tys_view(trest@));
            assert(vals_view(vals@).skip(1) =~= vals_view(vrest@));
        }
        let h = size_benc(th, vh);
        let rest = size_bseq(trest, vrest);
        proof {
            lemma_cap32_add(
                benc(th@, vh@).len() as int,
                bseq(tys_view(trest@), vals_view(vrest@)).len() as int,
            );
        }
        let total = h + rest;
        if total > 0x1_0000_0000 {
            0x1_0000_0000
        } else {
            total
        }
    }
}

/// The capped length of a whole encoding.
pub fn encoded_size(t: &Ty, v: &Value) -> (r: u64)
    requires
        t@.valid(),
        v@.wf(t@),
    ensures
        r == cap32(enc(t@, v@).len() as int),
{
    proof {
        lemma_slot_size_pos(t@);
        lemma_fenc_len(t@, v@, t@.slot_size());
        lemma_cap32_add(t@.slot_size(), benc(t@, v@).len() as int);
    }
    match t {
        Ty::Record(_) => size_henc(t, v),
        _ => {
            let slot = t.fixed_size() as u64;
            let bodies = size_benc(t, v);
            let total = slot + bodies;
            if total > 0x1_0000_0000 {
                0x1_0000_0000
            } else {
                total
            }
        },
    }
}

/// Encode a value after checking everything packing needs: that the schema
/// is accepted, the value well formed for it, and the encoding within the
/// format's 32-bit reach. Returns the canonical bytes, or nothing where one
/// of those checks fails.
pub fn pack_checked(t: &Ty, v: &Value) -> (r: Option<Vec<u8>>)
    ensures
        r matches Some(out) ==> (t@.valid() && v@.wf(t@) && enc(t@, v@).len() <= 0xFFFF_FFFF
            && out@ == enc(t@, v@)),
        r is None ==> !(t@.valid() && v@.wf(t@) && enc(t@, v@).len() <= 0xFFFF_FFFF),
{
    if !t.check() {
        return None;
    }
    if !v.has_type(t) {
        return None;
    }
    if encoded_size(t, v) > 0xFFFF_FFFF {
        return None;
    }
    Some(pack(t, v))
}

} // verus!
