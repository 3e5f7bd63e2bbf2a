//! Decoding a canonical encoding gives back the encoded value.
//!
//! The lemmas here walk the encoder and the decoder in step: wherever the
//! buffer holds the bytes `fenc`/`benc` prescribe, the decoder accepts them
//! and rebuilds the same value, leaving its positions just past them.
use crate::enc::{
    benc, bseq, ebseq, efseq, enc, fenc, fseq, henc, le, lemma_efseq_len, lemma_fenc_len,
    lemma_fseq_len, lemma_le_len, lemma_le_val_of_le, lemma_scalar_uint_range, pow256,
    scalar_uint, empty_sentinel,
};
use crate::err::Error;
use crate::sdec::{ru32, sdec_elems, sdec_fields, sdec_heap, sdec_inplace, sdec_top};
use crate::ty::{lemma_slot_size_pos, STy};
use crate::value::SVal;
use vstd::prelude::*;

verus! {

/// Whether a value may stand behind a real offset: an empty string or list
/// may not (they use the 0 sentinel), and nothing stands behind an optional
/// inside an optional.
pub open spec fn heap_form(t: STy, v: SVal) -> bool {
    match t {
        STy::Str => match v {
            SVal::Str(s) => s.len() > 0,
            _ => false,
        },
        STy::List(_) => match v {
            SVal::List(vs) => vs.len() > 0,
            _ => false,
        },
        STy::Optional(_) => false,
        _ => true,
    }
}

/// A concatenation sitting in a buffer splits into its two parts.
pub proof fn lemma_subrange_split(b: Seq<u8>, p: int, x: Seq<u8>, y: Seq<u8>)
    requires
        0 <= p,
        p + x.len() + y.len() <= b.len(),
        b.subrange(p, p + x.len() + y.len()) == x + y,
    ensures
        b.subrange(p, p + x.len()) == x,
        b.subrange(p + x.len(), p + x.len() + y.len()) == y,
{
    let xy = x + y;
    assert forall|i: int| 0 <= i < x.len() implies b[p + i] == x[i] by {
        assert(b.subrange(p, p + xy.len())[i] == xy[i]);
    }
    assert forall|i: int| 0 <= i < y.len() implies b[p + x.len() + i] == y[i] by {
        assert(b.subrange(p, p + xy.len())[x.len() + i] == xy[x.len() + i]);
    }
    assert(b.subrange(p, p + x.len()) =~= x);
    assert(b.subrange(p + x.len(), p + x.len() + y.len()) =~= y);
}

/// A valid field list's fixed region is never negative in length.
pub proof fn lemma_slots_len_nonneg(ts: Seq<STy>)
    requires
        STy::all_valid(ts),
    ensures
        STy::slots_len(ts) >= 0,
    decreases ts,
{
    if ts.len() > 0 {
        lemma_slot_size_pos(ts[0]);
        lemma_slots_len_nonneg(ts.skip(1));
    }
}

/// A fixed-size field emits no body.
pub proof fn lemma_benc_fixed_empty(t: STy, v: SVal)
    requires
        !t.is_variable(),
    ensures
        benc(t, v) == Seq::<u8>::empty(),
{
}

/// The bodies of an all-fixed field list are empty.
pub proof fn lemma_bseq_fixed_empty(ts: Seq<STy>, vs: Seq<SVal>)
    requires
        !STy::any_variable(ts),
    ensures
        bseq(ts, vs) == Seq::<u8>::empty(),
    decreases ts,
{
    if ts.len() > 0 && vs.len() > 0 {
        lemma_benc_fixed_empty(ts[0], vs[0]);
        lemma_bseq_fixed_empty(ts.skip(1), vs.skip(1));
        assert(bseq(ts, vs) =~= Seq::<u8>::empty());
    }
}

/// A fixed-size field's fixed bytes do not depend on the gap.
pub proof fn lemma_fenc_gap(t: STy, v: SVal, g1: int, g2: int)
    requires
        !t.is_variable(),
    ensures
        fenc(t, v, g1) == fenc(t, v, g2),
{
}

/// An all-fixed region's bytes do not depend on the starting gap.
pub proof fn lemma_fseq_gap(ts: Seq<STy>, vs: Seq<SVal>, k1: int, k2: int)
    requires
        !STy::any_variable(ts),
    ensures
        fseq(ts, vs, k1) == fseq(ts, vs, k2),
    decreases ts,
{
    if ts.len() > 0 && vs.len() > 0 {
        lemma_fenc_gap(ts[0], vs[0], k1, k2);
        lemma_benc_fixed_empty(ts[0], vs[0]);
        lemma_fseq_gap(ts.skip(1), vs.skip(1), k1 - ts[0].slot_size(), k2 - ts[0].slot_size());
    }
}

/// Reading four bytes that spell `n` gives `n` back.
proof fn lemma_ru32_of_le(b: Seq<u8>, p: int, n: int)
    requires
        0 <= n <= 0xFFFF_FFFF,
        0 <= p,
        p + 4 <= b.len(),
        b.subrange(p, p + 4) == le(4, n),
    ensures
        ru32(b, p) == n,
{
    assert(pow256(4) == 256 * pow256(3) && pow256(3) == 256 * pow256(2) && pow256(2) == 256
        * pow256(1) && pow256(1) == 256 * pow256(0));
    lemma_le_val_of_le(4, n);
}

/// Decoding one field from its canonical bytes gives the field back and
/// moves the heap position past its body.
pub proof fn lemma_inplace_of_enc(t: STy, v: SVal, b: Seq<u8>, fp: int, hp: int)
    requires
        t.valid(),
        v.wf(t),
        0 <= fp,
        fp + t.slot_size() <= hp,
        hp - fp <= 0xFFFF_FFFF,
        hp + benc(t, v).len() <= b.len(),
        hp + benc(t, v).len() <= 0xFFFF_FFFF,
        b.subrange(fp, fp + t.slot_size()) == fenc(t, v, hp - fp),
        b.subrange(hp, hp + benc(t, v).len()) == benc(t, v),
    ensures
        sdec_inplace(t, b, fp, hp) == Result::<(SVal, int), Error>::Ok(
            (v, hp + benc(t, v).len()),
        ),
    decreases t, 1int, 0int,
{
    lemma_slot_size_pos(t);
    lemma_fenc_len(t, v, hp - fp);
    match t {
        STy::Str => {
            match v {
                SVal::Str(s) => {
                    if s.len() == 0 {
                        lemma_ru32_of_le(b, fp, 0);
                        assert(s =~= Seq::<u8>::empty());
                    } else {
                        lemma_ru32_of_le(b, fp, hp - fp);
                        lemma_heap_of_enc(t, v, b, hp);
                    }
                },
                _ => {},
            }
        },
        STy::List(_) => {
            match v {
                SVal::List(vs) => {
                    if vs.len() == 0 {
                        lemma_ru32_of_le(b, fp, 0);
                        assert(vs =~= Seq::<SVal>::empty());
                    } else {
                        lemma_ru32_of_le(b, fp, hp - fp);
                        lemma_heap_of_enc(t, v, b, hp);
                    }
                },
                _ => {},
            }
        },
        STy::Optional(it) => {
            reveal_with_fuel(SVal::wf, 2);
            match v {
                SVal::Optional(o) => match o {
                    Option::None => {
                        lemma_ru32_of_le(b, fp, 1);
                    },
                    Option::Some(x) => {
                        if empty_sentinel(*it, *x) {
                            lemma_ru32_of_le(b, fp, 0);
                            match *x {
                                SVal::Str(s) => {
                                    assert(s =~= Seq::<u8>::empty());
                                },
                                SVal::List(vs) => {
                                    assert(vs =~= Seq::<SVal>::empty());
                                },
                                _ => {},
                            }
                        } else {
                            lemma_ru32_of_le(b, fp, hp - fp);
                            match *it {
                                STy::Str => {
                                    match *x {
                                        SVal::Str(s) => {
                                            assert(!(s.len() == 0));
                                        },
                                        _ => {
                                            assert(false);
                                        },
                                    }
                                },
                                STy::List(_) => {
                                    match *x {
                                        SVal::List(xs) => {
                                            assert(!(xs.len() == 0));
                                        },
                                        _ => {
                                            assert(false);
                                        },
                                    }
                                },
                                _ => {},
                            }
                            lemma_heap_of_enc(*it, *x, b, hp);
                        }
                    },
                },
                _ => {},
            }
        },
        STy::Record(ts) => {
            match v {
                SVal::Record(vs) => {
                    if STy::any_variable(ts) {
                        lemma_ru32_of_le(b, fp, hp - fp);
                        lemma_heap_of_enc(t, v, b, hp);
                    } else {
                        lemma_fseq_gap(ts, vs, 0, hp - fp);
                        lemma_bseq_fixed_empty(ts, vs);
                        lemma_fields_of_enc(ts, vs, b, fp, hp);
                    }
                },
                _ => {},
            }
        },
        _ => {
            lemma_scalar_uint_range(t, v);
            lemma_le_val_of_le(t.slot_size(), scalar_uint(v));
        },
    }
}

/// Decoding a canonical heap body gives the pointed-at value back.
pub proof fn lemma_heap_of_enc(t: STy, v: SVal, b: Seq<u8>, p: int)
    requires
        t.valid(),
        v.wf(t),
        heap_form(t, v),
        0 <= p,
        p + henc(t, v).len() <= b.len(),
        p + henc(t, v).len() <= 0xFFFF_FFFF,
        b.subrange(p, p + henc(t, v).len()) == henc(t, v),
    ensures
        sdec_heap(t, b, p) == Result::<(SVal, int), Error>::Ok((v, p + henc(t, v).len())),
    decreases t, 0int, 0int,
{
    match t {
        STy::Str => {
            match v {
                SVal::Str(s) => {
                    lemma_le_len(4, s.len() as int);
                    lemma_subrange_split(b, p, le(4, s.len() as int), s);
                    lemma_ru32_of_le(b, p, s.len() as int);
                },
                _ => {},
            }
        },
        STy::List(et) => {
            match v {
                SVal::List(vs) => {
                    let ss = et.slot_size();
                    let nb = vs.len() * ss;
                    lemma_slot_size_pos(*et);
                    assert(nb >= 1 * 1 && nb >= vs.len() * 1) by (nonlinear_arith)
                        requires
                            vs.len() >= 1,
                            ss >= 1,
                            nb == vs.len() * ss,
                    ;
                    lemma_le_len(4, nb);
                    lemma_efseq_len(*et, vs, nb);
                    lemma_subrange_split(b, p, le(4, nb) + efseq(*et, vs, nb), ebseq(*et, vs));
                    lemma_subrange_split(b, p, le(4, nb), efseq(*et, vs, nb));
                    lemma_ru32_of_le(b, p, nb);
                    assert(nb % ss == 0 && nb / ss == vs.len()) by (nonlinear_arith)
                        requires
                            ss >= 1,
                            vs.len() >= 0,
                            nb == vs.len() * ss,
                    ;
                    lemma_elems_of_enc(*et, vs, b, p + 4, p + 4 + nb);
                },
                _ => {},
            }
        },
        STy::Record(ts) => {
            match v {
                SVal::Record(vs) => {
                    let fl = STy::slots_len(ts);
                    crate::value::lemma_fields_wf_len(vs, ts);
                    lemma_fseq_len(ts, vs, fl);
                    lemma_subrange_split(b, p, fseq(ts, vs, fl), bseq(ts, vs));
                    lemma_fields_of_enc(ts, vs, b, p, p + fl);
                },
                _ => {},
            }
        },
        STy::Optional(_) => {},
        _ => {
            lemma_scalar_uint_range(t, v);
            lemma_le_val_of_le(t.slot_size(), scalar_uint(v));
            lemma_le_len(t.slot_size(), scalar_uint(v));
        },
    }
}

/// Decoding a record's fields from their canonical regions gives the fields
/// back.
pub proof fn lemma_fields_of_enc(ts: Seq<STy>, vs: Seq<SVal>, b: Seq<u8>, fp: int, hp: int)
    requires
        STy::all_valid(ts),
        SVal::fields_wf(vs, ts),
        0 <= fp,
        fp + STy::slots_len(ts) <= hp,
        hp + bseq(ts, vs).len() <= b.len(),
        hp + bseq(ts, vs).len() <= 0xFFFF_FFFF,
        b.subrange(fp, fp + STy::slots_len(ts)) == fseq(ts, vs, hp - fp),
        b.subrange(hp, hp + bseq(ts, vs).len()) == bseq(ts, vs),
    ensures
        sdec_fields(ts, b, fp, hp) == Result::<(Seq<SVal>, int), Error>::Ok(
            (vs, hp + bseq(ts, vs).len()),
        ),
    decreases ts, 3int, 0int,
{
    if ts.len() == 0 {
        assert(vs =~= Seq::<SVal>::empty());
        assert(bseq(ts, vs).len() == 0);
    } else {
        let t0 = ts[0];
        let v0 = vs[0];
        let ss0 = t0.slot_size();
        let b0 = benc(t0, v0);
        lemma_slot_size_pos(t0);
        lemma_slots_len_nonneg(ts.skip(1));
        lemma_fenc_len(t0, v0, hp - fp);
        lemma_fseq_len(ts.skip(1), vs.skip(1), hp - fp - ss0 + b0.len());
        lemma_subrange_split(
            b,
            fp,
            fenc(t0, v0, hp - fp),
            fseq(ts.skip(1), vs.skip(1), hp - fp - ss0 + b0.len()),
        );
        lemma_subrange_split(b, hp, b0, bseq(ts.skip(1), vs.skip(1)));
        lemma_inplace_of_enc(t0, v0, b, fp, hp);
        lemma_fields_of_enc(ts.skip(1), vs.skip(1), b, fp + ss0, hp + b0.len());
        assert(seq![v0] + vs.skip(1) =~= vs);
    }
}

/// Decoding a list's elements from their canonical regions gives the
/// elements back.
pub proof fn lemma_elems_of_enc(et: STy, vs: Seq<SVal>, b: Seq<u8>, fp: int, hp: int)
    requires
        et.valid(),
        SVal::all_wf(vs, et),
        0 <= fp,
        fp + vs.len() * et.slot_size() <= hp,
        hp + ebseq(et, vs).len() <= b.len(),
        hp + ebseq(et, vs).len() <= 0xFFFF_FFFF,
        b.subrange(fp, fp + vs.len() * et.slot_size()) == efseq(et, vs, hp - fp),
        b.subrange(hp, hp + ebseq(et, vs).len()) == ebseq(et, vs),
    ensures
        sdec_elems(et, vs.len() as int, b, fp, hp) == Result::<(Seq<SVal>, int), Error>::Ok(
            (vs, hp + ebseq(et, vs).len()),
        ),
    decreases et, 3int, vs.len(),
{
    lemma_slot_size_pos(et);
    let ss = et.slot_size();
    if vs.len() == 0 {
        assert(vs =~= Seq::<SVal>::empty());
    } else {
        let v0 = vs[0];
        let b0 = benc(et, v0);
        assert((vs.len() - 1) * ss == vs.len() * ss - ss) by (nonlinear_arith);
        assert(vs.len() * ss >= 1 * ss) by (nonlinear_arith)
            requires
                vs.len() >= 1,
                ss >= 0,
        ;
        lemma_fenc_len(et, v0, hp - fp);
        lemma_efseq_len(et, vs.skip(1), hp - fp - ss + b0.len());
        lemma_subrange_split(
            b,
            fp,
            fenc(et, v0, hp - fp),
            efseq(et, vs.skip(1), hp - fp - ss + b0.len()),
        );
        lemma_subrange_split(b, hp, b0, ebseq(et, vs.skip(1)));
        lemma_inplace_of_enc(et, v0, b, fp, hp);
        lemma_elems_of_enc(et, vs.skip(1), b, fp + ss, hp + b0.len());
        assert(seq![v0] + vs.skip(1) =~= vs);
    }
}

/// Decoding the canonical encoding of a whole value gives the value back:
/// the decoder accepts everything the encoder makes, and rebuilds it
/// exactly.
pub proof fn lemma_top_of_enc(t: STy, v: SVal, b: Seq<u8>)
    requires
        t.valid(),
        v.wf(t),
        b == enc(t, v),
        b.len() <= 0xFFFF_FFFF,
    ensures
        sdec_top(t, b) == Result::<SVal, Error>::Ok(v),
{
    let ss = t.slot_size();
    lemma_slot_size_pos(t);
    if t is Record {
        assert(b.subrange(0, b.len() as int) =~= henc(t, v));
        lemma_heap_of_enc(t, v, b, 0);
    } else {
        lemma_fenc_len(t, v, ss);
        assert(b.subrange(0, ss) =~= fenc(t, v, ss));
        assert(b.subrange(ss, ss + benc(t, v).len()) =~= benc(t, v));
        lemma_inplace_of_enc(t, v, b, 0, ss);
    }
}

} // verus!
