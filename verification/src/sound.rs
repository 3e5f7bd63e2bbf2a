//! Whatever the strict decoder accepts is a canonical encoding.
//!
//! The lemmas here read the decoder's successful runs back into the
//! encoder's vocabulary: an accepted field leaves behind exactly the bytes
//! `fenc`/`benc` prescribe for the value it produced, so a whole accepted
//! buffer is `enc` of the decoded value, byte for byte.
use crate::enc::{
    benc, bseq, ebseq, efseq, enc, fenc, fseq, henc, le, le_val, lemma_efseq_len, lemma_fenc_len,
    lemma_fseq_len, lemma_le_len, lemma_le_of_val, lemma_le_val_bound,
    lemma_scalar_of_uint_range, pow256, empty_sentinel,
};
use crate::err::Error;
use crate::roundtrip::{
    heap_form, lemma_benc_fixed_empty, lemma_bseq_fixed_empty, lemma_fseq_gap,
    lemma_slots_len_nonneg, lemma_subrange_split,
};
use crate::sdec::{read_ok, ru32, sdec_elems, sdec_fields, sdec_heap, sdec_inplace, sdec_top};
use crate::ty::{lemma_slot_size_pos, STy};
use crate::value::SVal;
use vstd::prelude::*;

verus! {

/// Adjacent subranges of a buffer join into one.
pub proof fn lemma_subrange_join(b: Seq<u8>, p: int, m: int, q: int)
    requires
        0 <= p <= m <= q <= b.len(),
    ensures
        b.subrange(p, q) == b.subrange(p, m) + b.subrange(m, q),
{
    assert(b.subrange(p, q) =~= b.subrange(p, m) + b.subrange(m, q));
}

/// Four accepted bytes spell the number that was read from them.
proof fn lemma_le_of_ru32(b: Seq<u8>, p: int)
    requires
        0 <= p,
        p + 4 <= b.len(),
    ensures
        0 <= ru32(b, p) <= 0xFFFF_FFFF,
        b.subrange(p, p + 4) == le(4, ru32(b, p)),
{
    assert(pow256(4) == 256 * pow256(3) && pow256(3) == 256 * pow256(2) && pow256(2) == 256
        * pow256(1) && pow256(1) == 256 * pow256(0));
    lemma_le_val_bound(b.subrange(p, p + 4));
    lemma_le_of_val(b.subrange(p, p + 4));
}

/// A field the decoder accepts is well formed, and the bytes it consumed
/// are its canonical fixed bytes and body.
pub proof fn lemma_inplace_sound(t: STy, b: Seq<u8>, fp: int, hp: int)
    requires
        t.valid(),
        0 <= fp,
        0 <= hp,
    ensures
        sdec_inplace(t, b, fp, hp) matches Result::Ok(r) ==> {
            let v = r.0;
            &&& v.wf(t)
            &&& r.1 == hp + benc(t, v).len()
            &&& fp + t.slot_size() <= b.len()
            &&& fp + t.slot_size() <= 0xFFFF_FFFF
            &&& b.subrange(fp, fp + t.slot_size()) == fenc(t, v, hp - fp)
            &&& benc(t, v).len() > 0 ==> (hp + benc(t, v).len() <= b.len() && hp + benc(t, v).len()
                <= 0xFFFF_FFFF && b.subrange(hp, hp + benc(t, v).len()) == benc(t, v))
        },
    decreases t, 1int, 0int,
{
    reveal_with_fuel(SVal::wf, 2);
    lemma_slot_size_pos(t);
    match t {
        STy::Str => {
            if read_ok(b, fp, 4) {
                let c = ru32(b, fp);
                lemma_le_of_ru32(b, fp);
                if c == 0 {
                } else if hp == fp + c {
                    lemma_heap_sound(t, b, hp);
                }
            }
        },
        STy::List(_) => {
            if read_ok(b, fp, 4) {
                let c = ru32(b, fp);
                lemma_le_of_ru32(b, fp);
                if c == 0 {
                } else if hp == fp + c {
                    lemma_heap_sound(t, b, hp);
                }
            }
        },
        STy::Optional(it) => {
            if read_ok(b, fp, 4) {
                let c = ru32(b, fp);
                lemma_le_of_ru32(b, fp);
                if c == 1 {
                    assert(SVal::Optional(Option::None).wf(t));
                } else if c == 0 {
                    match *it {
                        STy::Str => {
                            assert(SVal::Str(Seq::empty()).wf(*it));
                            assert(SVal::Optional(
                                Option::Some(Box::new(SVal::Str(Seq::empty()))),
                            ).wf(t));
                        },
                        STy::List(_) => {
                            assert(SVal::List(Seq::empty()).wf(*it));
                            assert(SVal::Optional(
                                Option::Some(Box::new(SVal::List(Seq::empty()))),
                            ).wf(t));
                        },
                        _ => {},
                    }
                } else if hp == fp + c {
                    lemma_heap_sound(*it, b, hp);
                    match sdec_heap(*it, b, hp) {
                        Result::Ok((x, _p2)) => {
                            assert(!empty_sentinel(*it, x));
                            assert(x.wf(*it));
                            assert(SVal::Optional(Option::Some(Box::new(x))).wf(t));
                        },
                        Result::Err(_) => {},
                    }
                }
            }
        },
        STy::Record(ts) => {
            if STy::any_variable(ts) {
                if read_ok(b, fp, 4) {
                    let c = ru32(b, fp);
                    lemma_le_of_ru32(b, fp);
                    if hp == fp + c {
                        lemma_heap_sound(t, b, hp);
                    }
                }
            } else {
                lemma_fields_sound(ts, b, fp, hp);
                match sdec_fields(ts, b, fp, hp) {
                    Result::Ok((vs, _hp2)) => {
                        lemma_fseq_gap(ts, vs, hp - fp, 0);
                        lemma_bseq_fixed_empty(ts, vs);
                        lemma_benc_fixed_empty(t, SVal::Record(vs));
                    },
                    Result::Err(_) => {},
                }
            }
        },
        _ => {
            if read_ok(b, fp, t.slot_size()) {
                let w = t.slot_size();
                let s = b.subrange(fp, fp + w);
                lemma_le_val_bound(s);
                lemma_le_of_val(s);
                lemma_scalar_of_uint_range(t, le_val(s));
            }
        },
    }
}

/// A heap body the decoder accepts is the canonical body of the value it
/// produced, ending exactly where the decoder stopped.
pub proof fn lemma_heap_sound(t: STy, b: Seq<u8>, p: int)
    requires
        t.valid(),
        !(t is Optional),
        0 <= p,
    ensures
        sdec_heap(t, b, p) matches Result::Ok(r) ==> {
            let v = r.0;
            &&& v.wf(t)
            &&& heap_form(t, v)
            &&& r.1 == p + henc(t, v).len()
            &&& r.1 <= b.len()
            &&& r.1 <= 0xFFFF_FFFF
            &&& b.subrange(p, r.1) == henc(t, v)
        },
    decreases t, 0int, 0int,
{
    match t {
        STy::Str => {
            if read_ok(b, p, 4) {
                let n = ru32(b, p);
                lemma_le_of_ru32(b, p);
                if n != 0 && read_ok(b, p + 4, n) {
                    lemma_le_len(4, n);
                    lemma_subrange_join(b, p, p + 4, p + 4 + n);
                }
            }
        },
        STy::List(et) => {
            if read_ok(b, p, 4) {
                let n = ru32(b, p);
                lemma_le_of_ru32(b, p);
                let ss = et.slot_size();
                lemma_slot_size_pos(*et);
                if n != 0 && n % ss == 0 && p + 4 + n <= 0xFFFF_FFFF {
                    let cnt = n / ss;
                    assert(cnt * ss == n && cnt >= 0) by (nonlinear_arith)
                        requires
                            ss >= 1,
                            n >= 0,
                            n % ss == 0,
                            cnt == n / ss,
                    ;
                    lemma_elems_sound(*et, cnt, b, p + 4, p + 4 + n);
                    match sdec_elems(*et, cnt, b, p + 4, p + 4 + n) {
                        Result::Ok((vs, hp2)) => {
                            lemma_efseq_len(*et, vs, n);
                            lemma_le_len(4, n);
                            if ebseq(*et, vs).len() > 0 {
                                lemma_subrange_join(b, p, p + 4, p + 4 + n);
                                lemma_subrange_join(b, p + 4, p + 4 + n, hp2);
                                assert(b.subrange(p, hp2) =~= le(4, n) + efseq(*et, vs, n) + ebseq(
                                    *et,
                                    vs,
                                ));
                            } else {
                                lemma_subrange_join(b, p, p + 4, p + 4 + n);
                                assert(b.subrange(p, hp2) =~= le(4, n) + efseq(*et, vs, n) + ebseq(
                                    *et,
                                    vs,
                                ));
                            }
                        },
                        Result::Err(_) => {},
                    }
                }
            }
        },
        STy::Record(ts) => {
            let fl = STy::slots_len(ts);
            lemma_slots_len_nonneg(ts);
            if p + fl <= 0xFFFF_FFFF {
                lemma_fields_sound(ts, b, p, p + fl);
                match sdec_fields(ts, b, p, p + fl) {
                    Result::Ok((vs, hp2)) => {
                        lemma_fseq_len(ts, vs, fl);
                        if bseq(ts, vs).len() > 0 {
                            lemma_subrange_join(b, p, p + fl, hp2);
                        } else {
                            assert(b.subrange(p, hp2) =~= b.subrange(p, p + fl) + bseq(ts, vs));
                        }
                    },
                    Result::Err(_) => {},
                }
            }
        },
        STy::Optional(_) => {},
        _ => {
            if read_ok(b, p, t.slot_size()) {
                let w = t.slot_size();
                let s = b.subrange(p, p + w);
                lemma_le_val_bound(s);
                lemma_le_of_val(s);
                lemma_scalar_of_uint_range(t, le_val(s));
            }
        },
    }
}

/// Fields the decoder accepts are well formed for their schema, and their
/// fixed region and bodies are canonical.
pub proof fn lemma_fields_sound(ts: Seq<STy>, b: Seq<u8>, fp: int, hp: int)
    requires
        STy::all_valid(ts),
        0 <= fp,
        0 <= hp,
    ensures
        sdec_fields(ts, b, fp, hp) matches Result::Ok(r) ==> {
            let vs = r.0;
            &&& SVal::fields_wf(vs, ts)
            &&& r.1 == hp + bseq(ts, vs).len()
            &&& ts.len() > 0 ==> (fp + STy::slots_len(ts) <= b.len() && fp + STy::slots_len(ts)
                <= 0xFFFF_FFFF && b.subrange(fp, fp + STy::slots_len(ts)) == fseq(ts, vs, hp - fp))
            &&& bseq(ts, vs).len() > 0 ==> (hp + bseq(ts, vs).len() <= b.len() && hp + bseq(
                ts,
                vs,
            ).len() <= 0xFFFF_FFFF && b.subrange(hp, hp + bseq(ts, vs).len()) == bseq(ts, vs))
        },
    decreases ts, 3int, 0int,
{
    if ts.len() == 0 {
    } else {
        let t0 = ts[0];
        let ss0 = t0.slot_size();
        lemma_slot_size_pos(t0);
        lemma_slots_len_nonneg(ts.skip(1));
        lemma_inplace_sound(t0, b, fp, hp);
        match sdec_inplace(t0, b, fp, hp) {
            Result::Ok((v0, hp1)) => {
                let b0 = benc(t0, v0);
                lemma_fields_sound(ts.skip(1), b, fp + ss0, hp1);
                match sdec_fields(ts.skip(1), b, fp + ss0, hp1) {
                    Result::Ok((vs1, hp2)) => {
                        let vs = seq![v0] + vs1;
                        assert(vs[0] == v0);
                        assert(vs.skip(1) =~= vs1);
                        lemma_fenc_len(t0, v0, hp - fp);
                        lemma_fseq_len(ts.skip(1), vs1, hp1 - (fp + ss0));
                        lemma_subrange_join(b, fp, fp + ss0, fp + STy::slots_len(ts));
                        assert(b.subrange(fp, fp + STy::slots_len(ts)) =~= fseq(ts, vs, hp - fp));
                        let bs1 = bseq(ts.skip(1), vs1);
                        assert(bseq(ts, vs) =~= b0 + bs1);
                        if b0.len() > 0 && bs1.len() > 0 {
                            lemma_subrange_join(b, hp, hp1, hp1 + bs1.len());
                            assert(b.subrange(hp, hp + bseq(ts, vs).len()) =~= bseq(ts, vs));
                        } else if b0.len() > 0 {
                            assert(b.subrange(hp, hp + bseq(ts, vs).len()) =~= bseq(ts, vs));
                        } else if bs1.len() > 0 {
                            assert(b.subrange(hp, hp + bseq(ts, vs).len()) =~= bseq(ts, vs));
                        }
                    },
                    Result::Err(_) => {},
                }
            },
            Result::Err(_) => {},
        }
    }
}

/// List elements the decoder accepts are well formed, exactly as many as
/// asked for, and their regions are canonical.
pub proof fn lemma_elems_sound(et: STy, n: int, b: Seq<u8>, fp: int, hp: int)
    requires
        et.valid(),
        0 <= fp,
        0 <= hp,
        0 <= n,
    ensures
        sdec_elems(et, n, b, fp, hp) matches Result::Ok(r) ==> {
            let vs = r.0;
            &&& vs.len() == n
            &&& SVal::all_wf(vs, et)
            &&& r.1 == hp + ebseq(et, vs).len()
            &&& n > 0 ==> (fp + n * et.slot_size() <= b.len() && fp + n * et.slot_size()
                <= 0xFFFF_FFFF && b.subrange(fp, fp + n * et.slot_size()) == efseq(et, vs, hp - fp))
            &&& ebseq(et, vs).len() > 0 ==> (hp + ebseq(et, vs).len() <= b.len() && hp + ebseq(
                et,
                vs,
            ).len() <= 0xFFFF_FFFF && b.subrange(hp, hp + ebseq(et, vs).len()) == ebseq(et, vs))
        },
    decreases et, 3int, n,
{
    let ss = et.slot_size();
    lemma_slot_size_pos(et);
    if n == 0 {
    } else {
        assert(n * ss == (n - 1) * ss + ss && (n - 1) * ss >= 0) by (nonlinear_arith)
            requires
                n >= 1,
                ss >= 1,
        ;
        lemma_inplace_sound(et, b, fp, hp);
        match sdec_inplace(et, b, fp, hp) {
            Result::Ok((v0, hp1)) => {
                let b0 = benc(et, v0);
                lemma_elems_sound(et, n - 1, b, fp + ss, hp1);
                match sdec_elems(et, n - 1, b, fp + ss, hp1) {
                    Result::Ok((vs1, hp2)) => {
                        let vs = seq![v0] + vs1;
                        assert(vs[0] == v0);
                        assert(vs.skip(1) =~= vs1);
                        lemma_fenc_len(et, v0, hp - fp);
                        lemma_efseq_len(et, vs1, hp1 - (fp + ss));
                        lemma_subrange_join(b, fp, fp + ss, fp + n * ss);
                        assert(b.subrange(fp, fp + n * ss) =~= efseq(et, vs, hp - fp));
                        let bs1 = ebseq(et, vs1);
                        assert(ebseq(et, vs) =~= b0 + bs1);
                        if b0.len() > 0 && bs1.len() > 0 {
                            lemma_subrange_join(b, hp, hp1, hp1 + bs1.len());
                            assert(b.subrange(hp, hp + ebseq(et, vs).len()) =~= ebseq(et, vs));
                        } else if b0.len() > 0 {
                            assert(b.subrange(hp, hp + ebseq(et, vs).len()) =~= ebseq(et, vs));
                        } else if bs1.len() > 0 {
                            assert(b.subrange(hp, hp + ebseq(et, vs).len()) =~= ebseq(et, vs));
                        }
                    },
                    Result::Err(_) => {},
                }
            },
            Result::Err(_) => {},
        }
    }
}

/// A whole buffer the decoder accepts is the canonical encoding of the
/// decoded value: decoding is sound, and canonical form is unique.
pub proof fn lemma_top_sound(t: STy, b: Seq<u8>)
    requires
        t.valid(),
    ensures
        sdec_top(t, b) matches Result::Ok(v) ==> {
            &&& v.wf(t)
            &&& b == enc(t, v)
            &&& b.len() <= 0xFFFF_FFFF
        },
{
    let ss = t.slot_size();
    lemma_slot_size_pos(t);
    if t is Record {
        lemma_heap_sound(t, b, 0);
        match sdec_heap(t, b, 0) {
            Result::Ok((v, hp2)) => {
                if hp2 == b.len() {
                    assert(b.subrange(0, hp2) =~= b);
                    assert(b =~= enc(t, v));
                }
            },
            Result::Err(_) => {},
        }
    } else {
        lemma_inplace_sound(t, b, 0, ss);
        match sdec_inplace(t, b, 0, ss) {
            Result::Ok((v, hp2)) => {
                if hp2 == b.len() {
                    lemma_fenc_len(t, v, ss);
                    if benc(t, v).len() > 0 {
                        lemma_subrange_join(b, 0, ss, hp2);
                        assert(b.subrange(0, hp2) =~= b);
                        assert(b =~= enc(t, v));
                    } else {
                        assert(b.subrange(0, ss) =~= b);
                        assert(b =~= enc(t, v));
                    }
                }
            },
            Result::Err(_) => {},
        }
    }
}

} // verus!
