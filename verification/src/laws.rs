//! The properties the codec promises, stated once, in one place.
//!
//! Each lemma speaks over the spec functions that `pack`, `unpack` and
//! `verify` carry in their contracts: `enc`, the canonical encoding, and
//! `sdec_top`, the strict whole-buffer decode.
use crate::enc::{enc, lemma_le_val_bound};
use crate::err::Error;
use crate::roundtrip::lemma_top_of_enc;
use crate::sdec::{read_ok, ru32, sdec_elems, sdec_fields, sdec_heap, sdec_inplace, sdec_top};
use crate::sound::lemma_top_sound;
use crate::ty::{lemma_slot_size_pos, STy};
use crate::utf8::utf8_ok;
use crate::value::SVal;
use vstd::prelude::*;

verus! {

/// Round trip: decoding the canonical encoding of any well-formed value
/// that the format can reach gives exactly that value back. With `pack`'s
/// and `unpack`'s contracts this says `unpack(pack(v)) == v`, and with
/// `verify`'s that `pack(v)` always verifies.
pub proof fn lemma_round_trip(t: STy, v: SVal)
    requires
        t.valid(),
        v.wf(t),
        enc(t, v).len() <= 0xFFFF_FFFF,
    ensures
        sdec_top(t, enc(t, v)) == Result::<SVal, Error>::Ok(v),
{
    lemma_top_of_enc(t, v, enc(t, v));
}

/// Canonicity: whatever decodes, re-encodes to the very same bytes. With
/// the contracts this says `pack(unpack(b)) == b` whenever `unpack(b)`
/// succeeds, and that `verify` accepts nothing but canonical encodings.
pub proof fn lemma_decode_canonical(t: STy, b: Seq<u8>)
    requires
        t.valid(),
    ensures
        sdec_top(t, b) matches Ok(v) ==> (v.wf(t) && b == enc(t, v) && b.len() <= 0xFFFF_FFFF),
{
    lemma_top_sound(t, b);
}

/// One value, one encoding: the canonical form is injective.
pub proof fn lemma_enc_injective(t: STy, v1: SVal, v2: SVal)
    requires
        t.valid(),
        v1.wf(t),
        v2.wf(t),
        enc(t, v1) == enc(t, v2),
        enc(t, v1).len() <= 0xFFFF_FFFF,
    ensures
        v1 == v2,
{
    lemma_round_trip(t, v1);
    lemma_round_trip(t, v2);
}

/// A longer buffer changes no successful decode: every read the decoder
/// makes lies inside the bytes it consumed.
pub proof fn lemma_extend_inplace(t: STy, b: Seq<u8>, b2: Seq<u8>, fp: int, hp: int)
    requires
        t.valid(),
        0 <= fp,
        0 <= hp,
        b2.len() >= b.len(),
        b2.subrange(0, b.len() as int) == b,
        sdec_inplace(t, b, fp, hp) is Ok,
    ensures
        sdec_inplace(t, b2, fp, hp) == sdec_inplace(t, b, fp, hp),
    decreases t, 1int, 0int,
{
    lemma_extend_reads(b, b2);
    match t {
        STy::Str => {
            let c = ru32(b, fp);
            if c != 0 && hp == fp + c {
                lemma_extend_heap(t, b, b2, hp);
            }
        },
        STy::List(_) => {
            let c = ru32(b, fp);
            if c != 0 && hp == fp + c {
                lemma_extend_heap(t, b, b2, hp);
            }
        },
        STy::Optional(it) => {
            let c = ru32(b, fp);
            if c != 0 && c != 1 && hp == fp + c {
                lemma_extend_heap(*it, b, b2, hp);
            }
        },
        STy::Record(ts) => {
            if STy::any_variable(ts) {
                let c = ru32(b, fp);
                if hp == fp + c {
                    lemma_extend_heap(t, b, b2, hp);
                }
            } else {
                lemma_extend_fields(ts, b, b2, fp, hp);
            }
        },
        _ => {},
    }
}

/// Reads agree on the shared prefix.
proof fn lemma_extend_reads(b: Seq<u8>, b2: Seq<u8>)
    requires
        b2.len() >= b.len(),
        b2.subrange(0, b.len() as int) == b,
    ensures
        forall|p: int, n: int|
            0 <= p && 0 <= n && #[trigger] read_ok(b, p, n) ==> (read_ok(b2, p, n) && b2.subrange(
                p,
                p + n,
            ) == b.subrange(p, p + n)),
{
    assert forall|p: int, n: int|
        0 <= p && 0 <= n && #[trigger] read_ok(b, p, n) implies (read_ok(b2, p, n) && b2.subrange(
        p,
        p + n,
    ) == b.subrange(p, p + n)) by {
        assert(b2.subrange(p, p + n) =~= b.subrange(p, p + n));
    }
}

/// A longer buffer changes no accepted heap body.
pub proof fn lemma_extend_heap(t: STy, b: Seq<u8>, b2: Seq<u8>, p: int)
    requires
        t.valid(),
        0 <= p,
        b2.len() >= b.len(),
        b2.subrange(0, b.len() as int) == b,
        sdec_heap(t, b, p) is Ok,
    ensures
        sdec_heap(t, b2, p) == sdec_heap(t, b, p),
    decreases t, 0int, 0int,
{
    lemma_extend_reads(b, b2);
    match t {
        STy::Str => {
            let n = ru32(b, p);
            lemma_le_val_bound(b.subrange(p, p + 4));
            assert(b2.subrange(p, p + 4) == b.subrange(p, p + 4));
            if read_ok(b, p, 4) && n != 0 && read_ok(b, p + 4, n) {
                assert(b2.subrange(p + 4, p + 4 + n) == b.subrange(p + 4, p + 4 + n));
            }
        },
        STy::List(et) => {
            let n = ru32(b, p);
            lemma_le_val_bound(b.subrange(p, p + 4));
            let ss = et.slot_size();
            lemma_slot_size_pos(*et);
            if read_ok(b, p, 4) && n != 0 && n % ss == 0 && p + 4 + n <= 0xFFFF_FFFF {
                assert(n / ss >= 0) by (nonlinear_arith)
                    requires
                        n >= 0,
                        ss >= 1,
                ;
                lemma_extend_elems(*et, n / ss, b, b2, p + 4, p + 4 + n);
            }
        },
        STy::Record(ts) => {
            crate::roundtrip::lemma_slots_len_nonneg(ts);
            if p + STy::slots_len(ts) <= 0xFFFF_FFFF {
                lemma_extend_fields(ts, b, b2, p, p + STy::slots_len(ts));
            }
        },
        _ => {},
    }
}

/// A longer buffer changes no accepted field run.
pub proof fn lemma_extend_fields(ts: Seq<STy>, b: Seq<u8>, b2: Seq<u8>, fp: int, hp: int)
    requires
        STy::all_valid(ts),
        0 <= fp,
        0 <= hp,
        b2.len() >= b.len(),
        b2.subrange(0, b.len() as int) == b,
        sdec_fields(ts, b, fp, hp) is Ok,
    ensures
        sdec_fields(ts, b2, fp, hp) == sdec_fields(ts, b, fp, hp),
    decreases ts, 3int, 0int,
{
    if ts.len() > 0 {
        crate::ty::lemma_slot_size_pos(ts[0]);
        lemma_extend_inplace(ts[0], b, b2, fp, hp);
        match sdec_inplace(ts[0], b, fp, hp) {
            Result::Ok((v, hp1)) => {
                crate::sound::lemma_inplace_sound(ts[0], b, fp, hp);
                lemma_extend_fields(ts.skip(1), b, b2, fp + ts[0].slot_size(), hp1);
            },
            Result::Err(_) => {},
        }
    }
}

/// A longer buffer changes no accepted element run.
pub proof fn lemma_extend_elems(et: STy, n: int, b: Seq<u8>, b2: Seq<u8>, fp: int, hp: int)
    requires
        et.valid(),
        0 <= fp,
        0 <= hp,
        b2.len() >= b.len(),
        b2.subrange(0, b.len() as int) == b,
        sdec_elems(et, n, b, fp, hp) is Ok,
    ensures
        sdec_elems(et, n, b2, fp, hp) == sdec_elems(et, n, b, fp, hp),
    decreases et, 3int, n,
{
    if n > 0 {
        lemma_slot_size_pos(et);
        lemma_extend_inplace(et, b, b2, fp, hp);
        match sdec_inplace(et, b, fp, hp) {
            Result::Ok((v, hp1)) => {
                crate::sound::lemma_inplace_sound(et, b, fp, hp);
                lemma_extend_elems(et, n - 1, b, b2, fp + et.slot_size(), hp1);
            },
            Result::Err(_) => {},
        }
    }
}

/// No trailing bytes: append anything non-empty to a valid encoding and
/// verification fails.
pub proof fn lemma_no_trailing(t: STy, b: Seq<u8>, s: Seq<u8>)
    requires
        t.valid(),
        sdec_top(t, b) is Ok,
        s.len() > 0,
    ensures
        sdec_top(t, b + s) is Err,
{
    let b2 = b + s;
    assert(b2.subrange(0, b.len() as int) =~= b);
    lemma_slot_size_pos(t);
    if t is Record {
        lemma_extend_heap(t, b, b2, 0);
    } else {
        lemma_extend_inplace(t, b, b2, 0, t.slot_size());
    }
}

/// Bad UTF-8 is named as such: a string body whose length prefix and range
/// are in order but whose bytes are not valid UTF-8 is rejected with
/// exactly the UTF-8 failure.
pub proof fn lemma_bad_utf8(b: Seq<u8>, p: int)
    requires
        0 <= p,
        read_ok(b, p, 4),
        ru32(b, p) != 0,
        read_ok(b, p + 4, ru32(b, p)),
        !utf8_ok(b.subrange(p + 4, p + 4 + ru32(b, p))),
    ensures
        sdec_heap(STy::Str, b, p) == Result::<(SVal, int), Error>::Err(Error::BadUTF8),
{
}

/// Sentinel discipline, first half: the 0 sentinel means present-and-empty
/// and only strings and lists have an empty form, so offset 0 in the slot
/// of an optional of any other type is a bad offset.
pub proof fn lemma_sentinel_zero(t: STy, b: Seq<u8>)
    requires
        t.valid(),
        t matches STy::Optional(it) && !((*it) is Str) && !((*it) is List),
        b.len() >= 4,
        ru32(b, 0) == 0,
    ensures
        sdec_top(t, b) == Result::<SVal, Error>::Err(Error::BadOffset),
{
    assert(read_ok(b, 0, 4));
}

/// Sentinel discipline, second half: the 1 sentinel means absent and only
/// an optional has an absent form, so offset 1 in the slot of a plain
/// string or list, or in the leading slot of a record whose first field is
/// one, is a bad offset.
pub proof fn lemma_sentinel_one(t: STy, b: Seq<u8>)
    requires
        t.valid(),
        t is Str || t is List || (t matches STy::Record(ts) && (ts[0] is Str || ts[0] is List)),
        b.len() >= 4,
        ru32(b, 0) == 1,
    ensures
        sdec_top(t, b) == Result::<SVal, Error>::Err(Error::BadOffset),
{
    assert(read_ok(b, 0, 4));
    match t {
        STy::Record(ts) => {
            assert(ts.len() > 0 && STy::all_valid(ts));
            assert(ts[0].valid());
            crate::ty::lemma_slots_len_pos(ts);
            assert(ts[0].slot_size() == 4);
            assert(STy::slots_len(ts) >= 4);
        },
        _ => {
            assert(t.slot_size() == 4);
        },
    }
}

/// Offset canonicity at the outermost slot: a variable value reached
/// through the leading slot must be reached with offset exactly 4; any
/// other non-sentinel value there is rejected.
pub proof fn lemma_offset_canonical_top(t: STy, b: Seq<u8>)
    requires
        t.valid(),
        t is Str || t is List || t is Optional,
        b.len() >= 4,
        ru32(b, 0) != 0,
        ru32(b, 0) != 1,
        ru32(b, 0) != 4,
    ensures
        sdec_top(t, b) is Err,
{
    assert(read_ok(b, 0, 4));
    lemma_slot_size_pos(t);
}

} // verus!
