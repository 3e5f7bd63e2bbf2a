//! The canonical encoding, as a mathematical function of a type and a value.
//!
//! A buffer region holding a list of fields is laid out as a fixed region
//! (each field's immediate bytes, or a 4-byte offset slot) followed by a heap
//! region (the variable bodies, in field order). An offset is the distance
//! from the slot's own first byte to the body's first byte, so every region
//! is position-independent. A slot holds a sentinel instead of an offset for
//! an empty string or list (0) and for an absent optional (1).
use crate::ty::STy;
use crate::value::SVal;
use vstd::prelude::*;

verus! {

/// Little-endian bytes of the lowest `nbytes` bytes of `n`.
pub open spec fn le(nbytes: int, n: int) -> Seq<u8>
    decreases nbytes,
{
    if nbytes <= 0 {
        Seq::empty()
    } else {
        seq![(n % 256) as u8] + le(nbytes - 1, n / 256)
    }
}

/// The number read back from little-endian bytes.
pub open spec fn le_val(s: Seq<u8>) -> int
    decreases s.len(),
{
    if s.len() == 0 {
        0
    } else {
        s[0] + 256 * le_val(s.skip(1))
    }
}

/// The unsigned integer a scalar value encodes: its own value for unsigned
/// widths, the two's-complement image for signed ones, the bit pattern for
/// floats.
pub open spec fn scalar_uint(v: SVal) -> int {
    match v {
        SVal::U8(x) => x as int,
        SVal::U16(x) => x as int,
        SVal::U32(x) => x as int,
        SVal::U64(x) => x as int,
        SVal::I8(x) => if x >= 0 {
            x as int
        } else {
            x + 0x100
        },
        SVal::I16(x) => if x >= 0 {
            x as int
        } else {
            x + 0x1_0000
        },
        SVal::I32(x) => if x >= 0 {
            x as int
        } else {
            x + 0x1_0000_0000
        },
        SVal::I64(x) => if x >= 0 {
            x as int
        } else {
            x + 0x1_0000_0000_0000_0000
        },
        SVal::F32(x) => x as int,
        SVal::F64(x) => x as int,
        _ => 0,
    }
}

/// Whether an optional slot encodes a present value with the 0 sentinel:
/// only a present-but-empty string or list does.
pub open spec fn empty_sentinel(t: STy, v: SVal) -> bool {
    match t {
        STy::Str => match v {
            SVal::Str(s) => s.len() == 0,
            _ => false,
        },
        STy::List(_) => match v {
            SVal::List(vs) => vs.len() == 0,
            _ => false,
        },
        _ => false,
    }
}

/// The bytes a field contributes to the fixed region of its container.
/// `gap` is the distance from the slot's first byte to the field's heap
/// body, used only when a real offset is emitted.
pub open spec fn fenc(t: STy, v: SVal, gap: int) -> Seq<u8>
    decreases t, 1int, 0int,
{
    match t {
        STy::Str => match v {
            SVal::Str(s) => if s.len() == 0 {
                le(4, 0)
            } else {
                le(4, gap)
            },
            _ => Seq::empty(),
        },
        STy::List(_) => match v {
            SVal::List(vs) => if vs.len() == 0 {
                le(4, 0)
            } else {
                le(4, gap)
            },
            _ => Seq::empty(),
        },
        STy::Optional(it) => match v {
            SVal::Optional(o) => match o {
                Option::None => le(4, 1),
                Option::Some(x) => if empty_sentinel(*it, *x) {
                    le(4, 0)
                } else {
                    le(4, gap)
                },
            },
            _ => Seq::empty(),
        },
        STy::Record(ts) => match v {
            SVal::Record(vs) => if STy::any_variable(ts) {
                le(4, gap)
            } else {
                fseq(ts, vs, 0)
            },
            _ => Seq::empty(),
        },
        _ => le(t.slot_size(), scalar_uint(v)),
    }
}

/// The bytes a field contributes to the heap region of its container:
/// nothing for fixed-size fields and sentinel-encoded ones, the heap body
/// otherwise.
pub open spec fn benc(t: STy, v: SVal) -> Seq<u8>
    decreases t, 2int, 0int,
{
    match t {
        STy::Str => match v {
            SVal::Str(s) => if s.len() == 0 {
                Seq::empty()
            } else {
                henc(t, v)
            },
            _ => Seq::empty(),
        },
        STy::List(_) => match v {
            SVal::List(vs) => if vs.len() == 0 {
                Seq::empty()
            } else {
                henc(t, v)
            },
            _ => Seq::empty(),
        },
        STy::Optional(it) => match v {
            SVal::Optional(o) => match o {
                Option::None => Seq::empty(),
                Option::Some(x) => if empty_sentinel(*it, *x) {
                    Seq::empty()
                } else {
                    henc(*it, *x)
                },
            },
            _ => Seq::empty(),
        },
        STy::Record(ts) => if STy::any_variable(ts) {
            henc(t, v)
        } else {
            Seq::empty()
        },
        _ => Seq::empty(),
    }
}

/// The heap body of a value that an offset points at: scalar bytes, a
/// length-prefixed string, a byte-length-prefixed element region, or a
/// record's own fixed-plus-heap encoding.
pub open spec fn henc(t: STy, v: SVal) -> Seq<u8>
    decreases t, 0int, 0int,
{
    match t {
        STy::Str => match v {
            SVal::Str(s) => le(4, s.len() as int) + s,
            _ => Seq::empty(),
        },
        STy::List(et) => match v {
            SVal::List(vs) => le(4, vs.len() * et.slot_size()) + efseq(
                *et,
                vs,
                vs.len() * et.slot_size(),
            ) + ebseq(*et, vs),
            _ => Seq::empty(),
        },
        STy::Record(ts) => match v {
            SVal::Record(vs) => fseq(ts, vs, STy::slots_len(ts)) + bseq(ts, vs),
            _ => Seq::empty(),
        },
        STy::Optional(_) => Seq::empty(),
        _ => le(t.slot_size(), scalar_uint(v)),
    }
}

/// The fixed region of a field list. `k` is the gap of the first field:
/// the whole fixed region still ahead of its slot, plus every body already
/// emitted behind it.
pub open spec fn fseq(ts: Seq<STy>, vs: Seq<SVal>, k: int) -> Seq<u8>
    decreases ts, 3int, 0int,
{
    if ts.len() == 0 || vs.len() == 0 {
        Seq::empty()
    } else {
        fenc(ts[0], vs[0], k) + fseq(
            ts.skip(1),
            vs.skip(1),
            k - ts[0].slot_size() + benc(ts[0], vs[0]).len(),
        )
    }
}

/// The heap region of a field list: the bodies, in field order.
pub open spec fn bseq(ts: Seq<STy>, vs: Seq<SVal>) -> Seq<u8>
    decreases ts, 3int, 0int,
{
    if ts.len() == 0 || vs.len() == 0 {
        Seq::empty()
    } else {
        benc(ts[0], vs[0]) + bseq(ts.skip(1), vs.skip(1))
    }
}

/// The fixed region of a list's elements, all of one type.
pub open spec fn efseq(et: STy, vs: Seq<SVal>, k: int) -> Seq<u8>
    decreases et, 3int, vs.len(),
{
    if vs.len() == 0 {
        Seq::empty()
    } else {
        fenc(et, vs[0], k) + efseq(et, vs.skip(1), k - et.slot_size() + benc(et, vs[0]).len())
    }
}

/// The heap region of a list's elements.
pub open spec fn ebseq(et: STy, vs: Seq<SVal>) -> Seq<u8>
    decreases et, 3int, vs.len(),
{
    if vs.len() == 0 {
        Seq::empty()
    } else {
        benc(et, vs[0]) + ebseq(et, vs.skip(1))
    }
}

/// The canonical encoding of a whole value. A record stands as its own
/// fixed region followed by its heap region; a string, list or optional is
/// the one-field case of the region layout, an offset slot of 4 followed
/// by its body; a scalar is its bytes alone.
pub open spec fn enc(t: STy, v: SVal) -> Seq<u8> {
    if t is Record {
        henc(t, v)
    } else {
        fenc(t, v, t.slot_size()) + benc(t, v)
    }
}

/// 256 to the `n`.
pub open spec fn pow256(n: int) -> int
    decreases n,
{
    if n <= 0 {
        1
    } else {
        256 * pow256(n - 1)
    }
}

/// `le` produces exactly the asked-for number of bytes.
pub proof fn lemma_le_len(nbytes: int, n: int)
    ensures
        le(nbytes, n).len() == if nbytes <= 0 {
            0
        } else {
            nbytes
        },
    decreases nbytes,
{
    if nbytes > 0 {
        lemma_le_len(nbytes - 1, n / 256);
    }
}

/// Reading little-endian bytes back gives the number they were made from.
pub proof fn lemma_le_val_of_le(nbytes: int, n: int)
    requires
        0 <= n < pow256(nbytes),
    ensures
        le_val(le(nbytes, n)) == n,
    decreases nbytes,
{
    if nbytes <= 0 {
        assert(pow256(nbytes) == 1);
    } else {
        let q = n / 256;
        let r = n % 256;
        assert(n == 256 * q + r && 0 <= r < 256 && 0 <= q) by (nonlinear_arith)
            requires
                n >= 0,
                q == n / 256,
                r == n % 256,
        ;
        assert(q < pow256(nbytes - 1)) by (nonlinear_arith)
            requires
                n < 256 * pow256(nbytes - 1),
                n == 256 * q + r,
                0 <= r < 256,
        ;
        lemma_le_val_of_le(nbytes - 1, q);
        let s = le(nbytes, n);
        assert(s.skip(1) =~= le(nbytes - 1, q));
        assert(le_val(s) == r + 256 * q);
    }
}

/// `le_val` never goes negative, and stays under 256 to the length.
pub proof fn lemma_le_val_bound(s: Seq<u8>)
    ensures
        0 <= le_val(s) < pow256(s.len() as int),
    decreases s.len(),
{
    if s.len() > 0 {
        lemma_le_val_bound(s.skip(1));
        let r = le_val(s.skip(1));
        assert(le_val(s) == s[0] + 256 * r);
        assert(s[0] + 256 * r < 256 * (r + 1)) by (nonlinear_arith)
            requires
                s[0] < 256,
        ;
        assert(256 * (r + 1) <= 256 * pow256(s.len() - 1)) by (nonlinear_arith)
            requires
                r + 1 <= pow256(s.len() - 1),
        ;
    }
}

/// Bytes are recovered from the number they spell: `le_val` is injective.
pub proof fn lemma_le_of_val(s: Seq<u8>)
    ensures
        le(s.len() as int, le_val(s)) == s,
    decreases s.len(),
{
    if s.len() > 0 {
        lemma_le_of_val(s.skip(1));
        lemma_le_val_bound(s.skip(1));
        let r = le_val(s.skip(1));
        let v = le_val(s);
        assert(v == s[0] + 256 * r);
        assert(v % 256 == s[0] && v / 256 == r) by (nonlinear_arith)
            requires
                v == s[0] + 256 * r,
                0 <= s[0] < 256,
                0 <= r,
        ;
        assert(le(s.len() as int, v) =~= s);
    }
}

/// Every scalar's unsigned image is in range for its width, and maps back
/// to the value itself.
pub proof fn lemma_scalar_uint_range(t: STy, v: SVal)
    requires
        t.is_scalar(),
        v.wf(t),
    ensures
        0 <= scalar_uint(v) < pow256(t.slot_size()),
        crate::sdec::scalar_of_uint(t, scalar_uint(v)) == v,
{
    assert(pow256(1) == 256 * pow256(0));
    assert(pow256(2) == 256 * pow256(1));
    assert(pow256(3) == 256 * pow256(2));
    assert(pow256(4) == 256 * pow256(3));
    assert(pow256(5) == 256 * pow256(4));
    assert(pow256(6) == 256 * pow256(5));
    assert(pow256(7) == 256 * pow256(6));
    assert(pow256(8) == 256 * pow256(7));
}

/// Every in-range unsigned integer is some scalar's image: the two maps
/// are inverse.
pub proof fn lemma_scalar_of_uint_range(t: STy, n: int)
    requires
        t.is_scalar(),
        0 <= n < pow256(t.slot_size()),
    ensures
        crate::sdec::scalar_of_uint(t, n).wf(t),
        scalar_uint(crate::sdec::scalar_of_uint(t, n)) == n,
{
    assert(pow256(1) == 256 * pow256(0));
    assert(pow256(2) == 256 * pow256(1));
    assert(pow256(3) == 256 * pow256(2));
    assert(pow256(4) == 256 * pow256(3));
    assert(pow256(5) == 256 * pow256(4));
    assert(pow256(6) == 256 * pow256(5));
    assert(pow256(7) == 256 * pow256(6));
    assert(pow256(8) == 256 * pow256(7));
}

/// The fixed bytes of a well-formed field fill its slot exactly, whatever
/// the gap.
pub proof fn lemma_fenc_len(t: STy, v: SVal, gap: int)
    requires
        t.valid(),
        v.wf(t),
    ensures
        fenc(t, v, gap).len() == t.slot_size(),
    decreases t, 1int, 0int,
{
    match t {
        STy::Str => {
            lemma_le_len(4, 0);
            lemma_le_len(4, gap);
        },
        STy::List(_) => {
            lemma_le_len(4, 0);
            lemma_le_len(4, gap);
        },
        STy::Optional(_) => {
            lemma_le_len(4, 0);
            lemma_le_len(4, 1);
            lemma_le_len(4, gap);
        },
        STy::Record(ts) => {
            if STy::any_variable(ts) {
                lemma_le_len(4, gap);
            } else {
                match v {
                    SVal::Record(vs) => {
                        lemma_fseq_len(ts, vs, 0);
                    },
                    _ => {},
                }
            }
        },
        _ => {
            lemma_le_len(t.slot_size(), scalar_uint(v));
        },
    }
}

/// The fixed region of well-formed fields has the schema's length, whatever
/// the starting gap.
pub proof fn lemma_fseq_len(ts: Seq<STy>, vs: Seq<SVal>, k: int)
    requires
        STy::all_valid(ts),
        SVal::fields_wf(vs, ts),
    ensures
        fseq(ts, vs, k).len() == STy::slots_len(ts),
    decreases ts, 3int, 0int,
{
    if ts.len() > 0 {
        lemma_fenc_len(ts[0], vs[0], k);
        lemma_fseq_len(ts.skip(1), vs.skip(1), k - ts[0].slot_size() + benc(ts[0], vs[0]).len());
    }
}

/// The element fixed region of a well-formed list is one slot per element.
pub proof fn lemma_efseq_len(et: STy, vs: Seq<SVal>, k: int)
    requires
        et.valid(),
        SVal::all_wf(vs, et),
    ensures
        efseq(et, vs, k).len() == vs.len() * et.slot_size(),
    decreases et, 3int, vs.len(),
{
    if vs.len() == 0 {
        assert(vs.len() * et.slot_size() == 0);
    } else {
        lemma_fenc_len(et, vs[0], k);
        lemma_efseq_len(et, vs.skip(1), k - et.slot_size() + benc(et, vs[0]).len());
        assert((vs.len() - 1) * et.slot_size() + et.slot_size() == vs.len() * et.slot_size())
            by (nonlinear_arith);
    }
}

/// The bytes the first encoding pass writes for a field: final bytes for a
/// fixed-size field, a zeroed slot for a string, list or variable record
/// (patched later, or left as the empty sentinel), and the absent sentinel
/// for an optional.
pub open spec fn fenc_init(t: STy, v: SVal) -> Seq<u8>
    decreases t, 1int, 0int,
{
    match t {
        STy::Str => le(4, 0),
        STy::List(_) => le(4, 0),
        STy::Optional(_) => le(4, 1),
        STy::Record(ts) => if STy::any_variable(ts) {
            le(4, 0)
        } else {
            match v {
                SVal::Record(vs) => finit(ts, vs),
                _ => Seq::empty(),
            }
        },
        _ => le(t.slot_size(), scalar_uint(v)),
    }
}

/// The first-pass bytes of a field list.
pub open spec fn finit(ts: Seq<STy>, vs: Seq<SVal>) -> Seq<u8>
    decreases ts, 3int, 0int,
{
    if ts.len() == 0 || vs.len() == 0 {
        Seq::empty()
    } else {
        fenc_init(ts[0], vs[0]) + finit(ts.skip(1), vs.skip(1))
    }
}

/// The first-pass bytes of a list's elements.
pub open spec fn einit(et: STy, vs: Seq<SVal>) -> Seq<u8>
    decreases et, 3int, vs.len(),
{
    if vs.len() == 0 {
        Seq::empty()
    } else {
        fenc_init(et, vs[0]) + einit(et, vs.skip(1))
    }
}

/// First-pass bytes fill the slot exactly, like the final ones.
pub proof fn lemma_fenc_init_len(t: STy, v: SVal)
    requires
        t.valid(),
        v.wf(t),
    ensures
        fenc_init(t, v).len() == t.slot_size(),
    decreases t, 1int, 0int,
{
    match t {
        STy::Record(ts) => {
            if STy::any_variable(ts) {
                lemma_le_len(4, 0);
            } else {
                match v {
                    SVal::Record(vs) => {
                        lemma_finit_len(ts, vs);
                    },
                    _ => {},
                }
            }
        },
        _ => {
            lemma_le_len(4, 0);
            lemma_le_len(4, 1);
            lemma_le_len(t.slot_size(), scalar_uint(v));
        },
    }
}

/// The first-pass region of a field list has the schema's length.
pub proof fn lemma_finit_len(ts: Seq<STy>, vs: Seq<SVal>)
    requires
        STy::all_valid(ts),
        SVal::fields_wf(vs, ts),
    ensures
        finit(ts, vs).len() == STy::slots_len(ts),
    decreases ts, 3int, 0int,
{
    if ts.len() > 0 {
        lemma_fenc_init_len(ts[0], vs[0]);
        lemma_finit_len(ts.skip(1), vs.skip(1));
    }
}

/// The first-pass region of a list's elements is one slot per element.
pub proof fn lemma_einit_len(et: STy, vs: Seq<SVal>)
    requires
        et.valid(),
        SVal::all_wf(vs, et),
    ensures
        einit(et, vs).len() == vs.len() * et.slot_size(),
    decreases et, 3int, vs.len(),
{
    if vs.len() == 0 {
        assert(vs.len() * et.slot_size() == 0);
    } else {
        lemma_fenc_init_len(et, vs[0]);
        lemma_einit_len(et, vs.skip(1));
        assert((vs.len() - 1) * et.slot_size() + et.slot_size() == vs.len() * et.slot_size())
            by (nonlinear_arith);
    }
}

/// For a fixed-size field the first pass already writes the final bytes.
pub proof fn lemma_fenc_init_fixed(t: STy, v: SVal, gap: int)
    requires
        !t.is_variable(),
    ensures
        fenc_init(t, v) == fenc(t, v, gap),
    decreases t, 1int, 0int,
{
    match t {
        STy::Record(ts) => {
            match v {
                SVal::Record(vs) => {
                    lemma_finit_fixed(ts, vs, 0);
                },
                _ => {},
            }
        },
        _ => {},
    }
}

/// For an all-fixed field list the first pass writes the final region.
pub proof fn lemma_finit_fixed(ts: Seq<STy>, vs: Seq<SVal>, k: int)
    requires
        !STy::any_variable(ts),
    ensures
        finit(ts, vs) == fseq(ts, vs, k),
    decreases ts, 3int, 0int,
{
    if ts.len() > 0 && vs.len() > 0 {
        lemma_fenc_init_fixed(ts[0], vs[0], k);
        lemma_finit_fixed(ts.skip(1), vs.skip(1), k - ts[0].slot_size() + benc(ts[0], vs[0]).len());
    }
}

} // verus!
