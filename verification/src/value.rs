//! Wire values: what the codec packs and unpacks.
use crate::ty::STy;
use crate::utf8::utf8_ok;
use vstd::prelude::*;

verus! {

/// A value of some wire type.
///
/// The float kinds carry their IEEE-754 bit patterns: the codec copies the
/// bytes and never interprets them. Text is carried as its UTF-8 bytes; a
/// well-formed value holds only valid UTF-8.
#[derive(Debug, PartialEq)]
pub enum Value {
    U8(u8),
    U16(u16),
    U32(u32),
    U64(u64),
    I8(i8),
    I16(i16),
    I32(i32),
    I64(i64),
    F32(u32),
    F64(u64),
    Str(Vec<u8>),
    List(Vec<Value>),
    Optional(Option<Box<Value>>),
    Record(Vec<Value>),
}

/// The mathematical form of a wire value.
pub enum SVal {
    U8(u8),
    U16(u16),
    U32(u32),
    U64(u64),
    I8(i8),
    I16(i16),
    I32(i32),
    I64(i64),
    F32(u32),
    F64(u64),
    Str(Seq<u8>),
    List(Seq<SVal>),
    Optional(Option<Box<SVal>>),
    Record(Seq<SVal>),
}

/// The mathematical forms of a list of wire values.
pub open spec fn vals_view(vs: Seq<Value>) -> Seq<SVal>
    decreases vs,
{
    Seq::new(
        vs.len(),
        |i: int|
            if 0 <= i < vs.len() {
                val_view(vs[i])
            } else {
                SVal::U8(0)
            },
    )
}

/// The mathematical form of a wire value, structurally.
pub open spec fn val_view(v: Value) -> SVal
    decreases v,
{
    match v {
        Value::U8(x) => SVal::U8(x),
        Value::U16(x) => SVal::U16(x),
        Value::U32(x) => SVal::U32(x),
        Value::U64(x) => SVal::U64(x),
        Value::I8(x) => SVal::I8(x),
        Value::I16(x) => SVal::I16(x),
        Value::I32(x) => SVal::I32(x),
        Value::I64(x) => SVal::I64(x),
        Value::F32(x) => SVal::F32(x),
        Value::F64(x) => SVal::F64(x),
        Value::Str(s) => SVal::Str(s@),
        Value::List(vs) => SVal::List(vals_view(vs@)),
        Value::Optional(o) => match o {
            Option::None => SVal::Optional(Option::None),
            Option::Some(x) => SVal::Optional(Option::Some(Box::new(val_view(*x)))),
        },
        Value::Record(vs) => SVal::Record(vals_view(vs@)),
    }
}

impl View for Value {
    type V = SVal;

    open spec fn view(&self) -> SVal {
        val_view(*self)
    }
}

impl SVal {
    /// Well-formedness: the value has the given type, and every string in it
    /// holds valid UTF-8.
    pub open spec fn wf(self, t: STy) -> bool
        decreases t, 0int, 0int,
    {
        match t {
            STy::U8 => self is U8,
            STy::U16 => self is U16,
            STy::U32 => self is U32,
            STy::U64 => self is U64,
            STy::I8 => self is I8,
            STy::I16 => self is I16,
            STy::I32 => self is I32,
            STy::I64 => self is I64,
            STy::F32 => self is F32,
            STy::F64 => self is F64,
            STy::Str => match self {
                SVal::Str(s) => s.len() == 0 || utf8_ok(s),
                _ => false,
            },
            STy::List(et) => match self {
                SVal::List(vs) => SVal::all_wf(vs, *et),
                _ => false,
            },
            STy::Optional(it) => match self {
                SVal::Optional(o) => match o {
                    Option::None => true,
                    Option::Some(x) => (*x).wf(*it),
                },
                _ => false,
            },
            STy::Record(ts) => match self {
                SVal::Record(vs) => SVal::fields_wf(vs, ts),
                _ => false,
            },
        }
    }

    /// Every value of the list is well-formed at the element type.
    pub open spec fn all_wf(vs: Seq<SVal>, et: STy) -> bool
        decreases et, 1int, vs.len(),
    {
        if vs.len() == 0 {
            true
        } else {
            vs[0].wf(et) && SVal::all_wf(vs.skip(1), et)
        }
    }

    /// The values are well-formed fields for the type list, in order.
    pub open spec fn fields_wf(vs: Seq<SVal>, ts: Seq<STy>) -> bool
        decreases ts, 1int, vs.len(),
    {
        if ts.len() == 0 {
            vs.len() == 0
        } else {
            vs.len() > 0 && vs[0].wf(ts[0]) && SVal::fields_wf(vs.skip(1), ts.skip(1))
        }
    }
}

/// Well-formed fields match the type list in number.
pub proof fn lemma_fields_wf_len(vs: Seq<SVal>, ts: Seq<STy>)
    requires
        SVal::fields_wf(vs, ts),
    ensures
        vs.len() == ts.len(),
    decreases ts.len(),
{
    if ts.len() > 0 {
        lemma_fields_wf_len(vs.skip(1), ts.skip(1));
    }
}

} // verus!
