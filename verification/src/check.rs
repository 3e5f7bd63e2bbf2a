//! Runtime checks for schemas and values: the executable faces of
//! `STy::valid`, `STy::slot_size` and `SVal::wf`.
use crate::ty::{lemma_slot_size_pos, ty_view, tys_view, STy, Ty};
use crate::utf8::check_utf8;
use crate::value::{vals_view, SVal, Value};
use vstd::prelude::*;
use vstd::slice::{slice_index_get, slice_subrange};

verus! {

/// `n`, but never above the first count that cannot be a fixed-region
/// length.
pub open spec fn cap32(n: int) -> int {
    if n > 0x1_0000_0000 {
        0x1_0000_0000
    } else {
        n
    }
}

/// The views of a type list restrict pointwise.
pub proof fn lemma_tys_view_sub(ts: Seq<Ty>, i: int, j: int)
    requires
        0 <= i <= j <= ts.len(),
    ensures
        tys_view(ts.subrange(i, j)) == tys_view(ts).subrange(i, j),
{
    assert(tys_view(ts.subrange(i, j)) =~= tys_view(ts).subrange(i, j));
}

/// The views of a value list restrict pointwise.
pub proof fn lemma_vals_view_sub(vs: Seq<Value>, i: int, j: int)
    requires
        0 <= i <= j <= vs.len(),
    ensures
        vals_view(vs.subrange(i, j)) == vals_view(vs).subrange(i, j),
{
    assert(vals_view(vs.subrange(i, j)) =~= vals_view(vs).subrange(i, j));
}

/// Whether some type of the list is variable-size.
pub fn tys_any_variable(fields: &[Ty]) -> (r: bool)
    ensures
        r == STy::any_variable(tys_view(fields@)),
    decreases fields@, 1int,
{
    if fields.len() == 0 {
        false
    } else {
        let head = slice_index_get(fields, 0);
        let rest = slice_subrange(fields, 1, fields.len());
        proof {
            lemma_tys_view_sub(fields@, 1, fields@.len() as int);
            assert(tys_view(fields@)[0] == head@);
            assert(tys_view(fields@).skip(1) =~= tys_view(fields@).subrange(
                1,
                fields@.len() as int,
            ));
        }
        head.is_var() || tys_any_variable(rest)
    }
}

/// Whether every type of the list is a schema the codec accepts.
fn tys_all_valid(fields: &[Ty]) -> (r: bool)
    ensures
        r == STy::all_valid(tys_view(fields@)),
    decreases fields@, 1int,
{
    if fields.len() == 0 {
        true
    } else {
        let head = slice_index_get(fields, 0);
        let rest = slice_subrange(fields, 1, fields.len());
        proof {
            lemma_tys_view_sub(fields@, 1, fields@.len() as int);
            assert(tys_view(fields@)[0] == head@);
            assert(tys_view(fields@).skip(1) =~= tys_view(fields@).subrange(
                1,
                fields@.len() as int,
            ));
        }
        head.check() && tys_all_valid(rest)
    }
}

/// The fixed-region length of a valid field list, capped so that the sum
/// always fits a machine word.
pub fn tys_slots_len(fields: &[Ty]) -> (r: u64)
    requires
        STy::all_valid(tys_view(fields@)),
    ensures
        r == cap32(STy::slots_len(tys_view(fields@))),
    decreases fields@, 1int,
{
    if fields.len() == 0 {
        0
    } else {
        let head = slice_index_get(fields, 0);
        let rest = slice_subrange(fields, 1, fields.len());
        proof {
            lemma_tys_view_sub(fields@, 1, fields@.len() as int);
            assert(tys_view(fields@)[0] == head@);
            assert(tys_view(fields@).skip(1) =~= tys_view(fields@).subrange(
                1,
                fields@.len() as int,
            ));
            lemma_slot_size_pos(head@);
        }
        let s0 = head.fixed_size();
        let sr = tys_slots_len(rest);
        let total = s0 as u64 + sr;
        if total > 0x1_0000_0000 {
            0x1_0000_0000
        } else {
            total
        }
    }
}

impl Ty {
    /// Whether a value of this type carries a heap body reached through an
    /// offset slot.
    pub fn is_var(&self) -> (r: bool)
        ensures
            r == self@.is_variable(),
        decreases self, 0int,
    {
        match self {
            Ty::Str => true,
            Ty::List(_) => true,
            Ty::Optional(_) => true,
            Ty::Record(ts) => tys_any_variable(ts.as_slice()),
            _ => false,
        }
    }

    /// Whether this schema is one the codec accepts.
    pub fn check(&self) -> (r: bool)
        ensures
            r == self@.valid(),
        decreases self, 0int,
    {
        match self {
            Ty::List(t) => {
                let r = t.check();
                proof {
                    assert(self@ == STy::List(Box::new(ty_view(**t))));
                    assert(self@.valid() == ty_view(**t).valid());
                }
                r
            },
            Ty::Optional(t) => {
                let inner_plain = match &**t {
                    Ty::Optional(_) => false,
                    _ => true,
                };
                proof {
                    match **t {
                        Ty::U8 => {},
                        Ty::U16 => {},
                        Ty::U32 => {},
                        Ty::U64 => {},
                        Ty::I8 => {},
                        Ty::I16 => {},
                        Ty::I32 => {},
                        Ty::I64 => {},
                        Ty::F32 => {},
                        Ty::F64 => {},
                        Ty::Str => {},
                        Ty::List(_) => {},
                        Ty::Optional(_) => {},
                        Ty::Record(_) => {},
                    }
                    assert(inner_plain == !(ty_view(**t) is Optional));
                    assert(self@ == STy::Optional(Box::new(ty_view(**t))));
                    assert(self@.valid() == (ty_view(**t).valid() && !(ty_view(
                        **t,
                    ) is Optional)));
                }
                inner_plain && t.check()
            },
            Ty::Record(ts) => {
                proof {
                    assert(self@ == STy::Record(tys_view(ts@)));
                    assert(self@.valid() == (tys_view(ts@).len() > 0 && STy::slots_len(
                        tys_view(ts@),
                    ) < 0x1_0000_0000 && STy::all_valid(tys_view(ts@))));
                }
                if ts.len() == 0 {
                    false
                } else if !tys_all_valid(ts.as_slice()) {
                    false
                } else {
                    tys_slots_len(ts.as_slice()) < 0x1_0000_0000
                }
            },
            _ => true,
        }
    }

    /// The number of bytes a value of this type occupies in the fixed
    /// region of its container.
    pub fn fixed_size(&self) -> (r: u32)
        requires
            self@.valid(),
        ensures
            r == self@.slot_size(),
        decreases self, 0int,
    {
        match self {
            Ty::U8 => 1,
            Ty::I8 => 1,
            Ty::U16 => 2,
            Ty::I16 => 2,
            Ty::U32 => 4,
            Ty::I32 => 4,
            Ty::F32 => 4,
            Ty::U64 => 8,
            Ty::I64 => 8,
            Ty::F64 => 8,
            Ty::Str => 4,
            Ty::List(_) => 4,
            Ty::Optional(_) => 4,
            Ty::Record(ts) => {
                if tys_any_variable(ts.as_slice()) {
                    4
                } else {
                    let total = tys_slots_len(ts.as_slice());
                    proof {
                        assert(STy::slots_len(tys_view(ts@)) < 0x1_0000_0000);
                    }
                    total as u32
                }
            },
        }
    }
}

/// Whether every value of the list is well formed at the element type.
fn vals_all_wf(vals: &[Value], et: &Ty) -> (r: bool)
    requires
        et@.valid(),
    ensures
        r == SVal::all_wf(vals_view(vals@), et@),
    decreases et, 1int, vals@.len(),
{
    if vals.len() == 0 {
        true
    } else {
        let head = slice_index_get(vals, 0);
        let rest = slice_subrange(vals, 1, vals.len());
        proof {
            lemma_vals_view_sub(vals@, 1, vals@.len() as int);
            assert(vals_view(vals@)[0] == head@);
            assert(vals_view(vals@).skip(1) =~= vals_view(vals@).subrange(
                1,
                vals@.len() as int,
            ));
        }
        head.has_type(et) && vals_all_wf(rest, et)
    }
}

/// Whether the values are well-formed fields for the type list, in order.
fn vals_fields_wf(vals: &[Value], fields: &[Ty]) -> (r: bool)
    requires
        STy::all_valid(tys_view(fields@)),
    ensures
        r == SVal::fields_wf(vals_view(vals@), tys_view(fields@)),
    decreases fields@, 1int, 0int,
{
    if fields.len() == 0 {
        vals.len() == 0
    } else if vals.len() == 0 {
        false
    } else {
        let vh = slice_index_get(vals, 0);
        let th = slice_index_get(fields, 0);
        let vrest = slice_subrange(vals, 1, vals.len());
        let trest = slice_subrange(fields, 1, fields.len());
        proof {
            lemma_vals_view_sub(vals@, 1, vals@.len() as int);
            lemma_tys_view_sub(fields@, 1, fields@.len() as int);
            assert(vals_view(vals@)[0] == vh@);
            assert(tys_view(fields@)[0] == th@);
            assert(vals_view(vals@).skip(1) =~= vals_view(vals@).subrange(
                1,
                vals@.len() as int,
            ));
            assert(tys_view(fields@).skip(1) =~= tys_view(fields@).subrange(
                1,
                fields@.len() as int,
            ));
        }
        vh.has_type(th) && vals_fields_wf(vrest, trest)
    }
}

impl Value {
    /// Whether this value is well formed at the given type: the shapes
    /// agree and every string holds valid UTF-8.
    pub fn has_type(&self, t: &Ty) -> (r: bool)
        requires
            t@.valid(),
        ensures
            r == self@.wf(t@),
        decreases t, 0int, 0int,
    {
        match t {
            Ty::U8 => matches!(self, Value::U8(_)),
            Ty::U16 => matches!(self, Value::U16(_)),
            Ty::U32 => matches!(self, Value::U32(_)),
            Ty::U64 => matches!(self, Value::U64(_)),
            Ty::I8 => matches!(self, Value::I8(_)),
            Ty::I16 => matches!(self, Value::I16(_)),
            Ty::I32 => matches!(self, Value::I32(_)),
            Ty::I64 => matches!(self, Value::I64(_)),
            Ty::F32 => matches!(self, Value::F32(_)),
            Ty::F64 => matches!(self, Value::F64(_)),
            Ty::Str => match self {
                Value::Str(s) => s.len() == 0 || check_utf8(s.as_slice()),
                _ => false,
            },
            Ty::List(et) => match self {
                Value::List(vs) => vals_all_wf(vs.as_slice(), et),
                _ => false,
            },
            Ty::Optional(it) => match self {
                Value::Optional(o) => match o {
                    Option::None => true,
                    Option::Some(x) => x.has_type(it),
                },
                _ => false,
            },
            Ty::Record(ts) => match self {
                Value::Record(vs) => vals_fields_wf(vs.as_slice(), ts.as_slice()),
                _ => false,
            },
        }
    }
}

} // verus!
