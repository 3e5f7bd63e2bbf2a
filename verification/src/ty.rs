//! Wire types: the schema language of the codec.
use vstd::prelude::*;

verus! {

/// A wire type. Scalars are fixed-size; strings, lists and optionals are
/// variable-size; a record is fixed-size exactly when all its fields are.
pub enum Ty {
    U8,
    U16,
    U32,
    U64,
    I8,
    I16,
    I32,
    I64,
    F32,
    F64,
    Str,
    List(Box<Ty>),
    Optional(Box<Ty>),
    Record(Vec<Ty>),
}

/// The mathematical form of a wire type.
pub enum STy {
    U8,
    U16,
    U32,
    U64,
    I8,
    I16,
    I32,
    I64,
    F32,
    F64,
    Str,
    List(Box<STy>),
    Optional(Box<STy>),
    Record(Seq<STy>),
}

/// The mathematical forms of a list of wire types.
pub open spec fn tys_view(ts: Seq<Ty>) -> Seq<STy>
    decreases ts,
{
    Seq::new(
        ts.len(),
        |i: int|
            if 0 <= i < ts.len() {
                ty_view(ts[i])
            } else {
                STy::U8
            },
    )
}

/// The mathematical form of a wire type, structurally.
pub open spec fn ty_view(t: Ty) -> STy
    decreases t,
{
    match t {
        Ty::U8 => STy::U8,
        Ty::U16 => STy::U16,
        Ty::U32 => STy::U32,
        Ty::U64 => STy::U64,
        Ty::I8 => STy::I8,
        Ty::I16 => STy::I16,
        Ty::I32 => STy::I32,
        Ty::I64 => STy::I64,
        Ty::F32 => STy::F32,
        Ty::F64 => STy::F64,
        Ty::Str => STy::Str,
        Ty::List(t1) => STy::List(Box::new(ty_view(*t1))),
        Ty::Optional(t1) => STy::Optional(Box::new(ty_view(*t1))),
        Ty::Record(ts) => STy::Record(tys_view(ts@)),
    }
}

impl View for Ty {
    type V = STy;

    open spec fn view(&self) -> STy {
        ty_view(*self)
    }
}

impl STy {
    /// Whether this is one of the ten fixed-width number types.
    pub open spec fn is_scalar(self) -> bool {
        match self {
            STy::Str => false,
            STy::List(_) => false,
            STy::Optional(_) => false,
            STy::Record(_) => false,
            _ => true,
        }
    }

    /// Whether a value of this type carries a heap body (reached through an
    /// offset slot) rather than sitting whole in the fixed region.
    pub open spec fn is_variable(self) -> bool
        decreases self, 0int,
    {
        match self {
            STy::Str => true,
            STy::List(_) => true,
            STy::Optional(_) => true,
            STy::Record(ts) => STy::any_variable(ts),
            _ => false,
        }
    }

    /// Whether some type of the list is variable-size.
    pub open spec fn any_variable(ts: Seq<STy>) -> bool
        decreases ts, 1int,
    {
        if ts.len() == 0 {
            false
        } else {
            ts[0].is_variable() || STy::any_variable(ts.skip(1))
        }
    }

    /// The number of bytes this type occupies in the fixed region of its
    /// container: the scalar width, a 4-byte offset slot for variable types,
    /// and the sum of the fields' footprints for an all-fixed record.
    pub open spec fn slot_size(self) -> int
        decreases self, 0int,
    {
        match self {
            STy::U8 => 1,
            STy::I8 => 1,
            STy::U16 => 2,
            STy::I16 => 2,
            STy::U32 => 4,
            STy::I32 => 4,
            STy::F32 => 4,
            STy::U64 => 8,
            STy::I64 => 8,
            STy::F64 => 8,
            STy::Str => 4,
            STy::List(_) => 4,
            STy::Optional(_) => 4,
            STy::Record(ts) => if STy::any_variable(ts) {
                4
            } else {
                STy::slots_len(ts)
            },
        }
    }

    /// Total fixed-region length of a field list.
    pub open spec fn slots_len(ts: Seq<STy>) -> int
        decreases ts, 1int,
    {
        if ts.len() == 0 {
            0
        } else {
            ts[0].slot_size() + STy::slots_len(ts.skip(1))
        }
    }

    /// A schema the codec accepts: no optional directly inside an optional
    /// (the absent sentinel of the outer would collide with the inner), no
    /// record without fields, and every fixed region short enough that a
    /// 32-bit offset can skip it.
    pub open spec fn valid(self) -> bool
        decreases self, 0int,
    {
        match self {
            STy::List(t) => t.valid(),
            STy::Optional(t) => t.valid() && !((*t) is Optional),
            STy::Record(ts) => ts.len() > 0 && STy::slots_len(ts) < 0x1_0000_0000
                && STy::all_valid(ts),
            _ => true,
        }
    }

    /// Every type of the list is a schema the codec accepts.
    pub open spec fn all_valid(ts: Seq<STy>) -> bool
        decreases ts, 1int,
    {
        if ts.len() == 0 {
            true
        } else {
            ts[0].valid() && STy::all_valid(ts.skip(1))
        }
    }
}

/// Slot sizes are positive for valid types, and a variable type always
/// occupies one 4-byte offset slot.
pub proof fn lemma_slot_size_pos(t: STy)
    requires
        t.valid(),
    ensures
        1 <= t.slot_size(),
        t.is_variable() ==> t.slot_size() == 4,
    decreases t,
{
    match t {
        STy::Record(ts) => {
            if !STy::any_variable(ts) {
                lemma_slots_len_pos(ts);
            }
        },
        _ => {},
    }
}

/// A non-empty valid field list has a positive fixed region, at least one
/// byte per field.
pub proof fn lemma_slots_len_pos(ts: Seq<STy>)
    requires
        ts.len() > 0,
        STy::all_valid(ts),
    ensures
        STy::slots_len(ts) >= ts[0].slot_size() >= 1,
        STy::slots_len(ts) >= ts.len(),
    decreases ts,
{
    lemma_slot_size_pos(ts[0]);
    if ts.len() > 1 {
        lemma_slots_len_pos(ts.skip(1));
    } else {
        assert(STy::slots_len(ts.skip(1)) == 0);
    }
}

} // verus!
