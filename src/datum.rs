//! Element types of tensors and their promotion lattice.
use vstd::prelude::*;

verus! {

/// The type of the elements of a tensor.
#[derive(Debug, Clone, Copy, PartialEq, Eq, Structural, Hash)]
pub enum DatumType {
    Bool,
    U8,
    U16,
    I8,
    I16,
    I32,
    I64,
    F16,
    F32,
    F64,
    TDim,
    String,
}

/// The types a value of type `t` converts into without loss, `t` first,
/// ordered from the narrowest to the widest.
pub open spec fn super_types_of(t: DatumType) -> Seq<DatumType> {
    match t {
        DatumType::Bool => seq![DatumType::Bool],
        DatumType::U8 => seq![DatumType::U8, DatumType::I16, DatumType::I32, DatumType::I64, DatumType::TDim],
        DatumType::U16 => seq![DatumType::U16, DatumType::I32, DatumType::I64, DatumType::TDim],
        DatumType::I8 => seq![DatumType::I8, DatumType::I16, DatumType::I32, DatumType::I64, DatumType::TDim],
        DatumType::I16 => seq![DatumType::I16, DatumType::I32, DatumType::I64, DatumType::TDim],
        DatumType::I32 => seq![DatumType::I32, DatumType::I64, DatumType::TDim],
        DatumType::I64 => seq![DatumType::I64, DatumType::TDim],
        DatumType::F16 => seq![DatumType::F16, DatumType::F32, DatumType::F64],
        DatumType::F32 => seq![DatumType::F32, DatumType::F64],
        DatumType::F64 => seq![DatumType::F64],
        DatumType::String => seq![DatumType::String],
        DatumType::TDim => seq![DatumType::TDim],
    }
}

/// `a ⊑ c`: a value of type `a` converts into type `c` without loss.
pub open spec fn convertible(a: DatumType, c: DatumType) -> bool {
    super_types_of(a).contains(c)
}

/// The first element of `s` that also occurs in `t`.
pub open spec fn first_shared(s: Seq<DatumType>, t: Seq<DatumType>) -> Option<DatumType>
    decreases s.len(),
{
    if s.len() == 0 {
        None
    } else if t.contains(s[0]) {
        Some(s[0])
    } else {
        first_shared(s.drop_first(), t)
    }
}

/// The join of `a` and `b` in the promotion lattice, if they have one.
pub open spec fn common_super(a: DatumType, b: DatumType) -> Option<DatumType> {
    first_shared(super_types_of(a), super_types_of(b))
}

/// The join of all the types of `s`, none for an empty sequence.
pub open spec fn super_type_of_all(s: Seq<DatumType>) -> Option<DatumType>
    decreases s.len(),
{
    if s.len() == 0 {
        None
    } else if s.len() == 1 {
        Some(s[0])
    } else {
        match super_type_of_all(s.drop_last()) {
            None => None,
            Some(c) => common_super(c, s.last()),
        }
    }
}

/// Size in bytes of one element of a numeric type (none for `TDim` and `String`).
pub open spec fn numeric_size(t: DatumType) -> Option<nat> {
    match t {
        DatumType::Bool | DatumType::U8 | DatumType::I8 => Some(1),
        DatumType::U16 | DatumType::I16 | DatumType::F16 => Some(2),
        DatumType::I32 | DatumType::F32 => Some(4),
        DatumType::I64 | DatumType::F64 => Some(8),
        DatumType::TDim | DatumType::String => None,
    }
}

/// The element type an ONNX `TensorProto.DataType` code stands for.
pub open spec fn onnx_datum_type(code: i32) -> Option<DatumType> {
    match code {
        1 => Some(DatumType::F32),
        2 => Some(DatumType::U8),
        3 => Some(DatumType::I8),
        4 => Some(DatumType::U16),
        5 => Some(DatumType::I16),
        6 => Some(DatumType::I32),
        7 => Some(DatumType::I64),
        8 => Some(DatumType::String),
        9 => Some(DatumType::Bool),
        10 => Some(DatumType::F16),
        11 => Some(DatumType::F64),
        _ => None,
    }
}

impl DatumType {
    /// Decodes an ONNX `TensorProto.DataType` code; codes of types the
    /// library has no counterpart for are a parse error.
    pub fn from_onnx(code: i32) -> (r: Result<DatumType, crate::errors::TractError>)
        ensures
            r matches Ok(t) ==> onnx_datum_type(code) == Some(t),
            r is Err <==> onnx_datum_type(code) is None,
            r matches Err(e) ==> e == crate::errors::TractError::ParseError,
    {
        match code {
            1 => Ok(DatumType::F32),
            2 => Ok(DatumType::U8),
            3 => Ok(DatumType::I8),
            4 => Ok(DatumType::U16),
            5 => Ok(DatumType::I16),
            6 => Ok(DatumType::I32),
            7 => Ok(DatumType::I64),
            8 => Ok(DatumType::String),
            9 => Ok(DatumType::Bool),
            10 => Ok(DatumType::F16),
            11 => Ok(DatumType::F64),
            _ => Err(crate::errors::TractError::ParseError),
        }
    }

    /// The types this type converts into without loss, itself first.
    pub fn super_types(&self) -> (r: Vec<DatumType>)
        ensures
            r@ == super_types_of(*self),
    {
        let r = match self {
            DatumType::Bool => vec![DatumType::Bool],
            DatumType::U8 => vec![DatumType::U8, DatumType::I16, DatumType::I32, DatumType::I64, DatumType::TDim],
            DatumType::U16 => vec![DatumType::U16, DatumType::I32, DatumType::I64, DatumType::TDim],
            DatumType::I8 => vec![DatumType::I8, DatumType::I16, DatumType::I32, DatumType::I64, DatumType::TDim],
            DatumType::I16 => vec![DatumType::I16, DatumType::I32, DatumType::I64, DatumType::TDim],
            DatumType::I32 => vec![DatumType::I32, DatumType::I64, DatumType::TDim],
            DatumType::I64 => vec![DatumType::I64, DatumType::TDim],
            DatumType::F16 => vec![DatumType::F16, DatumType::F32, DatumType::F64],
            DatumType::F32 => vec![DatumType::F32, DatumType::F64],
            DatumType::F64 => vec![DatumType::F64],
            DatumType::String => vec![DatumType::String],
            DatumType::TDim => vec![DatumType::TDim],
        };
        assert(r@ =~= super_types_of(*self));
        r
    }

    /// The narrowest type that both `self` and `rhs` convert into.
    pub fn common_super_type(&self, rhs: DatumType) -> (r: Option<DatumType>)
        ensures
            r == common_super(*self, rhs),
    {
        let mine = self.super_types();
        let theirs = rhs.super_types();
        let mut i: usize = 0;
        assert(mine@.subrange(0, mine@.len() as int) =~= mine@);
        while i < mine.len()
            invariant
                mine@ == super_types_of(*self),
                theirs@ == super_types_of(rhs),
                0 <= i <= mine@.len(),
                first_shared(mine@, theirs@) == first_shared(mine@.subrange(i as int, mine@.len() as int), theirs@),
            decreases mine.len() - i,
        {
            let ghost rest = mine@.subrange(i as int, mine@.len() as int);
            assert(rest.drop_first() =~= mine@.subrange(i + 1, mine@.len() as int));
            assert(rest[0] == mine@[i as int]);
            let mut j: usize = 0;
            while j < theirs.len()
                invariant
                    mine@ == super_types_of(*self),
                    theirs@ == super_types_of(rhs),
                    0 <= j <= theirs@.len(),
                    i < mine@.len(),
                    rest == mine@.subrange(i as int, mine@.len() as int),
                    first_shared(mine@, theirs@) == first_shared(rest, theirs@),
                    rest[0] == mine@[i as int],
                    rest.len() > 0,
                    forall|k: int| 0 <= k < j ==> theirs@[k] != mine@[i as int],
                decreases theirs.len() - j,
            {
                if mine[i] == theirs[j] {
                    assert(theirs@.contains(mine@[i as int]));
                    return Some(mine[i]);
                }
                j += 1;
            }
            assert(!theirs@.contains(rest[0]));
            i += 1;
        }
        assert(mine@.subrange(i as int, mine@.len() as int).len() == 0);
        None
    }

    /// The join of all the given types; none if the list is empty or some
    /// pair has no common super type.
    pub fn super_type_for(types: &[DatumType]) -> (r: Option<DatumType>)
        ensures
            r == super_type_of_all(types@),
    {
        if types.len() == 0 {
            return None;
        }
        let mut current = types[0];
        let mut i: usize = 1;
        assert(types@.subrange(0, 1).drop_last() =~= Seq::<DatumType>::empty());
        while i < types.len()
            invariant
                1 <= i <= types@.len(),
                super_type_of_all(types@.subrange(0, i as int)) == Some(current),
            decreases types.len() - i,
        {
            assert(types@.subrange(0, i + 1).drop_last() =~= types@.subrange(0, i as int));
            match current.common_super_type(types[i]) {
                None => {
                    proof { lemma_none_absorbs(types@, i as int + 1); }
                    return None;
                }
                Some(it) => current = it,
            }
            i += 1;
        }
        assert(types@.subrange(0, types@.len() as int) =~= types@);
        Some(current)
    }

    /// Size in bytes of one element.
    pub fn size_of(&self) -> (r: usize)
        ensures
            numeric_size(*self) matches Some(n) ==> r == n,
            *self == DatumType::TDim ==> r == vstd::layout::size_of::<crate::dim::TDim>(),
            *self == DatumType::String ==> r == vstd::layout::size_of::<std::string::String>(),
    {
        match self {
            DatumType::Bool => 1,
            DatumType::U8 => 1,
            DatumType::U16 => 2,
            DatumType::I8 => 1,
            DatumType::I16 => 2,
            DatumType::I32 => 4,
            DatumType::I64 => 8,
            DatumType::F16 => 2,
            DatumType::F32 => 4,
            DatumType::F64 => 8,
            DatumType::TDim => core::mem::size_of::<crate::dim::TDim>(),
            DatumType::String => core::mem::size_of::<std::string::String>(),
        }
    }

    /// Alignment in bytes of one element: numeric types align to their own
    /// size, `TDim` and `String` to the width of a pointer.
    pub fn alignment(&self) -> (r: usize)
        ensures
            numeric_size(*self) matches Some(n) ==> r == n,
            numeric_size(*self) is None ==> r == vstd::layout::size_of::<usize>(),
    {
        match self {
            DatumType::TDim => core::mem::size_of::<usize>(),
            DatumType::String => core::mem::size_of::<usize>(),
            _ => self.size_of(),
        }
    }
}

/// The join of two given types, in both orders, and its bounds.
#[verifier::rlimit(100)]
#[verifier::spinoff_prover]
proof fn lemma_join_pair(a: DatumType, b: DatumType)
    ensures
        common_super(a, b) == common_super(b, a),
        common_super(a, b) matches Some(c) ==> convertible(a, c) && convertible(b, c),
{
    reveal_with_fuel(first_shared, 6);
    match a {
        DatumType::Bool => match b {
            DatumType::Bool => {},
            DatumType::U8 => {},
            DatumType::U16 => {},
            DatumType::I8 => {},
            DatumType::I16 => {},
            DatumType::I32 => {},
            DatumType::I64 => {},
            DatumType::F16 => {},
            DatumType::F32 => {},
            DatumType::F64 => {},
            DatumType::TDim => {},
            DatumType::String => {},
        },
        DatumType::U8 => match b {
            DatumType::Bool => {},
            DatumType::U8 => {},
            DatumType::U16 => {},
            DatumType::I8 => {},
            DatumType::I16 => {},
            DatumType::I32 => {},
            DatumType::I64 => {},
            DatumType::F16 => {},
            DatumType::F32 => {},
            DatumType::F64 => {},
            DatumType::TDim => {},
            DatumType::String => {},
        },
        DatumType::U16 => match b {
            DatumType::Bool => {},
            DatumType::U8 => {},
            DatumType::U16 => {},
            DatumType::I8 => {},
            DatumType::I16 => {},
            DatumType::I32 => {},
            DatumType::I64 => {},
            DatumType::F16 => {},
            DatumType::F32 => {},
            DatumType::F64 => {},
            DatumType::TDim => {},
            DatumType::String => {},
        },
        DatumType::I8 => match b {
            DatumType::Bool => {},
            DatumType::U8 => {},
            DatumType::U16 => {},
            DatumType::I8 => {},
            DatumType::I16 => {},
            DatumType::I32 => {},
            DatumType::I64 => {},
            DatumType::F16 => {},
            DatumType::F32 => {},
            DatumType::F64 => {},
            DatumType::TDim => {},
            DatumType::String => {},
        },
        DatumType::I16 => match b {
            DatumType::Bool => {},
            DatumType::U8 => {},
            DatumType::U16 => {},
            DatumType::I8 => {},
            DatumType::I16 => {},
            DatumType::I32 => {},
            DatumType::I64 => {},
            DatumType::F16 => {},
            DatumType::F32 => {},
            DatumType::F64 => {},
            DatumType::TDim => {},
            DatumType::String => {},
        },
        DatumType::I32 => match b {
            DatumType::Bool => {},
            DatumType::U8 => {},
            DatumType::U16 => {},
            DatumType::I8 => {},
            DatumType::I16 => {},
            DatumType::I32 => {},
            DatumType::I64 => {},
            DatumType::F16 => {},
            DatumType::F32 => {},
            DatumType::F64 => {},
            DatumType::TDim => {},
            DatumType::String => {},
        },
        DatumType::I64 => match b {
            DatumType::Bool => {},
            DatumType::U8 => {},
            DatumType::U16 => {},
            DatumType::I8 => {},
            DatumType::I16 => {},
            DatumType::I32 => {},
            DatumType::I64 => {},
            DatumType::F16 => {},
            DatumType::F32 => {},
            DatumType::F64 => {},
            DatumType::TDim => {},
            DatumType::String => {},
        },
        DatumType::F16 => match b {
            DatumType::Bool => {},
            DatumType::U8 => {},
            DatumType::U16 => {},
            DatumType::I8 => {},
            DatumType::I16 => {},
            DatumType::I32 => {},
            DatumType::I64 => {},
            DatumType::F16 => {},
            DatumType::F32 => {},
            DatumType::F64 => {},
            DatumType::TDim => {},
            DatumType::String => {},
        },
        DatumType::F32 => match b {
            DatumType::Bool => {},
            DatumType::U8 => {},
            DatumType::U16 => {},
            DatumType::I8 => {},
            DatumType::I16 => {},
            DatumType::I32 => {},
            DatumType::I64 => {},
            DatumType::F16 => {},
            DatumType::F32 => {},
            DatumType::F64 => {},
            DatumType::TDim => {},
            DatumType::String => {},
        },
        DatumType::F64 => match b {
            DatumType::Bool => {},
            DatumType::U8 => {},
            DatumType::U16 => {},
            DatumType::I8 => {},
            DatumType::I16 => {},
            DatumType::I32 => {},
            DatumType::I64 => {},
            DatumType::F16 => {},
            DatumType::F32 => {},
            DatumType::F64 => {},
            DatumType::TDim => {},
            DatumType::String => {},
        },
        DatumType::TDim => match b {
            DatumType::Bool => {},
            DatumType::U8 => {},
            DatumType::U16 => {},
            DatumType::I8 => {},
            DatumType::I16 => {},
            DatumType::I32 => {},
            DatumType::I64 => {},
            DatumType::F16 => {},
            DatumType::F32 => {},
            DatumType::F64 => {},
            DatumType::TDim => {},
            DatumType::String => {},
        },
        DatumType::String => match b {
            DatumType::Bool => {},
            DatumType::U8 => {},
            DatumType::U16 => {},
            DatumType::I8 => {},
            DatumType::I16 => {},
            DatumType::I32 => {},
            DatumType::I64 => {},
            DatumType::F16 => {},
            DatumType::F32 => {},
            DatumType::F64 => {},
            DatumType::TDim => {},
            DatumType::String => {},
        },
    }
}

/// Lattice laws of the join: it is symmetric, idempotent, and when it exists
/// both arguments convert into it.
pub proof fn lemma_common_super_type_laws(a: DatumType, b: DatumType)
    ensures
        common_super(a, b) == common_super(b, a),
        common_super(a, a) == Some(a),
        common_super(a, b) matches Some(c) ==> convertible(a, c) && convertible(b, c),
{
    lemma_join_pair(a, b);
    assert(super_types_of(a)[0] == a);
    assert(super_types_of(a).contains(a));
}

/// Once a prefix has no join, no longer prefix has one.
proof fn lemma_none_absorbs(s: Seq<DatumType>, n: int)
    requires
        1 <= n <= s.len(),
        super_type_of_all(s.subrange(0, n)) is None,
    ensures
        super_type_of_all(s) is None,
    decreases s.len() - n,
{
    if n < s.len() {
        assert(s.subrange(0, n + 1).drop_last() =~= s.subrange(0, n));
        lemma_none_absorbs(s, n + 1);
    } else {
        assert(s.subrange(0, n) =~= s);
    }
}

} // verus!
