//! The layout rules of C types: sizes, alignments and member offsets.
mod x64;

pub use x64::{
    BOOL_SIZE, CHAR_BIT, DOUBLE_SIZE, FLOAT_SIZE, INT_SIZE, LONG_SIZE, PTR_SIZE, SHORT_SIZE, SIZE_T,
};

use vstd::prelude::*;
use vstd::arithmetic::power2::{lemma_pow2_strictly_increases, pow2};
use vstd::seq_lib::{commutative_foldr, lemma_fold_right_permutation, to_multiset_contains};

use crate::data::types::{lemma_same_type_refl, lemma_same_type_trans, same_type, ArrayType, FunctionType, StructType, Symbol, Type};

verus! {

/// NOTE: this is required by the standard to always be one
pub const CHAR_SIZE: u16 = 1;

/// What `sizeof` or `alignof` gives: `None` where computing it panics (a bitfield, or a
/// size beyond `u64::MAX`), otherwise a size or the reason there is none.
pub type Layout = Option<Result<u64, &'static str>>;

/// The size of a type in bytes.
pub open spec fn size_of(t: Type) -> Layout
    decreases t, 1int,
{
    match t {
        Type::Bool => Some(Ok(1)),
        Type::Char(_) => Some(Ok(1)),
        Type::Short(_) => Some(Ok(2)),
        Type::Int(_) => Some(Ok(4)),
        Type::Long(_) => Some(Ok(8)),
        Type::Float => Some(Ok(4)),
        Type::Double => Some(Ok(8)),
        Type::Pointer(_, _) => Some(Ok(8)),
        Type::Array(inner, ArrayType::Fixed(l)) => match size_of(*inner) {
            Some(Ok(n)) => if n * l <= u64::MAX {
                Some(Ok((n * l) as u64))
            } else {
                None
            },
            other => other,
        },
        Type::Array(_, ArrayType::Unbounded) => Some(Err("cannot take sizeof variable length array")),
        Type::Enum(_, variants) => {
            let k = (variants.len() + 7) / 8;
            if variants.len() + 8 > usize::MAX {
                None
            } else if k <= 8 {
                Some(Ok(8))
            } else if k <= 16 {
                Some(Ok(16))
            } else if k <= 32 {
                Some(Ok(32))
            } else if k <= 64 {
                Some(Ok(64))
            } else {
                Some(Err("enum cannot be represented in SIZE_T bits"))
            }
        },
        Type::Union(StructType::Named(_, size, _)) => Some(Ok(size)),
        Type::Struct(StructType::Named(_, size, _)) => Some(Ok(size)),
        Type::Struct(StructType::Anonymous(members)) => struct_size_of(members@, 0),
        Type::Union(StructType::Anonymous(members)) => union_size_of(members@, 1),
        Type::Bitfield(_) => None,
        Type::Function(_) => Some(Err("cannot take `sizeof` a function")),
        Type::Void => Some(Err("cannot take `sizeof` void")),
        Type::VaList => Some(Err("cannot take `sizeof` va_list")),
    }
}

/// `acc` plus the sizes of `members`, one after the other, stopping at the first error.
pub open spec fn struct_size_of(members: Seq<Symbol>, acc: u64) -> Layout
    decreases members, 0int,
{
    if members.len() == 0 {
        Some(Ok(acc))
    } else {
        match size_of(members[0].ctype) {
            Some(Ok(n)) => if acc + n <= u64::MAX {
                struct_size_of(members.subrange(1, members.len() as int), (acc + n) as u64)
            } else {
                None
            },
            other => other,
        }
    }
}

/// The largest of `acc` and the sizes of `members`, stopping at the first error.
pub open spec fn union_size_of(members: Seq<Symbol>, acc: u64) -> Layout
    decreases members, 0int,
{
    if members.len() == 0 {
        Some(Ok(acc))
    } else {
        match size_of(members[0].ctype) {
            Some(Ok(n)) => union_size_of(members.subrange(1, members.len() as int), if acc >= n { acc } else { n }),
            other => other,
        }
    }
}

/// The alignment of a type in bytes.
pub open spec fn align_of(t: Type) -> Layout
    decreases t, 1int,
{
    match t {
        Type::Bool | Type::Char(_) | Type::Short(_) | Type::Int(_) | Type::Long(_) | Type::Float
        | Type::Double | Type::Pointer(_, _) | Type::Union(_) | Type::Enum(_, _) => size_of(t),
        Type::Array(inner, _) => align_of(*inner),
        Type::Struct(StructType::Named(_, _, align)) => Some(Ok(align)),
        Type::Struct(StructType::Anonymous(members)) => struct_align_of(members@, 0),
        Type::Bitfield(_) => None,
        Type::Function(_) => Some(Err("cannot take `alignof` function")),
        Type::Void => Some(Err("cannot take `alignof` void")),
        Type::VaList => Some(Err("cannot take `alignof` va_list")),
    }
}

/// The largest of `acc` and the alignments of `members`, stopping at the first error.
pub open spec fn struct_align_of(members: Seq<Symbol>, acc: u64) -> Layout
    decreases members, 0int,
{
    if members.len() == 0 {
        Some(Ok(acc))
    } else {
        match align_of(members[0].ctype) {
            Some(Ok(a)) => struct_align_of(members.subrange(1, members.len() as int), if a >= acc { a } else { acc }),
            other => other,
        }
    }
}

/// The size of a union with these members: that of its largest member, and at least 1.
pub fn union_size(symbols: &[Symbol]) -> (r: Result<SIZE_T, &'static str>)
    requires
        union_size_of(symbols@, 1) is Some,
    ensures
        Some(r) == union_size_of(symbols@, 1),
    decreases symbols@, 0int,
{
    let mut acc: u64 = 1;
    let mut i: usize = 0;
    proof {
        assert(symbols@.subrange(0, symbols@.len() as int) =~= symbols@);
    }
    while i < symbols.len()
        invariant
            i <= symbols@.len(),
            union_size_of(symbols@, 1) == union_size_of(symbols@.subrange(i as int, symbols@.len() as int), acc),
            union_size_of(symbols@, 1) is Some,
        decreases symbols@.len() - i,
    {
        let ghost rest = symbols@.subrange(i as int, symbols@.len() as int);
        proof {
            assert(rest[0] == symbols@[i as int]);
            assert(rest.subrange(1, rest.len() as int) =~= symbols@.subrange(i + 1, symbols@.len() as int));
        }
        let size = symbols[i].ctype.sizeof()?;
        acc = if acc >= size { acc } else { size };
        i = i + 1;
    }
    Ok(acc)
}

/// The size of a struct with these members: the sum of their sizes (without padding).
pub fn struct_size(symbols: &[Symbol]) -> (r: Result<SIZE_T, &'static str>)
    requires
        struct_size_of(symbols@, 0) is Some,
    ensures
        Some(r) == struct_size_of(symbols@, 0),
    decreases symbols@, 0int,
{
    let mut acc: u64 = 0;
    let mut i: usize = 0;
    proof {
        assert(symbols@.subrange(0, symbols@.len() as int) =~= symbols@);
    }
    while i < symbols.len()
        invariant
            i <= symbols@.len(),
            struct_size_of(symbols@, 0) == struct_size_of(symbols@.subrange(i as int, symbols@.len() as int), acc),
            struct_size_of(symbols@, 0) is Some,
        decreases symbols@.len() - i,
    {
        let ghost rest = symbols@.subrange(i as int, symbols@.len() as int);
        proof {
            assert(rest[0] == symbols@[i as int]);
            assert(rest.subrange(1, rest.len() as int) =~= symbols@.subrange(i + 1, symbols@.len() as int));
        }
        let size = symbols[i].ctype.sizeof()?;
        acc = acc + size;
        i = i + 1;
    }
    Ok(acc)
}

/// The alignment of a struct with these members: the largest of theirs, or 0 for none.
pub fn struct_align(members: &[Symbol]) -> (r: Result<SIZE_T, &'static str>)
    requires
        struct_align_of(members@, 0) is Some,
    ensures
        Some(r) == struct_align_of(members@, 0),
    decreases members@, 0int,
{
    let mut acc: u64 = 0;
    let mut i: usize = 0;
    proof {
        assert(members@.subrange(0, members@.len() as int) =~= members@);
    }
    while i < members.len()
        invariant
            i <= members@.len(),
            struct_align_of(members@, 0) == struct_align_of(members@.subrange(i as int, members@.len() as int), acc),
            struct_align_of(members@, 0) is Some,
        decreases members@.len() - i,
    {
        let ghost rest = members@.subrange(i as int, members@.len() as int);
        proof {
            assert(rest[0] == members@[i as int]);
            assert(rest.subrange(1, rest.len() as int) =~= members@.subrange(i + 1, members@.len() as int));
        }
        let align = members[i].ctype.alignof()?;
        acc = if align >= acc { align } else { acc };
        i = i + 1;
    }
    Ok(acc)
}

/// The order of the sizes of integer types as `Result`s order them: an error is above
/// every size, and the one error an integer type can give is not above itself.
pub open spec fn size_greater(a: Result<u64, &'static str>, b: Result<u64, &'static str>) -> bool {
    match (a, b) {
        (Ok(x), Ok(y)) => x > y,
        (Err(_), Ok(_)) => true,
        _ => false,
    }
}

/// Whether every value of `b` is a value of `a`: the same type, `float` in `double`,
/// or integers in a larger integer type or one of the same size and signedness.
pub open spec fn represents(a: Type, b: Type) -> bool {
    same_type(a, b) || (a is Double && b is Float) || (a.spec_is_integral() && b.spec_is_integral() && (
    size_greater(size_of(a).unwrap(), size_of(b).unwrap()) || (size_of(a).unwrap() == size_of(b).unwrap()
        && a.spec_is_signed() == b.spec_is_signed())))
}

/// Where `member` lies in a struct with these members and alignment `align`, counting
/// from `acc`: each member before it takes its size rounded up to the alignment.
/// `None` where computing it panics.
pub open spec fn offset_of(align: Layout, members: Seq<Symbol>, member: Seq<char>, acc: u64) -> Option<u64>
    decreases members.len(),
{
    if members.len() == 0 {
        None
    } else if members[0].id@ == member {
        Some(acc)
    } else {
        match (size_of(members[0].ctype), align) {
            (Some(Ok(size)), Some(Ok(a))) => if a == 0 || (size % a != 0 && size > a) {
                None
            } else {
                let padded = if size % a != 0 { a } else { size };
                if acc + padded <= u64::MAX {
                    offset_of(align, members.subrange(1, members.len() as int), member, (acc + padded) as u64)
                } else {
                    None
                }
            },
            _ => None,
        }
    }
}

/// Whether `f` gives the same result whenever it is called on the same value.
pub open spec fn deterministic<T, R, F: Fn(&T) -> Result<i64, R>>(f: F) -> bool {
    forall|x: &T, r1: Result<i64, R>, r2: Result<i64, R>|
        f.ensures((x,), r1) && f.ensures((x,), r2) ==> r1 == r2
}

/// Whether `f` can give a key (not an error) for `x`.
pub open spec fn has_key<T, R, F: Fn(&T) -> Result<i64, R>>(f: F, x: T) -> bool {
    exists|v: i64| f.ensures((&x,), Ok::<i64, R>(v))
}

/// The short-circuiting version of `max_by_key`: the first item whose key is the
/// largest, or the first error that computing a key gives, in order; `None` for no items.
///
/// Whatever `f` does, a key was computed for every item before the one whose error is
/// returned, and for every item when an item is returned. When `f` gives the same result
/// each time it is called on an item, the item returned is the first with the largest
/// key and the error returned is that of the first item whose key is an error.
pub fn try_max_by_key<'a, T, R, F: Fn(&T) -> Result<i64, R>>(items: &'a [T], f: F) -> (r: Option<Result<&'a T, R>>)
    requires
        forall|i: int| 0 <= i < items@.len() ==> f.requires((&items@[i],)),
    ensures
        r is None <==> items@.len() == 0,
        r matches Some(Ok(m)) ==> exists|j: int, kj: i64|
            0 <= j < items@.len() && *m == items@[j] && f.ensures((&items@[j],), Ok(kj))
            && (forall|k: int| 0 <= k < items@.len() ==> #[trigger] has_key(f, items@[k]))
            && (deterministic(f) ==> (forall|k: int, v: i64| 0 <= k < items@.len() && f.ensures((&items@[k],), Ok(v)) ==> v <= kj))
            && (deterministic(f) ==> (forall|k: int, v: i64| 0 <= k < j && f.ensures((&items@[k],), Ok(v)) ==> v < kj)),
        r matches Some(Err(e)) ==> exists|j: int|
            0 <= j < items@.len() && f.ensures((&items@[j],), Err(e))
            && (forall|k: int| 0 <= k < j ==> #[trigger] has_key(f, items@[k])),
{
    if items.len() == 0 {
        return None;
    }
    // if this gives an error, return it immediately
    // avoids f not being called if there's only one element
    let ghost mut kc: i64 = 0;
    match f(&items[0]) {
        Ok(k) => {
            proof {
                kc = k;
            }
        },
        Err(e) => {
            return Some(Err(e));
        },
    }
    let mut current: usize = 0;
    let mut i: usize = 1;
    while i < items.len()
        invariant
            forall|j: int| 0 <= j < items@.len() ==> f.requires((&items@[j],)),
            0 <= current < i <= items@.len(),
            f.ensures((&items@[current as int],), Ok::<i64, R>(kc)),
            forall|k: int| 0 <= k < i ==> #[trigger] has_key(f, items@[k]),
            deterministic(f) ==> (forall|k: int, v: i64| 0 <= k < i && f.ensures((&items@[k],), Ok(v)) ==> v <= kc),
            deterministic(f) ==> (forall|k: int, v: i64| 0 <= k < current && f.ensures((&items@[k],), Ok(v)) ==> v < kc),
        decreases items@.len() - i,
    {
        let a = match f(&items[current]) {
            Ok(a) => a,
            Err(e) => {
                return Some(Err(e));
            },
        };
        let b = match f(&items[i]) {
            Ok(b) => b,
            Err(e) => {
                return Some(Err(e));
            },
        };
        proof {
            assert(f.ensures((&items@[i as int],), Ok::<i64, R>(b)));
            assert(has_key(f, items@[i as int]));
        }
        if a >= b {
        } else {
            current = i;
            proof {
                kc = b;
            }
        }
        i = i + 1;
    }
    Some(Ok(&items[current]))
}

impl Type {
    /// Whether every value of `other` can be represented in `self`.
    pub fn can_represent(&self, other: &Type) -> (r: bool)
        requires
            !same_type(*self, *other) && !(*self is Double && *other is Float) && self.spec_is_integral()
                && other.spec_is_integral() ==> size_of(*self) is Some && size_of(*other) is Some,
        ensures
            r == represents(*self, *other),
    {
        if self.equals(other) {
            return true;
        }
        if matches!(self, Type::Double) && matches!(other, Type::Float) {
            return true;
        }
        if !(self.is_integral() && other.is_integral()) {
            return false;
        }
        let a = self.sizeof();
        let b = other.sizeof();
        let greater = match (&a, &b) {
            (Ok(x), Ok(y)) => *x > *y,
            (Err(_), Ok(_)) => true,
            (Ok(_), Err(_)) => false,
            (Err(_), Err(_)) => false,
        };
        let equal = match (&a, &b) {
            (Ok(x), Ok(y)) => *x == *y,
            (Err(_), Err(_)) => true,
            _ => false,
        };
        greater || equal && self.is_signed() == other.is_signed()
    }

    /// The byte offset of the member named `member` in a struct of type `self` with these
    /// members. Each member before it takes its size, rounded up to the struct's alignment.
    pub fn struct_offset(&self, members: &[Symbol], member: &str) -> (r: u64)
        requires
            offset_of(align_of(*self), members@, member@, 0) is Some,
        ensures
            Some(r) == offset_of(align_of(*self), members@, member@, 0),
    {
        let target = member.to_owned();
        let mut current_offset: u64 = 0;
        let mut i: usize = 0;
        proof {
            assert(members@.subrange(0, members@.len() as int) =~= members@);
        }
        loop
            invariant
                i <= members@.len(),
                offset_of(align_of(*self), members@, member@, 0) == offset_of(
                    align_of(*self),
                    members@.subrange(i as int, members@.len() as int),
                    member@,
                    current_offset,
                ),
                offset_of(align_of(*self), members@, member@, 0) is Some,
                target@ == member@,
            decreases members@.len() - i,
        {
            let ghost rest = members@.subrange(i as int, members@.len() as int);
            if i >= members.len() {
                // "cannot call struct_offset for member not in struct": excluded by the precondition
                return vstd::pervasive::unreached();
            }
            proof {
                assert(rest[0] == members@[i as int]);
                assert(rest.subrange(1, rest.len() as int) =~= members@.subrange(i + 1, members@.len() as int));
            }
            let formal = &members[i];
            if formal.id == target {
                return current_offset;
            }
            let mut size = match formal.ctype.sizeof() {
                Ok(size) => size,
                // "struct members should have complete object type": excluded by the precondition
                Err(_) => vstd::pervasive::unreached(),
            };
            let align = match self.alignof() {
                Ok(align) => align,
                // "struct should have valid alignment": excluded by the precondition
                Err(_) => vstd::pervasive::unreached(),
            };
            // round up to the nearest multiple of align
            if size % align != 0 {
                proof {
                    assert(size != 0 && size != align) by (nonlinear_arith)
                        requires
                            size % align != 0,
                            align > 0,
                    ;
                    assert(size <= align);
                    assert((align - size) % (align as int) == align - size) by (nonlinear_arith)
                        requires
                            0 < align - size < align,
                    ;
                }
                size += (align - size) % align;
            }
            current_offset += size;
            i = i + 1;
        }
    }

    /// The size of the type in bytes, or why it has none.
    pub fn sizeof(&self) -> (r: Result<SIZE_T, &'static str>)
        requires
            size_of(*self) is Some,
        ensures
            Some(r) == size_of(*self),
        decreases *self, 1int,
    {
        match self {
            Type::Bool => Ok(BOOL_SIZE as u64),
            Type::Char(_) => Ok(CHAR_SIZE as u64),
            Type::Short(_) => Ok(SHORT_SIZE as u64),
            Type::Int(_) => Ok(INT_SIZE as u64),
            Type::Long(_) => Ok(LONG_SIZE as u64),
            Type::Float => Ok(FLOAT_SIZE as u64),
            Type::Double => Ok(DOUBLE_SIZE as u64),
            Type::Pointer(_, _) => Ok(PTR_SIZE as u64),
            // now for the hard ones
            Type::Array(t, ArrayType::Fixed(l)) => match t.sizeof() {
                Ok(n) => Ok(n * *l),
                Err(e) => Err(e),
            },
            Type::Array(_, ArrayType::Unbounded) => Err("cannot take sizeof variable length array"),
            Type::Enum(_, symbols) => {
                let uchar = CHAR_BIT as usize;
                assert(uchar == 8);
                // integer division, but taking the ceiling instead of the floor
                let k = (symbols.len() + uchar - 1) / uchar;
                if k <= 8 {
                    Ok(8)
                } else if k <= 16 {
                    Ok(16)
                } else if k <= 32 {
                    Ok(32)
                } else if k <= 64 {
                    Ok(64)
                } else {
                    Err("enum cannot be represented in SIZE_T bits")
                }
            },
            Type::Union(StructType::Named(_, size, _)) => Ok(*size),
            Type::Struct(StructType::Named(_, size, _)) => Ok(*size),
            Type::Struct(StructType::Anonymous(symbols)) => struct_size(symbols.as_slice()),
            Type::Union(StructType::Anonymous(symbols)) => union_size(symbols.as_slice()),
            // illegal operations
            Type::Function(_) => Err("cannot take `sizeof` a function"),
            Type::Void => Err("cannot take `sizeof` void"),
            Type::VaList => Err("cannot take `sizeof` va_list"),
            // excluded by the precondition: the size of a bitfield is not implemented
            Type::Bitfield(_) => vstd::pervasive::unreached(),
        }
    }

    /// The alignment of the type in bytes, or why it has none.
    pub fn alignof(&self) -> (r: Result<SIZE_T, &'static str>)
        requires
            align_of(*self) is Some,
        ensures
            Some(r) == align_of(*self),
        decreases *self, 1int,
    {
        match self {
            Type::Bool | Type::Char(_) | Type::Short(_) | Type::Int(_) | Type::Long(_) | Type::Float
            | Type::Double | Type::Pointer(_, _) | Type::Union(_) | Type::Enum(_, _) => self.sizeof(),
            Type::Array(t, _) => t.alignof(),
            Type::Struct(StructType::Named(_, _, align)) => Ok(*align),
            Type::Struct(StructType::Anonymous(members)) => struct_align(members.as_slice()),
            Type::Function(_) => Err("cannot take `alignof` function"),
            Type::Void => Err("cannot take `alignof` void"),
            Type::VaList => Err("cannot take `alignof` va_list"),
            // excluded by the precondition: the alignment of a bitfield is not implemented
            Type::Bitfield(_) => vstd::pervasive::unreached(),
        }
    }
}

/// A type of the code generator's intermediate representation: a boolean, an integer
/// of a number of bits, a float, or no type at all (what cannot be loaded or stored).
#[derive(Copy, Clone, Debug, PartialEq, Eq, Structural)]
pub enum IrType {
    B1,
    I8,
    I16,
    I32,
    I64,
    I128,
    F32,
    F64,
    Invalid,
}

/// The integer type of the intermediate representation with `bits` bits, if there is one.
pub open spec fn ir_int(bits: int) -> Option<IrType> {
    if bits == 8 {
        Some(IrType::I8)
    } else if bits == 16 {
        Some(IrType::I16)
    } else if bits == 32 {
        Some(IrType::I32)
    } else if bits == 64 {
        Some(IrType::I64)
    } else if bits == 128 {
        Some(IrType::I128)
    } else {
        None
    }
}

/// The integer type of the intermediate representation with `bits` bits, if there is one.
fn int_ir_type(bits: u16) -> (r: Option<IrType>)
    ensures
        r == ir_int(bits as int),
{
    match bits {
        8 => Some(IrType::I8),
        16 => Some(IrType::I16),
        32 => Some(IrType::I32),
        64 => Some(IrType::I64),
        128 => Some(IrType::I128),
        _ => None,
    }
}

/// How a C type is held in the intermediate representation: integers, pointers and
/// enums as integers of their size, arrays and functions as the pointers they decay to,
/// what cannot be loaded or stored as `Invalid`. `None` where there is no integer type
/// of the size (computing it panics).
pub open spec fn ir_type_of(t: Type) -> Option<IrType> {
    match t {
        Type::Bool => Some(IrType::B1),
        Type::Char(_) | Type::Short(_) | Type::Int(_) | Type::Long(_) | Type::Pointer(_, _)
        | Type::Enum(_, _) => match size_of(t) {
            Some(Ok(n)) => ir_int(8 * n),
            _ => None,
        },
        Type::Float => Some(IrType::F32),
        Type::Double => Some(IrType::F64),
        Type::Function(_) | Type::Array(_, _) => ir_int(64),
        _ => Some(IrType::Invalid),
    }
}

/// The types a function takes in the intermediate representation: none for a lone
/// `void` parameter, otherwise that of each parameter.
pub open spec fn ir_params(params: Seq<Symbol>) -> Seq<IrType> {
    if params.len() == 1 && params[0].ctype is Void {
        Seq::empty()
    } else {
        params.map_values(|p: Symbol| ir_type_of(p.ctype).unwrap())
    }
}

/// Whether every parameter that `ir_params` reads has a type in the intermediate
/// representation.
pub open spec fn ir_params_defined(params: Seq<Symbol>) -> bool {
    (params.len() == 1 && params[0].ctype is Void) || forall|i: int|
        0 <= i < params.len() ==> #[trigger] ir_type_of(params[i].ctype) is Some
}

/// What the intermediate representation needs to know to call a function: the types of
/// its parameters and of what it returns. The calling convention is the host's, which
/// the code generator adds.
#[derive(Clone, Debug, PartialEq, Eq)]
pub struct Signature {
    pub params: Vec<IrType>,
    pub results: Vec<IrType>,
}

impl Type {
    /// The type of pointers in the intermediate representation.
    pub fn ptr_type() -> (r: IrType)
        ensures
            Some(r) == ir_int(64),
    {
        IrType::I64
    }

    /// How a value of this type is held in the intermediate representation.
    pub fn as_ir_type(&self) -> (r: IrType)
        requires
            ir_type_of(*self) is Some,
        ensures
            Some(r) == ir_type_of(*self),
    {
        match self {
            Type::Bool => IrType::B1,
            Type::Char(_) | Type::Short(_) | Type::Int(_) | Type::Long(_) | Type::Pointer(_, _)
            | Type::Enum(_, _) => {
                let size = match self.sizeof() {
                    Ok(size) => size,
                    // "integers should always have a valid size": excluded by the precondition
                    Err(_) => vstd::pervasive::unreached(),
                };
                assert(size <= 64);
                let int_size = CHAR_BIT as u64 * size;
                match int_ir_type(int_size as u16) {
                    Some(t) => t,
                    // "unsupported size for IR": excluded by the precondition
                    None => vstd::pervasive::unreached(),
                }
            },
            // the sizes of floats are those of x86-64
            Type::Float => IrType::F32,
            Type::Double => IrType::F64,
            // arrays and functions decay to pointers
            Type::Function(_) | Type::Array(_, _) => match int_ir_type(PTR_SIZE * CHAR_BIT) {
                Some(t) => t,
                None => vstd::pervasive::unreached(),
            },
            // void cannot be loaded or stored
            _ => IrType::Invalid,
        }
    }
}

impl FunctionType {
    /// The types that calling the function passes and gives back, in the intermediate
    /// representation.
    pub fn signature(&self) -> (r: Signature)
        requires
            ir_params_defined(self.params@),
            !(*self.return_type is Void) ==> ir_type_of(*self.return_type) is Some,
        ensures
            r.params@ == ir_params(self.params@),
            r.results@ == (if *self.return_type is Void {
                Seq::<IrType>::empty()
            } else {
                seq![ir_type_of(*self.return_type).unwrap()]
            }),
    {
        let mut params: Vec<IrType> = Vec::new();
        if !(self.params.len() == 1 && matches!(self.params[0].ctype, Type::Void)) {
            let mut i: usize = 0;
            while i < self.params.len()
                invariant
                    i <= self.params@.len(),
                    ir_params_defined(self.params@),
                    !(self.params@.len() == 1 && self.params@[0].ctype is Void),
                    params@ == self.params@.take(i as int).map_values(|p: Symbol| ir_type_of(p.ctype).unwrap()),
                decreases self.params@.len() - i,
            {
                proof {
                    assert(ir_type_of(self.params@[i as int].ctype) is Some);
                }
                let t = self.params[i].ctype.as_ir_type();
                params.push(t);
                proof {
                    assert(self.params@.take(i + 1).map_values(|p: Symbol| ir_type_of(p.ctype).unwrap())
                        =~= self.params@.take(i as int).map_values(|p: Symbol| ir_type_of(p.ctype).unwrap()).push(t));
                }
                i = i + 1;
            }
            proof {
                assert(self.params@.take(self.params@.len() as int) =~= self.params@);
            }
        } else {
            proof {
                assert(params@ =~= Seq::<IrType>::empty());
            }
        }
        let mut results: Vec<IrType> = Vec::new();
        if self.should_return() {
            results.push(self.return_type.as_ir_type());
            proof {
                assert(results@ =~= seq![ir_type_of(*self.return_type).unwrap()]);
            }
        }
        Signature { params, results }
    }
}

/// Every type can represent its own values.
pub proof fn lemma_represents_itself(t: Type)
    ensures
        represents(t, t),
{
    lemma_same_type_refl(t);
}

/// The first member of a struct lies at its start.
pub proof fn lemma_first_member_at_start(align: Layout, members: Seq<Symbol>)
    requires
        members.len() > 0,
    ensures
        offset_of(align, members, members[0].id@, 0) == Some(0u64),
{
}

/// The smallest value of an integer type of `size` bytes.
pub open spec fn int_min(size: nat, signed: bool) -> int {
    if signed {
        -(pow2((8 * size - 1) as nat) as int)
    } else {
        0
    }
}

/// The largest value of an integer type of `size` bytes.
pub open spec fn int_max(size: nat, signed: bool) -> int {
    if signed {
        pow2((8 * size - 1) as nat) - 1
    } else {
        pow2(8 * size) - 1
    }
}

/// Integer types that are the same have the same size and signedness.
proof fn lemma_same_integer_layout(a: Type, b: Type)
    requires
        same_type(a, b),
        a.spec_is_integral(),
    ensures
        size_of(a) == size_of(b),
        a.spec_is_signed() == b.spec_is_signed(),
{
    match (a, b) {
        (Type::Enum(_, v), Type::Enum(_, w)) => {
            assert(v@.len() == w@.len());
        },
        _ => {},
    }
}

/// An integer type that can represent another holds every value of it: its range
/// contains the other's. (An unsigned type is said to represent a smaller signed one,
/// whose negative values it does not hold; such pairs are left out.)
pub proof fn lemma_represents_contains_range(a: Type, b: Type, sa: u64, sb: u64)
    requires
        a.spec_is_integral(),
        b.spec_is_integral(),
        a.spec_is_signed() || !b.spec_is_signed(),
        size_of(a) == Some(Ok::<u64, &'static str>(sa)),
        size_of(b) == Some(Ok::<u64, &'static str>(sb)),
        represents(a, b),
    ensures
        int_min(sa as nat, a.spec_is_signed()) <= int_min(sb as nat, b.spec_is_signed()),
        int_max(sb as nat, b.spec_is_signed()) <= int_max(sa as nat, a.spec_is_signed()),
{
    assert(sa >= 1 && sb >= 1);
    if same_type(a, b) {
        lemma_same_integer_layout(a, b);
    } else if sa > sb {
        let top = (8 * sa - 1) as nat;
        let low = (8 * sb) as nat;
        lemma_pow2_strictly_increases((8 * sb - 1) as nat, top);
        lemma_pow2_strictly_increases(low, (8 * sa) as nat);
        if low < top {
            lemma_pow2_strictly_increases(low, top);
        }
    }
}

/// A union holds each of its members: its size is at least the size it starts from
/// (1 for `union_size`) and at least the size of every member.
pub proof fn lemma_union_holds_members(members: Seq<Symbol>, acc: u64, total: u64)
    requires
        union_size_of(members, acc) == Some(Ok::<u64, &'static str>(total)),
    ensures
        acc <= total,
        forall|i: int| 0 <= i < members.len() ==> (#[trigger] size_of(members[i].ctype) matches Some(Ok(n)) && n <= total),
    decreases members.len(),
{
    if members.len() > 0 {
        let rest = members.subrange(1, members.len() as int);
        match size_of(members[0].ctype) {
            Some(Ok(n)) => {
                let next = if acc >= n { acc } else { n };
                lemma_union_holds_members(rest, next, total);
                assert forall|i: int| 0 <= i < members.len() implies (#[trigger] size_of(members[i].ctype) matches Some(Ok(m)) && m <= total) by {
                    if i > 0 {
                        assert(members[i] == rest[i - 1]);
                    }
                }
            },
            _ => {},
        }
    }
}


/// What a type can represent, a type that can represent it can represent too.
pub proof fn lemma_represents_transitive(a: Type, b: Type, c: Type)
    requires
        represents(a, b),
        represents(b, c),
    ensures
        represents(a, c),
{
    if same_type(a, b) && same_type(b, c) {
        lemma_same_type_trans(a, b, c);
    } else if same_type(a, b) {
        if b.spec_is_integral() {
            lemma_same_integer_layout(a, b);
        }
    } else if same_type(b, c) {
        if b.spec_is_integral() {
            lemma_same_integer_layout(b, c);
        }
    }
}


/// Whether every member has a size.
pub open spec fn all_sized(members: Seq<Symbol>) -> bool {
    forall|i: int| 0 <= i < members.len() ==> (#[trigger] size_of(members[i].ctype) matches Some(Ok(_)))
}

/// The size of a member that has one.
pub open spec fn member_size(m: Symbol) -> int {
    match size_of(m.ctype) {
        Some(Ok(n)) => n as int,
        _ => 0,
    }
}

/// Adding a member's size to a running total.
pub open spec fn add_size() -> spec_fn(Symbol, int) -> int {
    |m: Symbol, t: int| member_size(m) + t
}

/// Taking the larger of a member's size and a running maximum.
pub open spec fn max_size() -> spec_fn(Symbol, int) -> int {
    |m: Symbol, t: int| if member_size(m) >= t { member_size(m) } else { t }
}

proof fn lemma_fold_add_nonneg(members: Seq<Symbol>)
    ensures
        members.fold_right_alt(add_size(), 0int) >= 0,
    decreases members.len(),
{
    if members.len() > 0 {
        lemma_fold_add_nonneg(members.subrange(1, members.len() as int));
    }
}

proof fn lemma_fold_max_nonneg(members: Seq<Symbol>)
    ensures
        members.fold_right_alt(max_size(), 0int) >= 0,
    decreases members.len(),
{
    if members.len() > 0 {
        lemma_fold_max_nonneg(members.subrange(1, members.len() as int));
    }
}

proof fn lemma_fold_add_shift(members: Seq<Symbol>, c: int)
    ensures
        members.fold_right_alt(add_size(), c) == members.fold_right_alt(add_size(), 0int) + c,
    decreases members.len(),
{
    if members.len() > 0 {
        lemma_fold_add_shift(members.subrange(1, members.len() as int), c);
    }
}

/// A struct's size is its start plus the sum of its members' sizes, when they all have one.
proof fn lemma_struct_size_sum(members: Seq<Symbol>, acc: u64)
    ensures
        all_sized(members) && acc + members.fold_right_alt(add_size(), 0int) <= u64::MAX ==> struct_size_of(members, acc)
            == Some(Ok::<u64, &'static str>((acc + members.fold_right_alt(add_size(), 0int)) as u64)),
        struct_size_of(members, acc) matches Some(Ok(t)) ==> all_sized(members) && t == acc
            + members.fold_right_alt(add_size(), 0int),
    decreases members.len(),
{
    if members.len() > 0 {
        let rest = members.subrange(1, members.len() as int);
        lemma_fold_add_nonneg(rest);
        assert forall|i: int| 0 <= i < rest.len() implies #[trigger] rest[i] == members[i + 1] by {}
        match size_of(members[0].ctype) {
            Some(Ok(n)) => {
                if acc + n <= u64::MAX {
                    lemma_struct_size_sum(rest, (acc + n) as u64);
                    if all_sized(rest) {
                        assert forall|i: int| 0 <= i < members.len() implies (#[trigger] size_of(members[i].ctype) matches Some(Ok(_))) by {
                            if i > 0 {
                                assert(members[i] == rest[i - 1]);
                            }
                        }
                    }
                    if all_sized(members) {
                        assert forall|i: int| 0 <= i < rest.len() implies (#[trigger] size_of(rest[i].ctype) matches Some(Ok(_))) by {
                            assert(rest[i] == members[i + 1]);
                        }
                    }
                }
            },
            _ => {},
        }
    }
}

/// A union's size is the largest of its start and its members' sizes, when they all
/// have one.
proof fn lemma_union_size_max(members: Seq<Symbol>, acc: u64)
    ensures
        all_sized(members) ==> union_size_of(members, acc) == Some(Ok::<u64, &'static str>(
            (if acc >= members.fold_right_alt(max_size(), 0int) { acc as int } else { members.fold_right_alt(max_size(), 0int) }) as u64,
        )),
        union_size_of(members, acc) matches Some(Ok(t)) ==> all_sized(members) && t == (if acc
            >= members.fold_right_alt(max_size(), 0int) { acc as int } else { members.fold_right_alt(max_size(), 0int) }),
        members.fold_right_alt(max_size(), 0int) <= u64::MAX,
    decreases members.len(),
{
    if members.len() > 0 {
        let rest = members.subrange(1, members.len() as int);
        lemma_fold_max_nonneg(rest);
        match size_of(members[0].ctype) {
            Some(Ok(n)) => {
                let next = if acc >= n { acc } else { n };
                lemma_union_size_max(rest, next);
                if all_sized(rest) {
                    assert forall|i: int| 0 <= i < members.len() implies (#[trigger] size_of(members[i].ctype) matches Some(Ok(_))) by {
                        if i > 0 {
                            assert(members[i] == rest[i - 1]);
                        }
                    }
                }
                if all_sized(members) {
                    assert forall|i: int| 0 <= i < rest.len() implies (#[trigger] size_of(rest[i].ctype) matches Some(Ok(_))) by {
                        assert(rest[i] == members[i + 1]);
                    }
                }
            },
            _ => {
                lemma_union_size_max(rest, acc);
                if all_sized(members) {
                    assert(size_of(members[0].ctype) matches Some(Ok(_)));
                }
            },
        }
    }
}

proof fn lemma_permutation_sized(a: Seq<Symbol>, b: Seq<Symbol>)
    requires
        a.to_multiset() == b.to_multiset(),
        all_sized(a),
    ensures
        all_sized(b),
{
    assert forall|i: int| 0 <= i < b.len() implies (#[trigger] size_of(b[i].ctype) matches Some(Ok(_))) by {
        to_multiset_contains(b, b[i]);
        to_multiset_contains(a, b[i]);
        assert(b.contains(b[i]));
        let j = choose|j: int| 0 <= j < a.len() && a[j] == b[i];
        assert(size_of(a[j].ctype) matches Some(Ok(_)));
    }
}

/// Struct sizes add up: the members of one struct followed by those of another take the
/// sum of the two sizes, when it fits.
pub proof fn lemma_struct_size_concat(a: Seq<Symbol>, b: Seq<Symbol>, x: u64, y: u64)
    requires
        struct_size_of(a, 0) == Some(Ok::<u64, &'static str>(x)),
        struct_size_of(b, 0) == Some(Ok::<u64, &'static str>(y)),
        x + y <= u64::MAX,
    ensures
        struct_size_of(a + b, 0) == Some(Ok::<u64, &'static str>((x + y) as u64)),
{
    lemma_struct_size_sum(a, 0);
    lemma_struct_size_sum(b, 0);
    a.lemma_fold_right_alt(add_size(), 0int);
    b.lemma_fold_right_alt(add_size(), 0int);
    (a + b).lemma_fold_right_alt(add_size(), 0int);
    (a + b).lemma_fold_right_split(add_size(), 0int, a.len() as int);
    assert((a + b).subrange(0, a.len() as int) =~= a);
    assert((a + b).subrange(a.len() as int, (a + b).len() as int) =~= b);
    a.lemma_fold_right_alt(add_size(), b.fold_right(add_size(), 0int));
    lemma_fold_add_shift(a, b.fold_right(add_size(), 0int));
    assert forall|i: int| 0 <= i < (a + b).len() implies (#[trigger] size_of((a + b)[i].ctype) matches Some(Ok(_))) by {
        if i < a.len() {
            assert((a + b)[i] == a[i]);
        } else {
            assert((a + b)[i] == b[i - a.len()]);
        }
    }
    lemma_struct_size_sum(a + b, 0);
}


/// Reordering the members of a struct does not change its size, when they all have one
/// and it fits.
pub proof fn lemma_struct_size_permutation(a: Seq<Symbol>, b: Seq<Symbol>, x: u64)
    requires
        a.to_multiset() == b.to_multiset(),
        struct_size_of(a, 0) == Some(Ok::<u64, &'static str>(x)),
    ensures
        struct_size_of(b, 0) == Some(Ok::<u64, &'static str>(x)),
{
    lemma_struct_size_sum(a, 0);
    lemma_permutation_sized(a, b);
    a.lemma_fold_right_alt(add_size(), 0int);
    b.lemma_fold_right_alt(add_size(), 0int);
    assert(commutative_foldr(add_size()));
    lemma_fold_right_permutation(a, b, add_size(), 0int);
    lemma_struct_size_sum(b, 0);
}

/// Reordering the members of a union does not change its size, when they all have one.
pub proof fn lemma_union_size_permutation(a: Seq<Symbol>, b: Seq<Symbol>, u: u64)
    requires
        a.to_multiset() == b.to_multiset(),
        union_size_of(a, 1) == Some(Ok::<u64, &'static str>(u)),
    ensures
        union_size_of(b, 1) == Some(Ok::<u64, &'static str>(u)),
{
    lemma_union_size_max(a, 1);
    lemma_permutation_sized(a, b);
    a.lemma_fold_right_alt(max_size(), 0int);
    b.lemma_fold_right_alt(max_size(), 0int);
    assert(commutative_foldr(max_size()));
    lemma_fold_right_permutation(a, b, max_size(), 0int);
    lemma_union_size_max(b, 1);
}


proof fn lemma_union_size_attained(members: Seq<Symbol>, acc: u64, u: u64)
    requires
        union_size_of(members, acc) == Some(Ok::<u64, &'static str>(u)),
    ensures
        u == acc || exists|i: int| 0 <= i < members.len() && #[trigger] size_of(members[i].ctype) == Some(Ok::<u64, &'static str>(u)),
    decreases members.len(),
{
    if members.len() > 0 {
        let rest = members.subrange(1, members.len() as int);
        match size_of(members[0].ctype) {
            Some(Ok(n)) => {
                let next = if acc >= n { acc } else { n };
                lemma_union_size_attained(rest, next, u);
                if u != acc {
                    if u == next {
                        assert(size_of(members[0].ctype) == Some(Ok::<u64, &'static str>(u)));
                    } else {
                        let i = choose|i: int| 0 <= i < rest.len() && #[trigger] size_of(rest[i].ctype) == Some(Ok::<u64, &'static str>(u));
                        assert(members[i + 1] == rest[i]);
                        assert(size_of(members[i + 1].ctype) == Some(Ok::<u64, &'static str>(u)));
                    }
                }
            },
            _ => {},
        }
    }
}

/// A union takes the size of its largest member, and at least one byte: its size is at
/// least 1 and at least every member's size, and is 1 or the size of one of its members.
pub proof fn lemma_union_sizeof_is_largest_member(members: Vec<Symbol>, u: u64)
    requires
        size_of(Type::Union(StructType::Anonymous(members))) == Some(Ok::<u64, &'static str>(u)),
    ensures
        u >= 1,
        forall|i: int| 0 <= i < members@.len() ==> (#[trigger] size_of(members@[i].ctype) matches Some(Ok(n)) && n <= u),
        u == 1 || exists|i: int| 0 <= i < members@.len() && #[trigger] size_of(members@[i].ctype) == Some(Ok::<u64, &'static str>(u)),
{
    lemma_union_holds_members(members@, 1, u);
    lemma_union_size_attained(members@, 1, u);
}

proof fn lemma_struct_align_bounds(members: Seq<Symbol>, acc: u64, a: u64)
    requires
        struct_align_of(members, acc) == Some(Ok::<u64, &'static str>(a)),
    ensures
        acc <= a,
        forall|i: int| 0 <= i < members.len() ==> (#[trigger] align_of(members[i].ctype) matches Some(Ok(x)) && x <= a),
        a == acc || exists|i: int| 0 <= i < members.len() && #[trigger] align_of(members[i].ctype) == Some(Ok::<u64, &'static str>(a)),
    decreases members.len(),
{
    if members.len() > 0 {
        let rest = members.subrange(1, members.len() as int);
        match align_of(members[0].ctype) {
            Some(Ok(x)) => {
                let next = if x >= acc { x } else { acc };
                lemma_struct_align_bounds(rest, next, a);
                assert forall|i: int| 0 <= i < members.len() implies (#[trigger] align_of(members[i].ctype) matches Some(Ok(y)) && y <= a) by {
                    if i > 0 {
                        assert(members[i] == rest[i - 1]);
                    }
                }
                if a != acc {
                    if a == next {
                        assert(align_of(members[0].ctype) == Some(Ok::<u64, &'static str>(a)));
                    } else {
                        let i = choose|i: int| 0 <= i < rest.len() && #[trigger] align_of(rest[i].ctype) == Some(Ok::<u64, &'static str>(a));
                        assert(members[i + 1] == rest[i]);
                        assert(align_of(members[i + 1].ctype) == Some(Ok::<u64, &'static str>(a)));
                    }
                }
            },
            _ => {},
        }
    }
}

/// A struct is aligned as strictly as its most strictly aligned member: its alignment is
/// at least every member's and is the alignment of one of them (0 for no members).
pub proof fn lemma_struct_align_is_largest_member(members: Seq<Symbol>, a: u64)
    requires
        struct_align_of(members, 0) == Some(Ok::<u64, &'static str>(a)),
    ensures
        forall|i: int| 0 <= i < members.len() ==> (#[trigger] align_of(members[i].ctype) matches Some(Ok(x)) && x <= a),
        members.len() == 0 ==> a == 0,
        members.len() > 0 ==> exists|i: int| 0 <= i < members.len() && #[trigger] align_of(members[i].ctype) == Some(Ok::<u64, &'static str>(a)),
{
    lemma_struct_align_bounds(members, 0, a);
    if members.len() > 0 && a == 0 {
        assert(align_of(members[0].ctype) matches Some(Ok(x)) && x <= a);
        assert(align_of(members[0].ctype) == Some(Ok::<u64, &'static str>(a)));
    }
}

/// Floating types represent only floating types: `float` only itself, `double` itself
/// and `float`; and only a floating type represents a floating one.
pub proof fn lemma_floating_represents(a: Type, b: Type)
    requires
        represents(a, b),
    ensures
        a is Float ==> b is Float,
        a is Double ==> (b is Double || b is Float),
        (b is Float || b is Double) ==> (a is Float || a is Double),
{
}

} // verus!
