use vstd::prelude::*;

verus! {

/// The qualifiers a pointer can carry.
#[derive(Copy, Clone, Debug, PartialEq, Eq, Default, Structural)]
pub struct Qualifiers {
    pub c_const: bool,
    pub volatile: bool,
}

/// A declared name together with its type.
#[derive(Debug, PartialEq)]
pub struct Symbol {
    pub id: String,
    pub ctype: Type,
}

#[derive(Copy, Clone, Debug, PartialEq, Eq, Structural)]
pub enum ArrayType {
    Fixed(u64),
    Unbounded,
}

#[derive(Debug, PartialEq)]
pub enum StructType {
    /// A struct or union declared with a tag: (name, size, alignment)
    Named(String, u64, u64),
    /// The members of a struct or union declared without a tag
    Anonymous(Vec<Symbol>),
}

#[derive(Debug, PartialEq)]
pub struct FunctionType {
    pub return_type: Box<Type>,
    pub params: Vec<Symbol>,
    pub varargs: bool,
}

/// One member of a bitfield: (name, type, width in bits)
#[derive(Debug, PartialEq)]
pub struct BitfieldType {
    pub name: Option<String>,
    pub ctype: Type,
    pub width: u64,
}

/// A C type. The `bool` of the integer types says whether they are signed.
#[derive(Debug, PartialEq)]
pub enum Type {
    Void,
    Bool,
    Char(bool),
    Short(bool),
    Int(bool),
    Long(bool),
    Float,
    Double,
    Pointer(Box<Type>, Qualifiers),
    Array(Box<Type>, ArrayType),
    Function(FunctionType),
    Union(StructType),
    Struct(StructType),
    /// An enum: its optional tag and its enumerators with their values
    Enum(Option<String>, Vec<(String, i64)>),
    Bitfield(Vec<BitfieldType>),
    VaList,
}

/// Whether two names are the same text.
pub open spec fn same_name(a: Option<String>, b: Option<String>) -> bool {
    match (a, b) {
        (None, None) => true,
        (Some(x), Some(y)) => x@ == y@,
        _ => false,
    }
}

/// Whether two types are the same: the same variant with the same contents,
/// names compared as text.
pub open spec fn same_type(a: Type, b: Type) -> bool
    decreases a, 2int,
{
    match (a, b) {
        (Type::Void, Type::Void) => true,
        (Type::Bool, Type::Bool) => true,
        (Type::Float, Type::Float) => true,
        (Type::Double, Type::Double) => true,
        (Type::VaList, Type::VaList) => true,
        (Type::Char(x), Type::Char(y)) => x == y,
        (Type::Short(x), Type::Short(y)) => x == y,
        (Type::Int(x), Type::Int(y)) => x == y,
        (Type::Long(x), Type::Long(y)) => x == y,
        (Type::Pointer(x, q), Type::Pointer(y, r)) => q == r && same_type(*x, *y),
        (Type::Array(x, l), Type::Array(y, m)) => l == m && same_type(*x, *y),
        (Type::Function(f), Type::Function(g)) => same_type(*f.return_type, *g.return_type)
            && same_symbols(f.params@, g.params@) && f.varargs == g.varargs,
        (Type::Union(x), Type::Union(y)) => same_struct(x, y),
        (Type::Struct(x), Type::Struct(y)) => same_struct(x, y),
        (Type::Enum(n, v), Type::Enum(m, w)) => same_name(n, m) && same_enumerators(v@, w@),
        (Type::Bitfield(x), Type::Bitfield(y)) => same_bitfields(x@, y@),
        _ => false,
    }
}

pub open spec fn same_struct(a: StructType, b: StructType) -> bool
    decreases a, 1int,
{
    match (a, b) {
        (StructType::Named(n, s, al), StructType::Named(m, t, bl)) => n@ == m@ && s == t && al == bl,
        (StructType::Anonymous(v), StructType::Anonymous(w)) => same_symbols(v@, w@),
        _ => false,
    }
}

pub open spec fn same_symbols(a: Seq<Symbol>, b: Seq<Symbol>) -> bool
    decreases a, 0int,
{
    a.len() == b.len() && (a.len() == 0 || (a[0].id@ == b[0].id@ && same_type(a[0].ctype, b[0].ctype)
        && same_symbols(a.subrange(1, a.len() as int), b.subrange(1, b.len() as int))))
}

pub open spec fn same_bitfields(a: Seq<BitfieldType>, b: Seq<BitfieldType>) -> bool
    decreases a, 0int,
{
    a.len() == b.len() && (a.len() == 0 || (same_name(a[0].name, b[0].name) && a[0].width == b[0].width
        && same_type(a[0].ctype, b[0].ctype) && same_bitfields(a.subrange(1, a.len() as int), b.subrange(1, b.len() as int))))
}

pub open spec fn same_enumerators(a: Seq<(String, i64)>, b: Seq<(String, i64)>) -> bool {
    a.len() == b.len() && forall|i: int| 0 <= i < a.len() ==> (#[trigger] a[i]).0@ == b[i].0@ && a[i].1 == b[i].1
}

fn name_eq(a: &Option<String>, b: &Option<String>) -> (r: bool)
    ensures
        r == same_name(*a, *b),
{
    match (a, b) {
        (None, None) => true,
        (Some(x), Some(y)) => *x == *y,
        _ => false,
    }
}

fn enumerators_eq(a: &Vec<(String, i64)>, b: &Vec<(String, i64)>) -> (r: bool)
    ensures
        r == same_enumerators(a@, b@),
{
    if a.len() != b.len() {
        return false;
    }
    let mut i: usize = 0;
    while i < a.len()
        invariant
            a@.len() == b@.len(),
            i <= a@.len(),
            forall|j: int| 0 <= j < i ==> (#[trigger] a@[j]).0@ == b@[j].0@ && a@[j].1 == b@[j].1,
        decreases a@.len() - i,
    {
        if !(a[i].0 == b[i].0 && a[i].1 == b[i].1) {
            return false;
        }
        i = i + 1;
    }
    true
}

fn symbols_eq(a: &[Symbol], b: &[Symbol]) -> (r: bool)
    ensures
        r == same_symbols(a@, b@),
    decreases a@, 0int,
{
    if a.len() != b.len() {
        return false;
    }
    let mut i: usize = 0;
    proof {
        assert(a@.subrange(0, a@.len() as int) =~= a@);
        assert(b@.subrange(0, b@.len() as int) =~= b@);
    }
    while i < a.len()
        invariant
            a@.len() == b@.len(),
            i <= a@.len(),
            same_symbols(a@, b@) == same_symbols(a@.subrange(i as int, a@.len() as int), b@.subrange(i as int, b@.len() as int)),
        decreases a@.len() - i,
    {
        let ghost ra = a@.subrange(i as int, a@.len() as int);
        let ghost rb = b@.subrange(i as int, b@.len() as int);
        proof {
            assert(ra[0] == a@[i as int]);
            assert(rb[0] == b@[i as int]);
            assert(ra.subrange(1, ra.len() as int) =~= a@.subrange(i + 1, a@.len() as int));
            assert(rb.subrange(1, rb.len() as int) =~= b@.subrange(i + 1, b@.len() as int));
        }
        if !(a[i].id == b[i].id && a[i].ctype.equals(&b[i].ctype)) {
            return false;
        }
        i = i + 1;
    }
    proof {
        assert(a@.subrange(i as int, a@.len() as int).len() == 0);
    }
    true
}

fn bitfields_eq(a: &Vec<BitfieldType>, b: &Vec<BitfieldType>) -> (r: bool)
    ensures
        r == same_bitfields(a@, b@),
    decreases a@, 0int,
{
    if a.len() != b.len() {
        return false;
    }
    let mut i: usize = 0;
    proof {
        assert(a@.subrange(0, a@.len() as int) =~= a@);
        assert(b@.subrange(0, b@.len() as int) =~= b@);
    }
    while i < a.len()
        invariant
            a@.len() == b@.len(),
            i <= a@.len(),
            same_bitfields(a@, b@) == same_bitfields(a@.subrange(i as int, a@.len() as int), b@.subrange(i as int, b@.len() as int)),
        decreases a@.len() - i,
    {
        let ghost ra = a@.subrange(i as int, a@.len() as int);
        let ghost rb = b@.subrange(i as int, b@.len() as int);
        proof {
            assert(ra[0] == a@[i as int]);
            assert(rb[0] == b@[i as int]);
            assert(ra.subrange(1, ra.len() as int) =~= a@.subrange(i + 1, a@.len() as int));
            assert(rb.subrange(1, rb.len() as int) =~= b@.subrange(i + 1, b@.len() as int));
        }
        if !(name_eq(&a[i].name, &b[i].name) && a[i].width == b[i].width && a[i].ctype.equals(&b[i].ctype)) {
            return false;
        }
        i = i + 1;
    }
    proof {
        assert(a@.subrange(i as int, a@.len() as int).len() == 0);
    }
    true
}

fn struct_eq(a: &StructType, b: &StructType) -> (r: bool)
    ensures
        r == same_struct(*a, *b),
    decreases *a, 1int,
{
    match (a, b) {
        (StructType::Named(n, s, al), StructType::Named(m, t, bl)) => *n == *m && *s == *t && *al == *bl,
        (StructType::Anonymous(v), StructType::Anonymous(w)) => symbols_eq(v.as_slice(), w.as_slice()),
        _ => false,
    }
}

impl Type {
    /// Whether `self` and `other` are the same type.
    pub fn equals(&self, other: &Type) -> (r: bool)
        ensures
            r == same_type(*self, *other),
        decreases *self, 2int,
    {
        match (self, other) {
            (Type::Void, Type::Void) => true,
            (Type::Bool, Type::Bool) => true,
            (Type::Float, Type::Float) => true,
            (Type::Double, Type::Double) => true,
            (Type::VaList, Type::VaList) => true,
            (Type::Char(x), Type::Char(y)) => *x == *y,
            (Type::Short(x), Type::Short(y)) => *x == *y,
            (Type::Int(x), Type::Int(y)) => *x == *y,
            (Type::Long(x), Type::Long(y)) => *x == *y,
            (Type::Pointer(x, q), Type::Pointer(y, r)) => *q == *r && x.equals(y),
            (Type::Array(x, l), Type::Array(y, m)) => *l == *m && x.equals(y),
            (Type::Function(f), Type::Function(g)) => f.return_type.equals(&g.return_type)
                && symbols_eq(f.params.as_slice(), g.params.as_slice()) && f.varargs == g.varargs,
            (Type::Union(x), Type::Union(y)) => struct_eq(x, y),
            (Type::Struct(x), Type::Struct(y)) => struct_eq(x, y),
            (Type::Enum(n, v), Type::Enum(m, w)) => name_eq(n, m) && enumerators_eq(v, w),
            (Type::Bitfield(x), Type::Bitfield(y)) => bitfields_eq(x, y),
            _ => false,
        }
    }

    pub open spec fn spec_is_integral(&self) -> bool {
        match self {
            Type::Bool | Type::Char(_) | Type::Short(_) | Type::Int(_) | Type::Long(_) | Type::Enum(_, _) => true,
            _ => false,
        }
    }

    pub open spec fn spec_is_signed(&self) -> bool {
        match self {
            Type::Char(s) | Type::Short(s) | Type::Int(s) | Type::Long(s) => *s,
            Type::Enum(_, _) => true,
            _ => false,
        }
    }

    /// Whether this is an integer type (enums included)
    #[verifier::when_used_as_spec(spec_is_integral)]
    pub fn is_integral(&self) -> (r: bool)
        ensures
            r == self.spec_is_integral(),
    {
        match self {
            Type::Bool | Type::Char(_) | Type::Short(_) | Type::Int(_) | Type::Long(_) | Type::Enum(_, _) => true,
            _ => false,
        }
    }

    /// Whether values of this type are signed
    #[verifier::when_used_as_spec(spec_is_signed)]
    pub fn is_signed(&self) -> (r: bool)
        ensures
            r == self.spec_is_signed(),
    {
        match self {
            Type::Char(s) | Type::Short(s) | Type::Int(s) | Type::Long(s) => *s,
            Type::Enum(_, _) => true,
            _ => false,
        }
    }
}

impl FunctionType {
    /// Whether calling the function gives back a value
    pub fn should_return(&self) -> (r: bool)
        ensures
            r == !(*self.return_type is Void),
    {
        match &*self.return_type {
            Type::Void => false,
            _ => true,
        }
    }
}

/// Every type is the same as itself.
pub proof fn lemma_same_type_refl(t: Type)
    ensures
        same_type(t, t),
    decreases t, 2int,
{
    match t {
        Type::Pointer(x, _) => lemma_same_type_refl(*x),
        Type::Array(x, _) => lemma_same_type_refl(*x),
        Type::Function(f) => {
            lemma_same_type_refl(*f.return_type);
            lemma_same_symbols_refl(f.params@);
        },
        Type::Union(x) => lemma_same_struct_refl(x),
        Type::Struct(x) => lemma_same_struct_refl(x),
        Type::Bitfield(v) => lemma_same_bitfields_refl(v@),
        _ => {},
    }
}

proof fn lemma_same_struct_refl(a: StructType)
    ensures
        same_struct(a, a),
    decreases a, 1int,
{
    match a {
        StructType::Anonymous(v) => lemma_same_symbols_refl(v@),
        _ => {},
    }
}

proof fn lemma_same_symbols_refl(a: Seq<Symbol>)
    ensures
        same_symbols(a, a),
    decreases a, 0int,
{
    if a.len() > 0 {
        lemma_same_type_refl(a[0].ctype);
        lemma_same_symbols_refl(a.subrange(1, a.len() as int));
    }
}

proof fn lemma_same_bitfields_refl(a: Seq<BitfieldType>)
    ensures
        same_bitfields(a, a),
    decreases a, 0int,
{
    if a.len() > 0 {
        lemma_same_type_refl(a[0].ctype);
        lemma_same_bitfields_refl(a.subrange(1, a.len() as int));
    }
}


/// Sameness of types is transitive.
pub proof fn lemma_same_type_trans(a: Type, b: Type, c: Type)
    requires
        same_type(a, b),
        same_type(b, c),
    ensures
        same_type(a, c),
    decreases a, 2int,
{
    match (a, b, c) {
        (Type::Pointer(x, _), Type::Pointer(y, _), Type::Pointer(z, _)) => lemma_same_type_trans(*x, *y, *z),
        (Type::Array(x, _), Type::Array(y, _), Type::Array(z, _)) => lemma_same_type_trans(*x, *y, *z),
        (Type::Function(f), Type::Function(g), Type::Function(h)) => {
            lemma_same_type_trans(*f.return_type, *g.return_type, *h.return_type);
            lemma_same_symbols_trans(f.params@, g.params@, h.params@);
        },
        (Type::Union(x), Type::Union(y), Type::Union(z)) => lemma_same_struct_trans(x, y, z),
        (Type::Struct(x), Type::Struct(y), Type::Struct(z)) => lemma_same_struct_trans(x, y, z),
        (Type::Bitfield(x), Type::Bitfield(y), Type::Bitfield(z)) => lemma_same_bitfields_trans(x@, y@, z@),
        (Type::Enum(_, v), Type::Enum(_, w), Type::Enum(_, u)) => {
            assert forall|i: int| 0 <= i < v@.len() implies (#[trigger] v@[i]).0@ == u@[i].0@ && v@[i].1 == u@[i].1 by {
                assert(v@[i].0@ == w@[i].0@ && w@[i].0@ == u@[i].0@);
            }
        },
        _ => {},
    }
}

proof fn lemma_same_struct_trans(a: StructType, b: StructType, c: StructType)
    requires
        same_struct(a, b),
        same_struct(b, c),
    ensures
        same_struct(a, c),
    decreases a, 1int,
{
    match (a, b, c) {
        (StructType::Anonymous(x), StructType::Anonymous(y), StructType::Anonymous(z)) => lemma_same_symbols_trans(x@, y@, z@),
        _ => {},
    }
}

proof fn lemma_same_symbols_trans(a: Seq<Symbol>, b: Seq<Symbol>, c: Seq<Symbol>)
    requires
        same_symbols(a, b),
        same_symbols(b, c),
    ensures
        same_symbols(a, c),
    decreases a, 0int,
{
    if a.len() > 0 {
        lemma_same_type_trans(a[0].ctype, b[0].ctype, c[0].ctype);
        lemma_same_symbols_trans(a.subrange(1, a.len() as int), b.subrange(1, b.len() as int), c.subrange(1, c.len() as int));
    }
}

proof fn lemma_same_bitfields_trans(a: Seq<BitfieldType>, b: Seq<BitfieldType>, c: Seq<BitfieldType>)
    requires
        same_bitfields(a, b),
        same_bitfields(b, c),
    ensures
        same_bitfields(a, c),
    decreases a, 0int,
{
    if a.len() > 0 {
        lemma_same_type_trans(a[0].ctype, b[0].ctype, c[0].ctype);
        lemma_same_bitfields_trans(a.subrange(1, a.len() as int), b.subrange(1, b.len() as int), c.subrange(1, c.len() as int));
    }
}

} // verus!
