use saltwater::backend::{
    struct_align, struct_size, try_max_by_key, union_size, IrType, Signature, CHAR_BIT, PTR_SIZE,
};
use saltwater::data::types::{ArrayType, FunctionType, Qualifiers, StructType, Symbol, Type};

fn sym(id: &str, ctype: Type) -> Symbol {
    Symbol { id: id.to_string(), ctype }
}

fn int_type() -> Type {
    Type::Int(true)
}

#[test]
fn try_max_by_key_finds_the_first_largest() {
    let list = [[1i64, 2, 3], [5, 4, 3], [1, 1, 4]];
    let last = |v: &[i64; 3]| -> Result<i64, ()> { v.last().copied().ok_or(()) };
    assert_eq!(try_max_by_key(&list, last), Some(Ok(&[1, 1, 4])));

    let lengths: [Vec<i64>; 3] = [vec![], vec![1], vec![1, 2]];
    let last = |v: &Vec<i64>| -> Result<i64, ()> { v.last().copied().ok_or(()) };
    assert_eq!(try_max_by_key(&lengths, last), Some(Err(())));

    let ties = [3i64, 7, 7, 1];
    let id = |v: &i64| -> Result<i64, ()> { Ok(*v) };
    let found = try_max_by_key(&ties, id).unwrap().unwrap();
    assert!(std::ptr::eq(found, &ties[1]));
    let empty: [i64; 0] = [];
    assert_eq!(try_max_by_key(&empty, id), None);
}

#[test]
fn scalar_sizes_and_alignments() {
    assert_eq!(Type::Bool.sizeof(), Ok(1));
    assert_eq!(Type::Char(true).sizeof(), Ok(1));
    assert_eq!(Type::Short(false).sizeof(), Ok(2));
    assert_eq!(int_type().sizeof(), Ok(4));
    assert_eq!(Type::Long(true).sizeof(), Ok(8));
    assert_eq!(Type::Float.sizeof(), Ok(4));
    assert_eq!(Type::Double.alignof(), Ok(8));
    assert_eq!(Type::Pointer(Box::new(Type::Void), Qualifiers::default()).sizeof(), Ok(8));
    assert_eq!(Type::Void.sizeof(), Err("cannot take `sizeof` void"));
    assert_eq!(Type::VaList.alignof(), Err("cannot take `alignof` va_list"));
    assert_eq!(Type::Array(Box::new(int_type()), ArrayType::Fixed(10)).sizeof(), Ok(40));
    assert_eq!(Type::Array(Box::new(int_type()), ArrayType::Fixed(10)).alignof(), Ok(4));
    assert_eq!(
        Type::Array(Box::new(int_type()), ArrayType::Unbounded).sizeof(),
        Err("cannot take sizeof variable length array")
    );
    let few: Vec<(String, i64)> = (0..3).map(|i| (format!("e{}", i), i)).collect();
    assert_eq!(Type::Enum(None, few).sizeof(), Ok(8));
    let many: Vec<(String, i64)> = (0..65).map(|i| (format!("e{}", i), i)).collect();
    assert_eq!(Type::Enum(None, many).sizeof(), Ok(16));
}

#[test]
fn struct_and_union_layout() {
    let members = vec![sym("a", Type::Char(true)), sym("b", int_type()), sym("c", Type::Long(true))];
    assert_eq!(struct_size(&members), Ok(13));
    assert_eq!(union_size(&members), Ok(8));
    assert_eq!(union_size(&[]), Ok(1));
    assert_eq!(struct_align(&members), Ok(8));
    assert_eq!(struct_align(&[]), Ok(0));
    let bad = vec![sym("a", int_type()), sym("v", Type::Void)];
    assert_eq!(struct_size(&bad), Err("cannot take `sizeof` void"));
    let s = Type::Struct(StructType::Anonymous(members));
    assert_eq!(s.sizeof(), Ok(13));
    assert_eq!(s.alignof(), Ok(8));
    let named = Type::Union(StructType::Named("u".to_string(), 24, 8));
    assert_eq!(named.sizeof(), Ok(24));
}

#[test]
fn member_offsets_round_to_the_alignment() {
    let members = vec![sym("a", Type::Char(true)), sym("b", int_type()), sym("c", Type::Long(true))];
    let s = Type::Struct(StructType::Anonymous(vec![
        sym("a", Type::Char(true)),
        sym("b", int_type()),
        sym("c", Type::Long(true)),
    ]));
    assert_eq!(s.struct_offset(&members, "a"), 0);
    assert_eq!(s.struct_offset(&members, "b"), 8);
    assert_eq!(s.struct_offset(&members, "c"), 16);
}

#[test]
fn what_a_type_can_represent() {
    assert!(int_type().can_represent(&int_type()));
    assert!(Type::Double.can_represent(&Type::Float));
    assert!(!Type::Float.can_represent(&Type::Double));
    assert!(Type::Long(true).can_represent(&Type::Int(false)));
    assert!(!Type::Int(true).can_represent(&Type::Int(false)));
    assert!(!Type::Char(true).can_represent(&Type::Short(true)));
    assert!(!int_type().can_represent(&Type::Float));
    let p = Type::Pointer(Box::new(int_type()), Qualifiers::default());
    assert!(p.can_represent(&Type::Pointer(Box::new(int_type()), Qualifiers::default())));
}

#[test]
fn types_in_the_intermediate_representation() {
    assert_eq!(Type::Bool.as_ir_type(), IrType::B1);
    assert_eq!(Type::Char(true).as_ir_type(), IrType::I8);
    assert_eq!(Type::Short(true).as_ir_type(), IrType::I16);
    assert_eq!(int_type().as_ir_type(), IrType::I32);
    assert_eq!(Type::Long(false).as_ir_type(), IrType::I64);
    assert_eq!(Type::Float.as_ir_type(), IrType::F32);
    assert_eq!(Type::Double.as_ir_type(), IrType::F64);
    assert_eq!(Type::Array(Box::new(int_type()), ArrayType::Fixed(3)).as_ir_type(), IrType::I64);
    assert_eq!(Type::Void.as_ir_type(), IrType::Invalid);
    assert_eq!(Type::ptr_type(), IrType::I64);
    assert_eq!(CHAR_BIT * PTR_SIZE, 64);
}

#[test]
fn function_signatures() {
    let f = FunctionType {
        return_type: Box::new(int_type()),
        params: vec![sym("x", Type::Char(true)), sym("y", Type::Double)],
        varargs: false,
    };
    assert_eq!(f.signature(), Signature { params: vec![IrType::I8, IrType::F64], results: vec![IrType::I32] });
    let g = FunctionType { return_type: Box::new(Type::Void), params: vec![sym("", Type::Void)], varargs: false };
    assert_eq!(g.signature(), Signature { params: vec![], results: vec![] });
    assert!(!g.should_return());
}

#[test]
fn layout_laws_on_examples() {
    let a = vec![sym("a", Type::Char(true)), sym("b", int_type())];
    let b = vec![sym("c", Type::Long(true)), sym("d", Type::Short(false))];
    let ab: Vec<Symbol> = vec![
        sym("a", Type::Char(true)),
        sym("b", int_type()),
        sym("c", Type::Long(true)),
        sym("d", Type::Short(false)),
    ];
    assert_eq!(struct_size(&ab), Ok(struct_size(&a).unwrap() + struct_size(&b).unwrap()));
    let ba: Vec<Symbol> = vec![
        sym("d", Type::Short(false)),
        sym("b", int_type()),
        sym("c", Type::Long(true)),
        sym("a", Type::Char(true)),
    ];
    assert_eq!(struct_size(&ba), struct_size(&ab));
    assert_eq!(union_size(&ba), union_size(&ab));
    assert_eq!(union_size(&ab), Ok(8));
    // can_represent is transitive
    assert!(Type::Long(true).can_represent(&int_type()));
    assert!(int_type().can_represent(&Type::Short(true)));
    assert!(Type::Long(true).can_represent(&Type::Short(true)));
}
