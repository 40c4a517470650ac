//! The FFI type system: foreign types, their memory layouts, and the values
//! that pass through a call.

use vstd::prelude::*;
use crate::text::owned;
use crate::compiler::ast::{Type, TypeV};

verus! {

/// A foreign type.
#[derive(Debug)]
pub enum FfiType {
    String,
    Int,
    Float,
    Bool,
    Void,
    Array(Box<FfiType>),
    Struct(String, Vec<(String, FfiType)>),
    Generic(String, Vec<FfiType>),
}

/// How a foreign type is written: `[T]` for arrays, the name for structs,
/// `Name<A, B>` for generics.
pub open spec fn ffi_type_text(t: FfiType) -> Seq<char>
    decreases t,
{
    match t {
        FfiType::String => "String"@,
        FfiType::Int => "Int"@,
        FfiType::Float => "Float"@,
        FfiType::Bool => "Bool"@,
        FfiType::Void => "void"@,
        FfiType::Array(inner) => "["@ + ffi_type_text(*inner) + "]"@,
        FfiType::Struct(name, _) => name@,
        FfiType::Generic(name, args) => name@ + "<"@ + ffi_args_text(args@, args@.len() as int) + ">"@,
    }
}

/// The first `n` arguments, separated by `, `.
pub open spec fn ffi_args_text(args: Seq<FfiType>, n: int) -> Seq<char>
    decreases args, n,
{
    if n <= 0 || n > args.len() {
        Seq::empty()
    } else if n == 1 {
        ffi_type_text(args[0])
    } else {
        ffi_args_text(args, n - 1) + ", "@ + ffi_type_text(args[n - 1])
    }
}

impl FfiType {
    /// The type as it is written.
    pub fn to_string(&self) -> (s: String)
        ensures
            s@ == ffi_type_text(*self),
        decreases self,
    {
        match self {
            FfiType::String => owned("String"),
            FfiType::Int => owned("Int"),
            FfiType::Float => owned("Float"),
            FfiType::Bool => owned("Bool"),
            FfiType::Void => owned("void"),
            FfiType::Array(inner) => {
                let mut s = owned("[");
                s.append(inner.to_string().as_str());
                s.append("]");
                s
            }
            FfiType::Struct(name, _) => name.clone(),
            FfiType::Generic(name, args) => {
                let mut s = name.clone();
                s.append("<");
                let mut i: usize = 0;
                while i < args.len()
                    invariant
                        i <= args@.len(),
                        *self == FfiType::Generic(*name, *args),
                        s@ == name@ + "<"@ + ffi_args_text(args@, i as int),
                    decreases args@.len() - i,
                {
                    if i > 0 {
                        s.append(", ");
                    }
                    proof {
                        assert(decreases_to!(*self => (*self)->Generic_1));
                        assert((*self)->Generic_1 == *args);
                        assert(decreases_to!(*args => args@));
                        assert(decreases_to!(args@ => args@[i as int]));
                        assert(decreases_to!(*self => args@[i as int]));
                    }
                    s.append(args[i].to_string().as_str());
                    i = i + 1;
                }
                s.append(">");
                s
            }
        }
    }
}

/// Byte order of a memory layout.
#[derive(Debug, Clone, Copy, PartialEq, Eq)]
pub enum Endian {
    Native,
    Little,
    Big,
}

/// A value passed through a foreign call. A float is kept as the bit
/// pattern of its double; structs and variants list their fields by name.
#[derive(Debug)]
pub enum FfiValue {
    Int(i64),
    Float(u64),
    Bool(bool),
    String(String),
    Data(Vec<u8>),
    List(Vec<FfiValue>),
    Struct(String, Vec<(String, FfiValue)>),
    Variant(String, String, Vec<(String, FfiValue)>),
    Void,
}

/// One field of a memory layout.
#[derive(Debug, Clone)]
pub struct FieldDescriptor {
    pub name: String,
    pub offset: usize,
    pub size_bytes: usize,
    pub element_size: Option<usize>,
    pub count: Option<usize>,
    pub endian: Option<Endian>,
}

/// The memory layout of a collection of fields.
#[derive(Debug, Clone)]
pub struct MemoryLayout {
    pub size_bytes: usize,
    pub alignment: usize,
    pub fields: Vec<FieldDescriptor>,
    pub endian: Endian,
}

impl MemoryLayout {
    /// An empty layout, 8-byte aligned, in native byte order.
    pub fn new() -> (m: Self)
        ensures
            m.size_bytes == 0,
            m.alignment == 8,
            m.fields@.len() == 0,
            m.endian == Endian::Native,
    {
        MemoryLayout { size_bytes: 0, alignment: 8, fields: Vec::new(), endian: Endian::Native }
    }
}

/// A field descriptor as plain values.
pub open spec fn field_view(f: FieldDescriptor) -> (Seq<char>, usize, usize, Option<usize>, Option<usize>, Option<Endian>) {
    (f.name@, f.offset, f.size_bytes, f.element_size, f.count, f.endian)
}

/// A layout as plain values.
pub open spec fn layout_view(m: MemoryLayout) -> (usize, usize, Seq<(Seq<char>, usize, usize, Option<usize>, Option<usize>, Option<Endian>)>, Endian) {
    (m.size_bytes, m.alignment, m.fields@.map_values(|f: FieldDescriptor| field_view(f)), m.endian)
}

pub open spec fn opt_layout_view(o: Option<MemoryLayout>) -> Option<(usize, usize, Seq<(Seq<char>, usize, usize, Option<usize>, Option<usize>, Option<Endian>)>, Endian)> {
    match o {
        Some(m) => Some(layout_view(m)),
        None => None,
    }
}

impl FieldDescriptor {
    pub fn copy(&self) -> (r: Self)
        ensures
            field_view(r) == field_view(*self),
    {
        FieldDescriptor {
            name: self.name.clone(),
            offset: self.offset,
            size_bytes: self.size_bytes,
            element_size: self.element_size,
            count: self.count,
            endian: self.endian,
        }
    }
}

impl MemoryLayout {
    pub fn copy(&self) -> (r: Self)
        ensures
            layout_view(r) == layout_view(*self),
    {
        let mut fields: Vec<FieldDescriptor> = Vec::new();
        let mut i: usize = 0;
        while i < self.fields.len()
            invariant
                i <= self.fields@.len(),
                fields@.len() == i,
                forall|j: int| 0 <= j < i ==> #[trigger] field_view(fields@[j]) == field_view(self.fields@[j]),
            decreases self.fields@.len() - i,
        {
            fields.push(self.fields[i].copy());
            i = i + 1;
        }
        let r = MemoryLayout { size_bytes: self.size_bytes, alignment: self.alignment, fields, endian: self.endian };
        assert(r.fields@.map_values(|f: FieldDescriptor| field_view(f)) =~= self.fields@.map_values(|f: FieldDescriptor| field_view(f)));
        r
    }
}

pub fn copy_opt_layout(o: &Option<MemoryLayout>) -> (r: Option<MemoryLayout>)
    ensures
        opt_layout_view(r) == opt_layout_view(*o),
{
    match o {
        Some(m) => Some(m.copy()),
        None => None,
    }
}

/// What `{:?}` writes for a Brief type.
pub uninterp spec fn type_debug(t: TypeV) -> Seq<char>;

/// Formats a Brief type with `{:?}` (its derived `Debug` form); the text is
/// a fixed function of the type, which the contract only names.
#[verifier::external_body]
pub(crate) fn debug_type(t: &Type) -> (s: String)
    ensures
        s@ == type_debug(t@),
{
    format!("{:?}", t)
}

/// The foreign type of a Brief type: the scalar types map to themselves, a
/// custom type to a struct of that name; the others have none.
pub fn brief_type_to_ffi(t: &Type) -> (r: Result<FfiType, String>)
    ensures
        match t@ {
            TypeV::String => r matches Ok(FfiType::String),
            TypeV::Int => r matches Ok(FfiType::Int),
            TypeV::Float => r matches Ok(FfiType::Float),
            TypeV::Bool => r matches Ok(FfiType::Bool),
            TypeV::Void => r matches Ok(FfiType::Void),
            TypeV::Custom(name) => r matches Ok(FfiType::Struct(n, fields)) && n@ == name && fields@.len() == 0,
            _ => r matches Err(msg) && msg@ == "Unsupported Brief type for FFI: "@ + type_debug(t@),
        },
{
    match t {
        Type::String => Ok(FfiType::String),
        Type::Int => Ok(FfiType::Int),
        Type::Float => Ok(FfiType::Float),
        Type::Bool => Ok(FfiType::Bool),
        Type::Void => Ok(FfiType::Void),
        Type::Custom(name) => Ok(FfiType::Struct(name.clone(), Vec::new())),
        _ => {
            let mut msg = owned("Unsupported Brief type for FFI: ");
            msg.append(debug_type(t).as_str());
            Err(msg)
        }
    }
}

/// The Brief type of a foreign type: structs and generics become custom
/// types of their name, arrays become `Data`.
pub fn ffi_type_to_brief(t: &FfiType) -> (r: Type)
    ensures
        r@ == match *t {
            FfiType::String => TypeV::String,
            FfiType::Int => TypeV::Int,
            FfiType::Float => TypeV::Float,
            FfiType::Bool => TypeV::Bool,
            FfiType::Void => TypeV::Void,
            FfiType::Struct(name, _) => TypeV::Custom(name@),
            FfiType::Generic(name, _) => TypeV::Custom(name@),
            FfiType::Array(_) => TypeV::Data,
        },
{
    match t {
        FfiType::String => Type::String,
        FfiType::Int => Type::Int,
        FfiType::Float => Type::Float,
        FfiType::Bool => Type::Bool,
        FfiType::Void => Type::Void,
        FfiType::Struct(name, _) => Type::Custom(name.clone()),
        FfiType::Generic(name, _) => Type::Custom(name.clone()),
        FfiType::Array(_) => Type::Data,
    }
}

} // verus!
