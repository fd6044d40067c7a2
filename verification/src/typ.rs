use crate::strutil::{dec_str, push_dec_usize, str_eq};
use vstd::prelude::*;
use vstd::string::StringExecFns;

verus! {

/// A scalar or array type descriptor of the source language.
#[derive(Debug)]
pub enum Type {
    NoneType,
    Never,
    UInt(IntType),
    Int(IntType),
    Float(FloatType),
    Array { typ: Box<Type>, size: Option<usize> },
}

/// Width selector for integer types: the platform word or a fixed bit width.
#[derive(Debug, Clone, Copy, PartialEq, Eq, Structural, Hash)]
pub enum IntType {
    Size,
    S8,
    S16,
    S32,
    S64,
}

/// Width selector for floating-point types.
#[derive(Debug, Clone, Copy, PartialEq, Eq, Structural, Hash)]
pub enum FloatType {
    S32,
    S64,
}

/// The error returned when a type name is not recognised.
#[derive(Debug, Clone, Copy, PartialEq, Eq, Structural)]
pub struct InvalidType;

impl Clone for Type {
    fn clone(&self) -> (r: Self)
        ensures
            r == *self,
        decreases *self,
    {
        match self {
            Type::NoneType => Type::NoneType,
            Type::Never => Type::Never,
            Type::UInt(i) => Type::UInt(*i),
            Type::Int(i) => Type::Int(*i),
            Type::Float(x) => Type::Float(*x),
            Type::Array { typ, size } => Type::Array {
                typ: Box::new((**typ).clone()),
                size: match size {
                    Option::Some(n) => Option::Some(*n),
                    Option::None => Option::None,
                },
            },
        }
    }
}

impl Default for Type {
    fn default() -> (r: Self)
        ensures
            r == Type::NoneType,
    {
        Type::NoneType
    }
}

/// Structural equality of two type descriptors.
pub fn type_eq(a: &Type, b: &Type) -> (r: bool)
    ensures
        r == (*a == *b),
    decreases *a,
{
    match (a, b) {
        (Type::NoneType, Type::NoneType) => true,
        (Type::Never, Type::Never) => true,
        (Type::UInt(x), Type::UInt(y)) => x == y,
        (Type::Int(x), Type::Int(y)) => x == y,
        (Type::Float(x), Type::Float(y)) => x == y,
        (Type::Array { typ: t1, size: s1 }, Type::Array { typ: t2, size: s2 }) => {
            let sizes_equal = match (s1, s2) {
                (Option::None, Option::None) => true,
                (Option::Some(x), Option::Some(y)) => x == y,
                _ => false,
            };
            sizes_equal && type_eq(t1, t2)
        },
        _ => false,
    }
}

impl PartialEq for Type {
    fn eq(&self, other: &Self) -> (r: bool) {
        type_eq(self, other)
    }
}

impl vstd::std_specs::cmp::PartialEqSpecImpl for Type {
    open spec fn obeys_eq_spec() -> bool {
        true
    }

    open spec fn eq_spec(&self, other: &Type) -> bool {
        *self == *other
    }
}

/// The type descriptor named by a type token, if the token is recognised.
pub open spec fn spec_type_from_str(s: Seq<char>) -> Result<Type, InvalidType> {
    if s == "none"@ {
        Ok(Type::NoneType)
    } else if s == "!"@ {
        Ok(Type::Never)
    } else if s == "usz"@ {
        Ok(Type::UInt(IntType::Size))
    } else if s == "u8"@ {
        Ok(Type::UInt(IntType::S8))
    } else if s == "u16"@ {
        Ok(Type::UInt(IntType::S16))
    } else if s == "u32"@ {
        Ok(Type::UInt(IntType::S32))
    } else if s == "u64"@ {
        Ok(Type::UInt(IntType::S64))
    } else if s == "isz"@ {
        Ok(Type::Int(IntType::Size))
    } else if s == "i8"@ {
        Ok(Type::Int(IntType::S8))
    } else if s == "i16"@ {
        Ok(Type::Int(IntType::S16))
    } else if s == "i32"@ {
        Ok(Type::Int(IntType::S32))
    } else if s == "i64"@ {
        Ok(Type::Int(IntType::S64))
    } else if s == "f32"@ {
        Ok(Type::Float(FloatType::S32))
    } else if s == "f64"@ {
        Ok(Type::Float(FloatType::S64))
    } else {
        Err(InvalidType)
    }
}

/// The rendered suffix of an integer width.
pub open spec fn int_type_text(t: IntType) -> Seq<char> {
    match t {
        IntType::Size => "sz"@,
        IntType::S8 => "8"@,
        IntType::S16 => "16"@,
        IntType::S32 => "32"@,
        IntType::S64 => "64"@,
    }
}

/// The rendered suffix of a float width.
pub open spec fn float_type_text(t: FloatType) -> Seq<char> {
    match t {
        FloatType::S32 => "32"@,
        FloatType::S64 => "64"@,
    }
}

/// The rendered text of a type descriptor.
pub open spec fn type_text(t: Type) -> Seq<char>
    decreases t,
{
    match t {
        Type::NoneType => "none"@,
        Type::Never => "!"@,
        Type::UInt(i) => "u"@ + int_type_text(i),
        Type::Int(i) => "i"@ + int_type_text(i),
        Type::Float(x) => "f"@ + float_type_text(x),
        Type::Array { typ, size } => type_text(*typ) + "["@ + (match size {
            Option::Some(n) => dec_str(n as nat),
            Option::None => Seq::<char>::empty(),
        }) + "]"@,
    }
}

impl Type {
    /// Parses a type token (`none`, `!`, `usz`, `u8`..`u64`, `isz`, `i8`..`i64`,
    /// `f32`, `f64`) into a type descriptor.
    pub fn from_str(s: &str) -> (r: Result<Type, InvalidType>)
        ensures
            r == spec_type_from_str(s@),
    {
        if str_eq(s, "none") {
            Ok(Type::NoneType)
        } else if str_eq(s, "!") {
            Ok(Type::Never)
        } else if str_eq(s, "usz") {
            Ok(Type::UInt(IntType::Size))
        } else if str_eq(s, "u8") {
            Ok(Type::UInt(IntType::S8))
        } else if str_eq(s, "u16") {
            Ok(Type::UInt(IntType::S16))
        } else if str_eq(s, "u32") {
            Ok(Type::UInt(IntType::S32))
        } else if str_eq(s, "u64") {
            Ok(Type::UInt(IntType::S64))
        } else if str_eq(s, "isz") {
            Ok(Type::Int(IntType::Size))
        } else if str_eq(s, "i8") {
            Ok(Type::Int(IntType::S8))
        } else if str_eq(s, "i16") {
            Ok(Type::Int(IntType::S16))
        } else if str_eq(s, "i32") {
            Ok(Type::Int(IntType::S32))
        } else if str_eq(s, "i64") {
            Ok(Type::Int(IntType::S64))
        } else if str_eq(s, "f32") {
            Ok(Type::Float(FloatType::S32))
        } else if str_eq(s, "f64") {
            Ok(Type::Float(FloatType::S64))
        } else {
            Err(InvalidType)
        }
    }

    /// Renders the type descriptor as text (`u32`, `u8[3]`, ...).
    pub fn render(&self) -> (out: String)
        ensures
            out@ == type_text(*self),
        decreases *self,
    {
        match self {
            Type::NoneType => "none".to_owned(),
            Type::Never => "!".to_owned(),
            Type::UInt(i) => {
                let mut out = "u".to_owned();
                out.append(int_type_str(i));
                out
            },
            Type::Int(i) => {
                let mut out = "i".to_owned();
                out.append(int_type_str(i));
                out
            },
            Type::Float(x) => {
                let mut out = "f".to_owned();
                out.append(float_type_str(x));
                out
            },
            Type::Array { typ, size } => {
                let mut out = typ.render();
                out.append("[");
                match size {
                    Option::Some(n) => {
                        push_dec_usize(&mut out, *n);
                    },
                    Option::None => {},
                }
                out.append("]");
                out
            },
        }
    }
}

/// The rendered suffix of an integer width.
fn int_type_str(t: &IntType) -> (r: &'static str)
    ensures
        r@ == int_type_text(*t),
{
    match t {
        IntType::Size => "sz",
        IntType::S8 => "8",
        IntType::S16 => "16",
        IntType::S32 => "32",
        IntType::S64 => "64",
    }
}

/// The rendered suffix of a float width.
fn float_type_str(t: &FloatType) -> (r: &'static str)
    ensures
        r@ == float_type_text(*t),
{
    match t {
        FloatType::S32 => "32",
        FloatType::S64 => "64",
    }
}

} // verus!
