//! The builtin scalar types: what TypeScript calls them, and the identity
//! under which each is registered.

use vstd::prelude::*;

verus! {

/// A builtin scalar type of a schema.
#[derive(Debug, Clone, Copy, PartialEq, Eq, Structural)]
pub enum Scalar {
    /// A borrowed string.
    Str,
    U8,
    U16,
    U32,
    U64,
    Usize,
    I8,
    I32,
    I64,
    F32,
    F64,
    /// An owned string.
    Text,
    Bool,
}

impl Scalar {
    /// The number of the type among the builtin scalar types.
    pub open spec fn spec_key(self) -> u64 {
        match self {
            Scalar::Str => 0,
            Scalar::U8 => 1,
            Scalar::U16 => 2,
            Scalar::U32 => 3,
            Scalar::U64 => 4,
            Scalar::Usize => 5,
            Scalar::I8 => 6,
            Scalar::I32 => 7,
            Scalar::I64 => 8,
            Scalar::F32 => 9,
            Scalar::F64 => 10,
            Scalar::Text => 11,
            Scalar::Bool => 12,
        }
    }

    /// Whether the type is a string.
    pub open spec fn is_string(self) -> bool {
        self == Scalar::Str || self == Scalar::Text
    }

    /// The name of the type in TypeScript: `string`, `boolean`, or `number`.
    pub open spec fn spec_ts_name(self) -> Seq<char> {
        if self.is_string() {
            "string"@
        } else if self == Scalar::Bool {
            "boolean"@
        } else {
            "number"@
        }
    }

    /// The mark by which containers tell the builtin types apart.
    pub open spec fn spec_tag(self) -> Seq<char> {
        match self {
            Scalar::Str => "string"@,
            Scalar::U8 => "u8"@,
            Scalar::U16 => "u16"@,
            Scalar::U32 => "u32"@,
            Scalar::U64 => "u64"@,
            Scalar::Usize => "usize"@,
            Scalar::I8 => "i8"@,
            Scalar::I32 => "i32"@,
            Scalar::I64 => "i64"@,
            Scalar::F32 => "f32"@,
            Scalar::F64 => "f64"@,
            Scalar::Text => "string"@,
            Scalar::Bool => "bool"@,
        }
    }

    /// The number of the type among the builtin scalar types.
    #[verifier::when_used_as_spec(spec_key)]
    pub fn key(self) -> (r: u64)
        ensures
            r == self.spec_key(),
            r <= 12,
    {
        match self {
            Scalar::Str => 0,
            Scalar::U8 => 1,
            Scalar::U16 => 2,
            Scalar::U32 => 3,
            Scalar::U64 => 4,
            Scalar::Usize => 5,
            Scalar::I8 => 6,
            Scalar::I32 => 7,
            Scalar::I64 => 8,
            Scalar::F32 => 9,
            Scalar::F64 => 10,
            Scalar::Text => 11,
            Scalar::Bool => 12,
        }
    }

    /// The name of the type in TypeScript.
    pub fn _ts_name(self) -> (r: String)
        ensures
            r@ == self.spec_ts_name(),
    {
        match self {
            Scalar::Str => String::from_str("string"),
            Scalar::Text => String::from_str("string"),
            Scalar::Bool => String::from_str("boolean"),
            _ => String::from_str("number"),
        }
    }

    /// The mark by which containers tell the builtin types apart.
    pub fn _tag(self) -> (r: &'static str)
        ensures
            r@ == self.spec_tag(),
    {
        match self {
            Scalar::Str => "string",
            Scalar::U8 => "u8",
            Scalar::U16 => "u16",
            Scalar::U32 => "u32",
            Scalar::U64 => "u64",
            Scalar::Usize => "usize",
            Scalar::I8 => "i8",
            Scalar::I32 => "i32",
            Scalar::I64 => "i64",
            Scalar::F32 => "f32",
            Scalar::F64 => "f64",
            Scalar::Text => "string",
            Scalar::Bool => "bool",
        }
    }
}

/// The identity of a type in a registry: a builtin scalar type is known by
/// itself, a type of a schema by the number that the schema gives it. Two
/// types are the same type when their identities are equal.
#[derive(Debug, Clone, Copy, PartialEq, Eq, Structural)]
pub enum TypeKey {
    Scalar(Scalar),
    Named(u64),
}

impl TypeKey {
    /// The number under which the identity is kept: those of the builtin
    /// types come first, those of the types of a schema behind them.
    pub open spec fn spec_code(self) -> u128 {
        match self {
            TypeKey::Scalar(s) => s.spec_key() as u128,
            TypeKey::Named(id) => (0x1_0000_0000_0000_0000 + id) as u128,
        }
    }

    /// The number under which the identity is kept.
    pub fn code(self) -> (r: u128)
        ensures
            r == self.spec_code(),
    {
        match self {
            TypeKey::Scalar(s) => s.key() as u128,
            TypeKey::Named(id) => 0x1_0000_0000_0000_0000u128 + (id as u128),
        }
    }
}

/// Different identities are kept under different numbers.
pub proof fn lemma_codes_differ(a: TypeKey, b: TypeKey)
    ensures
        a.spec_code() == b.spec_code() ==> a == b,
{
}

} // verus!
