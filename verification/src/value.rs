//! Typed editable leaf cells: a type tag paired with a boolean, a text
//! buffer, or a nested child.

use vstd::prelude::*;

use crate::array::Array;
use crate::branch::{branch_equiv, branch_wf, Branch};
use crate::numcheck::{float_text_ok, sint_text_ok, uint_text_ok};
use crate::strconv::{dec_chars, dec_rep, str_to_chars};
use crate::textbuf::TextBuf;
use crate::tree::Tree;

verus! {

/// The twelve fixed-width numeric kinds a number cell can declare.
#[derive(Debug, Clone, Copy, PartialEq, Eq)]
pub enum NumberType {
    U8,
    I8,
    U16,
    I16,
    U32,
    I32,
    U64,
    I64,
    F32,
    F64,
    Usize,
    Isize,
}

/// The two kinds of text cell: a single character or free text.
#[derive(Debug, Clone, Copy, PartialEq, Eq)]
pub enum StringType {
    Char,
    String,
}

/// The type tag of a `Value`.
#[derive(Debug)]
pub enum Type {
    Blank,
    Bool,
    Number(NumberType),
    String(StringType),
    Array(Box<Type>),
    Struct,
}

impl Type {
    /// A structurally equal copy.
    pub fn dup(&self) -> (r: Type)
        ensures
            r == *self,
        decreases self,
    {
        match self {
            Type::Blank => Type::Blank,
            Type::Bool => Type::Bool,
            Type::Number(k) => Type::Number(*k),
            Type::String(k) => Type::String(*k),
            Type::Array(t) => Type::Array(Box::new(t.dup())),
            Type::Struct => Type::Struct,
        }
    }
}

/// The payload of a `Value`.
pub enum ValueVariant {
    Bool(bool),
    Text(TextBuf),
    Struct(Box<Branch>),
}

/// A typed editable cell: the active payload always matches the tag.
pub struct Value {
    pub ty: Type,
    pub var: ValueVariant,
}

/// Text validity for a numeric kind: the standard decimal parse rules for
/// that width, and the standard floating-point syntax for the two float
/// kinds (whose parse never fails on range, only on syntax).
pub open spec fn number_text_ok(k: NumberType, s: Seq<char>) -> bool {
    match k {
        NumberType::U8 => uint_text_ok(s, 255),
        NumberType::I8 => sint_text_ok(s, 127, 128),
        NumberType::U16 => uint_text_ok(s, 65535),
        NumberType::I16 => sint_text_ok(s, 32767, 32768),
        NumberType::U32 => uint_text_ok(s, 4294967295),
        NumberType::I32 => sint_text_ok(s, 2147483647, 2147483648),
        NumberType::U64 => uint_text_ok(s, u64::MAX as int),
        NumberType::I64 => sint_text_ok(s, i64::MAX as int, i64::MAX as int + 1),
        NumberType::F32 => float_text_ok(s),
        NumberType::F64 => float_text_ok(s),
        NumberType::Usize => uint_text_ok(s, usize::MAX as int),
        NumberType::Isize => sint_text_ok(s, isize::MAX as int, isize::MAX as int + 1),
    }
}

/// Text validity for a type tag: numeric kinds demand a parseable text,
/// every other tag accepts anything.
pub open spec fn text_check(ty: Type, s: Seq<char>) -> bool {
    match ty {
        Type::Number(k) => number_text_ok(k, s),
        _ => true,
    }
}

/// What `Value::check` returns: text cells must parse as their declared
/// numeric kind; string, boolean and structural cells are always valid.
pub open spec fn check_spec(v: Value) -> bool {
    match v.var {
        ValueVariant::Text(t) => text_check(v.ty, t.text()),
        _ => true,
    }
}

/// Equality of two text buffers by content, cursor and mark.
pub open spec fn text_equiv(a: TextBuf, b: TextBuf) -> bool {
    a.text() == b.text() && a.cursor == b.cursor && a.mark == b.mark
}

/// Deep structural equality of two values, comparing strings by their
/// characters.
pub open spec fn value_equiv(a: Value, b: Value) -> bool
    decreases a,
{
    a.ty == b.ty && match (a.var, b.var) {
        (ValueVariant::Bool(x), ValueVariant::Bool(y)) => x == y,
        (ValueVariant::Text(x), ValueVariant::Text(y)) => text_equiv(x, y),
        (ValueVariant::Struct(x), ValueVariant::Struct(y)) => branch_equiv(*x, *y),
        _ => false,
    }
}

/// Well-formedness: the payload variant agrees with the type tag, buffers
/// are well formed, and nested children are well formed in turn.
pub open spec fn value_wf(v: Value) -> bool
    decreases v,
{
    match v.var {
        ValueVariant::Bool(_) => v.ty is Bool,
        ValueVariant::Text(t) => t.wf() && (v.ty is Blank || v.ty is Number || v.ty is String),
        ValueVariant::Struct(b) => branch_wf(*b) && (v.ty is Struct || v.ty is Array) && (v.ty
            is Array ==> *b is Array) && (v.ty is Struct ==> !(*b is Array)),
    }
}

impl Default for Value {
    /// An untyped cell holding an empty text buffer.
    fn default() -> (r: Value)
        ensures
            r.ty is Blank,
            r.var matches ValueVariant::Text(t) && t.text() == Seq::<char>::empty(),
            value_wf(r),
    {
        Value { ty: Type::Blank, var: ValueVariant::Text(TextBuf::new()) }
    }
}

impl Value {
    pub fn get_type(&self) -> (r: &Type)
        ensures
            r == self.ty,
    {
        &self.ty
    }

    pub fn is_none(&self) -> (r: bool)
        ensures
            r == (self.ty is Blank),
    {
        matches!(self.ty, Type::Blank)
    }

    pub fn is_bool(&self) -> (r: bool)
        ensures
            r == (self.ty is Bool),
    {
        matches!(self.ty, Type::Bool)
    }

    pub fn is_number(&self) -> (r: bool)
        ensures
            r == (self.ty is Number),
    {
        matches!(self.ty, Type::Number(_))
    }

    pub fn is_string(&self) -> (r: bool)
        ensures
            r == (self.ty is String),
    {
        matches!(self.ty, Type::String(_))
    }

    pub fn is_array(&self) -> (r: bool)
        ensures
            r == (self.ty is Array),
    {
        matches!(self.ty, Type::Array(_))
    }

    pub fn is_struct(&self) -> (r: bool)
        ensures
            r == (self.ty is Struct),
    {
        matches!(self.ty, Type::Struct)
    }

    pub fn as_bool(&self) -> (r: Option<&bool>)
        ensures
            match r {
                Some(b) => self.var matches ValueVariant::Bool(x) && x == *b,
                None => !(self.var is Bool),
            },
    {
        match &self.var {
            ValueVariant::Bool(b) => Some(b),
            _ => None,
        }
    }

    pub fn as_text(&self) -> (r: Option<&TextBuf>)
        ensures
            match r {
                Some(t) => self.var matches ValueVariant::Text(x) && x == *t,
                None => !(self.var is Text),
            },
    {
        match &self.var {
            ValueVariant::Text(t) => Some(t),
            _ => None,
        }
    }

    pub fn as_struct(&self) -> (r: Option<&Branch>)
        ensures
            match r {
                Some(b) => self.var matches ValueVariant::Struct(x) && *x == *b,
                None => !(self.var is Struct),
            },
    {
        match &self.var {
            ValueVariant::Struct(b) => Some(b),
            _ => None,
        }
    }

    pub fn as_array(&self) -> (r: Option<&Array>)
        ensures
            match r {
                Some(a) => self.var matches ValueVariant::Struct(b) && *b matches Branch::Array(x)
                    && x == *a,
                None => !(self.var matches ValueVariant::Struct(b) && *b is Array),
            },
    {
        match &self.var {
            ValueVariant::Struct(b) => match &**b {
                Branch::Array(a) => Some(a),
                _ => None,
            },
            _ => None,
        }
    }

    /// Whether the current payload is valid for the declared type.
    pub fn check(&self) -> (r: bool)
        ensures
            r == check_spec(*self),
    {
        match &self.var {
            ValueVariant::Text(t) => check_text(&self.ty, &t.chars),
            _ => true,
        }
    }
}

/// Whether `chars` is valid text for the type tag `ty`.
pub fn check_text(ty: &Type, chars: &Vec<char>) -> (r: bool)
    ensures
        r == text_check(*ty, chars@),
{
    match ty {
        Type::Number(k) => match k {
                    NumberType::U8 => crate::numcheck::uint_text_valid(chars, 255),
                    NumberType::I8 => crate::numcheck::sint_text_valid(chars, 127, 128),
                    NumberType::U16 => crate::numcheck::uint_text_valid(chars, 65535),
                    NumberType::I16 => crate::numcheck::sint_text_valid(chars, 32767, 32768),
                    NumberType::U32 => crate::numcheck::uint_text_valid(chars, 4294967295),
                    NumberType::I32 => crate::numcheck::sint_text_valid(
                        chars,
                        2147483647,
                        2147483648,
                    ),
                    NumberType::U64 => crate::numcheck::uint_text_valid(
                        chars,
                        u64::MAX as u128,
                    ),
                    NumberType::I64 => crate::numcheck::sint_text_valid(
                        chars,
                        i64::MAX as u128,
                        i64::MAX as u128 + 1,
                    ),
                    NumberType::F32 => crate::numcheck::float_text_valid(chars),
                    NumberType::F64 => crate::numcheck::float_text_valid(chars),
                    NumberType::Usize => crate::numcheck::uint_text_valid(
                        chars,
                        usize::MAX as u128,
                    ),
                    NumberType::Isize => crate::numcheck::sint_text_valid(
                        chars,
                        isize::MAX as u128,
                        isize::MAX as u128 + 1,
                    ),
                },
        _ => true,
    }
}

impl Value {
    /// A deep copy, equal up to string identity.
    pub fn duplicate(&self) -> (r: Value)
        ensures
            value_equiv(r, *self),
            value_wf(*self) ==> value_wf(r),
        decreases self,
    {
        let ty = self.ty.dup();
        let var = match &self.var {
            ValueVariant::Bool(b) => ValueVariant::Bool(*b),
            ValueVariant::Text(t) => ValueVariant::Text(t.duplicate()),
            ValueVariant::Struct(b) => ValueVariant::Struct(Box::new(b.duplicate())),
        };
        Value { ty, var }
    }

    /// Rewrap this value as an empty collection whose template is the old
    /// value; the type becomes an array of the old type.
    pub fn into_array(self) -> (r: Value)
        ensures
            r.ty matches Type::Array(t) && *t == self.ty,
            r.var matches ValueVariant::Struct(b) && *b matches Branch::Array(a) && *a.def == self
                && a.tree.branches.entries@.len() == 0,
            value_wf(self) ==> value_wf(r),
    {
        let ty = self.ty.dup();
        let arr = Array { def: Box::new(self), tree: Tree::new_empty() };
        Value { ty: Type::Array(Box::new(ty)), var: ValueVariant::Struct(Box::new(Branch::Array(arr))) }
    }

    /// A boolean cell.
    pub fn of_bool(v: bool) -> (r: Value)
        ensures
            r.ty is Bool,
            r.var matches ValueVariant::Bool(b) && b == v,
            value_wf(r),
    {
        Value { ty: Type::Bool, var: ValueVariant::Bool(v) }
    }

    /// A text cell of the given numeric kind holding the given characters,
    /// with the cursor at the end.
    pub fn of_number(kind: NumberType, chars: Vec<char>) -> (r: Value)
        ensures
            r.ty == Type::Number(kind),
            r.var matches ValueVariant::Text(t) && t.text() == chars@ && t.cursor == chars@.len()
                && t.mark is None,
            value_wf(r),
    {
        Value { ty: Type::Number(kind), var: ValueVariant::Text(TextBuf::from_chars(chars)) }
    }

    /// A free-text cell holding the given string.
    pub fn of_str(v: &str) -> (r: Value)
        ensures
            r.ty == Type::String(StringType::String),
            r.var matches ValueVariant::Text(t) && t.text() == v@ && t.mark is None,
            value_wf(r),
    {
        Value {
            ty: Type::String(StringType::String),
            var: ValueVariant::Text(TextBuf::from_chars(str_to_chars(v))),
        }
    }

    /// A single-character cell.
    pub fn of_char(v: char) -> (r: Value)
        ensures
            r.ty == Type::String(StringType::Char),
            r.var matches ValueVariant::Text(t) && t.text() == seq![v] && t.mark is None,
            value_wf(r),
    {
        let mut chars: Vec<char> = Vec::new();
        chars.push(v);
        assert(chars@ =~= seq![v]);
        Value {
            ty: Type::String(StringType::Char),
            var: ValueVariant::Text(TextBuf::from_chars(chars)),
        }
    }

    /// A structural cell wrapping a group.
    pub fn of_tree(v: Tree) -> (r: Value)
        ensures
            r.ty is Struct,
            r.var matches ValueVariant::Struct(b) && *b == Branch::Tree(v),
            branch_wf(Branch::Tree(v)) ==> value_wf(r),
    {
        Value { ty: Type::Struct, var: ValueVariant::Struct(Box::new(Branch::Tree(v))) }
    }

    /// A structural cell wrapping a grid.
    pub fn of_args(v: crate::args::Args) -> (r: Value)
        ensures
            r.ty is Struct,
            r.var matches ValueVariant::Struct(b) && *b == Branch::Args(v),
            branch_wf(Branch::Args(v)) ==> value_wf(r),
    {
        Value { ty: Type::Struct, var: ValueVariant::Struct(Box::new(Branch::Args(v))) }
    }
}

/// The decimal characters of a signed value: a minus sign when negative,
/// then the magnitude.
fn signed_chars(neg: bool, mag: u128) -> (r: Vec<char>)
    ensures
        !neg ==> r@ == dec_rep(mag as int),
        neg ==> r@ == seq!['-'] + dec_rep(mag as int),
{
    if neg {
        let mut v: Vec<char> = Vec::new();
        v.push('-');
        let mut digits = dec_chars(mag);
        let ghost dv = digits@;
        v.append(&mut digits);
        assert(v@ =~= seq!['-'] + dv);
        v
    } else {
        dec_chars(mag)
    }
}

impl Value {
    pub fn of_u8(v: u8) -> (r: Value)
        ensures
            r.ty == Type::Number(NumberType::U8),
            r.var matches ValueVariant::Text(t) && t.text() == dec_rep(v as int),
            value_wf(r),
    {
        Value::of_number(NumberType::U8, dec_chars(v as u128))
    }

    pub fn of_i8(v: i8) -> (r: Value)
        ensures
            r.ty == Type::Number(NumberType::I8),
            r.var matches ValueVariant::Text(t) && t.text() == if v < 0 {
                seq!['-'] + dec_rep(-(v as int))
            } else {
                dec_rep(v as int)
            },
            value_wf(r),
    {
        let neg = v < 0;
        let mag: u128 = if neg {
            (-(v as i128)) as u128
        } else {
            v as u128
        };
        Value::of_number(NumberType::I8, signed_chars(neg, mag))
    }

    pub fn of_u16(v: u16) -> (r: Value)
        ensures
            r.ty == Type::Number(NumberType::U16),
            r.var matches ValueVariant::Text(t) && t.text() == dec_rep(v as int),
            value_wf(r),
    {
        Value::of_number(NumberType::U16, dec_chars(v as u128))
    }

    pub fn of_i16(v: i16) -> (r: Value)
        ensures
            r.ty == Type::Number(NumberType::I16),
            r.var matches ValueVariant::Text(t) && t.text() == if v < 0 {
                seq!['-'] + dec_rep(-(v as int))
            } else {
                dec_rep(v as int)
            },
            value_wf(r),
    {
        let neg = v < 0;
        let mag: u128 = if neg {
            (-(v as i128)) as u128
        } else {
            v as u128
        };
        Value::of_number(NumberType::I16, signed_chars(neg, mag))
    }

    pub fn of_u32(v: u32) -> (r: Value)
        ensures
            r.ty == Type::Number(NumberType::U32),
            r.var matches ValueVariant::Text(t) && t.text() == dec_rep(v as int),
            value_wf(r),
    {
        Value::of_number(NumberType::U32, dec_chars(v as u128))
    }

    pub fn of_i32(v: i32) -> (r: Value)
        ensures
            r.ty == Type::Number(NumberType::I32),
            r.var matches ValueVariant::Text(t) && t.text() == if v < 0 {
                seq!['-'] + dec_rep(-(v as int))
            } else {
                dec_rep(v as int)
            },
            value_wf(r),
    {
        let neg = v < 0;
        let mag: u128 = if neg {
            (-(v as i128)) as u128
        } else {
            v as u128
        };
        Value::of_number(NumberType::I32, signed_chars(neg, mag))
    }

    pub fn of_u64(v: u64) -> (r: Value)
        ensures
            r.ty == Type::Number(NumberType::U64),
            r.var matches ValueVariant::Text(t) && t.text() == dec_rep(v as int),
            value_wf(r),
    {
        Value::of_number(NumberType::U64, dec_chars(v as u128))
    }

    pub fn of_i64(v: i64) -> (r: Value)
        ensures
            r.ty == Type::Number(NumberType::I64),
            r.var matches ValueVariant::Text(t) && t.text() == if v < 0 {
                seq!['-'] + dec_rep(-(v as int))
            } else {
                dec_rep(v as int)
            },
            value_wf(r),
    {
        let neg = v < 0;
        let mag: u128 = if neg {
            (-(v as i128)) as u128
        } else {
            v as u128
        };
        Value::of_number(NumberType::I64, signed_chars(neg, mag))
    }

    pub fn of_usize(v: usize) -> (r: Value)
        ensures
            r.ty == Type::Number(NumberType::Usize),
            r.var matches ValueVariant::Text(t) && t.text() == dec_rep(v as int),
            value_wf(r),
    {
        Value::of_number(NumberType::Usize, dec_chars(v as u128))
    }

    pub fn of_isize(v: isize) -> (r: Value)
        ensures
            r.ty == Type::Number(NumberType::Isize),
            r.var matches ValueVariant::Text(t) && t.text() == if v < 0 {
                seq!['-'] + dec_rep(-(v as int))
            } else {
                dec_rep(v as int)
            },
            value_wf(r),
    {
        let neg = v < 0;
        let mag: u128 = if neg {
            (-(v as i128)) as u128
        } else {
            v as u128
        };
        Value::of_number(NumberType::Isize, signed_chars(neg, mag))
    }
}

} // verus!
