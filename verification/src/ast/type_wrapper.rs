//! Types of the language: a native type together with its pointer depth and constness.

use vstd::prelude::*;
use crate::lexer::token::{Keyword, Tk, TkModel, Token};
use crate::text::{push_char, push_str};

verus! {

/// The native types of the language.
#[derive(Clone, Copy, Debug, PartialEq, Eq, Structural, PartialOrd, Ord)]
pub enum TypeNative {
    U32,
    U16,
    U8,
    I32,
    I16,
    I8,
    Void,
    Null,
}

impl Default for TypeNative {
    /// The default native type is `Null`, the type of an expression not typed yet.
    fn default() -> (r: TypeNative)
        ensures
            r == TypeNative::Null,
    {
        TypeNative::Null
    }
}

/// A type as written in the source: a native type, the number of pointer levels above it and
/// whether it is constant.
#[derive(Clone, Copy, Debug, PartialEq, Eq, Structural, PartialOrd, Ord)]
pub struct TypeWrapper {
    pub type_native: TypeNative,
    pub pointer: u32,
    pub constant: bool,
}

impl Default for TypeWrapper {
    /// The default type: a non-constant `Null` with no pointer.
    fn default() -> (r: TypeWrapper)
        ensures
            r == default_type(),
    {
        TypeWrapper { constant: false, type_native: TypeNative::Null, pointer: 0 }
    }
}

/// The type given to a value before its type is known.
pub open spec fn default_type() -> TypeWrapper {
    TypeWrapper { constant: false, type_native: TypeNative::Null, pointer: 0 }
}

/// The native type named by a keyword, for the keywords that name types.
pub open spec fn native_of_keyword(k: Keyword) -> Option<TypeNative> {
    match k {
        Keyword::U8 => Some(TypeNative::U8),
        Keyword::U16 => Some(TypeNative::U16),
        Keyword::U32 => Some(TypeNative::U32),
        Keyword::I8 => Some(TypeNative::I8),
        Keyword::I16 => Some(TypeNative::I16),
        Keyword::I32 => Some(TypeNative::I32),
        Keyword::Void => Some(TypeNative::Void),
        _ => None,
    }
}

/// Whether a token kind is a keyword naming a type.
pub open spec fn is_type_token(t: TkModel) -> bool {
    match t {
        TkModel::Keyword(k) => native_of_keyword(k).is_some(),
        _ => false,
    }
}

/// The native type named by a token kind that names a type.
pub open spec fn native_of_token(t: TkModel) -> TypeNative
    recommends
        is_type_token(t),
{
    match t {
        TkModel::Keyword(k) => native_of_keyword(k).unwrap(),
        _ => TypeNative::Null,
    }
}

/// The name of a native type.
pub open spec fn native_text(n: TypeNative) -> Seq<char> {
    match n {
        TypeNative::U32 => "u32"@,
        TypeNative::U16 => "u16"@,
        TypeNative::U8 => "u8"@,
        TypeNative::I32 => "i32"@,
        TypeNative::I16 => "i16"@,
        TypeNative::I8 => "i8"@,
        TypeNative::Void => "void"@,
        TypeNative::Null => "null"@,
    }
}

/// `n` copies of the character `c`.
pub open spec fn repeat_char(c: char, n: nat) -> Seq<char>
    decreases n,
{
    if n == 0 {
        Seq::empty()
    } else {
        repeat_char(c, (n - 1) as nat).push(c)
    }
}

/// The text of a type: `const ` when it is constant, the name of its native type, then one `*`
/// for each pointer level.
pub open spec fn type_text(t: TypeWrapper) -> Seq<char> {
    (if t.constant { "const "@ } else { Seq::empty() }) + native_text(t.type_native)
        + repeat_char('*', t.pointer as nat)
}

/// Whether a type has a size: every pointer, and the integer native types.
pub open spec fn is_sized(t: TypeWrapper) -> bool {
    t.pointer != 0 || match t.type_native {
        TypeNative::Void | TypeNative::Null => false,
        _ => true,
    }
}

/// The size in bytes of a sized type: 4 for a pointer, else the width of its native type.
pub open spec fn type_size(t: TypeWrapper) -> u32 {
    if t.pointer != 0 {
        4
    } else {
        match t.type_native {
            TypeNative::U8 | TypeNative::I8 => 1,
            TypeNative::U16 | TypeNative::I16 => 2,
            _ => 4,
        }
    }
}

/// Whether values of a type are signed integers: a native `i8`, `i16` or `i32` that is not a
/// pointer. Pointers and the unsigned types compare and shift as unsigned values.
pub open spec fn is_signed_type(t: TypeWrapper) -> bool {
    t.pointer == 0 && match t.type_native {
        TypeNative::I8 | TypeNative::I16 | TypeNative::I32 => true,
        _ => false,
    }
}

/// Whether two types can be used in place of one another: same native type and same pointer
/// depth; constness does not matter.
pub open spec fn compatible(a: TypeWrapper, b: TypeWrapper) -> bool {
    a.pointer == b.pointer && a.type_native == b.type_native
}

/// Appends `n` copies of `c` to `s`.
pub fn push_repeat(s: &mut String, c: char, n: u32)
    ensures
        final(s)@ == old(s)@ + repeat_char(c, n as nat),
{
    let mut i: u32 = 0;
    while i < n
        invariant
            i <= n,
            s@ == old(s)@ + repeat_char(c, i as nat),
        decreases n - i,
    {
        push_char(s, c);
        i = i + 1;
        assert(s@ =~= old(s)@ + repeat_char(c, i as nat));
    }
}

impl TypeNative {
    /// The native type named by a token, which must be a keyword naming a type.
    pub fn from_token(tk: &Token) -> (r: TypeNative)
        requires
            is_type_token(tk.tk@),
        ensures
            r == native_of_token(tk.tk@),
    {
        match &tk.tk {
            Tk::Keyword(k) => match k {
                Keyword::U8 => TypeNative::U8,
                Keyword::U16 => TypeNative::U16,
                Keyword::U32 => TypeNative::U32,
                Keyword::I8 => TypeNative::I8,
                Keyword::I16 => TypeNative::I16,
                Keyword::I32 => TypeNative::I32,
                _ => TypeNative::Void,
            },
            _ => TypeNative::Void,
        }
    }

    /// Appends the name of the native type to `s`.
    pub fn push_text(&self, s: &mut String)
        ensures
            final(s)@ == old(s)@ + native_text(*self),
    {
        match self {
            TypeNative::U32 => push_str(s, "u32"),
            TypeNative::U16 => push_str(s, "u16"),
            TypeNative::U8 => push_str(s, "u8"),
            TypeNative::I32 => push_str(s, "i32"),
            TypeNative::I16 => push_str(s, "i16"),
            TypeNative::I8 => push_str(s, "i8"),
            TypeNative::Void => push_str(s, "void"),
            TypeNative::Null => push_str(s, "null"),
        }
    }
}

impl TypeWrapper {
    /// Appends the text of the type to `s`.
    pub fn push_text(&self, s: &mut String)
        ensures
            final(s)@ == old(s)@ + type_text(*self),
    {
        let ghost s0 = s@;
        if self.constant {
            push_str(s, "const ");
        }
        let ghost s1 = s@;
        self.type_native.push_text(s);
        push_repeat(s, '*', self.pointer);
        assert(s1 == s0 + (if self.constant { "const "@ } else { Seq::<char>::empty() }));
        assert(s@ =~= s0 + type_text(*self));
    }

    /// The text of the type: `const ` when constant, the native type, one `*` per pointer level.
    pub fn to_string(&self) -> (r: String)
        ensures
            r@ == type_text(*self),
    {
        let mut s = String::new();
        self.push_text(&mut s);
        assert(Seq::<char>::empty() + type_text(*self) =~= type_text(*self));
        s
    }

    /// Whether values of the type are signed integers.
    pub fn is_signed(&self) -> (r: bool)
        ensures
            r == is_signed_type(*self),
    {
        if self.pointer != 0 {
            return false;
        }
        match self.type_native {
            TypeNative::I8 | TypeNative::I16 | TypeNative::I32 => true,
            _ => false,
        }
    }

    /// The size of the type in bytes: 4 for a pointer, else 1, 2 or 4 by the width of the native
    /// type. `void` and `null` have no size.
    pub fn get_size(&self) -> (r: u32)
        requires
            is_sized(*self),
        ensures
            r == type_size(*self),
    {
        if self.pointer != 0 {
            return 4;
        }
        match self.type_native {
            TypeNative::U8 | TypeNative::I8 => 1,
            TypeNative::U16 | TypeNative::I16 => 2,
            _ => 4,
        }
    }

    /// Whether the two types are compatible: same native type and same number of pointers.
    pub fn are_compatible(a: &TypeWrapper, b: &TypeWrapper) -> (r: bool)
        ensures
            r == compatible(*a, *b),
    {
        a.pointer == b.pointer && a.type_native == b.type_native
    }
}

/// Compatibility of types is an equivalence: every type is compatible with itself, and
/// compatibility is symmetric and transitive.
pub proof fn lemma_compatible_equivalence(a: TypeWrapper, b: TypeWrapper, c: TypeWrapper)
    ensures
        compatible(a, a),
        compatible(a, b) == compatible(b, a),
        compatible(a, b) && compatible(b, c) ==> compatible(a, c),
{
}

} // verus!
