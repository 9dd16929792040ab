//! The vocabulary of the notation: absolute types, byte orders and failures.
use vstd::prelude::*;

verus! {

/// Byte order of multi-byte values.
#[derive(Clone, Copy, Debug, PartialEq, Eq, Structural)]
pub enum Endian {
    Big,
    Little,
    /// The byte order of the host that runs the compiler.
    Native,
}

/// The fixed, builtin encodings that every type name resolves to.
#[derive(Clone, Copy, Debug, PartialEq, Eq, Structural)]
pub enum AbsType {
    U8,
    U16,
    U32,
    U64,
    I8,
    I16,
    I32,
    I64,
    F32,
    F64,
    Utf8,
    Ascii,
    Utf16,
}

/// What went wrong while compiling a unit.
#[derive(Clone, Copy, Debug, PartialEq, Eq, Structural)]
pub enum ErrorKind {
    /// A backslash in a string followed by this character, which is no escape.
    BadEscape(char),
    /// A `[` where no token may start, or a `]` outside a setting.
    MisplacedBracket,
    /// A setting without a name or without a value.
    MalformedSetting,
    /// Whitespace inside the value of a setting.
    SpaceInSetting,
    /// The text ended inside a string, a comment or a setting.
    Unterminated,
    /// `[ENDIAN SMALL]`: the order is called `LITTLE`.
    SmallEndian,
    /// An `ENDIAN` value that names no byte order.
    UnknownEndian,
    /// A setting name that is neither a directive nor a lowercase alias name.
    UnknownSetting,
    /// An attempt to define an alias under the name of an absolute type.
    AbsoluteRedefined,
    /// A type name that is neither absolute nor an alias.
    UnknownType,
    /// A chain of aliases that never reaches an absolute type.
    AliasCycle,
    /// A numeric payload that is not a literal of this type.
    BadNumber(AbsType),
    /// A string literal with a numeric payload in front of it.
    StringWithNumber,
    /// A string tagged ASCII that holds another character.
    NotAscii,
    /// A float literal whose bit pattern was not supplied.
    MissingFloat,
}

/// A failure, with the index of the character at which it was found.
/// An index equal to the text's length stands for its end.
#[derive(Clone, Copy, Debug, PartialEq, Eq, Structural)]
pub struct CompileError {
    pub kind: ErrorKind,
    pub at: usize,
}

/// Relies on `str::chars`: the characters of the text, in order.
#[verifier::external_body]
pub(crate) fn chars_of(s: &str) -> (r: Vec<char>)
    ensures
        r@ == s@,
{
    s.chars().collect()
}

/// Whether two sequences of characters are the same.
pub fn same_chars(a: &Vec<char>, b: &Vec<char>) -> (r: bool)
    ensures
        r == (a@ == b@),
{
    if a.len() != b.len() {
        return false;
    }
    let mut i: usize = 0;
    while i < a.len()
        invariant
            i <= a@.len(),
            a@.len() == b@.len(),
            forall|j: int| 0 <= j < i ==> a@[j] == b@[j],
        decreases a@.len() - i,
    {
        if a[i] != b[i] {
            return false;
        }
        i = i + 1;
    }
    assert(a@ =~= b@);
    true
}

/// Whether a sequence of characters spells the given word.
pub fn is_word(n: &Vec<char>, w: &str) -> (r: bool)
    ensures
        r == (n@ == w@),
{
    let len = w.unicode_len();
    if n.len() != len {
        return false;
    }
    let mut i: usize = 0;
    while i < len
        invariant
            i <= len,
            len == w@.len(),
            n@.len() == len,
            forall|j: int| 0 <= j < i ==> n@[j] == w@[j],
        decreases len - i,
    {
        if n[i] != w.get_char(i) {
            return false;
        }
        i = i + 1;
    }
    assert(n@ =~= w@);
    true
}

/// The absolute type that a name denotes, if any.
pub open spec fn abs_type_of(n: Seq<char>) -> Option<AbsType> {
    if n == "u8"@ {
        Some(AbsType::U8)
    } else if n == "u16"@ {
        Some(AbsType::U16)
    } else if n == "u32"@ {
        Some(AbsType::U32)
    } else if n == "u64"@ {
        Some(AbsType::U64)
    } else if n == "i8"@ {
        Some(AbsType::I8)
    } else if n == "i16"@ {
        Some(AbsType::I16)
    } else if n == "i32"@ {
        Some(AbsType::I32)
    } else if n == "i64"@ {
        Some(AbsType::I64)
    } else if n == "f32"@ {
        Some(AbsType::F32)
    } else if n == "f64"@ {
        Some(AbsType::F64)
    } else if n == "\"UTF8"@ {
        Some(AbsType::Utf8)
    } else if n == "\"ASCII"@ {
        Some(AbsType::Ascii)
    } else if n == "\"UTF16"@ {
        Some(AbsType::Utf16)
    } else {
        None
    }
}

/// The absolute type that a name denotes, if any.
pub fn absolute_type(n: &Vec<char>) -> (r: Option<AbsType>)
    ensures
        r == abs_type_of(n@),
{
    if is_word(n, "u8") {
        Some(AbsType::U8)
    } else if is_word(n, "u16") {
        Some(AbsType::U16)
    } else if is_word(n, "u32") {
        Some(AbsType::U32)
    } else if is_word(n, "u64") {
        Some(AbsType::U64)
    } else if is_word(n, "i8") {
        Some(AbsType::I8)
    } else if is_word(n, "i16") {
        Some(AbsType::I16)
    } else if is_word(n, "i32") {
        Some(AbsType::I32)
    } else if is_word(n, "i64") {
        Some(AbsType::I64)
    } else if is_word(n, "f32") {
        Some(AbsType::F32)
    } else if is_word(n, "f64") {
        Some(AbsType::F64)
    } else if is_word(n, "\"UTF8") {
        Some(AbsType::Utf8)
    } else if is_word(n, "\"ASCII") {
        Some(AbsType::Ascii)
    } else if is_word(n, "\"UTF16") {
        Some(AbsType::Utf16)
    } else {
        None
    }
}

/// Width in bytes and signedness of an integer type.
pub open spec fn int_layout(t: AbsType) -> Option<(nat, bool)> {
    match t {
        AbsType::U8 => Some((1, false)),
        AbsType::U16 => Some((2, false)),
        AbsType::U32 => Some((4, false)),
        AbsType::U64 => Some((8, false)),
        AbsType::I8 => Some((1, true)),
        AbsType::I16 => Some((2, true)),
        AbsType::I32 => Some((4, true)),
        AbsType::I64 => Some((8, true)),
        _ => None,
    }
}

} // verus!
