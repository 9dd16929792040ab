//! The scanner: one left-to-right pass over a unit's characters that reads
//! tokens and directives and emits bytes.
//!
//! Its meaning is the spec function [`compile_spec`], a fold of [`step`] over
//! the characters; [`compile`] is proved to compute it.
use vstd::prelude::*;
use vstd::utf8::encode_utf8;
use crate::aliases::{AliasTable, builtin_aliases, lookup, resolve, resolve_walk};
use crate::bytes::{
    int_bytes,
    int_value,
    ordered_bytes,
    pow256,
    twos,
    push_ordered,
    lemma_int_round_trip,
    lemma_pow256_positive,
};
use crate::number::{fits, is_digit, parse_int, parse_integer, modulus};
use crate::text::{is_ascii_text, utf16_bytes, all_ascii, push_utf8, push_utf16};
use crate::types::{
    AbsType,
    CompileError,
    Endian,
    ErrorKind,
    abs_type_of,
    absolute_type,
    chars_of,
    int_layout,
    is_word,
};

verus! {

/// Where the scanner stands between two characters.
#[derive(Clone, Copy, Debug, PartialEq, Eq, Structural)]
pub enum Mode {
    /// Between tokens, or reading the numeric payload of a literal.
    Start,
    /// Reading the type tag of a literal.
    Type,
    /// Inside a string literal.
    Text,
    /// Inside a string literal, just after a backslash.
    Escape,
    /// Inside `[`, reading the setting's name.
    SettingName,
    /// Inside `[`, reading the setting's value.
    SettingValue,
}

/// The whole state of a scan, as mathematical values.
pub struct ScanState {
    pub mode: Mode,
    /// How deeply nested in comments the scan is.
    pub depth: nat,
    /// Numeric payload of the pending literal.
    pub number: Seq<char>,
    /// Type tag of the pending literal; a string literal starts it with `"`.
    pub tag: Seq<char>,
    /// Content of the pending string literal.
    pub text: Seq<char>,
    pub name: Seq<char>,
    pub value: Seq<char>,
    pub aliases: Seq<(Seq<char>, Seq<char>)>,
    pub default_type: Seq<char>,
    pub endian: Endian,
    pub out: Seq<u8>,
    /// Payload and width (`true` for 64 bits) of every float literal met so far.
    pub floats_seen: Seq<(Seq<char>, bool)>,
    /// Where the first float literal without a supplied bit pattern ended.
    pub missing: Option<nat>,
}

/// The characters that separate tokens: those with Unicode's White_Space property.
pub open spec fn is_space(c: char) -> bool {
    ||| c == ' ' || c == '\t' || c == '\n' || c == '\u{0B}' || c == '\u{0C}' || c == '\r'
    ||| c == '\u{85}' || c == '\u{A0}' || c == '\u{1680}'
    ||| ('\u{2000}' <= c <= '\u{200A}')
    ||| c == '\u{2028}' || c == '\u{2029}' || c == '\u{202F}' || c == '\u{205F}' || c == '\u{3000}'
}

/// A name that a setting may bind as an alias: lowercase letters, digits and `_`.
pub open spec fn is_alias_name(n: Seq<char>) -> bool {
    n.len() > 0 && forall|i: int|
        0 <= i < n.len() ==> ('a' <= #[trigger] n[i] <= 'z') || ('0' <= n[i] <= '9') || n[i]
            == '_'
}

/// Whether multi-byte values go least significant byte first.
pub open spec fn little_for(e: Endian, native_little: bool) -> bool {
    match e {
        Endian::Big => false,
        Endian::Little => true,
        Endian::Native => native_little,
    }
}

/// The state at the start of every unit.
pub open spec fn initial_state() -> ScanState {
    ScanState {
        mode: Mode::Start,
        depth: 0,
        number: seq![],
        tag: seq![],
        text: seq![],
        name: seq![],
        value: seq![],
        aliases: builtin_aliases(),
        default_type: "i"@,
        endian: Endian::Big,
        out: seq![],
        floats_seen: seq![],
        missing: None,
    }
}

/// The type name of the pending literal: the default type when it has no tag,
/// UTF-8 for a bare string.
pub open spec fn literal_type_name(s: ScanState) -> Seq<char> {
    if s.tag.len() == 0 {
        s.default_type
    } else if s.tag == "\""@ {
        "\"UTF8"@
    } else {
        s.tag
    }
}

/// The state once the pending literal of type `t` has been emitted.
pub open spec fn emit(
    s: ScanState,
    t: AbsType,
    at: nat,
    native_little: bool,
    floats: Seq<Option<u64>>,
) -> Result<ScanState, ErrorKind> {
    let little = little_for(s.endian, native_little);
    match int_layout(t) {
        Some((n, signed)) => match parse_int(s.number, n, signed) {
            Some(v) => Ok(ScanState { out: s.out + int_bytes(v, n, little), ..s }),
            None => Err(ErrorKind::BadNumber(t)),
        },
        None => if t == AbsType::F32 || t == AbsType::F64 {
            let n: nat = if t == AbsType::F32 {
                4
            } else {
                8
            };
            let k = s.floats_seen.len();
            let seen = s.floats_seen.push((s.number, t == AbsType::F64));
            if k < floats.len() {
                match floats[k as int] {
                    Some(bits) => Ok(
                        ScanState {
                            out: s.out + ordered_bytes(bits as nat % pow256(n), n, little),
                            floats_seen: seen,
                            ..s
                        },
                    ),
                    None => Err(ErrorKind::BadNumber(t)),
                }
            } else {
                Ok(
                    ScanState {
                        floats_seen: seen,
                        missing: if s.missing is None {
                            Some(at)
                        } else {
                            s.missing
                        },
                        ..s
                    },
                )
            }
        } else if s.number.len() > 0 {
            Err(ErrorKind::StringWithNumber)
        } else if t == AbsType::Utf8 {
            Ok(ScanState { out: s.out + encode_utf8(s.text), ..s })
        } else if t == AbsType::Ascii {
            if is_ascii_text(s.text) {
                Ok(ScanState { out: s.out + encode_utf8(s.text), ..s })
            } else {
                Err(ErrorKind::NotAscii)
            }
        } else {
            Ok(ScanState { out: s.out + utf16_bytes(s.text, little), ..s })
        },
    }
}

/// The state after the whitespace that ends a literal.
pub open spec fn close_token(
    s: ScanState,
    at: nat,
    native_little: bool,
    floats: Seq<Option<u64>>,
) -> Result<ScanState, ErrorKind> {
    match resolve(s.aliases, literal_type_name(s)) {
        Err(e) => Err(e),
        Ok(t) => match emit(s, t, at, native_little, floats) {
            Err(e) => Err(e),
            Ok(s2) => Ok(ScanState { mode: Mode::Start, number: seq![], tag: seq![], text: seq![], ..s2 }),
        },
    }
}

/// The state after the `]` that closes a setting.
pub open spec fn apply_setting(s: ScanState) -> Result<ScanState, ErrorKind> {
    let done = ScanState { mode: Mode::Start, name: seq![], value: seq![], ..s };
    if s.name == "ENDIAN"@ {
        if s.value == "DEFAULT"@ || s.value == "BIG"@ {
            Ok(ScanState { endian: Endian::Big, ..done })
        } else if s.value == "LITTLE"@ {
            Ok(ScanState { endian: Endian::Little, ..done })
        } else if s.value == "SYSTEM"@ {
            Ok(ScanState { endian: Endian::Native, ..done })
        } else if s.value == "SMALL"@ {
            Err(ErrorKind::SmallEndian)
        } else {
            Err(ErrorKind::UnknownEndian)
        }
    } else if s.name == "AUTO"@ {
        Ok(ScanState { default_type: s.value, ..done })
    } else if !is_alias_name(s.name) {
        Err(ErrorKind::UnknownSetting)
    } else if abs_type_of(s.name) is Some {
        Err(ErrorKind::AbsoluteRedefined)
    } else {
        Ok(ScanState { aliases: s.aliases.push((s.name, s.value)), ..done })
    }
}

/// The state after one more character, found at index `at`.
pub open spec fn step(
    s: ScanState,
    c: char,
    at: nat,
    native_little: bool,
    floats: Seq<Option<u64>>,
) -> Result<ScanState, ErrorKind> {
    match s.mode {
        Mode::Text => if c == '\\' {
            Ok(ScanState { mode: Mode::Escape, ..s })
        } else if c == '"' {
            Ok(ScanState { mode: Mode::Type, tag: s.tag.push('"'), ..s })
        } else {
            Ok(ScanState { text: s.text.push(c), ..s })
        },
        Mode::Escape => if c == '"' || c == '\\' {
            Ok(ScanState { mode: Mode::Text, text: s.text.push(c), ..s })
        } else if c == 'n' {
            Ok(ScanState { mode: Mode::Text, text: s.text.push('\n'), ..s })
        } else {
            Err(ErrorKind::BadEscape(c))
        },
        Mode::SettingName => if c == ']' {
            Err(ErrorKind::MalformedSetting)
        } else if c == '[' {
            Err(ErrorKind::MisplacedBracket)
        } else if is_space(c) {
            if s.name.len() == 0 {
                Err(ErrorKind::MalformedSetting)
            } else {
                Ok(ScanState { mode: Mode::SettingValue, ..s })
            }
        } else {
            Ok(ScanState { name: s.name.push(c), ..s })
        },
        Mode::SettingValue => if c == ']' {
            if s.value.len() == 0 {
                Err(ErrorKind::MalformedSetting)
            } else {
                apply_setting(s)
            }
        } else if c == '[' {
            Err(ErrorKind::MisplacedBracket)
        } else if is_space(c) {
            Err(ErrorKind::SpaceInSetting)
        } else {
            Ok(ScanState { value: s.value.push(c), ..s })
        },
        _ => if s.depth > 0 {
            if c == '(' {
                Ok(ScanState { depth: s.depth + 1, ..s })
            } else if c == ')' {
                Ok(ScanState { depth: (s.depth - 1) as nat, ..s })
            } else {
                Ok(s)
            }
        } else if c == '(' {
            Ok(ScanState { depth: 1, ..s })
        } else if c == ')' {
            Ok(s)
        } else if c == '[' {
            if s.mode == Mode::Start && s.number.len() == 0 {
                Ok(ScanState { mode: Mode::SettingName, ..s })
            } else {
                Err(ErrorKind::MisplacedBracket)
            }
        } else if c == ']' {
            Err(ErrorKind::MisplacedBracket)
        } else if is_space(c) {
            if s.mode == Mode::Start && s.number.len() == 0 {
                Ok(s)
            } else {
                close_token(s, at, native_little, floats)
            }
        } else if s.mode == Mode::Start {
            if is_digit(c) || c == '+' || c == '-' || c == '.' {
                Ok(ScanState { number: s.number.push(c), ..s })
            } else if c == '"' {
                Ok(ScanState { mode: Mode::Text, ..s })
            } else {
                Ok(ScanState { mode: Mode::Type, tag: s.tag.push(c), ..s })
            }
        } else {
            Ok(ScanState { tag: s.tag.push(c), ..s })
        },
    }
}

/// The state after the characters `cs`, or the first failure and its index.
pub open spec fn run(cs: Seq<char>, native_little: bool, floats: Seq<Option<u64>>) -> Result<
    ScanState,
    (ErrorKind, nat),
>
    decreases cs.len(),
{
    if cs.len() == 0 {
        Ok(initial_state())
    } else {
        match run(cs.drop_last(), native_little, floats) {
            Err(e) => Err(e),
            Ok(s) => match step(s, cs.last(), (cs.len() - 1) as nat, native_little, floats) {
                Ok(s2) => Ok(s2),
                Err(k) => Err((k, (cs.len() - 1) as nat)),
            },
        }
    }
}

/// Whether a string, an escape, a setting or a comment is still open.
pub open spec fn is_open(s: ScanState) -> bool {
    s.depth > 0 || s.mode == Mode::Text || s.mode == Mode::Escape || s.mode == Mode::SettingName
        || s.mode == Mode::SettingValue
}

/// The final state of a unit: its text, then one space that ends the last token.
/// A string, setting or comment still open at the end of the text is a failure.
pub open spec fn scan_spec(cs: Seq<char>, native_little: bool, floats: Seq<Option<u64>>) -> Result<
    ScanState,
    (ErrorKind, nat),
> {
    match run(cs, native_little, floats) {
        Err(e) => Err(e),
        Ok(s) => if is_open(s) {
            Err((ErrorKind::Unterminated, cs.len()))
        } else {
            match step(s, ' ', cs.len(), native_little, floats) {
                Ok(s2) => Ok(s2),
                Err(k) => Err((k, cs.len())),
            }
        },
    }
}

/// The bytes of a unit, given the bit patterns of its float literals in order
/// (`None` for a payload that is no float), and whether the host is little-endian.
pub open spec fn compile_spec(cs: Seq<char>, native_little: bool, floats: Seq<Option<u64>>) -> Result<
    Seq<u8>,
    (ErrorKind, nat),
> {
    match scan_spec(cs, native_little, floats) {
        Err(e) => Err(e),
        Ok(s) => match s.missing {
            Some(p) => Err((ErrorKind::MissingFloat, p)),
            None => Ok(s.out),
        },
    }
}

/// The float literals of a unit, in order: payload and whether it is 64 bits wide.
pub open spec fn float_literals_spec(cs: Seq<char>) -> Result<
    Seq<(Seq<char>, bool)>,
    (ErrorKind, nat),
> {
    match scan_spec(cs, false, seq![]) {
        Err(e) => Err(e),
        Ok(s) => Ok(s.floats_seen),
    }
}

/// A float literal met in a unit: its payload and whether it is 64 bits wide.
pub struct FloatLiteral {
    pub text: Vec<char>,
    pub wide: bool,
}

/// The payloads and widths of float literals.
pub open spec fn literal_views(v: Seq<FloatLiteral>) -> Seq<(Seq<char>, bool)> {
    Seq::new(v.len(), |i: int| (v[i].text@, v[i].wide))
}

/// `r` and the state `after` are what the expected outcome of a step says.
pub open spec fn follows(
    r: Result<(), ErrorKind>,
    after: ScanState,
    expected: Result<ScanState, ErrorKind>,
) -> bool {
    match expected {
        Ok(s2) => r is Ok && after == s2,
        Err(k) => r == Err::<(), ErrorKind>(k),
    }
}

/// Whether a character separates tokens.
pub fn space(c: char) -> (r: bool)
    ensures
        r == is_space(c),
{
    c == ' ' || c == '\t' || c == '\n' || c == '\u{0B}' || c == '\u{0C}' || c == '\r' || c
        == '\u{85}' || c == '\u{A0}' || c == '\u{1680}' || ('\u{2000}' <= c && c <= '\u{200A}')
        || c == '\u{2028}' || c == '\u{2029}' || c == '\u{202F}' || c == '\u{205F}' || c
        == '\u{3000}'
}

/// Whether a setting name may be bound as an alias.
pub fn alias_name(n: &Vec<char>) -> (r: bool)
    ensures
        r == is_alias_name(n@),
{
    if n.len() == 0 {
        return false;
    }
    let mut i: usize = 0;
    while i < n.len()
        invariant
            i <= n@.len(),
            forall|j: int|
                0 <= j < i ==> ('a' <= #[trigger] n@[j] <= 'z') || ('0' <= n@[j] <= '9') || n@[j]
                    == '_',
        decreases n@.len() - i,
    {
        let c = n[i];
        if !(('a' <= c && c <= 'z') || ('0' <= c && c <= '9') || c == '_') {
            return false;
        }
        i = i + 1;
    }
    true
}

/// A copy of a sequence of characters.
pub fn copy_chars(a: &Vec<char>) -> (r: Vec<char>)
    ensures
        r@ == a@,
{
    let mut r: Vec<char> = Vec::new();
    let mut i: usize = 0;
    while i < a.len()
        invariant
            i <= a@.len(),
            r@ == a@.subrange(0, i as int),
        decreases a@.len() - i,
    {
        r.push(a[i]);
        assert(a@.subrange(0, i + 1) =~= a@.subrange(0, i as int).push(a@[i as int]));
        i = i + 1;
    }
    assert(a@.subrange(0, a@.len() as int) =~= a@);
    r
}

/// Width in bytes and signedness of an integer type.
pub fn int_width(t: AbsType) -> (r: Option<(usize, bool)>)
    ensures
        r matches Some((n, signed)) ==> int_layout(t) == Some((n as nat, signed)),
        r is None ==> int_layout(t) is None,
{
    match t {
        AbsType::U8 => Some((1, false)),
        AbsType::U16 => Some((2, false)),
        AbsType::U32 => Some((4, false)),
        AbsType::U64 => Some((8, false)),
        AbsType::I8 => Some((1, true)),
        AbsType::I16 => Some((2, true)),
        AbsType::I32 => Some((4, true)),
        AbsType::I64 => Some((8, true)),
        _ => None,
    }
}

/// The executable state of a scan.
pub(crate) struct Scanner {
    mode: Mode,
    depth: usize,
    number: Vec<char>,
    tag: Vec<char>,
    text: Vec<char>,
    name: Vec<char>,
    value: Vec<char>,
    aliases: AliasTable,
    default_type: Vec<char>,
    endian: Endian,
    out: Vec<u8>,
    floats_seen: Vec<FloatLiteral>,
    missing: Option<usize>,
}

impl View for Scanner {
    type V = ScanState;

    closed spec fn view(&self) -> ScanState {
        ScanState {
            mode: self.mode,
            depth: self.depth as nat,
            number: self.number@,
            tag: self.tag@,
            text: self.text@,
            name: self.name@,
            value: self.value@,
            aliases: self.aliases.view(),
            default_type: self.default_type@,
            endian: self.endian,
            out: self.out@,
            floats_seen: literal_views(self.floats_seen@),
            missing: match self.missing {
                Some(p) => Some(p as nat),
                None => None,
            },
        }
    }
}

impl Scanner {
    pub(crate) fn new() -> (r: Scanner)
        ensures
            r@ == initial_state(),
    {
        let r = Scanner {
            mode: Mode::Start,
            depth: 0,
            number: Vec::new(),
            tag: Vec::new(),
            text: Vec::new(),
            name: Vec::new(),
            value: Vec::new(),
            aliases: AliasTable::new(),
            default_type: chars_of("i"),
            endian: Endian::Big,
            out: Vec::new(),
            floats_seen: Vec::new(),
            missing: None,
        };
        assert(literal_views(r.floats_seen@) =~= seq![]);
        assert(r@ =~= initial_state());
        r
    }

    fn apply_setting(&mut self) -> (r: Result<(), ErrorKind>)
        ensures
            follows(r, final(self)@, apply_setting(old(self)@)),
    {
        if is_word(&self.name, "ENDIAN") {
            let e = if is_word(&self.value, "DEFAULT") || is_word(&self.value, "BIG") {
                Endian::Big
            } else if is_word(&self.value, "LITTLE") {
                Endian::Little
            } else if is_word(&self.value, "SYSTEM") {
                Endian::Native
            } else if is_word(&self.value, "SMALL") {
                return Err(ErrorKind::SmallEndian);
            } else {
                return Err(ErrorKind::UnknownEndian);
            };
            self.endian = e;
        } else if is_word(&self.name, "AUTO") {
            let mut v: Vec<char> = Vec::new();
            std::mem::swap(&mut v, &mut self.value);
            self.default_type = v;
        } else if !alias_name(&self.name) {
            return Err(ErrorKind::UnknownSetting);
        } else if absolute_type(&self.name) != None::<AbsType> {
            return Err(ErrorKind::AbsoluteRedefined);
        } else {
            let mut n: Vec<char> = Vec::new();
            std::mem::swap(&mut n, &mut self.name);
            let mut v: Vec<char> = Vec::new();
            std::mem::swap(&mut v, &mut self.value);
            self.aliases.define(n, v);
        }
        self.mode = Mode::Start;
        self.name = Vec::new();
        self.value = Vec::new();
        Ok(())
    }

    fn emit(&mut self, t: AbsType, at: usize, native_little: bool, floats: &Vec<Option<u64>>) -> (r:
        Result<(), ErrorKind>)
        ensures
            follows(r, final(self)@, emit(old(self)@, t, at as nat, native_little, floats@)),
    {
        let little = match self.endian {
            Endian::Big => false,
            Endian::Little => true,
            Endian::Native => native_little,
        };
        match int_width(t) {
            Some((n, signed)) => {
                match parse_integer(&self.number, n, signed) {
                    None => {
                        return Err(ErrorKind::BadNumber(t));
                    },
                    Some(v) => {
                        let m = modulus(n);
                        proof {
                            reveal_with_fuel(pow256, 9);
                            assert(fits(v as int, n as nat, signed));
                        }
                        let pattern: u128 = if v < 0 {
                            (v + m as i128) as u128
                        } else {
                            v as u128
                        };
                        assert(pattern as nat == twos(v as int, n as nat));
                        push_ordered(&mut self.out, pattern, n, little);
                    },
                }
            },
            None => {
                if t == AbsType::F32 || t == AbsType::F64 {
                    let wide = t == AbsType::F64;
                    let n: usize = if wide {
                        8
                    } else {
                        4
                    };
                    let k = self.floats_seen.len();
                    if k < floats.len() {
                        match floats[k] {
                            None => {
                                return Err(ErrorKind::BadNumber(t));
                            },
                            Some(bits) => {
                                let m = modulus(n);
                                proof {
                                    lemma_pow256_positive(n as nat);
                                }
                                push_ordered(&mut self.out, (bits as u128) % m, n, little);
                            },
                        }
                    } else if self.missing == None::<usize> {
                        self.missing = Some(at);
                    }
                    let text = copy_chars(&self.number);
                    let ghost before = self.floats_seen@;
                    self.floats_seen.push(FloatLiteral { text, wide });
                    assert(literal_views(self.floats_seen@) =~= literal_views(before).push(
                        (text@, wide),
                    ));
                } else {
                    if self.number.len() > 0 {
                        return Err(ErrorKind::StringWithNumber);
                    }
                    if t == AbsType::Utf8 {
                        push_utf8(&mut self.out, &self.text);
                    } else if t == AbsType::Ascii {
                        if !all_ascii(&self.text) {
                            return Err(ErrorKind::NotAscii);
                        }
                        push_utf8(&mut self.out, &self.text);
                    } else {
                        push_utf16(&mut self.out, &self.text, little);
                    }
                }
            },
        }
        Ok(())
    }

    fn close_token(&mut self, at: usize, native_little: bool, floats: &Vec<Option<u64>>) -> (r:
        Result<(), ErrorKind>)
        ensures
            follows(r, final(self)@, close_token(old(self)@, at as nat, native_little, floats@)),
    {
        let sigil = chars_of("\"UTF8");
        let resolved = if self.tag.len() == 0 {
            self.aliases.resolve(&self.default_type)
        } else if is_word(&self.tag, "\"") {
            self.aliases.resolve(&sigil)
        } else {
            self.aliases.resolve(&self.tag)
        };
        let t = match resolved {
            Err(e) => {
                return Err(e);
            },
            Ok(t) => t,
        };
        match self.emit(t, at, native_little, floats) {
            Err(e) => {
                return Err(e);
            },
            Ok(()) => {},
        }
        self.mode = Mode::Start;
        self.number = Vec::new();
        self.tag = Vec::new();
        self.text = Vec::new();
        Ok(())
    }

    /// Takes one more character, found at index `at` of the unit.
    pub(crate) fn step(&mut self, c: char, at: usize, native_little: bool, floats: &Vec<Option<u64>>) -> (r:
        Result<(), ErrorKind>)
        requires
            c == '(' ==> old(self)@.depth < usize::MAX,
        ensures
            follows(r, final(self)@, step(old(self)@, c, at as nat, native_little, floats@)),
            r is Ok ==> final(self)@.depth <= old(self)@.depth + 1,
    {
        match self.mode {
            Mode::Text => {
                if c == '\\' {
                    self.mode = Mode::Escape;
                } else if c == '"' {
                    self.mode = Mode::Type;
                    self.tag.push('"');
                } else {
                    self.text.push(c);
                }
                Ok(())
            },
            Mode::Escape => {
                if c == '"' || c == '\\' {
                    self.mode = Mode::Text;
                    self.text.push(c);
                    Ok(())
                } else if c == 'n' {
                    self.mode = Mode::Text;
                    self.text.push('\n');
                    Ok(())
                } else {
                    Err(ErrorKind::BadEscape(c))
                }
            },
            Mode::SettingName => {
                if c == ']' {
                    Err(ErrorKind::MalformedSetting)
                } else if c == '[' {
                    Err(ErrorKind::MisplacedBracket)
                } else if space(c) {
                    if self.name.len() == 0 {
                        Err(ErrorKind::MalformedSetting)
                    } else {
                        self.mode = Mode::SettingValue;
                        Ok(())
                    }
                } else {
                    self.name.push(c);
                    Ok(())
                }
            },
            Mode::SettingValue => {
                if c == ']' {
                    if self.value.len() == 0 {
                        Err(ErrorKind::MalformedSetting)
                    } else {
                        self.apply_setting()
                    }
                } else if c == '[' {
                    Err(ErrorKind::MisplacedBracket)
                } else if space(c) {
                    Err(ErrorKind::SpaceInSetting)
                } else {
                    self.value.push(c);
                    Ok(())
                }
            },
            _ => {
                if self.depth > 0 {
                    if c == '(' {
                        self.depth = self.depth + 1;
                    } else if c == ')' {
                        self.depth = self.depth - 1;
                    }
                    Ok(())
                } else if c == '(' {
                    self.depth = 1;
                    Ok(())
                } else if c == ')' {
                    Ok(())
                } else if c == '[' {
                    if self.mode == Mode::Start && self.number.len() == 0 {
                        self.mode = Mode::SettingName;
                        Ok(())
                    } else {
                        Err(ErrorKind::MisplacedBracket)
                    }
                } else if c == ']' {
                    Err(ErrorKind::MisplacedBracket)
                } else if space(c) {
                    if self.mode == Mode::Start && self.number.len() == 0 {
                        Ok(())
                    } else {
                        self.close_token(at, native_little, floats)
                    }
                } else if self.mode == Mode::Start {
                    if ('0' <= c && c <= '9') || c == '+' || c == '-' || c == '.' {
                        self.number.push(c);
                    } else if c == '"' {
                        self.mode = Mode::Text;
                    } else {
                        self.mode = Mode::Type;
                        self.tag.push(c);
                    }
                    Ok(())
                } else {
                    self.tag.push(c);
                    Ok(())
                }
            },
        }
    }
}

/// Once a scan has failed, longer inputs fail the same way.
pub proof fn lemma_run_failure_stays(
    cs: Seq<char>,
    j: int,
    native_little: bool,
    floats: Seq<Option<u64>>,
)
    requires
        0 <= j <= cs.len(),
        run(cs.subrange(0, j), native_little, floats) is Err,
    ensures
        run(cs, native_little, floats) == run(cs.subrange(0, j), native_little, floats),
    decreases cs.len() - j,
{
    if j < cs.len() {
        assert(cs.drop_last().subrange(0, j) =~= cs.subrange(0, j));
        lemma_run_failure_stays(cs.drop_last(), j, native_little, floats);
    } else {
        assert(cs.subrange(0, j) =~= cs);
    }
}

/// Runs the scanner over a unit and the space that ends its last token.
fn scan(cs: &Vec<char>, native_little: bool, floats: &Vec<Option<u64>>) -> (r: Result<
    Scanner,
    CompileError,
>)
    ensures
        match scan_spec(cs@, native_little, floats@) {
            Ok(st) => r matches Ok(sc) && sc@ == st,
            Err((k, p)) => r == Err::<Scanner, CompileError>(CompileError { kind: k, at: p as usize }),
        },
{
    let mut sc = Scanner::new();
    let n = cs.len();
    let mut i: usize = 0;
    assert(cs@.subrange(0, 0) =~= seq![]);
    while i < n
        invariant
            i <= n,
            n == cs@.len(),
            run(cs@.subrange(0, i as int), native_little, floats@) == Ok::<
                ScanState,
                (ErrorKind, nat),
            >(sc@),
            sc@.depth <= i,
        decreases n - i,
    {
        let ghost prefix = cs@.subrange(0, i + 1);
        assert(prefix.drop_last() =~= cs@.subrange(0, i as int));
        assert(prefix.last() == cs@[i as int]);
        match sc.step(cs[i], i, native_little, floats) {
            Err(k) => {
                proof {
                    lemma_run_failure_stays(cs@, i + 1, native_little, floats@);
                }
                return Err(CompileError { kind: k, at: i });
            },
            Ok(()) => {},
        }
        i = i + 1;
    }
    assert(cs@.subrange(0, n as int) =~= cs@);
    if sc.depth > 0 || sc.mode == Mode::Text || sc.mode == Mode::Escape || sc.mode
        == Mode::SettingName || sc.mode == Mode::SettingValue {
        return Err(CompileError { kind: ErrorKind::Unterminated, at: n });
    }
    match sc.step(' ', n, native_little, floats) {
        Err(k) => {
            return Err(CompileError { kind: k, at: n });
        },
        Ok(()) => {},
    }
    Ok(sc)
}

/// Compiles the text of one unit to bytes.
///
/// `native_little` tells whether the host is little-endian, for `[ENDIAN SYSTEM]`.
/// `floats` holds, in order, the bit pattern of each float literal of the unit
/// (see [`float_literals`]), or `None` where its payload is no float.
pub fn compile(text: &str, native_little: bool, floats: &Vec<Option<u64>>) -> (r: Result<
    Vec<u8>,
    CompileError,
>)
    ensures
        match compile_spec(text@, native_little, floats@) {
            Ok(b) => r matches Ok(v) && v@ == b,
            Err((k, p)) => r == Err::<Vec<u8>, CompileError>(CompileError { kind: k, at: p as usize }),
        },
{
    let cs = chars_of(text);
    match scan(&cs, native_little, floats) {
        Err(e) => Err(e),
        Ok(sc) => match sc.missing {
            Some(p) => Err(CompileError { kind: ErrorKind::MissingFloat, at: p }),
            None => Ok(sc.out),
        },
    }
}

/// The float literals of a unit, in order, whose bit patterns [`compile`] needs.
pub fn float_literals(text: &str) -> (r: Result<Vec<FloatLiteral>, CompileError>)
    ensures
        match float_literals_spec(text@) {
            Ok(fs) => r matches Ok(v) && literal_views(v@) == fs,
            Err((k, p)) => r matches Err(e) && e == (CompileError { kind: k, at: p as usize }),
        },
{
    let cs = chars_of(text);
    let none: Vec<Option<u64>> = Vec::new();
    match scan(&cs, false, &none) {
        Err(e) => Err(e),
        Ok(sc) => Ok(sc.floats_seen),
    }
}

/// An integer literal is emitted as bytes that, read back under the byte order
/// in force and the signedness of its type, give the literal's value again.
pub proof fn lemma_literal_round_trip(
    s: ScanState,
    t: AbsType,
    n: nat,
    signed: bool,
    v: int,
    at: nat,
    native_little: bool,
    floats: Seq<Option<u64>>,
)
    requires
        int_layout(t) == Some((n, signed)),
        parse_int(s.number, n, signed) == Some(v),
    ensures
        ({
            let little = little_for(s.endian, native_little);
            let r = emit(s, t, at, native_little, floats);
            &&& r is Ok
            &&& r->Ok_0.out == s.out + int_bytes(v, n, little)
            &&& int_bytes(v, n, little).len() == n
            &&& int_value(int_bytes(v, n, little), little, signed) == v
        }),
{
    lemma_int_round_trip(v, n, little_for(s.endian, native_little), signed);
}

/// `[ENDIAN SMALL]` always fails with its own diagnostic, and an `ENDIAN` value
/// that names no byte order fails with another.
pub proof fn lemma_endian_small(s: ScanState, at: nat, native_little: bool, floats: Seq<Option<u64>>)
    requires
        s.mode == Mode::SettingValue,
        s.name == "ENDIAN"@,
    ensures
        s.value == "SMALL"@ ==> step(s, ']', at, native_little, floats) == Err::<ScanState, ErrorKind>(
            ErrorKind::SmallEndian,
        ),
        s.value.len() > 0 && s.value != "SMALL"@ && s.value != "DEFAULT"@ && s.value != "BIG"@
            && s.value != "LITTLE"@ && s.value != "SYSTEM"@ ==> step(
            s,
            ']',
            at,
            native_little,
            floats,
        ) == Err::<ScanState, ErrorKind>(ErrorKind::UnknownEndian),
        ErrorKind::SmallEndian != ErrorKind::UnknownEndian,
{
    reveal_strlit("SMALL");
    reveal_strlit("DEFAULT");
    reveal_strlit("BIG");
    reveal_strlit("LITTLE");
    reveal_strlit("SYSTEM");
}

/// After a directive `[x T]` that binds the alias `x` to the absolute type name
/// `T`, a literal tagged `x` ends exactly as the same literal tagged `T`: the same
/// bytes, or the same failure.
pub proof fn lemma_alias_same_bytes(
    s: ScanState,
    u: ScanState,
    at: nat,
    native_little: bool,
    floats: Seq<Option<u64>>,
)
    requires
        s.mode == Mode::SettingValue,
        is_alias_name(s.name),
        abs_type_of(s.name) is None,
        abs_type_of(s.value) is Some,
        u.aliases == s.aliases.push((s.name, s.value)),
    ensures
        apply_setting(s) is Ok,
        apply_setting(s)->Ok_0.aliases == u.aliases,
        close_token(ScanState { tag: s.name, ..u }, at, native_little, floats) == close_token(
            ScanState { tag: s.value, ..u },
            at,
            native_little,
            floats,
        ),
{
    reveal_strlit("ENDIAN");
    reveal_strlit("AUTO");
    reveal_strlit("\"");
    reveal_strlit("u8");
    reveal_strlit("u16");
    reveal_strlit("u32");
    reveal_strlit("u64");
    reveal_strlit("i8");
    reveal_strlit("i16");
    reveal_strlit("i32");
    reveal_strlit("i64");
    reveal_strlit("f32");
    reveal_strlit("f64");
    reveal_strlit("\"UTF8");
    reveal_strlit("\"ASCII");
    reveal_strlit("\"UTF16");
    assert(!('a' <= 'E' <= 'z') && !('0' <= 'E' <= '9'));
    assert(!('a' <= 'A' <= 'z') && !('0' <= 'A' <= '9'));
    assert(!('a' <= '"' <= 'z') && !('0' <= '"' <= '9'));
    assert(s.name[0] == 'E' ==> !is_alias_name(s.name));
    assert(s.name[0] == 'A' ==> !is_alias_name(s.name));
    assert(s.name != "ENDIAN"@);
    assert(s.name != "AUTO"@);
    assert(s.value[0] == '"' ==> s.value.len() >= 5);
    let x = ScanState { tag: s.name, ..u };
    let y = ScanState { tag: s.value, ..u };
    assert(literal_type_name(x) == s.name);
    assert(literal_type_name(y) == s.value);
    let t = u.aliases;
    assert(t.last() == (s.name, s.value));
    assert(lookup(t, s.name) == Some(s.value));
    assert(resolve_walk(t, s.name, t.len()) == resolve_walk(t, s.value, (t.len() - 1) as nat));
}

/// Adding one character runs one more step.
pub proof fn lemma_run_push(cs: Seq<char>, c: char, native_little: bool, floats: Seq<Option<u64>>)
    ensures
        run(cs.push(c), native_little, floats) == match run(cs, native_little, floats) {
            Err(e) => Err(e),
            Ok(s) => match step(s, c, cs.len(), native_little, floats) {
                Ok(s2) => Ok(s2),
                Err(k) => Err((k, cs.len())),
            },
        },
{
    assert(cs.push(c).drop_last() =~= cs);
}

/// Outside a setting, no setting name or value is pending; while a setting's
/// name is read, no value is.
pub open spec fn settings_clean(s: ScanState) -> bool {
    &&& s.mode != Mode::SettingValue ==> s.value.len() == 0
    &&& s.mode != Mode::SettingName && s.mode != Mode::SettingValue ==> s.name.len() == 0
}

pub proof fn lemma_run_clean(cs: Seq<char>, native_little: bool, floats: Seq<Option<u64>>)
    ensures
        run(cs, native_little, floats) matches Ok(s) ==> settings_clean(s),
    decreases cs.len(),
{
    if cs.len() > 0 {
        lemma_run_clean(cs.drop_last(), native_little, floats);
    }
}

/// A character that a setting's name or value may hold.
pub open spec fn is_word_char(c: char) -> bool {
    c != ']' && c != '[' && !is_space(c)
}

proof fn lemma_read_name(
    x: Seq<char>,
    w: Seq<char>,
    s: ScanState,
    native_little: bool,
    floats: Seq<Option<u64>>,
)
    requires
        run(x, native_little, floats) == Ok::<ScanState, (ErrorKind, nat)>(s),
        s.mode == Mode::SettingName,
        forall|i: int| 0 <= i < w.len() ==> is_word_char(#[trigger] w[i]),
    ensures
        run(x + w, native_little, floats) == Ok::<ScanState, (ErrorKind, nat)>(
            ScanState { name: s.name + w, ..s },
        ),
    decreases w.len(),
{
    if w.len() == 0 {
        assert(x + w =~= x);
        assert(s.name + w =~= s.name);
    } else {
        let v = w.drop_last();
        lemma_read_name(x, v, s, native_little, floats);
        assert(x + w =~= (x + v).push(w.last()));
        assert(is_word_char(w[w.len() - 1]));
        lemma_run_push(x + v, w.last(), native_little, floats);
        assert((s.name + v).push(w.last()) =~= s.name + w);
    }
}

proof fn lemma_read_value(
    x: Seq<char>,
    w: Seq<char>,
    s: ScanState,
    native_little: bool,
    floats: Seq<Option<u64>>,
)
    requires
        run(x, native_little, floats) == Ok::<ScanState, (ErrorKind, nat)>(s),
        s.mode == Mode::SettingValue,
        forall|i: int| 0 <= i < w.len() ==> is_word_char(#[trigger] w[i]),
    ensures
        run(x + w, native_little, floats) == Ok::<ScanState, (ErrorKind, nat)>(
            ScanState { value: s.value + w, ..s },
        ),
    decreases w.len(),
{
    if w.len() == 0 {
        assert(x + w =~= x);
        assert(s.value + w =~= s.value);
    } else {
        let v = w.drop_last();
        lemma_read_value(x, v, s, native_little, floats);
        assert(x + w =~= (x + v).push(w.last()));
        assert(is_word_char(w[w.len() - 1]));
        lemma_run_push(x + v, w.last(), native_little, floats);
        assert((s.value + v).push(w.last()) =~= s.value + w);
    }
}

/// Whatever comes before and after it, `[ENDIAN SMALL]` written where a token
/// may start makes the unit fail with the diagnostic for `SMALL`, found at its `]`.
pub proof fn lemma_endian_small_fails(
    before: Seq<char>,
    after: Seq<char>,
    native_little: bool,
    floats: Seq<Option<u64>>,
)
    requires
        run(before, native_little, floats) matches Ok(s) && s.mode == Mode::Start && s.depth == 0
            && s.number.len() == 0,
    ensures
        compile_spec(before + "[ENDIAN SMALL]"@ + after, native_little, floats) == Err::<
            Seq<u8>,
            (ErrorKind, nat),
        >((ErrorKind::SmallEndian, before.len() + 13)),
{
    reveal_strlit("[ENDIAN SMALL]");
    reveal_strlit("ENDIAN");
    reveal_strlit("SMALL");
    reveal_strlit("DEFAULT");
    reveal_strlit("BIG");
    reveal_strlit("LITTLE");
    reveal_strlit("SYSTEM");
    let s0 = run(before, native_little, floats)->Ok_0;
    lemma_run_clean(before, native_little, floats);
    let q = "[ENDIAN SMALL]"@;
    // `[` opens the setting.
    let x1 = before.push('[');
    lemma_run_push(before, '[', native_little, floats);
    let s1 = ScanState { mode: Mode::SettingName, ..s0 };
    assert(run(x1, native_little, floats) == Ok::<ScanState, (ErrorKind, nat)>(s1));
    // The name.
    let name = "ENDIAN"@;
    assert forall|i: int| 0 <= i < name.len() implies is_word_char(#[trigger] name[i]) by {}
    lemma_read_name(x1, name, s1, native_little, floats);
    let s2 = ScanState { name: s1.name + name, ..s1 };
    assert(s0.name + name =~= name);
    assert(run(x1 + name, native_little, floats) == Ok::<ScanState, (ErrorKind, nat)>(s2));
    assert(s2.name == name);
    // One space, then the value.
    let x2 = x1 + name;
    lemma_run_push(x2, ' ', native_little, floats);
    let x3 = x2.push(' ');
    let s3 = ScanState { mode: Mode::SettingValue, ..s2 };
    assert(is_space(' '));
    assert(step(s2, ' ', x2.len(), native_little, floats) == Ok::<ScanState, ErrorKind>(s3));
    assert(run(x3, native_little, floats) == Ok::<ScanState, (ErrorKind, nat)>(s3));
    let value = "SMALL"@;
    assert forall|i: int| 0 <= i < value.len() implies is_word_char(#[trigger] value[i]) by {}
    lemma_read_value(x3, value, s3, native_little, floats);
    let s4 = ScanState { value: s3.value + value, ..s3 };
    assert(s0.value + value =~= value);
    assert(s4.value == value);
    assert(s4.name == name);
    assert(apply_setting(s4) == Err::<ScanState, ErrorKind>(ErrorKind::SmallEndian));
    assert(step(s4, ']', (x3 + value).len(), native_little, floats) == Err::<ScanState, ErrorKind>(
        ErrorKind::SmallEndian,
    ));
    // `]` closes it, and the unit fails there.
    let x4 = x3 + value;
    lemma_run_push(x4, ']', native_little, floats);
    let x5 = x4.push(']');
    assert(x4.len() == before.len() + 13);
    assert(run(x5, native_little, floats) == Err::<ScanState, (ErrorKind, nat)>(
        (ErrorKind::SmallEndian, before.len() + 13),
    ));
    assert(x5 =~= before + q);
    assert(x5.len() == before.len() + 14);
    let full = before + q + after;
    assert(full.subrange(0, x5.len() as int) =~= x5);
    lemma_run_failure_stays(full, x5.len() as int, native_little, floats);
}

} // verus!
