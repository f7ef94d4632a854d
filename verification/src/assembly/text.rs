use vstd::prelude::*;

verus! {

/// Whether `c` is white space in the sense of `char::is_whitespace`.
pub uninterp spec fn char_is_whitespace(c: char) -> bool;

/// Whether `c` is a letter or a number in the sense of `char::is_alphanumeric`.
pub uninterp spec fn char_is_alphanumeric(c: char) -> bool;

/// Whether `c` is a number in the sense of `char::is_numeric`.
pub uninterp spec fn char_is_numeric(c: char) -> bool;

/// The text that the `Debug` formatting of a string slice produces for `s`:
/// the text between double quotes, with the characters escaped that need it.
pub uninterp spec fn debug_quoted(s: Seq<char>) -> Seq<char>;

/// What the parser asks of a character: whether it is white space, a
/// letter or a number, and a number.
#[derive(Debug, Clone, Copy, PartialEq, Eq, Structural)]
pub struct CharClass {
    pub whitespace: bool,
    pub alphanumeric: bool,
    pub numeric: bool,
}

/// The class of `c` as `char::is_whitespace`, `char::is_alphanumeric` and
/// `char::is_numeric` give it.
pub open spec fn class_of(c: char) -> CharClass {
    CharClass {
        whitespace: char_is_whitespace(c),
        alphanumeric: char_is_alphanumeric(c),
        numeric: char_is_numeric(c),
    }
}

/// The classes of the characters of `s`, in order.
pub open spec fn classes_of(s: Seq<char>) -> Seq<CharClass> {
    Seq::new(s.len(), |i: int| class_of(s[i]))
}

/// Calls `char::is_whitespace`. Not proved: that the answer depends on the
/// character alone, which is all that the name `char_is_whitespace` says.
#[verifier::external_body]
pub(crate) fn is_whitespace(c: char) -> (r: bool)
    ensures
        r == char_is_whitespace(c),
{
    c.is_whitespace()
}

/// Calls `char::is_alphanumeric`. Not proved: that the answer depends on
/// the character alone, which is all that the name `char_is_alphanumeric`
/// says.
#[verifier::external_body]
pub(crate) fn is_alphanumeric(c: char) -> (r: bool)
    ensures
        r == char_is_alphanumeric(c),
{
    c.is_alphanumeric()
}

/// Calls `char::is_numeric`. Not proved: that the answer depends on the
/// character alone, which is all that the name `char_is_numeric` says.
#[verifier::external_body]
pub(crate) fn is_numeric(c: char) -> (r: bool)
    ensures
        r == char_is_numeric(c),
{
    c.is_numeric()
}

/// Calls `String::push`. Not proved: that the string is afterwards what
/// it was with `c` behind it.
#[verifier::external_body]
pub(crate) fn push_char(s: &mut String, c: char)
    ensures
        final(s)@ == old(s)@.push(c),
{
    s.push(c)
}

/// Formats `s` with `{:?}`, that is by `<str as Debug>::fmt`. Not proved:
/// that the text depends on the characters of `s` alone, which is all that
/// the name `debug_quoted` says.
#[verifier::external_body]
pub(crate) fn quote(s: &str) -> (r: String)
    ensures
        r@ == debug_quoted(s@),
{
    format!("{:?}", s)
}

/// Finds the class of each character.
pub fn classify(chars: &Vec<char>) -> (classes: Vec<CharClass>)
    ensures
        classes@ == classes_of(chars@),
{
    let mut classes: Vec<CharClass> = Vec::new();
    let mut i: usize = 0;
    while i < chars.len()
        invariant
            i <= chars.len(),
            classes.len() == i,
            forall|j: int| 0 <= j < i ==> classes@[j] == class_of(chars@[j]),
        decreases chars.len() - i,
    {
        let c = chars[i];
        classes.push(
            CharClass {
                whitespace: is_whitespace(c),
                alphanumeric: is_alphanumeric(c),
                numeric: is_numeric(c),
            },
        );
        i += 1;
    }
    assert(classes@ =~= classes_of(chars@));
    classes
}

/// The characters of `s`, in order.
pub fn chars_of(s: &str) -> (v: Vec<char>)
    ensures
        v@ == s@,
{
    let mut v: Vec<char> = Vec::new();
    for c in it: s.chars()
        invariant
            v@ == it.seq().take(it.index() as int),
    {
        v.push(c);
    }
    v
}

/// The string made of `chars[from..to]`.
pub fn string_of(chars: &Vec<char>, from: usize, to: usize) -> (s: String)
    requires
        from <= to <= chars.len(),
    ensures
        s@ == chars@.subrange(from as int, to as int),
{
    let mut s = String::new();
    let mut i: usize = from;
    while i < to
        invariant
            from <= i <= to <= chars.len(),
            s@ == chars@.subrange(from as int, i as int),
        decreases to - i,
    {
        push_char(&mut s, chars[i]);
        i += 1;
    }
    s
}

/// Whether `s` holds exactly the text `lit`.
pub fn is_text(s: &String, lit: &str) -> (r: bool)
    ensures
        r == (s@ == lit@),
{
    let t = String::from_str(lit);
    *s == t
}

/// The character that stands for the digit `d` in base ten.
pub open spec fn digit_char(d: nat) -> char
    recommends
        d < 10,
{
    ((48 + d) as u8) as char
}

/// The decimal notation of `n`, without leading zeros.
pub open spec fn decimal_text(n: nat) -> Seq<char>
    decreases n,
{
    if n < 10 {
        seq![digit_char(n)]
    } else {
        decimal_text(n / 10).push(digit_char(n % 10))
    }
}

/// Writes `n` in decimal notation.
pub fn decimal(n: u64) -> (s: String)
    ensures
        s@ == decimal_text(n as nat),
    decreases n,
{
    if n < 10 {
        let mut s = String::new();
        push_char(&mut s, (48u8 + n as u8) as char);
        s
    } else {
        let mut s = decimal(n / 10);
        push_char(&mut s, (48u8 + (n % 10) as u8) as char);
        s
    }
}

/// Whether `c` is one of `0`-`9`, `a`-`f`, `A`-`F`.
pub open spec fn is_hex_digit(c: char) -> bool {
    ('0' <= c && c <= '9') || ('a' <= c && c <= 'f') || ('A' <= c && c <= 'F')
}

/// Decides `is_hex_digit`.
pub fn hex_digit(c: char) -> (r: bool)
    ensures
        r == is_hex_digit(c),
{
    ('0' <= c && c <= '9') || ('a' <= c && c <= 'f') || ('A' <= c && c <= 'F')
}

/// The character that stands for the digit `d` in base sixteen.
pub open spec fn hex_digit_char(d: nat, upper: bool) -> char
    recommends
        d < 16,
{
    if d < 10 {
        ((48 + d) as u8) as char
    } else if upper {
        ((55 + d) as u8) as char
    } else {
        ((87 + d) as u8) as char
    }
}

/// The hexadecimal notation of `n`, without prefix and leading zeros, in
/// capital letters where `upper` is set.
pub open spec fn hex_text(n: nat, upper: bool) -> Seq<char>
    decreases n,
{
    if n < 16 {
        seq![hex_digit_char(n, upper)]
    } else {
        hex_text(n / 16, upper).push(hex_digit_char(n % 16, upper))
    }
}

fn hex_digit_of(d: u8, upper: bool) -> (c: char)
    requires
        d < 16,
    ensures
        c == hex_digit_char(d as nat, upper),
{
    if d < 10 {
        (48u8 + d) as char
    } else if upper {
        (55u8 + d) as char
    } else {
        (87u8 + d) as char
    }
}

/// Writes `n` in hexadecimal notation.
pub fn hex(n: u64, upper: bool) -> (s: String)
    ensures
        s@ == hex_text(n as nat, upper),
    decreases n,
{
    if n < 16 {
        let mut s = String::new();
        push_char(&mut s, hex_digit_of(n as u8, upper));
        s
    } else {
        let mut s = hex(n / 16, upper);
        push_char(&mut s, hex_digit_of((n % 16) as u8, upper));
        s
    }
}

} // verus!
