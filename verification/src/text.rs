//! Characters, white space and numbers: the small things that the rest of
//! the library is written with.

use vstd::prelude::*;
use vstd::utf8::{decode_utf8, valid_utf8};

verus! {

/// Appending one character, as `String::push` is documented to do.
pub assume_specification[ String::push ](s: &mut String, c: char)
    ensures
        final(s)@ == old(s)@.push(c),
;

/// `String::from_utf8`: the text that the bytes encode, where they are valid
/// UTF-8, and nothing where they are not.
#[verifier::external_body]
pub(crate) fn decode_text(bytes: Vec<u8>) -> (text: Option<String>)
    ensures
        text is Some <==> valid_utf8(bytes@),
        text matches Some(s) ==> s@ == decode_utf8(bytes@),
{
    match String::from_utf8(bytes) {
        Ok(s) => Some(s),
        Err(_) => None,
    }
}

/// The text that holds `c` and nothing else.
pub fn text_of_char(c: char) -> (s: String)
    ensures
        s@ == seq![c],
{
    let mut s = String::new();
    s.push(c);
    assert(s@ =~= seq![c]);
    s
}

/// Whether `c` is a white-space character in the sense of Unicode.
pub open spec fn is_space(c: char) -> bool {
    let n = c as u32;
    ||| 0x09 <= n <= 0x0D
    ||| n == 0x20
    ||| n == 0x85
    ||| n == 0xA0
    ||| n == 0x1680
    ||| 0x2000 <= n <= 0x200A
    ||| n == 0x2028
    ||| n == 0x2029
    ||| n == 0x202F
    ||| n == 0x205F
    ||| n == 0x3000
}

/// Whether `c` is white space.
pub fn is_whitespace(c: char) -> (b: bool)
    ensures
        b == is_space(c),
{
    let n: u32 = c as u32;
    (0x09 <= n && n <= 0x0D) || n == 0x20 || n == 0x85 || n == 0xA0 || n == 0x1680 || (0x2000 <= n
        && n <= 0x200A) || n == 0x2028 || n == 0x2029 || n == 0x202F || n == 0x205F || n == 0x3000
}

/// Whether the byte, read as a character of its own, is white space.
pub open spec fn is_space_byte(b: u8) -> bool {
    is_space(b as char)
}

/// Whether the byte, read as a character of its own, is white space.
pub fn is_whitespace_byte(b: u8) -> (r: bool)
    ensures
        r == is_space_byte(b),
{
    is_whitespace(b as char)
}

/// The characters of `s`.
pub fn chars_of(s: &str) -> (v: Vec<char>)
    ensures
        v@ == s@,
{
    broadcast use vstd::string::group_string_axioms;

    let mut v: Vec<char> = Vec::new();
    for c in it: s.chars()
        invariant
            it.seq() == s@,
            v@ == it.seq().take(it.index() as int),
    {
        v.push(c);
        assert(v@ =~= it.seq().take(it.index() + 1));
    }
    assert(v@ =~= s@);
    v
}

/// The text that the characters make.
pub fn text_of(v: &Vec<char>) -> (s: String)
    ensures
        s@ == v@,
{
    let mut s = String::new();
    let mut i: usize = 0;
    while i < v.len()
        invariant
            i <= v.len(),
            s@ == v@.take(i as int),
        decreases v.len() - i,
    {
        s.push(v[i]);
        i = i + 1;
    }
    s
}

/// Whether `c` belongs to a line terminator: a line feed or a carriage return.
pub open spec fn is_eol(c: char) -> bool {
    c == '\n' || c == '\r'
}

/// `s` without the line feeds and carriage returns at its end.
pub open spec fn chomp(s: Seq<char>) -> Seq<char>
    decreases s.len(),
{
    if s.len() > 0 && is_eol(s.last()) {
        chomp(s.drop_last())
    } else {
        s
    }
}

/// The line feeds and carriage returns at the end of `s`.
pub open spec fn terminator(s: Seq<char>) -> Seq<char> {
    s.skip(chomp(s).len() as int)
}

/// `chomp` cuts `s` in two: what it keeps, which is the start of `s`, and the
/// terminator, which holds line feeds and carriage returns only.
pub proof fn lemma_chomp_splits(s: Seq<char>)
    ensures
        chomp(s).len() <= s.len(),
        chomp(s) == s.take(chomp(s).len() as int),
        chomp(s) + terminator(s) == s,
        forall|i: int| 0 <= i < terminator(s).len() ==> is_eol(#[trigger] terminator(s)[i]),
        chomp(s).len() > 0 ==> !is_eol(chomp(s).last()),
    decreases s.len(),
{
    if s.len() > 0 && is_eol(s.last()) {
        let t = s.drop_last();
        lemma_chomp_splits(t);
        assert(chomp(s) =~= s.take(chomp(s).len() as int));
        assert forall|i: int| 0 <= i < terminator(s).len() implies is_eol(
            #[trigger] terminator(s)[i],
        ) by {
            if i < terminator(t).len() {
                assert(terminator(s)[i] == terminator(t)[i]);
            }
        }
    } else {
        assert(chomp(s) =~= s.take(chomp(s).len() as int));
    }
    assert(chomp(s) + terminator(s) =~= s);
}

/// Removes the line feeds and carriage returns at the end of `v`.
pub fn chomp_in_place(v: &mut Vec<char>)
    ensures
        final(v)@ == chomp(old(v)@),
{
    while v.len() > 0 && (v[v.len() - 1] == '\n' || v[v.len() - 1] == '\r')
        invariant
            chomp(v@) == chomp(old(v)@),
        decreases v.len(),
    {
        v.pop();
    }
}

/// The number of white-space characters at the start of `row`.
pub open spec fn indent(row: Seq<char>) -> nat
    decreases row.len(),
{
    if row.len() > 0 && is_space(row[0]) {
        1 + indent(row.skip(1))
    } else {
        0
    }
}

/// The indentation ends at the first character that is no white space.
pub proof fn lemma_indent_is(row: Seq<char>, k: int)
    requires
        0 <= k <= row.len(),
        forall|i: int| 0 <= i < k ==> is_space(row[i]),
        k < row.len() ==> !is_space(row[k]),
    ensures
        indent(row) == k,
    decreases k,
{
    if k > 0 {
        let t = row.skip(1);
        assert forall|i: int| 0 <= i < k - 1 implies is_space(t[i]) by {
            assert(t[i] == row[i + 1]);
        }
        lemma_indent_is(t, k - 1);
    }
}

/// The number of white-space characters at the start of `row`.
pub fn indent_of(row: &Vec<char>) -> (n: usize)
    ensures
        n == indent(row@),
{
    let mut n: usize = 0;
    while n < row.len() && is_whitespace(row[n])
        invariant
            n <= row.len(),
            forall|i: int| 0 <= i < n ==> is_space(row[i]),
        decreases row.len() - n,
    {
        n = n + 1;
    }
    proof {
        lemma_indent_is(row@, n as int);
    }
    n
}

/// Whether nothing but white space stands in `row`.
pub open spec fn is_blank(row: Seq<char>) -> bool {
    indent(row) == row.len()
}

/// `c`, `n` times.
pub open spec fn repeated(c: char, n: nat) -> Seq<char> {
    Seq::new(n, |i: int| c)
}

/// Appends `c`, `n` times.
pub fn push_repeated(out: &mut Vec<char>, c: char, n: usize)
    ensures
        final(out)@ == old(out)@ + repeated(c, n as nat),
{
    let mut i: usize = 0;
    while i < n
        invariant
            i <= n,
            out@ == old(out)@ + repeated(c, i as nat),
        decreases n - i,
    {
        out.push(c);
        i = i + 1;
        assert(out@ =~= old(out)@ + repeated(c, i as nat));
    }
}

/// What stands in the line below the first `upto` characters of `row`, so
/// that the columns of both lines agree: white space as it is, a blank for
/// anything else.
pub open spec fn shadow(row: Seq<char>, upto: nat) -> Seq<char> {
    Seq::new(
        if upto <= row.len() {
            upto
        } else {
            row.len()
        },
        |i: int|
            if is_space(row[i]) {
                row[i]
            } else {
                ' '
            },
    )
}

/// Appends what stands below the first `upto` characters of `row`.
pub fn push_shadow(out: &mut Vec<char>, row: &Vec<char>, upto: usize)
    ensures
        final(out)@ == old(out)@ + shadow(row@, upto as nat),
{
    let mut i: usize = 0;
    while i < upto && i < row.len()
        invariant
            i <= upto,
            i <= row.len(),
            out@ == old(out)@ + shadow(row@, i as nat),
        decreases row.len() - i,
    {
        let c = row[i];
        if is_whitespace(c) {
            out.push(c);
        } else {
            out.push(' ');
        }
        i = i + 1;
        assert(out@ =~= old(out)@ + shadow(row@, i as nat));
    }
    assert(shadow(row@, i as nat) =~= shadow(row@, upto as nat));
}

/// The decimal digit for `d`, which is below ten.
pub open spec fn digit(d: nat) -> char {
    (('0' as u8) + d) as char
}

/// `n` written in decimal.
pub open spec fn decimal(n: nat) -> Seq<char>
    decreases n,
{
    if n < 10 {
        seq![digit(n)]
    } else {
        decimal(n / 10).push(digit(n % 10))
    }
}

/// Appends `n` in decimal.
pub fn push_decimal(out: &mut Vec<char>, n: u128)
    ensures
        final(out)@ == old(out)@ + decimal(n as nat),
    decreases n,
{
    if n >= 10 {
        push_decimal(out, n / 10);
    }
    let d: u8 = (n % 10) as u8;
    out.push((48u8 + d) as char);
    assert(out@ =~= old(out)@ + decimal(n as nat));
}

/// Whether `c` is one of the ten decimal digits of ASCII.
pub open spec fn is_digit(c: char) -> bool {
    '0' <= c <= '9'
}

/// The number that the digits of `s` write.
pub open spec fn digits_value(s: Seq<char>) -> nat
    decreases s.len(),
{
    if s.len() == 0 {
        0
    } else {
        10 * digits_value(s.drop_last()) + ((s.last() as u32) - ('0' as u32)) as nat
    }
}

/// Whether `s` is a decimal number: one digit at least, and digits only.
pub open spec fn is_number(s: Seq<char>) -> bool {
    s.len() > 0 && forall|i: int| 0 <= i < s.len() ==> is_digit(#[trigger] s[i])
}

/// The number that `s` writes in decimal, where it writes one that a `usize`
/// can hold.
pub open spec fn number(s: Seq<char>) -> Option<usize> {
    if is_number(s) && digits_value(s) <= usize::MAX {
        Some(digits_value(s) as usize)
    } else {
        None
    }
}

/// More digits do not make a number smaller.
pub proof fn lemma_digits_grow(s: Seq<char>, k: int)
    requires
        0 <= k <= s.len(),
        forall|i: int| 0 <= i < s.len() ==> is_digit(#[trigger] s[i]),
    ensures
        digits_value(s.take(k)) <= digits_value(s),
    decreases s.len() - k,
{
    if k < s.len() {
        assert(s.take(k + 1).drop_last() =~= s.take(k));
        assert(is_digit(s[k]));
        lemma_digits_grow(s, k + 1);
    } else {
        assert(s.take(k) =~= s);
    }
}

/// Reads `s` as a decimal number. `None` where `s` is empty, holds anything
/// but the digits of ASCII, or writes a number that a `usize` cannot hold.
pub fn parse_number(s: &Vec<char>) -> (n: Option<usize>)
    ensures
        n == number(s@),
{
    if s.len() == 0 {
        return None;
    }
    let mut value: usize = 0;
    let mut i: usize = 0;
    while i < s.len()
        invariant
            i <= s.len(),
            forall|j: int| 0 <= j < i ==> is_digit(#[trigger] s[j]),
            value == digits_value(s@.take(i as int)),
        decreases s.len() - i,
    {
        let c = s[i];
        if !('0' <= c && c <= '9') {
            return None;
        }
        let d: usize = (c as u32 - '0' as u32) as usize;
        proof {
            assert(s@.take(i + 1).drop_last() =~= s@.take(i as int));
        }
        let next = match value.checked_mul(10) {
            Some(tenfold) => tenfold.checked_add(d),
            None => None,
        };
        match next {
            Some(v) => {
                value = v;
            },
            None => {
                proof {
                    if is_number(s@) {
                        lemma_digits_grow(s@, i + 1);
                    }
                }
                return None;
            },
        }
        i = i + 1;
    }
    assert(s@.take(i as int) =~= s@);
    Some(value)
}

} // verus!
