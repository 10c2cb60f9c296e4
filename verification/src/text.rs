//! Characters and string slices as the parsers see them.
//!
//! Every text is modelled as the sequence of its characters. Positions and
//! lengths in this crate count characters, never bytes.

use vstd::prelude::*;

verus! {

/// Assumed of the standard library, not proved: `String::push` appends the
/// given character to the end of the string and changes nothing else of it.
pub assume_specification[ std::string::String::push ](
    s: &mut std::string::String,
    ch: std::primitive::char,
)
    ensures
        final(s)@ == old(s)@.push(ch),
;

////////////////////////////////////////////////////////////////////////////////
// Character classes
////////////////////////////////////////////////////////////////////////////////

/// The characters with the Unicode `White_Space` property.
pub open spec fn spec_is_whitespace(c: char) -> bool {
    let u = c as u32;
    ||| 0x0009 <= u <= 0x000D
    ||| u == 0x0020
    ||| u == 0x0085
    ||| u == 0x00A0
    ||| u == 0x1680
    ||| 0x2000 <= u <= 0x200A
    ||| u == 0x2028
    ||| u == 0x2029
    ||| u == 0x202F
    ||| u == 0x205F
    ||| u == 0x3000
}

/// Returns true if `c` is a whitespace character.
pub fn is_whitespace(c: char) -> (b: bool)
    ensures
        b == spec_is_whitespace(c),
{
    let u: u32 = c as u32;
    (0x0009 <= u && u <= 0x000D) || u == 0x0020 || u == 0x0085 || u == 0x00A0 || u == 0x1680 || (
    0x2000 <= u && u <= 0x200A) || u == 0x2028 || u == 0x2029 || u == 0x202F || u == 0x205F || u
        == 0x3000
}

/// The number that `c` stands for as a digit: `0`-`9` count 0 to 9, and the
/// letters `a`-`z` and `A`-`Z` count 10 to 35. `None` if `c` is no such
/// character.
pub open spec fn spec_digit_number(c: char) -> Option<u32> {
    let u = c as u32;
    if 0x30 <= u <= 0x39 {
        Some((u - 0x30) as u32)
    } else if 0x61 <= u <= 0x7A {
        Some((u - 0x61 + 10) as u32)
    } else if 0x41 <= u <= 0x5A {
        Some((u - 0x41 + 10) as u32)
    } else {
        None
    }
}

/// The value of `c` as a digit in the given radix, or `None` if `c` is not a
/// digit of that radix.
pub open spec fn spec_digit_value(c: char, radix: u32) -> Option<u32> {
    match spec_digit_number(c) {
        Some(d) if d < radix => Some(d),
        _ => None,
    }
}

/// Returns the value of `c` as a digit in the given radix, or `None` if `c` is
/// not a digit of that radix.
pub fn digit_value(c: char, radix: u32) -> (d: Option<u32>)
    ensures
        d == spec_digit_value(c, radix),
{
    let u: u32 = c as u32;
    let number: u32 = if 0x30 <= u && u <= 0x39 {
        u - 0x30
    } else if 0x61 <= u && u <= 0x7A {
        u - 0x61 + 10
    } else if 0x41 <= u && u <= 0x5A {
        u - 0x41 + 10
    } else {
        return None;
    };
    if number < radix {
        Some(number)
    } else {
        None
    }
}

/// The code point of `c` with the ASCII upper case letters mapped to lower
/// case.
pub open spec fn spec_ascii_lowercase(c: char) -> u32 {
    let u = c as u32;
    if 0x41 <= u <= 0x5A {
        (u + 0x20) as u32
    } else {
        u
    }
}

/// Two characters are equal up to ASCII case.
pub open spec fn spec_eq_ignore_ascii_case(a: char, b: char) -> bool {
    spec_ascii_lowercase(a) == spec_ascii_lowercase(b)
}

/// Returns true if `a` and `b` are the same character up to ASCII case.
pub fn eq_ignore_ascii_case(a: char, b: char) -> (r: bool)
    ensures
        r == spec_eq_ignore_ascii_case(a, b),
{
    let ua: u32 = a as u32;
    let ub: u32 = b as u32;
    let la: u32 = if 0x41 <= ua && ua <= 0x5A {
        ua + 0x20
    } else {
        ua
    };
    let lb: u32 = if 0x41 <= ub && ub <= 0x5A {
        ub + 0x20
    } else {
        ub
    };
    la == lb
}

////////////////////////////////////////////////////////////////////////////////
// Slices
////////////////////////////////////////////////////////////////////////////////

/// Returns the number of characters in `text`.
pub fn char_len(text: &str) -> (n: usize)
    ensures
        n == text@.len(),
{
    text.unicode_len()
}

/// Returns the first character of `text`, if it has one.
pub fn first_char(text: &str) -> (c: Option<char>)
    ensures
        c == (if text@.len() > 0 {
            Some(text@[0])
        } else {
            None
        }),
{
    if text.unicode_len() > 0 {
        Some(text.get_char(0))
    } else {
        None
    }
}

/// Returns the first `n` characters of `text`.
pub fn take<'t>(text: &'t str, n: usize) -> (r: &'t str)
    requires
        n <= text@.len(),
    ensures
        r@ == text@.take(n as int),
{
    text.substring_char(0, n)
}

/// Returns `text` without its first `n` characters.
pub fn skip<'t>(text: &'t str, n: usize) -> (r: &'t str)
    requires
        n <= text@.len(),
    ensures
        r@ == text@.skip(n as int),
{
    let len = text.unicode_len();
    text.substring_char(n, len)
}

/// Returns true if `a` and `b` are the same text.
pub fn text_eq(a: &str, b: &str) -> (r: bool)
    ensures
        r == (a@ == b@),
{
    let len = a.unicode_len();
    if b.unicode_len() != len {
        return false;
    }
    let mut i: usize = 0;
    while i < len
        invariant
            len == a@.len(),
            len == b@.len(),
            i <= len,
            forall|j: int| 0 <= j < i ==> a@[j] == b@[j],
        decreases len - i,
    {
        if a.get_char(i) != b.get_char(i) {
            return false;
        }
        i += 1;
    }
    assert(a@ =~= b@);
    true
}

/// True if every character of `s` is whitespace.
pub open spec fn spec_all_whitespace(s: Seq<char>) -> bool {
    forall|i: int| 0 <= i < s.len() ==> spec_is_whitespace(#[trigger] s[i])
}

/// Returns true if `text` holds nothing but whitespace.
pub fn all_whitespace(text: &str) -> (b: bool)
    ensures
        b == spec_all_whitespace(text@),
{
    let len = text.unicode_len();
    let mut i: usize = 0;
    while i < len
        invariant
            len == text@.len(),
            i <= len,
            forall|j: int| 0 <= j < i ==> spec_is_whitespace(#[trigger] text@[j]),
        decreases len - i,
    {
        if !is_whitespace(text.get_char(i)) {
            return false;
        }
        i += 1;
    }
    true
}

/// The number of whitespace characters at the start of `s`.
pub open spec fn leading_whitespace(s: Seq<char>) -> nat
    decreases s.len(),
{
    if s.len() > 0 && spec_is_whitespace(s[0]) {
        1 + leading_whitespace(s.skip(1))
    } else {
        0
    }
}

/// The number of whitespace characters at the end of `s`.
pub open spec fn trailing_whitespace(s: Seq<char>) -> nat
    decreases s.len(),
{
    if s.len() > 0 && spec_is_whitespace(s.last()) {
        1 + trailing_whitespace(s.drop_last())
    } else {
        0
    }
}

/// `s` without the whitespace at its start and at its end.
pub open spec fn spec_trim(s: Seq<char>) -> Seq<char> {
    let t = s.skip(leading_whitespace(s) as int);
    t.take(t.len() - trailing_whitespace(t))
}

/// The leading whitespace of `s` is a run of exactly `n` whitespace
/// characters when the first `n` characters are whitespace and the next one,
/// if there is one, is not.
pub proof fn lemma_leading_whitespace(s: Seq<char>, n: int)
    requires
        0 <= n <= s.len(),
        forall|j: int| 0 <= j < n ==> spec_is_whitespace(#[trigger] s[j]),
        n < s.len() ==> !spec_is_whitespace(s[n]),
    ensures
        leading_whitespace(s) == n,
    decreases n,
{
    if n > 0 {
        let t = s.skip(1);
        assert forall|j: int| 0 <= j < n - 1 implies spec_is_whitespace(#[trigger] t[j]) by {
            assert(t[j] == s[j + 1]);
        }
        lemma_leading_whitespace(t, n - 1);
    }
}

/// The trailing whitespace of `s` is a run of exactly `n` whitespace
/// characters when the last `n` characters are whitespace and the one before
/// them, if there is one, is not.
pub proof fn lemma_trailing_whitespace(s: Seq<char>, n: int)
    requires
        0 <= n <= s.len(),
        forall|j: int| s.len() - n <= j < s.len() ==> spec_is_whitespace(#[trigger] s[j]),
        n < s.len() ==> !spec_is_whitespace(s[s.len() - n - 1]),
    ensures
        trailing_whitespace(s) == n,
    decreases n,
{
    if n > 0 {
        let t = s.drop_last();
        assert forall|j: int| t.len() - (n - 1) <= j < t.len() implies spec_is_whitespace(
            #[trigger] t[j],
        ) by {
            assert(t[j] == s[j]);
        }
        lemma_trailing_whitespace(t, n - 1);
    }
}

/// Returns `text` without its leading and trailing whitespace.
pub fn trim<'t>(text: &'t str) -> (r: &'t str)
    ensures
        r@ == spec_trim(text@),
{
    let len = text.unicode_len();
    let mut start: usize = 0;
    while start < len && is_whitespace(text.get_char(start))
        invariant
            len == text@.len(),
            start <= len,
            forall|j: int| 0 <= j < start ==> spec_is_whitespace(#[trigger] text@[j]),
        decreases len - start,
    {
        start += 1;
    }
    proof {
        lemma_leading_whitespace(text@, start as int);
    }
    let tail = text.substring_char(start, len);
    let tail_len = len - start;
    let mut end: usize = tail_len;
    while end > 0 && is_whitespace(tail.get_char(end - 1))
        invariant
            tail_len == tail@.len(),
            end <= tail_len,
            forall|j: int| end <= j < tail_len ==> spec_is_whitespace(#[trigger] tail@[j]),
        decreases end,
    {
        end -= 1;
    }
    proof {
        lemma_trailing_whitespace(tail@, tail_len - end);
    }
    tail.substring_char(0, end)
}

////////////////////////////////////////////////////////////////////////////////
// Building texts
////////////////////////////////////////////////////////////////////////////////

/// The character that writes the digit `d`, for `d` below ten.
pub open spec fn spec_decimal_digit(d: nat) -> char {
    ((0x30 + d) as u8) as char
}

/// The decimal notation of `n`, without leading zeros.
pub open spec fn spec_decimal(n: nat) -> Seq<char>
    decreases n,
{
    if n < 10 {
        seq![spec_decimal_digit(n)]
    } else {
        spec_decimal(n / 10).push(spec_decimal_digit(n % 10))
    }
}

/// Appends the decimal notation of `n` to `out`.
pub fn push_decimal(out: &mut String, n: u128)
    ensures
        final(out)@ == old(out)@ + spec_decimal(n as nat),
    decreases n,
{
    if n >= 10 {
        push_decimal(out, n / 10);
    }
    let d: u8 = (n % 10) as u8;
    out.push((0x30 + d) as char);
    assert(final(out)@ =~= old(out)@ + spec_decimal(n as nat));
}

/// Returns the text that holds the single character `c`.
pub fn char_text(c: char) -> (r: String)
    ensures
        r@ == seq![c],
{
    let mut r = String::new();
    r.push(c);
    assert(r@ =~= seq![c]);
    r
}

/// Returns the concatenation of `head` and `tail`.
pub fn concat2(head: &str, tail: &str) -> (r: String)
    ensures
        r@ == head@ + tail@,
{
    String::from_str(head).concat(tail)
}

////////////////////////////////////////////////////////////////////////////////
// Text
////////////////////////////////////////////////////////////////////////////////

/// A text that is either borrowed or owned.
#[derive(Debug)]
pub enum Text<'a> {
    /// A borrowed string slice.
    Borrowed(&'a str),
    /// An owned string.
    Owned(String),
}

impl<'a> View for Text<'a> {
    type V = Seq<char>;

    open spec fn view(&self) -> Seq<char> {
        match self {
            Text::Borrowed(s) => s@,
            Text::Owned(s) => s@,
        }
    }
}

impl<'a> DeepView for Text<'a> {
    type V = Seq<char>;

    open spec fn deep_view(&self) -> Seq<char> {
        self@
    }
}

impl<'a> Text<'a> {
    /// Returns the text as a string slice.
    pub fn as_str(&self) -> (r: &str)
        ensures
            r@ == self@,
    {
        match self {
            Text::Borrowed(s) => s,
            Text::Owned(s) => s.as_str(),
        }
    }

    /// Returns the text as an owned string, copying it if it is borrowed.
    pub fn into_owned(self) -> (r: String)
        ensures
            r@ == self@,
    {
        match self {
            Text::Borrowed(s) => s.to_owned(),
            Text::Owned(s) => s,
        }
    }

    /// Returns the same text with nothing borrowed.
    pub fn into_static(self) -> (r: Text<'static>)
        ensures
            r@ == self@,
            r is Owned,
    {
        Text::Owned(self.into_owned())
    }

    /// Returns a copy of the text.
    pub fn duplicate(&self) -> (r: Text<'a>)
        ensures
            r@ == self@,
    {
        match self {
            Text::Borrowed(s) => Text::Borrowed(s),
            Text::Owned(s) => Text::Owned(s.clone()),
        }
    }
}

} // verus!
