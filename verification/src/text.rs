//! Text helpers that the widgets share: white space, trimming, and folding
//! text for searches that ignore case and Turkish letters.
use vstd::prelude::*;
use vstd::string::StrSliceExecFns;

verus! {

/// White space in the sense of Unicode's White_Space property, as Rust's
/// `char::is_whitespace` has it.
pub open spec fn is_white(c: char) -> bool {
    ||| '\u{9}' <= c <= '\u{d}'
    ||| c == ' '
    ||| c == '\u{85}'
    ||| c == '\u{a0}'
    ||| c == '\u{1680}'
    ||| '\u{2000}' <= c <= '\u{200a}'
    ||| c == '\u{2028}'
    ||| c == '\u{2029}'
    ||| c == '\u{202f}'
    ||| c == '\u{205f}'
    ||| c == '\u{3000}'
}

pub fn is_whitespace(c: char) -> (r: bool)
    ensures
        r == is_white(c),
{
    ('\u{9}' <= c && c <= '\u{d}') || c == ' ' || c == '\u{85}' || c == '\u{a0}' || c == '\u{1680}'
        || ('\u{2000}' <= c && c <= '\u{200a}') || c == '\u{2028}' || c == '\u{2029}' || c
        == '\u{202f}' || c == '\u{205f}' || c == '\u{3000}'
}

/// The text without its leading white space.
pub open spec fn trim_start(s: Seq<char>) -> Seq<char>
    decreases s.len(),
{
    if s.len() > 0 && is_white(s[0]) {
        trim_start(s.drop_first())
    } else {
        s
    }
}

/// The text without its trailing white space.
pub open spec fn trim_end(s: Seq<char>) -> Seq<char>
    decreases s.len(),
{
    if s.len() > 0 && is_white(s.last()) {
        trim_end(s.drop_last())
    } else {
        s
    }
}

/// The text without leading and trailing white space.
pub open spec fn trim(s: Seq<char>) -> Seq<char> {
    trim_end(trim_start(s))
}

/// Where the text starts after its leading white space.
fn start_of(s: &str) -> (i: usize)
    ensures
        i <= s@.len(),
        trim_start(s@) == s@.subrange(i as int, s@.len() as int),
{
    let n = s.unicode_len();
    let mut i: usize = 0;
    proof {
        assert(s@.subrange(0, n as int) =~= s@);
    }
    while i < n && is_whitespace(s.get_char(i))
        invariant
            n == s@.len(),
            0 <= i <= n,
            trim_start(s@) == trim_start(s@.subrange(i as int, n as int)),
        decreases n - i,
    {
        proof {
            let t = s@.subrange(i as int, n as int);
            assert(t.drop_first() =~= s@.subrange(i + 1, n as int));
        }
        i = i + 1;
    }
    proof {
        let t = s@.subrange(i as int, n as int);
        if i < n {
            assert(t[0] == s@[i as int]);
        }
    }
    i
}

/// Where the text ends before its trailing white space, from `start` on.
fn end_of(s: &str, start: usize) -> (j: usize)
    requires
        start <= s@.len(),
    ensures
        start <= j <= s@.len(),
        trim_end(s@.subrange(start as int, s@.len() as int)) == s@.subrange(start as int, j as int),
{
    let n = s.unicode_len();
    let mut j: usize = n;
    while j > start && is_whitespace(s.get_char(j - 1))
        invariant
            n == s@.len(),
            start <= j <= n,
            trim_end(s@.subrange(start as int, n as int)) == trim_end(s@.subrange(start as int, j as int)),
        decreases j - start,
    {
        proof {
            let t = s@.subrange(start as int, j as int);
            assert(t.drop_last() =~= s@.subrange(start as int, j - 1));
            assert(t.last() == s@[j - 1]);
        }
        j = j - 1;
    }
    proof {
        let t = s@.subrange(start as int, j as int);
        if j > start {
            assert(t.last() == s@[j - 1]);
        }
    }
    j
}

/// The text without leading and trailing white space.
pub fn trimmed(s: &str) -> (r: &str)
    ensures
        r@ == trim(s@),
{
    let i = start_of(s);
    let j = end_of(s, i);
    s.substring_char(i, j)
}

/// The text without its trailing white space.
pub fn trimmed_end(s: &str) -> (r: &str)
    ensures
        r@ == trim_end(s@),
{
    let j = end_of(s, 0);
    proof {
        assert(s@.subrange(0, s@.len() as int) =~= s@);
    }
    s.substring_char(0, j)
}

/// The text without its leading white space.
pub fn trimmed_start(s: &str) -> (r: &str)
    ensures
        r@ == trim_start(s@),
{
    let i = start_of(s);
    s.substring_char(i, s.unicode_len())
}

/// What std's `char::to_lowercase` makes of the character, written out.
pub uninterp spec fn lower_char(c: char) -> Seq<char>;

/// The character in lower case, written out (std's `char::to_lowercase`).
#[verifier::external_body]
fn char_lowercase(c: char) -> (r: String)
    ensures
        r@ == lower_char(c),
{
    c.to_lowercase().to_string()
}

/// A letter as searches see it: without case, and with the Turkish letters
/// ç, ğ, ı, İ, ö, ş, ü taken as c, g, i, i, o, s, u; lower-case ASCII
/// letters stay. Other letters take their lower case where it is a single
/// character.
pub open spec fn fold_char(c: char) -> char {
    if 'A' <= c <= 'Z' {
        ((c as u32) + 32) as char
    } else if c == 'Ç' || c == 'ç' {
        'c'
    } else if c == 'Ğ' || c == 'ğ' {
        'g'
    } else if c == 'ı' || c == 'İ' {
        'i'
    } else if c == 'Ö' || c == 'ö' {
        'o'
    } else if c == 'Ş' || c == 'ş' {
        's'
    } else if c == 'Ü' || c == 'ü' {
        'u'
    } else if 'a' <= c <= 'z' {
        c
    } else if lower_char(c).len() == 1 {
        lower_char(c)[0]
    } else {
        c
    }
}

/// The text as searches see it.
pub open spec fn fold(s: Seq<char>) -> Seq<char> {
    s.map_values(|c: char| fold_char(c))
}

pub fn fold_letter(c: char) -> (r: char)
    ensures
        r == fold_char(c),
{
    if 'A' <= c && c <= 'Z' {
        let code = c as u32 + 32;
        proof {
            assert(0x61 <= code <= 0x7a);
        }
        char_of(code)
    } else if c == 'Ç' || c == 'ç' {
        'c'
    } else if c == 'Ğ' || c == 'ğ' {
        'g'
    } else if c == 'ı' || c == 'İ' {
        'i'
    } else if c == 'Ö' || c == 'ö' {
        'o'
    } else if c == 'Ş' || c == 'ş' {
        's'
    } else if c == 'Ü' || c == 'ü' {
        'u'
    } else if 'a' <= c && c <= 'z' {
        c
    } else {
        let lower = char_lowercase(c);
        if lower.as_str().unicode_len() == 1 {
            lower.as_str().get_char(0)
        } else {
            c
        }
    }
}

/// The lower-case ASCII letter with the code.
fn char_of(code: u32) -> (c: char)
    requires
        0x61 <= code <= 0x7a,
    ensures
        c == code as char,
{
    let b = code as u8;
    let c = b as char;
    proof {
        assert(c as u32 == code);
    }
    c
}

/// The text folded for searching.
pub fn folded(s: &str) -> (r: Vec<char>)
    ensures
        r@ == fold(s@),
{
    let n = s.unicode_len();
    let mut r: Vec<char> = Vec::new();
    let mut i: usize = 0;
    while i < n
        invariant
            n == s@.len(),
            0 <= i <= n,
            r@ == fold(s@.subrange(0, i as int)),
        decreases n - i,
    {
        let c = fold_letter(s.get_char(i));
        r.push(c);
        proof {
            assert(fold(s@.subrange(0, i + 1)) =~= fold(s@.subrange(0, i as int)).push(fold_char(s@[i as int])));
        }
        i = i + 1;
    }
    proof {
        assert(s@.subrange(0, n as int) =~= s@);
    }
    r
}

/// Whether two texts are the same.
pub fn same_chars(a: &Vec<char>, b: &Vec<char>) -> (r: bool)
    ensures
        r == (a@ == b@),
{
    if a.len() != b.len() {
        return false;
    }
    let mut i: usize = 0;
    while i < a.len()
        invariant
            a@.len() == b@.len(),
            0 <= i <= a@.len(),
            forall|k: int| 0 <= k < i ==> a@[k] == b@[k],
        decreases a@.len() - i,
    {
        if a[i] != b[i] {
            return false;
        }
        i = i + 1;
    }
    proof {
        assert(a@ =~= b@);
    }
    true
}

/// Whether `a` starts with `b`.
pub fn starts_with(a: &Vec<char>, b: &Vec<char>) -> (r: bool)
    ensures
        r == (b@.len() <= a@.len() && a@.subrange(0, b@.len() as int) == b@),
{
    if b.len() > a.len() {
        return false;
    }
    let mut i: usize = 0;
    while i < b.len()
        invariant
            b@.len() <= a@.len(),
            0 <= i <= b@.len(),
            forall|k: int| 0 <= k < i ==> a@[k] == b@[k],
        decreases b@.len() - i,
    {
        if a[i] != b[i] {
            proof {
                assert(a@.subrange(0, b@.len() as int)[i as int] != b@[i as int]);
            }
            return false;
        }
        i = i + 1;
    }
    proof {
        assert(a@.subrange(0, b@.len() as int) =~= b@);
    }
    true
}

/// The decimal digit of a value below ten.
pub open spec fn digit(v: int) -> char {
    ('0' as int + v) as char
}

/// The decimal writing of a number, without leading zeros.
pub open spec fn decimal(n: nat) -> Seq<char>
    decreases n,
{
    if n < 10 {
        seq![digit(n as int)]
    } else {
        decimal(n / 10).push(digit((n % 10) as int))
    }
}

/// Writes a number in decimal.
pub fn decimal_text(n: u64) -> (s: String)
    ensures
        s@ == decimal(n as nat),
{
    let mut digits: Vec<char> = Vec::new();
    let mut m = n;
    // The digits of `n`, lowest first: `decimal(n)` is `decimal(m)` followed
    // by the digits gathered so far, in reverse.
    while m >= 10
        invariant
            decimal(n as nat) == decimal(m as nat) + digits@.reverse(),
        decreases m,
    {
        let d = (m % 10) as u8;
        let c = (48 + d) as char;
        proof {
            assert(c == digit((m % 10) as int));
            assert(decimal(m as nat) == decimal((m / 10) as nat).push(c));
            assert(digits@.push(c).reverse() =~= seq![c] + digits@.reverse());
            assert(decimal((m / 10) as nat).push(c) + digits@.reverse() =~= decimal((m / 10) as nat) + (
            seq![c] + digits@.reverse()));
        }
        digits.push(c);
        m = m / 10;
    }
    let first = (48 + m as u8) as char;
    proof {
        assert(first == digit(m as int));
    }
    let mut s = String::new();
    push_char(&mut s, first);
    let mut i = digits.len();
    proof {
        assert(s@ =~= decimal(m as nat));
        assert(digits@.subrange(0, i as int) =~= digits@);
    }
    while i > 0
        invariant
            0 <= i <= digits@.len(),
            decimal(n as nat) == s@ + digits@.subrange(0, i as int).reverse(),
        decreases i,
    {
        let c = digits[i - 1];
        proof {
            let p = digits@.subrange(0, i as int);
            assert(p.reverse() =~= seq![c] + digits@.subrange(0, i - 1).reverse());
            assert(s@ + p.reverse() =~= s@.push(c) + digits@.subrange(0, i - 1).reverse());
        }
        push_char(&mut s, c);
        i = i - 1;
    }
    proof {
        assert(digits@.subrange(0, 0).reverse() =~= Seq::<char>::empty());
        assert(s@ + Seq::<char>::empty() =~= s@);
    }
    s
}

/// A number below a hundred in two digits, with a leading zero.
pub open spec fn two_digits(n: int) -> Seq<char> {
    seq![digit(n / 10), digit(n % 10)]
}

/// The decimal writing of an integer, with a minus sign if it is negative.
pub open spec fn signed_decimal(n: int) -> Seq<char> {
    if n < 0 {
        seq!['-'] + decimal((-n) as nat)
    } else {
        decimal(n as nat)
    }
}

/// Appends a number below a hundred in two digits.
pub(crate) fn push_two_digits(s: &mut String, n: u8)
    requires
        n < 100,
    ensures
        final(s)@ == old(s)@ + two_digits(n as int),
{
    push_char(s, (48 + n / 10) as char);
    push_char(s, (48 + n % 10) as char);
    proof {
        assert(final(s)@ =~= old(s)@ + two_digits(n as int));
    }
}

/// Appends a number in decimal.
pub(crate) fn push_decimal(s: &mut String, n: u64)
    ensures
        final(s)@ == old(s)@ + decimal(n as nat),
{
    let digits = decimal_text(n);
    s.append(digits.as_str());
}

/// Appends an integer in decimal, with a minus sign if it is negative.
pub(crate) fn push_signed(s: &mut String, n: i64)
    requires
        n > i64::MIN,
    ensures
        final(s)@ == old(s)@ + signed_decimal(n as int),
{
    if n < 0 {
        push_char(s, '-');
        push_decimal(s, (-n) as u64);
        proof {
            assert(final(s)@ =~= old(s)@ + signed_decimal(n as int));
        }
    } else {
        push_decimal(s, n as u64);
    }
}

/// Appends a character to the text (Rust's `String::push`).
#[verifier::external_body]
pub(crate) fn push_char(s: &mut String, c: char)
    ensures
        final(s)@ == old(s)@.push(c),
{
    s.push(c)
}

} // verus!
