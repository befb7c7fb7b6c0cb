//! Numeric input: the pieces an expression is written in, and why an
//! expression could not be evaluated.
use vstd::prelude::*;
use vstd::string::StrSliceExecFns;

verus! {

/// Why an expression could not be evaluated.
#[derive(Debug, Clone, PartialEq, Eq)]
pub enum Error {
    Empty,
    Syntax,
    /// A unit that the field does not know.
    Unit(String),
    DivisionByZero,
}

/// The message shown for each error.
pub open spec fn error_message(e: Error) -> Seq<char> {
    match e {
        Error::Empty => "Bir değer yazın"@,
        Error::Syntax => "Geçersiz ifade"@,
        Error::Unit(unit) => "Bilinmeyen birim: "@ + unit@,
        Error::DivisionByZero => "Sıfıra bölünemez"@,
    }
}

impl Error {
    /// The message shown to the user.
    pub fn message(&self) -> (m: String)
        ensures
            m@ == error_message(*self),
    {
        match self {
            Error::Empty => "Bir değer yazın".to_owned(),
            Error::Syntax => "Geçersiz ifade".to_owned(),
            Error::Unit(unit) => {
                let mut m = "Bilinmeyen birim: ".to_owned();
                m.append(unit.as_str());
                m
            },
            Error::DivisionByZero => "Sıfıra bölünemez".to_owned(),
        }
    }
}

/// A piece of a written expression.
#[derive(Debug, Clone, PartialEq, Eq)]
pub enum Lexeme {
    /// A number as written: digits with decimal commas or points.
    Number(String),
    /// A unit of the field, by its place in the field's list.
    Unit(usize),
    /// A symbol that names none of the field's units.
    Unknown(String),
    Plus,
    Minus,
    Times,
    Divide,
    Open,
    Close,
}

/// A piece of a written expression, its text as characters.
pub enum LexemeView {
    Number(Seq<char>),
    Unit(int),
    Unknown(Seq<char>),
    Plus,
    Minus,
    Times,
    Divide,
    Open,
    Close,
}

impl View for Lexeme {
    type V = LexemeView;

    open spec fn view(&self) -> LexemeView {
        match self {
            Lexeme::Number(text) => LexemeView::Number(text@),
            Lexeme::Unit(k) => LexemeView::Unit(*k as int),
            Lexeme::Unknown(text) => LexemeView::Unknown(text@),
            Lexeme::Plus => LexemeView::Plus,
            Lexeme::Minus => LexemeView::Minus,
            Lexeme::Times => LexemeView::Times,
            Lexeme::Divide => LexemeView::Divide,
            Lexeme::Open => LexemeView::Open,
            Lexeme::Close => LexemeView::Close,
        }
    }
}

/// What std's `char::is_alphabetic` says of the character (Unicode's
/// Alphabetic property).
pub uninterp spec fn alphabetic(c: char) -> bool;

/// What std's `str::to_lowercase` makes of the text.
pub uninterp spec fn lowercase(s: Seq<char>) -> Seq<char>;

/// Whether std counts the character as a letter (`char::is_alphabetic`).
#[verifier::external_body]
fn is_alphabetic(c: char) -> (r: bool)
    ensures
        r == alphabetic(c),
{
    c.is_alphabetic()
}

/// The text in lower case (std's `str::to_lowercase`).
#[verifier::external_body]
fn to_lowercase(s: &str) -> (r: String)
    ensures
        r@ == lowercase(s@),
{
    s.to_lowercase()
}

pub open spec fn is_digit(c: char) -> bool {
    '0' <= c <= '9'
}

/// Characters of a written number: digits, decimal commas and points.
pub open spec fn in_number(c: char) -> bool {
    is_digit(c) || c == '.' || c == ','
}

/// Characters of a unit's name: letters and the micro sign.
pub open spec fn in_word(c: char) -> bool {
    alphabetic(c) || c == 'µ'
}

/// Where the number that goes on at `i` ends.
pub open spec fn number_end(chars: Seq<char>, i: int) -> int
    decreases chars.len() - i,
{
    if 0 <= i < chars.len() && in_number(chars[i]) {
        number_end(chars, i + 1)
    } else {
        i
    }
}

/// Where the word that goes on at `i` ends.
pub open spec fn word_end(chars: Seq<char>, i: int) -> int
    decreases chars.len() - i,
{
    if 0 <= i < chars.len() && in_word(chars[i]) {
        word_end(chars, i + 1)
    } else {
        i
    }
}

/// A number starts at `i`: a digit, or a decimal comma or point before one.
pub open spec fn starts_number(chars: Seq<char>, i: int) -> bool {
    ||| is_digit(chars[i])
    ||| (chars[i] == '.' || chars[i] == ',') && i + 1 < chars.len() && is_digit(chars[i + 1])
}

/// Where the symbol at `i` ends: a unit's name is a run of letters, or a
/// single other character (°, ', ", %).
pub open spec fn symbol_end(chars: Seq<char>, i: int) -> int {
    if in_word(chars[i]) {
        word_end(chars, i)
    } else {
        i + 1
    }
}

/// The first of the names from `k` on that equals `name`.
pub open spec fn first_named(names: Seq<Seq<char>>, name: Seq<char>, k: int) -> Option<int>
    decreases names.len() - k,
{
    if k < 0 || k >= names.len() {
        None
    } else if names[k] == name {
        Some(k)
    } else {
        first_named(names, name, k + 1)
    }
}

/// The unit that a symbol names: the first written the same, else the first
/// that is the same in lower case.
pub open spec fn unit_named(symbols: Seq<Seq<char>>, symbol: Seq<char>) -> Option<int> {
    match first_named(symbols, symbol, 0) {
        Some(k) => Some(k),
        None => first_named(symbols.map_values(|s: Seq<char>| lowercase(s)), lowercase(symbol), 0),
    }
}

/// Runs end after they start, and within the text.
pub proof fn lemma_runs_end(chars: Seq<char>, i: int)
    requires
        0 <= i <= chars.len(),
    ensures
        i <= number_end(chars, i) <= chars.len(),
        i <= word_end(chars, i) <= chars.len(),
        i < chars.len() && in_number(chars[i]) ==> i < number_end(chars, i),
        i < chars.len() && in_word(chars[i]) ==> i < word_end(chars, i),
    decreases chars.len() - i,
{
    if i < chars.len() {
        lemma_runs_end(chars, i + 1);
    }
}

/// The pieces of the text from `i` on: spaces part them and are dropped;
/// signs, operators and brackets stand alone; numbers are runs of digits,
/// commas and points; anything else names a unit.
pub open spec fn lexed(chars: Seq<char>, symbols: Seq<Seq<char>>, i: int) -> Seq<LexemeView>
    decreases chars.len() - i,
{
    if i < 0 || i >= chars.len() {
        Seq::empty()
    } else {
        let c = chars[i];
        if c == ' ' || c == '\u{a0}' {
            lexed(chars, symbols, i + 1)
        } else if c == '+' {
            seq![LexemeView::Plus] + lexed(chars, symbols, i + 1)
        } else if c == '-' || c == '\u{2212}' {
            seq![LexemeView::Minus] + lexed(chars, symbols, i + 1)
        } else if c == '*' || c == '\u{d7}' || c == '\u{b7}' {
            seq![LexemeView::Times] + lexed(chars, symbols, i + 1)
        } else if c == '/' || c == '\u{f7}' || c == ':' {
            seq![LexemeView::Divide] + lexed(chars, symbols, i + 1)
        } else if c == '(' {
            seq![LexemeView::Open] + lexed(chars, symbols, i + 1)
        } else if c == ')' {
            seq![LexemeView::Close] + lexed(chars, symbols, i + 1)
        } else if starts_number(chars, i) {
            let e = number_end(chars, i);
            proof {
                lemma_runs_end(chars, i);
            }
            seq![LexemeView::Number(chars.subrange(i, e))] + lexed(chars, symbols, e)
        } else {
            let e = symbol_end(chars, i);
            proof {
                lemma_runs_end(chars, i);
            }
            let symbol = chars.subrange(i, e);
            seq![
                match unit_named(symbols, symbol) {
                    Some(k) => LexemeView::Unit(k),
                    None => LexemeView::Unknown(symbol),
                },
            ] + lexed(chars, symbols, e)
        }
    }
}

/// The symbols of the units as characters.
pub open spec fn symbol_views(symbols: Seq<String>) -> Seq<Seq<char>> {
    symbols.map_values(|s: String| s@)
}

/// The pieces as views.
pub open spec fn lexeme_views(lexemes: Seq<Lexeme>) -> Seq<LexemeView> {
    lexemes.map_values(|l: Lexeme| l@)
}

fn digit_char(c: char) -> (r: bool)
    ensures
        r == is_digit(c),
{
    '0' <= c && c <= '9'
}

/// The unit that the symbol names, by its place among the symbols.
fn find_unit(symbols: &[String], symbol: &str) -> (r: Option<usize>)
    ensures
        r matches Some(k) ==> unit_named(symbol_views(symbols@), symbol@) == Some(k as int),
        r is None ==> unit_named(symbol_views(symbols@), symbol@) is None,
{
    let ghost names = symbol_views(symbols@);
    let target = symbol.to_owned();
    let mut k: usize = 0;
    while k < symbols.len()
        invariant
            0 <= k <= symbols@.len(),
            names == symbol_views(symbols@),
            target@ == symbol@,
            first_named(names, symbol@, 0) == first_named(names, symbol@, k as int),
        decreases symbols@.len() - k,
    {
        if symbols[k] == target {
            return Some(k);
        }
        k = k + 1;
    }
    let ghost lowered = names.map_values(|s: Seq<char>| lowercase(s));
    let lower = to_lowercase(symbol);
    let mut k: usize = 0;
    while k < symbols.len()
        invariant
            0 <= k <= symbols@.len(),
            names == symbol_views(symbols@),
            lowered == names.map_values(|s: Seq<char>| lowercase(s)),
            lower@ == lowercase(symbol@),
            first_named(names, symbol@, 0) is None,
            first_named(lowered, lower@, 0) == first_named(lowered, lower@, k as int),
        decreases symbols@.len() - k,
    {
        let name = to_lowercase(symbols[k].as_str());
        proof {
            assert(lowered[k as int] == lowercase(symbols@[k as int]@));
        }
        if name == lower {
            return Some(k);
        }
        k = k + 1;
    }
    None
}

/// The pieces that the text is written in, as `lexed` has them; units are
/// looked up among `symbols`.
pub fn lex(text: &str, symbols: &[String]) -> (lexemes: Vec<Lexeme>)
    ensures
        lexeme_views(lexemes@) == lexed(text@, symbol_views(symbols@), 0),
{
    let ghost chars = text@;
    let ghost names = symbol_views(symbols@);
    let n = text.unicode_len();
    let mut lexemes: Vec<Lexeme> = Vec::new();
    let mut i: usize = 0;
    proof {
        assert(lexeme_views(lexemes@) + lexed(chars, names, 0) =~= lexed(chars, names, 0));
    }
    while i < n
        invariant
            i <= n,
            n == chars.len(),
            chars == text@,
            names == symbol_views(symbols@),
            lexed(chars, names, 0) == lexeme_views(lexemes@) + lexed(chars, names, i as int),
        decreases n - i,
    {
        let ghost before = lexemes@;
        let c = text.get_char(i);
        let mut single: Option<Lexeme> = None;
        if c == '+' {
            single = Some(Lexeme::Plus);
        } else if c == '-' || c == '\u{2212}' {
            single = Some(Lexeme::Minus);
        } else if c == '*' || c == '\u{d7}' || c == '\u{b7}' {
            single = Some(Lexeme::Times);
        } else if c == '/' || c == '\u{f7}' || c == ':' {
            single = Some(Lexeme::Divide);
        } else if c == '(' {
            single = Some(Lexeme::Open);
        } else if c == ')' {
            single = Some(Lexeme::Close);
        }
        if c == ' ' || c == '\u{a0}' {
            i = i + 1;
        } else if let Some(lexeme) = single {
            lexemes.push(lexeme);
            proof {
                assert(lexeme_views(lexemes@) =~= lexeme_views(before).push(lexeme@));
                assert(lexed(chars, names, i as int) == seq![lexeme@] + lexed(chars, names, i + 1));
                assert(lexeme_views(before) + (seq![lexeme@] + lexed(chars, names, i + 1))
                    =~= lexeme_views(lexemes@) + lexed(chars, names, i + 1));
            }
            i = i + 1;
        } else if digit_char(c) || ((c == '.' || c == ',') && i + 1 < n && digit_char(
            text.get_char(i + 1),
        )) {
            let start = i;
            proof {
                lemma_runs_end(chars, start as int);
            }
            i = i + 1;
            while i < n && (digit_char(text.get_char(i)) || text.get_char(i) == '.' || text.get_char(i)
                == ',')
                invariant
                    start < i <= n,
                    n == chars.len(),
                    chars == text@,
                    number_end(chars, start as int) == number_end(chars, i as int),
                decreases n - i,
            {
                i = i + 1;
            }
            let number = text.substring_char(start, i).to_owned();
            lexemes.push(Lexeme::Number(number));
            proof {
                assert(number_end(chars, i as int) == i);
                assert(lexeme_views(lexemes@) =~= lexeme_views(before).push(LexemeView::Number(chars.subrange(start as int, i as int))));
                assert(lexeme_views(before) + (seq![LexemeView::Number(chars.subrange(start as int, i as int))] + lexed(chars, names, i as int))
                    =~= lexeme_views(lexemes@) + lexed(chars, names, i as int));
            }
        } else {
            let start = i;
            proof {
                lemma_runs_end(chars, start as int);
            }
            if is_alphabetic(c) || c == '\u{b5}' {
                i = i + 1;
                while i < n && (is_alphabetic(text.get_char(i)) || text.get_char(i) == '\u{b5}')
                    invariant
                        start < i <= n,
                        n == chars.len(),
                        chars == text@,
                        word_end(chars, start as int) == word_end(chars, i as int),
                    decreases n - i,
                {
                    i = i + 1;
                }
                proof {
                    assert(word_end(chars, i as int) == i);
                }
            } else {
                i = i + 1;
            }
            let symbol = text.substring_char(start, i);
            let lexeme = match find_unit(symbols, symbol) {
                Some(k) => Lexeme::Unit(k),
                None => Lexeme::Unknown(symbol.to_owned()),
            };
            let ghost view = lexeme@;
            lexemes.push(lexeme);
            proof {
                assert(lexeme_views(lexemes@) =~= lexeme_views(before).push(view));
                assert(lexed(chars, names, start as int) == seq![view] + lexed(chars, names, i as int));
                assert(lexeme_views(before) + (seq![view] + lexed(chars, names, i as int))
                    =~= lexeme_views(lexemes@) + lexed(chars, names, i as int));
            }
        }
    }
    lexemes
}

/// An expression's tree. Numbers are named by their place among the
/// pieces; their values are read by the application.
#[derive(Debug, PartialEq)]
pub enum Expr {
    /// A number without a unit, in the field's unit.
    Plain(usize),
    /// Numbers with units written one after the other, added up: `count`
    /// numbers from place `first` on, each followed by its unit
    /// (`30°15'20"`, `1 m 20 cm`).
    Measure(usize, usize),
    Negate(Box<Expr>),
    Add(Box<Expr>, Box<Expr>),
    Subtract(Box<Expr>, Box<Expr>),
    Multiply(Box<Expr>, Box<Expr>),
    Divide(Box<Expr>, Box<Expr>),
}

/// How many number-and-unit pairs follow one another from `j` on.
pub open spec fn pairs_from(s: Seq<LexemeView>, j: int) -> nat
    decreases s.len() - j,
{
    if 0 <= j && j + 1 < s.len() && s[j] is Number && s[j + 1] is Unit {
        1 + pairs_from(s, j + 2)
    } else {
        0
    }
}

/// A step of the parse: the tree read and where reading stopped, or none
/// if the text is not an expression there; and, either way, the divisors of
/// the divisions read so far, in the order they were completed.
pub type Reading = (Option<(Expr, int)>, Seq<Expr>);

/// A factor from place `i`: a sign and a factor, an expression in
/// brackets, a number with its units, or a number.
pub open spec fn parse_factor(s: Seq<LexemeView>, i: int) -> Reading
    decreases s.len() - i, 0int,
{
    if i < 0 || i >= s.len() {
        (None, Seq::empty())
    } else {
        match s[i] {
            LexemeView::Minus => {
                let (r, d) = parse_factor(s, i + 1);
                (
                    match r {
                        Some((e, j)) => Some((Expr::Negate(Box::new(e)), j)),
                        None => None,
                    },
                    d,
                )
            },
            LexemeView::Plus => parse_factor(s, i + 1),
            LexemeView::Open => {
                let (r, d) = parse_expression(s, i + 1);
                match r {
                    Some((e, j)) => if 0 <= j < s.len() && s[j] is Close {
                        (Some((e, j + 1)), d)
                    } else {
                        (None, d)
                    },
                    None => (None, d),
                }
            },
            LexemeView::Number(_) => if i + 1 < s.len() && s[i + 1] is Unit {
                let n = pairs_from(s, i);
                (Some((Expr::Measure(i as usize, n as usize), i + 2 * n)), Seq::empty())
            } else {
                (Some((Expr::Plain(i as usize), i + 1)), Seq::empty())
            },
            _ => (None, Seq::empty()),
        }
    }
}

/// The products and quotients that follow `left` from place `j` on.
pub open spec fn term_rest(s: Seq<LexemeView>, j: int, left: Expr, d: Seq<Expr>) -> Reading
    decreases s.len() - j, 1int,
{
    if 0 <= j < s.len() && (s[j] is Times || s[j] is Divide) {
        let (r, d2) = parse_factor(s, j + 1);
        match r {
            None => (None, d + d2),
            Some((f, k)) => if !(j < k <= s.len()) {
                (None, d + d2)
            } else if s[j] is Divide {
                term_rest(s, k, Expr::Divide(Box::new(left), Box::new(f)), d + d2 + seq![f])
            } else {
                term_rest(s, k, Expr::Multiply(Box::new(left), Box::new(f)), d + d2)
            },
        }
    } else {
        (Some((left, j)), d)
    }
}

/// A term from place `i`: factors joined by products and quotients.
pub open spec fn parse_term(s: Seq<LexemeView>, i: int) -> Reading
    decreases s.len() - i, 1int,
{
    let (r, d) = parse_factor(s, i);
    match r {
        None => (None, d),
        Some((e, j)) => if !(i < j <= s.len()) {
            (None, d)
        } else {
            term_rest(s, j, e, d)
        },
    }
}

/// The sums and differences that follow `left` from place `j` on.
pub open spec fn expression_rest(s: Seq<LexemeView>, j: int, left: Expr, d: Seq<Expr>) -> Reading
    decreases s.len() - j, 2int,
{
    if 0 <= j < s.len() && (s[j] is Plus || s[j] is Minus) {
        let (r, d2) = parse_term(s, j + 1);
        match r {
            None => (None, d + d2),
            Some((t, k)) => if !(j < k <= s.len()) {
                (None, d + d2)
            } else if s[j] is Plus {
                expression_rest(s, k, Expr::Add(Box::new(left), Box::new(t)), d + d2)
            } else {
                expression_rest(s, k, Expr::Subtract(Box::new(left), Box::new(t)), d + d2)
            },
        }
    } else {
        (Some((left, j)), d)
    }
}

/// An expression from place `i`: terms joined by sums and differences.
pub open spec fn parse_expression(s: Seq<LexemeView>, i: int) -> Reading
    decreases s.len() - i, 2int,
{
    let (r, d) = parse_term(s, i);
    match r {
        None => (None, d),
        Some((e, j)) => if !(i < j <= s.len()) {
            (None, d)
        } else {
            expression_rest(s, j, e, d)
        },
    }
}

/// The whole text read as an expression: its tree, or, if it is not one,
/// the divisors of the divisions read before the reading failed.
pub open spec fn parsed(s: Seq<LexemeView>) -> Result<Expr, Seq<Expr>> {
    let (r, d) = parse_expression(s, 0);
    match r {
        Some((e, j)) => if j == s.len() {
            Ok(e)
        } else {
            Err(d)
        },
        None => Err(d),
    }
}

/// The step as it is stated: positions as integers.
pub open spec fn reading_of(r: (Option<(Expr, usize)>, Vec<Expr>)) -> Reading {
    (
        match r.0 {
            Some((e, j)) => Some((e, j as int)),
            None => None,
        },
        r.1@,
    )
}

/// A copy of the tree.
pub fn copy_expr(e: &Expr) -> (r: Expr)
    ensures
        r == *e,
    decreases e,
{
    match e {
        Expr::Plain(i) => Expr::Plain(*i),
        Expr::Measure(first, count) => Expr::Measure(*first, *count),
        Expr::Negate(a) => Expr::Negate(Box::new(copy_expr(a))),
        Expr::Add(a, b) => Expr::Add(Box::new(copy_expr(a)), Box::new(copy_expr(b))),
        Expr::Subtract(a, b) => Expr::Subtract(Box::new(copy_expr(a)), Box::new(copy_expr(b))),
        Expr::Multiply(a, b) => Expr::Multiply(Box::new(copy_expr(a)), Box::new(copy_expr(b))),
        Expr::Divide(a, b) => Expr::Divide(Box::new(copy_expr(a)), Box::new(copy_expr(b))),
    }
}

fn count_pairs(s: &Vec<Lexeme>, i: usize) -> (n: usize)
    requires
        i <= s@.len(),
    ensures
        n == pairs_from(lexeme_views(s@), i as int),
        i + 2 * n <= s@.len(),
{
    let ghost v = lexeme_views(s@);
    let mut j = i;
    let mut n: usize = 0;
    while j < s.len() && j + 1 < s.len() && matches!(s[j], Lexeme::Number(_)) && matches!(s[j + 1], Lexeme::Unit(_))
        invariant
            i <= j <= s@.len(),
            j == i + 2 * n,
            v == lexeme_views(s@),
            pairs_from(v, i as int) == n + pairs_from(v, j as int),
        decreases s@.len() - j,
    {
        proof {
            assert(v[j as int] == s@[j as int]@);
            assert(v[j + 1] == s@[j + 1]@);
        }
        j = j + 2;
        n = n + 1;
    }
    proof {
        if j + 1 < s@.len() {
            assert(v[j as int] == s@[j as int]@);
            assert(v[j + 1] == s@[j + 1]@);
        }
    }
    n
}

fn exec_factor(s: &Vec<Lexeme>, i: usize) -> (r: (Option<(Expr, usize)>, Vec<Expr>))
    requires
        i <= s@.len(),
    ensures
        reading_of(r) == parse_factor(lexeme_views(s@), i as int),
        r.0 matches Some((_, j)) ==> i < j <= s@.len(),
    decreases s@.len() - i, 0int,
{
    let ghost v = lexeme_views(s@);
    if i >= s.len() {
        return (None, Vec::new());
    }
    proof {
        assert(v[i as int] == s@[i as int]@);
    }
    match &s[i] {
        Lexeme::Minus => {
            let (r, d) = exec_factor(s, i + 1);
            let r = match r {
                Some((e, j)) => Some((Expr::Negate(Box::new(e)), j)),
                None => None,
            };
            (r, d)
        },
        Lexeme::Plus => exec_factor(s, i + 1),
        Lexeme::Open => {
            let (r, d) = exec_expression(s, i + 1);
            match r {
                Some((e, j)) => {
                    if j < s.len() && matches!(s[j], Lexeme::Close) {
                        proof {
                            assert(v[j as int] == s@[j as int]@);
                        }
                        (Some((e, j + 1)), d)
                    } else {
                        proof {
                            if j < s@.len() {
                                assert(v[j as int] == s@[j as int]@);
                            }
                        }
                        (None, d)
                    }
                },
                None => (None, d),
            }
        },
        Lexeme::Number(_) => {
            if i + 1 < s.len() && matches!(s[i + 1], Lexeme::Unit(_)) {
                proof {
                    assert(v[i + 1] == s@[i + 1]@);
                }
                let n = count_pairs(s, i);
                proof {
                    assert(v[i as int] is Number);
                    assert(n >= 1);
                }
                (Some((Expr::Measure(i, n), i + 2 * n)), Vec::new())
            } else {
                proof {
                    if i + 1 < s@.len() {
                        assert(v[i + 1] == s@[i + 1]@);
                    }
                }
                (Some((Expr::Plain(i), i + 1)), Vec::new())
            }
        },
        _ => (None, Vec::new()),
    }
}

fn exec_term_rest(s: &Vec<Lexeme>, j: usize, left: Expr, d: Vec<Expr>) -> (r: (
    Option<(Expr, usize)>,
    Vec<Expr>,
))
    requires
        j <= s@.len(),
    ensures
        reading_of(r) == term_rest(lexeme_views(s@), j as int, left, d@),
        r.0 matches Some((_, k)) ==> j <= k <= s@.len(),
    decreases s@.len() - j, 1int,
{
    let ghost v = lexeme_views(s@);
    let mut d = d;
    if j < s.len() && (matches!(s[j], Lexeme::Times) || matches!(s[j], Lexeme::Divide)) {
        proof {
            assert(v[j as int] == s@[j as int]@);
        }
        let divide = matches!(s[j], Lexeme::Divide);
        let (r, mut d2) = exec_factor(s, j + 1);
        let ghost dd = d@ + d2@;
        d.append(&mut d2);
        match r {
            None => (None, d),
            Some((f, k)) => {
                if divide {
                    d.push(copy_expr(&f));
                    proof {
                        assert(d@ == dd + seq![f]);
                    }
                    exec_term_rest(s, k, Expr::Divide(Box::new(left), Box::new(f)), d)
                } else {
                    exec_term_rest(s, k, Expr::Multiply(Box::new(left), Box::new(f)), d)
                }
            },
        }
    } else {
        proof {
            if j < s@.len() {
                assert(v[j as int] == s@[j as int]@);
            }
        }
        (Some((left, j)), d)
    }
}

fn exec_term(s: &Vec<Lexeme>, i: usize) -> (r: (Option<(Expr, usize)>, Vec<Expr>))
    requires
        i <= s@.len(),
    ensures
        reading_of(r) == parse_term(lexeme_views(s@), i as int),
        r.0 matches Some((_, j)) ==> i < j <= s@.len(),
    decreases s@.len() - i, 1int,
{
    let (r, d) = exec_factor(s, i);
    match r {
        None => (None, d),
        Some((e, j)) => exec_term_rest(s, j, e, d),
    }
}

fn exec_expression_rest(s: &Vec<Lexeme>, j: usize, left: Expr, d: Vec<Expr>) -> (r: (
    Option<(Expr, usize)>,
    Vec<Expr>,
))
    requires
        j <= s@.len(),
    ensures
        reading_of(r) == expression_rest(lexeme_views(s@), j as int, left, d@),
        r.0 matches Some((_, k)) ==> j <= k <= s@.len(),
    decreases s@.len() - j, 2int,
{
    let ghost v = lexeme_views(s@);
    let mut d = d;
    if j < s.len() && (matches!(s[j], Lexeme::Plus) || matches!(s[j], Lexeme::Minus)) {
        proof {
            assert(v[j as int] == s@[j as int]@);
        }
        let plus = matches!(s[j], Lexeme::Plus);
        let (r, mut d2) = exec_term(s, j + 1);
        d.append(&mut d2);
        match r {
            None => (None, d),
            Some((t, k)) => {
                if plus {
                    exec_expression_rest(s, k, Expr::Add(Box::new(left), Box::new(t)), d)
                } else {
                    exec_expression_rest(s, k, Expr::Subtract(Box::new(left), Box::new(t)), d)
                }
            },
        }
    } else {
        proof {
            if j < s@.len() {
                assert(v[j as int] == s@[j as int]@);
            }
        }
        (Some((left, j)), d)
    }
}

fn exec_expression(s: &Vec<Lexeme>, i: usize) -> (r: (Option<(Expr, usize)>, Vec<Expr>))
    requires
        i <= s@.len(),
    ensures
        reading_of(r) == parse_expression(lexeme_views(s@), i as int),
        r.0 matches Some((_, j)) ==> i < j <= s@.len(),
    decreases s@.len() - i, 2int,
{
    let (r, d) = exec_term(s, i);
    match r {
        None => (None, d),
        Some((e, j)) => exec_expression_rest(s, j, e, d),
    }
}

/// Reads the pieces as an expression: its tree, or, if they are not one,
/// the divisors of the divisions read before the reading failed (a division
/// by zero among them comes before the failure).
pub fn parse(lexemes: &Vec<Lexeme>) -> (r: Result<Expr, Vec<Expr>>)
    ensures
        match parsed(lexeme_views(lexemes@)) {
            Ok(e) => r == Ok::<Expr, Vec<Expr>>(e),
            Err(d) => r matches Err(divisors) && divisors@ == d,
        },
{
    let (r, d) = exec_expression(lexemes, 0);
    match r {
        Some((e, j)) => {
            if j == lexemes.len() {
                Ok(e)
            } else {
                Err(d)
            }
        },
        None => Err(d),
    }
}

/// What Enter or leaving the field does with the text being edited.
#[derive(Debug, PartialEq)]
pub enum Confirmation<T> {
    /// Neither happened: editing goes on.
    Continue,
    /// The text's value is taken and editing ends.
    Apply(T),
    /// Enter on a text that is not an expression: editing goes on, showing
    /// why.
    ShowError(Error),
    /// Leaving the field with such a text: editing ends and the value stays
    /// as it was.
    Discard,
}

/// Enter or leaving the field confirms the text: a valid one is taken; an
/// invalid one keeps the field open on Enter and is dropped on leaving.
pub open spec fn confirmation<T>(submitted: bool, blurred: bool, evaluated: Result<T, Error>) -> Confirmation<T> {
    if !submitted && !blurred {
        Confirmation::Continue
    } else {
        match evaluated {
            Ok(value) => Confirmation::Apply(value),
            Err(error) => if blurred {
                Confirmation::Discard
            } else {
                Confirmation::ShowError(error)
            },
        }
    }
}

/// Decides what confirming the edited text does.
pub fn confirm<T>(submitted: bool, blurred: bool, evaluated: Result<T, Error>) -> (r: Confirmation<T>)
    ensures
        r == confirmation(submitted, blurred, evaluated),
{
    if !submitted && !blurred {
        Confirmation::Continue
    } else {
        match evaluated {
            Ok(value) => Confirmation::Apply(value),
            Err(error) => {
                if blurred {
                    Confirmation::Discard
                } else {
                    Confirmation::ShowError(error)
                }
            },
        }
    }
}

/// Each sign stands alone: `+` is a plus; `-` and `−` are minus; `*`, `×`
/// and `·` are times; `/`, `÷` and `:` are divided by; brackets are
/// brackets; the pieces after it follow. A space or a no-break space is
/// dropped.
pub proof fn law_signs_are_pieces(chars: Seq<char>, symbols: Seq<Seq<char>>, i: int)
    requires
        0 <= i < chars.len(),
    ensures
        chars[i] == '+' ==> lexed(chars, symbols, i) == seq![LexemeView::Plus] + lexed(chars, symbols, i + 1),
        chars[i] == '-' || chars[i] == '\u{2212}' ==> lexed(chars, symbols, i) == seq![LexemeView::Minus]
            + lexed(chars, symbols, i + 1),
        chars[i] == '*' || chars[i] == '\u{d7}' || chars[i] == '\u{b7}' ==> lexed(chars, symbols, i)
            == seq![LexemeView::Times] + lexed(chars, symbols, i + 1),
        chars[i] == '/' || chars[i] == '\u{f7}' || chars[i] == ':' ==> lexed(chars, symbols, i)
            == seq![LexemeView::Divide] + lexed(chars, symbols, i + 1),
        chars[i] == '(' ==> lexed(chars, symbols, i) == seq![LexemeView::Open] + lexed(chars, symbols, i + 1),
        chars[i] == ')' ==> lexed(chars, symbols, i) == seq![LexemeView::Close] + lexed(chars, symbols, i + 1),
        chars[i] == ' ' || chars[i] == '\u{a0}' ==> lexed(chars, symbols, i) == lexed(chars, symbols, i + 1),
{
}

/// A number is the whole run of digits, commas and points from where it
/// starts: every character of it is one of them, and the one after it is
/// not (or the text ends).
pub proof fn law_numbers_are_whole_runs(chars: Seq<char>, symbols: Seq<Seq<char>>, i: int)
    requires
        0 <= i < chars.len(),
        '0' <= chars[i] <= '9',
    ensures
        lexed(chars, symbols, i).len() > 0,
        lexed(chars, symbols, i)[0] matches LexemeView::Number(text) && {
            &&& text.len() >= 1
            &&& i + text.len() <= chars.len()
            &&& text == chars.subrange(i, i + text.len())
            &&& forall|k: int| 0 <= k < text.len() ==> #[trigger] is_digit(text[k]) || text[k] == '.' || text[k]
                == ','
            &&& i + text.len() < chars.len() ==> !in_number(chars[i + text.len()])
        },
{
    lemma_runs_end(chars, i);
    lemma_number_run(chars, i);
    let e = number_end(chars, i);
    let text = chars.subrange(i, e);
    assert(starts_number(chars, i));
    assert(lexed(chars, symbols, i) == seq![LexemeView::Number(text)] + lexed(chars, symbols, e));
    assert(lexed(chars, symbols, i)[0] == LexemeView::Number(text));
    assert forall|k: int| 0 <= k < text.len() implies #[trigger] is_digit(text[k]) || text[k] == '.' || text[k]
        == ',' by {
        assert(text[k] == chars[i + k]);
        assert(in_number(chars[i + k]));
    }
    assert(text.len() == e - i);
}

proof fn lemma_number_run(chars: Seq<char>, i: int)
    requires
        0 <= i <= chars.len(),
    ensures
        forall|k: int| i <= k < number_end(chars, i) ==> #[trigger] in_number(chars[k]),
        number_end(chars, i) < chars.len() ==> !in_number(chars[number_end(chars, i)]),
    decreases chars.len() - i,
{
    if i < chars.len() && in_number(chars[i]) {
        lemma_number_run(chars, i + 1);
    }
}

/// Numbers joined by plus and minus signs: `m + 1` numbers at the even
/// places, a sign at each odd place.
pub open spec fn is_sum_chain(s: Seq<LexemeView>, m: int) -> bool {
    &&& m >= 0
    &&& s.len() == 2 * m + 1
    &&& forall|i: int| 0 <= i < s.len() && i % 2 == 0 ==> #[trigger] s[i] is Number
    &&& forall|i: int| 0 <= i < s.len() && i % 2 == 1 ==> (#[trigger] s[i] is Plus || s[i] is Minus)
}

/// The first `k + 1` numbers of a chain, added or subtracted from the left:
/// ((n0 ± n1) ± n2) ± ...
pub open spec fn left_fold(s: Seq<LexemeView>, k: int) -> Expr
    decreases k,
{
    if k <= 0 {
        Expr::Plain(0)
    } else if s[2 * k - 1] is Plus {
        Expr::Add(Box::new(left_fold(s, k - 1)), Box::new(Expr::Plain((2 * k) as usize)))
    } else {
        Expr::Subtract(Box::new(left_fold(s, k - 1)), Box::new(Expr::Plain((2 * k) as usize)))
    }
}

proof fn lemma_chain_number(s: Seq<LexemeView>, m: int, i: int)
    requires
        is_sum_chain(s, m),
        0 <= i < s.len(),
        i % 2 == 0,
    ensures
        parse_term(s, i) == (Some((Expr::Plain(i as usize), i + 1)), Seq::<Expr>::empty()),
{
    assert(s[i] is Number);
    if i + 1 < s.len() {
        assert((i + 1) % 2 == 1);
        assert(s[i + 1] is Plus || s[i + 1] is Minus);
    }
    assert(parse_factor(s, i) == (Some((Expr::Plain(i as usize), i + 1)), Seq::<Expr>::empty()));
    assert(term_rest(s, i + 1, Expr::Plain(i as usize), Seq::<Expr>::empty()) == (
        Some((Expr::Plain(i as usize), i + 1)),
        Seq::<Expr>::empty(),
    ));
}

proof fn lemma_chain_rest(s: Seq<LexemeView>, m: int, k: int)
    requires
        is_sum_chain(s, m),
        0 <= k <= m,
    ensures
        expression_rest(s, 2 * k + 1, left_fold(s, k), Seq::<Expr>::empty()) == (
            Some((left_fold(s, m), 2 * m + 1)),
            Seq::<Expr>::empty(),
        ),
    decreases m - k,
{
    if k < m {
        let j = 2 * k + 1;
        assert(j % 2 == 1);
        assert(s[j] is Plus || s[j] is Minus);
        assert((j + 1) % 2 == 0);
        lemma_chain_number(s, m, j + 1);
        assert(Seq::<Expr>::empty() + Seq::<Expr>::empty() =~= Seq::<Expr>::empty());
        assert(2 * (k + 1) - 1 == j);
        assert(left_fold(s, k + 1) == if s[j] is Plus {
            Expr::Add(Box::new(left_fold(s, k)), Box::new(Expr::Plain((j + 1) as usize)))
        } else {
            Expr::Subtract(Box::new(left_fold(s, k)), Box::new(Expr::Plain((j + 1) as usize)))
        });
        lemma_chain_rest(s, m, k + 1);
        assert(2 * (k + 1) + 1 == j + 2);
    }
}

/// Sums and differences group to the left: numbers joined by plus and
/// minus signs read as the left fold of the numbers, so `8 - 3 - 2` is
/// `(8 - 3) - 2` and `8 - 3 + 2` is `(8 - 3) + 2`.
pub proof fn law_sums_group_to_the_left(s: Seq<LexemeView>, m: int)
    requires
        is_sum_chain(s, m),
    ensures
        parsed(s) == Ok::<Expr, Seq<Expr>>(left_fold(s, m)),
{
    lemma_chain_number(s, m, 0);
    lemma_chain_rest(s, m, 0);
}

/// Numbers joined by times and division signs: `m + 1` numbers at the even
/// places, a sign at each odd place.
pub open spec fn is_product_chain(s: Seq<LexemeView>, m: int) -> bool {
    &&& m >= 0
    &&& s.len() == 2 * m + 1
    &&& forall|i: int| 0 <= i < s.len() && i % 2 == 0 ==> #[trigger] s[i] is Number
    &&& forall|i: int| 0 <= i < s.len() && i % 2 == 1 ==> (#[trigger] s[i] is Times || s[i] is Divide)
}

/// The first `k + 1` numbers of a chain, multiplied or divided from the
/// left: ((n0 × n1) ÷ n2) × ...
pub open spec fn product_fold(s: Seq<LexemeView>, k: int) -> Expr
    decreases k,
{
    if k <= 0 {
        Expr::Plain(0)
    } else if s[2 * k - 1] is Times {
        Expr::Multiply(Box::new(product_fold(s, k - 1)), Box::new(Expr::Plain((2 * k) as usize)))
    } else {
        Expr::Divide(Box::new(product_fold(s, k - 1)), Box::new(Expr::Plain((2 * k) as usize)))
    }
}

proof fn lemma_product_rest(s: Seq<LexemeView>, m: int, k: int, d: Seq<Expr>)
    requires
        is_product_chain(s, m),
        0 <= k <= m,
    ensures
        term_rest(s, 2 * k + 1, product_fold(s, k), d).0 == Some((product_fold(s, m), 2 * m + 1)),
    decreases m - k,
{
    if k < m {
        let j = 2 * k + 1;
        assert(j % 2 == 1);
        assert(s[j] is Times || s[j] is Divide);
        assert((j + 1) % 2 == 0);
        let i = j + 1;
        assert(s[i] is Number);
        if i + 1 < s.len() {
            assert((i + 1) % 2 == 1);
            assert(s[i + 1] is Times || s[i + 1] is Divide);
        }
        assert(parse_factor(s, i) == (Some((Expr::Plain(i as usize), i + 1)), Seq::<Expr>::empty()));
        assert(2 * (k + 1) - 1 == j);
        let d2 = if s[j] is Divide {
            d + Seq::<Expr>::empty() + seq![Expr::Plain(i as usize)]
        } else {
            d + Seq::<Expr>::empty()
        };
        lemma_product_rest(s, m, k + 1, d2);
        assert(2 * (k + 1) + 1 == j + 2);
    }
}

/// Products and quotients group to the left: numbers joined by times and
/// division signs read as their left fold, so `8 / 4 / 2` is `(8 / 4) / 2`.
pub proof fn law_products_group_to_the_left(s: Seq<LexemeView>, m: int)
    requires
        is_product_chain(s, m),
    ensures
        parsed(s) == Ok::<Expr, Seq<Expr>>(product_fold(s, m)),
{
    assert(s[0] is Number);
    if 1 < s.len() {
        assert(1int % 2 == 1);
        assert(s[1] is Times || s[1] is Divide);
    }
    assert(parse_factor(s, 0) == (Some((Expr::Plain(0), 1int)), Seq::<Expr>::empty()));
    lemma_product_rest(s, m, 0, Seq::<Expr>::empty());
}

/// A sum of two products: `a ± b × c` reads as `a ± (b × c)` and
/// `a × b ± c` as `(a × b) ± c`: products bind tighter than sums.
pub proof fn law_products_bind_tighter(s: Seq<LexemeView>)
    requires
        s.len() == 5,
        s[0] is Number && s[2] is Number && s[4] is Number,
        (s[1] is Plus || s[1] is Minus) && (s[3] is Times || s[3] is Divide) || (s[1] is Times
            || s[1] is Divide) && (s[3] is Plus || s[3] is Minus),
    ensures
        parsed(s) is Ok,
        (s[1] is Plus || s[1] is Minus) ==> match parsed(s) {
            Ok(Expr::Add(a, b)) => s[1] is Plus && *a == Expr::Plain(0) && (*b is Multiply || *b is Divide),
            Ok(Expr::Subtract(a, b)) => s[1] is Minus && *a == Expr::Plain(0) && (*b is Multiply || *b is Divide),
            _ => false,
        },
        (s[1] is Times || s[1] is Divide) ==> match parsed(s) {
            Ok(Expr::Add(a, b)) => (*a is Multiply || *a is Divide) && *b == Expr::Plain(4),
            Ok(Expr::Subtract(a, b)) => (*a is Multiply || *a is Divide) && *b == Expr::Plain(4),
            _ => false,
        },
{
    let e = Seq::<Expr>::empty();
    if s[1] is Plus || s[1] is Minus {
        assert(parse_factor(s, 0) == (Some((Expr::Plain(0), 1int)), e));
        assert(term_rest(s, 1, Expr::Plain(0), e) == (Some((Expr::Plain(0), 1int)), e));
        assert(parse_factor(s, 2) == (Some((Expr::Plain(2), 3int)), e));
        assert(parse_factor(s, 4) == (Some((Expr::Plain(4), 5int)), e));
        let d2 = e + e;
        let d3 = if s[3] is Divide { d2 + seq![Expr::Plain(4)] } else { d2 };
        let f = if s[3] is Divide {
            Expr::Divide(Box::new(Expr::Plain(2)), Box::new(Expr::Plain(4)))
        } else {
            Expr::Multiply(Box::new(Expr::Plain(2)), Box::new(Expr::Plain(4)))
        };
        assert(term_rest(s, 5, f, d3) == (Some((f, 5int)), d3));
        assert(parse_term(s, 2).0 == Some((f, 5int)));
    } else {
        assert(parse_factor(s, 0) == (Some((Expr::Plain(0), 1int)), e));
        assert(parse_factor(s, 2) == (Some((Expr::Plain(2), 3int)), e));
        assert(parse_factor(s, 4) == (Some((Expr::Plain(4), 5int)), e));
        assert(term_rest(s, 5, Expr::Plain(4), e) == (Some((Expr::Plain(4), 5int)), e));
        assert(parse_term(s, 4) == (Some((Expr::Plain(4), 5int)), e));
        let f = if s[1] is Divide {
            Expr::Divide(Box::new(Expr::Plain(0)), Box::new(Expr::Plain(2)))
        } else {
            Expr::Multiply(Box::new(Expr::Plain(0)), Box::new(Expr::Plain(2)))
        };
        let d = if s[1] is Divide { e + e + seq![Expr::Plain(2)] } else { e + e };
        assert(term_rest(s, 3, f, d) == (Some((f, 3int)), d));
        assert(parse_term(s, 0).0 == Some((f, 3int)));
    }
}

proof fn lemma_first_named(names: Seq<Seq<char>>, name: Seq<char>, k: int)
    requires
        0 <= k,
    ensures
        first_named(names, name, k) matches Some(i) ==> k <= i < names.len() && names[i] == name && forall|j: int|
            k <= j < i ==> #[trigger] names[j] != name,
        first_named(names, name, k) is None ==> forall|j: int| k <= j < names.len() ==> #[trigger] names[j] != name,
    decreases names.len() - k,
{
    if k < names.len() && names[k] != name {
        lemma_first_named(names, name, k + 1);
    }
}

/// A symbol names the first unit written exactly like it; only if there is
/// none, the first whose name is the same in lower case; else no unit.
pub proof fn law_units_by_name_then_without_case(symbols: Seq<Seq<char>>, symbol: Seq<char>)
    ensures
        (exists|j: int| 0 <= j < symbols.len() && #[trigger] symbols[j] == symbol) ==> (
        unit_named(symbols, symbol) matches Some(i) && 0 <= i < symbols.len() && symbols[i] == symbol
            && forall|j: int| 0 <= j < i ==> #[trigger] symbols[j] != symbol),
        (forall|j: int| 0 <= j < symbols.len() ==> #[trigger] symbols[j] != symbol) ==> match unit_named(
            symbols,
            symbol,
        ) {
            Some(i) => 0 <= i < symbols.len() && lowercase(symbols[i]) == lowercase(symbol) && forall|j: int|
                0 <= j < i ==> lowercase(#[trigger] symbols[j]) != lowercase(symbol),
            None => forall|j: int| 0 <= j < symbols.len() ==> lowercase(#[trigger] symbols[j]) != lowercase(symbol),
        },
{
    let lowered = symbols.map_values(|s: Seq<char>| lowercase(s));
    lemma_first_named(symbols, symbol, 0);
    lemma_first_named(lowered, lowercase(symbol), 0);
    assert forall|j: int| 0 <= j < symbols.len() implies #[trigger] lowered[j] == lowercase(symbols[j]) by {}
    if forall|j: int| 0 <= j < symbols.len() ==> #[trigger] symbols[j] != symbol {
        assert(first_named(symbols, symbol, 0) is None);
        match first_named(lowered, lowercase(symbol), 0) {
            Some(i) => {
                assert(lowered[i] == lowercase(symbols[i]));
                assert forall|j: int| 0 <= j < i implies lowercase(#[trigger] symbols[j]) != lowercase(symbol) by {
                    assert(lowered[j] == lowercase(symbols[j]));
                }
            },
            None => {
                assert forall|j: int| 0 <= j < symbols.len() implies lowercase(#[trigger] symbols[j]) != lowercase(
                    symbol,
                ) by {
                    assert(lowered[j] == lowercase(symbols[j]));
                }
            },
        }
    }
}

} // verus!
