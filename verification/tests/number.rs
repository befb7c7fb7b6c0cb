use widget_kit::number::{lex, parse, Expr, Lexeme};

fn symbols(names: &[&str]) -> Vec<String> {
    names.iter().map(|name| name.to_string()).collect()
}

fn number(text: &str) -> Lexeme {
    Lexeme::Number(text.to_string())
}

#[test]
fn operators_numbers_and_brackets_are_lexed() {
    let length = symbols(&["m", "cm", "mm", "km"]);
    assert_eq!(
        lex("2+3*4", &length),
        vec![number("2"), Lexeme::Plus, number("3"), Lexeme::Times, number("4")]
    );
    assert_eq!(
        lex("(2+3) * 4", &length),
        vec![
            Lexeme::Open,
            number("2"),
            Lexeme::Plus,
            number("3"),
            Lexeme::Close,
            Lexeme::Times,
            number("4")
        ]
    );
    assert_eq!(
        lex("7 × 3 ÷ 2", &length),
        vec![number("7"), Lexeme::Times, number("3"), Lexeme::Divide, number("2")]
    );
    assert_eq!(lex("−3 · 2 : 1", &length).len(), 6);
    assert_eq!(lex("\u{a0} ", &length), vec![]);
}

#[test]
fn numbers_keep_their_commas_and_points() {
    let length = symbols(&["m"]);
    assert_eq!(lex("1.234,5", &length), vec![number("1.234,5")]);
    assert_eq!(lex(",5*2", &length), vec![number(",5"), Lexeme::Times, number("2")]);
    assert_eq!(lex(". 5", &length), vec![Lexeme::Unknown(".".to_string()), number("5")]);
}

#[test]
fn units_are_found_by_name_then_without_case() {
    let length = symbols(&["m", "cm", "mm", "km"]);
    assert_eq!(
        lex("1 m 20 cm", &length),
        vec![number("1"), Lexeme::Unit(0), number("20"), Lexeme::Unit(1)]
    );
    assert_eq!(lex("250mm", &length), vec![number("250"), Lexeme::Unit(2)]);
    assert_eq!(lex("1,5 KM", &length), vec![number("1,5"), Lexeme::Unit(3)]);
    assert_eq!(lex("5 ft", &length), vec![number("5"), Lexeme::Unknown("ft".to_string())]);

    let angle = symbols(&["°", "'", "\"", "rad", "grad"]);
    assert_eq!(
        lex("10°30'36\"", &angle),
        vec![
            number("10"),
            Lexeme::Unit(0),
            number("30"),
            Lexeme::Unit(1),
            number("36"),
            Lexeme::Unit(2)
        ]
    );
    assert_eq!(lex("1 rad", &angle), vec![number("1"), Lexeme::Unit(3)]);
}

fn tree(text: &str) -> Result<Expr, Vec<Expr>> {
    parse(&lex(text, &symbols(&["m", "cm", "mm", "km"])))
}

fn boxed(expr: Expr) -> Box<Expr> {
    Box::new(expr)
}

#[test]
fn expressions_follow_precedence() {
    assert_eq!(
        tree("2+3*4"),
        Ok(Expr::Add(boxed(Expr::Plain(0)), boxed(Expr::Multiply(boxed(Expr::Plain(2)), boxed(Expr::Plain(4))))))
    );
    assert_eq!(
        tree("(2+3)*4"),
        Ok(Expr::Multiply(boxed(Expr::Add(boxed(Expr::Plain(1)), boxed(Expr::Plain(3)))), boxed(Expr::Plain(6))))
    );
    assert_eq!(
        tree("-3 + -2"),
        Ok(Expr::Add(boxed(Expr::Negate(boxed(Expr::Plain(1)))), boxed(Expr::Negate(boxed(Expr::Plain(4))))))
    );
    assert_eq!(
        tree("10 / 4 - 1"),
        Ok(Expr::Subtract(boxed(Expr::Divide(boxed(Expr::Plain(0)), boxed(Expr::Plain(2)))), boxed(Expr::Plain(4))))
    );
    assert_eq!(tree("+5"), Ok(Expr::Plain(1)));
}

#[test]
fn numbers_with_units_are_added_up() {
    assert_eq!(tree("1 m 20 cm"), Ok(Expr::Measure(0, 2)));
    assert_eq!(
        tree("1 m + 20 cm"),
        Ok(Expr::Add(boxed(Expr::Measure(0, 1)), boxed(Expr::Measure(3, 1))))
    );
}

#[test]
fn broken_expressions_keep_the_divisions_read_before() {
    assert_eq!(tree("2+"), Err(vec![]));
    assert_eq!(tree("(2"), Err(vec![]));
    assert_eq!(tree("2 3"), Err(vec![]));
    assert_eq!(tree("1/0 )"), Err(vec![Expr::Plain(2)]));
    assert_eq!(tree("4/(1/2) *"), Err(vec![Expr::Plain(5), Expr::Divide(boxed(Expr::Plain(3)), boxed(Expr::Plain(5)))]));
    assert_eq!(tree(""), Err(vec![]));
}
