use side::ast::{BinOp, Expr, Item, Stmt, UnOp};
use side::error::{ParseError, RuntimeError};
use side::lexer::{fraction_literals, resolve, scan, Lexeme};
use side::logger::{debug, entry_at, error, info, warn, LogLevel};
use side::packer::{decrypt, encrypt, extract_embedded, has_embedded, trailer, KEY};
use side::parser::Parser;
use side::project::SpackConfig;
use side::token::Token;
use side::value::{FloatOp, Num, Outcome, Piece, Value};

fn tokens(src: &str) -> Vec<Token> {
    let ls = scan(src);
    let texts = fraction_literals(&ls);
    let bits: Vec<u64> = texts.iter().map(|t| t.parse::<f64>().unwrap().to_bits()).collect();
    resolve(ls, &bits)
}

fn text(ps: &[Piece]) -> String {
    let mut s = String::new();
    for p in ps {
        match p {
            Piece::Text(t) => s.push_str(t),
            Piece::Fraction(b) => s.push_str(&format!("{}", f64::from_bits(*b))),
            Piece::FractionDebug(b) => s.push_str(&format!("{:?}", f64::from_bits(*b))),
        }
    }
    s
}

#[test]
fn keywords_win_over_identifiers() {
    let ts = tokens("set setter end");
    assert!(matches!(ts[0], Token::SetKeyword));
    assert!(matches!(&ts[1], Token::Identifier(s) if s == "setter"));
    assert!(matches!(ts[2], Token::End));
}

#[test]
fn literals_and_operators() {
    let ts = tokens("-12 3.5 \"a b\" == != <= >= :: # comment\n none");
    assert!(matches!(ts[0], Token::Whole(-12)));
    assert!(matches!(ts[1], Token::Fraction(b) if f64::from_bits(b) == 3.5));
    assert!(matches!(&ts[2], Token::String(s) if s == "a b"));
    assert!(matches!(ts[3], Token::Equal));
    assert!(matches!(ts[4], Token::NotEqual));
    assert!(matches!(ts[5], Token::LessEqual));
    assert!(matches!(ts[6], Token::GreaterEqual));
    assert!(matches!(ts[7], Token::DoubleColon));
    assert!(matches!(ts[8], Token::Nil));
    assert_eq!(ts.len(), 9);
}

#[test]
fn fractions_are_left_to_the_host() {
    let ls = scan("x = 0.25 + 1.5");
    let texts = fraction_literals(&ls);
    assert_eq!(texts, vec!["0.25".to_string(), "1.5".to_string()]);
    assert!(matches!(&ls[2], Lexeme::Fraction(t) if t == "0.25"));
    let ts = resolve(ls, &vec![7, 9]);
    assert!(matches!(ts[2], Token::Fraction(7)));
    assert!(matches!(ts[4], Token::Fraction(9)));
}

#[test]
fn unknown_characters_and_big_numbers_are_errors() {
    let ts = tokens("@ 99999999999999999999");
    assert!(matches!(ts[0], Token::Error));
    assert!(matches!(ts[1], Token::Error));
}

#[test]
fn precedence_of_operators() {
    let mut p = Parser::new(tokens("x = 1 + 2 * 3 == 7 and not false"));
    let prog = p.parse().ok().unwrap();
    assert_eq!(prog.items.len(), 1);
    match &prog.items[0] {
        Item::Stmt(Stmt::Assign { target: Expr::Variable(n), value }) => {
            assert_eq!(n, "x");
            match value {
                Expr::Binary { op: BinOp::And, left, right } => {
                    assert!(matches!(**right, Expr::Unary { op: UnOp::Not, .. }));
                    assert!(matches!(**left, Expr::Binary { op: BinOp::Eq, .. }));
                }
                _ => panic!("wrong tree"),
            }
        }
        _ => panic!("wrong statement"),
    }
}

#[test]
fn calls_fields_and_indexes() {
    let mut p = Parser::new(tokens("f(1, 2).name[0]"));
    let prog = p.parse().ok().unwrap();
    match &prog.items[0] {
        Item::Stmt(Stmt::ExprStmt(Expr::Index { object, .. })) => {
            assert!(matches!(&**object, Expr::Field { field, .. } if field == "name"));
        }
        _ => panic!("wrong tree"),
    }
}

fn parse_error(src: &str) -> ParseError {
    let mut p = Parser::new(tokens(src));
    match p.try_parse() {
        Some(Err(e)) => e,
        _ => panic!("expected a parse error"),
    }
}

#[test]
fn parse_error_messages() {
    assert_eq!(text(&parse_error("log").message_pieces()), "[строка 1] Неожиданный токен: Error");
    assert_eq!(
        text(&parse_error("set 5 = 1").message_pieces()),
        "[строка 1] Ожидалось identifier, найдено Whole(5)"
    );
    assert_eq!(
        text(&parse_error("1 = 2").message_pieces()),
        "[строка 1] Некорректное выражение слева от присваивания"
    );
    assert_eq!(
        text(&parse_error("check x start log 1").message_pieces()),
        "[строка 1] Неожиданный токен: Error"
    );
    assert_eq!(
        text(&parse_error("proc f(a b) start end").message_pieces()),
        "[строка 1] Ожидалось Comma, найдено Identifier(\"b\")"
    );
    assert_eq!(
        text(&parse_error("(1)(2)").message_pieces()),
        "[строка 1] Ожидалось function name, найдено LParen"
    );
    assert_eq!(
        text(&parse_error("log )").message_pieces()),
        "[строка 1] Неожиданный токен: RParen"
    );
    assert_eq!(
        text(&parse_error("loop 2.5 end").message_pieces()),
        "[строка 1] Ожидалось Start, найдено End"
    );
    assert!(matches!(parse_error("link 3"), ParseError::Expected { line: 1, .. }));
}

#[test]
fn form_ending_early_has_no_parse() {
    let mut p = Parser::new(tokens("form A start set x"));
    assert!(p.try_parse().is_none());
}

#[test]
fn declarations_parse() {
    let mut p = Parser::new(tokens(
        "link \"m.sd\" as m\nproc f(a, b) start give a end\nform P start fix id set hp = 3 end",
    ));
    let prog = p.parse().ok().unwrap();
    assert_eq!(prog.items.len(), 3);
    assert!(matches!(&prog.items[0], Item::Decl(side::ast::Decl::Link { path, alias: Some(a) }) if path == "m.sd" && a == "m"));
    assert!(matches!(&prog.items[1], Item::Decl(side::ast::Decl::Proc { params, .. }) if params.len() == 2));
    match &prog.items[2] {
        Item::Decl(side::ast::Decl::Form { name, fields }) => {
            assert_eq!(name, "P");
            assert!(!fields[0].mutable && fields[0].initial.is_none());
            assert!(fields[1].mutable && fields[1].initial.is_some());
        }
        _ => panic!("wrong declaration"),
    }
}

#[test]
fn whole_arithmetic_wraps() {
    assert!(matches!(Value::Whole(i64::MAX).add(Value::Whole(1)), Outcome::Ready(Value::Whole(i64::MIN))));
    assert!(matches!(Value::Whole(6).mul(Value::Whole(7)), Outcome::Ready(Value::Whole(42))));
    assert!(matches!(Value::Whole(-7).rem(Value::Whole(2)), Outcome::Ready(Value::Whole(-1))));
    assert!(matches!(Value::Whole(i64::MIN).div(Value::Whole(-1)), Outcome::Overflow));
}

#[test]
fn mixed_numbers_go_to_the_host() {
    match Value::Whole(1).add(Value::Fraction(2.5f64.to_bits())) {
        Outcome::Float(t) => {
            assert!(matches!(t.op, FloatOp::Add));
            assert!(matches!(t.lhs, Num::Whole(1)));
            assert!(matches!(t.rhs, Num::Fraction(b) if f64::from_bits(b) == 2.5));
        }
        _ => panic!("expected a float task"),
    }
    assert!(matches!(
        Value::Fraction(1.0f64.to_bits()).div(Value::Fraction((-0.0f64).to_bits())),
        Outcome::Failed(RuntimeError::DivisionByZero)
    ));
}

#[test]
fn equality_of_values() {
    let nan = f64::NAN.to_bits();
    assert!(!Value::Fraction(nan).equals(&Value::Fraction(nan)));
    assert!(Value::Fraction(0.0f64.to_bits()).equals(&Value::Fraction((-0.0f64).to_bits())));
    assert!(Value::String("a".to_string()).equals(&Value::String("a".to_string())));
    assert!(!Value::Whole(1).equals(&Value::Bool(true)));
    let l = Value::List(vec![Value::Whole(1), Value::Nil]);
    assert!(l.equals(&l.copy()));
}

#[test]
fn display_and_debug_text() {
    let v = Value::List(vec![Value::String("s".to_string()), Value::Fraction(1.5f64.to_bits()), Value::Bool(false)]);
    assert_eq!(text(&v.display_pieces()), "[s, 1.5, false]");
    assert_eq!(text(&v.debug_pieces()), "List([String(\"s\"), Fraction(1.5), Bool(false)])");
    assert_eq!(text(&Value::Nil.debug_pieces()), "None");
}

#[test]
fn string_order_compares_code_points() {
    assert!(matches!(Value::String("b".into()).lt(Value::String("ab".into())), Outcome::Ready(Value::Bool(false))));
    assert!(matches!(Value::String("ab".into()).le(Value::String("ab".into())), Outcome::Ready(Value::Bool(true))));
    assert!(matches!(Value::String("é".into()).gt(Value::String("z".into())), Outcome::Ready(Value::Bool(true))));
}

#[test]
fn runtime_error_messages() {
    assert_eq!(RuntimeError::DivisionByZero.message(), "[ошибка] Деление на ноль");
    assert_eq!(RuntimeError::NotIndexable.message(), "[ошибка] Нельзя индексировать не список");
    assert_eq!(RuntimeError::UndefinedField("f".into()).message(), "[ошибка] Поле 'f' не найдено");
    assert_eq!(RuntimeError::IndexOutOfBounds.message(), "[ошибка] Индекс за пределами списка");
    assert_eq!(RuntimeError::Return(Value::Whole(1)).message(), "[ошибка] Return вне функции");
}

#[test]
fn encryption_masks_and_unmasks() {
    assert_eq!(KEY, 0x5A);
    assert_eq!(encrypt(b"AB"), vec![0x41 ^ 0x5A, 0x42 ^ 0x5A]);
    let data = b"log \"hi\"".to_vec();
    assert_eq!(decrypt(&encrypt(&data)), data);
}

#[test]
fn packed_script_round_trip() {
    let mut image = b"MZ fake interpreter".to_vec();
    assert!(!has_embedded(&image));
    assert_eq!(extract_embedded(&image), None);
    let script = "log \"Привет\"";
    image.extend(trailer(script.as_bytes()));
    assert!(has_embedded(&image));
    assert_eq!(&image[image.len() - 4..], b"SIDE");
    assert_eq!(extract_embedded(&image), Some(script.to_string()));
}

#[test]
fn broken_packs_give_nothing() {
    assert!(!has_embedded(b"SIDE"));
    let mut bad = vec![0u8; 4];
    bad.extend([0xff, 0xff, 0xff, 0x00]);
    bad.extend(b"SIDE");
    assert!(has_embedded(&bad));
    assert_eq!(extract_embedded(&bad), None);
    let mut invalid = vec![0xff ^ 0x5A];
    invalid.extend([1, 0, 0, 0]);
    invalid.extend(b"SIDE");
    assert_eq!(extract_embedded(&invalid), None);
}

#[test]
fn log_entries() {
    let e = entry_at(LogLevel::Warn, "disk", "2024-01-02 03:04:05.006", "20240102");
    assert_eq!(e.file, "logs/side_20240102.sdlog");
    assert_eq!(e.line, "[2024-01-02 03:04:05.006] [WARN] disk");
    let i = info("started");
    assert!(i.file.starts_with("logs/side_") && i.file.ends_with(".sdlog"));
    assert_eq!(i.file.len(), "logs/side_20240102.sdlog".len());
    assert!(i.line.ends_with("] [INFO] started"));
    assert_eq!(i.line.find(']'), Some(24));
    let day = &i.file["logs/side_".len()..i.file.len() - ".sdlog".len()];
    assert!(day.chars().all(|c| c.is_ascii_digit()));
    let month: u32 = day[4..6].parse().unwrap();
    let mday: u32 = day[6..8].parse().unwrap();
    assert!((1..=12).contains(&month) && (1..=31).contains(&mday));
    let stamp = &i.line[1..24];
    for (k, c) in stamp.chars().enumerate() {
        match k {
            4 | 7 => assert_eq!(c, '-'),
            10 => assert_eq!(c, ' '),
            13 | 16 => assert_eq!(c, ':'),
            19 => assert_eq!(c, '.'),
            _ => assert!(c.is_ascii_digit()),
        }
    }
    assert!(error("x").line.ends_with("] [ERROR] x"));
    assert!(warn("y").line.ends_with("] [WARN] y"));
    assert!(debug("z", false).is_none());
    assert!(debug("z", true).unwrap().line.ends_with("] [DEBUG] z"));
}

#[test]
fn output_name_defaults_to_exe() {
    let mut c = SpackConfig {
        name: "MyApp".to_string(),
        version: "1.0".to_string(),
        main: "hello.sd".to_string(),
        dependencies: vec![],
        output: None,
    };
    assert_eq!(c.output_name(), "MyApp.exe");
    c.output = Some("out.bin".to_string());
    assert_eq!(c.output_name(), "out.bin");
}

#[test]
fn mixed_numbers_order_but_differ() {
    let one = Value::Whole(1);
    let one_f = Value::Fraction(1.0f64.to_bits());
    assert!(matches!(one.copy().eq(one_f.copy()), Outcome::Ready(Value::Bool(false))));
    match one.copy().le(one_f.copy()) {
        Outcome::Float(t) => {
            assert!(matches!(t.op, FloatOp::Le));
            assert!(matches!(t.lhs, Num::Whole(1)));
            assert!(matches!(t.rhs, Num::Fraction(b) if b == 1.0f64.to_bits()));
        }
        _ => panic!("expected a comparison for the host"),
    }
    assert!(matches!(one.ge(one_f), Outcome::Float(_)));
}

#[test]
fn comparisons_mirror() {
    let a = Value::String("abc".to_string());
    let b = Value::String("abd".to_string());
    assert!(matches!(a.copy().gt(b.copy()), Outcome::Ready(Value::Bool(false))));
    assert!(matches!(b.copy().lt(a.copy()), Outcome::Ready(Value::Bool(false))));
    assert!(matches!(b.copy().ge(a.copy()), Outcome::Ready(Value::Bool(true))));
    assert!(matches!(a.copy().le(b.copy()), Outcome::Ready(Value::Bool(true))));
    assert!(matches!(Value::Whole(3).ge(Value::Whole(3)), Outcome::Ready(Value::Bool(true))));
    assert!(matches!(Value::Whole(3).le(Value::Whole(3)), Outcome::Ready(Value::Bool(true))));
    assert!(matches!(Value::Bool(true).lt(Value::Whole(1)), Outcome::ErrorText(_)));
    assert!(matches!(Value::Whole(1).gt(Value::Bool(true)), Outcome::ErrorText(_)));
}
