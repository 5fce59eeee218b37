use side::interpreter::{Action, Event, FileReply, FileRequest, Interpreter, PathError};
use side::lexer::{fraction_literals, resolve, scan};
use side::parser::Parser;
use side::token::Token;
use side::value::{FloatOp, FloatTask, Num, Piece};
use std::collections::HashMap;

fn fraction_texts(ps: &[Piece]) -> Vec<String> {
    let mut ts = Vec::new();
    for p in ps {
        match p {
            Piece::Text(_) => {}
            Piece::Fraction(b) => ts.push(format!("{}", f64::from_bits(*b))),
            Piece::FractionDebug(b) => ts.push(format!("{:?}", f64::from_bits(*b))),
        }
    }
    ts
}

fn render(ps: &[Piece]) -> String {
    let mut s = String::new();
    for p in ps {
        match p {
            Piece::Text(t) => s.push_str(t),
            Piece::Fraction(b) => s.push_str(&format!("{}", f64::from_bits(*b))),
            Piece::FractionDebug(b) => s.push_str(&format!("{:?}", f64::from_bits(*b))),
        }
    }
    s
}

fn num(n: &Num) -> f64 {
    match n {
        Num::Whole(w) => *w as f64,
        Num::Fraction(b) => f64::from_bits(*b),
    }
}

fn float(t: &FloatTask) -> Event {
    let a = num(&t.lhs);
    let b = num(&t.rhs);
    match t.op {
        FloatOp::Add => Event::Number((a + b).to_bits()),
        FloatOp::Sub => Event::Number((a - b).to_bits()),
        FloatOp::Mul => Event::Number((a * b).to_bits()),
        FloatOp::Div => Event::Number((a / b).to_bits()),
        FloatOp::Lt => Event::Truth(a < b),
        FloatOp::Le => Event::Truth(a <= b),
        FloatOp::Gt => Event::Truth(a > b),
        FloatOp::Ge => Event::Truth(a >= b),
    }
}

fn tokens(src: &str) -> Vec<Token> {
    let ls = scan(src);
    let texts = fraction_literals(&ls);
    let bits: Vec<u64> = texts.iter().map(|t| t.parse::<f64>().unwrap().to_bits()).collect();
    resolve(ls, &bits)
}

struct Run {
    out: Vec<String>,
    logs: Vec<String>,
    error: Option<String>,
}

fn drive(m: &mut Interpreter, input: &[&str], files: &mut HashMap<String, String>) -> Run {
    let mut ev = Event::Nothing;
    let mut out = Vec::new();
    let mut logs = Vec::new();
    let mut lines = input.iter();
    for _ in 0..1_000_000 {
        let a = m.resume(ev);
        ev = Event::Nothing;
        match a {
            Action::Continue | Action::Sleep(_) => {}
            Action::Print(ps) => out.push(render(&ps)),
            Action::Prompt(p) => {
                out.push(format!("?{}", p));
                ev = Event::Line(lines.next().map(|s| s.to_string()).unwrap_or_default());
            }
            Action::Float(t) => ev = float(&t),
            Action::Render(ps) => ev = Event::Texts(fraction_texts(&ps)),
            Action::Log(_, msg) => logs.push(msg),
            Action::File(r) => {
                let reply = match r {
                    FileRequest::Read(p) => match files.get(&p) {
                        Some(t) => FileReply::Text(t.clone()),
                        None => FileReply::Failed("not found".to_string()),
                    },
                    FileRequest::Write(p, c) => {
                        files.insert(p, c);
                        FileReply::Done
                    }
                    FileRequest::Exists(p) => FileReply::Flag(files.contains_key(&p)),
                    FileRequest::Size(p) => match files.get(&p) {
                        Some(t) => FileReply::Size(t.len() as u64),
                        None => FileReply::Failed("not found".to_string()),
                    },
                    FileRequest::Delete(p) => match files.remove(&p) {
                        Some(_) => FileReply::Done,
                        None => FileReply::Failed("not found".to_string()),
                    },
                    _ => FileReply::Failed("unsupported".to_string()),
                };
                ev = Event::File(reply);
            }
            Action::Resolve(p) => {
                ev = Event::Path(if files.contains_key(&p) {
                    Ok(format!("/{}", p))
                } else {
                    Err(PathError::Resolve("no such file".to_string()))
                })
            }
            Action::ReadSource(c) => {
                ev = Event::Source(files.get(&c[1..]).cloned().ok_or("gone".to_string()))
            }
            Action::ParseFractions(ts) => {
                ev = Event::Fractions(ts.iter().map(|t| t.parse::<f64>().unwrap().to_bits()).collect())
            }
            Action::LoadNative(_) => ev = Event::Native(Err(side::interpreter::NativeError::Open("missing".to_string()))),
            Action::CallNative(..) => ev = Event::Whole(0),
            Action::Finished(e) => {
                return Run { out, logs, error: e.map(|e| e.message()) };
            }
            Action::Panic(msg) => panic!("{}", msg),
        }
    }
    panic!("program did not finish");
}

fn run_with(src: &str, input: &[&str], files: &mut HashMap<String, String>) -> Run {
    let mut p = Parser::new(tokens(src));
    let prog = match p.try_parse() {
        Some(Ok(prog)) => prog,
        _ => panic!("program does not parse"),
    };
    let mut m = Interpreter::new();
    m.run(prog);
    drive(&mut m, input, files)
}

fn run(src: &str) -> Run {
    run_with(src, &[], &mut HashMap::new())
}

#[test]
fn hello_world_prints() {
    let r = run("log \"Hello, world!\"");
    assert_eq!(r.out, vec!["Hello, world!"]);
    assert_eq!(r.error, None);
    assert_eq!(r.logs[0], "Starting program execution");
}

#[test]
fn variables_and_types() {
    let r = run("set x = 10\nfix PI = 3.14\nset name = \"Arthur\"\nset list = [1, 2, 3]\nlog x\nlog PI\nlog name\nlog list");
    assert_eq!(r.out, vec!["10", "3.14", "Arthur", "[1, 2, 3]"]);
}

#[test]
fn condition_and_loop() {
    let r = run("set x = 7\ncheck x > 5 start\n log \"x is greater than 5\"\nend\nset i = 0\nloop i < 3 start\n log i\n set i = i + 1\nend");
    assert_eq!(r.out, vec!["x is greater than 5", "0", "1", "2"]);
}

#[test]
fn else_branch_runs_when_false() {
    let r = run("check 1 > 2 start log \"yes\" else start log \"no\" end");
    assert_eq!(r.out, vec!["no"]);
}

#[test]
fn procedure_gives_sum() {
    let r = run("proc add(a, b) start\n give a + b\nend\nlog add(2, 3)");
    assert_eq!(r.out, vec!["5"]);
}

#[test]
fn procedure_without_give_returns_none() {
    let r = run("proc f() start set q = 1 end\nlog f()");
    assert_eq!(r.out, vec!["none"]);
}

#[test]
fn procedure_sees_only_its_parameters() {
    let r = run("set x = 1\nproc f() start give x end\nlog f()");
    assert_eq!(r.error.as_deref(), Some("[ошибка] Переменная 'x' не определена"));
    assert!(r.logs.iter().any(|l| l.starts_with("Error in user function f: ")));
}

#[test]
fn parameters_are_constants() {
    let r = run("proc f(a) start set a = 2 end\nf(1)");
    assert_eq!(
        r.error.as_deref(),
        Some("[ошибка] Несоответствие типов: Cannot modify constant 'a'")
    );
}

#[test]
fn wrong_argument_count() {
    let r = run("proc f(a) start give a end\nf(1, 2)");
    assert_eq!(
        r.error.as_deref(),
        Some("[ошибка] Несоответствие типов: Function f expects 1 arguments, got 2")
    );
}

#[test]
fn fixed_value_cannot_change() {
    let r = run("fix PI = 3.14\nset PI = 3");
    assert_eq!(
        r.error.as_deref(),
        Some("[ошибка] Несоответствие типов: Cannot modify constant 'PI'")
    );
}

#[test]
fn set_overwrites_a_variable() {
    let r = run("set x = 1\nset x = x + 1\nlog x\nx = 10\nlog x");
    assert_eq!(r.out, vec!["2", "10"]);
}

#[test]
fn undefined_variable_error() {
    let r = run("log y");
    assert_eq!(r.error.as_deref(), Some("[ошибка] Переменная 'y' не определена"));
}

#[test]
fn undefined_function_error() {
    let r = run("nothing(1)");
    assert_eq!(r.error.as_deref(), Some("[ошибка] Функция 'nothing' не найдена"));
}

#[test]
fn arithmetic_on_wholes() {
    let r = run("log 7 / 2\nlog 7 % 3\nlog 2 * 3 + 4\nlog 2 - 5\nlog -7 / 2");
    assert_eq!(r.out, vec!["3", "1", "10", "-3", "-3"]);
}

#[test]
fn arithmetic_on_fractions() {
    let r = run("log 1.5 + 2\nlog 1 / 4.0\nlog 0.1 + 0.2\nlog 2.0 > 1");
    assert_eq!(r.out, vec!["3.5", "0.25", "0.30000000000000004", "true"]);
}

#[test]
fn division_by_zero() {
    assert_eq!(run("log 1 / 0").error.as_deref(), Some("[ошибка] Деление на ноль"));
    assert_eq!(run("log 1.0 / 0.0").error.as_deref(), Some("[ошибка] Деление на ноль"));
    assert_eq!(run("log 5 % 0").error.as_deref(), Some("[ошибка] Деление на ноль"));
}

#[test]
fn string_joins() {
    let r = run("log \"a\" + 1\nlog 2 + \"b\"\nlog \"x\" + none\nlog \"l\" + [1, \"s\"]\nlog \"f\" + 1.5");
    assert_eq!(r.out, vec!["a1", "2b", "xnone", "l[1, s]", "f1.5"]);
}

#[test]
fn type_error_messages() {
    assert_eq!(
        run("log true + 1").error.as_deref(),
        Some("[ошибка] Несоответствие типов: Cannot add Bool(true) and Whole(1)")
    );
    assert_eq!(
        run("log \"a\" - 1").error.as_deref(),
        Some("[ошибка] Несоответствие типов: Type mismatch for subtraction")
    );
    assert_eq!(
        run("log [1] < 2.5").error.as_deref(),
        Some("[ошибка] Несоответствие типов: Cannot compare List([Whole(1)]) and Fraction(2.5)")
    );
    assert_eq!(
        run("log 1.5 % 2").error.as_deref(),
        Some("[ошибка] Несоответствие типов: Remainder only for integers")
    );
}

#[test]
fn comparisons_and_logic() {
    let r = run("log 1 < 2\nlog \"abc\" < \"abd\"\nlog 1 == 1.0\nlog [1, 2] == [1, 2]\nlog not 0\nlog 0 or \"\"\nlog 1 and \"x\"\nlog none != none");
    assert_eq!(r.out, vec!["true", "true", "false", "true", "true", "false", "true", "false"]);
}

#[test]
fn stop_ends_a_loop() {
    let r = run("set i = 0\nloop true start\n check i == 2 start stop end\n set i = i + 1\nend\nlog i");
    assert_eq!(r.out, vec!["2"]);
}

#[test]
fn stop_outside_loop_is_an_error() {
    assert_eq!(run("stop").error.as_deref(), Some("[ошибка] Break вне цикла"));
}

#[test]
fn give_outside_procedure_is_an_error() {
    assert_eq!(run("give 1").error.as_deref(), Some("[ошибка] Return вне функции"));
}

#[test]
fn trap_catches_errors() {
    let r = run("trap start\n log 1 / 0\n log \"not here\"\nelse start\n log \"caught\"\nend\nlog \"after\"");
    assert_eq!(r.out, vec!["caught", "after"]);
    assert_eq!(r.error, None);
}

#[test]
fn forms_and_fields() {
    let r = run("form Player start\n set hp = 100\n set name = \"\"\nend\nset p = new Player\np.hp = p.hp - 10\nlog p.hp\nlog p");
    assert_eq!(r.out, vec!["90", "Player { hp: 90, name:  }"]);
}

#[test]
fn unknown_field_and_form() {
    assert_eq!(
        run("form A start set x = 1 end\nset a = new A\nlog a.y").error.as_deref(),
        Some("[ошибка] Поле 'y' не найдено")
    );
    assert_eq!(run("set b = new B").error.as_deref(), Some("[ошибка] Переменная 'B' не определена"));
    assert_eq!(
        run("set n = 1\nlog n.x").error.as_deref(),
        Some("[ошибка] Несоответствие типов: Cannot access field on non-object")
    );
}

#[test]
fn list_indexing_and_assignment() {
    let r = run("set l = [1, 2, 3]\nlog l[1]\nl[1] = 20\nlog l\nlog len(l)");
    assert_eq!(r.out, vec!["2", "[1, 20, 3]", "3"]);
    assert_eq!(run("set l = [1]\nlog l[5]").error.as_deref(), Some("[ошибка] Индекс за пределами списка"));
    assert_eq!(run("set l = [1]\nlog l[-1]").error.as_deref(), Some("[ошибка] Индекс за пределами списка"));
    assert_eq!(
        run("set l = [1]\nlog l[\"a\"]").error.as_deref(),
        Some("[ошибка] Несоответствие типов: List index must be integer")
    );
    assert_eq!(
        run("set s = 1\nlog s[0]").error.as_deref(),
        Some("[ошибка] Несоответствие типов: Cannot index non-list")
    );
}

#[test]
fn len_counts_utf8_bytes() {
    let r = run("log len(\"héllo\")\nlog len(\"\")");
    assert_eq!(r.out, vec!["6", "0"]);
    assert_eq!(
        run("log len(1)").error.as_deref(),
        Some("[ошибка] Несоответствие типов: len expects list or string")
    );
}

#[test]
fn entry_reads_a_trimmed_line() {
    let r = run_with("set n = entry \"name: \"\nlog \"hi \" + n", &["  Bob \n"], &mut HashMap::new());
    assert_eq!(r.out, vec!["?name: ", "hi Bob"]);
}

#[test]
fn files_through_the_host() {
    let mut files = HashMap::new();
    let r = run_with(
        "write_file(\"a.txt\", \"data\")\nlog read_file(\"a.txt\")\nlog file_exists(\"a.txt\")\nlog file_size(\"a.txt\")",
        &[],
        &mut files,
    );
    assert_eq!(r.out, vec!["data", "true", "4"]);
    assert!(r.logs.contains(&"Built-in function: read_file".to_string()));
    let r = run_with("read_file(\"none.txt\")", &[], &mut files);
    assert_eq!(
        r.error.as_deref(),
        Some("[ошибка] Несоответствие типов: Cannot read file none.txt: not found")
    );
    assert!(r.logs.contains(&"read_file failed: not found".to_string()));
    assert_eq!(
        run("read_file(1)").error.as_deref(),
        Some("[ошибка] Несоответствие типов: read_file expects string argument")
    );
    assert_eq!(
        run("write_file(\"a\")").error.as_deref(),
        Some("[ошибка] Несоответствие типов: write_file expects 2 arguments")
    );
}

#[test]
fn log_message_levels() {
    let r = run("log_message(\"warn\", \"careful\")\nlog_message(\"odd\", \"text\")");
    assert!(r.logs.contains(&"careful".to_string()));
    assert!(r.logs.contains(&"[odd] text".to_string()));
}

#[test]
fn native_module_missing() {
    let r = run("load_native(\"egui\")");
    assert_eq!(
        r.error.as_deref(),
        Some("[ошибка] Несоответствие типов: Cannot load module 'egui': missing")
    );
}

#[test]
fn linked_module_defines_procedures() {
    let mut files = HashMap::new();
    files.insert("lib.sd".to_string(), "proc twice(x) start give x * 2 end\nset shared = 5".to_string());
    let r = run_with("link \"lib.sd\"\nlog twice(21)\nlog shared", &[], &mut files);
    assert_eq!(r.out, vec!["42", "5"]);
    assert!(r.logs.contains(&"Loading module: lib.sd".to_string()));
    let r = run_with("link \"missing.sd\"", &[], &mut files);
    assert_eq!(
        r.error.as_deref(),
        Some("[ошибка] Несоответствие типов: Cannot resolve path missing.sd: no such file")
    );
}

#[test]
fn module_parse_error_is_reported() {
    let mut files = HashMap::new();
    files.insert("bad.sd".to_string(), "set = 2.5".to_string());
    let r = run_with("link \"bad.sd\"", &[], &mut files);
    assert_eq!(
        r.error.as_deref(),
        Some("[ошибка] Несоответствие типов: Parse error in module bad.sd: [строка 1] Ожидалось identifier, найдено Assign")
    );
}

#[test]
fn module_loaded_once_from_repl() {
    let mut files = HashMap::new();
    files.insert("m.sd".to_string(), "log \"loading\"".to_string());
    let mut m = Interpreter::new();
    m.load_module("m.sd");
    let r = drive(&mut m, &[], &mut files);
    assert_eq!(r.out, vec!["loading"]);
    assert_eq!(m.list_modules(), vec!["/m.sd".to_string()]);
    m.load_module("m.sd");
    let r = drive(&mut m, &[], &mut files);
    assert!(r.out.is_empty());
    m.clear_modules();
    assert!(m.list_modules().is_empty());
}

#[test]
fn procedures_persist_between_runs() {
    let mut m = Interpreter::new();
    let mut p = Parser::new(tokens("proc one() start give 1 end"));
    m.run(p.parse().ok().unwrap());
    drive(&mut m, &[], &mut HashMap::new());
    let mut p = Parser::new(tokens("log one()"));
    m.run(p.parse().ok().unwrap());
    let r = drive(&mut m, &[], &mut HashMap::new());
    assert_eq!(r.out, vec!["1"]);
    assert!(m.is_idle());
}

#[test]
fn integer_overflow_of_division_panics() {
    let mut p = Parser::new(tokens("log (0 - 9223372036854775807 - 1) / (0 - 1)"));
    let mut m = Interpreter::new();
    m.run(p.parse().ok().unwrap());
    let mut ev = Event::Nothing;
    loop {
        match m.resume(ev) {
            Action::Panic(msg) => {
                assert_eq!(msg, "attempt to divide with overflow");
                break;
            }
            Action::Finished(_) => panic!("expected a panic"),
            Action::Float(t) => {
                ev = float(&t);
                continue;
            }
            _ => {}
        }
        ev = Event::Nothing;
    }
}

fn run_in(m: &mut Interpreter, src: &str, files: &mut HashMap<String, String>) -> Run {
    let mut p = Parser::new(tokens(src));
    m.run(p.parse().ok().unwrap());
    drive(m, &[], files)
}

#[test]
fn loaded_module_globals_persist() {
    let mut files = HashMap::new();
    files.insert("m.sd".to_string(), "set g = 1\nfix k = 5\nproc f() start give 2 end".to_string());
    let mut m = Interpreter::new();
    m.load_module("m.sd");
    let r = drive(&mut m, &[], &mut files);
    assert_eq!(r.error, None);
    let r = run_in(&mut m, "log g", &mut files);
    assert_eq!(r.out, vec!["1"]);
    assert_eq!(r.error, None);
    let r = run_in(&mut m, "log f()", &mut files);
    assert_eq!(r.out, vec!["2"]);
    let r = run_in(&mut m, "proc h() start give g + k end\nlog h()", &mut files);
    assert_eq!(r.out, vec!["6"]);
    let r = run_in(&mut m, "set g = 10", &mut files);
    assert_eq!(r.error, None);
    let r = run_in(&mut m, "log g", &mut files);
    assert_eq!(r.out, vec!["10"]);
    let r = run_in(&mut m, "set k = 1", &mut files);
    assert_eq!(r.error.as_deref(), Some("[ошибка] Несоответствие типов: Cannot modify constant 'k'"));
}

#[test]
fn run_variables_do_not_persist() {
    let mut m = Interpreter::new();
    let mut files = HashMap::new();
    run_in(&mut m, "set x = 1", &mut files);
    let r = run_in(&mut m, "log x", &mut files);
    assert!(r.error.is_some());
}

#[test]
fn text_only_rendering_needs_no_host() {
    let mut p = Parser::new(tokens("log \"x\" + [1, \"a\"]"));
    let mut m = Interpreter::new();
    m.run(p.parse().ok().unwrap());
    let mut ev = Event::Nothing;
    let mut printed = Vec::new();
    loop {
        match m.resume(ev) {
            Action::Render(_) => panic!("no fraction, no render request"),
            Action::Print(ps) => printed.push(render(&ps)),
            Action::Finished(e) => {
                assert!(e.is_none());
                break;
            }
            _ => {}
        }
        ev = Event::Nothing;
    }
    assert_eq!(printed, vec!["x[1, a]"]);
}

#[test]
fn fractions_are_spliced_into_text() {
    let r = run("set s = \"v=\" + 1.5\nlog s\nlog [2.25, \"b\"] + \"!\"");
    assert_eq!(r.error, None);
    assert_eq!(r.out, vec!["v=1.5", "[2.25, b]!"]);
}
