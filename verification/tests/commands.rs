use side::command::{args_command_of, repl_command, split_words, Command};
use side::text::is_white_char;

fn describe(c: Command) -> String {
    match c {
        Command::Quit => "quit".to_string(),
        Command::Nothing => "nothing".to_string(),
        Command::Interactive => "interactive".to_string(),
        Command::Run(f) => format!("run {}", f),
        Command::Build(None) => "build".to_string(),
        Command::Build(Some(f)) => format!("build {}", f),
        Command::Connect(f) => format!("connect {}", f),
        Command::LinkRun(f) => format!("link run {}", f),
        Command::LinkBuild(f, None) => format!("link build {}", f),
        Command::LinkBuild(f, Some(o)) => format!("link build {} {}", f, o),
        Command::LinkList => "link list".to_string(),
        Command::LinkClear => "link clear".to_string(),
        Command::LinkUsage => "link usage".to_string(),
        Command::SpackUsage => "spack usage".to_string(),
        Command::Unknown => "unknown".to_string(),
    }
}

fn line(s: &str) -> String {
    describe(repl_command(s))
}

fn args(a: &[&str]) -> String {
    let v: Vec<String> = a.iter().map(|s| s.to_string()).collect();
    describe(args_command_of(&v))
}

#[test]
fn words_split_on_any_white_space() {
    assert_eq!(split_words("  a  bb\tc\n"), vec!["a", "bb", "c"]);
    assert_eq!(split_words("x\u{3000}y\u{a0}z"), vec!["x", "y", "z"]);
    assert!(split_words(" \t\r\n").is_empty());
    assert!(split_words("").is_empty());
}

#[test]
fn white_space_matches_std() {
    for n in 0u32..0x11_0000 {
        if let Some(c) = char::from_u32(n) {
            assert_eq!(is_white_char(c), c.is_whitespace(), "code point {:#x}", n);
        }
    }
}

#[test]
fn repl_exit_and_empty_lines() {
    assert_eq!(line("exit\n"), "quit");
    assert_eq!(line("   exit  \r\n"), "quit");
    assert_eq!(line("exit now"), "unknown");
    assert_eq!(line("\n"), "nothing");
    assert_eq!(line(""), "nothing");
    assert_eq!(line("hello"), "unknown");
    assert_eq!(line("spack"), "unknown");
}

#[test]
fn repl_spack_subcommands() {
    assert_eq!(line("spack run main.sd\n"), "run main.sd");
    assert_eq!(line("spack run"), "spack usage");
    assert_eq!(line("spack build"), "build");
    assert_eq!(line("spack build app.spack"), "build app.spack");
    assert_eq!(line("spack connect app.spack"), "connect app.spack");
    assert_eq!(line("spack connect"), "spack usage");
    assert_eq!(line("spack deploy x"), "spack usage");
    assert_eq!(line("spack link"), "spack usage");
}

#[test]
fn repl_link_subcommands() {
    assert_eq!(line("spack link run m.sd"), "link run m.sd");
    assert_eq!(line("spack link run"), "link usage");
    assert_eq!(line("spack link build m.sd"), "link build m.sd");
    assert_eq!(line("spack link build m.sd out.exe"), "link build m.sd out.exe");
    assert_eq!(line("spack link list"), "link list");
    assert_eq!(line("spack link clear"), "link clear");
    assert_eq!(line("spack link drop"), "link usage");
    assert_eq!(line("  spack   link\tlist  "), "link list");
}

#[test]
fn program_arguments() {
    assert_eq!(args(&["side"]), "interactive");
    assert_eq!(args(&[]), "interactive");
    assert_eq!(args(&["side", "game.sd"]), "run game.sd");
    assert_eq!(args(&["side", "spack"]), "run spack");
    assert_eq!(args(&["side", "spack", "run", "a.sd"]), "run a.sd");
    assert_eq!(args(&["side", "spack", "run"]), "spack usage");
    assert_eq!(args(&["side", "spack", "build"]), "build");
    assert_eq!(args(&["side", "spack", "link", "list"]), "link list");
    assert_eq!(args(&["side", "spack", "link", "build", "m.sd", "m.exe"]), "link build m.sd m.exe");
    assert_eq!(args(&["side", "spack", "link", "nope"]), "link usage");
    assert_eq!(args(&["side", "spack", "link"]), "spack usage");
}
