//! The commands of the `side` tool: what a REPL line or the program's
//! arguments ask for. Carrying a command out is the host's part.

use vstd::prelude::*;
use crate::text::{chars_of, string_from_chars, text_eq, is_white, is_white_char, texts};

verus! {

/// Reading a text from the left: the words completed so far and the word
/// being read (empty between words).
pub open spec fn split_state(s: Seq<char>) -> (Seq<Seq<char>>, Seq<char>)
    decreases s.len(),
{
    if s.len() == 0 {
        (Seq::empty(), Seq::empty())
    } else {
        let (done, cur) = split_state(s.drop_last());
        let c = s.last();
        if !is_white(c) {
            (done, cur.push(c))
        } else if cur.len() > 0 {
            (done.push(cur), Seq::empty())
        } else {
            (done, Seq::empty())
        }
    }
}

/// The words of a text (`str::split_whitespace`): its maximal runs of
/// characters that are not white space, in order.
pub open spec fn words(s: Seq<char>) -> Seq<Seq<char>> {
    let (done, cur) = split_state(s);
    if cur.len() > 0 {
        done.push(cur)
    } else {
        done
    }
}

/// A run of characters none of which is white space.
pub open spec fn is_run(w: Seq<char>) -> bool {
    forall|k: int| 0 <= k < w.len() ==> !is_white(#[trigger] w[k])
}

proof fn lemma_split_state_runs(s: Seq<char>)
    ensures
        forall|i: int|
            0 <= i < split_state(s).0.len() ==> (#[trigger] split_state(s).0[i]).len() > 0
                && is_run(split_state(s).0[i]),
        is_run(split_state(s).1),
    decreases s.len(),
{
    if s.len() > 0 {
        lemma_split_state_runs(s.drop_last());
        let (done, cur) = split_state(s.drop_last());
        if !is_white(s.last()) {
            assert(is_run(cur.push(s.last()))) by {
                assert forall|k: int| 0 <= k < cur.len() + 1 implies !is_white(
                    #[trigger] cur.push(s.last())[k],
                ) by {
                    if k < cur.len() {
                        assert(cur.push(s.last())[k] == cur[k]);
                    }
                }
            }
        }
    }
}

/// Every word is a non-empty run of characters that are not white space.
pub proof fn lemma_words_are_runs(s: Seq<char>)
    ensures
        forall|i: int| 0 <= i < words(s).len() ==> (#[trigger] words(s)[i]).len() > 0 && is_run(words(s)[i]),
{
    lemma_split_state_runs(s);
    let (done, cur) = split_state(s);
    if cur.len() > 0 {
        assert forall|i: int| 0 <= i < words(s).len() implies (#[trigger] words(s)[i]).len() > 0
            && is_run(words(s)[i]) by {
            if i < done.len() {
                assert(words(s)[i] == done[i]);
            }
        }
    }
}

/// A text made of white space only has no words, so such a REPL line does
/// nothing.
pub proof fn lemma_blank_has_no_words(s: Seq<char>)
    requires
        forall|k: int| 0 <= k < s.len() ==> is_white(#[trigger] s[k]),
    ensures
        words(s).len() == 0,
        line_command(s) == CommandModel::Nothing,
    decreases s.len(),
{
    if s.len() > 0 {
        lemma_blank_has_no_words(s.drop_last());
        assert(is_white(s[s.len() - 1]));
    }
}

/// The words of a line.
pub fn split_words(line: &str) -> (res: Vec<String>)
    ensures
        texts(res@) == words(line@),
{
    let cs = chars_of(line);
    let mut done: Vec<String> = Vec::new();
    let mut cur: Vec<char> = Vec::new();
    let mut i: usize = 0;
    while i < cs.len()
        invariant
            0 <= i <= cs.len(),
            texts(done@) == split_state(cs@.take(i as int)).0,
            cur@ == split_state(cs@.take(i as int)).1,
        decreases cs.len() - i,
    {
        let c = cs[i];
        assert(cs@.take(i as int + 1).drop_last() =~= cs@.take(i as int));
        assert(cs@.take(i as int + 1).last() == c);
        if !is_white_char(c) {
            cur.push(c);
        } else if cur.len() > 0 {
            let w = string_from_chars(cur.as_slice());
            let ghost before = done@;
            done.push(w);
            assert(texts(done@) =~= texts(before).push(w@));
            cur = Vec::new();
        }
        i += 1;
    }
    assert(cs@.take(cs.len() as int) =~= cs@);
    if cur.len() > 0 {
        let w = string_from_chars(cur.as_slice());
        let ghost before = done@;
        done.push(w);
        assert(texts(done@) =~= texts(before).push(w@));
    }
    done
}

/// What the tool is asked to do, as text.
pub enum CommandModel {
    /// Leave the REPL.
    Quit,
    /// An empty line.
    Nothing,
    /// No arguments: start the REPL.
    Interactive,
    /// Run a script file.
    Run(Seq<char>),
    /// Build a project, from the given description or the connected one.
    Build(Option<Seq<char>>),
    /// Remember a project description for later builds.
    Connect(Seq<char>),
    /// Load a module into the running interpreter.
    LinkRun(Seq<char>),
    /// Pack a module into an executable, optionally under a given name.
    LinkBuild(Seq<char>, Option<Seq<char>>),
    /// List the loaded modules.
    LinkList,
    /// Forget the loaded modules.
    LinkClear,
    /// `spack link` with a subcommand that is not known or lacks its file.
    LinkUsage,
    /// `spack` with a subcommand that is not known or lacks its file.
    SpackUsage,
    /// A REPL line that is no command.
    Unknown,
}

/// What the tool is asked to do.
pub enum Command {
    Quit,
    Nothing,
    Interactive,
    Run(String),
    Build(Option<String>),
    Connect(String),
    LinkRun(String),
    LinkBuild(String, Option<String>),
    LinkList,
    LinkClear,
    LinkUsage,
    SpackUsage,
    Unknown,
}

pub open spec fn opt_text(o: Option<String>) -> Option<Seq<char>> {
    match o {
        Some(s) => Some(s@),
        None => None,
    }
}

impl View for Command {
    type V = CommandModel;

    open spec fn view(&self) -> CommandModel {
        match self {
            Command::Quit => CommandModel::Quit,
            Command::Nothing => CommandModel::Nothing,
            Command::Interactive => CommandModel::Interactive,
            Command::Run(f) => CommandModel::Run(f@),
            Command::Build(f) => CommandModel::Build(opt_text(*f)),
            Command::Connect(f) => CommandModel::Connect(f@),
            Command::LinkRun(f) => CommandModel::LinkRun(f@),
            Command::LinkBuild(f, o) => CommandModel::LinkBuild(f@, opt_text(*o)),
            Command::LinkList => CommandModel::LinkList,
            Command::LinkClear => CommandModel::LinkClear,
            Command::LinkUsage => CommandModel::LinkUsage,
            Command::SpackUsage => CommandModel::SpackUsage,
            Command::Unknown => CommandModel::Unknown,
        }
    }
}

/// The word at `i`, if there is one.
pub open spec fn word_at(ws: Seq<Seq<char>>, i: int) -> Option<Seq<char>> {
    if i < ws.len() {
        Some(ws[i])
    } else {
        None
    }
}

/// A `spack link` subcommand, whose name is the word at `k`.
pub open spec fn link_command(ws: Seq<Seq<char>>, k: int) -> CommandModel {
    let verb = ws[k];
    if verb == "run"@ && k + 1 < ws.len() {
        CommandModel::LinkRun(ws[k + 1])
    } else if verb == "build"@ && k + 1 < ws.len() {
        CommandModel::LinkBuild(ws[k + 1], word_at(ws, k + 2))
    } else if verb == "list"@ {
        CommandModel::LinkList
    } else if verb == "clear"@ {
        CommandModel::LinkClear
    } else {
        CommandModel::LinkUsage
    }
}

/// A `spack` subcommand, whose name is the word at `k`.
pub open spec fn spack_command(ws: Seq<Seq<char>>, k: int) -> CommandModel {
    let verb = ws[k];
    if verb == "run"@ && k + 1 < ws.len() {
        CommandModel::Run(ws[k + 1])
    } else if verb == "build"@ {
        CommandModel::Build(word_at(ws, k + 1))
    } else if verb == "connect"@ && k + 1 < ws.len() {
        CommandModel::Connect(ws[k + 1])
    } else if verb == "link"@ && k + 1 < ws.len() {
        link_command(ws, k + 1)
    } else {
        CommandModel::SpackUsage
    }
}

/// The command on a REPL line: `exit` alone quits, `spack ...` is a
/// subcommand, an empty line does nothing, anything else is unknown.
pub open spec fn line_command(line: Seq<char>) -> CommandModel {
    let ws = words(line);
    if ws == seq!["exit"@] {
        CommandModel::Quit
    } else if ws.len() == 0 {
        CommandModel::Nothing
    } else if ws[0] == "spack"@ && ws.len() >= 2 {
        spack_command(ws, 1)
    } else {
        CommandModel::Unknown
    }
}

/// The command given by the program's arguments (the first is the
/// program's own name): none starts the REPL, `spack ...` is a subcommand,
/// anything else names a script to run.
pub open spec fn args_command(args: Seq<Seq<char>>) -> CommandModel {
    if args.len() < 2 {
        CommandModel::Interactive
    } else if args[1] == "spack"@ && args.len() >= 3 {
        spack_command(args, 2)
    } else {
        CommandModel::Run(args[1])
    }
}

fn clone_text(s: &String) -> (res: String)
    ensures
        res@ == s@,
{
    s.clone()
}

fn word_at_exec(ws: &[String], i: usize) -> (res: Option<String>)
    ensures
        opt_text(res) == word_at(texts(ws@), i as int),
{
    if i < ws.len() {
        Some(clone_text(&ws[i]))
    } else {
        None
    }
}

fn link_command_exec(ws: &[String], k: usize) -> (res: Command)
    requires
        k < ws.len(),
    ensures
        res@ == link_command(texts(ws@), k as int),
{
    let verb = ws[k].as_str();
    if text_eq(verb, "run") && k + 1 < ws.len() {
        Command::LinkRun(clone_text(&ws[k + 1]))
    } else if text_eq(verb, "build") && k + 1 < ws.len() {
        Command::LinkBuild(clone_text(&ws[k + 1]), word_at_exec(ws, k + 2))
    } else if text_eq(verb, "list") {
        Command::LinkList
    } else if text_eq(verb, "clear") {
        Command::LinkClear
    } else {
        Command::LinkUsage
    }
}

fn spack_command_exec(ws: &[String], k: usize) -> (res: Command)
    requires
        k < ws.len(),
    ensures
        res@ == spack_command(texts(ws@), k as int),
{
    let verb = ws[k].as_str();
    if text_eq(verb, "run") && k + 1 < ws.len() {
        Command::Run(clone_text(&ws[k + 1]))
    } else if text_eq(verb, "build") {
        Command::Build(word_at_exec(ws, k + 1))
    } else if text_eq(verb, "connect") && k + 1 < ws.len() {
        Command::Connect(clone_text(&ws[k + 1]))
    } else if text_eq(verb, "link") && k + 1 < ws.len() {
        link_command_exec(ws, k + 1)
    } else {
        Command::SpackUsage
    }
}

/// The command on a REPL line.
pub fn repl_command(line: &str) -> (res: Command)
    ensures
        res@ == line_command(line@),
{
    let ws = split_words(line);
    let ghost t = texts(ws@);
    let is_exit = ws.len() == 1 && text_eq(ws[0].as_str(), "exit");
    proof {
        if ws.len() >= 1 {
            assert(t[0] == ws@[0]@);
        }
        if is_exit {
            assert(t =~= seq!["exit"@]);
        } else if t == seq!["exit"@] {
            assert(t.len() == 1 && t[0] == "exit"@);
        }
    }
    if is_exit {
        Command::Quit
    } else if ws.len() == 0 {
        Command::Nothing
    } else if text_eq(ws[0].as_str(), "spack") && ws.len() >= 2 {
        spack_command_exec(ws.as_slice(), 1)
    } else {
        Command::Unknown
    }
}

/// The command given by the program's arguments.
pub fn args_command_of(args: &[String]) -> (res: Command)
    ensures
        res@ == args_command(texts(args@)),
{
    if args.len() < 2 {
        Command::Interactive
    } else if text_eq(args[1].as_str(), "spack") && args.len() >= 3 {
        spack_command_exec(args, 2)
    } else {
        Command::Run(clone_text(&args[1]))
    }
}

} // verus!
