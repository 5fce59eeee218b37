//! The interpreter: the evaluation machine of [`crate::machine`], run step
//! by step. The host calls [`Interpreter::resume`] in a loop, performs each
//! [`Action`] and hands back the [`Event`] that answers it.

use vstd::prelude::*;
use crate::value::{
    Value, VVal, Field, Piece, chunks, FloatOp, FloatTask, Outcome, values_view, fields_view,
    lemma_values_view, lemma_fields_view, lemma_values_view_push, field_position, Chunk,
    fraction_count, spliced,
};
use crate::error::{RuntimeError, MErr};
use crate::ast::{
    Program, Item, Decl, FieldDecl, Stmt, Expr, BinOp, expr_view, exprs_view, stmt_view,
    stmts_view, names_view, field_decls_view, decl_view, items_view, lemma_exprs_view,
    lemma_stmts_view,
};
use crate::lexer::{Lexeme, lexeds, scan, fraction_literals, resolve, fraction_texts};
use crate::parser::Parser;
use crate::logger::LogLevel;
use crate::machine::{
    store_globals, var_get, var_set, render_step,
    MVar, MProc, MFieldInfo, MForm, MNativeFn, MNativeModule, MNativeArgs, MFileRequest,
    MFileReply, MPathError, MNativeError, MDelay, MAction, MEvent, MPending, MControl, MCont,
    MState, first_match, lemma_first_match, find_var, find_proc, find_form, find_info,
    find_module, find_native_fn, find_native, has_native_fn, var_named, proc_named, form_named,
    info_named, module_named, native_fn_named, insert_proc, insert_form, insert_info,
    insert_module, constant_error, env_set, env_get, bind_params, object_fields, top_env,
    with_top_env, pop_env, set_control, push, eval_step, outcome_step, halt, binary_step,
    field_of, item_at, result_step, exec_step, declare_step, fields_step, deliver, deliver_to,
    assign_step, unwind, file_builtin_1, file_builtin_2, count_text, call_step, has_nul,
    native_call, native_request, utf8_len, file_request_1, file_request_2, file_step,
    builtin_step, file_failure, file_answer, module_parsed, request_action, is_comparison,
    trim_start, trim_end, trim, m_answer, m_resume, m_initial, m_start_run,
    m_start_load,
};
use crate::text::{concat, text_eq, nat_digits, string_from_chars, chars_of, is_white, is_white_char, texts};

verus! {

// ------------------------------------------------------------------- tables

/// A variable: its value and whether it may be changed.
pub struct Var {
    pub name: String,
    pub value: Value,
    pub mutable: bool,
}

impl View for Var {
    type V = MVar;

    open spec fn view(&self) -> MVar {
        MVar { name: self.name@, value: self.value@, mutable: self.mutable }
    }
}

pub open spec fn vars_view(vs: Seq<Var>) -> Seq<MVar> {
    vs.map_values(|v: Var| v@)
}

/// A declared procedure.
pub struct ProcDef {
    pub name: String,
    pub params: Vec<String>,
    pub body: Vec<Stmt>,
}

impl View for ProcDef {
    type V = MProc;

    open spec fn view(&self) -> MProc {
        MProc { name: self.name@, params: names_view(self.params@), body: stmts_view(self.body@) }
    }
}

/// A field of a declared form.
pub struct FieldInfo {
    pub name: String,
    pub mutable: bool,
    pub default: Option<Value>,
}

impl View for FieldInfo {
    type V = MFieldInfo;

    open spec fn view(&self) -> MFieldInfo {
        MFieldInfo {
            name: self.name@,
            mutable: self.mutable,
            default: match self.default {
                Some(v) => Some(v@),
                None => None,
            },
        }
    }
}

pub open spec fn infos_view(fs: Seq<FieldInfo>) -> Seq<MFieldInfo> {
    fs.map_values(|f: FieldInfo| f@)
}

/// A declared form.
pub struct FormDef {
    pub name: String,
    pub fields: Vec<FieldInfo>,
}

impl View for FormDef {
    type V = MForm;

    open spec fn view(&self) -> MForm {
        MForm { name: self.name@, fields: infos_view(self.fields@) }
    }
}

/// A function of a native module.
pub struct NativeFn {
    pub name: String,
    pub args: u32,
}

impl View for NativeFn {
    type V = MNativeFn;

    open spec fn view(&self) -> MNativeFn {
        MNativeFn { name: self.name@, args: self.args }
    }
}

/// A loaded native module, by the name it gives itself.
pub struct NativeModule {
    pub name: String,
    pub functions: Vec<NativeFn>,
}

impl View for NativeModule {
    type V = MNativeModule;

    open spec fn view(&self) -> MNativeModule {
        MNativeModule { name: self.name@, functions: self.functions@.map_values(|f: NativeFn| f@) }
    }
}

// ------------------------------------------------------------- host protocol

/// The arguments of a native function call.
pub enum NativeArgs {
    Nothing,
    Text(String),
    Texts(String, String),
    Wholes(i64, i64),
}

impl View for NativeArgs {
    type V = MNativeArgs;

    open spec fn view(&self) -> MNativeArgs {
        match self {
            NativeArgs::Nothing => MNativeArgs::Nothing,
            NativeArgs::Text(t) => MNativeArgs::Text(t@),
            NativeArgs::Texts(a, b) => MNativeArgs::Texts(a@, b@),
            NativeArgs::Wholes(a, b) => MNativeArgs::Wholes(*a, *b),
        }
    }
}

/// A file operation of a built-in function.
pub enum FileRequest {
    Read(String),
    Write(String, String),
    Append(String, String),
    Delete(String),
    Copy(String, String),
    Rename(String, String),
    Exists(String),
    Size(String),
    Time(String),
    ListDir(String),
    CreateDir(String),
    RemoveDir(String),
}

impl View for FileRequest {
    type V = MFileRequest;

    open spec fn view(&self) -> MFileRequest {
        match self {
            FileRequest::Read(p) => MFileRequest::Read(p@),
            FileRequest::Write(p, c) => MFileRequest::Write(p@, c@),
            FileRequest::Append(p, c) => MFileRequest::Append(p@, c@),
            FileRequest::Delete(p) => MFileRequest::Delete(p@),
            FileRequest::Copy(a, b) => MFileRequest::Copy(a@, b@),
            FileRequest::Rename(a, b) => MFileRequest::Rename(a@, b@),
            FileRequest::Exists(p) => MFileRequest::Exists(p@),
            FileRequest::Size(p) => MFileRequest::Size(p@),
            FileRequest::Time(p) => MFileRequest::Time(p@),
            FileRequest::ListDir(p) => MFileRequest::ListDir(p@),
            FileRequest::CreateDir(p) => MFileRequest::CreateDir(p@),
            FileRequest::RemoveDir(p) => MFileRequest::RemoveDir(p@),
        }
    }
}

/// The host's answer to a file operation.
pub enum FileReply {
    /// The content read.
    Text(String),
    /// The operation succeeded.
    Done,
    /// Whether the path exists.
    Flag(bool),
    /// The file's length in bytes.
    Size(u64),
    /// The modification time, in seconds since the Unix epoch, as binary64 bits.
    Time(u64),
    /// The names in a directory.
    Names(Vec<String>),
    /// The operation failed with this I/O error text.
    Failed(String),
    /// Opening for `append_file` failed with this I/O error text.
    OpenFailed(String),
    /// The platform gives no modification time.
    NoModifiedTime,
    /// The modification time is before the Unix epoch.
    BeforeEpoch,
}

impl View for FileReply {
    type V = MFileReply;

    open spec fn view(&self) -> MFileReply {
        match self {
            FileReply::Text(t) => MFileReply::Text(t@),
            FileReply::Done => MFileReply::Done,
            FileReply::Flag(b) => MFileReply::Flag(*b),
            FileReply::Size(n) => MFileReply::Size(*n),
            FileReply::Time(b) => MFileReply::Time(*b),
            FileReply::Names(ns) => MFileReply::Names(names_view(ns@)),
            FileReply::Failed(e) => MFileReply::Failed(e@),
            FileReply::OpenFailed(e) => MFileReply::OpenFailed(e@),
            FileReply::NoModifiedTime => MFileReply::NoModifiedTime,
            FileReply::BeforeEpoch => MFileReply::BeforeEpoch,
        }
    }
}

/// Why a module path could not be resolved (the I/O error text).
pub enum PathError {
    CurrentDir(String),
    Resolve(String),
}

/// Why a native module could not be loaded (the loader's error text).
pub enum NativeError {
    Open(String),
    Symbol(String),
}

/// How long `wait` sleeps.
pub enum Delay {
    Seconds(u64),
    Fraction(u64),
}

/// What the interpreter asks of the host; see [`MAction`].
pub enum Action {
    Continue,
    Print(Vec<Piece>),
    Prompt(String),
    Sleep(Delay),
    Float(FloatTask),
    Render(Vec<Piece>),
    File(FileRequest),
    Log(LogLevel, String),
    LoadNative(String),
    CallNative(String, String, NativeArgs),
    Resolve(String),
    ReadSource(String),
    ParseFractions(Vec<String>),
    Finished(Option<RuntimeError>),
    Panic(String),
}

impl View for Action {
    type V = MAction;

    open spec fn view(&self) -> MAction {
        match self {
            Action::Continue => MAction::Continue,
            Action::Print(ps) => MAction::Print(chunks(ps@)),
            Action::Prompt(t) => MAction::Prompt(t@),
            Action::Sleep(d) => MAction::Sleep(
                match d {
                    Delay::Seconds(n) => MDelay::Seconds(*n),
                    Delay::Fraction(b) => MDelay::Fraction(*b),
                },
            ),
            Action::Float(t) => MAction::Float(*t),
            Action::Render(ps) => MAction::Render(chunks(ps@)),
            Action::File(r) => MAction::File(r@),
            Action::Log(l, m) => MAction::Log(*l, m@),
            Action::LoadNative(n) => MAction::LoadNative(n@),
            Action::CallNative(m, f, a) => MAction::CallNative(m@, f@, a@),
            Action::Resolve(p) => MAction::Resolve(p@),
            Action::ReadSource(p) => MAction::ReadSource(p@),
            Action::ParseFractions(ts) => MAction::ParseFractions(names_view(ts@)),
            Action::Finished(e) => MAction::Finished(
                match e {
                    Some(x) => Some(x@),
                    None => None,
                },
            ),
            Action::Panic(m) => MAction::Panic(m@),
        }
    }
}

/// The host's answer to an action; see [`MEvent`].
pub enum Event {
    Nothing,
    Number(u64),
    Truth(bool),
    Texts(Vec<String>),
    Line(String),
    File(FileReply),
    Path(Result<String, PathError>),
    Source(Result<String, String>),
    Fractions(Vec<u64>),
    Native(Result<NativeModule, NativeError>),
    Whole(i64),
}

impl View for Event {
    type V = MEvent;

    open spec fn view(&self) -> MEvent {
        match self {
            Event::Nothing => MEvent::Nothing,
            Event::Number(b) => MEvent::Number(*b),
            Event::Truth(b) => MEvent::Truth(*b),
            Event::Texts(ts) => MEvent::Texts(texts(ts@)),
            Event::Line(t) => MEvent::Line(t@),
            Event::File(r) => MEvent::File(r@),
            Event::Path(r) => MEvent::Path(
                match r {
                    Ok(c) => Ok(c@),
                    Err(PathError::CurrentDir(m)) => Err(MPathError::CurrentDir(m@)),
                    Err(PathError::Resolve(m)) => Err(MPathError::Resolve(m@)),
                },
            ),
            Event::Source(r) => MEvent::Source(
                match r {
                    Ok(t) => Ok(t@),
                    Err(m) => Err(m@),
                },
            ),
            Event::Fractions(bs) => MEvent::Fractions(bs@),
            Event::Native(r) => MEvent::Native(
                match r {
                    Ok(m) => Ok(m@),
                    Err(NativeError::Open(e)) => Err(MNativeError::Open(e@)),
                    Err(NativeError::Symbol(e)) => Err(MNativeError::Symbol(e@)),
                },
            ),
            Event::Whole(n) => MEvent::Whole(*n),
        }
    }
}

// ------------------------------------------------------------- machine state

enum Pending {
    Float(FloatTask),
    RenderValue(Vec<Piece>),
    RenderError(Vec<Piece>),
    Line(String),
    File(FileRequest),
    Path(String, bool),
    Source(String, String, bool),
    Fractions(String, String, bool, Vec<Lexeme>),
    Native(String),
    NativeCall(String, String, NativeArgs),
}

impl View for Pending {
    type V = MPending;

    closed spec fn view(&self) -> MPending {
        match self {
            Pending::Float(t) => MPending::Float(*t),
            Pending::RenderValue(ps) => MPending::RenderValue(chunks(ps@)),
            Pending::RenderError(ps) => MPending::RenderError(chunks(ps@)),
            Pending::Line(t) => MPending::Line(t@),
            Pending::File(r) => MPending::File(r@),
            Pending::Path(p, repl) => MPending::Path(p@, *repl),
            Pending::Source(p, c, repl) => MPending::Source(p@, c@, *repl),
            Pending::Fractions(p, c, repl, ls) => MPending::Fractions(p@, c@, *repl, lexeds(ls@)),
            Pending::Native(n) => MPending::Native(n@),
            Pending::NativeCall(m, f, a) => MPending::NativeCall(m@, f@, a@),
        }
    }
}

enum Control {
    Idle,
    Eval(Expr),
    Exec(Stmt),
    Declare(Decl),
    DeclareFields(String, Vec<FieldDecl>, usize, Vec<FieldInfo>),
    Value(Value),
    Raise(RuntimeError),
    Call(String, Vec<Value>),
    Builtin(String, Vec<Value>),
    Say(LogLevel, String),
    Request(Pending),
    Await(Pending),
}

impl View for Control {
    type V = MControl;

    closed spec fn view(&self) -> MControl {
        match self {
            Control::Idle => MControl::Idle,
            Control::Eval(e) => MControl::Eval(expr_view(*e)),
            Control::Exec(s) => MControl::Exec(stmt_view(*s)),
            Control::Declare(d) => MControl::Declare(decl_view(*d)),
            Control::DeclareFields(n, fs, i, infos) => MControl::DeclareFields(
                n@,
                field_decls_view(fs@),
                *i as nat,
                infos_view(infos@),
            ),
            Control::Value(v) => MControl::Value(v@),
            Control::Raise(e) => MControl::Raise(e@),
            Control::Call(n, args) => MControl::Call(n@, values_view(args@)),
            Control::Builtin(n, args) => MControl::Builtin(n@, values_view(args@)),
            Control::Say(l, m) => MControl::Say(*l, m@),
            Control::Request(p) => MControl::Request(p@),
            Control::Await(p) => MControl::Await(p@),
        }
    }
}

enum Cont {
    Scope,
    Globals,
    Items(Vec<Item>, usize),
    Stmts(Vec<Stmt>, usize),
    BinRight(BinOp, Expr),
    BinApply(BinOp, Value),
    Not,
    ListAcc(Vec<Value>, Vec<Expr>, usize),
    CallArgs(String, Vec<Value>, Vec<Expr>, usize),
    GetField(String),
    IndexObj(Expr),
    IndexApply(Value),
    EntryPrompt,
    SetVar(String, bool),
    AssignTo(Expr),
    AssignField(Expr, String, Value),
    AssignIndexIdx(Expr, Value),
    AssignIndexObj(Expr, Value, Value),
    Log,
    Branch(Vec<Stmt>, Option<Vec<Stmt>>),
    LoopTest(Expr, Vec<Stmt>),
    LoopAgain(Expr, Vec<Stmt>),
    WaitFor,
    Give,
    Trap(Vec<Stmt>),
    Discard,
    CallBody(String),
    FieldDefault(String, Vec<FieldDecl>, usize, Vec<FieldInfo>),
}

impl View for Cont {
    type V = MCont;

    closed spec fn view(&self) -> MCont {
        match self {
            Cont::Scope => MCont::Scope,
            Cont::Globals => MCont::Globals,
            Cont::Items(its, i) => MCont::Items(items_view(its@), *i as nat),
            Cont::Stmts(ss, i) => MCont::Stmts(stmts_view(ss@), *i as nat),
            Cont::BinRight(op, r) => MCont::BinRight(*op, expr_view(*r)),
            Cont::BinApply(op, l) => MCont::BinApply(*op, l@),
            Cont::Not => MCont::Not,
            Cont::ListAcc(done, es, i) => MCont::ListAcc(values_view(done@), exprs_view(es@), *i as nat),
            Cont::CallArgs(n, done, es, i) => MCont::CallArgs(
                n@,
                values_view(done@),
                exprs_view(es@),
                *i as nat,
            ),
            Cont::GetField(f) => MCont::GetField(f@),
            Cont::IndexObj(e) => MCont::IndexObj(expr_view(*e)),
            Cont::IndexApply(v) => MCont::IndexApply(v@),
            Cont::EntryPrompt => MCont::EntryPrompt,
            Cont::SetVar(n, m) => MCont::SetVar(n@, *m),
            Cont::AssignTo(t) => MCont::AssignTo(expr_view(*t)),
            Cont::AssignField(o, f, v) => MCont::AssignField(expr_view(*o), f@, v@),
            Cont::AssignIndexIdx(o, v) => MCont::AssignIndexIdx(expr_view(*o), v@),
            Cont::AssignIndexObj(o, v, i) => MCont::AssignIndexObj(expr_view(*o), v@, i@),
            Cont::Log => MCont::Log,
            Cont::Branch(t, e) => MCont::Branch(
                stmts_view(t@),
                match e {
                    Some(b) => Some(stmts_view(b@)),
                    None => None,
                },
            ),
            Cont::LoopTest(c, b) => MCont::LoopTest(expr_view(*c), stmts_view(b@)),
            Cont::LoopAgain(c, b) => MCont::LoopAgain(expr_view(*c), stmts_view(b@)),
            Cont::WaitFor => MCont::WaitFor,
            Cont::Give => MCont::Give,
            Cont::Trap(b) => MCont::Trap(stmts_view(b@)),
            Cont::Discard => MCont::Discard,
            Cont::CallBody(n) => MCont::CallBody(n@),
            Cont::FieldDefault(n, fs, i, infos) => MCont::FieldDefault(
                n@,
                field_decls_view(fs@),
                *i as nat,
                infos_view(infos@),
            ),
        }
    }
}

/// The interpreter: declared procedures and forms, loaded modules, and the
/// evaluation in progress.
pub struct Interpreter {
    procs: Vec<ProcDef>,
    forms: Vec<FormDef>,
    modules: Vec<String>,
    natives: Vec<NativeModule>,
    envs: Vec<Vec<Var>>,
    globals: Vec<Var>,
    conts: Vec<Cont>,
    control: Control,
}

impl View for Interpreter {
    type V = MState;

    closed spec fn view(&self) -> MState {
        MState {
            procs: self.procs@.map_values(|p: ProcDef| p@),
            forms: self.forms@.map_values(|f: FormDef| f@),
            modules: names_view(self.modules@),
            natives: self.natives@.map_values(|m: NativeModule| m@),
            envs: self.envs@.map_values(|e: Vec<Var>| vars_view(e@)),
            globals: vars_view(self.globals@),
            conts: self.conts@.map_values(|k: Cont| k@),
            control: self.control@,
        }
    }
}

pub open spec fn opt_index(r: Option<usize>) -> Option<int> {
    match r {
        Some(i) => Some(i as int),
        None => None,
    }
}

fn copy_vars(vs: &Vec<Var>) -> (r: Vec<Var>)
    ensures
        vars_view(r@) == vars_view(vs@),
{
    let mut r: Vec<Var> = Vec::new();
    let mut i: usize = 0;
    while i < vs.len()
        invariant
            0 <= i <= vs.len(),
            vars_view(r@) == vars_view(vs@.take(i as int)),
        decreases vs.len() - i,
    {
        let ghost before = r@;
        let x = Var { name: vs[i].name.clone(), value: vs[i].value.copy(), mutable: vs[i].mutable };
        assert(x@ == vs@[i as int]@);
        r.push(x);
        assert(vars_view(r@) =~= vars_view(before).push(x@));
        assert(vars_view(vs@.take(i as int + 1)) =~= vars_view(vs@.take(i as int)).push(
            vs@[i as int]@,
        ));
        i += 1;
    }
    assert(vs@.take(vs.len() as int) =~= vs@);
    r
}

fn find_var_exec(xs: &Vec<Var>, name: &str) -> (r: Option<usize>)
    ensures
        opt_index(r) == find_var(vars_view(xs@), name@),
        r matches Some(i) ==> i < xs.len(),
{
    let ghost v = vars_view(xs@);
    assert(v.len() == xs.len());
    let mut i: usize = 0;
    while i < xs.len()
        invariant
            0 <= i <= xs.len(),
            v == vars_view(xs@),
            v.len() == xs.len(),
            forall|k: int| 0 <= k < i ==> !var_named(name@)(#[trigger] v[k]),
        decreases xs.len() - i,
    {
        if text_eq(xs[i].name.as_str(), name) {
            proof {
                lemma_first_match(v, var_named(name@));
                assert(var_named(name@)(v[i as int]));
                let r = first_match(v, var_named(name@));
                if r is Some {
                    let j = r->0;
                    assert(!(j < i));
                    assert(!(j > i));
                }
            }
            return Some(i);
        }
        assert(!var_named(name@)(v[i as int]));
        i += 1;
    }
    proof {
        lemma_first_match(v, var_named(name@));
    }
    None
}

fn find_proc_exec(xs: &Vec<ProcDef>, name: &str) -> (r: Option<usize>)
    ensures
        opt_index(r) == find_proc(xs@.map_values(|p: ProcDef| p@), name@),
        r matches Some(i) ==> i < xs.len(),
{
    let ghost v = xs@.map_values(|p: ProcDef| p@);
    assert(v.len() == xs.len());
    let mut i: usize = 0;
    while i < xs.len()
        invariant
            0 <= i <= xs.len(),
            v == xs@.map_values(|p: ProcDef| p@),
            v.len() == xs.len(),
            forall|k: int| 0 <= k < i ==> !proc_named(name@)(#[trigger] v[k]),
        decreases xs.len() - i,
    {
        if text_eq(xs[i].name.as_str(), name) {
            proof {
                lemma_first_match(v, proc_named(name@));
                assert(proc_named(name@)(v[i as int]));
                let r = first_match(v, proc_named(name@));
                if r is Some {
                    let j = r->0;
                    assert(!(j < i));
                    assert(!(j > i));
                }
            }
            return Some(i);
        }
        assert(!proc_named(name@)(v[i as int]));
        i += 1;
    }
    proof {
        lemma_first_match(v, proc_named(name@));
    }
    None
}

fn find_form_exec(xs: &Vec<FormDef>, name: &str) -> (r: Option<usize>)
    ensures
        opt_index(r) == find_form(xs@.map_values(|f: FormDef| f@), name@),
        r matches Some(i) ==> i < xs.len(),
{
    let ghost v = xs@.map_values(|f: FormDef| f@);
    assert(v.len() == xs.len());
    let mut i: usize = 0;
    while i < xs.len()
        invariant
            0 <= i <= xs.len(),
            v == xs@.map_values(|f: FormDef| f@),
            v.len() == xs.len(),
            forall|k: int| 0 <= k < i ==> !form_named(name@)(#[trigger] v[k]),
        decreases xs.len() - i,
    {
        if text_eq(xs[i].name.as_str(), name) {
            proof {
                lemma_first_match(v, form_named(name@));
                assert(form_named(name@)(v[i as int]));
                let r = first_match(v, form_named(name@));
                if r is Some {
                    let j = r->0;
                    assert(!(j < i));
                    assert(!(j > i));
                }
            }
            return Some(i);
        }
        assert(!form_named(name@)(v[i as int]));
        i += 1;
    }
    proof {
        lemma_first_match(v, form_named(name@));
    }
    None
}

fn find_info_exec(xs: &Vec<FieldInfo>, name: &str) -> (r: Option<usize>)
    ensures
        opt_index(r) == find_info(infos_view(xs@), name@),
        r matches Some(i) ==> i < xs.len(),
{
    let ghost v = infos_view(xs@);
    assert(v.len() == xs.len());
    let mut i: usize = 0;
    while i < xs.len()
        invariant
            0 <= i <= xs.len(),
            v == infos_view(xs@),
            v.len() == xs.len(),
            forall|k: int| 0 <= k < i ==> !info_named(name@)(#[trigger] v[k]),
        decreases xs.len() - i,
    {
        if text_eq(xs[i].name.as_str(), name) {
            proof {
                lemma_first_match(v, info_named(name@));
                assert(info_named(name@)(v[i as int]));
                let r = first_match(v, info_named(name@));
                if r is Some {
                    let j = r->0;
                    assert(!(j < i));
                    assert(!(j > i));
                }
            }
            return Some(i);
        }
        assert(!info_named(name@)(v[i as int]));
        i += 1;
    }
    proof {
        lemma_first_match(v, info_named(name@));
    }
    None
}

fn find_module_exec(xs: &Vec<NativeModule>, name: &str) -> (r: Option<usize>)
    ensures
        opt_index(r) == find_module(xs@.map_values(|m: NativeModule| m@), name@),
        r matches Some(i) ==> i < xs.len(),
{
    let ghost v = xs@.map_values(|m: NativeModule| m@);
    assert(v.len() == xs.len());
    let mut i: usize = 0;
    while i < xs.len()
        invariant
            0 <= i <= xs.len(),
            v == xs@.map_values(|m: NativeModule| m@),
            v.len() == xs.len(),
            forall|k: int| 0 <= k < i ==> !module_named(name@)(#[trigger] v[k]),
        decreases xs.len() - i,
    {
        if text_eq(xs[i].name.as_str(), name) {
            proof {
                lemma_first_match(v, module_named(name@));
                assert(module_named(name@)(v[i as int]));
                let r = first_match(v, module_named(name@));
                if r is Some {
                    let j = r->0;
                    assert(!(j < i));
                    assert(!(j > i));
                }
            }
            return Some(i);
        }
        assert(!module_named(name@)(v[i as int]));
        i += 1;
    }
    proof {
        lemma_first_match(v, module_named(name@));
    }
    None
}

fn find_native_fn_exec(xs: &Vec<NativeFn>, name: &str) -> (r: Option<usize>)
    ensures
        opt_index(r) == find_native_fn(xs@.map_values(|f: NativeFn| f@), name@),
        r matches Some(i) ==> i < xs.len(),
{
    let ghost v = xs@.map_values(|f: NativeFn| f@);
    assert(v.len() == xs.len());
    let mut i: usize = 0;
    while i < xs.len()
        invariant
            0 <= i <= xs.len(),
            v == xs@.map_values(|f: NativeFn| f@),
            v.len() == xs.len(),
            forall|k: int| 0 <= k < i ==> !native_fn_named(name@)(#[trigger] v[k]),
        decreases xs.len() - i,
    {
        if text_eq(xs[i].name.as_str(), name) {
            proof {
                lemma_first_match(v, native_fn_named(name@));
                assert(native_fn_named(name@)(v[i as int]));
                let r = first_match(v, native_fn_named(name@));
                if r is Some {
                    let j = r->0;
                    assert(!(j < i));
                    assert(!(j > i));
                }
            }
            return Some(i);
        }
        assert(!native_fn_named(name@)(v[i as int]));
        i += 1;
    }
    proof {
        lemma_first_match(v, native_fn_named(name@));
    }
    None
}

fn constant_message(name: &str) -> (r: String)
    ensures
        MErr::TypeError(r@) == constant_error(name@),
{
    concat(concat("Cannot modify constant '", name).as_str(), "'")
}

/// `Environment::set` on one environment; on an error it is unchanged.
fn env_set_in(env: &mut Vec<Var>, name: String, value: Value, mutable: bool) -> (r: Result<
    (),
    RuntimeError,
>)
    ensures
        match env_set(vars_view(old(env)@), name@, value@, mutable) {
            Ok(e) => r is Ok && vars_view(final(env)@) == e,
            Err(x) => r matches Err(y) && y@ == x && final(env)@ == old(env)@,
        },
{
    let ghost before = vars_view(env@);
    match find_var_exec(env, name.as_str()) {
        Some(i) => {
            if env[i].mutable {
                let ghost nv = MVar { name: name@, value: value@, mutable: true };
                env.set(i, Var { name, value, mutable: true });
                assert(vars_view(env@) =~= before.update(i as int, nv));
                Ok(())
            } else {
                Err(RuntimeError::TypeError(constant_message(name.as_str())))
            }
        },
        None => {
            let ghost nv = MVar { name: name@, value: value@, mutable };
            env.push(Var { name, value, mutable });
            assert(vars_view(env@) =~= before.push(nv));
            Ok(())
        },
    }
}

fn insert_proc_exec(procs: &mut Vec<ProcDef>, p: ProcDef)
    ensures
        final(procs)@.map_values(|q: ProcDef| q@) == insert_proc(
            old(procs)@.map_values(|q: ProcDef| q@),
            p@,
        ),
{
    let ghost before = procs@.map_values(|q: ProcDef| q@);
    let ghost pv = p@;
    match find_proc_exec(procs, p.name.as_str()) {
        Some(i) => {
            procs.set(i, p);
            assert(procs@.map_values(|q: ProcDef| q@) =~= before.update(i as int, pv));
        },
        None => {
            procs.push(p);
            assert(procs@.map_values(|q: ProcDef| q@) =~= before.push(pv));
        },
    }
}

fn insert_form_exec(forms: &mut Vec<FormDef>, f: FormDef)
    ensures
        final(forms)@.map_values(|q: FormDef| q@) == insert_form(
            old(forms)@.map_values(|q: FormDef| q@),
            f@,
        ),
{
    let ghost before = forms@.map_values(|q: FormDef| q@);
    let ghost fv = f@;
    match find_form_exec(forms, f.name.as_str()) {
        Some(i) => {
            forms.set(i, f);
            assert(forms@.map_values(|q: FormDef| q@) =~= before.update(i as int, fv));
        },
        None => {
            forms.push(f);
            assert(forms@.map_values(|q: FormDef| q@) =~= before.push(fv));
        },
    }
}

fn insert_info_exec(infos: &mut Vec<FieldInfo>, f: FieldInfo)
    ensures
        infos_view(final(infos)@) == insert_info(infos_view(old(infos)@), f@),
{
    let ghost before = infos_view(infos@);
    let ghost fv = f@;
    match find_info_exec(infos, f.name.as_str()) {
        Some(i) => {
            infos.set(i, f);
            assert(infos_view(infos@) =~= before.update(i as int, fv));
        },
        None => {
            infos.push(f);
            assert(infos_view(infos@) =~= before.push(fv));
        },
    }
}

fn insert_module_exec(mods: &mut Vec<NativeModule>, m: NativeModule)
    ensures
        final(mods)@.map_values(|q: NativeModule| q@) == insert_module(
            old(mods)@.map_values(|q: NativeModule| q@),
            m@,
        ),
{
    let ghost before = mods@.map_values(|q: NativeModule| q@);
    let ghost mv = m@;
    match find_module_exec(mods, m.name.as_str()) {
        Some(i) => {
            mods.set(i, m);
            assert(mods@.map_values(|q: NativeModule| q@) =~= before.update(i as int, mv));
        },
        None => {
            mods.push(m);
            assert(mods@.map_values(|q: NativeModule| q@) =~= before.push(mv));
        },
    }
}

impl Interpreter {
    fn set_ctl(&mut self, c: Control)
        ensures
            final(self)@ == set_control(old(self)@, c@),
    {
        self.control = c;
    }

    fn push_cont(&mut self, k: Cont)
        ensures
            final(self)@ == push(old(self)@, k@),
    {
        let ghost before = self.conts@.map_values(|c: Cont| c@);
        let ghost kv = k@;
        self.conts.push(k);
        assert(self.conts@.map_values(|c: Cont| c@) =~= before.push(kv));
    }

    fn pop_cont(&mut self) -> (r: Option<Cont>)
        ensures
            old(self)@.conts.len() == 0 ==> r is None && final(self)@ == old(self)@,
            old(self)@.conts.len() > 0 ==> (r matches Some(k) && k@ == old(self)@.conts.last()
                && final(self)@ == (MState { conts: old(self)@.conts.drop_last(), ..old(self)@ })),
    {
        let ghost before = self.conts@.map_values(|c: Cont| c@);
        let r = self.conts.pop();
        assert(self.conts@.map_values(|c: Cont| c@) =~= if before.len() > 0 {
            before.drop_last()
        } else {
            before
        });
        r
    }

    fn push_env(&mut self, env: Vec<Var>)
        ensures
            final(self)@ == (MState { envs: old(self)@.envs.push(vars_view(env@)), ..old(self)@ }),
    {
        let ghost before = self.envs@.map_values(|e: Vec<Var>| vars_view(e@));
        let ghost ev = vars_view(env@);
        self.envs.push(env);
        assert(self.envs@.map_values(|e: Vec<Var>| vars_view(e@)) =~= before.push(ev));
    }

    fn drop_env(&mut self)
        ensures
            final(self)@ == pop_env(old(self)@),
    {
        let ghost before = self.envs@.map_values(|e: Vec<Var>| vars_view(e@));
        if self.envs.len() > 0 {
            let _ = self.envs.pop();
            assert(self.envs@.map_values(|e: Vec<Var>| vars_view(e@)) =~= before.drop_last());
        }
    }

    /// Leaves a module's scope, keeping its variables as the globals.
    fn store_globals_exec(&mut self)
        ensures
            final(self)@ == store_globals(old(self)@),
    {
        let ghost before = self.envs@.map_values(|e: Vec<Var>| vars_view(e@));
        if self.envs.len() > 0 {
            let top = self.envs.pop().unwrap();
            assert(self.envs@.map_values(|e: Vec<Var>| vars_view(e@)) =~= before.drop_last());
            self.globals = top;
        } else {
            self.globals = Vec::new();
            assert(vars_view(self.globals@) =~= Seq::<MVar>::empty());
        }
    }

    /// `Environment::get`: the current scope, then the globals.
    fn lookup(&self, name: &str) -> (r: Option<Value>)
        ensures
            match var_get(self@, name@) {
                Some(v) => r matches Some(x) && x@ == v,
                None => r is None,
            },
    {
        if self.envs.len() > 0 {
            let env = &self.envs[self.envs.len() - 1];
            match find_var_exec(env, name) {
                Some(i) => {
                    return Some(env[i].value.copy());
                },
                None => {},
            }
        }
        match find_var_exec(&self.globals, name) {
            Some(i) => Some(self.globals[i].value.copy()),
            None => None,
        }
    }

    /// `Environment::set`: a variable of the current scope, else a global.
    fn assign_var(&mut self, name: String, value: Value, mutable: bool) -> (r: Result<
        (),
        RuntimeError,
    >)
        ensures
            match var_set(old(self)@, name@, value@, mutable) {
                Ok(s2) => r is Ok && final(self)@ == s2,
                Err(x) => r matches Err(y) && y@ == x && final(self)@ == old(self)@,
            },
    {
        let in_scope = if self.envs.len() > 0 {
            find_var_exec(&self.envs[self.envs.len() - 1], name.as_str()).is_some()
        } else {
            false
        };
        if !in_scope && find_var_exec(&self.globals, name.as_str()).is_some() {
            let mut g: Vec<Var> = Vec::new();
            std::mem::swap(&mut g, &mut self.globals);
            let r = env_set_in(&mut g, name, value, mutable);
            self.globals = g;
            return r;
        }
        self.assign_top(name, value, mutable)
    }

    /// `Environment::set` in the current scope.
    fn assign_top(&mut self, name: String, value: Value, mutable: bool) -> (r: Result<
        (),
        RuntimeError,
    >)
        ensures
            match env_set(top_env(old(self)@), name@, value@, mutable) {
                Ok(e) => r is Ok && final(self)@ == with_top_env(old(self)@, e),
                Err(x) => r matches Err(y) && y@ == x && final(self)@ == old(self)@,
            },
    {
        let ghost before = self.envs@.map_values(|e: Vec<Var>| vars_view(e@));
        if self.envs.len() > 0 {
            let mut env = self.envs.pop().unwrap();
            let r = env_set_in(&mut env, name, value, mutable);
            let ghost ev = vars_view(env@);
            self.envs.push(env);
            assert(self.envs@.map_values(|e: Vec<Var>| vars_view(e@)) =~= before.update(
                before.len() - 1,
                ev,
            ));
            proof {
                let ghost oldtop = vars_view(old(self).envs@[before.len() - 1]@);
                assert(top_env(old(self)@) == oldtop);
                if r is Err {
                    assert(ev == oldtop);
                    assert(before.update(before.len() - 1, ev) =~= before);
                    assert(self@ == old(self)@);
                } else {
                    assert(self@ == with_top_env(old(self)@, ev));
                }
            }
            r
        } else {
            let mut env: Vec<Var> = Vec::new();
            assert(vars_view(env@) =~= Seq::<MVar>::empty());
            let r = env_set_in(&mut env, name, value, mutable);
            if r.is_ok() {
                let ghost ev = vars_view(env@);
                self.envs.push(env);
                assert(self.envs@.map_values(|e: Vec<Var>| vars_view(e@)) =~= seq![ev]);
            }
            r
        }
    }
}

proof fn lemma_fraction_count_prefix(c: Seq<Chunk>, i: int)
    requires
        0 <= i <= c.len(),
    ensures
        fraction_count(c.take(i)) <= fraction_count(c),
    decreases c.len() - i,
{
    if i < c.len() {
        lemma_fraction_count_prefix(c, i + 1);
        assert(c.take(i + 1).drop_last() =~= c.take(i));
    } else {
        assert(c.take(i) =~= c);
    }
}

/// How many of the pieces are fractions.
fn fraction_count_exec(ps: &Vec<Piece>) -> (r: usize)
    ensures
        r == fraction_count(chunks(ps@)),
{
    let mut n: usize = 0;
    let mut i: usize = 0;
    while i < ps.len()
        invariant
            0 <= i <= ps.len(),
            n == fraction_count(chunks(ps@.take(i as int))),
            n <= i,
        decreases ps.len() - i,
    {
        assert(chunks(ps@.take(i as int + 1)).drop_last() =~= chunks(ps@.take(i as int)));
        assert(chunks(ps@.take(i as int + 1)).last() == ps@[i as int]@);
        match &ps[i] {
            Piece::Text(_) => {},
            _ => {
                n += 1;
            },
        }
        i += 1;
    }
    assert(ps@.take(ps.len() as int) =~= ps@);
    n
}

/// The text of the pieces, with `ts` in place of their fractions.
fn splice_exec(ps: &Vec<Piece>, ts: &Vec<String>) -> (r: String)
    requires
        ts.len() == fraction_count(chunks(ps@)),
    ensures
        r@ == spliced(chunks(ps@), texts(ts@)),
{
    let ghost c = chunks(ps@);
    let mut r = String::new();
    let mut i: usize = 0;
    let mut j: usize = 0;
    proof {
        assert(ps@.take(0) =~= Seq::<Piece>::empty());
        assert(chunks(ps@.take(0)) =~= Seq::<Chunk>::empty());
        assert(texts(ts@).take(0) =~= Seq::<Seq<char>>::empty());
    }
    while i < ps.len()
        invariant
            0 <= i <= ps.len(),
            c == chunks(ps@),
            ts.len() == fraction_count(c),
            j == fraction_count(chunks(ps@.take(i as int))),
            j <= ts.len(),
            r@ == spliced(chunks(ps@.take(i as int)), texts(ts@).take(j as int)),
        decreases ps.len() - i,
    {
        let ghost pre = chunks(ps@.take(i as int));
        let ghost next = chunks(ps@.take(i as int + 1));
        assert(next.drop_last() =~= pre);
        assert(next.last() == ps@[i as int]@);
        proof {
            lemma_fraction_count_prefix(c, i as int + 1);
            assert(c.take(i as int + 1) =~= next);
        }
        match &ps[i] {
            Piece::Text(t) => {
                r = concat(r.as_str(), t.as_str());
            },
            _ => {
                assert(texts(ts@).take(j as int + 1).drop_last() =~= texts(ts@).take(j as int));
                assert(texts(ts@).take(j as int + 1).last() == ts@[j as int]@);
                r = concat(r.as_str(), ts[j].as_str());
                j += 1;
            },
        }
        i += 1;
    }
    assert(ps@.take(ps.len() as int) =~= ps@);
    assert(texts(ts@).take(j as int) =~= texts(ts@));
    r
}

fn copy_pieces(ps: &Vec<Piece>) -> (r: Vec<Piece>)
    ensures
        chunks(r@) == chunks(ps@),
{
    let mut out: Vec<Piece> = Vec::new();
    let mut i: usize = 0;
    while i < ps.len()
        invariant
            0 <= i <= ps.len(),
            out.len() == i,
            forall|k: int| 0 <= k < i ==> #[trigger] out@[k]@ == ps@[k]@,
        decreases ps.len() - i,
    {
        let c = match &ps[i] {
            Piece::Text(t) => Piece::Text(t.clone()),
            Piece::Fraction(b) => Piece::Fraction(*b),
            Piece::FractionDebug(b) => Piece::FractionDebug(*b),
        };
        out.push(c);
        i += 1;
    }
    assert(chunks(out@) =~= chunks(ps@));
    out
}

fn copy_request(r: &FileRequest) -> (c: FileRequest)
    ensures
        c@ == r@,
{
    match r {
        FileRequest::Read(p) => FileRequest::Read(p.clone()),
        FileRequest::Write(p, t) => FileRequest::Write(p.clone(), t.clone()),
        FileRequest::Append(p, t) => FileRequest::Append(p.clone(), t.clone()),
        FileRequest::Delete(p) => FileRequest::Delete(p.clone()),
        FileRequest::Copy(a, b) => FileRequest::Copy(a.clone(), b.clone()),
        FileRequest::Rename(a, b) => FileRequest::Rename(a.clone(), b.clone()),
        FileRequest::Exists(p) => FileRequest::Exists(p.clone()),
        FileRequest::Size(p) => FileRequest::Size(p.clone()),
        FileRequest::Time(p) => FileRequest::Time(p.clone()),
        FileRequest::ListDir(p) => FileRequest::ListDir(p.clone()),
        FileRequest::CreateDir(p) => FileRequest::CreateDir(p.clone()),
        FileRequest::RemoveDir(p) => FileRequest::RemoveDir(p.clone()),
    }
}

fn copy_native_args(a: &NativeArgs) -> (c: NativeArgs)
    ensures
        c@ == a@,
{
    match a {
        NativeArgs::Nothing => NativeArgs::Nothing,
        NativeArgs::Text(t) => NativeArgs::Text(t.clone()),
        NativeArgs::Texts(x, y) => NativeArgs::Texts(x.clone(), y.clone()),
        NativeArgs::Wholes(x, y) => NativeArgs::Wholes(*x, *y),
    }
}

/// The decimal text of a count.
fn count_string(n: usize) -> (r: String)
    ensures
        r@ == count_text(n as nat),
{
    let d = nat_digits(n as u64);
    string_from_chars(d.as_slice())
}

fn has_nul_exec(t: &str) -> (r: bool)
    ensures
        r == has_nul(t@),
{
    let cs = chars_of(t);
    let mut i: usize = 0;
    while i < cs.len()
        invariant
            0 <= i <= cs.len(),
            cs@ == t@,
            forall|k: int| 0 <= k < i ==> cs@[k] != '\0',
        decreases cs.len() - i,
    {
        if cs[i] == '\0' {
            return true;
        }
        i += 1;
    }
    false
}

proof fn lemma_trim_start_skip(t: Seq<char>, i: int)
    requires
        0 <= i <= t.len(),
        forall|k: int| 0 <= k < i ==> is_white(#[trigger] t[k]),
    ensures
        trim_start(t) == trim_start(t.skip(i)),
    decreases i,
{
    if i > 0 {
        assert(is_white(t[0]));
        lemma_trim_start_skip(t.drop_first(), i - 1);
        assert(t.drop_first().skip(i - 1) =~= t.skip(i));
    } else {
        assert(t.skip(0) =~= t);
    }
}

proof fn lemma_trim_end_take(t: Seq<char>, j: int)
    requires
        0 <= j <= t.len(),
        forall|k: int| j <= k < t.len() ==> is_white(#[trigger] t[k]),
    ensures
        trim_end(t) == trim_end(t.take(j)),
    decreases t.len() - j,
{
    if j < t.len() {
        assert(is_white(t.last()));
        lemma_trim_end_take(t.drop_last(), j);
        assert(t.drop_last().take(j) =~= t.take(j));
    } else {
        assert(t.take(j) =~= t);
    }
}

/// `str::trim`.
fn trim_exec(t: &str) -> (r: String)
    ensures
        r@ == trim(t@),
{
    let cs = chars_of(t);
    let mut i: usize = 0;
    while i < cs.len() && is_white_char(cs[i])
        invariant
            0 <= i <= cs.len(),
            cs@ == t@,
            forall|k: int| 0 <= k < i ==> is_white(#[trigger] cs@[k]),
        decreases cs.len() - i,
    {
        i += 1;
    }
    proof {
        lemma_trim_start_skip(cs@, i as int);
    }
    let ghost rest = cs@.skip(i as int);
    assert(trim_start(rest) == rest);
    let mut j: usize = cs.len();
    while j > i && is_white_char(cs[j - 1])
        invariant
            i <= j <= cs.len(),
            cs@ == t@,
            rest == cs@.skip(i as int),
            forall|k: int| j <= k < cs.len() ==> is_white(#[trigger] cs@[k]),
        decreases j,
    {
        j -= 1;
    }
    proof {
        assert forall|k: int| j - i <= k < rest.len() implies is_white(#[trigger] rest[k]) by {
            assert(rest[k] == cs@[k + i]);
        }
        lemma_trim_end_take(rest, j - i);
    }
    let mut out: Vec<char> = Vec::new();
    let mut k: usize = i;
    while k < j
        invariant
            i <= k <= j <= cs.len(),
            out@ == cs@.subrange(i as int, k as int),
        decreases j - k,
    {
        out.push(cs[k]);
        assert(out@ =~= cs@.subrange(i as int, k + 1));
        k += 1;
    }
    proof {
        let tk = rest.take(j - i);
        assert(tk =~= cs@.subrange(i as int, j as int));
        if tk.len() > 0 {
            assert(!is_white(tk.last())) by {
                assert(tk.last() == cs@[j - 1]);
            }
        }
        assert(trim_end(tk) == tk);
    }
    string_from_chars(out.as_slice())
}

proof fn lemma_utf8_len_bound(t: Seq<char>)
    ensures
        utf8_len(t) <= 4 * t.len(),
    decreases t.len(),
{
    if t.len() > 0 {
        lemma_utf8_len_bound(t.drop_last());
    }
}

/// The UTF-8 length of a text.
fn utf8_len_exec(t: &str) -> (r: u128)
    ensures
        r == utf8_len(t@),
{
    let cs = chars_of(t);
    let mut n: u128 = 0;
    let mut i: usize = 0;
    while i < cs.len()
        invariant
            0 <= i <= cs.len(),
            cs@ == t@,
            n == utf8_len(cs@.take(i as int)),
        decreases cs.len() - i,
    {
        proof {
            assert(cs@.take(i + 1).drop_last() =~= cs@.take(i as int));
            lemma_utf8_len_bound(cs@.take(i as int));
        }
        let u = cs[i] as u32;
        if u < 0x80 {
            n = n + 1;
        } else if u < 0x800 {
            n = n + 2;
        } else if u < 0x10000 {
            n = n + 3;
        } else {
            n = n + 4;
        }
        i += 1;
    }
    assert(cs@.take(cs.len() as int) =~= cs@);
    n
}

/// The fields of a new object of a form.
fn object_fields_exec(infos: &Vec<FieldInfo>) -> (r: Vec<Field>)
    ensures
        fields_view(r@) == object_fields(infos_view(infos@)),
{
    let mut out: Vec<Field> = Vec::new();
    let mut i: usize = 0;
    while i < infos.len()
        invariant
            0 <= i <= infos.len(),
            fields_view(out@) == object_fields(infos_view(infos@)).take(i as int),
        decreases infos.len() - i,
    {
        let value = match &infos[i].default {
            Some(v) => v.copy(),
            None => Value::Nil,
        };
        let f = Field { name: infos[i].name.clone(), value };
        proof {
            crate::value::lemma_fields_view_push(out@, f);
        }
        out.push(f);
        assert(fields_view(out@) =~= object_fields(infos_view(infos@)).take(i + 1));
        i += 1;
    }
    assert(object_fields(infos_view(infos@)).take(infos.len() as int) =~= object_fields(
        infos_view(infos@),
    ));
    out
}

spec fn result_view(r: Result<Value, RuntimeError>) -> Result<VVal, MErr> {
    match r {
        Ok(v) => Ok(v@),
        Err(e) => Err(e@),
    }
}

/// `get_field`.
fn field_of_exec(obj: Value, f: &str) -> (r: Result<Value, RuntimeError>)
    ensures
        result_view(r) == field_of(obj@, f@),
{
    match obj {
        Value::Object { form_name: _, mut fields } => {
            proof {
                lemma_fields_view(fields@);
                crate::value::lemma_find_field_bounds(fields_view(fields@), f@);
            }
            match field_position(&fields, f) {
                Some(j) => {
                    let fd = fields.remove(j);
                    Ok(fd.value)
                },
                None => Err(RuntimeError::UndefinedField(f.to_owned())),
            }
        },
        _ => Err(RuntimeError::TypeError("Cannot access field on non-object".to_owned())),
    }
}

/// `get_index`.
fn item_at_exec(obj: Value, idx: Value) -> (r: Result<Value, RuntimeError>)
    ensures
        result_view(r) == item_at(obj@, idx@),
{
    match (obj, idx) {
        (Value::List(mut items), Value::Whole(i)) => {
            proof {
                lemma_values_view(items@);
            }
            let k = i as usize;
            if k < items.len() {
                Ok(items.remove(k))
            } else {
                Err(RuntimeError::IndexOutOfBounds)
            }
        },
        (Value::List(_), _) => Err(RuntimeError::TypeError("List index must be integer".to_owned())),
        _ => Err(RuntimeError::TypeError("Cannot index non-list".to_owned())),
    }
}

/// Binds the parameters, constant, to the arguments in a fresh environment.
fn bind_params_exec(params: &Vec<String>, args: &Vec<Value>) -> (r: Result<Vec<Var>, RuntimeError>)
    requires
        params.len() == args.len(),
    ensures
        match bind_params(Seq::empty(), names_view(params@), values_view(args@)) {
            Ok(e) => r matches Ok(env) && vars_view(env@) == e,
            Err(x) => r matches Err(y) && y@ == x,
        },
{
    proof {
        lemma_values_view(args@);
    }
    let mut env: Vec<Var> = Vec::new();
    let mut i: usize = 0;
    assert(vars_view(env@) =~= Seq::<MVar>::empty());
    while i < params.len()
        invariant
            0 <= i <= params.len(),
            params.len() == args.len(),
            values_view(args@).len() == args.len(),
            forall|k: int| 0 <= k < args.len() ==> #[trigger] values_view(args@)[k] == args@[k]@,
            bind_params(
                Seq::empty(),
                names_view(params@).take(i as int),
                values_view(args@).take(i as int),
            ) == Ok::<Seq<MVar>, MErr>(vars_view(env@)),
        decreases params.len() - i,
    {
        let ghost ps = names_view(params@).take(i + 1);
        let ghost vs = values_view(args@).take(i + 1);
        assert(ps.drop_last() =~= names_view(params@).take(i as int));
        assert(vs.drop_last() =~= values_view(args@).take(i as int));
        let r = env_set_in(&mut env, params[i].clone(), args[i].copy(), false);
        match r {
            Ok(()) => {},
            Err(e) => {
                proof {
                    lemma_bind_params_err(
                        names_view(params@),
                        values_view(args@),
                        i as int + 1,
                    );
                }
                return Err(e);
            },
        }
        i += 1;
    }
    assert(names_view(params@).take(params.len() as int) =~= names_view(params@));
    assert(values_view(args@).take(args.len() as int) =~= values_view(args@));
    Ok(env)
}

/// Once binding fails, it fails with the same error however many more
/// parameters follow.
proof fn lemma_bind_params_err(ps: Seq<Seq<char>>, vs: Seq<VVal>, i: int)
    requires
        0 < i <= ps.len(),
        ps.len() == vs.len(),
        bind_params(Seq::empty(), ps.take(i), vs.take(i)) is Err,
    ensures
        bind_params(Seq::empty(), ps, vs) == bind_params(Seq::empty(), ps.take(i), vs.take(i)),
    decreases ps.len() - i,
{
    if i < ps.len() {
        assert(ps.take(i + 1).drop_last() =~= ps.take(i));
        assert(vs.take(i + 1).drop_last() =~= vs.take(i));
        lemma_bind_params_err(ps, vs, i + 1);
    } else {
        assert(ps.take(i) =~= ps);
        assert(vs.take(i) =~= vs);
    }
}

fn find_native_exec(mods: &Vec<NativeModule>, name: &str) -> (r: Option<(usize, usize)>)
    ensures
        match find_native(mods@.map_values(|m: NativeModule| m@), name@) {
            Some((mi, fi)) => r matches Some((a, b)) && a == mi && b == fi && a < mods.len() && b
                < mods@[a as int].functions.len(),
            None => r is None,
        },
{
    let ghost v = mods@.map_values(|m: NativeModule| m@);
    let mut i: usize = 0;
    while i < mods.len()
        invariant
            0 <= i <= mods.len(),
            v == mods@.map_values(|m: NativeModule| m@),
            forall|k: int| 0 <= k < i ==> !has_native_fn(name@)(#[trigger] v[k]),
        decreases mods.len() - i,
    {
        match find_native_fn_exec(&mods[i].functions, name) {
            Some(j) => {
                proof {
                    lemma_first_match(v, has_native_fn(name@));
                    assert(has_native_fn(name@)(v[i as int]));
                    let r = first_match(v, has_native_fn(name@));
                    if r is Some {
                        let x = r->0;
                        assert(!(x < i));
                        assert(!(x > i));
                    }
                }
                return Some((i, j));
            },
            None => {
                assert(!has_native_fn(name@)(v[i as int]));
            },
        }
        i += 1;
    }
    proof {
        lemma_first_match(v, has_native_fn(name@));
    }
    None
}

impl Interpreter {
    /// Continues with control `c`.
    fn go(&mut self, c: Control) -> (res: Action)
        ensures
            final(self)@ == set_control(old(self)@, c@),
            res@ == MAction::Continue,
    {
        self.control = c;
        Action::Continue
    }

    fn raise_text(&mut self, m: String) -> (res: Action)
        ensures
            final(self)@ == set_control(old(self)@, MControl::Raise(MErr::TypeError(m@))),
            res@ == MAction::Continue,
    {
        self.go(Control::Raise(RuntimeError::TypeError(m)))
    }

    fn halt_exec(&mut self, message: &str, Ghost(c): Ghost<MControl>) -> (res: Action)
        ensures
            final(self)@ == halt(set_control(old(self)@, c), message@).0,
            res@ == halt(set_control(old(self)@, c), message@).1,
    {
        self.envs = Vec::new();
        self.conts = Vec::new();
        self.control = Control::Idle;
        proof {
            assert(self@.envs =~= Seq::<Seq<MVar>>::empty());
            assert(self@.conts =~= Seq::<MCont>::empty());
        }
        Action::Panic(message.to_owned())
    }

    fn render_exec(&mut self, ps: Vec<Piece>, error: bool) -> (res: Action)
        ensures
            final(self)@ == render_step(old(self)@, chunks(ps@), error).0,
            res@ == render_step(old(self)@, chunks(ps@), error).1,
    {
        if fraction_count_exec(&ps) == 0 {
            let none: Vec<String> = Vec::new();
            assert(texts(none@) =~= Seq::<Seq<char>>::empty());
            let t = splice_exec(&ps, &none);
            if error {
                self.go(Control::Raise(RuntimeError::TypeError(t)))
            } else {
                self.go(Control::Value(Value::String(t)))
            }
        } else {
            let a = copy_pieces(&ps);
            if error {
                self.control = Control::Await(Pending::RenderError(ps));
            } else {
                self.control = Control::Await(Pending::RenderValue(ps));
            }
            Action::Render(a)
        }
    }

    fn outcome_exec(&mut self, o: Outcome, panic: &str, Ghost(c): Ghost<MControl>) -> (res: Action)
        ensures
            final(self)@ == outcome_step(set_control(old(self)@, c), o@, panic@).0,
            res@ == outcome_step(set_control(old(self)@, c), o@, panic@).1,
    {
        match o {
            Outcome::Ready(v) => self.go(Control::Value(v)),
            Outcome::Failed(e) => self.go(Control::Raise(e)),
            Outcome::Float(t) => {
                self.control = Control::Await(Pending::Float(t));
                Action::Float(t)
            },
            Outcome::Text(ps) => self.render_exec(ps, false),
            Outcome::ErrorText(ps) => self.render_exec(ps, true),
            Outcome::Overflow => self.halt_exec(panic, Ghost(c)),
        }
    }

    fn binary_exec(&mut self, op: BinOp, l: Value, r: Value, Ghost(c): Ghost<MControl>) -> (res: Action)
        ensures
            final(self)@ == binary_step(set_control(old(self)@, c), op, l@, r@).0,
            res@ == binary_step(set_control(old(self)@, c), op, l@, r@).1,
    {
        match op {
            BinOp::Add => self.outcome_exec(l.add(r), "", Ghost(c)),
            BinOp::Sub => self.outcome_exec(l.sub(r), "", Ghost(c)),
            BinOp::Mul => self.outcome_exec(l.mul(r), "", Ghost(c)),
            BinOp::Div => self.outcome_exec(l.div(r), "attempt to divide with overflow", Ghost(c)),
            BinOp::Rem => self.outcome_exec(
                l.rem(r),
                "attempt to calculate the remainder with overflow",
                Ghost(c),
            ),
            BinOp::Eq => {
                let b = l.equals(&r);
                self.go(Control::Value(Value::Bool(b)))
            },
            BinOp::Ne => {
                let b = l.equals(&r);
                self.go(Control::Value(Value::Bool(!b)))
            },
            BinOp::Lt => self.outcome_exec(l.lt(r), "", Ghost(c)),
            BinOp::Le => self.outcome_exec(l.le(r), "", Ghost(c)),
            BinOp::Gt => self.outcome_exec(l.gt(r), "", Ghost(c)),
            BinOp::Ge => self.outcome_exec(l.ge(r), "", Ghost(c)),
            BinOp::And => {
                let b = l.is_truthy() && r.is_truthy();
                self.go(Control::Value(Value::Bool(b)))
            },
            BinOp::Or => {
                let b = l.is_truthy() || r.is_truthy();
                self.go(Control::Value(Value::Bool(b)))
            },
        }
    }

    fn result_exec(&mut self, r: Result<Value, RuntimeError>) -> (res: Action)
        ensures
            final(self)@ == result_step(old(self)@, result_view(r)).0,
            res@ == result_step(old(self)@, result_view(r)).1,
    {
        match r {
            Ok(v) => self.go(Control::Value(v)),
            Err(e) => self.go(Control::Raise(e)),
        }
    }

    /// One step on `Eval(e)`.
    fn eval_exec(&mut self, e: Expr, Ghost(c): Ghost<MControl>) -> (res: Action)
        ensures
            final(self)@ == eval_step(set_control(old(self)@, c), expr_view(e)).0,
            res@ == eval_step(set_control(old(self)@, c), expr_view(e)).1,
    {
        match e {
            Expr::Literal(v) => self.go(Control::Value(v)),
            Expr::List(es) => {
                proof {
                    lemma_exprs_view(es@);
                }
                if es.len() == 0 {
                    let empty: Vec<Value> = Vec::new();
                    assert(values_view(empty@) =~= Seq::<VVal>::empty());
                    self.go(Control::Value(Value::List(empty)))
                } else {
                    let first = es[0].copy();
                    let done: Vec<Value> = Vec::new();
                    assert(values_view(done@) =~= Seq::<VVal>::empty());
                    self.push_cont(Cont::ListAcc(done, es, 1));
                    self.go(Control::Eval(first))
                }
            },
            Expr::Variable(n) => match self.lookup(n.as_str()) {
                Some(v) => self.go(Control::Value(v)),
                None => self.go(Control::Raise(RuntimeError::UndefinedVariable(n))),
            },
            Expr::Binary { left, op, right } => {
                self.push_cont(Cont::BinRight(op, *right));
                self.go(Control::Eval(*left))
            },
            Expr::Unary { op: _, expr } => {
                self.push_cont(Cont::Not);
                self.go(Control::Eval(*expr))
            },
            Expr::Call { name, args } => {
                proof {
                    lemma_exprs_view(args@);
                }
                if args.len() == 0 {
                    let empty: Vec<Value> = Vec::new();
                    assert(values_view(empty@) =~= Seq::<VVal>::empty());
                    self.go(Control::Call(name, empty))
                } else {
                    let first = args[0].copy();
                    let done: Vec<Value> = Vec::new();
                    assert(values_view(done@) =~= Seq::<VVal>::empty());
                    self.push_cont(Cont::CallArgs(name, done, args, 1));
                    self.go(Control::Eval(first))
                }
            },
            Expr::Field { object, field } => {
                self.push_cont(Cont::GetField(field));
                self.go(Control::Eval(*object))
            },
            Expr::Index { object, index } => {
                self.push_cont(Cont::IndexObj(*index));
                self.go(Control::Eval(*object))
            },
            Expr::New { name } => match find_form_exec(&self.forms, name.as_str()) {
                Some(i) => {
                    let fields = object_fields_exec(&self.forms[i].fields);
                    self.go(Control::Value(Value::Object { form_name: name, fields }))
                },
                None => self.go(Control::Raise(RuntimeError::UndefinedVariable(name))),
            },
            Expr::Entry { prompt } => match prompt {
                Some(p) => {
                    self.push_cont(Cont::EntryPrompt);
                    self.go(Control::Eval(*p))
                },
                None => {
                    self.control = Control::Await(Pending::Line(String::new()));
                    Action::Prompt(String::new())
                },
            },
        }
    }

    /// One step on `Exec(st)`.
    fn exec_exec(&mut self, st: Stmt, Ghost(c): Ghost<MControl>) -> (res: Action)
        ensures
            final(self)@ == exec_step(set_control(old(self)@, c), stmt_view(st)).0,
            res@ == exec_step(set_control(old(self)@, c), stmt_view(st)).1,
    {
        match st {
            Stmt::SetVar { name, value, mutable } => {
                self.push_cont(Cont::SetVar(name, mutable));
                self.go(Control::Eval(value))
            },
            Stmt::Assign { target, value } => {
                self.push_cont(Cont::AssignTo(target));
                self.go(Control::Eval(value))
            },
            Stmt::Log(e) => {
                self.push_cont(Cont::Log);
                self.go(Control::Eval(e))
            },
            Stmt::If { condition, then_block, else_block } => {
                self.push_cont(Cont::Branch(then_block, else_block));
                self.go(Control::Eval(condition))
            },
            Stmt::Loop { condition, body } => {
                let c2 = condition.copy();
                self.push_cont(Cont::LoopTest(condition, body));
                self.go(Control::Eval(c2))
            },
            Stmt::Break => self.go(Control::Raise(RuntimeError::Break)),
            Stmt::Wait(e) => {
                self.push_cont(Cont::WaitFor);
                self.go(Control::Eval(e))
            },
            Stmt::Return(e) => match e {
                Some(x) => {
                    self.push_cont(Cont::Give);
                    self.go(Control::Eval(x))
                },
                None => self.go(Control::Raise(RuntimeError::Return(Value::Nil))),
            },
            Stmt::Trap { try_block, catch_block } => {
                self.push_cont(Cont::Trap(catch_block));
                self.push_cont(Cont::Stmts(try_block, 0));
                self.go(Control::Value(Value::Nil))
            },
            Stmt::ExprStmt(e) => {
                self.push_cont(Cont::Discard);
                self.go(Control::Eval(e))
            },
        }
    }

    /// One step on `Declare(d)`.
    fn declare_exec(&mut self, d: Decl, Ghost(c): Ghost<MControl>) -> (res: Action)
        ensures
            final(self)@ == declare_step(set_control(old(self)@, c), decl_view(d)).0,
            res@ == declare_step(set_control(old(self)@, c), decl_view(d)).1,
    {
        match d {
            Decl::Link { path, alias: _ } => {
                let m = concat("Loading module: ", path.as_str());
                self.control = Control::Request(Pending::Path(path, false));
                Action::Log(LogLevel::Info, m)
            },
            Decl::Proc { name, params, body } => {
                insert_proc_exec(&mut self.procs, ProcDef { name, params, body });
                self.go(Control::Value(Value::Nil))
            },
            Decl::Form { name, fields } => {
                let empty: Vec<FieldInfo> = Vec::new();
                assert(infos_view(empty@) =~= Seq::<MFieldInfo>::empty());
                self.go(Control::DeclareFields(name, fields, 0, empty))
            },
        }
    }

    /// One step on `DeclareFields(n, fs, i, infos)`.
    fn fields_exec(
        &mut self,
        n: String,
        fs: Vec<FieldDecl>,
        i: usize,
        infos: Vec<FieldInfo>,
        Ghost(c): Ghost<MControl>,
    ) -> (res: Action)
        ensures
            final(self)@ == fields_step(
                set_control(old(self)@, c),
                n@,
                field_decls_view(fs@),
                i as nat,
                infos_view(infos@),
            ).0,
            res@ == fields_step(
                set_control(old(self)@, c),
                n@,
                field_decls_view(fs@),
                i as nat,
                infos_view(infos@),
            ).1,
    {
        let mut infos = infos;
        if i >= fs.len() {
            insert_form_exec(&mut self.forms, FormDef { name: n, fields: infos });
            return self.go(Control::Value(Value::Nil));
        }
        match &fs[i].initial {
            None => {
                let info = FieldInfo { name: fs[i].name.clone(), mutable: fs[i].mutable, default: None };
                insert_info_exec(&mut infos, info);
                self.go(Control::DeclareFields(n, fs, i + 1, infos))
            },
            Some(e) => {
                let e2 = e.copy();
                let fresh: Vec<Var> = Vec::new();
                assert(vars_view(fresh@) =~= Seq::<MVar>::empty());
                self.push_env(fresh);
                self.push_cont(Cont::FieldDefault(n, fs, i, infos));
                self.go(Control::Eval(e2))
            },
        }
    }
}

impl Interpreter {
    /// `assign(t, v)`.
    fn assign_exec(&mut self, t: Expr, v: Value, Ghost(c): Ghost<MControl>) -> (res: Action)
        ensures
            final(self)@ == assign_step(set_control(old(self)@, c), expr_view(t), v@).0,
            res@ == assign_step(set_control(old(self)@, c), expr_view(t), v@).1,
    {
        match t {
            Expr::Variable(n) => match self.assign_var(n, v, true) {
                Ok(()) => self.go(Control::Value(Value::Nil)),
                Err(e) => self.go(Control::Raise(e)),
            },
            Expr::Field { object, field } => {
                let o2 = (*object).copy();
                self.push_cont(Cont::AssignField(*object, field, v));
                self.go(Control::Eval(o2))
            },
            Expr::Index { object, index } => {
                self.push_cont(Cont::AssignIndexIdx(*object, v));
                self.go(Control::Eval(*index))
            },
            _ => self.raise_text("Invalid assignment target".to_owned()),
        }
    }

    /// Unwinds the top continuation with `e`.
    fn unwind_exec(&mut self, e: RuntimeError, Ghost(c): Ghost<MControl>) -> (res: Action)
        ensures
            final(self)@ == unwind(set_control(old(self)@, c), e@).0,
            res@ == unwind(set_control(old(self)@, c), e@).1,
    {
        match self.pop_cont() {
            None => {
                self.control = Control::Idle;
                Action::Finished(Some(e))
            },
            Some(k) => match k {
                Cont::Scope => {
                    self.drop_env();
                    self.go(Control::Raise(e))
                },
                Cont::Globals => {
                    self.store_globals_exec();
                    self.go(Control::Raise(e))
                },
                Cont::LoopAgain(_, _) => match e {
                    RuntimeError::Break => self.go(Control::Value(Value::Nil)),
                    _ => self.go(Control::Raise(e)),
                },
                Cont::Trap(cb) => {
                    self.push_cont(Cont::Stmts(cb, 0));
                    self.go(Control::Value(Value::Nil))
                },
                Cont::CallBody(n) => match e {
                    RuntimeError::Return(v) => {
                        self.drop_env();
                        self.go(Control::Value(v))
                    },
                    _ => {
                        let head = concat(concat("Error in user function ", n.as_str()).as_str(), ": ");
                        let m = concat(head.as_str(), e.message().as_str());
                        self.drop_env();
                        self.control = Control::Raise(e);
                        Action::Log(LogLevel::Error, m)
                    },
                },
                Cont::FieldDefault(_, _, _, _) => {
                    self.drop_env();
                    self.go(Control::Raise(e))
                },
                _ => self.go(Control::Raise(e)),
            },
        }
    }
}

spec fn flow_cont(k: MCont) -> bool {
    k is Scope || k is Globals || k is Items || k is Stmts || k is Log || k is Branch || k is LoopTest
        || k is LoopAgain || k is WaitFor || k is Give || k is Trap || k is Discard || k is CallBody
        || k is FieldDefault
}

spec fn expr_cont(k: MCont) -> bool {
    k is BinRight || k is BinApply || k is Not || k is ListAcc || k is CallArgs || k is GetField
        || k is IndexObj || k is IndexApply || k is EntryPrompt
}

impl Interpreter {
    /// Delivery to a continuation of statements and control flow.
    fn deliver_flow(&mut self, k: Cont, v: Value, Ghost(c): Ghost<MControl>) -> (res: Action)
        requires
            flow_cont(k@),
        ensures
            final(self)@ == deliver_to(set_control(old(self)@, c), k@, v@).0,
            res@ == deliver_to(set_control(old(self)@, c), k@, v@).1,
    {
        match k {
            Cont::Scope => {
                self.drop_env();
                self.go(Control::Value(v))
            },
            Cont::Globals => {
                self.store_globals_exec();
                self.go(Control::Value(v))
            },
            Cont::Items(its, i) => {
                if i < its.len() {
                    let ctl = match &its[i] {
                        Item::Decl(d) => Control::Declare(d.copy()),
                        Item::Stmt(st) => Control::Exec(st.copy()),
                    };
                    self.push_cont(Cont::Items(its, i + 1));
                    self.go(ctl)
                } else {
                    self.go(Control::Value(Value::Nil))
                }
            },
            Cont::Stmts(ss, i) => {
                proof {
                    lemma_stmts_view(ss@);
                }
                if i < ss.len() {
                    let st = ss[i].copy();
                    self.push_cont(Cont::Stmts(ss, i + 1));
                    self.go(Control::Exec(st))
                } else {
                    self.go(Control::Value(Value::Nil))
                }
            },
            Cont::Log => {
                let ps = v.display_pieces();
                self.control = Control::Value(Value::Nil);
                Action::Print(ps)
            },
            Cont::Branch(tb, eb) => {
                if v.is_truthy() {
                    self.push_cont(Cont::Stmts(tb, 0));
                    self.go(Control::Value(Value::Nil))
                } else {
                    match eb {
                        Some(b) => {
                            self.push_cont(Cont::Stmts(b, 0));
                            self.go(Control::Value(Value::Nil))
                        },
                        None => self.go(Control::Value(Value::Nil)),
                    }
                }
            },
            Cont::LoopTest(cnd, b) => {
                if v.is_truthy() {
                    let b2 = Stmt::copy_block(&b);
                    self.push_cont(Cont::LoopAgain(cnd, b));
                    self.push_cont(Cont::Stmts(b2, 0));
                    self.go(Control::Value(Value::Nil))
                } else {
                    self.go(Control::Value(Value::Nil))
                }
            },
            Cont::LoopAgain(cnd, b) => {
                let c2 = cnd.copy();
                self.push_cont(Cont::LoopTest(cnd, b));
                self.go(Control::Eval(c2))
            },
            Cont::WaitFor => match v {
                Value::Whole(n) => {
                    self.control = Control::Value(Value::Nil);
                    Action::Sleep(Delay::Seconds(n as u64))
                },
                Value::Fraction(f) => {
                    self.control = Control::Value(Value::Nil);
                    Action::Sleep(Delay::Fraction(f))
                },
                _ => self.raise_text("wait expects number".to_owned()),
            },
            Cont::Give => self.go(Control::Raise(RuntimeError::Return(v))),
            Cont::Trap(_) => self.go(Control::Value(Value::Nil)),
            Cont::Discard => self.go(Control::Value(Value::Nil)),
            Cont::CallBody(_) => {
                self.drop_env();
                self.go(Control::Value(Value::Nil))
            },
            Cont::FieldDefault(n, fs, i, infos) => {
                self.drop_env();
                let mut infos = infos;
                if i < fs.len() {
                    let info = FieldInfo {
                        name: fs[i].name.clone(),
                        mutable: fs[i].mutable,
                        default: Some(v),
                    };
                    insert_info_exec(&mut infos, info);
                    self.go(Control::DeclareFields(n, fs, i + 1, infos))
                } else {
                    self.go(Control::DeclareFields(n, fs, i, infos))
                }
            },
            _ => Action::Continue,
        }
    }

    /// Delivery to a continuation inside an expression.
    fn deliver_expr(&mut self, k: Cont, v: Value, Ghost(c): Ghost<MControl>) -> (res: Action)
        requires
            expr_cont(k@),
        ensures
            final(self)@ == deliver_to(set_control(old(self)@, c), k@, v@).0,
            res@ == deliver_to(set_control(old(self)@, c), k@, v@).1,
    {
        match k {
            Cont::BinRight(op, r) => {
                self.push_cont(Cont::BinApply(op, v));
                self.go(Control::Eval(r))
            },
            Cont::BinApply(op, l) => self.binary_exec(op, l, v, Ghost(c)),
            Cont::Not => {
                let b = v.is_truthy();
                self.go(Control::Value(Value::Bool(!b)))
            },
            Cont::ListAcc(done, es, i) => {
                let mut done = done;
                proof {
                    lemma_values_view_push(done@, v);
                    lemma_exprs_view(es@);
                }
                done.push(v);
                if i < es.len() {
                    let nx = es[i].copy();
                    self.push_cont(Cont::ListAcc(done, es, i + 1));
                    self.go(Control::Eval(nx))
                } else {
                    self.go(Control::Value(Value::List(done)))
                }
            },
            Cont::CallArgs(n, done, es, i) => {
                let mut done = done;
                proof {
                    lemma_values_view_push(done@, v);
                    lemma_exprs_view(es@);
                }
                done.push(v);
                if i < es.len() {
                    let nx = es[i].copy();
                    self.push_cont(Cont::CallArgs(n, done, es, i + 1));
                    self.go(Control::Eval(nx))
                } else {
                    self.go(Control::Call(n, done))
                }
            },
            Cont::GetField(f) => {
                let r = field_of_exec(v, f.as_str());
                self.result_exec(r)
            },
            Cont::IndexObj(ie) => {
                self.push_cont(Cont::IndexApply(v));
                self.go(Control::Eval(ie))
            },
            Cont::IndexApply(obj) => {
                let r = item_at_exec(obj, v);
                self.result_exec(r)
            },
            Cont::EntryPrompt => match v {
                Value::String(p) => {
                    let p2 = p.clone();
                    self.control = Control::Await(Pending::Line(p));
                    Action::Prompt(p2)
                },
                _ => self.raise_text("entry prompt must be string".to_owned()),
            },
            _ => Action::Continue,
        }
    }

    /// Delivery to a continuation of an assignment.
    fn deliver_assign(&mut self, k: Cont, v: Value, Ghost(c): Ghost<MControl>) -> (res: Action)
        requires
            !flow_cont(k@),
            !expr_cont(k@),
        ensures
            final(self)@ == deliver_to(set_control(old(self)@, c), k@, v@).0,
            res@ == deliver_to(set_control(old(self)@, c), k@, v@).1,
    {
        match k {
            Cont::SetVar(n, m) => match self.assign_var(n, v, m) {
                Ok(()) => self.go(Control::Value(Value::Nil)),
                Err(e) => self.go(Control::Raise(e)),
            },
            Cont::AssignTo(t) => self.assign_exec(t, v, Ghost(c)),
            Cont::AssignField(oe, f, val) => match v {
                Value::Object { form_name, fields } => {
                    let mut fields = fields;
                    proof {
                        lemma_fields_view(fields@);
                        crate::value::lemma_find_field_bounds(fields_view(fields@), f@);
                    }
                    match field_position(&fields, f.as_str()) {
                        Some(j) => {
                            let nf = Field { name: f, value: val };
                            proof {
                                crate::value::lemma_fields_view_update(fields@, j as int, nf);
                            }
                            fields.set(j, nf);
                            self.push_cont(Cont::AssignTo(oe));
                            self.go(Control::Value(Value::Object { form_name, fields }))
                        },
                        None => self.go(Control::Raise(RuntimeError::UndefinedField(f))),
                    }
                },
                _ => self.raise_text("Cannot assign to field of non-object".to_owned()),
            },
            Cont::AssignIndexIdx(oe, val) => {
                let o2 = oe.copy();
                self.push_cont(Cont::AssignIndexObj(oe, val, v));
                self.go(Control::Eval(o2))
            },
            Cont::AssignIndexObj(oe, val, idx) => match (v, idx) {
                (Value::List(items), Value::Whole(i)) => {
                    let mut items = items;
                    proof {
                        lemma_values_view(items@);
                    }
                    let k = i as usize;
                    if k < items.len() {
                        proof {
                            crate::value::lemma_values_view_update(items@, k as int, val);
                        }
                        items.set(k, val);
                        self.push_cont(Cont::AssignTo(oe));
                        self.go(Control::Value(Value::List(items)))
                    } else {
                        self.go(Control::Raise(RuntimeError::IndexOutOfBounds))
                    }
                },
                (Value::List(_), _) => self.raise_text("List index must be integer".to_owned()),
                _ => self.raise_text("Cannot index non-list".to_owned()),
            },
            _ => Action::Continue,
        }
    }

    /// Hands `v` to the top continuation.
    fn deliver_exec(&mut self, v: Value, Ghost(c): Ghost<MControl>) -> (res: Action)
        ensures
            final(self)@ == deliver(set_control(old(self)@, c), v@).0,
            res@ == deliver(set_control(old(self)@, c), v@).1,
    {
        match self.pop_cont() {
            None => {
                self.control = Control::Idle;
                Action::Finished(None)
            },
            Some(k) => {
                if is_flow(&k) {
                    self.deliver_flow(k, v, Ghost(c))
                } else if is_expr(&k) {
                    self.deliver_expr(k, v, Ghost(c))
                } else {
                    self.deliver_assign(k, v, Ghost(c))
                }
            },
        }
    }
}

fn is_flow(k: &Cont) -> (r: bool)
    ensures
        r == flow_cont(k@),
{
    match k {
        Cont::Scope | Cont::Globals | Cont::Items(..) | Cont::Stmts(..) | Cont::Log | Cont::Branch(..)
        | Cont::LoopTest(..) | Cont::LoopAgain(..) | Cont::WaitFor | Cont::Give | Cont::Trap(..)
        | Cont::Discard | Cont::CallBody(..) | Cont::FieldDefault(..) => true,
        _ => false,
    }
}

fn is_expr(k: &Cont) -> (r: bool)
    ensures
        r == expr_cont(k@),
{
    match k {
        Cont::BinRight(..) | Cont::BinApply(..) | Cont::Not | Cont::ListAcc(..) | Cont::CallArgs(..)
        | Cont::GetField(..) | Cont::IndexObj(..) | Cont::IndexApply(..) | Cont::EntryPrompt => true,
        _ => false,
    }
}

fn file_builtin_1_exec(n: &str) -> (r: bool)
    ensures
        r == file_builtin_1(n@),
{
    text_eq(n, "read_file") || text_eq(n, "delete_file") || text_eq(n, "file_exists") || text_eq(
        n,
        "file_size",
    ) || text_eq(n, "file_time") || text_eq(n, "list_dir") || text_eq(n, "create_dir") || text_eq(
        n,
        "remove_dir",
    )
}

fn file_builtin_2_exec(n: &str) -> (r: bool)
    ensures
        r == file_builtin_2(n@),
{
    text_eq(n, "write_file") || text_eq(n, "append_file") || text_eq(n, "copy_file") || text_eq(
        n,
        "rename_file",
    )
}

fn file_request_1_exec(n: &str, p: String) -> (r: FileRequest)
    ensures
        r@ == file_request_1(n@, p@),
{
    if text_eq(n, "read_file") {
        FileRequest::Read(p)
    } else if text_eq(n, "delete_file") {
        FileRequest::Delete(p)
    } else if text_eq(n, "file_exists") {
        FileRequest::Exists(p)
    } else if text_eq(n, "file_size") {
        FileRequest::Size(p)
    } else if text_eq(n, "file_time") {
        FileRequest::Time(p)
    } else if text_eq(n, "list_dir") {
        FileRequest::ListDir(p)
    } else if text_eq(n, "create_dir") {
        FileRequest::CreateDir(p)
    } else {
        FileRequest::RemoveDir(p)
    }
}

fn file_request_2_exec(n: &str, a: String, b: String) -> (r: FileRequest)
    ensures
        r@ == file_request_2(n@, a@, b@),
{
    if text_eq(n, "write_file") {
        FileRequest::Write(a, b)
    } else if text_eq(n, "append_file") {
        FileRequest::Append(a, b)
    } else if text_eq(n, "copy_file") {
        FileRequest::Copy(a, b)
    } else {
        FileRequest::Rename(a, b)
    }
}

fn join3(a: &str, b: &str, c: &str) -> (r: String)
    ensures
        r@ == a@ + b@ + c@,
{
    concat(concat(a, b).as_str(), c)
}

fn join4(a: &str, b: &str, c: &str, d: &str) -> (r: String)
    ensures
        r@ == a@ + b@ + c@ + d@,
{
    concat(join3(a, b, c).as_str(), d)
}

fn request_action_exec(p: &Pending) -> (r: Action)
    ensures
        r@ == request_action(p@),
{
    match p {
        Pending::Float(t) => Action::Float(*t),
        Pending::RenderValue(ps) => Action::Render(copy_pieces(ps)),
        Pending::RenderError(ps) => Action::Render(copy_pieces(ps)),
        Pending::Line(t) => Action::Prompt(t.clone()),
        Pending::File(r) => Action::File(copy_request(r)),
        Pending::Path(path, _) => Action::Resolve(path.clone()),
        Pending::Source(_, canon, _) => Action::ReadSource(canon.clone()),
        Pending::Fractions(_, _, _, ls) => Action::ParseFractions(fraction_literals(ls)),
        Pending::Native(n) => Action::LoadNative(n.clone()),
        Pending::NativeCall(m, f, a) => Action::CallNative(m.clone(), f.clone(), copy_native_args(a)),
    }
}

fn contains_text(xs: &Vec<String>, t: &str) -> (r: bool)
    ensures
        r == names_view(xs@).contains(t@),
{
    let mut i: usize = 0;
    while i < xs.len()
        invariant
            0 <= i <= xs.len(),
            forall|k: int| 0 <= k < i ==> #[trigger] xs@[k]@ != t@,
        decreases xs.len() - i,
    {
        if text_eq(xs[i].as_str(), t) {
            assert(names_view(xs@)[i as int] == t@);
            return true;
        }
        i += 1;
    }
    proof {
        if names_view(xs@).contains(t@) {
            let k = choose|k: int| 0 <= k < names_view(xs@).len() && names_view(xs@)[k] == t@;
            assert(xs@[k]@ == t@);
        }
    }
    false
}

impl Interpreter {
    fn native_request(&mut self, module: String, n: String, a: NativeArgs) -> (res: Action)
        ensures
            final(self)@ == native_request(old(self)@, module@, n@, a@).0,
            res@ == native_request(old(self)@, module@, n@, a@).1,
    {
        let a2 = copy_native_args(&a);
        self.control = Control::Await(Pending::NativeCall(module.clone(), n.clone(), a2));
        Action::CallNative(module, n, a)
    }

    fn native_call_exec(
        &mut self,
        module: String,
        n: String,
        arity: u32,
        args: Vec<Value>,
        Ghost(c): Ghost<MControl>,
    ) -> (res: Action)
        ensures
            final(self)@ == native_call(
                set_control(old(self)@, c),
                module@,
                n@,
                arity,
                values_view(args@),
            ).0,
            res@ == native_call(set_control(old(self)@, c), module@, n@, arity, values_view(args@)).1,
    {
        proof {
            lemma_values_view(args@);
        }
        if args.len() != arity as usize {
            let a = join4("Native function ", n.as_str(), " expects ", count_string(arity as usize).as_str());
            let m = join3(a.as_str(), " arguments, got ", count_string(args.len()).as_str());
            self.raise_text(m)
        } else if arity == 0 {
            self.native_request(module, n, NativeArgs::Nothing)
        } else if arity == 1 {
            match &args[0] {
                Value::String(t) => {
                    if has_nul_exec(t.as_str()) {
                        self.raise_text("String contains null byte".to_owned())
                    } else {
                        self.native_request(module, n, NativeArgs::Text(t.clone()))
                    }
                },
                _ => self.raise_text("Native function with one argument expects a string".to_owned()),
            }
        } else if arity == 2 {
            match (&args[0], &args[1]) {
                (Value::String(a), Value::String(b)) => {
                    if has_nul_exec(a.as_str()) || has_nul_exec(b.as_str()) {
                        self.raise_text("String contains null byte".to_owned())
                    } else {
                        self.native_request(module, n, NativeArgs::Texts(a.clone(), b.clone()))
                    }
                },
                (Value::Whole(a), Value::Whole(b)) => self.native_request(
                    module,
                    n,
                    NativeArgs::Wholes(*a, *b),
                ),
                _ => self.raise_text(
                    "Native function with two arguments expects either two strings or two integers".to_owned(),
                ),
            }
        } else {
            self.raise_text("Native functions with more arguments not yet supported".to_owned())
        }
    }

    /// One step on `Call(n, args)`.
    fn call_exec(&mut self, n: String, args: Vec<Value>, Ghost(c): Ghost<MControl>) -> (res: Action)
        ensures
            final(self)@ == call_step(set_control(old(self)@, c), n@, values_view(args@)).0,
            res@ == call_step(set_control(old(self)@, c), n@, values_view(args@)).1,
    {
        proof {
            lemma_values_view(args@);
        }
        if file_builtin_1_exec(n.as_str()) || file_builtin_2_exec(n.as_str()) || text_eq(
            n.as_str(),
            "len",
        ) {
            let m = concat("Built-in function: ", n.as_str());
            self.control = Control::Builtin(n, args);
            return Action::Log(LogLevel::Info, m);
        }
        if text_eq(n.as_str(), "log_message") || text_eq(n.as_str(), "load_native") {
            return self.go(Control::Builtin(n, args));
        }
        match find_proc_exec(&self.procs, n.as_str()) {
            Some(i) => {
                let np = self.procs[i].params.len();
                if np != args.len() {
                    let a = join4("Function ", n.as_str(), " expects ", count_string(np).as_str());
                    let m = join3(a.as_str(), " arguments, got ", count_string(args.len()).as_str());
                    self.raise_text(m)
                } else {
                    match bind_params_exec(&self.procs[i].params, &args) {
                        Ok(env) => {
                            let body = Stmt::copy_block(&self.procs[i].body);
                            self.push_env(env);
                            self.push_cont(Cont::CallBody(n));
                            self.push_cont(Cont::Stmts(body, 0));
                            self.go(Control::Value(Value::Nil))
                        },
                        Err(e) => self.go(Control::Raise(e)),
                    }
                }
            },
            None => match find_native_exec(&self.natives, n.as_str()) {
                Some((mi, fi)) => {
                    let module = self.natives[mi].name.clone();
                    let arity = self.natives[mi].functions[fi].args;
                    self.native_call_exec(module, n, arity, args, Ghost(c))
                },
                None => self.go(Control::Raise(RuntimeError::UndefinedFunction(n))),
            },
        }
    }

    fn file_request_exec(&mut self, r: FileRequest) -> (res: Action)
        ensures
            final(self)@ == file_step(old(self)@, r@).0,
            res@ == file_step(old(self)@, r@).1,
    {
        let r2 = copy_request(&r);
        self.control = Control::Await(Pending::File(r2));
        Action::File(r)
    }

    /// One step on `Builtin(n, args)`.
    fn builtin_exec(&mut self, n: String, args: Vec<Value>, Ghost(c): Ghost<MControl>) -> (res: Action)
        ensures
            final(self)@ == builtin_step(set_control(old(self)@, c), n@, values_view(args@)).0,
            res@ == builtin_step(set_control(old(self)@, c), n@, values_view(args@)).1,
    {
        proof {
            lemma_values_view(args@);
        }
        if file_builtin_1_exec(n.as_str()) {
            if args.len() != 1 {
                self.raise_text(concat(n.as_str(), " expects 1 argument"))
            } else {
                match &args[0] {
                    Value::String(p) => {
                        let r = file_request_1_exec(n.as_str(), p.clone());
                        self.file_request_exec(r)
                    },
                    _ => self.raise_text(concat(n.as_str(), " expects string argument")),
                }
            }
        } else if file_builtin_2_exec(n.as_str()) {
            if args.len() != 2 {
                self.raise_text(concat(n.as_str(), " expects 2 arguments"))
            } else {
                match (&args[0], &args[1]) {
                    (Value::String(a), Value::String(b)) => {
                        let r = file_request_2_exec(n.as_str(), a.clone(), b.clone());
                        self.file_request_exec(r)
                    },
                    (Value::String(_), _) => self.raise_text(
                        concat(n.as_str(), " second argument must be string"),
                    ),
                    _ => self.raise_text(concat(n.as_str(), " first argument must be string")),
                }
            }
        } else if text_eq(n.as_str(), "len") {
            if args.len() != 1 {
                self.raise_text("len expects 1 argument".to_owned())
            } else {
                match &args[0] {
                    Value::List(l) => {
                        proof {
                            lemma_values_view(l@);
                        }
                        self.go(Control::Value(Value::Whole(l.len() as i64)))
                    },
                    Value::String(t) => {
                        let k = utf8_len_exec(t.as_str());
                        self.go(Control::Value(Value::Whole(k as i64)))
                    },
                    _ => self.raise_text("len expects list or string".to_owned()),
                }
            }
        } else if text_eq(n.as_str(), "log_message") {
            if args.len() != 2 {
                self.raise_text("log_message expects 2 arguments".to_owned())
            } else {
                match (&args[0], &args[1]) {
                    (Value::String(level), Value::String(m)) => {
                        let act = if text_eq(level.as_str(), "info") {
                            Action::Log(LogLevel::Info, m.clone())
                        } else if text_eq(level.as_str(), "warn") {
                            Action::Log(LogLevel::Warn, m.clone())
                        } else if text_eq(level.as_str(), "error") {
                            Action::Log(LogLevel::Error, m.clone())
                        } else if text_eq(level.as_str(), "debug") {
                            Action::Log(LogLevel::Debug, m.clone())
                        } else {
                            Action::Log(LogLevel::Info, join4("[", level.as_str(), "] ", m.as_str()))
                        };
                        self.control = Control::Value(Value::Nil);
                        act
                    },
                    (Value::String(_), _) => self.raise_text(
                        "log_message second argument must be string".to_owned(),
                    ),
                    _ => self.raise_text("log_message first argument must be string".to_owned()),
                }
            }
        } else {
            if args.len() != 1 {
                self.raise_text("load_native expects 1 argument".to_owned())
            } else {
                match &args[0] {
                    Value::String(name) => {
                        let m = concat("Loading native module: ", name.as_str());
                        self.control = Control::Request(Pending::Native(name.clone()));
                        Action::Log(LogLevel::Info, m)
                    },
                    _ => self.raise_text("load_native expects string argument".to_owned()),
                }
            }
        }
    }
}

impl Interpreter {
    fn fail_file(&mut self, fname: &str, io: String, message: String) -> (res: Action)
        ensures
            final(self)@ == file_failure(old(self)@, fname@, io@, message@).0,
            res@ == file_failure(old(self)@, fname@, io@, message@).1,
    {
        let m = join3(fname, " failed: ", io.as_str());
        self.control = Control::Raise(RuntimeError::TypeError(message));
        Action::Log(LogLevel::Error, m)
    }

    /// The answer to a file operation; `None` where it does not fit.
    fn file_answer_exec(&mut self, r: &FileRequest, a: FileReply, Ghost(c): Ghost<MControl>) -> (res:
        Option<Action>)
        ensures
            match file_answer(set_control(old(self)@, c), r@, a@) {
                Some(x) => res matches Some(act) && act@ == x.1 && final(self)@ == x.0,
                None => res is None && final(self)@ == old(self)@,
            },
    {
        match (r, a) {
            (FileRequest::Read(_), FileReply::Text(t)) => Some(self.go(Control::Value(Value::String(t)))),
            (FileRequest::Read(p), FileReply::Failed(e)) => {
                let m = join4("Cannot read file ", p.as_str(), ": ", e.as_str());
                Some(self.fail_file("read_file", e, m))
            },
            (FileRequest::Write(_, _), FileReply::Done) => Some(
                self.go(Control::Value(Value::Bool(true))),
            ),
            (FileRequest::Write(p, _), FileReply::Failed(e)) => {
                let m = join4("Cannot write file ", p.as_str(), ": ", e.as_str());
                Some(self.fail_file("write_file", e, m))
            },
            (FileRequest::Append(_, _), FileReply::Done) => Some(
                self.go(Control::Value(Value::Bool(true))),
            ),
            (FileRequest::Append(p, _), FileReply::OpenFailed(e)) => {
                let m = join4("Cannot open file ", p.as_str(), " for append: ", e.as_str());
                Some(self.fail_file("append_file", e, m))
            },
            (FileRequest::Append(p, _), FileReply::Failed(e)) => {
                let m = join4("Cannot append to file ", p.as_str(), ": ", e.as_str());
                Some(self.fail_file("append_file", e, m))
            },
            (FileRequest::Delete(_), FileReply::Done) => Some(
                self.go(Control::Value(Value::Bool(true))),
            ),
            (FileRequest::Delete(p), FileReply::Failed(e)) => {
                let m = join4("Cannot delete file ", p.as_str(), ": ", e.as_str());
                Some(self.fail_file("delete_file", e, m))
            },
            (FileRequest::Copy(_, _), FileReply::Done) => Some(
                self.go(Control::Value(Value::Bool(true))),
            ),
            (FileRequest::Copy(x, y), FileReply::Failed(e)) => {
                let a = join4("Cannot copy ", x.as_str(), " to ", y.as_str());
                let m = join3(a.as_str(), ": ", e.as_str());
                Some(self.fail_file("copy_file", e, m))
            },
            (FileRequest::Rename(_, _), FileReply::Done) => Some(
                self.go(Control::Value(Value::Bool(true))),
            ),
            (FileRequest::Rename(x, y), FileReply::Failed(e)) => {
                let a = join4("Cannot rename ", x.as_str(), " to ", y.as_str());
                let m = join3(a.as_str(), ": ", e.as_str());
                Some(self.fail_file("rename_file", e, m))
            },
            (FileRequest::Exists(_), FileReply::Flag(f)) => Some(
                self.go(Control::Value(Value::Bool(f))),
            ),
            (FileRequest::Size(_), FileReply::Size(n)) => Some(
                self.go(Control::Value(Value::Whole(n as i64))),
            ),
            (FileRequest::Size(_), FileReply::Failed(e)) => {
                let m = concat("Cannot get file size: ", e.as_str());
                Some(self.fail_file("file_size", e, m))
            },
            (FileRequest::Time(_), FileReply::Time(b)) => Some(
                self.go(Control::Value(Value::Fraction(b))),
            ),
            (FileRequest::Time(_), FileReply::NoModifiedTime) => Some(
                self.raise_text("Cannot get modification time on this platform".to_owned()),
            ),
            (FileRequest::Time(_), FileReply::BeforeEpoch) => Some(
                self.raise_text("File time is before Unix epoch".to_owned()),
            ),
            (FileRequest::Time(p), FileReply::Failed(e)) => {
                let m = join4("Cannot access file ", p.as_str(), ": ", e.as_str());
                Some(self.fail_file("file_time", e, m))
            },
            (FileRequest::ListDir(_), FileReply::Names(ns)) => {
                let mut out: Vec<Value> = Vec::new();
                let mut i: usize = 0;
                while i < ns.len()
                    invariant
                        0 <= i <= ns.len(),
                        values_view(out@) == names_view(ns@).take(i as int).map_values(
                            |t: Seq<char>| VVal::Str(t),
                        ),
                    decreases ns.len() - i,
                {
                    let v = Value::String(ns[i].clone());
                    proof {
                        lemma_values_view_push(out@, v);
                        assert(names_view(ns@).take(i + 1).map_values(|t: Seq<char>| VVal::Str(t))
                            =~= names_view(ns@).take(i as int).map_values(
                            |t: Seq<char>| VVal::Str(t),
                        ).push(VVal::Str(ns@[i as int]@)));
                    }
                    out.push(v);
                    i += 1;
                }
                assert(names_view(ns@).take(ns.len() as int) =~= names_view(ns@));
                Some(self.go(Control::Value(Value::List(out))))
            },
            (FileRequest::ListDir(p), FileReply::Failed(e)) => {
                let m = join4("Cannot read directory ", p.as_str(), ": ", e.as_str());
                Some(self.fail_file("list_dir", e, m))
            },
            (FileRequest::CreateDir(_), FileReply::Done) => Some(
                self.go(Control::Value(Value::Bool(true))),
            ),
            (FileRequest::CreateDir(p), FileReply::Failed(e)) => {
                let m = join4("Cannot create directory ", p.as_str(), ": ", e.as_str());
                Some(self.fail_file("create_dir", e, m))
            },
            (FileRequest::RemoveDir(_), FileReply::Done) => Some(
                self.go(Control::Value(Value::Bool(true))),
            ),
            (FileRequest::RemoveDir(p), FileReply::Failed(e)) => {
                let m = join4("Cannot remove directory ", p.as_str(), ": ", e.as_str());
                Some(self.fail_file("remove_dir", e, m))
            },
            _ => None,
        }
    }

    /// A module's source, its fraction literals converted, is parsed; a
    /// module that parses is recorded and run.
    fn module_parsed_exec(
        &mut self,
        path: String,
        canon: String,
        repl: bool,
        ls: Vec<Lexeme>,
        bits: Vec<u64>,
        Ghost(c): Ghost<MControl>,
    ) -> (res: Action)
        requires
            bits.len() == fraction_texts(lexeds(ls@)).len(),
        ensures
            final(self)@ == module_parsed(
                set_control(old(self)@, c),
                path@,
                canon@,
                repl,
                lexeds(ls@),
                bits@,
            ).0,
            res@ == module_parsed(
                set_control(old(self)@, c),
                path@,
                canon@,
                repl,
                lexeds(ls@),
                bits@,
            ).1,
    {
        let tokens = resolve(ls, &bits);
        let mut parser = Parser::new(tokens);
        match parser.try_parse() {
            Some(Ok(prog)) => {
                let ghost before = names_view(self.modules@);
                let ghost cv = canon@;
                self.modules.push(canon);
                assert(names_view(self.modules@) =~= before.push(cv));
                if repl {
                    let scope = copy_vars(&self.globals);
                    self.push_env(scope);
                    self.push_cont(Cont::Globals);
                }
                self.push_cont(Cont::Items(prog.items, 0));
                self.go(Control::Value(Value::Nil))
            },
            Some(Err(e)) => {
                let head = join3("Parse error in module ", path.as_str(), ": ");
                let mut ps = crate::value::text_piece(head.as_str());
                crate::value::append_pieces(&mut ps, e.message_pieces());
                self.render_exec(ps, true)
            },
            None => self.halt_exec("called `Option::unwrap()` on a `None` value", Ghost(c)),
        }
    }

    /// The answer `ev` to the pending request `p`.
    fn answer_exec(&mut self, p: Pending, ev: Event) -> (res: Action)
        ensures
            final(self)@ == m_answer(set_control(old(self)@, MControl::Await(p@)), p@, ev@).0,
            res@ == m_answer(set_control(old(self)@, MControl::Await(p@)), p@, ev@).1,
    {
        let ghost c = MControl::Await(p@);
        match (p, ev) {
            (Pending::Float(t), Event::Number(b)) => {
                if !is_comparison_exec(t.op) {
                    self.go(Control::Value(Value::Fraction(b)))
                } else {
                    self.again(Pending::Float(t))
                }
            },
            (Pending::Float(t), Event::Truth(b)) => {
                if is_comparison_exec(t.op) {
                    self.go(Control::Value(Value::Bool(b)))
                } else {
                    self.again(Pending::Float(t))
                }
            },
            (Pending::RenderValue(ps), Event::Texts(ts)) => {
                if ts.len() == fraction_count_exec(&ps) {
                    let t = splice_exec(&ps, &ts);
                    self.go(Control::Value(Value::String(t)))
                } else {
                    self.again(Pending::RenderValue(ps))
                }
            },
            (Pending::RenderError(ps), Event::Texts(ts)) => {
                if ts.len() == fraction_count_exec(&ps) {
                    let t = splice_exec(&ps, &ts);
                    self.go(Control::Raise(RuntimeError::TypeError(t)))
                } else {
                    self.again(Pending::RenderError(ps))
                }
            },
            (Pending::Line(_), Event::Line(t)) => {
                let tt = trim_exec(t.as_str());
                self.go(Control::Value(Value::String(tt)))
            },
            (Pending::File(r), Event::File(a)) => match self.file_answer_exec(&r, a, Ghost(c)) {
                Some(act) => act,
                None => self.again(Pending::File(r)),
            },
            (Pending::Path(path, repl), Event::Path(r)) => match r {
                Ok(canon) => {
                    if contains_text(&self.modules, canon.as_str()) {
                        self.go(Control::Value(Value::Nil))
                    } else {
                        let c2 = canon.clone();
                        self.control = Control::Await(Pending::Source(path, canon, repl));
                        Action::ReadSource(c2)
                    }
                },
                Err(PathError::CurrentDir(m)) => self.raise_text(
                    concat("Cannot get current dir: ", m.as_str()),
                ),
                Err(PathError::Resolve(m)) => self.raise_text(
                    join4("Cannot resolve path ", path.as_str(), ": ", m.as_str()),
                ),
            },
            (Pending::Source(path, canon, repl), Event::Source(r)) => match r {
                Ok(text) => {
                    let ls = scan(text.as_str());
                    let fr = fraction_literals(&ls);
                    if fr.len() == 0 {
                        let bits: Vec<u64> = Vec::new();
                        self.module_parsed_exec(path, canon, repl, ls, bits, Ghost(c))
                    } else {
                        self.control = Control::Await(Pending::Fractions(path, canon, repl, ls));
                        Action::ParseFractions(fr)
                    }
                },
                Err(m) => self.raise_text(join4("Cannot read module ", path.as_str(), ": ", m.as_str())),
            },
            (Pending::Fractions(path, canon, repl, ls), Event::Fractions(bits)) => {
                let n = fraction_literals(&ls).len();
                if bits.len() == n {
                    self.module_parsed_exec(path, canon, repl, ls, bits, Ghost(c))
                } else {
                    self.again(Pending::Fractions(path, canon, repl, ls))
                }
            },
            (Pending::Native(name), Event::Native(r)) => match r {
                Ok(m) => {
                    insert_module_exec(&mut self.natives, m);
                    let msg = join3("Native module '", name.as_str(), "' loaded");
                    self.go(Control::Say(LogLevel::Info, msg))
                },
                Err(NativeError::Open(m)) => self.raise_text(
                    join4("Cannot load module '", name.as_str(), "': ", m.as_str()),
                ),
                Err(NativeError::Symbol(m)) => self.raise_text(
                    join4("Module '", name.as_str(), "' has no info symbol: ", m.as_str()),
                ),
            },
            (Pending::NativeCall(_, _, _), Event::Whole(r)) => self.go(Control::Value(Value::Whole(r))),
            (p, _) => self.again(p),
        }
    }

    /// Waits again for `p`, repeating its request.
    fn again(&mut self, p: Pending) -> (res: Action)
        ensures
            final(self)@ == set_control(old(self)@, MControl::Await(p@)),
            res@ == request_action(p@),
    {
        let a = request_action_exec(&p);
        self.control = Control::Await(p);
        a
    }
}

fn is_comparison_exec(op: FloatOp) -> (r: bool)
    ensures
        r == is_comparison(op),
{
    match op {
        FloatOp::Lt | FloatOp::Le | FloatOp::Gt | FloatOp::Ge => true,
        _ => false,
    }
}

impl Interpreter {
    /// An interpreter with nothing declared or loaded, and nothing to do.
    pub fn new() -> (res: Interpreter)
        ensures
            res@ == m_initial(),
    {
        let res = Interpreter {
            procs: Vec::new(),
            forms: Vec::new(),
            modules: Vec::new(),
            natives: Vec::new(),
            envs: Vec::new(),
            globals: Vec::new(),
            conts: Vec::new(),
            control: Control::Idle,
        };
        assert(res@.procs =~= Seq::<MProc>::empty());
        assert(res@.forms =~= Seq::<MForm>::empty());
        assert(res@.modules =~= Seq::<Seq<char>>::empty());
        assert(res@.natives =~= Seq::<MNativeModule>::empty());
        assert(res@.envs =~= Seq::<Seq<MVar>>::empty());
        assert(res@.globals =~= Seq::<MVar>::empty());
        assert(res@.conts =~= Seq::<MCont>::empty());
        res
    }

    /// Starts running `program` in a fresh scope. Procedures, forms, loaded
    /// modules and the globals stay from earlier runs; the run's own
    /// variables do not.
    pub fn run(&mut self, program: Program)
        ensures
            final(self)@ == m_start_run(old(self)@, items_view(program.items@)),
    {
        let fresh: Vec<Var> = Vec::new();
        assert(vars_view(fresh@) =~= Seq::<MVar>::empty());
        let mut envs: Vec<Vec<Var>> = Vec::new();
        envs.push(fresh);
        let mut conts: Vec<Cont> = Vec::new();
        conts.push(Cont::Scope);
        conts.push(Cont::Items(program.items, 0));
        self.envs = envs;
        self.conts = conts;
        self.control = Control::Say(LogLevel::Info, "Starting program execution".to_owned());
        assert(self@.envs =~= seq![Seq::<MVar>::empty()]);
        assert(self@.conts =~= seq![MCont::Scope, MCont::Items(items_view(program.items@), 0)]);
    }

    /// Starts loading the module at `path` (`spack link run`) unless it was
    /// loaded before. The module runs in the globals' scope, so its
    /// variables persist as globals for later runs.
    pub fn load_module(&mut self, path: &str)
        ensures
            final(self)@ == m_start_load(old(self)@, path@),
    {
        self.envs = Vec::new();
        self.conts = Vec::new();
        self.control = Control::Request(Pending::Path(path.to_owned(), true));
        assert(self@.envs =~= Seq::<Seq<MVar>>::empty());
        assert(self@.conts =~= Seq::<MCont>::empty());
    }

    /// The resolved paths of the loaded modules, in load order.
    pub fn list_modules(&self) -> (res: Vec<String>)
        ensures
            names_view(res@) == self@.modules,
    {
        let mut out: Vec<String> = Vec::new();
        let mut i: usize = 0;
        while i < self.modules.len()
            invariant
                0 <= i <= self.modules.len(),
                out.len() == i,
                forall|k: int| 0 <= k < i ==> #[trigger] out@[k]@ == self.modules@[k]@,
            decreases self.modules.len() - i,
        {
            out.push(self.modules[i].clone());
            i += 1;
        }
        assert(names_view(out@) =~= names_view(self.modules@));
        out
    }

    /// Forgets which modules were loaded, so that they load again.
    pub fn clear_modules(&mut self)
        ensures
            final(self)@ == (MState { modules: Seq::empty(), ..old(self)@ }),
    {
        self.modules = Vec::new();
        assert(self@.modules =~= Seq::<Seq<char>>::empty());
    }

    /// Whether the interpreter has nothing to do.
    pub fn is_idle(&self) -> (res: bool)
        ensures
            res == (self@.control is Idle),
    {
        match self.control {
            Control::Idle => true,
            _ => false,
        }
    }

    /// One transition: the answer `ev` to the pending request, if there is
    /// one, else one step. The result is the next request to the host.
    pub fn resume(&mut self, ev: Event) -> (res: Action)
        ensures
            final(self)@ == m_resume(old(self)@, ev@).0,
            res@ == m_resume(old(self)@, ev@).1,
    {
        let ghost s0 = self@;
        let mut c = Control::Idle;
        std::mem::swap(&mut c, &mut self.control);
        let ghost cv = c@;
        assert(set_control(self@, cv) == s0);
        match c {
            Control::Idle => Action::Continue,
            Control::Await(p) => self.answer_exec(p, ev),
            Control::Eval(e) => self.eval_exec(e, Ghost(cv)),
            Control::Exec(st) => self.exec_exec(st, Ghost(cv)),
            Control::Declare(d) => self.declare_exec(d, Ghost(cv)),
            Control::DeclareFields(n, fs, i, infos) => self.fields_exec(n, fs, i, infos, Ghost(cv)),
            Control::Value(v) => self.deliver_exec(v, Ghost(cv)),
            Control::Raise(e) => self.unwind_exec(e, Ghost(cv)),
            Control::Call(n, args) => self.call_exec(n, args, Ghost(cv)),
            Control::Builtin(n, args) => self.builtin_exec(n, args, Ghost(cv)),
            Control::Say(l, m) => {
                let m2 = m.clone();
                self.control = Control::Value(Value::Nil);
                Action::Log(l, m2)
            },
            Control::Request(p) => {
                let a = request_action_exec(&p);
                self.control = Control::Await(p);
                a
            },
        }
    }
}

} // verus!
