//! The evaluation machine of Side, mathematically.
//!
//! A run is a sequence of small steps. Each step takes the machine's state and
//! the host's answer to the previous request, and gives the next state and
//! the next request ([`MAction`]). Work that the library does not do itself
//! (printing, reading input, sleeping, files, binary64 arithmetic, native
//! modules, the log) is requested from the host; everything else happens
//! here. [`crate::interpreter::Interpreter`] is proved to take exactly these
//! steps.

use vstd::prelude::*;
use crate::value::{
    VVal, VField, Chunk, FloatOp, FloatTask, MOutcome, truthy, value_eq, find_field,
    display_chunks, add_result, arith_result, div_result, rem_result, compare_result, text_chunk,
    fraction_count, spliced,
};
use crate::error::MErr;
use crate::ast::{BinOp, SExpr, SStmt, SField, SDecl, SItem};
use crate::lexer::{Lexed, fraction_texts, resolved};
use crate::parser_spec::{SErr, program};
use crate::parser::parse_error_chunks;
use crate::logger::LogLevel;
use crate::text::{nat_text, is_white};

verus! {

/// A variable of an environment.
pub struct MVar {
    pub name: Seq<char>,
    pub value: VVal,
    pub mutable: bool,
}

/// A procedure: its parameters and body.
pub struct MProc {
    pub name: Seq<char>,
    pub params: Seq<Seq<char>>,
    pub body: Seq<SStmt>,
}

/// A field of a form, with its default value.
pub struct MFieldInfo {
    pub name: Seq<char>,
    pub mutable: bool,
    pub default: Option<VVal>,
}

pub struct MForm {
    pub name: Seq<char>,
    pub fields: Seq<MFieldInfo>,
}

/// A function of a native module and the number of arguments it takes.
pub struct MNativeFn {
    pub name: Seq<char>,
    pub args: u32,
}

pub struct MNativeModule {
    pub name: Seq<char>,
    pub functions: Seq<MNativeFn>,
}

/// What a native function is called with.
pub enum MNativeArgs {
    Nothing,
    Text(Seq<char>),
    Texts(Seq<char>, Seq<char>),
    Wholes(i64, i64),
}

/// A file operation of the built-in functions.
pub enum MFileRequest {
    Read(Seq<char>),
    Write(Seq<char>, Seq<char>),
    Append(Seq<char>, Seq<char>),
    Delete(Seq<char>),
    Copy(Seq<char>, Seq<char>),
    Rename(Seq<char>, Seq<char>),
    Exists(Seq<char>),
    Size(Seq<char>),
    Time(Seq<char>),
    ListDir(Seq<char>),
    CreateDir(Seq<char>),
    RemoveDir(Seq<char>),
}

/// The host's answer to a file operation; `Failed` carries the text of the
/// I/O error.
pub enum MFileReply {
    Text(Seq<char>),
    Done,
    Flag(bool),
    Size(u64),
    Time(u64),
    Names(Seq<Seq<char>>),
    Failed(Seq<char>),
    OpenFailed(Seq<char>),
    NoModifiedTime,
    BeforeEpoch,
}

/// Why a module path could not be resolved.
pub enum MPathError {
    CurrentDir(Seq<char>),
    Resolve(Seq<char>),
}

/// Why a native module could not be loaded.
pub enum MNativeError {
    Open(Seq<char>),
    Symbol(Seq<char>),
}

/// How long `wait` sleeps: whole seconds, or a binary64 number of seconds.
pub enum MDelay {
    Seconds(u64),
    Fraction(u64),
}

/// What the machine asks of the host.
pub enum MAction {
    /// Nothing: call again.
    Continue,
    /// Print the rendered chunks and a newline.
    Print(Seq<Chunk>),
    /// Print the prompt, read a line of input and answer [`MEvent::Line`].
    Prompt(Seq<char>),
    Sleep(MDelay),
    /// Compute in binary64 and answer [`MEvent::Number`] (arithmetic) or
    /// [`MEvent::Truth`] (comparison).
    Float(FloatTask),
    /// Write each fraction among the chunks as text (`Fraction` as `{}`,
    /// `FractionDebug` as `{:?}`) and answer [`MEvent::Texts`] with those
    /// texts, in order.
    Render(Seq<Chunk>),
    File(MFileRequest),
    Log(LogLevel, Seq<char>),
    LoadNative(Seq<char>),
    /// Call a function of a loaded native module (module, function, arguments).
    CallNative(Seq<char>, Seq<char>, MNativeArgs),
    /// Resolve a module path against the working directory.
    Resolve(Seq<char>),
    /// Read the source text of a resolved module path.
    ReadSource(Seq<char>),
    /// Convert fraction literals to binary64 bits.
    ParseFractions(Seq<Seq<char>>),
    /// The task is over, with its error if it failed.
    Finished(Option<MErr>),
    /// The run cannot go on: Rust's own operation panics here, with this
    /// message, and so does the host.
    Panic(Seq<char>),
}

/// The host's answer.
pub enum MEvent {
    Nothing,
    Number(u64),
    Truth(bool),
    /// The texts of the fractions of a [`MAction::Render`] request, in order.
    Texts(Seq<Seq<char>>),
    Line(Seq<char>),
    File(MFileReply),
    Path(Result<Seq<char>, MPathError>),
    Source(Result<Seq<char>, Seq<char>>),
    Fractions(Seq<u64>),
    Native(Result<MNativeModule, MNativeError>),
    Whole(i64),
}

/// A request waiting for its answer.
pub enum MPending {
    Float(FloatTask),
    RenderValue(Seq<Chunk>),
    RenderError(Seq<Chunk>),
    Line(Seq<char>),
    File(MFileRequest),
    /// A module path; `repl` for `load_module`, else `link`.
    Path(Seq<char>, bool),
    Source(Seq<char>, Seq<char>, bool),
    Fractions(Seq<char>, Seq<char>, bool, Seq<Lexed>),
    Native(Seq<char>),
    NativeCall(Seq<char>, Seq<char>, MNativeArgs),
}

/// What the machine does next.
pub enum MControl {
    Idle,
    Eval(SExpr),
    Exec(SStmt),
    Declare(SDecl),
    /// A form's fields from index `i`, with the field table built so far.
    DeclareFields(Seq<char>, Seq<SField>, nat, Seq<MFieldInfo>),
    /// Hand a value to the top continuation.
    Value(VVal),
    /// Unwind the continuations with an error.
    Raise(MErr),
    Call(Seq<char>, Seq<VVal>),
    /// A built-in function, after its call was logged.
    Builtin(Seq<char>, Seq<VVal>),
    Say(LogLevel, Seq<char>),
    Request(MPending),
    Await(MPending),
}

/// What remains to be done once the current value is known.
pub enum MCont {
    /// Pops the current environment.
    Scope,
    /// Ends a module loaded with `load_module`: the current environment, the
    /// module's variables, becomes the globals.
    Globals,
    Items(Seq<SItem>, nat),
    Stmts(Seq<SStmt>, nat),
    BinRight(BinOp, SExpr),
    BinApply(BinOp, VVal),
    Not,
    ListAcc(Seq<VVal>, Seq<SExpr>, nat),
    CallArgs(Seq<char>, Seq<VVal>, Seq<SExpr>, nat),
    GetField(Seq<char>),
    IndexObj(SExpr),
    IndexApply(VVal),
    EntryPrompt,
    SetVar(Seq<char>, bool),
    AssignTo(SExpr),
    AssignField(SExpr, Seq<char>, VVal),
    AssignIndexIdx(SExpr, VVal),
    AssignIndexObj(SExpr, VVal, VVal),
    Log,
    Branch(Seq<SStmt>, Option<Seq<SStmt>>),
    LoopTest(SExpr, Seq<SStmt>),
    LoopAgain(SExpr, Seq<SStmt>),
    WaitFor,
    Give,
    Trap(Seq<SStmt>),
    Discard,
    CallBody(Seq<char>),
    FieldDefault(Seq<char>, Seq<SField>, nat, Seq<MFieldInfo>),
}

/// The machine's whole state.
pub struct MState {
    pub procs: Seq<MProc>,
    pub forms: Seq<MForm>,
    pub modules: Seq<Seq<char>>,
    pub natives: Seq<MNativeModule>,
    pub envs: Seq<Seq<MVar>>,
    /// The variables that every scope sees: those of the modules loaded
    /// with `load_module`.
    pub globals: Seq<MVar>,
    pub conts: Seq<MCont>,
    pub control: MControl,
}

// ------------------------------------------------------------------ tables

/// The index of the first element that satisfies `f`.
pub open spec fn first_match<T>(s: Seq<T>, f: spec_fn(T) -> bool) -> Option<int>
    decreases s.len(),
{
    if s.len() == 0 {
        None
    } else {
        match first_match(s.drop_last(), f) {
            Some(i) => Some(i),
            None => if f(s.last()) {
                Some(s.len() - 1)
            } else {
                None
            },
        }
    }
}

pub proof fn lemma_first_match<T>(s: Seq<T>, f: spec_fn(T) -> bool)
    ensures
        match first_match(s, f) {
            Some(i) => 0 <= i < s.len() && f(s[i]) && forall|k: int| 0 <= k < i ==> !f(#[trigger] s[k]),
            None => forall|k: int| 0 <= k < s.len() ==> !f(#[trigger] s[k]),
        },
    decreases s.len(),
{
    if s.len() > 0 {
        let init = s.drop_last();
        lemma_first_match(init, f);
        assert(forall|k: int| 0 <= k < init.len() ==> #[trigger] init[k] == s[k]);
        match first_match(init, f) {
            Some(i) => {
                assert forall|k: int| 0 <= k < i implies !f(#[trigger] s[k]) by {
                    assert(init[k] == s[k]);
                }
            },
            None => {
                assert forall|k: int| 0 <= k < s.len() - 1 implies !f(#[trigger] s[k]) by {
                    assert(init[k] == s[k]);
                }
            },
        }
    }
}

pub open spec fn var_named(name: Seq<char>) -> spec_fn(MVar) -> bool {
    |x: MVar| x.name == name
}

pub open spec fn find_var(env: Seq<MVar>, name: Seq<char>) -> Option<int> {
    first_match(env, var_named(name))
}

pub open spec fn proc_named(name: Seq<char>) -> spec_fn(MProc) -> bool {
    |x: MProc| x.name == name
}

pub open spec fn find_proc(procs: Seq<MProc>, name: Seq<char>) -> Option<int> {
    first_match(procs, proc_named(name))
}

pub open spec fn form_named(name: Seq<char>) -> spec_fn(MForm) -> bool {
    |x: MForm| x.name == name
}

pub open spec fn find_form(forms: Seq<MForm>, name: Seq<char>) -> Option<int> {
    first_match(forms, form_named(name))
}

pub open spec fn info_named(name: Seq<char>) -> spec_fn(MFieldInfo) -> bool {
    |x: MFieldInfo| x.name == name
}

pub open spec fn find_info(infos: Seq<MFieldInfo>, name: Seq<char>) -> Option<int> {
    first_match(infos, info_named(name))
}

pub open spec fn module_named(name: Seq<char>) -> spec_fn(MNativeModule) -> bool {
    |x: MNativeModule| x.name == name
}

pub open spec fn find_module(mods: Seq<MNativeModule>, name: Seq<char>) -> Option<int> {
    first_match(mods, module_named(name))
}

pub open spec fn native_fn_named(name: Seq<char>) -> spec_fn(MNativeFn) -> bool {
    |x: MNativeFn| x.name == name
}

pub open spec fn find_native_fn(fns: Seq<MNativeFn>, name: Seq<char>) -> Option<int> {
    first_match(fns, native_fn_named(name))
}

pub open spec fn has_native_fn(name: Seq<char>) -> spec_fn(MNativeModule) -> bool {
    |m: MNativeModule| find_native_fn(m.functions, name) is Some
}

/// The first loaded native module (in load order) with a function `name`:
/// the module's index and the function's index.
pub open spec fn find_native(mods: Seq<MNativeModule>, name: Seq<char>) -> Option<(int, int)> {
    match first_match(mods, has_native_fn(name)) {
        Some(i) => Some((i, find_native_fn(mods[i].functions, name)->0)),
        None => None,
    }
}

/// `HashMap::insert` on procedures: replaces the one of the same name.
pub open spec fn insert_proc(procs: Seq<MProc>, p: MProc) -> Seq<MProc> {
    match find_proc(procs, p.name) {
        Some(i) => procs.update(i, p),
        None => procs.push(p),
    }
}

pub open spec fn insert_form(forms: Seq<MForm>, f: MForm) -> Seq<MForm> {
    match find_form(forms, f.name) {
        Some(i) => forms.update(i, f),
        None => forms.push(f),
    }
}

pub open spec fn insert_info(infos: Seq<MFieldInfo>, f: MFieldInfo) -> Seq<MFieldInfo> {
    match find_info(infos, f.name) {
        Some(i) => infos.update(i, f),
        None => infos.push(f),
    }
}

pub open spec fn insert_module(mods: Seq<MNativeModule>, m: MNativeModule) -> Seq<
    MNativeModule,
> {
    match find_module(mods, m.name) {
        Some(i) => mods.update(i, m),
        None => mods.push(m),
    }
}

pub open spec fn constant_error(name: Seq<char>) -> MErr {
    MErr::TypeError("Cannot modify constant '"@ + name + "'"@)
}

/// `Environment::set`: an existing variable is overwritten if it is
/// mutable (keeping it mutable), an error if it is not; a new one is added
/// with the mutability asked for.
pub open spec fn env_set(env: Seq<MVar>, name: Seq<char>, value: VVal, mutable: bool) -> Result<
    Seq<MVar>,
    MErr,
> {
    match find_var(env, name) {
        Some(i) => if env[i].mutable {
            Ok(env.update(i, MVar { name, value, mutable: true }))
        } else {
            Err(constant_error(name))
        },
        None => Ok(env.push(MVar { name, value, mutable })),
    }
}

/// `Environment::get`.
pub open spec fn env_get(env: Seq<MVar>, name: Seq<char>) -> Option<VVal> {
    match find_var(env, name) {
        Some(i) => Some(env[i].value),
        None => None,
    }
}

/// A fresh environment with the parameters bound, constant, to the arguments.
pub open spec fn bind_params(env: Seq<MVar>, params: Seq<Seq<char>>, args: Seq<VVal>) -> Result<
    Seq<MVar>,
    MErr,
>
    decreases params.len(),
{
    if params.len() == 0 || args.len() == 0 {
        Ok(env)
    } else {
        match bind_params(env, params.drop_last(), args.drop_last()) {
            Ok(e) => env_set(e, params.last(), args.last(), false),
            Err(err) => Err(err),
        }
    }
}

/// The fields of a new object of a form: the defaults, `none` where there is none.
pub open spec fn object_fields(infos: Seq<MFieldInfo>) -> Seq<VField> {
    infos.map_values(
        |f: MFieldInfo|
            VField {
                name: f.name,
                value: match f.default {
                    Some(v) => v,
                    None => VVal::Nil,
                },
            },
    )
}

pub open spec fn top_env(s: MState) -> Seq<MVar> {
    if s.envs.len() > 0 {
        s.envs.last()
    } else {
        Seq::empty()
    }
}

pub open spec fn with_top_env(s: MState, env: Seq<MVar>) -> MState {
    MState {
        envs: if s.envs.len() > 0 {
            s.envs.update(s.envs.len() - 1, env)
        } else {
            seq![env]
        },
        ..s
    }
}

pub open spec fn pop_env(s: MState) -> MState {
    MState { envs: if s.envs.len() > 0 { s.envs.drop_last() } else { s.envs }, ..s }
}

/// Leaves a module's scope, keeping its variables as the globals.
pub open spec fn store_globals(s: MState) -> MState {
    MState { globals: top_env(s), ..pop_env(s) }
}

/// `Environment::get`: the current scope first, then the globals.
pub open spec fn var_get(s: MState, name: Seq<char>) -> Option<VVal> {
    match env_get(top_env(s), name) {
        Some(v) => Some(v),
        None => env_get(s.globals, name),
    }
}

/// `Environment::set`: a variable of the current scope, else a global of
/// that name, is written (a constant refuses); a new variable goes to the
/// current scope.
pub open spec fn var_set(s: MState, name: Seq<char>, value: VVal, mutable: bool) -> Result<
    MState,
    MErr,
> {
    if find_var(top_env(s), name) is None && find_var(s.globals, name) is Some {
        match env_set(s.globals, name, value, mutable) {
            Ok(g) => Ok(MState { globals: g, ..s }),
            Err(e) => Err(e),
        }
    } else {
        match env_set(top_env(s), name, value, mutable) {
            Ok(e) => Ok(with_top_env(s, e)),
            Err(e) => Err(e),
        }
    }
}

pub open spec fn set_control(s: MState, c: MControl) -> MState {
    MState { control: c, ..s }
}

pub open spec fn push(s: MState, k: MCont) -> MState {
    MState { conts: s.conts.push(k), ..s }
}

pub open spec fn goto(s: MState, c: MControl) -> (MState, MAction) {
    (set_control(s, c), MAction::Continue)
}

pub open spec fn raise_type(s: MState, m: Seq<char>) -> (MState, MAction) {
    goto(s, MControl::Raise(MErr::TypeError(m)))
}

// ------------------------------------------------------------- expressions

/// One step on `Eval(e)`.
pub open spec fn eval_step(s: MState, e: SExpr) -> (MState, MAction) {
    match e {
        SExpr::Literal(v) => goto(s, MControl::Value(v)),
        SExpr::List(es) => if es.len() == 0 {
            goto(s, MControl::Value(VVal::List(Seq::empty())))
        } else {
            goto(push(s, MCont::ListAcc(Seq::empty(), es, 1)), MControl::Eval(es[0]))
        },
        SExpr::Variable(n) => match var_get(s, n) {
            Some(v) => goto(s, MControl::Value(v)),
            None => goto(s, MControl::Raise(MErr::UndefinedVariable(n))),
        },
        SExpr::Binary(l, op, r) => goto(push(s, MCont::BinRight(op, *r)), MControl::Eval(*l)),
        SExpr::Unary(_, x) => goto(push(s, MCont::Not), MControl::Eval(*x)),
        SExpr::Call(n, args) => if args.len() == 0 {
            goto(s, MControl::Call(n, Seq::empty()))
        } else {
            goto(push(s, MCont::CallArgs(n, Seq::empty(), args, 1)), MControl::Eval(args[0]))
        },
        SExpr::Field(o, f) => goto(push(s, MCont::GetField(f)), MControl::Eval(*o)),
        SExpr::Index(o, i) => goto(push(s, MCont::IndexObj(*i)), MControl::Eval(*o)),
        SExpr::New(n) => match find_form(s.forms, n) {
            Some(i) => goto(
                s,
                MControl::Value(VVal::Object(n, object_fields(s.forms[i].fields))),
            ),
            None => goto(s, MControl::Raise(MErr::UndefinedVariable(n))),
        },
        SExpr::Entry(p) => match p {
            Some(x) => goto(push(s, MCont::EntryPrompt), MControl::Eval(*x)),
            None => (
                set_control(s, MControl::Await(MPending::Line(Seq::empty()))),
                MAction::Prompt(Seq::empty()),
            ),
        },
    }
}

/// The chunks made into a string value, or into the message of a type
/// error (`error`). Text chunks are joined here; only where fractions occur
/// is the host asked for their texts.
pub open spec fn render_step(s: MState, c: Seq<Chunk>, error: bool) -> (MState, MAction) {
    if fraction_count(c) == 0 {
        if error {
            goto(s, MControl::Raise(MErr::TypeError(spliced(c, Seq::empty()))))
        } else {
            goto(s, MControl::Value(VVal::Str(spliced(c, Seq::empty()))))
        }
    } else {
        (
            set_control(
                s,
                MControl::Await(
                    if error {
                        MPending::RenderError(c)
                    } else {
                        MPending::RenderValue(c)
                    },
                ),
            ),
            MAction::Render(c),
        )
    }
}

/// Continues with an operator's outcome.
pub open spec fn outcome_step(s: MState, o: MOutcome, panic: Seq<char>) -> (MState, MAction) {
    match o {
        MOutcome::Ready(v) => goto(s, MControl::Value(v)),
        MOutcome::Failed(e) => goto(s, MControl::Raise(e)),
        MOutcome::Float(t) => (
            set_control(s, MControl::Await(MPending::Float(t))),
            MAction::Float(t),
        ),
        MOutcome::Text(c) => render_step(s, c, false),
        MOutcome::ErrorText(c) => render_step(s, c, true),
        MOutcome::Overflow => halt(s, panic),
    }
}

/// The machine stops, asking the host to panic with `message`.
pub open spec fn halt(s: MState, message: Seq<char>) -> (MState, MAction) {
    (
        MState { envs: Seq::empty(), conts: Seq::empty(), control: MControl::Idle, ..s },
        MAction::Panic(message),
    )
}

/// A binary operator applied to its operands' values.
pub open spec fn binary_step(s: MState, op: BinOp, l: VVal, r: VVal) -> (MState, MAction) {
    match op {
        BinOp::Add => outcome_step(s, add_result(l, r), Seq::empty()),
        BinOp::Sub => outcome_step(s, arith_result(FloatOp::Sub, l, r), Seq::empty()),
        BinOp::Mul => outcome_step(s, arith_result(FloatOp::Mul, l, r), Seq::empty()),
        BinOp::Div => outcome_step(s, div_result(l, r), "attempt to divide with overflow"@),
        BinOp::Rem => outcome_step(
            s,
            rem_result(l, r),
            "attempt to calculate the remainder with overflow"@,
        ),
        BinOp::Eq => goto(s, MControl::Value(VVal::Bool(value_eq(l, r)))),
        BinOp::Ne => goto(s, MControl::Value(VVal::Bool(!value_eq(l, r)))),
        BinOp::Lt => outcome_step(s, compare_result(FloatOp::Lt, l, r), Seq::empty()),
        BinOp::Le => outcome_step(s, compare_result(FloatOp::Le, l, r), Seq::empty()),
        BinOp::Gt => outcome_step(s, compare_result(FloatOp::Gt, l, r), Seq::empty()),
        BinOp::Ge => outcome_step(s, compare_result(FloatOp::Ge, l, r), Seq::empty()),
        BinOp::And => goto(s, MControl::Value(VVal::Bool(truthy(l) && truthy(r)))),
        BinOp::Or => goto(s, MControl::Value(VVal::Bool(truthy(l) || truthy(r)))),
    }
}

/// `get_field`.
pub open spec fn field_of(obj: VVal, f: Seq<char>) -> Result<VVal, MErr> {
    match obj {
        VVal::Object(_, fields) => match find_field(fields, f) {
            Some(j) => Ok(fields[j].value),
            None => Err(MErr::UndefinedField(f)),
        },
        _ => Err(MErr::TypeError("Cannot access field on non-object"@)),
    }
}

/// `get_index`: the index is taken `as usize`.
pub open spec fn item_at(obj: VVal, idx: VVal) -> Result<VVal, MErr> {
    match (obj, idx) {
        (VVal::List(items), VVal::Whole(i)) => if ((i as usize) as int) < items.len() {
            Ok(items[(i as usize) as int])
        } else {
            Err(MErr::IndexOutOfBounds)
        },
        (VVal::List(_), _) => Err(MErr::TypeError("List index must be integer"@)),
        _ => Err(MErr::TypeError("Cannot index non-list"@)),
    }
}

pub open spec fn result_step(s: MState, r: Result<VVal, MErr>) -> (MState, MAction) {
    match r {
        Ok(v) => goto(s, MControl::Value(v)),
        Err(e) => goto(s, MControl::Raise(e)),
    }
}

// -------------------------------------------------------------- statements

/// One step on `Exec(st)`.
pub open spec fn exec_step(s: MState, st: SStmt) -> (MState, MAction) {
    match st {
        SStmt::SetVar(n, e, m) => goto(push(s, MCont::SetVar(n, m)), MControl::Eval(e)),
        SStmt::Assign(t, e) => goto(push(s, MCont::AssignTo(t)), MControl::Eval(e)),
        SStmt::Log(e) => goto(push(s, MCont::Log), MControl::Eval(e)),
        SStmt::If(c, tb, eb) => goto(push(s, MCont::Branch(tb, eb)), MControl::Eval(c)),
        SStmt::Loop(c, b) => goto(push(s, MCont::LoopTest(c, b)), MControl::Eval(c)),
        SStmt::Break => goto(s, MControl::Raise(MErr::Break)),
        SStmt::Wait(e) => goto(push(s, MCont::WaitFor), MControl::Eval(e)),
        SStmt::Return(e) => match e {
            Some(x) => goto(push(s, MCont::Give), MControl::Eval(x)),
            None => goto(s, MControl::Raise(MErr::Return(VVal::Nil))),
        },
        SStmt::Trap(tb, cb) => goto(
            push(push(s, MCont::Trap(cb)), MCont::Stmts(tb, 0)),
            MControl::Value(VVal::Nil),
        ),
        SStmt::ExprStmt(e) => goto(push(s, MCont::Discard), MControl::Eval(e)),
    }
}

/// A statement block is started: its continuation takes over.
pub open spec fn start_block(s: MState, b: Seq<SStmt>) -> MState {
    push(s, MCont::Stmts(b, 0))
}

// ------------------------------------------------------------ declarations

pub open spec fn declare_step(s: MState, d: SDecl) -> (MState, MAction) {
    match d {
        SDecl::Link(path, _) => (
            set_control(s, MControl::Request(MPending::Path(path, false))),
            MAction::Log(LogLevel::Info, "Loading module: "@ + path),
        ),
        SDecl::Proc(n, ps, body) => goto(
            MState { procs: insert_proc(s.procs, MProc { name: n, params: ps, body }), ..s },
            MControl::Value(VVal::Nil),
        ),
        SDecl::Form(n, fs) => goto(s, MControl::DeclareFields(n, fs, 0, Seq::empty())),
    }
}

/// The fields of a form from index `i`; each default is evaluated in a
/// fresh environment of its own.
pub open spec fn fields_step(
    s: MState,
    n: Seq<char>,
    fs: Seq<SField>,
    i: nat,
    infos: Seq<MFieldInfo>,
) -> (MState, MAction) {
    if i >= fs.len() {
        goto(
            MState { forms: insert_form(s.forms, MForm { name: n, fields: infos }), ..s },
            MControl::Value(VVal::Nil),
        )
    } else {
        match fs[i as int].initial {
            None => goto(
                s,
                MControl::DeclareFields(
                    n,
                    fs,
                    i + 1,
                    insert_info(
                        infos,
                        MFieldInfo { name: fs[i as int].name, mutable: fs[i as int].mutable, default: None },
                    ),
                ),
            ),
            Some(e) => goto(
                push(
                    MState { envs: s.envs.push(Seq::empty()), ..s },
                    MCont::FieldDefault(n, fs, i, infos),
                ),
                MControl::Eval(e),
            ),
        }
    }
}

// ------------------------------------------------------------ continuations

/// Hands the value `v` to the top continuation.
pub open spec fn deliver(s: MState, v: VVal) -> (MState, MAction) {
    if s.conts.len() == 0 {
        (set_control(s, MControl::Idle), MAction::Finished(None))
    } else {
        deliver_to(MState { conts: s.conts.drop_last(), ..s }, s.conts.last(), v)
    }
}

/// Hands the value `v` to the continuation `k`, taken off the state `s1`.
pub open spec fn deliver_to(s1: MState, k: MCont, v: VVal) -> (MState, MAction) {
    match k {
        MCont::Scope => goto(pop_env(s1), MControl::Value(v)),
        MCont::Globals => goto(store_globals(s1), MControl::Value(v)),
        MCont::Items(its, i) => if i < its.len() {
            goto(
                push(s1, MCont::Items(its, i + 1)),
                match its[i as int] {
                    SItem::Decl(d) => MControl::Declare(d),
                    SItem::Stmt(st) => MControl::Exec(st),
                },
            )
        } else {
            goto(s1, MControl::Value(VVal::Nil))
        },
        MCont::Stmts(ss, i) => if i < ss.len() {
            goto(push(s1, MCont::Stmts(ss, i + 1)), MControl::Exec(ss[i as int]))
        } else {
            goto(s1, MControl::Value(VVal::Nil))
        },
        MCont::BinRight(op, r) => goto(push(s1, MCont::BinApply(op, v)), MControl::Eval(r)),
        MCont::BinApply(op, l) => binary_step(s1, op, l, v),
        MCont::Not => goto(s1, MControl::Value(VVal::Bool(!truthy(v)))),
        MCont::ListAcc(done, es, i) => if i < es.len() {
            goto(push(s1, MCont::ListAcc(done.push(v), es, i + 1)), MControl::Eval(es[i as int]))
        } else {
            goto(s1, MControl::Value(VVal::List(done.push(v))))
        },
        MCont::CallArgs(n, done, es, i) => if i < es.len() {
            goto(
                push(s1, MCont::CallArgs(n, done.push(v), es, i + 1)),
                MControl::Eval(es[i as int]),
            )
        } else {
            goto(s1, MControl::Call(n, done.push(v)))
        },
        MCont::GetField(f) => result_step(s1, field_of(v, f)),
        MCont::IndexObj(ie) => goto(push(s1, MCont::IndexApply(v)), MControl::Eval(ie)),
        MCont::IndexApply(obj) => result_step(s1, item_at(obj, v)),
        MCont::EntryPrompt => match v {
            VVal::Str(p) => (set_control(s1, MControl::Await(MPending::Line(p))), MAction::Prompt(p)),
            _ => raise_type(s1, "entry prompt must be string"@),
        },
        MCont::SetVar(n, m) => match var_set(s1, n, v, m) {
            Ok(s2) => goto(s2, MControl::Value(VVal::Nil)),
            Err(e) => goto(s1, MControl::Raise(e)),
        },
        MCont::AssignTo(t) => assign_step(s1, t, v),
        MCont::AssignField(oe, f, val) => match v {
            VVal::Object(fname, fields) => match find_field(fields, f) {
                Some(j) => goto(
                    push(s1, MCont::AssignTo(oe)),
                    MControl::Value(
                        VVal::Object(fname, fields.update(j, VField { name: f, value: val })),
                    ),
                ),
                None => goto(s1, MControl::Raise(MErr::UndefinedField(f))),
            },
            _ => raise_type(s1, "Cannot assign to field of non-object"@),
        },
        MCont::AssignIndexIdx(oe, val) => goto(
            push(s1, MCont::AssignIndexObj(oe, val, v)),
            MControl::Eval(oe),
        ),
        MCont::AssignIndexObj(oe, val, idx) => match (v, idx) {
            (VVal::List(items), VVal::Whole(i)) => if ((i as usize) as int) < items.len() {
                goto(
                    push(s1, MCont::AssignTo(oe)),
                    MControl::Value(VVal::List(items.update((i as usize) as int, val))),
                )
            } else {
                goto(s1, MControl::Raise(MErr::IndexOutOfBounds))
            },
            (VVal::List(_), _) => raise_type(s1, "List index must be integer"@),
            _ => raise_type(s1, "Cannot index non-list"@),
        },
        MCont::Log => (set_control(s1, MControl::Value(VVal::Nil)), MAction::Print(display_chunks(v))),
        MCont::Branch(tb, eb) => if truthy(v) {
            goto(start_block(s1, tb), MControl::Value(VVal::Nil))
        } else {
            match eb {
                Some(b) => goto(start_block(s1, b), MControl::Value(VVal::Nil)),
                None => goto(s1, MControl::Value(VVal::Nil)),
            }
        },
        MCont::LoopTest(c, b) => if truthy(v) {
            goto(start_block(push(s1, MCont::LoopAgain(c, b)), b), MControl::Value(VVal::Nil))
        } else {
            goto(s1, MControl::Value(VVal::Nil))
        },
        MCont::LoopAgain(c, b) => goto(push(s1, MCont::LoopTest(c, b)), MControl::Eval(c)),
        MCont::WaitFor => match v {
            VVal::Whole(n) => (
                set_control(s1, MControl::Value(VVal::Nil)),
                MAction::Sleep(MDelay::Seconds(n as u64)),
            ),
            VVal::Fraction(f) => (
                set_control(s1, MControl::Value(VVal::Nil)),
                MAction::Sleep(MDelay::Fraction(f)),
            ),
            _ => raise_type(s1, "wait expects number"@),
        },
        MCont::Give => goto(s1, MControl::Raise(MErr::Return(v))),
        MCont::Trap(_) => goto(s1, MControl::Value(VVal::Nil)),
        MCont::Discard => goto(s1, MControl::Value(VVal::Nil)),
        MCont::CallBody(_) => goto(pop_env(s1), MControl::Value(VVal::Nil)),
        MCont::FieldDefault(n, fs, i, infos) => goto(
            pop_env(s1),
            if i < fs.len() {
                MControl::DeclareFields(
                    n,
                    fs,
                    i + 1,
                    insert_info(
                        infos,
                        MFieldInfo {
                            name: fs[i as int].name,
                            mutable: fs[i as int].mutable,
                            default: Some(v),
                        },
                    ),
                )
            } else {
                MControl::DeclareFields(n, fs, i, infos)
            },
        ),
    }
}

/// `assign(target, v)`.
pub open spec fn assign_step(s: MState, t: SExpr, v: VVal) -> (MState, MAction) {
    match t {
        SExpr::Variable(n) => match var_set(s, n, v, true) {
            Ok(s2) => goto(s2, MControl::Value(VVal::Nil)),
            Err(e) => goto(s, MControl::Raise(e)),
        },
        SExpr::Field(o, f) => goto(push(s, MCont::AssignField(*o, f, v)), MControl::Eval(*o)),
        SExpr::Index(o, i) => goto(push(s, MCont::AssignIndexIdx(*o, v)), MControl::Eval(*i)),
        _ => raise_type(s, "Invalid assignment target"@),
    }
}

/// Unwinds the top continuation with the error `e`.
pub open spec fn unwind(s: MState, e: MErr) -> (MState, MAction) {
    if s.conts.len() == 0 {
        (set_control(s, MControl::Idle), MAction::Finished(Some(e)))
    } else {
        let k = s.conts.last();
        let s1 = MState { conts: s.conts.drop_last(), ..s };
        match k {
            MCont::Scope => goto(pop_env(s1), MControl::Raise(e)),
            MCont::Globals => goto(store_globals(s1), MControl::Raise(e)),
            MCont::LoopAgain(_, _) => if e is Break {
                goto(s1, MControl::Value(VVal::Nil))
            } else {
                goto(s1, MControl::Raise(e))
            },
            MCont::Trap(cb) => goto(start_block(s1, cb), MControl::Value(VVal::Nil)),
            MCont::CallBody(n) => match e {
                MErr::Return(v) => goto(pop_env(s1), MControl::Value(v)),
                _ => (
                    set_control(pop_env(s1), MControl::Raise(e)),
                    MAction::Log(
                        LogLevel::Error,
                        "Error in user function "@ + n + ": "@ + crate::error::runtime_error_text(e),
                    ),
                ),
            },
            MCont::FieldDefault(_, _, _, _) => goto(pop_env(s1), MControl::Raise(e)),
            _ => goto(s1, MControl::Raise(e)),
        }
    }
}

// ------------------------------------------------------------------- calls

pub open spec fn file_builtin_1(n: Seq<char>) -> bool {
    n == "read_file"@ || n == "delete_file"@ || n == "file_exists"@ || n == "file_size"@ || n
        == "file_time"@ || n == "list_dir"@ || n == "create_dir"@ || n == "remove_dir"@
}

pub open spec fn file_builtin_2(n: Seq<char>) -> bool {
    n == "write_file"@ || n == "append_file"@ || n == "copy_file"@ || n == "rename_file"@
}

/// The built-in functions whose call is logged.
pub open spec fn logged_builtin(n: Seq<char>) -> bool {
    file_builtin_1(n) || file_builtin_2(n) || n == "len"@
}

pub open spec fn count_text(n: nat) -> Seq<char> {
    nat_text(n)
}

/// One step on `Call(n, args)`: built-ins first, then procedures, then the
/// functions of native modules.
pub open spec fn call_step(s: MState, n: Seq<char>, args: Seq<VVal>) -> (MState, MAction) {
    if logged_builtin(n) {
        (
            set_control(s, MControl::Builtin(n, args)),
            MAction::Log(LogLevel::Info, "Built-in function: "@ + n),
        )
    } else if n == "log_message"@ || n == "load_native"@ {
        goto(s, MControl::Builtin(n, args))
    } else {
        match find_proc(s.procs, n) {
            Some(i) => {
                let p = s.procs[i];
                if p.params.len() != args.len() {
                    raise_type(
                        s,
                        "Function "@ + n + " expects "@ + count_text(p.params.len()) + " arguments, got "@
                            + count_text(args.len()),
                    )
                } else {
                    match bind_params(Seq::empty(), p.params, args) {
                        Ok(env) => goto(
                            start_block(
                                push(MState { envs: s.envs.push(env), ..s }, MCont::CallBody(n)),
                                p.body,
                            ),
                            MControl::Value(VVal::Nil),
                        ),
                        Err(e) => goto(s, MControl::Raise(e)),
                    }
                }
            },
            None => match find_native(s.natives, n) {
                Some((mi, fi)) => native_call(
                    s,
                    s.natives[mi].name,
                    n,
                    s.natives[mi].functions[fi].args,
                    args,
                ),
                None => goto(s, MControl::Raise(MErr::UndefinedFunction(n))),
            },
        }
    }
}

pub open spec fn has_nul(t: Seq<char>) -> bool {
    exists|i: int| 0 <= i < t.len() && t[i] == '\0'
}

/// The call of a native function: argument count, then the argument kinds
/// that the host can pass.
pub open spec fn native_call(
    s: MState,
    module: Seq<char>,
    n: Seq<char>,
    arity: u32,
    args: Seq<VVal>,
) -> (MState, MAction) {
    if args.len() != arity as nat {
        raise_type(
            s,
            "Native function "@ + n + " expects "@ + count_text(arity as nat) + " arguments, got "@
                + count_text(args.len()),
        )
    } else if arity == 0 {
        native_request(s, module, n, MNativeArgs::Nothing)
    } else if arity == 1 {
        match args[0] {
            VVal::Str(t) => if has_nul(t) {
                raise_type(s, "String contains null byte"@)
            } else {
                native_request(s, module, n, MNativeArgs::Text(t))
            },
            _ => raise_type(s, "Native function with one argument expects a string"@),
        }
    } else if arity == 2 {
        match (args[0], args[1]) {
            (VVal::Str(a), VVal::Str(b)) => if has_nul(a) || has_nul(b) {
                raise_type(s, "String contains null byte"@)
            } else {
                native_request(s, module, n, MNativeArgs::Texts(a, b))
            },
            (VVal::Whole(a), VVal::Whole(b)) => native_request(s, module, n, MNativeArgs::Wholes(a, b)),
            _ => raise_type(
                s,
                "Native function with two arguments expects either two strings or two integers"@,
            ),
        }
    } else {
        raise_type(s, "Native functions with more arguments not yet supported"@)
    }
}

pub open spec fn native_request(s: MState, module: Seq<char>, n: Seq<char>, a: MNativeArgs) -> (
    MState,
    MAction,
) {
    (
        set_control(s, MControl::Await(MPending::NativeCall(module, n, a))),
        MAction::CallNative(module, n, a),
    )
}

/// The UTF-8 length of a text (`str::len`).
pub open spec fn utf8_len(t: Seq<char>) -> nat
    decreases t.len(),
{
    if t.len() == 0 {
        0
    } else {
        utf8_len(t.drop_last()) + if (t.last() as u32) < 0x80 {
            1nat
        } else if (t.last() as u32) < 0x800 {
            2nat
        } else if (t.last() as u32) < 0x10000 {
            3nat
        } else {
            4nat
        }
    }
}

pub open spec fn file_request_1(n: Seq<char>, p: Seq<char>) -> MFileRequest {
    if n == "read_file"@ {
        MFileRequest::Read(p)
    } else if n == "delete_file"@ {
        MFileRequest::Delete(p)
    } else if n == "file_exists"@ {
        MFileRequest::Exists(p)
    } else if n == "file_size"@ {
        MFileRequest::Size(p)
    } else if n == "file_time"@ {
        MFileRequest::Time(p)
    } else if n == "list_dir"@ {
        MFileRequest::ListDir(p)
    } else if n == "create_dir"@ {
        MFileRequest::CreateDir(p)
    } else {
        MFileRequest::RemoveDir(p)
    }
}

pub open spec fn file_request_2(n: Seq<char>, a: Seq<char>, b: Seq<char>) -> MFileRequest {
    if n == "write_file"@ {
        MFileRequest::Write(a, b)
    } else if n == "append_file"@ {
        MFileRequest::Append(a, b)
    } else if n == "copy_file"@ {
        MFileRequest::Copy(a, b)
    } else {
        MFileRequest::Rename(a, b)
    }
}

pub open spec fn file_step(s: MState, r: MFileRequest) -> (MState, MAction) {
    (set_control(s, MControl::Await(MPending::File(r))), MAction::File(r))
}

/// One step on `Builtin(n, args)`: the argument checks, then the work.
pub open spec fn builtin_step(s: MState, n: Seq<char>, args: Seq<VVal>) -> (MState, MAction) {
    if file_builtin_1(n) {
        if args.len() != 1 {
            raise_type(s, n + " expects 1 argument"@)
        } else {
            match args[0] {
                VVal::Str(p) => file_step(s, file_request_1(n, p)),
                _ => raise_type(s, n + " expects string argument"@),
            }
        }
    } else if file_builtin_2(n) {
        if args.len() != 2 {
            raise_type(s, n + " expects 2 arguments"@)
        } else {
            match (args[0], args[1]) {
                (VVal::Str(a), VVal::Str(b)) => file_step(s, file_request_2(n, a, b)),
                (VVal::Str(_), _) => raise_type(s, n + " second argument must be string"@),
                _ => raise_type(s, n + " first argument must be string"@),
            }
        }
    } else if n == "len"@ {
        if args.len() != 1 {
            raise_type(s, "len expects 1 argument"@)
        } else {
            match args[0] {
                VVal::List(l) => goto(s, MControl::Value(VVal::Whole(l.len() as i64))),
                VVal::Str(t) => goto(s, MControl::Value(VVal::Whole(utf8_len(t) as i64))),
                _ => raise_type(s, "len expects list or string"@),
            }
        }
    } else if n == "log_message"@ {
        if args.len() != 2 {
            raise_type(s, "log_message expects 2 arguments"@)
        } else {
            match (args[0], args[1]) {
                (VVal::Str(level), VVal::Str(m)) => (
                    set_control(s, MControl::Value(VVal::Nil)),
                    if level == "info"@ {
                        MAction::Log(LogLevel::Info, m)
                    } else if level == "warn"@ {
                        MAction::Log(LogLevel::Warn, m)
                    } else if level == "error"@ {
                        MAction::Log(LogLevel::Error, m)
                    } else if level == "debug"@ {
                        MAction::Log(LogLevel::Debug, m)
                    } else {
                        MAction::Log(LogLevel::Info, "["@ + level + "] "@ + m)
                    },
                ),
                (VVal::Str(_), _) => raise_type(s, "log_message second argument must be string"@),
                _ => raise_type(s, "log_message first argument must be string"@),
            }
        }
    } else {
        // load_native
        if args.len() != 1 {
            raise_type(s, "load_native expects 1 argument"@)
        } else {
            match args[0] {
                VVal::Str(name) => (
                    set_control(s, MControl::Request(MPending::Native(name))),
                    MAction::Log(LogLevel::Info, "Loading native module: "@ + name),
                ),
                _ => raise_type(s, "load_native expects string argument"@),
            }
        }
    }
}

/// A failed file operation: logged, then raised.
pub open spec fn file_failure(s: MState, fname: Seq<char>, io: Seq<char>, message: Seq<char>) -> (
    MState,
    MAction,
) {
    (
        set_control(s, MControl::Raise(MErr::TypeError(message))),
        MAction::Log(LogLevel::Error, fname + " failed: "@ + io),
    )
}

/// The answer to a file operation. `None` where the reply does not fit the
/// request.
pub open spec fn file_answer(s: MState, r: MFileRequest, a: MFileReply) -> Option<(MState, MAction)> {
    let done = goto(s, MControl::Value(VVal::Bool(true)));
    match (r, a) {
        (MFileRequest::Read(_), MFileReply::Text(t)) => Some(goto(s, MControl::Value(VVal::Str(t)))),
        (MFileRequest::Read(p), MFileReply::Failed(e)) => Some(
            file_failure(s, "read_file"@, e, "Cannot read file "@ + p + ": "@ + e),
        ),
        (MFileRequest::Write(_, _), MFileReply::Done) => Some(done),
        (MFileRequest::Write(p, _), MFileReply::Failed(e)) => Some(
            file_failure(s, "write_file"@, e, "Cannot write file "@ + p + ": "@ + e),
        ),
        (MFileRequest::Append(_, _), MFileReply::Done) => Some(done),
        (MFileRequest::Append(p, _), MFileReply::OpenFailed(e)) => Some(
            file_failure(s, "append_file"@, e, "Cannot open file "@ + p + " for append: "@ + e),
        ),
        (MFileRequest::Append(p, _), MFileReply::Failed(e)) => Some(
            file_failure(s, "append_file"@, e, "Cannot append to file "@ + p + ": "@ + e),
        ),
        (MFileRequest::Delete(_), MFileReply::Done) => Some(done),
        (MFileRequest::Delete(p), MFileReply::Failed(e)) => Some(
            file_failure(s, "delete_file"@, e, "Cannot delete file "@ + p + ": "@ + e),
        ),
        (MFileRequest::Copy(_, _), MFileReply::Done) => Some(done),
        (MFileRequest::Copy(a, b), MFileReply::Failed(e)) => Some(
            file_failure(s, "copy_file"@, e, "Cannot copy "@ + a + " to "@ + b + ": "@ + e),
        ),
        (MFileRequest::Rename(_, _), MFileReply::Done) => Some(done),
        (MFileRequest::Rename(a, b), MFileReply::Failed(e)) => Some(
            file_failure(s, "rename_file"@, e, "Cannot rename "@ + a + " to "@ + b + ": "@ + e),
        ),
        (MFileRequest::Exists(_), MFileReply::Flag(f)) => Some(
            goto(s, MControl::Value(VVal::Bool(f))),
        ),
        (MFileRequest::Size(_), MFileReply::Size(n)) => Some(
            goto(s, MControl::Value(VVal::Whole(n as i64))),
        ),
        (MFileRequest::Size(_), MFileReply::Failed(e)) => Some(
            file_failure(s, "file_size"@, e, "Cannot get file size: "@ + e),
        ),
        (MFileRequest::Time(_), MFileReply::Time(b)) => Some(
            goto(s, MControl::Value(VVal::Fraction(b))),
        ),
        (MFileRequest::Time(_), MFileReply::NoModifiedTime) => Some(
            raise_type(s, "Cannot get modification time on this platform"@),
        ),
        (MFileRequest::Time(_), MFileReply::BeforeEpoch) => Some(
            raise_type(s, "File time is before Unix epoch"@),
        ),
        (MFileRequest::Time(p), MFileReply::Failed(e)) => Some(
            file_failure(s, "file_time"@, e, "Cannot access file "@ + p + ": "@ + e),
        ),
        (MFileRequest::ListDir(_), MFileReply::Names(ns)) => Some(
            goto(s, MControl::Value(VVal::List(ns.map_values(|t: Seq<char>| VVal::Str(t))))),
        ),
        (MFileRequest::ListDir(p), MFileReply::Failed(e)) => Some(
            file_failure(s, "list_dir"@, e, "Cannot read directory "@ + p + ": "@ + e),
        ),
        (MFileRequest::CreateDir(_), MFileReply::Done) => Some(done),
        (MFileRequest::CreateDir(p), MFileReply::Failed(e)) => Some(
            file_failure(s, "create_dir"@, e, "Cannot create directory "@ + p + ": "@ + e),
        ),
        (MFileRequest::RemoveDir(_), MFileReply::Done) => Some(done),
        (MFileRequest::RemoveDir(p), MFileReply::Failed(e)) => Some(
            file_failure(s, "remove_dir"@, e, "Cannot remove directory "@ + p + ": "@ + e),
        ),
        _ => None,
    }
}

// ------------------------------------------------------------------ modules

/// A module's source, as tokens, parsed. A module loaded with `load_module`
/// (`repl`) runs in a scope that starts as the globals and becomes them when
/// it ends; a module linked from a program runs in the scope of the `link`.
pub open spec fn module_parsed(
    s: MState,
    path: Seq<char>,
    canon: Seq<char>,
    repl: bool,
    ls: Seq<Lexed>,
    bits: Seq<u64>,
) -> (MState, MAction) {
    match program(resolved(ls, bits)) {
        Ok(items) => {
            let s1 = MState { modules: s.modules.push(canon), ..s };
            if repl {
                goto(
                    push(
                        push(MState { envs: s1.envs.push(s1.globals), ..s1 }, MCont::Globals),
                        MCont::Items(items, 0),
                    ),
                    MControl::Value(VVal::Nil),
                )
            } else {
                goto(push(s1, MCont::Items(items, 0)), MControl::Value(VVal::Nil))
            }
        },
        Err(SErr::Crash) => halt(s, "called `Option::unwrap()` on a `None` value"@),
        Err(e) => {
            let c = text_chunk("Parse error in module "@ + path + ": "@) + parse_error_chunks(1, e);
            render_step(s, c, true)
        },
    }
}

/// The action that a pending request is made with.
pub open spec fn request_action(p: MPending) -> MAction {
    match p {
        MPending::Float(t) => MAction::Float(t),
        MPending::RenderValue(c) => MAction::Render(c),
        MPending::RenderError(c) => MAction::Render(c),
        MPending::Line(t) => MAction::Prompt(t),
        MPending::File(r) => MAction::File(r),
        MPending::Path(path, _) => MAction::Resolve(path),
        MPending::Source(_, canon, _) => MAction::ReadSource(canon),
        MPending::Fractions(_, _, _, ls) => MAction::ParseFractions(fraction_texts(ls)),
        MPending::Native(name) => MAction::LoadNative(name),
        MPending::NativeCall(m, n, a) => MAction::CallNative(m, n, a),
    }
}

/// Whether a float operation is a comparison (answered with a truth value).
pub open spec fn is_comparison(op: FloatOp) -> bool {
    op is Lt || op is Le || op is Gt || op is Ge
}

pub open spec fn trim_start(t: Seq<char>) -> Seq<char>
    decreases t.len(),
{
    if t.len() > 0 && is_white(t[0]) {
        trim_start(t.drop_first())
    } else {
        t
    }
}

pub open spec fn trim_end(t: Seq<char>) -> Seq<char>
    decreases t.len(),
{
    if t.len() > 0 && is_white(t.last()) {
        trim_end(t.drop_last())
    } else {
        t
    }
}

/// `str::trim`.
pub open spec fn trim(t: Seq<char>) -> Seq<char> {
    trim_end(trim_start(t))
}

/// The answer `ev` to the pending request `p`; an answer of the wrong kind
/// leaves the state as it is and repeats the request.
pub open spec fn m_answer(s: MState, p: MPending, ev: MEvent) -> (MState, MAction) {
    let again = (s, request_action(p));
    match (p, ev) {
        (MPending::Float(t), MEvent::Number(b)) => if !is_comparison(t.op) {
            goto(s, MControl::Value(VVal::Fraction(b)))
        } else {
            again
        },
        (MPending::Float(t), MEvent::Truth(b)) => if is_comparison(t.op) {
            goto(s, MControl::Value(VVal::Bool(b)))
        } else {
            again
        },
        (MPending::RenderValue(c), MEvent::Texts(ts)) => if ts.len() == fraction_count(c) {
            goto(s, MControl::Value(VVal::Str(spliced(c, ts))))
        } else {
            again
        },
        (MPending::RenderError(c), MEvent::Texts(ts)) => if ts.len() == fraction_count(c) {
            goto(s, MControl::Raise(MErr::TypeError(spliced(c, ts))))
        } else {
            again
        },
        (MPending::Line(_), MEvent::Line(t)) => goto(s, MControl::Value(VVal::Str(trim(t)))),
        (MPending::File(r), MEvent::File(a)) => match file_answer(s, r, a) {
            Some(x) => x,
            None => again,
        },
        (MPending::Path(path, repl), MEvent::Path(r)) => match r {
            Ok(canon) => if s.modules.contains(canon) {
                goto(s, MControl::Value(VVal::Nil))
            } else {
                let q = MPending::Source(path, canon, repl);
                (set_control(s, MControl::Await(q)), MAction::ReadSource(canon))
            },
            Err(MPathError::CurrentDir(m)) => raise_type(s, "Cannot get current dir: "@ + m),
            Err(MPathError::Resolve(m)) => raise_type(s, "Cannot resolve path "@ + path + ": "@ + m),
        },
        (MPending::Source(path, canon, repl), MEvent::Source(r)) => match r {
            Ok(text) => {
                let ls = crate::lexer::spec_scan(text);
                if fraction_texts(ls).len() == 0 {
                    module_parsed(s, path, canon, repl, ls, Seq::empty())
                } else {
                    let q = MPending::Fractions(path, canon, repl, ls);
                    (set_control(s, MControl::Await(q)), MAction::ParseFractions(fraction_texts(ls)))
                }
            },
            Err(m) => raise_type(s, "Cannot read module "@ + path + ": "@ + m),
        },
        (MPending::Fractions(path, canon, repl, ls), MEvent::Fractions(bits)) => if bits.len()
            == fraction_texts(ls).len() {
            module_parsed(s, path, canon, repl, ls, bits)
        } else {
            again
        },
        (MPending::Native(name), MEvent::Native(r)) => match r {
            Ok(m) => (
                set_control(
                    MState { natives: insert_module(s.natives, m), ..s },
                    MControl::Say(LogLevel::Info, "Native module '"@ + name + "' loaded"@),
                ),
                MAction::Continue,
            ),
            Err(MNativeError::Open(m)) => raise_type(
                s,
                "Cannot load module '"@ + name + "': "@ + m,
            ),
            Err(MNativeError::Symbol(m)) => raise_type(
                s,
                "Module '"@ + name + "' has no info symbol: "@ + m,
            ),
        },
        (MPending::NativeCall(_, _, _), MEvent::Whole(r)) => goto(s, MControl::Value(VVal::Whole(r))),
        _ => again,
    }
}

// -------------------------------------------------------------------- steps

/// One step of a machine that is not waiting for an answer.
pub open spec fn m_step(s: MState) -> (MState, MAction) {
    match s.control {
        MControl::Eval(e) => eval_step(s, e),
        MControl::Exec(st) => exec_step(s, st),
        MControl::Declare(d) => declare_step(s, d),
        MControl::DeclareFields(n, fs, i, infos) => fields_step(s, n, fs, i, infos),
        MControl::Value(v) => deliver(s, v),
        MControl::Raise(e) => unwind(s, e),
        MControl::Call(n, args) => call_step(s, n, args),
        MControl::Builtin(n, args) => builtin_step(s, n, args),
        MControl::Say(l, m) => (set_control(s, MControl::Value(VVal::Nil)), MAction::Log(l, m)),
        MControl::Request(p) => (set_control(s, MControl::Await(p)), request_action(p)),
        _ => (s, MAction::Continue),
    }
}

/// The machine's transition: the answer `ev` if a request is pending, else
/// one step.
pub open spec fn m_resume(s: MState, ev: MEvent) -> (MState, MAction) {
    match s.control {
        MControl::Idle => (s, MAction::Continue),
        MControl::Await(p) => m_answer(s, p, ev),
        _ => m_step(s),
    }
}

/// A machine with nothing loaded and nothing to do.
pub open spec fn m_initial() -> MState {
    MState {
        procs: Seq::empty(),
        forms: Seq::empty(),
        modules: Seq::empty(),
        natives: Seq::empty(),
        envs: Seq::empty(),
        globals: Seq::empty(),
        conts: Seq::empty(),
        control: MControl::Idle,
    }
}

/// `run(program)`: the items in a fresh scope, after the log line that
/// announces the run. Procedures, forms, modules and globals stay.
pub open spec fn m_start_run(s: MState, items: Seq<SItem>) -> MState {
    MState {
        envs: seq![Seq::empty()],
        conts: seq![MCont::Scope, MCont::Items(items, 0)],
        control: MControl::Say(LogLevel::Info, "Starting program execution"@),
        ..s
    }
}

/// `load_module(path)`.
pub open spec fn m_start_load(s: MState, path: Seq<char>) -> MState {
    MState {
        envs: Seq::empty(),
        conts: Seq::empty(),
        control: MControl::Request(MPending::Path(path, true)),
        ..s
    }
}

// -------------------------------------------------------------------- laws

/// A variable reads back the value last written to it.
pub proof fn lemma_set_then_get(env: Seq<MVar>, name: Seq<char>, v: VVal, mutable: bool)
    requires
        env_set(env, name, v, mutable) is Ok,
    ensures
        env_get(env_set(env, name, v, mutable)->Ok_0, name) == Some(v),
{
    lemma_first_match(env, var_named(name));
    let e2 = env_set(env, name, v, mutable)->Ok_0;
    lemma_first_match(e2, var_named(name));
    match find_var(env, name) {
        Some(i) => {
            assert(e2 == env.update(i, MVar { name, value: v, mutable: true }));
            assert(var_named(name)(e2[i]));
            let j = find_var(e2, name)->0;
            assert(!(j < i)) by {
                if j < i {
                    assert(e2[j] == env[j]);
                }
            }
            assert(!(i < j));
        },
        None => {
            assert(e2 == env.push(MVar { name, value: v, mutable }));
            assert(var_named(name)(e2[env.len() as int]));
            let j = find_var(e2, name)->0;
            assert(!(j < env.len())) by {
                if j < env.len() {
                    assert(e2[j] == env[j]);
                }
            }
        },
    }
}

proof fn lemma_first_match_same<T>(s1: Seq<T>, s2: Seq<T>, f: spec_fn(T) -> bool)
    requires
        s1.len() == s2.len(),
        forall|k: int| 0 <= k < s1.len() ==> f(#[trigger] s1[k]) == f(s2[k]),
    ensures
        first_match(s1, f) == first_match(s2, f),
    decreases s1.len(),
{
    if s1.len() > 0 {
        let a = s1.drop_last();
        let b = s2.drop_last();
        assert forall|k: int| 0 <= k < a.len() implies f(#[trigger] a[k]) == f(b[k]) by {
            assert(a[k] == s1[k]);
            assert(b[k] == s2[k]);
        }
        lemma_first_match_same(a, b, f);
        assert(f(s1.last()) == f(s2.last())) by {
            assert(s1.last() == s1[s1.len() - 1]);
        }
    }
}

/// Writing a variable leaves the value of every other variable as it was.
pub proof fn lemma_set_keeps_others(
    env: Seq<MVar>,
    name: Seq<char>,
    v: VVal,
    mutable: bool,
    other: Seq<char>,
)
    requires
        env_set(env, name, v, mutable) is Ok,
        other != name,
    ensures
        env_get(env_set(env, name, v, mutable)->Ok_0, other) == env_get(env, other),
{
    let e2 = env_set(env, name, v, mutable)->Ok_0;
    lemma_first_match(env, var_named(name));
    lemma_first_match(env, var_named(other));
    match find_var(env, name) {
        Some(i) => {
            let nv = MVar { name, value: v, mutable: true };
            assert(e2 == env.update(i, nv));
            assert forall|k: int| 0 <= k < env.len() implies var_named(other)(#[trigger] env[k])
                == var_named(other)(e2[k]) by {
                if k == i {
                    assert(env[k].name == name);
                    assert(e2[k] == nv);
                } else {
                    assert(e2[k] == env[k]);
                }
            }
            lemma_first_match_same(env, e2, var_named(other));
            if find_var(env, other) is Some {
                let j = find_var(env, other)->0;
                assert(j != i);
                assert(e2[j] == env[j]);
            }
        },
        None => {
            let nv = MVar { name, value: v, mutable };
            assert(e2 == env.push(nv));
            assert(e2.drop_last() =~= env);
            assert(!var_named(other)(nv));
            if find_var(env, other) is Some {
                let j = find_var(env, other)->0;
                assert(e2[j] == env[j]);
            }
        },
    }
}

/// A constant (`fix`, or a parameter of a procedure) cannot be written: the
/// write fails with a type error and the environment is unchanged.
pub proof fn lemma_constant_stays(env: Seq<MVar>, name: Seq<char>, v: VVal, mutable: bool)
    requires
        find_var(env, name) is Some,
        !env[find_var(env, name)->0].mutable,
    ensures
        env_set(env, name, v, mutable) == Err::<Seq<MVar>, MErr>(constant_error(name)),
{
}

/// A field reads back the value last assigned to it.
pub proof fn lemma_field_assign_then_get(
    form: Seq<char>,
    fields: Seq<VField>,
    f: Seq<char>,
    v: VVal,
)
    requires
        find_field(fields, f) is Some,
    ensures
        field_of(
            VVal::Object(form, fields.update(find_field(fields, f)->0, VField { name: f, value: v })),
            f,
        ) == Ok::<VVal, MErr>(v),
{
    crate::value::lemma_find_field_bounds(fields, f);
    let j = find_field(fields, f)->0;
    let f2 = fields.update(j, VField { name: f, value: v });
    crate::value::lemma_find_field_bounds(f2, f);
    assert(f2[j].name == f);
    let j2 = find_field(f2, f)->0;
    assert(j2 <= j);
    if j2 < j {
        assert(f2[j2] == fields[j2]);
        assert(fields[j2].name != f);
    }
    assert(j2 == j);
}

/// A list element reads back the value last assigned to it.
pub proof fn lemma_item_assign_then_get(items: Seq<VVal>, i: i64, v: VVal)
    requires
        ((i as usize) as int) < items.len(),
    ensures
        item_at(VVal::List(items.update((i as usize) as int, v)), VVal::Whole(i)) == Ok::<VVal, MErr>(v),
{
}

/// A module whose resolved path was loaded before is not loaded again: the
/// answer to its path request finishes the `link` (or `load_module`) at once.
pub proof fn lemma_loaded_module_skipped(s: MState, path: Seq<char>, repl: bool, canon: Seq<char>)
    requires
        s.control == MControl::Await(MPending::Path(path, repl)),
        s.modules.contains(canon),
    ensures
        m_resume(s, MEvent::Path(Ok(canon))) == (
            set_control(s, MControl::Value(VVal::Nil)),
            MAction::Continue,
        ),
{
}

/// Starting a run keeps every declaration and loaded module: procedures,
/// forms, loaded script modules, native modules and the globals.
pub proof fn lemma_run_keeps_declarations(s: MState, items: Seq<SItem>)
    ensures
        m_start_run(s, items).procs == s.procs,
        m_start_run(s, items).forms == s.forms,
        m_start_run(s, items).modules == s.modules,
        m_start_run(s, items).natives == s.natives,
        m_start_run(s, items).globals == s.globals,
{
}

/// The globals persist: a module loaded with `load_module` starts from the
/// globals, and when it ends, normally or with an error, the variables of
/// its scope become the globals.
pub proof fn lemma_module_scope_becomes_globals(s: MState, v: VVal, e: MErr)
    requires
        s.conts.len() > 0,
        s.conts.last() == MCont::Globals,
    ensures
        deliver(s, v).0.globals == top_env(s),
        deliver(s, v).0.envs == pop_env(s).envs,
        unwind(s, e).0.globals == top_env(s),
        unwind(s, e).0.envs == pop_env(s).envs,
{
}

/// A module that `load_module` parsed runs its items in a scope that starts
/// as the globals.
pub proof fn lemma_loaded_module_starts_from_globals(
    s: MState,
    path: Seq<char>,
    canon: Seq<char>,
    ls: Seq<Lexed>,
    bits: Seq<u64>,
    items: Seq<SItem>,
)
    requires
        program(resolved(ls, bits)) == Ok::<Seq<SItem>, SErr>(items),
    ensures
        ({
            let s2 = module_parsed(s, path, canon, true, ls, bits).0;
            &&& top_env(s2) == s.globals
            &&& s2.globals == s.globals
            &&& s2.modules == s.modules.push(canon)
            &&& s2.conts == s.conts.push(MCont::Globals).push(MCont::Items(items, 0))
        }),
{
}

/// A later run sees the globals: in a run just started, a variable's value
/// is that of the global of its name.
pub proof fn lemma_run_sees_globals(s: MState, items: Seq<SItem>, name: Seq<char>)
    ensures
        var_get(m_start_run(s, items), name) == env_get(s.globals, name),
{
}

/// An idle machine stays idle and asks for nothing, whatever it is told.
pub proof fn lemma_idle_stays(s: MState, ev: MEvent)
    requires
        s.control is Idle,
    ensures
        m_resume(s, ev) == (s, MAction::Continue),
{
}

/// `trap` catches every error raised in its first block (`stop` and `give`
/// included) and runs its second block instead.
pub proof fn lemma_trap_catches(s: MState, cb: Seq<SStmt>, e: MErr)
    ensures
        unwind(push(s, MCont::Trap(cb)), e) == goto(start_block(s, cb), MControl::Value(VVal::Nil)),
{
    assert(push(s, MCont::Trap(cb)).conts.drop_last() =~= s.conts);
}

/// `stop` ends the innermost running loop normally; any other error leaves
/// the loop and goes on unwinding.
pub proof fn lemma_stop_ends_loop(s: MState, c: SExpr, body: Seq<SStmt>, e: MErr)
    ensures
        unwind(push(s, MCont::LoopAgain(c, body)), e) == (if e is Break {
            goto(s, MControl::Value(VVal::Nil))
        } else {
            goto(s, MControl::Raise(e))
        }),
{
    assert(push(s, MCont::LoopAgain(c, body)).conts.drop_last() =~= s.conts);
}

/// `give v` inside a procedure's body makes `v` the value of the call, and
/// the procedure's environment is left.
pub proof fn lemma_give_returns(s: MState, name: Seq<char>, v: VVal)
    ensures
        unwind(push(s, MCont::CallBody(name)), MErr::Return(v)) == goto(
            pop_env(s),
            MControl::Value(v),
        ),
{
    assert(push(s, MCont::CallBody(name)).conts.drop_last() =~= s.conts);
}

/// The module whose source a pending request reads, if any.
pub open spec fn reading_module(c: MControl) -> Option<Seq<char>> {
    match c {
        MControl::Await(MPending::Source(_, k, _)) => Some(k),
        MControl::Await(MPending::Fractions(_, k, _, _)) => Some(k),
        MControl::Request(MPending::Source(_, k, _)) => Some(k),
        MControl::Request(MPending::Fractions(_, k, _, _)) => Some(k),
        _ => None,
    }
}

/// No module is recorded twice, and a module whose source is being read is
/// not recorded yet.
pub open spec fn modules_unique(s: MState) -> bool {
    &&& s.modules.no_duplicates()
    &&& (reading_module(s.control) matches Some(k) ==> !s.modules.contains(k))
}

proof fn lemma_step_frame(s: MState)
    requires
        !(s.control is Await),
        reading_module(s.control) is None,
    ensures
        m_step(s).0.modules == s.modules,
        reading_module(m_step(s).0.control) is None,
{
}

proof fn lemma_answer_records(s: MState, p: MPending, ev: MEvent)
    requires
        s.control == MControl::Await(p),
    ensures
        ({
            let s2 = m_answer(s, p, ev).0;
            ||| s2.modules == s.modules && (reading_module(s2.control) matches Some(k) ==> (
                p matches MPending::Path(_, _) && !s.modules.contains(k)) || reading_module(s.control)
                == Some(k))
            ||| reading_module(s.control) matches Some(k) && s2.modules == s.modules.push(k)
                && s2.control == MControl::Value(VVal::Nil)
        }),
{
}

/// A module is recorded only when its source was read and parsed, and
/// never twice: every transition keeps the list of loaded modules free of
/// repetitions, and an answer either leaves the list as it was or adds the
/// one module whose source was being read. A `link` or `load_module` that
/// fails to resolve, read or parse its module leaves the list unchanged.
pub proof fn lemma_modules_recorded_once(s: MState, ev: MEvent)
    requires
        modules_unique(s),
    ensures
        modules_unique(m_resume(s, ev).0),
        m_resume(s, ev).0.modules == s.modules || (reading_module(s.control) matches Some(k)
            && !s.modules.contains(k) && m_resume(s, ev).0.modules == s.modules.push(k)
            && m_resume(s, ev).0.control == MControl::Value(VVal::Nil)),
{
    match s.control {
        MControl::Idle => {},
        MControl::Await(p) => {
            lemma_answer_records(s, p, ev);
            let s2 = m_resume(s, ev).0;
            if s2.modules != s.modules {
                let k = reading_module(s.control)->0;
                assert forall|i: int, j: int|
                    0 <= i < s2.modules.len() && 0 <= j < s2.modules.len() && i != j implies
                    s2.modules[i] != s2.modules[j] by {
                    if i == s.modules.len() as int {
                        assert(s.modules[j] == s2.modules[j]);
                    } else if j == s.modules.len() as int {
                        assert(s.modules[i] == s2.modules[i]);
                    }
                }
            }
        },
        _ => {
            if reading_module(s.control) is None {
                lemma_step_frame(s);
            }
        },
    }
}

/// A new machine records no module, and starting a run or a load, or
/// forgetting the loaded modules, keeps every module recorded once.
pub proof fn lemma_modules_unique_kept(s: MState, items: Seq<SItem>, path: Seq<char>)
    ensures
        modules_unique(m_initial()),
        modules_unique(s) ==> modules_unique(m_start_run(s, items)),
        modules_unique(s) ==> modules_unique(m_start_load(s, path)),
        modules_unique(MState { modules: Seq::empty(), ..s }),
{
}

/// What running an item starts with.
pub open spec fn item_control(it: SItem) -> MControl {
    match it {
        SItem::Decl(d) => MControl::Declare(d),
        SItem::Stmt(st) => MControl::Exec(st),
    }
}

/// A program's items run in order: when item `i` is done, item `i + 1`
/// starts; after the last one the items are done.
pub proof fn lemma_items_in_order(s: MState, its: Seq<SItem>, i: nat, v: VVal)
    ensures
        deliver(push(s, MCont::Items(its, i)), v) == if i < its.len() {
            goto(push(s, MCont::Items(its, i + 1)), item_control(its[i as int]))
        } else {
            goto(s, MControl::Value(VVal::Nil))
        },
{
    assert(push(s, MCont::Items(its, i)).conts.drop_last() =~= s.conts);
}

/// An error in an item skips the items after it: the error passes on
/// unchanged to what encloses the items.
pub proof fn lemma_error_skips_items(s: MState, its: Seq<SItem>, i: nat, e: MErr)
    ensures
        unwind(push(s, MCont::Items(its, i)), e) == goto(s, MControl::Raise(e)),
{
    assert(push(s, MCont::Items(its, i)).conts.drop_last() =~= s.conts);
}

/// An error that leaves a run's scope ends the run with that error.
pub proof fn lemma_run_error_is_result(s: MState, e: MErr)
    requires
        s.conts == seq![MCont::Scope],
    ensures
        unwind(s, e).0.conts.len() == 0,
        unwind(s, e).0.control == MControl::Raise(e),
        unwind(unwind(s, e).0, e).1 == MAction::Finished(Some(e)),
{
    assert(s.conts.drop_last() =~= Seq::<MCont>::empty());
}

proof fn lemma_first_match_at<T>(s: Seq<T>, f: spec_fn(T) -> bool, i: int)
    requires
        0 <= i < s.len(),
        f(s[i]),
        forall|k: int| 0 <= k < i ==> !f(#[trigger] s[k]),
    ensures
        first_match(s, f) == Some(i),
{
    lemma_first_match(s, f);
    match first_match(s, f) {
        Some(j) => {
            if j < i {
                assert(!f(s[j]));
            } else if j > i {
                assert(!f(s[i]));
            }
        },
        None => {
            assert(!f(s[i]));
        },
    }
}

proof fn lemma_push_fresh<T>(s: Seq<T>, x: T)
    requires
        s.no_duplicates(),
        !s.contains(x),
    ensures
        s.push(x).no_duplicates(),
{
    assert forall|i: int, j: int|
        0 <= i < s.push(x).len() && 0 <= j < s.push(x).len() && i != j implies s.push(x)[i]
        != s.push(x)[j] by {
        if i == s.len() as int {
            assert(s[j] == s.push(x)[j]);
        } else if j == s.len() as int {
            assert(s[i] == s.push(x)[i]);
        }
    }
}

/// The names of the declared procedures.
pub open spec fn proc_names(ps: Seq<MProc>) -> Seq<Seq<char>> {
    ps.map_values(|p: MProc| p.name)
}

/// The names of the declared forms.
pub open spec fn form_names(fs: Seq<MForm>) -> Seq<Seq<char>> {
    fs.map_values(|f: MForm| f.name)
}

/// The names of the loaded native modules.
pub open spec fn native_names(ms: Seq<MNativeModule>) -> Seq<Seq<char>> {
    ms.map_values(|m: MNativeModule| m.name)
}

/// No two procedures, no two forms and no two native modules share a name.
pub open spec fn names_unique(s: MState) -> bool {
    &&& proc_names(s.procs).no_duplicates()
    &&& form_names(s.forms).no_duplicates()
    &&& native_names(s.natives).no_duplicates()
}

/// Declaring a procedure whose name is taken replaces the earlier one;
/// otherwise it is added. Either way each name stays once, and the name
/// finds the new declaration.
pub broadcast proof fn lemma_insert_proc(ps: Seq<MProc>, p: MProc)
    requires
        proc_names(ps).no_duplicates(),
    ensures
        #[trigger] proc_names(insert_proc(ps, p)).no_duplicates(),
        find_proc(insert_proc(ps, p), p.name) matches Some(i) && insert_proc(ps, p)[i] == p,
{
    lemma_first_match(ps, proc_named(p.name));
    let r = insert_proc(ps, p);
    lemma_first_match(r, proc_named(p.name));
    match find_proc(ps, p.name) {
        Some(i) => {
            assert(proc_names(r) =~= proc_names(ps));
            assert(forall|k: int| 0 <= k < i ==> #[trigger] r[k] == ps[k]);
            lemma_first_match_at(r, proc_named(p.name), i);
        },
        None => {
            assert(!proc_names(ps).contains(p.name)) by {
                if proc_names(ps).contains(p.name) {
                    let k = choose|k: int| 0 <= k < proc_names(ps).len() && proc_names(ps)[k] == p.name;
                    assert(proc_named(p.name)(ps[k]));
                }
            }
            assert(proc_names(r) =~= proc_names(ps).push(p.name));
            lemma_push_fresh(proc_names(ps), p.name);
            assert(forall|k: int| 0 <= k < ps.len() ==> #[trigger] r[k] == ps[k]);
            lemma_first_match_at(r, proc_named(p.name), ps.len() as int);
        },
    }
}

/// As [`lemma_insert_proc`], for forms.
pub broadcast proof fn lemma_insert_form(fs: Seq<MForm>, f: MForm)
    requires
        form_names(fs).no_duplicates(),
    ensures
        #[trigger] form_names(insert_form(fs, f)).no_duplicates(),
        find_form(insert_form(fs, f), f.name) matches Some(i) && insert_form(fs, f)[i] == f,
{
    lemma_first_match(fs, form_named(f.name));
    let r = insert_form(fs, f);
    lemma_first_match(r, form_named(f.name));
    match find_form(fs, f.name) {
        Some(i) => {
            assert(form_names(r) =~= form_names(fs));
            assert(forall|k: int| 0 <= k < i ==> #[trigger] r[k] == fs[k]);
            lemma_first_match_at(r, form_named(f.name), i);
        },
        None => {
            assert(!form_names(fs).contains(f.name)) by {
                if form_names(fs).contains(f.name) {
                    let k = choose|k: int| 0 <= k < form_names(fs).len() && form_names(fs)[k] == f.name;
                    assert(form_named(f.name)(fs[k]));
                }
            }
            assert(form_names(r) =~= form_names(fs).push(f.name));
            lemma_push_fresh(form_names(fs), f.name);
            assert(forall|k: int| 0 <= k < fs.len() ==> #[trigger] r[k] == fs[k]);
            lemma_first_match_at(r, form_named(f.name), fs.len() as int);
        },
    }
}

/// As [`lemma_insert_proc`], for native modules.
pub broadcast proof fn lemma_insert_module(ms: Seq<MNativeModule>, m: MNativeModule)
    requires
        native_names(ms).no_duplicates(),
    ensures
        #[trigger] native_names(insert_module(ms, m)).no_duplicates(),
        find_module(insert_module(ms, m), m.name) matches Some(i) && insert_module(ms, m)[i] == m,
{
    lemma_first_match(ms, module_named(m.name));
    let r = insert_module(ms, m);
    lemma_first_match(r, module_named(m.name));
    match find_module(ms, m.name) {
        Some(i) => {
            assert(native_names(r) =~= native_names(ms));
            assert(forall|k: int| 0 <= k < i ==> #[trigger] r[k] == ms[k]);
            lemma_first_match_at(r, module_named(m.name), i);
        },
        None => {
            assert(!native_names(ms).contains(m.name)) by {
                if native_names(ms).contains(m.name) {
                    let k = choose|k: int|
                        0 <= k < native_names(ms).len() && native_names(ms)[k] == m.name;
                    assert(module_named(m.name)(ms[k]));
                }
            }
            assert(native_names(r) =~= native_names(ms).push(m.name));
            lemma_push_fresh(native_names(ms), m.name);
            assert(forall|k: int| 0 <= k < ms.len() ==> #[trigger] r[k] == ms[k]);
            lemma_first_match_at(r, module_named(m.name), ms.len() as int);
        },
    }
}

proof fn lemma_names_step(s: MState)
    requires
        names_unique(s),
        !(s.control is Await),
    ensures
        names_unique(m_step(s).0),
{
    broadcast use lemma_insert_proc, lemma_insert_form, lemma_insert_module;
}

proof fn lemma_names_answer(s: MState, p: MPending, ev: MEvent)
    requires
        names_unique(s),
    ensures
        names_unique(m_answer(s, p, ev).0),
{
    broadcast use lemma_insert_module;
}

/// Procedure, form and native-module names each occur once, in every state
/// a machine reaches: a new machine has none, starting a run or a load or
/// forgetting the modules changes none, and every transition keeps them
/// apart.
pub proof fn lemma_names_unique(s: MState, ev: MEvent, items: Seq<SItem>, path: Seq<char>)
    ensures
        names_unique(m_initial()),
        names_unique(s) ==> names_unique(m_resume(s, ev).0),
        names_unique(s) ==> names_unique(m_start_run(s, items)),
        names_unique(s) ==> names_unique(m_start_load(s, path)),
        names_unique(s) ==> names_unique(MState { modules: Seq::empty(), ..s }),
{
    assert(proc_names(Seq::<MProc>::empty()) =~= Seq::<Seq<char>>::empty());
    assert(form_names(Seq::<MForm>::empty()) =~= Seq::<Seq<char>>::empty());
    assert(native_names(Seq::<MNativeModule>::empty()) =~= Seq::<Seq<char>>::empty());
    if names_unique(s) {
        match s.control {
            MControl::Idle => {},
            MControl::Await(p) => lemma_names_answer(s, p, ev),
            _ => lemma_names_step(s),
        }
    }
}

/// The first `base.len()` continuations are `base`.
pub open spec fn has_base(conts: Seq<MCont>, base: Seq<MCont>) -> bool {
    &&& base.len() <= conts.len()
    &&& forall|i: int| 0 <= i < base.len() ==> #[trigger] conts[i] == base[i]
}

/// A transition from `s` to `r` works on the top of the continuation stack
/// only: delivering a value or an error consumes at most the top
/// continuation, anything else consumes none, and new ones go on top. The
/// one exception is a halt, which ends everything.
pub open spec fn stack_kept(s: MState, r: MState) -> bool {
    ||| r.conts.len() == 0 && r.control is Idle
    ||| has_base(
        r.conts,
        if s.control is Value || s.control is Raise {
            s.conts.drop_last()
        } else {
            s.conts
        },
    )
}

proof fn lemma_step_stack(s: MState)
    requires
        !(s.control is Await),
    ensures
        stack_kept(s, m_step(s).0),
{
}

proof fn lemma_answer_stack(s: MState, p: MPending, ev: MEvent)
    requires
        s.control == MControl::Await(p),
    ensures
        stack_kept(s, m_answer(s, p, ev).0),
{
}

/// Every transition works on the top of the continuation stack only.
pub proof fn lemma_resume_keeps_stack(s: MState, ev: MEvent)
    ensures
        stack_kept(s, m_resume(s, ev).0),
{
    match s.control {
        MControl::Idle => {},
        MControl::Await(p) => lemma_answer_stack(s, p, ev),
        _ => lemma_step_stack(s),
    }
}

/// The state after the answers or steps `evs`, one `resume` each.
pub open spec fn m_run(s: MState, evs: Seq<MEvent>) -> MState
    decreases evs.len(),
{
    if evs.len() == 0 {
        s
    } else {
        m_resume(m_run(s, evs.drop_last()), evs.last()).0
    }
}

/// A run of `items` that has the items still ahead: under its scope, the
/// items from index `k` on remain.
pub open spec fn items_ahead(t: MState, items: Seq<SItem>) -> Option<nat> {
    if t.conts.len() >= 2 && t.conts[0] == MCont::Scope && t.conts[1] is Items
        && t.conts[1]->Items_0 == items && t.conts[1]->Items_1 <= items.len() {
        Some(t.conts[1]->Items_1)
    } else {
        None
    }
}

/// The states of a run of `items`: the items are under way, or they are
/// over (done or left by an error) and only the run's scope, then nothing,
/// remains.
pub open spec fn run_shape(t: MState, items: Seq<SItem>) -> bool {
    ||| items_ahead(t, items) is Some
    ||| t.conts == seq![MCont::Scope] && (t.control is Value || t.control is Raise)
    ||| t.conts.len() == 0 && (t.control is Value || t.control is Raise || t.control is Idle)
}

/// One transition of a run: it keeps the run's shape; the items that remain
/// shrink by at most one, and only when the next item starts; once the
/// items are over they never resume.
pub proof fn lemma_run_step(t: MState, items: Seq<SItem>, ev: MEvent)
    requires
        run_shape(t, items),
    ensures
        run_shape(m_resume(t, ev).0, items),
        items_ahead(t, items) is None ==> items_ahead(m_resume(t, ev).0, items) is None,
        items_ahead(t, items) matches Some(k) ==> match items_ahead(m_resume(t, ev).0, items) {
            Some(k2) => k2 == k || (k2 == k + 1 && m_resume(t, ev).0.control == item_control(
                items[k as int],
            )),
            None => true,
        },
{
    lemma_resume_keeps_stack(t, ev);
    let r = m_resume(t, ev).0;
    if items_ahead(t, items) is Some {
        let k = items_ahead(t, items)->0;
        if t.conts.len() == 2 && (t.control is Value || t.control is Raise) {
            let base = t.conts.drop_last();
            let s0 = MState { conts: base, ..t };
            assert(t.conts =~= base.push(MCont::Items(items, k)));
            assert(t == push(s0, MCont::Items(items, k)));
            assert(base =~= seq![MCont::Scope]);
            match t.control {
                MControl::Value(v) => {
                    lemma_items_in_order(s0, items, k, v);
                },
                MControl::Raise(e) => {
                    lemma_error_skips_items(s0, items, k, e);
                    assert(base =~= seq![MCont::Scope]);
                },
                _ => {},
            }
        } else {
            assert(r.conts.len() == 0 || (r.conts[0] == t.conts[0] && r.conts[1] == t.conts[1]));
        }
    }
}

/// A run's items go in order, each started once: in every state that a
/// run reaches, the run is in [`run_shape`] (see [`lemma_run_step`] for
/// how each transition moves it). Once an error leaves the items, no later
/// item runs, and [`lemma_run_error_is_result`] gives the error as the
/// run's result.
pub proof fn lemma_run_in_order(s: MState, items: Seq<SItem>, evs: Seq<MEvent>)
    ensures
        run_shape(m_run(m_start_run(s, items), evs), items),
    decreases evs.len(),
{
    if evs.len() == 0 {
        assert(items_ahead(m_start_run(s, items), items) == Some(0nat));
    } else {
        lemma_run_in_order(s, items, evs.drop_last());
        lemma_run_step(m_run(m_start_run(s, items), evs.drop_last()), items, evs.last());
    }
}

/// The module list and the name tables keep their invariants along any
/// sequence of transitions, and a recorded module stays recorded (only
/// `clear_modules` forgets modules).
pub proof fn lemma_run_keeps_tables(s: MState, evs: Seq<MEvent>)
    requires
        modules_unique(s),
        names_unique(s),
    ensures
        modules_unique(m_run(s, evs)),
        names_unique(m_run(s, evs)),
        forall|k: Seq<char>| s.modules.contains(k) ==> #[trigger] m_run(s, evs).modules.contains(k),
    decreases evs.len(),
{
    if evs.len() > 0 {
        let t = m_run(s, evs.drop_last());
        lemma_run_keeps_tables(s, evs.drop_last());
        lemma_modules_recorded_once(t, evs.last());
        lemma_names_unique(t, evs.last(), Seq::empty(), Seq::empty());
        let r = m_run(s, evs);
        assert forall|k: Seq<char>| s.modules.contains(k) implies #[trigger] r.modules.contains(k) by {
            assert(t.modules.contains(k));
            let i = choose|i: int| 0 <= i < t.modules.len() && t.modules[i] == k;
            if r.modules != t.modules {
                assert(r.modules[i] == k);
            }
        }
    }
}

/// Loading a module that is already recorded does nothing, however many
/// transitions came between: once its path resolves to the recorded
/// module, the `link` or `load_module` is over.
pub proof fn lemma_loaded_module_skipped_later(
    s: MState,
    evs: Seq<MEvent>,
    path: Seq<char>,
    repl: bool,
    canon: Seq<char>,
)
    requires
        modules_unique(s),
        names_unique(s),
        s.modules.contains(canon),
        m_run(s, evs).control == MControl::Await(MPending::Path(path, repl)),
    ensures
        m_resume(m_run(s, evs), MEvent::Path(Ok(canon))) == (
            set_control(m_run(s, evs), MControl::Value(VVal::Nil)),
            MAction::Continue,
        ),
{
    lemma_run_keeps_tables(s, evs);
}

/// A module that is not recorded, such as one forgotten by
/// `clear_modules`, is read again when its path resolves.
pub proof fn lemma_unrecorded_module_read(s: MState, path: Seq<char>, repl: bool, canon: Seq<char>)
    requires
        s.control == MControl::Await(MPending::Path(path, repl)),
        !s.modules.contains(canon),
    ensures
        m_resume(s, MEvent::Path(Ok(canon))) == (
            set_control(s, MControl::Await(MPending::Source(path, canon, repl))),
            MAction::ReadSource(canon),
        ),
{
}

/// `or` is true exactly when either operand is truthy: a truthy left
/// operand makes it true whatever the right one is, otherwise the right
/// operand's truthiness decides. `and` is false when the left operand is
/// not truthy, otherwise the right operand's truthiness decides.
pub proof fn lemma_logical_operators(s: MState, l: VVal, r: VVal)
    ensures
        truthy(l) ==> binary_step(s, BinOp::Or, l, r) == goto(s, MControl::Value(VVal::Bool(true))),
        !truthy(l) ==> binary_step(s, BinOp::Or, l, r) == goto(
            s,
            MControl::Value(VVal::Bool(truthy(r))),
        ),
        !truthy(l) ==> binary_step(s, BinOp::And, l, r) == goto(
            s,
            MControl::Value(VVal::Bool(false)),
        ),
        truthy(l) ==> binary_step(s, BinOp::And, l, r) == goto(
            s,
            MControl::Value(VVal::Bool(truthy(r))),
        ),
{
}

/// Which values count as true: `true`, a non-zero whole, a non-empty
/// string or list, and every object; `false` and `none` do not.
pub proof fn lemma_truthiness(b: bool, n: i64, t: Seq<char>, xs: Seq<VVal>, form: Seq<char>, fs: Seq<VField>)
    ensures
        truthy(VVal::Bool(b)) == b,
        !truthy(VVal::Nil),
        truthy(VVal::Whole(n)) == (n != 0),
        truthy(VVal::Str(t)) == (t.len() > 0),
        truthy(VVal::List(xs)) == (xs.len() > 0),
        truthy(VVal::Object(form, fs)),
{
}

/// On two wholes, the comparison and equality operators give the integer
/// order and equality of the two numbers.
pub proof fn lemma_whole_comparisons(s: MState, x: i64, y: i64)
    ensures
        binary_step(s, BinOp::Lt, VVal::Whole(x), VVal::Whole(y)) == goto(s, MControl::Value(VVal::Bool(x < y))),
        binary_step(s, BinOp::Le, VVal::Whole(x), VVal::Whole(y)) == goto(s, MControl::Value(VVal::Bool(x <= y))),
        binary_step(s, BinOp::Gt, VVal::Whole(x), VVal::Whole(y)) == goto(s, MControl::Value(VVal::Bool(x > y))),
        binary_step(s, BinOp::Ge, VVal::Whole(x), VVal::Whole(y)) == goto(s, MControl::Value(VVal::Bool(x >= y))),
        binary_step(s, BinOp::Eq, VVal::Whole(x), VVal::Whole(y)) == goto(s, MControl::Value(VVal::Bool(x == y))),
        binary_step(s, BinOp::Ne, VVal::Whole(x), VVal::Whole(y)) == goto(s, MControl::Value(VVal::Bool(x != y))),
{
    crate::value::lemma_whole_order(x, y);
}

/// `not` negates truthiness.
pub proof fn lemma_not_negates(s: MState, v: VVal)
    requires
        s.conts.len() > 0,
        s.conts.last() == MCont::Not,
    ensures
        deliver(s, v) == goto(
            MState { conts: s.conts.drop_last(), ..s },
            MControl::Value(VVal::Bool(!truthy(v))),
        ),
{
}

/// `check`: a truthy condition runs the first block; otherwise the `else`
/// block runs, if there is one, and else nothing.
pub proof fn lemma_check_chooses_branch(s: MState, tb: Seq<SStmt>, eb: Option<Seq<SStmt>>, v: VVal)
    ensures
        truthy(v) ==> deliver(push(s, MCont::Branch(tb, eb)), v) == goto(
            push(s, MCont::Stmts(tb, 0)),
            MControl::Value(VVal::Nil),
        ),
        !truthy(v) && eb is Some ==> deliver(push(s, MCont::Branch(tb, eb)), v) == goto(
            push(s, MCont::Stmts(eb->Some_0, 0)),
            MControl::Value(VVal::Nil),
        ),
        !truthy(v) && eb is None ==> deliver(push(s, MCont::Branch(tb, eb)), v) == goto(
            s,
            MControl::Value(VVal::Nil),
        ),
{
    assert(push(s, MCont::Branch(tb, eb)).conts.drop_last() =~= s.conts);
}

/// `loop`: while the condition is truthy the body runs and the condition
/// is tested again after it; once it is not, the loop is over.
pub proof fn lemma_loop_repeats(s: MState, c: SExpr, b: Seq<SStmt>, v: VVal)
    ensures
        truthy(v) ==> deliver(push(s, MCont::LoopTest(c, b)), v) == goto(
            push(push(s, MCont::LoopAgain(c, b)), MCont::Stmts(b, 0)),
            MControl::Value(VVal::Nil),
        ),
        !truthy(v) ==> deliver(push(s, MCont::LoopTest(c, b)), v) == goto(
            s,
            MControl::Value(VVal::Nil),
        ),
        deliver(push(s, MCont::LoopAgain(c, b)), v) == goto(
            push(s, MCont::LoopTest(c, b)),
            MControl::Eval(c),
        ),
{
    assert(push(s, MCont::LoopTest(c, b)).conts.drop_last() =~= s.conts);
    assert(push(s, MCont::LoopAgain(c, b)).conts.drop_last() =~= s.conts);
}

/// Indexing a list with a whole from 0 gives that element; at or beyond
/// the end it is an index error, and only a whole can index a list. (The
/// index is taken `as usize`, as Rust does, so the statement is for indexes
/// that a `usize` holds.)
pub proof fn lemma_list_index(items: Seq<VVal>, i: i64, idx: VVal)
    ensures
        0 <= i < items.len() && i <= usize::MAX ==> item_at(VVal::List(items), VVal::Whole(i)) == Ok::<
            VVal,
            MErr,
        >(items[i as int]),
        0 <= i <= usize::MAX && i >= items.len() ==> item_at(VVal::List(items), VVal::Whole(i)) == Err::<VVal, MErr>(
            MErr::IndexOutOfBounds,
        ),
        !(idx is Whole) ==> item_at(VVal::List(items), idx) is Err,
{
}

/// Reading a field gives the value of the object's field of that name; an
/// object without such a field, or a value that is no object, is an error.
pub proof fn lemma_field_read(form: Seq<char>, fs: Seq<VField>, f: Seq<char>, j: int, v: VVal)
    ensures
        0 <= j < fs.len() && fs[j].name == f && (forall|k: int| 0 <= k < j ==> fs[k].name != f)
            ==> field_of(VVal::Object(form, fs), f) == Ok::<VVal, MErr>(fs[j].value),
        (forall|k: int| 0 <= k < fs.len() ==> fs[k].name != f) ==> field_of(VVal::Object(form, fs), f)
            == Err::<VVal, MErr>(MErr::UndefinedField(f)),
        !(v is Object) ==> field_of(v, f) is Err,
{
    crate::value::lemma_find_field_bounds(fs, f);
    if 0 <= j < fs.len() && fs[j].name == f && (forall|k: int| 0 <= k < j ==> fs[k].name != f) {
        let r = find_field(fs, f);
        if r is Some {
            let i = r->Some_0;
            if i < j {
                assert(fs[i].name != f);
            } else if i > j {
                assert(fs[j].name != f);
            }
        }
    }
}

/// `log` prints the value as text: a whole in decimal (with `-` when
/// negative), a string as it is, `true`, `false` and `none` by name.
pub proof fn lemma_log_prints(s: MState, n: i64, t: Seq<char>, b: bool)
    ensures
        deliver(push(s, MCont::Log), VVal::Whole(n)).1 == MAction::Print(text_chunk(crate::text::int_text(n as int))),
        deliver(push(s, MCont::Log), VVal::Str(t)).1 == MAction::Print(text_chunk(t)),
        deliver(push(s, MCont::Log), VVal::Bool(b)).1 == MAction::Print(
            text_chunk(if b { "true"@ } else { "false"@ }),
        ),
        deliver(push(s, MCont::Log), VVal::Nil).1 == MAction::Print(text_chunk("none"@)),
{
    assert(push(s, MCont::Log).conts.drop_last() =~= s.conts);
}

proof fn lemma_bind_params_all(params: Seq<Seq<char>>, args: Seq<VVal>)
    requires
        params.len() == args.len(),
        params.no_duplicates(),
    ensures
        bind_params(Seq::empty(), params, args) is Ok,
        bind_params(Seq::empty(), params, args)->Ok_0.len() == params.len(),
        forall|k: int|
            0 <= k < params.len() ==> #[trigger] bind_params(Seq::empty(), params, args)->Ok_0[k]
                == (MVar { name: params[k], value: args[k], mutable: false }),
    decreases params.len(),
{
    if params.len() > 0 {
        let ps = params.drop_last();
        let vs = args.drop_last();
        assert(ps.no_duplicates()) by {
            assert forall|i: int, j: int| 0 <= i < ps.len() && 0 <= j < ps.len() && i != j implies ps[i] != ps[j] by {
                assert(ps[i] == params[i] && ps[j] == params[j]);
            }
        }
        lemma_bind_params_all(ps, vs);
        let e = bind_params(Seq::empty(), ps, vs)->Ok_0;
        lemma_first_match(e, var_named(params.last()));
        assert(find_var(e, params.last()) is None) by {
            if find_var(e, params.last()) is Some {
                let i = find_var(e, params.last())->Some_0;
                assert(e[i].name == ps[i]);
                assert(params[i] == params[params.len() - 1]);
            }
        }
    }
}

/// Calling a procedure binds each parameter, as a constant, to the argument
/// in the same place: in the procedure's fresh scope each parameter name
/// reads the corresponding argument.
pub proof fn lemma_parameters_bound(params: Seq<Seq<char>>, args: Seq<VVal>, k: int)
    requires
        params.len() == args.len(),
        params.no_duplicates(),
        0 <= k < params.len(),
    ensures
        bind_params(Seq::empty(), params, args) is Ok,
        env_get(bind_params(Seq::empty(), params, args)->Ok_0, params[k]) == Some(args[k]),
        find_var(bind_params(Seq::empty(), params, args)->Ok_0, params[k]) matches Some(i)
            && !bind_params(Seq::empty(), params, args)->Ok_0[i].mutable,
{
    lemma_bind_params_all(params, args);
    let e = bind_params(Seq::empty(), params, args)->Ok_0;
    assert(e[k].name == params[k]);
    assert forall|i: int| 0 <= i < k implies !var_named(params[k])(#[trigger] e[i]) by {
        assert(e[i].name == params[i]);
    }
    lemma_first_match_at(e, var_named(params[k]), k);
}

/// A variable reads back what was last written to it, whether it lives in
/// the current scope or among the globals, and writing it leaves every
/// other variable's value as it was.
pub proof fn lemma_variable_write_read(s: MState, name: Seq<char>, v: VVal, mutable: bool, other: Seq<char>)
    requires
        var_set(s, name, v, mutable) is Ok,
    ensures
        var_get(var_set(s, name, v, mutable)->Ok_0, name) == Some(v),
        other != name ==> var_get(var_set(s, name, v, mutable)->Ok_0, other) == var_get(s, other),
{
    let s2 = var_set(s, name, v, mutable)->Ok_0;
    if find_var(top_env(s), name) is None && find_var(s.globals, name) is Some {
        lemma_set_then_get(s.globals, name, v, mutable);
        assert(top_env(s2) == top_env(s));
        lemma_first_match(top_env(s), var_named(name));
        if other != name {
            lemma_set_keeps_others(s.globals, name, v, mutable, other);
        }
    } else {
        lemma_set_then_get(top_env(s), name, v, mutable);
        assert(top_env(s2) == env_set(top_env(s), name, v, mutable)->Ok_0);
        if other != name {
            lemma_set_keeps_others(top_env(s), name, v, mutable, other);
        }
    }
}

} // verus!
