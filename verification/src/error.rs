//! Errors raised while running a program.

use vstd::prelude::*;
pub use crate::parser::ParseError;
use vstd::string::*;
use crate::value::{Value, VVal};
use crate::text::concat;

verus! {

/// What can go wrong while a program runs. `Break` and `Return` also carry
/// `stop` and `give` out of loops and procedures.
pub enum RuntimeError {
    UndefinedVariable(String),
    TypeError(String),
    DivisionByZero,
    UndefinedFunction(String),
    UndefinedField(String),
    IndexOutOfBounds,
    NotIndexable,
    Break,
    Return(Value),
}

/// The mathematical content of a [`RuntimeError`].
pub enum MErr {
    UndefinedVariable(Seq<char>),
    TypeError(Seq<char>),
    DivisionByZero,
    UndefinedFunction(Seq<char>),
    UndefinedField(Seq<char>),
    IndexOutOfBounds,
    NotIndexable,
    Break,
    Return(VVal),
}

impl View for RuntimeError {
    type V = MErr;

    open spec fn view(&self) -> MErr {
        match self {
            RuntimeError::UndefinedVariable(n) => MErr::UndefinedVariable(n@),
            RuntimeError::TypeError(m) => MErr::TypeError(m@),
            RuntimeError::DivisionByZero => MErr::DivisionByZero,
            RuntimeError::UndefinedFunction(n) => MErr::UndefinedFunction(n@),
            RuntimeError::UndefinedField(n) => MErr::UndefinedField(n@),
            RuntimeError::IndexOutOfBounds => MErr::IndexOutOfBounds,
            RuntimeError::NotIndexable => MErr::NotIndexable,
            RuntimeError::Break => MErr::Break,
            RuntimeError::Return(v) => MErr::Return(v@),
        }
    }
}

/// The text shown for an error.
pub open spec fn runtime_error_text(e: MErr) -> Seq<char> {
    match e {
        MErr::UndefinedVariable(n) => "[ошибка] Переменная '"@ + n + "' не определена"@,
        MErr::TypeError(m) => "[ошибка] Несоответствие типов: "@ + m,
        MErr::DivisionByZero => "[ошибка] Деление на ноль"@,
        MErr::UndefinedFunction(n) => "[ошибка] Функция '"@ + n + "' не найдена"@,
        MErr::UndefinedField(n) => "[ошибка] Поле '"@ + n + "' не найдено"@,
        MErr::IndexOutOfBounds => "[ошибка] Индекс за пределами списка"@,
        MErr::NotIndexable => "[ошибка] Нельзя индексировать не список"@,
        MErr::Break => "[ошибка] Break вне цикла"@,
        MErr::Return(_) => "[ошибка] Return вне функции"@,
    }
}

fn wrap(prefix: &str, middle: &str, suffix: &str) -> (res: String)
    ensures
        res@ == prefix@ + middle@ + suffix@,
{
    let a = concat(prefix, middle);
    concat(a.as_str(), suffix)
}

impl RuntimeError {
    /// The error's message, as its `Display` shows it.
    pub fn message(&self) -> (res: String)
        ensures
            res@ == runtime_error_text(self@),
    {
        match self {
            RuntimeError::UndefinedVariable(n) => wrap(
                "[ошибка] Переменная '",
                n.as_str(),
                "' не определена",
            ),
            RuntimeError::TypeError(m) => concat("[ошибка] Несоответствие типов: ", m.as_str()),
            RuntimeError::DivisionByZero => "[ошибка] Деление на ноль".to_owned(),
            RuntimeError::UndefinedFunction(n) => wrap(
                "[ошибка] Функция '",
                n.as_str(),
                "' не найдена",
            ),
            RuntimeError::UndefinedField(n) => wrap("[ошибка] Поле '", n.as_str(), "' не найдено"),
            RuntimeError::IndexOutOfBounds => "[ошибка] Индекс за пределами списка".to_owned(),
            RuntimeError::NotIndexable => "[ошибка] Нельзя индексировать не список".to_owned(),
            RuntimeError::Break => "[ошибка] Break вне цикла".to_owned(),
            RuntimeError::Return(_) => "[ошибка] Return вне функции".to_owned(),
        }
    }
}

} // verus!
