use vstd::prelude::*;
use crate::text::concat_str;

verus! {

/// The four classes of error that json-formula distinguishes.
#[derive(Debug, Clone, Copy, PartialEq, Eq)]
pub enum JsonFormulaErrorKind {
    SyntaxError,
    TypeError,
    FunctionError,
    EvaluationError,
}

/// An error raised while compiling or evaluating an expression.
#[derive(Debug, Clone)]
pub struct JsonFormulaError {
    pub kind: JsonFormulaErrorKind,
    pub message: String,
}

/// The name of an error kind, as `Debug` prints it.
pub open spec fn kind_text(k: JsonFormulaErrorKind) -> Seq<char> {
    match k {
        JsonFormulaErrorKind::SyntaxError => "SyntaxError"@,
        JsonFormulaErrorKind::TypeError => "TypeError"@,
        JsonFormulaErrorKind::FunctionError => "FunctionError"@,
        JsonFormulaErrorKind::EvaluationError => "EvaluationError"@,
    }
}

impl JsonFormulaError {
    /// The error as text: its kind, a colon and its message.
    pub fn to_string(&self) -> (r: String)
        ensures
            r@ == kind_text(self.kind) + ": "@ + self.message@,
    {
        let k = match self.kind {
            JsonFormulaErrorKind::SyntaxError => "SyntaxError: ",
            JsonFormulaErrorKind::TypeError => "TypeError: ",
            JsonFormulaErrorKind::FunctionError => "FunctionError: ",
            JsonFormulaErrorKind::EvaluationError => "EvaluationError: ",
        };
        proof {
            reveal_strlit("SyntaxError: ");
            reveal_strlit("TypeError: ");
            reveal_strlit("FunctionError: ");
            reveal_strlit("EvaluationError: ");
            reveal_strlit("SyntaxError");
            reveal_strlit("TypeError");
            reveal_strlit("FunctionError");
            reveal_strlit("EvaluationError");
            reveal_strlit(": ");
        }
        let r = concat_str(k, self.message.as_str());
        assert(k@ =~= kind_text(self.kind) + ": "@);
        r
    }

    /// A syntax error carrying `message`.
    pub fn syntax(message: String) -> (e: Self)
        ensures
            e.kind == JsonFormulaErrorKind::SyntaxError,
            e.message@ == message@,
    {
        JsonFormulaError { kind: JsonFormulaErrorKind::SyntaxError, message }
    }

    /// A type error carrying `message`.
    pub fn ty(message: String) -> (e: Self)
        ensures
            e.kind == JsonFormulaErrorKind::TypeError,
            e.message@ == message@,
    {
        JsonFormulaError { kind: JsonFormulaErrorKind::TypeError, message }
    }

    /// A function error carrying `message`.
    pub fn function(message: String) -> (e: Self)
        ensures
            e.kind == JsonFormulaErrorKind::FunctionError,
            e.message@ == message@,
    {
        JsonFormulaError { kind: JsonFormulaErrorKind::FunctionError, message }
    }

    /// An evaluation error carrying `message`.
    pub fn evaluation(message: String) -> (e: Self)
        ensures
            e.kind == JsonFormulaErrorKind::EvaluationError,
            e.message@ == message@,
    {
        JsonFormulaError { kind: JsonFormulaErrorKind::EvaluationError, message }
    }
}

} // verus!
