//! Function signatures and the check of how many arguments a call passes.

use vstd::prelude::*;
use crate::errors::{JsonFormulaError, JsonFormulaErrorKind};
use crate::text::{concat_str, decimal_string, decimal_text};
use crate::types::DataType;

verus! {

/// One parameter of a function signature: the types it accepts, whether it may be left
/// out, and whether it takes all the remaining arguments.
#[derive(Clone)]
pub struct SignatureArg {
    pub types: Vec<DataType>,
    pub optional: bool,
    pub variadic: bool,
}

/// The number of parameters of `sig` that may not be left out.
pub open spec fn required_count(sig: Seq<SignatureArg>) -> nat
    decreases sig.len(),
{
    if sig.len() == 0 {
        0
    } else {
        required_count(sig.drop_last()) + if sig.last().optional { 0nat } else { 1nat }
    }
}

/// " argument" or " arguments", after the number of parameters `n`.
pub open spec fn arguments_word(n: nat) -> Seq<char> {
    if n == 1 { " argument"@ } else { " arguments"@ }
}

/// The outcome of calling the function `name` of signature `sig` with `argc` arguments:
/// `None` when the count is accepted, else the message of the function error.
pub open spec fn arity_error(name: Seq<char>, argc: nat, sig: Seq<SignatureArg>) -> Option<Seq<char>> {
    if sig.len() == 0 {
        if argc > 0 { Some(name + "() does not accept parameters"@) } else { None }
    } else if sig.last().variadic {
        if argc < sig.len() && !sig.last().optional {
            Some(name + "() takes at least "@ + decimal_text(sig.len()) + arguments_word(sig.len())
                + " but received "@ + decimal_text(argc))
        } else {
            None
        }
    } else if argc < required_count(sig) || argc > sig.len() {
        Some(name + "() takes "@ + decimal_text(sig.len()) + arguments_word(sig.len()) + " but received "@
            + decimal_text(argc))
    } else {
        None
    }
}

fn count_required(signature: &[SignatureArg]) -> (r: usize)
    ensures
        r == required_count(signature@),
{
    let n = signature.len();
    let mut count: usize = 0;
    let mut i: usize = 0;
    while i < n
        invariant
            n == signature@.len(),
            i <= n,
            count == required_count(signature@.subrange(0, i as int)),
            count <= i,
        decreases n - i,
    {
        assert(signature@.subrange(0, i + 1).drop_last() =~= signature@.subrange(0, i as int));
        if !signature[i].optional {
            count = count + 1;
        }
        i = i + 1;
    }
    assert(signature@.subrange(0, n as int) =~= signature@);
    count
}

/// Checks that a call of the function `name` passes an accepted number of arguments,
/// `arg_count`, for its signature: a function error with the message of `arity_error`
/// when it does not.
pub fn validate_arity(name: &str, arg_count: usize, signature: &[SignatureArg]) -> (r: Result<(), JsonFormulaError>)
    ensures
        match arity_error(name@, arg_count as nat, signature@) {
            None => r is Ok,
            Some(m) => r matches Err(e) && e.kind == JsonFormulaErrorKind::FunctionError && e.message@ == m,
        },
{
    let n = signature.len();
    if n == 0 {
        if arg_count > 0 {
            return Err(JsonFormulaError::function(concat_str(name, "() does not accept parameters")));
        }
        return Ok(());
    }
    let last = &signature[n - 1];
    let word = if n == 1 { " argument" } else { " arguments" };
    if last.variadic {
        if arg_count < n && !last.optional {
            let a = concat_str(name, "() takes at least ");
            let b = concat_str(a.as_str(), decimal_string(n as u64).as_str());
            let c = concat_str(b.as_str(), word);
            let d = concat_str(c.as_str(), " but received ");
            let e = concat_str(d.as_str(), decimal_string(arg_count as u64).as_str());
            return Err(JsonFormulaError::function(e));
        }
        return Ok(());
    }
    let needed = count_required(signature);
    if arg_count < needed || arg_count > n {
        let a = concat_str(name, "() takes ");
        let b = concat_str(a.as_str(), decimal_string(n as u64).as_str());
        let c = concat_str(b.as_str(), word);
        let d = concat_str(c.as_str(), " but received ");
        let e = concat_str(d.as_str(), decimal_string(arg_count as u64).as_str());
        return Err(JsonFormulaError::function(e));
    }
    Ok(())
}

} // verus!
