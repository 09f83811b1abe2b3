//! The data types that function signatures name, and the conversions between them.

use vstd::prelude::*;
use crate::errors::{JsonFormulaError, JsonFormulaErrorKind};
use crate::text::concat_str;

verus! {

/// The type of a value, as function signatures and error messages name it.
#[derive(Debug, Clone, Copy, PartialEq, Eq, Structural)]
pub enum DataType {
    Number,
    Any,
    String,
    Array,
    Object,
    Boolean,
    Expref,
    Null,
    ArrayNumber,
    ArrayString,
    ArrayArray,
    EmptyArray,
}

/// The name of a type in messages.
pub open spec fn type_name_spec(dt: DataType) -> Seq<char> {
    match dt {
        DataType::Number => "number"@,
        DataType::Any => "any"@,
        DataType::String => "string"@,
        DataType::Array => "array"@,
        DataType::Object => "object"@,
        DataType::Boolean => "boolean"@,
        DataType::Expref => "expression"@,
        DataType::Null => "null"@,
        DataType::ArrayNumber => "Array<number>"@,
        DataType::ArrayString => "Array<string>"@,
        DataType::ArrayArray => "Array<array>"@,
        DataType::EmptyArray => "array"@,
    }
}

/// The array types.
pub open spec fn array_type(dt: DataType) -> bool {
    dt == DataType::Array || dt == DataType::ArrayNumber || dt == DataType::ArrayString
        || dt == DataType::ArrayArray || dt == DataType::EmptyArray
}

/// Whether a value of type `from` may be converted to the type `to` when a function
/// argument asks for it.
pub open spec fn conversion_allowed(from: DataType, to: DataType) -> bool {
    match from {
        DataType::Number => to == DataType::String || to == DataType::Array || to == DataType::ArrayNumber
            || to == DataType::Boolean,
        DataType::Boolean => to == DataType::String || to == DataType::Number || to == DataType::Array,
        DataType::Array => to == DataType::Boolean || to == DataType::ArrayString || to == DataType::ArrayNumber,
        DataType::ArrayNumber => to == DataType::Boolean || to == DataType::ArrayString || to == DataType::Array,
        DataType::ArrayString => to == DataType::Boolean || to == DataType::ArrayNumber || to == DataType::Array,
        DataType::ArrayArray => to == DataType::Boolean,
        DataType::EmptyArray => to == DataType::Boolean,
        DataType::Object => to == DataType::Boolean,
        DataType::Null => to == DataType::String || to == DataType::Number || to == DataType::Boolean,
        DataType::String => to == DataType::Number || to == DataType::ArrayString || to == DataType::Array
            || to == DataType::Boolean,
        DataType::Any => true,
        DataType::Expref => false,
    }
}

/// The name of `dt` in messages.
pub fn data_type_name(dt: DataType) -> (r: &'static str)
    ensures
        r@ == type_name_spec(dt),
{
    match dt {
        DataType::Number => "number",
        DataType::Any => "any",
        DataType::String => "string",
        DataType::Array => "array",
        DataType::Object => "object",
        DataType::Boolean => "boolean",
        DataType::Expref => "expression",
        DataType::Null => "null",
        DataType::ArrayNumber => "Array<number>",
        DataType::ArrayString => "Array<string>",
        DataType::ArrayArray => "Array<array>",
        DataType::EmptyArray => "array",
    }
}

/// Whether `dt` is one of the array types.
pub fn is_array_type(dt: DataType) -> (r: bool)
    ensures
        r == array_type(dt),
{
    matches!(
        dt,
        DataType::Array | DataType::ArrayNumber | DataType::ArrayString | DataType::ArrayArray
            | DataType::EmptyArray
    )
}

/// Whether a value of type `from` may be converted to the type `to`.
pub fn supported_conversion(from: DataType, to: DataType) -> (r: bool)
    ensures
        r == conversion_allowed(from, to),
{
    match from {
        DataType::Number => matches!(
            to,
            DataType::String | DataType::Array | DataType::ArrayNumber | DataType::Boolean
        ),
        DataType::Boolean => matches!(to, DataType::String | DataType::Number | DataType::Array),
        DataType::Array => matches!(to, DataType::Boolean | DataType::ArrayString | DataType::ArrayNumber),
        DataType::ArrayNumber => matches!(to, DataType::Boolean | DataType::ArrayString | DataType::Array),
        DataType::ArrayString => matches!(to, DataType::Boolean | DataType::ArrayNumber | DataType::Array),
        DataType::ArrayArray => matches!(to, DataType::Boolean),
        DataType::EmptyArray => matches!(to, DataType::Boolean),
        DataType::Object => matches!(to, DataType::Boolean),
        DataType::Null => matches!(to, DataType::String | DataType::Number | DataType::Boolean),
        DataType::String => matches!(
            to,
            DataType::Number | DataType::ArrayString | DataType::Array | DataType::Boolean
        ),
        DataType::Any => true,
        DataType::Expref => false,
    }
}

/// Every value converts to a type of `any`, and an expression reference to nothing.
pub proof fn law_any_and_expref(to: DataType)
    ensures
        conversion_allowed(DataType::Any, to),
        !conversion_allowed(DataType::Expref, to),
{
}

/// No type converts to itself: a conversion is asked for only when the types differ.
pub proof fn law_no_conversion_to_self(t: DataType)
    requires
        t != DataType::Any,
    ensures
        !conversion_allowed(t, t),
{
}

/// The type of an array whose items have the types `items`: an empty array, an array of
/// numbers, of strings or of arrays, or any other array.
pub open spec fn array_type_spec(items: Seq<DataType>) -> DataType {
    if items.len() == 0 {
        DataType::EmptyArray
    } else if forall|i: int| 0 <= i < items.len() ==> #[trigger] items[i] == DataType::Number {
        DataType::ArrayNumber
    } else if forall|i: int| 0 <= i < items.len() ==> #[trigger] items[i] == DataType::String {
        DataType::ArrayString
    } else if forall|i: int| 0 <= i < items.len() ==> array_type(#[trigger] items[i]) {
        DataType::ArrayArray
    } else {
        DataType::Array
    }
}

/// The type of an array whose items have the types `items`, as `array_type_spec` describes.
pub fn array_type_of(items: &[DataType]) -> (r: DataType)
    ensures
        r == array_type_spec(items@),
{
    let n = items.len();
    if n == 0 {
        return DataType::EmptyArray;
    }
    let mut all_numbers = true;
    let mut all_strings = true;
    let mut all_arrays = true;
    let mut i: usize = 0;
    while i < n
        invariant
            n == items@.len(),
            i <= n,
            all_numbers == (forall|k: int| 0 <= k < i ==> #[trigger] items@[k] == DataType::Number),
            all_strings == (forall|k: int| 0 <= k < i ==> #[trigger] items@[k] == DataType::String),
            all_arrays == (forall|k: int| 0 <= k < i ==> array_type(#[trigger] items@[k])),
        decreases n - i,
    {
        let t = items[i];
        if t != DataType::Number {
            all_numbers = false;
        }
        if t != DataType::String {
            all_strings = false;
        }
        if !is_array_type(t) {
            all_arrays = false;
        }
        i = i + 1;
    }
    if all_numbers {
        DataType::ArrayNumber
    } else if all_strings {
        DataType::ArrayString
    } else if all_arrays {
        DataType::ArrayArray
    } else {
        DataType::Array
    }
}

/// Whether a value of type `found` is accepted as it is where `expect` is asked for.
pub open spec fn type_matches(expect: DataType, found: DataType) -> bool {
    expect == found || expect == DataType::Any || (expect == DataType::Array && array_type(found))
        || (array_type(expect) && found == DataType::EmptyArray)
}

/// What to do with an argument whose type does not match as it is: convert it to the
/// type given.
#[derive(Debug, Clone, Copy, PartialEq, Eq, Structural)]
pub enum TypeMatch {
    Accept,
    Convert(DataType),
}

/// The names of the types `ts`, joined with `, `.
pub open spec fn type_list(ts: Seq<DataType>) -> Seq<char>
    decreases ts.len(),
{
    if ts.len() == 0 {
        seq![]
    } else if ts.len() == 1 {
        type_name_spec(ts[0])
    } else {
        type_list(ts.drop_last()) + ", "@ + type_name_spec(ts.last())
    }
}

/// The message for an argument of type `actual` where `expected` was asked for.
pub open spec fn wrong_type_msg(context: Seq<char>, expected: DataType, actual: DataType) -> Seq<char> {
    context + " expected argument to be type "@ + type_name_spec(expected) + " but received type "@
        + type_name_spec(actual) + " instead."@
}

/// Whether a value of type `actual` is converted, rather than refused, when `expected`
/// is the one conversion that applies.
pub open spec fn conversion_applies(actual: DataType, expected: DataType) -> bool {
    if actual == DataType::Object {
        expected == DataType::Boolean
    } else if array_type(actual) {
        expected == DataType::Boolean || expected == DataType::ArrayString || expected == DataType::ArrayNumber
            || expected == DataType::ArrayArray
    } else {
        expected == DataType::ArrayString || expected == DataType::ArrayNumber || expected == DataType::Array
            || expected == DataType::Number || expected == DataType::String || expected == DataType::Boolean
    }
}

/// How an argument of type `actual` meets a parameter that accepts the types
/// `expected_list` (in order): accepted as it is, converted to one type, or refused with
/// the message of a type error. `is_expref` tells an expression reference,
/// `items_nested` an array with an array or object among its items, and `wrapped` a
/// field around a value of type `actual` (an object or array in a field is not converted).
pub open spec fn match_type_spec(
    expected_list: Seq<DataType>,
    actual: DataType,
    is_expref: bool,
    items_nested: bool,
    wrapped: bool,
    context: Seq<char>,
) -> Result<TypeMatch, Seq<char>> {
    let filtered = expected_list.filter(|t: DataType| conversion_allowed(actual, t));
    if is_expref && !expected_list.contains(DataType::Expref) {
        Err(context + " does not accept an expression reference argument."@)
    } else if exists|i: int| 0 <= i < expected_list.len() && #[trigger] type_matches(expected_list[i], actual) {
        Ok(TypeMatch::Accept)
    } else if filtered.len() == 0 {
        Err(wrong_type_msg(context, expected_list[0], actual))
    } else if filtered.len() > 1 {
        Err(context + " cannot process type: "@ + type_name_spec(actual) + ". Must be one of: "@
            + type_list(expected_list) + "."@)
    } else {
        let expected = filtered[0];
        if array_type(actual) && (expected == DataType::ArrayNumber || expected == DataType::ArrayString) && items_nested {
            Err(wrong_type_msg(context, expected, actual))
        } else if conversion_applies(actual, expected) && !(wrapped && (actual == DataType::Object || array_type(actual))) {
            Ok(TypeMatch::Convert(expected))
        } else {
            Err(wrong_type_msg(context, expected, actual))
        }
    }
}

fn wrong_type_error(context: &str, expected: DataType, actual: DataType) -> (e: JsonFormulaError)
    ensures
        e.kind == JsonFormulaErrorKind::TypeError,
        e.message@ == wrong_type_msg(context@, expected, actual),
{
    let a = concat_str(context, " expected argument to be type ");
    let b = concat_str(a.as_str(), data_type_name(expected));
    let c = concat_str(b.as_str(), " but received type ");
    let d = concat_str(c.as_str(), data_type_name(actual));
    JsonFormulaError::ty(concat_str(d.as_str(), " instead."))
}

/// How an argument of type `actual` meets a parameter accepting the types
/// `expected_list`, as `match_type_spec` describes; the caller performs the conversion.
pub fn match_type(
    expected_list: &[DataType],
    actual: DataType,
    is_expref: bool,
    items_nested: bool,
    wrapped: bool,
    context: &str,
) -> (r: Result<TypeMatch, JsonFormulaError>)
    requires
        expected_list@.len() > 0 || is_expref,
    ensures
        match match_type_spec(expected_list@, actual, is_expref, items_nested, wrapped, context@) {
            Ok(m) => r == Ok::<TypeMatch, JsonFormulaError>(m),
            Err(msg) => r matches Err(e) && e.kind == JsonFormulaErrorKind::TypeError && e.message@ == msg,
        },
{
    let n = expected_list.len();
    let ghost ex = expected_list@;
    let mut has_expref = false;
    let mut any_match = false;
    let mut filtered: Vec<DataType> = Vec::new();
    let mut names: Vec<char> = Vec::new();
    let mut i: usize = 0;
    while i < n
        invariant
            n == ex.len(),
            ex == expected_list@,
            i <= n,
            has_expref == ex.subrange(0, i as int).contains(DataType::Expref),
            any_match == (exists|k: int| 0 <= k < i && #[trigger] type_matches(ex[k], actual)),
            filtered@ == ex.subrange(0, i as int).filter(|t: DataType| conversion_allowed(actual, t)),
            names@ == type_list(ex.subrange(0, i as int)),
        decreases n - i,
    {
        let t = expected_list[i];
        let ghost prev = ex.subrange(0, i as int);
        assert(ex.subrange(0, i + 1) =~= prev.push(t));
        proof { prev.lemma_filter_push(t, |t: DataType| conversion_allowed(actual, t)); }
        if t == DataType::Expref {
            has_expref = true;
        }
        assert(prev.push(t).contains(DataType::Expref) == (prev.contains(DataType::Expref) || t == DataType::Expref)) by {
            if t == DataType::Expref {
                assert(prev.push(t)[prev.len() as int] == t);
            }
            if prev.contains(DataType::Expref) {
                let w = choose|w: int| 0 <= w < prev.len() && prev[w] == DataType::Expref;
                assert(prev.push(t)[w] == DataType::Expref);
            }
        }
        let m = t == actual || t == DataType::Any || (t == DataType::Array && is_array_type(actual))
            || (is_array_type(t) && actual == DataType::EmptyArray);
        if m {
            any_match = true;
            assert(type_matches(ex[i as int], actual));
        }
        if supported_conversion(actual, t) {
            filtered.push(t);
        }
        let ghost before = names@;
        if i > 0 {
            names.push(',');
            names.push(' ');
        }
        let name = data_type_name(t);
        let nc = crate::text::chars_vec(name);
        let mut k: usize = 0;
        let ghost mid = names@;
        while k < nc.len()
            invariant
                k <= nc@.len(),
                names@ == mid + nc@.subrange(0, k as int),
            decreases nc@.len() - k,
        {
            names.push(nc[k]);
            k = k + 1;
            assert(names@ =~= mid + nc@.subrange(0, k as int));
        }
        assert(nc@.subrange(0, nc@.len() as int) =~= nc@);
        assert(prev.push(t).drop_last() =~= prev);
        if i > 0 {
            proof { reveal_strlit(", "); }
            assert(names@ =~= type_list(prev) + ", "@ + type_name_spec(t));
        } else {
            assert(names@ =~= type_name_spec(t));
        }
        i = i + 1;
    }
    assert(ex.subrange(0, n as int) =~= ex);
    if is_expref && !has_expref {
        return Err(JsonFormulaError::ty(concat_str(context, " does not accept an expression reference argument.")));
    }
    if any_match {
        return Ok(TypeMatch::Accept);
    }
    if filtered.len() == 0 {
        return Err(wrong_type_error(context, expected_list[0], actual));
    }
    if filtered.len() > 1 {
        let a = concat_str(context, " cannot process type: ");
        let b = concat_str(a.as_str(), data_type_name(actual));
        let c = concat_str(b.as_str(), ". Must be one of: ");
        let list = crate::foreign::string_from_chars(&names);
        let d = concat_str(c.as_str(), list.as_str());
        return Err(JsonFormulaError::ty(concat_str(d.as_str(), ".")));
    }
    let expected = filtered[0];
    if is_array_type(actual) && (expected == DataType::ArrayNumber || expected == DataType::ArrayString) && items_nested {
        return Err(wrong_type_error(context, expected, actual));
    }
    let applies = if actual == DataType::Object {
        expected == DataType::Boolean
    } else if is_array_type(actual) {
        expected == DataType::Boolean || expected == DataType::ArrayString || expected == DataType::ArrayNumber
            || expected == DataType::ArrayArray
    } else {
        expected == DataType::ArrayString || expected == DataType::ArrayNumber || expected == DataType::Array
            || expected == DataType::Number || expected == DataType::String || expected == DataType::Boolean
    };
    if applies && !(wrapped && (actual == DataType::Object || is_array_type(actual))) {
        Ok(TypeMatch::Convert(expected))
    } else {
        Err(wrong_type_error(context, expected, actual))
    }
}

} // verus!
