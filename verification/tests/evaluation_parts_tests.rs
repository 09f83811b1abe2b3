use json_formula_rs::errors::JsonFormulaErrorKind;
use json_formula_rs::interpreter::{array_index, compare_str, compute_slice_params, slice_indices};
use json_formula_rs::runtime::{validate_arity, SignatureArg};
use json_formula_rs::types::{data_type_name, is_array_type, supported_conversion, DataType};
use json_formula_rs::utils::debug_available;

#[test]
fn slice_params_positive_step() {
    assert_eq!(compute_slice_params(5, None, None, None).unwrap(), (0, 5, 1));
    assert_eq!(compute_slice_params(5, Some(-2), None, None).unwrap(), (3, 5, 1));
    assert_eq!(compute_slice_params(5, Some(-9), Some(9), Some(2)).unwrap(), (0, 5, 2));
    assert_eq!(compute_slice_params(5, Some(1), Some(-1), None).unwrap(), (1, 4, 1));
}

#[test]
fn slice_params_negative_step() {
    assert_eq!(compute_slice_params(5, None, None, Some(-1)).unwrap(), (4, -1, -1));
    assert_eq!(compute_slice_params(5, Some(9), Some(-9), Some(-2)).unwrap(), (4, -1, -2));
    assert_eq!(compute_slice_params(0, None, None, Some(-1)).unwrap(), (-1, -1, -1));
}

#[test]
fn slice_step_zero_is_an_error() {
    let err = compute_slice_params(3, None, None, Some(0)).unwrap_err();
    assert_eq!(err.kind, JsonFormulaErrorKind::EvaluationError);
    assert_eq!(err.message, "Invalid slice, step cannot be 0");
}

#[test]
fn slice_walks() {
    let (b, e, s) = compute_slice_params(5, None, None, None).unwrap();
    assert_eq!(slice_indices(5, b, e, s), vec![0, 1, 2, 3, 4]);
    let (b, e, s) = compute_slice_params(5, None, None, Some(-1)).unwrap();
    assert_eq!(slice_indices(5, b, e, s), vec![4, 3, 2, 1, 0]);
    let (b, e, s) = compute_slice_params(7, Some(1), None, Some(3)).unwrap();
    assert_eq!(slice_indices(7, b, e, s), vec![1, 4]);
    assert_eq!(slice_indices(3, 0, 3, i64::MAX), vec![0]);
    assert_eq!(slice_indices(3, 0, 3, 0), Vec::<usize>::new());
}

#[test]
fn array_index_counts_from_the_end() {
    assert_eq!(array_index(3, 0), Ok(0));
    assert_eq!(array_index(3, -1), Ok(2));
    assert_eq!(array_index(3, 3), Err(3));
    assert_eq!(array_index(3, -4), Err(-1));
}

#[test]
fn string_comparisons() {
    assert!(compare_str("b", "a", ">"));
    assert!(compare_str("a", "a", ">="));
    assert!(compare_str("a", "ab", "<"));
    assert!(compare_str("ab", "ab", "<="));
    assert!(!compare_str("b", "a", "<"));
    assert!(!compare_str("a", "b", "=="));
    assert!(compare_str("é", "z", ">"));
}

fn arg(optional: bool, variadic: bool) -> SignatureArg {
    SignatureArg { types: vec![DataType::Any], optional, variadic }
}

#[test]
fn arity_checks() {
    assert!(validate_arity("f", 0, &[]).is_ok());
    let err = validate_arity("f", 1, &[]).unwrap_err();
    assert_eq!(err.kind, JsonFormulaErrorKind::FunctionError);
    assert_eq!(err.message, "f() does not accept parameters");

    let sig = vec![arg(false, false), arg(true, false)];
    assert!(validate_arity("g", 1, &sig).is_ok());
    assert!(validate_arity("g", 2, &sig).is_ok());
    assert_eq!(validate_arity("g", 0, &sig).unwrap_err().message, "g() takes 2 arguments but received 0");
    assert_eq!(validate_arity("g", 3, &sig).unwrap_err().message, "g() takes 2 arguments but received 3");

    let one = vec![arg(false, false)];
    assert_eq!(validate_arity("h", 2, &one).unwrap_err().message, "h() takes 1 argument but received 2");

    let variadic = vec![arg(false, false), arg(false, true)];
    assert!(validate_arity("v", 5, &variadic).is_ok());
    assert_eq!(
        validate_arity("v", 1, &variadic).unwrap_err().message,
        "v() takes at least 2 arguments but received 1"
    );
    let optional_variadic = vec![arg(true, true)];
    assert!(validate_arity("w", 0, &optional_variadic).is_ok());
}

#[test]
fn type_names_and_conversions() {
    assert_eq!(data_type_name(DataType::Expref), "expression");
    assert_eq!(data_type_name(DataType::ArrayNumber), "Array<number>");
    assert_eq!(data_type_name(DataType::EmptyArray), "array");
    assert!(is_array_type(DataType::EmptyArray));
    assert!(!is_array_type(DataType::Object));
    assert!(supported_conversion(DataType::Number, DataType::String));
    assert!(!supported_conversion(DataType::Object, DataType::String));
    assert!(supported_conversion(DataType::Any, DataType::Expref));
    assert!(!supported_conversion(DataType::Expref, DataType::Any));
}

#[test]
fn missing_field_on_array() {
    let mut debug: Vec<String> = Vec::new();
    debug_available(&mut debug, true, None, "price", Some("items"));
    assert_eq!(
        debug,
        vec![
            "Failed to find: 'price' on an array object.".to_string(),
            "Did you mean to use a projection? e.g. items[*].price".to_string()
        ]
    );
}

#[test]
fn missing_field_on_object_lists_fields() {
    let mut debug: Vec<String> = vec!["earlier".to_string()];
    let keys = vec!["name".to_string(), "12".to_string(), "$meta".to_string(), "age".to_string()];
    debug_available(&mut debug, false, Some(&keys), "nmae", None);
    assert_eq!(
        debug,
        vec![
            "earlier".to_string(),
            "Failed to find: 'nmae'".to_string(),
            "Available fields: 'name', 'age'".to_string()
        ]
    );
    let mut debug2: Vec<String> = Vec::new();
    debug_available(&mut debug2, false, Some(&keys), "$x", None);
    assert_eq!(debug2[1], "Available fields: 'name', '$meta', 'age'");
    let mut debug3: Vec<String> = Vec::new();
    let digits = vec!["1".to_string()];
    debug_available(&mut debug3, false, Some(&digits), "a", None);
    assert_eq!(debug3, vec!["Failed to find: 'a'".to_string()]);
}

use json_formula_rs::types::{array_type_of, match_type, TypeMatch};

#[test]
fn array_types_from_items() {
    assert_eq!(array_type_of(&[]), DataType::EmptyArray);
    assert_eq!(array_type_of(&[DataType::Number, DataType::Number]), DataType::ArrayNumber);
    assert_eq!(array_type_of(&[DataType::String]), DataType::ArrayString);
    assert_eq!(array_type_of(&[DataType::ArrayNumber, DataType::EmptyArray]), DataType::ArrayArray);
    assert_eq!(array_type_of(&[DataType::Number, DataType::String]), DataType::Array);
}

#[test]
fn match_type_accepts_and_converts() {
    assert_eq!(match_type(&[DataType::Number], DataType::Number, false, false, false, "abs()").unwrap(), TypeMatch::Accept);
    assert_eq!(match_type(&[DataType::Array], DataType::ArrayString, false, false, false, "f").unwrap(), TypeMatch::Accept);
    assert_eq!(match_type(&[DataType::ArrayNumber], DataType::EmptyArray, false, false, false, "f").unwrap(), TypeMatch::Accept);
    assert_eq!(
        match_type(&[DataType::Number], DataType::String, false, false, false, "f").unwrap(),
        TypeMatch::Convert(DataType::Number)
    );
    assert_eq!(
        match_type(&[DataType::Boolean], DataType::Object, false, false, false, "f").unwrap(),
        TypeMatch::Convert(DataType::Boolean)
    );
}

#[test]
fn match_type_errors() {
    let err = match_type(&[DataType::Number], DataType::Expref, true, false, false, "abs()").unwrap_err();
    assert_eq!(err.kind, json_formula_rs::errors::JsonFormulaErrorKind::TypeError);
    assert_eq!(err.message, "abs() does not accept an expression reference argument.");
    let err = match_type(&[DataType::Number], DataType::Object, false, false, false, "abs()").unwrap_err();
    assert_eq!(err.message, "abs() expected argument to be type number but received type object instead.");
    let err = match_type(&[DataType::String, DataType::Number], DataType::Boolean, false, false, false, "g").unwrap_err();
    assert_eq!(err.message, "g cannot process type: boolean. Must be one of: string, number.");
    let err = match_type(&[DataType::ArrayNumber], DataType::Array, false, true, false, "h").unwrap_err();
    assert_eq!(err.message, "h expected argument to be type Array<number> but received type array instead.");
    let err = match_type(&[DataType::Boolean], DataType::Object, false, false, true, "k").unwrap_err();
    assert_eq!(err.message, "k expected argument to be type boolean but received type object instead.");
}

use json_formula_rs::errors::JsonFormulaError;

#[test]
fn error_constructors_keep_kind_and_message() {
    let e = JsonFormulaError::syntax("s".to_string());
    assert_eq!((e.kind, e.message.as_str()), (JsonFormulaErrorKind::SyntaxError, "s"));
    let e = JsonFormulaError::ty("t".to_string());
    assert_eq!((e.kind, e.message.as_str()), (JsonFormulaErrorKind::TypeError, "t"));
    let e = JsonFormulaError::function("f".to_string());
    assert_eq!((e.kind, e.message.as_str()), (JsonFormulaErrorKind::FunctionError, "f"));
    let e = JsonFormulaError::evaluation("v".to_string());
    assert_eq!((e.kind, e.message.as_str()), (JsonFormulaErrorKind::EvaluationError, "v"));
}

#[test]
fn expression_reference_is_refused_even_with_no_accepted_types() {
    let err = match_type(&[], DataType::Expref, true, false, false, "sort()").unwrap_err();
    assert_eq!(err.kind, JsonFormulaErrorKind::TypeError);
    assert_eq!(err.message, "sort() does not accept an expression reference argument.");
}

#[test]
fn slice_positions_follow_python_ranges() {
    let positions = |len: usize, start: Option<i64>, stop: Option<i64>, step: Option<i64>| {
        let (b, e, s) = compute_slice_params(len as i64, start, stop, step).unwrap();
        slice_indices(len, b, e, s)
    };
    assert_eq!(positions(3, None, None, Some(-1)), vec![2, 1, 0]);
    assert_eq!(positions(10, Some(2), Some(8), Some(3)), vec![2, 5]);
    assert_eq!(positions(6, Some(-100), Some(100), Some(4)), vec![0, 4]);
    assert_eq!(positions(6, Some(5), Some(-8), Some(-2)), vec![5, 3, 1]);
    assert_eq!(positions(6, Some(-2), None, None), vec![4, 5]);
    assert_eq!(positions(6, Some(4), Some(1), None), Vec::<usize>::new());
    assert_eq!(positions(0, None, None, Some(-3)), Vec::<usize>::new());
}
