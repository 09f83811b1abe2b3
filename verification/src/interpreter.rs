//! The plain-value parts of evaluation: the bounds of a slice `[start:stop:step]`, the
//! positions it selects, the position an index `[i]` names, and the ordering of strings.

use vstd::prelude::*;
use crate::errors::{JsonFormulaError, JsonFormulaErrorKind};
use crate::text::{chars_vec, text_is};

verus! {

/// A start or stop of a slice with a positive step, counted from the end when negative
/// and held inside `0..=len`.
pub open spec fn clamp_forward(v: int, len: int) -> int {
    if v < 0 {
        if v + len < 0 { 0 } else { v + len }
    } else if v > len {
        len
    } else {
        v
    }
}

/// A start or stop of a slice with a negative step, counted from the end when negative
/// and held inside `-1..len`.
pub open spec fn clamp_backward(v: int, len: int) -> int {
    if v < 0 {
        if v + len < 0 { -1 } else { v + len }
    } else if v >= len {
        len - 1
    } else {
        v
    }
}

/// The start, stop and step that a slice of an array of `len` items walks with; `None`
/// when the step is zero.
pub open spec fn slice_params(len: int, start: Option<int>, stop: Option<int>, step: Option<int>) -> Option<(int, int, int)> {
    let s = match step { Some(v) => v, None => 1 };
    if s == 0 {
        None
    } else if s < 0 {
        let b = clamp_backward(match start { Some(v) => v, None => len - 1 }, len);
        let e = match stop { Some(v) => clamp_backward(v, len), None => -1 };
        Some((b, e, s))
    } else {
        let b = clamp_forward(match start { Some(v) => v, None => 0 }, len);
        let e = clamp_forward(match stop { Some(v) => v, None => len }, len);
        Some((b, e, s))
    }
}

/// The distance still to walk from `i` towards `stop`.
pub open spec fn walk_distance(i: int, stop: int, step: int) -> nat {
    if step > 0 {
        if stop > i { (stop - i) as nat } else { 0 }
    } else {
        if i > stop { (i - stop) as nat } else { 0 }
    }
}

/// The positions below `len` visited from `i` in steps of `step` until `stop` is
/// reached or passed.
pub open spec fn walk(i: int, stop: int, step: int, len: int) -> Seq<int>
    decreases walk_distance(i, stop, step),
{
    if step == 0 || walk_distance(i, stop, step) == 0 {
        seq![]
    } else {
        let here: Seq<int> = if 0 <= i < len { seq![i] } else { seq![] };
        here + walk(i + step, stop, step, len)
    }
}

fn clamp_forward_exec(v: i64, len: i64) -> (r: i64)
    requires
        0 <= len,
    ensures
        r == clamp_forward(v as int, len as int),
{
    if v < 0 {
        let w = v + len;
        if w < 0 { 0 } else { w }
    } else if v > len {
        len
    } else {
        v
    }
}

fn clamp_backward_exec(v: i64, len: i64) -> (r: i64)
    requires
        0 <= len,
    ensures
        r == clamp_backward(v as int, len as int),
{
    if v < 0 {
        let w = v + len;
        if w < 0 { -1 } else { w }
    } else if v >= len {
        len - 1
    } else {
        v
    }
}

/// The start, stop and step of a slice of an array of `array_length` items, as
/// `slice_params` describes; an evaluation error when the step is zero.
pub fn compute_slice_params(array_length: i64, start: Option<i64>, stop: Option<i64>, step: Option<i64>) -> (r: Result<(i64, i64, i64), JsonFormulaError>)
    requires
        0 <= array_length,
    ensures
        match slice_params(array_length as int, crate::ast::opt_int(start), crate::ast::opt_int(stop), crate::ast::opt_int(step)) {
            Some((b, e, s)) => r matches Ok((rb, re, rs)) && rb == b && re == e && rs == s,
            None => r matches Err(err) && err.kind == JsonFormulaErrorKind::EvaluationError
                && err.message@ == "Invalid slice, step cannot be 0"@,
        },
{
    let step_val = match step {
        Some(v) => v,
        None => 1,
    };
    if step_val == 0 {
        return Err(JsonFormulaError::evaluation(String::from_str("Invalid slice, step cannot be 0")));
    }
    if step_val < 0 {
        let start_val = clamp_backward_exec(
            match start {
                Some(v) => v,
                None => array_length - 1,
            },
            array_length,
        );
        let stop_val = match stop {
            Some(v) => clamp_backward_exec(v, array_length),
            None => -1,
        };
        Ok((start_val, stop_val, step_val))
    } else {
        let start_val = clamp_forward_exec(
            match start {
                Some(v) => v,
                None => 0,
            },
            array_length,
        );
        let stop_val = clamp_forward_exec(
            match stop {
                Some(v) => v,
                None => array_length,
            },
            array_length,
        );
        Ok((start_val, stop_val, step_val))
    }
}

/// The positions of an array of `len` items that the walk from `start` to `stop` in steps
/// of `step` selects, in the order visited.
pub fn slice_indices(len: usize, start: i64, stop: i64, step: i64) -> (r: Vec<usize>)
    ensures
        r@.map_values(|p: usize| p as int) == walk(start as int, stop as int, step as int, len as int),
{
    let mut out: Vec<usize> = Vec::new();
    if step == 0 {
        return out;
    }
    let mut i = start;
    while (step > 0 && i < stop) || (step < 0 && i > stop)
        invariant
            step != 0,
            out@.map_values(|p: usize| p as int) + walk(i as int, stop as int, step as int, len as int)
                == walk(start as int, stop as int, step as int, len as int),
        decreases walk_distance(i as int, stop as int, step as int),
    {
        let ghost before = out@.map_values(|p: usize| p as int);
        if 0 <= i && (i as u64) < (len as u64) {
            out.push(i as usize);
            assert(out@.map_values(|p: usize| p as int) =~= before.push(i as int));
        }
        assert(walk(i as int, stop as int, step as int, len as int)
            == (if 0 <= i < len { seq![i as int] } else { Seq::<int>::empty() }) + walk(i + step, stop as int, step as int, len as int));
        match i.checked_add(step) {
            Some(n) => {
                assert(out@.map_values(|p: usize| p as int) + walk(n as int, stop as int, step as int, len as int)
                    =~= before + walk(i as int, stop as int, step as int, len as int));
                i = n;
            },
            None => {
                assert(walk(i + step, stop as int, step as int, len as int) =~= Seq::<int>::empty());
                assert(out@.map_values(|p: usize| p as int) =~= before + walk(i as int, stop as int, step as int, len as int));
                return out;
            },
        }
    }
    assert(walk(i as int, stop as int, step as int, len as int) =~= Seq::<int>::empty());
    assert(out@.map_values(|p: usize| p as int) =~= out@.map_values(|p: usize| p as int) + Seq::<int>::empty());
    out
}

/// The position that the index `index` names in an array of `len` items (negative
/// indexes count from the end): the position, or the index, counted from the end, that
/// falls outside the array.
pub fn array_index(len: usize, index: i64) -> (r: Result<usize, i64>)
    requires
        len <= i64::MAX,
    ensures
        ({
            let idx = if index < 0 { len + index } else { index as int };
            if 0 <= idx < len { r == Ok::<usize, i64>(idx as usize) } else { r == Err::<usize, i64>(idx as i64) }
        }),
{
    let n = len as i64;
    let idx = if index < 0 { n + index } else { index };
    if idx < 0 || idx >= n {
        Err(idx)
    } else {
        Ok(idx as usize)
    }
}

proof fn lemma_walk_up(i: int, n: int)
    requires
        0 <= i <= n,
    ensures
        walk(i, n, 1, n) == Seq::new((n - i) as nat, |k: int| i + k),
    decreases n - i,
{
    if i < n {
        lemma_walk_up(i + 1, n);
        assert(walk(i, n, 1, n) =~= Seq::new((n - i) as nat, |k: int| i + k));
    } else {
        assert(walk(i, n, 1, n) =~= Seq::new(0, |k: int| i + k));
    }
}

proof fn lemma_walk_down(i: int, n: int)
    requires
        -1 <= i < n,
    ensures
        walk(i, -1, -1, n) == Seq::new((i + 1) as nat, |k: int| i - k),
    decreases i + 1,
{
    if i >= 0 {
        lemma_walk_down(i - 1, n);
        assert(walk(i, -1, -1, n) =~= Seq::new((i + 1) as nat, |k: int| i - k));
    } else {
        assert(walk(i, -1, -1, n) =~= Seq::new(0, |k: int| i - k));
    }
}

/// A slice with no bounds and no step, `[:]`, selects every position of the array in order.
pub proof fn law_full_slice(len: int)
    requires
        0 <= len,
    ensures
        slice_params(len, None, None, None) == Some((0int, len, 1int)),
        walk(0, len, 1, len) == Seq::new(len as nat, |k: int| k),
{
    lemma_walk_up(0, len);
    assert(Seq::new(len as nat, |k: int| 0 + k) =~= Seq::new(len as nat, |k: int| k));
}

/// A slice with step -1 and no bounds, `[::-1]`, selects every position of the array in
/// reverse order.
pub proof fn law_reverse_slice(len: int)
    requires
        0 <= len,
    ensures
        slice_params(len, None, None, Some(-1)) == Some((len - 1, -1int, -1int)),
        walk(len - 1, -1, -1, len) == Seq::new(len as nat, |k: int| len - 1 - k),
{
    lemma_walk_down(len - 1, len);
}

/// The bounds of a slice always lie where its walk stays inside the array: from
/// `0..=len` with a positive step, from `-1..len` with a negative one.
pub proof fn law_slice_bounds(len: int, start: Option<int>, stop: Option<int>, step: Option<int>)
    requires
        0 <= len,
    ensures
        slice_params(len, start, stop, step) matches Some((b, e, s)) ==> (if s > 0 {
            0 <= b <= len && 0 <= e <= len
        } else {
            -1 <= b < len && -1 <= e < len
        }),
{
}

/// The number of positions `b`, `b + s`, `b + 2s`, ... that lie before `e` in the direction
/// of the step `s`: the length of Python's `range(b, e, s)`.
pub open spec fn step_count(b: int, e: int, s: int) -> nat {
    if s > 0 && e > b {
        ((e - b - 1) / s + 1) as nat
    } else if s < 0 && b > e {
        ((b - e - 1) / (-s) + 1) as nat
    } else {
        0
    }
}

proof fn lemma_count_step(x: int, t: int)
    requires
        0 <= x,
        0 < t,
    ensures
        x / t >= 0,
        x < t ==> x / t == 0,
        x >= t ==> (x - t) / t + 1 == x / t,
{
    vstd::arithmetic::div_mod::lemma_div_pos_is_pos(x, t);
    if x < t {
        vstd::arithmetic::div_mod::lemma_basic_div(x, t);
    } else {
        vstd::arithmetic::div_mod::lemma_div_minus_one(x, t);
        assert(-t + x == x - t);
    }
}

proof fn lemma_walk_progression(i: int, e: int, s: int, len: int)
    requires
        s != 0,
        s > 0 ==> 0 <= i && e <= len,
        s < 0 ==> i < len && -1 <= e,
    ensures
        walk(i, e, s, len) == Seq::new(step_count(i, e, s), |j: int| i + j * s),
        forall|j: int| 0 <= j < step_count(i, e, s) ==> 0 <= #[trigger] (i + j * s) < len,
    decreases walk_distance(i, e, s),
{
    let n = step_count(i, e, s);
    if (s > 0 && e > i) || (s < 0 && i > e) {
        let t = if s > 0 { s } else { -s };
        let x = if s > 0 { e - i - 1 } else { i - e - 1 };
        lemma_count_step(x, t);
        lemma_walk_progression(i + s, e, s, len);
        let rest = step_count(i + s, e, s);
        assert(n == rest + 1);
        assert(walk(i, e, s, len) == seq![i] + walk(i + s, e, s, len));
        let p = Seq::new(n, |j: int| i + j * s);
        let r = Seq::new(rest, |j: int| (i + s) + j * s);
        let q = seq![i] + r;
        assert forall|j: int| 0 <= j < n implies #[trigger] p[j] == q[j] by {
            if j > 0 {
                assert(q[j] == r[j - 1]);
                assert((i + s) + (j - 1) * s == i + j * s) by (nonlinear_arith);
            } else {
                assert(0 * s == 0) by (nonlinear_arith);
            }
        }
        assert(walk(i, e, s, len) =~= p);
        assert forall|j: int| 0 <= j < n implies 0 <= #[trigger] (i + j * s) < len by {
            if j > 0 {
                assert((i + s) + (j - 1) * s == i + j * s) by (nonlinear_arith);
                assert(0 <= (i + s) + (j - 1) * s < len);
            }
        }
    } else {
        assert(walk(i, e, s, len) =~= Seq::new(0, |j: int| i + j * s));
    }
}

/// For every step other than zero, a slice `[start:stop:step]` of an array of `len` items
/// selects the positions `b, b + s, b + 2s, ...` of Python's `range(b, e, s)`, where
/// `b`, `e` are the start and stop counted from the end where negative and held to the
/// array as Python does; every position selected lies inside the array.
pub proof fn law_slice_is_range(len: int, start: Option<int>, stop: Option<int>, step: Option<int>)
    requires
        0 <= len,
        step != Some(0int),
    ensures
        slice_params(len, start, stop, step) matches Some((b, e, s)) && walk(b, e, s, len)
            == Seq::new(step_count(b, e, s), |j: int| b + j * s) && (forall|j: int|
            0 <= j < step_count(b, e, s) ==> 0 <= #[trigger] (b + j * s) < len),
{
    let (b, e, s) = slice_params(len, start, stop, step)->0;
    lemma_walk_progression(b, e, s, len);
}

/// The position in an array of `len` items that an in-range index `v` names: counted from
/// the end when negative.
pub open spec fn position_of(len: int, v: int) -> int {
    if v < 0 { len + v } else { v }
}

/// A start or stop of a slice that lies inside the array, `-len <= v < len`, names the
/// same position as the index `v` would (negative values count from the end), whichever
/// the direction of the step; and so, with step -1, `[-k::-1]` selects the positions
/// `len - k`, `len - k - 1`, ..., `0`.
pub proof fn law_slice_bounds_count_from_end(len: int, v: int, s: int, k: int)
    requires
        0 <= len,
        -len <= v < len,
        s != 0,
    ensures
        slice_params(len, Some(v), None, Some(s)) matches Some((b, _, _)) && b == position_of(len, v),
        slice_params(len, None, Some(v), Some(s)) matches Some((_, e, _)) && e == position_of(len, v),
        1 <= k <= len ==> slice_params(len, Some(-k), None, Some(-1)) == Some((len - k, -1int, -1int))
            && walk(len - k, -1, -1, len) == Seq::new((len - k + 1) as nat, |j: int| len - k - j),
{
    if 1 <= k <= len {
        lemma_walk_down(len - k, len);
    }
}

/// Whether `a` comes before `b`, comparing from position `k` on by code point, a proper
/// prefix coming first.
pub open spec fn lex_less_at(a: Seq<char>, b: Seq<char>, k: int) -> bool
    decreases a.len() - k,
{
    if k < 0 || k >= a.len() {
        0 <= k < b.len()
    } else if k >= b.len() {
        false
    } else if a[k] != b[k] {
        (a[k] as int) < (b[k] as int)
    } else {
        lex_less_at(a, b, k + 1)
    }
}

/// Whether `a` comes before `b` in the order of strings.
pub open spec fn lex_less(a: Seq<char>, b: Seq<char>) -> bool {
    lex_less_at(a, b, 0)
}

/// The result of the comparison `a op b` of two strings, for the orderings `>`, `>=`,
/// `<`, `<=`; any other operator gives `false`.
pub open spec fn compare_str_spec(a: Seq<char>, b: Seq<char>, op: Seq<char>) -> bool {
    if op == ">"@ {
        lex_less(b, a)
    } else if op == ">="@ {
        !lex_less(a, b)
    } else if op == "<"@ {
        lex_less(a, b)
    } else if op == "<="@ {
        !lex_less(b, a)
    } else {
        false
    }
}

fn less_chars(a: &Vec<char>, b: &Vec<char>) -> (r: bool)
    ensures
        r == lex_less(a@, b@),
{
    let n = a.len();
    let m = b.len();
    let mut k: usize = 0;
    while k < n && k < m && a[k] == b[k]
        invariant
            n == a@.len(),
            m == b@.len(),
            k <= n,
            k <= m,
            lex_less_at(a@, b@, k as int) == lex_less(a@, b@),
        decreases n - k,
    {
        k = k + 1;
    }
    if k == n {
        k < m
    } else if k == m {
        false
    } else {
        a[k] < b[k]
    }
}

/// The comparison `a op b` of two strings, as `compare_str_spec` describes.
pub fn compare_str(a: &str, b: &str, op: &str) -> (r: bool)
    ensures
        r == compare_str_spec(a@, b@, op@),
{
    let x = chars_vec(a);
    let y = chars_vec(b);
    if text_is(op, ">") {
        less_chars(&y, &x)
    } else if text_is(op, ">=") {
        !less_chars(&x, &y)
    } else if text_is(op, "<") {
        less_chars(&x, &y)
    } else if text_is(op, "<=") {
        !less_chars(&y, &x)
    } else {
        false
    }
}

/// The order of strings is strict: no string comes before itself, and of two different
/// strings exactly one comes first.
pub proof fn law_string_order_total(a: Seq<char>, b: Seq<char>)
    ensures
        !lex_less(a, a),
        a != b ==> (lex_less(a, b) != lex_less(b, a)),
{
    lemma_lex_irreflexive(a, 0);
    if a != b {
        assert(a.subrange(0, 0) =~= b.subrange(0, 0));
        lemma_lex_total(a, b, 0);
    }
}

/// Whether `a` comes before `b` in dictionary order: after a common beginning, either `a`
/// has ended and `b` has not, or the first character where they differ is smaller in `a`.
pub open spec fn dictionary_before(a: Seq<char>, b: Seq<char>) -> bool {
    exists|k: int| #![trigger a.subrange(0, k), b.subrange(0, k)]
        0 <= k <= a.len() && k <= b.len() && a.subrange(0, k) == b.subrange(0, k)
        && ((k == a.len() && k < b.len()) || (k < a.len() && k < b.len() && (a[k] as int) < (b[k] as int)))
}

proof fn lemma_lex_is_dictionary(a: Seq<char>, b: Seq<char>, k: int)
    requires
        0 <= k <= a.len(),
        k <= b.len(),
        a.subrange(0, k) == b.subrange(0, k),
    ensures
        lex_less_at(a, b, k) == dictionary_before(a, b),
    decreases a.len() - k,
{
    if k < a.len() && k < b.len() && a[k] == b[k] {
        assert(a.subrange(0, k + 1) =~= a.subrange(0, k).push(a[k]));
        assert(b.subrange(0, k + 1) =~= b.subrange(0, k).push(b[k]));
        lemma_lex_is_dictionary(a, b, k + 1);
    } else {
        if dictionary_before(a, b) {
            let j = choose|j: int| #![trigger a.subrange(0, j), b.subrange(0, j)]
                0 <= j <= a.len() && j <= b.len() && a.subrange(0, j) == b.subrange(0, j)
                && ((j == a.len() && j < b.len()) || (j < a.len() && j < b.len() && (a[j] as int) < (b[j] as int)));
            if j < k {
                assert(a[j] == a.subrange(0, k)[j]);
                assert(b[j] == b.subrange(0, k)[j]);
            } else if j > k {
                assert(a[k] == a.subrange(0, j)[k]);
                assert(b[k] == b.subrange(0, j)[k]);
            }
        } else {
            if k == a.len() && k < b.len() {
                assert(a.subrange(0, k) == b.subrange(0, k));
            }
        }
    }
}

/// The string comparisons follow dictionary order by code point: `a < b` holds exactly
/// when `a` comes first, `a > b` is the same as `b < a`, `>=` and `<=` are the negations of
/// `<` and `>`, no string is `<` or `>` itself, and of two different strings one is `<`
/// the other.
pub proof fn law_string_comparisons(a: Seq<char>, b: Seq<char>)
    ensures
        compare_str_spec(a, b, "<"@) == dictionary_before(a, b),
        compare_str_spec(a, b, ">"@) == compare_str_spec(b, a, "<"@),
        compare_str_spec(a, b, ">"@) == dictionary_before(b, a),
        compare_str_spec(a, b, ">="@) == !compare_str_spec(a, b, "<"@),
        compare_str_spec(a, b, "<="@) == !compare_str_spec(a, b, ">"@),
        !compare_str_spec(a, a, ">"@),
        !compare_str_spec(a, a, "<"@),
        compare_str_spec(a, a, ">="@),
        compare_str_spec(a, a, "<="@),
        a != b ==> (compare_str_spec(a, b, "<"@) != compare_str_spec(a, b, ">"@)),
{
    reveal_strlit("<");
    reveal_strlit(">");
    reveal_strlit("<=");
    reveal_strlit(">=");
    assert("<"@[0] != ">"@[0]);
    assert("<"@ != ">"@);
    assert("<"@.len() != ">="@.len());
    assert("<"@ != ">="@);
    assert("<"@ != "<="@);
    assert(">"@ != ">="@);
    assert(">="@[0] != "<="@[0]);
    assert(">="@ != "<="@);
    assert(">"@ != "<="@);
    assert(a.subrange(0, 0) =~= b.subrange(0, 0));
    lemma_lex_is_dictionary(a, b, 0);
    lemma_lex_is_dictionary(b, a, 0);
    lemma_lex_is_dictionary(a, a, 0);
    law_string_order_total(a, b);
}

proof fn lemma_lex_irreflexive(a: Seq<char>, k: int)
    requires
        0 <= k,
    ensures
        !lex_less_at(a, a, k),
    decreases a.len() - k,
{
    if k < a.len() {
        lemma_lex_irreflexive(a, k + 1);
    }
}

proof fn lemma_lex_total(a: Seq<char>, b: Seq<char>, k: int)
    requires
        0 <= k <= a.len(),
        k <= b.len(),
        a.subrange(0, k) == b.subrange(0, k),
        a != b,
    ensures
        lex_less_at(a, b, k) != lex_less_at(b, a, k),
    decreases a.len() - k,
{
    if k < a.len() && k < b.len() {
        if a[k] == b[k] {
            assert(a.subrange(0, k + 1) =~= a.subrange(0, k).push(a[k]));
            assert(b.subrange(0, k + 1) =~= b.subrange(0, k).push(b[k]));
            lemma_lex_total(a, b, k + 1);
        } else {
            assert((a[k] as int) != (b[k] as int));
        }
    } else if k == a.len() && k == b.len() {
        assert(a =~= a.subrange(0, k));
        assert(b =~= b.subrange(0, k));
    }
}

} // verus!
