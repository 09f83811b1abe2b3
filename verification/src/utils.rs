//! The notes recorded when a field is not found.

use vstd::prelude::*;
use crate::lexer_spec::strings_view;
use crate::text::{chars_vec, concat_str};

verus! {

/// Whether every character of `k` is an ASCII digit (so also when `k` is empty).
pub open spec fn all_ascii_digits(k: Seq<char>) -> bool {
    forall|i: int| 0 <= i < k.len() ==> '0' <= #[trigger] k[i] && k[i] <= '9'
}

/// Whether `k` starts with `$`.
pub open spec fn starts_with_dollar(k: Seq<char>) -> bool {
    k.len() > 0 && k[0] == '$'
}

/// Whether the field `k` is worth suggesting when `key` was not found: not an array
/// position, and not a `$` name unless `key` is one too.
pub open spec fn suggested(k: Seq<char>, key: Seq<char>) -> bool {
    !all_ascii_digits(k) && (!starts_with_dollar(k) || starts_with_dollar(key))
}

/// The fields of `keys` worth suggesting, each in single quotes.
pub open spec fn suggestions(keys: Seq<Seq<char>>, key: Seq<char>) -> Seq<Seq<char>>
    decreases keys.len(),
{
    if keys.len() == 0 {
        seq![]
    } else {
        let rest = suggestions(keys.drop_last(), key);
        let k = keys.last();
        if suggested(k, key) { rest.push("'"@ + k + "'"@) } else { rest }
    }
}

/// The texts `items` joined with `sep` between them.
pub open spec fn join(items: Seq<Seq<char>>, sep: Seq<char>) -> Seq<char>
    decreases items.len(),
{
    if items.len() == 0 {
        seq![]
    } else if items.len() == 1 {
        items[0]
    } else {
        join(items.drop_last(), sep) + sep + items.last()
    }
}

/// The notes recorded when `key` is not found on a value: a non-empty array gets a hint
/// about projections (naming `chain_start`, or `array`); anything else gets the plain
/// message, and an object also the fields it has that are worth suggesting.
pub open spec fn missing_field_notes(
    nonempty_array: bool,
    object_keys: Option<Seq<Seq<char>>>,
    key: Seq<char>,
    chain_start: Option<Seq<char>>,
) -> Seq<Seq<char>> {
    if nonempty_array {
        seq![
            "Failed to find: '"@ + key + "' on an array object."@,
            "Did you mean to use a projection? e.g. "@ + (match chain_start { Some(c) => c, None => "array"@ }) + "[*]."@
                + key,
        ]
    } else {
        let first = seq!["Failed to find: '"@ + key + "'"@];
        match object_keys {
            Some(keys) => {
                let avail = suggestions(keys, key);
                if avail.len() > 0 { first.push("Available fields: "@ + join(avail, ", "@)) } else { first }
            },
            None => first,
        }
    }
}

fn is_all_ascii_digits(k: &str) -> (r: bool)
    ensures
        r == all_ascii_digits(k@),
{
    let cs = chars_vec(k);
    let n = cs.len();
    let mut i: usize = 0;
    while i < n
        invariant
            n == cs@.len(),
            cs@ == k@,
            i <= n,
            forall|t: int| 0 <= t < i ==> '0' <= #[trigger] k@[t] && k@[t] <= '9',
        decreases n - i,
    {
        if !('0' <= cs[i] && cs[i] <= '9') {
            return false;
        }
        i = i + 1;
    }
    true
}

fn has_dollar_start(k: &str) -> (r: bool)
    ensures
        r == starts_with_dollar(k@),
{
    let cs = chars_vec(k);
    cs.len() > 0 && cs[0] == '$'
}

/// Records in `debug` the notes for a field `key` that was not found, as
/// `missing_field_notes` describes; `nonempty_array` tells whether the value searched is
/// an array with items, and `object_keys` holds the fields of the value, in order, when it
/// is an object.
pub fn debug_available(
    debug: &mut Vec<String>,
    nonempty_array: bool,
    object_keys: Option<&Vec<String>>,
    key: &str,
    chain_start: Option<&str>,
)
    ensures
        strings_view(final(debug)@) == strings_view(old(debug)@) + missing_field_notes(
            nonempty_array,
            match object_keys { Some(ks) => Some(strings_view(ks@)), None => None },
            key@,
            match chain_start { Some(c) => Some(c@), None => None },
        ),
{
    let ghost d0 = strings_view(debug@);
    if nonempty_array {
        let a = concat_str("Failed to find: '", key);
        let first = concat_str(a.as_str(), "' on an array object.");
        let start = match chain_start {
            Some(c) => c,
            None => "array",
        };
        let b = concat_str("Did you mean to use a projection? e.g. ", start);
        let c = concat_str(b.as_str(), "[*].");
        let second = concat_str(c.as_str(), key);
        let ghost s1 = first@;
        let ghost s2 = second@;
        debug.push(first);
        debug.push(second);
        assert(strings_view(debug@) =~= d0 + seq![s1, s2]);
        return;
    }
    let a = concat_str("Failed to find: '", key);
    let first = concat_str(a.as_str(), "'");
    let ghost s1 = first@;
    debug.push(first);
    assert(strings_view(debug@) =~= d0 + seq![s1]);
    match object_keys {
        Some(keys) => {
            let key_dollar = has_dollar_start(key);
            let n = keys.len();
            let mut joined: Vec<char> = Vec::new();
            let mut count: usize = 0;
            let mut i: usize = 0;
            while i < n
                invariant
                    n == keys@.len(),
                    i <= n,
                    key_dollar == starts_with_dollar(key@),
                    count == suggestions(strings_view(keys@.subrange(0, i as int)), key@).len(),
                    joined@ == join(suggestions(strings_view(keys@.subrange(0, i as int)), key@), ", "@),
                    count <= i,
                decreases n - i,
            {
                let k = keys[i].as_str();
                let ghost prev = suggestions(strings_view(keys@.subrange(0, i as int)), key@);
                assert(strings_view(keys@.subrange(0, i + 1)).drop_last() =~= strings_view(keys@.subrange(0, i as int)));
                assert(strings_view(keys@.subrange(0, i + 1)).last() == keys@[i as int]@);
                if !is_all_ascii_digits(k) && (!has_dollar_start(k) || key_dollar) {
                    let q1 = concat_str("'", k);
                    let q = concat_str(q1.as_str(), "'");
                    let ghost before = joined@;
                    if count > 0 {
                        joined.push(',');
                        joined.push(' ');
                    }
                    let qs = chars_vec(q.as_str());
                    let mut t: usize = 0;
                    let ghost mid = joined@;
                    while t < qs.len()
                        invariant
                            t <= qs@.len(),
                            joined@ == mid + qs@.subrange(0, t as int),
                        decreases qs@.len() - t,
                    {
                        joined.push(qs[t]);
                        t = t + 1;
                        assert(joined@ =~= mid + qs@.subrange(0, t as int));
                    }
                    assert(qs@.subrange(0, qs@.len() as int) =~= qs@);
                    let ghost now = prev.push("'"@ + k@ + "'"@);
                    assert(now.drop_last() =~= prev);
                    if count > 0 {
                        proof { reveal_strlit(", "); }
                        assert(joined@ =~= join(prev, ", "@) + ", "@ + now.last());
                    } else {
                        assert(joined@ =~= now.last());
                    }
                    count = count + 1;
                }
                i = i + 1;
            }
            assert(keys@.subrange(0, n as int) =~= keys@);
            if count > 0 {
                let s = crate::foreign::string_from_chars(&joined);
                let line = concat_str("Available fields: ", s.as_str());
                let ghost s2 = line@;
                debug.push(line);
                assert(strings_view(debug@) =~= d0 + seq![s1].push(s2));
            }
        },
        None => {},
    }
}

} // verus!
