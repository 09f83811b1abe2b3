//! The plain-text and calendar computations behind the built-in functions.

use vstd::prelude::*;
use crate::errors::{JsonFormulaError, JsonFormulaErrorKind};
use crate::text::{
    chars_vec, concat_str, is_white_space, is_white_space_char, signed_decimal_string, signed_decimal_text, text_is,
    trim_chars, trim_text, radix_value, read_i64_radix,
};
use crate::foreign::{
    base_syntax, regex_is_match, with_year_millis, year_changed_millis, char_to_lowercase, char_to_uppercase, lower_case_of, lower_case_text, str_to_lowercase, str_to_uppercase,
    string_from_chars, upper_case_of, upper_case_text,
};

verus! {

/// Whether `search` ends with `suffix`.
pub open spec fn ends_with_spec(search: Seq<char>, suffix: Seq<char>) -> bool {
    suffix.len() <= search.len() && search.subrange(search.len() - suffix.len(), search.len() as int) == suffix
}

/// Whether `subject` starts with `prefix`.
pub open spec fn starts_with_spec(subject: Seq<char>, prefix: Seq<char>) -> bool {
    prefix.len() <= subject.len() && subject.subrange(0, prefix.len() as int) == prefix
}

/// Whether `query`, not empty, occurs in `text` at position `i`.
pub open spec fn occurs_at(query: Seq<char>, text: Seq<char>, i: int) -> bool {
    0 <= i && i + query.len() <= text.len() && text.subrange(i, i + query.len()) == query
}

/// The first position at or after `i` where `query` occurs in `text`.
pub open spec fn first_occurrence(query: Seq<char>, text: Seq<char>, i: int) -> Option<int>
    decreases text.len() - i,
{
    if i < 0 || i >= text.len() {
        None
    } else if occurs_at(query, text, i) {
        Some(i)
    } else {
        first_occurrence(query, text, i + 1)
    }
}

/// The position of `query` in `text` from the character offset `offset` on; an empty
/// query is found at the offset itself when that lies inside the text or at its end.
pub open spec fn find_text_spec(query: Seq<char>, text: Seq<char>, offset: int) -> Option<int> {
    if query.len() == 0 {
        if 0 <= offset <= text.len() { Some(offset) } else { None }
    } else {
        first_occurrence(query, text, if offset < 0 { 0 } else { offset })
    }
}

/// `source` from position `j` on, with the occurrences of `old` (not empty) replaced by
/// `rep`: all of them when `which` is negative, else only the occurrence numbered `which`
/// (from zero); `found` occurrences lie before `j`.
pub open spec fn substitute_from(src: Seq<char>, old: Seq<char>, rep: Seq<char>, which: int, j: int, found: int) -> Seq<char>
    decreases src.len() - j,
{
    if j < 0 || j >= src.len() {
        seq![]
    } else if old.len() == 0 {
        src.subrange(j, src.len() as int)
    } else {
        let here = occurs_at(old, src, j);
        let f = if here { found + 1 } else { found };
        if here && (which < 0 || f == which + 1) {
            rep + substitute_from(src, old, rep, which, j + old.len(), f)
        } else {
            seq![src[j]] + substitute_from(src, old, rep, which, j + 1, f)
        }
    }
}

/// `source` with the occurrences of `old` that `which` selects replaced by `rep`.
pub open spec fn substitute_spec(src: Seq<char>, old: Seq<char>, rep: Seq<char>, which: int) -> Seq<char> {
    if old.len() == 0 {
        src
    } else {
        substitute_from(src, old, rep, which, 0, 0)
    }
}

fn same_at(a: &Vec<char>, i: usize, b: &Vec<char>) -> (r: bool)
    requires
        i + b@.len() <= a@.len(),
    ensures
        r == (a@.subrange(i as int, i + b@.len()) == b@),
{
    let n = b.len();
    let alen = a.len();
    let mut k: usize = 0;
    while k < n
        invariant
            n == b@.len(),
            alen == a@.len(),
            i + n <= a@.len(),
            k <= n,
            forall|t: int| 0 <= t < k ==> a@[i + t] == b@[t],
        decreases n - k,
    {
        if a[i + k] != b[k] {
            assert(a@.subrange(i as int, i + b@.len())[k as int] != b@[k as int]);
            return false;
        }
        k = k + 1;
    }
    assert(a@.subrange(i as int, i + b@.len()) =~= b@);
    true
}

/// Whether `search` ends with `suffix`.
pub fn ends_with(search: &str, suffix: &str) -> (r: bool)
    ensures
        r == ends_with_spec(search@, suffix@),
{
    let search = chars_vec(search);
    let suffix = chars_vec(suffix);
    if suffix.len() > search.len() {
        return false;
    }
    same_at(&search, search.len() - suffix.len(), &suffix)
}

/// Whether `subject` starts with `prefix`.
pub fn starts_with(subject: &str, prefix: &str) -> (r: bool)
    ensures
        r == starts_with_spec(subject@, prefix@),
{
    let subject = chars_vec(subject);
    let prefix = chars_vec(prefix);
    if prefix.len() > subject.len() {
        return false;
    }
    same_at(&subject, 0, &prefix)
}

/// The character position of `query` in `text` at or after `offset`, as `find_text_spec`
/// describes.
pub fn find_text(query: &str, text: &str, offset: i64) -> (r: Option<i64>)
    requires
        text@.len() <= i64::MAX,
    ensures
        match find_text_spec(query@, text@, offset as int) {
            Some(p) => r == Some(p as i64),
            None => r is None,
        },
{
    let query_chars = chars_vec(query);
    let text_chars = chars_vec(text);
    let n = text_chars.len();
    if query_chars.len() == 0 {
        if offset < 0 || offset as u64 > n as u64 {
            return None;
        }
        return Some(offset);
    }
    if offset > 0 && offset as u64 >= n as u64 {
        return None;
    }
    let mut i: usize = if offset < 0 { 0 } else { offset as usize };
    let ghost first = if offset < 0 { 0int } else { offset as int };
    while i < n
        invariant
            n == text_chars@.len(),
            query_chars@ == query@,
            text_chars@ == text@,
            query@.len() > 0,
            first == (if offset < 0 { 0int } else { offset as int }),
            first <= i,
            i <= n,
            first_occurrence(query@, text@, first) == first_occurrence(query@, text@, i as int),
            n <= i64::MAX,
        decreases n - i,
    {
        if query_chars.len() <= n - i && same_at(&text_chars, i, &query_chars) {
            assert(occurs_at(query@, text@, i as int));
            assert(first_occurrence(query@, text@, i as int) == Some(i as int));
            return Some(i as i64);
        }
        i = i + 1;
    }
    None
}

/// `source` with the occurrences of `old` that `which` selects replaced by `replacement`,
/// as `substitute_spec` describes: every occurrence, taken from the left without
/// overlap, when `which` is negative; else the one numbered `which`, counting from zero
/// over all the places, overlapping or not, where `old` occurs before it.
pub fn substitute(source: &str, old: &str, replacement: &str, which: i64) -> (r: String)
    ensures
        r@ == substitute_spec(source@, old@, replacement@, which as int),
{
    let src = chars_vec(source);
    let old_chars = chars_vec(old);
    if old_chars.len() == 0 {
        return string_from_chars(&src);
    }
    let rep = chars_vec(replacement);
    let replace_all = which < 0;
    let mut found: usize = 0;
    let mut result: Vec<char> = Vec::new();
    let mut j: usize = 0;
    let n = src.len();
    while j < n
        invariant
            n == src@.len(),
            src@ == source@,
            old_chars@ == old@,
            rep@ == replacement@,
            old@.len() > 0,
            replace_all == (which < 0),
            j <= n,
            0 <= found <= j,
            result@ + substitute_from(source@, old@, replacement@, which as int, j as int, found as int)
                == substitute_from(source@, old@, replacement@, which as int, 0, 0),
        decreases n - j,
    {
        let ghost before = result@;
        let match_here = old_chars.len() <= n - j && same_at(&src, j, &old_chars);
        if match_here {
            found = found + 1;
        }
        if match_here && (replace_all || (which >= 0 && (found - 1) as u64 == which as u64)) {
            let mut k: usize = 0;
            while k < rep.len()
                invariant
                    k <= rep@.len(),
                    result@ == before + rep@.subrange(0, k as int),
                decreases rep@.len() - k,
            {
                result.push(rep[k]);
                k = k + 1;
                assert(result@ =~= before + rep@.subrange(0, k as int));
            }
            assert(rep@.subrange(0, rep@.len() as int) =~= rep@);
            assert(before + (rep@ + substitute_from(source@, old@, replacement@, which as int, j + old@.len(), found as int))
                =~= result@ + substitute_from(source@, old@, replacement@, which as int, j + old@.len(), found as int));
            j = j + old_chars.len();
        } else {
            result.push(src[j]);
            assert(before + (seq![src@[j as int]] + substitute_from(source@, old@, replacement@, which as int, j + 1, found as int))
                =~= result@ + substitute_from(source@, old@, replacement@, which as int, j + 1, found as int));
            j = j + 1;
        }
    }
    assert(result@ + Seq::<char>::empty() =~= result@);
    string_from_chars(&result)
}

/// The year and month (1 to 12) that the zero-based month `month_zero_based` of
/// `year` falls in, carrying whole years over in either direction.
pub open spec fn normalize_year_month_spec(year: int, month_zero_based: int) -> (int, int) {
    (year + month_zero_based / 12, month_zero_based % 12 + 1)
}

/// The year and month (1 to 12) of the zero-based month `month_zero_based` of `year`.
pub fn normalize_year_month(year: i64, month_zero_based: i64) -> (r: (i64, i64))
    requires
        i64::MIN <= year + month_zero_based / 12 <= i64::MAX,
    ensures
        r.0 == normalize_year_month_spec(year as int, month_zero_based as int).0,
        r.1 == normalize_year_month_spec(year as int, month_zero_based as int).1,
{
    let m = month_zero_based;
    if m >= 0 {
        let q = (m as u64) / 12;
        let r = (m as u64) % 12;
        assert(q == m / 12 && r == m % 12);
        (year + q as i64, r as i64 + 1)
    } else {
        let a = (-(m + 1)) as u64;
        let q = a / 12;
        let r = a % 12;
        assert(m / 12 == -(q + 1) && m % 12 == 11 - r) by (nonlinear_arith)
            requires
                a == -(m + 1),
                q == a / 12,
                r == a % 12,
                m < 0,
        {
        }
        (year - (q as i64) - 1, 11 - r as i64 + 1)
    }
}

/// The absolute month count is kept: `12 * year + month - 1` is the same before and
/// after normalizing, and the month lands in `1..=12`.
pub proof fn law_normalize_keeps_month_count(year: int, month_zero_based: int)
    ensures
        ({
            let (y, m) = normalize_year_month_spec(year, month_zero_based);
            &&& 1 <= m <= 12
            &&& 12 * y + m - 1 == 12 * year + month_zero_based
        }),
{
    vstd::arithmetic::div_mod::lemma_fundamental_div_mod(month_zero_based, 12);
    vstd::arithmetic::div_mod::lemma_mod_bound(month_zero_based, 12);
}

/// When `old` does not occur in `source`, substituting changes nothing.
pub proof fn law_substitute_absent(src: Seq<char>, old: Seq<char>, rep: Seq<char>, which: int)
    requires
        forall|i: int| !occurs_at(old, src, i),
    ensures
        substitute_spec(src, old, rep, which) == src,
{
    if old.len() > 0 {
        lemma_substitute_absent_from(src, old, rep, which, 0, 0);
        assert(src.subrange(0, src.len() as int) =~= src);
    }
}

proof fn lemma_substitute_absent_from(src: Seq<char>, old: Seq<char>, rep: Seq<char>, which: int, j: int, found: int)
    requires
        forall|i: int| !occurs_at(old, src, i),
        old.len() > 0,
        0 <= j <= src.len(),
    ensures
        substitute_from(src, old, rep, which, j, found) == src.subrange(j, src.len() as int),
    decreases src.len() - j,
{
    assert(!occurs_at(old, src, j));
    if j < src.len() {
        lemma_substitute_absent_from(src, old, rep, which, j + 1, found);
        assert(substitute_from(src, old, rep, which, j, found) =~= src.subrange(j, src.len() as int));
    } else {
        assert(substitute_from(src, old, rep, which, j, found) =~= src.subrange(j, src.len() as int));
    }
}

/// One element of a wildcard pattern: a character, `?` (any one character) or `*` (any
/// run of characters).
#[derive(Clone, Copy, Debug, PartialEq, Eq, Structural)]
pub enum GlobToken {
    Char(char),
    Dot,
    Star,
}

/// What reading the character `c` does to the pattern read so far, `acc`, and to the
/// flag `escape`, set when the character before was an unescaped backslash.
pub open spec fn glob_step(c: char, escape: bool, acc: Seq<GlobToken>) -> (bool, Seq<GlobToken>) {
    if escape {
        (false, acc.push(GlobToken::Char(c)))
    } else if c == '\\' {
        (true, acc)
    } else if c == '?' {
        (false, acc.push(GlobToken::Dot))
    } else if c == '*' {
        if acc.len() > 0 && acc.last() == GlobToken::Star {
            (false, acc)
        } else {
            (false, acc.push(GlobToken::Star))
        }
    } else {
        (false, acc.push(GlobToken::Char(c)))
    }
}

/// The pattern read from `cs` from position `i` on, after the elements `acc`.
pub open spec fn glob_from(cs: Seq<char>, i: int, escape: bool, acc: Seq<GlobToken>) -> Seq<GlobToken>
    decreases cs.len() - i,
{
    if i < 0 || i >= cs.len() {
        acc
    } else {
        let (e, a) = glob_step(cs[i], escape, acc);
        glob_from(cs, i + 1, e, a)
    }
}

/// The wildcard pattern that the text `cs` writes: `?` and `*` are wildcards, a run of
/// `*` is one, and a backslash makes the next character literal.
pub open spec fn glob_of(cs: Seq<char>) -> Seq<GlobToken> {
    glob_from(cs, 0, false, seq![])
}

/// The text that the pattern `g` matches at the start of `a`, found by trying, at each
/// `*`, first the empty run, then one character with the rest of the pattern, then one
/// character with the `*` again.
pub open spec fn glob_match(a: Seq<char>, g: Seq<GlobToken>) -> Option<Seq<char>>
    decreases a.len(), g.len(),
{
    if g.len() == 0 {
        Some(seq![])
    } else if a.len() == 0 {
        if g[0] == GlobToken::Star {
            if g.len() == 1 { Some(seq![]) } else { glob_match(a, g.drop_first()) }
        } else {
            None
        }
    } else {
        let c = a[0];
        if g[0] == GlobToken::Star {
            match glob_match(a, g.drop_first()) {
                Some(m) => Some(m),
                None => if g.len() == 1 {
                    Some(seq![c])
                } else {
                    match glob_match(a.drop_first(), g.drop_first()) {
                        Some(m) => Some(seq![c] + m),
                        None => match glob_match(a.drop_first(), g) {
                            Some(m) => Some(seq![c] + m),
                            None => None,
                        },
                    }
                },
            }
        } else if g[0] == GlobToken::Dot || g[0] == GlobToken::Char(c) {
            match glob_match(a.drop_first(), g.drop_first()) {
                Some(m) => Some(seq![c] + m),
                None => None,
            }
        } else {
            None
        }
    }
}

/// The first position at or after `i` in `w` where the pattern `g` matches, with the
/// text it matches there.
pub open spec fn wildcard_from(g: Seq<GlobToken>, w: Seq<char>, i: int) -> Option<(int, Seq<char>)>
    decreases w.len() - i,
{
    if i < 0 || i >= w.len() {
        None
    } else {
        match glob_match(w.subrange(i, w.len() as int), g) {
            Some(m) => Some((i, m)),
            None => wildcard_from(g, w, i + 1),
        }
    }
}

/// The pattern that `text` writes, as `glob_of` describes.
pub fn parse_glob(text: &str) -> (r: Vec<GlobToken>)
    ensures
        r@ == glob_of(text@),
{
    let cs = chars_vec(text);
    let n = cs.len();
    let mut result: Vec<GlobToken> = Vec::new();
    let mut escape = false;
    let mut i: usize = 0;
    while i < n
        invariant
            n == cs@.len(),
            cs@ == text@,
            i <= n,
            glob_from(text@, i as int, escape, result@) == glob_of(text@),
        decreases n - i,
    {
        let ch = cs[i];
        if escape {
            result.push(GlobToken::Char(ch));
            escape = false;
        } else if ch == '\\' {
            escape = true;
        } else if ch == '?' {
            result.push(GlobToken::Dot);
        } else if ch == '*' {
            let last_star = result.len() > 0 && result[result.len() - 1] == GlobToken::Star;
            if !last_star {
                result.push(GlobToken::Star);
            }
        } else {
            result.push(GlobToken::Char(ch));
        }
        i = i + 1;
    }
    result
}

fn prepend(c: char, m: Vec<char>) -> (r: Vec<char>)
    ensures
        r@ == seq![c] + m@,
{
    let ghost before = m@;
    let mut m = m;
    m.insert(0, c);
    assert(m@ =~= seq![c] + before);
    m
}

/// Matches the pattern `glob` from element `j` on against the start of `array[i..]`.
fn test_match_from(array: &[char], i: usize, glob: &[GlobToken], j: usize) -> (r: Option<Vec<char>>)
    requires
        i <= array@.len(),
        j <= glob@.len(),
    ensures
        match glob_match(array@.subrange(i as int, array@.len() as int), glob@.subrange(j as int, glob@.len() as int)) {
            Some(m) => r matches Some(v) && v@ == m,
            None => r is None,
        },
    decreases array@.len() - i, glob@.len() - j,
{
    let ghost a = array@.subrange(i as int, array@.len() as int);
    let ghost g = glob@.subrange(j as int, glob@.len() as int);
    let alen = array.len();
    let glen = glob.len();
    if j == glen {
        return Some(Vec::new());
    }
    assert(g[0] == glob@[j as int]);
    assert(g.drop_first() =~= glob@.subrange(j + 1, glob@.len() as int));
    if i == alen {
        if glob[j] == GlobToken::Star {
            if glen - j == 1 {
                return Some(Vec::new());
            }
            return test_match_from(array, i, glob, j + 1);
        }
        return None;
    }
    let c = array[i];
    assert(a[0] == c);
    assert(a.drop_first() =~= array@.subrange(i + 1, array@.len() as int));
    if glob[j] == GlobToken::Star {
        match test_match_from(array, i, glob, j + 1) {
            Some(m) => return Some(m),
            None => {},
        }
        if glen - j == 1 {
            let mut v: Vec<char> = Vec::new();
            v.push(c);
            assert(v@ =~= seq![c]);
            return Some(v);
        }
        match test_match_from(array, i + 1, glob, j + 1) {
            Some(m) => return Some(prepend(c, m)),
            None => {},
        }
        match test_match_from(array, i + 1, glob, j) {
            Some(m) => return Some(prepend(c, m)),
            None => {},
        }
        return None;
    }
    let fits = match glob[j] {
        GlobToken::Dot => true,
        GlobToken::Char(d) => d == c,
        GlobToken::Star => false,
    };
    if fits {
        match test_match_from(array, i + 1, glob, j + 1) {
            Some(m) => return Some(prepend(c, m)),
            None => {},
        }
    }
    None
}

/// The text that `glob` matches at the start of `array`, as `glob_match` describes.
pub fn test_match(array: &[char], glob: &[GlobToken]) -> (r: Option<Vec<char>>)
    ensures
        match glob_match(array@, glob@) {
            Some(m) => r matches Some(v) && v@ == m,
            None => r is None,
        },
{
    assert(array@.subrange(0, array@.len() as int) =~= array@);
    assert(glob@.subrange(0, glob@.len() as int) =~= glob@);
    test_match_from(array, 0, glob, 0)
}

/// The first character position at or after `start` where the wildcard pattern
/// `find_text` matches in `within_text`, with the text it matches there.
pub fn wildcard_search(find_text: &str, within_text: &str, start: usize) -> (r: Option<(usize, String)>)
    ensures
        match wildcard_from(glob_of(find_text@), within_text@, start as int) {
            Some((p, m)) => r matches Some((q, s)) && q == p && s@ == m,
            None => r is None,
        },
{
    let glob = parse_glob(find_text);
    let within = chars_vec(within_text);
    let n = within.len();
    let mut i = start;
    while i < n
        invariant
            n == within@.len(),
            within@ == within_text@,
            glob@ == glob_of(find_text@),
            start <= i,
            wildcard_from(glob@, within@, start as int) == wildcard_from(glob@, within@, i as int),
        decreases n - i,
    {
        match test_match_from(within.as_slice(), i, glob.as_slice(), 0) {
            Some(m) => {
                assert(glob@.subrange(0, glob@.len() as int) =~= glob@);
                return Some((i, string_from_chars(&m)));
            },
            None => {
                assert(glob@.subrange(0, glob@.len() as int) =~= glob@);
            },
        }
        i = i + 1;
    }
    None
}

/// What a pattern matches is always a prefix of the text it is matched against.
pub proof fn law_match_is_prefix(a: Seq<char>, g: Seq<GlobToken>)
    ensures
        glob_match(a, g) matches Some(m) ==> m.len() <= a.len() && a.subrange(0, m.len() as int) == m,
    decreases a.len(), g.len(),
{
    if g.len() == 0 {
    } else if a.len() == 0 {
        if g[0] == GlobToken::Star && g.len() != 1 {
            law_match_is_prefix(a, g.drop_first());
        }
    } else {
        let c = a[0];
        law_match_is_prefix(a.drop_first(), g.drop_first());
        if g[0] == GlobToken::Star {
            law_match_is_prefix(a, g.drop_first());
            law_match_is_prefix(a.drop_first(), g);
        }
        if let Some(m) = glob_match(a, g) {
            if m.len() > 0 && !(g[0] == GlobToken::Star && glob_match(a, g.drop_first()) is Some) {
                let rest = m.drop_first();
                assert(m =~= seq![c] + rest);
                assert(a.subrange(0, m.len() as int) =~= seq![c] + a.drop_first().subrange(0, rest.len() as int));
            }
        }
    }
}

/// Whether the whole text `w` is one that the pattern `g` describes: a `*` stands for any
/// run of characters, possibly empty, a `?` for any one character, and a character for
/// itself.
pub open spec fn glob_accepts(w: Seq<char>, g: Seq<GlobToken>) -> bool
    decreases g.len(), w.len(),
{
    if g.len() == 0 {
        w.len() == 0
    } else if g[0] == GlobToken::Star {
        glob_accepts(w, g.drop_first()) || (w.len() > 0 && glob_accepts(w.drop_first(), g))
    } else if w.len() == 0 {
        false
    } else if g[0] == GlobToken::Dot || g[0] == GlobToken::Char(w[0]) {
        glob_accepts(w.drop_first(), g.drop_first())
    } else {
        false
    }
}

proof fn lemma_match_accepted(a: Seq<char>, g: Seq<GlobToken>)
    ensures
        glob_match(a, g) matches Some(m) ==> glob_accepts(m, g),
    decreases a.len(), g.len(),
{
    if g.len() == 0 {
    } else if a.len() == 0 {
        if g[0] == GlobToken::Star {
            if g.len() == 1 {
                assert(glob_accepts(seq![], g.drop_first()));
            } else {
                lemma_match_accepted(a, g.drop_first());
            }
        }
    } else {
        let c = a[0];
        lemma_match_accepted(a.drop_first(), g.drop_first());
        if g[0] == GlobToken::Star {
            lemma_match_accepted(a, g.drop_first());
            lemma_match_accepted(a.drop_first(), g);
            if glob_match(a, g.drop_first()) is None {
                if g.len() == 1 {
                    assert(seq![c].drop_first() =~= Seq::<char>::empty());
                    assert(glob_accepts(Seq::<char>::empty(), g.drop_first()));
                    assert(glob_accepts(Seq::<char>::empty(), g));
                } else if let Some(m) = glob_match(a.drop_first(), g.drop_first()) {
                    assert((seq![c] + m).drop_first() =~= m);
                    assert(glob_accepts(m, g));
                } else if let Some(m) = glob_match(a.drop_first(), g) {
                    assert((seq![c] + m).drop_first() =~= m);
                }
            }
        } else if let Some(m) = glob_match(a, g) {
            assert((seq![c] + m.drop_first()) =~= m);
            assert(m.drop_first() == glob_match(a.drop_first(), g.drop_first())->0);
        }
    }
}

proof fn lemma_accepted_prefix_matches(a: Seq<char>, g: Seq<GlobToken>, k: int)
    requires
        0 <= k <= a.len(),
        glob_accepts(a.subrange(0, k), g),
    ensures
        glob_match(a, g) is Some,
    decreases a.len(), g.len(),
{
    let w = a.subrange(0, k);
    if g.len() == 0 {
    } else if a.len() == 0 {
        if g[0] == GlobToken::Star && g.len() != 1 {
            assert(w.len() == 0);
            lemma_accepted_prefix_matches(a, g.drop_first(), k);
        }
    } else {
        let a1 = a.drop_first();
        if g[0] == GlobToken::Star {
            if glob_accepts(w, g.drop_first()) {
                lemma_accepted_prefix_matches(a, g.drop_first(), k);
            } else if glob_match(a, g.drop_first()) is None && g.len() != 1
                && glob_match(a1, g.drop_first()) is None {
                assert(w.drop_first() =~= a1.subrange(0, k - 1));
                lemma_accepted_prefix_matches(a1, g, k - 1);
            }
        } else if k > 0 {
            assert(w.drop_first() =~= a1.subrange(0, k - 1));
            if g[0] == GlobToken::Dot || g[0] == GlobToken::Char(w[0]) {
                lemma_accepted_prefix_matches(a1, g.drop_first(), k - 1);
            }
        }
    }
}

proof fn lemma_star_unfold(a: Seq<char>, g: Seq<GlobToken>, l: int, k: int) -> (l1: int)
    requires
        0 <= l <= k <= a.len(),
        g.len() > 0,
        g[0] == GlobToken::Star,
        glob_accepts(a.subrange(l, k), g),
    ensures
        l <= l1 <= k,
        glob_accepts(a.subrange(l1, k), g.drop_first()),
    decreases k - l,
{
    let w = a.subrange(l, k);
    if glob_accepts(w, g.drop_first()) {
        l
    } else {
        assert(w.drop_first() =~= a.subrange(l + 1, k));
        lemma_star_unfold(a, g, l + 1, k)
    }
}

proof fn lemma_match_ends_early(a: Seq<char>, g: Seq<GlobToken>, l: int, k: int)
    requires
        0 <= l <= k <= a.len(),
        glob_accepts(a.subrange(l, k), g),
        glob_match(a, g) is Some,
    ensures
        glob_match(a, g)->0.len() <= k,
    decreases a.len(), g.len(),
{
    let w = a.subrange(l, k);
    if g.len() == 0 {
    } else if a.len() == 0 {
        law_match_is_prefix(a, g);
    } else {
        let c = a[0];
        let a1 = a.drop_first();
        let g1 = g.drop_first();
        if g[0] == GlobToken::Star {
            if glob_match(a, g1) is Some {
                let l1 = lemma_star_unfold(a, g, l, k);
                lemma_match_ends_early(a, g1, l1, k);
            } else {
                assert(g.len() > 1);
                if glob_match(a1, g1) is Some {
                    if a1.len() > 0 {
                        assert(glob_match(a1, g) == glob_match(a1, g1));
                    } else {
                        assert(glob_match(a1, g) == glob_match(a1, g1));
                    }
                }
                assert(glob_match(a1, g) is Some);
                assert(glob_match(a, g)->0 == seq![c] + glob_match(a1, g)->0);
                if l >= 1 {
                    assert(a1.subrange(l - 1, k - 1) =~= w);
                    lemma_match_ends_early(a1, g, l - 1, k - 1);
                } else {
                    if glob_accepts(w, g1) {
                        lemma_accepted_prefix_matches(a, g1, k);
                        assert(false);
                    }
                    assert(w.drop_first() =~= a1.subrange(0, k - 1));
                    lemma_match_ends_early(a1, g, 0, k - 1);
                }
            }
        } else {
            assert(g[0] == GlobToken::Dot || g[0] == GlobToken::Char(c));
            assert(w.len() > 0);
            assert(w.drop_first() =~= a1.subrange(l, k - 1));
            assert(glob_match(a1, g1) is Some);
            lemma_match_ends_early(a1, g1, l, k - 1);
        }
    }
}

/// The pattern `g` matches at the start of `a` exactly when some prefix of `a` is a text
/// that `g` describes, and what it then matches is the shortest such prefix.
pub proof fn law_match_iff_prefix_accepted(a: Seq<char>, g: Seq<GlobToken>)
    ensures
        glob_match(a, g) is Some <==> exists|k: int| 0 <= k <= a.len() && #[trigger] glob_accepts(a.subrange(0, k), g),
        glob_match(a, g) matches Some(m) ==> m.len() <= a.len() && a.subrange(0, m.len() as int) == m
            && glob_accepts(m, g) && forall|k: int| 0 <= k <= a.len() && #[trigger] glob_accepts(a.subrange(0, k), g) ==> m.len() <= k,
{
    if glob_match(a, g) is Some {
        assert forall|k: int| 0 <= k <= a.len() && #[trigger] glob_accepts(a.subrange(0, k), g) implies
            glob_match(a, g)->0.len() <= k by {
            lemma_match_ends_early(a, g, 0, k);
        }
    }
    law_match_is_prefix(a, g);
    lemma_match_accepted(a, g);
    if let Some(m) = glob_match(a, g) {
        assert(glob_accepts(a.subrange(0, m.len() as int), g));
    }
    if exists|k: int| 0 <= k <= a.len() && #[trigger] glob_accepts(a.subrange(0, k), g) {
        let k = choose|k: int| 0 <= k <= a.len() && #[trigger] glob_accepts(a.subrange(0, k), g);
        lemma_accepted_prefix_matches(a, g, k);
    }
}

/// No two `*` elements of the pattern `g` are adjacent.
pub open spec fn single_stars(g: Seq<GlobToken>) -> bool {
    forall|k: int| #![trigger g[k]] 0 <= k < g.len() - 1 ==> !(g[k] == GlobToken::Star && g[k + 1] == GlobToken::Star)
}

/// Consecutive `*` in a pattern text give a single `*` element: no two `*` elements are
/// ever adjacent.
pub proof fn law_glob_single_stars(cs: Seq<char>)
    ensures
        single_stars(glob_of(cs)),
{
    lemma_glob_from_single_stars(cs, 0, false, seq![]);
}

proof fn lemma_glob_from_single_stars(cs: Seq<char>, i: int, escape: bool, acc: Seq<GlobToken>)
    requires
        single_stars(acc),
    ensures
        single_stars(glob_from(cs, i, escape, acc)),
    decreases cs.len() - i,
{
    if 0 <= i < cs.len() {
        let c = cs[i];
        if escape {
            lemma_push_keeps_single(acc, GlobToken::Char(c));
        } else if c == '?' {
            lemma_push_keeps_single(acc, GlobToken::Dot);
        } else if c == '*' {
            if !(acc.len() > 0 && acc.last() == GlobToken::Star) {
                lemma_push_keeps_single(acc, GlobToken::Star);
            }
        } else if c != '\\' {
            lemma_push_keeps_single(acc, GlobToken::Char(c));
        }
        let (e, a) = glob_step(c, escape, acc);
        lemma_glob_from_single_stars(cs, i + 1, e, a);
    }
}

proof fn lemma_push_keeps_single(acc: Seq<GlobToken>, t: GlobToken)
    requires
        single_stars(acc),
        t == GlobToken::Star ==> !(acc.len() > 0 && acc.last() == GlobToken::Star),
    ensures
        single_stars(acc.push(t)),
{
    assert forall|k: int| #![trigger acc.push(t)[k]] 0 <= k < acc.push(t).len() - 1 implies
        !(acc.push(t)[k] == GlobToken::Star && acc.push(t)[k + 1] == GlobToken::Star) by {
        if k + 1 < acc.len() {
            assert(acc.push(t)[k] == acc[k]);
            assert(acc.push(t)[k + 1] == acc[k + 1]);
        } else {
            assert(acc.push(t)[k] == acc.last());
        }
    }
}

/// The ASCII punctuation characters.
pub open spec fn ascii_punctuation(c: char) -> bool {
    ('!' <= c && c <= '/') || (':' <= c && c <= '@') || ('[' <= c && c <= '`') || ('{' <= c && c <= '~')
}

/// The characters that end a word for `proper`: white space, ASCII digits and ASCII
/// punctuation.
pub open spec fn word_break(c: char) -> bool {
    is_white_space(c) || ('0' <= c && c <= '9') || ascii_punctuation(c)
}

/// `cs` from position `i` on with the first letter of each word in upper case and the
/// others in lower case; `start_word` when position `i` begins a word.
pub open spec fn proper_from(cs: Seq<char>, i: int, start_word: bool) -> Seq<char>
    decreases cs.len() - i,
{
    if i < 0 || i >= cs.len() {
        seq![]
    } else {
        let c = cs[i];
        if word_break(c) {
            seq![c] + proper_from(cs, i + 1, true)
        } else if start_word {
            upper_case_of(c) + proper_from(cs, i + 1, false)
        } else {
            lower_case_of(c) + proper_from(cs, i + 1, false)
        }
    }
}

fn is_word_break(c: char) -> (r: bool)
    ensures
        r == word_break(c),
{
    is_white_space_char(c) || ('0' <= c && c <= '9') || ('!' <= c && c <= '/') || (':' <= c && c <= '@')
        || ('[' <= c && c <= '`') || ('{' <= c && c <= '~')
}

/// `text` with the first letter of each word in upper case and the others in lower case,
/// as `proper_from` describes.
pub fn proper(text: &str) -> (r: String)
    ensures
        r@ == proper_from(text@, 0, true),
{
    let cs = chars_vec(text);
    let n = cs.len();
    let mut out: Vec<char> = Vec::new();
    let mut start_word = true;
    let mut i: usize = 0;
    while i < n
        invariant
            n == cs@.len(),
            cs@ == text@,
            i <= n,
            out@ + proper_from(text@, i as int, start_word) == proper_from(text@, 0, true),
        decreases n - i,
    {
        let ch = cs[i];
        let ghost before = out@;
        if is_word_break(ch) {
            start_word = true;
            out.push(ch);
            assert(before + (seq![ch] + proper_from(text@, i + 1, true)) =~= out@ + proper_from(text@, i + 1, true));
        } else if start_word {
            let mut up = char_to_uppercase(ch);
            let ghost u = up@;
            out.append(&mut up);
            start_word = false;
            assert(before + (u + proper_from(text@, i + 1, false)) =~= out@ + proper_from(text@, i + 1, false));
        } else {
            let mut low = char_to_lowercase(ch);
            let ghost l = low@;
            out.append(&mut low);
            assert(before + (l + proper_from(text@, i + 1, false)) =~= out@ + proper_from(text@, i + 1, false));
        }
        i = i + 1;
    }
    assert(out@ + Seq::<char>::empty() =~= out@);
    string_from_chars(&out)
}

/// The upper case of `c` under the Turkic rules: dotted and dotless i keep their dot.
pub open spec fn turkic_upper(c: char) -> Seq<char> {
    if c == 'i' {
        seq!['\u{130}']
    } else if c == '\u{131}' {
        seq!['I']
    } else {
        upper_case_of(c)
    }
}

/// The lower case of `c` under the Turkic rules.
pub open spec fn turkic_lower(c: char) -> Seq<char> {
    if c == 'I' {
        seq!['\u{131}']
    } else if c == '\u{130}' {
        seq!['i']
    } else {
        lower_case_of(c)
    }
}

/// The characters of `cs` mapped one by one through `f` and joined.
pub open spec fn map_join(cs: Seq<char>, f: spec_fn(char) -> Seq<char>) -> Seq<char>
    decreases cs.len(),
{
    if cs.len() == 0 {
        seq![]
    } else {
        map_join(cs.drop_last(), f) + f(cs.last())
    }
}

/// Whether the lower-cased locale names a Turkic language (Turkish or Azerbaijani).
pub open spec fn turkic_locale(locale: Seq<char>) -> bool {
    starts_with_spec(lower_case_text(locale), "tr"@) || starts_with_spec(lower_case_text(locale), "az"@)
}

/// The case-folded form of `text` for comparisons under `locale`: upper case then lower
/// case, by the Turkic rules for the dotted and dotless i where the locale is Turkic.
pub open spec fn casefold_spec(text: Seq<char>, locale: Seq<char>) -> Seq<char> {
    if turkic_locale(locale) {
        map_join(map_join(text, |c: char| turkic_upper(c)), |c: char| turkic_lower(c))
    } else {
        lower_case_text(upper_case_text(text))
    }
}

fn turkic_map(cs: &Vec<char>, upper: bool) -> (r: Vec<char>)
    ensures
        upper ==> r@ == map_join(cs@, |c: char| turkic_upper(c)),
        !upper ==> r@ == map_join(cs@, |c: char| turkic_lower(c)),
{
    let ghost f = if upper { |c: char| turkic_upper(c) } else { |c: char| turkic_lower(c) };
    let n = cs.len();
    let mut out: Vec<char> = Vec::new();
    let mut i: usize = 0;
    while i < n
        invariant
            n == cs@.len(),
            i <= n,
            f == (if upper { |c: char| turkic_upper(c) } else { |c: char| turkic_lower(c) }),
            out@ == map_join(cs@.subrange(0, i as int), f),
        decreases n - i,
    {
        let ch = cs[i];
        let ghost before = out@;
        if upper {
            if ch == 'i' {
                out.push('\u{130}');
            } else if ch == '\u{131}' {
                out.push('I');
            } else {
                let mut up = char_to_uppercase(ch);
                out.append(&mut up);
            }
        } else {
            if ch == 'I' {
                out.push('\u{131}');
            } else if ch == '\u{130}' {
                out.push('i');
            } else {
                let mut low = char_to_lowercase(ch);
                out.append(&mut low);
            }
        }
        assert(cs@.subrange(0, i + 1).drop_last() =~= cs@.subrange(0, i as int));
        assert(out@ =~= before + f(ch));
        i = i + 1;
    }
    assert(cs@.subrange(0, n as int) =~= cs@);
    out
}

/// `text` case-folded for comparisons under `locale`, as `casefold_spec` describes.
pub fn casefold_locale(text: &str, locale: &str) -> (r: String)
    ensures
        r@ == casefold_spec(text@, locale@),
{
    let loc = str_to_lowercase(locale);
    if starts_with(loc.as_str(), "tr") || starts_with(loc.as_str(), "az") {
        let cs = chars_vec(text);
        let upper = turkic_map(&cs, true);
        let lower = turkic_map(&upper, false);
        string_from_chars(&lower)
    } else {
        let up = str_to_uppercase(text);
        str_to_lowercase(up.as_str())
    }
}

/// The pieces of `s` between the occurrences of `sep` (not empty), taken from the left
/// without overlap; the current piece began at `start` and the search is at `j`.
pub open spec fn split_from(s: Seq<char>, sep: Seq<char>, start: int, j: int) -> Seq<Seq<char>>
    decreases s.len() - j,
{
    if sep.len() == 0 || j < 0 || j >= s.len() {
        seq![s.subrange(start, s.len() as int)]
    } else if occurs_at(sep, s, j) {
        seq![s.subrange(start, j)] + split_from(s, sep, j + sep.len(), j + sep.len())
    } else {
        split_from(s, sep, start, j + 1)
    }
}

proof fn lemma_split_from_nonempty(s: Seq<char>, sep: Seq<char>, start: int, j: int)
    ensures
        split_from(s, sep, start, j).len() >= 1,
    decreases s.len() - j,
{
    if !(sep.len() == 0 || j < 0 || j >= s.len()) {
        if occurs_at(sep, s, j) {
            lemma_split_from_nonempty(s, sep, j + sep.len(), j + sep.len());
        } else {
            lemma_split_from_nonempty(s, sep, start, j + 1);
        }
    }
}

/// The pieces of `s` that `split` gives: each character when `sep` is empty, else the
/// pieces between the occurrences of `sep`.
pub open spec fn split_spec(s: Seq<char>, sep: Seq<char>) -> Seq<Seq<char>> {
    if sep.len() == 0 {
        Seq::new(s.len(), |i: int| seq![s[i]])
    } else {
        split_from(s, sep, 0, 0)
    }
}

/// The pieces of `text` between the occurrences of `separator`; with an empty separator,
/// its characters one by one.
pub fn split_text(text: &str, separator: &str) -> (r: Vec<String>)
    ensures
        r@.map_values(|p: String| p@) == split_spec(text@, separator@),
{
    let s = chars_vec(text);
    let sep = chars_vec(separator);
    let n = s.len();
    let mut out: Vec<String> = Vec::new();
    if sep.len() == 0 {
        let mut i: usize = 0;
        while i < n
            invariant
                n == s@.len(),
                s@ == text@,
                i <= n,
                out@.map_values(|p: String| p@) == Seq::new(i as nat, |k: int| seq![text@[k]]),
            decreases n - i,
        {
            let mut one: Vec<char> = Vec::new();
            one.push(s[i]);
            let piece = string_from_chars(&one);
            let ghost before = out@.map_values(|p: String| p@);
            let ghost pv = piece@;
            assert(pv =~= seq![text@[i as int]]);
            out.push(piece);
            assert(out@.map_values(|p: String| p@) =~= before.push(pv));
            assert(before.push(pv) =~= Seq::new((i + 1) as nat, |k: int| seq![text@[k]]));
            i = i + 1;
        }
        return out;
    }
    let mut start: usize = 0;
    let mut j: usize = 0;
    let mut piece: Vec<char> = Vec::new();
    while j < n
        invariant
            n == s@.len(),
            s@ == text@,
            sep@ == separator@,
            sep@.len() > 0,
            start <= j <= n,
            piece@ == text@.subrange(start as int, j as int),
            out@.map_values(|p: String| p@) + split_from(text@, separator@, start as int, j as int)
                == split_from(text@, separator@, 0, 0),
        decreases n - j,
    {
        if sep.len() <= n - j && same_at(&s, j, &sep) {
            let ghost before = out@.map_values(|p: String| p@);
            let done = string_from_chars(&piece);
            out.push(done);
            assert(out@.map_values(|p: String| p@) =~= before.push(text@.subrange(start as int, j as int)));
            j = j + sep.len();
            start = j;
            piece = Vec::new();
            assert(piece@ =~= text@.subrange(start as int, j as int));
        } else {
            piece.push(s[j]);
            j = j + 1;
            assert(piece@ =~= text@.subrange(start as int, j as int));
        }
    }
    let ghost before = out@.map_values(|p: String| p@);
    let last = string_from_chars(&piece);
    out.push(last);
    assert(out@.map_values(|p: String| p@) =~= before.push(text@.subrange(start as int, n as int)));
    out
}

/// The words of `s`: the pieces between spaces that are not empty.
pub open spec fn words(s: Seq<char>) -> Seq<Seq<char>> {
    split_from(s, seq![' '], 0, 0).filter(|p: Seq<char>| p.len() > 0)
}

/// `text` with the spaces at its ends dropped and each run of spaces inside it made one.
pub fn collapse_spaces(text: &str) -> (r: String)
    ensures
        r@ == crate::utils::join(words(text@), seq![' ']),
{
    let parts = split_text(text, " ");
    proof {
        reveal_strlit(" ");
        assert(" "@ =~= seq![' ']);
    }
    let ghost all = parts@.map_values(|p: String| p@);
    let n = parts.len();
    let mut out: Vec<char> = Vec::new();
    let mut count: usize = 0;
    let mut i: usize = 0;
    while i < n
        invariant
            n == parts@.len(),
            all == parts@.map_values(|p: String| p@),
            all == split_from(text@, seq![' '], 0, 0),
            i <= n,
            count <= i,
            count == all.subrange(0, i as int).filter(|p: Seq<char>| p.len() > 0).len(),
            out@ == crate::utils::join(all.subrange(0, i as int).filter(|p: Seq<char>| p.len() > 0), seq![' ']),
        decreases n - i,
    {
        let ghost prev = all.subrange(0, i as int).filter(|p: Seq<char>| p.len() > 0);
        let ghost cur = all[i as int];
        assert(all.subrange(0, i + 1) =~= all.subrange(0, i as int).push(cur));
        proof { all.subrange(0, i as int).lemma_filter_push(cur, |p: Seq<char>| p.len() > 0); }
        let p = parts[i].as_str();
        let cs = chars_vec(p);
        if cs.len() > 0 {
            let ghost before = out@;
            if count > 0 {
                out.push(' ');
            }
            let mut t: usize = 0;
            let ghost mid = out@;
            while t < cs.len()
                invariant
                    t <= cs@.len(),
                    out@ == mid + cs@.subrange(0, t as int),
                decreases cs@.len() - t,
            {
                out.push(cs[t]);
                t = t + 1;
                assert(out@ =~= mid + cs@.subrange(0, t as int));
            }
            assert(cs@.subrange(0, cs@.len() as int) =~= cs@);
            let ghost now = prev.push(cur);
            assert(now.drop_last() =~= prev);
            if count > 0 {
                assert(out@ =~= crate::utils::join(prev, seq![' ']) + seq![' '] + now.last());
            } else {
                assert(prev.len() == 0);
                assert(out@ =~= now.last());
            }
            count = count + 1;
        }
        i = i + 1;
    }
    assert(all.subrange(0, n as int) =~= all);
    string_from_chars(&out)
}

/// The first `n` characters of `text` (all of it when it is shorter).
pub fn left_chars(text: &str, n: usize) -> (r: String)
    ensures
        r@ == text@.subrange(0, if n < text@.len() { n as int } else { text@.len() as int }),
{
    let cs = chars_vec(text);
    let len = cs.len();
    let end = if n < len { n } else { len };
    let mut out: Vec<char> = Vec::new();
    let mut i: usize = 0;
    while i < end
        invariant
            len == cs@.len(),
            cs@ == text@,
            end <= len,
            i <= end,
            out@ == text@.subrange(0, i as int),
        decreases end - i,
    {
        out.push(cs[i]);
        i = i + 1;
        assert(out@ =~= text@.subrange(0, i as int));
    }
    string_from_chars(&out)
}

/// The last `n` characters of `text` (all of it when it is shorter).
pub fn right_chars(text: &str, n: usize) -> (r: String)
    ensures
        r@ == text@.subrange(if n < text@.len() { text@.len() - n } else { 0 }, text@.len() as int),
{
    let cs = chars_vec(text);
    let len = cs.len();
    let start = if n < len { len - n } else { 0 };
    let mut out: Vec<char> = Vec::new();
    let mut i: usize = start;
    while i < len
        invariant
            len == cs@.len(),
            cs@ == text@,
            start <= i <= len,
            out@ == text@.subrange(start as int, i as int),
        decreases len - i,
    {
        out.push(cs[i]);
        i = i + 1;
        assert(out@ =~= text@.subrange(start as int, i as int));
    }
    string_from_chars(&out)
}

/// The at most `length` characters of `text` from the character position `start` on.
pub fn mid_chars(text: &str, start: usize, length: usize) -> (r: String)
    ensures
        ({
            let b = if start < text@.len() { start as int } else { text@.len() as int };
            let e = if length < text@.len() - b { b + length } else { text@.len() as int };
            r@ == text@.subrange(b, e)
        }),
{
    let cs = chars_vec(text);
    let len = cs.len();
    let b = if start < len { start } else { len };
    let e = if length < len - b { b + length } else { len };
    let mut out: Vec<char> = Vec::new();
    let mut i: usize = b;
    while i < e
        invariant
            len == cs@.len(),
            cs@ == text@,
            b <= i <= e,
            e <= len,
            out@ == text@.subrange(b as int, i as int),
        decreases e - i,
    {
        out.push(cs[i]);
        i = i + 1;
        assert(out@ =~= text@.subrange(b as int, i as int));
    }
    string_from_chars(&out)
}

/// `text` with the characters from position `start` (at most `length` of them) replaced by
/// `new_text`; `start` must lie inside the text or at its end.
pub fn splice_chars(text: &str, start: usize, length: usize, new_text: &str) -> (r: String)
    requires
        start <= text@.len(),
    ensures
        ({
            let e = if length < text@.len() - start { start + length } else { text@.len() as int };
            r@ == text@.subrange(0, start as int) + new_text@ + text@.subrange(e, text@.len() as int)
        }),
{
    let cs = chars_vec(text);
    let ins = chars_vec(new_text);
    let len = cs.len();
    let e = if length < len - start { start + length } else { len };
    let mut out: Vec<char> = Vec::new();
    let mut i: usize = 0;
    while i < start
        invariant
            len == cs@.len(),
            cs@ == text@,
            start <= len,
            i <= start,
            out@ == text@.subrange(0, i as int),
        decreases start - i,
    {
        out.push(cs[i]);
        i = i + 1;
        assert(out@ =~= text@.subrange(0, i as int));
    }
    let mut k: usize = 0;
    while k < ins.len()
        invariant
            ins@ == new_text@,
            k <= ins@.len(),
            out@ == text@.subrange(0, start as int) + new_text@.subrange(0, k as int),
        decreases ins@.len() - k,
    {
        out.push(ins[k]);
        k = k + 1;
        assert(out@ =~= text@.subrange(0, start as int) + new_text@.subrange(0, k as int));
    }
    assert(new_text@.subrange(0, new_text@.len() as int) =~= new_text@);
    let ghost head = out@;
    let mut j: usize = e;
    while j < len
        invariant
            len == cs@.len(),
            cs@ == text@,
            e <= j <= len,
            out@ == head + text@.subrange(e as int, j as int),
        decreases len - j,
    {
        out.push(cs[j]);
        j = j + 1;
        assert(out@ =~= head + text@.subrange(e as int, j as int));
    }
    string_from_chars(&out)
}

/// `text` written `count` times over.
pub open spec fn repeat_spec(text: Seq<char>, count: nat) -> Seq<char>
    decreases count,
{
    if count == 0 { seq![] } else { repeat_spec(text, (count - 1) as nat) + text }
}

/// `text` written `count` times over.
pub fn repeat_text(text: &str, count: usize) -> (r: String)
    ensures
        r@ == repeat_spec(text@, count as nat),
{
    let cs = chars_vec(text);
    let mut out: Vec<char> = Vec::new();
    let mut c: usize = 0;
    while c < count
        invariant
            cs@ == text@,
            c <= count,
            out@ == repeat_spec(text@, c as nat),
        decreases count - c,
    {
        let ghost before = out@;
        let mut k: usize = 0;
        while k < cs.len()
            invariant
                cs@ == text@,
                k <= cs@.len(),
                out@ == before + text@.subrange(0, k as int),
            decreases cs@.len() - k,
        {
            out.push(cs[k]);
            k = k + 1;
            assert(out@ =~= before + text@.subrange(0, k as int));
        }
        assert(text@.subrange(0, text@.len() as int) =~= text@);
        c = c + 1;
    }
    string_from_chars(&out)
}

/// `text` with its characters in reverse order.
pub fn reverse_text(text: &str) -> (r: String)
    ensures
        r@ == text@.reverse(),
{
    let cs = chars_vec(text);
    let n = cs.len();
    let mut out: Vec<char> = Vec::new();
    let mut i: usize = n;
    while i > 0
        invariant
            n == cs@.len(),
            cs@ == text@,
            i <= n,
            out@ == text@.subrange(i as int, n as int).reverse(),
        decreases i,
    {
        i = i - 1;
        out.push(cs[i]);
        assert(out@ =~= text@.subrange(i as int, n as int).reverse());
    }
    assert(text@.subrange(0, n as int) =~= text@);
    string_from_chars(&out)
}

/// The number of a weekday, given as days since Sunday, in the numbering that
/// `return_type` selects: 1 counts Sunday as 1 to Saturday as 7, 2 counts Monday as 1 to
/// Sunday as 7, 3 counts Monday as 0 to Sunday as 6.
pub open spec fn weekday_spec(day: int, return_type: int) -> Option<int> {
    if return_type == 1 {
        Some(day + 1)
    } else if return_type == 2 {
        Some((day + 6) % 7 + 1)
    } else if return_type == 3 {
        Some((day + 6) % 7)
    } else {
        None
    }
}

/// The weekday number of the day `day_from_sunday` (0 for Sunday to 6 for Saturday), as
/// `weekday_spec` describes; a function error for any other `return_type`.
pub fn weekday(day_from_sunday: i64, return_type: i64) -> (r: Result<i64, JsonFormulaError>)
    requires
        0 <= day_from_sunday <= 6,
    ensures
        match weekday_spec(day_from_sunday as int, return_type as int) {
            Some(v) => r == Ok::<i64, JsonFormulaError>(v as i64),
            None => r matches Err(e) && e.kind == JsonFormulaErrorKind::FunctionError
                && e.message@ == "Unsupported returnType: \""@ + signed_decimal_text(return_type as int)
                    + "\" for weekday()"@,
        },
{
    if return_type == 1 {
        Ok(day_from_sunday + 1)
    } else if return_type == 2 {
        Ok(((day_from_sunday + 6) % 7) + 1)
    } else if return_type == 3 {
        Ok((day_from_sunday + 6) % 7)
    } else {
        let a = concat_str("Unsupported returnType: \"", signed_decimal_string(return_type).as_str());
        Err(JsonFormulaError::function(concat_str(a.as_str(), "\" for weekday()")))
    }
}

/// A UTC date and time: its instant in milliseconds since the Unix epoch and its calendar
/// year, month (1 to 12) and day of the month (1 to 31).
#[derive(Clone, Copy, Debug, PartialEq, Eq, Structural)]
pub struct DateParts {
    pub millis: i64,
    pub year: i32,
    pub month: u32,
    pub day: u32,
}

/// The ranges that the fields of a date keep inside chrono's range of dates.
pub open spec fn date_parts_valid(d: DateParts) -> bool {
    &&& 1 <= d.month <= 12
    &&& 1 <= d.day <= 31
    &&& -300_000 < d.year < 300_000
    &&& -0x20_0000_0000_0000 < d.millis < 0x20_0000_0000_0000
}

/// Milliseconds in a day.
pub open spec fn ms_per_day() -> int {
    86_400_000
}

/// The whole days in `ms` milliseconds, rounded towards zero, as chrono's `num_days` counts
/// them.
pub open spec fn whole_days(ms: int) -> int {
    if ms >= 0 { ms / ms_per_day() } else { -((-ms) / ms_per_day()) }
}

/// The month difference of `datedif` after a day difference below zero is taken into it.
pub open spec fn month_diff_adjusted(first: DateParts, second: DateParts) -> int {
    let md = second.month - first.month;
    if second.day - first.day < 0 { md - 1 } else { md }
}

/// The year that `datedif` moves the end date into for the unit `yd`.
pub open spec fn yd_target_year(first: DateParts, second: DateParts) -> int {
    if month_diff_adjusted(first, second) < 0 { first.year + 1 } else { first.year as int }
}

/// The difference between the dates `first` and `second` in the (lower-cased) unit `unit`:
/// whole days (`d`), whole years (`y`), whole months (`m`), months past the whole years
/// (`ym`) or days past the whole years (`yd`); an error when `second` comes first or the
/// unit is unknown; `None` where moving the end date into the year for `yd` gives no date.
pub open spec fn datedif_spec(unit: Seq<char>, first: DateParts, second: DateParts) -> Option<Result<int, Seq<char>>> {
    let u = lower_case_text(unit);
    let yd = second.year - first.year;
    let md = second.month - first.month;
    let dd = second.day - first.day;
    if second.millis == first.millis {
        Some(Ok(0))
    } else if second.millis < first.millis {
        Some(Err("end_date must be >= start_date in datedif()"@))
    } else if u == "d"@ {
        Some(Ok(whole_days(second.millis - first.millis)))
    } else if u == "y"@ {
        Some(Ok(yd - (if md < 0 { 1int } else { 0 }) - (if md == 0 && dd < 0 { 1int } else { 0 })))
    } else if u == "m"@ {
        Some(Ok(yd * 12 + md + (if dd < 0 { -1int } else { 0 })))
    } else if u == "ym"@ {
        let m2 = month_diff_adjusted(first, second);
        Some(Ok(if m2 <= 0 && yd > 0 { 12 + m2 } else { m2 }))
    } else if u == "yd"@ {
        match year_changed_millis(second.millis as int, yd_target_year(first, second)) {
            Some(moved) => Some(Ok(whole_days(moved - first.millis))),
            None => None,
        }
    } else {
        Some(Err("Unrecognized unit parameter \""@ + u + "\" for datedif()"@))
    }
}

/// Whether the calendar day `(y1, m1, d1)` is not after `(y2, m2, d2)`.
pub open spec fn day_not_after(y1: int, m1: int, d1: int, y2: int, m2: int, d2: int) -> bool {
    y1 < y2 || (y1 == y2 && (m1 < m2 || (m1 == m2 && d1 <= d2)))
}

/// With the unit `y`, `datedif` counts completed years only: its result `y` is the largest
/// number of years by which the first date's calendar day can be moved on without passing
/// the second date's calendar day.
pub proof fn law_datedif_whole_years(unit: Seq<char>, first: DateParts, second: DateParts)
    requires
        lower_case_text(unit) == "y"@,
        second.millis > first.millis,
    ensures
        datedif_spec(unit, first, second) matches Some(Ok(y))
            && day_not_after(first.year + y, first.month as int, first.day as int,
                second.year as int, second.month as int, second.day as int)
            && !day_not_after(first.year + y + 1, first.month as int, first.day as int,
                second.year as int, second.month as int, second.day as int),
{
    reveal_strlit("y");
    reveal_strlit("d");
    assert("y"@[0] != "d"@[0]);
}

fn whole_days_exec(ms: i128) -> (r: i64)
    requires
        -0x1_0000_0000_0000_0000 < ms < 0x1_0000_0000_0000_0000,
    ensures
        r == whole_days(ms as int),
{
    if ms >= 0 {
        (ms / 86_400_000) as i64
    } else {
        -(((-ms) / 86_400_000) as i64)
    }
}

/// The difference between the dates `first` and `second` in the unit `unit`, as
/// `datedif_spec` describes, where that gives an outcome.
pub fn datedif(first: DateParts, second: DateParts, unit: &str) -> (r: Result<i64, JsonFormulaError>)
    requires
        date_parts_valid(first),
        date_parts_valid(second),
        datedif_spec(unit@, first, second) is Some,
    ensures
        match datedif_spec(unit@, first, second) {
            Some(Ok(v)) => r == Ok::<i64, JsonFormulaError>(v as i64),
            Some(Err(m)) => r matches Err(e) && e.kind == JsonFormulaErrorKind::FunctionError && e.message@ == m,
            None => false,
        },
{
    let lower = str_to_lowercase(unit);
    let u = lower.as_str();
    if second.millis == first.millis {
        return Ok(0);
    }
    if second.millis < first.millis {
        return Err(JsonFormulaError::function(String::from_str("end_date must be >= start_date in datedif()")));
    }
    if text_is(u, "d") {
        return Ok(whole_days_exec(second.millis as i128 - first.millis as i128));
    }
    let year_diff = second.year as i64 - first.year as i64;
    let month_diff = second.month as i64 - first.month as i64;
    let day_diff = second.day as i64 - first.day as i64;
    if text_is(u, "y") {
        let mut y = year_diff;
        if month_diff < 0 {
            y = y - 1;
        }
        if month_diff == 0 && day_diff < 0 {
            y = y - 1;
        }
        return Ok(y);
    }
    if text_is(u, "m") {
        return Ok(year_diff * 12 + month_diff + if day_diff < 0 { -1 } else { 0 });
    }
    let adjusted = if day_diff < 0 { month_diff - 1 } else { month_diff };
    if text_is(u, "ym") {
        if adjusted <= 0 && year_diff > 0 {
            return Ok(12 + adjusted);
        }
        return Ok(adjusted);
    }
    if text_is(u, "yd") {
        let target: i32 = if adjusted < 0 { first.year + 1 } else { first.year };
        return match with_year_millis(second.millis, target) {
            Some(moved) => Ok(whole_days_exec(moved as i128 - first.millis as i128)),
            None => Ok(0),
        };
    }
    let a = concat_str("Unrecognized unit parameter \"", u);
    Err(JsonFormulaError::function(concat_str(a.as_str(), "\" for datedif()")))
}

/// The difference between the dates `first` and `second` in the unit `unit`, as
/// `datedif_spec` describes: `None` exactly where moving the end date into the year for
/// the unit `yd` gives no date.
pub fn datedif_checked(first: DateParts, second: DateParts, unit: &str) -> (r: Option<Result<i64, JsonFormulaError>>)
    requires
        date_parts_valid(first),
        date_parts_valid(second),
    ensures
        match datedif_spec(unit@, first, second) {
            Some(Ok(v)) => r == Some(Ok::<i64, JsonFormulaError>(v as i64)),
            Some(Err(m)) => r matches Some(Err(e)) && e.kind == JsonFormulaErrorKind::FunctionError && e.message@ == m,
            None => r is None,
        },
{
    proof {
        reveal_strlit("d");
        reveal_strlit("y");
        reveal_strlit("m");
        reveal_strlit("ym");
        reveal_strlit("yd");
        assert("yd"@ != "d"@ && "yd"@ != "y"@ && "yd"@ != "m"@ && "yd"@ != "ym"@) by {
            assert("yd"@.len() == 2 && "d"@.len() == 1 && "ym"@[1] == 'm' && "yd"@[1] == 'd');
        }
    }
    let lower = str_to_lowercase(unit);
    if second.millis > first.millis && text_is(lower.as_str(), "yd") {
        let month_diff = second.month as i64 - first.month as i64;
        let day_diff = second.day as i64 - first.day as i64;
        let adjusted = if day_diff < 0 { month_diff - 1 } else { month_diff };
        let target: i32 = if adjusted < 0 { first.year + 1 } else { first.year };
        if with_year_millis(second.millis, target).is_none() {
            return None;
        }
    }
    Some(datedif(first, second, unit))
}

/// What `toNumber` makes of a text for a base: a blank text is zero, base 10 goes through
/// the ordinary number conversion, a text that does not fit the base gives a note and no
/// value, and otherwise the integer part with, where the text has a point, the digits after
/// it (their value and how many there are).
#[derive(Debug, Clone, PartialEq)]
pub enum BaseParse {
    Blank,
    Decimal,
    Unparsed(String),
    Parts { int_part: i64, fraction: Option<(i64, usize)> },
}

/// `s` without its leading `+` signs.
pub open spec fn strip_plus(s: Seq<char>) -> Seq<char>
    decreases s.len(),
{
    if s.len() > 0 && s[0] == '+' { strip_plus(s.drop_first()) } else { s }
}

/// The note for a text that does not fit base `base`.
pub open spec fn base_failure_note(s: Seq<char>, base: int) -> Seq<char> {
    "Failed to convert \""@ + s + "\" base \""@ + signed_decimal_text(base) + "\" to number"@
}

/// The trimmed pieces of `s` between its points.
pub open spec fn point_pieces(s: Seq<char>) -> Seq<Seq<char>> {
    split_spec(s, "."@).map_values(|p: Seq<char>| trim_chars(p))
}

/// The plain content of a `BaseParse`.
pub enum BaseParseModel {
    Blank,
    Decimal,
    Unparsed(Seq<char>),
    Parts(int, Option<(int, nat)>),
}

impl View for BaseParse {
    type V = BaseParseModel;

    open spec fn view(&self) -> BaseParseModel {
        match self {
            BaseParse::Blank => BaseParseModel::Blank,
            BaseParse::Decimal => BaseParseModel::Decimal,
            BaseParse::Unparsed(note) => BaseParseModel::Unparsed(note@),
            BaseParse::Parts { int_part, fraction } => BaseParseModel::Parts(
                *int_part as int,
                match fraction {
                    Some((f, n)) => Some((*f as int, *n as nat)),
                    None => None,
                },
            ),
        }
    }
}

/// The outcome of reading the text `s` in base `base` for `toNumber`, as `BaseParse`
/// describes, or the message of the evaluation error for an unknown base or an integer part
/// that is no number of the base.
pub open spec fn parse_number_base_spec(s: Seq<char>, base: int) -> Result<BaseParseModel, Seq<char>> {
    let pieces = point_pieces(s);
    if trim_chars(s).len() == 0 {
        Ok(BaseParseModel::Blank)
    } else if base == 10 {
        Ok(BaseParseModel::Decimal)
    } else if base != 2 && base != 8 && base != 16 {
        Err("Invalid base: \""@ + signed_decimal_text(base) + "\" for toNumber()"@)
    } else if !base_syntax(s, base) || pieces.len() > 2 {
        Ok(BaseParseModel::Unparsed(base_failure_note(s, base)))
    } else {
        match radix_value(strip_plus(pieces[0]), base) {
            None => Err("Invalid base"@),
            Some(v) => Ok(BaseParseModel::Parts(
                v,
                if pieces.len() == 2 {
                    Some((match radix_value(pieces[1], base) { Some(f) => f, None => 0 }, pieces[1].len()))
                } else {
                    None
                },
            )),
        }
    }
}

fn strip_plus_text(s: &str) -> (r: String)
    ensures
        r@ == strip_plus(s@),
{
    let cs = chars_vec(s);
    let n = cs.len();
    let mut b: usize = 0;
    assert(s@.subrange(0, n as int) =~= s@);
    while b < n && cs[b] == '+'
        invariant
            n == cs@.len(),
            cs@ == s@,
            b <= n,
            strip_plus(s@) == strip_plus(s@.subrange(b as int, n as int)),
        decreases n - b,
    {
        assert(s@.subrange(b as int, n as int).drop_first() =~= s@.subrange(b + 1, n as int));
        b = b + 1;
    }
    let mut out: Vec<char> = Vec::new();
    let mut i: usize = b;
    while i < n
        invariant
            n == cs@.len(),
            cs@ == s@,
            b <= i <= n,
            out@ == s@.subrange(b as int, i as int),
        decreases n - i,
    {
        out.push(cs[i]);
        i = i + 1;
        assert(out@ =~= s@.subrange(b as int, i as int));
    }
    string_from_chars(&out)
}

/// Reads the text `s` in base `base` for `toNumber`, as `parse_number_base_spec` describes.
pub fn parse_number_base(s: &str, base: i64) -> (r: Result<BaseParse, JsonFormulaError>)
    ensures
        match parse_number_base_spec(s@, base as int) {
            Ok(m) => r matches Ok(p) && p@ == m,
            Err(msg) => r matches Err(e) && e.kind == JsonFormulaErrorKind::EvaluationError && e.message@ == msg,
        },
{
    let trimmed = trim_text(s);
    if chars_vec(trimmed.as_str()).len() == 0 {
        return Ok(BaseParse::Blank);
    }
    if base == 10 {
        return Ok(BaseParse::Decimal);
    }
    let matched = if base == 2 {
        regex_is_match("^\\s*(\\+|-)?[01.]+\\s*$", s)
    } else if base == 8 {
        regex_is_match("^\\s*(\\+|-)?[0-7.]+\\s*$", s)
    } else if base == 16 {
        regex_is_match("^\\s*(\\+|-)?[0-9A-Fa-f.]+\\s*$", s)
    } else {
        let a = concat_str("Invalid base: \"", signed_decimal_string(base).as_str());
        return Err(JsonFormulaError::evaluation(concat_str(a.as_str(), "\" for toNumber()")));
    };
    let a = concat_str("Failed to convert \"", s);
    let b = concat_str(a.as_str(), "\" base \"");
    let c = concat_str(b.as_str(), signed_decimal_string(base).as_str());
    let note = concat_str(c.as_str(), "\" to number");
    if !matched {
        return Ok(BaseParse::Unparsed(note));
    }
    let raw = split_text(s, ".");
    proof {
        reveal_strlit(".");
        lemma_split_from_nonempty(s@, "."@, 0, 0);
    }
    let ghost rawv = raw@.map_values(|p: String| p@);
    assert(rawv.len() == raw@.len());
    if raw.len() > 2 {
        return Ok(BaseParse::Unparsed(note));
    }
    let radix: u32 = if base == 2 { 2 } else if base == 8 { 8 } else { 16 };
    let first = trim_text(raw[0].as_str());
    let digits = strip_plus_text(first.as_str());
    let int_part = match read_i64_radix(digits.as_str(), radix) {
        Some(v) => v,
        None => return Err(JsonFormulaError::evaluation(String::from_str("Invalid base"))),
    };
    if raw.len() == 2 {
        let second = trim_text(raw[1].as_str());
        let f = match read_i64_radix(second.as_str(), radix) {
            Some(v) => v,
            None => 0,
        };
        let count = crate::text::chars_vec(second.as_str()).len();
        Ok(BaseParse::Parts { int_part, fraction: Some((f, count)) })
    } else {
        Ok(BaseParse::Parts { int_part, fraction: None })
    }
}

} // verus!
