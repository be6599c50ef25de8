//! What the comparison and logical instructions compute on values.

use crate::expr::ComparisonOp;
use crate::text::{as_utf8, bytes_contains, lowercase_text, occurs_in, to_lowercase, utf8};
use crate::types::{lemma_array_value, values_of, LiteralValue, SpecValue};
use vstd::prelude::*;
use vstd::string::*;
use vstd::utf8::*;

verus! {

/// The truth value of a value: a boolean is itself, an integer is true
/// unless zero, a byte string and an address are true, an array and a
/// mapping are true unless empty.
pub open spec fn truthy(v: SpecValue) -> bool {
    match v {
        SpecValue::Bool(b) => b,
        SpecValue::Int(i) => i != 0,
        SpecValue::Bytes(_) => true,
        SpecValue::Ip(_) => true,
        SpecValue::Array(items) => items.len() > 0,
        SpecValue::Mapping(entries) => entries.len() > 0,
    }
}

/// The truth value of a value.
pub fn to_bool(val: &LiteralValue) -> (r: bool)
    ensures
        r == truthy(val@),
{
    match val {
        LiteralValue::Bool(b) => *b,
        LiteralValue::Int(i) => *i != 0,
        LiteralValue::Bytes(_) => true,
        LiteralValue::Array(items) => items.len() > 0,
        LiteralValue::Ip(_) => true,
        LiteralValue::Mapping(map) => !map.is_empty(),
    }
}

/// An order comparison: the numeric order of two integers. Between any
/// other values, and for an operator that is no order, it is false.
pub open spec fn ordered(op: ComparisonOp, a: SpecValue, b: SpecValue) -> bool {
    match (a, b) {
        (SpecValue::Int(x), SpecValue::Int(y)) => match op {
            ComparisonOp::Lt => x < y,
            ComparisonOp::Lte => x <= y,
            ComparisonOp::Gt => x > y,
            ComparisonOp::Gte => x >= y,
            _ => false,
        },
        _ => false,
    }
}

/// Whether `a` is one of the items of the array `b`; false where `b` is no
/// array.
pub open spec fn member_of(a: SpecValue, b: SpecValue) -> bool {
    match b {
        SpecValue::Array(items) => items.contains(a),
        _ => false,
    }
}

/// Whether the regular expression `pattern` matches somewhere in `text`;
/// `None` where `pattern` is no regular expression.
pub uninterp spec fn regex_search(pattern: Seq<char>, text: Seq<char>) -> Option<bool>;

/// Whether a text matches a regular expression: both are byte strings of
/// well-formed UTF-8, the pattern is a regular expression, and it matches
/// somewhere in the text.
pub open spec fn matches_pattern(a: SpecValue, b: SpecValue) -> bool {
    match (a, b) {
        (SpecValue::Bytes(text), SpecValue::Bytes(pattern)) => valid_utf8(text) && valid_utf8(
            pattern,
        ) && regex_search(decode_utf8(pattern), decode_utf8(text)) == Some(true),
        _ => false,
    }
}

/// Whether the bytes of `s` from `i` on match the glob pattern `p` from `j`
/// on. In a pattern `*` stands for any run of bytes, the empty one too;
/// every other byte stands for itself.
pub open spec fn glob_from(s: Seq<u8>, i: int, p: Seq<u8>, j: int) -> bool
    decreases p.len() - j, s.len() - i,
{
    if j < 0 || i < 0 || j > p.len() || i > s.len() {
        false
    } else if j == p.len() {
        i == s.len()
    } else if p[j] == 0x2A {
        glob_from(s, i, p, j + 1) || (i < s.len() && glob_from(s, i + 1, p, j))
    } else {
        i < s.len() && s[i] == p[j] && glob_from(s, i + 1, p, j + 1)
    }
}

/// Whether the bytes `s` match the glob pattern `p`.
pub open spec fn glob_matches(s: Seq<u8>, p: Seq<u8>) -> bool {
    glob_from(s, 0, p, 0)
}

/// A pattern of stars alone matches every byte string.
pub proof fn lemma_stars_match_all(s: Seq<u8>, i: int, p: Seq<u8>, j: int)
    requires
        0 <= i <= s.len(),
        0 <= j <= p.len(),
        forall|k: int| j <= k < p.len() ==> p[k] == 0x2A,
    ensures
        glob_from(s, i, p, j) == (j < p.len() || i == s.len()),
    decreases p.len() - j, s.len() - i,
{
    if j < p.len() {
        lemma_stars_match_all(s, i, p, j + 1);
        if i < s.len() {
            lemma_stars_match_all(s, i + 1, p, j);
        }
    }
}

/// A pattern without a star matches the byte string that is equal to it,
/// and no other.
pub proof fn lemma_plain_pattern(s: Seq<u8>, i: int, p: Seq<u8>, j: int)
    requires
        0 <= i <= s.len(),
        0 <= j <= p.len(),
        forall|k: int| j <= k < p.len() ==> p[k] != 0x2A,
    ensures
        glob_from(s, i, p, j) == (s.subrange(i, s.len() as int) == p.subrange(j, p.len() as int)),
    decreases p.len() - j,
{
    let rest_s = s.subrange(i, s.len() as int);
    let rest_p = p.subrange(j, p.len() as int);
    if j < p.len() && i < s.len() {
        lemma_plain_pattern(s, i + 1, p, j + 1);
        let next_s = s.subrange(i + 1, s.len() as int);
        let next_p = p.subrange(j + 1, p.len() as int);
        if rest_s == rest_p {
            assert(rest_s[0] == rest_p[0]);
            assert(next_s =~= rest_s.subrange(1, rest_s.len() as int));
            assert(next_p =~= rest_p.subrange(1, rest_p.len() as int));
        }
        if s[i] == p[j] && next_s == next_p {
            assert(rest_s =~= seq![s[i]] + next_s);
            assert(rest_p =~= seq![p[j]] + next_p);
        }
        if s[i] != p[j] {
            assert(rest_s[0] != rest_p[0]);
        }
    } else {
        assert(rest_s.len() == s.len() - i);
        assert(rest_p.len() == p.len() - j);
        if rest_s.len() == 0 && rest_p.len() == 0 {
            assert(rest_s =~= rest_p);
        }
    }
}

/// A star after a star adds nothing: two stars match what one matches.
pub proof fn lemma_adjacent_stars(s: Seq<u8>, i: int, p: Seq<u8>, j: int)
    requires
        0 <= i <= s.len(),
        0 <= j,
        j + 1 < p.len(),
        p[j] == 0x2A,
        p[j + 1] == 0x2A,
    ensures
        glob_from(s, i, p, j) == glob_from(s, i, p, j + 1),
    decreases s.len() - i,
{
    if i < s.len() {
        lemma_adjacent_stars(s, i + 1, p, j);
    }
}

/// Whether a text matches a glob pattern; without `strict`, both are
/// brought to lowercase first.
pub open spec fn text_wildcard(text: Seq<char>, pattern: Seq<char>, strict: bool) -> bool {
    if strict {
        glob_matches(utf8(text), utf8(pattern))
    } else {
        glob_matches(utf8(lowercase_text(text)), utf8(lowercase_text(pattern)))
    }
}

/// Whether a value matches a glob pattern: both are byte strings of
/// well-formed UTF-8, and the text matches the pattern.
pub open spec fn wildcard(a: SpecValue, b: SpecValue, strict: bool) -> bool {
    match (a, b) {
        (SpecValue::Bytes(text), SpecValue::Bytes(pattern)) => valid_utf8(text) && valid_utf8(
            pattern,
        ) && text_wildcard(decode_utf8(text), decode_utf8(pattern), strict),
        _ => false,
    }
}

/// Containment: of a text in a text, both byte strings of well-formed
/// UTF-8, or of a value in an array.
pub open spec fn contains(a: SpecValue, b: SpecValue) -> bool {
    match (a, b) {
        (SpecValue::Bytes(hay), SpecValue::Bytes(needle)) => valid_utf8(hay) && valid_utf8(needle)
            && occurs_in(hay, needle),
        (SpecValue::Array(items), x) => items.contains(x),
        _ => false,
    }
}

/// What a comparison gives for a left and a right operand.
pub open spec fn compare(op: ComparisonOp, left: SpecValue, right: SpecValue) -> bool {
    match op {
        ComparisonOp::Eq => left == right,
        ComparisonOp::Neq => left != right,
        ComparisonOp::Lt | ComparisonOp::Lte | ComparisonOp::Gt | ComparisonOp::Gte => ordered(
            op,
            left,
            right,
        ),
        ComparisonOp::In => member_of(left, right),
        ComparisonOp::NotIn => !member_of(left, right),
        ComparisonOp::Matches => matches_pattern(left, right),
        ComparisonOp::Wildcard => wildcard(left, right, false),
        ComparisonOp::StrictWildcard => wildcard(left, right, true),
        ComparisonOp::Contains => contains(left, right),
    }
}

/// Whether a value equal to `x` is among the items.
pub fn has_item(items: &Vec<LiteralValue>, x: &LiteralValue) -> (r: bool)
    ensures
        r == values_of(items@).contains(x@),
{
    let ghost views = values_of(items@);
    let mut i: usize = 0;
    while i < items.len()
        invariant
            views == values_of(items@),
            i <= items@.len(),
            forall|k: int| 0 <= k < i ==> #[trigger] views[k] != x@,
        decreases items@.len() - i,
    {
        assert(views[i as int] == items@[i as int]@);
        if (&items[i]).same_as(x) {
            return true;
        }
        i += 1;
    }
    false
}

/// The order comparison `op` of two values.
pub fn cmp_ord(a: &LiteralValue, b: &LiteralValue, op: ComparisonOp) -> (r: bool)
    ensures
        r == ordered(op, a@, b@),
{
    match (a, b) {
        (LiteralValue::Int(x), LiteralValue::Int(y)) => match op {
            ComparisonOp::Lt => *x < *y,
            ComparisonOp::Lte => *x <= *y,
            ComparisonOp::Gt => *x > *y,
            ComparisonOp::Gte => *x >= *y,
            _ => false,
        },
        _ => false,
    }
}

/// Whether `a` is one of the items of the array `b`.
pub fn cmp_in(a: &LiteralValue, b: &LiteralValue) -> (r: bool)
    ensures
        r == member_of(a@, b@),
{
    match b {
        LiteralValue::Array(items) => {
            proof {
                lemma_array_value(*items);
            }
            has_item(items, a)
        },
        _ => false,
    }
}

/// Asks the regular-expression engine.
///
/// Wraps `regex::Regex::new` and `Regex::is_match`: `None` where the
/// pattern does not compile, else whether the compiled pattern matches
/// somewhere in the text.
#[verifier::external_body]
fn regex_is_match(pattern: &str, text: &str) -> (r: Option<bool>)
    ensures
        r == regex_search(pattern@, text@),
{
    match regex::Regex::new(pattern) {
        Ok(re) => Some(re.is_match(text)),
        Err(_) => None,
    }
}

/// What a pattern match is, given the answer of the regular-expression
/// engine: a pattern that is no regular expression matches nothing.
pub fn match_found(answer: Option<bool>) -> (r: bool)
    ensures
        r == (answer == Some(true)),
{
    match answer {
        Some(found) => found,
        None => false,
    }
}

/// Whether the text `a` matches the regular expression `b`.
pub fn cmp_matches(a: &LiteralValue, b: &LiteralValue) -> (r: bool)
    ensures
        r == matches_pattern(a@, b@),
{
    match (a, b) {
        (LiteralValue::Bytes(bytes), LiteralValue::Bytes(pattern)) => {
            match as_utf8(bytes.as_slice()) {
                Some(text) => match as_utf8(pattern.as_slice()) {
                    Some(pat) => {
                        proof {
                            encode_utf8_decode_utf8(text@);
                            encode_utf8_decode_utf8(pat@);
                        }
                        match_found(regex_is_match(pat, text))
                    },
                    None => false,
                },
                None => false,
            }
        },
        _ => false,
    }
}

/// Whether the bytes `s` match the glob pattern `pat`. The time is
/// proportional to the product of the two lengths.
pub fn wildcard_match_bytes(s: &[u8], pat: &[u8]) -> (r: bool)
    ensures
        r == glob_matches(s@, pat@),
{
    let n = s.len();
    let m = pat.len();
    // `reach[i]` tells whether `s` from `i` on matches `pat` from `j` on.
    let mut reach: Vec<bool> = Vec::new();
    let mut i: usize = 0;
    while i < n
        invariant
            n == s@.len(),
            m == pat@.len(),
            i <= n,
            reach@.len() == i,
            forall|k: int| 0 <= k < i ==> #[trigger] reach@[k] == glob_from(s@, k, pat@, m as int),
        decreases n - i,
    {
        reach.push(false);
        i += 1;
    }
    reach.push(true);
    let mut j: usize = m;
    while j > 0
        invariant
            n == s@.len(),
            m == pat@.len(),
            j <= m,
            reach@.len() == n + 1,
            forall|k: int| 0 <= k <= n ==> #[trigger] reach@[k] == glob_from(s@, k, pat@, j as int),
        decreases j,
    {
        j -= 1;
        let ghost before = reach@;
        if pat[j] == 0x2A {
            // A star: the rest matches from here, or one more byte is taken.
            let mut k: usize = n;
            while k > 0
                invariant
                    n == s@.len(),
                    m == pat@.len(),
                    j < m,
                    k <= n,
                    pat@[j as int] == 0x2A,
                    reach@.len() == n + 1,
                    before.len() == n + 1,
                    forall|t: int| 0 <= t <= n ==> #[trigger] before[t] == glob_from(
                        s@,
                        t,
                        pat@,
                        j + 1,
                    ),
                    forall|t: int| 0 <= t < k ==> #[trigger] reach@[t] == before[t],
                    forall|t: int| k <= t <= n ==> #[trigger] reach@[t] == glob_from(
                        s@,
                        t,
                        pat@,
                        j as int,
                    ),
                decreases k,
            {
                k -= 1;
                let next = reach[k] || reach[k + 1];
                reach.set(k, next);
            }
        } else {
            // Another byte: it must stand here, and the rest match after it.
            let mut k: usize = 0;
            while k < n
                invariant
                    n == s@.len(),
                    m == pat@.len(),
                    j < m,
                    k <= n,
                    pat@[j as int] != 0x2A,
                    reach@.len() == n + 1,
                    before.len() == n + 1,
                    forall|t: int| 0 <= t <= n ==> #[trigger] before[t] == glob_from(
                        s@,
                        t,
                        pat@,
                        j + 1,
                    ),
                    forall|t: int| k <= t <= n ==> #[trigger] reach@[t] == before[t],
                    forall|t: int| 0 <= t < k ==> #[trigger] reach@[t] == glob_from(
                        s@,
                        t,
                        pat@,
                        j as int,
                    ),
                decreases n - k,
            {
                let next = s[k] == pat[j] && reach[k + 1];
                reach.set(k, next);
                k += 1;
            }
            reach.set(n, false);
        }
    }
    reach[0]
}

/// Whether the text `s` matches the glob pattern `pat`, byte by byte.
pub fn wildcard_match_inner(s: &str, pat: &str) -> (r: bool)
    ensures
        r == glob_matches(utf8(s@), utf8(pat@)),
{
    wildcard_match_bytes(s.as_bytes(), pat.as_bytes())
}

/// Whether the text `s` matches the glob pattern `pat`; unless
/// `case_sensitive`, both are brought to lowercase first.
pub fn wildcard_match(s: &str, pat: &str, case_sensitive: bool) -> (r: bool)
    ensures
        r == text_wildcard(s@, pat@, case_sensitive),
{
    if case_sensitive {
        wildcard_match_inner(s, pat)
    } else {
        let lower_s = to_lowercase(s);
        let lower_pat = to_lowercase(pat);
        wildcard_match_inner(lower_s.as_str(), lower_pat.as_str())
    }
}

/// Whether the text `a` matches the glob pattern `b`.
pub fn cmp_wildcard(a: &LiteralValue, b: &LiteralValue, case_sensitive: bool) -> (r: bool)
    ensures
        r == wildcard(a@, b@, case_sensitive),
{
    match (a, b) {
        (LiteralValue::Bytes(bytes), LiteralValue::Bytes(pattern)) => {
            match as_utf8(bytes.as_slice()) {
                Some(text) => match as_utf8(pattern.as_slice()) {
                    Some(pat) => {
                        proof {
                            encode_utf8_decode_utf8(text@);
                            encode_utf8_decode_utf8(pat@);
                        }
                        wildcard_match(text, pat, case_sensitive)
                    },
                    None => false,
                },
                None => false,
            }
        },
        _ => false,
    }
}

/// Whether the text `a` holds the text `b`, or the array `a` the value
/// `b`.
pub fn cmp_contains(a: &LiteralValue, b: &LiteralValue) -> (r: bool)
    ensures
        r == contains(a@, b@),
{
    match a {
        LiteralValue::Bytes(hay) => match b {
            LiteralValue::Bytes(needle) => {
                match as_utf8(hay.as_slice()) {
                    Some(h) => match as_utf8(needle.as_slice()) {
                        Some(n) => bytes_contains(h.as_bytes(), n.as_bytes()),
                        None => false,
                    },
                    None => false,
                }
            },
            _ => false,
        },
        LiteralValue::Array(items) => {
            proof {
                lemma_array_value(*items);
            }
            has_item(items, b)
        },
        _ => false,
    }
}

/// What a comparison gives for a left and a right operand.
pub fn compare_values(op: ComparisonOp, left: &LiteralValue, right: &LiteralValue) -> (r: bool)
    ensures
        r == compare(op, left@, right@),
{
    match op {
        ComparisonOp::Eq => left.same_as(right),
        ComparisonOp::Neq => !left.same_as(right),
        ComparisonOp::Lt => cmp_ord(left, right, op),
        ComparisonOp::Lte => cmp_ord(left, right, op),
        ComparisonOp::Gt => cmp_ord(left, right, op),
        ComparisonOp::Gte => cmp_ord(left, right, op),
        ComparisonOp::In => cmp_in(left, right),
        ComparisonOp::NotIn => !cmp_in(left, right),
        ComparisonOp::Matches => cmp_matches(left, right),
        ComparisonOp::Wildcard => cmp_wildcard(left, right, false),
        ComparisonOp::StrictWildcard => cmp_wildcard(left, right, true),
        ComparisonOp::Contains => cmp_contains(left, right),
    }
}

} // verus!
