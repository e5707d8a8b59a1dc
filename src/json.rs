use rustc_serialize::json::Json;
use vstd::prelude::*;
use vstd::string::StrSliceExecFns;

verus! {

/// A JSON document as the decoder reads it. Numbers keep their integer value;
/// a fractional number is only marked as such, since nothing here reads one.
#[derive(Debug)]
pub enum JsonValue {
    Null,
    Bool(bool),
    Int(i64),
    UInt(u64),
    Fraction,
    Str(String),
    Array(Vec<JsonValue>),
    Object(Vec<(String, JsonValue)>),
}

/// Most `[` and `{` a text may hold before it is given to the parser, whose
/// builder descends once per level of nesting.
pub const MAX_OPENERS: usize = 512;

/// Digits the parser can add up in an exponent without overflowing.
pub const MAX_EXPONENT_DIGITS: usize = 19;

pub open spec fn is_digit(c: char) -> bool {
    '0' <= c <= '9'
}

/// A run of more than `MAX_EXPONENT_DIGITS` digits starts at `i`.
pub open spec fn long_digit_run(t: Seq<char>, i: int) -> bool {
    0 <= i && i + MAX_EXPONENT_DIGITS < t.len() && forall|j: int|
        i <= j <= i + MAX_EXPONENT_DIGITS ==> is_digit(#[trigger] t[j])
}

/// An exponent marker at `i`, perhaps signed, followed by too many digits.
pub open spec fn long_exponent_at(t: Seq<char>, i: int) -> bool {
    (t[i] == 'e' || t[i] == 'E') && (long_digit_run(t, i + 1) || (i + 1 < t.len() && (t[i + 1]
        == '+' || t[i + 1] == '-') && long_digit_run(t, i + 2)))
}

pub open spec fn has_long_exponent(t: Seq<char>) -> bool {
    exists|i: int| 0 <= i < t.len() && #[trigger] long_exponent_at(t, i)
}

/// How many `[` and `{` a text holds: a bound on its nesting.
pub open spec fn openers(t: Seq<char>) -> nat
    decreases t.len(),
{
    if t.len() == 0 {
        0
    } else {
        openers(t.drop_last()) + if t.last() == '[' || t.last() == '{' {
            1nat
        } else {
            0nat
        }
    }
}

/// Texts the parser reads without overflowing a number or the stack.
pub open spec fn parsable(t: Seq<char>) -> bool {
    !has_long_exponent(t) && openers(t) <= MAX_OPENERS
}

fn long_digit_run_at(t: &str, n: usize, i: usize) -> (r: bool)
    requires
        n == t@.len(),
    ensures
        r == long_digit_run(t@, i as int),
{
    if i >= n || MAX_EXPONENT_DIGITS >= n - i {
        return false;
    }
    let mut j: usize = 0;
    while j <= MAX_EXPONENT_DIGITS
        invariant
            n == t@.len(),
            i + MAX_EXPONENT_DIGITS < n,
            j <= MAX_EXPONENT_DIGITS + 1,
            forall|k: int| i <= k < i + j ==> is_digit(#[trigger] t@[k]),
        decreases MAX_EXPONENT_DIGITS + 1 - j,
    {
        if !is_digit_char(t.get_char(i + j)) {
            return false;
        }
        j = j + 1;
    }
    true
}

fn is_digit_char(c: char) -> (r: bool)
    ensures
        r == is_digit(c),
{
    '0' <= c && c <= '9'
}

/// Whether the parser can be given `t`.
pub fn is_parsable(t: &str) -> (r: bool)
    ensures
        r == parsable(t@),
{
    let n = t.unicode_len();
    let mut count: usize = 0;
    let mut i: usize = 0;
    while i < n
        invariant
            n == t@.len(),
            i <= n,
            count == openers(t@.take(i as int)),
            count <= MAX_OPENERS,
            forall|k: int| 0 <= k < i ==> !#[trigger] long_exponent_at(t@, k),
        decreases n - i,
    {
        let c = t.get_char(i);
        assert(t@.take(i + 1).drop_last() =~= t@.take(i as int));
        if c == 'e' || c == 'E' {
            let signed = i + 1 < n && {
                let s = t.get_char(i + 1);
                s == '+' || s == '-'
            };
            if long_digit_run_at(t, n, i + 1) || (signed && long_digit_run_at(t, n, i + 2)) {
                assert(long_exponent_at(t@, i as int));
                return false;
            }
        }
        if c == '[' || c == '{' {
            if count == MAX_OPENERS {
                proof {
                    lemma_openers_grow(t@, i as int + 1);
                }
                return false;
            }
            count = count + 1;
        }
        i = i + 1;
    }
    assert(t@.take(n as int) =~= t@);
    true
}

proof fn lemma_openers_grow(t: Seq<char>, k: int)
    requires
        0 <= k <= t.len(),
    ensures
        openers(t.take(k)) <= openers(t),
    decreases t.len() - k,
{
    if k < t.len() {
        lemma_openers_grow(t, k + 1);
        assert(t.take(k + 1).drop_last() =~= t.take(k));
    } else {
        assert(t.take(k) =~= t);
    }
}

/// What `Json::from_str` makes of a text: the document, or the parser's
/// diagnostic where the text is not JSON.
pub uninterp spec fn json_of(text: Seq<char>) -> Result<JsonValue, Seq<char>>;

/// Relies on rustc_serialize's Json::from_str: the parsed document, or the
/// parser's diagnostic (its `Display`), depend on the text alone. Texts with
/// an exponent the parser would overflow on, or nested deep enough to
/// exhaust the stack, are left out.
#[verifier::external_body]
pub(crate) fn parse_json(text: &str) -> (r: Result<JsonValue, String>)
    requires
        parsable(text@),
    ensures
        r is Ok <==> json_of(text@) is Ok,
        r is Ok ==> json_of(text@) == Ok::<JsonValue, Seq<char>>(r->Ok_0),
        r is Err ==> json_of(text@) == Err::<JsonValue, Seq<char>>(r->Err_0@),
{
    match Json::from_str(text) {
        Ok(j) => Ok(from_json(&j)),
        Err(e) => Err(e.to_string()),
    }
}

#[verifier::external_type_specification]
#[verifier::external_body]
pub struct ExJson(Json);

/// Relies on the variants of rustc_serialize::json::Json: moves each into the
/// matching variant, objects in the map's key order.
#[verifier::external_body]
fn from_json(j: &Json) -> JsonValue {
    match j {
        Json::Null => JsonValue::Null,
        Json::Boolean(b) => JsonValue::Bool(*b),
        Json::I64(n) => JsonValue::Int(*n),
        Json::U64(n) => JsonValue::UInt(*n),
        Json::F64(_) => JsonValue::Fraction,
        Json::String(s) => JsonValue::Str(s.clone()),
        Json::Array(a) => JsonValue::Array(a.iter().map(from_json).collect()),
        Json::Object(o) => JsonValue::Object(o.iter().map(|(k, v)| (k.clone(), from_json(v))).collect()),
    }
}

} // verus!
