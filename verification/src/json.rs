use vstd::prelude::*;

verus! {

#[verifier::external_type_specification]
#[verifier::external_body]
pub struct ExJsonValue(json::JsonValue);

/// The mathematical value of a JSON document as the `json` crate holds it.
/// Both of its string representations are `Str`; a number is its parts
/// (positive, mantissa, decimal exponent).
pub enum JsonView {
    Null,
    Str(Seq<char>),
    Number(bool, u64, i16),
    Boolean(bool),
    Object(Seq<(Seq<char>, JsonView)>),
    Array(Seq<JsonView>),
}

/// What a `json::JsonValue` holds.
pub uninterp spec fn json_view(v: json::JsonValue) -> JsonView;

/// The document that `json::parse` makes of `text`, or `None` when it is not valid JSON.
pub uninterp spec fn json_parse_result(text: Seq<char>) -> Option<JsonView>;

/// The value of the first entry named `key`, or `Null`.
pub open spec fn spec_entry(entries: Seq<(Seq<char>, JsonView)>, key: Seq<char>) -> JsonView
    decreases entries.len(),
{
    if entries.len() == 0 {
        JsonView::Null
    } else if entries[0].0 == key {
        entries[0].1
    } else {
        spec_entry(entries.drop_first(), key)
    }
}

/// `value[key]`: the member of an object, `Null` for anything else.
pub open spec fn spec_get(v: JsonView, key: Seq<char>) -> JsonView {
    match v {
        JsonView::Object(entries) => spec_entry(entries, key),
        _ => JsonView::Null,
    }
}

/// `value[i]`: the element of an array, `Null` past its end or for anything else.
pub open spec fn spec_at(v: JsonView, i: nat) -> JsonView {
    match v {
        JsonView::Array(a) => if i < a.len() { a[i as int] } else { JsonView::Null },
        _ => JsonView::Null,
    }
}

/// The elements of an array; nothing for anything else.
pub open spec fn spec_members(v: JsonView) -> Seq<JsonView> {
    match v {
        JsonView::Array(a) => a,
        _ => seq![],
    }
}

/// The text of a string value.
pub open spec fn spec_as_str(v: JsonView) -> Option<Seq<char>> {
    match v {
        JsonView::Str(s) => Some(s),
        _ => None,
    }
}

/// A non-negative integer written without exponent.
pub open spec fn spec_as_u64(v: JsonView) -> Option<u64> {
    match v {
        JsonView::Number(positive, mantissa, exponent) => if positive && exponent == 0 { Some(mantissa) } else { None },
        _ => None,
    }
}

/// `spec_as_u64`, where it fits in `usize`.
pub open spec fn spec_as_usize(v: JsonView) -> Option<usize> {
    match spec_as_u64(v) {
        Some(n) => if n <= usize::MAX { Some(n as usize) } else { None },
        None => None,
    }
}

/// The value of a boolean.
pub open spec fn spec_as_bool(v: JsonView) -> Option<bool> {
    match v {
        JsonView::Boolean(b) => Some(b),
        _ => None,
    }
}

/// Whether a byte is an ASCII digit.
pub open spec fn spec_is_digit(b: u8) -> bool {
    48u8 <= b <= 57u8
}

/// The number of digits in `bytes` from position `k` on, up to the first byte
/// that is no digit.
pub open spec fn spec_digit_run(bytes: Seq<u8>, k: int) -> nat
    decreases bytes.len() - k,
{
    if 0 <= k < bytes.len() && spec_is_digit(bytes[k]) {
        1 + spec_digit_run(bytes, k + 1)
    } else {
        0
    }
}

/// The most digits that may follow the point of a number in text handed to
/// the JSON parser.
pub const MAX_FRACTION_DIGITS: usize = 32768;

/// Where a scan of JSON text stands after a byte, given where it stood
/// before: outside strings (0), inside a string (1), or inside a string
/// right after a backslash (2).
pub open spec fn spec_scan_next(state: u8, b: u8) -> u8 {
    if state == 0 {
        if b == 34u8 { 1 } else { 0 }
    } else if state == 1 {
        if b == 92u8 { 2 } else if b == 34u8 { 0 } else { 1 }
    } else {
        1
    }
}

/// Where a scan of `bytes` from the start stands before the byte at `i`.
pub open spec fn spec_scan_state(bytes: Seq<u8>, i: int) -> u8
    decreases i,
{
    if i <= 0 || i > bytes.len() {
        0
    } else {
        spec_scan_next(spec_scan_state(bytes, i - 1), bytes[i - 1])
    }
}

/// The byte at `i` is a `.` after a digit, outside strings: the point of a
/// number, after which the parser counts fraction digits.
pub open spec fn spec_number_point(bytes: Seq<u8>, i: int) -> bool {
    &&& 0 < i < bytes.len()
    &&& bytes[i] == 46u8
    &&& spec_is_digit(bytes[i - 1])
    &&& spec_scan_state(bytes, i) == 0
}

/// No point of a number in the UTF-8 encoding of `text` (see
/// [`spec_number_point`]) is followed by more than [`MAX_FRACTION_DIGITS`]
/// digits in a row. The parser of the `json` crate lowers an `i16` decimal
/// exponent by one for each digit of a fraction while the mantissa stays
/// small (as it does for zeros), so a longer run of digits after the point
/// overflows that exponent. Text the parser reads up to such a fraction is
/// scanned as the parser reads it; where the parser fails earlier, the
/// condition may still refuse the text.
pub open spec fn spec_fractions_fit(text: Seq<char>) -> bool {
    let bytes = vstd::utf8::encode_utf8(text);
    forall|i: int|
        #![trigger spec_number_point(bytes, i)]
        spec_number_point(bytes, i) ==> spec_digit_run(bytes, i + 1) <= MAX_FRACTION_DIGITS
}

/// Whether `text` may be handed to the JSON parser: see [`spec_fractions_fit`].
pub fn fractions_fit(text: &str) -> (r: bool)
    ensures
        r == spec_fractions_fit(text@),
{
    let bytes = text.as_bytes();
    let ghost bs = vstd::utf8::encode_utf8(text@);
    let n = bytes.len();
    let mut points: Vec<bool> = Vec::new();
    let mut state: u8 = 0;
    let mut i: usize = 0;
    while i < n
        invariant
            bs == vstd::utf8::encode_utf8(text@),
            bytes@ == bs,
            n == bs.len(),
            i <= n,
            state == spec_scan_state(bs, i as int),
            points@.len() == i,
            forall|j: int| 0 <= j < i ==> points@[j] == spec_number_point(bs, j),
        decreases n - i,
    {
        let b = bytes[i];
        let point = b == 46u8 && i > 0 && 48u8 <= bytes[i - 1] && bytes[i - 1] <= 57u8 && state == 0;
        points.push(point);
        state = if state == 0 {
            if b == 34u8 { 1 } else { 0 }
        } else if state == 1 {
            if b == 92u8 { 2 } else if b == 34u8 { 0 } else { 1 }
        } else {
            1
        };
        i = i + 1;
    }
    let mut run: usize = 0;
    while i > 0
        invariant
            bs == vstd::utf8::encode_utf8(text@),
            bytes@ == bs,
            n == bs.len(),
            i <= n,
            points@.len() == n,
            forall|j: int| 0 <= j < n ==> points@[j] == spec_number_point(bs, j),
            run == spec_digit_run(bs, i as int),
            run <= n - i,
            forall|j: int| #![trigger spec_number_point(bs, j)] i <= j < n && spec_number_point(bs, j)
                ==> spec_digit_run(bs, j + 1) <= MAX_FRACTION_DIGITS,
        decreases i,
    {
        i = i - 1;
        let b = bytes[i];
        if points[i] && run > MAX_FRACTION_DIGITS {
            assert(spec_number_point(bs, i as int) && spec_digit_run(bs, i + 1) > MAX_FRACTION_DIGITS);
            return false;
        }
        if 48u8 <= b && b <= 57u8 {
            run = run + 1;
        } else {
            run = 0;
        }
    }
    proof {
        assert forall|j: int| #![trigger spec_number_point(bs, j)] spec_number_point(bs, j)
            implies spec_digit_run(bs, j + 1) <= MAX_FRACTION_DIGITS by {}
    }
    true
}

/// `json::parse`: the document `text` holds, or the parser's message. Text
/// with a number whose fraction has more digits than [`MAX_FRACTION_DIGITS`]
/// is left out: there the parser's `i16` exponent overflows, which panics
/// where overflow checks are on.
#[verifier::external_body]
pub(crate) fn json_parse(text: &str) -> (r: Result<json::JsonValue, String>)
    requires
        spec_fractions_fit(text@),
    ensures
        (r is Ok) == (json_parse_result(text@) is Some),
        r matches Ok(v) ==> json_view(v) == json_parse_result(text@)->0,
{
    json::parse(text).map_err(|e| e.to_string())
}

/// `Index<&str>` of `json::JsonValue`: the member `key` of an object, `Null` otherwise.
#[verifier::external_body]
pub(crate) fn json_get<'a>(v: &'a json::JsonValue, key: &str) -> (r: &'a json::JsonValue)
    ensures
        json_view(*r) == spec_get(json_view(*v), key@),
{
    &v[key]
}

/// `Index<usize>` of `json::JsonValue`: element `i` of an array, `Null` otherwise.
#[verifier::external_body]
pub(crate) fn json_at(v: &json::JsonValue, i: usize) -> (r: &json::JsonValue)
    ensures
        json_view(*r) == spec_at(json_view(*v), i as nat),
{
    &v[i]
}

/// `JsonValue::is_array`.
#[verifier::external_body]
pub(crate) fn json_is_array(v: &json::JsonValue) -> (r: bool)
    ensures
        r == (json_view(*v) is Array),
{
    v.is_array()
}

/// `JsonValue::len`: the number of elements of an array (or entries of an object; 0 otherwise).
#[verifier::external_body]
pub(crate) fn json_len(v: &json::JsonValue) -> (r: usize)
    ensures
        json_view(*v) matches JsonView::Array(a) ==> r == a.len(),
        json_view(*v) matches JsonView::Object(o) ==> r == o.len(),
        !(json_view(*v) is Array) && !(json_view(*v) is Object) ==> r == 0,
{
    v.len()
}

/// `JsonValue::as_str`, as an owned string.
#[verifier::external_body]
pub(crate) fn json_as_str(v: &json::JsonValue) -> (r: Option<String>)
    ensures
        r.deep_view() == spec_as_str(json_view(*v)),
{
    v.as_str().map(|s| s.to_string())
}

/// `JsonValue::as_u64`.
#[verifier::external_body]
pub(crate) fn json_as_u64(v: &json::JsonValue) -> (r: Option<u64>)
    ensures
        r == spec_as_u64(json_view(*v)),
{
    v.as_u64()
}

/// `JsonValue::as_usize`.
#[verifier::external_body]
pub(crate) fn json_as_usize(v: &json::JsonValue) -> (r: Option<usize>)
    ensures
        r == spec_as_usize(json_view(*v)),
{
    v.as_usize()
}

/// `JsonValue::as_bool`.
#[verifier::external_body]
pub(crate) fn json_as_bool(v: &json::JsonValue) -> (r: Option<bool>)
    ensures
        r == spec_as_bool(json_view(*v)),
{
    v.as_bool()
}

} // verus!
