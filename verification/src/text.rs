use vstd::prelude::*;

verus! {

/// An owned copy of `s`.
pub fn owned(s: &str) -> (r: String)
    ensures
        r@ == s@,
{
    let mut r = String::new();
    r.append(s);
    r
}

/// `a` followed by `b`.
pub fn concat(a: &String, b: &str) -> (r: String)
    ensures
        r@ == a@ + b@,
{
    let mut r = a.clone();
    r.append(b);
    r
}

/// A copy of an optional string.
pub fn copy_opt(o: &Option<String>) -> (r: Option<String>)
    ensures
        r.deep_view() == o.deep_view(),
{
    match o {
        Some(s) => Some(s.clone()),
        None => None,
    }
}

/// Whether two optional strings hold the same text (both absent counts as equal).
pub fn opt_eq(a: &Option<String>, b: &Option<String>) -> (r: bool)
    ensures
        r == (a.deep_view() == b.deep_view()),
{
    match a {
        Some(x) => match b {
            Some(y) => {
                let e = x.eq(y);
                e
            },
            None => false,
        },
        None => b.is_none(),
    }
}

} // verus!

verus! {

/// `s` with every `\` turned into `/`.
pub open spec fn spec_slashes(s: Seq<char>) -> Seq<char> {
    s.map_values(|c: char| if c == '\\' { '/' } else { c })
}

/// `String::push` of std: appends one character.
#[verifier::external_body]
pub(crate) fn push_char(s: &mut String, c: char)
    ensures
        final(s)@ == old(s)@.push(c),
{
    s.push(c)
}

/// `s` with every `\` turned into `/`.
pub fn to_slashes(s: &str) -> (r: String)
    ensures
        r@ == spec_slashes(s@),
{
    broadcast use vstd::string::group_string_axioms;
    let mut r = String::new();
    for c in it: s.chars()
        invariant
            it.seq() == s@,
            r@ == spec_slashes(s@.subrange(0, it.index() as int)),
    {
        proof { assert(s@.subrange(0, it.index() + 1) =~= s@.subrange(0, it.index() as int).push(c)); }
        push_char(&mut r, if c == '\\' { '/' } else { c });
        proof {
            assert(spec_slashes(s@.subrange(0, it.index() + 1)) =~= spec_slashes(s@.subrange(0, it.index() as int))
                .push(if c == '\\' { '/' } else { c }));
        }
    }
    proof { assert(s@.subrange(0, s@.len() as int) =~= s@); }
    r
}

} // verus!

verus! {

/// The decimal digit of `n` (below 10).
pub open spec fn spec_digit(n: nat) -> char {
    ((n + 48) as u8) as char
}

/// The decimal representation of `n`, without leading zeros.
pub open spec fn spec_decimal(n: nat) -> Seq<char>
    decreases n,
{
    if n < 10 {
        seq![spec_digit(n)]
    } else {
        spec_decimal(n / 10).push(spec_digit(n % 10))
    }
}

/// Appends the decimal representation of `n` to `s`.
pub fn push_decimal(s: &mut String, n: u64)
    ensures
        final(s)@ == old(s)@ + spec_decimal(n as nat),
    decreases n,
{
    if n >= 10 {
        push_decimal(s, n / 10);
    }
    let d = (n % 10) as u8;
    push_char(s, (d + 48) as char);
    proof {
        if n < 10 {
            assert(spec_decimal(n as nat) == seq![spec_digit(n as nat)]);
        }
    }
}

/// The decimal representation of `n`.
pub fn decimal(n: u64) -> (r: String)
    ensures
        r@ == spec_decimal(n as nat),
{
    let mut s = String::new();
    push_decimal(&mut s, n);
    proof { assert(Seq::<char>::empty() + spec_decimal(n as nat) =~= spec_decimal(n as nat)); }
    s
}

} // verus!
