//! The body length that a request's headers declare: the value of its first
//! `content-length` header, matched in any ASCII case and read as a decimal
//! `usize`.
use vstd::prelude::*;
use vstd::utf8::is_ascii_chars;

verus! {

/// ASCII lower case of one byte.
pub open spec fn ascii_lower(b: u8) -> u8 {
    if 65 <= b <= 90 {
        (b + 32) as u8
    } else {
        b
    }
}

/// The bytes of the header name `content-length`.
pub open spec fn content_length_name() -> Seq<u8> {
    seq![99u8, 111, 110, 116, 101, 110, 116, 45, 108, 101, 110, 103, 116, 104]
}

/// Whether an ASCII header name is `content-length`, ignoring ASCII case.
pub open spec fn names_content_length(name: Seq<char>) -> bool {
    &&& name.len() == content_length_name().len()
    &&& forall|i: int|
        0 <= i < name.len() ==> ascii_lower(#[trigger] name[i] as u8) == content_length_name()[i]
}

/// Whether a byte is an ASCII decimal digit.
pub open spec fn is_digit(b: u8) -> bool {
    48 <= b <= 57
}

/// The number that a run of decimal digits writes.
pub open spec fn digits_value(s: Seq<u8>) -> nat
    decreases s.len(),
{
    if s.len() == 0 {
        0
    } else {
        digits_value(s.drop_last()) * 10 + (s.last() - 48) as nat
    }
}

/// The digits of a decimal numeral, after an optional leading `+`.
pub open spec fn unsigned_digits(s: Seq<u8>) -> Seq<u8> {
    if s.len() > 0 && s[0] == 43 {
        s.skip(1)
    } else {
        s
    }
}

/// The `usize` that `s` writes in decimal (an optional `+`, then at least one
/// digit), if it fits.
pub open spec fn decimal_usize(s: Seq<u8>) -> Option<usize> {
    let d = unsigned_digits(s);
    if d.len() > 0 && (forall|i: int| 0 <= i < d.len() ==> is_digit(#[trigger] d[i]))
        && digits_value(d) <= usize::MAX {
        Some(digits_value(d) as usize)
    } else {
        None
    }
}

/// The body length that the headers from index `i` on declare: the value of
/// the first `content-length` header, 0 when there is none, `None` when its
/// value is not a decimal `usize`.
pub open spec fn content_length_from(hs: Seq<(Seq<char>, Seq<u8>)>, i: int) -> Option<usize>
    decreases hs.len() - i,
{
    if i < 0 || i >= hs.len() {
        Some(0)
    } else if names_content_length(hs[i].0) {
        decimal_usize(hs[i].1)
    } else {
        content_length_from(hs, i + 1)
    }
}

/// The body length that a request's headers declare.
pub open spec fn content_length_of(hs: Seq<(Seq<char>, Seq<u8>)>) -> Option<usize> {
    content_length_from(hs, 0)
}

proof fn lemma_digits_prefix(d: Seq<u8>, k: int)
    requires
        0 <= k <= d.len(),
        forall|i: int| 0 <= i < d.len() ==> is_digit(#[trigger] d[i]),
    ensures
        digits_value(d.take(k)) <= digits_value(d),
    decreases d.len(),
{
    if k < d.len() {
        let p = d.drop_last();
        assert(p.take(k) =~= d.take(k));
        lemma_digits_prefix(p, k);
    } else {
        assert(d.take(k) =~= d);
    }
}

/// Reads a decimal `usize` as `str::parse` does on the same bytes.
pub fn parse_decimal(s: &[u8]) -> (r: Option<usize>)
    ensures
        r == decimal_usize(s@),
{
    let start: usize = if s.len() > 0 && s[0] == 43 { 1 } else { 0 };
    let ghost d = unsigned_digits(s@);
    assert(d =~= s@.skip(start as int));
    if start >= s.len() {
        return None;
    }
    let mut acc: usize = 0;
    let mut i: usize = start;
    assert(d.take(0) =~= Seq::<u8>::empty());
    while i < s.len()
        invariant
            start <= i <= s.len(),
            d == s@.skip(start as int),
            d == unsigned_digits(s@),
            d.len() > 0,
            acc == digits_value(d.take(i - start)),
            forall|j: int| 0 <= j < i - start ==> is_digit(#[trigger] d[j]),
        decreases s.len() - i,
    {
        let c = s[i];
        if c < 48 || c > 57 {
            assert(d[i - start] == c);
            assert(!(forall|j: int| 0 <= j < d.len() ==> is_digit(#[trigger] d[j])));
            return None;
        }
        let ghost k = i - start;
        assert(d.take(k + 1).drop_last() =~= d.take(k));
        assert(d[k] == c);
        assert(digits_value(d.take(k + 1)) == acc * 10 + (c - 48));
        let next = match acc.checked_mul(10) {
            Some(m) => m.checked_add((c - 48) as usize),
            None => None,
        };
        match next {
            Some(v) => {
                acc = v;
            },
            None => {
                proof {
                    if forall|j: int| 0 <= j < d.len() ==> is_digit(#[trigger] d[j]) {
                        lemma_digits_prefix(d, k + 1);
                        assert(digits_value(d) > usize::MAX);
                    }
                }
                return None;
            },
        }
        i = i + 1;
    }
    assert(d.take(d.len() as int) =~= d);
    Some(acc)
}

/// Whether an ASCII header name is `content-length`, ignoring ASCII case.
pub(crate) fn is_content_length_name(name: &str) -> (r: bool)
    requires
        is_ascii_chars(name@),
    ensures
        r == names_content_length(name@),
{
    broadcast use vstd::string::is_ascii_spec_bytes;

    let b = name.as_bytes();
    assert(vstd::string::is_ascii(name));
    assert(b@ =~= Seq::new(name@.len(), |i| name@[i] as u8));
    let expected: [u8; 14] = [99u8, 111, 110, 116, 101, 110, 116, 45, 108, 101, 110, 103, 116, 104];
    assert(expected@ =~= content_length_name());
    if b.len() != 14 {
        return false;
    }
    let mut i: usize = 0;
    while i < 14
        invariant
            b@ == Seq::new(name@.len(), |i| name@[i] as u8),
            expected@ == content_length_name(),
            b@.len() == 14,
            name@.len() == 14,
            forall|j: int| 0 <= j < i ==> ascii_lower(#[trigger] name@[j] as u8) == content_length_name()[j],
        decreases 14 - i,
    {
        let x = b[i];
        let lower = if 65 <= x && x <= 90 { x + 32 } else { x };
        if lower != expected[i] {
            return false;
        }
        i = i + 1;
    }
    true
}

/// Headers without a `content-length` header declare an empty body.
pub proof fn lemma_no_content_length(hs: Seq<(Seq<char>, Seq<u8>)>)
    requires
        forall|i: int| 0 <= i < hs.len() ==> !names_content_length(#[trigger] hs[i].0),
    ensures
        content_length_of(hs) == Some(0usize),
{
    lemma_no_content_length_from(hs, 0);
}

proof fn lemma_no_content_length_from(hs: Seq<(Seq<char>, Seq<u8>)>, i: int)
    requires
        0 <= i,
        forall|j: int| 0 <= j < hs.len() ==> !names_content_length(#[trigger] hs[j].0),
    ensures
        content_length_from(hs, i) == Some(0usize),
    decreases hs.len() - i,
{
    if i < hs.len() {
        lemma_no_content_length_from(hs, i + 1);
    }
}

} // verus!
