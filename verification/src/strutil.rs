//! Small string helpers: comparison, and decimal formatting of addresses
//! (used to build hierarchical RIB names such as `/routing/dynamic/1002`).

use vstd::prelude::*;
use vstd::utf8::*;

verus! {

broadcast use vstd::seq_lib::group_seq_lib_default, vstd::seq::group_seq_axioms;

/// Relies on `str`'s `PartialEq`: two string slices compare equal exactly
/// when their character sequences are equal.
#[verifier::external_body]
pub fn str_eq(a: &str, b: &str) -> (r: bool)
    ensures
        r == (a@ == b@),
{
    a == b
}

/// The decimal digit character for a value below ten.
pub open spec fn spec_digit_char(d: u64) -> char {
    if d == 0 {
        '0'
    } else if d == 1 {
        '1'
    } else if d == 2 {
        '2'
    } else if d == 3 {
        '3'
    } else if d == 4 {
        '4'
    } else if d == 5 {
        '5'
    } else if d == 6 {
        '6'
    } else if d == 7 {
        '7'
    } else if d == 8 {
        '8'
    } else {
        '9'
    }
}

/// The usual decimal rendering of `n`, most significant digit first,
/// without leading zeroes (`0` renders as `"0"`).
pub open spec fn spec_u64_digits(n: u64) -> Seq<char>
    decreases n,
{
    if n < 10 {
        seq![spec_digit_char(n)]
    } else {
        spec_u64_digits(n / 10) + seq![spec_digit_char(n % 10)]
    }
}

/// The ASCII byte of a decimal digit character.
pub open spec fn spec_digit_byte(d: u64) -> u8 {
    (48 + (d % 10)) as u8
}

pub open spec fn spec_u64_digit_bytes(n: u64) -> Seq<u8>
    decreases n,
{
    if n < 10 {
        seq![spec_digit_byte(n)]
    } else {
        spec_u64_digit_bytes(n / 10) + seq![spec_digit_byte(n % 10)]
    }
}

/// The digit characters are ASCII and correspond byte for byte to the
/// digit bytes.
proof fn lemma_digits_ascii(n: u64)
    ensures
        is_ascii_chars(spec_u64_digits(n)),
        spec_u64_digits(n).len() == spec_u64_digit_bytes(n).len(),
        forall|i: int|
            0 <= i < spec_u64_digits(n).len() ==> #[trigger] spec_u64_digits(n)[i] as u8
                == spec_u64_digit_bytes(n)[i],
    decreases n,
{
    if n < 10 {
        assert('\0' <= spec_digit_char(n) <= '\u{7f}');
        assert(spec_digit_char(n) as u8 == spec_digit_byte(n));
    } else {
        lemma_digits_ascii(n / 10);
        lemma_digits_ascii(n % 10);
        let hi = spec_u64_digits(n / 10);
        assert(forall|i: int|
            0 <= i < spec_u64_digits(n).len() ==> #[trigger] spec_u64_digits(n)[i] == if i
                < hi.len() {
                hi[i]
            } else {
                spec_digit_char(n % 10)
            });
    }
}

/// The digit bytes are exactly the UTF-8 encoding of the digit characters.
proof fn lemma_digit_bytes_utf8(n: u64)
    ensures
        encode_utf8(spec_u64_digits(n)) =~= spec_u64_digit_bytes(n),
{
    lemma_digits_ascii(n);
    is_ascii_chars_encode_utf8(spec_u64_digits(n));
}

fn digit_byte(d: u64) -> (r: u8)
    requires
        d < 10,
    ensures
        r == spec_digit_byte(d),
{
    48 + (d % 10) as u8
}

/// Renders `n` in decimal.
pub fn u64_to_string(n: u64) -> (r: String)
    ensures
        r@ == spec_u64_digits(n),
{
    let mut rev: Vec<u8> = Vec::new();
    let mut m: u64 = n;
    loop
        invariant_except_break
            spec_u64_digit_bytes(n) =~= spec_u64_digit_bytes(m) + rev@.reverse(),
        ensures
            spec_u64_digit_bytes(n) =~= rev@.reverse(),
        decreases m,
    {
        let ghost pre = rev@;
        let d = m % 10;
        rev.push(digit_byte(d));
        proof {
            assert(rev@.reverse() =~= seq![spec_digit_byte(m % 10)] + pre.reverse());
        }
        if m < 10 {
            break ;
        }
        m = m / 10;
    }
    let mut bytes: Vec<u8> = Vec::new();
    let mut i: usize = rev.len();
    while i > 0
        invariant
            i <= rev@.len(),
            bytes@ =~= rev@.subrange(i as int, rev@.len() as int).reverse(),
        decreases i,
    {
        let ghost pre = bytes@;
        i = i - 1;
        bytes.push(rev[i]);
        proof {
            assert(rev@.subrange(i as int, rev@.len() as int).reverse() =~= pre + seq![
                rev@[i as int],
            ]);
        }
    }
    proof {
        assert(bytes@ =~= rev@.reverse());
        assert(bytes@ =~= spec_u64_digit_bytes(n));
        lemma_digit_bytes_utf8(n);
        encode_utf8_valid_utf8(spec_u64_digits(n));
        encode_utf8_decode_utf8(spec_u64_digits(n));
    }
    match bytes_to_string(bytes) {
        Some(s) => s,
        None => {
            proof {
                assert(false);
            }
            String::new()
        },
    }
}

/// Relies on `alloc::string::String::from_utf8`: it returns the string made
/// of exactly the given bytes when they are valid UTF-8, and fails otherwise.
#[verifier::external_body]
pub fn bytes_to_string(v: Vec<u8>) -> (r: Option<String>)
    ensures
        r is Some <==> valid_utf8(v@),
        r is Some ==> r.unwrap()@ == decode_utf8(v@),
{
    String::from_utf8(v).ok()
}

/// The RIB name under which a dynamic route to `dst` is stored.
pub open spec fn spec_dynamic_route_name(dst: u64) -> Seq<char> {
    "/routing/dynamic/"@ + spec_u64_digits(dst)
}

/// The RIB name under which a static route to `dst` is stored.
pub open spec fn spec_static_route_name(dst: u64) -> Seq<char> {
    "/routing/static/"@ + spec_u64_digits(dst)
}

pub fn dynamic_route_name(dst: u64) -> (r: String)
    ensures
        r@ == spec_dynamic_route_name(dst),
{
    let mut s = String::new();
    s.append("/routing/dynamic/");
    let digits = u64_to_string(dst);
    s.append(digits.as_str());
    s
}

pub fn static_route_name(dst: u64) -> (r: String)
    ensures
        r@ == spec_static_route_name(dst),
{
    let mut s = String::new();
    s.append("/routing/static/");
    let digits = u64_to_string(dst);
    s.append(digits.as_str());
    s
}

} // verus!
