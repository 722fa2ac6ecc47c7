use vstd::bytes::*;
use vstd::prelude::*;
use vstd::string::*;
use vstd::utf8::*;

verus! {

broadcast use encode_utf8_decode_utf8, encode_utf8_valid_utf8;

/// The eight little-endian bytes of a `usize` (taken as a 64-bit value).
pub open spec fn usize_bytes(x: usize) -> Seq<u8> {
    spec_u64_to_le_bytes(x as u64)
}

/// The `usize` held by eight little-endian bytes.
pub open spec fn usize_of(bytes: Seq<u8>) -> usize {
    spec_u64_from_le_bytes(bytes) as usize
}

/// Eight little-endian bytes read back give the value written.
pub proof fn lemma_usize_bytes(x: usize)
    ensures
        usize_bytes(x).len() == 8,
        usize_of(usize_bytes(x)) == x,
{
    lemma_auto_spec_u64_to_from_le_bytes();
}

/// Turns valid UTF-8 bytes into a string slice over the same bytes.
/// Calls `std::str::from_utf8`; its documentation says that it returns `Ok` exactly
/// when the bytes are valid UTF-8, and that the slice then borrows those very bytes.
#[verifier::external_body]
pub(crate) fn utf8_str(bytes: &[u8]) -> (r: Option<&str>)
    ensures
        match r {
            Some(s) => s.spec_bytes() == bytes@,
            None => !valid_utf8(bytes@),
        },
{
    std::str::from_utf8(bytes).ok()
}

/// Two strings with the same UTF-8 bytes are the same string.
pub proof fn lemma_utf8_injective(a: Seq<char>, b: Seq<char>)
    requires
        encode_utf8(a) == encode_utf8(b),
    ensures
        a == b,
{
    assert(decode_utf8(encode_utf8(a)) == a);
    assert(decode_utf8(encode_utf8(b)) == b);
}

/// The string whose UTF-8 encoding is exactly `bytes`.
pub fn string_from_utf8(bytes: &[u8]) -> (s: String)
    requires
        valid_utf8(bytes@),
    ensures
        encode_utf8(s@) == bytes@,
{
    match utf8_str(bytes) {
        Some(s) => s.to_owned(),
        None => {
            proof {
                assert(false);
            }
            String::new()
        },
    }
}

/// The string whose UTF-8 encoding is exactly `bytes`, if they are valid UTF-8.
pub fn try_string_from_utf8(bytes: &[u8]) -> (r: Option<String>)
    ensures
        match r {
            Some(s) => encode_utf8(s@) == bytes@,
            None => !valid_utf8(bytes@),
        },
{
    match utf8_str(bytes) {
        Some(s) => Some(s.to_owned()),
        None => None,
    }
}

/// Whether two byte strings are equal.
pub fn bytes_equal(a: &[u8], b: &[u8]) -> (r: bool)
    ensures
        r == (a@ == b@),
{
    let n = a.len();
    if n != b.len() {
        return false;
    }
    let mut i: usize = 0;
    while i < n
        invariant
            n == a@.len(),
            n == b@.len(),
            i <= n,
            forall|j: int| 0 <= j < i ==> a@[j] == b@[j],
        decreases n - i,
    {
        if a[i] != b[i] {
            return false;
        }
        i = i + 1;
    }
    assert(a@ =~= b@);
    true
}

/// Appends the eight little-endian bytes of `x`.
pub fn push_usize(out: &mut Vec<u8>, x: usize)
    ensures
        final(out)@ == old(out)@ + usize_bytes(x),
{
    let mut b = u64_to_le_bytes(x as u64);
    out.append(&mut b);
}

/// Appends the four little-endian bytes of `x`.
pub fn push_i32(out: &mut Vec<u8>, x: i32)
    ensures
        final(out)@ == old(out)@ + spec_u32_to_le_bytes(x as u32),
{
    let mut b = u32_to_le_bytes(x as u32);
    out.append(&mut b);
}

/// Appends every byte of `bytes`.
pub fn push_slice(out: &mut Vec<u8>, bytes: &[u8])
    ensures
        final(out)@ == old(out)@ + bytes@,
{
    let n = bytes.len();
    let mut i: usize = 0;
    while i < n
        invariant
            i <= n,
            n == bytes@.len(),
            out@ == old(out)@ + bytes@.subrange(0, i as int),
        decreases n - i,
    {
        out.push(bytes[i]);
        i = i + 1;
        assert(out@ =~= old(out)@ + bytes@.subrange(0, i as int));
    }
    assert(bytes@.subrange(0, n as int) =~= bytes@);
}

/// Reads the `usize` in the eight bytes that start at `at`.
pub fn read_usize(bytes: &[u8], at: usize) -> (x: usize)
    requires
        at + 8 <= bytes@.len(),
    ensures
        x == usize_of(bytes@.subrange(at as int, at + 8)),
{
    let _n = bytes.len();
    let b = vstd::slice::slice_subrange(bytes, at, at + 8);
    #[verifier::truncate]
    (u64_from_le_bytes(b) as usize)
}

/// Reads the `i32` in the four bytes that start at `at`.
pub fn read_i32(bytes: &[u8], at: usize) -> (x: i32)
    requires
        at + 4 <= bytes@.len(),
    ensures
        x == spec_u32_from_le_bytes(bytes@.subrange(at as int, at + 4)) as i32,
{
    let _n = bytes.len();
    let b = vstd::slice::slice_subrange(bytes, at, at + 4);
    #[verifier::truncate]
    (u32_from_le_bytes(b) as i32)
}

} // verus!

verus! {

/// Whether two strings are equal, by their bytes.
pub fn str_eq(a: &str, b: &str) -> (r: bool)
    ensures
        r == (a@ == b@),
{
    let x = a.as_bytes();
    let y = b.as_bytes();
    let n = x.len();
    if n != y.len() {
        return false;
    }
    let mut i: usize = 0;
    while i < n
        invariant
            i <= n,
            n == x@.len(),
            n == y@.len(),
            x@ == a.spec_bytes(),
            y@ == b.spec_bytes(),
            forall|j: int| 0 <= j < i ==> x@[j] == y@[j],
        decreases n - i,
    {
        if x[i] != y[i] {
            return false;
        }
        i = i + 1;
    }
    proof {
        assert(x@ =~= y@);
        lemma_utf8_injective(a@, b@);
    }
    true
}

/// The string made of the given characters.
/// Calls `String::from_iter` over the characters; its documentation says that
/// the string holds exactly those characters in order.
#[verifier::external_body]
pub(crate) fn string_of_chars(cs: &[char]) -> (r: String)
    ensures
        r@ == cs@,
{
    cs.iter().collect()
}

/// The decimal digits of a number, most significant first.
pub open spec fn decimal(n: nat) -> Seq<char>
    decreases n,
{
    if n < 10 {
        seq![digit_char(n)]
    } else {
        decimal(n / 10) + seq![digit_char(n % 10)]
    }
}

/// The character of a decimal digit.
pub open spec fn digit_char(d: nat) -> char {
    if d == 0 {
        '0'
    } else if d == 1 {
        '1'
    } else if d == 2 {
        '2'
    } else if d == 3 {
        '3'
    } else if d == 4 {
        '4'
    } else if d == 5 {
        '5'
    } else if d == 6 {
        '6'
    } else if d == 7 {
        '7'
    } else if d == 8 {
        '8'
    } else {
        '9'
    }
}

/// The number that a string of decimal digits spells, most significant
/// digit first.
pub open spec fn digits_value(cs: Seq<char>) -> int {
    cs.fold_left(0int, |acc: int, c: char| acc * 10 + (c as int - '0' as int))
}

/// The decimal text of a number consists of digits, starts with no `0`
/// unless the number is 0, and spells the number.
pub proof fn lemma_decimal_spells(n: nat)
    ensures
        decimal(n).len() >= 1,
        forall|i: int| 0 <= i < decimal(n).len() ==> '0' <= #[trigger] decimal(n)[i] <= '9',
        decimal(n)[0] == '0' ==> n == 0,
        digits_value(decimal(n)) == n,
    decreases n,
{
    if n >= 10 {
        lemma_decimal_spells(n / 10);
        let d = decimal(n);
        assert(d.drop_last() =~= decimal(n / 10));
        assert(d.last() == digit_char(n % 10));
        assert(digits_value(d) == digits_value(d.drop_last()) * 10 + (d.last() as int - '0' as int));
        assert(digit_char(n % 10) as int - '0' as int == n % 10);
        assert(d[0] == decimal(n / 10)[0]);
        assert forall|i: int| 0 <= i < d.len() implies '0' <= #[trigger] d[i] <= '9' by {
            if i < d.len() - 1 {
                assert(d[i] == decimal(n / 10)[i]);
            }
        }
    } else {
        let d = decimal(n);
        assert(d.drop_last().len() == 0);
        assert(digits_value(d) == digits_value(d.drop_last()) * 10 + (d.last() as int - '0' as int));
        assert(digit_char(n) as int - '0' as int == n);
    }
}

fn exec_digit_char(d: usize) -> (c: char)
    requires
        d < 10,
    ensures
        c == digit_char(d as nat),
{
    if d == 0 {
        '0'
    } else if d == 1 {
        '1'
    } else if d == 2 {
        '2'
    } else if d == 3 {
        '3'
    } else if d == 4 {
        '4'
    } else if d == 5 {
        '5'
    } else if d == 6 {
        '6'
    } else if d == 7 {
        '7'
    } else if d == 8 {
        '8'
    } else {
        '9'
    }
}

/// Appends the decimal digits of `n`.
pub fn push_decimal(out: &mut Vec<char>, n: usize)
    ensures
        final(out)@ == old(out)@ + decimal(n as nat),
    decreases n,
{
    if n < 10 {
        out.push(exec_digit_char(n));
    } else {
        push_decimal(out, n / 10);
        out.push(exec_digit_char(n % 10));
        assert(out@ =~= old(out)@ + decimal(n as nat));
    }
}

} // verus!
