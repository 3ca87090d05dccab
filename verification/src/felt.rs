//! Starknet field elements held as their 32-byte big-endian representation.

use vstd::prelude::*;

verus! {

broadcast use vstd::array::group_array_axioms;

/// The Starknet field prime, `2^251 + 17 * 2^192 + 1`.
pub open spec fn felt_prime() -> int {
    0x800000000000011000000000000000000000000000000000000000000000001int
}

/// The number a big-endian byte sequence denotes.
pub open spec fn be_value(b: Seq<u8>) -> int
    decreases b.len(),
{
    if b.len() == 0 {
        0
    } else {
        be_value(b.drop_last()) * 256 + b.last()
    }
}

proof fn lemma_be_value_zeros(b: Seq<u8>)
    requires
        forall|i: int| 0 <= i < b.len() ==> b[i] == 0,
    ensures
        be_value(b) == 0,
    decreases b.len(),
{
    if b.len() > 0 {
        lemma_be_value_zeros(b.drop_last());
    }
}

/// A Starknet field element: 32 big-endian bytes denoting a number below the prime.
#[derive(Clone, Copy, Debug)]
pub struct Felt {
    bytes: [u8; 32],
}

impl Felt {
    #[verifier::type_invariant]
    spec fn canonical(self) -> bool {
        be_value(self.bytes@) < felt_prime()
    }
}

impl View for Felt {
    type V = Seq<u8>;

    closed spec fn view(&self) -> Seq<u8> {
        self.bytes@
    }
}

impl PartialEq for Felt {
    fn eq(&self, other: &Self) -> (r: bool) {
        let mut i: usize = 0;
        while i < 32
            invariant
                i <= 32,
                forall|j: int| 0 <= j < i ==> self.bytes@[j] == other.bytes@[j],
            decreases 32 - i,
        {
            if self.bytes[i] != other.bytes[i] {
                return false;
            }
            i = i + 1;
        }
        assert(self.bytes =~= other.bytes);
        true
    }
}

impl Eq for Felt {
}

impl vstd::std_specs::cmp::PartialEqSpecImpl for Felt {
    open spec fn obeys_eq_spec() -> bool {
        true
    }

    open spec fn eq_spec(&self, other: &Felt) -> bool {
        *self == *other
    }
}


/// The lower-case hexadecimal digit for a value below sixteen.
pub open spec fn hex_char(n: int) -> char {
    if n == 0 { '0' } else if n == 1 { '1' } else if n == 2 { '2' } else if n == 3 { '3' }
    else if n == 4 { '4' } else if n == 5 { '5' } else if n == 6 { '6' } else if n == 7 { '7' }
    else if n == 8 { '8' } else if n == 9 { '9' } else if n == 10 { 'a' } else if n == 11 { 'b' }
    else if n == 12 { 'c' } else if n == 13 { 'd' } else if n == 14 { 'e' } else { 'f' }
}

/// The two hexadecimal digits of each byte, most significant first.
pub open spec fn hex_nibbles(b: Seq<u8>) -> Seq<char>
    decreases b.len(),
{
    if b.len() == 0 {
        Seq::empty()
    } else {
        seq![hex_char((b[0] / 16) as int), hex_char((b[0] % 16) as int)] + hex_nibbles(
            b.drop_first(),
        )
    }
}

/// Drops leading `'0'` digits, keeping at least one digit.
pub open spec fn drop_leading_zero_digits(s: Seq<char>) -> Seq<char>
    decreases s.len(),
{
    if s.len() > 1 && s[0] == '0' {
        drop_leading_zero_digits(s.drop_first())
    } else {
        s
    }
}

/// The text that `{:#x}` gives for a field element with these big-endian
/// bytes: `0x`, then its lower-case digits without leading zeros (`0x0` for zero).
pub open spec fn lower_hex(b: Seq<u8>) -> Seq<char> {
    seq!['0', 'x'] + drop_leading_zero_digits(hex_nibbles(b))
}

/// Removes every leading `0x`, as `str::trim_start_matches("0x")` does.
pub open spec fn strip_hex_prefix(s: Seq<char>) -> Seq<char>
    decreases s.len(),
{
    if s.len() >= 2 && s[0] == '0' && s[1] == 'x' {
        strip_hex_prefix(s.skip(2))
    } else {
        s
    }
}

pub open spec fn is_hex_digit(c: char) -> bool {
    (48 <= c as int <= 57) || (97 <= c as int <= 102) || (65 <= c as int <= 70)
}

pub open spec fn hex_digit_value(c: char) -> int {
    if 48 <= c as int <= 57 {
        c as int - 48
    } else if 97 <= c as int <= 102 {
        c as int - 87
    } else {
        c as int - 55
    }
}

/// The number that a sequence of hexadecimal digits denotes.
pub open spec fn hex_digits_value(s: Seq<char>) -> int
    decreases s.len(),
{
    if s.len() == 0 {
        0
    } else {
        hex_digits_value(s.drop_last()) * 16 + hex_digit_value(s.last())
    }
}

/// The number that `FieldElement::from_hex_be` reads from `s`, or `None`
/// where it refuses `s`: after the leading `0x` are gone, at most 64
/// hexadecimal digits of either case, denoting a number below the prime.
pub open spec fn hex_felt_value(s: Seq<char>) -> Option<int> {
    let digits = strip_hex_prefix(s);
    if digits.len() <= 64 && (forall|i: int| 0 <= i < digits.len() ==> is_hex_digit(#[trigger] digits[i]))
        && hex_digits_value(digits) < felt_prime() {
        Some(hex_digits_value(digits))
    } else {
        None
    }
}

/// Sixteen to the power `n`.
pub open spec fn pow16(n: nat) -> int
    decreases n,
{
    if n == 0 {
        1
    } else {
        pow16((n - 1) as nat) * 16
    }
}

proof fn lemma_hex_digits_value_bound(s: Seq<char>)
    requires
        forall|i: int| 0 <= i < s.len() ==> is_hex_digit(#[trigger] s[i]),
    ensures
        0 <= hex_digits_value(s) < pow16(s.len()),
    decreases s.len(),
{
    if s.len() > 0 {
        let t = s.drop_last();
        assert forall|i: int| 0 <= i < t.len() implies is_hex_digit(#[trigger] t[i]) by {
            assert(t[i] == s[i]);
        }
        lemma_hex_digits_value_bound(t);
        assert(is_hex_digit(s[s.len() - 1]));
    }
}

proof fn lemma_hex_digits_value_first(s: Seq<char>)
    requires
        s.len() >= 1,
    ensures
        hex_digits_value(s) == hex_digit_value(s[0]) * pow16((s.len() - 1) as nat)
            + hex_digits_value(s.drop_first()),
    decreases s.len(),
{
    if s.len() > 1 {
        let t = s.drop_last();
        lemma_hex_digits_value_first(t);
        assert(t.drop_first() =~= s.drop_first().drop_last());
        assert(t[0] == s[0]);
        let d = hex_digit_value(s[0]);
        let p = pow16((s.len() - 2) as nat);
        assert(pow16((s.len() - 1) as nat) == p * 16);
        assert(s.drop_first().last() == s.last());
        assert(hex_digits_value(s.drop_first()) == hex_digits_value(s.drop_first().drop_last()) * 16
            + hex_digit_value(s.last()));
        assert((d * p) * 16 == d * (p * 16)) by (nonlinear_arith);
        assert(hex_digits_value(t) == d * p + hex_digits_value(t.drop_first()));
        assert(hex_digits_value(s) == hex_digits_value(t) * 16 + hex_digit_value(s.last()));
    } else {
        assert(s.drop_first().len() == 0);
        assert(s.drop_last().len() == 0);
        assert(s.last() == s[0]);
        assert(pow16(0) == 1);
        assert(hex_digits_value(s.drop_last()) == 0);
        assert(hex_digits_value(s.drop_first()) == 0);
        assert(hex_digits_value(s) == hex_digit_value(s[0]));
    }
}

/// Text of `0x` and 63 hexadecimal digits whose first digit is below eight
/// denotes a number below the prime, so `FieldElement::from_hex_be` accepts it.
pub proof fn lemma_hex_felt_value_accepts(s: Seq<char>)
    requires
        s.len() == 65,
        s[0] == '0',
        s[1] == 'x',
        forall|i: int| 2 <= i < 65 ==> is_hex_digit(#[trigger] s[i]),
        hex_digit_value(s[2]) < 8,
    ensures
        hex_felt_value(s) is Some,
{
    let t = s.skip(2);
    assert(t[1] == s[3]);
    assert(t.len() >= 2 ==> !(t[0] == '0' && t[1] == 'x'));
    assert(strip_hex_prefix(t) == t);
    assert(strip_hex_prefix(s) == t);
    assert forall|i: int| 0 <= i < t.len() implies is_hex_digit(#[trigger] t[i]) by {
        assert(t[i] == s[i + 2]);
    }
    let rest = t.drop_first();
    assert forall|i: int| 0 <= i < rest.len() implies is_hex_digit(#[trigger] rest[i]) by {
        assert(rest[i] == s[i + 3]);
    }
    lemma_hex_digits_value_bound(rest);
    lemma_hex_digits_value_first(t);
    assert(pow16(62) == 0x100000000000000000000000000000000000000000000000000000000000000int) by {
        reveal_with_fuel(pow16, 63);
    }
    let d = hex_digit_value(t[0]);
    assert(0 <= d < 8);
    assert(d * pow16(62) <= 7 * pow16(62)) by (nonlinear_arith)
        requires
            0 <= d < 8,
            pow16(62) > 0,
    ;
}

proof fn lemma_hex_char_injective(x: int, y: int)
    requires
        0 <= x < 16,
        0 <= y < 16,
        hex_char(x) == hex_char(y),
    ensures
        x == y,
{
}

proof fn lemma_hex_nibbles_len(b: Seq<u8>)
    ensures
        hex_nibbles(b).len() == 2 * b.len(),
    decreases b.len(),
{
    if b.len() > 0 {
        lemma_hex_nibbles_len(b.drop_first());
    }
}

proof fn lemma_hex_nibbles_injective(a: Seq<u8>, b: Seq<u8>)
    requires
        a.len() == b.len(),
        hex_nibbles(a) == hex_nibbles(b),
    ensures
        a == b,
    decreases a.len(),
{
    if a.len() > 0 {
        let na = hex_nibbles(a);
        let nb = hex_nibbles(b);
        assert(na[0] == hex_char((a[0] / 16) as int));
        assert(nb[0] == hex_char((b[0] / 16) as int));
        assert(na[1] == hex_char((a[0] % 16) as int));
        assert(nb[1] == hex_char((b[0] % 16) as int));
        lemma_hex_char_injective((a[0] / 16) as int, (b[0] / 16) as int);
        lemma_hex_char_injective((a[0] % 16) as int, (b[0] % 16) as int);
        assert(a[0] == b[0]);
        assert(hex_nibbles(a.drop_first()) =~= na.skip(2));
        assert(hex_nibbles(b.drop_first()) =~= nb.skip(2));
        lemma_hex_nibbles_injective(a.drop_first(), b.drop_first());
        assert forall|i: int| 0 <= i < a.len() implies a[i] == b[i] by {
            if i > 0 {
                assert(a[i] == a.drop_first()[i - 1]);
                assert(b[i] == b.drop_first()[i - 1]);
            }
        }
        assert(a =~= b);
    }
}

/// Dropping leading zero digits removes a run of `'0'` from the front.
proof fn lemma_drop_leading_zero_digits_shape(s: Seq<char>)
    ensures
        drop_leading_zero_digits(s).len() <= s.len(),
        s =~= Seq::new((s.len() - drop_leading_zero_digits(s).len()) as nat, |i: int| '0')
            + drop_leading_zero_digits(s),
    decreases s.len(),
{
    if s.len() > 1 && s[0] == '0' {
        let t = s.drop_first();
        lemma_drop_leading_zero_digits_shape(t);
        let d = drop_leading_zero_digits(t);
        assert(s =~= seq!['0'] + t);
    }
}

/// Distinct 32-byte values are written differently by `{:#x}`.
pub proof fn lemma_lower_hex_injective(a: Seq<u8>, b: Seq<u8>)
    requires
        a.len() == 32,
        b.len() == 32,
        lower_hex(a) == lower_hex(b),
    ensures
        a == b,
{
    let na = hex_nibbles(a);
    let nb = hex_nibbles(b);
    lemma_hex_nibbles_len(a);
    lemma_hex_nibbles_len(b);
    let da = drop_leading_zero_digits(na);
    let db = drop_leading_zero_digits(nb);
    assert(da =~= lower_hex(a).skip(2));
    assert(db =~= lower_hex(b).skip(2));
    lemma_drop_leading_zero_digits_shape(na);
    lemma_drop_leading_zero_digits_shape(nb);
    assert(na =~= nb);
    lemma_hex_nibbles_injective(a, b);
}

proof fn lemma_hex_char_digit(n: int)
    requires
        0 <= n < 16,
    ensures
        is_hex_digit(hex_char(n)),
        hex_digit_value(hex_char(n)) == n,
        hex_char(n) != 'x',
{
}

proof fn lemma_hex_nibbles_digits(b: Seq<u8>)
    ensures
        forall|i: int| 0 <= i < hex_nibbles(b).len() ==> is_hex_digit(#[trigger] hex_nibbles(b)[i])
            && hex_nibbles(b)[i] != 'x',
    decreases b.len(),
{
    if b.len() > 0 {
        lemma_hex_nibbles_digits(b.drop_first());
        lemma_hex_char_digit((b[0] / 16) as int);
        lemma_hex_char_digit((b[0] % 16) as int);
        let n = hex_nibbles(b);
        let rest = hex_nibbles(b.drop_first());
        assert forall|i: int| 0 <= i < n.len() implies is_hex_digit(#[trigger] n[i]) && n[i] != 'x' by {
            if i >= 2 {
                assert(n[i] == rest[i - 2]);
            }
        }
    }
}

proof fn lemma_hex_nibbles_last(b: Seq<u8>)
    requires
        b.len() > 0,
    ensures
        hex_nibbles(b) =~= hex_nibbles(b.drop_last()) + seq![
            hex_char((b.last() / 16) as int),
            hex_char((b.last() % 16) as int),
        ],
    decreases b.len(),
{
    if b.len() > 1 {
        let t = b.drop_first();
        lemma_hex_nibbles_last(t);
        assert(t.drop_last() =~= b.drop_last().drop_first());
        assert(t.last() == b.last());
        assert(b.drop_last()[0] == b[0]);
        let head = seq![hex_char((b[0] / 16) as int), hex_char((b[0] % 16) as int)];
        assert(hex_nibbles(b) == head + hex_nibbles(t));
        assert(hex_nibbles(b.drop_last()) == head + hex_nibbles(b.drop_last().drop_first()));
    } else {
        assert(b.drop_first().len() == 0);
        assert(b.drop_last().len() == 0);
        assert(hex_nibbles(b.drop_first()) =~= Seq::<char>::empty());
        assert(hex_nibbles(b.drop_last()) =~= Seq::<char>::empty());
        assert(b.last() == b[0]);
    }
}

proof fn lemma_hex_nibbles_value(b: Seq<u8>)
    ensures
        hex_digits_value(hex_nibbles(b)) == be_value(b),
    decreases b.len(),
{
    if b.len() > 0 {
        lemma_hex_nibbles_value(b.drop_last());
        lemma_hex_nibbles_last(b);
        let x = hex_nibbles(b.drop_last());
        let h = hex_char((b.last() / 16) as int);
        let l = hex_char((b.last() % 16) as int);
        let s = x + seq![h, l];
        lemma_hex_char_digit((b.last() / 16) as int);
        lemma_hex_char_digit((b.last() % 16) as int);
        assert(s.drop_last() =~= x.push(h));
        assert(x.push(h).drop_last() =~= x);
        assert(hex_digits_value(x.push(h)) == hex_digits_value(x) * 16 + hex_digit_value(h));
        assert(hex_digits_value(s) == hex_digits_value(x.push(h)) * 16 + hex_digit_value(l));
    } else {
        assert(hex_nibbles(b).len() == 0);
    }
}

proof fn lemma_leading_zero_digits_value(s: Seq<char>)
    ensures
        hex_digits_value(drop_leading_zero_digits(s)) == hex_digits_value(s),
        s.len() >= 1 ==> drop_leading_zero_digits(s).len() >= 1,
    decreases s.len(),
{
    if s.len() > 1 && s[0] == '0' {
        lemma_leading_zero_digits_value(s.drop_first());
        lemma_hex_digits_value_first(s);
        assert(hex_digit_value(s[0]) == 0);
    }
}

/// What `{:#x}` writes of a field element, `FieldElement::from_hex_be`
/// reads back as the same number.
pub proof fn lemma_lower_hex_round_trip(b: Seq<u8>)
    requires
        b.len() == 32,
        be_value(b) < felt_prime(),
    ensures
        hex_felt_value(lower_hex(b)) == Some(be_value(b)),
{
    let n = hex_nibbles(b);
    let d = drop_leading_zero_digits(n);
    lemma_hex_nibbles_len(b);
    lemma_hex_nibbles_digits(b);
    lemma_drop_leading_zero_digits_shape(n);
    lemma_leading_zero_digits_value(n);
    lemma_hex_nibbles_value(b);
    let k = (n.len() - d.len()) as int;
    assert forall|i: int| 0 <= i < d.len() implies is_hex_digit(#[trigger] d[i]) && d[i] != 'x' by {
        assert(d[i] == n[i + k]);
    }
    let s = lower_hex(b);
    assert(s.skip(2) =~= d);
    if d.len() >= 2 {
        assert(d[1] != 'x');
    }
    assert(strip_hex_prefix(d) == d);
    assert(strip_hex_prefix(s) == strip_hex_prefix(s.skip(2)));
}

/// Two field elements that `to_hex_string` writes alike are the same element.
pub proof fn lemma_felt_hex_identifies(f: Felt, g: Felt)
    requires
        lower_hex(f@) == lower_hex(g@),
    ensures
        f == g,
{
    lemma_lower_hex_injective(f@, g@);
    assert(f.bytes =~= g.bytes);
}

/// Why a field element is not a Cairo short string.
#[derive(Clone, Copy, Debug, PartialEq, Eq, Structural)]
pub enum ShortStringError {
    ValueOutOfRange,
    UnexpectedNullTerminator,
}

/// Drops the leading zero bytes.
pub open spec fn drop_zero_bytes(b: Seq<u8>) -> Seq<u8>
    decreases b.len(),
{
    if b.len() > 0 && b[0] == 0 {
        drop_zero_bytes(b.drop_first())
    } else {
        b
    }
}

/// What `parse_cairo_short_string` gives for a field element with these
/// big-endian bytes: the empty text for zero; an error where the first byte
/// is not zero, or where a zero byte follows a non-zero one; else each byte
/// after the leading zeros as the character with that code.
pub open spec fn cairo_short_string(b: Seq<u8>) -> Result<Seq<char>, ShortStringError> {
    let text = drop_zero_bytes(b);
    if text.len() == 0 {
        Ok(Seq::empty())
    } else if b[0] > 0 {
        Err(ShortStringError::ValueOutOfRange)
    } else if exists|i: int| 0 <= i < text.len() && #[trigger] text[i] == 0 {
        Err(ShortStringError::UnexpectedNullTerminator)
    } else {
        Ok(text.map_values(|c: u8| c as char))
    }
}

/// Asks `FieldElement::from_bytes_be`, which accepts exactly the byte
/// strings whose big-endian value is below the field prime.
#[verifier::external_body]
fn bytes_below_prime(b: &[u8; 32]) -> (r: bool)
    ensures
        r == (be_value(b@) < felt_prime()),
{
    starknet::core::types::FieldElement::from_bytes_be(b).is_ok()
}

/// Calls `FieldElement::from_hex_be` and hands back the big-endian bytes of
/// the element it reads; the contract states what its source does: strip
/// every leading `0x`, read at most 64 hexadecimal digits, refuse a value
/// that is not below the prime.
#[verifier::external_body]
fn parse_hex_be(s: &str) -> (r: Option<[u8; 32]>)
    ensures
        r is Some <==> hex_felt_value(s@) is Some,
        r matches Some(b) ==> be_value(b@) == hex_felt_value(s@).unwrap(),
{
    match starknet::core::types::FieldElement::from_hex_be(s) {
        Ok(f) => Some(f.to_bytes_be()),
        Err(_) => None,
    }
}

/// Formats the element with these bytes by `FieldElement`'s `LowerHex` in
/// its alternate form (`{:#x}`): `0x` and the digits without leading zeros.
#[verifier::external_body]
fn format_lower_hex(b: &[u8; 32]) -> (r: String)
    requires
        be_value(b@) < felt_prime(),
    ensures
        r@ == lower_hex(b@),
{
    format!("{:#x}", starknet::core::types::FieldElement::from_bytes_be(b).unwrap())
}

/// Calls `parse_cairo_short_string` on the element with these bytes; its
/// source returns what `cairo_short_string` states, variant for variant.
#[verifier::external_body]
fn short_string_of(b: &[u8; 32]) -> (r: Result<String, ShortStringError>)
    requires
        be_value(b@) < felt_prime(),
    ensures
        match r {
            Ok(s) => cairo_short_string(b@) == Ok::<Seq<char>, ShortStringError>(s@),
            Err(e) => cairo_short_string(b@) == Err::<Seq<char>, ShortStringError>(e),
        },
{
    let f = starknet::core::types::FieldElement::from_bytes_be(b).unwrap();
    match starknet::core::utils::parse_cairo_short_string(&f) {
        Ok(s) => Ok(s),
        Err(starknet::core::utils::ParseCairoShortStringError::ValueOutOfRange) => Err(
            ShortStringError::ValueOutOfRange,
        ),
        Err(starknet::core::utils::ParseCairoShortStringError::UnexpectedNullTerminator) => Err(
            ShortStringError::UnexpectedNullTerminator,
        ),
    }
}

impl Felt {
    /// The element with these big-endian bytes, if they denote a number below the prime.
    pub fn from_bytes_be(bytes: [u8; 32]) -> (r: Option<Felt>)
        ensures
            r is Some <==> be_value(bytes@) < felt_prime(),
            r matches Some(f) ==> f@ == bytes@,
    {
        if bytes_below_prime(&bytes) {
            Some(Felt { bytes })
        } else {
            None
        }
    }

    /// The zero element.
    pub fn zero() -> (r: Felt)
        ensures
            be_value(r@) == 0,
            r@ == Seq::new(32, |i: int| 0u8),
    {
        let bytes = [0u8; 32];
        proof {
            lemma_be_value_zeros(bytes@);
        }
        assert(bytes@ =~= Seq::new(32, |i: int| 0u8));
        Felt { bytes }
    }

    /// The big-endian bytes of the element.
    pub fn to_bytes_be(&self) -> (r: [u8; 32])
        ensures
            r@ == self@,
    {
        self.bytes
    }

    /// Reads an element from hexadecimal text, as `FieldElement::from_hex_be` does.
    pub fn from_hex_be(s: &str) -> (r: Option<Felt>)
        ensures
            r is Some <==> hex_felt_value(s@) is Some,
            r matches Some(f) ==> be_value(f@) == hex_felt_value(s@).unwrap(),
    {
        match parse_hex_be(s) {
            Some(bytes) => Some(Felt { bytes }),
            None => None,
        }
    }

    /// The element written as `{:#x}` writes it.
    pub fn to_hex_string(&self) -> (r: String)
        ensures
            r@ == lower_hex(self@),
    {
        proof {
            use_type_invariant(self);
        }
        format_lower_hex(&self.bytes)
    }

    /// The Cairo short string that the element encodes.
    pub fn parse_cairo_short_string(&self) -> (r: Result<String, ShortStringError>)
        ensures
            match r {
                Ok(s) => cairo_short_string(self@) == Ok::<Seq<char>, ShortStringError>(s@),
                Err(e) => cairo_short_string(self@) == Err::<Seq<char>, ShortStringError>(e),
            },
    {
        proof {
            use_type_invariant(self);
        }
        short_string_of(&self.bytes)
    }
}

} // verus!
