//! Building the textual forms of numbers and addresses.
use vstd::prelude::*;
use vstd::string::*;

verus! {

/// The character of the decimal digit `d` (`0 <= d < 10`).
pub open spec fn digit_char(d: nat) -> char {
    (d + 48) as char
}

/// The decimal notation of `n`, without leading zeros.
pub open spec fn decimal(n: nat) -> Seq<char>
    decreases n,
{
    if n < 10 {
        seq![digit_char(n)]
    } else {
        decimal(n / 10).push(digit_char(n % 10))
    }
}

/// The number that a string of decimal digits denotes, most significant
/// digit first.
pub open spec fn digits_value(s: Seq<char>) -> int
    decreases s.len(),
{
    if s.len() == 0 {
        0
    } else {
        digits_value(s.drop_last()) * 10 + (s.last() as int - 48)
    }
}

/// True when `s` is the usual decimal numeral of `v`: one or more digits
/// `0`-`9`, no leading zero, denoting `v`.
pub open spec fn is_decimal_numeral(s: Seq<char>, v: int) -> bool {
    &&& s.len() >= 1
    &&& forall|i: int| 0 <= i < s.len() ==> 48 <= #[trigger] (s[i] as int) <= 57
    &&& (s.len() > 1 ==> s[0] as int != 48)
    &&& digits_value(s) == v
}

proof fn lemma_digit_char(d: nat)
    requires
        d < 10,
    ensures
        digit_char(d) as int == d + 48,
{
}

proof fn lemma_decimal_digits(n: nat)
    ensures
        decimal(n).len() >= 1,
        forall|i: int| 0 <= i < decimal(n).len() ==> 48 <= #[trigger] (decimal(n)[i] as int) <= 57,
        n >= 1 ==> decimal(n)[0] as int != 48,
        digits_value(decimal(n)) == n,
    decreases n,
{
    let d = decimal(n);
    if n < 10 {
        lemma_digit_char(n);
        assert(d[0] == digit_char(n));
        assert(d.drop_last() =~= Seq::<char>::empty());
        assert(d.last() == d[0]);
        assert(digits_value(Seq::<char>::empty()) == 0);
        assert(digits_value(d) == digits_value(d.drop_last()) * 10 + (d.last() as int - 48));
    } else {
        lemma_decimal_digits(n / 10);
        lemma_digit_char(n % 10);
        let h = decimal(n / 10);
        assert(d == h.push(digit_char(n % 10)));
        assert(d.drop_last() =~= h);
        assert(d.last() == digit_char(n % 10));
        assert forall|i: int| 0 <= i < d.len() implies 48 <= #[trigger] (d[i] as int) <= 57 by {
            if i < h.len() {
                assert(d[i] == h[i]);
            }
        }
        assert(d[0] == h[0]);
        assert(digits_value(d) == digits_value(h) * 10 + (d.last() as int - 48));
        assert(n == (n / 10) * 10 + n % 10);
    }
}

/// The decimal notation of a number is its usual decimal numeral: digits
/// only, no leading zero, and it denotes the number.
pub proof fn lemma_decimal_is_numeral(n: nat)
    ensures
        is_decimal_numeral(decimal(n), n as int),
{
    lemma_decimal_digits(n);
    if decimal(n).len() > 1 {
        if n == 0 {
            assert(decimal(n).len() == 1);
        }
    }
}

/// True when `t` is four decimal numerals joined by dots, denoting the four
/// octets of `o` as unsigned numbers (0 to 255), in order.
pub open spec fn is_dotted_quad_of(t: Seq<char>, o: Seq<u8>) -> bool {
    exists|a: Seq<char>, b: Seq<char>, c: Seq<char>, d: Seq<char>|
        #![trigger is_decimal_numeral(a, o[0] as int), is_decimal_numeral(b, o[1] as int), is_decimal_numeral(c, o[2] as int), is_decimal_numeral(d, o[3] as int)]
        {
            &&& t == a + seq!['.'] + b + seq!['.'] + c + seq!['.'] + d
            &&& is_decimal_numeral(a, o[0] as int)
            &&& is_decimal_numeral(b, o[1] as int)
            &&& is_decimal_numeral(c, o[2] as int)
            &&& is_decimal_numeral(d, o[3] as int)
        }
}

/// The dotted-decimal text of an IPv4 address is its four octets, read as
/// unsigned numbers, written as decimal numerals and joined by dots.
pub proof fn lemma_dotted_quad_is_dotted_decimal(o: Seq<u8>)
    requires
        o.len() == 4,
    ensures
        is_dotted_quad_of(dotted_quad(o), o),
{
    lemma_decimal_is_numeral(o[0] as nat);
    lemma_decimal_is_numeral(o[1] as nat);
    lemma_decimal_is_numeral(o[2] as nat);
    lemma_decimal_is_numeral(o[3] as nat);
    let a = decimal(o[0] as nat);
    let b = decimal(o[1] as nat);
    let c = decimal(o[2] as nat);
    let d = decimal(o[3] as nat);
    assert(dotted_quad(o) == a + seq!['.'] + b + seq!['.'] + c + seq!['.'] + d);
    assert(is_decimal_numeral(a, o[0] as int));
    assert(is_decimal_numeral(b, o[1] as int));
    assert(is_decimal_numeral(c, o[2] as int));
    assert(is_decimal_numeral(d, o[3] as int));
}

/// Appends one character to a string (`String::push`). The contract claims
/// that the text afterwards is the text before followed by `c`.
#[verifier::external_body]
pub(crate) fn push_char(s: &mut String, c: char)
    ensures
        final(s)@ == old(s)@.push(c),
{
    s.push(c);
}

/// Empties a string, keeping its buffer (`String::clear`). The contract
/// claims that the text afterwards is empty.
#[verifier::external_body]
pub(crate) fn clear_string(s: &mut String)
    ensures
        final(s)@ == Seq::<char>::empty(),
{
    s.clear();
}

/// Appends the decimal notation of `n` to `out`.
pub fn push_decimal(out: &mut String, n: u64)
    ensures
        final(out)@ == old(out)@ + decimal(n as nat),
    decreases n,
{
    let ghost start = out@;
    if n >= 10 {
        push_decimal(out, n / 10);
    }
    let d: u8 = (n % 10) as u8;
    push_char(out, (d + 48) as char);
    assert(out@ =~= start + decimal(n as nat));
}

/// The dotted-decimal notation of the IPv4 address with octets `a`.
pub open spec fn dotted_quad(a: Seq<u8>) -> Seq<char> {
    decimal(a[0] as nat) + seq!['.'] + decimal(a[1] as nat) + seq!['.'] + decimal(a[2] as nat)
        + seq!['.'] + decimal(a[3] as nat)
}

/// The text that the standard library's `Display` of `Ipv6Addr` gives for
/// the address with these sixteen octets.
pub uninterp spec fn ipv6_text(octets: Seq<u8>) -> Seq<char>;

/// Formats an IPv6 address (`Ipv6Addr::from`, then its `Display` through
/// `to_string`). The contract claims only that the text is a function of the
/// sixteen octets alone and is not empty (the shortest is `::`); what that
/// text is (RFC 5952 notation) is left unsaid.
#[verifier::external_body]
pub(crate) fn ipv6_to_string(octets: [u8; 16]) -> (s: String)
    ensures
        s@ == ipv6_text(octets@),
        s@.len() > 0,
{
    core::net::Ipv6Addr::from(octets).to_string()
}

/// Appends the dotted-decimal notation of the IPv4 address `a.b.c.d` to `out`.
pub fn push_ipv4(out: &mut String, a: u8, b: u8, c: u8, d: u8)
    ensures
        final(out)@ == old(out)@ + dotted_quad(seq![a, b, c, d]),
{
    let ghost start = out@;
    push_decimal(out, a as u64);
    push_char(out, '.');
    push_decimal(out, b as u64);
    push_char(out, '.');
    push_decimal(out, c as u64);
    push_char(out, '.');
    push_decimal(out, d as u64);
    let ghost q = seq![a, b, c, d];
    assert(q[0] == a && q[1] == b && q[2] == c && q[3] == d);
    assert(out@ =~= start + dotted_quad(q));
}

/// Appends the text of the IPv6 address with these octets to `out`.
pub fn push_ipv6(out: &mut String, octets: [u8; 16])
    ensures
        final(out)@ == old(out)@ + ipv6_text(octets@),
        ipv6_text(octets@).len() > 0,
{
    let t = ipv6_to_string(octets);
    out.append(t.as_str());
}

} // verus!
