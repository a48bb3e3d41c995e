//! Building strings: decimal and hexadecimal digits, and appending to a `String`.
use vstd::prelude::*;

verus! {

/// Relies on `String::push`: appends one character.
#[verifier::external_body]
pub(crate) fn push_char(s: &mut String, c: char)
    ensures
        final(s)@ == old(s)@.push(c),
{
    s.push(c);
}

/// The digit character for a value below sixteen, lower case.
pub open spec fn digit_char(d: int) -> char {
    if d < 10 {
        (('0' as int) + d) as char
    } else {
        (('a' as int) + d - 10) as char
    }
}

/// The decimal digits of `n`, most significant first, with no leading zero.
pub open spec fn decimal_digits(n: nat) -> Seq<char>
    decreases n,
{
    if n < 10 {
        seq![digit_char(n as int)]
    } else {
        decimal_digits(n / 10).push(digit_char((n % 10) as int))
    }
}

/// How `{}` writes an integer: a minus sign for negative values, then the digits.
pub open spec fn decimal(v: int) -> Seq<char> {
    if v < 0 {
        seq!['-'] + decimal_digits((-v) as nat)
    } else {
        decimal_digits(v as nat)
    }
}

/// How `{:x}` writes a run of bytes: two lower-case hex digits per byte.
pub open spec fn hex(bytes: Seq<u8>) -> Seq<char>
    decreases bytes.len(),
{
    if bytes.len() == 0 {
        Seq::empty()
    } else {
        hex(bytes.drop_last()).push(digit_char(bytes.last() as int / 16)).push(
            digit_char(bytes.last() as int % 16),
        )
    }
}

fn digit(d: u8) -> (c: char)
    requires
        d < 16,
    ensures
        c == digit_char(d as int),
{
    if d < 10 {
        ((48u8 + d) as char)
    } else {
        ((87u8 + d) as char)
    }
}

/// Appends the decimal digits of `n`.
fn push_decimal_digits(s: &mut Vec<char>, n: u64)
    ensures
        final(s)@ == old(s)@ + decimal_digits(n as nat),
    decreases n,
{
    if n >= 10 {
        push_decimal_digits(s, n / 10);
    }
    s.push(digit((n % 10) as u8));
    assert(final(s)@ =~= old(s)@ + decimal_digits(n as nat));
}

/// Appends `v` as `{}` writes it.
pub fn push_decimal(s: &mut Vec<char>, v: i32)
    ensures
        final(s)@ == old(s)@ + decimal(v as int),
{
    if v < 0 {
        s.push('-');
        let n: u64 = (-(v as i64)) as u64;
        push_decimal_digits(s, n);
        assert(final(s)@ =~= old(s)@ + decimal(v as int));
    } else {
        push_decimal_digits(s, v as u64);
    }
}

/// Appends the first `count` bytes of `bytes` as `{:x}` writes them.
pub fn push_hex(s: &mut Vec<char>, bytes: &[u8], count: usize)
    requires
        count <= bytes@.len(),
    ensures
        final(s)@ == old(s)@ + hex(bytes@.take(count as int)),
{
    let ghost start = s@;
    let mut k: usize = 0;
    while k < count
        invariant
            count <= bytes@.len(),
            k <= count,
            s@ == start + hex(bytes@.take(k as int)),
        decreases count - k,
    {
        let b = bytes[k];
        s.push(digit(b / 16));
        s.push(digit(b % 16));
        proof {
            assert(bytes@.take(k + 1).drop_last() =~= bytes@.take(k as int));
            assert(s@ =~= start + hex(bytes@.take(k + 1)));
        }
        k = k + 1;
    }
}

pub proof fn lemma_hex_len(bytes: Seq<u8>)
    ensures
        hex(bytes).len() == 2 * bytes.len(),
    decreases bytes.len(),
{
    if bytes.len() > 0 {
        lemma_hex_len(bytes.drop_last());
    }
}

/// The hex digits of the first `k` bytes are the first `2 * k` hex digits.
pub proof fn lemma_hex_prefix(bytes: Seq<u8>, k: int)
    requires
        0 <= k <= bytes.len(),
    ensures
        hex(bytes.take(k)) == hex(bytes).take(2 * k),
    decreases bytes.len(),
{
    lemma_hex_len(bytes);
    if k == bytes.len() {
        assert(bytes.take(k) =~= bytes);
        assert(hex(bytes).take(2 * k) =~= hex(bytes));
    } else {
        let rest = bytes.drop_last();
        lemma_hex_prefix(rest, k);
        lemma_hex_len(rest);
        assert(rest.take(k) =~= bytes.take(k));
        assert(hex(bytes).take(2 * k) =~= hex(rest).take(2 * k));
    }
}

/// The first `n` characters of `chars` (all of them if there are fewer) as a `String`.
pub fn collect_prefix(chars: &Vec<char>, n: usize) -> (r: String)
    ensures
        r@ == if n < chars@.len() {
            chars@.take(n as int)
        } else {
            chars@
        },
{
    let end = if n < chars.len() {
        n
    } else {
        chars.len()
    };
    let mut r = String::new();
    let mut k: usize = 0;
    while k < end
        invariant
            end <= chars@.len(),
            k <= end,
            r@ == chars@.take(k as int),
        decreases end - k,
    {
        push_char(&mut r, chars[k]);
        assert(r@ =~= chars@.take(k + 1));
        k = k + 1;
    }
    assert(chars@.take(end as int) =~= if n < chars@.len() {
        chars@.take(n as int)
    } else {
        chars@
    });
    r
}

} // verus!
