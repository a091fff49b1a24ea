//! Text helpers shared by the library: decimal and hexadecimal rendering,
//! UTF-8 widths and byte offsets.

use vstd::prelude::*;

verus! {

/// The character of a decimal digit.
pub open spec fn digit_char(d: nat) -> char {
    if d == 0 { '0' } else if d == 1 { '1' } else if d == 2 { '2' } else if d == 3 { '3' }
    else if d == 4 { '4' } else if d == 5 { '5' } else if d == 6 { '6' } else if d == 7 { '7' }
    else if d == 8 { '8' } else { '9' }
}

/// Decimal rendering of a natural number, without leading zeros.
pub open spec fn decimal(n: nat) -> Seq<char>
    decreases n,
{
    if n < 10 {
        seq![digit_char(n)]
    } else {
        decimal(n / 10).push(digit_char(n % 10))
    }
}

/// Value of a decimal digit character.
pub open spec fn valor_digito(c: char) -> int {
    (c as u32) as int - 48
}

/// Whether `c` is one of the characters `0` to `9`.
pub open spec fn es_digito(c: char) -> bool {
    48 <= (c as u32) <= 57
}

/// The number that a sequence of decimal digits denotes, most significant first.
pub open spec fn valor_decimal(ds: Seq<char>) -> int
    decreases ds.len(),
{
    if ds.len() == 0 {
        0
    } else {
        valor_decimal(ds.drop_last()) * 10 + valor_digito(ds.last())
    }
}

proof fn lemma_digit_char(d: nat)
    requires
        d < 10,
    ensures
        es_digito(digit_char(d)),
        valor_digito(digit_char(d)) == d,
{
}

/// The decimal rendering of `n` is made of digits, reads back as `n`, and has
/// no leading zero (save for `0` itself).
pub proof fn ley_decimal(n: nat)
    ensures
        decimal(n).len() >= 1,
        forall|k: int| 0 <= k < decimal(n).len() ==> es_digito(#[trigger] decimal(n)[k]),
        valor_decimal(decimal(n)) == n,
        n > 0 ==> decimal(n)[0] != '0',
        n < 10 <==> decimal(n).len() == 1,
    decreases n,
{
    if n < 10 {
        lemma_digit_char(n);
        assert(decimal(n).drop_last() =~= Seq::<char>::empty());
        assert(valor_decimal(Seq::<char>::empty()) == 0);
        assert(decimal(n).last() == digit_char(n));
    } else {
        ley_decimal(n / 10);
        lemma_digit_char(n % 10);
        let d = decimal(n);
        assert(d.drop_last() =~= decimal(n / 10));
        assert(d[0] == decimal(n / 10)[0]);
        assert(forall|k: int| 0 <= k < decimal(n / 10).len() ==> d[k] == decimal(n / 10)[k]);
        assert(d.last() == digit_char(n % 10));
        assert(valor_decimal(d) == valor_decimal(decimal(n / 10)) * 10 + valor_digito(d.last()));
        assert((n / 10) * 10 + n % 10 == n) by (nonlinear_arith);
    }
}

fn digit_str(d: u64) -> (r: &'static str)
    requires
        d < 10,
    ensures
        r@ == seq![digit_char(d as nat)],
{
    proof {
        reveal_strlit("0");
        reveal_strlit("1");
        reveal_strlit("2");
        reveal_strlit("3");
        reveal_strlit("4");
        reveal_strlit("5");
        reveal_strlit("6");
        reveal_strlit("7");
        reveal_strlit("8");
        reveal_strlit("9");
    }
    match d {
        0 => "0",
        1 => "1",
        2 => "2",
        3 => "3",
        4 => "4",
        5 => "5",
        6 => "6",
        7 => "7",
        8 => "8",
        _ => "9",
    }
}

/// Appends the decimal rendering of `n` to `out`.
pub fn push_decimal(out: &mut String, n: u64)
    ensures
        final(out)@ == old(out)@ + decimal(n as nat),
    decreases n,
{
    if n >= 10 {
        push_decimal(out, n / 10);
    }
    out.append(digit_str(n % 10));
}


/// Number of bytes that the UTF-8 encoding of `c` takes.
pub open spec fn utf8_width(c: char) -> nat {
    if (c as u32) < 0x80 {
        1
    } else if (c as u32) < 0x800 {
        2
    } else if (c as u32) < 0x10000 {
        3
    } else {
        4
    }
}

/// Number of bytes that the UTF-8 encoding of `cs` takes.
pub open spec fn utf8_len(cs: Seq<char>) -> nat
    decreases cs.len(),
{
    if cs.len() == 0 {
        0
    } else {
        utf8_len(cs.drop_last()) + utf8_width(cs.last())
    }
}

/// Byte offset, in the UTF-8 encoding of `cs`, of the character at index `k`.
pub open spec fn byte_offset(cs: Seq<char>, k: int) -> nat {
    utf8_len(cs.take(k))
}

pub proof fn lemma_byte_offset_step(cs: Seq<char>, k: int)
    requires
        0 <= k < cs.len(),
    ensures
        byte_offset(cs, k + 1) == byte_offset(cs, k) + utf8_width(cs[k]),
{
    assert(cs.take(k + 1).drop_last() =~= cs.take(k));
}

pub proof fn lemma_byte_offset_bound(cs: Seq<char>, k: int)
    requires
        0 <= k <= cs.len(),
    ensures
        byte_offset(cs, k) <= utf8_len(cs),
    decreases cs.len(),
{
    if k < cs.len() {
        lemma_byte_offset_bound(cs.drop_last(), k);
        assert(cs.drop_last().take(k) =~= cs.take(k));
    } else {
        assert(cs.take(k) =~= cs);
    }
}

/// Byte width of a character in UTF-8.
pub fn char_width(c: char) -> (w: usize)
    ensures
        w == utf8_width(c),
{
    let u = c as u32;
    if u < 0x80 {
        1
    } else if u < 0x800 {
        2
    } else if u < 0x10000 {
        3
    } else {
        4
    }
}

/// `utf8_len` counted from the front.
proof fn lemma_utf8_len_primero(cs: Seq<char>)
    requires
        cs.len() > 0,
    ensures
        utf8_len(cs) == utf8_width(cs[0]) + utf8_len(cs.drop_first()),
    decreases cs.len(),
{
    if cs.len() > 1 {
        lemma_utf8_len_primero(cs.drop_last());
        assert(cs.drop_last().drop_first() =~= cs.drop_first().drop_last());
        assert(cs.drop_first().last() == cs.last());
        assert(cs.drop_last()[0] == cs[0]);
        assert(utf8_len(cs.drop_first()) == utf8_len(cs.drop_first().drop_last()) + utf8_width(
            cs.drop_first().last(),
        ));
    } else {
        assert(cs.drop_first().len() == 0);
        assert(cs.drop_last().len() == 0);
        assert(cs.last() == cs[0]);
        assert(utf8_len(cs.drop_last()) == 0);
        assert(utf8_len(cs.drop_first()) == 0);
    }
}

/// The UTF-8 encoding of `cs` takes `utf8_len(cs)` bytes.
proof fn lemma_utf8_len_codificado(cs: Seq<char>)
    ensures
        vstd::utf8::encode_utf8(cs).len() == utf8_len(cs),
    decreases cs.len(),
{
    if cs.len() > 0 {
        let c = cs[0];
        vstd::utf8::char_is_scalar(c);
        lemma_utf8_len_primero(cs);
        lemma_utf8_len_codificado(cs.drop_first());
        assert(vstd::utf8::encode_scalar(c as u32).len() == utf8_width(c));
    }
}

/// Number of bytes of `s`, which holds UTF-8.
pub fn byte_length(s: &str) -> (n: usize)
    ensures
        n == utf8_len(s@),
{
    let bytes = s.as_bytes();
    proof {
        vstd::slice::axiom_spec_len(bytes);
        lemma_utf8_len_codificado(s@);
    }
    bytes.len()
}

/// The characters of `s`, in order.
pub fn chars_of(s: &str) -> (v: Vec<char>)
    ensures
        v@ == s@,
{
    let mut v: Vec<char> = Vec::new();
    for c in it: s.chars()
        invariant
            v@ == it.seq().take(it.index()),
    {
        v.push(c);
    }
    v
}


/// The character of a hexadecimal digit, in lower case.
pub open spec fn hex_char(d: nat) -> char {
    if d < 10 {
        digit_char(d)
    } else if d == 10 {
        'a'
    } else if d == 11 {
        'b'
    } else if d == 12 {
        'c'
    } else if d == 13 {
        'd'
    } else if d == 14 {
        'e'
    } else {
        'f'
    }
}

/// The `k` lowest hexadecimal digits of `n`, most significant first, padded with zeros.
pub open spec fn hex_fijo(n: nat, k: nat) -> Seq<char>
    decreases k,
{
    if k == 0 {
        seq![]
    } else {
        hex_fijo(n / 16, (k - 1) as nat).push(hex_char(n % 16))
    }
}

/// Value of a lower-case hexadecimal digit character.
pub open spec fn valor_hex_digito(c: char) -> int {
    if (c as u32) <= 57 {
        (c as u32) as int - 48
    } else {
        (c as u32) as int - 87
    }
}

/// Whether `c` is one of `0` to `9` or `a` to `f`.
pub open spec fn es_hex_digito(c: char) -> bool {
    48 <= (c as u32) <= 57 || 97 <= (c as u32) <= 102
}

/// The number that a sequence of hexadecimal digits denotes, most significant first.
pub open spec fn valor_hex(ds: Seq<char>) -> int
    decreases ds.len(),
{
    if ds.len() == 0 {
        0
    } else {
        valor_hex(ds.drop_last()) * 16 + valor_hex_digito(ds.last())
    }
}

/// The `k`-digit hexadecimal rendering of `n` has `k` lower-case hexadecimal
/// digits and reads back as `n` modulo `16^k`.
pub proof fn ley_hex_fijo(n: nat, k: nat)
    ensures
        hex_fijo(n, k).len() == k,
        forall|i: int| 0 <= i < k ==> es_hex_digito(#[trigger] hex_fijo(n, k)[i]),
        valor_hex(hex_fijo(n, k)) == (n as int) % vstd::arithmetic::power::pow(16, k),
    decreases k,
{
    reveal(vstd::arithmetic::power::pow);
    if k == 0 {
        assert(valor_hex(hex_fijo(n, k)) == 0);
        assert(vstd::arithmetic::power::pow(16, k) == 1);
    } else {
        let km = (k - 1) as nat;
        ley_hex_fijo(n / 16, km);
        let h = hex_fijo(n, k);
        let prev = hex_fijo(n / 16, km);
        let d = (n % 16) as nat;
        assert(h.drop_last() =~= prev);
        assert(forall|i: int| 0 <= i < km ==> h[i] == prev[i]);
        assert(h.last() == hex_char(d));
        assert(es_hex_digito(hex_char(d)) && valor_hex_digito(hex_char(d)) == d);
        let p = vstd::arithmetic::power::pow(16, km);
        vstd::arithmetic::power::lemma_pow_positive(16, km);
        assert(vstd::arithmetic::power::pow(16, k) == 16 * p);
        vstd::arithmetic::div_mod::lemma_mod_breakdown(n as int, 16, p);
        assert(valor_hex(h) == valor_hex(prev) * 16 + d);
        assert(valor_hex(prev) == ((n / 16) as int) % p);
        assert(((n as int) / 16) % p * 16 == 16 * (((n as int) / 16) % p)) by (nonlinear_arith);
    }
}

fn hex_str(d: u64) -> (r: &'static str)
    requires
        d < 16,
    ensures
        r@ == seq![hex_char(d as nat)],
{
    proof {
        reveal_strlit("a");
        reveal_strlit("b");
        reveal_strlit("c");
        reveal_strlit("d");
        reveal_strlit("e");
        reveal_strlit("f");
    }
    if d < 10 {
        digit_str(d)
    } else if d == 10 {
        "a"
    } else if d == 11 {
        "b"
    } else if d == 12 {
        "c"
    } else if d == 13 {
        "d"
    } else if d == 14 {
        "e"
    } else {
        "f"
    }
}

/// Appends the `k` lowest hexadecimal digits of `n` to `out`.
pub fn push_hex_fijo(out: &mut String, n: u64, k: usize)
    ensures
        final(out)@ == old(out)@ + hex_fijo(n as nat, k as nat),
    decreases k,
{
    if k > 0 {
        push_hex_fijo(out, n / 16, k - 1);
        out.append(hex_str(n % 16));
        assert(old(out)@ + hex_fijo((n / 16) as nat, (k - 1) as nat) + seq![hex_char((n % 16) as nat)]
            =~= old(out)@ + hex_fijo(n as nat, k as nat));
    } else {
        assert(old(out)@ + hex_fijo(n as nat, k as nat) =~= old(out)@);
    }
}

} // verus!
