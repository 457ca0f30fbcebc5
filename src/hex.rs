use vstd::prelude::*;
use vstd::string::StrSliceExecFns;

verus! {

/// The sixteen lowercase hex digits, by value.
pub open spec fn hex_digit(d: nat) -> char {
    if d == 0 { '0' } else if d == 1 { '1' } else if d == 2 { '2' } else if d == 3 { '3' }
    else if d == 4 { '4' } else if d == 5 { '5' } else if d == 6 { '6' } else if d == 7 { '7' }
    else if d == 8 { '8' } else if d == 9 { '9' } else if d == 10 { 'a' } else if d == 11 { 'b' }
    else if d == 12 { 'c' } else if d == 13 { 'd' } else if d == 14 { 'e' } else { 'f' }
}

pub open spec fn is_hex_digit(c: char) -> bool {
    c == '0' || c == '1' || c == '2' || c == '3' || c == '4' || c == '5' || c == '6' || c == '7'
    || c == '8' || c == '9' || c == 'a' || c == 'b' || c == 'c' || c == 'd' || c == 'e' || c == 'f'
}

pub open spec fn digit_value(c: char) -> nat {
    if c == '0' { 0 } else if c == '1' { 1 } else if c == '2' { 2 } else if c == '3' { 3 }
    else if c == '4' { 4 } else if c == '5' { 5 } else if c == '6' { 6 } else if c == '7' { 7 }
    else if c == '8' { 8 } else if c == '9' { 9 } else if c == 'a' { 10 } else if c == 'b' { 11 }
    else if c == 'c' { 12 } else if c == 'd' { 13 } else if c == 'e' { 14 } else { 15 }
}

pub open spec fn all_hex(s: Seq<char>) -> bool {
    forall|i: int| 0 <= i < s.len() ==> is_hex_digit(#[trigger] s[i])
}

/// The number that a string of hex digits denotes, most significant digit first.
pub open spec fn hex_value(s: Seq<char>) -> nat
    decreases s.len(),
{
    if s.len() == 0 {
        0
    } else {
        hex_value(s.drop_last()) * 16 + digit_value(s.last())
    }
}

/// `s` is the sixteen-digit field that carries `v`.
pub open spec fn hex_field(s: Seq<char>, v: u64) -> bool {
    s.len() == 16 && all_hex(s) && hex_value(s) == v as nat
}

/// Two digits for each byte, high half first.
pub open spec fn hex_bytes(b: Seq<u8>) -> Seq<char> {
    Seq::new(
        2 * b.len(),
        |i: int|
            if i % 2 == 0 {
                hex_digit((b[i / 2] / 16) as nat)
            } else {
                hex_digit((b[i / 2] % 16) as nat)
            },
    )
}

pub open spec fn pow16(k: nat) -> nat
    decreases k,
{
    if k == 0 {
        1
    } else {
        16 * pow16((k - 1) as nat)
    }
}

proof fn lemma_digit_round_trip(d: nat)
    requires
        d < 16,
    ensures
        is_hex_digit(hex_digit(d)),
        digit_value(hex_digit(d)) == d,
{
}

proof fn lemma_char_round_trip(c: char)
    requires
        is_hex_digit(c),
    ensures
        digit_value(c) < 16,
        hex_digit(digit_value(c)) == c,
{
}

proof fn lemma_pow16_mono(k: nat)
    requires
        k <= 15,
    ensures
        1 <= pow16(k) <= pow16(15),
    decreases 15 - k,
{
    lemma_pow16_values();
    if k < 15 {
        lemma_pow16_mono(k + 1);
        let x = pow16(k);
        assert(pow16(k + 1) == 16 * x);
        assert(1 <= x <= 16 * x) by (nonlinear_arith)
            requires 1 <= 16 * x;
    }
}

proof fn lemma_pow16_values()
    ensures
        pow16(15) == 0x1000_0000_0000_0000,
        pow16(16) == 0x1_0000_0000_0000_0000,
{
    reveal_with_fuel(pow16, 17);
}

/// The hex encoding of bytes is injective.
pub proof fn lemma_hex_bytes_injective(a: Seq<u8>, b: Seq<u8>)
    requires
        hex_bytes(a) == hex_bytes(b),
    ensures
        a == b,
{
    assert(2 * a.len() == hex_bytes(a).len());
    assert forall|j: int| 0 <= j < a.len() implies a[j] == b[j] by {
        let ha = hex_bytes(a);
        let hb = hex_bytes(b);
        assert(ha[2 * j] == hb[2 * j]);
        assert(ha[2 * j + 1] == hb[2 * j + 1]);
        lemma_digit_round_trip((a[j] / 16) as nat);
        lemma_digit_round_trip((b[j] / 16) as nat);
        lemma_digit_round_trip((a[j] % 16) as nat);
        lemma_digit_round_trip((b[j] % 16) as nat);
    }
    assert(a =~= b);
}

/// An encoding of bytes consists of hex digits only.
pub proof fn lemma_hex_bytes_all_hex(a: Seq<u8>)
    ensures
        all_hex(hex_bytes(a)),
{
    assert forall|i: int| 0 <= i < hex_bytes(a).len() implies is_hex_digit(#[trigger] hex_bytes(a)[i]) by {
        lemma_digit_round_trip((a[i / 2] / 16) as nat);
        lemma_digit_round_trip((a[i / 2] % 16) as nat);
    }
}

/// Relies on `String::push`: the character is appended.
#[verifier::external_body]
pub(crate) fn push_char(s: &mut String, c: char)
    ensures
        final(s)@ == old(s)@.push(c),
{
    s.push(c);
}

/// The characters of a text, in order.
pub(crate) fn chars_of(s: &str) -> (r: Vec<char>)
    ensures
        r@ == s@,
{
    let n = s.unicode_len();
    let mut out: Vec<char> = Vec::new();
    let mut i: usize = 0;
    while i < n
        invariant
            i <= n,
            n == s@.len(),
            out@ == s@.subrange(0, i as int),
        decreases n - i,
    {
        out.push(s.get_char(i));
        i = i + 1;
        proof { assert(out@ =~= s@.subrange(0, i as int)); }
    }
    proof { assert(s@.subrange(0, n as int) =~= s@); }
    out
}

pub(crate) fn digit_char(d: u64) -> (c: char)
    requires
        d < 16,
    ensures
        c == hex_digit(d as nat),
{
    if d == 0 { '0' } else if d == 1 { '1' } else if d == 2 { '2' } else if d == 3 { '3' }
    else if d == 4 { '4' } else if d == 5 { '5' } else if d == 6 { '6' } else if d == 7 { '7' }
    else if d == 8 { '8' } else if d == 9 { '9' } else if d == 10 { 'a' } else if d == 11 { 'b' }
    else if d == 12 { 'c' } else if d == 13 { 'd' } else if d == 14 { 'e' } else { 'f' }
}

pub(crate) fn char_digit(c: char) -> (r: Option<u64>)
    ensures
        r is Some <==> is_hex_digit(c),
        r matches Some(d) ==> d as nat == digit_value(c) && d < 16,
{
    if c == '0' { Some(0) } else if c == '1' { Some(1) } else if c == '2' { Some(2) }
    else if c == '3' { Some(3) } else if c == '4' { Some(4) } else if c == '5' { Some(5) }
    else if c == '6' { Some(6) } else if c == '7' { Some(7) } else if c == '8' { Some(8) }
    else if c == '9' { Some(9) } else if c == 'a' { Some(10) } else if c == 'b' { Some(11) }
    else if c == 'c' { Some(12) } else if c == 'd' { Some(13) } else if c == 'e' { Some(14) }
    else if c == 'f' { Some(15) } else { None }
}

/// Appends the sixteen-digit field of `n`.
pub(crate) fn push_hex_u64(out: &mut String, n: u64)
    ensures
        final(out)@.len() == old(out)@.len() + 16,
        final(out)@.subrange(0, old(out)@.len() as int) == old(out)@,
        hex_field(final(out)@.subrange(old(out)@.len() as int, old(out)@.len() + 16int), n),
{
    let ghost start = out@.len() as int;
    let mut p: u64 = 0x1000_0000_0000_0000;
    let mut k: usize = 0;
    proof {
        lemma_pow16_values();
        assert(out@.subrange(start, start) =~= Seq::<char>::empty());
        assert(n as nat / pow16(16) == 0) by (nonlinear_arith)
            requires n < 0x1_0000_0000_0000_0000nat, pow16(16) == 0x1_0000_0000_0000_0000nat;
    }
    while k < 16
        invariant
            k <= 16,
            out@.len() == start + k,
            out@.subrange(0, start) == old(out)@,
            start == old(out)@.len(),
            k < 16 ==> p as nat == pow16((15 - k) as nat),
            all_hex(out@.subrange(start, start + k)),
            hex_value(out@.subrange(start, start + k)) == n as nat / pow16((16 - k) as nat),
        decreases 16 - k,
    {
        let ghost prev = out@;
        let ghost m = (15 - k) as nat;
        proof { lemma_pow16_mono(m); }
        let q = n / p;
        let d = q % 16;
        let c = digit_char(d);
        push_char(out, c);
        proof {
            lemma_digit_round_trip(d as nat);
            let seg = out@.subrange(start, start + k + 1);
            assert(seg.drop_last() =~= prev.subrange(start, start + k));
            assert(seg.last() == c);
            assert(pow16((16 - k) as nat) == 16 * pow16(m));
            vstd::arithmetic::div_mod::lemma_div_denominator(n as int, pow16(m) as int, 16);
            assert(pow16(m) * 16 == 16 * pow16(m)) by (nonlinear_arith);
            assert(q as int == (q as int / 16) * 16 + q as int % 16) by (nonlinear_arith);
            assert(hex_value(seg) == n as nat / pow16(m));
            assert(out@.subrange(0, start) =~= prev.subrange(0, start));
            assert forall|i: int| 0 <= i < seg.len() implies is_hex_digit(#[trigger] seg[i]) by {
                if i < k {
                    assert(seg[i] == prev.subrange(start, start + k)[i]);
                }
            }
        }
        if k < 15 {
            proof {
                assert(pow16(m) == 16 * pow16((m - 1) as nat));
                assert((16 * pow16((m - 1) as nat)) / 16 == pow16((m - 1) as nat)) by (nonlinear_arith);
            }
            p = p / 16;
        }
        k = k + 1;
    }
    proof {
        assert(pow16(0) == 1);
        assert(n as nat / 1 == n as nat);
    }
}

/// Reads a sixteen-digit field.
pub(crate) fn parse_hex_u64(s: &Vec<char>, from: usize) -> (r: Option<u64>)
    requires
        from + 16 <= s@.len(),
    ensures
        r is Some <==> all_hex(s@.subrange(from as int, from + 16)),
        r matches Some(v) ==> hex_field(s@.subrange(from as int, from + 16), v),
{
    let total = s.len();
    let mut v: u64 = 0;
    let mut k: usize = 0;
    let ghost seg = s@.subrange(from as int, from + 16);
    proof { lemma_pow16_values(); }
    while k < 16
        invariant
            k <= 16,
            from + 16 <= s@.len(),
            total == s@.len(),
            seg == s@.subrange(from as int, from + 16),
            all_hex(seg.subrange(0, k as int)),
            v as nat == hex_value(seg.subrange(0, k as int)),
            v < pow16(k as nat),
            pow16(16) == 0x1_0000_0000_0000_0000nat,
            pow16(15) == 0x1000_0000_0000_0000nat,
        decreases 16 - k,
    {
        match char_digit(s[from + k]) {
            None => {
                proof {
                    assert(seg[k as int] == s@[from + k]);
                    assert(!all_hex(seg));
                }
                return None;
            },
            Some(d) => {
                proof {
                    if k < 16 {
                        lemma_pow16_mono(k as nat);
                    }
                    assert(pow16(k as nat + 1) == 16 * pow16(k as nat));
                    assert(v * 16 + d < 16 * pow16(k as nat)) by (nonlinear_arith)
                        requires v < pow16(k as nat), d < 16;
                    let t = seg.subrange(0, k + 1);
                    assert(t.drop_last() =~= seg.subrange(0, k as int));
                    assert(t.last() == s@[from + k]);
                    assert forall|i: int| 0 <= i < t.len() implies is_hex_digit(#[trigger] t[i]) by {
                        if i < k {
                            assert(t[i] == seg.subrange(0, k as int)[i]);
                        }
                    }
                }
                v = v * 16 + d;
                k = k + 1;
            },
        }
    }
    proof { assert(seg.subrange(0, 16) =~= seg); }
    Some(v)
}

/// Appends two digits for each byte.
pub(crate) fn push_hex_bytes(out: &mut String, b: &Vec<u8>)
    ensures
        final(out)@ == old(out)@ + hex_bytes(b@),
{
    let ghost start = old(out)@;
    let mut i: usize = 0;
    while i < b.len()
        invariant
            i <= b@.len(),
            out@ == start + hex_bytes(b@.subrange(0, i as int)),
        decreases b@.len() - i,
    {
        let x = b[i];
        let hi = digit_char((x / 16) as u64);
        let lo = digit_char((x % 16) as u64);
        push_char(out, hi);
        push_char(out, lo);
        proof {
            assert(hex_bytes(b@.subrange(0, i + 1)) =~= hex_bytes(b@.subrange(0, i as int)).push(hi).push(lo));
        }
        i = i + 1;
    }
    proof { assert(b@.subrange(0, b@.len() as int) =~= b@); }
}

/// Reads `2 * n` hex digits as `n` bytes.
pub(crate) fn parse_hex_bytes(s: &Vec<char>, from: usize, n: usize) -> (r: Option<Vec<u8>>)
    requires
        from + 2 * n <= s@.len(),
    ensures
        r is Some <==> all_hex(s@.subrange(from as int, from + 2 * n)),
        r matches Some(v) ==> hex_bytes(v@) == s@.subrange(from as int, from + 2 * n),
{
    let total = s.len();
    let ghost seg = s@.subrange(from as int, from + 2 * n);
    let mut out: Vec<u8> = Vec::new();
    let mut i: usize = 0;
    while i < n
        invariant
            i <= n,
            from + 2 * n <= s@.len(),
            total == s@.len(),
            seg == s@.subrange(from as int, from + 2 * n),
            out@.len() == i,
            hex_bytes(out@) == seg.subrange(0, 2 * i),
            all_hex(seg.subrange(0, 2 * i)),
        decreases n - i,
    {
        let c1 = s[from + 2 * i];
        let c2 = s[from + 2 * i + 1];
        let o1 = char_digit(c1);
        let o2 = char_digit(c2);
        if o1.is_none() || o2.is_none() {
            proof {
                assert(seg[2 * i] == c1);
                assert(seg[2 * i + 1] == c2);
            }
            return None;
        }
        let hi = o1.unwrap();
        let lo = o2.unwrap();
        let byte: u8 = (hi * 16 + lo) as u8;
        let ghost prev = out@;
        out.push(byte);
        proof {
            assert(byte / 16 == hi && byte % 16 == lo);
            lemma_char_round_trip(c1);
            lemma_char_round_trip(c2);
            assert(seg[2 * i] == c1);
            assert(seg[2 * i + 1] == c2);
            assert(hex_bytes(out@) =~= seg.subrange(0, 2 * i + 2)) by {
                assert forall|j: int| 0 <= j < 2 * i implies hex_bytes(out@)[j] == hex_bytes(prev)[j] by {
                    assert(out@[j / 2] == prev[j / 2]);
                }
                assert forall|j: int| 0 <= j < 2 * i implies #[trigger] seg.subrange(0, 2 * i + 2)[j] == seg.subrange(0, 2 * i)[j] by {}
            }
            assert forall|j: int| 0 <= j < 2 * i + 2 implies is_hex_digit(#[trigger] seg.subrange(0, 2 * i + 2)[j]) by {
                if j < 2 * i {
                    assert(seg.subrange(0, 2 * i + 2)[j] == seg.subrange(0, 2 * i)[j]);
                }
            }
        }
        i = i + 1;
    }
    proof { assert(seg.subrange(0, 2 * n) =~= seg); }
    Some(out)
}

} // verus!
