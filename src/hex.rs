//! Lower-case hexadecimal text for fixed-width numbers and byte strings.
use vstd::prelude::*;

verus! {

/// The character for a digit value below 16.
pub open spec fn hex_char(d: nat) -> char {
    if d < 10 {
        (('0' as u32) + d) as char
    } else {
        (('a' as u32) + (d - 10)) as char
    }
}

pub open spec fn is_hex_char(c: char) -> bool {
    ('0' <= c && c <= '9') || ('a' <= c && c <= 'f')
}

pub open spec fn digit_val(c: char) -> nat {
    if '0' <= c && c <= '9' {
        ((c as u32) - ('0' as u32)) as nat
    } else {
        ((c as u32) - ('a' as u32) + 10) as nat
    }
}

pub open spec fn pow16(k: nat) -> nat
    decreases k,
{
    if k == 0 {
        1
    } else {
        16 * pow16((k - 1) as nat)
    }
}

/// The `k` lowest hexadecimal digits of `n`, most significant first.
pub open spec fn hex_num(n: nat, k: nat) -> Seq<char>
    decreases k,
{
    if k == 0 {
        Seq::empty()
    } else {
        hex_num(n / 16, (k - 1) as nat).push(hex_char(n % 16))
    }
}

/// The number that a string of hexadecimal digits denotes.
pub open spec fn hex_val(s: Seq<char>) -> nat
    decreases s.len(),
{
    if s.len() == 0 {
        0
    } else {
        hex_val(s.drop_last()) * 16 + digit_val(s.last())
    }
}

pub open spec fn all_hex(s: Seq<char>) -> bool {
    forall|i: int| 0 <= i < s.len() ==> is_hex_char(#[trigger] s[i])
}

/// Two digits per byte, high nibble first.
pub open spec fn hex_bytes(b: Seq<u8>) -> Seq<char> {
    Seq::new(
        2 * b.len(),
        |j: int|
            if j % 2 == 0 {
                hex_char((b[j / 2] / 16) as nat)
            } else {
                hex_char((b[j / 2] % 16) as nat)
            },
    )
}

/// The bytes that a string of hexadecimal digit pairs denotes.
pub open spec fn bytes_of_hex(s: Seq<char>) -> Seq<u8> {
    Seq::new(
        s.len() / 2,
        |i: int| (digit_val(s[2 * i]) * 16 + digit_val(s[2 * i + 1])) as u8,
    )
}

pub proof fn lemma_hex_char(d: nat)
    requires
        d < 16,
    ensures
        is_hex_char(hex_char(d)),
        digit_val(hex_char(d)) == d,
{
}

pub proof fn lemma_digit_val(c: char)
    requires
        is_hex_char(c),
    ensures
        digit_val(c) < 16,
        hex_char(digit_val(c)) == c,
{
}

pub proof fn lemma_hex_num_shape(n: nat, k: nat)
    ensures
        hex_num(n, k).len() == k,
        all_hex(hex_num(n, k)),
    decreases k,
{
    if k > 0 {
        lemma_hex_num_shape(n / 16, (k - 1) as nat);
        lemma_hex_char(n % 16);
    }
}

pub proof fn lemma_pow16_pos(k: nat)
    ensures
        pow16(k) >= 1,
    decreases k,
{
    if k > 0 {
        lemma_pow16_pos((k - 1) as nat);
    }
}

/// Reading back the digits of a number that fits gives the number.
pub proof fn lemma_hex_num_val(n: nat, k: nat)
    requires
        n < pow16(k),
    ensures
        hex_val(hex_num(n, k)) == n,
    decreases k,
{
    if k > 0 {
        let p = pow16((k - 1) as nat);
        assert(n / 16 < p) by (nonlinear_arith)
            requires
                n < 16 * p,
        ;
        lemma_hex_num_val(n / 16, (k - 1) as nat);
        lemma_hex_char(n % 16);
        let s = hex_num(n, k);
        assert(s.drop_last() == hex_num(n / 16, (k - 1) as nat));
    }
}

/// A string of digits is the fixed-width text of its own value.
pub proof fn lemma_hex_val_num(s: Seq<char>)
    requires
        all_hex(s),
    ensures
        hex_num(hex_val(s), s.len()) == s,
        hex_val(s) < pow16(s.len()),
    decreases s.len(),
{
    if s.len() > 0 {
        let t = s.drop_last();
        assert(all_hex(t)) by {
            assert forall|i: int| 0 <= i < t.len() implies is_hex_char(#[trigger] t[i]) by {
                assert(t[i] == s[i]);
            }
        }
        lemma_hex_val_num(t);
        assert(is_hex_char(s[s.len() - 1]));
        lemma_digit_val(s.last());
        let v = hex_val(s);
        let d = digit_val(s.last());
        let h = hex_val(t);
        let p = pow16(t.len());
        assert(v == h * 16 + d);
        assert(v / 16 == h && v % 16 == d) by (nonlinear_arith)
            requires
                v == h * 16 + d,
                d < 16,
        ;
        assert(v < 16 * p) by (nonlinear_arith)
            requires
                v == h * 16 + d,
                d < 16,
                h < p,
        ;
        assert(hex_num(v, s.len()) =~= s);
    }
}

pub proof fn lemma_hex_bytes_shape(b: Seq<u8>)
    ensures
        hex_bytes(b).len() == 2 * b.len(),
        all_hex(hex_bytes(b)),
        bytes_of_hex(hex_bytes(b)) == b,
{
    let s = hex_bytes(b);
    assert forall|i: int| 0 <= i < s.len() implies is_hex_char(#[trigger] s[i]) by {
        lemma_hex_char((b[i / 2] / 16) as nat);
        lemma_hex_char((b[i / 2] % 16) as nat);
    }
    assert forall|i: int| 0 <= i < b.len() implies #[trigger] bytes_of_hex(s)[i] == b[i] by {
        assert((2 * i) % 2 == 0 && (2 * i) / 2 == i);
        assert((2 * i + 1) % 2 == 1 && (2 * i + 1) / 2 == i);
        lemma_hex_char((b[i] / 16) as nat);
        lemma_hex_char((b[i] % 16) as nat);
    }
    assert(bytes_of_hex(s) =~= b);
}

/// Well-formed digit pairs are the text of the bytes they denote.
pub proof fn lemma_bytes_of_hex(s: Seq<char>)
    requires
        all_hex(s),
        s.len() % 2 == 0,
    ensures
        hex_bytes(bytes_of_hex(s)) == s,
{
    let b = bytes_of_hex(s);
    assert forall|j: int| 0 <= j < s.len() implies #[trigger] hex_bytes(b)[j] == s[j] by {
        let i = j / 2;
        assert(0 <= i < b.len());
        assert(is_hex_char(s[2 * i]) && is_hex_char(s[2 * i + 1]));
        lemma_digit_val(s[2 * i]);
        lemma_digit_val(s[2 * i + 1]);
        let hi = digit_val(s[2 * i]);
        let lo = digit_val(s[2 * i + 1]);
        assert((hi * 16 + lo) / 16 == hi && (hi * 16 + lo) % 16 == lo && hi * 16 + lo < 256)
            by (nonlinear_arith)
            requires
                hi < 16,
                lo < 16,
        ;
        assert(b[i] == (hi * 16 + lo) as u8);
    }
    assert(hex_bytes(b) =~= s);
}


/// Appends the digit for `d` to `s`.
pub fn push_hex_digit(s: &mut String, d: u8)
    requires
        d < 16,
    ensures
        final(s)@ == old(s)@.push(hex_char(d as nat)),
{
    proof {
        reveal_strlit("0123456789abcdef");
    }
    let digits: &str = "0123456789abcdef";
    assert(digits@.len() == 16);
    let one = digits.substring_char(d as usize, d as usize + 1);
    assert(one@ =~= seq![hex_char(d as nat)]) by {
        assert(digits@[d as int] == hex_char(d as nat));
    }
    s.append(one);
}

/// Appends the `k` lowest hexadecimal digits of `n` to `s`.
pub fn push_hex_num(s: &mut String, n: u64, k: usize)
    ensures
        final(s)@ == old(s)@ + hex_num(n as nat, k as nat),
    decreases k,
{
    if k > 0 {
        push_hex_num(s, n / 16, k - 1);
        push_hex_digit(s, (n % 16) as u8);
        assert(hex_num(n as nat, k as nat) == hex_num((n / 16) as nat, (k - 1) as nat).push(
            hex_char((n % 16) as nat),
        ));
        assert(final(s)@ =~= old(s)@ + hex_num(n as nat, k as nat));
    } else {
        assert(final(s)@ =~= old(s)@ + hex_num(n as nat, k as nat));
    }
}

/// Appends the text of the bytes `b` to `s`.
pub fn push_hex_bytes(s: &mut String, b: &[u8])
    ensures
        final(s)@ == old(s)@ + hex_bytes(b@),
{
    let ghost start = s@;
    let mut i: usize = 0;
    while i < b.len()
        invariant
            i <= b@.len(),
            s@ == start + hex_bytes(b@.subrange(0, i as int)),
        decreases b@.len() - i,
    {
        let ghost before = s@;
        push_hex_digit(s, b[i] / 16);
        push_hex_digit(s, b[i] % 16);
        assert(hex_bytes(b@.subrange(0, i + 1)) =~= hex_bytes(b@.subrange(0, i as int)).push(
            hex_char((b[i as int] / 16) as nat),
        ).push(hex_char((b[i as int] % 16) as nat)));
        i = i + 1;
        assert(s@ =~= start + hex_bytes(b@.subrange(0, i as int)));
    }
    assert(b@.subrange(0, b@.len() as int) =~= b@);
}

/// The value of the digit at `i` of `t`, if it is one.
pub fn hex_digit_at(t: &str, i: usize) -> (r: Option<u8>)
    requires
        i < t@.len(),
    ensures
        match r {
            Some(d) => is_hex_char(t@[i as int]) && d as nat == digit_val(t@[i as int]),
            None => !is_hex_char(t@[i as int]),
        },
{
    let c = t.get_char(i);
    if '0' <= c && c <= '9' {
        Some(((c as u32) - ('0' as u32)) as u8)
    } else if 'a' <= c && c <= 'f' {
        Some(((c as u32) - ('a' as u32) + 10) as u8)
    } else {
        None
    }
}

/// The number written by the `k` digits of `t` that start at `from`, if they
/// are all digits.
pub fn read_hex_num(t: &str, from: usize, k: usize) -> (r: Option<u64>)
    requires
        k <= 16,
        from + k <= t@.len() <= usize::MAX,
    ensures
        match r {
            Some(n) => all_hex(t@.subrange(from as int, from + k)) && n as nat == hex_val(
                t@.subrange(from as int, from + k),
            ),
            None => !all_hex(t@.subrange(from as int, from + k)),
        },
{
    let ghost w = t@.subrange(from as int, from + k);
    let mut acc: u64 = 0;
    let mut i: usize = 0;
    while i < k
        invariant
            i <= k <= 16,
            from + k <= t@.len() <= usize::MAX,
            w == t@.subrange(from as int, from + k),
            all_hex(w.subrange(0, i as int)),
            acc as nat == hex_val(w.subrange(0, i as int)),
            acc < pow16(i as nat),
        decreases k - i,
    {
        match hex_digit_at(t, from + i) {
            None => {
                assert(w[i as int] == t@[from + i]);
                return None;
            },
            Some(d) => {
                let ghost prev = w.subrange(0, i as int);
                let ghost next = w.subrange(0, i + 1);
                assert(next.drop_last() =~= prev);
                assert(next.last() == t@[from + i]);
                proof {
                    assert(pow16(16) == 0x1_0000_0000_0000_0000) by {
                        reveal_with_fuel(pow16, 17);
                    }
                    assert(pow16((i + 1) as nat) == 16 * pow16(i as nat));
                    lemma_pow_mono((i + 1) as nat, 16);
                    assert(acc * 16 + d < 16 * pow16(i as nat)) by (nonlinear_arith)
                        requires
                            acc < pow16(i as nat),
                            d < 16,
                    ;
                }
                acc = acc * 16 + d as u64;
                assert(all_hex(next)) by {
                    assert forall|j: int| 0 <= j < next.len() implies is_hex_char(
                        #[trigger] next[j],
                    ) by {
                        if j < i {
                            assert(next[j] == prev[j]);
                        }
                    }
                }
                i = i + 1;
            },
        }
    }
    assert(w.subrange(0, k as int) =~= w);
    Some(acc)
}

pub proof fn lemma_pow_mono(a: nat, b: nat)
    requires
        a <= b,
    ensures
        pow16(a) <= pow16(b),
    decreases b,
{
    if a < b {
        lemma_pow_mono(a, (b - 1) as nat);
        lemma_pow16_pos((b - 1) as nat);
    }
}

/// The bytes written by the `2 * n` digits of `t` that start at `from`, if
/// they are all digits.
pub fn read_hex_bytes(t: &str, from: usize, n: usize) -> (r: Option<Vec<u8>>)
    requires
        from + 2 * n <= t@.len() <= usize::MAX,
    ensures
        match r {
            Some(b) => all_hex(t@.subrange(from as int, from + 2 * n)) && b@ == bytes_of_hex(
                t@.subrange(from as int, from + 2 * n),
            ),
            None => !all_hex(t@.subrange(from as int, from + 2 * n)),
        },
{
    let ghost w = t@.subrange(from as int, from + 2 * n);
    let mut out: Vec<u8> = Vec::new();
    let mut i: usize = 0;
    while i < n
        invariant
            i <= n,
            from + 2 * n <= t@.len() <= usize::MAX,
            w == t@.subrange(from as int, from + 2 * n),
            out@.len() == i,
            forall|j: int| 0 <= j < 2 * i ==> is_hex_char(#[trigger] w[j]),
            forall|j: int|
                0 <= j < i ==> #[trigger] out@[j] == (digit_val(w[2 * j]) * 16 + digit_val(
                    w[2 * j + 1],
                )) as u8,
        decreases n - i,
    {
        let hi = hex_digit_at(t, from + 2 * i);
        let lo = hex_digit_at(t, from + 2 * i + 1);
        assert(w[2 * i] == t@[from + 2 * i]);
        assert(w[2 * i + 1] == t@[from + 2 * i + 1]);
        match (hi, lo) {
            (Some(h), Some(l)) => {
                out.push(h * 16 + l);
                i = i + 1;
            },
            _ => {
                return None;
            },
        }
    }
    assert(out@ =~= bytes_of_hex(w));
    Some(out)
}


/// Relies on `char::from_u32`: the char with that code, or `None` where the
/// code is a surrogate or above `0x10FFFF`.
pub assume_specification[ char::from_u32 ](i: u32) -> (r: Option<char>)
    ensures
        r is Some <==> (i < 0xD800 || (0xE000 <= i && i <= 0x10FFFF)),
        r matches Some(c) ==> c as u32 == i,
;

/// Relies on `String::push`: appends one char.
pub assume_specification[ String::push ](s: &mut String, ch: char)
    ensures
        final(s)@ == old(s)@.push(ch),
;

/// Each char as the six hexadecimal digits of its code.
pub open spec fn hex_chars(e: Seq<char>) -> Seq<char> {
    Seq::new(6 * e.len(), |j: int| hex_num(e[j / 6] as u32 as nat, 6)[j % 6])
}

/// The six digits that stand for char `i` of a text.
pub open spec fn chunk(s: Seq<char>, i: int) -> Seq<char> {
    s.subrange(6 * i, 6 * i + 6)
}

pub proof fn lemma_hex_chars(e: Seq<char>)
    ensures
        hex_chars(e).len() == 6 * e.len(),
        all_hex(hex_chars(e)),
        forall|i: int|
            0 <= i < e.len() ==> #[trigger] chunk(hex_chars(e), i) == hex_num(
                e[i] as u32 as nat,
                6,
            ),
{
    let s = hex_chars(e);
    assert forall|j: int| 0 <= j < s.len() implies is_hex_char(#[trigger] s[j]) by {
        lemma_hex_num_shape(e[j / 6] as u32 as nat, 6);
        assert(0 <= j % 6 < 6);
    }
    assert forall|i: int| 0 <= i < e.len() implies #[trigger] chunk(hex_chars(e), i) == hex_num(
        e[i] as u32 as nat,
        6,
    ) by {
        lemma_hex_num_shape(e[i] as u32 as nat, 6);
        assert forall|k: int| 0 <= k < 6 implies chunk(s, i)[k] == hex_num(
            e[i] as u32 as nat,
            6,
        )[k] by {
            assert((6 * i + k) / 6 == i && (6 * i + k) % 6 == k);
        }
        assert(chunk(s, i) =~= hex_num(e[i] as u32 as nat, 6));
    }
}

/// A text of six-digit codes is the encoding of the chars with those codes.
pub proof fn lemma_hex_chars_of(s: Seq<char>, e: Seq<char>)
    requires
        s.len() == 6 * e.len(),
        forall|i: int|
            0 <= i < e.len() ==> all_hex(#[trigger] chunk(s, i)) && e[i] as u32 == hex_val(
                chunk(s, i),
            ),
    ensures
        hex_chars(e) == s,
{
    lemma_hex_chars(e);
    assert forall|j: int| 0 <= j < s.len() implies #[trigger] hex_chars(e)[j] == s[j] by {
        let i = j / 6;
        let k = j % 6;
        assert(0 <= i < e.len() && 0 <= k < 6 && j == 6 * i + k);
        lemma_hex_val_num(chunk(s, i));
        assert(chunk(s, i)[k] == s[j]);
        assert(chunk(hex_chars(e), i)[k] == hex_chars(e)[j]);
    }
    assert(hex_chars(e) =~= s);
}

/// Every char's code is a Unicode scalar value.
pub proof fn lemma_char_code(c: char)
    ensures
        (c as u32) < 0xD800 || (0xE000 <= (c as u32) && (c as u32) <= 0x10FFFF),
        (c as u32) < pow16(6),
{
    reveal_with_fuel(pow16, 7);
}

/// A char is fixed by its code.
pub proof fn lemma_char_of_code(c: char, d: char)
    requires
        c as u32 == d as u32,
    ensures
        c == d,
{
}

/// The encoding determines the chars.
pub proof fn lemma_hex_chars_injective(e1: Seq<char>, e2: Seq<char>)
    requires
        hex_chars(e1) == hex_chars(e2),
    ensures
        e1 == e2,
{
    lemma_hex_chars(e1);
    lemma_hex_chars(e2);
    assert(pow16(6) == 0x100_0000) by {
        reveal_with_fuel(pow16, 7);
    }
    assert forall|i: int| 0 <= i < e1.len() implies e1[i] == e2[i] by {
        assert(chunk(hex_chars(e1), i) == chunk(hex_chars(e2), i));
        lemma_char_code(e1[i]);
        lemma_char_code(e2[i]);
        lemma_hex_num_val(e1[i] as u32 as nat, 6);
        lemma_hex_num_val(e2[i] as u32 as nat, 6);
        assert(hex_num(e1[i] as u32 as nat, 6) == hex_num(e2[i] as u32 as nat, 6));
        lemma_char_of_code(e1[i], e2[i]);
    }
    assert(e1 =~= e2);
}

/// Appends the six-digit codes of the chars of `e` to `s`.
pub fn push_hex_chars(s: &mut String, e: &str)
    ensures
        final(s)@ == old(s)@ + hex_chars(e@),
{
    let ghost start = s@;
    let n = e.unicode_len();
    let mut i: usize = 0;
    while i < n
        invariant
            i <= n == e@.len(),
            s@ == start + hex_chars(e@.subrange(0, i as int)),
        decreases n - i,
    {
        let c = e.get_char(i);
        push_hex_num(s, c as u32 as u64, 6);
        proof {
            let a = e@.subrange(0, i as int);
            let b = e@.subrange(0, i + 1);
            let h = hex_num(c as u32 as nat, 6);
            lemma_hex_num_shape(c as u32 as nat, 6);
            assert forall|j: int| 0 <= j < 6 * b.len() implies #[trigger] hex_chars(b)[j] == (
            hex_chars(a) + h)[j] by {
                if j < 6 * i {
                    assert(j / 6 < i);
                    assert(b[j / 6] == a[j / 6]);
                } else {
                    assert(j / 6 == i && j % 6 == j - 6 * i);
                }
            }
            assert(hex_chars(b) =~= hex_chars(a) + h);
        }
        i = i + 1;
        assert(s@ =~= start + hex_chars(e@.subrange(0, i as int)));
    }
    assert(e@.subrange(0, n as int) =~= e@);
}

/// The chars whose six-digit codes are the `6 * n` characters of `t` from
/// `from`, if those are such codes.
pub fn read_hex_chars(t: &str, from: usize, n: usize) -> (r: Option<String>)
    requires
        from + 6 * n <= t@.len() <= usize::MAX,
    ensures
        match r {
            Some(e) => hex_chars(e@) == t@.subrange(from as int, from + 6 * n),
            None => forall|e: Seq<char>| hex_chars(e) != t@.subrange(from as int, from + 6 * n),
        },
{
    let ghost w = t@.subrange(from as int, from + 6 * n);
    let mut out = String::new();
    let mut i: usize = 0;
    while i < n
        invariant
            i <= n,
            from + 6 * n <= t@.len() <= usize::MAX,
            w == t@.subrange(from as int, from + 6 * n),
            out@.len() == i,
            forall|k: int|
                0 <= k < i ==> all_hex(#[trigger] chunk(w, k)) && out@[k] as u32 == hex_val(
                    chunk(w, k),
                ),
        decreases n - i,
    {
        assert(chunk(w, i as int) =~= t@.subrange(from + 6 * i, from + 6 * i + 6));
        match read_hex_num(t, from + 6 * i, 6) {
            None => {
                proof {
                    assert forall|e: Seq<char>| hex_chars(e) != w by {
                        if hex_chars(e) == w {
                            lemma_hex_chars(e);
                            assert(chunk(hex_chars(e), i as int) == hex_num(
                                e[i as int] as u32 as nat,
                                6,
                            ));
                            lemma_hex_num_shape(e[i as int] as u32 as nat, 6);
                        }
                    }
                }
                return None;
            },
            Some(v) => {
                proof {
                    lemma_hex_val_num(chunk(w, i as int));
                    assert(pow16(6) == 0x100_0000) by {
                        reveal_with_fuel(pow16, 7);
                    }
                }
                match char::from_u32(v as u32) {
                    None => {
                        proof {
                            assert forall|e: Seq<char>| hex_chars(e) != w by {
                                if hex_chars(e) == w {
                                    lemma_hex_chars(e);
                                    assert(chunk(hex_chars(e), i as int) == hex_num(
                                        e[i as int] as u32 as nat,
                                        6,
                                    ));
                                    lemma_char_code(e[i as int]);
                                    lemma_hex_num_val(e[i as int] as u32 as nat, 6);
                                }
                            }
                        }
                        return None;
                    },
                    Some(c) => {
                        out.push(c);
                        i = i + 1;
                    },
                }
            },
        }
    }
    proof {
        lemma_hex_chars_of(w, out@);
    }
    Some(out)
}

} // verus!
