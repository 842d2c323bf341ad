//! Decimal and hexadecimal numerals over character sequences: validity,
//! value, rendering, and round-trip lemmas.
use vstd::prelude::*;

verus! {

// ---------------------------------------------------------------------------
// Digit characters
// ---------------------------------------------------------------------------
pub open spec fn is_dec_digit(c: char) -> bool {
    48 <= c as u32 && c as u32 <= 57
}

pub open spec fn dec_val(c: char) -> nat {
    (c as u32 - 48) as nat
}

pub open spec fn is_hex_digit(c: char) -> bool {
    let u = c as u32;
    (48 <= u && u <= 57) || (97 <= u && u <= 102) || (65 <= u && u <= 70)
}

pub open spec fn hex_val(c: char) -> nat {
    let u = c as u32;
    if 48 <= u && u <= 57 {
        (u - 48) as nat
    } else if 97 <= u && u <= 102 {
        (u - 87) as nat
    } else {
        (u - 55) as nat
    }
}

// ---------------------------------------------------------------------------
// Numerals as sequences
// ---------------------------------------------------------------------------
/// A non-empty, all-decimal-digit sequence.
pub open spec fn dec_seq_valid(s: Seq<char>) -> bool {
    s.len() > 0 && forall|i: int| 0 <= i < s.len() ==> is_dec_digit(s[i])
}

pub open spec fn dec_seq_val(s: Seq<char>) -> nat
    decreases s.len(),
{
    if s.len() == 0 {
        0
    } else {
        dec_seq_val(s.drop_last()) * 10 + dec_val(s.last())
    }
}

/// A non-empty, all-hexadecimal-digit sequence.
pub open spec fn hex_seq_valid(s: Seq<char>) -> bool {
    s.len() > 0 && forall|i: int| 0 <= i < s.len() ==> is_hex_digit(s[i])
}

pub open spec fn hex_seq_val(s: Seq<char>) -> nat
    decreases s.len(),
{
    if s.len() == 0 {
        0
    } else {
        hex_seq_val(s.drop_last()) * 16 + hex_val(s.last())
    }
}

/// The value of a numeral only grows as digits are appended.
proof fn lemma_dec_prefix_le(s: Seq<char>, j: int)
    requires
        0 <= j <= s.len(),
    ensures
        dec_seq_val(s.take(j)) <= dec_seq_val(s),
    decreases s.len(),
{
    if j < s.len() {
        assert(s.drop_last().take(j) =~= s.take(j));
        lemma_dec_prefix_le(s.drop_last(), j);
    } else {
        assert(s.take(j) =~= s);
    }
}

// ---------------------------------------------------------------------------
// Parsing
// ---------------------------------------------------------------------------
/// Parse `s` as an unsigned decimal numeral.
pub fn parse_u64(s: &str) -> (r: Option<u64>)
    ensures
        match r {
            Some(v) => dec_seq_valid(s@) && v as nat == dec_seq_val(s@),
            None => !dec_seq_valid(s@) || dec_seq_val(s@) > u64::MAX,
        },
{
    let n = s.unicode_len();
    if n == 0 {
        return None;
    }
    let mut acc: u64 = 0;
    let mut i: usize = 0;
    while i < n
        invariant
            i <= n,
            n == s@.len(),
            forall|k: int| 0 <= k < i ==> is_dec_digit(s@[k]),
            acc as nat == dec_seq_val(s@.take(i as int)),
        decreases n - i,
    {
        let c = s.get_char(i);
        let u = c as u32;
        if !(48 <= u && u <= 57) {
            return None;
        }
        let d: u64 = (u - 48) as u64;
        if acc > (u64::MAX - d) / 10 {
            proof {
                assert(acc * 10 + d > u64::MAX) by (nonlinear_arith)
                    requires
                        acc > (u64::MAX - d) / 10,
                        d <= 9,
                ;
                assert(s@.take(i + 1).drop_last() =~= s@.take(i as int));
                assert(s@.take(i + 1).last() == s@[i as int]);
                assert(dec_seq_val(s@.take(i + 1)) > u64::MAX);
                lemma_dec_prefix_le(s@, i + 1);
            }
            return None;
        }
        proof {
            assert(acc * 10 + d <= u64::MAX) by (nonlinear_arith)
                requires
                    acc <= (u64::MAX - d) / 10,
                    d <= 9,
            ;
            assert(s@.take(i + 1).drop_last() =~= s@.take(i as int));
            assert(s@.take(i + 1).last() == s@[i as int]);
        }
        acc = acc * 10 + d;
        i += 1;
    }
    proof {
        assert(s@.take(n as int) =~= s@);
    }
    Some(acc)
}

/// Parse `s` as an unsigned decimal numeral that must fit in `u32`.
pub fn parse_u32(s: &str) -> (r: Option<u32>)
    ensures
        match r {
            Some(v) => dec_seq_valid(s@) && v as nat == dec_seq_val(s@),
            None => !dec_seq_valid(s@) || dec_seq_val(s@) > u32::MAX,
        },
{
    match parse_u64(s) {
        Some(v) => if v <= 0xffff_ffff {
            Some(v as u32)
        } else {
            None
        },
        None => None,
    }
}

/// Parse `s` as an unsigned decimal numeral that must fit in `u16`.
pub fn parse_u16(s: &str) -> (r: Option<u16>)
    ensures
        match r {
            Some(v) => dec_seq_valid(s@) && v as nat == dec_seq_val(s@),
            None => !dec_seq_valid(s@) || dec_seq_val(s@) > u16::MAX,
        },
{
    match parse_u64(s) {
        Some(v) => if v <= 0xffff {
            Some(v as u16)
        } else {
            None
        },
        None => None,
    }
}

/// Parse `s` as an unsigned decimal numeral that must fit in `usize`.
pub fn parse_usize(s: &str) -> (r: Option<usize>)
    ensures
        match r {
            Some(v) => dec_seq_valid(s@) && v as nat == dec_seq_val(s@),
            None => !dec_seq_valid(s@) || dec_seq_val(s@) > usize::MAX,
        },
{
    match parse_u64(s) {
        Some(v) => {
            if v <= usize::MAX as u64 {
                Some(v as usize)
            } else {
                None
            }
        },
        None => None,
    }
}

// ---------------------------------------------------------------------------
// Signed numerals
// ---------------------------------------------------------------------------
/// An optionally signed decimal numeral, as `i32::from_str` accepts.
pub open spec fn signed_seq_valid(s: Seq<char>) -> bool {
    if s.len() > 0 && (s[0] == '-' || s[0] == '+') {
        dec_seq_valid(s.subrange(1, s.len() as int))
    } else {
        dec_seq_valid(s)
    }
}

pub open spec fn signed_seq_val(s: Seq<char>) -> int {
    if s.len() > 0 && s[0] == '-' {
        -(dec_seq_val(s.subrange(1, s.len() as int)) as int)
    } else if s.len() > 0 && s[0] == '+' {
        dec_seq_val(s.subrange(1, s.len() as int)) as int
    } else {
        dec_seq_val(s) as int
    }
}

/// Parse `s` as an optionally signed decimal numeral fitting in `i32`.
pub fn parse_i32(s: &str) -> (r: Option<i32>)
    ensures
        match r {
            Some(v) => signed_seq_valid(s@) && v as int == signed_seq_val(s@),
            None => !signed_seq_valid(s@) || signed_seq_val(s@) > i32::MAX || signed_seq_val(s@)
                < i32::MIN,
        },
{
    let n = s.unicode_len();
    if n == 0 {
        return None;
    }
    let c0 = s.get_char(0);
    if c0 == '-' {
        let rest = s.substring_char(1, n);
        match parse_u64(rest) {
            Some(v) => if v <= 0x8000_0000 {
                Some((-(v as i64)) as i32)
            } else {
                None
            },
            None => None,
        }
    } else if c0 == '+' {
        let rest = s.substring_char(1, n);
        match parse_u64(rest) {
            Some(v) => if v <= 0x7fff_ffff {
                Some(v as i32)
            } else {
                None
            },
            None => None,
        }
    } else {
        match parse_u64(s) {
            Some(v) => if v <= 0x7fff_ffff {
                Some(v as i32)
            } else {
                None
            },
            None => None,
        }
    }
}

// ---------------------------------------------------------------------------
// Rendering
// ---------------------------------------------------------------------------
pub open spec fn dec_digit_char(n: nat) -> char {
    if n == 0 {
        '0'
    } else if n == 1 {
        '1'
    } else if n == 2 {
        '2'
    } else if n == 3 {
        '3'
    } else if n == 4 {
        '4'
    } else if n == 5 {
        '5'
    } else if n == 6 {
        '6'
    } else if n == 7 {
        '7'
    } else if n == 8 {
        '8'
    } else {
        '9'
    }
}

/// The shortest decimal numeral for `n`.
pub open spec fn dec_chars(n: nat) -> Seq<char>
    decreases n,
{
    if n < 10 {
        seq![dec_digit_char(n)]
    } else {
        dec_chars(n / 10).push(dec_digit_char(n % 10))
    }
}

/// An optionally negated decimal numeral for `v`.
pub open spec fn signed_dec_chars(v: int) -> Seq<char> {
    if v < 0 {
        seq!['-'] + dec_chars((-v) as nat)
    } else {
        dec_chars(v as nat)
    }
}

pub open spec fn hex_digit_char(n: nat) -> char {
    if n < 10 {
        dec_digit_char(n)
    } else if n == 10 {
        'a'
    } else if n == 11 {
        'b'
    } else if n == 12 {
        'c'
    } else if n == 13 {
        'd'
    } else if n == 14 {
        'e'
    } else {
        'f'
    }
}

/// The shortest lowercase hexadecimal numeral for `n`.
pub open spec fn hex_chars(n: nat) -> Seq<char>
    decreases n,
{
    if n < 16 {
        seq![hex_digit_char(n)]
    } else {
        hex_chars(n / 16).push(hex_digit_char(n % 16))
    }
}

fn dec_digit_exec(d: u64) -> (c: char)
    requires
        d < 10,
    ensures
        c == dec_digit_char(d as nat),
{
    if d == 0 {
        '0'
    } else if d == 1 {
        '1'
    } else if d == 2 {
        '2'
    } else if d == 3 {
        '3'
    } else if d == 4 {
        '4'
    } else if d == 5 {
        '5'
    } else if d == 6 {
        '6'
    } else if d == 7 {
        '7'
    } else if d == 8 {
        '8'
    } else {
        '9'
    }
}

fn hex_digit_exec(d: u16) -> (c: char)
    requires
        d < 16,
    ensures
        c == hex_digit_char(d as nat),
{
    if d < 10 {
        dec_digit_exec(d as u64)
    } else if d == 10 {
        'a'
    } else if d == 11 {
        'b'
    } else if d == 12 {
        'c'
    } else if d == 13 {
        'd'
    } else if d == 14 {
        'e'
    } else {
        'f'
    }
}

/// Append the decimal numeral of `n` to `s`.
pub fn push_dec_u64(s: &mut String, n: u64)
    ensures
        final(s)@ == old(s)@ + dec_chars(n as nat),
    decreases n,
{
    if n >= 10 {
        push_dec_u64(s, n / 10);
    }
    crate::text::push_char(s, dec_digit_exec(n % 10));
    proof {
        if n < 10 {
            assert(old(s)@ + dec_chars(n as nat) =~= old(s)@.push(dec_digit_char(n as nat)));
        } else {
            assert(old(s)@ + dec_chars(n as nat) =~= (old(s)@ + dec_chars((n / 10) as nat)).push(
                dec_digit_char((n % 10) as nat),
            ));
        }
    }
}

/// Append the optionally negated decimal numeral of `v` to `s`.
pub fn push_dec_i32(s: &mut String, v: i32)
    ensures
        final(s)@ == old(s)@ + signed_dec_chars(v as int),
{
    if v < 0 {
        crate::text::push_char(s, '-');
        let m: u64 = (-(v as i64)) as u64;
        push_dec_u64(s, m);
        proof {
            assert(old(s)@ + signed_dec_chars(v as int) =~= old(s)@.push('-') + dec_chars(
                (-(v as int)) as nat,
            ));
        }
    } else {
        push_dec_u64(s, v as u64);
    }
}

/// Append the lowercase hexadecimal numeral of `n` to `s`.
pub fn push_hex_u32(s: &mut String, n: u32)
    ensures
        final(s)@ == old(s)@ + hex_chars(n as nat),
    decreases n,
{
    if n >= 16 {
        push_hex_u32(s, n / 16);
    }
    crate::text::push_char(s, hex_digit_exec((n % 16) as u16));
    proof {
        if n < 16 {
            assert(old(s)@ + hex_chars(n as nat) =~= old(s)@.push(hex_digit_char(n as nat)));
        } else {
            assert(old(s)@ + hex_chars(n as nat) =~= (old(s)@ + hex_chars((n / 16) as nat)).push(
                hex_digit_char((n % 16) as nat),
            ));
        }
    }
}

/// Append the lowercase hexadecimal numeral of `n` to `s`.
pub fn push_hex_u16(s: &mut String, n: u16)
    ensures
        final(s)@ == old(s)@ + hex_chars(n as nat),
{
    push_hex_u32(s, n as u32);
}

// ---------------------------------------------------------------------------
// Round trips
// ---------------------------------------------------------------------------
/// The decimal digit characters carry their own value.
proof fn lemma_dec_digit_char_val(d: nat)
    requires
        d < 10,
    ensures
        is_dec_digit(dec_digit_char(d)),
        dec_val(dec_digit_char(d)) == d,
{
    if d == 0 {
        assert(dec_val('0') == 0);
    } else if d == 1 {
        assert(dec_val('1') == 1);
    } else if d == 2 {
        assert(dec_val('2') == 2);
    } else if d == 3 {
        assert(dec_val('3') == 3);
    } else if d == 4 {
        assert(dec_val('4') == 4);
    } else if d == 5 {
        assert(dec_val('5') == 5);
    } else if d == 6 {
        assert(dec_val('6') == 6);
    } else if d == 7 {
        assert(dec_val('7') == 7);
    } else if d == 8 {
        assert(dec_val('8') == 8);
    } else {
        assert(dec_val('9') == 9);
    }
}

/// The hexadecimal digit characters carry their own value.
proof fn lemma_hex_digit_char_val(d: nat)
    requires
        d < 16,
    ensures
        is_hex_digit(hex_digit_char(d)),
        hex_val(hex_digit_char(d)) == d,
{
    if d < 10 {
        lemma_dec_digit_char_val(d);
    } else if d == 10 {
        assert(hex_val('a') == 10);
    } else if d == 11 {
        assert(hex_val('b') == 11);
    } else if d == 12 {
        assert(hex_val('c') == 12);
    } else if d == 13 {
        assert(hex_val('d') == 13);
    } else if d == 14 {
        assert(hex_val('e') == 14);
    } else {
        assert(hex_val('f') == 15);
    }
}

/// Rendering a number and reading the numeral back is the identity.
pub proof fn lemma_dec_chars_val(n: nat)
    ensures
        dec_seq_valid(dec_chars(n)),
        dec_seq_val(dec_chars(n)) == n,
    decreases n,
{
    if n < 10 {
        lemma_dec_digit_char_val(n);
        let w = dec_chars(n);
        assert(w == seq![dec_digit_char(n)]);
        assert(w.last() == dec_digit_char(n));
        assert(w.drop_last() =~= Seq::<char>::empty());
        assert(dec_seq_val(Seq::<char>::empty()) == 0);
        assert(dec_seq_val(w) == 0 * 10 + dec_val(w.last()));
    } else {
        lemma_dec_chars_val(n / 10);
        lemma_dec_digit_char_val(n % 10);
        let w = dec_chars(n);
        assert(w == dec_chars(n / 10).push(dec_digit_char(n % 10)));
        assert(w.drop_last() =~= dec_chars(n / 10));
        assert(w.last() == dec_digit_char(n % 10));
        assert(dec_seq_val(w) == dec_seq_val(dec_chars(n / 10)) * 10 + (n % 10));
        assert forall|i: int| 0 <= i < w.len() implies is_dec_digit(w[i]) by {
            if i < w.len() - 1 {
                assert(w[i] == dec_chars(n / 10)[i]);
            }
        }
    }
}

/// Rendering a number in hexadecimal and reading it back is the identity.
pub proof fn lemma_hex_chars_val(n: nat)
    ensures
        hex_seq_valid(hex_chars(n)),
        hex_seq_val(hex_chars(n)) == n,
    decreases n,
{
    if n < 16 {
        lemma_hex_digit_char_val(n);
        let w = hex_chars(n);
        assert(w == seq![hex_digit_char(n)]);
        assert(w.last() == hex_digit_char(n));
        assert(w.drop_last() =~= Seq::<char>::empty());
        assert(hex_seq_val(Seq::<char>::empty()) == 0);
        assert(hex_seq_val(w) == 0 * 16 + hex_val(w.last()));
    } else {
        lemma_hex_chars_val(n / 16);
        lemma_hex_digit_char_val(n % 16);
        let w = hex_chars(n);
        assert(w == hex_chars(n / 16).push(hex_digit_char(n % 16)));
        assert(w.drop_last() =~= hex_chars(n / 16));
        assert(w.last() == hex_digit_char(n % 16));
        assert(hex_seq_val(w) == hex_seq_val(hex_chars(n / 16)) * 16 + (n % 16));
        assert forall|i: int| 0 <= i < w.len() implies is_hex_digit(w[i]) by {
            if i < w.len() - 1 {
                assert(w[i] == hex_chars(n / 16)[i]);
            }
        }
    }
}

/// A hexadecimal numeral of at most four digits stays under `0x10000`.
pub proof fn lemma_hex_val_bound(s: Seq<char>)
    requires
        forall|i: int| 0 <= i < s.len() ==> is_hex_digit(s[i]),
    ensures
        s.len() <= 1 ==> hex_seq_val(s) < 0x10,
        s.len() <= 2 ==> hex_seq_val(s) < 0x100,
        s.len() <= 3 ==> hex_seq_val(s) < 0x1000,
        s.len() <= 4 ==> hex_seq_val(s) < 0x10000,
    decreases s.len(),
{
    if s.len() > 0 {
        let t = s.drop_last();
        assert forall|i: int| 0 <= i < t.len() implies is_hex_digit(t[i]) by {
            assert(t[i] == s[i]);
        }
        lemma_hex_val_bound(t);
        assert(hex_val(s.last()) < 16);
    }
}

/// A `u16` renders to at most four hexadecimal digits.
pub proof fn lemma_hex_chars_len_u16(n: nat)
    requires
        n <= 0xffff,
    ensures
        1 <= hex_chars(n).len() <= 4,
{
    let n1 = n / 16;
    let n2 = n1 / 16;
    let n3 = n2 / 16;
    assert(n3 < 16);
    assert(hex_chars(n3).len() == 1);
    assert(hex_chars(n2).len() <= 2);
    assert(hex_chars(n1).len() <= 3);
    assert(hex_chars(n).len() <= 4);
    assert(hex_chars(n).len() >= 1);
}

} // verus!
