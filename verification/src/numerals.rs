//! The numerals of the codec: numbers written with 62 or 74 digits, and the
//! variable-width byte numbers of the compressed format.

use vstd::prelude::*;
use crate::text::to_text;

verus! {

/// The value of a digit of the 74-digit alphabet `0-9a-zA-Z!$%&+-.=?^{}`;
/// `None` for any other character. The first 62 digits are those of the
/// 62-digit alphabet.
pub open spec fn digit_value(c: char) -> Option<int> {
    if '0' <= c <= '9' {
        Some(c as int - '0' as int)
    } else if 'a' <= c <= 'z' {
        Some(c as int - 'a' as int + 10)
    } else if 'A' <= c <= 'Z' {
        Some(c as int - 'A' as int + 36)
    } else if c == '!' {
        Some(62)
    } else if c == '$' {
        Some(63)
    } else if c == '%' {
        Some(64)
    } else if c == '&' {
        Some(65)
    } else if c == '+' {
        Some(66)
    } else if c == '-' {
        Some(67)
    } else if c == '.' {
        Some(68)
    } else if c == '=' {
        Some(69)
    } else if c == '?' {
        Some(70)
    } else if c == '^' {
        Some(71)
    } else if c == '{' {
        Some(72)
    } else if c == '}' {
        Some(73)
    } else {
        None
    }
}

/// The digit of the alphabet with value `d`, for `0 <= d < 74`.
pub open spec fn digit_char(d: int) -> char {
    if d < 10 {
        ('0' as int + d) as char
    } else if d < 36 {
        ('a' as int + d - 10) as char
    } else if d < 62 {
        ('A' as int + d - 36) as char
    } else if d == 62 {
        '!'
    } else if d == 63 {
        '$'
    } else if d == 64 {
        '%'
    } else if d == 65 {
        '&'
    } else if d == 66 {
        '+'
    } else if d == 67 {
        '-'
    } else if d == 68 {
        '.'
    } else if d == 69 {
        '='
    } else if d == 70 {
        '?'
    } else if d == 71 {
        '^'
    } else if d == 72 {
        '{'
    } else {
        '}'
    }
}

/// Whether `c` is a digit of the alphabet with `base` digits.
pub open spec fn is_digit(c: char, base: int) -> bool {
    digit_value(c) is Some && digit_value(c)->0 < base
}

/// The number that `s` writes in the given base, most significant digit
/// first; the empty string writes 0. `None` where a character is no digit of
/// that base.
pub open spec fn number(s: Seq<char>, base: int) -> Option<nat>
    decreases s.len(),
{
    if s.len() == 0 {
        Some(0)
    } else {
        match number(s.drop_last(), base) {
            Some(front) => if is_digit(s.last(), base) {
                Some((front * base + digit_value(s.last())->0) as nat)
            } else {
                None
            },
            None => None,
        }
    }
}

/// `n` written with the 62 digits `0-9a-zA-Z`, most significant digit first
/// and without leading zeros; 0 is written as the empty string.
pub open spec fn numeral62(n: nat) -> Seq<char>
    decreases n,
{
    if n == 0 {
        Seq::empty()
    } else {
        numeral62(n / 62).push(digit_char((n % 62) as int))
    }
}

/// A number as a `usize` can hold it: itself, or `usize::MAX` if it is
/// larger.
pub open spec fn capped(n: nat) -> usize {
    if n > usize::MAX {
        usize::MAX
    } else {
        n as usize
    }
}

/// Each digit has the value under which it is found.
pub proof fn lemma_digit_round_trip(d: int)
    requires
        0 <= d < 74,
    ensures
        digit_value(digit_char(d)) == Some(d),
{
}

/// A 62-digit numeral consists of digits of that alphabet.
pub proof fn lemma_numeral62_digits(n: nat)
    ensures
        forall|i: int| 0 <= i < numeral62(n).len() ==> is_digit(#[trigger] numeral62(n)[i], 62),
    decreases n,
{
    if n > 0 {
        lemma_numeral62_digits(n / 62);
        lemma_digit_round_trip((n % 62) as int);
        assert forall|i: int| 0 <= i < numeral62(n).len() implies is_digit(
            #[trigger] numeral62(n)[i],
            62,
        ) by {
            if i < numeral62(n / 62).len() {
                assert(numeral62(n)[i] == numeral62(n / 62)[i]);
            }
        }
    }
}

/// A 62-digit numeral is read back as the number it was written for.
pub proof fn lemma_number_of_numeral62(n: nat)
    ensures
        number(numeral62(n), 62) == Some(n),
        n > 0 ==> numeral62(n).len() > 0,
    decreases n,
{
    if n > 0 {
        lemma_number_of_numeral62(n / 62);
        lemma_digit_round_trip((n % 62) as int);
        let s = numeral62(n);
        assert(s.drop_last() == numeral62(n / 62));
    }
}

/// The value of a character as a digit of the 74-digit alphabet.
pub fn decode_ch_74(ch: char) -> (r: Option<usize>)
    ensures
        match r {
            Some(v) => digit_value(ch) == Some(v as int),
            None => digit_value(ch) is None,
        },
{
    let code: u32 = ch as u32;
    if '0' <= ch && ch <= '9' {
        Some((code - 48) as usize)
    } else if 'a' <= ch && ch <= 'z' {
        Some((code - 97 + 10) as usize)
    } else if 'A' <= ch && ch <= 'Z' {
        Some((code - 65 + 36) as usize)
    } else if ch == '!' {
        Some(62)
    } else if ch == '$' {
        Some(63)
    } else if ch == '%' {
        Some(64)
    } else if ch == '&' {
        Some(65)
    } else if ch == '+' {
        Some(66)
    } else if ch == '-' {
        Some(67)
    } else if ch == '.' {
        Some(68)
    } else if ch == '=' {
        Some(69)
    } else if ch == '?' {
        Some(70)
    } else if ch == '^' {
        Some(71)
    } else if ch == '{' {
        Some(72)
    } else if ch == '}' {
        Some(73)
    } else {
        None
    }
}

/// The digit with value `d` of the 62-digit alphabet.
pub fn encode_ch_62(d: usize) -> (r: char)
    requires
        d < 62,
    ensures
        r == digit_char(d as int),
{
    let v: u8 = d as u8;
    if v < 10 {
        (48 + v) as char
    } else if v < 36 {
        (97 + v - 10) as char
    } else {
        (65 + v - 36) as char
    }
}

/// Reads the characters `from..to` of `s` as a number in the given base.
/// Returns `None` where one of them is no digit of that base, and else the
/// number, or `usize::MAX` if it is larger than that.
pub fn decode_digits(s: &[char], from: usize, to: usize, base: usize) -> (r: Option<usize>)
    requires
        from <= to <= s@.len(),
        2 <= base <= 74,
    ensures
        match r {
            Some(v) => number(s@.subrange(from as int, to as int), base as int) is Some && v
                == capped(number(s@.subrange(from as int, to as int), base as int)->0),
            None => number(s@.subrange(from as int, to as int), base as int) is None,
        },
{
    let mut acc: usize = 0;
    let mut i: usize = from;
    while i < to
        invariant
            from <= i <= to <= s@.len(),
            2 <= base <= 74,
            number(s@.subrange(from as int, i as int), base as int) is Some,
            acc == capped(number(s@.subrange(from as int, i as int), base as int)->0),
        decreases to - i,
    {
        let ghost front = s@.subrange(from as int, i as int);
        let ghost next = s@.subrange(from as int, i + 1);
        proof {
            assert(next.drop_last() == front);
            assert(next.last() == s@[i as int]);
        }
        match decode_ch_74(s[i]) {
            Some(d) => {
                if d >= base {
                    proof {
                        lemma_number_prefix(s@.subrange(from as int, to as int), i - from + 1, base as int);
                        assert(s@.subrange(from as int, to as int).take(i - from + 1) == next);
                    }
                    return None;
                }
                let ghost value = number(front, base as int)->0;
                let sum = match acc.checked_mul(base) {
                    Some(m) => m.checked_add(d),
                    None => None,
                };
                proof {
                    assert(number(next, base as int) == Some((value * base + d) as nat));
                    if value > acc {
                        assert(acc * base > usize::MAX) by (nonlinear_arith)
                            requires
                                acc == usize::MAX,
                                base >= 2,
                        ;
                        assert(value * base + d > usize::MAX) by (nonlinear_arith)
                            requires
                                value > usize::MAX,
                                base >= 2,
                                d >= 0,
                        ;
                    }
                }
                acc = match sum {
                    Some(a) => a,
                    None => usize::MAX,
                };
            },
            None => {
                proof {
                    lemma_number_prefix(s@.subrange(from as int, to as int), i - from + 1, base as int);
                    assert(s@.subrange(from as int, to as int).take(i - from + 1) == next);
                }
                return None;
            },
        }
        i = i + 1;
    }
    Some(acc)
}

/// A string with a beginning that writes no number writes no number.
pub proof fn lemma_number_prefix(s: Seq<char>, k: int, base: int)
    requires
        0 <= k <= s.len(),
        number(s.take(k), base) is None,
    ensures
        number(s, base) is None,
    decreases s.len() - k,
{
    if k < s.len() {
        assert(s.take(k + 1).drop_last() == s.take(k));
        lemma_number_prefix(s, k + 1, base);
    } else {
        assert(s.take(k) == s);
    }
}

/// Reads a string as a number written with the 62 digits `0-9a-zA-Z`.
pub fn decode_num_62(chars: &[char]) -> (r: Option<usize>)
    ensures
        match r {
            Some(v) => number(chars@, 62) is Some && v == capped(number(chars@, 62)->0),
            None => number(chars@, 62) is None,
        },
{
    proof {
        assert(chars@.subrange(0, chars@.len() as int) == chars@);
    }
    decode_digits(chars, 0, chars.len(), 62)
}

/// Reads a string as a number written with the 74 digits
/// `0-9a-zA-Z!$%&+-.=?^{}`.
pub fn decode_num_74(chars: &[char]) -> (r: Option<usize>)
    ensures
        match r {
            Some(v) => number(chars@, 74) is Some && v == capped(number(chars@, 74)->0),
            None => number(chars@, 74) is None,
        },
{
    proof {
        assert(chars@.subrange(0, chars@.len() as int) == chars@);
    }
    decode_digits(chars, 0, chars.len(), 74)
}

/// Appends to `out` the number `num` written with the 62 digits `0-9a-zA-Z`.
pub fn push_num_62(out: &mut Vec<char>, num: usize)
    ensures
        final(out)@ == old(out)@ + numeral62(num as nat),
{
    let mut digits: Vec<char> = Vec::new();
    let mut rest: usize = num;
    // The digits come out least significant first.
    while rest > 0
        invariant
            numeral62(num as nat) == numeral62(rest as nat) + digits@.reverse(),
        decreases rest,
    {
        let ghost before = digits@;
        digits.push(encode_ch_62(rest % 62));
        proof {
            let d = digit_char((rest % 62) as int);
            assert(digits@.reverse() == seq![d] + before.reverse());
            assert(numeral62(rest as nat) == numeral62((rest / 62) as nat).push(d));
            assert(numeral62((rest / 62) as nat).push(d) + before.reverse() == numeral62(
                (rest / 62) as nat,
            ) + (seq![d] + before.reverse()));
        }
        rest = rest / 62;
    }
    let mut i: usize = digits.len();
    while i > 0
        invariant
            i <= digits@.len(),
            out@ == old(out)@ + digits@.reverse().take(digits@.len() - i),
        decreases i,
    {
        let ghost before = out@;
        i = i - 1;
        out.push(digits[i]);
        proof {
            let r = digits@.reverse();
            assert(r.take(digits@.len() - i) == r.take(digits@.len() - i - 1).push(
                digits@[i as int],
            ));
        }
    }
    proof {
        assert(digits@.reverse().take(digits@.len() as int) == digits@.reverse());
        assert(numeral62(0) + digits@.reverse() == digits@.reverse());
    }
}

/// Writes a number with the 62 digits `0-9a-zA-Z`; 0 is written as the
/// empty string.
pub fn encode_num_62(num: usize) -> (result: String)
    ensures
        result@ == numeral62(num as nat),
{
    let mut out: Vec<char> = Vec::new();
    push_num_62(&mut out, num);
    proof {
        assert(Seq::<char>::empty() + numeral62(num as nat) =~= numeral62(num as nat));
    }
    to_text(out.as_slice())
}

/// Whether a byte is one of the four markers `0xfb..=0xfe` that carry the
/// leading part of a byte number.
pub open spec fn is_marker(b: u8) -> bool {
    0xfb <= b <= 0xfe
}

/// The leading part `p` of a byte number as markers: `p` written with the
/// digits 1 to 4 to the base 4, most significant digit first, the digit `d`
/// as the byte `0xfa + d`. 0 is written with no marker.
pub open spec fn prefix_bytes(p: nat) -> Seq<u8>
    decreases p,
{
    if p == 0 {
        Seq::empty()
    } else {
        let d = (p - 1) % 4 + 1;
        prefix_bytes(((p - d) / 4) as nat).push((0xfa + d) as u8)
    }
}

/// The byte number of `n`: the markers of `n / 251`, then the byte
/// `n % 251`.
pub open spec fn s64_bytes(n: nat) -> Seq<u8> {
    prefix_bytes(n / 251).push((n % 251) as u8)
}

/// The number that a row of markers carries, read on from `acc`.
pub open spec fn prefix_value(acc: nat, markers: Seq<u8>) -> nat
    decreases markers.len(),
{
    if markers.len() == 0 {
        acc
    } else {
        (prefix_value(acc, markers.drop_last()) * 4 + (markers.last() - 0xfa)) as nat
    }
}

/// Reads one byte number of `s` from position `at` on, with `acc` carried in
/// from the markers read so far. Returns the number and the position behind
/// it; `None` where the bytes end before the number does, and where the
/// separator `0xff` stands in its place.
pub open spec fn read_number(s: Seq<u8>, at: int, acc: nat) -> Option<(nat, int)>
    decreases s.len() - at,
{
    if at < 0 || at >= s.len() {
        None
    } else if is_marker(s[at]) {
        read_number(s, at + 1, (acc * 4 + (s[at] - 0xfa)) as nat)
    } else if s[at] == 0xff {
        None
    } else {
        Some(((acc * 251 + s[at]) as nat, at + 1))
    }
}

/// The markers of a leading part are markers, and carry that part.
pub proof fn lemma_prefix_bytes(p: nat)
    ensures
        forall|i: int| 0 <= i < prefix_bytes(p).len() ==> is_marker(#[trigger] prefix_bytes(p)[i]),
        prefix_value(0, prefix_bytes(p)) == p,
        prefix_bytes(p).len() <= p,
    decreases p,
{
    if p > 0 {
        let d = (p - 1) % 4 + 1;
        let q = ((p - d) / 4) as nat;
        lemma_prefix_bytes(q);
        assert(prefix_bytes(p).drop_last() == prefix_bytes(q));
        assert forall|i: int| 0 <= i < prefix_bytes(p).len() implies is_marker(
            #[trigger] prefix_bytes(p)[i],
        ) by {
            if i < prefix_bytes(q).len() {
                assert(prefix_bytes(p)[i] == prefix_bytes(q)[i]);
            }
        }
    }
}

/// Reading through a row of markers carries their number on.
pub proof fn lemma_read_markers(s: Seq<u8>, at: int, k: int, acc: nat)
    requires
        0 <= at,
        0 <= k,
        at + k <= s.len(),
        forall|i: int| at <= i < at + k ==> is_marker(#[trigger] s[i]),
    ensures
        read_number(s, at, acc) == read_number(
            s,
            at + k,
            prefix_value(acc, s.subrange(at, at + k)),
        ),
    decreases k,
{
    if k == 0 {
        assert(s.subrange(at, at) =~= Seq::<u8>::empty());
    } else {
        lemma_read_markers(s, at, k - 1, acc);
        let block = s.subrange(at, at + k);
        assert(block.drop_last() == s.subrange(at, at + k - 1));
        assert(block.last() == s[at + k - 1]);
        assert(is_marker(s[at + k - 1]));
    }
}

/// A byte number is read back as the number it was written for, wherever it
/// stands.
pub proof fn lemma_read_s64(front: Seq<u8>, n: nat, rest: Seq<u8>)
    ensures
        read_number(front + s64_bytes(n) + rest, front.len() as int, 0) == Some(
            (n, (front.len() + s64_bytes(n).len()) as int),
        ),
        s64_bytes(n).len() >= 1,
        s64_bytes(n).len() <= n / 251 + 1,
        forall|i: int| 0 <= i < s64_bytes(n).len() ==> #[trigger] s64_bytes(n)[i] != 0xff,
{
    let s = front + s64_bytes(n) + rest;
    let at = front.len() as int;
    let p = n / 251;
    let k = prefix_bytes(p).len() as int;
    lemma_prefix_bytes(p);
    assert forall|i: int| at <= i < at + k implies is_marker(#[trigger] s[i]) by {
        assert(s[i] == s64_bytes(n)[i - at]);
        assert(s64_bytes(n)[i - at] == prefix_bytes(p)[i - at]);
    }
    lemma_read_markers(s, at, k, 0);
    assert(s.subrange(at, at + k) == prefix_bytes(p));
    assert(s[at + k] == s64_bytes(n)[k]);
    assert(s[at + k] == (n % 251) as u8);
    assert forall|i: int| 0 <= i < s64_bytes(n).len() implies #[trigger] s64_bytes(n)[i]
        != 0xff by {
        if i < k {
            assert(s64_bytes(n)[i] == prefix_bytes(p)[i]);
        }
    }
}

/// Writes a number as a byte number.
pub fn encode_num_s64(num: usize) -> (res: Vec<u8>)
    ensures
        res@ == s64_bytes(num as nat),
{
    let mut changing: usize = num / 251;
    let mut markers: Vec<u8> = Vec::new();
    // The markers come out least significant first.
    while changing > 0
        invariant
            prefix_bytes((num / 251) as nat) == prefix_bytes(changing as nat) + markers@.reverse(),
        decreases changing,
    {
        let ghost before = markers@;
        let d: usize = (changing - 1) % 4 + 1;
        let marker: u8 = if d == 4 {
            0xfe
        } else if d == 3 {
            0xfd
        } else if d == 2 {
            0xfc
        } else {
            0xfb
        };
        markers.push(marker);
        proof {
            let q = ((changing - d) / 4) as nat;
            assert(markers@.reverse() == seq![marker] + before.reverse());
            assert(prefix_bytes(changing as nat) == prefix_bytes(q).push(marker));
            assert(prefix_bytes(q).push(marker) + before.reverse() == prefix_bytes(q) + (
            seq![marker] + before.reverse()));
        }
        changing = (changing - d) / 4;
    }
    let mut res: Vec<u8> = Vec::new();
    let mut i: usize = markers.len();
    while i > 0
        invariant
            i <= markers@.len(),
            res@ == markers@.reverse().take(markers@.len() - i),
        decreases i,
    {
        i = i - 1;
        res.push(markers[i]);
        proof {
            let r = markers@.reverse();
            assert(r.take(markers@.len() - i) == r.take(markers@.len() - i - 1).push(
                markers@[i as int],
            ));
        }
    }
    proof {
        assert(markers@.reverse().take(markers@.len() as int) == markers@.reverse());
        assert(prefix_bytes(0) + markers@.reverse() == markers@.reverse());
    }
    res.push((num % 251) as u8);
    res
}

/// Reads one byte number of `buf` from position `at` on. Returns the number,
/// or `usize::MAX` if it is larger than that, and the position behind it.
pub fn read_num_s64(buf: &[u8], at: usize) -> (r: Option<(usize, usize)>)
    ensures
        match r {
            Some((v, next)) => match read_number(buf@, at as int, 0) {
                Some(found) => v == capped(found.0) && next == found.1 && at < next
                    <= buf@.len(),
                None => false,
            },
            None => read_number(buf@, at as int, 0) is None,
        },
{
    let mut num: usize = 0;
    let mut i: usize = at;
    let ghost mut value: nat = 0;
    loop
        invariant
            at <= i,
            read_number(buf@, at as int, 0) == read_number(buf@, i as int, value),
            num == capped(value),
        decreases buf@.len() - i,
    {
        if i >= buf.len() {
            return None;
        }
        let ch = buf[i];
        if ch == 0xff {
            return None;
        }
        if ch >= 0xfb {
            let d: usize = (ch - 0xfa) as usize;
            proof {
                if value > num {
                    assert(value * 4 + d > usize::MAX);
                }
            }
            num = match num.checked_mul(4) {
                Some(m) => match m.checked_add(d) {
                    Some(a) => a,
                    None => usize::MAX,
                },
                None => usize::MAX,
            };
            proof {
                value = (value * 4 + d) as nat;
            }
            i = i + 1;
        } else {
            proof {
                if value > num {
                    assert(value * 251 + ch > usize::MAX);
                }
            }
            let v = match num.checked_mul(251) {
                Some(m) => match m.checked_add(ch as usize) {
                    Some(a) => a,
                    None => usize::MAX,
                },
                None => usize::MAX,
            };
            return Some((v, i + 1));
        }
    }
}

} // verus!
