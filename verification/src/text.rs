//! Character-level helpers on strings: equality, prefixes, splitting at a separator,
//! and hexadecimal reading and writing.

use vstd::prelude::*;
use vstd::string::*;

verus! {

/// The characters of each string in a list.
pub open spec fn string_views(v: Seq<String>) -> Seq<Seq<char>> {
    v.map_values(|s: String| s@)
}

/// Whether `a` and `b` hold the same characters.
pub fn str_eq(a: &str, b: &str) -> (r: bool)
    ensures
        r == (a@ == b@),
{
    let n = a.unicode_len();
    let m = b.unicode_len();
    if n != m {
        return false;
    }
    let mut i: usize = 0;
    while i < n
        invariant
            n == a@.len(),
            m == b@.len(),
            n == m,
            i <= n,
            forall|j: int| 0 <= j < i ==> a@[j] == b@[j],
        decreases n - i,
    {
        if a.get_char(i) != b.get_char(i) {
            return false;
        }
        i += 1;
    }
    assert(a@ =~= b@);
    true
}

/// Whether `name` is among `list`.
pub fn contains_str(list: &Vec<String>, name: &str) -> (r: bool)
    ensures
        r == string_views(list@).contains(name@),
{
    let n = list.len();
    let mut i: usize = 0;
    while i < n
        invariant
            n == list@.len(),
            i <= n,
            forall|j: int| 0 <= j < i ==> list@[j]@ != name@,
        decreases n - i,
    {
        if str_eq(list[i].as_str(), name) {
            assert(string_views(list@)[i as int] == name@);
            return true;
        }
        i += 1;
    }
    assert forall|j: int| 0 <= j < string_views(list@).len() implies string_views(list@)[j]
        != name@ by {
        assert(string_views(list@)[j] == list@[j]@);
    }
    false
}

/// Whether `s` begins with the characters of `prefix`.
pub open spec fn has_prefix(s: Seq<char>, prefix: Seq<char>) -> bool {
    prefix.len() <= s.len() && s.take(prefix.len() as int) == prefix
}

/// The text after `prefix`, when `s` begins with it (as `str::strip_prefix`).
pub fn strip_prefix<'a>(s: &'a str, prefix: &str) -> (r: Option<&'a str>)
    ensures
        has_prefix(s@, prefix@) ==> r is Some && r->0@ == s@.skip(prefix@.len() as int),
        !has_prefix(s@, prefix@) ==> r is None,
{
    let n = s.unicode_len();
    let k = prefix.unicode_len();
    if k > n {
        return None;
    }
    let head = s.substring_char(0, k);
    if str_eq(head, prefix) {
        Some(s.substring_char(k, n))
    } else {
        None
    }
}

/// Index of the first `sep` in `s`, or `s.len()` when there is none.
pub open spec fn first_index_of(s: Seq<char>, sep: char) -> nat
    decreases s.len(),
{
    if s.len() == 0 {
        0
    } else if s[0] == sep {
        0
    } else {
        1 + first_index_of(s.drop_first(), sep)
    }
}

/// `first_index_of` is the position of the first `sep` (or the end).
pub proof fn lemma_first_index_at(s: Seq<char>, sep: char, k: int)
    requires
        0 <= k <= s.len(),
        forall|j: int| 0 <= j < k ==> s[j] != sep,
        k == s.len() || s[k] == sep,
    ensures
        first_index_of(s, sep) == k,
    decreases k,
{
    if k > 0 {
        let t = s.drop_first();
        assert forall|j: int| 0 <= j < k - 1 implies t[j] != sep by {
            assert(t[j] == s[j + 1]);
        }
        if k < s.len() {
            assert(t[k - 1] == s[k]);
        }
        lemma_first_index_at(t, sep, k - 1);
    }
}

/// `s` split at every `sep`, as `str::split(sep)` splits it: there is always
/// at least one part, and an empty `s` gives one empty part.
pub open spec fn split_on(s: Seq<char>, sep: char) -> Seq<Seq<char>>
    decreases s.len(),
{
    let k = first_index_of(s, sep);
    if k >= s.len() {
        seq![s]
    } else {
        seq![s.take(k as int)] + split_on(s.skip((k + 1) as int), sep)
    }
}

/// Splitting a text that has a `sep` at `k` and none before it.
pub proof fn lemma_split_step(s: Seq<char>, sep: char, k: int)
    requires
        0 <= k < s.len(),
        forall|j: int| 0 <= j < k ==> s[j] != sep,
        s[k] == sep,
    ensures
        split_on(s, sep) == seq![s.take(k)] + split_on(s.skip(k + 1), sep),
{
    lemma_first_index_at(s, sep, k);
}

/// Splitting a text with no `sep` gives the text itself.
pub proof fn lemma_split_last(s: Seq<char>, sep: char)
    requires
        forall|j: int| 0 <= j < s.len() ==> s[j] != sep,
    ensures
        split_on(s, sep) == seq![s],
{
    lemma_first_index_at(s, sep, s.len() as int);
}

/// The parts of `s` between the `sep` characters, in order.
pub fn split_exec<'a>(s: &'a str, sep: char) -> (parts: Vec<&'a str>)
    ensures
        parts@.map_values(|p: &'a str| p@) == split_on(s@, sep),
{
    let n = s.unicode_len();
    let mut parts: Vec<&'a str> = Vec::new();
    let mut start: usize = 0;
    let mut i: usize = 0;
    assert(s@.subrange(0, n as int) =~= s@);
    assert(parts@.map_values(|p: &'a str| p@) =~= Seq::<Seq<char>>::empty());
    while i < n
        invariant
            n == s@.len(),
            start <= i <= n,
            forall|j: int| start <= j < i ==> s@[j] != sep,
            parts@.map_values(|p: &'a str| p@) + split_on(s@.subrange(start as int, n as int), sep)
                == split_on(s@, sep),
        decreases n - i,
    {
        if s.get_char(i) == sep {
            let part = s.substring_char(start, i);
            let ghost t = s@.subrange(start as int, n as int);
            proof {
                let k = i - start;
                assert forall|j: int| 0 <= j < k implies t[j] != sep by {
                    assert(t[j] == s@[start + j]);
                }
                assert(t[k] == s@[i as int]);
                lemma_split_step(t, sep, k);
                assert(t.take(k) =~= s@.subrange(start as int, i as int));
                assert(t.skip(k + 1) =~= s@.subrange(i + 1, n as int));
            }
            let ghost old_parts = parts@;
            parts.push(part);
            proof {
                assert(parts@.map_values(|p: &'a str| p@) =~= old_parts.map_values(
                    |p: &'a str| p@,
                ).push(part@));
                assert(parts@.map_values(|p: &'a str| p@) + split_on(
                    s@.subrange(i + 1, n as int),
                    sep,
                ) =~= old_parts.map_values(|p: &'a str| p@) + split_on(t, sep));
            }
            start = i + 1;
        }
        i += 1;
    }
    let last = s.substring_char(start, n);
    let ghost t = s@.subrange(start as int, n as int);
    proof {
        assert forall|j: int| 0 <= j < t.len() implies t[j] != sep by {
            assert(t[j] == s@[start + j]);
        }
        lemma_split_last(t, sep);
    }
    let ghost old_parts = parts@;
    parts.push(last);
    proof {
        assert(parts@.map_values(|p: &'a str| p@) =~= old_parts.map_values(|p: &'a str| p@).push(
            last@,
        ));
        assert(parts@.map_values(|p: &'a str| p@) =~= old_parts.map_values(|p: &'a str| p@)
            + seq![t]);
    }
    parts
}

/// Value of a hexadecimal digit (either case), or -1 for any other character.
pub open spec fn hex_digit_value(c: char) -> int {
    let u = c as u32;
    if 0x30 <= u <= 0x39 {
        u - 0x30
    } else if 0x61 <= u <= 0x66 {
        u - 0x61 + 10
    } else if 0x41 <= u <= 0x46 {
        u - 0x41 + 10
    } else {
        -1
    }
}

/// Whether `c` is a hexadecimal digit.
pub open spec fn is_hex_digit(c: char) -> bool {
    hex_digit_value(c) >= 0
}

/// Whether every character of `s` is a hexadecimal digit.
pub open spec fn all_hex_digits(s: Seq<char>) -> bool {
    forall|i: int| 0 <= i < s.len() ==> is_hex_digit(#[trigger] s[i])
}

/// The number that the hexadecimal digits `s` denote, most significant first.
pub open spec fn hex_value(s: Seq<char>) -> int
    decreases s.len(),
{
    if s.len() == 0 {
        0
    } else {
        hex_value(s.drop_last()) * 16 + hex_digit_value(s.last())
    }
}

/// What `u16::from_str_radix(s, 16)` gives, as an `Option`: an optional
/// leading `+`, then one or more hexadecimal digits whose value fits in 16 bits.
pub open spec fn spec_parse_hex_u16(s: Seq<char>) -> Option<u16> {
    let digits = if s.len() > 0 && s[0] == '+' {
        s.drop_first()
    } else {
        s
    };
    if digits.len() > 0 && all_hex_digits(digits) && hex_value(digits) <= 0xFFFF {
        Some(hex_value(digits) as u16)
    } else {
        None
    }
}

/// Hexadecimal values of digit strings are never negative and grow with
/// every digit added.
pub proof fn lemma_hex_value_prefix(s: Seq<char>, k: int)
    requires
        all_hex_digits(s),
        0 <= k <= s.len(),
    ensures
        0 <= hex_value(s.take(k)) <= hex_value(s),
    decreases s.len(),
{
    if s.len() > 0 {
        let t = s.drop_last();
        assert(all_hex_digits(t)) by {
            assert forall|i: int| 0 <= i < t.len() implies is_hex_digit(#[trigger] t[i]) by {
                assert(t[i] == s[i]);
            }
        }
        assert(is_hex_digit(s[s.len() - 1]));
        if k == s.len() {
            assert(s.take(k) =~= s);
            lemma_hex_value_prefix(t, t.len() as int);
            assert(t.take(t.len() as int) =~= t);
        } else {
            lemma_hex_value_prefix(t, k);
            assert(t.take(k) =~= s.take(k));
            lemma_hex_value_prefix(t, t.len() as int);
            assert(t.take(t.len() as int) =~= t);
        }
    } else {
        assert(s.take(k) =~= s);
    }
}

/// Value of one character as a hexadecimal digit, 16 when it is none.
fn hex_digit(c: char) -> (d: u32)
    ensures
        is_hex_digit(c) ==> d as int == hex_digit_value(c),
        !is_hex_digit(c) ==> d == 16,
{
    let u = c as u32;
    if 0x30 <= u && u <= 0x39 {
        u - 0x30
    } else if 0x61 <= u && u <= 0x66 {
        u - 0x61 + 10
    } else if 0x41 <= u && u <= 0x46 {
        u - 0x41 + 10
    } else {
        16
    }
}

/// Reads `s` as a hexadecimal number of 16 bits, as `u16::from_str_radix(s, 16)`
/// does; `None` where that gives an error.
pub fn parse_hex_u16(s: &str) -> (r: Option<u16>)
    ensures
        r == spec_parse_hex_u16(s@),
{
    let n = s.unicode_len();
    let mut start: usize = 0;
    if n > 0 && s.get_char(0) == '+' {
        start = 1;
    }
    let ghost digits = if s@.len() > 0 && s@[0] == '+' {
        s@.drop_first()
    } else {
        s@
    };
    assert(digits =~= s@.subrange(start as int, n as int));
    if start >= n {
        return None;
    }
    let mut i: usize = start;
    let mut v: u32 = 0;
    assert(digits.take(0) =~= Seq::<char>::empty());
    while i < n
        invariant
            n == s@.len(),
            start <= i <= n,
            digits =~= s@.subrange(start as int, n as int),
            digits == (if s@.len() > 0 && s@[0] == '+' {
                s@.drop_first()
            } else {
                s@
            }),
            all_hex_digits(digits.take(i - start)),
            v as int == hex_value(digits.take(i - start)),
            v <= 0xFFFF,
        decreases n - i,
    {
        let c = s.get_char(i);
        let d = hex_digit(c);
        assert(digits[i - start] == c);
        if d >= 16 {
            assert(!is_hex_digit(digits[i - start]));
            return None;
        }
        let ghost prefix = digits.take(i + 1 - start);
        assert(prefix.drop_last() =~= digits.take(i - start));
        assert(prefix.last() == c);
        assert(all_hex_digits(prefix)) by {
            assert forall|j: int| 0 <= j < prefix.len() implies is_hex_digit(#[trigger] prefix[j]) by {
                if j < prefix.len() - 1 {
                    assert(prefix[j] == digits.take(i - start)[j]);
                }
            }
        }
        v = v * 16 + d;
        assert(v as int == hex_value(prefix));
        if v > 0xFFFF {
            proof {
                if all_hex_digits(digits) {
                    lemma_hex_value_prefix(digits, i + 1 - start);
                }
            }
            return None;
        }
        i += 1;
    }
    assert(digits.take(n - start) =~= digits);
    Some(v as u16)
}

/// The upper-case hexadecimal digit for `d` in `0..16`.
pub open spec fn hex_char_upper(d: int) -> char {
    if d < 10 {
        (0x30 + d) as char
    } else {
        (0x41 + d - 10) as char
    }
}

/// `n` in upper-case hexadecimal with no leading zeros ("0" for zero).
pub open spec fn hex_upper(n: nat) -> Seq<char>
    decreases n,
{
    if n < 16 {
        seq![hex_char_upper(n as int)]
    } else {
        hex_upper(n / 16).push(hex_char_upper((n % 16) as int))
    }
}

/// `n` as `format!("{:02X}", n)` writes it: upper-case hexadecimal, at least
/// two digits, padded with `0`.
pub open spec fn hex_upper_02(n: nat) -> Seq<char> {
    if n < 16 {
        seq!['0', hex_char_upper(n as int)]
    } else {
        hex_upper(n)
    }
}

/// Each upper-case digit reads back as its own value.
pub proof fn lemma_hex_char_upper_value(d: int)
    requires
        0 <= d < 16,
    ensures
        hex_digit_value(hex_char_upper(d)) == d,
        hex_char_upper(d) != '+',
{
    if d < 10 {
        assert(((0x30 + d) as char) as u32 == 0x30 + d);
    } else {
        assert(((0x41 + d - 10) as char) as u32 == 0x41 + d - 10);
    }
}

/// `hex_upper(n)` is a digit string whose value is `n`.
pub proof fn lemma_hex_upper_value(n: nat)
    ensures
        hex_upper(n).len() > 0,
        all_hex_digits(hex_upper(n)),
        hex_value(hex_upper(n)) == n,
        hex_upper(n)[0] != '+',
    decreases n,
{
    if n < 16 {
        lemma_hex_char_upper_value(n as int);
        assert(hex_upper(n).drop_last() =~= Seq::<char>::empty());
        assert(hex_value(hex_upper(n)) == hex_value(Seq::<char>::empty()) * 16 + n);
    } else {
        let h = hex_upper(n / 16);
        lemma_hex_upper_value(n / 16);
        lemma_hex_char_upper_value((n % 16) as int);
        let t = hex_upper(n);
        assert(t.drop_last() =~= h);
        assert forall|i: int| 0 <= i < t.len() implies is_hex_digit(#[trigger] t[i]) by {
            if i < h.len() {
                assert(t[i] == h[i]);
            }
        }
        assert(t[0] == h[0]);
        assert(t.last() == hex_char_upper((n % 16) as int));
        assert(hex_value(t) == hex_value(h) * 16 + (n % 16));
        assert((n / 16) * 16 + n % 16 == n);
    }
}

/// What `format!("{:02X}", n)` writes reads back, by `u16::from_str_radix`, as `n`.
pub proof fn lemma_hex_upper_02_round_trip(n: u16)
    ensures
        spec_parse_hex_u16(hex_upper_02(n as nat)) == Some(n),
{
    if n < 16 {
        let t = hex_upper_02(n as nat);
        lemma_hex_char_upper_value(n as int);
        assert(t.drop_last() =~= seq!['0']);
        assert(seq!['0'].drop_last() =~= Seq::<char>::empty());
        assert(('0' as u32) == 0x30);
        assert(seq!['0'].last() == '0');
        assert(hex_value(Seq::<char>::empty()) == 0);
        assert(hex_value(seq!['0']) == hex_value(Seq::<char>::empty()) * 16 + hex_digit_value(
            '0',
        ));
        assert(hex_value(seq!['0']) == 0);
        assert(all_hex_digits(t)) by {
            assert forall|i: int| 0 <= i < t.len() implies is_hex_digit(#[trigger] t[i]) by {}
        }
    } else {
        lemma_hex_upper_value(n as nat);
    }
}

/// The digit `d` as a one-character string.
fn hex_digit_str(d: u16) -> (r: &'static str)
    requires
        d < 16,
    ensures
        r@ == seq![hex_char_upper(d as int)],
{
    proof {
        reveal_strlit("0");
        reveal_strlit("1");
        reveal_strlit("2");
        reveal_strlit("3");
        reveal_strlit("4");
        reveal_strlit("5");
        reveal_strlit("6");
        reveal_strlit("7");
        reveal_strlit("8");
        reveal_strlit("9");
        reveal_strlit("A");
        reveal_strlit("B");
        reveal_strlit("C");
        reveal_strlit("D");
        reveal_strlit("E");
        reveal_strlit("F");
    }
    let r = match d {
        0 => "0",
        1 => "1",
        2 => "2",
        3 => "3",
        4 => "4",
        5 => "5",
        6 => "6",
        7 => "7",
        8 => "8",
        9 => "9",
        10 => "A",
        11 => "B",
        12 => "C",
        13 => "D",
        14 => "E",
        _ => "F",
    };
    assert(r@ =~= seq![hex_char_upper(d as int)]);
    r
}

/// Appends `n` to `out` as `format!("{:02X}", n)` writes it.
pub fn push_hex_upper_02(out: &mut String, n: u16)
    ensures
        final(out)@ == old(out)@ + hex_upper_02(n as nat),
{
    proof {
        reveal_with_fuel(hex_upper, 4);
    }
    if n < 16 {
        out.append("0");
        out.append(hex_digit_str(n));
        proof {
            reveal_strlit("0");
        }
        assert(out@ =~= old(out)@ + hex_upper_02(n as nat));
    } else if n < 256 {
        out.append(hex_digit_str(n / 16));
        out.append(hex_digit_str(n % 16));
        assert(out@ =~= old(out)@ + hex_upper_02(n as nat));
    } else if n < 4096 {
        out.append(hex_digit_str(n / 256));
        out.append(hex_digit_str((n / 16) % 16));
        out.append(hex_digit_str(n % 16));
        assert((n as nat / 16) / 16 == n as nat / 256);
        assert(out@ =~= old(out)@ + hex_upper_02(n as nat));
    } else {
        out.append(hex_digit_str(n / 4096));
        out.append(hex_digit_str((n / 256) % 16));
        out.append(hex_digit_str((n / 16) % 16));
        out.append(hex_digit_str(n % 16));
        assert((n as nat / 16) / 16 == n as nat / 256);
        assert(((n as nat / 16) / 16) / 16 == n as nat / 4096);
        assert(out@ =~= old(out)@ + hex_upper_02(n as nat));
    }
}

} // verus!
