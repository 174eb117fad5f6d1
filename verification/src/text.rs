//! Text: splitting, trimming, decimal numbers and identifier quoting.
//!
//! A piece of text is modelled by its sequence of characters. Everything here
//! is stated over `Seq<char>`, so callers can reason about the strings that
//! they read and build without knowing how they are stored.
pub mod laws;

use vstd::prelude::*;
use vstd::string::*;

verus! {

/// `String::push` appends one character at the end.
pub assume_specification[ std::string::String::push ](s: &mut std::string::String, c: char)
    ensures
        final(s)@ == old(s)@.push(c),
;

/// What `str::to_lowercase` gives for a text: its lowercase equivalent in the
/// sense of the Unicode property.
pub uninterp spec fn lowercase(s: Seq<char>) -> Seq<char>;

/// Calls `str::to_lowercase`; the result depends on the characters alone.
#[verifier::external_body]
pub(crate) fn to_lowercase(s: &str) -> (r: String)
    ensures
        r@ == lowercase(s@),
{
    s.to_lowercase()
}

/// The texts of a sequence of strings.
pub open spec fn texts(v: Seq<String>) -> Seq<Seq<char>> {
    v.map_values(|s: String| s@)
}

/// Whether `names` holds `name`.
pub fn holds(names: &Vec<String>, name: &String) -> (r: bool)
    ensures
        r == texts(names@).contains(name@),
{
    let ghost all = texts(names@);
    let mut i: usize = 0;
    while i < names.len()
        invariant
            i <= names@.len(),
            all == texts(names@),
            all.len() == names@.len(),
            forall|k: int| 0 <= k < i ==> all[k] != name@,
        decreases names@.len() - i,
    {
        assert(all[i as int] == names@[i as int]@);
        if names[i] == *name {
            return true;
        }
        i = i + 1;
    }
    false
}

/// The characters that Unicode calls white space.
pub open spec fn is_space(c: char) -> bool {
    let p = c as u32;
    ||| 0x09 <= p <= 0x0d
    ||| p == 0x20
    ||| p == 0x85
    ||| p == 0xa0
    ||| p == 0x1680
    ||| 0x2000 <= p <= 0x200a
    ||| p == 0x2028
    ||| p == 0x2029
    ||| p == 0x202f
    ||| p == 0x205f
    ||| p == 0x3000
}

fn is_space_char(c: char) -> (r: bool)
    ensures
        r == is_space(c),
{
    let p: u32 = c as u32;
    (0x09 <= p && p <= 0x0d) || p == 0x20 || p == 0x85 || p == 0xa0 || p == 0x1680 || (0x2000 <= p
        && p <= 0x200a) || p == 0x2028 || p == 0x2029 || p == 0x202f || p == 0x205f || p == 0x3000
}

/// `s` without the white space at its start.
pub open spec fn trim_start(s: Seq<char>) -> Seq<char>
    decreases s.len(),
{
    if s.len() > 0 && is_space(s[0]) {
        trim_start(s.drop_first())
    } else {
        s
    }
}

/// `s` without the white space at its end.
pub open spec fn trim_end(s: Seq<char>) -> Seq<char>
    decreases s.len(),
{
    if s.len() > 0 && is_space(s.last()) {
        trim_end(s.drop_last())
    } else {
        s
    }
}

/// `s` without the white space at its two ends.
pub open spec fn trimmed(s: Seq<char>) -> Seq<char> {
    trim_end(trim_start(s))
}

/// Where `c` first stands in `s`; the length of `s` where it does not occur.
pub open spec fn find<A>(s: Seq<A>, c: A) -> int
    decreases s.len(),
{
    if s.len() == 0 {
        0
    } else if s[0] == c {
        0
    } else {
        1 + find(s.drop_first(), c)
    }
}

/// The pieces of `s` between the occurrences of `sep`.
pub open spec fn split(s: Seq<char>, sep: char) -> Seq<Seq<char>>
    decreases s.len(),
    via split_decreases
{
    let i = find(s, sep);
    if i >= s.len() {
        seq![s]
    } else {
        seq![s.take(i)] + split(s.skip(i + 1), sep)
    }
}

#[via_fn]
proof fn split_decreases(s: Seq<char>, sep: char) {
    find_bounds(s, sep);
}

/// `find` stays within the text, and stops at the first occurrence.
pub(crate) proof fn find_bounds<A>(s: Seq<A>, c: A)
    ensures
        0 <= find(s, c) <= s.len(),
        find(s, c) < s.len() ==> s[find(s, c)] == c,
        forall|i: int| 0 <= i < find(s, c) ==> s[i] != c,
    decreases s.len(),
{
    if s.len() > 0 && s[0] != c {
        find_bounds(s.drop_first(), c);
        assert forall|i: int| 0 <= i < find(s, c) implies s[i] != c by {
            if i > 0 {
                assert(s[i] == s.drop_first()[i - 1]);
            }
        }
    }
}

/// The first occurrence is where `find` says.
pub(crate) proof fn find_is<A>(s: Seq<A>, c: A, k: int)
    requires
        0 <= k <= s.len(),
        k < s.len() ==> s[k] == c,
        forall|i: int| 0 <= i < k ==> s[i] != c,
    ensures
        find(s, c) == k,
{
    find_bounds(s, c);
}

/// The characters of `s`.
pub fn chars_of(s: &str) -> (r: Vec<char>)
    ensures
        r@ == s@,
{
    let mut out: Vec<char> = Vec::new();
    for c in it: s.chars()
        invariant
            out@ == s@.take(it.index() as int),
            it.seq() == s@,
    {
        out.push(c);
        assert(out@ =~= s@.take(it.index() as int + 1));
    }
    assert(s@.take(s@.len() as int) =~= s@);
    out
}

/// The text made of `chars[from..to]`.
pub fn string_of(chars: &Vec<char>, from: usize, to: usize) -> (r: String)
    requires
        from <= to <= chars@.len(),
    ensures
        r@ == chars@.subrange(from as int, to as int),
{
    let mut out = String::new();
    let mut i: usize = from;
    while i < to
        invariant
            from <= i <= to <= chars@.len(),
            out@ == chars@.subrange(from as int, i as int),
        decreases to - i,
    {
        out.push(chars[i]);
        i = i + 1;
        assert(out@ =~= chars@.subrange(from as int, i as int));
    }
    out
}

/// Whether two texts are the same.
pub fn same_text(a: &str, b: &str) -> (r: bool)
    ensures
        r == (a@ == b@),
{
    let left: String = a.to_owned();
    let right: String = b.to_owned();
    left == right
}

/// `s.trim()`.
pub fn trim(s: &str) -> (r: String)
    ensures
        r@ == trimmed(s@),
{
    let chars = chars_of(s);
    let mut from: usize = 0;
    assert(chars@.skip(0) =~= s@);
    while from < chars.len() && is_space_char(chars[from])
        invariant
            from <= chars@.len(),
            trim_start(s@) == trim_start(chars@.skip(from as int)),
            chars@ == s@,
        decreases chars@.len() - from,
    {
        assert(chars@.skip(from as int).drop_first() =~= chars@.skip(from as int + 1));
        from = from + 1;
    }
    assert(trim_start(s@) == chars@.skip(from as int));
    let mut to: usize = chars.len();
    assert(chars@.skip(from as int) =~= chars@.subrange(from as int, to as int));
    while to > from && is_space_char(chars[to - 1])
        invariant
            from <= to <= chars@.len(),
            trimmed(s@) == trim_end(chars@.subrange(from as int, to as int)),
        decreases to,
    {
        assert(chars@.subrange(from as int, to as int).drop_last() =~= chars@.subrange(
            from as int,
            to - 1,
        ));
        to = to - 1;
    }
    string_of(&chars, from, to)
}

fn find_from(chars: &Vec<char>, from: usize, c: char) -> (r: usize)
    requires
        from <= chars@.len(),
    ensures
        from <= r <= chars@.len(),
        r - from == find(chars@.skip(from as int), c),
{
    let mut i: usize = from;
    while i < chars.len() && chars[i] != c
        invariant
            from <= i <= chars@.len(),
            forall|k: int| from <= k < i ==> chars@[k] != c,
        decreases chars@.len() - i,
    {
        i = i + 1;
    }
    proof {
        find_is(chars@.skip(from as int), c, i - from);
    }
    i
}

/// `s.split(sep)`, collected.
pub fn split_text(s: &str, sep: char) -> (r: Vec<String>)
    ensures
        texts(r@) == split(s@, sep),
{
    let chars = chars_of(s);
    let mut out: Vec<String> = Vec::new();
    let mut from: usize = 0;
    assert(chars@.skip(0) =~= s@);
    assert(texts(out@) + split(s@, sep) =~= split(s@, sep));
    loop
        invariant_except_break
            from <= chars@.len(),
            texts(out@) + split(chars@.skip(from as int), sep) == split(s@, sep),
        ensures
            texts(out@) == split(s@, sep),
        decreases chars@.len() - from,
    {
        let end = find_from(&chars, from, sep);
        let piece = string_of(&chars, from, end);
        let ghost rest = chars@.skip(from as int);
        let ghost before = texts(out@);
        assert(piece@ =~= rest.take(end - from));
        out.push(piece);
        assert(texts(out@) =~= before.push(piece@));
        if end == chars.len() {
            assert(rest.take(end - from) =~= rest);
            assert(texts(out@) =~= before + seq![rest]);
            break;
        }
        assert(rest.skip(end - from + 1) =~= chars@.skip(end as int + 1));
        assert(split(rest, sep) == seq![rest.take(end - from)] + split(
            chars@.skip(end as int + 1),
            sep,
        ));
        assert(texts(out@) + split(chars@.skip(end as int + 1), sep) =~= before + split(rest, sep));
        from = end + 1;
    }
    out
}

/// `s.split_once(sep)`: what stands before and after the first `sep`.
pub open spec fn split_once(s: Seq<char>, sep: char) -> Option<(Seq<char>, Seq<char>)> {
    let i = find(s, sep);
    if i >= s.len() {
        None
    } else {
        Some((s.take(i), s.skip(i + 1)))
    }
}

pub fn split_text_once(s: &str, sep: char) -> (r: Option<(String, String)>)
    ensures
        r is Some <==> split_once(s@, sep) is Some,
        r matches Some(p) ==> split_once(s@, sep) == Some((p.0@, p.1@)),
{
    let chars = chars_of(s);
    assert(chars@.skip(0) =~= s@);
    let end = find_from(&chars, 0, sep);
    if end == chars.len() {
        return None;
    }
    let left = string_of(&chars, 0, end);
    let right = string_of(&chars, end + 1, chars.len());
    assert(left@ =~= s@.take(end as int));
    assert(right@ =~= s@.skip(end as int + 1));
    Some((left, right))
}

/// Whether `a` comes before `b` in the order of code points, which is the
/// order of `str`.
pub open spec fn text_less(a: Seq<char>, b: Seq<char>) -> bool
    decreases a.len(),
{
    if b.len() == 0 {
        false
    } else if a.len() == 0 {
        true
    } else if a[0] == b[0] {
        text_less(a.drop_first(), b.drop_first())
    } else {
        (a[0] as int) < (b[0] as int)
    }
}

/// How two texts stand to each other.
#[derive(Debug, Clone, Copy, PartialEq, Eq, Structural)]
pub enum TextOrder {
    Before,
    Same,
    After,
}

fn char_less(x: char, y: char) -> (r: bool)
    ensures
        r == ((x as int) < (y as int)),
{
    x < y
}

/// Orders two texts by their code points.
pub fn order_texts(a: &str, b: &str) -> (r: TextOrder)
    ensures
        r is Before <==> text_less(a@, b@),
        r is Same <==> a@ == b@,
        r is After <==> text_less(b@, a@),
{
    let left = chars_of(a);
    let right = chars_of(b);
    let mut i: usize = 0;
    assert(a@.skip(0) =~= a@);
    assert(b@.skip(0) =~= b@);
    while i < left.len() && i < right.len() && left[i] == right[i]
        invariant
            left@ == a@,
            right@ == b@,
            i <= left@.len(),
            i <= right@.len(),
            forall|k: int| 0 <= k < i ==> a@[k] == b@[k],
            text_less(a@, b@) == text_less(a@.skip(i as int), b@.skip(i as int)),
            text_less(b@, a@) == text_less(b@.skip(i as int), a@.skip(i as int)),
        decreases left@.len() - i,
    {
        assert(a@.skip(i as int).drop_first() =~= a@.skip(i as int + 1));
        assert(b@.skip(i as int).drop_first() =~= b@.skip(i as int + 1));
        i = i + 1;
    }
    if i == left.len() {
        if i == right.len() {
            assert(a@ =~= b@);
            TextOrder::Same
        } else {
            TextOrder::Before
        }
    } else if i == right.len() {
        TextOrder::After
    } else {
        assert(a@[i as int] != b@[i as int]);
        if char_less(left[i], right[i]) {
            TextOrder::Before
        } else {
            TextOrder::After
        }
    }
}

/// The decimal digits of `n`.
pub open spec fn decimal(n: nat) -> Seq<char>
    decreases n,
{
    if n < 10 {
        seq![digit(n)]
    } else {
        decimal(n / 10).push(digit(n % 10))
    }
}

/// The character for a digit.
pub open spec fn digit(d: nat) -> char {
    ((48 + d) as u8) as char
}

pub fn decimal_text(n: u64) -> (r: String)
    ensures
        r@ == decimal(n as nat),
    decreases n,
{
    let d: u8 = (n % 10) as u8;
    let mut out = if n < 10 {
        String::new()
    } else {
        decimal_text(n / 10)
    };
    out.push((48 + d) as char);
    assert(n < 10 ==> out@ =~= seq![digit(n as nat)]);
    out
}

/// The decimal digits of `n`, after a minus sign where it is negative.
pub open spec fn signed_decimal(n: int) -> Seq<char> {
    if n < 0 {
        seq!['-'] + decimal((-n) as nat)
    } else {
        decimal(n as nat)
    }
}

pub fn signed_decimal_text(n: i64) -> (r: String)
    ensures
        r@ == signed_decimal(n as int),
{
    if n < 0 {
        let mut out = String::new();
        out.push('-');
        let magnitude: u64 = (-(n as i128)) as u64;
        let digits = decimal_text(magnitude);
        out.append(digits.as_str());
        assert(out@ =~= seq!['-'] + decimal(magnitude as nat));
        out
    } else {
        decimal_text(n as u64)
    }
}

/// The number that a sequence of decimal digits writes, where it is one.
pub open spec fn digits_value(s: Seq<char>) -> Option<nat>
    decreases s.len(),
{
    if s.len() == 0 {
        Some(0nat)
    } else {
        let c = s.last() as u32;
        match digits_value(s.drop_last()) {
            Some(v) if 48 <= c <= 57 => Some((10 * v + (c - 48)) as nat),
            _ => None,
        }
    }
}

/// What `s.parse::<u64>()` gives: an optional plus sign and at least one
/// digit, of a number that fits.
pub open spec fn parsed_u64(s: Seq<char>) -> Option<u64> {
    let digits = if s.len() > 0 && s[0] == '+' {
        s.drop_first()
    } else {
        s
    };
    if digits.len() == 0 {
        None
    } else {
        match digits_value(digits) {
            Some(v) if v <= u64::MAX => Some(v as u64),
            _ => None,
        }
    }
}

/// A text that does not hold only digits writes no number.
proof fn digits_value_prefix(s: Seq<char>, k: int)
    requires
        0 <= k <= s.len(),
        digits_value(s.take(k)) is None,
    ensures
        digits_value(s) is None,
    decreases s.len(),
{
    if k < s.len() {
        assert(s.drop_last().take(k) =~= s.take(k));
        digits_value_prefix(s.drop_last(), k);
    } else {
        assert(s.take(k) =~= s);
    }
}

/// More digits write no smaller number.
proof fn digits_value_grows(s: Seq<char>, k: int)
    requires
        0 <= k <= s.len(),
        digits_value(s) is Some,
    ensures
        digits_value(s.take(k)) is Some,
        digits_value(s.take(k))->0 <= digits_value(s)->0,
    decreases s.len(),
{
    if k < s.len() {
        assert(s.drop_last().take(k) =~= s.take(k));
        digits_value_grows(s.drop_last(), k);
    } else {
        assert(s.take(k) =~= s);
    }
}

/// `s.parse::<u64>().ok()`.
pub fn parse_u64(s: &str) -> (r: Option<u64>)
    ensures
        r == parsed_u64(s@),
{
    let chars = chars_of(s);
    let n: usize = chars.len();
    let from: usize = if n > 0 && chars[0] == '+' {
        1
    } else {
        0
    };
    let ghost digits = chars@.skip(from as int);
    assert(from == 1 ==> digits =~= s@.drop_first());
    assert(from == 0 ==> digits =~= s@);
    if from == n {
        return None;
    }
    let mut value: u64 = 0;
    let mut i: usize = from;
    assert(digits.take(0) =~= Seq::<char>::empty());
    while i < n
        invariant
            from <= i <= n,
            n == chars@.len(),
            digits == chars@.skip(from as int),
            digits_value(digits.take(i - from)) == Some(value as nat),
            digits.len() > 0,
            parsed_u64(s@) == match digits_value(digits) {
                Some(v) if v <= u64::MAX => Some(v as u64),
                _ => None,
            },
        decreases n - i,
    {
        let p: u32 = chars[i] as u32;
        let ghost longer = digits.take(i - from + 1);
        assert(longer.drop_last() =~= digits.take(i - from));
        assert(longer.last() == chars@[i as int]);
        if p < 48 || p > 57 {
            proof {
                digits_value_prefix(digits, i - from + 1);
            }
            return None;
        }
        let d: u64 = (p - 48) as u64;
        if value > (u64::MAX - d) / 10 {
            proof {
                if digits_value(digits) is Some {
                    digits_value_grows(digits, i - from + 1);
                    assert(10 * value + d > u64::MAX) by (nonlinear_arith)
                        requires
                            value > (u64::MAX - d) / 10,
                            d <= 9,
                    ;
                }
            }
            return None;
        }
        value = value * 10 + d;
        i = i + 1;
    }
    assert(digits.take(n - from) =~= digits);
    Some(value)
}

proof fn decimal_has_digits(n: nat)
    ensures
        decimal(n).len() > 0,
        decimal(n)[0] != '+',
        decimal(n)[0] != '-',
        digits_value(decimal(n)) == Some(n),
    decreases n,
{
    let last = digit(n % 10);
    let text = decimal(n);
    assert(last as u32 == 48 + n % 10);
    if n < 10 {
        assert(text =~= seq![last]);
        assert(text.drop_last() =~= seq![]);
    } else {
        decimal_has_digits(n / 10);
        assert(text.drop_last() =~= decimal(n / 10));
        assert(text[0] == decimal(n / 10)[0]);
    }
    assert(text.last() == last);
    assert(text.last() as u32 == 48 + n % 10);
    let before = digits_value(text.drop_last());
    assert(before is Some);
    assert(n == 10 * before->0 + n % 10);
    assert(digits_value(text) == Some((10 * before->0 + (text.last() as u32 - 48)) as nat));
}

/// A number that is written in decimal reads back as itself.
pub proof fn decimal_reads_back(n: u64)
    ensures
        parsed_u64(decimal(n as nat)) == Some(n),
{
    decimal_has_digits(n as nat);
}

/// Two numbers that are written alike are the same.
pub proof fn decimals_are_distinct(a: int, b: int)
    requires
        signed_decimal(a) == signed_decimal(b),
    ensures
        a == b,
{
    let x = if a < 0 {
        (-a) as nat
    } else {
        a as nat
    };
    let y = if b < 0 {
        (-b) as nat
    } else {
        b as nat
    };
    decimal_has_digits(x);
    decimal_has_digits(y);
    if a < 0 {
        assert(signed_decimal(a)[0] == '-');
        assert(signed_decimal(a).drop_first() =~= decimal(x));
    }
    if b < 0 {
        assert(signed_decimal(b)[0] == '-');
        assert(signed_decimal(b).drop_first() =~= decimal(y));
    }
}

} // verus!
