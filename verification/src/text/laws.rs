//! What the functions on text are for.
use vstd::prelude::*;

use super::{
    decimal, digit, digits_value, find, find_bounds, is_space, parsed_u64, signed_decimal, split,
    split_once, text_less, texts, trim_end, trim_start, trimmed,
};

verus! {

/// The number that a decimal digit stands for; negative for any other
/// character.
pub open spec fn digit_of(c: char) -> int {
    match c {
        '0' => 0,
        '1' => 1,
        '2' => 2,
        '3' => 3,
        '4' => 4,
        '5' => 5,
        '6' => 6,
        '7' => 7,
        '8' => 8,
        '9' => 9,
        _ => -1,
    }
}

/// Whether a text is made of decimal digits, at least one.
pub open spec fn is_numeral(s: Seq<char>) -> bool {
    s.len() > 0 && forall|i: int| 0 <= i < s.len() ==> digit_of(#[trigger] s[i]) >= 0
}

/// The number that decimal digits write.
pub open spec fn numeral(s: Seq<char>) -> int
    decreases s.len(),
{
    if s.len() == 0 {
        0
    } else {
        10 * numeral(s.drop_last()) + digit_of(s.last())
    }
}

proof fn digit_stands_for_itself(d: nat)
    requires
        d < 10,
    ensures
        digit_of(digit(d)) == d,
{
    assert(digit(0) == '0' && digit(1) == '1' && digit(2) == '2' && digit(3) == '3' && digit(4)
        == '4' && digit(5) == '5' && digit(6) == '6' && digit(7) == '7' && digit(8) == '8'
        && digit(9) == '9');
}

/// A number is written by its decimal digits: they write that number, and do
/// not begin with a zero unless it is zero.
pub proof fn decimal_writes_the_number(n: nat)
    ensures
        is_numeral(decimal(n)),
        numeral(decimal(n)) == n,
        decimal(n).len() > 1 ==> decimal(n)[0] != '0',
        n > 0 ==> decimal(n)[0] != '0',
    decreases n,
{
    let text = decimal(n);
    digit_stands_for_itself(n % 10);
    if n < 10 {
        assert(text =~= seq![digit(n)]);
        assert(text.drop_last() =~= seq![]);
        assert(numeral(seq![]) == 0);
        assert(digit_of('0') == 0);
    } else {
        decimal_writes_the_number(n / 10);
        assert(text.drop_last() =~= decimal(n / 10));
        assert(text[0] == decimal(n / 10)[0]);
        assert forall|i: int| 0 <= i < text.len() implies digit_of(#[trigger] text[i]) >= 0 by {
            if i < text.len() - 1 {
                assert(text[i] == decimal(n / 10)[i]);
            }
        }
    }
}

/// A number is written by a minus sign where it is negative, and the digits of
/// its magnitude.
pub proof fn signed_decimal_writes_the_number(n: int)
    ensures
        n >= 0 ==> is_numeral(signed_decimal(n)) && numeral(signed_decimal(n)) == n,
        n < 0 ==> signed_decimal(n).len() > 0 && signed_decimal(n)[0] == '-' && is_numeral(
            signed_decimal(n).drop_first(),
        ) && numeral(signed_decimal(n).drop_first()) == -n,
{
    if n < 0 {
        decimal_writes_the_number((-n) as nat);
        assert(signed_decimal(n).drop_first() =~= decimal((-n) as nat));
    } else {
        decimal_writes_the_number(n as nat);
    }
}

proof fn char_is_digit(c: char)
    ensures
        (48 <= c as u32 <= 57) <==> digit_of(c) >= 0,
        digit_of(c) >= 0 ==> digit_of(c) == c as u32 - 48,
{
    assert('0' as u32 == 48 && '1' as u32 == 49 && '2' as u32 == 50 && '3' as u32 == 51
        && '4' as u32 == 52 && '5' as u32 == 53 && '6' as u32 == 54 && '7' as u32 == 55
        && '8' as u32 == 56 && '9' as u32 == 57);
    if 48 <= c as u32 <= 57 {
        let d = (c as u32 - 48) as nat;
        assert(digit(d) as u32 == c as u32);
        assert(digit(d) == c);
        digit_stands_for_itself(d);
    }
}

proof fn value_is_the_numeral(s: Seq<char>)
    ensures
        digits_value(s) is Some <==> forall|i: int|
            0 <= i < s.len() ==> digit_of(#[trigger] s[i]) >= 0,
        digits_value(s) matches Some(v) ==> numeral(s) == v,
    decreases s.len(),
{
    if s.len() > 0 {
        let front = s.drop_last();
        value_is_the_numeral(front);
        char_is_digit(s.last());
        assert(s[s.len() - 1] == s.last());
        if digits_value(front) is Some {
            assert forall|i: int| 0 <= i < s.len() - 1 implies digit_of(#[trigger] s[i]) >= 0 by {
                assert(front[i] == s[i]);
            }
        }
        if forall|i: int| 0 <= i < s.len() ==> digit_of(#[trigger] s[i]) >= 0 {
            assert forall|i: int| 0 <= i < front.len() implies digit_of(#[trigger] front[i])
                >= 0 by {
                assert(front[i] == s[i]);
            }
        }
    }
}

/// A text is read as a number exactly where it is a numeral, behind a plus sign
/// or not, of a number that fits in 64 bits; the number is the one that the
/// numeral writes.
pub proof fn numbers_are_read_from_numerals(s: Seq<char>)
    ensures
        ({
            let digits = if s.len() > 0 && s[0] == '+' {
                s.drop_first()
            } else {
                s
            };
            match parsed_u64(s) {
                Some(v) => is_numeral(digits) && numeral(digits) == v,
                None => is_numeral(digits) ==> numeral(digits) > u64::MAX,
            }
        }),
{
    let digits = if s.len() > 0 && s[0] == '+' {
        s.drop_first()
    } else {
        s
    };
    value_is_the_numeral(digits);
}

/// The place that is found is that of the first occurrence; where there is
/// none, it is the end.
pub proof fn the_first_occurrence_is_found<A>(s: Seq<A>, c: A)
    ensures
        0 <= find(s, c) <= s.len(),
        find(s, c) < s.len() <==> s.contains(c),
        find(s, c) < s.len() ==> s[find(s, c)] == c,
        forall|i: int| 0 <= i < find(s, c) ==> s[i] != c,
{
    find_bounds(s, c);
    if s.contains(c) {
        let i = s.index_of(c);
        assert(s[i] == c);
    }
}

/// Whether a text is white space.
pub open spec fn is_blank(s: Seq<char>) -> bool {
    forall|i: int| 0 <= i < s.len() ==> is_space(#[trigger] s[i])
}

proof fn start_is_blank(s: Seq<char>) -> (front: Seq<char>)
    ensures
        s == front + trim_start(s),
        is_blank(front),
        trim_start(s).len() > 0 ==> !is_space(trim_start(s)[0]),
    decreases s.len(),
{
    if s.len() > 0 && is_space(s[0]) {
        let rest = start_is_blank(s.drop_first());
        let front = seq![s[0]] + rest;
        assert(s =~= seq![s[0]] + s.drop_first());
        assert(seq![s[0]] + (rest + trim_start(s)) =~= front + trim_start(s));
        front
    } else {
        assert(s =~= Seq::<char>::empty() + s);
        seq![]
    }
}

proof fn end_is_blank(s: Seq<char>) -> (back: Seq<char>)
    ensures
        s == trim_end(s) + back,
        is_blank(back),
        trim_end(s).len() > 0 ==> !is_space(trim_end(s).last()),
    decreases s.len(),
{
    if s.len() > 0 && is_space(s.last()) {
        let rest = end_is_blank(s.drop_last());
        let back = rest.push(s.last());
        assert(s =~= s.drop_last().push(s.last()));
        assert((trim_end(s) + rest).push(s.last()) =~= trim_end(s) + back);
        back
    } else {
        assert(s =~= s + Seq::<char>::empty());
        seq![]
    }
}

/// Trimming takes away white space at the two ends, all of it, and nothing
/// else.
pub proof fn only_white_space_is_trimmed(s: Seq<char>)
    ensures
        exists|front: Seq<char>, back: Seq<char>|
            is_blank(front) && is_blank(back) && s == #[trigger] (front + trimmed(s) + back),
        trimmed(s).len() > 0 ==> !is_space(trimmed(s)[0]) && !is_space(trimmed(s).last()),
{
    let front = start_is_blank(s);
    let back = end_is_blank(trim_start(s));
    assert(s =~= front + trimmed(s) + back);
    if trimmed(s).len() > 0 {
        assert(trimmed(s)[0] == trim_start(s)[0]);
    }
}

/// The pieces with the separator between them.
pub open spec fn with_separator(pieces: Seq<Seq<char>>, sep: char) -> Seq<char>
    decreases pieces.len(),
{
    if pieces.len() == 0 {
        seq![]
    } else if pieces.len() == 1 {
        pieces[0]
    } else {
        pieces[0].push(sep) + with_separator(pieces.drop_first(), sep)
    }
}

/// Splitting takes a text apart at every separator: put together again with the
/// separator between them, the pieces are the text, and none of them holds a
/// separator.
pub proof fn pieces_make_up_the_text(s: Seq<char>, sep: char)
    ensures
        split(s, sep).len() > 0,
        with_separator(split(s, sep), sep) == s,
        forall|i: int| 0 <= i < split(s, sep).len() ==> !(#[trigger] split(s, sep)[i]).contains(sep),
    decreases s.len(),
{
    find_bounds(s, sep);
    let i = find(s, sep);
    let pieces = split(s, sep);
    if i >= s.len() {
        assert(pieces =~= seq![s]);
    } else {
        let rest = split(s.skip(i + 1), sep);
        pieces_make_up_the_text(s.skip(i + 1), sep);
        assert(pieces.drop_first() =~= rest);
        assert(pieces[0] == s.take(i));
        assert(with_separator(pieces, sep) =~= s);
        assert forall|k: int| 0 <= k < pieces.len() implies !(#[trigger] pieces[k]).contains(
            sep,
        ) by {
            if k > 0 {
                assert(pieces[k] == rest[k - 1]);
            }
        }
    }
}

/// Splitting once takes a text apart at the first separator, and only a text
/// without one is not taken apart.
pub proof fn the_first_separator_splits(s: Seq<char>, sep: char)
    ensures
        match split_once(s, sep) {
            Some((left, right)) => s == left.push(sep) + right && !left.contains(sep),
            None => !s.contains(sep),
        },
{
    find_bounds(s, sep);
    match split_once(s, sep) {
        Some((left, right)) => {
            assert(s =~= left.push(sep) + right);
        },
        None => {},
    }
}

/// Texts come in the order of their characters: `a` before `b` exactly where,
/// behind the characters that they begin with in common, `a` ends and `b` does
/// not, or `a` has the character with the smaller code.
pub proof fn texts_compare_by_the_first_difference(a: Seq<char>, b: Seq<char>, n: int)
    requires
        0 <= n <= a.len(),
        n <= b.len(),
        forall|k: int| 0 <= k < n ==> a[k] == b[k],
        n == a.len() || n == b.len() || a[n] != b[n],
    ensures
        text_less(a, b) <==> n < b.len() && (n == a.len() || (a[n] as int) < (b[n] as int)),
    decreases n,
{
    if n > 0 {
        let x = a.drop_first();
        let y = b.drop_first();
        assert(a[0] == b[0]);
        assert forall|k: int| 0 <= k < n - 1 implies x[k] == y[k] by {
            assert(a[k + 1] == b[k + 1]);
        }
        texts_compare_by_the_first_difference(x, y, n - 1);
    }
}

/// White space is what Unicode counts as such: the control characters from the tab
/// to the carriage return and the next line, the blanks of whatever width, and the
/// separators of lines and paragraphs.
pub proof fn white_space_is_that_of_unicode(c: char)
    ensures
        is_space(c) <==> {
            ||| c == '\t' || c == '\n' || c == '\u{b}' || c == '\u{c}' || c == '\r' || c == ' '
            ||| c == '\u{85}' || c == '\u{a0}' || c == '\u{1680}'
            ||| c == '\u{2000}' || c == '\u{2001}' || c == '\u{2002}' || c == '\u{2003}'
            ||| c == '\u{2004}' || c == '\u{2005}' || c == '\u{2006}' || c == '\u{2007}'
            ||| c == '\u{2008}' || c == '\u{2009}' || c == '\u{200a}'
            ||| c == '\u{2028}' || c == '\u{2029}' || c == '\u{202f}' || c == '\u{205f}'
            ||| c == '\u{3000}'
        },
{
}

/// The texts are what the strings hold, in their order.
pub proof fn texts_are_those_of_the_strings(strings: Seq<String>, i: int)
    requires
        0 <= i < strings.len(),
    ensures
        texts(strings).len() == strings.len(),
        texts(strings)[i] == strings[i]@,
{
}

} // verus!
