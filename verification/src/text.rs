//! Text rendering of numbers and separated fields.

use vstd::prelude::*;
use vstd::string::*;

verus! {

/// The character of one decimal digit.
pub open spec fn digit_char(digit: int) -> char {
    (('0' as int) + digit) as char
}

/// The decimal numeral of `n`, without leading zeros.
pub open spec fn decimal_text(n: nat) -> Seq<char>
    decreases n,
{
    if n < 10 {
        seq![digit_char(n as int)]
    } else {
        decimal_text(n / 10).push(digit_char((n % 10) as int))
    }
}

/// The lower-case hexadecimal digit of a nibble.
pub open spec fn hex_char(nibble: int) -> char {
    if nibble < 10 {
        (('0' as int) + nibble) as char
    } else {
        (('a' as int) + nibble - 10) as char
    }
}

/// The value of a hexadecimal digit of either case.
pub open spec fn hex_value(c: char) -> Option<int> {
    if '0' <= c <= '9' {
        Some(c as int - '0' as int)
    } else if 'a' <= c <= 'f' {
        Some(c as int - 'a' as int + 10)
    } else if 'A' <= c <= 'F' {
        Some(c as int - 'A' as int + 10)
    } else {
        None
    }
}

/// The fields of `s` between occurrences of `separator`.
pub open spec fn split_fields(s: Seq<char>, separator: char) -> Seq<Seq<char>>
    decreases s.len(),
{
    if s.len() == 0 {
        seq![Seq::<char>::empty()]
    } else {
        let fields = split_fields(s.drop_last(), separator);
        if s.last() == separator {
            fields.push(Seq::<char>::empty())
        } else {
            fields.update(fields.len() - 1, fields.last().push(s.last()))
        }
    }
}

/// There is always at least one field.
pub proof fn lemma_split_fields_nonempty(s: Seq<char>, separator: char)
    ensures
        split_fields(s, separator).len() >= 1,
    decreases s.len(),
{
    if s.len() > 0 {
        lemma_split_fields_nonempty(s.drop_last(), separator);
    }
}

/// A separator followed by a separator-free tail adds exactly that tail as a field.
pub proof fn lemma_split_fields_append(s: Seq<char>, tail: Seq<char>, separator: char)
    requires
        forall|i: int| 0 <= i < tail.len() ==> tail[i] != separator,
    ensures
        split_fields(s.push(separator) + tail, separator) == split_fields(s, separator).push(tail),
    decreases tail.len(),
{
    let joined = s.push(separator) + tail;
    lemma_split_fields_nonempty(s, separator);
    if tail.len() == 0 {
        assert(joined.drop_last() =~= s);
        assert(tail =~= Seq::<char>::empty());
    } else {
        lemma_split_fields_append(s, tail.drop_last(), separator);
        assert(joined.drop_last() =~= s.push(separator) + tail.drop_last());
        assert(joined.last() == tail.last());
        assert(tail.drop_last().push(tail.last()) =~= tail);
        let shorter = split_fields(s, separator).push(tail.drop_last());
        assert(shorter.update(shorter.len() - 1, tail) =~= split_fields(s, separator).push(tail));
    }
}

/// A separator-free text is its own single field.
pub proof fn lemma_split_fields_single(s: Seq<char>, separator: char)
    requires
        forall|i: int| 0 <= i < s.len() ==> s[i] != separator,
    ensures
        split_fields(s, separator) == seq![s],
    decreases s.len(),
{
    if s.len() == 0 {
        assert(s =~= Seq::<char>::empty());
    } else {
        lemma_split_fields_single(s.drop_last(), separator);
        assert(s.drop_last().push(s.last()) =~= s);
        assert(seq![s.drop_last()].update(0, s) =~= seq![s]);
    }
}

fn digit_text(digit: u64) -> (r: &'static str)
    requires
        digit < 10,
    ensures
        r@ == seq![digit_char(digit as int)],
{
    proof {
        reveal_strlit("0");
        reveal_strlit("1");
        reveal_strlit("2");
        reveal_strlit("3");
        reveal_strlit("4");
        reveal_strlit("5");
        reveal_strlit("6");
        reveal_strlit("7");
        reveal_strlit("8");
        reveal_strlit("9");
    }
    if digit == 0 {
        "0"
    } else if digit == 1 {
        "1"
    } else if digit == 2 {
        "2"
    } else if digit == 3 {
        "3"
    } else if digit == 4 {
        "4"
    } else if digit == 5 {
        "5"
    } else if digit == 6 {
        "6"
    } else if digit == 7 {
        "7"
    } else if digit == 8 {
        "8"
    } else {
        "9"
    }
}

fn hex_digit_text(nibble: u8) -> (r: &'static str)
    requires
        nibble < 16,
    ensures
        r@ == seq![hex_char(nibble as int)],
{
    if nibble < 10 {
        digit_text(nibble as u64)
    } else {
        proof {
            reveal_strlit("a");
            reveal_strlit("b");
            reveal_strlit("c");
            reveal_strlit("d");
            reveal_strlit("e");
            reveal_strlit("f");
        }
        if nibble == 10 {
            "a"
        } else if nibble == 11 {
            "b"
        } else if nibble == 12 {
            "c"
        } else if nibble == 13 {
            "d"
        } else if nibble == 14 {
            "e"
        } else {
            "f"
        }
    }
}

/// Appends the decimal numeral of `n` to `out`.
pub fn push_decimal(out: &mut String, n: u64)
    ensures
        final(out)@ == old(out)@ + decimal_text(n as nat),
    decreases n,
{
    if n < 10 {
        out.append(digit_text(n));
    } else {
        push_decimal(out, n / 10);
        out.append(digit_text(n % 10));
    }
}

/// Appends the two hexadecimal digits of `byte` to `out`.
pub fn push_hex_byte(out: &mut String, byte: u8)
    ensures
        final(out)@ == old(out)@ + seq![hex_char(byte as int / 16), hex_char(byte as int % 16)],
{
    out.append(hex_digit_text(byte / 16));
    out.append(hex_digit_text(byte % 16));
}

/// Splits `text` at every `separator`.
pub fn split_text(text: &str, separator: char) -> (fields: Vec<Vec<char>>)
    ensures
        fields@.len() == split_fields(text@, separator).len(),
        forall|i: int|
            0 <= i < fields@.len() ==> (#[trigger] fields@[i])@ == split_fields(text@, separator)[i],
{
    let length: usize = text.unicode_len();
    let mut fields: Vec<Vec<char>> = Vec::new();
    let mut current: Vec<char> = Vec::new();
    let mut at: usize = 0;
    let ghost full = text@;
    proof {
        assert(full.take(0) =~= Seq::<char>::empty());
        assert(split_fields(full.take(0), separator) =~= seq![Seq::<char>::empty()]);
    }
    while at < length
        invariant
            at <= length,
            length == full.len(),
            full == text@,
            split_fields(full.take(at as int), separator).len() == fields@.len() + 1,
            current@ == split_fields(full.take(at as int), separator).last(),
            forall|i: int|
                0 <= i < fields@.len() ==> (#[trigger] fields@[i])@ == split_fields(
                    full.take(at as int),
                    separator,
                )[i],
        decreases length - at,
    {
        let c = text.get_char(at);
        proof {
            assert(full.take(at as int + 1).drop_last() =~= full.take(at as int));
            assert(full.take(at as int + 1).last() == full[at as int]);
        }
        if c == separator {
            fields.push(current);
            current = Vec::new();
        } else {
            current.push(c);
        }
        at = at + 1;
    }
    proof {
        assert(full.take(length as int) =~= full);
    }
    fields.push(current);
    fields
}

/// A number's decimal text is that of its tens with the digit of its ones behind it, and
/// the digits are '0' to '9'.
pub proof fn law_decimal_texts_grow_digit_by_digit(tens: nat, ones: nat)
    requires
        ones < 10,
    ensures
        decimal_text(ones).len() == 1,
        decimal_text(ones)[0] as int == 48 + ones,
        tens > 0 ==> decimal_text(tens * 10 + ones) == decimal_text(tens) + decimal_text(ones),
{
    let n = tens * 10 + ones;
    assert(n / 10 == tens && n % 10 == ones);
}

/// A decimal text is written behind what is there. Different numbers have different texts.
pub proof fn law_decimal_texts_tell_numbers_apart(n: u64, other: u64)
    ensures
        forall|out: &mut String| #[trigger]
            call_ensures(push_decimal, (out, n), ()) ==> final(out)@ == out@ + decimal_text(
                n as nat,
            ),
        decimal_text(n as nat) == decimal_text(other as nat) ==> n == other,
        decimal_text(n as nat).len() > 0,
        n > 0 ==> decimal_text(n as nat)[0] != '0',
{
    lemma_decimal_texts_differ(n as nat, other as nat);
    lemma_decimal_text_starts(n as nat);
}

proof fn lemma_decimal_text_starts(n: nat)
    ensures
        decimal_text(n).len() > 0,
        n > 0 ==> decimal_text(n)[0] != '0',
    decreases n,
{
    if n >= 10 {
        lemma_decimal_text_starts(n / 10);
    }
}

proof fn lemma_decimal_texts_differ(n: nat, other: nat)
    ensures
        decimal_text(n) == decimal_text(other) ==> n == other,
    decreases n,
{
    lemma_decimal_text_starts(n / 10);
    lemma_decimal_text_starts(other / 10);
    if decimal_text(n) == decimal_text(other) {
        assert(decimal_text(n).last() == digit_char((n % 10) as int));
        assert(decimal_text(other).last() == digit_char((other % 10) as int));
        if n >= 10 && other >= 10 {
            assert(decimal_text(n).drop_last() =~= decimal_text(n / 10));
            assert(decimal_text(other).drop_last() =~= decimal_text(other / 10));
            lemma_decimal_texts_differ(n / 10, other / 10);
        }
    }
}

/// A byte's text is two lower-case hexadecimal digits, the high one first.
pub proof fn law_bytes_are_two_hex_digits(byte: u8)
    ensures
        forall|out: &mut String| #[trigger]
            call_ensures(push_hex_byte, (out, byte), ()) ==> {
                let high = byte as int / 16;
                let low = byte as int % 16;
                &&& final(out)@.len() == out@.len() + 2
                &&& final(out)@.take(out@.len() as int) == out@
                &&& final(out)@[out@.len() as int] as int == (if high < 10 {
                    48 + high
                } else {
                    87 + high
                })
                &&& final(out)@[out@.len() + 1int] as int == (if low < 10 {
                    48 + low
                } else {
                    87 + low
                })
            },
{
    assert forall|out: &mut String| #[trigger]
        call_ensures(push_hex_byte, (out, byte), ()) implies {
        let high = byte as int / 16;
        let low = byte as int % 16;
        &&& final(out)@.len() == out@.len() + 2
        &&& final(out)@.take(out@.len() as int) == out@
        &&& final(out)@[out@.len() as int] as int == (if high < 10 {
            48 + high
        } else {
            87 + high
        })
        &&& final(out)@[out@.len() + 1int] as int == (if low < 10 {
            48 + low
        } else {
            87 + low
        })
    } by {
        assert(final(out)@.take(out@.len() as int) =~= out@);
    }
}

/// Hexadecimal digits are read in either case, and nothing else is one.
pub proof fn law_hex_digits_are_read_in_either_case(c: char)
    ensures
        hex_value(c) is Some <==> 48 <= c as int <= 57 || 65 <= c as int <= 70 || 97 <= c as int
            <= 102,
        48 <= c as int <= 57 ==> hex_value(c) == Some(c as int - 48),
        65 <= c as int <= 70 ==> hex_value(c) == Some(c as int - 55),
        97 <= c as int <= 102 ==> hex_value(c) == Some(c as int - 87),
{
}

/// A text is split at its separators: a separator starts a new, empty field, and any other
/// character goes to the last field.
pub proof fn law_texts_are_split_at_separators(s: Seq<char>, separator: char, c: char)
    ensures
        split_fields(Seq::<char>::empty(), separator) == seq![Seq::<char>::empty()],
        split_fields(s, separator).len() >= 1,
        split_fields(s.push(separator), separator) == split_fields(s, separator).push(
            Seq::<char>::empty(),
        ),
        c != separator ==> {
            let before = split_fields(s, separator);
            let after = split_fields(s.push(c), separator);
            &&& after.len() == before.len()
            &&& after.last() == before.last().push(c)
            &&& after.drop_last() == before.drop_last()
        },
{
    lemma_split_fields_nonempty(s, separator);
    assert(s.push(separator).drop_last() =~= s);
    assert(s.push(c).drop_last() =~= s);
    let before = split_fields(s, separator);
    if c != separator {
        let after = split_fields(s.push(c), separator);
        assert(after.drop_last() =~= before.drop_last());
    }
}

/// The fields that a text is split into are those between its separators.
pub proof fn law_split_texts_have_their_fields(
    text: &str,
    separator: char,
    more: &str,
    fields: Vec<Vec<char>>,
    more_fields: Vec<Vec<char>>,
)
    requires
        call_ensures(split_text, (text, separator), fields),
        call_ensures(split_text, (more, separator), more_fields),
        more@ == text@.push(separator),
    ensures
        fields@.len() >= 1,
        more_fields@.len() == fields@.len() + 1,
        more_fields@.last()@.len() == 0,
        forall|i: int| 0 <= i < fields@.len() ==> (#[trigger] more_fields@[i])@ == fields@[i]@,
{
    law_texts_are_split_at_separators(text@, separator, separator);
    assert forall|i: int| 0 <= i < fields@.len() implies (#[trigger] more_fields@[i])@
        == fields@[i]@ by {
        assert(fields@[i]@ == split_fields(text@, separator)[i]);
    }
}

} // verus!
