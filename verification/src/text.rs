//! Text as sequences of characters: building it, taking it apart, reading and writing numbers.
use vstd::prelude::*;
use vstd::string::*;

verus! {

/// `String::push` appends one character to the end of the text.
pub assume_specification[ String::push ](s: &mut String, ch: char)
    ensures
        final(s)@ == old(s)@.push(ch),
;

/// The character of a decimal digit.
pub open spec fn digit_char(d: nat) -> char {
    (48 + d) as char
}

pub open spec fn is_digit(c: char) -> bool {
    '0' <= c <= '9'
}

/// The value of a digit character.
pub open spec fn digit_value(c: char) -> nat {
    (c as int - 48) as nat
}

pub open spec fn all_digits(s: Seq<char>) -> bool {
    forall|i: int| 0 <= i < s.len() ==> is_digit(#[trigger] s[i])
}

/// A number written in decimal, without leading zeros.
pub open spec fn decimal(n: nat) -> Seq<char>
    decreases n,
{
    if n < 10 {
        seq![digit_char(n)]
    } else {
        decimal(n / 10).push(digit_char(n % 10))
    }
}

/// The number that a row of digits denotes.
pub open spec fn digits_value(s: Seq<char>) -> nat
    decreases s.len(),
{
    if s.len() == 0 {
        0
    } else {
        digits_value(s.drop_last()) * 10 + digit_value(s.last())
    }
}

/// The number that a row of digits denotes; `None` for anything else, the empty text included.
pub open spec fn digits_of(s: Seq<char>) -> Option<nat> {
    if s.len() > 0 && all_digits(s) {
        Some(digits_value(s))
    } else {
        None
    }
}

/// The unsigned number that a text denotes: digits, with a plus sign before them at most.
pub open spec fn number_of(s: Seq<char>) -> Option<nat> {
    if s.len() > 0 && s[0] == '+' {
        digits_of(s.skip(1))
    } else {
        digits_of(s)
    }
}

/// The signed number that a text denotes: digits, with one sign before them at most.
pub open spec fn signed_number_of(s: Seq<char>) -> Option<int> {
    if s.len() > 0 && s[0] == '-' {
        match digits_of(s.skip(1)) {
            Some(n) => Some(-(n as int)),
            None => None,
        }
    } else {
        match number_of(s) {
            Some(n) => Some(n as int),
            None => None,
        }
    }
}

/// Whether a character is white space.
pub open spec fn is_space(c: char) -> bool {
    let v = c as u32;
    ||| 9 <= v <= 13
    ||| v == 0x20
    ||| v == 0x85
    ||| v == 0xa0
    ||| v == 0x1680
    ||| 0x2000 <= v <= 0x200a
    ||| v == 0x2028
    ||| v == 0x2029
    ||| v == 0x202f
    ||| v == 0x205f
    ||| v == 0x3000
}

/// Whether a character is a control character.
pub open spec fn is_control(c: char) -> bool {
    let v = c as u32;
    v < 0x20 || 0x7f <= v <= 0x9f
}

/// Whether `s[from..to]` is `s` without the white space at its ends.
pub open spec fn is_trimmed(s: Seq<char>, from: int, to: int) -> bool {
    &&& 0 <= from <= to <= s.len()
    &&& forall|i: int| 0 <= i < from ==> is_space(#[trigger] s[i])
    &&& forall|i: int| to <= i < s.len() ==> is_space(#[trigger] s[i])
    &&& from < to ==> !is_space(s[from]) && !is_space(s[to - 1])
}

/// A text without the white space at its ends.
pub open spec fn trimmed(s: Seq<char>) -> Seq<char>
    decreases s.len(),
{
    if s.len() > 0 && is_space(s[0]) {
        trimmed(s.drop_first())
    } else if s.len() > 0 && is_space(s.last()) {
        trimmed(s.drop_last())
    } else {
        s
    }
}

/// The characters of a text.
pub fn chars_of(s: &str) -> (r: Vec<char>)
    ensures
        r@ == s@,
{
    let mut out: Vec<char> = Vec::new();
    let n: usize = s.unicode_len();
    for c in it: s.chars()
        invariant
            it.seq() == s@,
            out@ == it.seq().take(it.index()),
            n == s@.len(),
    {
        out.push(c);
        proof {
            assert(it.seq().take(it.index() + 1) =~= it.seq().take(it.index()).push(c));
        }
    }
    proof {
        assert(s@.take(s@.len() as int) =~= s@);
    }
    out
}

/// The text made of the characters from `from` up to `to`.
pub fn text_between(chars: &Vec<char>, from: usize, to: usize) -> (r: String)
    requires
        from <= to <= chars@.len(),
    ensures
        r@ == chars@.subrange(from as int, to as int),
{
    let mut out = String::new();
    let mut i: usize = from;
    while i < to
        invariant
            from <= i <= to,
            to <= chars@.len(),
            out@ == chars@.subrange(from as int, i as int),
        decreases to - i,
    {
        out.push(chars[i]);
        proof {
            assert(chars@.subrange(from as int, i + 1) =~= chars@.subrange(from as int, i as int).push(
                chars@[i as int],
            ));
        }
        i += 1;
    }
    out
}

/// Whether two texts are equal.
pub fn same_text(a: &str, b: &str) -> (r: bool)
    ensures
        r == (a@ == b@),
{
    a.to_owned() == b.to_owned()
}

/// The content of a text that may be missing.
pub open spec fn content_of(s: Option<String>) -> Option<Seq<char>> {
    match s {
        Some(text) => Some(text@),
        None => None,
    }
}

/// The text `a` followed by the text `b`.
pub fn joined(a: &str, b: &str) -> (r: String)
    ensures
        r@ == a@ + b@,
{
    let mut out = a.to_owned();
    out.append(b);
    out
}

pub proof fn lemma_decimal_digits(n: nat)
    ensures
        all_digits(decimal(n)),
        decimal(n).len() > 0,
        digits_value(decimal(n)) == n,
    decreases n,
{
    if n < 10 {
        let s = seq![digit_char(n)];
        assert(s.drop_last() == Seq::<char>::empty());
        assert(digits_value(Seq::<char>::empty()) == 0);
    } else {
        lemma_decimal_digits(n / 10);
        let rest = decimal(n / 10);
        let s = rest.push(digit_char(n % 10));
        assert(s.drop_last() == rest);
        assert(s.last() == digit_char(n % 10));
    }
}

/// A number written in decimal is read back, with or without a sign in the grammar.
pub proof fn law_decimal_round_trip(n: nat)
    ensures
        digits_of(decimal(n)) == Some(n),
        number_of(decimal(n)) == Some(n),
        signed_number_of(decimal(n)) == Some(n as int),
{
    lemma_decimal_digits(n);
    assert(is_digit(decimal(n)[0]));
}

/// Different numbers are written differently.
pub proof fn law_decimal_is_injective(a: nat, b: nat)
    ensures
        decimal(a) == decimal(b) <==> a == b,
{
    lemma_decimal_digits(a);
    lemma_decimal_digits(b);
}

/// Appends a number in decimal.
pub fn push_decimal(out: &mut String, n: u64)
    ensures
        final(out)@ == old(out)@ + decimal(n as nat),
    decreases n,
{
    if n < 10 {
        let d: char = (48 + n as u8) as char;
        out.push(d);
        proof {
            assert(old(out)@ + decimal(n as nat) =~= old(out)@.push(d));
        }
    } else {
        push_decimal(out, n / 10);
        let d: char = (48 + (n % 10) as u8) as char;
        out.push(d);
        proof {
            assert(old(out)@ + decimal(n as nat) =~= (old(out)@ + decimal((n / 10) as nat)).push(d));
        }
    }
}

/// A number in decimal.
pub fn decimal_text(n: u64) -> (r: String)
    ensures
        r@ == decimal(n as nat),
{
    let mut out = String::new();
    push_decimal(&mut out, n);
    proof {
        assert(Seq::<char>::empty() + decimal(n as nat) =~= decimal(n as nat));
    }
    out
}

/// Reads the digits from `from` up to `to`; `None` if there is none, if something else is among
/// them, or if the number is above `limit`.
pub fn read_digits(chars: &Vec<char>, from: usize, to: usize, limit: u64) -> (r: Option<u64>)
    requires
        from <= to <= chars@.len(),
    ensures
        match digits_of(chars@.subrange(from as int, to as int)) {
            Some(n) => if n <= limit {
                r == Some(n as u64)
            } else {
                r is None
            },
            None => r is None,
        },
{
    let ghost s = chars@.subrange(from as int, to as int);
    if from == to {
        return None;
    }
    let mut value: u64 = 0;
    let mut i: usize = from;
    let mut fits = true;
    proof {
        assert(s.take(0) == Seq::<char>::empty());
    }
    while i < to
        invariant
            from <= i <= to,
            to <= chars@.len(),
            s == chars@.subrange(from as int, to as int),
            forall|k: int| 0 <= k < i - from ==> is_digit(#[trigger] s[k]),
            fits ==> value == digits_value(s.take(i - from)) && value <= limit,
            !fits ==> digits_value(s.take(i - from)) > limit,
        decreases to - i,
    {
        let c: char = chars[i];
        proof {
            let k = i - from;
            assert(s[k] == c);
            assert(s.take(k + 1).drop_last() == s.take(k));
            assert(s.take(k + 1).last() == c);
        }
        if !('0' <= c && c <= '9') {
            proof {
                assert(!is_digit(s[i - from]));
            }
            return None;
        }
        let d: u64 = (c as u32 - 48) as u64;
        if fits {
            if value > limit / 10 || d > limit - value * 10 {
                fits = false;
            } else {
                value = value * 10 + d;
            }
        }
        i += 1;
    }
    proof {
        assert(s.take(to - from) == s);
    }
    if fits {
        Some(value)
    } else {
        None
    }
}

/// Reads an unsigned number that is at most `limit`.
pub fn read_number(chars: &Vec<char>, from: usize, to: usize, limit: u64) -> (r: Option<u64>)
    requires
        from <= to <= chars@.len(),
    ensures
        match number_of(chars@.subrange(from as int, to as int)) {
            Some(n) => if n <= limit {
                r == Some(n as u64)
            } else {
                r is None
            },
            None => r is None,
        },
{
    let ghost s = chars@.subrange(from as int, to as int);
    if from < to && chars[from] == '+' {
        proof {
            assert(s[0] == '+');
            assert(s.skip(1) == chars@.subrange(from + 1, to as int));
        }
        read_digits(chars, from + 1, to, limit)
    } else {
        proof {
            if s.len() > 0 {
                assert(s[0] == chars@[from as int]);
            }
        }
        read_digits(chars, from, to, limit)
    }
}

/// Reads a signed number of 32 bits.
pub fn read_i32(chars: &Vec<char>, from: usize, to: usize) -> (r: Option<i32>)
    requires
        from <= to <= chars@.len(),
    ensures
        match signed_number_of(chars@.subrange(from as int, to as int)) {
            Some(v) => if i32::MIN <= v <= i32::MAX {
                r == Some(v as i32)
            } else {
                r is None
            },
            None => r is None,
        },
{
    let ghost s = chars@.subrange(from as int, to as int);
    if from < to && chars[from] == '-' {
        proof {
            assert(s[0] == '-');
            assert(s.skip(1) == chars@.subrange(from + 1, to as int));
        }
        match read_digits(chars, from + 1, to, 0x8000_0000) {
            Some(n) => Some((-(n as i64)) as i32),
            None => None,
        }
    } else {
        proof {
            if s.len() > 0 {
                assert(s[0] == chars@[from as int]);
            }
        }
        match read_number(chars, from, to, 0x7fff_ffff) {
            Some(n) => Some(n as i32),
            None => None,
        }
    }
}

/// The unsigned number of 64 bits that a text denotes.
pub fn parse_u64(s: &str) -> (r: Option<u64>)
    ensures
        match number_of(s@) {
            Some(n) => if n <= u64::MAX {
                r == Some(n as u64)
            } else {
                r is None
            },
            None => r is None,
        },
{
    let chars = chars_of(s);
    proof {
        assert(chars@.subrange(0, chars@.len() as int) =~= s@);
    }
    read_number(&chars, 0, chars.len(), u64::MAX)
}

/// Whether a character is white space.
pub fn is_white_space(c: char) -> (r: bool)
    ensures
        r == is_space(c),
{
    let v: u32 = c as u32;
    (9 <= v && v <= 13) || v == 0x20 || v == 0x85 || v == 0xa0 || v == 0x1680 || (0x2000 <= v && v
        <= 0x200a) || v == 0x2028 || v == 0x2029 || v == 0x202f || v == 0x205f || v == 0x3000
}

/// Whether a character is a control character.
pub fn is_control_char(c: char) -> (r: bool)
    ensures
        r == is_control(c),
{
    let v: u32 = c as u32;
    v < 0x20 || (0x7f <= v && v <= 0x9f)
}

/// Trimming is taking the part between the outermost characters that are not white space.
pub proof fn law_trimmed_is_the_inner_part(s: Seq<char>, from: int, to: int)
    requires
        is_trimmed(s, from, to),
    ensures
        trimmed(s) == s.subrange(from, to),
    decreases s.len(),
{
    if s.len() > 0 && is_space(s[0]) {
        let rest = s.drop_first();
        if from == 0 {
            assert(from == to);
            assert forall|i: int| 0 <= i < rest.len() implies is_space(#[trigger] rest[i]) by {
                assert(rest[i] == s[i + 1]);
            }
            assert(is_trimmed(rest, 0, 0)) by {
                assert forall|i: int| 0 <= i < rest.len() implies is_space(#[trigger] rest[i]) by {
                    assert(rest[i] == s[i + 1]);
                }
            }
            law_trimmed_is_the_inner_part(rest, 0, 0);
            assert(rest.subrange(0, 0) =~= s.subrange(from, to));
        } else {
            assert forall|i: int| 0 <= i < from - 1 implies is_space(#[trigger] rest[i]) by {
                assert(rest[i] == s[i + 1]);
            }
            assert forall|i: int| to - 1 <= i < rest.len() implies is_space(#[trigger] rest[i]) by {
                assert(rest[i] == s[i + 1]);
            }
            law_trimmed_is_the_inner_part(rest, from - 1, to - 1);
            assert(rest.subrange(from - 1, to - 1) =~= s.subrange(from, to));
        }
    } else if s.len() > 0 && is_space(s.last()) {
        let rest = s.drop_last();
        assert(from == 0);
        assert(to < s.len());
        law_trimmed_is_the_inner_part(rest, from, to);
        assert(rest.subrange(from, to) =~= s.subrange(from, to));
    } else {
        if s.len() > 0 {
            assert(from == 0);
            assert(to == s.len());
        }
        assert(s.subrange(from, to) =~= s);
    }
}

/// Trimmed text has no white space at its ends, and trimming it again changes nothing.
pub proof fn law_trimming_twice_is_trimming_once(s: Seq<char>)
    ensures
        trimmed(trimmed(s)) == trimmed(s),
        trimmed(s).len() > 0 ==> !is_space(trimmed(s)[0]) && !is_space(trimmed(s).last()),
    decreases s.len(),
{
    if s.len() > 0 && is_space(s[0]) {
        law_trimming_twice_is_trimming_once(s.drop_first());
    } else if s.len() > 0 && is_space(s.last()) {
        law_trimming_twice_is_trimming_once(s.drop_last());
    }
}

/// A text without the white space at its ends.
pub fn trim_text(s: &str) -> (r: String)
    ensures
        r@ == trimmed(s@),
{
    let chars = chars_of(s);
    let mut from: usize = 0;
    while from < chars.len() && is_white_space(chars[from])
        invariant
            from <= chars@.len(),
            forall|i: int| 0 <= i < from ==> is_space(#[trigger] chars@[i]),
        ensures
            from < chars@.len() ==> !is_space(chars@[from as int]),
        decreases chars@.len() - from,
    {
        from += 1;
    }
    let mut to: usize = chars.len();
    while to > from && is_white_space(chars[to - 1])
        invariant
            from <= to <= chars@.len(),
            forall|i: int| to <= i < chars@.len() ==> is_space(#[trigger] chars@[i]),
        ensures
            to > from ==> !is_space(chars@[to - 1]),
        decreases to,
    {
        to -= 1;
    }
    proof {
        law_trimmed_is_the_inner_part(s@, from as int, to as int);
    }
    text_between(&chars, from, to)
}

/// The parts of a text between the occurrences of a separator.
pub open spec fn split(s: Seq<char>, sep: char) -> Seq<Seq<char>>
    decreases s.len(),
{
    if s.len() == 0 {
        seq![Seq::<char>::empty()]
    } else {
        let rest = split(s.drop_last(), sep);
        if s.last() == sep {
            rest.push(Seq::<char>::empty())
        } else {
            rest.drop_last().push(rest.last().push(s.last()))
        }
    }
}

/// Parts put together with a separator between them.
pub open spec fn join(parts: Seq<Seq<char>>, sep: char) -> Seq<char>
    decreases parts.len(),
{
    if parts.len() == 0 {
        Seq::empty()
    } else if parts.len() == 1 {
        parts[0]
    } else {
        join(parts.drop_last(), sep).push(sep) + parts.last()
    }
}

/// The parts that ranges of a text cover.
pub open spec fn parts_of(s: Seq<char>, ranges: Seq<(usize, usize)>) -> Seq<Seq<char>> {
    Seq::new(ranges.len(), |k: int| s.subrange(ranges[k].0 as int, ranges[k].1 as int))
}

pub proof fn lemma_split_is_not_empty(s: Seq<char>, sep: char)
    ensures
        split(s, sep).len() > 0,
    decreases s.len(),
{
    if s.len() > 0 {
        lemma_split_is_not_empty(s.drop_last(), sep);
    }
}

/// A text taken apart and put together again is unchanged.
pub proof fn law_split_then_join(s: Seq<char>, sep: char)
    ensures
        join(split(s, sep), sep) == s,
    decreases s.len(),
{
    if s.len() > 0 {
        let front = s.drop_last();
        let rest = split(front, sep);
        law_split_then_join(front, sep);
        lemma_split_is_not_empty(front, sep);
        if s.last() == sep {
            let parts = rest.push(Seq::<char>::empty());
            assert(parts.drop_last() == rest);
            assert(join(parts, sep) =~= front.push(sep));
        } else {
            let last = rest.last().push(s.last());
            let parts = rest.drop_last().push(last);
            assert(parts.drop_last() == rest.drop_last());
            if rest.len() == 1 {
                assert(parts =~= seq![last]);
                assert(join(parts, sep) =~= s);
            } else {
                assert(join(parts, sep) =~= join(rest, sep).push(s.last()));
            }
        }
        assert(front.push(s.last()) =~= s);
    }
}

/// Finds the parts of a text between the occurrences of a separator.
pub fn split_ranges(chars: &Vec<char>, sep: char) -> (r: Vec<(usize, usize)>)
    ensures
        parts_of(chars@, r@) == split(chars@, sep),
        r@.len() > 0,
        forall|k: int| 0 <= k < r@.len() ==> (#[trigger] r@[k]).0 <= r@[k].1 <= chars@.len(),
{
    let mut done: Vec<(usize, usize)> = Vec::new();
    let mut start: usize = 0;
    let mut i: usize = 0;
    proof {
        assert(chars@.take(0) == Seq::<char>::empty());
        assert(parts_of(chars@, done@).push(chars@.subrange(0, 0)) =~= split(
            Seq::<char>::empty(),
            sep,
        ));
    }
    while i < chars.len()
        invariant
            start <= i <= chars@.len(),
            forall|k: int|
                0 <= k < done@.len() ==> (#[trigger] done@[k]).0 <= done@[k].1 <= chars@.len(),
            parts_of(chars@, done@).push(chars@.subrange(start as int, i as int)) == split(
                chars@.take(i as int),
                sep,
            ),
        decreases chars@.len() - i,
    {
        let ghost before = parts_of(chars@, done@);
        let ghost open = chars@.subrange(start as int, i as int);
        proof {
            assert(chars@.take(i + 1).drop_last() == chars@.take(i as int));
            assert(chars@.take(i + 1).last() == chars@[i as int]);
            assert(before.push(open).drop_last() =~= before);
        }
        if chars[i] == sep {
            done.push((start, i));
            start = i + 1;
            proof {
                assert(parts_of(chars@, done@) =~= before.push(open));
                assert(chars@.subrange(start as int, i + 1) =~= Seq::<char>::empty());
            }
        } else {
            proof {
                assert(chars@.subrange(start as int, i + 1) =~= open.push(chars@[i as int]));
            }
        }
        i += 1;
    }
    let ghost before = parts_of(chars@, done@);
    done.push((start, i));
    proof {
        assert(chars@.take(chars@.len() as int) == chars@);
        assert(parts_of(chars@, done@) =~= before.push(chars@.subrange(start as int, i as int)));
    }
    done
}

proof fn lemma_digits_value_bounds(s: Seq<char>)
    requires
        all_digits(s),
        s.len() > 0,
        s[0] != '0',
    ensures
        digits_value(s) > 0,
        s.len() > 1 ==> digits_value(s) >= 10,
    decreases s.len(),
{
    let rest = s.drop_last();
    if s.len() > 1 {
        assert forall|i: int| 0 <= i < rest.len() implies is_digit(#[trigger] rest[i]) by {
            assert(rest[i] == s[i]);
        }
        lemma_digits_value_bounds(rest);
        assert(is_digit(s[s.len() - 1]));
    } else {
        assert(rest == Seq::<char>::empty());
        assert(digits_value(rest) == 0);
        assert(is_digit(s[0]));
        assert(digits_value(s) == digit_value(s[0]));
    }
}

/// A row of digits without a leading zero is the number that it denotes, written in decimal.
pub proof fn law_plain_digits_are_decimal(s: Seq<char>)
    requires
        all_digits(s),
        s.len() > 0,
        s.len() == 1 || s[0] != '0',
    ensures
        s == decimal(digits_value(s)),
    decreases s.len(),
{
    let rest = s.drop_last();
    let last = s.last();
    assert(is_digit(last));
    if s.len() == 1 {
        assert(rest == Seq::<char>::empty());
        assert(digits_value(rest) == 0);
        assert(s =~= seq![last]);
    } else {
        assert forall|i: int| 0 <= i < rest.len() implies is_digit(#[trigger] rest[i]) by {
            assert(rest[i] == s[i]);
        }
        law_plain_digits_are_decimal(rest);
        lemma_digits_value_bounds(rest);
        let v = digits_value(rest);
        let n = digits_value(s);
        assert(n == v * 10 + digit_value(last));
        assert(n / 10 == v && n % 10 == digit_value(last));
        assert(s =~= rest.push(last));
    }
}

/// Numbers are written with the digits from zero to nine, the highest first and without leading
/// zeros: a digit behind a number makes it ten times as large and adds the digit.
pub proof fn law_numbers_are_written_in_decimal(n: nat, d: nat)
    requires
        d < 10,
    ensures
        n > 0 ==> decimal(10 * n + d) == decimal(n).push(digit_char(d)),
        decimal(d) == seq![digit_char(d)],
        digit_char(0) == '0',
        digit_char(d) as int == '0' as int + d,
        is_digit(digit_char(d)),
        digit_value(digit_char(d)) == d,
{
    assert((10 * n + d) / 10 == n && (10 * n + d) % 10 == d);
}

/// A sign in front of a number is read: a minus makes it negative, a plus changes nothing, and two
/// signs are no number; nor is nothing at all, or anything but digits.
pub proof fn law_signs_are_read(n: nat, s: Seq<char>)
    ensures
        signed_number_of(seq!['-'] + decimal(n)) == Some(-(n as int)),
        signed_number_of(seq!['+'] + decimal(n)) == Some(n as int),
        number_of(seq!['+'] + decimal(n)) == Some(n),
        number_of(seq!['-'] + s) is None,
        number_of(seq!['+', '+'] + s) is None,
        number_of(Seq::empty()) is None,
        signed_number_of(Seq::empty()) is None,
{
    law_decimal_round_trip(n);
    assert((seq!['-'] + decimal(n)).skip(1) =~= decimal(n));
    assert((seq!['+'] + decimal(n)).skip(1) =~= decimal(n));
    assert((seq!['-'] + s)[0] == '-');
    let two = (seq!['+', '+'] + s).skip(1);
    assert(two[0] == '+');
    assert(!is_digit('+'));
    assert(!is_digit('-'));
}

/// The parts of a text hold no separator, and there is one part more than there are separators: a
/// separator more at the end begins an empty part.
pub proof fn law_parts_hold_no_separator(s: Seq<char>, sep: char, i: int)
    ensures
        split(s, sep).len() > 0,
        split(s.push(sep), sep) == split(s, sep).push(Seq::empty()),
        0 <= i < split(s, sep).len() ==> !split(s, sep)[i].contains(sep),
    decreases s.len(),
{
    assert(s.push(sep).drop_last() =~= s);
    if s.len() > 0 {
        let rest = s.drop_last();
        law_parts_hold_no_separator(rest, sep, i);
        let parts = split(rest, sep);
        if s.last() != sep && i == parts.len() - 1 {
            let longer = parts.last().push(s.last());
            assert(split(s, sep)[i] == longer);
            if longer.contains(sep) {
                let k = choose|k: int| 0 <= k < longer.len() && longer[k] == sep;
                assert(parts.last()[k] == sep);
                assert(parts[i].contains(sep));
            }
        }
    }
}

/// Spaces, tabs and line ends are trimmed, and no letter, digit or mark of the keyboard is.
pub proof fn law_only_white_space_is_trimmed(c: char)
    ensures
        is_space(' ') && is_space('\t') && is_space('\n') && is_space('\r'),
        0x21 <= c as int <= 0x7e ==> !is_space(c) && !is_control(c),
        is_control('\n') && is_control('\t') && !is_control(' '),
{
}

/// Parts without the separator that are joined come apart again as they were.
pub proof fn law_join_then_split(parts: Seq<Seq<char>>, sep: char)
    requires
        parts.len() > 0,
        forall|i: int| 0 <= i < parts.len() ==> !(#[trigger] parts[i]).contains(sep),
    ensures
        split(join(parts, sep), sep) == parts,
    decreases parts.len(),
{
    if parts.len() == 1 {
        assert(!parts[0].contains(sep));
        lemma_split_with_a_tail(Seq::empty(), parts[0], sep);
        assert(Seq::<char>::empty() + parts[0] =~= parts[0]);
        assert(split(parts[0], sep) =~= parts);
    } else {
        let front = parts.drop_last();
        assert forall|i: int| 0 <= i < front.len() implies !(#[trigger] front[i]).contains(sep) by {
            assert(front[i] == parts[i]);
        }
        law_join_then_split(front, sep);
        let s = join(front, sep).push(sep);
        law_parts_hold_no_separator(join(front, sep), sep, 0);
        assert(!parts[parts.len() - 1].contains(sep));
        lemma_split_with_a_tail(s, parts.last(), sep);
        assert(split(join(parts, sep), sep) =~= parts);
    }
}

/// Characters that are no separator go to the last part.
proof fn lemma_split_with_a_tail(s: Seq<char>, tail: Seq<char>, sep: char)
    requires
        !tail.contains(sep),
    ensures
        split(s, sep).len() > 0,
        split(s + tail, sep) == split(s, sep).drop_last().push(split(s, sep).last() + tail),
    decreases tail.len(),
{
    lemma_split_is_not_empty(s, sep);
    let parts = split(s, sep);
    if tail.len() == 0 {
        assert(s + tail =~= s);
        assert(parts.last() + tail =~= parts.last());
        assert(parts.drop_last().push(parts.last()) =~= parts);
    } else {
        let rest = tail.drop_last();
        assert forall|i: int| 0 <= i < rest.len() implies rest[i] != sep by {
            assert(rest[i] == tail[i]);
            assert(tail.contains(tail[i]));
        }
        lemma_split_with_a_tail(s, rest, sep);
        assert((s + tail).drop_last() =~= s + rest);
        assert((s + tail).last() == tail.last());
        assert(tail.contains(tail[tail.len() - 1]));
        let before = split(s + rest, sep);
        assert(before.last() =~= parts.last() + rest);
        assert(before.drop_last() =~= parts.drop_last());
        assert(before.last().push(tail.last()) =~= parts.last() + tail);
    }
}

} // verus!
