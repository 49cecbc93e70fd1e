//! Strings: decimal numbers, splitting and joining, and padding.

use vstd::prelude::*;
use vstd::string::*;

verus! {

/// The digit `d` as a character.
pub open spec fn digit(d: nat) -> char {
    (('0' as u32) + d) as char
}

/// The decimal digits of `n`, without leading zeros.
pub open spec fn decimal(n: nat) -> Seq<char>
    decreases n,
{
    if n < 10 {
        seq![digit(n)]
    } else {
        decimal(n / 10).push(digit(n % 10))
    }
}

/// The position of the first `c` in `s`, or the length of `s` where there is none.
pub open spec fn first_index(s: Seq<char>, c: char) -> nat
    decreases s.len(),
{
    if s.len() == 0 || s[0] == c {
        0
    } else {
        1 + first_index(s.drop_first(), c)
    }
}

/// The pieces of `s` between the occurrences of `c`; without one, `s` alone.
pub open spec fn split_on(s: Seq<char>, c: char) -> Seq<Seq<char>>
    decreases s.len(),
{
    let i = first_index(s, c);
    if i >= s.len() {
        seq![s]
    } else {
        seq![s.take(i as int)] + split_on(s.skip(i as int + 1), c)
    }
}

/// The pieces one after the other, with `sep` between neighbours.
pub open spec fn joined(parts: Seq<Seq<char>>, sep: Seq<char>) -> Seq<char>
    decreases parts.len(),
{
    if parts.len() == 0 {
        Seq::empty()
    } else if parts.len() == 1 {
        parts[0]
    } else {
        joined(parts.drop_last(), sep) + sep + parts.last()
    }
}

/// `n` spaces.
pub open spec fn spaces(n: nat) -> Seq<char> {
    Seq::new(n, |i: int| ' ')
}

/// `s` followed by spaces up to a width of `width` characters.
pub open spec fn padded(s: Seq<char>, width: nat) -> Seq<char> {
    s + spaces(if s.len() < width { (width - s.len()) as nat } else { 0 })
}

/// The views of the strings in `v`.
pub open spec fn views(v: Seq<String>) -> Seq<Seq<char>> {
    v.map_values(|s: String| s@)
}

/// The views of the string slices in `v`.
pub open spec fn str_views(v: Seq<&str>) -> Seq<Seq<char>> {
    v.map_values(|s: &str| s@)
}

pub proof fn lemma_first_index(s: Seq<char>, c: char)
    ensures
        first_index(s, c) <= s.len(),
        first_index(s, c) < s.len() ==> s[first_index(s, c) as int] == c,
        forall|j: int| 0 <= j < first_index(s, c) ==> s[j] != c,
    decreases s.len(),
{
    if s.len() != 0 && s[0] != c {
        let t = s.drop_first();
        lemma_first_index(t, c);
        assert forall|j: int| 0 <= j < first_index(s, c) implies s[j] != c by {
            if j > 0 {
                assert(s[j] == t[j - 1]);
            }
        }
    }
}

pub proof fn lemma_first_index_is(s: Seq<char>, c: char, i: int)
    requires
        0 <= i <= s.len(),
        forall|j: int| 0 <= j < i ==> s[j] != c,
        i < s.len() ==> s[i] == c,
    ensures
        first_index(s, c) == i,
{
    lemma_first_index(s, c);
}

/// A string is split at a separator in its middle: the pieces of what comes
/// before it, then the pieces of what comes after it.
pub proof fn lemma_split_concat(a: Seq<char>, b: Seq<char>, c: char)
    ensures
        split_on(a + seq![c] + b, c) == split_on(a, c) + split_on(b, c),
    decreases a.len(),
{
    let s = a + seq![c] + b;
    let i = first_index(a, c) as int;
    lemma_first_index(a, c);
    if i == a.len() {
        lemma_first_index_is(s, c, i);
        assert(s.take(i) =~= a);
        assert(s.skip(i + 1) =~= b);
    } else {
        lemma_first_index_is(s, c, i);
        let a2 = a.skip(i + 1);
        assert(s.take(i) =~= a.take(i));
        assert(s.skip(i + 1) =~= a2 + seq![c] + b);
        lemma_split_concat(a2, b, c);
        assert(seq![a.take(i)] + (split_on(a2, c) + split_on(b, c)) =~= (seq![a.take(i)] + split_on(
            a2,
            c,
        )) + split_on(b, c));
    }
}

/// No separator, one piece.
pub proof fn lemma_split_one(s: Seq<char>, c: char)
    requires
        !s.contains(c),
    ensures
        split_on(s, c) == seq![s],
{
    assert forall|j: int| 0 <= j < s.len() implies s[j] != c by {
        assert(s.contains(s[j]));
    }
    lemma_first_index_is(s, c, s.len() as int);
}

/// A string has at least one piece, and no piece holds the separator.
pub proof fn lemma_split_pieces(s: Seq<char>, c: char)
    ensures
        split_on(s, c).len() >= 1,
        forall|i: int| 0 <= i < split_on(s, c).len() ==> !(#[trigger] split_on(s, c)[i]).contains(c),
    decreases s.len(),
{
    let i = first_index(s, c) as int;
    lemma_first_index(s, c);
    if i < s.len() {
        lemma_split_pieces(s.skip(i + 1), c);
    }
}

/// Pieces that are joined in two parts are joined as a whole.
pub proof fn lemma_joined_concat(a: Seq<Seq<char>>, b: Seq<Seq<char>>, sep: Seq<char>)
    requires
        a.len() > 0,
        b.len() > 0,
    ensures
        joined(a + b, sep) == joined(a, sep) + sep + joined(b, sep),
    decreases b.len(),
{
    assert((a + b).drop_last() =~= a + b.drop_last());
    assert((a + b).last() == b.last());
    if b.len() == 1 {
        assert(a + b.drop_last() =~= a);
        assert(b.last() == b[0]);
    } else {
        lemma_joined_concat(a, b.drop_last(), sep);
        assert(joined(a + b, sep) =~= joined(a, sep) + sep + joined(b, sep));
    }
}

/// The characters of `s`.
pub fn chars_of(s: &str) -> (v: Vec<char>)
    ensures
        v@ == s@,
{
    let mut v: Vec<char> = Vec::new();
    for c in it: s.chars()
        invariant
            v@ == it.seq().take(it.index() as int),
            it.seq() == s@,
    {
        v.push(c);
    }
    assert(v@ =~= s@);
    v
}

/// Whether two strings are equal.
pub fn str_eq(a: &str, b: &str) -> (r: bool)
    ensures
        r == (a@ == b@),
{
    let x = chars_of(a);
    let y = chars_of(b);
    if x.len() != y.len() {
        return false;
    }
    let mut i: usize = 0;
    while i < x.len()
        invariant
            i <= x.len(),
            x.len() == y.len(),
            x@ == a@,
            y@ == b@,
            forall|j: int| 0 <= j < i ==> x@[j] == y@[j],
        decreases x.len() - i,
    {
        if x[i] != y[i] {
            assert(a@[i as int] != b@[i as int]);
            return false;
        }
        i += 1;
    }
    assert(a@ =~= b@);
    true
}

/// Whether `c` occurs in `s`.
pub fn contains_char(s: &str, c: char) -> (r: bool)
    ensures
        r == s@.contains(c),
{
    let x = chars_of(s);
    let mut i: usize = 0;
    while i < x.len()
        invariant
            i <= x.len(),
            x@ == s@,
            forall|j: int| 0 <= j < i ==> x@[j] != c,
        decreases x.len() - i,
    {
        if x[i] == c {
            assert(s@[i as int] == c);
            return true;
        }
        i += 1;
    }
    false
}

/// The pieces of `s` between the occurrences of `c`.
pub fn split<'a>(s: &'a str, c: char) -> (parts: Vec<&'a str>)
    ensures
        str_views(parts@) == split_on(s@, c),
{
    let x = chars_of(s);
    let n: usize = x.len();
    let mut parts: Vec<&'a str> = Vec::new();
    let mut start: usize = 0;
    let mut i: usize = 0;
    assert(s@.skip(0) =~= s@);
    assert(str_views(parts@) + split_on(s@.skip(0), c) =~= split_on(s@, c));
    while i < n
        invariant
            start <= i <= n,
            n == x@.len(),
            x@ == s@,
            forall|j: int| start <= j < i ==> x@[j] != c,
            str_views(parts@) + split_on(s@.skip(start as int), c) == split_on(s@, c),
        decreases n - i,
    {
        if x[i] == c {
            let piece = s.substring_char(start, i);
            let ghost rest = s@.skip(start as int);
            let ghost before = parts@;
            parts.push(piece);
            proof {
                lemma_first_index_is(rest, c, i - start);
                assert(rest.take(i - start) =~= piece@);
                assert(rest.skip(i - start + 1) =~= s@.skip(i + 1));
                assert(str_views(parts@) =~= str_views(before).push(piece@));
                assert(str_views(before) + (seq![piece@] + split_on(s@.skip(i + 1), c)) =~= str_views(
                    parts@,
                ) + split_on(s@.skip(i + 1), c));
            }
            start = i + 1;
        }
        i += 1;
    }
    let piece = s.substring_char(start, n);
    let ghost rest = s@.skip(start as int);
    let ghost before = parts@;
    parts.push(piece);
    proof {
        lemma_first_index_is(rest, c, n - start);
        assert(piece@ =~= rest);
        assert(str_views(parts@) =~= str_views(before).push(piece@));
        assert(str_views(before) + seq![piece@] =~= str_views(parts@));
    }
    parts
}

/// The pieces one after the other, with `sep` between neighbours.
pub fn join(parts: &Vec<&str>, sep: &str) -> (r: String)
    ensures
        r@ == joined(str_views(parts@), sep@),
{
    let mut r = String::new();
    let ghost all = str_views(parts@);
    let mut i: usize = 0;
    while i < parts.len()
        invariant
            i <= parts.len(),
            all == str_views(parts@),
            r@ == joined(all.take(i as int), sep@),
        decreases parts.len() - i,
    {
        if i > 0 {
            r.append(sep);
        }
        r.append(parts[i]);
        proof {
            let next = all.take(i + 1);
            assert(next.drop_last() =~= all.take(i as int));
            assert(next.last() == parts@[i as int]@);
            assert(r@ =~= joined(next, sep@));
        }
        i += 1;
    }
    assert(all.take(i as int) =~= all);
    r
}

/// The digit `d` as a one-character string.
fn digit_str(d: u64) -> (s: &'static str)
    requires
        d < 10,
    ensures
        s@ == seq![digit(d as nat)],
{
    proof {
        reveal_strlit("0");
        reveal_strlit("1");
        reveal_strlit("2");
        reveal_strlit("3");
        reveal_strlit("4");
        reveal_strlit("5");
        reveal_strlit("6");
        reveal_strlit("7");
        reveal_strlit("8");
        reveal_strlit("9");
    }
    let s = match d {
        0 => "0",
        1 => "1",
        2 => "2",
        3 => "3",
        4 => "4",
        5 => "5",
        6 => "6",
        7 => "7",
        8 => "8",
        _ => "9",
    };
    assert(s@ =~= seq![digit(d as nat)]);
    s
}

/// Appends the decimal digits of `n` to `out`.
pub fn push_decimal(out: &mut String, n: u64)
    ensures
        final(out)@ == old(out)@ + decimal(n as nat),
    decreases n,
{
    if n >= 10 {
        push_decimal(out, n / 10);
    }
    out.append(digit_str(n % 10));
    assert(out@ =~= old(out)@ + decimal(n as nat));
}

/// The decimal digits of `n`.
pub fn decimal_string(n: u64) -> (s: String)
    ensures
        s@ == decimal(n as nat),
{
    let mut s = String::new();
    push_decimal(&mut s, n);
    assert(s@ =~= decimal(n as nat));
    s
}

/// The value of a character that is a decimal digit.
pub open spec fn digit_value(c: char) -> int {
    c as u32 - '0' as u32
}

/// Whether `c` is one of the ten decimal digits.
pub open spec fn is_digit(c: char) -> bool {
    '0' as u32 <= c as u32 <= '9' as u32
}

/// The number that a sequence of decimal digits stands for.
pub open spec fn number(s: Seq<char>) -> int
    decreases s.len(),
{
    if s.len() == 0 {
        0
    } else {
        number(s.drop_last()) * 10 + digit_value(s.last())
    }
}

/// Whether `s` holds decimal digits only, and at least one.
pub open spec fn is_number(s: Seq<char>) -> bool {
    s.len() > 0 && forall|i: int| 0 <= i < s.len() ==> is_digit(#[trigger] s[i])
}

/// The 64-bit number that `s` stands for: an optional `+`, then one or more
/// decimal digits, whose value fits.
pub open spec fn parsed_u64(s: Seq<char>) -> Option<u64> {
    let digits = if s.len() > 0 && s[0] == '+' {
        s.skip(1)
    } else {
        s
    };
    if is_number(digits) && number(digits) <= u64::MAX {
        Some(number(digits) as u64)
    } else {
        None
    }
}

proof fn lemma_number_prefix(s: Seq<char>, i: int)
    requires
        0 <= i <= s.len(),
        forall|j: int| 0 <= j < s.len() ==> is_digit(#[trigger] s[j]),
    ensures
        0 <= number(s.take(i)) <= number(s),
    decreases s.len(),
{
    if i == s.len() {
        assert(s.take(i) =~= s);
        if i > 0 {
            assert(is_digit(s[i - 1]));
            lemma_number_prefix(s.drop_last(), i - 1);
            assert(s.drop_last().take(i - 1) =~= s.drop_last());
        }
    } else {
        lemma_number_prefix(s.drop_last(), i);
        assert(s.drop_last().take(i) =~= s.take(i));
        assert(is_digit(s[s.len() - 1]));
    }
}

/// The 64-bit number that the characters `x` stand for, from position `from` on.
fn parse_digits(x: &Vec<char>, from: usize) -> (r: Option<u64>)
    requires
        from <= x.len(),
    ensures
        ({
            let digits = x@.skip(from as int);
            if is_number(digits) && number(digits) <= u64::MAX {
                r == Some(number(digits) as u64)
            } else {
                r is None
            }
        }),
{
    let ghost digits = x@.skip(from as int);
    if from == x.len() {
        return None;
    }
    let mut n: u64 = 0;
    let mut i: usize = from;
    while i < x.len()
        invariant
            from <= i <= x.len(),
            digits == x@.skip(from as int),
            forall|j: int| 0 <= j < i - from ==> is_digit(#[trigger] digits[j]),
            n == number(digits.take(i - from)),
        decreases x.len() - i,
    {
        let c = x[i];
        assert(digits[i - from] == c);
        let code: u32 = c as u32;
        if code < 48 || code > 57 {
            assert(!is_digit(digits[i - from]));
            return None;
        }
        let d: u64 = (code - 48) as u64;
        proof {
            let next = digits.take(i - from + 1);
            assert(next.drop_last() =~= digits.take(i - from));
            assert(number(next) == n * 10 + d);
            if forall|j: int| 0 <= j < digits.len() ==> is_digit(#[trigger] digits[j]) {
                lemma_number_prefix(digits, i - from + 1);
            }
        }
        if n > (u64::MAX - d) / 10 {
            return None;
        }
        n = n * 10 + d;
        i += 1;
    }
    assert(digits.take(i - from) =~= digits);
    Some(n)
}

/// The 64-bit number that `s` stands for, or `None` where it stands for none.
pub fn parse_u64(s: &str) -> (r: Option<u64>)
    ensures
        r == parsed_u64(s@),
{
    let x = chars_of(s);
    assert(x@.skip(0) =~= x@);
    if x.len() > 0 && x[0] == '+' {
        parse_digits(&x, 1)
    } else {
        parse_digits(&x, 0)
    }
}

/// The digits of a number are digits, and stand for it.
pub proof fn lemma_decimal_digits(n: nat)
    ensures
        decimal(n).len() >= 1,
        forall|i: int| 0 <= i < decimal(n).len() ==> is_digit(#[trigger] decimal(n)[i]),
        number(decimal(n)) == n,
    decreases n,
{
    reveal_with_fuel(number, 2);
    if n < 10 {
        assert(decimal(n).drop_last() =~= Seq::<char>::empty());
        assert(digit_value(digit(n)) == n);
    } else {
        lemma_decimal_digits(n / 10);
        assert(decimal(n).drop_last() =~= decimal(n / 10));
        assert(digit_value(digit(n % 10)) == n % 10);
    }
}

/// A number that is written in decimal reads back as itself.
pub proof fn law_decimal_reads_back(n: u64)
    ensures
        parsed_u64(decimal(n as nat)) == Some(n),
{
    lemma_decimal_digits(n as nat);
    assert(is_digit(decimal(n as nat)[0]));
}

/// Appends spaces to `s` up to a width of `width` characters.
pub fn pad(s: &str, width: usize) -> (r: String)
    ensures
        r@ == padded(s@, width as nat),
{
    let mut r = String::new();
    r.append(s);
    let len: usize = s.unicode_len();
    let mut i: usize = len;
    proof {
        reveal_strlit(" ");
    }
    assert(r@ =~= s@ + spaces(0));
    while i < width
        invariant
            len == s@.len(),
            len <= i,
            i <= width || i == len,
            r@ == s@ + spaces((i - len) as nat),
            " "@ == seq![' '],
        decreases width - i,
    {
        r.append(" ");
        assert(r@ =~= s@ + spaces((i + 1 - len) as nat));
        i += 1;
    }
    r
}

/// Strings are equal exactly where their characters are, and a character is
/// found exactly where it occurs.
pub proof fn law_strings_are_compared_by_their_characters(
    a: &str,
    b: &str,
    c: char,
    chars: Vec<char>,
    equal: bool,
    found: bool,
)
    requires
        call_ensures(chars_of, (a,), chars),
        call_ensures(str_eq, (a, b), equal),
        call_ensures(contains_char, (a, c), found),
    ensures
        chars@ == a@,
        equal <==> a@ == b@,
        found <==> exists|i: int| 0 <= i < a@.len() && a@[i] == c,
{
}

/// The pieces of a string hold no separator, and joined by it they are the
/// string again: nothing is lost at either end or between two separators.
pub proof fn law_pieces_join_to_the_string(s: Seq<char>, c: char)
    ensures
        split_on(s, c).len() >= 1,
        forall|i: int| 0 <= i < split_on(s, c).len() ==> !(#[trigger] split_on(s, c)[i]).contains(c),
        joined(split_on(s, c), seq![c]) == s,
    decreases s.len(),
{
    lemma_split_pieces(s, c);
    lemma_first_index(s, c);
    let i = first_index(s, c) as int;
    if i < s.len() {
        let rest = s.skip(i + 1);
        law_pieces_join_to_the_string(rest, c);
        lemma_joined_concat(seq![s.take(i)], split_on(rest, c), seq![c]);
        assert(s.take(i) + seq![c] + rest =~= s);
    }
}

/// Splitting gives such pieces, and joining puts the separator between
/// neighbours and nowhere else.
pub proof fn law_strings_are_split_and_joined(
    s: &str,
    c: char,
    pieces: Vec<&str>,
    parts: &Vec<&str>,
    sep: &str,
    whole: String,
)
    requires
        call_ensures(split, (s, c), pieces),
        call_ensures(join, (parts, sep), whole),
    ensures
        pieces@.len() >= 1,
        forall|i: int| 0 <= i < pieces@.len() ==> !(#[trigger] pieces@[i])@.contains(c),
        joined(str_views(pieces@), seq![c]) == s@,
        parts@.len() == 0 ==> whole@.len() == 0,
        parts@.len() == 1 ==> whole@ == parts@[0]@,
        parts@.len() > 1 ==> whole@ == joined(str_views(parts@.drop_last()), sep@) + sep@
            + parts@.last()@,
{
    law_pieces_join_to_the_string(s@, c);
    assert forall|i: int| 0 <= i < pieces@.len() implies !(#[trigger] pieces@[i])@.contains(c) by {
        assert(str_views(pieces@)[i] == pieces@[i]@);
    }
    if parts@.len() > 0 {
        assert(str_views(parts@.drop_last()) =~= str_views(parts@).drop_last());
    }
}

/// A number is written with the fewest digits, so no other number is written
/// alike.
pub proof fn law_numbers_are_written_in_decimal(
    n: u64,
    written: String,
    out: &mut String,
    m: u64,
)
    requires
        call_ensures(decimal_string, (n,), written),
        call_ensures(push_decimal, (out, m), ()),
    ensures
        parsed_u64(written@) == Some(n),
        written@.len() > 0,
        written@[0] != '+',
        written@.len() > 1 ==> written@[0] != '0',
        old(out)@.is_prefix_of(final(out)@),
        parsed_u64(final(out)@.skip(old(out)@.len() as int)) == Some(m),
        final(out)@.skip(old(out)@.len() as int) == decimal(m as nat),
{
    law_decimal_reads_back(n);
    law_decimal_reads_back(m);
    lemma_decimal_digits(n as nat);
    lemma_no_leading_zero(n as nat);
    assert(is_digit(decimal(n as nat)[0]));
    assert(final(out)@.skip(old(out)@.len() as int) =~= decimal(m as nat));
    assert(final(out)@.subrange(0, old(out)@.len() as int) =~= old(out)@);
}

proof fn lemma_no_leading_zero(n: nat)
    ensures
        n > 0 ==> decimal(n)[0] != '0',
        n < 10 ==> decimal(n).len() == 1,
    decreases n,
{
    if n >= 10 {
        lemma_no_leading_zero(n / 10);
        lemma_decimal_digits(n / 10);
    }
}

/// A number is read digit by digit: each digit counts for ten times less than
/// the one before it, a `+` in front counts for nothing, and a string that is
/// empty, holds anything else or stands for too large a number is none.
pub proof fn law_numbers_are_read_digit_by_digit(s: Seq<char>, c: char)
    ensures
        parsed_u64(Seq::empty()) is None,
        parsed_u64(seq!['+']) is None,
        parsed_u64(seq![c]) == if 48 <= c as u32 <= 57 {
            Some((c as u32 - 48) as u64)
        } else {
            None
        },
        s.len() > 0 && s != seq!['+'] ==> parsed_u64(s.push(c)) == (match parsed_u64(s) {
            Some(n) => if 48 <= c as u32 <= 57 && n * 10 + (c as u32 - 48) <= u64::MAX {
                Some((n * 10 + (c as u32 - 48)) as u64)
            } else {
                None
            },
            None => None,
        }),
        s.len() == 0 || s[0] != '+' ==> parsed_u64(seq!['+'] + s) == parsed_u64(s),
{
    let digits = if s.len() > 0 && s[0] == '+' {
        s.skip(1)
    } else {
        s
    };
    let more = digits.push(c);
    reveal_with_fuel(number, 2);
    assert(seq!['+'].skip(1) =~= Seq::<char>::empty());
    assert(seq![c].drop_last() =~= Seq::<char>::empty());
    if 48 <= c as u32 <= 57 {
        assert(is_number(seq![c]));
    } else {
        assert(!is_digit(seq![c][0]));
        assert(c == '+' ==> seq![c].skip(1) =~= Seq::<char>::empty());
    }
    if s.len() > 0 && s != seq!['+'] {
        assert(digits.len() > 0) by {
            if s[0] == '+' && s.len() == 1 {
                assert(s =~= seq!['+']);
            }
        }
        assert((if s.push(c)[0] == '+' { s.push(c).skip(1) } else { s.push(c) }) =~= more);
        assert(more.drop_last() =~= digits);
        if is_number(digits) {
            assert(more[more.len() - 1] == c);
            if is_digit(c) {
                assert(is_number(more));
                lemma_number_prefix(digits, 0);
            } else {
                assert(!is_number(more));
            }
        } else {
            let j = choose|j: int| 0 <= j < digits.len() && !is_digit(#[trigger] digits[j]);
            assert(more[j] == digits[j]);
            assert(!is_number(more));
        }
    }
    if s.len() == 0 || s[0] != '+' {
        assert((seq!['+'] + s).skip(1) =~= s);
    }
}

/// What is parsed is the whole string, read as the law above says.
pub proof fn law_numbers_are_parsed_as_they_are_read(s: &str, r: Option<u64>)
    requires
        call_ensures(parse_u64, (s,), r),
    ensures
        r == parsed_u64(s@),
        s@.len() == 0 ==> r is None,
        forall|n: u64| s@ == decimal(n as nat) ==> r == Some(n),
{
    law_numbers_are_read_digit_by_digit(s@, '0');
    assert forall|n: u64| s@ == decimal(n as nat) implies r == Some(n) by {
        law_decimal_reads_back(n);
    }
}

/// A string is padded with spaces behind it, no more than the width asks for,
/// and never cut.
pub proof fn law_padding_is_spaces_behind_the_string(s: &str, width: usize, r: String)
    requires
        call_ensures(pad, (s, width), r),
    ensures
        s@.is_prefix_of(r@),
        r@.len() == if s@.len() < width {
            width as nat
        } else {
            s@.len()
        },
        forall|i: int| s@.len() <= i < r@.len() ==> r@[i] == ' ',
{
    assert(r@.subrange(0, s@.len() as int) =~= s@);
}

} // verus!
