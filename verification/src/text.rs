//! Character-level helpers shared by the parsers and printers of the value types.

use vstd::prelude::*;

verus! {

/// Returns the characters of `s` in order.
pub fn chars_of(s: &str) -> (v: Vec<char>)
    ensures
        v@ == s@,
{
    let n = s.unicode_len();
    let mut v: Vec<char> = Vec::new();
    let mut i: usize = 0;
    while i < n
        invariant
            n == s@.len(),
            i <= n,
            v@ == s@.subrange(0, i as int),
        decreases n - i,
    {
        let c = s.get_char(i);
        v.push(c);
        i = i + 1;
    }
    v
}

/// Appends one character to a string (`String::push`).
#[verifier::external_body]
fn push_char(s: &mut String, c: char)
    ensures
        final(s)@ == old(s)@.push(c),
{
    s.push(c);
}

/// Builds a string holding exactly the characters of `v`.
pub fn string_from_chars(v: &Vec<char>) -> (s: String)
    ensures
        s@ == v@,
{
    let mut s = String::new();
    let mut i: usize = 0;
    while i < v.len()
        invariant
            i <= v.len(),
            s@ == v@.subrange(0, i as int),
        decreases v.len() - i,
    {
        push_char(&mut s, v[i]);
        i = i + 1;
    }
    s
}

/// The characters of `v` from `start` up to `end`.
pub fn slice_chars(v: &Vec<char>, start: usize, end: usize) -> (r: Vec<char>)
    requires
        start <= end <= v.len(),
    ensures
        r@ == v@.subrange(start as int, end as int),
{
    let mut out: Vec<char> = Vec::new();
    let mut i: usize = start;
    while i < end
        invariant
            start <= i <= end,
            end <= v@.len(),
            out@ == v@.subrange(start as int, i as int),
        decreases end - i,
    {
        out.push(v[i]);
        i = i + 1;
        assert(out@ =~= v@.subrange(start as int, i as int));
    }
    out
}

/// Appends the characters of `s` to `out`.
pub fn append_str(out: &mut Vec<char>, s: &str)
    ensures
        final(out)@ == old(out)@ + s@,
{
    let chars = chars_of(s);
    let mut i: usize = 0;
    while i < chars.len()
        invariant
            i <= chars@.len(),
            chars@ == s@,
            out@ == old(out)@ + s@.subrange(0, i as int),
        decreases chars@.len() - i,
    {
        out.push(chars[i]);
        i = i + 1;
        assert(out@ =~= old(out)@ + s@.subrange(0, i as int));
    }
    assert(s@.subrange(0, i as int) =~= s@);
}

} // verus!

verus! {

/// A decimal digit `0`..`9`.
pub open spec fn is_digit(c: char) -> bool {
    '0' <= c && c <= '9'
}

/// The value of a decimal digit character.
pub open spec fn digit_value(c: char) -> nat {
    (c as int - '0' as int) as nat
}

/// Every character of `s` is a decimal digit.
pub open spec fn all_digits(s: Seq<char>) -> bool {
    forall|i: int| 0 <= i < s.len() ==> is_digit(#[trigger] s[i])
}

/// The number written by the decimal digits `s` (most significant first).
pub open spec fn digits_value(s: Seq<char>) -> nat
    decreases s.len(),
{
    if s.len() == 0 {
        0
    } else {
        digits_value(s.drop_last()) * 10 + digit_value(s.last())
    }
}

/// The character of a digit value below ten.
pub open spec fn digit_char(d: nat) -> char {
    ((d + '0' as int) as u32) as char
}

/// The shortest decimal text of `n`, without sign or leading zeros (`0` for zero).
pub open spec fn decimal(n: nat) -> Seq<char>
    decreases n,
{
    if n < 10 {
        seq![digit_char(n)]
    } else {
        decimal(n / 10).push(digit_char(n % 10))
    }
}

/// One or more decimal digits whose value is at most `max`.
pub open spec fn parse_digits(d: Seq<char>, max: nat) -> Option<nat> {
    if d.len() > 0 && all_digits(d) && digits_value(d) <= max {
        Some(digits_value(d))
    } else {
        None
    }
}

/// What the standard library's `from_str` for an unsigned integer type with largest value
/// `max` accepts: an optional `+`, then one or more decimal digits, of value at most `max`.
pub open spec fn parse_unsigned(s: Seq<char>, max: nat) -> Option<nat> {
    if s.len() > 0 && s[0] == '+' {
        parse_digits(s.drop_first(), max)
    } else {
        parse_digits(s, max)
    }
}

/// What the standard library's `from_str` for a signed integer type with range `min..=max`
/// (`min <= 0 <= max`) accepts: an optional `+` or `-`, then one or more decimal digits, of
/// value in range.
pub open spec fn parse_signed(s: Seq<char>, min: int, max: int) -> Option<int> {
    if s.len() > 0 && s[0] == '-' {
        match parse_digits(s.drop_first(), (-min) as nat) {
            Some(x) => Some(-x),
            None => None,
        }
    } else if s.len() > 0 && s[0] == '+' {
        match parse_digits(s.drop_first(), max as nat) {
            Some(x) => Some(x as int),
            None => None,
        }
    } else {
        match parse_digits(s, max as nat) {
            Some(x) => Some(x as int),
            None => None,
        }
    }
}

/// The text that the standard library prints for a signed integer.
pub open spec fn signed_decimal(v: int) -> Seq<char> {
    if v < 0 {
        seq!['-'] + decimal((-v) as nat)
    } else {
        decimal(v as nat)
    }
}

pub proof fn lemma_digit_char(d: nat)
    requires
        d < 10,
    ensures
        is_digit(digit_char(d)),
        digit_value(digit_char(d)) == d,
        digit_char(d) != '+',
        digit_char(d) != '-',
{
}

/// The digits of a number are all decimal digits and read back as the number.
pub proof fn lemma_decimal(n: nat)
    ensures
        decimal(n).len() > 0,
        all_digits(decimal(n)),
        digits_value(decimal(n)) == n,
        is_digit(decimal(n)[0]),
    decreases n,
{
    if n < 10 {
        lemma_digit_char(n);
        assert(decimal(n).drop_last() =~= Seq::<char>::empty());
        assert(digits_value(Seq::<char>::empty()) == 0);
        assert(digits_value(decimal(n)) == digits_value(decimal(n).drop_last()) * 10 + digit_value(decimal(n).last()));
    } else {
        lemma_decimal(n / 10);
        lemma_digit_char(n % 10);
        let s = decimal(n);
        assert(s.drop_last() =~= decimal(n / 10));
        assert(s.last() == digit_char(n % 10));
        assert(digits_value(s) == digits_value(s.drop_last()) * 10 + digit_value(s.last()));
        assert((n / 10) * 10 + n % 10 == n);
        assert forall|i: int| 0 <= i < s.len() implies is_digit(#[trigger] s[i]) by {
            if i < s.len() - 1 {
                assert(s[i] == decimal(n / 10)[i]);
            }
        }
    }
}

/// Printing an unsigned number and reading it back gives the number.
pub proof fn lemma_parse_unsigned_decimal(n: nat, max: nat)
    requires
        n <= max,
    ensures
        parse_unsigned(decimal(n), max) == Some(n),
{
    lemma_decimal(n);
    lemma_digit_char(0);
}

/// Printing a signed number and reading it back gives the number.
pub proof fn lemma_parse_signed_decimal(v: int, min: int, max: int)
    requires
        min <= v <= max,
    ensures
        parse_signed(signed_decimal(v), min, max) == Some(v),
{
    if v < 0 {
        lemma_decimal((-v) as nat);
        let s = signed_decimal(v);
        assert(s.drop_first() =~= decimal((-v) as nat));
    } else {
        lemma_decimal(v as nat);
    }
}

/// A longer run of digits is worth at least as much as its prefix.
pub proof fn lemma_digits_value_prefix(s: Seq<char>, k: int)
    requires
        all_digits(s),
        0 <= k <= s.len(),
    ensures
        digits_value(s.subrange(0, k)) <= digits_value(s),
    decreases s.len(),
{
    if k < s.len() {
        lemma_digits_value_prefix(s.drop_last(), k);
        assert(s.drop_last().subrange(0, k) =~= s.subrange(0, k));
    } else {
        assert(s.subrange(0, k) =~= s);
    }
}

/// Reads the characters `v[start..end]` as decimal digits of value at most `max`, accepting
/// exactly what `parse_digits` describes.
pub fn parse_digits_range(v: &Vec<char>, start: usize, end: usize, max: u64) -> (r: Option<u64>)
    requires
        start <= end <= v.len(),
    ensures
        r matches Some(x) ==> parse_digits(v@.subrange(start as int, end as int), max as nat)
            == Some(x as nat),
        r is None ==> parse_digits(v@.subrange(start as int, end as int), max as nat) is None,
{
    let ghost d = v@.subrange(start as int, end as int);
    if start == end {
        return None;
    }
    let mut i = start;
    let mut acc: u64 = 0;
    while i < end
        invariant
            start <= i <= end <= v.len(),
            d == v@.subrange(start as int, end as int),
            all_digits(v@.subrange(start as int, i as int)),
            acc as nat == digits_value(v@.subrange(start as int, i as int)),
            acc <= max,
        decreases end - i,
    {
        let c = v[i];
        if !('0' <= c && c <= '9') {
            assert(d[(i - start) as int] == c);
            assert(!is_digit(d[(i - start) as int]));
            return None;
        }
        let digit = (c as u32 - '0' as u32) as u64;
        let ghost pre = v@.subrange(start as int, i as int);
        let ghost next = v@.subrange(start as int, i + 1);
        assert(next.drop_last() =~= pre);
        assert(next.last() == c);
        assert(digit_value(c) == digit as nat);
        assert(digits_value(next) == digits_value(pre) * 10 + digit_value(c));
        if acc > max / 10 || (acc == max / 10 && digit > max % 10) {
            proof {
                assert(acc * 10 + digit > max) by (nonlinear_arith)
                    requires
                        acc > max / 10 || (acc == max / 10 && digit > max % 10),
                        max >= 0,
                ;
                if all_digits(d) {
                    assert(next =~= d.subrange(0, (i + 1 - start) as int));
                    lemma_digits_value_prefix(d, (i + 1 - start) as int);
                }
            }
            return None;
        }
        proof {
            assert(acc * 10 + digit <= max) by (nonlinear_arith)
                requires
                    !(acc > max / 10 || (acc == max / 10 && digit > max % 10)),
                    digit < 10,
                    max >= 0,
            ;
            assert forall|j: int| 0 <= j < next.len() implies is_digit(#[trigger] next[j]) by {
                if j < pre.len() {
                    assert(next[j] == pre[j]);
                }
            }
        }
        acc = acc * 10 + digit;
        i = i + 1;
    }
    assert(d =~= v@.subrange(start as int, i as int));
    Some(acc)
}

/// Reads `v[start..end]` as an unsigned integer of at most `max`, as `parse_unsigned` describes.
pub fn parse_unsigned_range(v: &Vec<char>, start: usize, end: usize, max: u64) -> (r: Option<u64>)
    requires
        start <= end <= v.len(),
    ensures
        r matches Some(x) ==> parse_unsigned(v@.subrange(start as int, end as int), max as nat)
            == Some(x as nat),
        r is None ==> parse_unsigned(v@.subrange(start as int, end as int), max as nat) is None,
{
    let ghost s = v@.subrange(start as int, end as int);
    if start < end && v[start] == '+' {
        assert(s.drop_first() =~= v@.subrange(start + 1, end as int));
        parse_digits_range(v, start + 1, end, max)
    } else {
        parse_digits_range(v, start, end, max)
    }
}

/// Reads `v[start..end]` as an `i32`, as `parse_signed` describes for the range of `i32`.
pub fn parse_i32_range(v: &Vec<char>, start: usize, end: usize) -> (r: Option<i32>)
    requires
        start <= end <= v.len(),
    ensures
        r matches Some(x) ==> parse_signed(v@.subrange(start as int, end as int), i32::MIN as int,
            i32::MAX as int) == Some(x as int),
        r is None ==> parse_signed(v@.subrange(start as int, end as int), i32::MIN as int,
            i32::MAX as int) is None,
{
    let ghost s = v@.subrange(start as int, end as int);
    if start < end && v[start] == '-' {
        assert(s.drop_first() =~= v@.subrange(start + 1, end as int));
        match parse_digits_range(v, start + 1, end, 2147483648) {
            Some(x) => Some((0 - (x as i64)) as i32),
            None => None,
        }
    } else if start < end && v[start] == '+' {
        assert(s.drop_first() =~= v@.subrange(start + 1, end as int));
        match parse_digits_range(v, start + 1, end, 2147483647) {
            Some(x) => Some(x as i32),
            None => None,
        }
    } else {
        match parse_digits_range(v, start, end, 2147483647) {
            Some(x) => Some(x as i32),
            None => None,
        }
    }
}

/// Appends the decimal digits of `n`.
pub fn push_decimal(out: &mut Vec<char>, n: u64)
    ensures
        final(out)@ == old(out)@ + decimal(n as nat),
    decreases n,
{
    if n >= 10 {
        push_decimal(out, n / 10);
    }
    let d = n % 10;
    let c = char_of_digit(d);
    out.push(c);
    proof {
        if n >= 10 {
            assert(decimal(n as nat) == decimal((n / 10) as nat).push(digit_char((n % 10) as nat)));
        }
    }
    assert(final(out)@ =~= old(out)@ + decimal(n as nat));
}

/// Appends the decimal text of a signed number, with a leading `-` when negative.
pub fn push_signed_decimal(out: &mut Vec<char>, v: i64)
    ensures
        final(out)@ == old(out)@ + signed_decimal(v as int),
{
    if v < 0 {
        out.push('-');
        let m: u64 = if v == i64::MIN { 9223372036854775808u64 } else { (0 - v) as u64 };
        push_decimal(out, m);
    } else {
        push_decimal(out, v as u64);
    }
    assert(final(out)@ =~= old(out)@ + signed_decimal(v as int));
}

fn char_of_digit(d: u64) -> (c: char)
    requires
        d < 10,
    ensures
        c == digit_char(d as nat),
{
    match d {
        0 => '0',
        1 => '1',
        2 => '2',
        3 => '3',
        4 => '4',
        5 => '5',
        6 => '6',
        7 => '7',
        8 => '8',
        _ => '9',
    }
}

} // verus!

verus! {

/// A character with the Unicode `White_Space` property, which is what `char::is_whitespace`
/// and `str::trim` go by.
pub open spec fn is_whitespace(c: char) -> bool {
    ||| '\u{9}' <= c && c <= '\u{d}'
    ||| c == ' '
    ||| c == '\u{85}'
    ||| c == '\u{a0}'
    ||| c == '\u{1680}'
    ||| '\u{2000}' <= c && c <= '\u{200a}'
    ||| c == '\u{2028}'
    ||| c == '\u{2029}'
    ||| c == '\u{202f}'
    ||| c == '\u{205f}'
    ||| c == '\u{3000}'
}

fn char_is_whitespace(c: char) -> (r: bool)
    ensures
        r == is_whitespace(c),
{
    ('\u{9}' <= c && c <= '\u{d}') || c == ' ' || c == '\u{85}' || c == '\u{a0}' || c
        == '\u{1680}' || ('\u{2000}' <= c && c <= '\u{200a}') || c == '\u{2028}' || c
        == '\u{2029}' || c == '\u{202f}' || c == '\u{205f}' || c == '\u{3000}'
}

/// `s` without its leading whitespace.
pub open spec fn trim_start(s: Seq<char>) -> Seq<char>
    decreases s.len(),
{
    if s.len() > 0 && is_whitespace(s[0]) {
        trim_start(s.drop_first())
    } else {
        s
    }
}

/// `s` without its trailing whitespace.
pub open spec fn trim_end(s: Seq<char>) -> Seq<char>
    decreases s.len(),
{
    if s.len() > 0 && is_whitespace(s.last()) {
        trim_end(s.drop_last())
    } else {
        s
    }
}

/// `s` without leading and trailing whitespace, as `str::trim` gives it.
pub open spec fn trim(s: Seq<char>) -> Seq<char> {
    trim_end(trim_start(s))
}

/// The bounds of `v[start..end]` once leading and trailing whitespace is left out.
pub fn trim_range(v: &Vec<char>, start: usize, end: usize) -> (r: (usize, usize))
    requires
        start <= end <= v.len(),
    ensures
        start <= r.0 <= r.1 <= end,
        v@.subrange(r.0 as int, r.1 as int) == trim(v@.subrange(start as int, end as int)),
{
    let mut a = start;
    while a < end && char_is_whitespace(v[a])
        invariant
            start <= a <= end <= v.len(),
            trim_start(v@.subrange(start as int, end as int)) == trim_start(
                v@.subrange(a as int, end as int),
            ),
        decreases end - a,
    {
        assert(v@.subrange(a as int, end as int).drop_first() =~= v@.subrange(a + 1, end as int));
        a = a + 1;
    }
    let mut b = end;
    while b > a && char_is_whitespace(v[b - 1])
        invariant
            start <= a <= b <= end <= v.len(),
            trim_start(v@.subrange(start as int, end as int)) == v@.subrange(a as int, end as int),
            trim(v@.subrange(start as int, end as int)) == trim_end(
                v@.subrange(a as int, b as int),
            ),
        decreases b - a,
    {
        assert(v@.subrange(a as int, b as int).drop_last() =~= v@.subrange(a as int, b - 1));
        b = b - 1;
    }
    (a, b)
}

/// The first position of `c` in `s`.
pub open spec fn first_index(s: Seq<char>, c: char) -> Option<int>
    decreases s.len(),
{
    if s.len() == 0 {
        None
    } else if s[0] == c {
        Some(0)
    } else {
        match first_index(s.drop_first(), c) {
            Some(i) => Some(i + 1),
            None => None,
        }
    }
}

pub proof fn lemma_first_index(s: Seq<char>, c: char)
    ensures
        first_index(s, c) matches Some(i) ==> 0 <= i < s.len() && s[i] == c && forall|j: int|
            0 <= j < i ==> s[j] != c,
        first_index(s, c) is None ==> forall|j: int| 0 <= j < s.len() ==> s[j] != c,
    decreases s.len(),
{
    if s.len() > 0 && s[0] != c {
        lemma_first_index(s.drop_first(), c);
        assert forall|j: int| 1 <= j < s.len() implies s[j] == s.drop_first()[j - 1] by {}
    }
}

pub proof fn lemma_first_index_from(s: Seq<char>, c: char, i: int)
    requires
        0 <= i <= s.len(),
        forall|j: int| 0 <= j < i ==> s[j] != c,
    ensures
        first_index(s, c) == (match first_index(s.subrange(i, s.len() as int), c) {
            Some(k) => Some(k + i),
            None => None,
        }),
    decreases i,
{
    if i == 0 {
        assert(s.subrange(0, s.len() as int) =~= s);
    } else {
        lemma_first_index_from(s.drop_first(), c, i - 1);
        assert(s.drop_first().subrange(i - 1, s.len() - 1) =~= s.subrange(i, s.len() as int));
    }
}

/// The position in `v[start..end]` of the first `c`, counted from the start of `v`.
pub fn find_char(v: &Vec<char>, start: usize, end: usize, c: char) -> (r: Option<usize>)
    requires
        start <= end <= v.len(),
    ensures
        r matches Some(i) ==> start <= i < end && first_index(
            v@.subrange(start as int, end as int),
            c,
        ) == Some(i - start),
        r is None ==> first_index(v@.subrange(start as int, end as int), c) is None,
{
    let ghost s = v@.subrange(start as int, end as int);
    let mut i = start;
    while i < end
        invariant
            start <= i <= end <= v.len(),
            s == v@.subrange(start as int, end as int),
            forall|j: int| 0 <= j < i - start ==> s[j] != c,
        decreases end - i,
    {
        if v[i] == c {
            proof {
                lemma_first_index_from(s, c, i - start);
                assert(s.subrange(i - start, s.len() as int)[0] == c);
            }
            return Some(i);
        }
        i = i + 1;
    }
    proof {
        lemma_first_index_from(s, c, i - start);
        assert(s.subrange(i - start, s.len() as int) =~= Seq::<char>::empty());
    }
    None
}

/// The pieces of `s` between the occurrences of `sep`, as `str::split` gives them: one more
/// piece than there are separators, empty pieces included.
pub open spec fn split(s: Seq<char>, sep: char) -> Seq<Seq<char>>
    decreases s.len(),
{
    if s.len() == 0 {
        seq![Seq::<char>::empty()]
    } else {
        let p = split(s.drop_last(), sep);
        if s.last() == sep {
            p.push(Seq::<char>::empty())
        } else {
            p.update(p.len() - 1, p.last().push(s.last()))
        }
    }
}

pub proof fn lemma_split_len(s: Seq<char>, sep: char)
    ensures
        split(s, sep).len() >= 1,
    decreases s.len(),
{
    if s.len() > 0 {
        lemma_split_len(s.drop_last(), sep);
    }
}

/// Splits `v` at every `sep`, as `str::split` does.
pub fn split_chars(v: &Vec<char>, sep: char) -> (r: Vec<Vec<char>>)
    ensures
        r@.len() == split(v@, sep).len(),
        forall|i: int| 0 <= i < r@.len() ==> #[trigger] r@[i]@ == split(v@, sep)[i],
{
    let mut pieces: Vec<Vec<char>> = Vec::new();
    let mut cur: Vec<char> = Vec::new();
    let mut i: usize = 0;
    while i < v.len()
        invariant
            i <= v.len(),
            split(v@.subrange(0, i as int), sep).len() == pieces@.len() + 1,
            forall|k: int|
                0 <= k < pieces@.len() ==> #[trigger] pieces@[k]@ == split(
                    v@.subrange(0, i as int),
                    sep,
                )[k],
            cur@ == split(v@.subrange(0, i as int), sep).last(),
        decreases v.len() - i,
    {
        let ghost pre = v@.subrange(0, i as int);
        let ghost next = v@.subrange(0, i + 1);
        assert(next.drop_last() =~= pre);
        proof {
            lemma_split_len(pre, sep);
        }
        let c = v[i];
        if c == sep {
            pieces.push(cur);
            cur = Vec::new();
        } else {
            cur.push(c);
        }
        i = i + 1;
    }
    assert(v@.subrange(0, v@.len() as int) =~= v@);
    pieces.push(cur);
    pieces
}

/// `v[start..end]` spells the characters of `lit`.
pub fn range_eq(v: &Vec<char>, start: usize, end: usize, lit: &str) -> (r: bool)
    requires
        start <= end <= v.len(),
    ensures
        r == (v@.subrange(start as int, end as int) == lit@),
{
    let l = chars_of(lit);
    if end - start != l.len() {
        return false;
    }
    let mut i: usize = 0;
    while i < l.len()
        invariant
            end - start == l.len(),
            start <= end <= v.len(),
            i <= l.len(),
            l@ == lit@,
            forall|j: int| 0 <= j < i ==> v@[start + j] == l@[j],
        decreases l.len() - i,
    {
        if v[start + i] != l[i] {
            assert(v@.subrange(start as int, end as int)[i as int] != lit@[i as int]);
            return false;
        }
        i = i + 1;
    }
    assert(v@.subrange(start as int, end as int) =~= lit@);
    true
}

} // verus!

verus! {

/// The pieces `parts` written one after another with `sep` between them.
pub open spec fn join(parts: Seq<Seq<char>>, sep: char) -> Seq<char>
    decreases parts.len(),
{
    if parts.len() == 0 {
        Seq::<char>::empty()
    } else if parts.len() == 1 {
        parts[0]
    } else {
        join(parts.drop_last(), sep).push(sep) + parts.last()
    }
}

/// Appending text free of separators extends the last piece.
pub proof fn lemma_split_append_plain(x: Seq<char>, y: Seq<char>, sep: char)
    requires
        forall|i: int| 0 <= i < y.len() ==> y[i] != sep,
    ensures
        split(x, sep).len() >= 1,
        split(x + y, sep) == split(x, sep).update(
            split(x, sep).len() - 1,
            split(x, sep).last() + y,
        ),
    decreases y.len(),
{
    lemma_split_len(x, sep);
    if y.len() == 0 {
        assert(x + y =~= x);
        assert(split(x, sep).last() + y =~= split(x, sep).last());
        assert(split(x, sep).update(split(x, sep).len() - 1, split(x, sep).last())
            =~= split(x, sep));
    } else {
        let y0 = y.drop_last();
        lemma_split_append_plain(x, y0, sep);
        assert((x + y).drop_last() =~= x + y0);
        assert((x + y).last() == y.last());
        assert(y[y.len() - 1] != sep);
        let p = split(x + y0, sep);
        let q = split(x, sep);
        assert(p == q.update(q.len() - 1, q.last() + y0));
        assert(p.len() == q.len());
        assert(p.last() == q.last() + y0);
        assert(split(x + y, sep) == p.update(p.len() - 1, p.last().push(y.last())));
        assert(p.last().push(y.last()) =~= q.last() + y);
        assert(split(x + y, sep) =~= split(x, sep).update(
            split(x, sep).len() - 1,
            split(x, sep).last() + y,
        ));
    }
}

/// Splitting text that was joined from separator-free pieces gives the pieces back.
pub proof fn lemma_split_join(parts: Seq<Seq<char>>, sep: char)
    requires
        parts.len() >= 1,
        forall|k: int, i: int|
            0 <= k < parts.len() && 0 <= i < parts[k].len() ==> #[trigger] parts[k][i] != sep,
    ensures
        split(join(parts, sep), sep) == parts,
    decreases parts.len(),
{
    if parts.len() == 1 {
        lemma_split_append_plain(Seq::<char>::empty(), parts[0], sep);
        assert(Seq::<char>::empty() + parts[0] =~= parts[0]);
        assert(split(Seq::<char>::empty(), sep) =~= seq![Seq::<char>::empty()]);
        assert(Seq::<char>::empty() + parts[0] =~= parts[0]);
        assert(split(join(parts, sep), sep) =~= parts);
    } else {
        let init = parts.drop_last();
        assert forall|k: int, i: int|
            0 <= k < init.len() && 0 <= i < init[k].len() implies #[trigger] init[k][i] != sep by {
            assert(init[k] == parts[k]);
        }
        lemma_split_join(init, sep);
        let head = join(init, sep).push(sep);
        assert forall|i: int| 0 <= i < parts.last().len() implies parts.last()[i] != sep by {
            assert(parts.last()[i] == parts[parts.len() - 1][i]);
        }
        lemma_split_append_plain(head, parts.last(), sep);
        assert(head.drop_last() =~= join(init, sep));
        assert(split(head, sep) == init.push(Seq::<char>::empty()));
        assert(Seq::<char>::empty() + parts.last() =~= parts.last());
        assert(split(join(parts, sep), sep) =~= parts);
    }
}

/// Writes `parts` one after another with `sep` between them.
pub fn join_chars(parts: &Vec<Vec<char>>, sep: char) -> (r: Vec<char>)
    ensures
        r@ == join(parts@.map_values(|p: Vec<char>| p@), sep),
{
    let ghost ps = parts@.map_values(|p: Vec<char>| p@);
    let mut out: Vec<char> = Vec::new();
    let mut i: usize = 0;
    while i < parts.len()
        invariant
            i <= parts.len(),
            ps == parts@.map_values(|p: Vec<char>| p@),
            out@ == join(ps.subrange(0, i as int), sep),
        decreases parts.len() - i,
    {
        let ghost before = out@;
        if i > 0 {
            out.push(sep);
        }
        let mut j: usize = 0;
        while j < parts[i].len()
            invariant
                i < parts.len(),
                j <= parts[i as int]@.len(),
                out@ == (if i > 0 { before.push(sep) } else { before }) + parts[i as int]@.subrange(
                    0,
                    j as int,
                ),
            decreases parts[i as int]@.len() - j,
        {
            out.push(parts[i][j]);
            j = j + 1;
            assert(out@ =~= (if i > 0 { before.push(sep) } else { before }) + parts[i as int]@.subrange(0, j as int));
        }
        proof {
            assert(parts[i as int]@.subrange(0, j as int) =~= parts[i as int]@);
            let next = ps.subrange(0, i + 1);
            assert(next.drop_last() =~= ps.subrange(0, i as int));
            assert(next.last() == parts[i as int]@);
            if i == 0 {
                assert(before =~= Seq::<char>::empty());
                assert(out@ =~= next[0]);
            }
        }
        i = i + 1;
    }
    assert(ps.subrange(0, i as int) =~= ps);
    out
}

} // verus!
