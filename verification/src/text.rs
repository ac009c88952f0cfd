//! Text as a sequence of characters: searching, splitting, trimming and decimal numbers.

use vstd::prelude::*;

verus! {

/// The views of a sequence of strings.
pub open spec fn texts(items: Seq<String>) -> Seq<Seq<char>> {
    items.map_values(|s: String| s@)
}

/// `String::push` appends one character.
pub assume_specification[ String::push ](text: &mut String, c: char)
    ensures
        final(text)@ == old(text)@.push(c),
;

/// `char::is_whitespace` tells whether a character has the Unicode `White_Space` property.
pub assume_specification[ char::is_whitespace ](c: char) -> (white: bool)
    ensures
        white == white_space(c),
;

/// The characters with the Unicode `White_Space` property.
pub open spec fn white_space(c: char) -> bool {
    ||| '\u{9}' <= c <= '\u{d}'
    ||| c == '\u{20}'
    ||| c == '\u{85}'
    ||| c == '\u{a0}'
    ||| c == '\u{1680}'
    ||| '\u{2000}' <= c <= '\u{200a}'
    ||| c == '\u{2028}'
    ||| c == '\u{2029}'
    ||| c == '\u{202f}'
    ||| c == '\u{205f}'
    ||| c == '\u{3000}'
}

/// Whether two texts are the same.
pub fn same_text(a: &str, b: &str) -> (same: bool)
    ensures
        same == (a@ == b@),
{
    let x = chars_of(a);
    let y = chars_of(b);
    if x.len() != y.len() {
        return false;
    }
    let mut i: usize = 0;
    while i < x.len()
        invariant
            i <= x.len() == y.len(),
            x@ == a@,
            y@ == b@,
            forall|j: int| 0 <= j < i ==> x@[j] == y@[j],
        decreases x.len() - i,
    {
        if x[i] != y[i] {
            return false;
        }
        i += 1;
    }
    assert(x@ =~= y@);
    true
}

/// The order of strings: lexicographic, by code point.
pub open spec fn text_le(a: Seq<char>, b: Seq<char>) -> bool
    decreases a.len(),
{
    if a.len() == 0 {
        true
    } else if b.len() == 0 {
        false
    } else if a[0] == b[0] {
        text_le(a.drop_first(), b.drop_first())
    } else {
        a[0] < b[0]
    }
}

/// Any two texts compare one way or the other, and two that compare both ways are the same.
pub proof fn text_le_total(a: Seq<char>, b: Seq<char>)
    ensures
        text_le(a, b) || text_le(b, a),
        text_le(a, b) && text_le(b, a) ==> a == b,
    decreases a.len(),
{
    if a.len() > 0 && b.len() > 0 && a[0] == b[0] {
        text_le_total(a.drop_first(), b.drop_first());
        if text_le(a, b) && text_le(b, a) {
            assert(a =~= seq![a[0]] + a.drop_first());
            assert(b =~= seq![b[0]] + b.drop_first());
        }
    } else if text_le(a, b) && text_le(b, a) {
        assert(a =~= b);
    }
}

/// The order of texts is transitive.
pub proof fn text_le_transitive(a: Seq<char>, b: Seq<char>, c: Seq<char>)
    requires
        text_le(a, b),
        text_le(b, c),
    ensures
        text_le(a, c),
    decreases a.len(),
{
    if a.len() > 0 && b.len() > 0 && c.len() > 0 && a[0] == b[0] && b[0] == c[0] {
        text_le_transitive(a.drop_first(), b.drop_first(), c.drop_first());
    }
}

/// Whether `a` comes before `b` or equals it.
pub fn at_most(a: &str, b: &str) -> (le: bool)
    ensures
        le == text_le(a@, b@),
{
    let x = chars_of(a);
    let y = chars_of(b);
    let mut i: usize = 0;
    assert(a@.skip(0) =~= a@);
    assert(b@.skip(0) =~= b@);
    while i < x.len()
        invariant
            i <= x.len(),
            i <= y.len(),
            x@ == a@,
            y@ == b@,
            text_le(a@, b@) == text_le(a@.skip(i as int), b@.skip(i as int)),
        decreases x.len() - i,
    {
        if i >= y.len() {
            return false;
        }
        if x[i] != y[i] {
            return x[i] < y[i];
        }
        assert(a@.skip(i as int).drop_first() =~= a@.skip(i + 1));
        assert(b@.skip(i as int).drop_first() =~= b@.skip(i + 1));
        i += 1;
    }
    true
}

/// The characters of a string.
pub fn chars_of(text: &str) -> (chars: Vec<char>)
    ensures
        chars@ == text@,
{
    let mut chars: Vec<char> = Vec::new();
    for c in it: text.chars()
        invariant
            chars@ == text@.take(it.index() as int),
            it.seq() == text@,
    {
        chars.push(c);
    }
    chars
}

/// The string made of some characters.
pub fn text_of(chars: &Vec<char>) -> (text: String)
    ensures
        text@ == chars@,
{
    let mut text = String::new();
    let mut i: usize = 0;
    while i < chars.len()
        invariant
            i <= chars.len(),
            text@ == chars@.take(i as int),
        decreases chars.len() - i,
    {
        text.push(chars[i]);
        i += 1;
    }
    text
}

/// The first position of `c` in `s` at or after `from`, or the length of `s`.
pub open spec fn position(s: Seq<char>, c: char, from: int) -> int
    decreases s.len() - from,
{
    if from < 0 || from >= s.len() {
        s.len() as int
    } else if s[from] == c {
        from
    } else {
        position(s, c, from + 1)
    }
}

/// What `position` finds is in range, holds `c`, and nothing before it does.
pub proof fn position_is_first(s: Seq<char>, c: char, from: int)
    requires
        0 <= from <= s.len(),
    ensures
        from <= position(s, c, from) <= s.len(),
        position(s, c, from) < s.len() ==> s[position(s, c, from)] == c,
        forall|i: int| from <= i < position(s, c, from) ==> s[i] != c,
    decreases s.len() - from,
{
    if from < s.len() && s[from] != c {
        position_is_first(s, c, from + 1);
    }
}

/// A position that holds `c`, with no `c` between `from` and it, is the one that `position` finds.
pub proof fn position_is(s: Seq<char>, c: char, from: int, at: int)
    requires
        0 <= from <= at <= s.len(),
        at < s.len() ==> s[at] == c,
        forall|i: int| from <= i < at ==> s[i] != c,
    ensures
        position(s, c, from) == at,
    decreases at - from,
{
    if from < at {
        position_is(s, c, from + 1, at);
    }
}

/// The first position of `c` at or after `from`.
pub fn find(s: &Vec<char>, c: char, from: usize) -> (at: usize)
    requires
        from <= s.len(),
    ensures
        at == position(s@, c, from as int),
        from <= at <= s.len(),
{
    let mut i: usize = from;
    while i < s.len()
        invariant
            from <= i <= s.len(),
            position(s@, c, from as int) == position(s@, c, i as int),
        decreases s.len() - i,
    {
        if s[i] == c {
            return i;
        }
        i += 1;
    }
    i
}

/// A copy of the characters in a range.
pub fn slice(s: &Vec<char>, from: usize, to: usize) -> (part: Vec<char>)
    requires
        from <= to <= s.len(),
    ensures
        part@ == s@.subrange(from as int, to as int),
{
    let mut part: Vec<char> = Vec::new();
    let mut i: usize = from;
    while i < to
        invariant
            from <= i <= to <= s.len(),
            part@ == s@.subrange(from as int, i as int),
        decreases to - i,
    {
        part.push(s[i]);
        i += 1;
    }
    part
}

/// The pieces of `s` from `from` on, cut at every `sep`: one more than there are separators.
pub open spec fn pieces(s: Seq<char>, sep: char, from: int) -> Seq<Seq<char>>
    decreases s.len() - from,
    when 0 <= from <= s.len()
{
    let end = position(s, sep, from);
    if from <= end < s.len() {
        seq![s.subrange(from, end)] + pieces(s, sep, end + 1)
    } else {
        seq![s.subrange(from, s.len() as int)]
    }
}

/// The pieces of a text between its separators.
pub open spec fn split(s: Seq<char>, sep: char) -> Seq<Seq<char>> {
    pieces(s, sep, 0)
}

/// The views of a sequence of character vectors.
pub open spec fn char_views(items: Seq<Vec<char>>) -> Seq<Seq<char>> {
    items.map_values(|v: Vec<char>| v@)
}

/// Cuts `s` at every `sep`.
pub fn split_on(s: &Vec<char>, sep: char) -> (parts: Vec<Vec<char>>)
    ensures
        char_views(parts@) == split(s@, sep),
{
    let mut parts: Vec<Vec<char>> = Vec::new();
    let mut start: usize = 0;
    loop
        invariant
            start <= s.len(),
            char_views(parts@) + pieces(s@, sep, start as int) == split(s@, sep),
        decreases s.len() - start,
    {
        let end = find(s, sep, start);
        let part = slice(s, start, end);
        let ghost before = parts@;
        parts.push(part);
        assert(char_views(parts@) =~= char_views(before) + seq![s@.subrange(start as int, end as int)]);
        if end < s.len() {
            assert(char_views(before) + pieces(s@, sep, start as int) =~= char_views(parts@) + pieces(
                s@,
                sep,
                end + 1,
            ));
            start = end + 1;
        } else {
            assert(char_views(before) + pieces(s@, sep, start as int) =~= char_views(parts@));
            return parts;
        }
    }
}

/// A text cut in two at its first `sep`, if it has one.
pub open spec fn cut(s: Seq<char>, sep: char) -> Option<(Seq<char>, Seq<char>)> {
    let at = position(s, sep, 0);
    if at < s.len() {
        Some((s.take(at), s.skip(at + 1)))
    } else {
        None
    }
}

/// Cuts a text in two at its first `sep`.
pub fn split_once(s: &Vec<char>, sep: char) -> (halves: Option<(Vec<char>, Vec<char>)>)
    ensures
        match halves {
            Some((before, after)) => cut(s@, sep) == Some((before@, after@)),
            None => cut(s@, sep) is None,
        },
{
    let at = find(s, sep, 0);
    if at < s.len() {
        let before = slice(s, 0, at);
        let after = slice(s, at + 1, s.len());
        assert(before@ =~= s@.take(at as int));
        assert(after@ =~= s@.skip(at + 1));
        Some((before, after))
    } else {
        None
    }
}

/// A text without the characters at its start for which `drop` holds.
pub open spec fn trim_start(s: Seq<char>, drop: spec_fn(char) -> bool) -> Seq<char>
    decreases s.len(),
{
    if s.len() > 0 && drop(s[0]) {
        trim_start(s.drop_first(), drop)
    } else {
        s
    }
}

/// A text without the characters at its end for which `drop` holds.
pub open spec fn trim_end(s: Seq<char>, drop: spec_fn(char) -> bool) -> Seq<char>
    decreases s.len(),
{
    if s.len() > 0 && drop(s.last()) {
        trim_end(s.drop_last(), drop)
    } else {
        s
    }
}

/// A text without white space at either end.
pub open spec fn trimmed(s: Seq<char>) -> Seq<char> {
    trim_end(trim_start(s, |c: char| white_space(c)), |c: char| white_space(c))
}

/// The test for one character.
pub open spec fn is_char(c: char) -> spec_fn(char) -> bool {
    |d: char| d == c
}

/// A text without any `c` at either end.
pub open spec fn stripped(s: Seq<char>, c: char) -> Seq<char> {
    trim_end(trim_start(s, is_char(c)), is_char(c))
}

/// Takes the white space off both ends.
pub fn trim(s: &Vec<char>) -> (rest: Vec<char>)
    ensures
        rest@ == trimmed(s@),
{
    let ghost drop = |c: char| white_space(c);
    let mut start: usize = 0;
    assert(s@.skip(0) =~= s@);
    while start < s.len() && s[start].is_whitespace()
        invariant
            start <= s.len(),
            drop == |c: char| white_space(c),
            trim_start(s@, drop) == trim_start(s@.skip(start as int), drop),
        decreases s.len() - start,
    {
        assert(s@.skip(start as int).drop_first() =~= s@.skip(start + 1));
        start += 1;
    }
    let ghost left = s@.skip(start as int);
    let mut end: usize = s.len();
    assert(s@.subrange(start as int, end as int) =~= left);
    while end > start && s[end - 1].is_whitespace()
        invariant
            start <= end <= s.len(),
            drop == |c: char| white_space(c),
            left == s@.skip(start as int),
            trim_end(left, drop) == trim_end(s@.subrange(start as int, end as int), drop),
        decreases end,
    {
        assert(s@.subrange(start as int, end as int).drop_last() =~= s@.subrange(start as int, end - 1));
        end -= 1;
    }
    slice(s, start, end)
}

/// Takes every `c` off both ends.
pub fn strip(s: &Vec<char>, c: char) -> (rest: Vec<char>)
    ensures
        rest@ == stripped(s@, c),
{
    let ghost drop = is_char(c);
    let mut start: usize = 0;
    assert(s@.skip(0) =~= s@);
    while start < s.len() && s[start] == c
        invariant
            start <= s.len(),
            drop == is_char(c),
            trim_start(s@, drop) == trim_start(s@.skip(start as int), drop),
        decreases s.len() - start,
    {
        assert(s@.skip(start as int).drop_first() =~= s@.skip(start + 1));
        start += 1;
    }
    let ghost left = s@.skip(start as int);
    let mut end: usize = s.len();
    assert(s@.subrange(start as int, end as int) =~= left);
    while end > start && s[end - 1] == c
        invariant
            start <= end <= s.len(),
            drop == is_char(c),
            left == s@.skip(start as int),
            trim_end(left, drop) == trim_end(s@.subrange(start as int, end as int), drop),
        decreases end,
    {
        assert(s@.subrange(start as int, end as int).drop_last() =~= s@.subrange(start as int, end - 1));
        end -= 1;
    }
    slice(s, start, end)
}

/// Whether a text begins with another.
pub open spec fn begins_with(s: Seq<char>, prefix: Seq<char>) -> bool {
    prefix.len() <= s.len() && s.take(prefix.len() as int) == prefix
}

/// The rest of a text after a prefix, if it begins with it.
pub fn strip_prefix(s: &Vec<char>, prefix: &str) -> (rest: Option<Vec<char>>)
    ensures
        match rest {
            Some(rest) => begins_with(s@, prefix@) && rest@ == s@.skip(prefix@.len() as int),
            None => !begins_with(s@, prefix@),
        },
{
    let p = chars_of(prefix);
    if p.len() > s.len() {
        return None;
    }
    let mut i: usize = 0;
    while i < p.len()
        invariant
            i <= p.len() <= s.len(),
            p@ == prefix@,
            forall|j: int| 0 <= j < i ==> s@[j] == p@[j],
        decreases p.len() - i,
    {
        if s[i] != p[i] {
            assert(s@.take(prefix@.len() as int)[i as int] != prefix@[i as int]);
            return None;
        }
        i += 1;
    }
    assert(s@.take(prefix@.len() as int) =~= prefix@);
    let rest = slice(s, p.len(), s.len());
    assert(rest@ =~= s@.skip(prefix@.len() as int));
    Some(rest)
}

/// The digits of a text read as a decimal number, given what comes before them, if all its
/// characters are digits.
pub open spec fn digits_value(s: Seq<char>) -> Option<nat>
    decreases s.len(),
{
    if s.len() == 0 {
        Some(0)
    } else {
        match digits_value(s.drop_last()) {
            Some(before) if '0' <= s.last() <= '9' => Some((before * 10 + (s.last() as int - '0' as int)) as nat),
            _ => None,
        }
    }
}

/// The number that a text writes: digits, with or without a plus sign before them.
pub open spec fn number(s: Seq<char>) -> Option<nat> {
    let digits = if s.len() > 0 && s[0] == '+' {
        s.drop_first()
    } else {
        s
    };
    if digits.len() == 0 {
        None
    } else {
        digits_value(digits)
    }
}

/// The number that a text writes, where it is at most `max`.
pub open spec fn bounded_number(s: Seq<char>, max: nat) -> Option<nat> {
    match number(s) {
        Some(n) if n <= max => Some(n),
        _ => None,
    }
}

proof fn digits_only(s: Seq<char>)
    requires
        digits_value(s) is Some,
    ensures
        forall|i: int| 0 <= i < s.len() ==> '0' <= #[trigger] s[i] <= '9',
    decreases s.len(),
{
    if s.len() > 0 {
        let fewer = s.drop_last();
        digits_only(fewer);
        assert forall|i: int| 0 <= i < s.len() implies '0' <= #[trigger] s[i] <= '9' by {
            if i < fewer.len() {
                assert(s[i] == fewer[i]);
            }
        }
    }
}

/// A number is written with digits and a plus sign.
pub proof fn number_chars(s: Seq<char>)
    requires
        number(s) is Some,
    ensures
        forall|i: int| 0 <= i < s.len() ==> '0' <= #[trigger] s[i] <= '9' || s[i] == '+',
{
    if s.len() > 0 && s[0] == '+' {
        let digits = s.drop_first();
        digits_only(digits);
        assert forall|i: int| 0 <= i < s.len() implies '0' <= #[trigger] s[i] <= '9' || s[i]
            == '+' by {
            if i > 0 {
                assert(s[i] == digits[i - 1]);
            }
        }
    } else {
        digits_only(s);
    }
}

proof fn digits_value_grows(s: Seq<char>, i: int)
    requires
        0 <= i <= s.len(),
    ensures
        digits_value(s) is Some ==> digits_value(s.take(i)) is Some && digits_value(s.take(i))->0
            <= digits_value(s)->0,
    decreases s.len() - i,
{
    if i < s.len() {
        digits_value_grows(s, i + 1);
        assert(s.take(i + 1).drop_last() =~= s.take(i));
    } else {
        assert(s.take(i) =~= s);
    }
}

/// Reads a decimal number of at most `max`.
pub fn parse_number(text: &str, max: u64) -> (n: Option<u64>)
    ensures
        match n {
            Some(n) => bounded_number(text@, max as nat) == Some(n as nat),
            None => bounded_number(text@, max as nat) is None,
        },
{
    let s = chars_of(text);
    let mut start: usize = 0;
    if s.len() > 0 && s[0] == '+' {
        start = 1;
    }
    if start == s.len() {
        return None;
    }
    let ghost digits = if s@.len() > 0 && s@[0] == '+' {
        s@.drop_first()
    } else {
        s@
    };
    let mut n: u64 = 0;
    let mut i: usize = start;
    while i < s.len()
        invariant
            start <= i <= s.len(),
            s@ == text@,
            digits.len() == s.len() - start,
            forall|j: int| 0 <= j < digits.len() ==> digits[j] == s@[j + start],
            digits_value(digits.take(i - start)) == Some(n as nat),
            n <= max,
            digits.len() > 0,
            bounded_number(text@, max as nat) == (match digits_value(digits) {
                Some(n) if n <= max => Some(n),
                _ => None::<nat>,
            }),
        decreases s.len() - i,
    {
        let c = s[i];
        proof {
            digits_value_grows(digits, i - start + 1);
            assert(digits.take(i - start + 1).drop_last() =~= digits.take(i - start));
        }
        if c < '0' || c > '9' {
            return None;
        }
        let d: u64 = (c as u32 - '0' as u32) as u64;
        if n > max / 10 || d > max || n * 10 > max - d {
            assert(n * 10 + d > max);
            return None;
        }
        n = n * 10 + d;
        i += 1;
    }
    assert(digits.take(i - start) =~= digits);
    Some(n)
}

/// A number in decimal digits.
pub open spec fn decimal(n: nat) -> Seq<char>
    decreases n,
{
    if n < 10 {
        seq![digit(n)]
    } else {
        decimal(n / 10).push(digit(n % 10))
    }
}

/// The character of a digit.
pub open spec fn digit(n: nat) -> char {
    if n == 0 {
        '0'
    } else if n == 1 {
        '1'
    } else if n == 2 {
        '2'
    } else if n == 3 {
        '3'
    } else if n == 4 {
        '4'
    } else if n == 5 {
        '5'
    } else if n == 6 {
        '6'
    } else if n == 7 {
        '7'
    } else if n == 8 {
        '8'
    } else {
        '9'
    }
}

fn digit_char(n: u64) -> (c: char)
    requires
        n < 10,
    ensures
        c == digit(n as nat),
{
    match n {
        0 => '0',
        1 => '1',
        2 => '2',
        3 => '3',
        4 => '4',
        5 => '5',
        6 => '6',
        7 => '7',
        8 => '8',
        _ => '9',
    }
}

/// Writes a number in decimal digits.
pub fn decimal_text(n: u64) -> (text: String)
    ensures
        text@ == decimal(n as nat),
    decreases n,
{
    if n < 10 {
        let mut text = String::new();
        text.push(digit_char(n));
        assert(text@ =~= seq![digit(n as nat)]);
        text
    } else {
        let mut text = decimal_text(n / 10);
        text.push(digit_char(n % 10));
        text
    }
}

/// Reading the digits that a number is written in gives the number back.
pub proof fn number_of_decimal(n: nat)
    ensures
        number(decimal(n)) == Some(n),
{
    decimal_is_digits(n);
}

/// A number is written in digits, at least one.
pub proof fn decimal_is_digits(n: nat)
    ensures
        decimal(n).len() > 0,
        '0' <= decimal(n)[0] <= '9',
        digits_value(decimal(n)) == Some(n),
    decreases n,
{
    if n >= 10 {
        decimal_is_digits(n / 10);
        assert(decimal(n).drop_last() =~= decimal(n / 10));
        assert(digit(n % 10) as int - '0' as int == n % 10);
    } else {
        assert(decimal(n).drop_last() =~= Seq::<char>::empty());
        assert(digits_value(Seq::<char>::empty()) == Some(0nat));
        assert(digit(n) as int - '0' as int == n);
    }
}

/// A text with every occurrence of a pattern replaced by a character, from left to right.
pub open spec fn replaced(s: Seq<char>, pattern: Seq<char>, with: char) -> Seq<char>
    decreases s.len(),
{
    if s.len() == 0 {
        Seq::empty()
    } else if pattern.len() > 0 && begins_with(s, pattern) {
        seq![with] + replaced(s.skip(pattern.len() as int), pattern, with)
    } else {
        seq![s[0]] + replaced(s.drop_first(), pattern, with)
    }
}

/// A text that has nothing of what a pattern begins with stays as it is.
pub proof fn nothing_is_replaced(s: Seq<char>, pattern: Seq<char>, with: char)
    requires
        pattern.len() > 0,
        forall|i: int| 0 <= i < s.len() ==> #[trigger] s[i] != pattern[0],
    ensures
        replaced(s, pattern, with) == s,
    decreases s.len(),
{
    if s.len() > 0 {
        assert(s[0] != pattern[0]);
        nothing_is_replaced(s.drop_first(), pattern, with);
        assert(s =~= seq![s[0]] + s.drop_first());
    }
}

/// The pattern is replaced wherever it stands: what is before its first occurrence stays, the
/// pattern becomes the character, and the same holds of the rest.
pub proof fn occurrence_is_replaced(
    before: Seq<char>,
    pattern: Seq<char>,
    after: Seq<char>,
    with: char,
)
    requires
        pattern.len() > 0,
        forall|i: int| 0 <= i < before.len() ==> #[trigger] before[i] != pattern[0],
    ensures
        replaced(before + pattern + after, pattern, with) == before.push(with) + replaced(
            after,
            pattern,
            with,
        ),
    decreases before.len(),
{
    let s = before + pattern + after;
    let rest = replaced(after, pattern, with);
    if before.len() == 0 {
        assert(s.skip(pattern.len() as int) =~= after);
        assert(s.take(pattern.len() as int) =~= pattern);
        assert(before.push(with) + rest =~= seq![with] + rest);
    } else {
        let fewer = before.drop_first();
        assert(s[0] == before[0]);
        assert(s[0] != pattern[0]);
        assert forall|i: int| 0 <= i < fewer.len() implies #[trigger] fewer[i] != pattern[0] by {
            assert(before[i + 1] != pattern[0]);
        }
        occurrence_is_replaced(fewer, pattern, after, with);
        assert(s.drop_first() =~= fewer + pattern + after);
        assert(before.push(with) + rest =~= seq![s[0]] + (fewer.push(with) + rest));
    }
}

/// Whether a pattern stands at a position.
fn stands_at(s: &Vec<char>, pattern: &Vec<char>, at: usize) -> (yes: bool)
    requires
        at <= s.len(),
    ensures
        yes == begins_with(s@.skip(at as int), pattern@),
{
    let ghost rest = s@.skip(at as int);
    if s.len() - at < pattern.len() {
        return false;
    }
    let mut i: usize = 0;
    while i < pattern.len()
        invariant
            i <= pattern.len() <= s.len() - at,
            rest == s@.skip(at as int),
            forall|j: int| 0 <= j < i ==> rest[j] == pattern@[j],
        decreases pattern.len() - i,
    {
        if s[at + i] != pattern[i] {
            assert(rest.take(pattern@.len() as int)[i as int] != pattern@[i as int]);
            return false;
        }
        i += 1;
    }
    assert(rest.take(pattern@.len() as int) =~= pattern@);
    true
}

/// Replaces every occurrence of a pattern by a character.
pub fn replace_all(s: &Vec<char>, pattern: &str, with: char) -> (out: Vec<char>)
    ensures
        out@ == replaced(s@, pattern@, with),
{
    let p = chars_of(pattern);
    let mut out: Vec<char> = Vec::new();
    let mut i: usize = 0;
    assert(s@.skip(0) =~= s@);
    assert(out@ + replaced(s@, pattern@, with) =~= replaced(s@, pattern@, with));
    while i < s.len()
        invariant
            i <= s.len(),
            p@ == pattern@,
            out@ + replaced(s@.skip(i as int), pattern@, with) == replaced(s@, pattern@, with),
        decreases s.len() - i,
    {
        let ghost rest = s@.skip(i as int);
        let ghost before = out@;
        if p.len() > 0 && stands_at(s, &p, i) {
            out.push(with);
            assert(rest.skip(p@.len() as int) =~= s@.skip(i + p@.len()));
            assert(before + replaced(rest, pattern@, with) =~= out@ + replaced(
                s@.skip(i + p@.len()),
                pattern@,
                with,
            ));
            i += p.len();
        } else {
            out.push(s[i]);
            assert(rest.drop_first() =~= s@.skip(i + 1));
            assert(before + replaced(rest, pattern@, with) =~= out@ + replaced(
                s@.skip(i + 1),
                pattern@,
                with,
            ));
            i += 1;
        }
    }
    assert(s@.skip(i as int) =~= Seq::empty());
    assert(out@ + Seq::<char>::empty() =~= out@);
    out
}

/// The first position of a pattern in a text at or after `from`, or one past the text's length.
pub open spec fn pattern_position(s: Seq<char>, pattern: Seq<char>, from: int) -> int
    decreases s.len() - from + 1,
{
    if from < 0 || from > s.len() {
        s.len() as int + 1
    } else if begins_with(s.skip(from), pattern) {
        from
    } else {
        pattern_position(s, pattern, from + 1)
    }
}

/// Where a pattern stands first in a text, if it does.
pub fn find_pattern(s: &Vec<char>, pattern: &str) -> (at: Option<usize>)
    ensures
        match at {
            Some(at) => at == pattern_position(s@, pattern@, 0) && at + pattern@.len() <= s.len(),
            None => pattern_position(s@, pattern@, 0) > s.len(),
        },
{
    let p = chars_of(pattern);
    let mut i: usize = 0;
    loop
        invariant
            i <= s.len(),
            p@ == pattern@,
            pattern_position(s@, pattern@, 0) == pattern_position(s@, pattern@, i as int),
        decreases s.len() - i,
    {
        if stands_at(s, &p, i) {
            return Some(i);
        }
        if i == s.len() {
            assert(pattern_position(s@, pattern@, i + 1) == s.len() + 1);
            return None;
        }
        i += 1;
    }
}

/// Two texts are ordered by the first character in which they differ; the beginning of a text comes
/// before the text.
pub proof fn first_difference_decides(
    common: Seq<char>,
    x: char,
    y: char,
    rest: Seq<char>,
    other: Seq<char>,
)
    requires
        x < y,
    ensures
        text_le(common.push(x) + rest, common.push(y) + other),
        !text_le(common.push(y) + other, common.push(x) + rest),
        text_le(common, common + rest),
        rest.len() > 0 ==> !text_le(common + rest, common),
    decreases common.len(),
{
    let a = common.push(x) + rest;
    let b = common.push(y) + other;
    let c = common + rest;
    if common.len() > 0 {
        let fewer = common.drop_first();
        first_difference_decides(fewer, x, y, rest, other);
        assert(a.drop_first() =~= fewer.push(x) + rest);
        assert(b.drop_first() =~= fewer.push(y) + other);
        assert(c.drop_first() =~= fewer + rest);
        assert(a[0] == common[0] && b[0] == common[0] && c[0] == common[0]);
    }
}

/// A text is cut at each separator: the piece before the first one stands first, the pieces of the
/// rest follow; a text without one is its only piece.
pub proof fn pieces_are_between_separators(before: Seq<char>, sep: char, after: Seq<char>)
    requires
        !before.contains(sep),
    ensures
        split(before, sep) == seq![before],
        split(before.push(sep) + after, sep) == seq![before] + split(after, sep),
{
    let n = before.len() as int;
    let s = before.push(sep) + after;
    assert forall|i: int| 0 <= i < n implies before[i] != sep by {}
    position_is(before, sep, 0, n);
    assert(before.subrange(0, n) =~= before);
    assert forall|i: int| 0 <= i < n implies s[i] != sep by {
        assert(s[i] == before[i]);
    }
    assert(s[n] == sep);
    position_is(s, sep, 0, n);
    assert(s.subrange(0, n) =~= before);
    pieces_of_the_rest(s, sep, n + 1, 0);
    assert(s.skip(n + 1) =~= after);
}

proof fn pieces_of_the_rest(s: Seq<char>, sep: char, from: int, more: int)
    requires
        0 <= from,
        0 <= more,
        from + more <= s.len(),
    ensures
        pieces(s, sep, from + more) == pieces(s.skip(from), sep, more),
    decreases s.len() - from - more,
{
    let rest = s.skip(from);
    position_is_first(s, sep, from + more);
    let end = position(s, sep, from + more);
    assert forall|i: int| more <= i < end - from implies rest[i] != sep by {
        assert(rest[i] == s[i + from]);
    }
    if end < s.len() {
        assert(rest[end - from] == s[end]);
    }
    position_is(rest, sep, more, end - from);
    if end < s.len() {
        pieces_of_the_rest(s, sep, from, end + 1 - from);
        assert(s.subrange(from + more, end) =~= rest.subrange(more, end - from));
    } else {
        assert(s.subrange(from + more, s.len() as int) =~= rest.subrange(
            more,
            rest.len() as int,
        ));
    }
}

/// A text is cut in two at its first separator, wherever others stand.
pub proof fn first_separator_cuts(before: Seq<char>, sep: char, after: Seq<char>)
    requires
        !before.contains(sep),
    ensures
        cut(before.push(sep) + after, sep) == Some((before, after)),
        cut(before, sep) is None,
{
    let n = before.len() as int;
    let s = before.push(sep) + after;
    assert forall|i: int| 0 <= i < n implies before[i] != sep by {}
    position_is(before, sep, 0, n);
    assert forall|i: int| 0 <= i < n implies s[i] != sep by {
        assert(s[i] == before[i]);
    }
    assert(s[n] == sep);
    position_is(s, sep, 0, n);
    assert(s.take(n) =~= before);
    assert(s.skip(n + 1) =~= after);
}

proof fn start_is_trimmed(left: Seq<char>, middle: Seq<char>, drop: spec_fn(char) -> bool)
    requires
        forall|i: int| 0 <= i < left.len() ==> drop(#[trigger] left[i]),
        middle.len() > 0 ==> !drop(middle[0]),
    ensures
        trim_start(left + middle, drop) == middle,
    decreases left.len(),
{
    let s = left + middle;
    if left.len() > 0 {
        let fewer = left.drop_first();
        assert forall|i: int| 0 <= i < fewer.len() implies drop(#[trigger] fewer[i]) by {
            assert(fewer[i] == left[i + 1]);
        }
        start_is_trimmed(fewer, middle, drop);
        assert(s.drop_first() =~= fewer + middle);
        assert(s[0] == left[0]);
    } else {
        assert(s =~= middle);
    }
}

proof fn end_is_trimmed(middle: Seq<char>, right: Seq<char>, drop: spec_fn(char) -> bool)
    requires
        forall|i: int| 0 <= i < right.len() ==> drop(#[trigger] right[i]),
        middle.len() > 0 ==> !drop(middle.last()),
    ensures
        trim_end(middle + right, drop) == middle,
    decreases right.len(),
{
    let s = middle + right;
    if right.len() > 0 {
        let fewer = right.drop_last();
        assert forall|i: int| 0 <= i < fewer.len() implies drop(#[trigger] fewer[i]) by {
            assert(fewer[i] == right[i]);
        }
        end_is_trimmed(middle, fewer, drop);
        assert(s.drop_last() =~= middle + fewer);
        assert(s.last() == right.last());
    } else {
        assert(s =~= middle);
    }
}

/// The white space at both ends is taken off, and nothing of what it encloses.
pub proof fn white_space_is_trimmed(left: Seq<char>, middle: Seq<char>, right: Seq<char>)
    requires
        forall|i: int| 0 <= i < left.len() ==> white_space(#[trigger] left[i]),
        forall|i: int| 0 <= i < right.len() ==> white_space(#[trigger] right[i]),
        middle.len() > 0,
        !white_space(middle[0]),
        !white_space(middle.last()),
    ensures
        trimmed(left + middle + right) == middle,
{
    let drop = |c: char| white_space(c);
    assert(left + middle + right =~= left + (middle + right));
    assert((middle + right)[0] == middle[0]);
    start_is_trimmed(left, middle + right, drop);
    end_is_trimmed(middle, right, drop);
}

/// One character is taken off both ends, however often it stands there, and nothing of what it
/// encloses.
pub proof fn enclosing_char_is_stripped(left: Seq<char>, middle: Seq<char>, right: Seq<char>, c: char)
    requires
        forall|i: int| 0 <= i < left.len() ==> #[trigger] left[i] == c,
        forall|i: int| 0 <= i < right.len() ==> #[trigger] right[i] == c,
        middle.len() > 0,
        middle[0] != c,
        middle.last() != c,
    ensures
        stripped(left + middle + right, c) == middle,
{
    assert(left + middle + right =~= left + (middle + right));
    assert((middle + right)[0] == middle[0]);
    start_is_trimmed(left, middle + right, is_char(c));
    end_is_trimmed(middle, right, is_char(c));
}

/// What follows a prefix is what is left; a text that differs from the prefix in it has nothing left.
pub proof fn prefix_is_taken_off(s: Vec<char>, prefix: &str, rest: Option<Vec<char>>, after: Seq<char>)
    requires
        call_ensures(strip_prefix, (&s, prefix), rest),
    ensures
        s@ == prefix@ + after ==> rest is Some && rest->0@ == after,
        rest is Some ==> s@ == prefix@ + rest->0@,
{
    let n = prefix@.len() as int;
    if s@ == prefix@ + after {
        assert(s@.take(n) =~= prefix@);
        assert(s@.skip(n) =~= after);
    }
    if rest is Some {
        assert(s@ =~= s@.take(n) + s@.skip(n));
    }
}

/// Each digit counts ten times what follows it; a plus sign before the digits changes nothing; what
/// holds another character is no number.
pub proof fn digits_are_read(s: Seq<char>, c: char)
    requires
        s.len() > 0,
        s[0] != '+',
    ensures
        '0' <= c <= '9' && number(s) is Some ==> number(s.push(c)) == Some(
            (number(s)->0 * 10 + (c as int - '0' as int)) as nat,
        ),
        !('0' <= c <= '9') || number(s) is None ==> number(s.push(c)) is None,
        number(seq!['+'] + s) == number(s),
        '0' <= c <= '9' ==> number(seq![c]) == Some((c as int - '0' as int) as nat),
{
    assert(s.push(c).drop_last() =~= s);
    assert((seq!['+'] + s).drop_first() =~= s);
    assert(seq![c].drop_last() =~= Seq::<char>::empty());
    assert(digits_value(Seq::<char>::empty()) == Some(0nat));
}

/// A pattern is found where it first stands, and only where it stands.
pub proof fn pattern_is_found_first(s: Seq<char>, pattern: Seq<char>, from: int)
    requires
        0 <= from <= s.len() + 1,
    ensures
        from <= pattern_position(s, pattern, from) <= s.len() + 1,
        pattern_position(s, pattern, from) <= s.len() ==> pattern_position(s, pattern, from)
            + pattern.len() <= s.len(),
        pattern_position(s, pattern, from) <= s.len() ==> s.skip(
            pattern_position(s, pattern, from),
        ).take(pattern.len() as int) == pattern,
        forall|i: int|
            from <= i < pattern_position(s, pattern, from) ==> !begins_with(
                #[trigger] s.skip(i),
                pattern,
            ),
    decreases s.len() - from + 1,
{
    if from <= s.len() && !begins_with(s.skip(from), pattern) {
        pattern_is_found_first(s, pattern, from + 1);
    }
}

/// A number that was written is read as it was, where it is no more than may be read; any other is not
/// read.
pub proof fn written_number_is_parsed(n: u64, max: u64, written: String, read: &str, parsed: Option<u64>)
    requires
        call_ensures(decimal_text, (n,), written),
        read@ == written@,
        call_ensures(parse_number, (read, max), parsed),
    ensures
        parsed == if n <= max {
            Some(n)
        } else {
            None
        },
{
    number_of_decimal(n as nat);
}

} // verus!
