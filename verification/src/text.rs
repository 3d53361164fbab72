//! Character-level building blocks: classification, scanning, trimming and
//! decimal numbers, each stated over `Seq<char>`.
use vstd::prelude::*;

verus! {

/// Whether `c` carries the Unicode `White_Space` property.
pub open spec fn is_whitespace(c: char) -> bool {
    let u = c as u32;
    ||| 0x09 <= u <= 0x0D
    ||| u == 0x20
    ||| u == 0x85
    ||| u == 0xA0
    ||| u == 0x1680
    ||| 0x2000 <= u <= 0x200A
    ||| u == 0x2028
    ||| u == 0x2029
    ||| u == 0x202F
    ||| u == 0x205F
    ||| u == 0x3000
}

/// Whether `c` is one of the ASCII digits `0` to `9`.
pub open spec fn is_digit(c: char) -> bool {
    0x30 <= c as u32 <= 0x39
}

/// The number that the ASCII digit `c` stands for.
pub open spec fn digit_value(c: char) -> nat {
    (c as u32 - 0x30) as nat
}

/// The ASCII digit that stands for `d`, for `d` below ten.
pub open spec fn digit_char(d: nat) -> char {
    (0x30 + d) as u8 as char
}

/// Length of the longest prefix of `s` whose characters all satisfy `keep`.
pub open spec fn prefix_len(s: Seq<char>, keep: spec_fn(char) -> bool) -> int
    decreases s.len(),
{
    if s.len() > 0 && keep(s[0]) {
        1 + prefix_len(s.drop_first(), keep)
    } else {
        0
    }
}

/// Length of the longest suffix of `s` whose characters all satisfy `keep`.
pub open spec fn suffix_len(s: Seq<char>, keep: spec_fn(char) -> bool) -> int
    decreases s.len(),
{
    if s.len() > 0 && keep(s.last()) {
        1 + suffix_len(s.drop_last(), keep)
    } else {
        0
    }
}

/// The test that a character is not `c`.
pub open spec fn other_than(c: char) -> spec_fn(char) -> bool {
    |x: char| x != c
}

/// Index of the first occurrence of `c` in `s`, or `s.len()` when there is none.
pub open spec fn position(s: Seq<char>, c: char) -> int {
    prefix_len(s, other_than(c))
}

/// Number of whitespace characters that `s` begins with.
pub open spec fn leading_spaces(s: Seq<char>) -> int {
    prefix_len(s, |x: char| is_whitespace(x))
}

/// Number of whitespace characters that `s` ends with.
pub open spec fn trailing_spaces(s: Seq<char>) -> int {
    suffix_len(s, |x: char| is_whitespace(x))
}

/// Length of the run of non-whitespace characters that `s` begins with.
pub open spec fn word_len(s: Seq<char>) -> int {
    prefix_len(s, |x: char| !is_whitespace(x))
}

/// `s` without its leading whitespace.
pub open spec fn trim_start(s: Seq<char>) -> Seq<char> {
    s.skip(leading_spaces(s))
}

/// `s` without its trailing whitespace.
pub open spec fn trim_end(s: Seq<char>) -> Seq<char> {
    s.take(s.len() - trailing_spaces(s))
}

/// `s` without the whitespace that surrounds it.
pub open spec fn trim(s: Seq<char>) -> Seq<char> {
    trim_end(trim_start(s))
}

/// Whether `s` begins with `prefix`.
pub open spec fn starts_with(s: Seq<char>, prefix: Seq<char>) -> bool {
    prefix.len() <= s.len() && s.take(prefix.len() as int) == prefix
}

/// Whether `c` occurs nowhere in `s`.
pub open spec fn free_of(s: Seq<char>, c: char) -> bool {
    forall|i: int| 0 <= i < s.len() ==> #[trigger] s[i] != c
}

/// Whether `s` neither begins nor ends with whitespace.
pub open spec fn is_trimmed(s: Seq<char>) -> bool {
    s.len() > 0 ==> !is_whitespace(s[0]) && !is_whitespace(s.last())
}

/// Whether every character of `s` is whitespace.
pub open spec fn all_whitespace(s: Seq<char>) -> bool {
    forall|i: int| 0 <= i < s.len() ==> is_whitespace(#[trigger] s[i])
}

/// The pieces of `s` between line feeds, in order. A text that ends in a line
/// feed has an empty last piece.
pub open spec fn lines(s: Seq<char>) -> Seq<Seq<char>>
    decreases s.len(),
{
    let cut = position(s, '\n');
    if 0 <= cut < s.len() {
        seq![s.take(cut)] + lines(s.skip(cut + 1))
    } else {
        seq![s]
    }
}

/// The value of a run of ASCII digits read as a decimal number.
pub open spec fn decimal_value(digits: Seq<char>) -> nat
    decreases digits.len(),
{
    if digits.len() == 0 {
        0
    } else {
        decimal_value(digits.drop_last()) * 10 + digit_value(digits.last())
    }
}

/// Whether every character of `s` is an ASCII digit.
pub open spec fn all_digits(s: Seq<char>) -> bool {
    forall|i: int| 0 <= i < s.len() ==> is_digit(#[trigger] s[i])
}

/// The digits of a number text: the text itself, or what follows one leading `+`.
pub open spec fn unsigned_digits(s: Seq<char>) -> Seq<char> {
    if s.len() > 0 && s[0] == '+' {
        s.drop_first()
    } else {
        s
    }
}

/// The number that `s` denotes, if it is an optional `+` followed by at least
/// one ASCII digit and by nothing else, and the value does not exceed `max`.
pub open spec fn parse_unsigned(s: Seq<char>, max: nat) -> Option<nat> {
    let digits = unsigned_digits(s);
    if digits.len() > 0 && all_digits(digits) && decimal_value(digits) <= max {
        Some(decimal_value(digits))
    } else {
        None
    }
}

/// The decimal digits of `n`, without leading zeros.
pub open spec fn decimal_text(n: nat) -> Seq<char>
    decreases n,
{
    if n < 10 {
        seq![digit_char(n)]
    } else {
        decimal_text(n / 10).push(digit_char(n % 10))
    }
}

/// A prefix length is pinned by the first character that fails `keep`.
pub proof fn lemma_prefix_len(s: Seq<char>, keep: spec_fn(char) -> bool, n: int)
    requires
        0 <= n <= s.len(),
        forall|i: int| 0 <= i < n ==> keep(#[trigger] s[i]),
        n < s.len() ==> !keep(s[n]),
    ensures
        prefix_len(s, keep) == n,
    decreases n,
{
    if n > 0 {
        let rest = s.drop_first();
        assert forall|i: int| 0 <= i < n - 1 implies keep(#[trigger] rest[i]) by {
            assert(rest[i] == s[i + 1]);
        }
        lemma_prefix_len(rest, keep, n - 1);
    }
}

/// What a prefix length says of the characters around it.
pub proof fn lemma_prefix_len_bounds(s: Seq<char>, keep: spec_fn(char) -> bool)
    ensures
        0 <= prefix_len(s, keep) <= s.len(),
        forall|i: int| 0 <= i < prefix_len(s, keep) ==> keep(#[trigger] s[i]),
        prefix_len(s, keep) < s.len() ==> !keep(s[prefix_len(s, keep)]),
    decreases s.len(),
{
    if s.len() > 0 && keep(s[0]) {
        let rest = s.drop_first();
        lemma_prefix_len_bounds(rest, keep);
        assert forall|i: int| 0 <= i < prefix_len(s, keep) implies keep(#[trigger] s[i]) by {
            if i > 0 {
                assert(s[i] == rest[i - 1]);
            }
        }
    }
}

/// A suffix length is pinned by the last character that fails `keep`.
pub proof fn lemma_suffix_len(s: Seq<char>, keep: spec_fn(char) -> bool, n: int)
    requires
        0 <= n <= s.len(),
        forall|i: int| s.len() - n <= i < s.len() ==> keep(#[trigger] s[i]),
        n < s.len() ==> !keep(s[s.len() - n - 1]),
    ensures
        suffix_len(s, keep) == n,
    decreases n,
{
    if n > 0 {
        let rest = s.drop_last();
        assert forall|i: int| rest.len() - (n - 1) <= i < rest.len() implies keep(
            #[trigger] rest[i],
        ) by {
            assert(rest[i] == s[i]);
        }
        lemma_suffix_len(rest, keep, n - 1);
    }
}

/// The first occurrence of `c` in `before + [c] + after` is right after
/// `before`, when `before` holds no `c`.
pub proof fn lemma_position_found(before: Seq<char>, c: char, after: Seq<char>)
    requires
        free_of(before, c),
    ensures
        position(before + seq![c] + after, c) == before.len(),
{
    let s = before + seq![c] + after;
    assert forall|i: int| 0 <= i < before.len() implies other_than(c)(#[trigger] s[i]) by {
        assert(s[i] == before[i]);
    }
    assert(s[before.len() as int] == c);
    lemma_prefix_len(s, other_than(c), before.len() as int);
}

/// A text that holds no `c` has no first occurrence of it.
pub proof fn lemma_position_absent(s: Seq<char>, c: char)
    requires
        free_of(s, c),
    ensures
        position(s, c) == s.len(),
{
    assert forall|i: int| 0 <= i < s.len() implies other_than(c)(#[trigger] s[i]) by {}
    lemma_prefix_len(s, other_than(c), s.len() as int);
}

/// A text without line feed is one line.
pub proof fn lemma_lines_single(s: Seq<char>)
    requires
        free_of(s, '\n'),
    ensures
        lines(s) == seq![s],
{
    lemma_position_absent(s, '\n');
}

/// A text that begins with a line and its line feed has that line first, and
/// then the lines of what follows.
pub proof fn lemma_lines_first(line: Seq<char>, tail: Seq<char>)
    requires
        free_of(line, '\n'),
    ensures
        lines(line + seq!['\n'] + tail) == seq![line] + lines(tail),
{
    let s = line + seq!['\n'] + tail;
    lemma_position_found(line, '\n', tail);
    assert(s.take(line.len() as int) == line);
    assert(s.skip(line.len() as int + 1) == tail);
}

/// Trimming takes whitespace padding off a text that is itself trimmed.
pub proof fn lemma_trim_padded(before: Seq<char>, core: Seq<char>, after: Seq<char>)
    requires
        all_whitespace(before),
        all_whitespace(after),
        is_trimmed(core),
    ensures
        trim(before + core + after) == core,
{
    let s = before + core + after;
    let space = |x: char| is_whitespace(x);
    if core.len() == 0 {
        assert forall|i: int| 0 <= i < s.len() implies space(#[trigger] s[i]) by {
            if i < before.len() {
                assert(s[i] == before[i]);
            } else {
                assert(s[i] == after[i - before.len()]);
            }
        }
        lemma_prefix_len(s, space, s.len() as int);
        assert(trim_start(s) == Seq::<char>::empty());
        assert(trim(s) == core);
    } else {
        assert forall|i: int| 0 <= i < before.len() implies space(#[trigger] s[i]) by {
            assert(s[i] == before[i]);
        }
        assert(s[before.len() as int] == core[0]);
        lemma_prefix_len(s, space, before.len() as int);
        let rest = trim_start(s);
        assert(rest == core + after);
        assert forall|i: int| rest.len() - after.len() <= i < rest.len() implies space(
            #[trigger] rest[i],
        ) by {
            assert(rest[i] == after[i - core.len()]);
        }
        assert(rest[rest.len() - after.len() - 1] == core.last());
        lemma_suffix_len(rest, space, after.len() as int);
        assert(rest.take(rest.len() - after.len()) == core);
    }
}

/// Tells whether `c` is whitespace.
pub fn char_is_whitespace(c: char) -> (yes: bool)
    ensures
        yes == is_whitespace(c),
{
    let u: u32 = c as u32;
    (0x09 <= u && u <= 0x0D) || u == 0x20 || u == 0x85 || u == 0xA0 || u == 0x1680 || (0x2000 <= u
        && u <= 0x200A) || u == 0x2028 || u == 0x2029 || u == 0x202F || u == 0x205F || u == 0x3000
}

/// Copies the characters of `s` into a vector.
pub fn to_chars(s: &str) -> (out: Vec<char>)
    ensures
        out@ == s@,
{
    let mut out: Vec<char> = Vec::new();
    for c in it: s.chars()
        invariant
            it.seq() == s@,
            out@ == s@.take(it.index()),
    {
        out.push(c);
    }
    out
}

/// Finds the first `c` in `chars[from..to]`; returns `to` when there is none.
pub fn find_char(chars: &Vec<char>, from: usize, to: usize, c: char) -> (at: usize)
    requires
        from <= to <= chars@.len(),
    ensures
        from <= at <= to,
        at - from == position(chars@.subrange(from as int, to as int), c),
        at < to ==> chars@[at as int] == c,
        forall|i: int| from <= i < at ==> chars@[i] != c,
{
    let mut at: usize = from;
    while at < to && chars[at] != c
        invariant
            from <= at <= to <= chars@.len(),
            forall|i: int| from <= i < at ==> chars@[i] != c,
        decreases to - at,
    {
        at += 1;
    }
    proof {
        let s = chars@.subrange(from as int, to as int);
        lemma_prefix_len(s, other_than(c), at - from);
    }
    at
}

/// Steps over the whitespace that `chars[from..to]` begins with.
pub fn skip_spaces(chars: &Vec<char>, from: usize, to: usize) -> (at: usize)
    requires
        from <= to <= chars@.len(),
    ensures
        from <= at <= to,
        at - from == leading_spaces(chars@.subrange(from as int, to as int)),
{
    let mut at: usize = from;
    while at < to && char_is_whitespace(chars[at])
        invariant
            from <= at <= to <= chars@.len(),
            forall|i: int| from <= i < at ==> is_whitespace(chars@[i]),
        decreases to - at,
    {
        at += 1;
    }
    proof {
        let s = chars@.subrange(from as int, to as int);
        lemma_prefix_len(s, |x: char| is_whitespace(x), at - from);
    }
    at
}

/// Steps over the run of non-whitespace characters that `chars[from..to]` begins with.
pub fn skip_word(chars: &Vec<char>, from: usize, to: usize) -> (at: usize)
    requires
        from <= to <= chars@.len(),
    ensures
        from <= at <= to,
        at - from == word_len(chars@.subrange(from as int, to as int)),
{
    let mut at: usize = from;
    while at < to && !char_is_whitespace(chars[at])
        invariant
            from <= at <= to <= chars@.len(),
            forall|i: int| from <= i < at ==> !is_whitespace(chars@[i]),
        decreases to - at,
    {
        at += 1;
    }
    proof {
        let s = chars@.subrange(from as int, to as int);
        lemma_prefix_len(s, |x: char| !is_whitespace(x), at - from);
    }
    at
}

/// Steps back over the whitespace that `chars[from..to]` ends with.
pub fn skip_spaces_back(chars: &Vec<char>, from: usize, to: usize) -> (at: usize)
    requires
        from <= to <= chars@.len(),
    ensures
        from <= at <= to,
        to - at == trailing_spaces(chars@.subrange(from as int, to as int)),
{
    let mut at: usize = to;
    while at > from && char_is_whitespace(chars[at - 1])
        invariant
            from <= at <= to <= chars@.len(),
            forall|i: int| at <= i < to ==> is_whitespace(chars@[i]),
        decreases at - from,
    {
        at -= 1;
    }
    proof {
        let s = chars@.subrange(from as int, to as int);
        lemma_suffix_len(s, |x: char| is_whitespace(x), to - at);
    }
    at
}

/// Bounds of `chars[from..to]` without its surrounding whitespace.
pub fn trim_range(chars: &Vec<char>, from: usize, to: usize) -> (bounds: (usize, usize))
    requires
        from <= to <= chars@.len(),
    ensures
        from <= bounds.0 <= bounds.1 <= to,
        chars@.subrange(bounds.0 as int, bounds.1 as int) == trim(
            chars@.subrange(from as int, to as int),
        ),
{
    let start = skip_spaces(chars, from, to);
    let end = skip_spaces_back(chars, start, to);
    proof {
        let s = chars@.subrange(from as int, to as int);
        assert(trim_start(s) == chars@.subrange(start as int, to as int));
        assert(trim(s) == chars@.subrange(start as int, end as int));
    }
    (start, end)
}

/// A run of digits is worth at least as much as any of its prefixes.
pub proof fn lemma_decimal_value_prefix(digits: Seq<char>, k: int)
    requires
        0 <= k <= digits.len(),
    ensures
        decimal_value(digits.take(k)) <= decimal_value(digits),
    decreases digits.len() - k,
{
    if k == digits.len() {
        assert(digits.take(k) == digits);
    } else {
        lemma_decimal_value_prefix(digits.drop_last(), k);
        assert(digits.drop_last().take(k) == digits.take(k));
    }
}

/// The decimal digits of a number are digits, begin with no sign, and are
/// worth the number.
pub proof fn lemma_decimal_text(n: nat)
    ensures
        decimal_text(n).len() > 0,
        all_digits(decimal_text(n)),
        decimal_value(decimal_text(n)) == n,
    decreases n,
{
    let text = decimal_text(n);
    if n < 10 {
        assert(text.drop_last() =~= Seq::<char>::empty());
        lemma_digit_char(n);
        assert(text.last() == digit_char(n));
        assert(decimal_value(text.drop_last()) == 0);
        assert(decimal_value(text) == n);
    } else {
        let shorter = decimal_text(n / 10);
        lemma_decimal_text(n / 10);
        lemma_digit_char(n % 10);
        assert(text.drop_last() =~= shorter);
        assert(text.last() == digit_char(n % 10));
        assert(decimal_value(text) == (n / 10) * 10 + n % 10);
        assert forall|i: int| 0 <= i < text.len() implies is_digit(#[trigger] text[i]) by {
            if i < shorter.len() {
                assert(text[i] == shorter[i]);
            }
        }
    }
}

/// The digit for a number below ten is a digit that is worth the number.
pub proof fn lemma_digit_char(d: nat)
    requires
        d < 10,
    ensures
        is_digit(digit_char(d)),
        digit_value(digit_char(d)) == d,
{
    let byte = (0x30 + d) as u8;
    assert(byte as char as u32 == byte as u32);
}

/// A number that is written in decimal digits reads back as itself, as long
/// as it does not exceed the bound.
pub proof fn lemma_decimal_round_trip(n: nat, max: nat)
    requires
        n <= max,
    ensures
        parse_unsigned(decimal_text(n), max) == Some(n),
{
    lemma_decimal_text(n);
    let text = decimal_text(n);
    assert(is_digit(text[0]));
    assert(unsigned_digits(text) == text);
}

/// Reads `chars[from..to]` as an unsigned decimal number that is at most `max`.
pub fn parse_unsigned_range(chars: &Vec<char>, from: usize, to: usize, max: usize) -> (number:
    Option<usize>)
    requires
        from <= to <= chars@.len(),
    ensures
        match parse_unsigned(chars@.subrange(from as int, to as int), max as nat) {
            Some(n) => number == Some(n as usize),
            None => number.is_none(),
        },
{
    let ghost whole = chars@.subrange(from as int, to as int);
    let mut at: usize = from;
    if at < to && chars[at] == '+' {
        at += 1;
    }
    let start: usize = at;
    let ghost digits = chars@.subrange(start as int, to as int);
    assert(digits == unsigned_digits(whole));
    if start == to {
        return None;
    }
    let mut value: usize = 0;
    while at < to
        invariant
            start <= at <= to <= chars@.len(),
            from <= start,
            whole == chars@.subrange(from as int, to as int),
            digits == chars@.subrange(start as int, to as int),
            digits == unsigned_digits(whole),
            all_digits(digits.take(at - start)),
            value == decimal_value(digits.take(at - start)),
            value <= max,
        decreases to - at,
    {
        let unit: u32 = chars[at] as u32;
        if unit < 0x30 || unit > 0x39 {
            assert(!is_digit(digits[at - start]));
            return None;
        }
        let digit: usize = (unit - 0x30) as usize;
        proof {
            let longer = digits.take(at - start + 1);
            assert(longer.drop_last() == digits.take(at - start));
            assert(longer.last() == chars@[at as int]);
            assert(decimal_value(longer) == value * 10 + digit);
            lemma_decimal_value_prefix(digits, at - start + 1);
            assert forall|i: int| 0 <= i < longer.len() implies is_digit(#[trigger] longer[i]) by {
                if i < at - start {
                    assert(longer[i] == digits.take(at - start)[i]);
                }
            }
        }
        if digit > max || value > (max - digit) / 10 {
            return None;
        }
        value = value * 10 + digit;
        at += 1;
    }
    assert(digits.take(at - start) == digits);
    Some(value)
}

/// The one-character text of the decimal digit `d`.
pub fn digit_str(d: usize) -> (text: &'static str)
    requires
        d < 10,
    ensures
        text@ == seq![digit_char(d as nat)],
{
    proof {
        reveal_strlit("0");
        reveal_strlit("1");
        reveal_strlit("2");
        reveal_strlit("3");
        reveal_strlit("4");
        reveal_strlit("5");
        reveal_strlit("6");
        reveal_strlit("7");
        reveal_strlit("8");
        reveal_strlit("9");
    }
    let text = if d == 0 {
        "0"
    } else if d == 1 {
        "1"
    } else if d == 2 {
        "2"
    } else if d == 3 {
        "3"
    } else if d == 4 {
        "4"
    } else if d == 5 {
        "5"
    } else if d == 6 {
        "6"
    } else if d == 7 {
        "7"
    } else if d == 8 {
        "8"
    } else {
        "9"
    };
    assert(text@ =~= seq![digit_char(d as nat)]);
    text
}

/// Appends the decimal digits of `n` to `out`.
pub fn push_decimal(out: &mut String, n: usize)
    ensures
        final(out)@ == old(out)@ + decimal_text(n as nat),
    decreases n,
{
    if n >= 10 {
        push_decimal(out, n / 10);
    }
    out.append(digit_str(n % 10));
    proof {
        if n >= 10 {
            assert(old(out)@ + decimal_text((n / 10) as nat) + seq![digit_char((n % 10) as nat)]
                =~= old(out)@ + decimal_text(n as nat));
        } else {
            assert(old(out)@ + seq![digit_char((n % 10) as nat)] =~= old(out)@ + decimal_text(
                n as nat,
            ));
        }
    }
}

/// Copies `chars[from..to]` of `text` into a string of its own.
pub fn substring(text: &str, from: usize, to: usize) -> (piece: String)
    requires
        from <= to <= text@.len(),
    ensures
        piece@ == text@.subrange(from as int, to as int),
{
    text.substring_char(from, to).to_owned()
}

} // verus!
