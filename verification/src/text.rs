//! Text: trimming, ASCII case, decimal numbers.
use vstd::prelude::*;

verus! {

/// The characters of Unicode's White_Space property.
pub open spec fn is_white_space(c: char) -> bool {
    ||| '\u{9}' <= c <= '\u{d}'
    ||| c == ' '
    ||| c == '\u{85}'
    ||| c == '\u{a0}'
    ||| c == '\u{1680}'
    ||| '\u{2000}' <= c <= '\u{200a}'
    ||| c == '\u{2028}'
    ||| c == '\u{2029}'
    ||| c == '\u{202f}'
    ||| c == '\u{205f}'
    ||| c == '\u{3000}'
}

/// `s` without its leading white space.
pub open spec fn trimmed_start(s: Seq<char>) -> Seq<char>
    decreases s.len(),
{
    if s.len() > 0 && is_white_space(s.first()) {
        trimmed_start(s.drop_first())
    } else {
        s
    }
}

/// `s` without its trailing white space.
pub open spec fn trimmed_end(s: Seq<char>) -> Seq<char>
    decreases s.len(),
{
    if s.len() > 0 && is_white_space(s.last()) {
        trimmed_end(s.drop_last())
    } else {
        s
    }
}

/// `s` without the white space around it.
pub open spec fn trimmed(s: Seq<char>) -> Seq<char> {
    trimmed_end(trimmed_start(s))
}

/// `s` is white space throughout.
pub open spec fn is_blank(s: Seq<char>) -> bool {
    forall|i: int| 0 <= i < s.len() ==> is_white_space(#[trigger] s[i])
}

/// `str::trim` of std: the text without leading and trailing white space, as Unicode's White_Space
/// property defines it.
pub assume_specification[ str::trim ](s: &str) -> (r: &str)
    ensures
        r@ == trimmed(s@),
;

/// `String::push` of std: appends one character.
pub assume_specification[ String::push ](s: &mut String, c: char)
    ensures
        final(s)@ == old(s)@.push(c),
;

/// The text of an optional string.
pub open spec fn option_text(s: Option<String>) -> Option<Seq<char>> {
    match s {
        Some(t) => Some(t@),
        None => None,
    }
}

/// The texts of a row of strings.
pub open spec fn texts(v: Seq<String>) -> Seq<Seq<char>> {
    v.map_values(|s: String| s@)
}

/// A copy of `s` without the white space around it.
pub fn trimmed_text(s: &str) -> (r: String)
    ensures
        r@ == trimmed(s@),
{
    s.trim().to_owned()
}

/// The characters of `s`, one by one.
pub fn chars_of(s: &str) -> (v: Vec<char>)
    ensures
        v@ == s@,
{
    let mut v: Vec<char> = Vec::new();
    for c in it: s.chars()
        invariant
            v@ == it.seq().take(it.index() as int),
            it.seq() == s@,
    {
        v.push(c);
    }
    v
}

pub fn str_eq(a: &str, b: &str) -> (r: bool)
    ensures
        r == (a@ == b@),
{
    let x = chars_of(a);
    let y = chars_of(b);
    if x.len() != y.len() {
        return false;
    }
    let mut i: usize = 0;
    while i < x.len()
        invariant
            i <= x.len(),
            x.len() == y.len(),
            x@ == a@,
            y@ == b@,
            forall|j: int| 0 <= j < i ==> x@[j] == y@[j],
        decreases x.len() - i,
    {
        if x[i] != y[i] {
            return false;
        }
        i += 1;
    }
    assert(a@ =~= b@);
    true
}

/// The lower-case form of an ASCII letter; any other character is its own.
pub open spec fn ascii_lower(c: char) -> char {
    if 'A' <= c <= 'Z' {
        (c as u32 + 32) as char
    } else {
        c
    }
}

/// `s` with its ASCII letters in lower case.
pub open spec fn lowered(s: Seq<char>) -> Seq<char> {
    s.map_values(|c: char| ascii_lower(c))
}

pub fn lower_char(c: char) -> (r: char)
    ensures
        r == ascii_lower(c),
{
    if 'A' <= c && c <= 'Z' {
        ((c as u8) + 32) as char
    } else {
        c
    }
}

/// `s` with its ASCII letters in lower case.
pub fn to_ascii_lowercase(s: &str) -> (r: String)
    ensures
        r@ == lowered(s@),
{
    let mut r = String::new();
    for c in it: s.chars()
        invariant
            r@ == lowered(it.seq().take(it.index() as int)),
            it.seq() == s@,
    {
        proof {
            assert(it.seq().take(it.index() + 1) =~= it.seq().take(it.index() as int).push(c));
            assert(lowered(it.seq().take(it.index() + 1)) =~= r@.push(ascii_lower(c)));
        }
        r.push(lower_char(c));
    }
    r
}

/// Equality up to the case of ASCII letters.
pub open spec fn same_ignoring_case(a: Seq<char>, b: Seq<char>) -> bool {
    lowered(a) == lowered(b)
}

pub fn eq_ignore_ascii_case(a: &str, b: &str) -> (r: bool)
    ensures
        r == same_ignoring_case(a@, b@),
{
    let x = to_ascii_lowercase(a);
    let y = to_ascii_lowercase(b);
    x == y
}

pub open spec fn is_digit(c: char) -> bool {
    '0' <= c <= '9'
}

pub open spec fn all_digits(s: Seq<char>) -> bool {
    forall|i: int| 0 <= i < s.len() ==> is_digit(#[trigger] s[i])
}

/// The number that a row of decimal digits stands for.
pub open spec fn decimal_value(digits: Seq<char>) -> nat
    decreases digits.len(),
{
    if digits.len() == 0 {
        0
    } else {
        decimal_value(digits.drop_last()) * 10 + (digits.last() as nat - '0' as nat) as nat
    }
}

/// `s` without the plus sign that it may start with.
pub open spec fn after_plus(s: Seq<char>) -> Seq<char> {
    if s.len() > 0 && s.first() == '+' {
        s.drop_first()
    } else {
        s
    }
}

/// The number that `s` writes: an optional plus sign, then one or more digits and nothing else.
pub open spec fn number_in(s: Seq<char>) -> Option<nat> {
    let digits = after_plus(s);
    if digits.len() > 0 && all_digits(digits) {
        Some(decimal_value(digits))
    } else {
        None
    }
}

/// The digits of `n` in decimal, without leading zeros.
pub open spec fn decimal_text(n: nat) -> Seq<char>
    decreases n,
{
    if n < 10 {
        seq![('0' as u32 + n) as char]
    } else {
        decimal_text(n / 10).push(('0' as u32 + n % 10) as char)
    }
}

proof fn lemma_decimal_prefix_bounded(digits: Seq<char>, i: int)
    requires
        0 <= i <= digits.len(),
    ensures
        decimal_value(digits.take(i)) <= decimal_value(digits),
    decreases digits.len() - i,
{
    if i < digits.len() {
        lemma_decimal_prefix_bounded(digits, i + 1);
        assert(digits.take(i + 1).drop_last() =~= digits.take(i));
    } else {
        assert(digits.take(i) =~= digits);
    }
}

/// The value of `digits[from..to]`, unless it exceeds `limit`.
pub(crate) fn digits_value(digits: &Vec<char>, from: usize, to: usize, limit: u64) -> (r: Option<u64>)
    requires
        from <= to <= digits.len(),
        all_digits(digits@.subrange(from as int, to as int)),
    ensures
        ({
            let v = decimal_value(digits@.subrange(from as int, to as int));
            r == (if v <= limit {
                Some(v as u64)
            } else {
                None
            })
        }),
{
    let ghost row = digits@.subrange(from as int, to as int);
    let mut value: u64 = 0;
    let mut i: usize = from;
    while i < to
        invariant
            from <= i <= to <= digits.len(),
            row == digits@.subrange(from as int, to as int),
            all_digits(row),
            value == decimal_value(row.take(i - from)),
            value <= limit,
        decreases to - i,
    {
        let c = digits[i];
        proof {
            assert(c == row[i - from]);
            assert(is_digit(c));
            assert(row.take(i - from + 1).drop_last() =~= row.take(i - from));
            lemma_decimal_prefix_bounded(row, i - from + 1);
        }
        let d: u64 = (c as u64) - 48;
        let wide: u128 = (value as u128) * 10 + (d as u128);
        if wide > limit as u128 {
            return None;
        }
        value = wide as u64;
        i += 1;
    }
    proof {
        assert(row.take(to - from) =~= row);
    }
    Some(value)
}

/// Reads an unsigned number of at most `limit`.
pub fn parse_number(s: &str, limit: u64) -> (r: Option<u64>)
    ensures
        r == (match number_in(s@) {
            Some(v) => if v <= limit {
                Some(v as u64)
            } else {
                None
            },
            None => None,
        }),
{
    let v = chars_of(s);
    let start: usize = if v.len() > 0 && v[0] == '+' {
        1
    } else {
        0
    };
    let ghost digits = v@.subrange(start as int, v.len() as int);
    proof {
        if start == 0 {
            assert(digits =~= s@);
        } else {
            assert(digits =~= s@.drop_first());
        }
    }
    if start >= v.len() {
        return None;
    }
    let mut i: usize = start;
    while i < v.len()
        invariant
            start <= i <= v.len(),
            digits == v@.subrange(start as int, v.len() as int),
            digits == after_plus(s@),
            forall|j: int| 0 <= j < i - start ==> is_digit(#[trigger] digits[j]),
        decreases v.len() - i,
    {
        if v[i] < '0' || '9' < v[i] {
            proof {
                assert(!is_digit(digits[i - start]));
            }
            return None;
        }
        i += 1;
    }
    digits_value(&v, start, v.len(), limit)
}

proof fn lemma_decimal_text_value(n: nat)
    ensures
        decimal_text(n).len() > 0,
        all_digits(decimal_text(n)),
        decimal_value(decimal_text(n)) == n,
    decreases n,
{
    reveal_with_fuel(decimal_value, 2);
    if n >= 10 {
        lemma_decimal_text_value(n / 10);
        assert(decimal_text(n).drop_last() =~= decimal_text(n / 10));
    }
}

/// Reading back a number that was written in decimal gives that number.
pub proof fn law_number_text_reads_back(n: nat)
    ensures
        number_in(decimal_text(n)) == Some(n),
{
    lemma_decimal_text_value(n);
    assert(is_digit(decimal_text(n).first()));
}

proof fn lemma_trimmed_end(s: Seq<char>)
    ensures
        trimmed_end(s).len() > 0 ==> !is_white_space(trimmed_end(s).last()),
        trimmed_end(s).len() <= s.len(),
        trimmed_end(s) == s.take(trimmed_end(s).len() as int),
        trimmed_end(s).len() == 0 <==> is_blank(s),
    decreases s.len(),
{
    if s.len() > 0 && is_white_space(s.last()) {
        let t = s.drop_last();
        lemma_trimmed_end(t);
        assert(t.take(trimmed_end(t).len() as int) =~= s.take(trimmed_end(t).len() as int));
        if is_blank(t) {
            assert(forall|i: int| 0 <= i < s.len() - 1 ==> s[i] == t[i]);
        }
    } else {
        assert(s.take(s.len() as int) =~= s);
        if s.len() > 0 {
            assert(!is_white_space(s[s.len() - 1]));
        }
    }
}

proof fn lemma_trimmed_start(s: Seq<char>)
    ensures
        trimmed_start(s).len() > 0 ==> !is_white_space(trimmed_start(s).first()),
        trimmed_start(s).len() <= s.len(),
        is_blank(trimmed_start(s)) <==> is_blank(s),
    decreases s.len(),
{
    if s.len() > 0 && is_white_space(s.first()) {
        let t = s.drop_first();
        lemma_trimmed_start(t);
        if is_blank(t) {
            assert forall|i: int| 0 <= i < s.len() implies is_white_space(#[trigger] s[i]) by {
                if i > 0 {
                    assert(t[i - 1] == s[i]);
                }
            }
        }
    } else if s.len() > 0 {
        assert(!is_white_space(s[0]));
    }
}

/// Trimming leaves no white space at either end, never adds text, and leaves nothing exactly of
/// text that is white space throughout.
pub proof fn law_trimmed(s: Seq<char>)
    ensures
        trimmed(s).len() <= s.len(),
        trimmed(s).len() == 0 <==> is_blank(s),
        trimmed(s).len() > 0 ==> !is_white_space(trimmed(s).first()) && !is_white_space(
            trimmed(s).last(),
        ),
{
    lemma_trimmed_start(s);
    lemma_trimmed_end(trimmed_start(s));
}

/// Trimming twice is trimming once.
pub proof fn law_trimmed_is_fixed(s: Seq<char>)
    ensures
        trimmed(trimmed(s)) == trimmed(s),
{
    law_trimmed(s);
}

/// The decimal digits of `n`.
pub fn number_text(n: u64) -> (r: String)
    ensures
        r@ == decimal_text(n as nat),
    decreases n,
{
    let digit = ((n % 10) as u8 + 48) as char;
    let mut r = if n < 10 {
        String::new()
    } else {
        number_text(n / 10)
    };
    r.push(digit);
    r
}

proof fn lemma_trimmed_end_of_parts(middle: Seq<char>, tail: Seq<char>)
    requires
        middle.len() > 0,
        !is_white_space(middle.last()),
        is_blank(tail),
    ensures
        trimmed_end(middle + tail) == middle,
    decreases tail.len(),
{
    let s = middle + tail;
    if tail.len() == 0 {
        assert(s =~= middle);
    } else {
        assert(is_white_space(tail[tail.len() - 1]));
        assert(s.last() == tail.last());
        assert(s.drop_last() =~= middle + tail.drop_last());
        lemma_trimmed_end_of_parts(middle, tail.drop_last());
    }
}

proof fn lemma_trimmed_start_of_parts(head: Seq<char>, rest: Seq<char>)
    requires
        is_blank(head),
        rest.len() > 0,
        !is_white_space(rest.first()),
    ensures
        trimmed_start(head + rest) == rest,
    decreases head.len(),
{
    let s = head + rest;
    if head.len() == 0 {
        assert(s =~= rest);
    } else {
        assert(is_white_space(head[0]));
        assert(s.drop_first() =~= head.drop_first() + rest);
        assert forall|i: int| 0 <= i < head.len() - 1 implies is_white_space(
            #[trigger] head.drop_first()[i],
        ) by {
            assert(is_white_space(head[i + 1]));
        }
        lemma_trimmed_start_of_parts(head.drop_first(), rest);
    }
}

/// Trimming text that has white space around it gives back the text, all of it.
pub proof fn law_trimming_takes_what_is_around(head: Seq<char>, middle: Seq<char>, tail: Seq<char>)
    requires
        is_blank(head),
        middle.len() > 0,
        !is_white_space(middle.first()),
        !is_white_space(middle.last()),
        is_blank(tail),
    ensures
        trimmed(head + middle + tail) == middle,
{
    assert(head + middle + tail =~= head + (middle + tail));
    lemma_trimmed_start_of_parts(head, middle + tail);
    lemma_trimmed_end_of_parts(middle, tail);
}

/// Lower case changes the ASCII capitals, each to its small letter, and nothing else. So it does not
/// change its own result.
pub proof fn law_lower_case(s: Seq<char>)
    ensures
        lowered(s).len() == s.len(),
        forall|i: int|
            0 <= i < s.len() ==> if 'A' <= s[i] <= 'Z' {
                #[trigger] lowered(s)[i] as int == s[i] as int + 32
            } else {
                lowered(s)[i] == s[i]
            },
        lowered(lowered(s)) == lowered(s),
{
    assert(lowered(lowered(s)) =~= lowered(s));
}

/// A digit more makes a number ten times as large, and adds to it.
pub proof fn law_digit_more(digits: Seq<char>, digit: char)
    requires
        is_digit(digit),
    ensures
        decimal_value(digits.push(digit)) == 10 * decimal_value(digits) + (digit as int - 48),
        decimal_value(Seq::empty()) == 0,
{
    assert(digits.push(digit).drop_last() =~= digits);
}

/// What reads as a number is one or more digits, after a plus sign or not, and nothing else.
pub proof fn law_numbers_are_digits(digits: Seq<char>, other: Seq<char>)
    requires
        digits.len() > 0,
        forall|i: int| 0 <= i < digits.len() ==> '0' <= #[trigger] digits[i] <= '9',
        other.len() > 0 ==> exists|i: int|
            0 <= i < other.len() && !('0' <= #[trigger] other[i] <= '9') && (i > 0 || other[0]
                != '+'),
    ensures
        number_in(digits) == Some(decimal_value(digits)),
        number_in(seq!['+'] + digits) == Some(decimal_value(digits)),
        number_in(other) is None,
{
    assert(is_digit(digits.first()));
    assert((seq!['+'] + digits).drop_first() =~= digits);
    assert(after_plus(seq!['+'] + digits) == digits);
    if other.len() > 0 {
        let i = choose|i: int|
            0 <= i < other.len() && !('0' <= #[trigger] other[i] <= '9') && (i > 0 || other[0]
                != '+');
        if other.first() == '+' {
            assert(!is_digit(other.drop_first()[i - 1]));
        } else {
            assert(!is_digit(other[i]));
        }
    }
}

/// A number is written in digits, without zeros before it.
pub proof fn law_number_text_is_plain(n: nat)
    ensures
        decimal_text(n).len() > 0,
        forall|i: int| 0 <= i < decimal_text(n).len() ==> '0' <= #[trigger] decimal_text(n)[i]
            <= '9',
        n > 0 ==> decimal_text(n).first() != '0',
        n < 10 ==> decimal_text(n).len() == 1,
    decreases n,
{
    if n >= 10 {
        law_number_text_is_plain(n / 10);
    }
}

} // verus!
