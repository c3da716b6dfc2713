//! Text: the few string operations that the rest of the library is written with.

use vstd::arithmetic::div_mod;
use vstd::arithmetic::power;
use vstd::prelude::*;
use vstd::string::StrSliceExecFns;
use vstd::string::StringExecFns;

verus! {

// ---- Characters and strings ----------------------------------------------------

/// Trusted: `String::push` appends the given character to the end of the string.
pub assume_specification[ String::push ](s: &mut String, c: char)
    ensures
        final(s)@ == old(s)@.push(c),
;

/// The characters of a string, in order.
pub fn chars_of(s: &str) -> (chars: Vec<char>)
    ensures
        chars@ == s@,
{
    let mut chars: Vec<char> = Vec::new();
    for c in it: s.chars()
        invariant
            it.seq() == s@,
            chars@ == s@.take(it.index() as int),
    {
        chars.push(c);
        assert(s@.take(it.index() + 1) =~= s@.take(it.index() as int).push(c));
    }
    assert(s@.take(s@.len() as int) =~= s@);
    chars
}

/// Whether two texts hold the same characters.
pub fn same_text(a: &str, b: &str) -> (same: bool)
    ensures
        same == (a@ == b@),
{
    a.to_owned() == b.to_owned()
}

/// A text of `n` copies of one character.
pub open spec fn repeated(c: char, n: nat) -> Seq<char> {
    Seq::new(n, |i: int| c)
}

/// `n` copies of one character.
pub fn repeat_char(c: char, n: usize) -> (s: String)
    ensures
        s@ == repeated(c, n as nat),
{
    let mut s = String::new();
    for i in 0..n
        invariant
            s@ == repeated(c, i as nat),
    {
        s.push(c);
        assert(s@ =~= repeated(c, (i + 1) as nat));
    }
    s
}

// ---- Decimal numbers -----------------------------------------------------------

/// The character of one decimal digit.
pub open spec fn digit_char(d: nat) -> char {
    (48 + d) as char
}

/// The decimal numeral of a natural number, without leading zeros.
pub open spec fn decimal(n: nat) -> Seq<char>
    decreases n,
{
    if n < 10 {
        seq![digit_char(n)]
    } else {
        decimal(n / 10).push(digit_char(n % 10))
    }
}

/// The decimal numeral of a number, as `Display` writes it.
pub fn u64_text(n: u64) -> (s: String)
    ensures
        s@ == decimal(n as nat),
    decreases n,
{
    let digit: u8 = 48 + (n % 10) as u8;
    let mut s = if n < 10 { String::new() } else { u64_text(n / 10) };
    s.push(digit as char);
    assert(n < 10 ==> s@ =~= decimal(n as nat));
    s
}

/// A decimal numeral, filled up with leading zeros to at least `width` characters.
pub open spec fn zero_filled(n: nat, width: nat) -> Seq<char> {
    if decimal(n).len() < width {
        repeated('0', (width - decimal(n).len()) as nat) + decimal(n)
    } else {
        decimal(n)
    }
}

/// A decimal numeral, filled up with leading zeros to at least `width` characters.
pub fn zero_filled_text(n: u64, width: usize) -> (s: String)
    ensures
        s@ == zero_filled(n as nat, width as nat),
{
    let digits = u64_text(n);
    let len: usize = digits.as_str().unicode_len();
    if len < width {
        repeat_char('0', width - len).concat(digits.as_str())
    } else {
        digits
    }
}

/// Whether a character is one of the ten decimal digits.
pub open spec fn is_digit(c: char) -> bool {
    '0' <= c <= '9'
}

/// The number that a text of decimal digits stands for.
pub open spec fn digits_value(s: Seq<char>) -> nat
    decreases s.len(),
{
    if s.len() == 0 {
        0
    } else {
        digits_value(s.drop_last()) * 10 + (s.last() as nat - 48) as nat
    }
}

/// The digits of a numeral that may begin with a plus sign.
pub open spec fn after_plus(s: Seq<char>) -> Seq<char> {
    if s.len() > 0 && s[0] == '+' {
        s.skip(1)
    } else {
        s
    }
}

/// The number that a text reads as, if it is a numeral that fits in a machine word: an
/// optional plus sign and at least one digit.
pub open spec fn parsed_number(s: Seq<char>) -> Option<nat> {
    let digits = after_plus(s);
    if digits.len() > 0 && (forall|i: int| 0 <= i < digits.len() ==> is_digit(#[trigger] digits[i]))
        && digits_value(digits) <= usize::MAX {
        Some(digits_value(digits))
    } else {
        None
    }
}

/// A numeral stands for no less than any of its beginnings does.
proof fn lemma_digits_value_grows(s: Seq<char>, k: int)
    requires
        0 <= k <= s.len(),
        forall|i: int| 0 <= i < s.len() ==> is_digit(#[trigger] s[i]),
    ensures
        digits_value(s.take(k)) <= digits_value(s),
    decreases s.len() - k,
{
    if k < s.len() {
        lemma_digits_value_grows(s, k + 1);
        assert(s.take(k + 1).drop_last() =~= s.take(k));
        assert(s.take(k + 1).last() == s[k]);
    } else {
        assert(s.take(k) =~= s);
    }
}

/// Reads a text as an unsigned number.
pub fn parse_usize(s: &str) -> (n: Option<usize>)
    ensures
        match n {
            Some(v) => parsed_number(s@) == Some(v as nat),
            None => parsed_number(s@) is None,
        },
{
    let chars = chars_of(s);
    let len: usize = chars.len();
    let start: usize = if len > 0 && chars[0] == '+' { 1 } else { 0 };
    let ghost digits = after_plus(s@);
    assert(digits =~= s@.skip(start as int));
    if start == len {
        return None;
    }
    let mut value: usize = 0;
    let mut i: usize = start;
    while i < len
        invariant
            chars@ == s@,
            len == s@.len(),
            start <= i <= len,
            start < len,
            digits == s@.skip(start as int),
            digits == after_plus(s@),
            forall|j: int| 0 <= j < i - start ==> is_digit(#[trigger] digits[j]),
            value == digits_value(digits.take(i - start)),
        decreases len - i,
    {
        let c: char = chars[i];
        assert(digits[i - start] == c);
        if c < '0' || c > '9' {
            return None;
        }
        let d: usize = c as usize - 48;
        assert(digits.take(i - start + 1).drop_last() =~= digits.take(i - start));
        assert(digits.take(i - start + 1).last() == c);
        assert(digits_value(digits.take(i - start + 1)) == value * 10 + d);
        proof {
            if forall|j: int| 0 <= j < digits.len() ==> is_digit(#[trigger] digits[j]) {
                lemma_digits_value_grows(digits, i - start + 1);
            }
        }
        match value.checked_mul(10) {
            Some(tens) => match tens.checked_add(d) {
                Some(next) => {
                    value = next;
                },
                None => {
                    return None;
                },
            },
            None => {
                return None;
            },
        }
        i = i + 1;
    }
    assert(digits.take(len - start) =~= digits);
    Some(value)
}

// ---- White space and letter case -------------------------------------------------

/// Whether a character has the Unicode property `White_Space`.
pub open spec fn white_space(c: char) -> bool {
    let n = c as u32;
    ||| 0x9 <= n <= 0xd
    ||| n == 0x20
    ||| n == 0x85
    ||| n == 0xa0
    ||| n == 0x1680
    ||| 0x2000 <= n <= 0x200a
    ||| n == 0x2028
    ||| n == 0x2029
    ||| n == 0x202f
    ||| n == 0x205f
    ||| n == 0x3000
}

/// Trusted: `char::is_whitespace` tells whether a character has the Unicode property
/// `White_Space`, whose characters `white_space` lists.
pub assume_specification[ char::is_whitespace ](c: char) -> (b: bool)
    ensures
        b == white_space(c),
;

/// The lower case of a text, by the Unicode tables.
pub uninterp spec fn lowercase(s: Seq<char>) -> Seq<char>;

/// Trusted: `str::to_lowercase` gives the lower case of a text, by the Unicode tables.
pub assume_specification[ str::to_lowercase ](s: &str) -> (lower: String)
    ensures
        lower@ == lowercase(s@),
;

/// A text without the white space at its beginning.
pub open spec fn trimmed_front(s: Seq<char>) -> Seq<char>
    decreases s.len(),
{
    if s.len() > 0 && white_space(s[0]) {
        trimmed_front(s.drop_first())
    } else {
        s
    }
}

/// A text without the white space at its end.
pub open spec fn trimmed_back(s: Seq<char>) -> Seq<char>
    decreases s.len(),
{
    if s.len() > 0 && white_space(s.last()) {
        trimmed_back(s.drop_last())
    } else {
        s
    }
}

/// A text without the white space around it.
pub open spec fn trimmed(s: Seq<char>) -> Seq<char> {
    trimmed_back(trimmed_front(s))
}

/// A text without the white space around it.
pub fn trim(s: &str) -> (t: &str)
    ensures
        t@ == trimmed(s@),
{
    let chars = chars_of(s);
    let len: usize = chars.len();
    let mut from: usize = 0;
    assert(s@.skip(0) =~= s@);
    while from < len && chars[from].is_whitespace()
        invariant
            chars@ == s@,
            len == s@.len(),
            from <= len,
            trimmed_front(s@.skip(from as int)) == trimmed_front(s@),
        decreases len - from,
    {
        assert(s@.skip(from as int).drop_first() =~= s@.skip(from + 1));
        from = from + 1;
    }
    assert(trimmed_front(s@) == s@.skip(from as int));
    let mut to: usize = len;
    assert(s@.subrange(from as int, len as int) =~= s@.skip(from as int));
    while to > from && chars[to - 1].is_whitespace()
        invariant
            chars@ == s@,
            len == s@.len(),
            from <= to <= len,
            trimmed_back(s@.subrange(from as int, to as int)) == trimmed(s@),
        decreases to,
    {
        assert(s@.subrange(from as int, to as int).drop_last() =~= s@.subrange(
            from as int,
            to - 1,
        ));
        to = to - 1;
    }
    s.substring_char(from, to)
}

/// Whether nothing but white space is in a text.
pub fn is_blank(s: &str) -> (blank: bool)
    ensures
        blank == (trimmed(s@).len() == 0),
{
    trim(s).is_empty()
}

/// A text trimmed and in lower case: how addresses and answers are compared.
pub open spec fn normalized(s: Seq<char>) -> Seq<char> {
    lowercase(trimmed(s))
}

/// A text trimmed and in lower case.
pub fn normalize(s: &str) -> (t: String)
    ensures
        t@ == normalized(s@),
{
    trim(s).to_lowercase()
}

/// Whether a text, trimmed, is one given letter in either case.
pub fn is_letter(s: &str, lower: char, upper: char) -> (yes: bool)
    ensures
        yes == (trimmed(s@) == seq![lower] || trimmed(s@) == seq![upper]),
{
    let t = trim(s);
    if t.unicode_len() != 1 {
        return false;
    }
    let c: char = t.get_char(0);
    assert(t@ =~= seq![c]);
    assert(c == lower ==> t@ =~= seq![lower]);
    assert(c != lower ==> t@[0] != seq![lower][0]);
    assert(c != upper ==> t@[0] != seq![upper][0]);
    c == lower || c == upper
}

// ---- Searching -------------------------------------------------------------------

/// Whether a text occurs in another at a given position.
pub open spec fn occurs_at(hay: Seq<char>, needle: Seq<char>, i: int) -> bool {
    &&& 0 <= i
    &&& i + needle.len() <= hay.len()
    &&& hay.subrange(i, i + needle.len()) == needle
}

/// Whether a text occurs anywhere in another.
pub open spec fn occurs(hay: Seq<char>, needle: Seq<char>) -> bool {
    exists|i: int| occurs_at(hay, needle, i)
}

/// Whether a text begins with another.
pub open spec fn begins(hay: Seq<char>, prefix: Seq<char>) -> bool {
    occurs_at(hay, prefix, 0)
}

/// Where a text first occurs in another, at a position no less than `i`.
pub open spec fn first_from(hay: Seq<char>, needle: Seq<char>, i: int) -> Option<int>
    decreases hay.len() - i + 1,
{
    if i < 0 || i > hay.len() {
        None
    } else if occurs_at(hay, needle, i) {
        Some(i)
    } else {
        first_from(hay, needle, i + 1)
    }
}

/// Where a text first occurs in another.
pub open spec fn first(hay: Seq<char>, needle: Seq<char>) -> Option<int> {
    first_from(hay, needle, 0)
}

/// What `first_from` finds is an occurrence, and none lies before it; it finds one if there is one.
pub proof fn lemma_first_from(hay: Seq<char>, needle: Seq<char>, i: int)
    requires
        0 <= i,
    ensures
        match first_from(hay, needle, i) {
            Some(k) => i <= k && occurs_at(hay, needle, k) && forall|j: int|
                i <= j < k ==> !occurs_at(hay, needle, j),
            None => forall|j: int| i <= j ==> !occurs_at(hay, needle, j),
        },
    decreases hay.len() - i + 1,
{
    if i <= hay.len() && !occurs_at(hay, needle, i) {
        lemma_first_from(hay, needle, i + 1);
    }
}

/// If a text occurs at a position and nowhere before it, that position is the first.
pub proof fn lemma_first_is(hay: Seq<char>, needle: Seq<char>, k: int)
    requires
        occurs_at(hay, needle, k),
        forall|j: int| 0 <= j < k ==> !occurs_at(hay, needle, j),
    ensures
        first(hay, needle) == Some(k),
{
    lemma_first_from(hay, needle, 0);
}

fn matches_at(hay: &Vec<char>, needle: &Vec<char>, i: usize) -> (yes: bool)
    requires
        i <= hay@.len(),
    ensures
        yes == occurs_at(hay@, needle@, i as int),
{
    let len: usize = hay.len();
    if needle.len() > len - i {
        return false;
    }
    let mut j: usize = 0;
    while j < needle.len()
        invariant
            len == hay@.len(),
            i + needle@.len() <= len,
            j <= needle@.len(),
            forall|m: int| 0 <= m < j ==> hay@[i + m] == needle@[m],
        decreases needle@.len() - j,
    {
        if hay[i + j] != needle[j] {
            assert(hay@.subrange(i as int, i + needle@.len())[j as int] != needle@[j as int]);
            return false;
        }
        j = j + 1;
    }
    assert(hay@.subrange(i as int, i + needle@.len()) =~= needle@);
    true
}

/// Finds where a text first occurs in another, counted in characters.
pub fn find_text(hay: &str, needle: &str) -> (at: Option<usize>)
    ensures
        match at {
            Some(i) => first(hay@, needle@) == Some(i as int),
            None => first(hay@, needle@) is None,
        },
{
    let h = chars_of(hay);
    let n = chars_of(needle);
    let mut i: usize = 0;
    loop
        invariant
            h@ == hay@,
            n@ == needle@,
            i <= h@.len(),
            first_from(hay@, needle@, i as int) == first(hay@, needle@),
        decreases h@.len() - i,
    {
        if matches_at(&h, &n, i) {
            return Some(i);
        }
        if i == h.len() {
            assert(first_from(hay@, needle@, i + 1) is None);
            return None;
        }
        i = i + 1;
    }
}

/// Whether a text occurs in another.
pub fn contains_text(hay: &str, needle: &str) -> (yes: bool)
    ensures
        yes == occurs(hay@, needle@),
{
    proof {
        lemma_first_from(hay@, needle@, 0);
    }
    find_text(hay, needle).is_some()
}

/// Whether a text begins with another.
pub fn starts_with_text(hay: &str, prefix: &str) -> (yes: bool)
    ensures
        yes == begins(hay@, prefix@),
{
    matches_at(&chars_of(hay), &chars_of(prefix), 0)
}

/// What follows a prefix.
pub open spec fn after_prefix(s: Seq<char>, prefix: Seq<char>) -> Option<Seq<char>> {
    if begins(s, prefix) {
        Some(s.skip(prefix.len() as int))
    } else {
        None
    }
}

/// What follows a prefix, if the text begins with it.
pub fn strip_prefix_text<'a>(s: &'a str, prefix: &str) -> (rest: Option<&'a str>)
    ensures
        match rest {
            Some(r) => after_prefix(s@, prefix@) == Some(r@),
            None => after_prefix(s@, prefix@) is None,
        },
{
    if starts_with_text(s, prefix) {
        let n: usize = prefix.unicode_len();
        let len: usize = s.unicode_len();
        assert(s@.skip(n as int) =~= s@.subrange(n as int, len as int));
        Some(s.substring_char(n, len))
    } else {
        None
    }
}

/// The beginning of a text, up to the first occurrence of a character.
pub open spec fn before(s: Seq<char>, c: char) -> Seq<char>
    decreases s.len(),
{
    if s.len() == 0 || s[0] == c {
        seq![]
    } else {
        seq![s[0]] + before(s.drop_first(), c)
    }
}

/// `before` is the longest beginning without the character.
pub proof fn lemma_before(s: Seq<char>, c: char, k: int)
    requires
        0 <= k <= s.len(),
        forall|i: int| 0 <= i < k ==> s[i] != c,
        k < s.len() ==> s[k] == c,
    ensures
        before(s, c) == s.take(k),
    decreases k,
{
    if k > 0 {
        assert forall|i: int| 0 <= i < k - 1 implies s.drop_first()[i] != c by {
            assert(s.drop_first()[i] == s[i + 1]);
        }
        lemma_before(s.drop_first(), c, k - 1);
        assert(s.take(k) =~= seq![s[0]] + s.drop_first().take(k - 1));
    } else {
        assert(s.take(0) =~= seq![]);
    }
}

/// The beginning of a text, up to the first occurrence of a character.
pub fn before_char<'a>(s: &'a str, c: char) -> (head: &'a str)
    ensures
        head@ == before(s@, c),
{
    let chars = chars_of(s);
    let mut k: usize = 0;
    while k < chars.len() && chars[k] != c
        invariant
            chars@ == s@,
            k <= chars@.len(),
            forall|i: int| 0 <= i < k ==> s@[i] != c,
        decreases chars@.len() - k,
    {
        k = k + 1;
    }
    proof {
        lemma_before(s@, c, k as int);
        assert(s@.take(k as int) =~= s@.subrange(0, k as int));
    }
    s.substring_char(0, k)
}

// ---- Replacing -------------------------------------------------------------------

/// A text with every occurrence of one character replaced by a text.
pub open spec fn replaced(s: Seq<char>, c: char, by: Seq<char>) -> Seq<char>
    decreases s.len(),
{
    if s.len() == 0 {
        seq![]
    } else {
        replaced(s.drop_last(), c, by) + (if s.last() == c {
            by
        } else {
            seq![s.last()]
        })
    }
}

/// Replaces every occurrence of one character by a text.
pub fn replace_char(s: &str, c: char, by: &str) -> (out: String)
    ensures
        out@ == replaced(s@, c, by@),
{
    let chars = chars_of(s);
    let mut out = String::new();
    let mut i: usize = 0;
    assert(s@.take(0) =~= seq![]);
    while i < chars.len()
        invariant
            chars@ == s@,
            i <= chars@.len(),
            out@ == replaced(s@.take(i as int), c, by@),
        decreases chars@.len() - i,
    {
        let ghost before_push = out@;
        if chars[i] == c {
            out.append(by);
        } else {
            out.push(chars[i]);
            assert(out@ =~= before_push + seq![s@[i as int]]);
        }
        assert(s@.take(i + 1).drop_last() =~= s@.take(i as int));
        assert(s@.take(i + 1).last() == s@[i as int]);
        i = i + 1;
    }
    assert(s@.take(i as int) =~= s@);
    out
}

/// A text with every occurrence of a pattern replaced, from the left and without overlap.
pub open spec fn replaced_text(s: Seq<char>, pattern: Seq<char>, by: Seq<char>) -> Seq<char>
    decreases s.len(),
{
    match first(s, pattern) {
        Some(k) => if 0 <= k && pattern.len() > 0 && k + pattern.len() <= s.len() {
            s.take(k) + by + replaced_text(s.skip(k + pattern.len()), pattern, by)
        } else {
            s
        },
        None => s,
    }
}

/// Replaces every occurrence of a pattern, from the left and without overlap.
pub fn replace_text(s: &str, pattern: &str, by: &str) -> (out: String)
    requires
        pattern@.len() > 0,
    ensures
        out@ == replaced_text(s@, pattern@, by@),
    decreases s@.len(),
{
    proof {
        lemma_first_from(s@, pattern@, 0);
    }
    match find_text(s, pattern) {
        Some(k) => {
            let len: usize = s.unicode_len();
            let rest: usize = k + pattern.unicode_len();
            assert(s@.take(k as int) =~= s@.subrange(0, k as int));
            assert(s@.skip(rest as int) =~= s@.subrange(rest as int, len as int));
            let mut out = s.substring_char(0, k).to_owned();
            out.append(by);
            out.append(replace_text(s.substring_char(rest, len), pattern, by).as_str());
            out
        },
        None => s.to_owned(),
    }
}

// ---- Columns ---------------------------------------------------------------------

/// A text filled up with spaces to at least `width` characters.
pub open spec fn column(s: Seq<char>, width: nat) -> Seq<char> {
    if s.len() < width {
        s + repeated(' ', (width - s.len()) as nat)
    } else {
        s
    }
}

/// A text filled up with spaces to at least `width` characters.
pub fn column_text(s: &str, width: usize) -> (out: String)
    ensures
        out@ == column(s@, width as nat),
{
    let len: usize = s.unicode_len();
    let mut out = s.to_owned();
    if len < width {
        out.append(repeat_char(' ', width - len).as_str());
    }
    out
}

// ---- What numerals promise ---------------------------------------------------------

/// A numeral is made of digits alone, has no leading zeros, and the digit in each place is the one
/// that belongs there: counted from the end, the `i`-th digit says how often the `i`-th power of ten
/// is in the number, beyond the next power.
pub proof fn law_decimal_digits(n: nat, i: int)
    requires
        0 <= i < decimal(n).len(),
    ensures
        decimal(n)[decimal(n).len() - 1 - i] as int == 48 + (n as int / power::pow(10, i as nat))
            % 10,
        is_digit(decimal(n)[decimal(n).len() - 1 - i]),
    decreases n,
{
    let p = power::pow(10, i as nat);
    power::lemma_pow_positive(10, i as nat);
    if i == 0 {
        power::lemma_pow0(10);
        assert(n as int / 1 == n);
        assert(decimal(n).last() == digit_char(n % 10));
    } else {
        let front = decimal(n / 10);
        assert(n >= 10);
        law_decimal_digits(n / 10, i - 1);
        power::lemma_pow_positive(10, (i - 1) as nat);
        reveal(power::pow);
        assert(p == 10 * power::pow(10, (i - 1) as nat));
        div_mod::lemma_div_denominator(n as int, 10, power::pow(10, (i - 1) as nat));
        assert(decimal(n)[decimal(n).len() - 1 - i] == front[front.len() - 1 - (i - 1)]);
    }
}

/// A numeral has as many digits as the number needs, and at least one.
pub proof fn law_decimal_length(n: nat)
    ensures
        decimal(n).len() > 0,
        n < power::pow(10, decimal(n).len()),
        decimal(n).len() > 1 ==> power::pow(10, (decimal(n).len() - 1) as nat) <= n,
    decreases n,
{
    reveal(power::pow);
    if n < 10 {
        power::lemma_pow1(10);
    } else {
        law_decimal_length(n / 10);
        let k = decimal(n / 10).len();
        assert(power::pow(10, (k + 1) as nat) == 10 * power::pow(10, k));
        if k > 1 {
            assert(power::pow(10, k) == 10 * power::pow(10, (k - 1) as nat));
        } else {
            power::lemma_pow1(10);
        }
    }
}

/// A numeral reads back as its number.
pub proof fn law_decimal_reads_back(n: nat)
    ensures
        forall|i: int| 0 <= i < decimal(n).len() ==> is_digit(#[trigger] decimal(n)[i]),
        digits_value(decimal(n)) == n,
        n <= usize::MAX ==> parsed_number(decimal(n)) == Some(n),
        n <= usize::MAX ==> parsed_number(seq!['+'] + decimal(n)) == Some(n),
    decreases n,
{
    law_decimal_length(n);
    assert forall|i: int| 0 <= i < decimal(n).len() implies is_digit(#[trigger] decimal(n)[i]) by {
        law_decimal_digits(n, decimal(n).len() - 1 - i);
    }
    let d = decimal(n);
    if n < 10 {
        assert(d.drop_last() =~= seq![]);
        assert(digits_value(d.drop_last()) == 0);
    } else {
        law_decimal_reads_back(n / 10);
        assert(d.drop_last() =~= decimal(n / 10));
    }
    assert(after_plus(d) == d) by {
        assert(is_digit(d[0]));
    }
    assert((seq!['+'] + d).skip(1) =~= d);
}

/// Different numbers have different numerals.
pub proof fn law_decimal_tells_apart(a: nat, b: nat)
    requires
        decimal(a) == decimal(b),
    ensures
        a == b,
{
    law_decimal_reads_back(a);
    law_decimal_reads_back(b);
}

/// A numeral stands for what its beginning stands for, moved up by the length of its end, and what
/// its end stands for; a digit alone stands for itself.
pub proof fn law_numerals_join(a: Seq<char>, b: Seq<char>, c: char)
    ensures
        digits_value(a + b) == digits_value(a) * power::pow(10, b.len()) + digits_value(b),
        is_digit(c) ==> digits_value(seq![c]) == c as int - 48,
    decreases b.len(),
{
    reveal(power::pow);
    assert(seq![c].drop_last() =~= seq![]);
    assert(digits_value(seq![c].drop_last()) == 0);
    if b.len() == 0 {
        assert(a + b =~= a);
        power::lemma_pow0(10);
        let v = digits_value(a) as int;
        assert(v * 1 == v);
    } else {
        let front = b.drop_last();
        law_numerals_join(a, front, c);
        assert((a + b).drop_last() =~= a + front);
        assert((a + b).last() == b.last());
        let (x, p) = (digits_value(a) as int, power::pow(10, front.len()));
        assert(power::pow(10, b.len()) == 10 * p);
        assert(10 * (x * p) == x * (10 * p)) by (nonlinear_arith);
    }
}

/// What reads as a number is digits behind at most one plus sign, and it reads as what the digits
/// stand for; whatever else is in a text, or where nothing is, it does not.
pub proof fn law_only_numerals_are_read(s: Seq<char>)
    ensures
        s.len() == 0 ==> parsed_number(s) is None,
        s == seq!['+'] ==> parsed_number(s) is None,
        (exists|i: int| 0 <= i < s.len() && !is_digit(#[trigger] s[i]) && (i > 0 || s[i] != '+'))
            ==> parsed_number(s) is None,
        s.len() > 0 && (forall|i: int| 0 <= i < s.len() ==> is_digit(#[trigger] s[i]))
            ==> parsed_number(s) == (if digits_value(s) <= usize::MAX {
            Some(digits_value(s))
        } else {
            None
        }),
{
    let digits = after_plus(s);
    if exists|i: int| 0 <= i < s.len() && !is_digit(#[trigger] s[i]) && (i > 0 || s[i] != '+') {
        let i = choose|i: int|
            0 <= i < s.len() && !is_digit(#[trigger] s[i]) && (i > 0 || s[i] != '+');
        let k = if s[0] == '+' {
            i - 1
        } else {
            i
        };
        assert(digits[k] == s[i]);
    }
}

/// A number that is filled up with zeros is as long as asked, or as long as it needs to be; it is
/// made of digits and reads as the number.
pub proof fn law_zero_filled(n: nat, width: nat)
    ensures
        zero_filled(n, width).len() == (if decimal(n).len() < width {
            width
        } else {
            decimal(n).len()
        }),
        forall|i: int|
            0 <= i < zero_filled(n, width).len() ==> is_digit(#[trigger] zero_filled(n, width)[i]),
        digits_value(zero_filled(n, width)) == n,
{
    law_decimal_reads_back(n);
    let d = decimal(n);
    if d.len() < width {
        let k = (width - d.len()) as nat;
        let filled = zero_filled(n, width);
        law_numerals_join(repeated('0', k), d, '0');
        lemma_zeros_value(k);
        let p = power::pow(10, d.len());
        assert(0 * p == 0);
        assert forall|i: int| 0 <= i < filled.len() implies is_digit(#[trigger] filled[i]) by {
            if i >= k {
                assert(filled[i] == d[i - k]);
            }
        }
    }
}

proof fn lemma_zeros_value(k: nat)
    ensures
        digits_value(repeated('0', k)) == 0,
    decreases k,
{
    if k > 0 {
        assert(repeated('0', k).drop_last() =~= repeated('0', (k - 1) as nat));
        lemma_zeros_value((k - 1) as nat);
    }
}

// ---- What trimming, replacing and columns promise --------------------------------------

proof fn lemma_trimmed_front(a: Seq<char>, t: Seq<char>)
    requires
        forall|i: int| 0 <= i < a.len() ==> white_space(#[trigger] a[i]),
        t.len() > 0 ==> !white_space(t[0]),
    ensures
        trimmed_front(a + t) == t,
    decreases a.len(),
{
    if a.len() == 0 {
        assert(a + t =~= t);
    } else {
        assert((a + t)[0] == a[0]);
        assert((a + t).drop_first() =~= a.drop_first() + t);
        lemma_trimmed_front(a.drop_first(), t);
    }
}

proof fn lemma_trimmed_back(t: Seq<char>, b: Seq<char>)
    requires
        forall|i: int| 0 <= i < b.len() ==> white_space(#[trigger] b[i]),
        t.len() > 0 ==> !white_space(t.last()),
    ensures
        trimmed_back(t + b) == t,
    decreases b.len(),
{
    if b.len() == 0 {
        assert(t + b =~= t);
    } else {
        assert((t + b).last() == b[b.len() - 1]);
        assert((t + b).drop_last() =~= t + b.drop_last());
        lemma_trimmed_back(t, b.drop_last());
    }
}

/// Trimming takes off the white space on both sides and nothing else: a text that neither begins
/// nor ends with white space comes out as it was, however much of it stands around.
pub proof fn law_trimming_takes_off_white_space(a: Seq<char>, t: Seq<char>, b: Seq<char>)
    requires
        forall|i: int| 0 <= i < a.len() ==> white_space(#[trigger] a[i]),
        forall|i: int| 0 <= i < b.len() ==> white_space(#[trigger] b[i]),
        t.len() > 0 ==> !white_space(t[0]) && !white_space(t.last()),
    ensures
        trimmed(a + t + b) == t,
        normalized(a + t + b) == lowercase(t),
{
    if t.len() == 0 {
        let all = a + t + b;
        assert forall|i: int| 0 <= i < all.len() implies white_space(#[trigger] all[i]) by {
            if i < a.len() {
                assert(all[i] == a[i]);
            } else {
                assert(all[i] == b[i - a.len()]);
            }
        }
        lemma_trimmed_front(all, t);
        assert(all + t =~= all);
        assert(trimmed_back(t) == t);
    } else {
        assert(a + t + b =~= a + (t + b));
        lemma_trimmed_front(a, t + b);
        lemma_trimmed_back(t, b);
    }
}

/// Replacing a character replaces each by each: what stands before and after is replaced on its own,
/// the character becomes the text, and any other character stays.
pub proof fn law_each_character_is_replaced(
    a: Seq<char>,
    b: Seq<char>,
    c: char,
    by: Seq<char>,
    d: char,
)
    ensures
        replaced(a + b, c, by) == replaced(a, c, by) + replaced(b, c, by),
        replaced(seq![c], c, by) == by,
        d != c ==> replaced(seq![d], c, by) == seq![d],
        replaced(seq![], c, by) == Seq::<char>::empty(),
    decreases b.len(),
{
    assert(seq![c].drop_last() =~= seq![]);
    assert(seq![d].drop_last() =~= seq![]);
    assert(replaced(seq![], c, by) =~= Seq::<char>::empty());
    assert(replaced(seq![c], c, by) =~= by);
    assert(d != c ==> replaced(seq![d], c, by) =~= seq![d]);
    if b.len() == 0 {
        assert(a + b =~= a);
        assert(replaced(a, c, by) + replaced(b, c, by) =~= replaced(a, c, by));
    } else {
        law_each_character_is_replaced(a, b.drop_last(), c, by, d);
        assert((a + b).drop_last() =~= a + b.drop_last());
        assert((a + b).last() == b.last());
        assert(replaced(a + b, c, by) =~= replaced(a, c, by) + replaced(b, c, by));
    }
}

/// Replacing a text replaces the first occurrence and goes on behind it; where it does not occur,
/// nothing changes.
pub proof fn law_each_occurrence_is_replaced(
    a: Seq<char>,
    pattern: Seq<char>,
    b: Seq<char>,
    by: Seq<char>,
)
    requires
        pattern.len() > 0,
        forall|j: int| 0 <= j < a.len() ==> !#[trigger] occurs_at(a + pattern + b, pattern, j),
    ensures
        replaced_text(a + pattern + b, pattern, by) == a + by + replaced_text(b, pattern, by),
        !occurs(b, pattern) ==> replaced_text(b, pattern, by) == b,
{
    let all = a + pattern + b;
    assert(all.subrange(a.len() as int, (a.len() + pattern.len()) as int) =~= pattern);
    lemma_first_is(all, pattern, a.len() as int);
    assert(all.take(a.len() as int) =~= a);
    assert(all.skip((a.len() + pattern.len()) as int) =~= b);
    lemma_first_from(b, pattern, 0);
}

/// The beginning of a text up to a character is all that stands before the first of it.
pub proof fn law_before_the_first(head: Seq<char>, c: char, rest: Seq<char>)
    requires
        forall|i: int| 0 <= i < head.len() ==> head[i] != c,
    ensures
        before(head + seq![c] + rest, c) == head,
        before(head, c) == head,
{
    let all = head + seq![c] + rest;
    lemma_before(all, c, head.len() as int);
    assert(all.take(head.len() as int) =~= head);
    lemma_before(head, c, head.len() as int);
    assert(head.take(head.len() as int) =~= head);
}

/// A column begins with its text, is at least as wide as asked, no wider than needed, and is spaces
/// behind the text.
pub proof fn law_columns_are_filled(s: Seq<char>, width: nat, i: int)
    ensures
        column(s, width).len() == (if s.len() < width {
            width
        } else {
            s.len()
        }),
        0 <= i < s.len() ==> column(s, width)[i] == s[i],
        s.len() <= i < column(s, width).len() ==> column(s, width)[i] == ' ',
{
}

/// What a text holds behind a prefix is what was put there.
pub proof fn law_prefix_comes_off(prefix: Seq<char>, rest: Seq<char>)
    ensures
        after_prefix(prefix + rest, prefix) == Some(rest),
{
    assert((prefix + rest).subrange(0, prefix.len() as int) =~= prefix);
    assert((prefix + rest).skip(prefix.len() as int) =~= rest);
}

/// The digits are the ten characters from zero to nine.
pub proof fn law_ten_digits(c: char)
    ensures
        is_digit(c) <==> 48 <= c as int <= 57,
{
}

/// Copies of a character are that character, as often as asked.
pub proof fn law_copies_of_a_character(c: char, n: nat, i: int)
    ensures
        repeated(c, n).len() == n,
        0 <= i < n ==> repeated(c, n)[i] == c,
{
}

/// A numeral of more than one digit does not begin with a zero.
pub proof fn law_no_leading_zeros(n: nat)
    ensures
        decimal(n).len() > 1 ==> decimal(n)[0] != '0',
    decreases n,
{
    if n >= 10 {
        law_no_leading_zeros(n / 10);
        law_decimal_length(n / 10);
        assert(decimal(n)[0] == decimal(n / 10)[0]);
        if decimal(n / 10).len() == 1 {
            law_decimal_length(n / 10);
            power::lemma_pow1(10);
            assert(n / 10 < 10);
        }
    }
}

/// A text occurs in another where it was put, wherever that is; and where it occurs, each of its
/// characters stands.
pub proof fn law_occurrences(a: Seq<char>, needle: Seq<char>, b: Seq<char>, hay: Seq<char>, i: int)
    ensures
        occurs_at(a + needle + b, needle, a.len() as int),
        occurs(a + needle + b, needle),
        occurs_at(hay, needle, i) ==> 0 <= i && i + needle.len() <= hay.len() && forall|j: int|
            0 <= j < needle.len() ==> (#[trigger] needle[j]) == hay[i + j],
{
    let all = a + needle + b;
    assert(all.subrange(a.len() as int, (a.len() + needle.len()) as int) =~= needle);
    assert(occurs_at(all, needle, a.len() as int));
    if occurs_at(hay, needle, i) {
        assert forall|j: int| 0 <= j < needle.len() implies (#[trigger] needle[j]) == hay[i + j] by {
            assert(hay.subrange(i, i + needle.len())[j] == needle[j]);
        }
    }
}

} // verus!
