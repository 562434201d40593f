//! Text on sequences of characters: white space, lines, words, separators and decimal numbers.
//!
//! A string is worked on as a slice of its characters. The spec functions say what each operation
//! gives on a `Seq<char>`, which is also the view of `str` and `String`.

use vstd::prelude::*;
use vstd::slice::slice_subrange;

verus! {

/// `String::push` of the standard library: the character is appended at the end.
pub assume_specification[ String::push ](string: &mut String, ch: char)
    ensures
        final(string)@ == old(string)@.push(ch),
;

/// The characters with the Unicode property `White_Space`.
pub open spec fn is_white_space(c: char) -> bool {
    let n = c as u32;
    ||| 0x09 <= n <= 0x0d
    ||| n == 0x20
    ||| n == 0x85
    ||| n == 0xa0
    ||| n == 0x1680
    ||| 0x2000 <= n <= 0x200a
    ||| n == 0x2028
    ||| n == 0x2029
    ||| n == 0x202f
    ||| n == 0x205f
    ||| n == 0x3000
}

/// The texts of the strings.
pub open spec fn strings(list: Seq<String>) -> Seq<Seq<char>> {
    list.map_values(|string: String| string@)
}

/// The index of the first `c` in `s`, or the length of `s` where there is none.
pub open spec fn position(s: Seq<char>, c: char) -> nat
    decreases s.len(),
{
    if s.len() == 0 || s[0] == c {
        0
    } else {
        1 + position(s.drop_first(), c)
    }
}

/// The index of the first white space in `s`, or the length of `s` where there is none.
pub open spec fn word_length(s: Seq<char>) -> nat
    decreases s.len(),
{
    if s.len() == 0 || is_white_space(s[0]) {
        0
    } else {
        1 + word_length(s.drop_first())
    }
}

/// `s` without the white space at its front.
pub open spec fn trimmed_start(s: Seq<char>) -> Seq<char>
    decreases s.len(),
{
    if s.len() > 0 && is_white_space(s[0]) {
        trimmed_start(s.drop_first())
    } else {
        s
    }
}

/// `s` without the white space at its end.
pub open spec fn trimmed_end(s: Seq<char>) -> Seq<char>
    decreases s.len(),
{
    if s.len() > 0 && is_white_space(s.last()) {
        trimmed_end(s.drop_last())
    } else {
        s
    }
}

/// `s` without the white space on either side.
pub open spec fn trimmed(s: Seq<char>) -> Seq<char> {
    trimmed_end(trimmed_start(s))
}

/// `s` without a carriage return at its end.
pub open spec fn without_cr(s: Seq<char>) -> Seq<char> {
    if s.len() > 0 && s.last() == '\r' {
        s.drop_last()
    } else {
        s
    }
}

/// The lines of `s`: each ends at a line feed, and a carriage return right before that line feed
/// belongs to the line ending. The last line needs no line ending.
pub open spec fn lines(s: Seq<char>) -> Seq<Seq<char>>
    decreases s.len(),
{
    let i = position(s, '\n') as int;
    if s.len() == 0 {
        seq![]
    } else if i < s.len() {
        seq![without_cr(s.take(i))] + lines(s.skip(i + 1))
    } else {
        seq![s]
    }
}

/// The words of `s`: the longest runs of characters that are not white space.
pub open spec fn words(s: Seq<char>) -> Seq<Seq<char>>
    decreases s.len(),
{
    let t = trimmed_start(s);
    let k = word_length(t) as int;
    if t.len() == 0 {
        seq![]
    } else {
        proof {
            lemma_trimmed_start_front(s);
            lemma_word_length_bounds(t);
        }
        seq![t.take(k)] + words(t.skip(k))
    }
}

/// Trimming the front leaves no white space there, and nothing longer than it was.
pub proof fn lemma_trimmed_start_front(s: Seq<char>)
    ensures
        trimmed_start(s).len() <= s.len(),
        trimmed_start(s).len() > 0 ==> !is_white_space(trimmed_start(s)[0]),
    decreases s.len(),
{
    if s.len() > 0 && is_white_space(s[0]) {
        lemma_trimmed_start_front(s.drop_first());
    }
}

/// A word is no longer than what it stands in, and not empty where no white space comes first.
pub proof fn lemma_word_length_bounds(s: Seq<char>)
    ensures
        word_length(s) <= s.len(),
        s.len() > 0 && !is_white_space(s[0]) ==> word_length(s) > 0,
    decreases s.len(),
{
    if s.len() > 0 && !is_white_space(s[0]) {
        lemma_word_length_bounds(s.drop_first());
    }
}

/// What stands before and after the first `c` of `s`, where there is one.
pub open spec fn cut_at(s: Seq<char>, c: char) -> Option<(Seq<char>, Seq<char>)> {
    let i = position(s, c) as int;
    if i < s.len() {
        Some((s.take(i), s.skip(i + 1)))
    } else {
        None
    }
}

/// The fields of `s` between the occurrences of `c`.
pub open spec fn fields(s: Seq<char>, c: char) -> Seq<Seq<char>>
    decreases s.len(),
{
    let i = position(s, c) as int;
    if i < s.len() {
        seq![s.take(i)] + fields(s.skip(i + 1), c)
    } else {
        seq![s]
    }
}

/// `c` in lower case if it is an ASCII letter, else `c` itself.
pub open spec fn ascii_lower(c: char) -> char {
    if 'A' <= c <= 'Z' {
        ((c as u32 + 32) as u32) as char
    } else {
        c
    }
}

/// Whether `a` and `b` are equal but for the case of ASCII letters.
pub open spec fn same_but_for_case(a: Seq<char>, b: Seq<char>) -> bool {
    &&& a.len() == b.len()
    &&& forall|i: int| 0 <= i < a.len() ==> ascii_lower(#[trigger] a[i]) == ascii_lower(b[i])
}

/// Whether `c` is one of the ten decimal digits.
pub open spec fn is_digit(c: char) -> bool {
    '0' <= c <= '9'
}

/// Whether every character of `s` is a decimal digit.
pub open spec fn all_digits(s: Seq<char>) -> bool {
    forall|i: int| 0 <= i < s.len() ==> is_digit(#[trigger] s[i])
}

/// The number that the digits of `s` write in base ten.
pub open spec fn digits_value(s: Seq<char>) -> nat
    decreases s.len(),
{
    if s.len() == 0 {
        0
    } else {
        digits_value(s.drop_last()) * 10 + (s.last() as u32 - '0' as u32) as nat
    }
}

/// The number that `s` writes: at least one digit and nothing else, but for one plus sign in front.
pub open spec fn number_value(s: Seq<char>) -> Option<nat> {
    let digits = if s.len() > 0 && s[0] == '+' {
        s.drop_first()
    } else {
        s
    };
    if digits.len() > 0 && all_digits(digits) {
        Some(digits_value(digits))
    } else {
        None
    }
}

/// `n` written in base ten, without leading zeros.
pub open spec fn decimal(n: nat) -> Seq<char>
    decreases n,
{
    let last = ('0' as u32 + n % 10) as char;
    if n < 10 {
        seq![last]
    } else {
        decimal(n / 10).push(last)
    }
}

/// Whether `needle` stands somewhere in `s`.
pub open spec fn contains_text(s: Seq<char>, needle: Seq<char>) -> bool {
    exists|i: int|
        0 <= i <= s.len() - needle.len() && #[trigger] s.subrange(i, i + needle.len()) == needle
}

pub proof fn lemma_position(s: Seq<char>, c: char, i: int)
    requires
        0 <= i <= s.len(),
        forall|j: int| 0 <= j < i ==> s[j] != c,
        i < s.len() ==> s[i] == c,
    ensures
        position(s, c) == i,
    decreases s.len(),
{
    if s.len() > 0 && s[0] != c {
        let t = s.drop_first();
        assert forall|j: int| 0 <= j < i - 1 implies t[j] != c by {
            assert(t[j] == s[j + 1]);
        }
        lemma_position(t, c, i - 1);
    }
}

/// The characters of `s`, one by one.
pub fn chars_of(s: &str) -> (v: Vec<char>)
    ensures
        v@ == s@,
{
    let mut v: Vec<char> = Vec::new();
    for c in it: s.chars()
        invariant
            it.seq() == s@,
            v@ == s@.take(it.index() as int),
    {
        proof {
            assert(s@.take(it.index() as int).push(c) =~= s@.take(it.index() as int + 1));
        }
        v.push(c);
    }
    proof {
        assert(s@.take(s@.len() as int) =~= s@);
    }
    v
}

/// The string made of the characters of `s`.
pub fn string_of(s: &[char]) -> (r: String)
    ensures
        r@ == s@,
{
    let mut r: String = String::new();
    let mut i: usize = 0;
    while i < s.len()
        invariant
            i <= s@.len(),
            r@ == s@.take(i as int),
        decreases s@.len() - i,
    {
        proof {
            assert(s@.take(i as int).push(s@[i as int]) =~= s@.take(i + 1));
        }
        r.push(s[i]);
        i = i + 1;
    }
    proof {
        assert(s@.take(i as int) =~= s@);
    }
    r
}

/// Appends the string at the end of the list.
pub fn push_text(list: &mut Vec<String>, item: &str)
    ensures
        strings(final(list)@) == strings(old(list)@).push(item@),
{
    list.push(item.to_string());
    proof {
        assert(strings(list@) =~= strings(old(list)@).push(item@));
    }
}

/// Appends the strings of `items` at the end of the list.
pub fn push_texts(list: &mut Vec<String>, items: &Vec<String>)
    ensures
        strings(final(list)@) == strings(old(list)@) + strings(items@),
{
    let ghost before = strings(list@);
    let mut i: usize = 0;
    proof {
        assert(before + strings(items@).take(0) =~= before);
    }
    while i < items.len()
        invariant
            i <= items@.len(),
            strings(list@) == before + strings(items@).take(i as int),
        decreases items@.len() - i,
    {
        push_text(list, items[i].as_str());
        proof {
            assert(strings(items@).take(i + 1) =~= strings(items@).take(i as int).push(
                items@[i as int]@,
            ));
            assert(strings(list@) =~= before + strings(items@).take(i + 1));
        }
        i = i + 1;
    }
    proof {
        assert(strings(items@).take(i as int) =~= strings(items@));
    }
}

/// Whether `c` is white space.
pub fn is_whitespace(c: char) -> (r: bool)
    ensures
        r == is_white_space(c),
{
    let n: u32 = c as u32;
    (0x09 <= n && n <= 0x0d) || n == 0x20 || n == 0x85 || n == 0xa0 || n == 0x1680
        || (0x2000 <= n && n <= 0x200a) || n == 0x2028 || n == 0x2029 || n == 0x202f || n == 0x205f
        || n == 0x3000
}

/// The index of the first `c`, or the length where there is none.
pub fn find_char(s: &[char], c: char) -> (r: usize)
    ensures
        r == position(s@, c),
        r <= s@.len(),
{
    let mut i: usize = 0;
    while i < s.len() && s[i] != c
        invariant
            i <= s@.len(),
            forall|j: int| 0 <= j < i ==> s@[j] != c,
        decreases s@.len() - i,
    {
        i = i + 1;
    }
    proof {
        lemma_position(s@, c, i as int);
    }
    i
}

pub proof fn lemma_word_length(s: Seq<char>, i: int)
    requires
        0 <= i <= s.len(),
        forall|j: int| 0 <= j < i ==> !is_white_space(#[trigger] s[j]),
        i < s.len() ==> is_white_space(s[i]),
    ensures
        word_length(s) == i,
    decreases s.len(),
{
    if s.len() > 0 && !is_white_space(s[0]) {
        let t = s.drop_first();
        assert forall|j: int| 0 <= j < i - 1 implies !is_white_space(#[trigger] t[j]) by {
            assert(t[j] == s[j + 1]);
        }
        lemma_word_length(t, i - 1);
    }
}

/// Dropping white space from the front changes nothing about what is left after trimming it.
proof fn lemma_trimmed_start(s: Seq<char>, i: int)
    requires
        0 <= i <= s.len(),
        forall|j: int| 0 <= j < i ==> is_white_space(#[trigger] s[j]),
        i < s.len() ==> !is_white_space(s[i]),
    ensures
        trimmed_start(s) == s.skip(i),
    decreases s.len(),
{
    if i == 0 {
        assert(s.skip(0) =~= s);
    } else {
        let t = s.drop_first();
        assert(is_white_space(s[0]));
        assert forall|j: int| 0 <= j < i - 1 implies is_white_space(#[trigger] t[j]) by {
            assert(t[j] == s[j + 1]);
        }
        lemma_trimmed_start(t, i - 1);
        assert(t.skip(i - 1) =~= s.skip(i));
    }
}

proof fn lemma_trimmed_end(s: Seq<char>, i: int)
    requires
        0 <= i <= s.len(),
        forall|j: int| i <= j < s.len() ==> is_white_space(#[trigger] s[j]),
        i > 0 ==> !is_white_space(s[i - 1]),
    ensures
        trimmed_end(s) == s.take(i),
    decreases s.len(),
{
    if i == s.len() {
        assert(s.take(i) =~= s);
    } else {
        let t = s.drop_last();
        assert(is_white_space(s[s.len() - 1]));
        lemma_trimmed_end(t, i);
        assert(t.take(i) =~= s.take(i));
    }
}

/// Without the white space at the front.
pub fn trim_start(s: &[char]) -> (r: &[char])
    ensures
        r@ == trimmed_start(s@),
        r@.len() <= s@.len(),
        r@.len() > 0 ==> !is_white_space(r@[0]),
{
    let mut i: usize = 0;
    while i < s.len() && is_whitespace(s[i])
        invariant
            i <= s@.len(),
            forall|j: int| 0 <= j < i ==> is_white_space(#[trigger] s@[j]),
        decreases s@.len() - i,
    {
        i = i + 1;
    }
    proof {
        lemma_trimmed_start(s@, i as int);
    }
    slice_subrange(s, i, s.len())
}

/// Without the white space on either side.
pub fn trim(s: &[char]) -> (r: &[char])
    ensures
        r@ == trimmed(s@),
{
    let t: &[char] = trim_start(s);
    let mut i: usize = t.len();
    while i > 0 && is_whitespace(t[i - 1])
        invariant
            i <= t@.len(),
            forall|j: int| i <= j < t@.len() ==> is_white_space(#[trigger] t@[j]),
        decreases i,
    {
        i = i - 1;
    }
    proof {
        lemma_trimmed_end(t@, i as int);
    }
    slice_subrange(t, 0, i)
}

/// The `n`th word, counted from zero, where there are that many.
pub fn word(s: &[char], n: usize) -> (r: Option<&[char]>)
    ensures
        r is Some <==> n < words(s@).len(),
        r is Some ==> r->0@ == words(s@)[n as int],
{
    let mut rest: &[char] = s;
    let mut passed: usize = 0;
    loop
        invariant
            passed <= n,
            words(rest@).len() + passed == words(s@).len(),
            forall|i: int|
                0 <= i < words(rest@).len() ==> #[trigger] words(rest@)[i] == words(s@)[i + passed],
        decreases rest@.len(),
    {
        let t: &[char] = trim_start(rest);
        if t.len() == 0 {
            return None;
        }
        let mut k: usize = 0;
        while k < t.len() && !is_whitespace(t[k])
            invariant
                k <= t@.len(),
                forall|j: int| 0 <= j < k ==> !is_white_space(#[trigger] t@[j]),
            decreases t@.len() - k,
        {
            k = k + 1;
        }
        proof {
            lemma_word_length(t@, k as int);
            lemma_word_length_bounds(t@);
            assert(words(rest@) == seq![t@.take(k as int)] + words(t@.skip(k as int)));
            assert(words(rest@)[0] == t@.take(k as int));
            assert forall|i: int| 0 <= i < words(t@.skip(k as int)).len() implies #[trigger] words(
                t@.skip(k as int),
            )[i] == words(s@)[i + passed + 1] by {
                assert(words(rest@)[i + 1] == words(t@.skip(k as int))[i]);
            }
        }
        if passed == n {
            return Some(slice_subrange(t, 0, k));
        }
        rest = slice_subrange(t, k, t.len());
        passed = passed + 1;
    }
}

/// Whether the two have the same characters.
pub fn same_chars(a: &[char], b: &[char]) -> (r: bool)
    ensures
        r == (a@ == b@),
{
    if a.len() != b.len() {
        return false;
    }
    let mut i: usize = 0;
    while i < a.len()
        invariant
            i <= a@.len(),
            a@.len() == b@.len(),
            forall|j: int| 0 <= j < i ==> a@[j] == b@[j],
        decreases a@.len() - i,
    {
        if a[i] != b[i] {
            return false;
        }
        i = i + 1;
    }
    proof {
        assert(a@ =~= b@);
    }
    true
}

/// The character in lower case if it is an ASCII letter.
pub fn to_ascii_lower(c: char) -> (r: char)
    ensures
        r == ascii_lower(c),
{
    if 'A' <= c && c <= 'Z' {
        (c as u8 + 32) as char
    } else {
        c
    }
}

/// Whether the two have the same characters but for the case of ASCII letters.
pub fn same_chars_but_for_case(a: &[char], b: &[char]) -> (r: bool)
    ensures
        r == same_but_for_case(a@, b@),
{
    if a.len() != b.len() {
        return false;
    }
    let mut i: usize = 0;
    while i < a.len()
        invariant
            i <= a@.len(),
            a@.len() == b@.len(),
            forall|j: int| 0 <= j < i ==> ascii_lower(#[trigger] a@[j]) == ascii_lower(b@[j]),
        decreases a@.len() - i,
    {
        if to_ascii_lower(a[i]) != to_ascii_lower(b[i]) {
            return false;
        }
        i = i + 1;
    }
    true
}

/// The number that the digits write, where they are digits and a `usize` can hold the number.
fn parse_digits(s: &[char]) -> (r: Option<usize>)
    ensures
        r is Some <==> all_digits(s@) && digits_value(s@) <= usize::MAX,
        r is Some ==> r->0 == digits_value(s@),
{
    let mut fits: bool = true;
    let mut value: usize = 0;
    let mut i: usize = 0;
    while i < s.len()
        invariant
            i <= s@.len(),
            forall|j: int| 0 <= j < i ==> is_digit(#[trigger] s@[j]),
            fits ==> value == digits_value(s@.take(i as int)),
            !fits ==> digits_value(s@.take(i as int)) > usize::MAX,
        decreases s@.len() - i,
    {
        let c: char = s[i];
        if !('0' <= c && c <= '9') {
            proof {
                assert(!is_digit(s@[i as int]));
            }
            return None;
        }
        let d: usize = (c as u32 - '0' as u32) as usize;
        proof {
            assert(s@.take(i + 1).drop_last() =~= s@.take(i as int));
            assert(s@.take(i + 1).last() == c);
        }
        if fits {
            if value <= (usize::MAX - d) / 10 {
                value = value * 10 + d;
            } else {
                fits = false;
            }
        }
        i = i + 1;
    }
    proof {
        assert(s@.take(i as int) =~= s@);
    }
    if fits {
        Some(value)
    } else {
        None
    }
}

/// The number that `s` writes, where it writes one that a `usize` can hold.
pub fn parse_number(s: &[char]) -> (r: Option<usize>)
    ensures
        r is Some <==> number_value(s@) is Some && number_value(s@)->0 <= usize::MAX,
        r is Some ==> r->0 == number_value(s@)->0,
{
    let signed: bool = s.len() > 0 && s[0] == '+';
    let digits: &[char] = if signed {
        slice_subrange(s, 1, s.len())
    } else {
        s
    };
    proof {
        if signed {
            assert(digits@ =~= s@.drop_first());
        }
    }
    if digits.len() == 0 {
        return None;
    }
    parse_digits(digits)
}

/// The number written in base ten.
pub fn to_decimal(n: u64) -> (r: String)
    ensures
        r@ == decimal(n as nat),
    decreases n,
{
    let last: char = (48u8 + (n % 10) as u8) as char;
    let mut r: String = if n < 10 {
        String::new()
    } else {
        to_decimal(n / 10)
    };
    r.push(last);
    proof {
        if n < 10 {
            assert(r@ =~= seq![last]);
        }
    }
    r
}

/// Whether `needle` stands somewhere in `s`.
pub fn has_text(s: &[char], needle: &[char]) -> (r: bool)
    ensures
        r == contains_text(s@, needle@),
{
    if needle.len() > s.len() {
        return false;
    }
    let all: usize = s.len();
    let last: usize = all - needle.len();
    let mut i: usize = 0;
    while i < last
        invariant
            all == s@.len(),
            last == all - needle@.len(),
            i <= last,
            forall|j: int|
                0 <= j < i ==> #[trigger] s@.subrange(j, j + needle@.len()) != needle@,
        decreases last - i,
    {
        if same_chars(slice_subrange(s, i, i + needle.len()), needle) {
            return true;
        }
        i = i + 1;
    }
    let found: bool = same_chars(slice_subrange(s, last, all), needle);
    proof {
        assert(s@.subrange(last as int, all as int) == s@.subrange(
            last as int,
            last + needle@.len(),
        ));
    }
    found
}

/// Every number is written with digits alone, and reading them gives the number back.
pub proof fn law_decimal_reads_back(n: nat)
    ensures
        decimal(n).len() > 0,
        all_digits(decimal(n)),
        digits_value(decimal(n)) == n,
        number_value(decimal(n)) == Some(n),
    decreases n,
{
    let last = ('0' as u32 + n % 10) as char;
    assert(is_digit(last));
    assert(last as u32 - '0' as u32 == n % 10);
    if n < 10 {
        assert(decimal(n).drop_last() =~= Seq::<char>::empty());
    } else {
        law_decimal_reads_back(n / 10);
        assert(decimal(n).drop_last() =~= decimal(n / 10));
    }
    assert(decimal(n).last() == last);
    assert(digits_value(decimal(n)) == digits_value(decimal(n).drop_last()) * 10 + n % 10);
    assert(decimal(n)[0] != '+') by {
        assert(is_digit(decimal(n)[0]));
    }
}

/// Whether a field between the occurrences of `c` has the characters of `wanted`.
pub fn has_field(s: &[char], c: char, wanted: &[char]) -> (r: bool)
    ensures
        r == fields(s@, c).contains(wanted@),
{
    let mut rest: &[char] = s;
    loop
        invariant
            fields(s@, c).contains(wanted@) == fields(rest@, c).contains(wanted@),
        decreases rest@.len(),
    {
        let i: usize = find_char(rest, c);
        if i == rest.len() {
            proof {
                assert(fields(rest@, c)[0] == rest@);
            }
            return same_chars(rest, wanted);
        }
        let head: &[char] = slice_subrange(rest, 0, i);
        let tail: &[char] = slice_subrange(rest, i + 1, rest.len());
        proof {
            let later = fields(tail@, c);
            let all = fields(rest@, c);
            assert(all == seq![head@] + later);
            assert(all[0] == head@);
            if later.contains(wanted@) {
                let j = later.index_of(wanted@);
                assert(all[j + 1] == wanted@);
            }
            if all.contains(wanted@) && head@ != wanted@ {
                let j = all.index_of(wanted@);
                assert(later[j - 1] == wanted@);
            }
        }
        if same_chars(head, wanted) {
            return true;
        }
        rest = tail;
    }
}

/// A text is cut at the first separator: what stands before it has none, and what stands behind it may have
/// more. A text without the separator is not cut.
pub proof fn law_text_is_cut_at_the_first_separator(a: Seq<char>, c: char, b: Seq<char>)
    requires
        !a.contains(c),
    ensures
        position(a + seq![c] + b, c) == a.len(),
        cut_at(a + seq![c] + b, c) == Some((a, b)),
        position(a, c) == a.len(),
        cut_at(a, c) is None,
{
    let all = a + seq![c] + b;
    let n = a.len() as int;
    assert forall|j: int| 0 <= j < n implies a[j] != c && all[j] != c by {
        assert(a.contains(a[j]));
        assert(all[j] == a[j]);
    }
    assert(all[n] == c);
    lemma_position(all, c, n);
    lemma_position(a, c, n);
    assert(all.take(n) =~= a);
    assert(all.skip(n + 1) =~= b);
}

/// The fields of a text are what stands between its separators: a text without one is a single field, and
/// what stands before the first one is the first field.
pub proof fn law_fields_stand_between_separators(a: Seq<char>, c: char, b: Seq<char>)
    requires
        !a.contains(c),
    ensures
        fields(a, c) == seq![a],
        fields(a + seq![c] + b, c) == seq![a] + fields(b, c),
{
    law_text_is_cut_at_the_first_separator(a, c, b);
    let all = a + seq![c] + b;
    assert(all.take(a.len() as int) =~= a);
    assert(all.skip(a.len() as int + 1) =~= b);
}

/// A line ends at a line feed, and a carriage return right before it is no part of the line. The last line
/// needs no ending.
pub proof fn law_lines_end_at_line_feeds(line: Seq<char>, rest: Seq<char>)
    requires
        !line.contains('\n'),
    ensures
        lines(line + seq!['\r', '\n'] + rest) == seq![line] + lines(rest),
        line.len() > 0 && line.last() == '\r' || lines(line + seq!['\n'] + rest) == seq![line] + lines(
            rest,
        ),
        line.len() > 0 ==> lines(line) == seq![line],
        lines(Seq::<char>::empty()).len() == 0,
{
    let n = line.len() as int;
    let fed = line + seq!['\n'] + rest;
    law_text_is_cut_at_the_first_separator(line, '\n', rest);
    assert(fed.take(n) =~= line);
    assert(fed.skip(n + 1) =~= rest);
    let ended = line.push('\r');
    assert(!ended.contains('\n')) by {
        if ended.contains('\n') {
            let k = ended.index_of('\n');
            assert(k < n);
            assert(line[k] == '\n');
        }
    }
    law_text_is_cut_at_the_first_separator(ended, '\n', rest);
    let both = line + seq!['\r', '\n'] + rest;
    assert(both =~= ended + seq!['\n'] + rest);
    assert(both.take(n + 1) =~= ended);
    assert(both.skip(n + 2) =~= rest);
    assert(ended.drop_last() =~= line);
}

/// Words are the runs without white space: white space in front is skipped, and a word ends at the next one
/// or at the end of the text.
pub proof fn law_words_stand_between_white_space(word: Seq<char>, space: char, rest: Seq<char>)
    requires
        word.len() > 0,
        forall|i: int| 0 <= i < word.len() ==> !is_white_space(#[trigger] word[i]),
        is_white_space(space),
    ensures
        words(Seq::<char>::empty()).len() == 0,
        words(word) == seq![word],
        words(seq![space] + rest) == words(rest),
        words(word + seq![space] + rest) == seq![word] + words(rest),
{
    let n = word.len() as int;
    assert(trimmed_start(word) == word);
    lemma_word_length(word, n);
    assert(word.take(n) =~= word);
    let none = Seq::<char>::empty();
    assert(word.skip(n) =~= none);
    assert(trimmed_start(none) == none);
    assert(words(none) =~= Seq::<Seq<char>>::empty());
    assert(words(word) =~= seq![word]);
    let spaced = seq![space] + rest;
    assert(spaced.drop_first() =~= rest);
    assert(trimmed_start(spaced) == trimmed_start(rest));
    let all = word + seq![space] + rest;
    assert(all[0] == word[0]);
    assert forall|j: int| 0 <= j < n implies !is_white_space(#[trigger] all[j]) by {
        assert(all[j] == word[j]);
    }
    assert(all[n] == space);
    lemma_word_length(all, n);
    assert(all.take(n) =~= word);
    assert(all.skip(n) =~= spaced);
}

/// Trimming takes away the white space on both sides and nothing else.
pub proof fn law_trimming_takes_the_white_space_around(before: Seq<char>, s: Seq<char>, after: Seq<char>)
    requires
        forall|i: int| 0 <= i < before.len() ==> is_white_space(#[trigger] before[i]),
        forall|i: int| 0 <= i < after.len() ==> is_white_space(#[trigger] after[i]),
        s.len() > 0 ==> !is_white_space(s[0]) && !is_white_space(s.last()),
    ensures
        trimmed(before + s + after) == s,
    decreases before.len() + after.len(),
{
    let all = before + s + after;
    if before.len() > 0 {
        let rest = before.drop_first();
        assert forall|i: int| 0 <= i < rest.len() implies is_white_space(#[trigger] rest[i]) by {
            assert(rest[i] == before[i + 1]);
        }
        law_trimming_takes_the_white_space_around(rest, s, after);
        assert(all[0] == before[0]);
        assert(all.drop_first() =~= rest + s + after);
        assert(trimmed_start(all) == trimmed_start(rest + s + after));
    } else if s.len() == 0 {
        if after.len() > 0 {
            let rest = after.drop_first();
            assert forall|i: int| 0 <= i < rest.len() implies is_white_space(#[trigger] rest[i]) by {
                assert(rest[i] == after[i + 1]);
            }
            law_trimming_takes_the_white_space_around(before, s, rest);
            assert(all[0] == after[0]);
            assert(all.drop_first() =~= before + s + rest);
            assert(trimmed_start(all) == trimmed_start(before + s + rest));
        } else {
            assert(all =~= s);
        }
    } else {
        assert(all =~= s + after);
        assert(all[0] == s[0]);
        assert(trimmed_start(all) == all);
        lemma_trimmed_at_end(s, after);
    }
}

proof fn lemma_trimmed_at_end(s: Seq<char>, after: Seq<char>)
    requires
        s.len() > 0,
        !is_white_space(s.last()),
        forall|i: int| 0 <= i < after.len() ==> is_white_space(#[trigger] after[i]),
    ensures
        trimmed_end(s + after) == s,
    decreases after.len(),
{
    let all = s + after;
    if after.len() > 0 {
        let rest = after.drop_last();
        assert forall|i: int| 0 <= i < rest.len() implies is_white_space(#[trigger] rest[i]) by {
            assert(rest[i] == after[i]);
        }
        lemma_trimmed_at_end(s, rest);
        assert(all.last() == after[after.len() - 1]);
        assert(all.drop_last() =~= s + rest);
    } else {
        assert(all =~= s);
    }
}

/// Two texts are the same but for case exactly where they are as long as each other and every two characters
/// in the same place are equal, or an upper-case and a lower-case form of one ASCII letter.
pub proof fn law_case_is_all_that_may_differ(a: Seq<char>, b: Seq<char>)
    ensures
        same_but_for_case(a, b) <==> a.len() == b.len() && forall|i: int|
            0 <= i < a.len() ==> #[trigger] a[i] == b[i] || ('A' <= a[i] <= 'Z' && b[i] as u32
                == a[i] as u32 + 32) || ('A' <= b[i] <= 'Z' && a[i] as u32 == b[i] as u32 + 32),
{
    assert forall|c: char, d: char| (ascii_lower(c) == ascii_lower(d)) <==> (c == d || ('A' <= c <= 'Z'
        && d as u32 == c as u32 + 32) || ('A' <= d <= 'Z' && c as u32 == d as u32 + 32)) by {
        lemma_ascii_lower(c);
        lemma_ascii_lower(d);
    }
    if same_but_for_case(a, b) {
        assert forall|i: int| 0 <= i < a.len() implies #[trigger] a[i] == b[i] || ('A' <= a[i] <= 'Z'
            && b[i] as u32 == a[i] as u32 + 32) || ('A' <= b[i] <= 'Z' && a[i] as u32 == b[i] as u32
            + 32) by {
            assert(ascii_lower(a[i]) == ascii_lower(b[i]));
        }
    } else if a.len() == b.len() {
        let i = choose|i: int|
            0 <= i < a.len() && ascii_lower(#[trigger] a[i]) != ascii_lower(b[i]);
        assert(a[i] != b[i]);
    }
}

proof fn lemma_ascii_lower(c: char)
    ensures
        'A' <= c <= 'Z' ==> ascii_lower(c) as u32 == c as u32 + 32,
        !('A' <= c <= 'Z') ==> ascii_lower(c) == c,
{
}

/// A number is read digit by digit, from the left, and a plus sign in front changes nothing.
pub proof fn law_numbers_are_read_in_base_ten(s: Seq<char>, d: char)
    requires
        s.len() > 0,
        forall|i: int| 0 <= i < s.len() ==> '0' <= #[trigger] s[i] <= '9',
        '0' <= d <= '9',
    ensures
        number_value(seq![d]) == Some((d as u32 - 48) as nat),
        number_value(s) is Some,
        number_value(s.push(d)) == Some((10 * number_value(s)->0 + (d as u32 - 48)) as nat),
        number_value(seq!['+'] + s) == number_value(s),
{
    let one = seq![d];
    assert(one.drop_last() =~= Seq::<char>::empty());
    assert(digits_value(one.drop_last()) == 0);
    assert(all_digits(one));
    assert(one[0] != '+');
    assert(s[0] != '+') by {
        assert('0' <= s[0]);
    }
    assert(all_digits(s));
    let more = s.push(d);
    assert(more[0] == s[0]);
    assert(all_digits(more)) by {
        assert forall|i: int| 0 <= i < more.len() implies is_digit(#[trigger] more[i]) by {
            if i < s.len() {
                assert(more[i] == s[i]);
            }
        }
    }
    assert(more.drop_last() =~= s);
    assert((seq!['+'] + s).drop_first() =~= s);
}

/// Nothing but digits, with one plus sign in front at most, is a number.
pub proof fn law_anything_else_is_no_number(s: Seq<char>, i: int)
    ensures
        0 < i < s.len() && !('0' <= s[i] <= '9') ==> number_value(s) is None,
        s.len() > 0 && s[0] != '+' && !('0' <= s[0] <= '9') ==> number_value(s) is None,
        s.len() == 0 ==> number_value(s) is None,
        s.len() == 1 && s[0] == '+' ==> number_value(s) is None,
{
    if 0 < i < s.len() && !('0' <= s[i] <= '9') {
        assert(!is_digit(s[i]));
        if s[0] == '+' {
            assert(s.drop_first()[i - 1] == s[i]);
        }
    }
    if s.len() > 0 {
        assert(is_digit(s[0]) <==> '0' <= s[0] <= '9');
    }
}

/// A number is written digit by digit: the digits of its tenth part, and its last digit behind them.
pub proof fn law_numbers_are_written_in_base_ten(n: nat, d: nat)
    requires
        d < 10,
    ensures
        decimal(d).len() == 1,
        decimal(d)[0] as u32 == 48 + d,
        n > 0 ==> decimal(10 * n + d) == decimal(n) + decimal(d),
{
    assert((10 * n + d) / 10 == n);
    assert((10 * n + d) % 10 == d);
    if n > 0 {
        assert(decimal(10 * n + d) =~= decimal(n) + decimal(d));
    }
}

/// A text contains another exactly where it is that other with something before it and something behind it.
pub proof fn law_contained_text_stands_somewhere(before: Seq<char>, needle: Seq<char>, after: Seq<char>)
    ensures
        contains_text(before + needle + after, needle),
        forall|s: Seq<char>| #[trigger]
            contains_text(s, needle) ==> exists|i: int|
                0 <= i <= s.len() - needle.len() && s == #[trigger] s.take(i) + needle + s.skip(
                    i + needle.len(),
                ),
{
    let all = before + needle + after;
    let n = before.len() as int;
    assert(all.subrange(n, n + needle.len()) =~= needle);
    assert forall|s: Seq<char>| #[trigger] contains_text(s, needle) implies exists|i: int|
        0 <= i <= s.len() - needle.len() && s == #[trigger] s.take(i) + needle + s.skip(
            i + needle.len(),
        ) by {
        let i = choose|i: int|
            0 <= i <= s.len() - needle.len() && #[trigger] s.subrange(i, i + needle.len()) == needle;
        assert(s =~= s.take(i) + s.subrange(i, i + needle.len()) + s.skip(i + needle.len()));
    }
}

/// The texts of strings are the texts of each of them, in their order.
pub proof fn law_texts_of_strings(list: Seq<String>, i: int)
    requires
        0 <= i < list.len(),
    ensures
        strings(list).len() == list.len(),
        strings(list)[i] == list[i]@,
{
}

} // verus!
