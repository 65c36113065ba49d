//! Text on characters: decimal numbers, prefixes and white space.
use vstd::prelude::*;

verus! {

/// `String::push` appends one character.
pub assume_specification[ String::push ](s: &mut String, c: char)
    ensures
        final(s)@ == old(s)@.push(c),
;

/// The value of a decimal digit.
pub open spec fn digit_value(c: char) -> nat {
    (c as u32 - '0' as u32) as nat
}

pub open spec fn is_digit(c: char) -> bool {
    '0' <= c && c <= '9'
}

pub open spec fn all_digits(s: Seq<char>) -> bool {
    forall|i: int| 0 <= i < s.len() ==> is_digit(#[trigger] s[i])
}

/// The number that decimal digits stand for.
pub open spec fn decimal_value(s: Seq<char>) -> nat
    decreases s.len(),
{
    if s.len() == 0 {
        0
    } else {
        decimal_value(s.drop_last()) * 10 + digit_value(s.last())
    }
}

pub open spec fn digit_char(d: nat) -> char {
    ('0' as u32 + d) as char
}

/// The decimal digits of `n` without leading zeros.
pub open spec fn decimal_text(n: nat) -> Seq<char>
    decreases n,
{
    if n < 10 {
        seq![digit_char(n)]
    } else {
        decimal_text(n / 10).push(digit_char(n % 10))
    }
}

/// The value of a nonempty run of digits.
pub open spec fn digits_value(s: Seq<char>) -> Option<nat> {
    if s.len() > 0 && all_digits(s) {
        Some(decimal_value(s))
    } else {
        None
    }
}

pub open spec fn without_plus(s: Seq<char>) -> Seq<char> {
    if s.len() > 0 && s[0] == '+' {
        s.skip(1)
    } else {
        s
    }
}

/// The `u64` that a text denotes: digits behind an optional plus sign.
pub open spec fn u64_of_text(s: Seq<char>) -> Option<u64> {
    match digits_value(without_plus(s)) {
        Some(n) => if n <= u64::MAX {
            Some(n as u64)
        } else {
            None
        },
        None => None,
    }
}

/// The `i64` that a text denotes: digits behind an optional sign.
pub open spec fn i64_of_text(s: Seq<char>) -> Option<i64> {
    if s.len() > 0 && s[0] == '-' {
        match digits_value(s.skip(1)) {
            Some(n) => if n <= 0x8000_0000_0000_0000 {
                Some((-n) as i64)
            } else {
                None
            },
            None => None,
        }
    } else {
        match digits_value(without_plus(s)) {
            Some(n) => if n <= i64::MAX {
                Some(n as i64)
            } else {
                None
            },
            None => None,
        }
    }
}

/// The decimal form of a number is a run of digits with that value.
pub proof fn lemma_decimal_text(n: nat)
    ensures
        decimal_text(n).len() > 0,
        all_digits(decimal_text(n)),
        decimal_value(decimal_text(n)) == n,
        n > 0 ==> decimal_text(n)[0] != '0',
    decreases n,
{
    reveal_with_fuel(decimal_value, 2);
    if n < 10 {
        assert(decimal_text(n).drop_last() =~= Seq::<char>::empty());
    } else {
        lemma_decimal_text(n / 10);
        assert(decimal_text(n).drop_last() =~= decimal_text(n / 10));
        assert(decimal_text(n)[0] == decimal_text(n / 10)[0]);
        assert forall|i: int| 0 <= i < decimal_text(n).len() implies is_digit(
            #[trigger] decimal_text(n)[i],
        ) by {
            if i < decimal_text(n / 10).len() {
                assert(decimal_text(n)[i] == decimal_text(n / 10)[i]);
            }
        }
    }
}

/// Reading back the decimal form of a `u64` gives the number.
pub proof fn u64_text_roundtrip(n: u64)
    ensures
        u64_of_text(decimal_text(n as nat)) == Some(n),
{
    lemma_decimal_text(n as nat);
    assert(is_digit(decimal_text(n as nat)[0]));
}

proof fn lemma_decimal_value_prefix(s: Seq<char>, i: int)
    requires
        0 <= i <= s.len(),
    ensures
        decimal_value(s.take(i)) <= decimal_value(s),
    decreases s.len() - i,
{
    if i < s.len() {
        lemma_decimal_value_prefix(s, i + 1);
        assert(s.take(i + 1).drop_last() =~= s.take(i));
    } else {
        assert(s.take(i) =~= s);
    }
}

/// The characters of a text.
pub fn chars_of(s: &str) -> (out: Vec<char>)
    ensures
        out@ == s@,
{
    let n: usize = s.unicode_len();
    let mut out: Vec<char> = Vec::new();
    let mut i: usize = 0;
    while i < n
        invariant
            n == s@.len(),
            i <= n,
            out@ == s@.take(i as int),
        decreases n - i,
    {
        out.push(s.get_char(i));
        assert(s@.take(i + 1) =~= s@.take(i as int).push(s@[i as int]));
        i = i + 1;
    }
    assert(s@.take(n as int) =~= s@);
    out
}

/// The text of some characters.
pub fn text_of(chars: &[char]) -> (out: String)
    ensures
        out@ == chars@,
{
    let mut out: String = String::new();
    let mut i: usize = 0;
    assert(chars@.take(0) =~= Seq::<char>::empty());
    while i < chars.len()
        invariant
            i <= chars@.len(),
            out@ == chars@.take(i as int),
        decreases chars@.len() - i,
    {
        out.push(chars[i]);
        assert(chars@.take(i + 1) =~= chars@.take(i as int).push(chars@[i as int]));
        i = i + 1;
    }
    assert(chars@.take(chars@.len() as int) =~= chars@);
    out
}

/// The value of the digits from `start` on, if it is at most `limit`.
pub(crate) fn digits_up_to(chars: &[char], start: usize, limit: u128) -> (r: Option<u128>)
    requires
        start <= chars@.len(),
        limit <= 0x1_0000_0000_0000_0000,
    ensures
        match digits_value(chars@.skip(start as int)) {
            Some(n) => if n <= limit {
                r == Some(n as u128)
            } else {
                r is None
            },
            None => r is None,
        },
{
    let ghost digits = chars@.skip(start as int);
    if start == chars.len() {
        return None;
    }
    let mut value: u128 = 0;
    let mut i: usize = start;
    assert(digits.take(0) =~= Seq::<char>::empty());
    while i < chars.len()
        invariant
            start <= i <= chars@.len(),
            start < chars@.len(),
            digits == chars@.skip(start as int),
            value <= limit,
            limit <= 0x1_0000_0000_0000_0000,
            value == decimal_value(digits.take(i - start)),
            all_digits(digits.take(i - start)),
        decreases chars@.len() - i,
    {
        let c: char = chars[i];
        proof {
            assert(digits[i - start] == c);
            assert(digits.take(i - start + 1).drop_last() =~= digits.take(i - start));
            assert(digits.take(i - start + 1).last() == c);
        }
        if !('0' <= c && c <= '9') {
            return None;
        }
        value = value * 10 + (c as u32 - '0' as u32) as u128;
        proof {
            assert(value == decimal_value(digits.take(i - start + 1)));
            assert forall|j: int| 0 <= j < digits.take(i - start + 1).len() implies is_digit(
                #[trigger] digits.take(i - start + 1)[j],
            ) by {
                if j < i - start {
                    assert(digits.take(i - start)[j] == digits.take(i - start + 1)[j]);
                }
            }
        }
        if value > limit {
            proof {
                lemma_decimal_value_prefix(digits, i - start + 1);
            }
            return None;
        }
        i = i + 1;
    }
    assert(digits.take(i - start) =~= digits);
    Some(value)
}

/// Parses a `u64` in decimal.
pub fn parse_u64(s: &str) -> (r: Option<u64>)
    ensures
        r == u64_of_text(s@),
{
    let chars: Vec<char> = chars_of(s);
    let start: usize = if chars.len() > 0 && chars[0] == '+' {
        1
    } else {
        0
    };
    assert(chars@.skip(0) =~= chars@);
    match digits_up_to(chars.as_slice(), start, u64::MAX as u128) {
        Some(n) => Some(n as u64),
        None => None,
    }
}

/// Parses an `i64` in decimal.
pub fn parse_i64(s: &str) -> (r: Option<i64>)
    ensures
        r == i64_of_text(s@),
{
    let chars: Vec<char> = chars_of(s);
    assert(chars@.skip(0) =~= chars@);
    if chars.len() > 0 && chars[0] == '-' {
        match digits_up_to(chars.as_slice(), 1, 0x8000_0000_0000_0000) {
            Some(n) => Some((-(n as i128)) as i64),
            None => None,
        }
    } else {
        let start: usize = if chars.len() > 0 && chars[0] == '+' {
            1
        } else {
            0
        };
        match digits_up_to(chars.as_slice(), start, i64::MAX as u128) {
            Some(n) => Some(n as i64),
            None => None,
        }
    }
}

/// Appends the decimal form of `n`.
pub fn push_decimal(out: &mut String, n: u64)
    ensures
        final(out)@ == old(out)@ + decimal_text(n as nat),
    decreases n,
{
    if n >= 10 {
        push_decimal(out, n / 10);
    }
    let d: u8 = (n % 10) as u8;
    let c: char = (48u8 + d) as char;
    out.push(c);
    assert(final(out)@ =~= old(out)@ + decimal_text(n as nat));
}

/// The decimal form of a `u64`.
pub fn format_u64(n: u64) -> (out: String)
    ensures
        out@ == decimal_text(n as nat),
{
    let mut out: String = String::new();
    push_decimal(&mut out, n);
    assert(Seq::<char>::empty() + decimal_text(n as nat) =~= decimal_text(n as nat));
    out
}

/// Unicode white space.
pub open spec fn is_white(c: char) -> bool {
    let u = c as u32;
    ||| 0x9 <= u <= 0xd
    ||| u == 0x20
    ||| u == 0x85
    ||| u == 0xa0
    ||| u == 0x1680
    ||| 0x2000 <= u <= 0x200a
    ||| u == 0x2028
    ||| u == 0x2029
    ||| u == 0x202f
    ||| u == 0x205f
    ||| u == 0x3000
}

/// `s` without the white space at its start.
pub open spec fn trim_start_of(s: Seq<char>) -> Seq<char>
    decreases s.len(),
{
    if s.len() > 0 && is_white(s[0]) {
        trim_start_of(s.skip(1))
    } else {
        s
    }
}

/// `s` without the white space at its end.
pub open spec fn trim_end_of(s: Seq<char>) -> Seq<char>
    decreases s.len(),
{
    if s.len() > 0 && is_white(s.last()) {
        trim_end_of(s.drop_last())
    } else {
        s
    }
}

/// `s` without the white space around it.
pub open spec fn trim_of(s: Seq<char>) -> Seq<char> {
    trim_end_of(trim_start_of(s))
}

/// `s` without any number of copies of `prefix` at its start.
pub open spec fn strip_all(s: Seq<char>, prefix: Seq<char>) -> Seq<char>
    decreases s.len(),
{
    if prefix.len() > 0 && prefix.is_prefix_of(s) {
        strip_all(s.skip(prefix.len() as int), prefix)
    } else {
        s
    }
}

fn is_white_space(c: char) -> (r: bool)
    ensures
        r == is_white(c),
{
    let u: u32 = c as u32;
    (0x9 <= u && u <= 0xd) || u == 0x20 || u == 0x85 || u == 0xa0 || u == 0x1680 || (0x2000 <= u
        && u <= 0x200a) || u == 0x2028 || u == 0x2029 || u == 0x202f || u == 0x205f || u == 0x3000
}

/// Removes white space from both ends.
pub fn trim(s: &str) -> (out: &str)
    ensures
        out@ == trim_of(s@),
{
    let mut start: usize = 0;
    let mut end: usize = s.unicode_len();
    assert(s@.subrange(0, s@.len() as int) =~= s@);
    while start < end && is_white_space(s.get_char(start))
        invariant
            start <= end == s@.len(),
            trim_start_of(s@.subrange(start as int, end as int)) == trim_start_of(s@),
        ensures
            start <= end == s@.len(),
            s@.subrange(start as int, end as int) == trim_start_of(s@),
        decreases end - start,
    {
        assert(s@.subrange(start as int, end as int).skip(1) =~= s@.subrange(
            start + 1,
            end as int,
        ));
        start = start + 1;
    }
    while start < end && is_white_space(s.get_char(end - 1))
        invariant
            start <= end <= s@.len(),
            trim_end_of(s@.subrange(start as int, end as int)) == trim_of(s@),
        ensures
            start <= end <= s@.len(),
            s@.subrange(start as int, end as int) == trim_of(s@),
        decreases end - start,
    {
        assert(s@.subrange(start as int, end as int).drop_last() =~= s@.subrange(
            start as int,
            end - 1,
        ));
        end = end - 1;
    }
    s.substring_char(start, end)
}

/// Whether `prefix` stands in `s` at character `at`.
fn stands_at(s: &str, at: usize, prefix: &str) -> (r: bool)
    requires
        at <= s@.len(),
    ensures
        r == prefix@.is_prefix_of(s@.skip(at as int)),
{
    let n: usize = s.unicode_len();
    let k: usize = prefix.unicode_len();
    let ghost tail = s@.skip(at as int);
    if n - at < k {
        return false;
    }
    let mut i: usize = 0;
    while i < k
        invariant
            n == s@.len(),
            k == prefix@.len(),
            at + k <= n,
            i <= k,
            tail == s@.skip(at as int),
            forall|j: int| 0 <= j < i ==> tail[j] == #[trigger] prefix@[j],
        decreases k - i,
    {
        if s.get_char(at + i) != prefix.get_char(i) {
            assert(tail.subrange(0, k as int)[i as int] != prefix@[i as int]);
            return false;
        }
        i = i + 1;
    }
    assert(prefix@ =~= tail.subrange(0, k as int));
    true
}

/// Whether `s` starts with `prefix`.
pub fn starts_with(s: &str, prefix: &str) -> (r: bool)
    ensures
        r == prefix@.is_prefix_of(s@),
{
    assert(s@.skip(0) =~= s@);
    stands_at(s, 0, prefix)
}

/// Whether two texts are the same.
pub fn same_text(a: &str, b: &str) -> (r: bool)
    ensures
        r == (a@ == b@),
{
    if a.unicode_len() != b.unicode_len() {
        return false;
    }
    assert(a@.subrange(0, a@.len() as int) =~= a@);
    starts_with(a, b)
}

/// `s` without `prefix` at its start, where it stands there.
pub fn strip_prefix<'a>(s: &'a str, prefix: &str) -> (r: Option<&'a str>)
    ensures
        match r {
            Some(out) => prefix@.is_prefix_of(s@) && out@ == s@.skip(prefix@.len() as int),
            None => !prefix@.is_prefix_of(s@),
        },
{
    if starts_with(s, prefix) {
        let out: &str = s.substring_char(prefix.unicode_len(), s.unicode_len());
        assert(out@ =~= s@.skip(prefix@.len() as int));
        Some(out)
    } else {
        None
    }
}

/// Removes every copy of `prefix` from the start of `s`.
pub fn trim_start_matches<'a>(s: &'a str, prefix: &str) -> (out: &'a str)
    ensures
        out@ == strip_all(s@, prefix@),
{
    let n: usize = s.unicode_len();
    let k: usize = prefix.unicode_len();
    if k == 0 {
        return s;
    }
    let mut at: usize = 0;
    assert(s@.skip(0) =~= s@);
    while stands_at(s, at, prefix)
        invariant
            n == s@.len(),
            k == prefix@.len(),
            k > 0,
            at <= n,
            strip_all(s@.skip(at as int), prefix@) == strip_all(s@, prefix@),
        decreases n - at,
    {
        assert(s@.skip(at as int).skip(k as int) =~= s@.skip(at + k));
        at = at + k;
    }
    assert(s@.subrange(at as int, n as int) =~= s@.skip(at as int));
    s.substring_char(at, n)
}

/// The decimal form of a whole number: digits, behind a minus sign where the
/// number is negative.
pub open spec fn number_text(n: int) -> Seq<char> {
    if n < 0 {
        seq!['-'] + decimal_text((-n) as nat)
    } else {
        decimal_text(n as nat)
    }
}

/// Decimal digits stand one behind the other, the last one for the ones: a
/// number below ten is the character that many places behind `0`, and ten times
/// a number plus a digit is the text of the number with that digit behind it.
pub proof fn decimal_digits_stand_in_order(n: nat, d: nat)
    requires
        d < 10,
    ensures
        decimal_text(d).len() == 1,
        decimal_text(d)[0] as u32 == 48 + d,
        n > 0 ==> decimal_text(n * 10 + d) == decimal_text(n) + decimal_text(d),
        decimal_text(n).len() > 0,
{
    lemma_decimal_text(n);
    if n > 0 {
        assert((n * 10 + d) / 10 == n && (n * 10 + d) % 10 == d);
        assert(decimal_text(n * 10 + d) =~= decimal_text(n) + decimal_text(d));
    }
}

pub(crate) proof fn lemma_zeros(zeros: nat, s: Seq<char>)
    requires
        s.len() > 0,
        all_digits(s),
    ensures
        all_digits(Seq::new(zeros, |i: int| '0') + s),
        decimal_value(Seq::new(zeros, |i: int| '0') + s) == decimal_value(s),
    decreases s.len(),
{
    let padded = Seq::new(zeros, |i: int| '0') + s;
    assert forall|i: int| 0 <= i < padded.len() implies is_digit(#[trigger] padded[i]) by {
        if i >= zeros {
            assert(padded[i] == s[i - zeros]);
        }
    }
    assert(padded.drop_last() =~= Seq::new(zeros, |i: int| '0') + s.drop_last());
    assert(padded.last() == s.last());
    if s.len() == 1 {
        lemma_only_zeros(zeros);
        assert(s.drop_last() =~= Seq::empty());
        assert(padded.drop_last() =~= Seq::new(zeros, |i: int| '0'));
        assert(decimal_value(s.drop_last()) == 0);
    } else {
        assert forall|i: int| 0 <= i < s.drop_last().len() implies is_digit(
            #[trigger] s.drop_last()[i],
        ) by {
            assert(s.drop_last()[i] == s[i]);
        }
        lemma_zeros(zeros, s.drop_last());
    }
}

proof fn lemma_only_zeros(zeros: nat)
    ensures
        decimal_value(Seq::new(zeros, |i: int| '0')) == 0,
    decreases zeros,
{
    let s = Seq::new(zeros, |i: int| '0');
    if zeros > 0 {
        lemma_only_zeros((zeros - 1) as nat);
        assert(s.drop_last() =~= Seq::new((zeros - 1) as nat, |i: int| '0'));
    }
}

/// The decimal form of a number reads back as the number if and only if it
/// fits; a plus sign in front of it and zeros in front of its digits do not
/// matter.
pub proof fn numbers_read_back(n: nat, zeros: nat)
    ensures
        ({
            let digits = Seq::new(zeros, |i: int| '0') + decimal_text(n);
            let unsigned = if n <= u64::MAX {
                Some(n as u64)
            } else {
                None
            };
            let positive = if n <= i64::MAX {
                Some(n as i64)
            } else {
                None
            };
            let negative = if n <= 0x8000_0000_0000_0000 {
                Some((-n) as i64)
            } else {
                None
            };
            &&& u64_of_text(digits) == unsigned
            &&& u64_of_text(seq!['+'] + digits) == unsigned
            &&& i64_of_text(digits) == positive
            &&& i64_of_text(seq!['+'] + digits) == positive
            &&& i64_of_text(seq!['-'] + digits) == negative
        }),
{
    lemma_decimal_text(n);
    lemma_zeros(zeros, decimal_text(n));
    let digits = Seq::new(zeros, |i: int| '0') + decimal_text(n);
    assert(is_digit(digits[0]));
    assert((seq!['+'] + digits).skip(1) =~= digits);
    assert((seq!['-'] + digits).skip(1) =~= digits);
}

/// The decimal form of an `i64` reads back as the number.
pub proof fn i64_text_roundtrip(n: i64)
    ensures
        i64_of_text(number_text(n as int)) == Some(n),
{
    let magnitude: nat = if n < 0 {
        (-n) as nat
    } else {
        n as nat
    };
    numbers_read_back(magnitude, 0);
    assert(Seq::new(0, |i: int| '0') + decimal_text(magnitude) =~= decimal_text(magnitude));
}

/// A text with a character that is neither a digit nor a leading sign is no
/// number, nor is one without a digit; a negative text is no `u64`.
pub proof fn other_texts_are_no_numbers(s: Seq<char>, at: int)
    ensures
        0 <= at < s.len() && !('0' <= s[at] && s[at] <= '9') && (at > 0 || (s[0] != '+' && s[0]
            != '-')) ==> u64_of_text(s) is None && i64_of_text(s) is None,
        s.len() == 0 ==> u64_of_text(s) is None && i64_of_text(s) is None,
        s.len() == 1 && (s[0] == '+' || s[0] == '-') ==> u64_of_text(s) is None && i64_of_text(
            s,
        ) is None,
        s.len() > 0 && s[0] == '-' ==> u64_of_text(s) is None,
{
    if 0 <= at < s.len() && !is_digit(s[at]) {
        if at > 0 {
            assert(s.skip(1)[at - 1] == s[at]);
        }
        assert(!all_digits(s));
        if at > 0 || (s[0] != '+' && s[0] != '-') {
            assert(at > 0 ==> !all_digits(s.skip(1)));
        }
    }
    if s.len() > 0 && s[0] == '-' {
        assert(!is_digit(s[0]));
    }
}

/// Within ASCII, white space is the space and the characters from the tab to
/// the carriage return.
pub proof fn ascii_white_space(c: char)
    requires
        c as u32 <= 0x7f,
    ensures
        is_white(c) <==> c == ' ' || ('\t' <= c && c <= '\r'),
{
}

proof fn lemma_trim_start_cuts(s: Seq<char>) -> (at: int)
    ensures
        0 <= at <= s.len(),
        trim_start_of(s) == s.skip(at),
        forall|i: int| 0 <= i < at ==> is_white(#[trigger] s[i]),
        at < s.len() ==> !is_white(s[at]),
    decreases s.len(),
{
    if s.len() > 0 && is_white(s[0]) {
        let at = lemma_trim_start_cuts(s.skip(1));
        assert forall|i: int| 0 <= i < at + 1 implies is_white(#[trigger] s[i]) by {
            if i > 0 {
                assert(s.skip(1)[i - 1] == s[i]);
            }
        }
        assert(s.skip(1).skip(at) =~= s.skip(at + 1));
        at + 1
    } else {
        assert(s.skip(0) =~= s);
        0
    }
}

proof fn lemma_trim_end_cuts(s: Seq<char>) -> (end: int)
    ensures
        0 <= end <= s.len(),
        trim_end_of(s) == s.take(end),
        forall|i: int| end <= i < s.len() ==> is_white(#[trigger] s[i]),
        end > 0 ==> !is_white(s[end - 1]),
    decreases s.len(),
{
    if s.len() > 0 && is_white(s.last()) {
        let end = lemma_trim_end_cuts(s.drop_last());
        assert forall|i: int| end <= i < s.len() implies is_white(#[trigger] s[i]) by {
            if i < s.len() - 1 {
                assert(s.drop_last()[i] == s[i]);
            }
        }
        assert(s.drop_last().take(end) =~= s.take(end));
        end
    } else {
        assert(s.take(s.len() as int) =~= s);
        s.len() as int
    }
}

/// Trimming cuts white space off both ends and nothing else: what is left
/// stands in the text, only white space is around it, and it neither starts
/// nor ends with any.
pub proof fn trimming_cuts_white_space(s: Seq<char>) -> (ends: (int, int))
    ensures
        0 <= ends.0 <= ends.1 <= s.len(),
        trim_of(s) == s.subrange(ends.0, ends.1),
        forall|i: int| 0 <= i < ends.0 || ends.1 <= i < s.len() ==> is_white(#[trigger] s[i]),
        ends.0 < ends.1 ==> !is_white(s[ends.0]) && !is_white(s[ends.1 - 1]),
{
    let from = lemma_trim_start_cuts(s);
    let rest = trim_start_of(s);
    let len = lemma_trim_end_cuts(rest);
    assert(rest.take(len) =~= s.subrange(from, from + len));
    assert forall|i: int| 0 <= i < from || from + len <= i < s.len() implies is_white(
        #[trigger] s[i],
    ) by {
        if i >= from {
            assert(rest[i - from] == s[i]);
        }
    }
    if len > 0 {
        assert(rest[len - 1] == s[from + len - 1]);
        assert(rest[0] == s[from]);
    }
    (from, from + len)
}

/// Taking a prefix off takes every copy of it: whatever number of copies stand
/// before a text that does not start with it, the text is what is left.
pub proof fn copies_of_a_prefix_go(prefix: Seq<char>, copies: nat, s: Seq<char>) -> (text: Seq<char>)
    requires
        prefix.len() > 0,
        !prefix.is_prefix_of(s),
    ensures
        text.len() == copies * prefix.len() + s.len(),
        copies == 0 ==> text == s,
        forall|i: int|
            0 <= i < copies * prefix.len() ==> #[trigger] text[i] == prefix[i % (
            prefix.len() as int)],
        text.skip((copies * prefix.len()) as int) == s,
        strip_all(text, prefix) == s,
    decreases copies,
{
    if copies == 0 {
        assert(0 * prefix.len() == 0);
        assert(s.skip(0) =~= s);
        s
    } else {
        let rest = copies_of_a_prefix_go(prefix, (copies - 1) as nat, s);
        let text = prefix + rest;
        let k = prefix.len() as int;
        let n = ((copies - 1) as nat * prefix.len()) as int;
        assert((copies * prefix.len()) as int == n + k) by (nonlinear_arith)
            requires
                k == prefix.len(),
                n == ((copies - 1) as nat * prefix.len()) as int,
                copies > 0,
        ;
        assert(text.skip(k) =~= rest);
        assert(prefix =~= text.subrange(0, k));
        assert forall|i: int| 0 <= i < n + k implies #[trigger] text[i] == prefix[i % k] by {
            if i < k {
                vstd::arithmetic::div_mod::lemma_small_mod(i as nat, k as nat);
            } else {
                assert(text[i] == rest[i - k]);
                vstd::arithmetic::div_mod::lemma_mod_sub_multiples_vanish(i, k);
            }
        }
        assert(text.skip(n + k) =~= rest.skip(n));
        text
    }
}

/// White space beyond ASCII is the next-line and no-break spaces, the spaces of
/// fixed width, the line and paragraph separators, and the ideographic space.
pub proof fn wide_white_space(c: char)
    requires
        c as u32 > 0x7f,
    ensures
        is_white(c) <==> c == '\u{85}' || c == '\u{a0}' || c == '\u{1680}' || ('\u{2000}' <= c && c
            <= '\u{200a}') || c == '\u{2028}' || c == '\u{2029}' || c == '\u{202f}' || c
            == '\u{205f}' || c == '\u{3000}',
{
}

} // verus!
