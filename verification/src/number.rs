//! Numbers in command-line arguments and in model output.

use crate::search::{find, find_chars, law_find, lemma_find};
use crate::text::{ascii_lower, chars_of, lowered, slice_of};
use vstd::prelude::*;

verus! {

/// Why a text is not a whole number.
#[derive(Debug, Clone, Copy, PartialEq, Eq, Structural)]
pub enum NumberError {
    Empty,
    InvalidDigit,
    TooLarge,
    TooSmall,
}

/// The words for a [`NumberError`].
pub open spec fn number_error_text(error: NumberError) -> Seq<char> {
    match error {
        NumberError::Empty => "cannot parse integer from empty string"@,
        NumberError::InvalidDigit => "invalid digit found in string"@,
        NumberError::TooLarge => "number too large to fit in target type"@,
        NumberError::TooSmall => "number too small to fit in target type"@,
    }
}

impl NumberError {
    /// The words for the error.
    pub fn message(self) -> (text: String)
        ensures
            text@ == number_error_text(self),
    {
        match self {
            NumberError::Empty => "cannot parse integer from empty string".to_owned(),
            NumberError::InvalidDigit => "invalid digit found in string".to_owned(),
            NumberError::TooLarge => "number too large to fit in target type".to_owned(),
            NumberError::TooSmall => "number too small to fit in target type".to_owned(),
        }
    }
}

/// The decimal digits.
pub open spec fn is_digit(c: char) -> bool {
    '0' <= c <= '9'
}

/// The value of a decimal digit.
pub open spec fn digit_value(c: char) -> int {
    c as int - '0' as int
}

/// Reads digits from left to right behind the number `read` so far. The first character that is
/// not a digit, or the first digit that takes the number over `limit`, ends the reading.
pub open spec fn read_digits(s: Seq<char>, read: int, limit: int) -> Result<int, NumberError>
    decreases s.len(),
{
    if s.len() == 0 {
        Ok(read)
    } else if !is_digit(s[0]) {
        Err(NumberError::InvalidDigit)
    } else if 10 * read + digit_value(s[0]) > limit {
        Err(NumberError::TooLarge)
    } else {
        read_digits(s.skip(1), 10 * read + digit_value(s[0]), limit)
    }
}

/// Digits, at least one of them.
pub open spec fn read_number(s: Seq<char>, limit: int) -> Result<int, NumberError> {
    if s.len() == 0 {
        Err(NumberError::InvalidDigit)
    } else {
        read_digits(s, 0, limit)
    }
}

/// A whole number from 0 to `limit`: digits, which a plus may precede.
pub open spec fn read_unsigned(s: Seq<char>, limit: int) -> Result<int, NumberError> {
    if s.len() == 0 {
        Err(NumberError::Empty)
    } else if s[0] == '+' {
        read_number(s.skip(1), limit)
    } else {
        read_number(s, limit)
    }
}

/// A whole number from `-limit - 1` to `limit`: digits, which a sign may precede.
pub open spec fn read_signed(s: Seq<char>, limit: int) -> Result<int, NumberError> {
    if s.len() > 0 && s[0] == '-' {
        match read_number(s.skip(1), limit + 1) {
            Ok(n) => Ok(-n),
            Err(NumberError::TooLarge) => Err(NumberError::TooSmall),
            Err(e) => Err(e),
        }
    } else {
        read_unsigned(s, limit)
    }
}

fn number_in(chars: &[char], from: usize, limit: u64) -> (n: Result<u64, NumberError>)
    requires
        from <= chars@.len(),
    ensures
        match n {
            Ok(n) => read_number(chars@.skip(from as int), limit as int) == Ok::<int, NumberError>(
                n as int,
            ) && n <= limit,
            Err(e) => read_number(chars@.skip(from as int), limit as int) == Err::<
                int,
                NumberError,
            >(e),
        },
{
    if from == chars.len() {
        return Err(NumberError::InvalidDigit);
    }
    let mut read: u64 = 0;
    let mut at: usize = from;
    let ghost all = chars@.skip(from as int);
    while at < chars.len()
        invariant
            from <= at <= chars@.len(),
            from < chars@.len(),
            all == chars@.skip(from as int),
            read <= limit,
            read_digits(all, 0, limit as int) == read_digits(
                chars@.skip(at as int),
                read as int,
                limit as int,
            ),
        decreases chars@.len() - at,
    {
        let c = chars[at];
        let ghost rest = chars@.skip(at as int);
        assert(rest[0] == c);
        if !('0' <= c && c <= '9') {
            return Err(NumberError::InvalidDigit);
        }
        let next: u128 = 10 * (read as u128) + (c as u8 - 48) as u128;
        if next > limit as u128 {
            return Err(NumberError::TooLarge);
        }
        read = next as u64;
        assert(rest.skip(1) == chars@.skip(at + 1));
        at += 1;
    }
    Ok(read)
}

/// Reads a whole number from 0 to `limit`.
pub fn parse_unsigned(text: &str, limit: u64) -> (n: Result<u64, NumberError>)
    ensures
        match n {
            Ok(n) => read_unsigned(text@, limit as int) == Ok::<int, NumberError>(n as int) && n
                <= limit,
            Err(e) => read_unsigned(text@, limit as int) == Err::<int, NumberError>(e),
        },
{
    let chars = chars_of(text);
    if chars.len() == 0 {
        return Err(NumberError::Empty);
    }
    assert(chars@.skip(0) == chars@);
    if chars[0] == '+' {
        number_in(&chars, 1, limit)
    } else {
        number_in(&chars, 0, limit)
    }
}

/// Reads a whole number that fits 32 bits with a sign.
pub fn parse_i32(text: &str) -> (n: Result<i32, NumberError>)
    ensures
        match n {
            Ok(n) => read_signed(text@, i32::MAX as int) == Ok::<int, NumberError>(n as int),
            Err(e) => read_signed(text@, i32::MAX as int) == Err::<int, NumberError>(e),
        },
{
    let chars = chars_of(text);
    if chars.len() > 0 && chars[0] == '-' {
        match number_in(&chars, 1, 0x8000_0000) {
            Ok(n) => Ok((0 - n as i64) as i32),
            Err(NumberError::TooLarge) => Err(NumberError::TooSmall),
            Err(e) => Err(e),
        }
    } else {
        match parse_unsigned(text, 0x7fff_ffff) {
            Ok(n) => Ok(n as i32),
            Err(e) => Err(e),
        }
    }
}

/// Whether every character is a decimal digit.
pub open spec fn all_digits(s: Seq<char>) -> bool {
    forall|i: int| 0 <= i < s.len() ==> is_digit(#[trigger] s[i])
}

/// `s` without the sign that may start it.
pub open spec fn without_sign(s: Seq<char>) -> Seq<char> {
    if s.len() > 0 && (s[0] == '+' || s[0] == '-') {
        s.skip(1)
    } else {
        s
    }
}

/// Digits with at most one point among or around them, and at least one digit.
pub open spec fn is_mantissa(s: Seq<char>) -> bool {
    match find(s, seq!['.']) {
        Some(i) => s.len() > 1 && all_digits(s.take(i)) && all_digits(s.skip(i + 1)),
        None => s.len() > 0 && all_digits(s),
    }
}

/// Digits, at least one of them, which a sign may precede.
pub open spec fn is_exponent(s: Seq<char>) -> bool {
    without_sign(s).len() > 0 && all_digits(without_sign(s))
}

/// A mantissa, which `e` and an exponent may follow.
pub open spec fn is_decimal(s: Seq<char>) -> bool {
    match find(s, seq!['e']) {
        Some(i) => is_mantissa(s.take(i)) && is_exponent(s.skip(i + 1)),
        None => is_mantissa(s),
    }
}

/// Whether a text reads as a floating-point number: a sign may start it, then follows a decimal
/// number, `inf`, `infinity` or `nan`, with letters in either case.
pub open spec fn is_float_literal(s: Seq<char>) -> bool {
    let unsigned = without_sign(s.map_values(|c: char| ascii_lower(c)));
    unsigned == seq!['i', 'n', 'f'] || unsigned == seq!['i', 'n', 'f', 'i', 'n', 'i', 't', 'y']
        || unsigned == seq!['n', 'a', 'n'] || is_decimal(unsigned)
}

fn only_digits(chars: &[char]) -> (r: bool)
    ensures
        r == all_digits(chars@),
{
    let mut i: usize = 0;
    while i < chars.len()
        invariant
            i <= chars@.len(),
            forall|j: int| 0 <= j < i ==> is_digit(#[trigger] chars@[j]),
        decreases chars@.len() - i,
    {
        if !('0' <= chars[i] && chars[i] <= '9') {
            assert(!is_digit(chars@[i as int]));
            return false;
        }
        i += 1;
    }
    true
}

fn drop_sign(chars: &[char]) -> (rest: Vec<char>)
    ensures
        rest@ == without_sign(chars@),
{
    let start: usize = if chars.len() > 0 && (chars[0] == '+' || chars[0] == '-') {
        1
    } else {
        0
    };
    let rest = slice_of(chars, start, chars.len());
    assert(rest@ =~= without_sign(chars@));
    rest
}

/// The parts of `chars` around the first place where `c` stands.
fn around(chars: &[char], c: char) -> (parts: Option<(Vec<char>, Vec<char>)>)
    ensures
        match parts {
            Some((before, after)) => exists|i: int|
                {
                    &&& #[trigger] find(chars@, seq![c]) == Some(i)
                    &&& before@ == chars@.take(i)
                    &&& after@ == chars@.skip(i + 1)
                },
            None => find(chars@, seq![c]) is None,
        },
{
    let pattern: Vec<char> = vec![c];
    let len = chars.len();
    assert(pattern@ =~= seq![c]);
    match find_chars(chars, &pattern, 0) {
        None => None,
        Some(i) => {
            let before = slice_of(chars, 0, i);
            let after = slice_of(chars, i + 1, len);
            assert(before@ =~= chars@.take(i as int));
            assert(after@ =~= chars@.skip(i + 1));
            Some((before, after))
        },
    }
}

fn mantissa(chars: &[char]) -> (r: bool)
    ensures
        r == is_mantissa(chars@),
{
    match around(chars, '.') {
        Some((before, after)) => chars.len() > 1 && only_digits(&before) && only_digits(&after),
        None => chars.len() > 0 && only_digits(chars),
    }
}

fn decimal(chars: &[char]) -> (r: bool)
    ensures
        r == is_decimal(chars@),
{
    match around(chars, 'e') {
        Some((before, after)) => {
            let power = drop_sign(&after);
            mantissa(&before) && power.len() > 0 && only_digits(&power)
        },
        None => mantissa(chars),
    }
}

fn same_chars(a: &[char], b: &[char]) -> (same: bool)
    ensures
        same == (a@ == b@),
{
    if a.len() != b.len() {
        return false;
    }
    let mut i: usize = 0;
    while i < a.len()
        invariant
            i <= a@.len(),
            a@.len() == b@.len(),
            forall|j: int| 0 <= j < i ==> a@[j] == b@[j],
        decreases a@.len() - i,
    {
        if a[i] != b[i] {
            return false;
        }
        i += 1;
    }
    assert(a@ =~= b@);
    true
}

/// Whether a text reads as a floating-point number.
pub fn float_literal(text: &str) -> (r: bool)
    ensures
        r == is_float_literal(text@),
{
    let chars = drop_sign(&lowered(&chars_of(text)));
    let inf: Vec<char> = vec!['i', 'n', 'f'];
    let infinity: Vec<char> = vec!['i', 'n', 'f', 'i', 'n', 'i', 't', 'y'];
    let nan: Vec<char> = vec!['n', 'a', 'n'];
    assert(inf@ =~= seq!['i', 'n', 'f']);
    assert(infinity@ =~= seq!['i', 'n', 'f', 'i', 'n', 'i', 't', 'y']);
    assert(nan@ =~= seq!['n', 'a', 'n']);
    same_chars(&chars, &inf) || same_chars(&chars, &infinity) || same_chars(&chars, &nan)
        || decimal(&chars)
}

proof fn lemma_read_digits_push(s: Seq<char>, c: char, read: int, limit: int)
    ensures
        read_digits(s, read, limit) matches Ok(n) ==> read_digits(s.push(c), read, limit)
            == if !is_digit(c) {
            Err::<int, NumberError>(NumberError::InvalidDigit)
        } else if 10 * n + digit_value(c) > limit {
            Err::<int, NumberError>(NumberError::TooLarge)
        } else {
            Ok::<int, NumberError>(10 * n + digit_value(c))
        },
        read_digits(s, read, limit) is Err ==> read_digits(s.push(c), read, limit) == read_digits(
            s,
            read,
            limit,
        ),
    decreases s.len(),
{
    reveal_with_fuel(read_digits, 2);
    if s.len() > 0 {
        lemma_read_digits_push(s.skip(1), c, 10 * read + digit_value(s[0]), limit);
        assert(s.push(c).skip(1) =~= s.skip(1).push(c));
    }
}

/// One digit more makes a number ten times as great and adds the digit, unless that is over the
/// limit; any other character behind a number makes it invalid.
pub proof fn law_number_digit_by_digit(s: Seq<char>, c: char, limit: int)
    requires
        0 <= limit,
    ensures
        read_unsigned(seq![], limit) == Err::<int, NumberError>(NumberError::Empty),
        '0' <= c <= '9' && c as int - '0' as int <= limit ==> read_unsigned(seq![c], limit)
            == Ok::<int, NumberError>(c as int - '0' as int),
        !('0' <= c <= '9') ==> read_unsigned(seq![c], limit) == Err::<int, NumberError>(
            NumberError::InvalidDigit,
        ),
        read_unsigned(s, limit) matches Ok(n) ==> {
            &&& '0' <= c <= '9' && 10 * n + (c as int - '0' as int) <= limit ==> read_unsigned(
                s + seq![c],
                limit,
            ) == Ok::<int, NumberError>(10 * n + (c as int - '0' as int))
            &&& '0' <= c <= '9' && 10 * n + (c as int - '0' as int) > limit ==> read_unsigned(
                s + seq![c],
                limit,
            ) == Err::<int, NumberError>(NumberError::TooLarge)
            &&& !('0' <= c <= '9') ==> read_unsigned(s + seq![c], limit) == Err::<
                int,
                NumberError,
            >(NumberError::InvalidDigit)
        },
        read_unsigned(s, limit) is Err && s.len() > 0 && s != seq!['+'] ==> read_unsigned(
            s + seq![c],
            limit,
        ) == read_unsigned(s, limit),
{
    reveal_with_fuel(read_digits, 2);
    assert(seq![c].skip(1) =~= Seq::<char>::empty());
    let longer = s + seq![c];
    if s.len() > 0 {
        assert(longer =~= s.push(c));
        if s[0] == '+' {
            if s.len() == 1 {
                assert(s =~= seq!['+']);
            } else {
                assert(longer.skip(1) =~= s.skip(1).push(c));
                lemma_read_digits_push(s.skip(1), c, 0, limit);
            }
        } else {
            lemma_read_digits_push(s, c, 0, limit);
        }
    }
}

/// A plus before digits changes nothing, a minus makes the number negative, and a negative number
/// may be one further from zero than the limit.
pub proof fn law_number_signs(s: Seq<char>, limit: int)
    requires
        s.len() > 0,
        s[0] != '+' && s[0] != '-',
    ensures
        read_unsigned(seq!['+'] + s, limit) == read_unsigned(s, limit),
        read_signed(s, limit) == read_unsigned(s, limit),
        read_signed(seq!['+'] + s, limit) == read_unsigned(s, limit),
        read_unsigned(s, limit + 1) matches Ok(n) ==> read_signed(seq!['-'] + s, limit) == Ok::<
            int,
            NumberError,
        >(-n),
        read_unsigned(s, limit + 1) == Err::<int, NumberError>(NumberError::TooLarge)
            ==> read_signed(seq!['-'] + s, limit) == Err::<int, NumberError>(NumberError::TooSmall),
        read_unsigned(s, limit + 1) == Err::<int, NumberError>(NumberError::InvalidDigit)
            ==> read_signed(seq!['-'] + s, limit) == Err::<int, NumberError>(
            NumberError::InvalidDigit,
        ),
        read_unsigned(seq!['-'] + s, limit) == Err::<int, NumberError>(NumberError::InvalidDigit),
{
    assert((seq!['+'] + s).skip(1) =~= s);
    assert((seq!['-'] + s).skip(1) =~= s);
}

/// A sign alone is no number, nor are two signs before digits.
pub proof fn law_number_needs_digits(sign: char, s: Seq<char>, limit: int)
    requires
        sign == '+' || sign == '-',
        s.len() > 0 ==> s[0] == '+' || s[0] == '-',
    ensures
        read_unsigned(seq![sign] + s, limit) == Err::<int, NumberError>(NumberError::InvalidDigit),
        read_signed(seq![sign] + s, limit) == Err::<int, NumberError>(NumberError::InvalidDigit),
        read_signed(seq![], limit) == Err::<int, NumberError>(NumberError::Empty),
{
    assert((seq![sign] + s).skip(1) =~= s);
}

/// Digits with at most one point among or around them read as a floating-point number, with a
/// sign before them or not, and with an exponent in either case behind them or not.
pub proof fn law_decimal_is_float(
    sign: Seq<char>,
    whole: Seq<char>,
    fraction: Seq<char>,
    mark: char,
    power_sign: Seq<char>,
    power: Seq<char>,
)
    requires
        sign == seq!['+'] || sign == seq!['-'] || sign.len() == 0,
        power_sign == seq!['+'] || power_sign == seq!['-'] || power_sign.len() == 0,
        mark == 'e' || mark == 'E',
        forall|i: int| 0 <= i < whole.len() ==> '0' <= #[trigger] whole[i] <= '9',
        forall|i: int| 0 <= i < fraction.len() ==> '0' <= #[trigger] fraction[i] <= '9',
        forall|i: int| 0 <= i < power.len() ==> '0' <= #[trigger] power[i] <= '9',
        whole.len() + fraction.len() > 0,
        power.len() > 0,
    ensures
        is_float_literal(sign + (whole + seq!['.'] + fraction)),
        is_float_literal(sign + (whole + seq!['.'] + fraction) + seq![mark] + power_sign + power),
        whole.len() > 0 ==> is_float_literal(sign + whole),
        whole.len() > 0 ==> is_float_literal(sign + whole + seq![mark] + power_sign + power),
{
    let pointed = whole + seq!['.'] + fraction;
    assert forall|i: int| 0 <= i < pointed.len() implies (is_digit(#[trigger] pointed[i])
        || pointed[i] == '.') by {
        if i < whole.len() {
            assert(pointed[i] == whole[i]);
        } else if i > whole.len() {
            assert(pointed[i] == fraction[i - whole.len() - 1]);
        }
    }
    assert forall|j: int| 0 <= j < whole.len() implies #[trigger] pointed.subrange(j, j + 1)
        != seq!['.'] by {
        assert(pointed.subrange(j, j + 1)[0] == whole[j]);
    }
    law_find(whole, seq!['.'], fraction);
    assert(pointed.take(whole.len() as int) =~= whole);
    assert(pointed.skip(whole.len() as int + 1) =~= fraction);
    assert(is_mantissa(pointed));
    lemma_decimal_is_float(sign, pointed, mark, power_sign, power);
    if whole.len() > 0 {
        lemma_find(whole, seq!['.']);
        if find(whole, seq!['.']) is Some {
            let k = find(whole, seq!['.'])->0;
            assert(whole.subrange(k, k + 1)[0] == '.');
        }
        assert(is_mantissa(whole));
        lemma_decimal_is_float(sign, whole, mark, power_sign, power);
    }
}

proof fn lemma_decimal_is_float(
    sign: Seq<char>,
    mantissa: Seq<char>,
    mark: char,
    power_sign: Seq<char>,
    power: Seq<char>,
)
    requires
        sign == seq!['+'] || sign == seq!['-'] || sign.len() == 0,
        power_sign == seq!['+'] || power_sign == seq!['-'] || power_sign.len() == 0,
        mark == 'e' || mark == 'E',
        forall|i: int|
            0 <= i < mantissa.len() ==> (is_digit(#[trigger] mantissa[i]) || mantissa[i] == '.'),
        is_mantissa(mantissa),
        mantissa.len() > 0,
        all_digits(power),
        power.len() > 0,
    ensures
        is_float_literal(sign + mantissa),
        is_float_literal(sign + mantissa + seq![mark] + power_sign + power),
{
    let short = sign + mantissa;
    let lower = short.map_values(|c: char| ascii_lower(c));
    assert forall|i: int| 0 <= i < short.len() implies lower[i] == #[trigger] short[i] by {
        if i >= sign.len() {
            assert(short[i] == mantissa[i - sign.len()]);
        }
    }
    assert(lower =~= short);
    if sign.len() == 0 {
        assert(short =~= mantissa);
        assert(is_digit(mantissa[0]) || mantissa[0] == '.');
    }
    assert(without_sign(lower) =~= mantissa);
    lemma_find(mantissa, seq!['e']);
    if find(mantissa, seq!['e']) is Some {
        let k = find(mantissa, seq!['e'])->0;
        assert(mantissa.subrange(k, k + 1)[0] == 'e');
    }
    assert(is_decimal(mantissa));
    let tail = power_sign + power;
    let long = sign + mantissa + seq![mark] + power_sign + power;
    let lower = long.map_values(|c: char| ascii_lower(c));
    let small = mantissa + seq!['e'] + tail;
    assert(lower.len() == (sign + small).len());
    assert forall|i: int| 0 <= i < lower.len() implies #[trigger] lower[i] == (sign + small)[i] by {
        let n = (sign.len() + mantissa.len()) as int;
        if i < sign.len() {
            assert(long[i] == sign[i]);
        } else if i < n {
            assert(long[i] == mantissa[i - sign.len()]);
        } else if i == n {
            assert(long[i] == mark);
        } else if i < n + 1 + power_sign.len() {
            assert(long[i] == power_sign[i - n - 1]);
        } else {
            assert(long[i] == power[i - n - 1 - power_sign.len()]);
        }
    }
    assert(lower =~= sign + small);
    assert(small[0] == mantissa[0]);
    assert(is_digit(mantissa[0]) || mantissa[0] == '.');
    assert(without_sign(lower) =~= small);
    assert forall|j: int| 0 <= j < mantissa.len() implies #[trigger] small.subrange(j, j + 1)
        != seq!['e'] by {
        assert(small.subrange(j, j + 1)[0] == mantissa[j]);
    }
    law_find(mantissa, seq!['e'], tail);
    assert(small.take(mantissa.len() as int) =~= mantissa);
    assert(small.skip(mantissa.len() as int + 1) =~= tail);
    assert(is_digit(power[0]));
    if power_sign.len() == 0 {
        assert(tail =~= power);
    }
    assert(without_sign(tail) =~= power);
}

/// A text without letters that reads as a floating-point number is digits, at least one of them,
/// with at most one point, and no sign but one that starts it.
pub proof fn law_float_without_letters(s: Seq<char>)
    requires
        is_float_literal(s),
        forall|i: int|
            0 <= i < s.len() ==> !('a' <= #[trigger] s[i] <= 'z') && !('A' <= s[i] <= 'Z'),
    ensures
        exists|i: int| 0 <= i < s.len() && '0' <= #[trigger] s[i] <= '9',
        forall|i: int| 0 < i < s.len() ==> ('0' <= #[trigger] s[i] <= '9' || s[i] == '.'),
        '0' <= s[0] <= '9' || s[0] == '.' || s[0] == '+' || s[0] == '-',
        forall|i: int, j: int|
            0 <= i < j < s.len() ==> !(#[trigger] s[i] == '.' && #[trigger] s[j] == '.'),
{
    let lower = s.map_values(|c: char| ascii_lower(c));
    assert(lower =~= s);
    let body = without_sign(s);
    let k = s.len() - body.len();
    assert forall|i: int| 0 <= i < body.len() implies #[trigger] body[i] == s[i + k] by {}
    if body.len() > 0 {
        assert(body[0] == s[k]);
    }
    lemma_find(body, seq!['e']);
    if find(body, seq!['e']) is Some {
        let e = find(body, seq!['e'])->0;
        assert(body.subrange(e, e + 1)[0] == 'e');
        assert(s[e + k] == 'e');
    }
    assert(is_mantissa(body));
    lemma_find(body, seq!['.']);
    match find(body, seq!['.']) {
        Some(p) => {
            assert(body.subrange(p, p + 1)[0] == '.');
            assert forall|i: int| 0 <= i < body.len() && i != p implies is_digit(
                #[trigger] body[i],
            ) by {
                if i < p {
                    assert(body.take(p)[i] == body[i]);
                } else {
                    assert(body.skip(p + 1)[i - p - 1] == body[i]);
                }
            }
            let other: int = if p == 0 {
                1
            } else {
                0
            };
            assert(is_digit(body[other]));
            assert(s[other + k] == body[other]);
            assert forall|i: int| k <= i < s.len() && i != p + k implies is_digit(
                #[trigger] s[i],
            ) by {
                assert(body[i - k] == s[i]);
            }
            assert(s[p + k] == '.');
        },
        None => {
            assert(is_digit(body[0]));
            assert forall|i: int| k <= i < s.len() implies is_digit(#[trigger] s[i]) by {
                assert(body[i - k] == s[i]);
            }
        },
    }
}

} // verus!
