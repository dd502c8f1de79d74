//! Characters and numeric literals: the character classes the lexer splits
//! on, and the grammar of the literals that denote 64-bit floats.

use vstd::prelude::*;

verus! {

/// Whether a character beyond ASCII has the Unicode `Alphabetic` property.
pub uninterp spec fn is_alphabetic_char(c: char) -> bool;

/// Whether `c` has the Unicode `Alphabetic` property: in ASCII the letters
/// `a` to `z` and `A` to `Z` and no other character; beyond ASCII the
/// property is named and not spelled out.
pub open spec fn alphabetic(c: char) -> bool {
    if c <= '\x7f' {
        ('a' <= c <= 'z') || ('A' <= c <= 'Z')
    } else {
        is_alphabetic_char(c)
    }
}

/// `char::is_alphabetic`: the result is the character's `Alphabetic`
/// property, which in ASCII the letters have and nothing else.
pub assume_specification[ char::is_alphabetic ](c: char) -> (r: bool)
    ensures
        c <= '\x7f' ==> r == (('a' <= c <= 'z') || ('A' <= c <= 'Z')),
        c > '\x7f' ==> r == is_alphabetic_char(c),
;

/// Whether a character beyond ASCII has the Unicode `White_Space`
/// property.
pub uninterp spec fn is_whitespace_char(c: char) -> bool;

/// Whether `c` has the Unicode `White_Space` property: in ASCII the space
/// and the characters U+0009 to U+000D (tab, line feed, vertical tab, form
/// feed, carriage return) and no other character; beyond ASCII the
/// property is named and not spelled out.
pub open spec fn white_space(c: char) -> bool {
    if c <= '\x7f' {
        c == ' ' || ('\t' <= c <= '\r')
    } else {
        is_whitespace_char(c)
    }
}

/// `char::is_whitespace`: the result is the character's `White_Space`
/// property, which in ASCII the space and U+0009 to U+000D have and nothing
/// else.
pub assume_specification[ char::is_whitespace ](c: char) -> (r: bool)
    ensures
        c <= '\x7f' ==> r == (c == ' ' || ('\t' <= c <= '\r')),
        c > '\x7f' ==> r == is_whitespace_char(c),
;

/// The characters of a text, one by one.
pub fn chars_of(text: &str) -> (v: Vec<char>)
    ensures
        v@ == text@,
{
    let mut v: Vec<char> = Vec::new();
    for c in it: text.chars()
        invariant
            it.seq() == text@,
            v@ == text@.take(it.index()),
    {
        v.push(c);
    }
    v
}

/// Whether two texts hold the same characters.
pub fn same_text(a: &str, b: &str) -> (r: bool)
    ensures
        r == (a@ == b@),
{
    let x = chars_of(a);
    let y = chars_of(b);
    if x.len() != y.len() {
        return false;
    }
    let mut i: usize = 0;
    while i < x.len()
        invariant
            x@ == a@,
            y@ == b@,
            x.len() == y.len(),
            i <= x.len(),
            forall|j: int| 0 <= j < i ==> x@[j] == y@[j],
        decreases x.len() - i,
    {
        if x[i] != y[i] {
            return false;
        }
        i += 1;
    }
    assert(a@ =~= b@);
    true
}

/// The end of the run that begins at `from`: the first position at or
/// after `from` whose character is white space where `space` is false, and
/// is not where `space` is true.
pub open spec fn run_end(s: Seq<char>, from: int, space: bool) -> int
    decreases s.len() - from,
{
    if 0 <= from < s.len() && white_space(s[from]) == space {
        run_end(s, from + 1, space)
    } else {
        from
    }
}

/// The chunks of `s` from `from` on: the runs of characters that are not
/// white space, each as long as it can be, in order.
pub open spec fn chunks_from(s: Seq<char>, from: int) -> Seq<Seq<char>>
    decreases s.len() - from,
{
    let start = run_end(s, from, true);
    let end = run_end(s, start, false);
    if from <= start < end <= s.len() {
        seq![s.subrange(start, end)] + chunks_from(s, end)
    } else {
        Seq::empty()
    }
}

/// The chunks that white space cuts a text into.
pub open spec fn whitespace_chunks(text: Seq<char>) -> Seq<Seq<char>> {
    chunks_from(text, 0)
}

/// The texts of a list of slices.
pub open spec fn texts(chunks: Seq<&str>) -> Seq<Seq<char>> {
    Seq::new(chunks.len(), |i: int| chunks[i]@)
}

/// A run ends at or after the place where it begins, within the text, and
/// at a character of the other kind.
proof fn lemma_run_end(s: Seq<char>, from: int, space: bool)
    requires
        0 <= from <= s.len(),
    ensures
        from <= run_end(s, from, space) <= s.len(),
        from < s.len() && white_space(s[from]) == space ==> from < run_end(s, from, space),
        run_end(s, from, space) < s.len() ==> white_space(s[run_end(s, from, space)])
            != space,
    decreases s.len() - from,
{
    if from < s.len() && white_space(s[from]) == space {
        lemma_run_end(s, from + 1, space);
    }
}

/// Scans a run of white space, or of anything else.
fn scan_run(s: &Vec<char>, from: usize, space: bool) -> (end: usize)
    requires
        from <= s.len(),
    ensures
        end == run_end(s@, from as int, space),
        from <= end <= s.len(),
{
    let mut i: usize = from;
    while i < s.len() && s[i].is_whitespace() == space
        invariant
            from <= i <= s.len(),
            run_end(s@, from as int, space) == run_end(s@, i as int, space),
        decreases s.len() - i,
    {
        i += 1;
    }
    i
}

/// Cuts a text at its white space.
pub fn split_whitespace<'src>(text: &'src str) -> (chunks: Vec<&'src str>)
    ensures
        texts(chunks@) == whitespace_chunks(text@),
{
    let s = chars_of(text);
    let mut chunks: Vec<&'src str> = Vec::new();
    let mut i: usize = 0;
    loop
        invariant
            s@ == text@,
            i <= s.len(),
            texts(chunks@) + chunks_from(s@, i as int) == chunks_from(s@, 0),
        decreases s.len() - i,
    {
        let start = scan_run(&s, i, true);
        if start >= s.len() {
            proof {
                lemma_run_end(s@, start as int, false);
            }
            return chunks;
        }
        let end = scan_run(&s, start, false);
        proof {
            lemma_run_end(s@, i as int, true);
            lemma_run_end(s@, start as int, false);
        }
        let ghost before = texts(chunks@);
        let chunk = text.substring_char(start, end);
        chunks.push(chunk);
        proof {
            assert(before.push(chunk@) + chunks_from(s@, end as int) =~= before + (seq![chunk@]
                + chunks_from(s@, end as int)));
        }
        i = end;
    }
}

/// The single-character glyphs: a chunk is cut before and after each.
pub open spec fn is_glyph(c: char) -> bool {
    c == '+' || c == '-' || c == '*' || c == '/' || c == '=' || c == '!' || c == '<' || c == '>'
        || c == '%' || c == '&' || c == '|' || c == '^' || c == ':' || c == '(' || c == ')'
        || c == ',' || c == ';'
}

/// Whether `c` is a glyph.
pub fn is_single_char_token(c: char) -> (r: bool)
    ensures
        r == is_glyph(c),
{
    c == '+' || c == '-' || c == '*' || c == '/' || c == '=' || c == '!' || c == '<' || c == '>'
        || c == '%' || c == '&' || c == '|' || c == '^' || c == ':' || c == '(' || c == ')'
        || c == ',' || c == ';'
}

/// The digits `0` to `9`.
pub open spec fn is_digit(c: char) -> bool {
    '0' <= c <= '9'
}

/// The signs `+` and `-`.
pub open spec fn is_sign(c: char) -> bool {
    c == '+' || c == '-'
}

/// The first position at or after `from` that holds no digit.
pub open spec fn digits_end(s: Seq<char>, from: int) -> int
    decreases s.len() - from,
{
    if 0 <= from < s.len() && is_digit(s[from]) {
        digits_end(s, from + 1)
    } else {
        from
    }
}

/// `s` without a leading sign.
pub open spec fn unsigned(s: Seq<char>) -> Seq<char> {
    if s.len() > 0 && is_sign(s[0]) {
        s.skip(1)
    } else {
        s
    }
}

/// `s` spells `word`, in upper or lower case letter by letter.
pub open spec fn spells(s: Seq<char>, word: Seq<char>, upper: Seq<char>) -> bool {
    &&& s.len() == word.len()
    &&& forall|i: int| 0 <= i < s.len() ==> s[i] == word[i] || s[i] == #[trigger] upper[i]
}

/// `inf`, `infinity` or `nan`, in any mix of cases.
pub open spec fn is_special(s: Seq<char>) -> bool {
    ||| spells(s, seq!['i', 'n', 'f'], seq!['I', 'N', 'F'])
    ||| spells(s, seq!['n', 'a', 'n'], seq!['N', 'A', 'N'])
    ||| spells(
        s,
        seq!['i', 'n', 'f', 'i', 'n', 'i', 't', 'y'],
        seq!['I', 'N', 'F', 'I', 'N', 'I', 'T', 'Y'],
    )
}

/// An exponent: `e` or `E`, an optional sign, then digits to the end.
pub open spec fn is_exponent(s: Seq<char>) -> bool {
    &&& s.len() >= 2
    &&& (s[0] == 'e' || s[0] == 'E')
    &&& unsigned(s.skip(1)).len() >= 1
    &&& digits_end(unsigned(s.skip(1)), 0) == unsigned(s.skip(1)).len()
}

/// Where the mantissa of a decimal literal ends: after the digits, a point
/// and the digits behind it.
pub open spec fn mantissa_end(s: Seq<char>) -> int {
    let a = digits_end(s, 0);
    if a < s.len() && s[a] == '.' {
        digits_end(s, a + 1)
    } else {
        a
    }
}

/// How many digits the mantissa holds.
pub open spec fn mantissa_digits(s: Seq<char>) -> int {
    let a = digits_end(s, 0);
    if a < s.len() && s[a] == '.' {
        digits_end(s, a + 1) - 1
    } else {
        a
    }
}

/// A decimal literal: digits with at most one point among them, at least one
/// digit, and then nothing or an exponent.
pub open spec fn is_decimal(s: Seq<char>) -> bool {
    &&& mantissa_digits(s) >= 1
    &&& (mantissa_end(s) == s.len() || is_exponent(s.skip(mantissa_end(s))))
}

/// The texts that denote a 64-bit float: an optional sign, then a decimal
/// literal, `inf`, `infinity` or `nan`.
pub open spec fn is_float_literal(s: Seq<char>) -> bool {
    is_special(unsigned(s)) || is_decimal(unsigned(s))
}

fn is_digit_char(c: char) -> (r: bool)
    ensures
        r == is_digit(c),
{
    '0' <= c && c <= '9'
}

/// Scans the digits from `from` on.
fn scan_digits(s: &Vec<char>, from: usize) -> (end: usize)
    requires
        from <= s.len(),
    ensures
        end == digits_end(s@, from as int),
        from <= end <= s.len(),
{
    let mut i: usize = from;
    while i < s.len() && is_digit_char(s[i])
        invariant
            from <= i <= s.len(),
            digits_end(s@, from as int) == digits_end(s@, i as int),
        decreases s.len() - i,
    {
        i += 1;
    }
    i
}

fn spells_word(s: &Vec<char>, from: usize, word: &Vec<char>, upper: &Vec<char>) -> (r: bool)
    requires
        from <= s.len(),
        word.len() == upper.len(),
    ensures
        r == spells(s@.skip(from as int), word@, upper@),
{
    if s.len() - from != word.len() {
        return false;
    }
    let mut i: usize = 0;
    while i < word.len()
        invariant
            from <= s.len(),
            s.len() - from == word.len(),
            word.len() == upper.len(),
            i <= word.len(),
            forall|j: int| 0 <= j < i ==> s@[from + j] == word@[j] || s@[from + j] == upper@[j],
        decreases word.len() - i,
    {
        if s[from + i] != word[i] && s[from + i] != upper[i] {
            return false;
        }
        i += 1;
    }
    assert forall|j: int| 0 <= j < s@.skip(from as int).len() implies s@.skip(from as int)[j]
        == word@[j] || s@.skip(from as int)[j] == #[trigger] upper@[j] by {
    }
    true
}

fn is_special_from(s: &Vec<char>, from: usize) -> (r: bool)
    requires
        from <= s.len(),
    ensures
        r == is_special(s@.skip(from as int)),
{
    let inf = vec!['i', 'n', 'f'];
    let inf_up = vec!['I', 'N', 'F'];
    let nan = vec!['n', 'a', 'n'];
    let nan_up = vec!['N', 'A', 'N'];
    let infinity = vec!['i', 'n', 'f', 'i', 'n', 'i', 't', 'y'];
    let infinity_up = vec!['I', 'N', 'F', 'I', 'N', 'I', 'T', 'Y'];
    spells_word(s, from, &inf, &inf_up) || spells_word(s, from, &nan, &nan_up) || spells_word(
        s,
        from,
        &infinity,
        &infinity_up,
    )
}

fn is_sign_char(c: char) -> (r: bool)
    ensures
        r == is_sign(c),
{
    c == '+' || c == '-'
}

/// Whether `text` denotes a 64-bit float.
pub fn is_number_text(text: &str) -> (r: bool)
    ensures
        r == is_float_literal(text@),
{
    let s = chars_of(text);
    let n = s.len();
    let start: usize = if n > 0 && is_sign_char(s[0]) {
        1
    } else {
        0
    };
    assert(s@.skip(start as int) == unsigned(text@));
    if is_special_from(&s, start) {
        return true;
    }
    let body_chars = skip_chars(&s, start);
    is_decimal_chars(&body_chars)
}

fn skip_chars(s: &Vec<char>, from: usize) -> (r: Vec<char>)
    requires
        from <= s.len(),
    ensures
        r@ == s@.skip(from as int),
{
    let mut r: Vec<char> = Vec::new();
    let mut i: usize = from;
    while i < s.len()
        invariant
            from <= i <= s.len(),
            r@ == s@.subrange(from as int, i as int),
        decreases s.len() - i,
    {
        r.push(s[i]);
        i += 1;
    }
    r
}

fn is_decimal_chars(s: &Vec<char>) -> (r: bool)
    ensures
        r == is_decimal(s@),
{
    let n = s.len();
    let a = scan_digits(s, 0);
    let has_point = a < n && s[a] == '.';
    let end = if has_point { scan_digits(s, a + 1) } else { a };
    let digits = if has_point { end - 1 } else { a };
    if digits < 1 {
        return false;
    }
    if end == n {
        return true;
    }
    let rest = skip_chars(s, end);
    is_exponent_chars(&rest)
}

fn is_exponent_chars(s: &Vec<char>) -> (r: bool)
    ensures
        r == is_exponent(s@),
{
    let n = s.len();
    if n < 2 {
        return false;
    }
    if s[0] != 'e' && s[0] != 'E' {
        return false;
    }
    let start: usize = if is_sign_char(s[1]) { 2 } else { 1 };
    assert(unsigned(s@.skip(1)) =~= s@.skip(start as int));
    let digits = skip_chars(s, start);
    if digits.len() < 1 {
        return false;
    }
    let end = scan_digits(&digits, 0);
    end == digits.len()
}

/// The number that a digit writes.
pub open spec fn digit_value(c: char) -> nat {
    if is_digit(c) {
        (c as u32 - 48) as nat
    } else {
        0
    }
}

/// The number written by the first `n` digits of `digits`, with zeros for
/// the digits that `digits` does not have.
pub open spec fn leading_value(digits: Seq<char>, n: nat) -> nat
    decreases n,
{
    if n == 0 {
        0
    } else if n <= digits.len() {
        leading_value(digits, (n - 1) as nat) * 10 + digit_value(digits[n - 1])
    } else {
        leading_value(digits, (n - 1) as nat) * 10
    }
}

/// The number that a string of digits writes.
pub open spec fn digits_value(digits: Seq<char>) -> nat {
    leading_value(digits, digits.len())
}

/// Whether a digit other than zero stands at or after position `from`.
pub open spec fn has_digit_from(digits: Seq<char>, from: int) -> bool {
    exists|j: int| from <= j && 0 <= j < digits.len() && #[trigger] digit_value(digits[j]) != 0
}

/// The digits of a decimal literal's mantissa, without the point.
pub open spec fn mantissa(s: Seq<char>) -> Seq<char> {
    let a = digits_end(s, 0);
    if a < s.len() && s[a] == '.' {
        s.subrange(0, a) + s.subrange(a + 1, digits_end(s, a + 1))
    } else {
        s.subrange(0, a)
    }
}

/// The exponent of a decimal literal, 0 where none is written.
pub open spec fn exponent(s: Seq<char>) -> int {
    let e = s.skip(mantissa_end(s));
    if e.len() < 2 {
        0
    } else if e[1] == '-' {
        -(digits_value(e.skip(2)) as int)
    } else {
        digits_value(unsigned(e.skip(1))) as int
    }
}

/// How many digits of the mantissa stand before the point, once the
/// exponent has moved it.
pub open spec fn point_position(s: Seq<char>) -> int {
    digits_end(s, 0) + exponent(s)
}

/// `x`, held to the range of `i32`.
pub open spec fn clamp_i32(x: int) -> int {
    if x < i32::MIN {
        i32::MIN as int
    } else if x > i32::MAX {
        i32::MAX as int
    } else {
        x
    }
}

/// The first `point` digits as a number; none where `point` is not positive.
pub open spec fn whole_part(digits: Seq<char>, point: int) -> int {
    leading_value(
        digits,
        if point > 0 {
            point as nat
        } else {
            0
        },
    ) as int
}

/// The ceiling of what a decimal literal without its sign denotes, negated
/// first where `negative` holds, and held to the range of `i32`.
pub open spec fn decimal_ceiling(body: Seq<char>, negative: bool) -> int {
    let digits = mantissa(body);
    let point = point_position(body);
    if negative {
        clamp_i32(-whole_part(digits, point))
    } else if has_digit_from(digits, point) {
        clamp_i32(whole_part(digits, point) + 1)
    } else {
        clamp_i32(whole_part(digits, point))
    }
}

/// The least integer that is not below the number a literal denotes, held
/// to the range of `i32`. The number is taken exactly as it is written.
/// Infinity is beyond every integer; `nan`, and a text that is no literal,
/// count as 0.
pub open spec fn literal_ceiling(text: Seq<char>) -> int {
    let body = unsigned(text);
    let negative = text.len() > 0 && text[0] == '-';
    if spells(body, seq!['n', 'a', 'n'], seq!['N', 'A', 'N']) {
        0
    } else if is_special(body) {
        if negative {
            i32::MIN as int
        } else {
            i32::MAX as int
        }
    } else if is_decimal(body) {
        decimal_ceiling(body, negative)
    } else {
        0
    }
}

/// Reading more digits never makes the number smaller.
proof fn lemma_leading_value_grows(digits: Seq<char>, n: nat, m: nat)
    requires
        n <= m,
    ensures
        leading_value(digits, n) <= leading_value(digits, m),
    decreases m,
{
    if n < m {
        lemma_leading_value_grows(digits, n, (m - 1) as nat);
    }
}

/// Beyond the last digit a number that is zero stays zero.
proof fn lemma_leading_value_zero(digits: Seq<char>, n: nat, m: nat)
    requires
        digits.len() <= n <= m,
        leading_value(digits, n) == 0,
    ensures
        leading_value(digits, m) == 0,
    decreases m,
{
    if n < m {
        lemma_leading_value_zero(digits, n, (m - 1) as nat);
    }
}

fn digit_of(c: char) -> (d: u128)
    ensures
        d == digit_value(c),
        d <= 9,
{
    if is_digit_char(c) {
        (c as u32 - 48) as u128
    } else {
        0
    }
}

/// The number written by the first `n` digits, held below `cap`.
fn leading_value_capped(digits: &Vec<char>, n: u128, cap: u128) -> (r: u128)
    requires
        1 <= cap <= 0x1_0000_0000_0000_0000_0000_0000,
    ensures
        r == if leading_value(digits@, n as nat) < cap {
            leading_value(digits@, n as nat)
        } else {
            cap as nat
        },
{
    let mut acc: u128 = 0;
    let mut j: u128 = 0;
    while j < n
        invariant
            j <= n,
            1 <= cap <= 0x1_0000_0000_0000_0000_0000_0000,
            acc == if leading_value(digits@, j as nat) < cap {
                leading_value(digits@, j as nat)
            } else {
                cap as nat
            },
        decreases n - j,
    {
        if j >= digits.len() as u128 && (acc == 0 || acc == cap) {
            proof {
                if acc == 0 {
                    lemma_leading_value_zero(digits@, j as nat, n as nat);
                } else {
                    lemma_leading_value_grows(digits@, j as nat, n as nat);
                }
            }
            return acc;
        }
        let d: u128 = if j < digits.len() as u128 {
            digit_of(digits[j as usize])
        } else {
            0
        };
        let next = acc * 10 + d;
        acc = if next < cap {
            next
        } else {
            cap
        };
        j += 1;
    }
    acc
}

/// Whether a digit other than zero stands at or after position `from`.
fn any_digit_from(digits: &Vec<char>, from: i128) -> (r: bool)
    ensures
        r == has_digit_from(digits@, from as int),
{
    let len = digits.len();
    if from >= len as i128 {
        return false;
    }
    let mut j: usize = if from > 0 {
        from as usize
    } else {
        0
    };
    while j < len
        invariant
            len == digits.len(),
            from <= j <= len,
            forall|k: int| from <= k && 0 <= k < j ==> digit_value(#[trigger] digits@[k]) == 0,
        decreases len - j,
    {
        if digit_of(digits[j]) != 0 {
            return true;
        }
        j += 1;
    }
    false
}

fn sub_chars(s: &Vec<char>, from: usize, to: usize, out: &mut Vec<char>)
    requires
        from <= to <= s.len(),
    ensures
        final(out)@ == old(out)@ + s@.subrange(from as int, to as int),
{
    let mut i: usize = from;
    while i < to
        invariant
            from <= i <= to <= s.len(),
            out@ == old(out)@ + s@.subrange(from as int, i as int),
        decreases to - i,
    {
        out.push(s[i]);
        assert(s@.subrange(from as int, i + 1) =~= s@.subrange(from as int, i as int).push(
            s@[i as int],
        ));
        i += 1;
    }
}

/// The exponent of a decimal literal, held between -2^100 and 2^100.
fn exponent_capped(s: &Vec<char>, end: usize) -> (r: i128)
    requires
        end == mantissa_end(s@),
        end <= s.len(),
    ensures
        -0x1_0000_0000_0000_0000_0000_0000 <= r <= 0x1_0000_0000_0000_0000_0000_0000,
        exponent(s@) <= -0x1_0000_0000_0000_0000_0000_0000 ==> r
            == -0x1_0000_0000_0000_0000_0000_0000,
        exponent(s@) >= 0x1_0000_0000_0000_0000_0000_0000 ==> r == 0x1_0000_0000_0000_0000_0000_0000,
        -0x1_0000_0000_0000_0000_0000_0000 < exponent(s@) < 0x1_0000_0000_0000_0000_0000_0000 ==> r
            == exponent(s@),
{
    let e = skip_chars(s, end);
    if e.len() < 2 {
        return 0;
    }
    let minus = e[1] == '-';
    let start: usize = if is_sign_char(e[1]) {
        2
    } else {
        1
    };
    let digits = skip_chars(&e, start);
    proof {
        assert(unsigned(e@.skip(1)) =~= e@.skip(start as int));
    }
    let magnitude = leading_value_capped(
        &digits,
        digits.len() as u128,
        0x1_0000_0000_0000_0000_0000_0000,
    );
    if minus {
        -(magnitude as i128)
    } else {
        magnitude as i128
    }
}

/// The ceiling of what a decimal literal without its sign denotes.
fn decimal_ceiling_of(body: &Vec<char>, negative: bool) -> (r: i32)
    ensures
        r == decimal_ceiling(body@, negative),
{
    let a = scan_digits(body, 0);
    let has_point = a < body.len() && body[a] == '.';
    let end = if has_point {
        scan_digits(body, a + 1)
    } else {
        a
    };
    let mut digits: Vec<char> = Vec::new();
    sub_chars(body, 0, a, &mut digits);
    if has_point {
        sub_chars(body, a + 1, end, &mut digits);
    }
    let exp = exponent_capped(body, end);
    let point: i128 = a as i128 + exp;
    proof {
        lemma_capped_point(digits@, point_position(body@), point as int);
    }
    round_up(&digits, point, negative)
}

/// The ceiling of the number whose digits are `digits`, with `point` of
/// them before the point.
fn round_up(digits: &Vec<char>, point: i128, negative: bool) -> (r: i32)
    ensures
        r == if negative {
            clamp_i32(-whole_part(digits@, point as int))
        } else if has_digit_from(digits@, point as int) {
            clamp_i32(whole_part(digits@, point as int) + 1)
        } else {
            clamp_i32(whole_part(digits@, point as int))
        },
{
    let n: u128 = if point > 0 {
        point as u128
    } else {
        0
    };
    let whole = leading_value_capped(digits, n, 0x8000_0000);
    if negative {
        (-(whole as i64)) as i32
    } else if whole >= 0x7fff_ffff {
        i32::MAX
    } else if any_digit_from(digits, point) {
        (whole + 1) as i32
    } else {
        whole as i32
    }
}

/// The ceiling of the number that a literal denotes.
pub fn ceiling_of(text: &str) -> (r: i32)
    ensures
        r == literal_ceiling(text@),
{
    let s = chars_of(text);
    let negative = s.len() > 0 && s[0] == '-';
    let start: usize = if s.len() > 0 && is_sign_char(s[0]) {
        1
    } else {
        0
    };
    assert(s@.skip(start as int) == unsigned(text@));
    let nan = vec!['n', 'a', 'n'];
    let nan_up = vec!['N', 'A', 'N'];
    if spells_word(&s, start, &nan, &nan_up) {
        return 0;
    }
    if is_special_from(&s, start) {
        return if negative {
            i32::MIN
        } else {
            i32::MAX
        };
    }
    let body = skip_chars(&s, start);
    if !is_decimal_chars(&body) {
        return 0;
    }
    decimal_ceiling_of(&body, negative)
}

/// Where the point lies ten places or more beyond the last digit, or before
/// the first, it can be moved further out: the whole part stays on its side
/// of 2^31, and no digit changes sides.
proof fn lemma_capped_point(digits: Seq<char>, point: int, capped: int)
    requires
        point == capped || (digits.len() + 10 <= capped <= point) || (point <= capped <= 0),
    ensures
        has_digit_from(digits, point) == has_digit_from(digits, capped),
        whole_part(digits, point) < 0x8000_0000 || whole_part(digits, capped) < 0x8000_0000
            ==> whole_part(digits, point) == whole_part(digits, capped),
{
    if point != capped && digits.len() + 10 <= capped {
        let len = digits.len();
        if leading_value(digits, len) == 0 {
            lemma_leading_value_zero(digits, len, capped as nat);
            lemma_leading_value_zero(digits, len, point as nat);
        } else {
            lemma_leading_value_at_least(digits, len, capped as nat);
            lemma_leading_value_at_least(digits, len, point as nat);
        }
    } else if point != capped {
        if has_digit_from(digits, point) {
            let j = choose|j: int|
                point <= j && 0 <= j < digits.len() && #[trigger] digit_value(digits[j]) != 0;
        }
        if has_digit_from(digits, capped) {
            let j = choose|j: int|
                capped <= j && 0 <= j < digits.len() && #[trigger] digit_value(digits[j]) != 0;
        }
    }
}

/// A number that is not zero grows tenfold with each digit read beyond the
/// last, so ten more digits take it past 2^31.
proof fn lemma_leading_value_at_least(digits: Seq<char>, n: nat, m: nat)
    requires
        digits.len() <= n,
        n + 10 <= m,
        leading_value(digits, n) > 0,
    ensures
        leading_value(digits, m) >= 0x8000_0000,
{
    let v = leading_value(digits, n);
    assert(leading_value(digits, n + 1) == v * 10);
    assert(leading_value(digits, n + 2) == v * 100);
    assert(leading_value(digits, n + 3) == v * 1000);
    assert(leading_value(digits, n + 4) == v * 10000);
    assert(leading_value(digits, n + 5) == v * 100000);
    assert(leading_value(digits, n + 6) == v * 1000000);
    assert(leading_value(digits, n + 7) == v * 10000000);
    assert(leading_value(digits, n + 8) == v * 100000000);
    assert(leading_value(digits, n + 9) == v * 1000000000);
    lemma_leading_value_grows(digits, n + 10, m);
}

} // verus!
