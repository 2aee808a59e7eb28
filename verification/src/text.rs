//! Text: the sequences of characters that the other modules read and write.

use vstd::prelude::*;

verus! {

/// `String::push` appends one character.
pub assume_specification[ String::push ](s: &mut String, ch: char)
    ensures
        final(s)@ == old(s)@.push(ch),
;

/// The views of a list of strings.
pub open spec fn texts(v: Seq<String>) -> Seq<Seq<char>> {
    v.map_values(|s: String| s@)
}

/// The characters of `s`, one by one.
pub fn chars_of(s: &str) -> (v: Vec<char>)
    ensures
        v@ == s@,
{
    let mut v: Vec<char> = Vec::new();
    for c in it: s.chars()
        invariant
            v@ == it.seq().take(it.index() as int),
            it.seq() == s@,
    {
        v.push(c);
        assert(it.seq().take(it.index() + 1) == it.seq().take(it.index() as int).push(c));
    }
    assert(v@ == s@);
    v
}

/// Whether two strings hold the same characters.
pub fn same_text(a: &str, b: &str) -> (r: bool)
    ensures
        r == (a@ == b@),
{
    let left: String = a.to_owned();
    let right: String = b.to_owned();
    left == right
}

/// The character of the digit `d` below ten.
pub open spec fn digit(d: nat) -> char {
    (48 + d) as char
}

/// `n` written in `base`, which is at most ten, without leading zeros.
pub open spec fn numeral(n: nat, base: nat) -> Seq<char>
    decreases n,
    when base >= 2
{
    if n < base {
        seq![digit(n)]
    } else {
        proof {
            vstd::arithmetic::div_mod::lemma_div_decreases(n as int, base as int);
        }
        numeral(n / base, base).push(digit(n % base))
    }
}

/// `n` written in decimal.
pub open spec fn decimal(n: nat) -> Seq<char> {
    numeral(n, 10)
}

/// `n` written in decimal, with a minus sign where it is negative.
pub open spec fn signed_decimal(n: int) -> Seq<char> {
    if n < 0 {
        "-"@ + decimal((-n) as nat)
    } else {
        decimal(n as nat)
    }
}

/// `s` with zeros in front until it is `width` characters long.
pub open spec fn zero_padded(s: Seq<char>, width: nat) -> Seq<char> {
    if s.len() < width {
        Seq::new((width - s.len()) as nat, |i: int| '0') + s
    } else {
        s
    }
}

/// The text of a truth value.
pub open spec fn bool_text(b: bool) -> Seq<char> {
    if b {
        "true"@
    } else {
        "false"@
    }
}

/// The texts in `parts`, with `sep` between neighbours.
pub open spec fn joined(parts: Seq<Seq<char>>, sep: Seq<char>) -> Seq<char>
    decreases parts.len(),
{
    if parts.len() == 0 {
        Seq::empty()
    } else if parts.len() == 1 {
        parts[0]
    } else {
        joined(parts.drop_last(), sep) + sep + parts.last()
    }
}

/// Writes `n` in `base`.
pub fn write_numeral(n: u64, base: u64) -> (s: String)
    requires
        2 <= base <= 10,
    ensures
        s@ == numeral(n as nat, base as nat),
    decreases n,
{
    if n < base {
        let mut s = String::new();
        s.push((48u8 + n as u8) as char);
        assert(s@ == numeral(n as nat, base as nat));
        s
    } else {
        proof {
            vstd::arithmetic::div_mod::lemma_div_decreases(n as int, base as int);
        }
        let mut s = write_numeral(n / base, base);
        let d: u64 = n % base;
        s.push((48u8 + d as u8) as char);
        s
    }
}

/// Writes `n` in decimal.
pub fn write_decimal(n: u64) -> (s: String)
    ensures
        s@ == decimal(n as nat),
{
    write_numeral(n, 10)
}

/// Writes a signed `n` in decimal.
pub fn write_signed(n: i64) -> (s: String)
    ensures
        s@ == signed_decimal(n as int),
{
    if n < 0 {
        let mut s = String::from_str("-");
        let magnitude: u64 = (-(n as i128)) as u64;
        s.append(write_decimal(magnitude).as_str());
        s
    } else {
        write_decimal(n as u64)
    }
}

/// Writes `n` in decimal, with zeros in front until `width` characters are reached.
pub fn write_padded(n: u64, width: usize) -> (s: String)
    ensures
        s@ == zero_padded(decimal(n as nat), width as nat),
{
    let digits = write_decimal(n);
    let have: usize = digits.as_str().unicode_len();
    if have >= width {
        return digits;
    }
    let mut s = String::new();
    let mut i: usize = have;
    while i < width
        invariant
            have <= i <= width,
            s@ == Seq::new((i - have) as nat, |j: int| '0'),
        decreases width - i,
    {
        s.push('0');
        i += 1;
        assert(s@ == Seq::new((i - have) as nat, |j: int| '0'));
    }
    s.append(digits.as_str());
    s
}

/// Writes a truth value.
pub fn write_bool(b: bool) -> (s: String)
    ensures
        s@ == bool_text(b),
{
    if b {
        String::from_str("true")
    } else {
        String::from_str("false")
    }
}

/// Joins `parts`, with `sep` between neighbours.
pub fn join(parts: &[String], sep: &str) -> (s: String)
    ensures
        s@ == joined(texts(parts@), sep@),
{
    let mut s = String::new();
    for i in 0..parts.len()
        invariant
            s@ == joined(texts(parts@).take(i as int), sep@),
    {
        if i > 0 {
            s.append(sep);
        }
        s.append(parts[i].as_str());
        proof {
            let now = texts(parts@).take(i + 1);
            assert(now.drop_last() == texts(parts@).take(i as int));
            assert(now.last() == parts@[i as int]@);
        }
    }
    assert(texts(parts@).take(parts@.len() as int) == texts(parts@));
    s
}

/// Copies a list of strings.
pub fn copy_strings(v: &[String]) -> (r: Vec<String>)
    ensures
        texts(r@) == texts(v@),
        r@ == v@,
{
    let mut r: Vec<String> = Vec::new();
    for i in 0..v.len()
        invariant
            r@ == v@.take(i as int),
    {
        r.push(v[i].clone());
        assert(v@.take(i + 1) == v@.take(i as int).push(v@[i as int]));
    }
    assert(v@.take(v@.len() as int) == v@);
    r
}

/// Whether `v` holds the text `t`.
pub fn contains_text(v: &[String], t: &String) -> (r: bool)
    ensures
        r == texts(v@).contains(t@),
{
    for i in 0..v.len()
        invariant
            forall|j: int| 0 <= j < i ==> v@[j]@ != t@,
    {
        if v[i] == *t {
            assert(texts(v@)[i as int] == t@);
            return true;
        }
    }
    assert(forall|j: int| 0 <= j < texts(v@).len() ==> texts(v@)[j] == v@[j]@);
    false
}

/// Whether `t` holds the character `c`.
pub fn contains_char(t: &str, c: char) -> (r: bool)
    ensures
        r == t@.contains(c),
{
    let v = chars_of(t);
    for i in 0..v.len()
        invariant
            v@ == t@,
            forall|j: int| 0 <= j < i ==> t@[j] != c,
    {
        if v[i] == c {
            assert(t@[i as int] == c);
            return true;
        }
    }
    false
}

/// What follows `prefix` in `t`, where `t` starts with it.
pub open spec fn after_prefix(t: Seq<char>, prefix: Seq<char>) -> Option<Seq<char>> {
    if prefix.is_prefix_of(t) {
        Some(t.skip(prefix.len() as int))
    } else {
        None
    }
}

/// What precedes `suffix` in `t`, where `t` ends with it.
pub open spec fn before_suffix(t: Seq<char>, suffix: Seq<char>) -> Option<Seq<char>> {
    if suffix.is_suffix_of(t) {
        Some(t.take(t.len() - suffix.len()))
    } else {
        None
    }
}

/// The pieces of `s` between the separators `sep`: one more than there are of them.
pub open spec fn pieces<T>(s: Seq<T>, sep: T) -> Seq<Seq<T>>
    decreases s.len(),
{
    if s.len() == 0 {
        seq![Seq::<T>::empty()]
    } else {
        let before = pieces(s.drop_last(), sep);
        if s.last() == sep {
            before.push(Seq::<T>::empty())
        } else {
            before.drop_last().push(before.last().push(s.last()))
        }
    }
}

pub proof fn lemma_pieces_not_empty<T>(s: Seq<T>, sep: T)
    ensures
        pieces(s, sep).len() > 0,
    decreases s.len(),
{
    if s.len() > 0 {
        lemma_pieces_not_empty(s.drop_last(), sep);
    }
}

/// Splits `t` at each character `sep`.
pub fn split(t: &str, sep: char) -> (r: Vec<String>)
    ensures
        texts(r@) == pieces(t@, sep),
{
    let v = chars_of(t);
    let mut done: Vec<String> = Vec::new();
    let mut current = String::new();
    assert(texts(done@).push(current@) == pieces(t@.take(0), sep));
    for i in 0..v.len()
        invariant
            v@ == t@,
            texts(done@).push(current@) == pieces(t@.take(i as int), sep),
    {
        let ghost before = texts(done@).push(current@);
        assert(t@.take(i + 1).drop_last() == t@.take(i as int));
        assert(before.last() == current@ && before.drop_last() == texts(done@));
        if v[i] == sep {
            let ghost grown = done@.push(current);
            done.push(current);
            current = String::new();
            assert(texts(grown) == before);
            assert(texts(done@).push(current@) == before.push(Seq::<char>::empty()));
        } else {
            current.push(v[i]);
        }
    }
    assert(t@.take(t@.len() as int) == t@);
    let ghost all = texts(done@).push(current@);
    done.push(current);
    assert(texts(done@) == all);
    done
}

/// The view of something that may be missing.
pub open spec fn opt_view<T: View>(o: Option<T>) -> Option<T::V> {
    match o {
        Some(x) => Some(x@),
        None => None,
    }
}

/// The view of an optional string.
pub open spec fn opt_text(o: Option<String>) -> Option<Seq<char>> {
    match o {
        Some(s) => Some(s@),
        None => None,
    }
}

/// Strips `prefix` from the front of `t`.
pub fn strip_prefix(t: &str, prefix: &str) -> (r: Option<String>)
    ensures
        opt_text(r) == after_prefix(t@, prefix@),
{
    let n: usize = t.unicode_len();
    let k: usize = prefix.unicode_len();
    if k > n {
        return None;
    }
    let head: &str = t.substring_char(0, k);
    if same_text(head, prefix) {
        assert(t@.skip(k as int) == t@.subrange(k as int, n as int));
        Some(t.substring_char(k, n).to_owned())
    } else {
        None
    }
}

/// Strips `suffix` from the end of `t`.
pub fn strip_suffix(t: &str, suffix: &str) -> (r: Option<String>)
    ensures
        opt_text(r) == before_suffix(t@, suffix@),
{
    let n: usize = t.unicode_len();
    let k: usize = suffix.unicode_len();
    if k > n {
        return None;
    }
    let tail: &str = t.substring_char(n - k, n);
    if same_text(tail, suffix) {
        assert(t@.take(n - k) == t@.subrange(0, n - k));
        Some(t.substring_char(0, n - k).to_owned())
    } else {
        None
    }
}

/// Whether a character is a decimal digit.
pub open spec fn is_digit(c: char) -> bool {
    '0' <= c <= '9'
}

/// The number that a decimal digit stands for.
pub open spec fn digit_value(c: char) -> nat {
    (c as int - '0' as int) as nat
}

/// The number that decimal digits stand for.
pub open spec fn number(digits: Seq<char>) -> nat
    decreases digits.len(),
{
    if digits.len() == 0 {
        0
    } else {
        number(digits.drop_last()) * 10 + digit_value(digits.last())
    }
}

/// Whether a text is made of decimal digits, at least one.
pub open spec fn all_digits(t: Seq<char>) -> bool {
    t.len() > 0 && forall|i: int| 0 <= i < t.len() ==> is_digit(#[trigger] t[i])
}

/// What follows the plus sign in front of a text, if there is one.
pub open spec fn unsigned_part(t: Seq<char>) -> Seq<char> {
    if t.len() > 0 && t[0] == '+' {
        t.skip(1)
    } else {
        t
    }
}

/// The number that a text writes: digits, with a plus sign in front or without.
pub open spec fn written_number(t: Seq<char>) -> Option<nat> {
    if all_digits(unsigned_part(t)) {
        Some(number(unsigned_part(t)))
    } else {
        None
    }
}

/// The number that a text writes, where it is at most `max`.
pub open spec fn bounded_number(t: Seq<char>, max: nat) -> Option<nat> {
    match written_number(t) {
        Some(n) => if n <= max {
            Some(n)
        } else {
            None
        },
        None => None,
    }
}

/// Reads the number that `t` writes, where it is at most `max`.
pub fn parse_number(t: &str, max: u64) -> (r: Option<u64>)
    ensures
        match r {
            Some(n) => bounded_number(t@, max as nat) == Some(n as nat),
            None => bounded_number(t@, max as nat) is None,
        },
{
    let v = chars_of(t);
    let start: usize = if v.len() > 0 && v[0] == '+' {
        1
    } else {
        0
    };
    let ghost digits = unsigned_part(t@);
    assert(digits == t@.skip(start as int));
    if start == v.len() {
        return None;
    }
    let mut n: u64 = 0;
    let mut i: usize = start;
    assert(digits.take(0) =~= Seq::empty());
    let mut too_large = false;
    while i < v.len()
        invariant
            start <= i <= v.len(),
            v@ == t@,
            digits == unsigned_part(t@),
            digits == t@.skip(start as int),
            forall|j: int| 0 <= j < i - start ==> is_digit(#[trigger] digits[j]),
            !too_large ==> n == number(digits.take(i - start)) && n <= max,
            too_large ==> number(digits.take(i - start)) > max,
        decreases v.len() - i,
    {
        let c = v[i];
        assert(digits[i - start] == c);
        if !('0' <= c && c <= '9') {
            return None;
        }
        let d: u64 = c as u64 - 48;
        proof {
            assert(digits.take(i - start + 1).drop_last() == digits.take(i - start));
            assert(d == digit_value(c));
        }
        if !too_large {
            if n > max / 10 || d > max - n * 10 {
                too_large = true;
            } else {
                n = n * 10 + d;
            }
        }
        i += 1;
    }
    assert(digits.take(digits.len() as int) == digits);
    if too_large {
        None
    } else {
        Some(n)
    }
}

/// Reading what `numeral` writes gives the number back.
pub proof fn lemma_decimal_reads_back(n: nat)
    ensures
        number(decimal(n)) == n,
        all_digits(decimal(n)),
        written_number(decimal(n)) == Some(n),
    decreases n,
{
    if n >= 10 {
        lemma_decimal_reads_back(n / 10);
        let front = decimal(n / 10);
        assert(decimal(n) == front.push(digit(n % 10)));
        assert(decimal(n).drop_last() == front);
    } else {
        assert(decimal(n).drop_last() =~= Seq::empty());
        assert(number(decimal(n).drop_last()) == 0);
    }
}

/// Ten to the power of `k`.
pub open spec fn power_of_ten(k: nat) -> nat
    decreases k,
{
    if k == 0 {
        1
    } else {
        power_of_ten((k - 1) as nat) * 10
    }
}

proof fn lemma_decimal_length(n: nat, k: nat)
    requires
        k >= 1,
        n < power_of_ten(k),
    ensures
        1 <= decimal(n).len() <= k,
    decreases k,
{
    if n >= 10 {
        if k == 1 {
            assert(power_of_ten(1) == power_of_ten(0) * 10);
        } else {
            lemma_decimal_length(n / 10, (k - 1) as nat);
        }
    }
}

/// A number with fewer than `k` digits is below ten to the power of `k`.
pub proof fn lemma_short_decimal(n: nat, k: nat)
    requires
        decimal(n).len() < k,
    ensures
        n < power_of_ten(k),
    decreases k,
{
    if n >= 10 {
        lemma_short_decimal(n / 10, (k - 1) as nat);
    } else {
        lemma_power_of_ten_grows(k);
    }
}

proof fn lemma_power_of_ten_grows(k: nat)
    requires
        k >= 1,
    ensures
        power_of_ten(k) >= 10,
    decreases k,
{
    if k > 1 {
        lemma_power_of_ten_grows((k - 1) as nat);
    } else {
        assert(power_of_ten(0) == 1);
    }
}

proof fn lemma_leading_zeros(zeros: Seq<char>, digits: Seq<char>)
    requires
        forall|i: int| 0 <= i < zeros.len() ==> zeros[i] == '0',
    ensures
        number(zeros + digits) == number(digits),
    decreases zeros.len() + digits.len(),
{
    if digits.len() == 0 {
        if zeros.len() > 0 {
            lemma_leading_zeros(zeros.drop_last(), digits);
            assert(zeros + digits == zeros);
            assert(zeros.drop_last() + digits == zeros.drop_last());
        } else {
            assert(zeros + digits == digits);
        }
    } else {
        lemma_leading_zeros(zeros, digits.drop_last());
        assert((zeros + digits).drop_last() == zeros + digits.drop_last());
        assert((zeros + digits).last() == digits.last());
    }
}

/// A number that has room in `width` digits is written with exactly so many,
/// and reading them gives it back.
pub proof fn lemma_padded_reads_back(n: nat, width: nat)
    requires
        width >= 1,
        n < power_of_ten(width),
    ensures
        zero_padded(decimal(n), width).len() == width,
        number(zero_padded(decimal(n), width)) == n,
{
    lemma_decimal_length(n, width);
    lemma_decimal_reads_back(n);
    let zeros = Seq::new((width - decimal(n).len()) as nat, |i: int| '0');
    lemma_leading_zeros(zeros, decimal(n));
}

} // verus!
