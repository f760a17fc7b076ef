//! Strings as sequences of characters: searching, splitting, comparing and numbers.
use vstd::prelude::*;
use vstd::string::*;

verus! {

/// The characters of `s`, one by one.
pub fn to_chars(s: &str) -> (chars: Vec<char>)
    ensures
        chars@ == s@,
{
    let mut chars: Vec<char> = Vec::new();
    for c in it: s.chars()
        invariant
            it.seq() == s@,
            chars@ == s@.take(it.index() as int),
    {
        chars.push(c);
    }
    chars
}

/// Whether two strings hold the same characters.
pub fn str_eq(a: &str, b: &str) -> (equal: bool)
    ensures
        equal == (a@ == b@),
{
    a.to_owned() == b.to_owned()
}

/// How many characters of `s` come before its first `c`: all of them when there is none.
pub open spec fn upto(s: Seq<char>, c: char) -> int
    decreases s.len(),
{
    if s.len() == 0 || s[0] == c {
        0
    } else {
        1 + upto(s.skip(1), c)
    }
}

/// `upto` is the only position with no `c` before it and a `c`, or the end, at it.
pub proof fn lemma_upto(s: Seq<char>, c: char, i: int)
    requires
        0 <= i <= s.len(),
        forall|j: int| 0 <= j < i ==> s[j] != c,
        i < s.len() ==> s[i] == c,
    ensures
        upto(s, c) == i,
    decreases s.len(),
{
    if i > 0 {
        lemma_upto(s.skip(1), c, i - 1);
    }
}

/// What `upto` says of every sequence.
pub proof fn lemma_upto_bounds(s: Seq<char>, c: char)
    ensures
        0 <= upto(s, c) <= s.len(),
        forall|j: int| 0 <= j < upto(s, c) ==> s[j] != c,
        upto(s, c) < s.len() ==> s[upto(s, c)] == c,
        s.contains(c) <==> upto(s, c) < s.len(),
    decreases s.len(),
{
    if s.len() > 0 && s[0] != c {
        lemma_upto_bounds(s.skip(1), c);
        let n = upto(s.skip(1), c);
        assert forall|j: int| 0 <= j < upto(s, c) implies s[j] != c by {
            if j > 0 {
                assert(s.skip(1)[j - 1] == s[j]);
            }
        }
        if n < s.skip(1).len() {
            assert(s.skip(1)[n] == s[n + 1]);
        }
    }
}

/// The position of the first `c` in `chars`, or its length.
pub fn position(chars: &Vec<char>, c: char) -> (at: usize)
    ensures
        at == upto(chars@, c),
{
    let mut i: usize = 0;
    while i < chars.len()
        invariant
            i <= chars@.len(),
            forall|j: int| 0 <= j < i ==> chars@[j] != c,
        decreases chars.len() - i,
    {
        if chars[i] == c {
            proof {
                lemma_upto(chars@, c, i as int);
            }
            return i;
        }
        i = i + 1;
    }
    proof {
        lemma_upto(chars@, c, i as int);
    }
    i
}

/// The parts of `s` before and after its first `c`.
pub open spec fn split_once_at(s: Seq<char>, c: char) -> Option<(Seq<char>, Seq<char>)> {
    if s.contains(c) {
        Some((s.take(upto(s, c)), s.skip(upto(s, c) + 1)))
    } else {
        None
    }
}

/// Splits `s` at its first `c`, which belongs to neither part.
pub fn split_once<'a>(s: &'a str, c: char) -> (parts: Option<(&'a str, &'a str)>)
    ensures
        parts is Some <==> split_once_at(s@, c) is Some,
        parts matches Some((a, b)) ==> split_once_at(s@, c) == Some((a@, b@)),
{
    let chars: Vec<char> = to_chars(s);
    let at: usize = position(&chars, c);
    proof {
        lemma_upto_bounds(s@, c);
    }
    if at < chars.len() {
        let a: &'a str = s.substring_char(0, at);
        let b: &'a str = s.substring_char(at + 1, chars.len());
        assert(a@ =~= s@.take(at as int));
        assert(b@ =~= s@.skip(at + 1));
        Some((a, b))
    } else {
        None
    }
}

/// The parts of `s` between the `c`s.
pub open spec fn parts_of(s: Seq<char>, c: char) -> Seq<Seq<char>>
    decreases s.len(),
{
    match split_once_at(s, c) {
        Some((a, b)) => if b.len() < s.len() {
            seq![a] + parts_of(b, c)
        } else {
            seq![s]
        },
        None => seq![s],
    }
}

/// Splits `s` at every `c`.
pub fn split(s: &str, c: char) -> (parts: Vec<String>)
    ensures
        parts@.map_values(|p: String| p@) == parts_of(s@, c),
{
    let mut parts: Vec<String> = Vec::new();
    let mut rest: &str = s;
    assert(parts@.map_values(|p: String| p@) + parts_of(rest@, c) =~= parts_of(s@, c));
    loop
        invariant
            parts@.map_values(|p: String| p@) + parts_of(rest@, c) == parts_of(s@, c),
        decreases rest@.len(),
    {
        let ghost before = parts@;
        proof {
            lemma_upto_bounds(rest@, c);
        }
        match split_once(rest, c) {
            Some((a, b)) => {
                parts.push(a.to_owned());
                assert(parts@.map_values(|p: String| p@) =~= before.map_values(|p: String| p@).push(
                    a@,
                ));
                assert(parts@.map_values(|p: String| p@) + parts_of(b@, c) =~= parts_of(s@, c));
                rest = b;
            },
            None => {
                parts.push(rest.to_owned());
                assert(parts@.map_values(|p: String| p@) =~= before.map_values(|p: String| p@).push(
                    rest@,
                ));
                assert(parts@.map_values(|p: String| p@) =~= parts_of(s@, c));
                return parts;
            },
        }
    }
}

/// Whether `s` has `pattern` at position `i`.
pub open spec fn has_at(s: Seq<char>, pattern: Seq<char>, i: int) -> bool {
    0 <= i && i + pattern.len() <= s.len() && s.subrange(i, i + pattern.len()) == pattern
}

/// What comes of `s` from position `i` on when each `pattern`, found from the left, becomes `by`.
pub open spec fn replaced_from(s: Seq<char>, pattern: Seq<char>, by: char, i: int) -> Seq<char>
    decreases s.len() - i,
{
    if i < 0 || i >= s.len() {
        seq![]
    } else if pattern.len() > 0 && has_at(s, pattern, i) {
        seq![by] + replaced_from(s, pattern, by, i + pattern.len())
    } else {
        seq![s[i]] + replaced_from(s, pattern, by, i + 1)
    }
}

/// `s` with each `pattern`, found from the left, replaced by one character.
pub open spec fn replaced(s: Seq<char>, pattern: Seq<char>, by: char) -> Seq<char> {
    replaced_from(s, pattern, by, 0)
}

fn is_at(s: &Vec<char>, pattern: &Vec<char>, i: usize) -> (yes: bool)
    requires
        i <= s@.len(),
    ensures
        yes == has_at(s@, pattern@, i as int),
{
    if pattern.len() > s.len() - i {
        return false;
    }
    let n: usize = s.len();
    let mut k: usize = 0;
    while k < pattern.len()
        invariant
            k <= pattern@.len(),
            i + pattern@.len() <= n == s@.len(),
            forall|j: int| 0 <= j < k ==> s@[i + j] == pattern@[j],
        decreases pattern.len() - k,
    {
        if s[i + k] != pattern[k] {
            assert(s@.subrange(i as int, i + pattern@.len())[k as int] != pattern@[k as int]);
            return false;
        }
        k = k + 1;
    }
    assert(s@.subrange(i as int, i + pattern@.len()) =~= pattern@);
    true
}

/// Replaces each `pattern` in `s`, found from the left, by one character.
pub fn replace(s: &str, pattern: &str, by: char) -> (r: String)
    ensures
        r@ == replaced(s@, pattern@, by),
{
    let chars: Vec<char> = to_chars(s);
    let sought: Vec<char> = to_chars(pattern);
    let mut r: String = String::new();
    let mut i: usize = 0;
    assert(r@ + replaced_from(s@, pattern@, by, 0) =~= replaced(s@, pattern@, by));
    while i < chars.len()
        invariant
            i <= chars@.len(),
            chars@ == s@,
            sought@ == pattern@,
            r@ + replaced_from(s@, pattern@, by, i as int) == replaced(s@, pattern@, by),
        decreases chars.len() - i,
    {
        let ghost before = r@;
        if sought.len() > 0 && is_at(&chars, &sought, i) {
            r.push(by);
            i = i + sought.len();
            assert(r@ + replaced_from(s@, pattern@, by, i as int) =~= before + (seq![by]
                + replaced_from(s@, pattern@, by, i as int)));
        } else {
            r.push(chars[i]);
            i = i + 1;
            assert(r@ + replaced_from(s@, pattern@, by, i as int) =~= before + (seq![s@[i - 1]]
                + replaced_from(s@, pattern@, by, i as int)));
        }
    }
    assert(r@ =~= replaced(s@, pattern@, by));
    r
}

/// The order of strings: by the first character in which they differ, a prefix first.
pub open spec fn precedes(a: Seq<char>, b: Seq<char>) -> bool
    decreases a.len(),
{
    if b.len() == 0 {
        false
    } else if a.len() == 0 {
        true
    } else if a[0] != b[0] {
        (a[0] as int) < (b[0] as int)
    } else {
        precedes(a.skip(1), b.skip(1))
    }
}

/// No string comes before itself.
pub proof fn lemma_precedes_irreflexive(a: Seq<char>)
    ensures
        !precedes(a, a),
    decreases a.len(),
{
    if a.len() > 0 {
        lemma_precedes_irreflexive(a.skip(1));
    }
}

/// Two different strings come in one order.
pub proof fn lemma_precedes_total(a: Seq<char>, b: Seq<char>)
    requires
        !precedes(a, b),
        !precedes(b, a),
    ensures
        a == b,
    decreases a.len(),
{
    if a.len() > 0 && b.len() > 0 {
        lemma_precedes_total(a.skip(1), b.skip(1));
        assert(a =~= seq![a[0]] + a.skip(1));
        assert(b =~= seq![b[0]] + b.skip(1));
    } else {
        assert(a =~= b);
    }
}

/// The order of strings is transitive.
pub proof fn lemma_precedes_transitive(a: Seq<char>, b: Seq<char>, c: Seq<char>)
    requires
        precedes(a, b),
        precedes(b, c),
    ensures
        precedes(a, c),
    decreases a.len(),
{
    if a.len() > 0 && a[0] == b[0] && b[0] == c[0] {
        lemma_precedes_transitive(a.skip(1), b.skip(1), c.skip(1));
    }
}

proof fn lemma_precedes_at(a: Seq<char>, b: Seq<char>, i: int)
    requires
        0 <= i <= a.len(),
        i <= b.len(),
        forall|j: int| 0 <= j < i ==> a[j] == b[j],
    ensures
        precedes(a, b) == precedes(a.skip(i), b.skip(i)),
    decreases i,
{
    if i == 0 {
        assert(a.skip(0) =~= a);
        assert(b.skip(0) =~= b);
    } else {
        assert(a[0] == b[0]);
        lemma_precedes_at(a.skip(1), b.skip(1), i - 1);
        assert(a.skip(1).skip(i - 1) =~= a.skip(i));
        assert(b.skip(1).skip(i - 1) =~= b.skip(i));
    }
}

/// Whether `a` comes before `b` in the order of strings.
pub fn str_lt(a: &str, b: &str) -> (less: bool)
    ensures
        less == precedes(a@, b@),
{
    let x: Vec<char> = to_chars(a);
    let y: Vec<char> = to_chars(b);
    let mut i: usize = 0;
    while i < x.len() && i < y.len()
        invariant
            i <= x@.len(),
            i <= y@.len(),
            forall|j: int| 0 <= j < i ==> x@[j] == y@[j],
            x@ == a@,
            y@ == b@,
        decreases x.len() - i,
    {
        let c: char = x[i];
        let d: char = y[i];
        if c != d {
            proof {
                lemma_precedes_at(x@, y@, i as int);
            }
            return c < d;
        }
        i = i + 1;
    }
    proof {
        lemma_precedes_at(x@, y@, i as int);
    }
    i < y.len()
}

/// `String::push`: the character comes behind the others.
pub assume_specification[ String::push ](s: &mut String, c: char)
    ensures
        final(s)@ == old(s)@.push(c),
;

/// The characters of `a`, then those of `b`.
pub fn concat(a: &str, b: &str) -> (s: String)
    ensures
        s@ == a@ + b@,
{
    let mut s: String = a.to_owned();
    s.append(b);
    s
}

/// The character of a decimal digit.
pub open spec fn digit(d: int) -> char {
    (48 + d) as char
}

/// A number in decimal, without leading zeros.
pub open spec fn decimal(n: nat) -> Seq<char>
    decreases n,
{
    if n < 10 {
        seq![digit(n as int)]
    } else {
        decimal(n / 10).push(digit((n % 10) as int))
    }
}

/// Whether a string holds decimal digits alone.
pub open spec fn all_digits(s: Seq<char>) -> bool {
    forall|i: int| 0 <= i < s.len() ==> '0' <= #[trigger] s[i] <= '9'
}

/// The number that a string of digits stands for.
pub open spec fn digits_value(s: Seq<char>) -> nat
    decreases s.len(),
{
    if s.len() == 0 {
        0
    } else {
        digits_value(s.drop_last()) * 10 + (s.last() as int - 48) as nat
    }
}

/// A number in decimal reads as the number, and is made of digits.
pub proof fn lemma_decimal(n: nat)
    ensures
        digits_value(decimal(n)) == n,
        all_digits(decimal(n)),
        decimal(n).len() > 0,
    decreases n,
{
    let d = decimal(n);
    assert(digit((n % 10) as int) as int - 48 == n % 10);
    assert('0' <= digit((n % 10) as int) <= '9');
    if n >= 10 {
        lemma_decimal(n / 10);
        assert(d.drop_last() =~= decimal(n / 10));
    } else {
        assert(d.drop_last() =~= Seq::<char>::empty());
        assert(digits_value(d.drop_last()) == 0);
    }
}

/// Different numbers have different decimals.
pub proof fn lemma_decimal_injective(a: nat, b: nat)
    requires
        decimal(a) == decimal(b),
    ensures
        a == b,
{
    lemma_decimal(a);
    lemma_decimal(b);
}

fn digit_char(d: u64) -> (c: char)
    requires
        d < 10,
    ensures
        c == digit(d as int),
{
    (48 + d as u8) as char
}

/// `n` in decimal.
pub fn to_decimal(n: u64) -> (s: String)
    ensures
        s@ == decimal(n as nat),
    decreases n,
{
    let last: char = digit_char(n % 10);
    let mut s: String = if n < 10 {
        String::new()
    } else {
        to_decimal(n / 10)
    };
    s.push(last);
    assert(s@ =~= decimal(n as nat));
    s
}

/// The digits that a decimal number is written with: one leading plus sign is left out.
pub open spec fn unsigned_digits(s: Seq<char>) -> Seq<char> {
    if s.len() > 0 && s[0] == '+' {
        s.skip(1)
    } else {
        s
    }
}

/// The number below `limit` that a string writes in decimal, with an optional plus sign.
pub open spec fn parsed_number(s: Seq<char>, limit: int) -> Option<nat> {
    let d = unsigned_digits(s);
    if d.len() > 0 && all_digits(d) && digits_value(d) < limit {
        Some(digits_value(d))
    } else {
        None
    }
}

proof fn lemma_digits_grow(s: Seq<char>, i: int)
    requires
        0 <= i <= s.len(),
        all_digits(s),
    ensures
        digits_value(s.take(i)) <= digits_value(s),
    decreases s.len() - i,
{
    if i == s.len() {
        assert(s.take(i) =~= s);
    } else {
        lemma_digits_grow(s, i + 1);
        assert(s.take(i + 1).drop_last() =~= s.take(i));
        assert(s.take(i + 1).last() == s[i]);
    }
}

/// Reads a decimal number that fits in 64 bits.
pub fn parse_u64(s: &str) -> (n: Option<u64>)
    ensures
        n is Some == parsed_number(s@, u64::MAX + 1) is Some,
        n matches Some(k) ==> parsed_number(s@, u64::MAX + 1) == Some(k as nat),
{
    let chars: Vec<char> = to_chars(s);
    let start: usize = if chars.len() > 0 && chars[0] == '+' {
        1
    } else {
        0
    };
    let ghost d = unsigned_digits(s@);
    assert(d =~= chars@.skip(start as int));
    if start == chars.len() {
        return None;
    }
    let mut i: usize = start;
    let mut value: u64 = 0;
    while i < chars.len()
        invariant
            start <= i <= chars@.len(),
            d == chars@.skip(start as int),
            d.len() > 0,
            d == unsigned_digits(s@),
            all_digits(d.take(i - start)),
            value == digits_value(d.take(i - start)),
        decreases chars.len() - i,
    {
        let c: char = chars[i];
        let ghost k = i - start;
        proof {
            assert(d[k] == c);
            assert(d.take(k + 1).drop_last() =~= d.take(k));
            assert(d.take(k + 1).last() == c);
        }
        if c < '0' || '9' < c {
            return None;
        }
        let digit: u64 = c as u64 - 48;
        proof {
            assert(all_digits(d.take(k + 1)));
            if value as int * 10 + digit as int > u64::MAX && all_digits(d) {
                lemma_digits_grow(d, k + 1);
            }
        }
        value = match value.checked_mul(10) {
            Some(v) => match v.checked_add(digit) {
                Some(v) => v,
                None => return None,
            },
            None => return None,
        };
        i = i + 1;
    }
    assert(d.take(d.len() as int) =~= d);
    Some(value)
}

/// A string is split at the first separator: what comes before it is the first part, and the rest
/// is split in the same way. A string without one is one part.
pub proof fn law_strings_are_split_at_separators(a: Seq<char>, b: Seq<char>, c: char)
    requires
        !a.contains(c),
    ensures
        split_once_at(a, c) is None,
        split_once_at(a + seq![c] + b, c) == Some((a, b)),
        parts_of(a, c) == seq![a],
        parts_of(a + seq![c] + b, c) == seq![a] + parts_of(b, c),
{
    let s = a + seq![c] + b;
    let n = a.len() as int;
    assert(s[n] == c);
    assert forall|j: int| 0 <= j < n implies s[j] != c by {
        assert(s[j] == a[j]);
        assert(a.contains(a[j]));
    }
    lemma_upto(s, c, n);
    assert(s.contains(c));
    assert(s.take(n) =~= a);
    assert(s.skip(n + 1) =~= b);
}

/// A pattern that stands at the start of a string is replaced, and what comes behind it is treated
/// in the same way; a character with which no pattern starts stays.
pub proof fn law_patterns_are_replaced(s: Seq<char>, pattern: Seq<char>, by: char, i: int)
    requires
        0 <= i < s.len(),
        pattern.len() > 0,
    ensures
        replaced(s, pattern, by) == replaced_from(s, pattern, by, 0),
        replaced_from(s, pattern, by, s.len() as int) == Seq::<char>::empty(),
        i + pattern.len() <= s.len() && s.subrange(i, i + pattern.len()) == pattern ==> replaced_from(
            s,
            pattern,
            by,
            i,
        ) == seq![by] + replaced_from(s, pattern, by, i + pattern.len()),
        !(i + pattern.len() <= s.len() && s.subrange(i, i + pattern.len()) == pattern)
            ==> replaced_from(s, pattern, by, i) == seq![s[i]] + replaced_from(s, pattern, by, i + 1),
{
}

/// The order of strings is by the first character in which they differ; a string comes before all
/// that it starts.
pub proof fn law_strings_are_ordered(prefix: Seq<char>, a: char, b: char, s: Seq<char>, t: Seq<char>)
    ensures
        (a as int) < (b as int) ==> precedes(prefix + seq![a] + s, prefix + seq![b] + t),
        precedes(prefix, prefix + seq![b] + t),
    decreases prefix.len(),
{
    let x = prefix + seq![a] + s;
    let y = prefix + seq![b] + t;
    if prefix.len() > 0 {
        law_strings_are_ordered(prefix.skip(1), a, b, s, t);
        assert(x.skip(1) =~= prefix.skip(1) + seq![a] + s);
        assert(y.skip(1) =~= prefix.skip(1) + seq![b] + t);
        assert(x[0] == prefix[0] && y[0] == prefix[0]);
    } else {
        assert(x[0] == a && y[0] == b);
    }
}

/// A number is written digit by digit, and read in the same way.
pub proof fn law_numbers_are_written_in_decimal(n: nat, d: nat, s: Seq<char>, c: char)
    requires
        d < 10,
        '0' <= c <= '9',
    ensures
        decimal(d) == seq![(48 + d) as char],
        n > 0 ==> decimal(10 * n + d) == decimal(n).push((48 + d) as char),
        digits_value(seq![]) == 0,
        digits_value(s.push(c)) == 10 * digits_value(s) + (c as int - 48),
{
    assert(s.push(c).drop_last() =~= s);
    assert((10 * n + d) / 10 == n);
    assert((10 * n + d) % 10 == d);
}

/// A text is read as a number exactly when it is digits, with a plus sign before them or not, and
/// the number is below the limit.
pub proof fn law_which_texts_are_numbers(s: Seq<char>, limit: int)
    requires
        s.len() > 0,
        s[0] != '+',
    ensures
        ({
            let digits = forall|i: int| 0 <= i < s.len() ==> '0' <= #[trigger] s[i] <= '9';
            &&& parsed_number(s, limit) is Some <==> digits && digits_value(s) < limit
            &&& parsed_number(s, limit) matches Some(n) ==> n == digits_value(s)
            &&& parsed_number(seq!['+'] + s, limit) == parsed_number(s, limit)
            &&& parsed_number(seq![], limit) is None
        }),
{
    let t = seq!['+'] + s;
    assert(t.skip(1) =~= s);
}

} // verus!
