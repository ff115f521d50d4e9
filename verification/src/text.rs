//! Strings as sequences of characters, and the small operations on them that
//! the rest of the library is written in.

use vstd::prelude::*;

verus! {

/// Appends one character: `String::push` of the standard library.
pub assume_specification[ String::push ](s: &mut String, c: char)
    ensures
        final(s)@ == old(s)@.push(c),
;

/// Whether two strings hold the same characters.
pub fn same(a: &str, b: &str) -> (r: bool)
    ensures
        r == (a@ == b@),
{
    a.to_owned() == b.to_owned()
}

/// The characters of a string that may be absent.
pub open spec fn view_of(s: Option<String>) -> Option<Seq<char>> {
    match s {
        Some(s) => Some(s@),
        None => None,
    }
}

/// Strings, as sequences of characters.
pub open spec fn texts(v: Seq<String>) -> Seq<Seq<char>> {
    v.map_values(|s: String| s@)
}

/// A copy of a string that may be absent.
pub fn copied(s: &Option<String>) -> (r: Option<String>)
    ensures
        r == *s,
{
    match s {
        Some(s) => Some(s.clone()),
        None => None,
    }
}

/// The characters of a string, one by one.
pub fn chars_of(s: &str) -> (v: Vec<char>)
    ensures
        v@ == s@,
{
    let mut v: Vec<char> = Vec::new();
    for c in it: s.chars()
        invariant
            v@ == s@.take(it.index() as int),
            it.seq() == s@,
    {
        v.push(c);
        assert(s@.take(it.index() + 1) =~= s@.take(it.index() as int).push(c));
    }
    assert(s@.take(s@.len() as int) =~= s@);
    v
}

/// The string made of the characters at positions `from..to`.
pub fn string_of(v: &Vec<char>, from: usize, to: usize) -> (s: String)
    requires
        from <= to <= v@.len(),
    ensures
        s@ == v@.subrange(from as int, to as int),
{
    let mut s = String::new();
    let mut i: usize = from;
    while i < to
        invariant
            from <= i <= to <= v@.len(),
            s@ == v@.subrange(from as int, i as int),
        decreases to - i,
    {
        s.push(v[i]);
        assert(v@.subrange(from as int, i + 1) =~= v@.subrange(from as int, i as int).push(
            v@[i as int],
        ));
        i = i + 1;
    }
    s
}

/// The digit character of a number below ten.
pub open spec fn digit(n: nat) -> char {
    (n + 48) as char
}

/// A natural number in decimal, without leading zeros.
pub open spec fn digits(n: nat) -> Seq<char>
    decreases n,
{
    if n < 10 {
        seq![digit(n)]
    } else {
        digits(n / 10).push(digit(n % 10))
    }
}

/// An integer in decimal, with a minus sign when negative.
pub open spec fn signed_digits(n: int) -> Seq<char> {
    if n < 0 {
        seq!['-'] + digits((-n) as nat)
    } else {
        digits(n as nat)
    }
}

/// A number in decimal.
pub fn decimal(n: u64) -> (s: String)
    ensures
        s@ == digits(n as nat),
    decreases n,
{
    let last = (48 + (n % 10) as u8) as char;
    if n < 10 {
        let mut s = String::new();
        s.push(last);
        assert(s@ =~= digits(n as nat));
        s
    } else {
        let mut s = decimal(n / 10);
        s.push(last);
        s
    }
}

/// An integer in decimal, with a minus sign when negative.
pub fn signed_decimal(n: i64) -> (s: String)
    ensures
        s@ == signed_digits(n as int),
{
    if n < 0 {
        let mut s = String::new();
        s.push('-');
        s.append(decimal((-(n as i128)) as u64).as_str());
        assert(s@ =~= signed_digits(n as int));
        s
    } else {
        decimal(n as u64)
    }
}

/// Whether a character is white space, by Unicode's `White_Space` property.
pub open spec fn is_white(c: char) -> bool {
    ||| 0x09 <= c as u32 <= 0x0d
    ||| c as u32 == 0x20
    ||| c as u32 == 0x85
    ||| c as u32 == 0xa0
    ||| c as u32 == 0x1680
    ||| 0x2000 <= c as u32 <= 0x200a
    ||| c as u32 == 0x2028
    ||| c as u32 == 0x2029
    ||| c as u32 == 0x202f
    ||| c as u32 == 0x205f
    ||| c as u32 == 0x3000
}

/// Whether a character is white space, by Unicode's `White_Space` property.
pub fn white(c: char) -> (r: bool)
    ensures
        r == is_white(c),
{
    let n = c as u32;
    (0x09 <= n && n <= 0x0d) || n == 0x20 || n == 0x85 || n == 0xa0 || n == 0x1680 || (0x2000 <= n
        && n <= 0x200a) || n == 0x2028 || n == 0x2029 || n == 0x202f || n == 0x205f || n == 0x3000
}

/// Whether a text holds nothing but white space.
pub open spec fn is_blank(s: Seq<char>) -> bool {
    forall|i: int| 0 <= i < s.len() ==> is_white(#[trigger] s[i])
}

/// Whether a text holds nothing but white space.
pub fn blank(s: &str) -> (r: bool)
    ensures
        r == is_blank(s@),
{
    let v = chars_of(s);
    let mut i: usize = 0;
    while i < v.len()
        invariant
            i <= v.len(),
            v@ == s@,
            forall|j: int| 0 <= j < i ==> is_white(#[trigger] v@[j]),
        decreases v.len() - i,
    {
        if !white(v[i]) {
            return false;
        }
        i = i + 1;
    }
    true
}

/// A text without the white space it begins with.
pub open spec fn trimmed_start(s: Seq<char>) -> Seq<char>
    decreases s.len(),
{
    if s.len() > 0 && is_white(s[0]) {
        trimmed_start(s.drop_first())
    } else {
        s
    }
}

/// A text without the white space it ends with.
pub open spec fn trimmed_end(s: Seq<char>) -> Seq<char>
    decreases s.len(),
{
    if s.len() > 0 && is_white(s.last()) {
        trimmed_end(s.drop_last())
    } else {
        s
    }
}

/// A text without the white space at its two ends.
pub open spec fn trimmed(s: Seq<char>) -> Seq<char> {
    trimmed_end(trimmed_start(s))
}

/// A text without the white space at its two ends.
pub fn trim(s: &str) -> (r: String)
    ensures
        r@ == trimmed(s@),
{
    let v = chars_of(s);
    let mut from: usize = 0;
    assert(v@.subrange(0, v@.len() as int) =~= v@);
    while from < v.len() && white(v[from])
        invariant
            from <= v.len(),
            trimmed_start(v@) == trimmed_start(v@.subrange(from as int, v@.len() as int)),
        decreases v.len() - from,
    {
        assert(v@.subrange(from as int, v@.len() as int).drop_first() =~= v@.subrange(
            from + 1,
            v@.len() as int,
        ));
        from = from + 1;
    }
    let ghost body = v@.subrange(from as int, v@.len() as int);
    assert(trimmed_start(v@) == body);
    let mut to: usize = v.len();
    while from < to && white(v[to - 1])
        invariant
            from <= to <= v.len(),
            trimmed_end(body) == trimmed_end(v@.subrange(from as int, to as int)),
        decreases to,
    {
        assert(v@.subrange(from as int, to as int).drop_last() =~= v@.subrange(
            from as int,
            to - 1,
        ));
        to = to - 1;
    }
    string_of(&v, from, to)
}

/// A character with an ASCII capital made small.
pub open spec fn lower(c: char) -> char {
    if 'A' <= c <= 'Z' {
        (c as u32 + 32) as char
    } else {
        c
    }
}

/// Whether two texts differ at most in the case of ASCII letters.
pub open spec fn same_letters(a: Seq<char>, b: Seq<char>) -> bool {
    &&& a.len() == b.len()
    &&& forall|i: int| 0 <= i < a.len() ==> lower(#[trigger] a[i]) == lower(b[i])
}

fn to_lower(c: char) -> (r: char)
    ensures
        r == lower(c),
{
    if 'A' <= c && c <= 'Z' {
        (c as u8 + 32) as char
    } else {
        c
    }
}

/// Whether two texts differ at most in the case of ASCII letters.
pub fn same_ignoring_case(a: &str, b: &str) -> (r: bool)
    ensures
        r == same_letters(a@, b@),
{
    let x = chars_of(a);
    let y = chars_of(b);
    if x.len() != y.len() {
        return false;
    }
    let mut i: usize = 0;
    while i < x.len()
        invariant
            i <= x.len(),
            x.len() == y.len(),
            x@ == a@,
            y@ == b@,
            forall|j: int| 0 <= j < i ==> lower(#[trigger] a@[j]) == lower(b@[j]),
        decreases x.len() - i,
    {
        if to_lower(x[i]) != to_lower(y[i]) {
            assert(lower(a@[i as int]) != lower(b@[i as int]));
            return false;
        }
        i = i + 1;
    }
    true
}

/// Whether a text begins with another.
pub open spec fn begins_with(s: Seq<char>, start: Seq<char>) -> bool {
    s.len() >= start.len() && s.take(start.len() as int) == start
}

/// What follows `start` in a text that begins with it.
pub fn after(s: &str, start: &str) -> (r: Option<String>)
    ensures
        r is Some <==> begins_with(s@, start@),
        r matches Some(rest) ==> rest@ == s@.skip(start@.len() as int),
{
    let v = chars_of(s);
    let w = chars_of(start);
    if v.len() < w.len() {
        return None;
    }
    let mut i: usize = 0;
    while i < w.len()
        invariant
            i <= w.len() <= v.len(),
            v@ == s@,
            w@ == start@,
            forall|j: int| 0 <= j < i ==> v@[j] == #[trigger] w@[j],
        decreases w.len() - i,
    {
        if v[i] != w[i] {
            assert(s@.take(start@.len() as int)[i as int] != start@[i as int]);
            return None;
        }
        i = i + 1;
    }
    assert(s@.take(start@.len() as int) =~= start@);
    assert(v@.subrange(w@.len() as int, v@.len() as int) =~= s@.skip(start@.len() as int));
    Some(string_of(&v, w.len(), v.len()))
}

/// Whether a character occurs in a text.
pub fn holds(s: &str, c: char) -> (r: bool)
    ensures
        r == s@.contains(c),
{
    let v = chars_of(s);
    let mut i: usize = 0;
    while i < v.len()
        invariant
            i <= v.len(),
            v@ == s@,
            forall|j: int| 0 <= j < i ==> v@[j] != c,
        decreases v.len() - i,
    {
        if v[i] == c {
            assert(s@[i as int] == c);
            return true;
        }
        i = i + 1;
    }
    false
}

/// The first `n` characters of a text, or all of it where it is shorter.
pub open spec fn first_chars(s: Seq<char>, n: int) -> Seq<char> {
    if s.len() <= n {
        s
    } else {
        s.take(n)
    }
}

/// The first `n` characters of a text, or all of it where it is shorter.
pub fn head(s: &str, n: usize) -> (r: String)
    ensures
        r@ == first_chars(s@, n as int),
{
    let v = chars_of(s);
    if v.len() <= n {
        s.to_owned()
    } else {
        assert(v@.subrange(0, n as int) =~= s@.take(n as int));
        string_of(&v, 0, n)
    }
}

/// Whether a text is made of decimal digits alone, at least one.
pub open spec fn is_numeral(s: Seq<char>) -> bool {
    s.len() > 0 && forall|i: int| 0 <= i < s.len() ==> '0' <= #[trigger] s[i] <= '9'
}

/// The number that a numeral writes.
pub open spec fn number(s: Seq<char>) -> nat
    decreases s.len(),
{
    if s.len() == 0 {
        0
    } else {
        (number(s.drop_last()) * 10 + (s.last() as u32 - 48)) as nat
    }
}

/// The number that a text writes, if it is one: a numeral, after a plus sign or none.
pub open spec fn unsigned_value(s: Seq<char>) -> Option<nat> {
    let body = if s.len() > 0 && s[0] == '+' { s.skip(1) } else { s };
    if is_numeral(body) {
        Some(number(body))
    } else {
        None
    }
}

/// The integer that a text writes, if it is one: a numeral, after a sign or none.
pub open spec fn signed_value(s: Seq<char>) -> Option<int> {
    if s.len() > 0 && s[0] == '-' {
        if is_numeral(s.skip(1)) {
            Some(-number(s.skip(1)))
        } else {
            None
        }
    } else {
        match unsigned_value(s) {
            Some(n) => Some(n as int),
            None => None,
        }
    }
}

proof fn lemma_number_grows(s: Seq<char>, k: int)
    requires
        0 <= k <= s.len(),
        forall|i: int| 0 <= i < s.len() ==> '0' <= #[trigger] s[i] <= '9',
    ensures
        number(s.take(k)) <= number(s),
    decreases s.len() - k,
{
    if k < s.len() {
        lemma_number_grows(s, k + 1);
        assert(s.take(k + 1).drop_last() =~= s.take(k));
    } else {
        assert(s.take(k) =~= s);
    }
}

/// The number that the digits from position `from` on write, where it is at most `max`.
fn numeral(v: &Vec<char>, from: usize, max: u64) -> (r: Option<u64>)
    requires
        from <= v@.len(),
    ensures
        ({
            let body = v@.skip(from as int);
            match r {
                Some(n) => is_numeral(body) && number(body) == n && n <= max,
                None => !is_numeral(body) || number(body) > max,
            }
        }),
{
    let ghost body = v@.skip(from as int);
    if from == v.len() {
        return None;
    }
    let mut n: u64 = 0;
    let mut i: usize = from;
    assert(body.take(0) =~= Seq::<char>::empty());
    while i < v.len()
        invariant
            from <= i <= v.len(),
            body == v@.skip(from as int),
            n == number(body.take(i - from)),
            n <= max,
            forall|j: int| 0 <= j < i - from ==> '0' <= #[trigger] body[j] <= '9',
        decreases v.len() - i,
    {
        let c = v[i];
        if !('0' <= c && c <= '9') {
            assert(body[i - from] == c);
            return None;
        }
        let next = n as u128 * 10 + (c as u8 - 48) as u128;
        assert(body.take(i - from + 1).drop_last() =~= body.take(i - from));
        assert(body[i - from] == c);
        assert(next == number(body.take(i - from + 1)));
        if next > max as u128 {
            proof {
                if is_numeral(body) {
                    lemma_number_grows(body, i - from + 1);
                }
            }
            return None;
        }
        n = next as u64;
        i = i + 1;
    }
    assert(body.take(body.len() as int) =~= body);
    Some(n)
}

/// Reads a number of at most `max`: digits, after a plus sign or none.
pub fn parse_unsigned(s: &str, max: u64) -> (r: Option<u64>)
    ensures
        r == (match unsigned_value(s@) {
            Some(n) if n <= max => Some(n as u64),
            _ => None,
        }),
{
    let v = chars_of(s);
    if v.len() > 0 && v[0] == '+' {
        numeral(&v, 1, max)
    } else {
        assert(v@.skip(0) =~= v@);
        numeral(&v, 0, max)
    }
}

/// Reads an integer of 64 bits: digits, after a sign or none.
pub fn parse_signed(s: &str) -> (r: Option<i64>)
    ensures
        r == (match signed_value(s@) {
            Some(n) if i64::MIN <= n <= i64::MAX => Some(n as i64),
            _ => None,
        }),
{
    let v = chars_of(s);
    if v.len() > 0 && v[0] == '-' {
        match numeral(&v, 1, 0x8000_0000_0000_0000) {
            Some(n) => Some((-(n as i128)) as i64),
            None => None,
        }
    } else {
        match parse_unsigned(s, 0x7fff_ffff_ffff_ffff) {
            Some(n) => Some(n as i64),
            None => None,
        }
    }
}

/// Whether a text comes before another in the order of their characters' codes.
pub open spec fn comes_before(a: Seq<char>, b: Seq<char>) -> bool
    decreases a.len(),
{
    if b.len() == 0 {
        false
    } else if a.len() == 0 {
        true
    } else if a[0] != b[0] {
        a[0] < b[0]
    } else {
        comes_before(a.drop_first(), b.drop_first())
    }
}

/// Whether a text comes before another in the order of their characters' codes.
pub fn before(a: &str, b: &str) -> (r: bool)
    ensures
        r == comes_before(a@, b@),
{
    let x = chars_of(a);
    let y = chars_of(b);
    let mut i: usize = 0;
    assert(x@.skip(0) =~= x@);
    assert(y@.skip(0) =~= y@);
    while i < x.len() && i < y.len()
        invariant
            i <= x.len(),
            i <= y.len(),
            x@ == a@,
            y@ == b@,
            comes_before(a@, b@) == comes_before(x@.skip(i as int), y@.skip(i as int)),
        decreases x.len() - i,
    {
        if x[i] != y[i] {
            return x[i] < y[i];
        }
        assert(x@.skip(i as int).drop_first() =~= x@.skip(i + 1));
        assert(y@.skip(i as int).drop_first() =~= y@.skip(i + 1));
        i = i + 1;
    }
    i < y.len()
}

/// No text comes before itself.
pub proof fn lemma_before_is_strict(a: Seq<char>)
    ensures
        !comes_before(a, a),
    decreases a.len(),
{
    if a.len() > 0 {
        lemma_before_is_strict(a.drop_first());
    }
}

/// The order of texts is transitive.
pub proof fn lemma_before_is_transitive(a: Seq<char>, b: Seq<char>, c: Seq<char>)
    requires
        comes_before(a, b),
        comes_before(b, c),
    ensures
        comes_before(a, c),
    decreases a.len(),
{
    if a.len() > 0 && a[0] == b[0] && b[0] == c[0] {
        lemma_before_is_transitive(a.drop_first(), b.drop_first(), c.drop_first());
    }
}

/// Of two different texts one comes before the other.
pub proof fn lemma_before_is_total(a: Seq<char>, b: Seq<char>)
    ensures
        a == b || comes_before(a, b) || comes_before(b, a),
    decreases a.len(),
{
    if a.len() > 0 && b.len() > 0 && a[0] == b[0] {
        lemma_before_is_total(a.drop_first(), b.drop_first());
        assert(a =~= seq![a[0]] + a.drop_first());
        assert(b =~= seq![b[0]] + b.drop_first());
    } else if a.len() == 0 && b.len() == 0 {
        assert(a =~= b);
    }
}

/// What Rust's `{:?}` writes for a string: the text in quotes, with escapes.
pub uninterp spec fn debug_text(s: Seq<char>) -> Seq<char>;

/// A string in quotes, as it is shown to a person: the `Debug` of the standard
/// library's `str`.
///
/// Claimed of it: what is written depends on the characters of the string alone.
#[verifier::external_body]
pub(crate) fn quoted(s: &str) -> (r: String)
    ensures
        r@ == debug_text(s@),
{
    format!("{s:?}")
}

/// A number that is written in decimal is read back.
pub proof fn law_a_number_reads_back(n: nat)
    ensures
        unsigned_value(digits(n)) == Some(n),
        signed_value(digits(n)) == Some(n as int),
{
    lemma_digits(n);
    let s = digits(n);
    assert('0' <= s[0] <= '9');
}

proof fn lemma_digits(n: nat)
    ensures
        is_numeral(digits(n)),
        number(digits(n)) == n,
    decreases n,
{
    if n < 10 {
        let s = seq![digit(n)];
        assert(digits(n) =~= s);
        assert(s.drop_last() =~= Seq::<char>::empty());
        assert(number(s.drop_last()) == 0);
    } else {
        lemma_digits(n / 10);
        let s = digits(n);
        assert(s.drop_last() =~= digits(n / 10));
        assert(s.last() == digit(n % 10));
        assert forall|i: int| 0 <= i < s.len() implies '0' <= #[trigger] s[i] <= '9' by {
            if i < digits(n / 10).len() {
                assert(s[i] == digits(n / 10)[i]);
            }
        }
    }
}

/// Trimming takes white space alone, all of it, and from the two ends only: what
/// is left neither begins nor ends with any.
pub proof fn law_trimming_takes_the_white_ends(s: Seq<char>)
    ensures
        exists|from: int, to: int|
            0 <= from <= to <= s.len() && #[trigger] s.subrange(from, to) == trimmed(s)
                && is_blank(s.take(from)) && is_blank(s.skip(to)),
        trimmed(s).len() > 0 ==> !is_white(trimmed(s)[0]) && !is_white(trimmed(s).last()),
{
    let from = lemma_trimmed_start(s);
    let body = trimmed_start(s);
    let n = lemma_trimmed_end(body);
    assert(trimmed(s) =~= s.subrange(from, from + n));
    assert(is_blank(s.skip(from + n))) by {
        assert forall|i: int| 0 <= i < s.skip(from + n).len() implies is_white(
            #[trigger] s.skip(from + n)[i],
        ) by {
            assert(s.skip(from + n)[i] == body.skip(n)[i]);
        }
    }
    if n > 0 {
        assert(trimmed(s)[0] == body[0]);
    }
}

proof fn lemma_trimmed_start(s: Seq<char>) -> (from: int)
    ensures
        0 <= from <= s.len(),
        trimmed_start(s) == s.skip(from),
        is_blank(s.take(from)),
        from < s.len() ==> !is_white(s[from]),
    decreases s.len(),
{
    if s.len() > 0 && is_white(s[0]) {
        let k = lemma_trimmed_start(s.drop_first());
        assert(s.drop_first().skip(k) =~= s.skip(k + 1));
        assert forall|i: int| 0 <= i < s.take(k + 1).len() implies is_white(
            #[trigger] s.take(k + 1)[i],
        ) by {
            if i > 0 {
                assert(s.take(k + 1)[i] == s.drop_first().take(k)[i - 1]);
            }
        }
        k + 1
    } else {
        assert(s.skip(0) =~= s);
        0
    }
}

proof fn lemma_trimmed_end(s: Seq<char>) -> (to: int)
    ensures
        0 <= to <= s.len(),
        trimmed_end(s) == s.take(to),
        is_blank(s.skip(to)),
        to > 0 ==> !is_white(s[to - 1]),
    decreases s.len(),
{
    if s.len() > 0 && is_white(s.last()) {
        let k = lemma_trimmed_end(s.drop_last());
        assert(s.drop_last().take(k) =~= s.take(k));
        assert forall|i: int| 0 <= i < s.skip(k).len() implies is_white(
            #[trigger] s.skip(k)[i],
        ) by {
            if k + i < s.len() - 1 {
                assert(s.skip(k)[i] == s.drop_last().skip(k)[i]);
            }
        }
        k
    } else {
        assert(s.take(s.len() as int) =~= s);
        s.len() as int
    }
}

/// A text is blank exactly where trimming leaves nothing of it.
pub proof fn law_a_blank_text_trims_to_nothing(s: Seq<char>)
    ensures
        is_blank(s) <==> trimmed(s).len() == 0,
{
    let from = lemma_trimmed_start(s);
    let body = trimmed_start(s);
    let n = lemma_trimmed_end(body);
    if is_blank(s) {
        if from < s.len() {
            assert(is_white(s[from]));
        }
    } else {
        let i = choose|i: int| 0 <= i < s.len() && !is_white(#[trigger] s[i]);
        if i < from {
            assert(s.take(from)[i] == s[i]);
        }
        if n == 0 {
            assert(body.skip(0)[i - from] == s[i]);
        }
    }
}

/// White space is what Unicode calls so: the controls from tab to return, the
/// space, the next-line control, and the spaces and separators beyond them.
pub proof fn law_what_white_space_is(c: char)
    ensures
        is_white(c) <==> {
            let n = c as u32;
            (9 <= n <= 13) || n == 32 || n == 133 || n == 160 || n == 5760 || (8192 <= n <= 8202)
                || n == 8232 || n == 8233 || n == 8239 || n == 8287 || n == 12288
        },
{
}

/// Texts have the same letters exactly where they are as long and each two of
/// their characters are equal, or one small and capital ASCII letter.
pub proof fn law_letters_are_the_same_in_either_case(a: Seq<char>, b: Seq<char>)
    ensures
        same_letters(a, b) <==> a.len() == b.len() && forall|i: int|
            0 <= i < a.len() ==> {
                let (x, y) = (#[trigger] a[i] as int, b[i] as int);
                x == y || (65 <= x <= 90 && y == x + 32) || (65 <= y <= 90 && x == y + 32)
            },
{
    assert forall|i: int| 0 <= i < a.len() && a.len() == b.len() implies (lower(#[trigger] a[i])
        == lower(b[i]) <==> {
        let (x, y) = (a[i] as int, b[i] as int);
        x == y || (65 <= x <= 90 && y == x + 32) || (65 <= y <= 90 && x == y + 32)
    }) by {
    }
}

/// A numeral is read digit by digit: one more digit makes ten times the number,
/// and the digit.
pub proof fn law_a_numeral_counts_in_tens(s: Seq<char>, d: nat)
    requires
        d < 10,
    ensures
        number(Seq::<char>::empty()) == 0,
        number(s.push((48 + d) as char)) == 10 * number(s) + d,
{
    assert(s.push((48 + d) as char).drop_last() =~= s);
}

/// A text writes a number exactly where it is decimal digits alone, at least one
/// of them, after one plus sign or none.
pub proof fn law_what_a_number_looks_like(s: Seq<char>, body: Seq<char>)
    requires
        s == seq!['+'] + body || (s == body && (s.len() > 0 ==> s[0] != '+')),
    ensures
        unsigned_value(s) is Some <==> body.len() > 0 && forall|i: int|
            0 <= i < body.len() ==> 48 <= #[trigger] body[i] as int <= 57,
        unsigned_value(s) is Some ==> unsigned_value(s) == Some(number(body)),
{
    if s == seq!['+'] + body {
        assert(s.skip(1) =~= body);
    }
    assert(forall|i: int|
        0 <= i < body.len() ==> (('0' <= #[trigger] body[i] <= '9') <==> 48 <= body[i] as int
            <= 57));
}

/// A minus sign makes the integer that a numeral writes negative; without one an
/// integer is read as a number is.
pub proof fn law_a_minus_sign_negates(s: Seq<char>, body: Seq<char>)
    ensures
        signed_value(seq!['-'] + body) is Some <==> body.len() > 0 && forall|i: int|
            0 <= i < body.len() ==> 48 <= #[trigger] body[i] as int <= 57,
        signed_value(seq!['-'] + body) is Some ==> signed_value(seq!['-'] + body) == Some(
            -(number(body) as int),
        ),
        s.len() == 0 || s[0] != '-' ==> (match unsigned_value(s) {
            Some(n) => signed_value(s) == Some(n as int),
            None => signed_value(s) is None,
        }),
{
    assert((seq!['-'] + body).skip(1) =~= body);
    assert(forall|i: int|
        0 <= i < body.len() ==> (('0' <= #[trigger] body[i] <= '9') <==> 48 <= body[i] as int
            <= 57));
}

/// An integer is written with its sign and read back.
pub proof fn law_an_integer_reads_back(n: int)
    ensures
        signed_value(signed_digits(n)) == Some(n),
        n < 0 ==> signed_digits(n)[0] == '-',
{
    if n < 0 {
        let d = digits((-n) as nat);
        lemma_digits((-n) as nat);
        assert(signed_digits(n).skip(1) =~= d);
    } else {
        law_a_number_reads_back(n as nat);
    }
}

/// A number is written without leading zeros, in digits alone.
pub proof fn law_no_number_leads_with_a_zero(n: nat)
    ensures
        is_numeral(digits(n)),
        n > 0 ==> digits(n)[0] != '0',
        n < 10 ==> digits(n).len() == 1,
    decreases n,
{
    lemma_digits(n);
    if n >= 10 {
        law_no_number_leads_with_a_zero(n / 10);
        assert(digits(n)[0] == digits(n / 10)[0]);
    }
}

/// Texts are ordered by the first place at which they differ: by the characters
/// there, or the one that ends there first.
pub proof fn law_texts_are_ordered_by_their_first_difference(
    a: Seq<char>,
    b: Seq<char>,
    k: int,
)
    requires
        0 <= k <= a.len(),
        k < b.len(),
        a.take(k) == b.take(k),
        k < a.len() ==> (a[k] as int) < b[k] as int,
    ensures
        comes_before(a, b),
        !comes_before(b, a),
    decreases k,
{
    if k > 0 {
        assert(a[0] == a.take(k)[0] && b[0] == b.take(k)[0]);
        let x = a.drop_first();
        let y = b.drop_first();
        assert(x.take(k - 1) =~= a.take(k).drop_first());
        assert(y.take(k - 1) =~= b.take(k).drop_first());
        law_texts_are_ordered_by_their_first_difference(x, y, k - 1);
    }
}

/// The first characters of a text are as many as were asked for, or all of it
/// where it has no more.
pub proof fn law_a_head_is_the_beginning(s: Seq<char>, n: int)
    requires
        n >= 0,
    ensures
        s.len() <= n ==> first_chars(s, n) == s,
        s.len() > n ==> first_chars(s, n).len() == n && forall|i: int|
            0 <= i < n ==> #[trigger] first_chars(s, n)[i] == s[i],
{
}

/// A text begins with another exactly where it is that text and a rest.
pub proof fn law_a_beginning_leaves_a_rest(start: Seq<char>, rest: Seq<char>, s: Seq<char>)
    ensures
        begins_with(start + rest, start),
        (start + rest).skip(start.len() as int) == rest,
        begins_with(s, start) ==> s == start + s.skip(start.len() as int),
{
    assert((start + rest).take(start.len() as int) =~= start);
    assert((start + rest).skip(start.len() as int) =~= rest);
    if begins_with(s, start) {
        assert(s =~= s.take(start.len() as int) + s.skip(start.len() as int));
    }
}

/// A text that may be absent is seen as its characters where it is there, and texts
/// are seen one by one.
pub proof fn law_texts_are_seen_as_they_are(s: String, v: Seq<String>, i: int)
    ensures
        view_of(Some(s)) == Some(s@),
        view_of(None) is None,
        texts(v).len() == v.len(),
        0 <= i < v.len() ==> texts(v)[i] == v[i]@,
{
}

} // verus!
