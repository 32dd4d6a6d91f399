//! Character and string helpers shared by the analysers: decimal rendering,
//! Unicode white space, trimming, and the character classes of `char`.
use vstd::prelude::*;

verus! {

/// The characters of `s`, in order.
pub fn chars_of(s: &str) -> (r: Vec<char>)
    ensures
        r@ == s@,
{
    let mut r: Vec<char> = Vec::new();
    for c in it: s.chars()
        invariant
            r@ == it.seq().take(it.index() as int),
            it.seq() == s@,
    {
        r.push(c);
    }
    r
}

/// Appends one character to a string: `String::push`.
#[verifier::external_body]
pub(crate) fn push_char(s: &mut String, c: char)
    ensures
        final(s)@ == old(s)@.push(c),
{
    s.push(c);
}

/// Appends a string slice to a string.
pub fn push_str(s: &mut String, t: &str)
    ensures
        final(s)@ == old(s)@ + t@,
{
    s.append(t);
}

/// A string made of the given characters, in order.
pub fn string_from_chars(cs: &[char]) -> (r: String)
    ensures
        r@ == cs@,
{
    let mut r = String::new();
    let mut i: usize = 0;
    while i < cs.len()
        invariant
            i <= cs@.len(),
            r@ == cs@.take(i as int),
        decreases cs@.len() - i,
    {
        push_char(&mut r, cs[i]);
        i = i + 1;
        assert(r@ =~= cs@.take(i as int));
    }
    assert(cs@.take(cs@.len() as int) =~= cs@);
    r
}

/// The character of a decimal digit `d < 10`.
pub open spec fn digit_char(d: nat) -> char {
    if d == 0 { '0' }
    else if d == 1 { '1' }
    else if d == 2 { '2' }
    else if d == 3 { '3' }
    else if d == 4 { '4' }
    else if d == 5 { '5' }
    else if d == 6 { '6' }
    else if d == 7 { '7' }
    else if d == 8 { '8' }
    else { '9' }
}

/// The decimal representation of `n`, without sign or leading zeros,
/// as `{}` formats an unsigned integer.
pub open spec fn decimal(n: nat) -> Seq<char>
    decreases n,
{
    if n < 10 {
        seq![digit_char(n)]
    } else {
        decimal(n / 10).push(digit_char(n % 10))
    }
}

fn digit_to_char(d: usize) -> (c: char)
    requires
        d < 10,
    ensures
        c == digit_char(d as nat),
{
    if d == 0 { '0' }
    else if d == 1 { '1' }
    else if d == 2 { '2' }
    else if d == 3 { '3' }
    else if d == 4 { '4' }
    else if d == 5 { '5' }
    else if d == 6 { '6' }
    else if d == 7 { '7' }
    else if d == 8 { '8' }
    else { '9' }
}

/// Renders `n` in decimal, as `n.to_string()` does.
pub fn usize_to_string(n: usize) -> (r: String)
    ensures
        r@ == decimal(n as nat),
    decreases n,
{
    if n < 10 {
        let mut r = String::new();
        push_char(&mut r, digit_to_char(n));
        r
    } else {
        let mut r = usize_to_string(n / 10);
        push_char(&mut r, digit_to_char(n % 10));
        r
    }
}

/// Unicode `White_Space`, the property that `char::is_whitespace` tests.
pub open spec fn is_white_space(c: char) -> bool {
    ||| ('\u{9}' <= c && c <= '\u{D}')
    ||| c == ' '
    ||| c == '\u{85}'
    ||| c == '\u{A0}'
    ||| c == '\u{1680}'
    ||| ('\u{2000}' <= c && c <= '\u{200A}')
    ||| c == '\u{2028}'
    ||| c == '\u{2029}'
    ||| c == '\u{202F}'
    ||| c == '\u{205F}'
    ||| c == '\u{3000}'
}

/// Whether `c` is white space (`char::is_whitespace`).
pub fn is_whitespace(c: char) -> (r: bool)
    ensures
        r == is_white_space(c),
{
    ('\u{9}' <= c && c <= '\u{D}') || c == ' ' || c == '\u{85}' || c == '\u{A0}' || c == '\u{1680}'
        || ('\u{2000}' <= c && c <= '\u{200A}') || c == '\u{2028}' || c == '\u{2029}'
        || c == '\u{202F}' || c == '\u{205F}' || c == '\u{3000}'
}

} // verus!

verus! {

/// Whether two strings hold the same characters.
pub fn str_equal(a: &str, b: &str) -> (r: bool)
    ensures
        r == (a@ == b@),
{
    let ca = chars_of(a);
    let cb = chars_of(b);
    if ca.len() != cb.len() {
        return false;
    }
    let mut i: usize = 0;
    while i < ca.len()
        invariant
            ca@ == a@,
            cb@ == b@,
            ca@.len() == cb@.len(),
            i <= ca@.len(),
            forall|j: int| 0 <= j < i ==> ca@[j] == cb@[j],
        decreases ca@.len() - i,
    {
        if ca[i] != cb[i] {
            return false;
        }
        i = i + 1;
    }
    assert(ca@ =~= cb@);
    true
}

} // verus!

verus! {

/// Whether `c` is an ASCII decimal digit.
pub open spec fn is_digit(c: char) -> bool {
    '0' <= c && c <= '9'
}

/// The value of a run of decimal digits.
pub open spec fn digits_value(s: Seq<char>) -> int
    decreases s.len(),
{
    if s.len() == 0 {
        0
    } else {
        digits_value(s.drop_last()) * 10 + (s.last() as int - '0' as int)
    }
}

/// Whether every character of `s` is an ASCII digit.
pub open spec fn all_digits(s: Seq<char>) -> bool {
    forall|i: int| 0 <= i < s.len() ==> is_digit(#[trigger] s[i])
}

/// `s` without a leading sign.
pub open spec fn unsigned_part(s: Seq<char>) -> Seq<char> {
    if s.len() > 0 && (s[0] == '-' || s[0] == '+') { s.drop_first() } else { s }
}

/// What `str::parse::<i64>` accepts and gives: an optional `+` or `-` sign
/// followed by one or more ASCII digits, whose value fits in an `i64`.
pub open spec fn parse_i64_spec(s: Seq<char>) -> Option<i64> {
    let neg = s.len() > 0 && s[0] == '-';
    let ds = unsigned_part(s);
    if ds.len() == 0 || !all_digits(ds) {
        None
    } else {
        let v = if neg { -digits_value(ds) } else { digits_value(ds) };
        if i64::MIN <= v && v <= i64::MAX { Some(v as i64) } else { None }
    }
}

proof fn lemma_digits_value_monotone(s: Seq<char>, k: int)
    requires
        0 <= k <= s.len(),
        forall|i: int| 0 <= i < s.len() ==> is_digit(#[trigger] s[i]),
    ensures
        digits_value(s) >= digits_value(s.take(k)),
        digits_value(s) >= 0,
    decreases s.len(),
{
    if s.len() > 0 {
        assert forall|i: int| 0 <= i < s.drop_last().len() implies is_digit(#[trigger] s.drop_last()[i]) by {
            assert(s.drop_last()[i] == s[i]);
        }
        if k == s.len() {
            assert(s.take(k) =~= s);
            lemma_digits_value_monotone(s.drop_last(), 0);
        } else {
            lemma_digits_value_monotone(s.drop_last(), k);
            assert(s.drop_last().take(k) =~= s.take(k));
        }
        assert(is_digit(s[s.len() - 1]));
    } else {
        assert(s.take(k) =~= s);
    }
}

/// Parses a decimal integer as `str::parse::<i64>` does.
pub fn parse_i64(s: &str) -> (r: Option<i64>)
    ensures
        r == parse_i64_spec(s@),
{
    let cs = chars_of(s);
    let neg = cs.len() > 0 && cs[0] == '-';
    let start: usize = if cs.len() > 0 && (cs[0] == '-' || cs[0] == '+') { 1 } else { 0 };
    let ghost ds = unsigned_part(s@);
    assert(ds =~= cs@.subrange(start as int, cs@.len() as int));
    if start >= cs.len() {
        return None;
    }
    let mut acc: i128 = 0;
    let mut i: usize = start;
    while i < cs.len()
        invariant
            cs@ == s@,
            start <= i <= cs@.len(),
            ds =~= cs@.subrange(start as int, cs@.len() as int),
            ds == unsigned_part(s@),
            neg == (s@.len() > 0 && s@[0] == '-'),
            forall|j: int| 0 <= j < i - start ==> is_digit(#[trigger] ds[j]),
            acc == digits_value(ds.take(i - start)),
            0 <= acc <= 0x8000_0000_0000_0000,
        decreases cs@.len() - i,
    {
        let c = cs[i];
        if !('0' <= c && c <= '9') {
            assert(!is_digit(ds[i - start]));
            assert(!all_digits(ds));
            return None;
        }
        let d = (c as u32 - '0' as u32) as i128;
        assert(ds.take(i + 1 - start).drop_last() =~= ds.take(i - start));
        acc = acc * 10 + d;
        i = i + 1;
        if acc > 0x8000_0000_0000_0000 {
            if forall_digits(&cs, i) {
                assert forall|j: int| 0 <= j < ds.len() implies is_digit(#[trigger] ds[j]) by {
                    assert(ds[j] == cs@[j + start]);
                }
                proof { lemma_digits_value_monotone(ds, i - start); }
            } else {
                let ghost w = choose|j: int| i <= j < cs@.len() && !is_digit(#[trigger] cs@[j]);
                assert(!is_digit(ds[w - start]));
                assert(!all_digits(ds));
            }
            return None;
        }
    }
    assert(ds.take(i - start) =~= ds);
    if neg {
        Some((-acc) as i64)
    } else if acc <= 0x7fff_ffff_ffff_ffff {
        Some(acc as i64)
    } else {
        None
    }
}

/// Whether all characters from index `from` on are ASCII digits.
fn forall_digits(cs: &Vec<char>, from: usize) -> (r: bool)
    ensures
        r == (forall|j: int| from <= j < cs@.len() ==> is_digit(#[trigger] cs@[j])),
{
    let mut j = from;
    while j < cs.len()
        invariant
            from <= j || j >= cs@.len(),
            forall|k: int| from <= k < j ==> is_digit(#[trigger] cs@[k]),
        decreases cs@.len() - j,
    {
        if !('0' <= cs[j] && cs[j] <= '9') {
            return false;
        }
        j = j + 1;
    }
    true
}

} // verus!

verus! {

/// Whether the non-ASCII character `c` has the Unicode `Uppercase`
/// property, the property that `char::is_uppercase` tests.
pub uninterp spec fn unicode_uppercase(c: char) -> bool;

/// Whether `c` is upper case: among ASCII characters exactly `A` to `Z`,
/// otherwise as the Unicode `Uppercase` property says.
pub open spec fn uppercase(c: char) -> bool {
    if (c as u32) < 128 { 'A' <= c && c <= 'Z' } else { unicode_uppercase(c) }
}

/// `char::is_uppercase`. The contract claims that the result is
/// `uppercase(c)`: among ASCII characters exactly `A` to `Z` are upper case
/// (the `Uppercase` property of the ASCII range), and which other
/// characters are upper case is left to the name `unicode_uppercase`.
#[verifier::external_body]
pub(crate) fn is_uppercase(c: char) -> (r: bool)
    ensures
        r == uppercase(c),
        (c as u32) >= 128 ==> r == unicode_uppercase(c),
{
    c.is_uppercase()
}

/// Whether every character of `s` is ASCII, that is, takes one byte in UTF-8.
pub open spec fn all_ascii(s: Seq<char>) -> bool {
    forall|i: int| 0 <= i < s.len() ==> (#[trigger] s[i] as u32) < 128
}

/// Whether every character of `s` is ASCII.
pub fn is_all_ascii(s: &Vec<char>) -> (r: bool)
    ensures
        r == all_ascii(s@),
{
    let mut i: usize = 0;
    while i < s.len()
        invariant
            i <= s@.len(),
            forall|j: int| 0 <= j < i ==> (#[trigger] s@[j] as u32) < 128,
        decreases s@.len() - i,
    {
        if (s[i] as u32) >= 128 {
            return false;
        }
        i = i + 1;
    }
    true
}

} // verus!

verus! {

/// The one-character string of `c`, as `c.to_string()` gives it.
pub fn char_string(c: char) -> (r: String)
    ensures
        r@ == seq![c],
{
    let mut r = String::new();
    push_char(&mut r, c);
    r
}

} // verus!

verus! {

/// The string of the characters `cs[from..to]`.
pub fn string_of_range(cs: &Vec<char>, from: usize, to: usize) -> (r: String)
    requires
        from <= to <= cs@.len(),
    ensures
        r@ == cs@.subrange(from as int, to as int),
{
    let mut r = String::new();
    let mut i: usize = from;
    while i < to
        invariant
            from <= i <= to,
            to <= cs@.len(),
            r@ == cs@.subrange(from as int, i as int),
        decreases to - i,
    {
        push_char(&mut r, cs[i]);
        i = i + 1;
        assert(r@ =~= cs@.subrange(from as int, i as int));
    }
    r
}

} // verus!

verus! {

/// The position of the first character of `s` that is not white space,
/// from position `i` on.
pub open spec fn first_non_white(s: Seq<char>, i: int) -> int
    decreases s.len() - i,
{
    if i >= s.len() || !is_white_space(s[i]) { i } else { first_non_white(s, i + 1) }
}

/// One past the last character of `s` before position `j` that is not
/// white space.
pub open spec fn end_non_white(s: Seq<char>, j: int) -> int
    decreases j,
{
    if j <= 0 || !is_white_space(s[j - 1]) { j } else { end_non_white(s, j - 1) }
}

/// `s` without leading and trailing white space, as `str::trim` gives it.
pub open spec fn trim(s: Seq<char>) -> Seq<char> {
    let a = first_non_white(s, 0);
    if a >= s.len() { Seq::empty() } else { s.subrange(a, end_non_white(s, s.len() as int)) }
}

proof fn lemma_first_non_white(s: Seq<char>, i: int)
    requires
        0 <= i <= s.len(),
    ensures
        i <= first_non_white(s, i) <= s.len(),
        forall|k: int| i <= k < first_non_white(s, i) ==> is_white_space(#[trigger] s[k]),
        first_non_white(s, i) < s.len() ==> !is_white_space(s[first_non_white(s, i)]),
    decreases s.len() - i,
{
    if i < s.len() && is_white_space(s[i]) {
        lemma_first_non_white(s, i + 1);
    }
}

proof fn lemma_end_non_white(s: Seq<char>, j: int)
    requires
        0 <= j <= s.len(),
    ensures
        0 <= end_non_white(s, j) <= j,
        forall|k: int| end_non_white(s, j) <= k < j ==> is_white_space(#[trigger] s[k]),
        end_non_white(s, j) > 0 ==> !is_white_space(s[end_non_white(s, j) - 1]),
    decreases j,
{
    if j > 0 && is_white_space(s[j - 1]) {
        lemma_end_non_white(s, j - 1);
    }
}

/// Trimming a text that begins with a character other than white space
/// keeps its start, at least up to any later character other than white
/// space.
pub proof fn lemma_trim_keeps_start(s: Seq<char>, k: int)
    requires
        0 <= k < s.len(),
        !is_white_space(s[0]),
        !is_white_space(s[k]),
    ensures
        trim(s).len() > k,
        forall|i: int| 0 <= i <= k ==> #[trigger] trim(s)[i] == s[i],
{
    lemma_first_non_white(s, 0);
    lemma_end_non_white(s, s.len() as int);
    assert(first_non_white(s, 0) == 0);
    assert(end_non_white(s, s.len() as int) > k);
}

/// Trimming a text that ends with a character other than white space
/// keeps its end, at least back to any earlier character other than white
/// space.
pub proof fn lemma_trim_keeps_end(s: Seq<char>, k: int)
    requires
        0 <= k < s.len(),
        !is_white_space(s[s.len() - 1]),
        !is_white_space(s[k]),
    ensures
        trim(s).len() >= s.len() - k,
        forall|i: int| 0 <= i < s.len() - k ==> #[trigger] trim(s)[trim(s).len() - 1 - i] == s[s.len() - 1 - i],
{
    lemma_first_non_white(s, 0);
    lemma_end_non_white(s, s.len() as int);
    assert(first_non_white(s, 0) <= k);
    assert(end_non_white(s, s.len() as int) == s.len());
}

/// `s` without leading and trailing white space (`str::trim`).
pub fn trim_chars(s: &Vec<char>) -> (r: Vec<char>)
    ensures
        r@ == trim(s@),
{
    let mut a: usize = 0;
    while a < s.len() && is_whitespace(s[a])
        invariant
            a <= s@.len(),
            first_non_white(s@, 0) == first_non_white(s@, a as int),
        decreases s@.len() - a,
    {
        a = a + 1;
    }
    if a >= s.len() {
        return Vec::new();
    }
    let mut b: usize = s.len();
    proof {
        lemma_first_non_white(s@, 0);
    }
    while b > a && is_whitespace(s[b - 1])
        invariant
            a < b <= s@.len(),
            a < s@.len(),
            !is_white_space(s@[a as int]),
            end_non_white(s@, s@.len() as int) == end_non_white(s@, b as int),
        decreases b,
    {
        b = b - 1;
    }
    let mut r: Vec<char> = Vec::new();
    let mut i: usize = a;
    while i < b
        invariant
            a <= i <= b <= s@.len(),
            r@ == s@.subrange(a as int, i as int),
        decreases b - i,
    {
        r.push(s[i]);
        i = i + 1;
        assert(r@ =~= s@.subrange(a as int, i as int));
    }
    r
}

/// Whether `s` holds the character `c`.
pub open spec fn has_char(s: Seq<char>, c: char) -> bool {
    exists|i: int| 0 <= i < s.len() && s[i] == c
}

/// The position of the first `c` in `s`, if any (`str::find` on a character).
pub open spec fn find_char(s: Seq<char>, c: char, i: int) -> Option<int>
    decreases s.len() - i,
{
    if i < 0 || i >= s.len() { None } else if s[i] == c { Some(i) } else { find_char(s, c, i + 1) }
}

proof fn lemma_find_char(s: Seq<char>, c: char, i: int)
    requires
        0 <= i <= s.len(),
    ensures
        match find_char(s, c, i) {
            Some(k) => i <= k < s.len() && s[k] == c && forall|j: int| i <= j < k ==> s[j] != c,
            None => forall|j: int| i <= j < s.len() ==> s[j] != c,
        },
    decreases s.len() - i,
{
    if i < s.len() && s[i] != c {
        lemma_find_char(s, c, i + 1);
    }
}

/// The position of the first `c` in `s`, if any.
pub fn position_of(s: &Vec<char>, c: char) -> (r: Option<usize>)
    ensures
        match r {
            Some(k) => k < s@.len() && s@[k as int] == c && find_char(s@, c, 0) == Some(k as int),
            None => find_char(s@, c, 0) is None,
        },
        r is Some <==> has_char(s@, c),
{
    let mut i: usize = 0;
    proof {
        lemma_find_char(s@, c, 0);
    }
    while i < s.len()
        invariant
            i <= s@.len(),
            find_char(s@, c, 0) == find_char(s@, c, i as int),
            forall|j: int| 0 <= j < i ==> s@[j] != c,
        decreases s@.len() - i,
    {
        if s[i] == c {
            return Some(i);
        }
        i = i + 1;
    }
    None
}

/// The pieces of `s` from position `i` on, split at each `c`, the piece
/// begun so far being `cur` (`str::split` on a character).
pub open spec fn split_from(s: Seq<char>, c: char, i: int, cur: Seq<char>) -> Seq<Seq<char>>
    decreases s.len() - i,
{
    if i < 0 || i >= s.len() {
        seq![cur]
    } else if s[i] == c {
        seq![cur] + split_from(s, c, i + 1, Seq::empty())
    } else {
        split_from(s, c, i + 1, cur.push(s[i]))
    }
}

/// The pieces of `s` between occurrences of `c`, empty ones included.
pub open spec fn split_on(s: Seq<char>, c: char) -> Seq<Seq<char>> {
    split_from(s, c, 0, Seq::empty())
}

/// The pieces of `s` between occurrences of `c` (`str::split`).
pub fn split_chars(s: &Vec<char>, c: char) -> (r: Vec<Vec<char>>)
    ensures
        r@.map_values(|v: Vec<char>| v@) == split_on(s@, c),
{
    let mut parts: Vec<Vec<char>> = Vec::new();
    let mut cur: Vec<char> = Vec::new();
    let mut i: usize = 0;
    while i < s.len()
        invariant
            i <= s@.len(),
            parts@.map_values(|v: Vec<char>| v@) + split_from(s@, c, i as int, cur@) == split_on(s@, c),
        decreases s@.len() - i,
    {
        let ghost pv = parts@.map_values(|v: Vec<char>| v@);
        if s[i] == c {
            let done = cur;
            let ghost dv = done@;
            parts.push(done);
            cur = Vec::new();
            assert(parts@.map_values(|v: Vec<char>| v@) =~= pv.push(dv));
            assert(pv + split_from(s@, c, i as int, dv) =~= pv.push(dv) + split_from(s@, c, i + 1, Seq::empty()));
        } else {
            cur.push(s[i]);
        }
        i = i + 1;
    }
    let ghost pv = parts@.map_values(|v: Vec<char>| v@);
    let ghost cv = cur@;
    parts.push(cur);
    assert(parts@.map_values(|v: Vec<char>| v@) =~= pv + seq![cv]);
    parts
}

/// The runs of characters of `s` that are not white space, from position
/// `i` on, the run begun so far being `cur` (`str::split_whitespace`).
pub open spec fn words_from(s: Seq<char>, i: int, cur: Seq<char>) -> Seq<Seq<char>>
    decreases s.len() - i,
{
    let done = if cur.len() > 0 { seq![cur] } else { Seq::empty() };
    if i < 0 || i >= s.len() {
        done
    } else if is_white_space(s[i]) {
        done + words_from(s, i + 1, Seq::empty())
    } else {
        words_from(s, i + 1, cur.push(s[i]))
    }
}

/// The words of `s`: its maximal runs of characters that are not white space.
pub open spec fn words(s: Seq<char>) -> Seq<Seq<char>> {
    words_from(s, 0, Seq::empty())
}

/// The words of `s` (`str::split_whitespace`).
pub fn split_words(s: &Vec<char>) -> (r: Vec<Vec<char>>)
    ensures
        r@.map_values(|v: Vec<char>| v@) == words(s@),
{
    let mut parts: Vec<Vec<char>> = Vec::new();
    let mut cur: Vec<char> = Vec::new();
    let mut i: usize = 0;
    while i < s.len()
        invariant
            i <= s@.len(),
            parts@.map_values(|v: Vec<char>| v@) + words_from(s@, i as int, cur@) == words(s@),
        decreases s@.len() - i,
    {
        let ghost pv = parts@.map_values(|v: Vec<char>| v@);
        if is_whitespace(s[i]) {
            if cur.len() > 0 {
                let done = cur;
                let ghost dv = done@;
                parts.push(done);
                cur = Vec::new();
                assert(parts@.map_values(|v: Vec<char>| v@) =~= pv.push(dv));
                assert(pv + words_from(s@, i as int, dv) =~= pv.push(dv) + words_from(s@, i + 1, Seq::empty()));
            } else {
                assert(cur@ =~= Seq::<char>::empty());
                assert(pv + words_from(s@, i as int, cur@) =~= pv + words_from(s@, i + 1, Seq::empty()));
            }
        } else {
            let ghost c0 = cur@;
            cur.push(s[i]);
            assert(pv + words_from(s@, i as int, c0) =~= pv + words_from(s@, i + 1, cur@));
        }
        i = i + 1;
    }
    if cur.len() > 0 {
        let ghost pv = parts@.map_values(|v: Vec<char>| v@);
        let ghost cv = cur@;
        parts.push(cur);
        assert(parts@.map_values(|v: Vec<char>| v@) =~= pv + seq![cv]);
    } else {
        assert(parts@.map_values(|v: Vec<char>| v@) =~= parts@.map_values(|v: Vec<char>| v@) + words_from(s@, i as int, cur@));
    }
    parts
}

} // verus!

verus! {

/// What `str::to_lowercase` gives for a string that is not all ASCII: its
/// characters mapped to their Unicode lower-case forms.
pub uninterp spec fn unicode_lowercase(s: Seq<char>) -> Seq<char>;

/// `c` with `A` to `Z` mapped to `a` to `z`.
pub open spec fn ascii_lower(c: char) -> char {
    if 'A' <= c && c <= 'Z' { ((c as u32) + 32) as char } else { c }
}

/// `s` in lower case: for an ASCII string, each of `A` to `Z` mapped to `a`
/// to `z` and every other character kept; otherwise as the Unicode case
/// mappings say.
pub open spec fn lowercase(s: Seq<char>) -> Seq<char> {
    if all_ascii(s) { s.map_values(|c: char| ascii_lower(c)) } else { unicode_lowercase(s) }
}

/// `str::to_lowercase`. The contract claims that the result is
/// `lowercase` of the argument: an ASCII string has exactly its letters `A`
/// to `Z` lowered (the Unicode lower-case mappings of ASCII letters), and
/// the case mappings of other strings are left to the name
/// `unicode_lowercase`.
#[verifier::external_body]
pub(crate) fn to_lowercase(s: &str) -> (r: String)
    ensures
        r@ == lowercase(s@),
        !all_ascii(s@) ==> r@ == unicode_lowercase(s@),
{
    s.to_lowercase()
}

/// The characters of `s` from position `from` on, as a string.
pub fn string_from(cs: &Vec<char>, from: usize) -> (r: String)
    requires
        from <= cs@.len(),
    ensures
        r@ == cs@.subrange(from as int, cs@.len() as int),
{
    string_of_range(cs, from, cs.len())
}

} // verus!

verus! {

/// The characters `cs[from..to]`.
pub fn chars_range(cs: &Vec<char>, from: usize, to: usize) -> (r: Vec<char>)
    requires
        from <= to <= cs@.len(),
    ensures
        r@ == cs@.subrange(from as int, to as int),
{
    let mut r: Vec<char> = Vec::new();
    let mut i: usize = from;
    while i < to
        invariant
            from <= i <= to,
            to <= cs@.len(),
            r@ == cs@.subrange(from as int, i as int),
        decreases to - i,
    {
        r.push(cs[i]);
        i = i + 1;
        assert(r@ =~= cs@.subrange(from as int, i as int));
    }
    r
}

/// Whether `p` begins with `pre`.
pub fn has_prefix(p: &Vec<char>, pre: &Vec<char>) -> (r: bool)
    ensures
        r == pre@.is_prefix_of(p@),
{
    if pre.len() > p.len() {
        return false;
    }
    let mut i: usize = 0;
    while i < pre.len()
        invariant
            pre@.len() <= p@.len(),
            i <= pre@.len(),
            forall|j: int| 0 <= j < i ==> pre@[j] == p@[j],
        decreases pre@.len() - i,
    {
        if pre[i] != p[i] {
            return false;
        }
        i = i + 1;
    }
    assert(pre@ =~= p@.subrange(0, pre@.len() as int));
    true
}

} // verus!

verus! {

/// Whether the non-ASCII character `c` is alphabetic or numeric in
/// Unicode, which is what `char::is_alphanumeric` tests.
pub uninterp spec fn unicode_alphanumeric(c: char) -> bool;

/// Whether `c` is alphanumeric: among ASCII characters exactly the letters
/// and digits, otherwise as Unicode says.
pub open spec fn alphanumeric(c: char) -> bool {
    if (c as u32) < 128 {
        ('a' <= c && c <= 'z') || ('A' <= c && c <= 'Z') || ('0' <= c && c <= '9')
    } else {
        unicode_alphanumeric(c)
    }
}

/// `char::is_alphanumeric`. The contract claims that the result is
/// `alphanumeric(c)`: among ASCII characters exactly the letters and
/// digits are alphanumeric; other characters are left to the name
/// `unicode_alphanumeric`.
#[verifier::external_body]
pub(crate) fn is_alphanumeric(c: char) -> (r: bool)
    ensures
        r == alphanumeric(c),
        (c as u32) >= 128 ==> r == unicode_alphanumeric(c),
{
    c.is_alphanumeric()
}

/// Whether the non-ASCII character `c` has a Unicode numeric general
/// category, which is what `char::is_numeric` tests.
pub uninterp spec fn unicode_numeric(c: char) -> bool;

/// Whether `c` is numeric: among ASCII characters exactly the digits,
/// otherwise as its Unicode general category says.
pub open spec fn numeric(c: char) -> bool {
    if (c as u32) < 128 { '0' <= c && c <= '9' } else { unicode_numeric(c) }
}

/// `char::is_numeric`. The contract claims that the result is
/// `numeric(c)`: among ASCII characters exactly the digits are numeric;
/// other characters are left to the name `unicode_numeric`.
#[verifier::external_body]
pub(crate) fn is_numeric(c: char) -> (r: bool)
    ensures
        r == numeric(c),
        (c as u32) >= 128 ==> r == unicode_numeric(c),
{
    c.is_numeric()
}

} // verus!

verus! {

/// Renders `n` in decimal, as `{}` formats an unsigned integer.
pub fn u128_to_string(n: u128) -> (r: String)
    ensures
        r@ == decimal(n as nat),
    decreases n,
{
    if n < 10 {
        let mut r = String::new();
        push_char(&mut r, digit_to_char(n as usize));
        r
    } else {
        let mut r = u128_to_string(n / 10);
        push_char(&mut r, digit_to_char((n % 10) as usize));
        r
    }
}

} // verus!
