//! Character and string helpers shared by the header parser, the key
//! deriver and the version parser: splitting on a separator, trimming,
//! ASCII case folding, and decimal integer parsing.

use vstd::prelude::*;

verus! {

/// ASCII whitespace, the kind that may pad an HTTP header token.
pub open spec fn is_space(c: char) -> bool {
    c == ' ' || c == '\t' || c == '\n' || c == '\r'
}

/// ASCII lowercase folding; other characters are left alone.
pub open spec fn to_lower(c: char) -> char {
    if 'A' <= c && c <= 'Z' {
        ((c as u32) + 32) as char
    } else {
        c
    }
}

/// ASCII uppercase folding; other characters are left alone.
pub open spec fn to_upper(c: char) -> char {
    if 'a' <= c && c <= 'z' {
        ((c as u32) - 32) as char
    } else {
        c
    }
}

/// Index of the first occurrence of `sep` in `s`, or `s.len()` if absent.
pub open spec fn find(s: Seq<char>, sep: char) -> int
    decreases s.len(),
{
    if s.len() == 0 {
        0
    } else if s[0] == sep {
        0
    } else {
        1 + find(s.drop_first(), sep)
    }
}

pub proof fn lemma_find_bounds(s: Seq<char>, sep: char)
    ensures
        0 <= find(s, sep) <= s.len(),
        forall|i: int| 0 <= i < find(s, sep) ==> s[i] != sep,
        find(s, sep) < s.len() ==> s[find(s, sep)] == sep,
    decreases s.len(),
{
    if s.len() > 0 && s[0] != sep {
        lemma_find_bounds(s.drop_first(), sep);
        assert forall|i: int| 0 <= i < find(s, sep) implies s[i] != sep by {
            if i > 0 {
                assert(s.drop_first()[i - 1] == s[i]);
            }
        }
    }
}

/// The segments of `s` between occurrences of `sep`: what `str::split`
/// yields. The empty string has one (empty) segment.
pub open spec fn split_on(s: Seq<char>, sep: char) -> Seq<Seq<char>>
    decreases s.len(),
{
    let i = find(s, sep);
    if 0 <= i && i < s.len() {
        seq![s.take(i)] + split_on(s.skip(i + 1), sep)
    } else {
        seq![s]
    }
}

pub proof fn lemma_split_on_len(s: Seq<char>, sep: char)
    ensures
        split_on(s, sep).len() >= 1,
    decreases s.len(),
{
    let i = find(s, sep);
    if 0 <= i && i < s.len() {
        lemma_split_on_len(s.skip(i + 1), sep);
    }
}

/// `s` with leading and trailing ASCII whitespace removed.
pub open spec fn trim(s: Seq<char>) -> Seq<char>
    decreases s.len(),
{
    if s.len() == 0 {
        s
    } else if is_space(s[0]) {
        trim(s.drop_first())
    } else if is_space(s[s.len() - 1]) {
        trim(s.drop_last())
    } else {
        s
    }
}

/// `s` folded to ASCII lowercase.
pub open spec fn lower(s: Seq<char>) -> Seq<char> {
    s.map_values(|c: char| to_lower(c))
}

/// `s` folded to ASCII uppercase.
pub open spec fn upper(s: Seq<char>) -> Seq<char> {
    s.map_values(|c: char| to_upper(c))
}

/// A trimmed, lowercased header token.
pub open spec fn canon(s: Seq<char>) -> Seq<char> {
    lower(trim(s))
}

/// Whether `c` is an ASCII decimal digit.
pub open spec fn is_digit(c: char) -> bool {
    '0' <= c && c <= '9'
}

pub open spec fn digit_val(c: char) -> int {
    c as int - '0' as int
}

/// Whether every character of `s` is an ASCII decimal digit.
pub open spec fn all_digits(s: Seq<char>) -> bool {
    forall|i: int| 0 <= i < s.len() ==> is_digit(#[trigger] s[i])
}

/// The number denoted by a sequence of decimal digits.
pub open spec fn dec_val(s: Seq<char>) -> int
    decreases s.len(),
{
    if s.len() == 0 {
        0
    } else {
        dec_val(s.drop_last()) * 10 + digit_val(s[s.len() - 1])
    }
}

/// The digits of an unsigned decimal literal: a leading `+` sign, which
/// Rust's integer parsing accepts, is dropped.
pub open spec fn unsigned_body(s: Seq<char>) -> Seq<char> {
    if s.len() > 0 && s[0] == '+' {
        s.drop_first()
    } else {
        s
    }
}

/// Whether `s` parses as an unsigned integer no greater than `bound`,
/// the way `str::parse` for an unsigned type of that bound decides it.
pub open spec fn parses_as_uint(s: Seq<char>, bound: int) -> bool {
    let d = unsigned_body(s);
    d.len() > 0 && all_digits(d) && dec_val(d) <= bound
}

/// The value of such a literal.
pub open spec fn uint_val(s: Seq<char>) -> int {
    dec_val(unsigned_body(s))
}

/// `find` is pinned down by a scan that saw no separator before `k`.
pub proof fn lemma_find_is(s: Seq<char>, sep: char, k: int)
    requires
        0 <= k <= s.len(),
        forall|i: int| 0 <= i < k ==> s[i] != sep,
        k < s.len() ==> s[k] == sep,
    ensures
        find(s, sep) == k,
    decreases s.len(),
{
    if s.len() > 0 && s[0] != sep {
        assert forall|i: int| 0 <= i < k - 1 implies s.drop_first()[i] != sep by {
            assert(s.drop_first()[i] == s[i + 1]);
        }
        lemma_find_is(s.drop_first(), sep, k - 1);
    }
}

/// `trim` is the subrange left over once a scan has stripped the
/// whitespace from both ends.
pub proof fn lemma_trim_range(s: Seq<char>, a: int, b: int)
    requires
        0 <= a <= b <= s.len(),
        forall|i: int| 0 <= i < a ==> is_space(#[trigger] s[i]),
        forall|i: int| b <= i < s.len() ==> is_space(#[trigger] s[i]),
        a < b ==> !is_space(s[a]) && !is_space(s[b - 1]),
    ensures
        trim(s) == s.subrange(a, b),
    decreases s.len(),
{
    if s.len() == 0 {
        assert(s.subrange(a, b) =~= s);
    } else if is_space(s[0]) {
        assert(a > 0 || a == b);
        if a == b {
            // all of s is whitespace
            let t = s.drop_first();
            assert forall|i: int| 0 <= i < t.len() implies is_space(#[trigger] t[i]) by {
                assert(t[i] == s[i + 1]);
            }
            lemma_trim_range(t, 0, 0);
            assert(s.subrange(a, b) =~= t.subrange(0, 0));
        } else {
            let t = s.drop_first();
            assert forall|i: int| 0 <= i < a - 1 implies is_space(#[trigger] t[i]) by {
                assert(t[i] == s[i + 1]);
            }
            assert forall|i: int| b - 1 <= i < t.len() implies is_space(#[trigger] t[i]) by {
                assert(t[i] == s[i + 1]);
            }
            assert(t[a - 1] == s[a]);
            assert(t[b - 2] == s[b - 1]);
            lemma_trim_range(t, a - 1, b - 1);
            assert(s.subrange(a, b) =~= t.subrange(a - 1, b - 1));
        }
    } else if is_space(s[s.len() - 1]) {
        // the first char is not whitespace, so a == 0 and b < s.len()
        assert(b < s.len()) by {
            if b == s.len() {
                assert(!is_space(s[b - 1]));
            }
        }
        let t = s.drop_last();
        lemma_trim_range(t, a, b);
        assert(s.subrange(a, b) =~= t.subrange(a, b));
    } else {
        assert(a == 0 && b == s.len()) by {
            if a > 0 {
                assert(is_space(s[0]));
            }
            if b < s.len() {
                assert(is_space(s[s.len() - 1]));
            }
        }
        assert(s.subrange(a, b) =~= s);
    }
}

/// Case folding commutes with taking a prefix or suffix.
pub proof fn lemma_lower_take(s: Seq<char>, k: int)
    requires
        0 <= k <= s.len(),
    ensures
        lower(s).take(k) == lower(s.take(k)),
{
    assert(lower(s).take(k) =~= lower(s.take(k)));
}

pub proof fn lemma_lower_skip(s: Seq<char>, k: int)
    requires
        0 <= k <= s.len(),
    ensures
        lower(s).skip(k) == lower(s.skip(k)),
{
    assert(lower(s).skip(k) =~= lower(s.skip(k)));
}

/// A sequence that parses as an unsigned integer is untouched by case
/// folding: it consists of digits and possibly a sign.
pub proof fn lemma_parse_ignores_case(s: Seq<char>, bound: int)
    ensures
        parses_as_uint(lower(s), bound) ==> lower(s) == s,
        parses_as_uint(lower(s), bound) == parses_as_uint(s, bound),
{
    if parses_as_uint(lower(s), bound) {
        let d = unsigned_body(lower(s));
        assert forall|i: int| 0 <= i < s.len() implies to_lower(#[trigger] s[i]) == s[i] by {
            if s.len() > 0 && s[0] == '+' {
                if i > 0 {
                    assert(d[i - 1] == to_lower(s[i]));
                    assert(is_digit(to_lower(s[i])));
                }
            } else {
                assert(d[i] == to_lower(s[i]));
                assert(is_digit(to_lower(s[i])));
            }
        }
        assert(lower(s) =~= s);
    }
    if parses_as_uint(s, bound) {
        let d = unsigned_body(s);
        assert forall|i: int| 0 <= i < s.len() implies to_lower(#[trigger] s[i]) == s[i] by {
            if s.len() > 0 && s[0] == '+' {
                if i > 0 {
                    assert(d[i - 1] == s[i]);
                    assert(is_digit(s[i]));
                }
            } else {
                assert(d[i] == s[i]);
                assert(is_digit(s[i]));
            }
        }
        assert(lower(s) =~= s);
    }
}

/// Appending one digit multiplies the value by ten.
pub proof fn lemma_dec_val_snoc(s: Seq<char>, c: char)
    ensures
        dec_val(s.push(c)) == dec_val(s) * 10 + digit_val(c),
{
    assert(s.push(c).drop_last() =~= s);
}

pub proof fn lemma_dec_val_nonneg(s: Seq<char>)
    requires
        all_digits(s),
    ensures
        dec_val(s) >= 0,
    decreases s.len(),
{
    if s.len() > 0 {
        assert(all_digits(s.drop_last())) by {
            assert(forall|i: int|
                0 <= i < s.len() - 1 ==> s.drop_last()[i] == #[trigger] s[i]);
        }
        lemma_dec_val_nonneg(s.drop_last());
    }
}

/// Whether `c` is ASCII whitespace.
pub fn space_char(c: char) -> (b: bool)
    ensures
        b == is_space(c),
{
    c == ' ' || c == '\t' || c == '\n' || c == '\r'
}

/// Fold one character to ASCII lowercase.
pub fn lower_char(c: char) -> (r: char)
    ensures
        r == to_lower(c),
{
    match c {
        'A' => 'a',
        'B' => 'b',
        'C' => 'c',
        'D' => 'd',
        'E' => 'e',
        'F' => 'f',
        'G' => 'g',
        'H' => 'h',
        'I' => 'i',
        'J' => 'j',
        'K' => 'k',
        'L' => 'l',
        'M' => 'm',
        'N' => 'n',
        'O' => 'o',
        'P' => 'p',
        'Q' => 'q',
        'R' => 'r',
        'S' => 's',
        'T' => 't',
        'U' => 'u',
        'V' => 'v',
        'W' => 'w',
        'X' => 'x',
        'Y' => 'y',
        'Z' => 'z',
        _ => c,
    }
}

/// Fold one character to ASCII uppercase.
pub fn upper_char(c: char) -> (r: char)
    ensures
        r == to_upper(c),
{
    match c {
        'a' => 'A',
        'b' => 'B',
        'c' => 'C',
        'd' => 'D',
        'e' => 'E',
        'f' => 'F',
        'g' => 'G',
        'h' => 'H',
        'i' => 'I',
        'j' => 'J',
        'k' => 'K',
        'l' => 'L',
        'm' => 'M',
        'n' => 'N',
        'o' => 'O',
        'p' => 'P',
        'q' => 'Q',
        'r' => 'R',
        's' => 'S',
        't' => 'T',
        'u' => 'U',
        'v' => 'V',
        'w' => 'W',
        'x' => 'X',
        'y' => 'Y',
        'z' => 'Z',
        _ => c,
    }
}

/// Shrink `[lo, hi)` to the subrange with the surrounding ASCII
/// whitespace stripped, matching what `trim` does to the region.
pub fn trim_region(s: &str, lo: usize, hi: usize) -> (r: (usize, usize))
    requires
        lo <= hi <= s@.len(),
    ensures
        lo <= r.0 <= r.1 <= hi,
        trim(s@.subrange(lo as int, hi as int)) == s@.subrange(r.0 as int, r.1 as int),
{
    let mut a = lo;
    while a < hi && space_char(s.get_char(a))
        invariant
            lo <= a <= hi <= s@.len(),
            forall|i: int| lo <= i < a ==> is_space(#[trigger] s@[i]),
        decreases hi - a,
    {
        a = a + 1;
    }
    let mut b = hi;
    while b > a && space_char(s.get_char(b - 1))
        invariant
            a <= b <= hi <= s@.len(),
            forall|i: int| b <= i < hi ==> is_space(#[trigger] s@[i]),
        decreases b,
    {
        b = b - 1;
    }
    proof {
        let region = s@.subrange(lo as int, hi as int);
        assert forall|i: int| 0 <= i < a - lo implies is_space(#[trigger] region[i]) by {
            assert(region[i] == s@[lo + i]);
        }
        assert forall|i: int| b - lo <= i < region.len() implies is_space(#[trigger] region[i]) by {
            assert(region[i] == s@[lo + i]);
        }
        if a < b {
            assert(region[a - lo] == s@[a as int]);
            assert(region[b - lo - 1] == s@[b - 1]);
        }
        lemma_trim_range(region, a - lo, b - lo);
        assert(region.subrange(a - lo, b - lo) =~= s@.subrange(a as int, b as int));
    }
    (a, b)
}

/// Whether the region `[lo, hi)` of `s`, folded to lowercase, equals
/// `pat` (which is expected to be lowercase already).
pub fn region_eq_lower(s: &str, lo: usize, hi: usize, pat: &str) -> (b: bool)
    requires
        lo <= hi <= s@.len(),
    ensures
        b == (lower(s@.subrange(lo as int, hi as int)) == pat@),
{
    let ghost region = s@.subrange(lo as int, hi as int);
    let n = pat.unicode_len();
    if hi - lo != n {
        proof {
            assert(lower(region).len() == region.len());
        }
        return false;
    }
    let mut i: usize = 0;
    while i < n
        invariant
            lo <= hi <= s@.len(),
            n == pat@.len(),
            hi - lo == n,
            i <= n,
            region == s@.subrange(lo as int, hi as int),
            forall|k: int| 0 <= k < i ==> to_lower(#[trigger] region[k]) == pat@[k],
        decreases n - i,
    {
        let c = s.get_char(lo + i);
        let p = pat.get_char(i);
        proof {
            assert(region[i as int] == s@[lo + i]);
        }
        if lower_char(c) != p {
            proof {
                assert(lower(region)[i as int] == to_lower(region[i as int]));
            }
            return false;
        }
        i = i + 1;
    }
    proof {
        assert(lower(region) =~= pat@);
    }
    true
}

/// Whether the lowercase folding of the region `[lo, hi)` of `s` starts
/// with `pat` (which is expected to be lowercase already).
pub fn region_starts_lower(s: &str, lo: usize, hi: usize, pat: &str) -> (b: bool)
    requires
        lo <= hi <= s@.len(),
    ensures
        b == (hi - lo >= pat@.len() && lower(s@.subrange(lo as int, hi as int)).take(
            pat@.len() as int,
        ) == pat@),
{
    let n = pat.unicode_len();
    if hi - lo < n {
        return false;
    }
    let r = region_eq_lower(s, lo, lo + n, pat);
    proof {
        let whole = s@.subrange(lo as int, hi as int);
        let head = s@.subrange(lo as int, lo + n);
        assert(whole.take(n as int) =~= head);
        lemma_lower_take(whole, n as int);
    }
    r
}

/// Parse the region `[lo, hi)` of `s` as an unsigned decimal integer no
/// greater than `bound`, the way `str::parse` decides it: optional `+`
/// sign, at least one digit, no larger than the bound.
pub fn parse_uint_region(s: &str, lo: usize, hi: usize, bound: u64) -> (r: Option<u64>)
    requires
        lo <= hi <= s@.len(),
    ensures
        ({
            let t = s@.subrange(lo as int, hi as int);
            match r {
                Some(v) => parses_as_uint(t, bound as int) && v == uint_val(t) && v <= bound,
                None => !parses_as_uint(t, bound as int),
            }
        }),
{
    let ghost t = s@.subrange(lo as int, hi as int);
    let start: usize = if lo < hi && s.get_char(lo) == '+' {
        proof {
            assert(t[0] == s@[lo as int]);
        }
        lo + 1
    } else {
        lo
    };
    let ghost body = s@.subrange(start as int, hi as int);
    proof {
        assert(unsigned_body(t) =~= body);
    }
    if start == hi {
        return None;
    }
    let mut acc: u64 = 0;
    let mut too_big = false;
    let mut i = start;
    while i < hi
        invariant
            lo <= start <= i <= hi <= s@.len(),
            body == s@.subrange(start as int, hi as int),
            unsigned_body(s@.subrange(lo as int, hi as int)) == body,
            all_digits(s@.subrange(start as int, i as int)),
            !too_big ==> acc == dec_val(s@.subrange(start as int, i as int)) && acc <= bound,
            too_big ==> dec_val(s@.subrange(start as int, i as int)) > bound,
        decreases hi - i,
    {
        let c = s.get_char(i);
        if !('0' <= c && c <= '9') {
            proof {
                assert(body[i - start] == s@[i as int]);
                assert(!is_digit(body[i - start]));
            }
            return None;
        }
        let d: u64 = char_digit(c);
        let ghost pre = s@.subrange(start as int, i as int);
        proof {
            assert(pre.push(s@[i as int]) =~= s@.subrange(start as int, i + 1));
            lemma_dec_val_snoc(pre, s@[i as int]);
            assert forall|k: int| 0 <= k < i + 1 - start implies is_digit(
                #[trigger] s@.subrange(start as int, i + 1)[k],
            ) by {
                assert(s@.subrange(start as int, i + 1)[k] == s@[start + k]);
                if k < i - start {
                    assert(pre[k] == s@[start + k]);
                }
            }
        }
        if too_big {
            proof {
                lemma_dec_val_nonneg(pre);
            }
        } else if d > bound || acc > (bound - d) / 10 {
            too_big = true;
            proof {
                if d <= bound {
                    let x = (bound - d) as int;
                    vstd::arithmetic::div_mod::lemma_fundamental_div_mod(x, 10);
                    vstd::arithmetic::div_mod::lemma_mod_bound(x, 10);
                }
                assert(acc * 10 + d > bound);
            }
        } else {
            proof {
                let x = (bound - d) as int;
                vstd::arithmetic::div_mod::lemma_fundamental_div_mod(x, 10);
                vstd::arithmetic::div_mod::lemma_mod_bound(x, 10);
                assert(acc * 10 + d <= bound);
            }
            acc = acc * 10 + d;
        }
        i = i + 1;
    }
    if too_big {
        return None;
    }
    Some(acc)
}

/// Relies on String::push: appends the given character to the end of
/// the string.
pub assume_specification[ String::push ](s: &mut String, c: char)
    ensures
        final(s)@ == old(s)@.push(c),
;

/// A copy of `s` folded to ASCII uppercase.
pub fn upper_string(s: &str) -> (r: String)
    ensures
        r@ == upper(s@),
{
    let n = s.unicode_len();
    let mut r = String::new();
    let mut i: usize = 0;
    while i < n
        invariant
            i <= n,
            n == s@.len(),
            r@ == upper(s@).take(i as int),
        decreases n - i,
    {
        let c = s.get_char(i);
        r.push(upper_char(c));
        proof {
            assert(upper(s@).take(i + 1) =~= upper(s@).take(i as int).push(to_upper(s@[i as int])));
        }
        i = i + 1;
    }
    proof {
        assert(upper(s@).take(n as int) =~= upper(s@));
    }
    r
}

/// `s` with every trailing occurrence of `c` removed.
pub open spec fn trim_end_matching(s: Seq<char>, c: char) -> Seq<char>
    decreases s.len(),
{
    if s.len() > 0 && s[s.len() - 1] == c {
        trim_end_matching(s.drop_last(), c)
    } else {
        s
    }
}

proof fn lemma_trim_end_range(s: Seq<char>, c: char, b: int)
    requires
        0 <= b <= s.len(),
        forall|i: int| b <= i < s.len() ==> s[i] == c,
        b > 0 ==> s[b - 1] != c,
    ensures
        trim_end_matching(s, c) == s.take(b),
    decreases s.len(),
{
    if s.len() > 0 && s[s.len() - 1] == c {
        lemma_trim_end_range(s.drop_last(), c, b);
        assert(s.drop_last().take(b) =~= s.take(b));
    } else {
        assert(s.take(b) =~= s);
    }
}

/// A copy of `s` with every trailing occurrence of `c` removed.
pub fn trim_end_string(s: &str, c: char) -> (r: String)
    ensures
        r@ == trim_end_matching(s@, c),
{
    let n = s.unicode_len();
    let mut b = n;
    while b > 0 && s.get_char(b - 1) == c
        invariant
            b <= n,
            n == s@.len(),
            forall|i: int| b <= i < n ==> s@[i] == c,
        decreases b,
    {
        b = b - 1;
    }
    proof {
        lemma_trim_end_range(s@, c, b as int);
    }
    let head = s.substring_char(0, b);
    proof {
        assert(s@.subrange(0, b as int) =~= s@.take(b as int));
    }
    String::from_str(head)
}

/// Whether two strings hold the same characters.
pub fn str_eq(a: &str, b: &str) -> (r: bool)
    ensures
        r == (a@ == b@),
{
    let n = a.unicode_len();
    if b.unicode_len() != n {
        return false;
    }
    let mut i: usize = 0;
    while i < n
        invariant
            i <= n,
            n == a@.len(),
            n == b@.len(),
            forall|k: int| 0 <= k < i ==> a@[k] == b@[k],
        decreases n - i,
    {
        if a.get_char(i) != b.get_char(i) {
            return false;
        }
        i = i + 1;
    }
    proof {
        assert(a@ =~= b@);
    }
    true
}

/// The character of one decimal digit.
pub open spec fn digit_char(d: int) -> char
    recommends
        0 <= d <= 9,
{
    (('0' as int) + d) as char
}

/// The decimal text of a nonnegative number.
pub open spec fn dec_str(n: int) -> Seq<char>
    recommends
        n >= 0,
    decreases n,
{
    if n < 10 {
        seq![digit_char(n)]
    } else {
        dec_str(n / 10).push(digit_char(n % 10))
    }
}

/// The decimal text of a number is nonempty and all digits, and denotes
/// the number itself.
pub proof fn lemma_dec_str_val(n: int)
    requires
        n >= 0,
    ensures
        dec_str(n).len() >= 1,
        all_digits(dec_str(n)),
        dec_val(dec_str(n)) == n,
    decreases n,
{
    if n < 10 {
        assert(dec_str(n) == seq![digit_char(n)]);
        assert(is_digit(digit_char(n)));
        assert(seq![digit_char(n)].drop_last() =~= Seq::<char>::empty());
        assert(dec_val(Seq::<char>::empty()) == 0);
        assert(digit_val(digit_char(n)) == n);
        assert(dec_val(seq![digit_char(n)]) == n);
    } else {
        lemma_dec_str_val(n / 10);
        vstd::arithmetic::div_mod::lemma_fundamental_div_mod(n, 10);
        vstd::arithmetic::div_mod::lemma_mod_bound(n, 10);
        lemma_dec_val_snoc(dec_str(n / 10), digit_char(n % 10));
        let s = dec_str(n / 10).push(digit_char(n % 10));
        assert(is_digit(digit_char(n % 10)));
        assert(digit_val(digit_char(n % 10)) == n % 10);
        assert forall|i: int| 0 <= i < s.len() implies is_digit(#[trigger] s[i]) by {
            if i < s.len() - 1 {
                assert(s[i] == dec_str(n / 10)[i]);
            }
        }
    }
}

fn digit_to_char(d: u64) -> (c: char)
    requires
        d <= 9,
    ensures
        c == digit_char(d as int),
{
    match d {
        0 => '0',
        1 => '1',
        2 => '2',
        3 => '3',
        4 => '4',
        5 => '5',
        6 => '6',
        7 => '7',
        8 => '8',
        _ => '9',
    }
}

/// The decimal text of `n`.
pub fn u64_to_string(n: u64) -> (r: String)
    ensures
        r@ == dec_str(n as int),
    decreases n,
{
    let d = n % 10;
    let c = digit_to_char(d);
    if n < 10 {
        let mut s = String::new();
        s.push(c);
        proof {
            assert(Seq::<char>::empty().push(digit_char(n as int)) =~= seq![
                digit_char(n as int),
            ]);
        }
        s
    } else {
        let mut s = u64_to_string(n / 10);
        s.push(c);
        s
    }
}

/// Parse a whole string as a `u64`, the way `str::parse` decides it.
pub fn parse_u64_str(s: &str) -> (r: Option<u64>)
    ensures
        ({
            match r {
                Some(v) => parses_as_uint(s@, u64::MAX as int) && v == uint_val(s@),
                None => !parses_as_uint(s@, u64::MAX as int),
            }
        }),
{
    let n = s.unicode_len();
    let r = parse_uint_region(s, 0, n, u64::MAX);
    proof {
        assert(s@.subrange(0, s@.len() as int) =~= s@);
    }
    r
}

/// The numeric value of an ASCII digit.
pub fn char_digit(c: char) -> (d: u64)
    requires
        is_digit(c),
    ensures
        d == digit_val(c),
{
    match c {
        '0' => 0,
        '1' => 1,
        '2' => 2,
        '3' => 3,
        '4' => 4,
        '5' => 5,
        '6' => 6,
        '7' => 7,
        '8' => 8,
        _ => 9,
    }
}

} // verus!
