use vstd::prelude::*;

verus! {

/// The characters of `s`, one by one.
pub fn chars_of(s: &str) -> (v: Vec<char>)
    ensures
        v@ == s@,
{
    let n = s.unicode_len();
    let mut v: Vec<char> = Vec::new();
    let mut i: usize = 0;
    while i < n
        invariant
            n == s@.len(),
            i <= n,
            v@ == s@.take(i as int),
        decreases n - i,
    {
        let c = s.get_char(i);
        v.push(c);
        i = i + 1;
        assert(v@ =~= s@.take(i as int));
    }
    assert(v@ =~= s@);
    v
}

/// Whether two strings hold the same characters.
pub fn str_equal(a: &str, b: &str) -> (r: bool)
    ensures
        r == (a@ == b@),
{
    let n = a.unicode_len();
    let m = b.unicode_len();
    if n != m {
        return false;
    }
    let mut i: usize = 0;
    while i < n
        invariant
            n == a@.len(),
            n == b@.len(),
            i <= n,
            forall|j: int| 0 <= j < i ==> a@[j] == b@[j],
        decreases n - i,
    {
        if a.get_char(i) != b.get_char(i) {
            return false;
        }
        i = i + 1;
    }
    assert(a@ =~= b@);
    true
}

pub open spec fn is_ascii_digit(c: char) -> bool {
    '0' <= c && c <= '9'
}

pub open spec fn is_sign(c: char) -> bool {
    c == '+' || c == '-'
}

/// `c` with an ASCII capital letter turned to small.
pub open spec fn ascii_lower(c: char) -> char {
    if 'A' <= c && c <= 'Z' {
        (((c as u8) + 32) as u8) as char
    } else {
        c
    }
}

/// Every character of `s` is a decimal digit (true of the empty sequence).
pub open spec fn all_digits(s: Seq<char>) -> bool {
    forall|i: int| 0 <= i < s.len() ==> is_ascii_digit(#[trigger] s[i])
}

/// One or more decimal digits.
pub open spec fn is_digits(s: Seq<char>) -> bool {
    s.len() > 0 && all_digits(s)
}

/// `s` spells `word` (given in small letters), ignoring the case of ASCII letters.
pub open spec fn matches_word(s: Seq<char>, word: Seq<char>) -> bool {
    s.len() == word.len() && forall|i: int| 0 <= i < s.len() ==> ascii_lower(#[trigger] s[i]) == word[i]
}

/// The point of a mantissa sits at `k`, with digits on both sides and at least one in all.
pub open spec fn point_at(s: Seq<char>, k: int) -> bool {
    &&& 0 <= k < s.len()
    &&& s[k] == '.'
    &&& all_digits(s.take(k))
    &&& all_digits(s.skip(k + 1))
    &&& s.len() > 1
}

/// `Digit+ | Digit+ '.' Digit* | Digit* '.' Digit+`.
pub open spec fn is_mantissa(s: Seq<char>) -> bool {
    is_digits(s) || exists|k: int| point_at(s, k)
}

/// `'e' Sign? Digit+`, the letter in either case.
pub open spec fn is_exponent(s: Seq<char>) -> bool {
    &&& s.len() >= 2
    &&& ascii_lower(s[0]) == 'e'
    &&& (is_digits(s.skip(1)) || (is_sign(s[1]) && is_digits(s.skip(2))))
}

/// A mantissa ends at `k` and an exponent follows it.
pub open spec fn exponent_at(s: Seq<char>, k: int) -> bool {
    0 < k < s.len() && is_mantissa(s.take(k)) && is_exponent(s.skip(k))
}

/// `Mantissa Exponent?`.
pub open spec fn is_number(s: Seq<char>) -> bool {
    is_mantissa(s) || exists|k: int| exponent_at(s, k)
}

/// A number, or one of the words `inf`, `infinity`, `nan` in any case.
pub open spec fn is_unsigned_float(s: Seq<char>) -> bool {
    ||| matches_word(s, seq!['i', 'n', 'f'])
    ||| matches_word(s, seq!['i', 'n', 'f', 'i', 'n', 'i', 't', 'y'])
    ||| matches_word(s, seq!['n', 'a', 'n'])
    ||| is_number(s)
}

/// The text of a decimal floating-point number as Rust's `f64` parser takes
/// it: an optional sign, then a number with an optional exponent, or `inf`,
/// `infinity` or `nan`, with no space around it.
pub open spec fn is_float_text(s: Seq<char>) -> bool {
    if s.len() > 0 && is_sign(s[0]) {
        is_unsigned_float(s.skip(1))
    } else {
        is_unsigned_float(s)
    }
}

fn is_digit_char(c: char) -> (b: bool)
    ensures
        b == is_ascii_digit(c),
{
    '0' <= c && c <= '9'
}

fn lower_char(c: char) -> (r: char)
    ensures
        r == ascii_lower(c),
{
    if 'A' <= c && c <= 'Z' {
        ((c as u8) + 32) as char
    } else {
        c
    }
}

/// Whether `v[lo..hi]` holds digits only.
fn digits_only(v: &Vec<char>, lo: usize, hi: usize) -> (b: bool)
    requires
        lo <= hi <= v.len(),
    ensures
        b == all_digits(v@.subrange(lo as int, hi as int)),
{
    let mut i = lo;
    while i < hi
        invariant
            lo <= i <= hi <= v.len(),
            all_digits(v@.subrange(lo as int, i as int)),
        decreases hi - i,
    {
        if !is_digit_char(v[i]) {
            assert(v@.subrange(lo as int, hi as int)[i - lo] == v@[i as int]);
            return false;
        }
        i = i + 1;
        assert forall|j: int| 0 <= j < v@.subrange(lo as int, i as int).len() implies is_ascii_digit(
            #[trigger] v@.subrange(lo as int, i as int)[j],
        ) by {
            if j < i - 1 - lo {
                assert(v@.subrange(lo as int, (i - 1) as int)[j] == v@.subrange(lo as int, i as int)[j]);
            }
        }
    }
    true
}

/// Whether `v[lo..hi]` spells `word`, ignoring the case of ASCII letters.
fn matches_word_at(v: &Vec<char>, lo: usize, hi: usize, word: &Vec<char>) -> (b: bool)
    requires
        lo <= hi <= v.len(),
    ensures
        b == matches_word(v@.subrange(lo as int, hi as int), word@),
{
    if hi - lo != word.len() {
        return false;
    }
    let mut i: usize = 0;
    while i < word.len()
        invariant
            lo <= hi <= v.len(),
            hi - lo == word.len(),
            i <= word.len(),
            forall|j: int| 0 <= j < i ==> ascii_lower(v@[lo + j]) == word@[j],
        decreases word.len() - i,
    {
        if lower_char(v[lo + i]) != word[i] {
            assert(v@.subrange(lo as int, hi as int)[i as int] == v@[lo + i]);
            return false;
        }
        i = i + 1;
    }
    assert forall|j: int| 0 <= j < v@.subrange(lo as int, hi as int).len() implies ascii_lower(
        #[trigger] v@.subrange(lo as int, hi as int)[j],
    ) == word@[j] by {
        assert(v@.subrange(lo as int, hi as int)[j] == v@[lo + j]);
    }
    true
}

/// Whether `v[lo..hi]` is a mantissa.
fn mantissa_at(v: &Vec<char>, lo: usize, hi: usize) -> (b: bool)
    requires
        lo <= hi <= v.len(),
    ensures
        b == is_mantissa(v@.subrange(lo as int, hi as int)),
{
    let ghost s = v@.subrange(lo as int, hi as int);
    let mut k = lo;
    while k < hi && v[k] != '.'
        invariant
            lo <= k <= hi <= v.len(),
            s == v@.subrange(lo as int, hi as int),
            forall|j: int| lo <= j < k ==> v@[j] != '.',
        decreases hi - k,
    {
        k = k + 1;
    }
    if k == hi {
        let b = hi > lo && digits_only(v, lo, hi);
        proof {
            assert forall|p: int| !point_at(s, p) by {
                if 0 <= p < s.len() {
                    assert(s[p] == v@[lo + p]);
                }
            }
        }
        return b;
    }
    proof {
        assert(s[k - lo] == '.');
        assert(s.take(k - lo) =~= v@.subrange(lo as int, k as int));
        assert(s.skip(k - lo + 1) =~= v@.subrange(k + 1, hi as int));
    }
    let left = digits_only(v, lo, k);
    let right = digits_only(v, k + 1, hi);
    let b = left && right && hi - lo > 1;
    proof {
        if b {
            assert(point_at(s, k - lo));
        } else {
            assert(!is_digits(s)) by {
                assert(!is_ascii_digit(s[k - lo]));
            }
            assert forall|p: int| !point_at(s, p) by {
                if point_at(s, p) && p != k - lo {
                    if p < k - lo {
                        assert(s.skip(p + 1)[k - lo - p - 1] == s[k - lo]);
                    } else {
                        assert(s.take(p)[k - lo] == s[k - lo]);
                    }
                }
            }
        }
    }
    b
}

/// Whether `v[lo..hi]` is an exponent.
fn exponent_part(v: &Vec<char>, lo: usize, hi: usize) -> (b: bool)
    requires
        lo <= hi <= v.len(),
    ensures
        b == is_exponent(v@.subrange(lo as int, hi as int)),
{
    let ghost s = v@.subrange(lo as int, hi as int);
    if hi - lo < 2 {
        return false;
    }
    assert(s[0] == v@[lo as int]);
    assert(s[1] == v@[lo + 1]);
    if lower_char(v[lo]) != 'e' {
        return false;
    }
    assert(s.skip(1) =~= v@.subrange(lo + 1, hi as int));
    assert(s.skip(2) =~= v@.subrange(lo + 2, hi as int));
    if v[lo + 1] == '+' || v[lo + 1] == '-' {
        let d = hi - lo > 2 && digits_only(v, lo + 2, hi);
        proof {
            assert(!is_digits(s.skip(1))) by {
                assert(s.skip(1)[0] == s[1]);
            }
        }
        d
    } else {
        digits_only(v, lo + 1, hi)
    }
}

/// Whether `v[lo..hi]` is a number with an optional exponent.
fn number_at(v: &Vec<char>, lo: usize, hi: usize) -> (b: bool)
    requires
        lo <= hi <= v.len(),
    ensures
        b == is_number(v@.subrange(lo as int, hi as int)),
{
    let ghost s = v@.subrange(lo as int, hi as int);
    let mut k = lo;
    while k < hi && v[k] != 'e' && v[k] != 'E'
        invariant
            lo <= k <= hi <= v.len(),
            s == v@.subrange(lo as int, hi as int),
            forall|j: int| lo <= j < k ==> v@[j] != 'e' && v@[j] != 'E',
        decreases hi - k,
    {
        k = k + 1;
    }
    if k == hi {
        let b = mantissa_at(v, lo, hi);
        proof {
            assert forall|p: int| !exponent_at(s, p) by {
                if 0 < p < s.len() && is_exponent(s.skip(p)) {
                    assert(s.skip(p)[0] == v@[lo + p]);
                }
            }
        }
        return b;
    }
    proof {
        assert(s.take(k - lo) =~= v@.subrange(lo as int, k as int));
        assert(s.skip(k - lo) =~= v@.subrange(k as int, hi as int));
    }
    let m = k > lo && mantissa_at(v, lo, k);
    let e = exponent_part(v, k, hi);
    let b = m && e;
    proof {
        lemma_mantissa_has_no_e(s);
        if b {
            assert(exponent_at(s, k - lo));
        } else {
            assert(s[k - lo] == v@[k as int]);
            assert(!is_ascii_digit(s[k - lo]));
            assert(!is_mantissa(s));
            assert forall|p: int| !exponent_at(s, p) by {
                if exponent_at(s, p) && p != k - lo {
                    lemma_mantissa_has_no_e(s.take(p));
                    if p < k - lo {
                        assert(s.skip(p)[0] == s[p]);
                        assert(s[p] == v@[lo + p]);
                    } else {
                        assert(s.take(p)[k - lo] == s[k - lo]);
                    }
                }
            }
        }
    }
    b
}

/// A mantissa holds digits and points only.
proof fn lemma_mantissa_has_no_e(s: Seq<char>)
    ensures
        is_mantissa(s) ==> forall|i: int| 0 <= i < s.len() ==> (is_ascii_digit(#[trigger] s[i]) || s[i] == '.'),
{
    if is_mantissa(s) && !is_digits(s) {
        let k = choose|k: int| point_at(s, k);
        assert forall|i: int| 0 <= i < s.len() implies (is_ascii_digit(#[trigger] s[i]) || s[i] == '.') by {
            if i < k {
                assert(s.take(k)[i] == s[i]);
            } else if i > k {
                assert(s.skip(k + 1)[i - k - 1] == s[i]);
            }
        }
    }
}

/// Whether `s` is the text of a floating-point number, as Rust's `f64`
/// parser takes it.
pub fn is_float_str(s: &str) -> (b: bool)
    ensures
        b == is_float_text(s@),
{
    let v = chars_of(s);
    let n = v.len();
    let lo: usize = if n > 0 && (v[0] == '+' || v[0] == '-') {
        1
    } else {
        0
    };
    proof {
        assert(v@.subrange(lo as int, n as int) =~= if n > 0 && is_sign(s@[0]) {
            s@.skip(1)
        } else {
            s@
        });
    }
    let inf = vec!['i', 'n', 'f'];
    let infinity = vec!['i', 'n', 'f', 'i', 'n', 'i', 't', 'y'];
    let nan = vec!['n', 'a', 'n'];
    proof {
        assert(inf@ =~= seq!['i', 'n', 'f']);
        assert(infinity@ =~= seq!['i', 'n', 'f', 'i', 'n', 'i', 't', 'y']);
        assert(nan@ =~= seq!['n', 'a', 'n']);
    }
    matches_word_at(&v, lo, n, &inf) || matches_word_at(&v, lo, n, &infinity) || matches_word_at(
        &v,
        lo,
        n,
        &nan,
    ) || number_at(&v, lo, n)
}

/// Whether `c` is alphabetic, as `char::is_alphabetic` reports it (the
/// Unicode property Alphabetic).
pub uninterp spec fn char_alphabetic(c: char) -> bool;

/// Whether `c` is alphanumeric, as `char::is_alphanumeric` reports it.
pub uninterp spec fn char_alphanumeric(c: char) -> bool;

/// Calls `char::is_alphabetic`; its answer is named `char_alphabetic`.
#[verifier::external_body]
pub(crate) fn is_alphabetic_char(c: char) -> (b: bool)
    ensures
        b == char_alphabetic(c),
{
    c.is_alphabetic()
}

/// Calls `char::is_alphanumeric`; its answer is named `char_alphanumeric`.
/// As documented, it holds of every character that `is_alphabetic` holds of.
#[verifier::external_body]
pub(crate) fn is_alphanumeric_char(c: char) -> (b: bool)
    ensures
        b == char_alphanumeric(c),
        char_alphabetic(c) ==> b,
{
    c.is_alphanumeric()
}

/// The value of a sequence of decimal digits.
pub open spec fn decimal_value(s: Seq<char>) -> nat
    decreases s.len(),
{
    if s.len() == 0 {
        0
    } else {
        decimal_value(s.drop_last()) * 10 + ((s.last() as u32) - 48) as nat
    }
}

/// What `usize::from_str` gives for `s`: an optional `+`, then one or more
/// decimal digits whose value fits in a `usize`; anything else is refused.
pub open spec fn spec_parse_natural(s: Seq<char>) -> Option<usize> {
    let d = if s.len() > 0 && s[0] == '+' {
        s.skip(1)
    } else {
        s
    };
    if is_digits(d) && decimal_value(d) <= usize::MAX {
        Some(decimal_value(d) as usize)
    } else {
        None
    }
}

/// Calls `str::parse::<usize>`, which the standard library documents as
/// taking an optional `+` and decimal digits, and refusing a value that
/// does not fit.
#[verifier::external_body]
pub(crate) fn parse_natural(s: &str) -> (r: Option<usize>)
    ensures
        r == spec_parse_natural(s@),
{
    s.parse::<usize>().ok()
}

/// Two points stand at `i` and `i + 1`.
pub open spec fn dots_at(s: Seq<char>, i: int) -> bool {
    0 <= i && i + 1 < s.len() && s[i] == '.' && s[i + 1] == '.'
}

/// Splitting `s` at each `..` (as `str::split` does, scanning from the
/// left) gives exactly two parts, the first `..` standing at `k`.
pub open spec fn range_split_at(s: Seq<char>, k: int) -> bool {
    &&& dots_at(s, k)
    &&& forall|i: int| 0 <= i < k ==> !dots_at(s, i)
    &&& forall|i: int| k + 2 <= i ==> !dots_at(s, i)
}

/// The two sides of the one `..` in `s`, if splitting at `..` gives exactly
/// two parts.
pub fn split_range(s: &str) -> (r: Option<(String, String)>)
    ensures
        match r {
            Some((a, b)) => exists|k: int|
                range_split_at(s@, k) && a@ == s@.take(k) && b@ == s@.skip(k + 2),
            None => forall|k: int| !range_split_at(s@, k),
        },
{
    let v = chars_of(s);
    let n = v.len();
    let mut k: usize = 0;
    while n > 0 && k < n - 1 && !(v[k] == '.' && v[k + 1] == '.')
        invariant
            v@ == s@,
            n == v.len(),
            k <= n,
            forall|i: int| 0 <= i < k ==> !dots_at(s@, i),
        decreases n - k,
    {
        k = k + 1;
    }
    if n == 0 || k >= n - 1 {
        proof {
            assert forall|p: int| !range_split_at(s@, p) by {
                if dots_at(s@, p) {
                    assert(p < k);
                }
            }
        }
        return None;
    }
    let mut j: usize = k + 2;
    while j < n - 1
        invariant
            v@ == s@,
            n == v.len(),
            k + 2 <= j,
            k + 1 < n,
            dots_at(s@, k as int),
            forall|i: int| 0 <= i < k ==> !dots_at(s@, i),
            forall|i: int| k + 2 <= i < j ==> !dots_at(s@, i),
        decreases n - j,
    {
        if v[j] == '.' && v[j + 1] == '.' {
            proof {
                assert forall|p: int| !range_split_at(s@, p) by {
                    if range_split_at(s@, p) {
                        if p < k {
                        } else if p > k {
                        } else {
                            assert(dots_at(s@, j as int));
                        }
                    }
                }
            }
            return None;
        }
        j = j + 1;
    }
    proof {
        assert(range_split_at(s@, k as int));
    }
    let a = String::from_str(s.substring_char(0, k));
    let b = String::from_str(s.substring_char(k + 2, n));
    proof {
        assert(s@.subrange(0, k as int) =~= s@.take(k as int));
        assert(s@.subrange(k + 2, n as int) =~= s@.skip(k + 2));
    }
    Some((a, b))
}

} // verus!
