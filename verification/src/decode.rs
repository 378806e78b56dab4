//! Decoding a matrix from its textual encoding.
//!
//! The encoding is a whitespace-separated token stream: the row count, the
//! column count, then exactly `rows * cols` decimal numerals in row-major
//! order.

use crate::error::MatrixError;
use crate::ieee::{binary64_from_decimal, parse_decimal};
use crate::matrix::{lemma_cell_in_buffer, Matrix};
use crate::scalar::Scalar;
use vstd::prelude::*;
use vstd::string::StrSliceExecFns;

verus! {

/// Whether `c` separates tokens: the characters with the Unicode
/// `White_Space` property.
pub open spec fn is_space(c: char) -> bool {
    let u = c as u32;
    ||| 0x09 <= u <= 0x0d
    ||| u == 0x20
    ||| u == 0x85
    ||| u == 0xa0
    ||| u == 0x1680
    ||| 0x2000 <= u <= 0x200a
    ||| u == 0x2028
    ||| u == 0x2029
    ||| u == 0x202f
    ||| u == 0x205f
    ||| u == 0x3000
}

/// Whether `c` is one of the ASCII digits.
pub open spec fn is_digit(c: char) -> bool {
    0x30 <= c as u32 <= 0x39
}

/// The value of an ASCII digit.
pub open spec fn digit_of(c: char) -> nat {
    (c as u32 - 0x30) as nat
}

/// The tokens of `s` from position `i` on, where `cur` holds the characters
/// of the token that is being read, if any.
pub open spec fn scan(s: Seq<char>, i: int, cur: Seq<char>) -> Seq<Seq<char>>
    decreases s.len() - i,
{
    if i < 0 || i >= s.len() {
        if cur.len() > 0 {
            seq![cur]
        } else {
            Seq::empty()
        }
    } else if is_space(s[i]) {
        if cur.len() > 0 {
            seq![cur] + scan(s, i + 1, Seq::empty())
        } else {
            scan(s, i + 1, Seq::empty())
        }
    } else {
        scan(s, i + 1, cur.push(s[i]))
    }
}

/// The maximal runs of non-space characters of `s`, in order.
pub open spec fn tokens(s: Seq<char>) -> Seq<Seq<char>> {
    scan(s, 0, Seq::empty())
}

/// The text of each token.
pub open spec fn texts(toks: Seq<&str>) -> Seq<Seq<char>> {
    Seq::new(toks.len(), |k: int| toks[k]@)
}

/// The number that a string of digits denotes in base ten.
pub open spec fn digits_value(d: Seq<char>) -> nat
    decreases d.len(),
{
    if d.len() == 0 {
        0
    } else {
        digits_value(d.drop_last()) * 10 + digit_of(d.last())
    }
}

/// The digits of a count token: the token without its optional leading `+`.
pub open spec fn count_digits(t: Seq<char>) -> Seq<char> {
    if t.len() > 0 && t[0] == '+' {
        t.subrange(1, t.len() as int)
    } else {
        t
    }
}

/// The count that a token denotes: an optional `+` and at least one digit,
/// with a value that fits a `usize`. Anything else is `None`.
pub open spec fn count_value(t: Seq<char>) -> Option<usize> {
    let d = count_digits(t);
    if d.len() > 0 && (forall|k: int| 0 <= k < d.len() ==> is_digit(#[trigger] d[k]))
        && digits_value(d) <= usize::MAX {
        Some(digits_value(d) as usize)
    } else {
        None
    }
}

/// The first position at or after `i` that does not hold a digit.
pub open spec fn digits_end(t: Seq<char>, i: int) -> int
    decreases t.len() - i,
{
    if 0 <= i < t.len() && is_digit(t[i]) {
        digits_end(t, i + 1)
    } else {
        i
    }
}

/// Whether position `i` of `t` holds a sign.
pub open spec fn is_sign_at(t: Seq<char>, i: int) -> bool {
    0 <= i < t.len() && (t[i] == '+' || t[i] == '-')
}

/// Whether position `i` of `t` holds the character `c`.
pub open spec fn holds(t: Seq<char>, i: int, c: char) -> bool {
    0 <= i < t.len() && t[i] == c
}

/// Whether `t` is a decimal numeral: an optional sign; digits with at most
/// one decimal point among, before or after them, and at least one digit;
/// then optionally an exponent, `e` or `E` with an optional sign and at
/// least one digit.
pub open spec fn is_decimal_literal(t: Seq<char>) -> bool {
    let a = if is_sign_at(t, 0) {
        1int
    } else {
        0int
    };
    let b = digits_end(t, a);
    let c = if holds(t, b, '.') {
        digits_end(t, b + 1)
    } else {
        b
    };
    let mantissa_digits = if holds(t, b, '.') {
        c - a - 1
    } else {
        c - a
    };
    let d = if is_sign_at(t, c + 1) {
        c + 2
    } else {
        c + 1
    };
    &&& mantissa_digits >= 1
    &&& (c == t.len() || ((holds(t, c, 'e') || holds(t, c, 'E')) && d < t.len() && digits_end(t, d)
        == t.len()))
}

/// Whether a value token is accepted: it is a decimal numeral and the
/// conversion to binary64 takes it.
pub open spec fn is_value_token(t: Seq<char>) -> bool {
    is_decimal_literal(t) && binary64_from_decimal(t) is Some
}

/// The shape that a token stream declares: both counts are present and
/// positive, their product is addressable, and exactly that many value
/// tokens follow.
pub open spec fn declared_shape(toks: Seq<Seq<char>>) -> Option<(usize, usize)> {
    if toks.len() < 2 {
        None
    } else {
        match (count_value(toks[0]), count_value(toks[1])) {
            (Some(r), Some(c)) => if r > 0 && c > 0 && r * c <= usize::MAX && toks.len() == 2 + r
                * c {
                Some((r, c))
            } else {
                None
            },
            _ => None,
        }
    }
}

/// Whether `s` encodes a matrix.
pub open spec fn is_encoding(s: Seq<char>) -> bool {
    let toks = tokens(s);
    &&& declared_shape(toks) is Some
    &&& forall|k: int| 2 <= k < toks.len() ==> is_value_token(#[trigger] toks[k])
}

/// Whether `t` is a word: not empty and free of separators.
pub open spec fn is_word(t: Seq<char>) -> bool {
    &&& t.len() > 0
    &&& forall|k: int| 0 <= k < t.len() ==> !is_space(#[trigger] t[k])
}

/// Scanning yields words only, provided the token that is being read holds
/// no separator.
pub proof fn lemma_scan_yields_words(s: Seq<char>, i: int, cur: Seq<char>)
    requires
        0 <= i,
        forall|k: int| 0 <= k < cur.len() ==> !is_space(#[trigger] cur[k]),
    ensures
        forall|k: int| 0 <= k < scan(s, i, cur).len() ==> is_word(#[trigger] scan(s, i, cur)[k]),
    decreases s.len() - i,
{
    let all = scan(s, i, cur);
    if i < s.len() {
        if is_space(s[i]) {
            let rest = scan(s, i + 1, Seq::empty());
            lemma_scan_yields_words(s, i + 1, Seq::empty());
            if cur.len() > 0 {
                assert(all == seq![cur] + rest);
                assert forall|k: int| 0 <= k < all.len() implies is_word(#[trigger] all[k]) by {
                    if k > 0 {
                        assert(all[k] == rest[k - 1]);
                    } else {
                        assert(all[k] == cur);
                    }
                }
            } else {
                assert(all == rest);
            }
        } else {
            let longer = cur.push(s[i]);
            assert forall|k: int| 0 <= k < longer.len() implies !is_space(#[trigger] longer[k]) by {
                if k < cur.len() {
                    assert(longer[k] == cur[k]);
                }
            }
            lemma_scan_yields_words(s, i + 1, longer);
            assert(all == scan(s, i + 1, longer));
        }
    } else {
        if cur.len() > 0 {
            assert(all == seq![cur]);
            assert(all[0] == cur);
        } else {
            assert(all.len() == 0);
        }
    }
}

/// Every token is a word.
pub proof fn lemma_tokens_are_words(s: Seq<char>)
    ensures
        forall|k: int| 0 <= k < tokens(s).len() ==> is_word(#[trigger] tokens(s)[k]),
{
    lemma_scan_yields_words(s, 0, Seq::empty());
}

/// Appending digits never lowers the value: every prefix of a digit string
/// denotes at most what the whole string denotes.
pub proof fn lemma_prefix_value(d: Seq<char>, k: int)
    requires
        0 <= k <= d.len(),
    ensures
        digits_value(d.take(k)) <= digits_value(d),
    decreases d.len() - k,
{
    if k == d.len() {
        assert(d.take(k) =~= d);
    } else {
        lemma_prefix_value(d, k + 1);
        assert(d.take(k + 1).drop_last() =~= d.take(k));
    }
}

/// Whether `c` separates tokens.
pub fn char_is_space(c: char) -> (r: bool)
    ensures
        r == is_space(c),
{
    let u: u32 = c as u32;
    (0x09 <= u && u <= 0x0d) || u == 0x20 || u == 0x85 || u == 0xa0 || u == 0x1680 || (0x2000 <= u
        && u <= 0x200a) || u == 0x2028 || u == 0x2029 || u == 0x202f || u == 0x205f || u == 0x3000
}

/// Whether `c` is an ASCII digit.
pub fn char_is_digit(c: char) -> (r: bool)
    ensures
        r == is_digit(c),
{
    let u: u32 = c as u32;
    0x30 <= u && u <= 0x39
}

/// Splits `s` at whitespace into its tokens.
pub fn tokenize<'a>(s: &'a str) -> (toks: Vec<&'a str>)
    ensures
        texts(toks@) == tokens(s@),
        forall|k: int| 0 <= k < toks@.len() ==> is_word((#[trigger] toks@[k])@),
{
    let n = s.unicode_len();
    let mut toks: Vec<&'a str> = Vec::new();
    let mut start: usize = 0;
    let mut i: usize = 0;
    proof {
        assert(s@.subrange(0, 0) =~= Seq::<char>::empty());
        assert(texts(toks@) =~= Seq::<Seq<char>>::empty());
        assert(texts(toks@) + tokens(s@) =~= tokens(s@));
    }
    while i < n
        invariant
            n == s@.len(),
            start <= i <= n,
            texts(toks@) + scan(s@, i as int, s@.subrange(start as int, i as int)) == tokens(s@),
        decreases n - i,
    {
        let c = s.get_char(i);
        let ghost cur = s@.subrange(start as int, i as int);
        let ghost found = texts(toks@);
        if char_is_space(c) {
            if start < i {
                let tok = s.substring_char(start, i);
                toks.push(tok);
                proof {
                    assert(texts(toks@) =~= found.push(cur));
                    assert(found + (seq![cur] + scan(s@, i + 1, Seq::empty())) =~= found.push(cur)
                        + scan(s@, i + 1, Seq::empty()));
                }
            }
            start = i + 1;
            proof {
                assert(s@.subrange(start as int, i + 1) =~= Seq::<char>::empty());
            }
        } else {
            proof {
                assert(s@.subrange(start as int, i + 1) =~= cur.push(s@[i as int]));
            }
        }
        i += 1;
    }
    if start < n {
        let ghost found = texts(toks@);
        let ghost cur = s@.subrange(start as int, n as int);
        let tok = s.substring_char(start, n);
        toks.push(tok);
        proof {
            assert(texts(toks@) =~= found.push(cur));
            assert(found + seq![cur] =~= found.push(cur));
        }
    } else {
        proof {
            assert(texts(toks@) + Seq::<Seq<char>>::empty() =~= texts(toks@));
        }
    }
    proof {
        lemma_tokens_are_words(s@);
        assert forall|k: int| 0 <= k < toks@.len() implies is_word((#[trigger] toks@[k])@) by {
            assert(toks@[k]@ == tokens(s@)[k]);
        }
    }
    toks
}

/// Reads a count token: an optional `+`, then digits whose value fits a `usize`.
pub fn parse_count(t: &str) -> (res: Option<usize>)
    ensures
        res == count_value(t@),
{
    let n = t.unicode_len();
    if n == 0 {
        return None;
    }
    let first: usize = if t.get_char(0) == '+' {
        1
    } else {
        0
    };
    let ghost d = count_digits(t@);
    if first == n {
        return None;
    }
    let mut acc: usize = 0;
    let mut i: usize = first;
    proof {
        assert(d.take(0) =~= Seq::<char>::empty());
    }
    while i < n
        invariant
            n == t@.len(),
            first <= i <= n,
            first < n,
            d == count_digits(t@),
            d.len() == n - first,
            forall|k: int| 0 <= k < d.len() ==> d[k] == t@[first + k],
            forall|k: int| 0 <= k < i - first ==> is_digit(#[trigger] d[k]),
            acc == digits_value(d.take(i - first)),
        decreases n - i,
    {
        let c = t.get_char(i);
        if !char_is_digit(c) {
            proof {
                assert(!is_digit(d[i - first]));
            }
            return None;
        }
        let digit: usize = (c as u32 - 0x30) as usize;
        proof {
            assert(d.take(i - first + 1).drop_last() =~= d.take(i - first));
            assert(d.take(i - first + 1).last() == c);
            lemma_prefix_value(d, i - first + 1);
        }
        if acc > (usize::MAX - digit) / 10 {
            return None;
        }
        acc = acc * 10 + digit;
        i += 1;
    }
    proof {
        assert(d.take(n - first) =~= d);
    }
    Some(acc)
}

/// The first position at or after `from` that does not hold a digit.
pub fn scan_digits(t: &str, from: usize) -> (end: usize)
    requires
        from <= t@.len(),
    ensures
        end == digits_end(t@, from as int),
        from <= end <= t@.len(),
{
    let n = t.unicode_len();
    let mut i: usize = from;
    while i < n
        invariant
            n == t@.len(),
            from <= i <= n,
            digits_end(t@, from as int) == digits_end(t@, i as int),
        decreases n - i,
    {
        if !char_is_digit(t.get_char(i)) {
            return i;
        }
        i += 1;
    }
    i
}

/// Whether the token is a decimal numeral.
pub fn check_decimal_literal(t: &str) -> (ok: bool)
    ensures
        ok == is_decimal_literal(t@),
{
    let n = t.unicode_len();
    let a: usize = if n > 0 && (t.get_char(0) == '+' || t.get_char(0) == '-') {
        1
    } else {
        0
    };
    let b = scan_digits(t, a);
    let has_point = b < n && t.get_char(b) == '.';
    let c = if has_point {
        scan_digits(t, b + 1)
    } else {
        b
    };
    let mantissa_digits: usize = if has_point {
        c - a - 1
    } else {
        c - a
    };
    if mantissa_digits < 1 {
        return false;
    }
    if c == n {
        return true;
    }
    let mark = t.get_char(c);
    if !(mark == 'e' || mark == 'E') {
        return false;
    }
    let d: usize = if c + 1 < n && (t.get_char(c + 1) == '+' || t.get_char(c + 1) == '-') {
        c + 2
    } else {
        c + 1
    };
    if d >= n {
        return false;
    }
    scan_digits(t, d) == n
}

impl Matrix {
    /// Decodes a matrix from text: the row count, the column count, then
    /// the cells in row-major order, all separated by whitespace.
    ///
    /// Fails with `FormatError` unless both counts are present and positive,
    /// exactly `rows * cols` value tokens follow, and each of them is a
    /// decimal numeral.
    pub fn create_from_string(s: &String) -> (res: Result<Matrix, MatrixError>)
        ensures
            res is Ok <==> is_encoding(s@),
            res is Err ==> res == Err::<Matrix, MatrixError>(MatrixError::FormatError),
            res is Ok ==> {
                let m = res->Ok_0;
                let toks = tokens(s@);
                &&& m.wf()
                &&& declared_shape(toks) == Some((m.rows, m.cols))
                &&& forall|i: int, j: int|
                    0 <= i < m.rows && 0 <= j < m.cols ==> Some((#[trigger] m@[i][j]).bits)
                        == binary64_from_decimal(toks[2 + i * m.cols + j])
            },
    {
        let toks = tokenize(s.as_str());
        let ghost words = tokens(s@);
        if toks.len() < 2 {
            return Err(MatrixError::FormatError);
        }
        proof {
            assert(toks@[0]@ == words[0]);
            assert(toks@[1]@ == words[1]);
        }
        let rows = match parse_count(toks[0]) {
            Some(r) => r,
            None => {
                return Err(MatrixError::FormatError);
            },
        };
        let cols = match parse_count(toks[1]) {
            Some(c) => c,
            None => {
                return Err(MatrixError::FormatError);
            },
        };
        if rows == 0 || cols == 0 {
            return Err(MatrixError::FormatError);
        }
        let total = match rows.checked_mul(cols) {
            Some(t) => t,
            None => {
                return Err(MatrixError::FormatError);
            },
        };
        if toks.len() - 2 != total {
            return Err(MatrixError::FormatError);
        }
        let mut values: Vec<Scalar> = Vec::new();
        let mut k: usize = 0;
        while k < total
            invariant
                words == tokens(s@),
                texts(toks@) == words,
                toks.len() == 2 + total,
                k <= total,
                values@.len() == k,
                forall|p: int| 0 <= p < k ==> is_value_token(#[trigger] words[2 + p]),
                forall|p: int|
                    0 <= p < k ==> Some((#[trigger] values@[p]).bits) == binary64_from_decimal(
                        words[2 + p],
                    ),
            decreases total - k,
        {
            let tok = toks[2 + k];
            proof {
                assert(tok@ == words[2 + k]);
            }
            if !check_decimal_literal(tok) {
                return Err(MatrixError::FormatError);
            }
            match parse_decimal(tok) {
                Some(bits) => {
                    values.push(Scalar::from_bits(bits));
                },
                None => {
                    return Err(MatrixError::FormatError);
                },
            }
            k += 1;
        }
        let mut m = Matrix::new(rows, cols);
        m.load_from_vector(values);
        proof {
            assert forall|p: int| 2 <= p < words.len() implies is_value_token(#[trigger] words[p]) by {
                assert(is_value_token(words[2 + (p - 2)]));
            }
            assert forall|i: int, j: int| 0 <= i < m.rows && 0 <= j < m.cols implies Some(
                (#[trigger] m@[i][j]).bits,
            ) == binary64_from_decimal(words[2 + i * m.cols + j]) by {
                lemma_cell_in_buffer(rows as int, cols as int, i, j);
            }
        }
        Ok(m)
    }
}

} // verus!
