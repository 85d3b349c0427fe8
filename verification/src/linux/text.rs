//! Byte-level text: whitespace, tokens, lines and decimal numbers.
//!
//! The files under `/proc` are read as bytes. Everything here is stated over
//! `Seq<u8>`, and each executable function returns exactly what the
//! function of the same meaning over sequences gives.

use vstd::prelude::*;
use vstd::slice::slice_subrange;

verus! {

/// The byte `\n`.
pub const NEWLINE: u8 = 10;

/// The byte `:`.
pub const COLON: u8 = 58;

/// The byte `+`.
pub const PLUS: u8 = 43;

/// The byte `-`.
pub const MINUS: u8 = 45;

/// The byte `.`.
pub const DOT: u8 = 46;

/// ASCII whitespace: space, tab, line feed, vertical tab, form feed and
/// carriage return.
pub open spec fn is_space(b: u8) -> bool {
    b == 32 || (9 <= b && b <= 13)
}

/// A decimal digit.
pub open spec fn is_digit(b: u8) -> bool {
    48 <= b && b <= 57
}

/// The views of a sequence of slices.
pub open spec fn views(v: Seq<&[u8]>) -> Seq<Seq<u8>> {
    Seq::new(v.len(), |i: int| v[i]@)
}

/// `s` without its leading whitespace.
pub open spec fn trim_start(s: Seq<u8>) -> Seq<u8>
    decreases s.len(),
{
    if s.len() > 0 && is_space(s[0]) {
        trim_start(s.skip(1))
    } else {
        s
    }
}

/// `s` without its trailing whitespace.
pub open spec fn trim_end(s: Seq<u8>) -> Seq<u8>
    decreases s.len(),
{
    if s.len() > 0 && is_space(s.last()) {
        trim_end(s.drop_last())
    } else {
        s
    }
}

/// `s` without the whitespace at either end.
pub open spec fn trimmed(s: Seq<u8>) -> Seq<u8> {
    trim_end(trim_start(s))
}

/// The tokens of `s` when `cur` is the token that was being read just
/// before `s` starts.
pub open spec fn tokens_from(s: Seq<u8>, cur: Seq<u8>) -> Seq<Seq<u8>>
    decreases s.len(),
{
    let done = if cur.len() > 0 {
        seq![cur]
    } else {
        Seq::<Seq<u8>>::empty()
    };
    if s.len() == 0 {
        done
    } else if is_space(s[0]) {
        done + tokens_from(s.skip(1), Seq::<u8>::empty())
    } else {
        tokens_from(s.skip(1), cur.push(s[0]))
    }
}

/// The maximal runs of bytes of `s` that hold no whitespace, in order.
pub open spec fn tokens(s: Seq<u8>) -> Seq<Seq<u8>> {
    tokens_from(s, Seq::<u8>::empty())
}

/// The lines of `s` when `cur` is the part of the current line that stands
/// before `s`.
pub open spec fn lines_from(s: Seq<u8>, cur: Seq<u8>) -> Seq<Seq<u8>>
    decreases s.len(),
{
    if s.len() == 0 {
        if cur.len() > 0 {
            seq![cur]
        } else {
            Seq::<Seq<u8>>::empty()
        }
    } else if s[0] == NEWLINE {
        seq![cur] + lines_from(s.skip(1), Seq::<u8>::empty())
    } else {
        lines_from(s.skip(1), cur.push(s[0]))
    }
}

/// The lines of `s`: what stands between line feeds. A final line needs no
/// line feed, and nothing follows the last line feed.
pub open spec fn lines(s: Seq<u8>) -> Seq<Seq<u8>> {
    lines_from(s, Seq::<u8>::empty())
}

/// The line holds no line feed.
pub open spec fn single_line(line: Seq<u8>) -> bool {
    forall|i: int| 0 <= i < line.len() ==> #[trigger] line[i] != NEWLINE
}

/// A word: at least one byte, and no whitespace.
pub open spec fn is_word(s: Seq<u8>) -> bool {
    s.len() > 0 && forall|i: int| 0 <= i < s.len() ==> !is_space(#[trigger] s[i])
}

/// The number that a run of decimal digits writes.
pub open spec fn digits_value(s: Seq<u8>) -> nat
    decreases s.len(),
{
    if s.len() == 0 {
        0
    } else {
        digits_value(s.drop_last()) * 10 + (s.last() - 48) as nat
    }
}

/// Every byte of `s` is a decimal digit.
pub open spec fn all_digits(s: Seq<u8>) -> bool {
    forall|i: int| 0 <= i < s.len() ==> is_digit(#[trigger] s[i])
}

/// The value of an unsigned decimal numeral: one or more digits, which a
/// single `+` may precede.
pub open spec fn unsigned_numeral(s: Seq<u8>) -> Option<nat> {
    let d = if s.len() > 0 && s[0] == PLUS {
        s.skip(1)
    } else {
        s
    };
    if d.len() > 0 && all_digits(d) {
        Some(digits_value(d))
    } else {
        None
    }
}

/// The value of a signed decimal numeral: one or more digits, which a
/// single `+` or `-` may precede.
pub open spec fn signed_numeral(s: Seq<u8>) -> Option<int> {
    if s.len() > 0 && s[0] == MINUS {
        let d = s.skip(1);
        if d.len() > 0 && all_digits(d) {
            Some(-(digits_value(d) as int))
        } else {
            None
        }
    } else {
        match unsigned_numeral(s) {
            Some(n) => Some(n as int),
            None => None,
        }
    }
}

/// The `u64` that `s` writes, if it is an unsigned numeral within range.
pub open spec fn u64_of(s: Seq<u8>) -> Option<u64> {
    match unsigned_numeral(s) {
        Some(n) => if n <= u64::MAX {
            Some(n as u64)
        } else {
            None
        },
        None => None,
    }
}

/// The `i32` that `s` writes, if it is a signed numeral within range.
pub open spec fn i32_of(s: Seq<u8>) -> Option<i32> {
    match signed_numeral(s) {
        Some(n) => if i32::MIN <= n <= i32::MAX {
            Some(n as i32)
        } else {
            None
        },
        None => None,
    }
}

/// Ten to the power `n`.
pub open spec fn pow10(n: nat) -> nat
    decreases n,
{
    if n == 0 {
        1
    } else {
        10 * pow10((n - 1) as nat)
    }
}

/// The digit at place `i` of a fraction, zero beyond its end.
pub open spec fn fraction_digit(f: Seq<u8>, i: int) -> nat {
    if 0 <= i < f.len() {
        (f[i] - 48) as nat
    } else {
        0
    }
}

/// The first `places` digits of a fraction as a number, with zeros for the
/// places that the fraction does not have.
pub open spec fn fraction_value(f: Seq<u8>, places: nat) -> nat
    decreases places,
{
    if places == 0 {
        0
    } else {
        fraction_value(f, (places - 1) as nat) * 10 + fraction_digit(f, places - 1)
    }
}

/// `s` without the `+` that may lead it.
pub open spec fn without_plus(s: Seq<u8>) -> Seq<u8> {
    if s.len() > 0 && s[0] == PLUS {
        s.skip(1)
    } else {
        s
    }
}

/// The value, in units of ten to the power `-places` and rounded down, of
/// the digits before and after a decimal point. Either run may be empty,
/// but not both.
pub open spec fn decimal_parts(whole: Seq<u8>, fraction: Seq<u8>, places: nat) -> Option<nat> {
    if whole.len() + fraction.len() > 0 && all_digits(whole) && all_digits(fraction) {
        Some(digits_value(whole) * pow10(places) + fraction_value(fraction, places))
    } else {
        None
    }
}

/// The value of a decimal numeral in units of ten to the power `-places`,
/// rounded down. The numeral is a run of digits, which a dot and further
/// digits may follow and a single `+` may precede; either run may be
/// empty, but not both. There is no minus sign and no exponent.
pub open spec fn decimal_numeral(s: Seq<u8>, places: nat) -> Option<nat> {
    let body = without_plus(s);
    match body.index_of_first(DOT) {
        Some(dot) => decimal_parts(body.take(dot), body.skip(dot + 1), places),
        None => decimal_parts(body, Seq::<u8>::empty(), places),
    }
}

/// A number of units as a `u64`, if there is one and it fits.
pub open spec fn fitting(n: Option<nat>) -> Option<u64> {
    match n {
        Some(n) => if n <= u64::MAX {
            Some(n as u64)
        } else {
            None
        },
        None => None,
    }
}

/// The `u64` that a decimal numeral comes to in units of ten to the power
/// `-places`, if it is one and the value fits.
pub open spec fn decimal_of(s: Seq<u8>, places: nat) -> Option<u64> {
    fitting(decimal_numeral(s, places))
}

/// Whether a byte is whitespace.
pub fn byte_is_space(b: u8) -> (r: bool)
    ensures
        r == is_space(b),
{
    b == 32 || (9 <= b && b <= 13)
}

/// Whether a byte is a decimal digit.
pub fn byte_is_digit(b: u8) -> (r: bool)
    ensures
        r == is_digit(b),
{
    48 <= b && b <= 57
}

/// Whether two byte strings are the same.
pub fn bytes_eq(a: &[u8], b: &[u8]) -> (r: bool)
    ensures
        r == (a@ == b@),
{
    if a.len() != b.len() {
        return false;
    }
    let mut i: usize = 0;
    while i < a.len()
        invariant
            i <= a.len(),
            a.len() == b.len(),
            forall|j: int| 0 <= j < i ==> a@[j] == b@[j],
        decreases a.len() - i,
    {
        if a[i] != b[i] {
            return false;
        }
        i += 1;
    }
    assert(a@ =~= b@);
    true
}

/// The index of the first `needle` in `s`.
pub fn find_first(s: &[u8], needle: u8) -> (r: Option<usize>)
    ensures
        match r {
            Some(i) => i < s.len() && s@[i as int] == needle && s@.index_of_first(needle) == Some(
                i as int,
            ),
            None => s@.index_of_first(needle) is None,
        },
{
    let mut i: usize = 0;
    while i < s.len()
        invariant
            i <= s.len(),
            forall|j: int| 0 <= j < i ==> s@[j] != needle,
        decreases s.len() - i,
    {
        if s[i] == needle {
            proof {
                s@.index_of_first_ensures(needle);
                assert(s@.contains(needle));
            }
            return Some(i);
        }
        i += 1;
    }
    proof {
        s@.index_of_first_ensures(needle);
    }
    None
}

/// The index of the last `needle` in `s`.
pub fn find_last(s: &[u8], needle: u8) -> (r: Option<usize>)
    ensures
        match r {
            Some(i) => i < s.len() && s@[i as int] == needle && s@.index_of_last(needle) == Some(
                i as int,
            ),
            None => s@.index_of_last(needle) is None,
        },
{
    let mut i: usize = s.len();
    while i > 0
        invariant
            i <= s.len(),
            forall|j: int| i <= j < s.len() ==> s@[j] != needle,
        decreases i,
    {
        i -= 1;
        if s[i] == needle {
            proof {
                s@.index_of_last_ensures(needle);
                assert(s@.contains(needle));
            }
            return Some(i);
        }
    }
    proof {
        s@.index_of_last_ensures(needle);
    }
    None
}

proof fn lemma_trim_start_skip(s: Seq<u8>, k: int)
    requires
        0 <= k <= s.len(),
        forall|j: int| 0 <= j < k ==> is_space(#[trigger] s[j]),
    ensures
        trim_start(s) == trim_start(s.skip(k)),
    decreases k,
{
    if k > 0 {
        assert(s.skip(1).skip(k - 1) =~= s.skip(k));
        lemma_trim_start_skip(s.skip(1), k - 1);
    } else {
        assert(s.skip(0) =~= s);
    }
}

proof fn lemma_trim_end_take(s: Seq<u8>, k: int)
    requires
        0 <= k <= s.len(),
        forall|j: int| k <= j < s.len() ==> is_space(#[trigger] s[j]),
    ensures
        trim_end(s) == trim_end(s.take(k)),
    decreases s.len() - k,
{
    if k < s.len() {
        assert(s.drop_last().take(k) =~= s.take(k));
        lemma_trim_end_take(s.drop_last(), k);
    } else {
        assert(s.take(k) =~= s);
    }
}

/// `s` without the whitespace at either end.
pub fn trim<'a>(s: &'a [u8]) -> (r: &'a [u8])
    ensures
        r@ == trimmed(s@),
{
    let mut a: usize = 0;
    while a < s.len() && byte_is_space(s[a])
        invariant
            a <= s.len(),
            forall|j: int| 0 <= j < a ==> is_space(#[trigger] s@[j]),
        decreases s.len() - a,
    {
        a += 1;
    }
    let mut b: usize = s.len();
    while b > a && byte_is_space(s[b - 1])
        invariant
            a <= b <= s.len(),
            forall|j: int| b <= j < s.len() ==> is_space(#[trigger] s@[j]),
        decreases b,
    {
        b -= 1;
    }
    proof {
        lemma_trim_start_skip(s@, a as int);
        let t = s@.skip(a as int);
        assert(trim_start(t) == t);
        lemma_trim_end_take(t, b - a);
        let u = t.take(b - a);
        assert(u =~= s@.subrange(a as int, b as int));
        assert(trim_end(u) == u);
    }
    slice_subrange(s, a, b)
}

/// The whitespace-separated fields of `s`.
pub fn split_fields<'a>(s: &'a [u8]) -> (fields: Vec<&'a [u8]>)
    ensures
        views(fields@) == tokens(s@),
        forall|k: int| 0 <= k < fields.len() ==> (#[trigger] fields@[k])@.len() > 0,
{
    let mut out: Vec<&[u8]> = Vec::new();
    let mut start: usize = 0;
    let mut i: usize = 0;
    assert(views(out@) =~= Seq::<Seq<u8>>::empty());
    assert(s@.skip(0) =~= s@);
    assert(s@.subrange(0, 0) =~= Seq::<u8>::empty());
    while i < s.len()
        invariant
            start <= i <= s.len(),
            tokens(s@) == views(out@) + tokens_from(
                s@.skip(i as int),
                s@.subrange(start as int, i as int),
            ),
            forall|k: int| 0 <= k < out.len() ==> (#[trigger] out@[k])@.len() > 0,
        decreases s.len() - i,
    {
        let ghost rest = s@.skip(i as int);
        let ghost cur = s@.subrange(start as int, i as int);
        let ghost before = views(out@);
        assert(rest[0] == s@[i as int]);
        assert(rest.skip(1) =~= s@.skip(i + 1));
        if byte_is_space(s[i]) {
            if start < i {
                let field = slice_subrange(s, start, i);
                out.push(field);
                assert(views(out@) =~= before + seq![cur]);
            }
            start = i + 1;
            assert(s@.subrange(start as int, i + 1) =~= Seq::<u8>::empty());
            assert(tokens(s@) =~= views(out@) + tokens_from(
                s@.skip(i + 1),
                Seq::<u8>::empty(),
            ));
        } else {
            assert(cur.push(s@[i as int]) =~= s@.subrange(start as int, i + 1));
        }
        i += 1;
    }
    let ghost before = views(out@);
    let ghost cur = s@.subrange(start as int, i as int);
    assert(s@.skip(i as int).len() == 0);
    if start < i {
        let field = slice_subrange(s, start, i);
        out.push(field);
        assert(views(out@) =~= before + seq![cur]);
    } else {
        assert(views(out@) =~= before + Seq::<Seq<u8>>::empty());
    }
    out
}

/// The lines of `s`.
pub fn split_lines<'a>(s: &'a [u8]) -> (out: Vec<&'a [u8]>)
    ensures
        views(out@) == lines(s@),
{
    let mut out: Vec<&[u8]> = Vec::new();
    let mut start: usize = 0;
    let mut i: usize = 0;
    assert(views(out@) =~= Seq::<Seq<u8>>::empty());
    assert(s@.skip(0) =~= s@);
    assert(s@.subrange(0, 0) =~= Seq::<u8>::empty());
    while i < s.len()
        invariant
            start <= i <= s.len(),
            lines(s@) == views(out@) + lines_from(
                s@.skip(i as int),
                s@.subrange(start as int, i as int),
            ),
        decreases s.len() - i,
    {
        let ghost rest = s@.skip(i as int);
        let ghost cur = s@.subrange(start as int, i as int);
        let ghost before = views(out@);
        assert(rest[0] == s@[i as int]);
        assert(rest.skip(1) =~= s@.skip(i + 1));
        if s[i] == NEWLINE {
            let line = slice_subrange(s, start, i);
            out.push(line);
            assert(views(out@) =~= before + seq![cur]);
            start = i + 1;
            assert(s@.subrange(start as int, i + 1) =~= Seq::<u8>::empty());
            assert(lines(s@) =~= views(out@) + lines_from(
                s@.skip(i + 1),
                Seq::<u8>::empty(),
            ));
        } else {
            assert(cur.push(s@[i as int]) =~= s@.subrange(start as int, i + 1));
        }
        i += 1;
    }
    let ghost before = views(out@);
    let ghost cur = s@.subrange(start as int, i as int);
    assert(s@.skip(i as int).len() == 0);
    if start < i {
        let line = slice_subrange(s, start, i);
        out.push(line);
        assert(views(out@) =~= before + seq![cur]);
    } else {
        assert(views(out@) =~= before + Seq::<Seq<u8>>::empty());
    }
    out
}

/// Every token is a word.
pub proof fn lemma_tokens_are_words(s: Seq<u8>)
    ensures
        forall|k: int| 0 <= k < tokens(s).len() ==> is_word(#[trigger] tokens(s)[k]),
{
    lemma_tokens_from_are_words(s, Seq::<u8>::empty());
}

proof fn lemma_tokens_from_are_words(s: Seq<u8>, cur: Seq<u8>)
    requires
        forall|i: int| 0 <= i < cur.len() ==> !is_space(#[trigger] cur[i]),
    ensures
        forall|k: int|
            0 <= k < tokens_from(s, cur).len() ==> is_word(#[trigger] tokens_from(s, cur)[k]),
    decreases s.len(),
{
    let all = tokens_from(s, cur);
    if s.len() == 0 {
        assert forall|k: int| 0 <= k < all.len() implies is_word(#[trigger] all[k]) by {
            assert(all[k] == cur);
        }
    } else {
        if is_space(s[0]) {
            lemma_tokens_from_are_words(s.skip(1), Seq::<u8>::empty());
            let rest = tokens_from(s.skip(1), Seq::<u8>::empty());
            assert forall|k: int| 0 <= k < all.len() implies is_word(#[trigger] all[k]) by {
                if cur.len() > 0 {
                    if k > 0 {
                        assert(all[k] == rest[k - 1]);
                    } else {
                        assert(all[k] == cur);
                    }
                } else {
                    assert(all[k] == rest[k]);
                }
            }
        } else {
            let next = cur.push(s[0]);
            assert forall|i: int| 0 <= i < next.len() implies !is_space(#[trigger] next[i]) by {
                if i < cur.len() {
                    assert(next[i] == cur[i]);
                }
            }
            lemma_tokens_from_are_words(s.skip(1), next);
            assert(all == tokens_from(s.skip(1), next));
        }
    }
}

/// No line holds a line feed.
pub proof fn lemma_lines_are_single(s: Seq<u8>)
    ensures
        forall|k: int| 0 <= k < lines(s).len() ==> single_line(#[trigger] lines(s)[k]),
{
    lemma_lines_from_are_single(s, Seq::<u8>::empty());
}

proof fn lemma_lines_from_are_single(s: Seq<u8>, cur: Seq<u8>)
    requires
        single_line(cur),
    ensures
        forall|k: int|
            0 <= k < lines_from(s, cur).len() ==> single_line(#[trigger] lines_from(s, cur)[k]),
    decreases s.len(),
{
    let all = lines_from(s, cur);
    if s.len() == 0 {
        assert forall|k: int| 0 <= k < all.len() implies single_line(#[trigger] all[k]) by {
            assert(all[k] == cur);
        }
    } else {
        if s[0] == NEWLINE {
            lemma_lines_from_are_single(s.skip(1), Seq::<u8>::empty());
            let rest = lines_from(s.skip(1), Seq::<u8>::empty());
            assert forall|k: int| 0 <= k < all.len() implies single_line(#[trigger] all[k]) by {
                if k > 0 {
                    assert(all[k] == rest[k - 1]);
                } else {
                    assert(all[k] == cur);
                }
            }
        } else {
            let next = cur.push(s[0]);
            assert forall|i: int| 0 <= i < next.len() implies #[trigger] next[i] != NEWLINE by {
                if i < cur.len() {
                    assert(next[i] == cur[i]);
                }
            }
            lemma_lines_from_are_single(s.skip(1), next);
            assert(all == lines_from(s.skip(1), next));
        }
    }
}

/// What trimming leaves is a stretch of the text with nothing but
/// whitespace around it, and no whitespace at either of its own ends.
pub proof fn lemma_trimmed(s: Seq<u8>)
    ensures
        exists|a: int, b: int|
            {
                &&& 0 <= a <= b <= s.len()
                &&& #[trigger] s.subrange(a, b) == trimmed(s)
                &&& forall|i: int| 0 <= i < a ==> is_space(#[trigger] s[i])
                &&& forall|i: int| b <= i < s.len() ==> is_space(#[trigger] s[i])
            },
        trimmed(s).len() > 0 ==> !is_space(trimmed(s)[0]) && !is_space(trimmed(s).last()),
{
    let a = lemma_trim_start(s);
    let t = s.skip(a);
    let len = lemma_trim_end(t);
    assert(t.take(len) =~= s.subrange(a, a + len));
    assert forall|i: int| a + len <= i < s.len() implies is_space(#[trigger] s[i]) by {
        assert(t[i - a] == s[i]);
    }
    if trimmed(s).len() > 0 {
        assert(trimmed(s)[0] == t[0]);
    }
}

/// The number of leading whitespace bytes that `trim_start` drops.
proof fn lemma_trim_start(s: Seq<u8>) -> (a: int)
    ensures
        0 <= a <= s.len(),
        trim_start(s) == s.skip(a),
        forall|i: int| 0 <= i < a ==> is_space(#[trigger] s[i]),
        a < s.len() ==> !is_space(s[a]),
    decreases s.len(),
{
    if s.len() > 0 && is_space(s[0]) {
        let rest = lemma_trim_start(s.skip(1));
        assert(s.skip(1).skip(rest) =~= s.skip(rest + 1));
        assert forall|i: int| 0 <= i < rest + 1 implies is_space(#[trigger] s[i]) by {
            if i > 0 {
                assert(s.skip(1)[i - 1] == s[i]);
            }
        }
        rest + 1
    } else {
        assert(s.skip(0) =~= s);
        0
    }
}

/// The length of what `trim_end` keeps.
proof fn lemma_trim_end(s: Seq<u8>) -> (len: int)
    ensures
        0 <= len <= s.len(),
        trim_end(s) == s.take(len),
        forall|i: int| len <= i < s.len() ==> is_space(#[trigger] s[i]),
        len > 0 ==> !is_space(s[len - 1]),
    decreases s.len(),
{
    if s.len() > 0 && is_space(s.last()) {
        let len = lemma_trim_end(s.drop_last());
        assert(s.drop_last().take(len) =~= s.take(len));
        assert forall|i: int| len <= i < s.len() implies is_space(#[trigger] s[i]) by {
            if i < s.len() - 1 {
                assert(s.drop_last()[i] == s[i]);
            }
        }
        len
    } else {
        assert(s.take(s.len() as int) =~= s);
        s.len() as int
    }
}

/// A numeral's value only grows as digits are appended.
pub proof fn lemma_digits_value_prefix(s: Seq<u8>, k: int)
    requires
        0 <= k <= s.len(),
        all_digits(s),
    ensures
        digits_value(s.take(k)) <= digits_value(s),
    decreases s.len() - k,
{
    if k < s.len() {
        assert(s.drop_last().take(k) =~= s.take(k));
        assert(all_digits(s.drop_last()));
        lemma_digits_value_prefix(s.drop_last(), k);
        assert(is_digit(s.last()));
    } else {
        assert(s.take(k) =~= s);
    }
}

/// The value of the digits `s[from..]`, if they are digits, there is at
/// least one, and the value fits in a `u64`.
pub fn parse_digits(s: &[u8], from: usize) -> (r: Option<u64>)
    requires
        from <= s.len(),
    ensures
        r == (if s@.skip(from as int).len() > 0 && all_digits(s@.skip(from as int))
            && digits_value(s@.skip(from as int)) <= u64::MAX {
            Some(digits_value(s@.skip(from as int)) as u64)
        } else {
            None
        }),
{
    let ghost d = s@.skip(from as int);
    if from == s.len() {
        return None;
    }
    let mut value: u64 = 0;
    let mut i: usize = from;
    assert(d.take(0) =~= Seq::<u8>::empty());
    while i < s.len()
        invariant
            from <= i <= s.len(),
            d == s@.skip(from as int),
            all_digits(d.take(i - from)),
            value == digits_value(d.take(i - from)),
        decreases s.len() - i,
    {
        let b = s[i];
        assert(d[i - from] == b);
        if !byte_is_digit(b) {
            return None;
        }
        let ghost next = d.take(i - from + 1);
        assert(next.drop_last() =~= d.take(i - from));
        assert(next.last() == b);
        assert(all_digits(next)) by {
            assert forall|j: int| 0 <= j < next.len() implies is_digit(#[trigger] next[j]) by {
                if j < i - from {
                    assert(d.take(i - from)[j] == next[j]);
                }
            }
        }
        let digit: u64 = (b - 48) as u64;
        let grown = match value.checked_mul(10) {
            Some(v) => v.checked_add(digit),
            None => None,
        };
        match grown {
            Some(v) => {
                value = v;
            },
            None => {
                proof {
                    assert(digits_value(next) > u64::MAX);
                    if all_digits(d) {
                        lemma_digits_value_prefix(d, i - from + 1);
                    }
                }
                return None;
            },
        }
        i += 1;
    }
    assert(d.take(i - from) =~= d);
    Some(value)
}

/// Reads an unsigned decimal numeral that fits in a `u64`.
pub fn parse_u64(s: &[u8]) -> (r: Option<u64>)
    ensures
        r == u64_of(s@),
{
    if s.len() > 0 && s[0] == PLUS {
        parse_digits(s, 1)
    } else {
        assert(s@.skip(0) =~= s@);
        parse_digits(s, 0)
    }
}

/// Reads a signed decimal numeral that fits in an `i32`.
pub fn parse_i32(s: &[u8]) -> (r: Option<i32>)
    ensures
        r == i32_of(s@),
{
    if s.len() > 0 && s[0] == MINUS {
        match parse_digits(s, 1) {
            Some(m) => if m <= 2147483648 {
                Some((0 - (m as i64)) as i32)
            } else {
                None
            },
            None => None,
        }
    } else {
        match parse_u64(s) {
            Some(m) => if m <= 2147483647 {
                Some(m as i32)
            } else {
                None
            },
            None => None,
        }
    }
}

/// The first `places` fraction digits never reach ten to the `places`.
pub proof fn lemma_fraction_value_bound(f: Seq<u8>, places: nat)
    requires
        all_digits(f),
    ensures
        fraction_value(f, places) < pow10(places),
    decreases places,
{
    if places > 0 {
        lemma_fraction_value_bound(f, (places - 1) as nat);
        if places - 1 < f.len() {
            assert(is_digit(f[places - 1]));
        }
    }
}

/// Reads a decimal numeral in units of ten to the power `-places`, rounded
/// down.
pub fn parse_decimal(s: &[u8], places: u8) -> (r: Option<u64>)
    ensures
        r == decimal_of(s@, places as nat),
{
    let body = if s.len() > 0 && s[0] == PLUS {
        slice_subrange(s, 1, s.len())
    } else {
        s
    };
    assert(body@ =~= without_plus(s@));
    match find_first(body, DOT) {
        Some(dot) => {
            let whole = slice_subrange(body, 0, dot);
            let fraction = slice_subrange(body, dot + 1, body.len());
            assert(whole@ =~= body@.take(dot as int));
            assert(fraction@ =~= body@.skip(dot + 1));
            parse_decimal_parts(whole, fraction, places)
        },
        None => {
            let fraction = slice_subrange(body, 0, 0);
            assert(fraction@ =~= Seq::<u8>::empty());
            parse_decimal_parts(body, fraction, places)
        },
    }
}

/// Reads the digits before and after a decimal point in units of ten to the
/// power `-places`, rounded down.
#[verifier::loop_isolation(false)]
pub fn parse_decimal_parts(whole: &[u8], fraction: &[u8], places: u8) -> (r: Option<u64>)
    ensures
        r == fitting(decimal_parts(whole@, fraction@, places as nat)),
{
    if whole.len() == 0 && fraction.len() == 0 {
        return None;
    }
    let mut i: usize = 0;
    while i < fraction.len()
        invariant
            i <= fraction.len(),
            forall|j: int| 0 <= j < i ==> is_digit(#[trigger] fraction@[j]),
        decreases fraction.len() - i,
    {
        if !byte_is_digit(fraction[i]) {
            return None;
        }
        i += 1;
    }
    assert(whole@.skip(0) =~= whole@);
    let read = if whole.len() == 0 {
        assert(whole@ =~= Seq::<u8>::empty());
        Some(0)
    } else {
        parse_digits(whole, 0)
    };
    let units = match read {
        Some(n) => n,
        None => {
            proof {
                if all_digits(whole@) {
                    assert(pow10(places as nat) >= 1) by {
                        lemma_fraction_value_bound(fraction@, places as nat);
                    }
                    assert(digits_value(whole@) * pow10(places as nat) >= digits_value(whole@))
                        by (nonlinear_arith)
                        requires
                            pow10(places as nat) >= 1,
                    ;
                }
            }
            return None;
        },
    };
    let mut value: u64 = units;
    let mut k: u8 = 0;
    assert(units * pow10(0) == units) by (nonlinear_arith)
        requires
            pow10(0) == 1,
    ;
    while k < places
        invariant
            k <= places,
            all_digits(fraction@),
            value == units * pow10(k as nat) + fraction_value(fraction@, k as nat),
        decreases places - k,
    {
        let digit: u64 = if (k as usize) < fraction.len() {
            assert(is_digit(fraction@[k as int]));
            (fraction[k as usize] - 48) as u64
        } else {
            0
        };
        let ghost next = units * pow10((k + 1) as nat) + fraction_value(
            fraction@,
            (k + 1) as nat,
        );
        assert(next == value * 10 + digit) by (nonlinear_arith)
            requires
                value == units * pow10(k as nat) + fraction_value(fraction@, k as nat),
                pow10((k + 1) as nat) == 10 * pow10(k as nat),
                fraction_value(fraction@, (k + 1) as nat) == fraction_value(fraction@, k as nat)
                    * 10 + digit,
                next == units * pow10((k + 1) as nat) + fraction_value(
                    fraction@,
                    (k + 1) as nat,
                ),
        ;
        let grown = match value.checked_mul(10) {
            Some(v) => v.checked_add(digit),
            None => None,
        };
        match grown {
            Some(v) => {
                value = v;
            },
            None => {
                proof {
                    lemma_decimal_grows(units as nat, fraction@, (k + 1) as nat, places as nat);
                }
                return None;
            },
        }
        k += 1;
    }
    Some(value)
}

/// A decimal in finer units is no smaller number.
pub proof fn lemma_decimal_grows(whole: nat, f: Seq<u8>, k: nat, places: nat)
    requires
        k <= places,
    ensures
        whole * pow10(k) + fraction_value(f, k) <= whole * pow10(places) + fraction_value(
            f,
            places,
        ),
    decreases places - k,
{
    if k < places {
        lemma_decimal_grows(whole, f, k + 1, places);
        assert(whole * pow10(k) + fraction_value(f, k) <= whole * pow10(k + 1) + fraction_value(
            f,
            k + 1,
        )) by (nonlinear_arith)
            requires
                pow10(k + 1) == 10 * pow10(k),
                fraction_value(f, k + 1) == fraction_value(f, k) * 10 + fraction_digit(f, k as int),
        ;
    }
}

} // verus!
