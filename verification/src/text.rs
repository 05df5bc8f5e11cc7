//! Byte-level primitives shared by every record decoder: field splitting,
//! trimming of white-space characters in their UTF-8 form, and integer
//! literals.

use crate::error::{failure, plain, DecodeError, ErrorKind, Failure};
use vstd::prelude::*;
use vstd::slice::slice_subrange;
use vstd::string::StringSliceAdditionalSpecFns;
use vstd::utf8::{
    char_is_scalar,
    encode_scalar,
    encode_utf8,
    has_width_1_encoding,
    has_width_2_encoding,
    has_width_3_encoding,
    is_scalar,
};

verus! {

/// The comma that separates the top-level fields of a record.
pub const COMMA: u8 = 44;

/// The colon that separates the parts of a sample descriptor or a control point.
pub const COLON: u8 = 58;

/// The pipe that separates the items of a curve or of an edge list.
pub const PIPE: u8 = 124;

/// The line feed that ends a line.
pub const NEWLINE: u8 = 10;

/// The minus sign of a negative literal.
pub const MINUS: u8 = 45;

/// The plus sign that an integer literal may start with.
pub const PLUS: u8 = 43;

/// The point between the integer and the fractional digits of a decimal.
pub const POINT: u8 = 46;

/// The digit zero; the other digits follow it.
pub const ZERO: u8 = 48;

/// The digit nine.
pub const NINE: u8 = 57;

/// The fields of `s` when it is cut at every occurrence of `delim`.
///
/// There is always at least one field; a delimiter at either end, or two in a
/// row, give an empty field.
pub open spec fn split(s: Seq<u8>, delim: u8) -> Seq<Seq<u8>>
    decreases s.len(),
{
    if s.len() == 0 {
        seq![Seq::<u8>::empty()]
    } else {
        let before = split(s.drop_last(), delim);
        if s.last() == delim {
            before.push(Seq::<u8>::empty())
        } else {
            before.update(before.len() - 1, before.last().push(s.last()))
        }
    }
}

/// The views of a vector of byte slices.
pub open spec fn views(fields: Seq<&[u8]>) -> Seq<Seq<u8>> {
    Seq::new(fields.len(), |i: int| fields[i]@)
}

/// `split` never gives an empty list.
pub proof fn lemma_split_nonempty(s: Seq<u8>, delim: u8)
    ensures
        split(s, delim).len() >= 1,
    decreases s.len(),
{
    if s.len() > 0 {
        lemma_split_nonempty(s.drop_last(), delim);
    }
}

/// Cuts `s` at every occurrence of `delim`.
pub fn split_fields<'a>(s: &'a [u8], delim: u8) -> (fields: Vec<&'a [u8]>)
    ensures
        views(fields@) == split(s@, delim),
{
    let mut fields: Vec<&'a [u8]> = Vec::new();
    let mut start: usize = 0;
    let mut i: usize = 0;
    proof {
        assert(s@.take(0) =~= Seq::<u8>::empty());
        assert(views(fields@).push(s@.subrange(0, 0)) =~= split(s@.take(0), delim));
    }
    while i < s.len()
        invariant
            start <= i <= s.len(),
            views(fields@).push(s@.subrange(start as int, i as int)) == split(
                s@.take(i as int),
                delim,
            ),
        decreases s.len() - i,
    {
        proof {
            let next = s@.take(i + 1);
            assert(next.drop_last() =~= s@.take(i as int));
            assert(next.last() == s@[i as int]);
        }
        if s[i] == delim {
            let field = slice_subrange(s, start, i);
            proof {
                assert(views(fields@.push(field)) =~= views(fields@).push(field@));
                assert(s@.subrange(i + 1, i + 1) =~= Seq::<u8>::empty());
            }
            fields.push(field);
            start = i + 1;
        } else {
            proof {
                let done = views(fields@);
                let cur = s@.subrange(start as int, i as int);
                assert(cur.push(s@[i as int]) =~= s@.subrange(start as int, i + 1));
                assert(done.push(cur).update(done.len() as int, cur.push(s@[i as int]))
                    =~= done.push(s@.subrange(start as int, i + 1)));
            }
        }
        i = i + 1;
    }
    let field = slice_subrange(s, start, i);
    proof {
        assert(views(fields@.push(field)) =~= views(fields@).push(field@));
        assert(s@.take(i as int) =~= s@);
    }
    fields.push(field);
    fields
}

/// The index of the first `delim` in `s`, or the length of `s` where there
/// is none.
pub open spec fn position(s: Seq<u8>, delim: u8) -> int
    decreases s.len(),
{
    if s.len() == 0 || s[0] == delim {
        0
    } else {
        1 + position(s.drop_first(), delim)
    }
}

/// The text before the first `delim` in `s` and the text after it; `None`
/// where `s` holds no `delim`.
pub open spec fn cut(s: Seq<u8>, delim: u8) -> Option<(Seq<u8>, Seq<u8>)> {
    let i = position(s, delim);
    if i < s.len() {
        Some((s.take(i), s.skip(i + 1)))
    } else {
        None
    }
}

/// `position` is the one index that holds `delim` with none before it.
pub proof fn lemma_position(s: Seq<u8>, delim: u8, k: int)
    requires
        0 <= k <= s.len(),
        forall|j: int| 0 <= j < k ==> s[j] != delim,
        k < s.len() ==> s[k] == delim,
    ensures
        position(s, delim) == k,
    decreases s.len(),
{
    if k > 0 {
        let rest = s.drop_first();
        assert forall|j: int| 0 <= j < k - 1 implies rest[j] != delim by {
            assert(rest[j] == s[j + 1]);
        }
        lemma_position(rest, delim, k - 1);
    }
}

/// What `position` gives: an index within `s` or its length, with no
/// `delim` before it and, where it lies within `s`, a `delim` at it.
pub proof fn lemma_position_bounds(s: Seq<u8>, delim: u8)
    ensures
        0 <= position(s, delim) <= s.len(),
        forall|j: int| 0 <= j < position(s, delim) ==> s[j] != delim,
        position(s, delim) < s.len() ==> s[position(s, delim)] == delim,
    decreases s.len(),
{
    if s.len() > 0 && s[0] != delim {
        let rest = s.drop_first();
        lemma_position_bounds(rest, delim);
        assert forall|j: int| 0 <= j < position(s, delim) implies s[j] != delim by {
            if j > 0 {
                assert(s[j] == rest[j - 1]);
            }
        }
        if position(s, delim) < s.len() {
            assert(s[position(s, delim)] == rest[position(rest, delim)]);
        }
    }
}

/// The first field of a split is what stands before the first `delim`,
/// and it is the only field exactly where there is no `delim`.
pub proof fn lemma_split_first(s: Seq<u8>, delim: u8)
    ensures
        split(s, delim).len() >= 1,
        split(s, delim)[0] == s.take(position(s, delim)),
        (split(s, delim).len() == 1) == (position(s, delim) == s.len()),
    decreases s.len(),
{
    if s.len() == 0 {
        assert(s.take(0) =~= Seq::<u8>::empty());
    } else {
        let init = s.drop_last();
        let before = split(init, delim);
        let p = position(init, delim);
        lemma_split_first(init, delim);
        lemma_position_bounds(init, delim);
        assert forall|j: int| 0 <= j < p implies s[j] != delim by {
            assert(s[j] == init[j]);
        }
        if p < init.len() {
            assert(s[p] == init[p]);
            lemma_position(s, delim, p);
            assert(s.take(p) =~= init.take(p));
        } else if s.last() == delim {
            lemma_position(s, delim, p);
            assert(s.take(p) =~= init.take(p));
        } else {
            lemma_position(s, delim, s.len() as int);
            assert(s.take(s.len() as int) =~= init.take(p).push(s.last()));
        }
    }
}

/// The last field of a text that does not end in `delim` ends as the text
/// does.
pub proof fn lemma_split_last(s: Seq<u8>, delim: u8)
    requires
        s.len() > 0,
        s.last() != delim,
    ensures
        split(s, delim).len() >= 1,
        split(s, delim).last().len() > 0,
        split(s, delim).last().last() == s.last(),
{
    lemma_split_nonempty(s.drop_last(), delim);
}

/// Splitting is cutting at the first `delim` and splitting what follows:
/// a text without `delim` is its own single field.
pub proof fn lemma_split_cut(s: Seq<u8>, delim: u8)
    ensures
        split(s, delim) == match cut(s, delim) {
            None => seq![s],
            Some((head, tail)) => seq![head] + split(tail, delim),
        },
    decreases s.len(),
{
    lemma_split_first(s, delim);
    lemma_position_bounds(s, delim);
    let p = position(s, delim);
    if p >= s.len() {
        assert(s.take(p) =~= s);
        assert(split(s, delim) =~= seq![s]);
    } else {
        let init = s.drop_last();
        let head = s.take(p);
        let tail = s.skip(p + 1);
        lemma_split_first(init, delim);
        lemma_position_bounds(init, delim);
        if p == s.len() - 1 {
            assert forall|j: int| 0 <= j < init.len() implies init[j] != delim by {
                assert(init[j] == s[j]);
            }
            lemma_position(init, delim, init.len() as int);
            assert(init.take(init.len() as int) =~= init);
            assert(head =~= init);
            assert(tail =~= Seq::<u8>::empty());
            assert(split(init, delim) =~= seq![init]);
            assert(split(s, delim) =~= seq![head] + split(tail, delim));
        } else {
            assert forall|j: int| 0 <= j < p implies init[j] != delim by {
                assert(init[j] == s[j]);
            }
            assert(init[p] == s[p]);
            lemma_position(init, delim, p);
            lemma_split_cut(init, delim);
            let inner = init.skip(p + 1);
            assert(init.take(p) =~= head);
            assert(tail.drop_last() =~= inner);
            assert(tail.last() == s.last());
            lemma_split_nonempty(inner, delim);
            let rest = split(inner, delim);
            assert(split(init, delim) == seq![head] + rest);
            if s.last() == delim {
                assert((seq![head] + rest).push(Seq::<u8>::empty()) =~= seq![head] + rest.push(
                    Seq::<u8>::empty(),
                ));
            } else {
                let grown = rest.last().push(s.last());
                assert((seq![head] + rest).last() == rest.last());
                assert((seq![head] + rest).update(rest.len() as int, grown) =~= seq![head]
                    + rest.update(rest.len() - 1, grown));
            }
        }
    }
}

/// The index of the first `delim` in `s`, or the length of `s`.
pub fn find_byte(s: &[u8], delim: u8) -> (k: usize)
    ensures
        k == position(s@, delim),
        k <= s.len(),
{
    let mut i: usize = 0;
    while i < s.len() && s[i] != delim
        invariant
            i <= s.len(),
            forall|j: int| 0 <= j < i ==> s@[j] != delim,
        decreases s.len() - i,
    {
        i = i + 1;
    }
    proof {
        lemma_position(s@, delim, i as int);
    }
    i
}

/// Cuts `s` at its first `delim`.
pub fn cut_at<'a>(s: &'a [u8], delim: u8) -> (r: Option<(&'a [u8], &'a [u8])>)
    ensures
        r is Some <==> cut(s@, delim) is Some,
        r matches Some(pair) ==> (pair.0@, pair.1@) == cut(s@, delim)->0,
{
    let k = find_byte(s, delim);
    if k < s.len() {
        let head = slice_subrange(s, 0, k);
        let tail = slice_subrange(s, k + 1, s.len());
        Some((head, tail))
    } else {
        None
    }
}

/// Whether `needle` stands in `hay` at index `i`.
pub open spec fn occurs_at(hay: Seq<u8>, needle: Seq<u8>, i: int) -> bool {
    0 <= i && i + needle.len() <= hay.len() && hay.subrange(i, i + needle.len()) == needle
}

/// Whether `needle` stands somewhere in `hay`.
pub open spec fn contains(hay: Seq<u8>, needle: Seq<u8>) -> bool {
    exists|i: int| occurs_at(hay, needle, i)
}

/// Whether `i` is the first index at which `needle` stands in `hay`.
pub open spec fn is_first_occurrence(hay: Seq<u8>, needle: Seq<u8>, i: int) -> bool {
    occurs_at(hay, needle, i) && forall|j: int| 0 <= j < i ==> !occurs_at(hay, needle, j)
}

/// The first index at which `needle` stands in `hay`, where it stands in
/// it at all.
pub open spec fn first_occurrence(hay: Seq<u8>, needle: Seq<u8>) -> int {
    choose|i: int| is_first_occurrence(hay, needle, i)
}

/// There is one first occurrence.
pub proof fn lemma_first_occurrence(hay: Seq<u8>, needle: Seq<u8>, i: int)
    requires
        is_first_occurrence(hay, needle, i),
    ensures
        first_occurrence(hay, needle) == i,
{
    let c = first_occurrence(hay, needle);
    assert(is_first_occurrence(hay, needle, c));
    if c < i {
        assert(!occurs_at(hay, needle, c));
    } else if i < c {
        assert(!occurs_at(hay, needle, i));
    }
}

/// Looks for the first place at which `needle` stands in `hay`.
pub fn find_text(hay: &[u8], needle: &[u8]) -> (r: Option<usize>)
    ensures
        r matches Some(i) ==> is_first_occurrence(hay@, needle@, i as int),
        r is None ==> !contains(hay@, needle@),
{
    let n = hay.len();
    let m = needle.len();
    if m > n {
        return None;
    }
    let mut i: usize = 0;
    while i <= n - m
        invariant
            m <= n,
            n == hay.len(),
            m == needle.len(),
            i <= n - m + 1,
            forall|j: int| 0 <= j < i ==> !occurs_at(hay@, needle@, j),
        decreases n - m + 1 - i,
    {
        if same_bytes(slice_subrange(hay, i, i + m), needle) {
            return Some(i);
        }
        proof {
            if m == 0 {
                assert(hay@.subrange(i as int, i + m) =~= needle@);
            }
        }
        i = i + 1;
    }
    None
}

/// The index of the first line that passes `test`, or the number of lines
/// where none does.
pub open spec fn first_line(lines: Seq<Seq<u8>>, test: spec_fn(Seq<u8>) -> bool) -> int
    decreases lines.len(),
{
    if lines.len() == 0 || test(lines[0]) {
        0
    } else {
        1 + first_line(lines.drop_first(), test)
    }
}

/// `first_line` lies within the lines or is their number.
pub proof fn lemma_first_line_bounds(lines: Seq<Seq<u8>>, test: spec_fn(Seq<u8>) -> bool)
    ensures
        0 <= first_line(lines, test) <= lines.len(),
    decreases lines.len(),
{
    if lines.len() > 0 && !test(lines[0]) {
        lemma_first_line_bounds(lines.drop_first(), test);
    }
}

/// `first_line` is the one index that passes the test with none before it.
pub proof fn lemma_first_line(lines: Seq<Seq<u8>>, test: spec_fn(Seq<u8>) -> bool, k: int)
    requires
        0 <= k <= lines.len(),
        forall|j: int| 0 <= j < k ==> !test(#[trigger] lines[j]),
        k < lines.len() ==> test(lines[k]),
    ensures
        first_line(lines, test) == k,
    decreases lines.len(),
{
    if k > 0 {
        let rest = lines.drop_first();
        assert(!test(lines[0]));
        assert forall|j: int| 0 <= j < k - 1 implies !test(#[trigger] rest[j]) by {
            assert(rest[j] == lines[j + 1]);
        }
        lemma_first_line(rest, test, k - 1);
    }
}

/// Whether `b` is a decimal digit.
pub open spec fn is_digit(b: u8) -> bool {
    ZERO <= b <= NINE
}

/// Whether `s` holds decimal digits only.
pub open spec fn all_digits(s: Seq<u8>) -> bool {
    forall|i: int| 0 <= i < s.len() ==> is_digit(#[trigger] s[i])
}

/// The number that a run of decimal digits writes, leading zeros allowed.
pub open spec fn digits_value(s: Seq<u8>) -> nat
    decreases s.len(),
{
    if s.len() == 0 {
        0
    } else {
        digits_value(s.drop_last()) * 10 + (s.last() - ZERO) as nat
    }
}

/// The integer that `s` writes: an optional `+` or `-`, then at least one
/// decimal digit and nothing else. No white space is skipped.
pub open spec fn int_literal(s: Seq<u8>) -> Option<int> {
    let signed = s.len() > 0 && (s[0] == MINUS || s[0] == PLUS);
    let digits = if signed {
        s.drop_first()
    } else {
        s
    };
    if digits.len() == 0 || !all_digits(digits) {
        None
    } else if signed && s[0] == MINUS {
        Some(-(digits_value(digits) as int))
    } else {
        Some(digits_value(digits) as int)
    }
}

/// The integer that `s` writes, where it fits in 64 bits.
pub open spec fn i64_literal(s: Seq<u8>) -> Option<i64> {
    match int_literal(s) {
        Some(v) => if i64::MIN <= v <= i64::MAX {
            Some(v as i64)
        } else {
            None
        },
        None => None,
    }
}

/// A run of digits writes at least what any of its prefixes writes.
pub proof fn lemma_digits_value_prefix(s: Seq<u8>, k: int)
    requires
        0 <= k <= s.len(),
        all_digits(s),
    ensures
        digits_value(s.take(k)) <= digits_value(s),
    decreases s.len(),
{
    if k == s.len() {
        assert(s.take(k) =~= s);
    } else {
        assert(s.drop_last().take(k) =~= s.take(k));
        assert(is_digit(s[s.len() - 1]));
        lemma_digits_value_prefix(s.drop_last(), k);
    }
}

/// The largest magnitude that a 64-bit integer literal can have.
pub const MAGNITUDE_LIMIT: u64 = 9223372036854775808;

/// Reads a run of decimal digits. The result is `None` where `s` is empty,
/// holds anything but digits, or writes more than `MAGNITUDE_LIMIT`.
pub fn parse_digits(s: &[u8]) -> (r: Option<u64>)
    ensures
        r is Some <==> s@.len() > 0 && all_digits(s@) && digits_value(s@) <= MAGNITUDE_LIMIT,
        r is Some ==> r->0 == digits_value(s@),
{
    let n = s.len();
    if n == 0 {
        return None;
    }
    let mut acc: u64 = 0;
    let mut i: usize = 0;
    assert(s@.take(0) =~= Seq::<u8>::empty());
    while i < n
        invariant
            i <= n,
            n == s.len(),
            all_digits(s@.take(i as int)),
            acc == digits_value(s@.take(i as int)),
            acc <= MAGNITUDE_LIMIT,
        decreases n - i,
    {
        let b = s[i];
        if b < ZERO || b > NINE {
            assert(!is_digit(s@[i as int]));
            return None;
        }
        let d = (b - ZERO) as u64;
        proof {
            let next = s@.take(i + 1);
            assert(next.drop_last() =~= s@.take(i as int));
            assert(next.last() == b);
            assert(all_digits(next)) by {
                assert forall|j: int| 0 <= j < next.len() implies is_digit(#[trigger] next[j]) by {
                    if j < i {
                        assert(next[j] == s@.take(i as int)[j]);
                    }
                }
            }
            assert(digits_value(next) == acc * 10 + d);
            if all_digits(s@) {
                lemma_digits_value_prefix(s@, i + 1);
            }
        }
        if acc > (MAGNITUDE_LIMIT - d) / 10 {
            return None;
        }
        acc = acc * 10 + d;
        i = i + 1;
    }
    assert(s@.take(n as int) =~= s@);
    Some(acc)
}

/// Reads a whole field as an integer literal.
pub fn parse_i64(s: &[u8]) -> (r: Option<i64>)
    ensures
        r == i64_literal(s@),
{
    let n = s.len();
    if n == 0 {
        return None;
    }
    let negative = s[0] == MINUS;
    let signed = negative || s[0] == PLUS;
    let start: usize = if signed {
        1
    } else {
        0
    };
    let digits = slice_subrange(s, start, n);
    proof {
        if signed {
            assert(digits@ =~= s@.drop_first());
        } else {
            assert(digits@ =~= s@);
        }
    }
    match parse_digits(digits) {
        None => None,
        Some(value) => {
            if negative {
                if value == MAGNITUDE_LIMIT {
                    Some(i64::MIN)
                } else {
                    Some(-(value as i64))
                }
            } else if value > 9223372036854775807 {
                None
            } else {
                Some(value as i64)
            }
        },
    }
}

/// The integer that the field `s` writes, or the failure to read it.
pub open spec fn spec_int(s: Seq<u8>) -> Result<i64, Failure> {
    match i64_literal(s) {
        Some(v) => Ok(v),
        None => Err(failure(ErrorKind::NumericFormatError, s)),
    }
}

/// Every white-space character starts and ends with a byte that is no
/// digit, no sign and no delimiter.
pub proof fn lemma_space_bytes(s: Seq<u8>)
    ensures
        leading_space(s) > 0 ==> s.len() > 0 && !is_digit(s[0]) && s[0] != MINUS && s[0] != PLUS
            && s[0] != COMMA,
        trailing_space(s) > 0 ==> s.len() > 0 && !is_digit(s.last()) && s.last() != COMMA
            && s.last() != PIPE,
{
}

/// A field that does not end in a digit writes no integer.
pub proof fn lemma_int_ends_in_digit(s: Seq<u8>)
    requires
        s.len() > 0,
        !is_digit(s.last()),
    ensures
        spec_int(s) is Err,
{
    let signed = s[0] == MINUS || s[0] == PLUS;
    let digits = if signed {
        s.drop_first()
    } else {
        s
    };
    if digits.len() > 0 {
        assert(digits.last() == s.last());
        assert(!is_digit(digits[digits.len() - 1]));
    }
}

/// Reads an integer field.
pub fn decode_int(s: &[u8]) -> (r: Result<i64, DecodeError>)
    ensures
        plain(r) == spec_int(s@),
{
    match parse_i64(s) {
        Some(v) => Ok(v),
        None => Err(DecodeError::new(ErrorKind::NumericFormatError, s)),
    }
}

/// What the tokens write when each is read by `one`, in order. The first
/// token that fails decides the failure.
pub open spec fn decode_all<T>(
    tokens: Seq<Seq<u8>>,
    one: spec_fn(Seq<u8>) -> Result<T, Failure>,
) -> Result<Seq<T>, Failure>
    decreases tokens.len(),
{
    if tokens.len() == 0 {
        Ok(Seq::<T>::empty())
    } else {
        match decode_all(tokens.drop_last(), one) {
            Err(f) => Err(f),
            Ok(before) => match one(tokens.last()) {
                Err(f) => Err(f),
                Ok(v) => Ok(before.push(v)),
            },
        }
    }
}

/// Once a prefix of the tokens has failed, the whole list fails in the same
/// way.
pub proof fn lemma_decode_all_prefix<T>(
    tokens: Seq<Seq<u8>>,
    one: spec_fn(Seq<u8>) -> Result<T, Failure>,
    k: int,
)
    requires
        0 <= k <= tokens.len(),
        decode_all(tokens.take(k), one) is Err,
    ensures
        decode_all(tokens, one) == decode_all(tokens.take(k), one),
    decreases tokens.len(),
{
    if k == tokens.len() {
        assert(tokens.take(k) =~= tokens);
    } else {
        assert(tokens.drop_last().take(k) =~= tokens.take(k));
        lemma_decode_all_prefix(tokens.drop_last(), one, k);
    }
}

/// Whether two byte strings hold the same bytes.
pub fn same_bytes(a: &[u8], b: &[u8]) -> (r: bool)
    ensures
        r == (a@ == b@),
{
    if a.len() != b.len() {
        return false;
    }
    let mut i: usize = 0;
    while i < a.len()
        invariant
            i <= a.len(),
            a.len() == b.len(),
            a@.take(i as int) == b@.take(i as int),
        decreases a.len() - i,
    {
        if a[i] != b[i] {
            return false;
        }
        proof {
            assert(a@.take(i + 1) =~= a@.take(i as int).push(a@[i as int]));
            assert(b@.take(i + 1) =~= b@.take(i as int).push(b@[i as int]));
        }
        i = i + 1;
    }
    proof {
        assert(a@.take(a.len() as int) =~= a@);
        assert(b@.take(b.len() as int) =~= b@);
    }
    true
}

/// Whether `s` is the given text.
pub fn is_text(s: &[u8], text: &str) -> (r: bool)
    ensures
        r == (s@ == text.spec_bytes()),
{
    same_bytes(s, text.as_bytes())
}

/// Whether the Unicode scalar `v` is white space: one of U+0009 to U+000D,
/// U+0020, U+0085, U+00A0, U+1680, U+2000 to U+200A, U+2028, U+2029,
/// U+202F, U+205F and U+3000, the characters with the property
/// `White_Space`.
pub open spec fn is_white_space(v: u32) -> bool {
    ||| 0x09 <= v <= 0x0D
    ||| v == 0x20
    ||| v == 0x85
    ||| v == 0xA0
    ||| v == 0x1680
    ||| 0x2000 <= v <= 0x200A
    ||| v == 0x2028
    ||| v == 0x2029
    ||| v == 0x202F
    ||| v == 0x205F
    ||| v == 0x3000
}

/// Whether `b` is a white-space character of one byte: a space, a tab, a
/// line feed, a vertical tab, a form feed or a carriage return.
pub open spec fn is_space(b: u8) -> bool {
    b == 32 || (9 <= b <= 13)
}

/// Whether the two bytes are the UTF-8 form of a white-space character:
/// U+0085 or U+00A0.
pub open spec fn is_space_of_two(a: u8, b: u8) -> bool {
    a == 0xC2 && (b == 0x85 || b == 0xA0)
}

/// Whether the three bytes are the UTF-8 form of a white-space character:
/// U+1680, U+2000 to U+200A, U+2028, U+2029, U+202F, U+205F or U+3000.
pub open spec fn is_space_of_three(a: u8, b: u8, c: u8) -> bool {
    ||| a == 0xE1 && b == 0x9A && c == 0x80
    ||| a == 0xE2 && b == 0x80 && (0x80 <= c <= 0x8A || c == 0xA8 || c == 0xA9 || c == 0xAF)
    ||| a == 0xE2 && b == 0x81 && c == 0x9F
    ||| a == 0xE3 && b == 0x80 && c == 0x80
}

/// The number of bytes of the white-space character that `s` starts with,
/// or zero where it starts with none.
pub open spec fn leading_space(s: Seq<u8>) -> int {
    if s.len() >= 1 && is_space(s[0]) {
        1
    } else if s.len() >= 2 && is_space_of_two(s[0], s[1]) {
        2
    } else if s.len() >= 3 && is_space_of_three(s[0], s[1], s[2]) {
        3
    } else {
        0
    }
}

/// The number of bytes of the white-space character that `s` ends with, or
/// zero where it ends with none.
pub open spec fn trailing_space(s: Seq<u8>) -> int {
    let n = s.len() as int;
    if n >= 1 && is_space(s[n - 1]) {
        1
    } else if n >= 2 && is_space_of_two(s[n - 2], s[n - 1]) {
        2
    } else if n >= 3 && is_space_of_three(s[n - 3], s[n - 2], s[n - 1]) {
        3
    } else {
        0
    }
}

/// `s` without the white-space characters at its start.
pub open spec fn trim_start(s: Seq<u8>) -> Seq<u8>
    decreases s.len(),
{
    if leading_space(s) > 0 {
        trim_start(s.skip(leading_space(s)))
    } else {
        s
    }
}

/// `s` without the white-space characters at its end.
pub open spec fn trim_end(s: Seq<u8>) -> Seq<u8>
    decreases s.len(),
{
    if trailing_space(s) > 0 {
        trim_end(s.take(s.len() - trailing_space(s)))
    } else {
        s
    }
}

/// `s` without the white-space characters at either end. On text in UTF-8
/// this is what trimming the characters with the property `White_Space`
/// leaves.
pub open spec fn trim(s: Seq<u8>) -> Seq<u8> {
    trim_end(trim_start(s))
}

/// Whether `s` holds white space only.
pub open spec fn is_blank(s: Seq<u8>) -> bool {
    trim(s).len() == 0
}

/// Whether `b` is a byte that continues a character in UTF-8.
pub open spec fn is_continuation(b: u8) -> bool {
    0x80 <= b <= 0xBF
}

/// What the UTF-8 form of the scalar `v` is like: its length, the ranges
/// of its bytes, and that it is a white-space pattern exactly where `v` is
/// white space.
pub open spec fn encoding_facts(v: u32) -> bool {
    let e = encode_scalar(v);
    &&& 1 <= e.len() <= 4
    &&& e.len() == 1 ==> e[0] < 0x80 && (is_space(e[0]) <==> is_white_space(v))
    &&& e.len() == 2 ==> 0xC0 <= e[0] <= 0xDF && is_continuation(e[1]) && (is_space_of_two(
        e[0],
        e[1],
    ) <==> is_white_space(v))
    &&& e.len() == 3 ==> 0xE0 <= e[0] <= 0xEF && is_continuation(e[1]) && is_continuation(e[2])
        && (is_space_of_three(e[0], e[1], e[2]) <==> is_white_space(v))
    &&& e.len() == 4 ==> 0xF0 <= e[0] && is_continuation(e[1]) && is_continuation(e[2])
        && is_continuation(e[3]) && !is_white_space(v)
}

/// The UTF-8 form of every Unicode scalar is as `encoding_facts` says.
pub proof fn lemma_encoding_facts(v: u32)
    requires
        is_scalar(v),
    ensures
        encoding_facts(v),
{
    let bytes = encode_scalar(v);
    if has_width_1_encoding(v) {
        assert(v <= 0x7F ==> (v & 0x7F) as u8 == v) by (bit_vector);
    } else if has_width_2_encoding(v) {
        let first = 0xC0u8 | ((v >> 6) & 0x1F) as u8;
        let second = 0x80u8 | (v & 0x3F) as u8;
        assert(bytes =~= seq![first, second]);
        assert(0x80 <= v <= 0x7FF ==> (0xC0 <= (0xC0u8 | ((v >> 6) & 0x1F) as u8) <= 0xDF && 0x80
            <= (0x80u8 | (v & 0x3F) as u8) <= 0xBF)) by (bit_vector);
        assert(0x80 <= v <= 0x7FF ==> (((0xC0u8 | ((v >> 6) & 0x1F) as u8) == 0xC2 && (0x80u8 | (v
            & 0x3F) as u8) == 0x85) <==> v == 0x85)) by (bit_vector);
        assert(0x80 <= v <= 0x7FF ==> (((0xC0u8 | ((v >> 6) & 0x1F) as u8) == 0xC2 && (0x80u8 | (v
            & 0x3F) as u8) == 0xA0) <==> v == 0xA0)) by (bit_vector);
    } else if has_width_3_encoding(v) {
        let first = 0xE0u8 | ((v >> 12) & 0x0F) as u8;
        let second = 0x80u8 | ((v >> 6) & 0x3F) as u8;
        let third = 0x80u8 | (v & 0x3F) as u8;
        assert(bytes =~= seq![first, second, third]);
        assert(0x800 <= v <= 0xFFFF ==> (0xE0 <= (0xE0u8 | ((v >> 12) & 0x0F) as u8) <= 0xEF
            && 0x80 <= (0x80u8 | ((v >> 6) & 0x3F) as u8) <= 0xBF && 0x80 <= (0x80u8 | (v & 0x3F)
            as u8) <= 0xBF)) by (bit_vector);
        assert(0x800 <= v <= 0xFFFF ==> (((0xE0u8 | ((v >> 12) & 0x0F) as u8) == 0xE1 && (0x80u8
            | ((v >> 6) & 0x3F) as u8) == 0x9A && (0x80u8 | (v & 0x3F) as u8) == 0x80) <==> v
            == 0x1680)) by (bit_vector);
        assert(0x800 <= v <= 0xFFFF ==> (((0xE0u8 | ((v >> 12) & 0x0F) as u8) == 0xE2 && (0x80u8
            | ((v >> 6) & 0x3F) as u8) == 0x80 && 0x80 <= (0x80u8 | (v & 0x3F) as u8) <= 0x8A)
            <==> 0x2000 <= v <= 0x200A)) by (bit_vector);
        assert(0x800 <= v <= 0xFFFF ==> (((0xE0u8 | ((v >> 12) & 0x0F) as u8) == 0xE2 && (0x80u8
            | ((v >> 6) & 0x3F) as u8) == 0x80 && (0x80u8 | (v & 0x3F) as u8) == 0xA8) <==> v
            == 0x2028)) by (bit_vector);
        assert(0x800 <= v <= 0xFFFF ==> (((0xE0u8 | ((v >> 12) & 0x0F) as u8) == 0xE2 && (0x80u8
            | ((v >> 6) & 0x3F) as u8) == 0x80 && (0x80u8 | (v & 0x3F) as u8) == 0xA9) <==> v
            == 0x2029)) by (bit_vector);
        assert(0x800 <= v <= 0xFFFF ==> (((0xE0u8 | ((v >> 12) & 0x0F) as u8) == 0xE2 && (0x80u8
            | ((v >> 6) & 0x3F) as u8) == 0x80 && (0x80u8 | (v & 0x3F) as u8) == 0xAF) <==> v
            == 0x202F)) by (bit_vector);
        assert(0x800 <= v <= 0xFFFF ==> (((0xE0u8 | ((v >> 12) & 0x0F) as u8) == 0xE2 && (0x80u8
            | ((v >> 6) & 0x3F) as u8) == 0x81 && (0x80u8 | (v & 0x3F) as u8) == 0x9F) <==> v
            == 0x205F)) by (bit_vector);
        assert(0x800 <= v <= 0xFFFF ==> (((0xE0u8 | ((v >> 12) & 0x0F) as u8) == 0xE3 && (0x80u8
            | ((v >> 6) & 0x3F) as u8) == 0x80 && (0x80u8 | (v & 0x3F) as u8) == 0x80) <==> v
            == 0x3000)) by (bit_vector);
    } else {
        let first = 0xF0u8 | ((v >> 18) & 0x7) as u8;
        let second = 0x80u8 | ((v >> 12) & 0x3F) as u8;
        let third = 0x80u8 | ((v >> 6) & 0x3F) as u8;
        let fourth = 0x80u8 | (v & 0x3F) as u8;
        assert(bytes =~= seq![first, second, third, fourth]);
        assert(0x10000 <= v <= 0x10FFFF ==> (0xF0u8 | ((v >> 18) & 0x7) as u8) >= 0xF0)
            by (bit_vector);
        assert(0x10000 <= v <= 0x10FFFF ==> 0x80 <= (0x80u8 | (v & 0x3F) as u8) <= 0xBF && 0x80
            <= (0x80u8 | ((v >> 6) & 0x3F) as u8) <= 0xBF && 0x80 <= (0x80u8 | ((v >> 12) & 0x3F)
            as u8) <= 0xBF) by (bit_vector);
    }
}

/// A text in UTF-8 starts with white space exactly where its first
/// character is white space, whatever follows it; the pattern then covers
/// that character.
pub proof fn lemma_space_at_start(v: u32, rest: Seq<u8>)
    requires
        is_scalar(v),
    ensures
        leading_space(encode_scalar(v) + rest) == if is_white_space(v) {
            encode_scalar(v).len() as int
        } else {
            0
        },
{
    lemma_encoding_facts(v);
    let e = encode_scalar(v);
    let s = e + rest;
    assert forall|i: int| 0 <= i < e.len() implies s[i] == e[i] by {}
}

/// A text in UTF-8 ends with white space exactly where its last character
/// is white space, whatever stands before it; the pattern then covers that
/// character.
pub proof fn lemma_space_at_end(before: Seq<u8>, v: u32)
    requires
        is_scalar(v),
    ensures
        trailing_space(before + encode_scalar(v)) == if is_white_space(v) {
            encode_scalar(v).len() as int
        } else {
            0
        },
{
    lemma_encoding_facts(v);
    let e = encode_scalar(v);
    let s = before + e;
    assert forall|i: int| 0 <= i < e.len() implies s[before.len() + i] == e[i] by {}
}

/// The characters of a text without the white-space characters at its
/// start.
pub open spec fn trim_start_chars(chars: Seq<char>) -> Seq<char>
    decreases chars.len(),
{
    if chars.len() > 0 && is_white_space(chars[0] as u32) {
        trim_start_chars(chars.drop_first())
    } else {
        chars
    }
}

/// The characters of a text without the white-space characters at its end.
pub open spec fn trim_end_chars(chars: Seq<char>) -> Seq<char>
    decreases chars.len(),
{
    if chars.len() > 0 && is_white_space(chars.last() as u32) {
        trim_end_chars(chars.drop_last())
    } else {
        chars
    }
}

/// The UTF-8 form of a text is that of all but its last character, then
/// that of its last character.
pub proof fn lemma_encode_last(chars: Seq<char>)
    requires
        chars.len() > 0,
    ensures
        encode_utf8(chars) == encode_utf8(chars.drop_last()) + encode_scalar(chars.last() as u32),
    decreases chars.len(),
{
    if chars.len() == 1 {
        assert(chars.drop_last() =~= Seq::<char>::empty());
        assert(chars.drop_first() =~= Seq::<char>::empty());
        assert(encode_utf8(chars) =~= encode_utf8(chars.drop_last()) + encode_scalar(
            chars.last() as u32,
        ));
    } else {
        let rest = chars.drop_first();
        lemma_encode_last(rest);
        assert(rest.drop_last() =~= chars.drop_last().drop_first());
        assert(chars.drop_last()[0] == chars[0]);
        assert(encode_utf8(chars) =~= encode_utf8(chars.drop_last()) + encode_scalar(
            chars.last() as u32,
        ));
    }
}

/// On a text in UTF-8, trimming the start of the bytes is trimming the
/// start of the characters.
pub proof fn lemma_trim_start_of_text(chars: Seq<char>)
    ensures
        trim_start(encode_utf8(chars)) == encode_utf8(trim_start_chars(chars)),
    decreases chars.len(),
{
    if chars.len() > 0 {
        let first = chars[0] as u32;
        let rest = encode_utf8(chars.drop_first());
        char_is_scalar(chars[0]);
        lemma_space_at_start(first, rest);
        lemma_encoding_facts(first);
        assert((encode_scalar(first) + rest).skip(encode_scalar(first).len() as int) =~= rest);
        lemma_trim_start_of_text(chars.drop_first());
    }
}

/// On a text in UTF-8, trimming the end of the bytes is trimming the end
/// of the characters.
pub proof fn lemma_trim_end_of_text(chars: Seq<char>)
    ensures
        trim_end(encode_utf8(chars)) == encode_utf8(trim_end_chars(chars)),
    decreases chars.len(),
{
    if chars.len() > 0 {
        let last = chars.last() as u32;
        let before = encode_utf8(chars.drop_last());
        char_is_scalar(chars.last());
        lemma_encode_last(chars);
        lemma_space_at_end(before, last);
        lemma_encoding_facts(last);
        assert((before + encode_scalar(last)).take(before.len() as int) =~= before);
        lemma_trim_end_of_text(chars.drop_last());
    }
}

/// Whether every character of a text is white space.
pub open spec fn all_white_space(chars: Seq<char>) -> bool {
    forall|i: int| 0 <= i < chars.len() ==> is_white_space(#[trigger] chars[i] as u32)
}

/// Trimming the start of a text leaves nothing exactly where every
/// character is white space; what it leaves starts with no white space.
pub proof fn lemma_trim_start_chars(chars: Seq<char>)
    ensures
        trim_start_chars(chars).len() == 0 <==> all_white_space(chars),
        trim_start_chars(chars).len() > 0 ==> !is_white_space(trim_start_chars(chars)[0] as u32),
    decreases chars.len(),
{
    if chars.len() > 0 && is_white_space(chars[0] as u32) {
        let rest = chars.drop_first();
        lemma_trim_start_chars(rest);
        if all_white_space(rest) {
            assert forall|i: int| 0 <= i < chars.len() implies is_white_space(
                #[trigger] chars[i] as u32,
            ) by {
                if i > 0 {
                    assert(chars[i] == rest[i - 1]);
                }
            }
        }
        if all_white_space(chars) {
            assert forall|i: int| 0 <= i < rest.len() implies is_white_space(
                #[trigger] rest[i] as u32,
            ) by {
                assert(rest[i] == chars[i + 1]);
            }
        }
    } else if chars.len() > 0 {
        assert(!is_white_space(chars[0] as u32));
    }
}

/// Trimming the end of a text that starts with no white space leaves that
/// start.
pub proof fn lemma_trim_end_chars(chars: Seq<char>)
    requires
        chars.len() > 0,
        !is_white_space(chars[0] as u32),
    ensures
        trim_end_chars(chars).len() > 0,
    decreases chars.len(),
{
    if is_white_space(chars.last() as u32) {
        assert(chars.len() > 1);
        assert(chars.drop_last()[0] == chars[0]);
        lemma_trim_end_chars(chars.drop_last());
    }
}

/// The UTF-8 form of a text is empty exactly where the text is.
pub proof fn lemma_encode_empty(chars: Seq<char>)
    ensures
        encode_utf8(chars).len() == 0 <==> chars.len() == 0,
{
    if chars.len() > 0 {
        char_is_scalar(chars[0]);
        lemma_encoding_facts(chars[0] as u32);
    }
}

/// On a text in UTF-8, trimming the bytes is trimming the characters:
/// `trim` takes away the white-space characters at both ends of the text
/// and nothing else, and the text is blank exactly where all its characters
/// are white space.
pub proof fn lemma_trim_of_text(chars: Seq<char>)
    ensures
        trim(encode_utf8(chars)) == encode_utf8(trim_end_chars(trim_start_chars(chars))),
        is_blank(encode_utf8(chars)) <==> all_white_space(chars),
{
    lemma_trim_start_of_text(chars);
    lemma_trim_end_of_text(trim_start_chars(chars));
    lemma_trim_start_chars(chars);
    let inner = trim_start_chars(chars);
    if inner.len() > 0 {
        lemma_trim_end_chars(inner);
    }
    lemma_encode_empty(trim_end_chars(inner));
}

/// The carriage return that a line ending may leave at the end of a line
/// cut at line feeds.
pub const CARRIAGE_RETURN: u8 = 13;

/// A line as it is written: the line without the one carriage return that
/// its line ending may have left at its end. Nothing else is taken away.
pub open spec fn as_written(line: Seq<u8>) -> Seq<u8> {
    if line.len() > 0 && line.last() == CARRIAGE_RETURN {
        line.drop_last()
    } else {
        line
    }
}

/// Takes the carriage return of a line ending from the end of a line.
pub fn strip_line_ending<'a>(line: &'a [u8]) -> (r: &'a [u8])
    ensures
        r@ == as_written(line@),
{
    let n = line.len();
    if n > 0 && line[n - 1] == CARRIAGE_RETURN {
        let r = slice_subrange(line, 0, n - 1);
        assert(r@ =~= line@.drop_last());
        r
    } else {
        line
    }
}

/// Whether `b` is a white-space character of one byte.
pub fn space_byte(b: u8) -> (r: bool)
    ensures
        r == is_space(b),
{
    b == 32 || (9 <= b && b <= 13)
}

/// Whether the three bytes are a white-space character.
fn space_of_three(a: u8, b: u8, c: u8) -> (r: bool)
    ensures
        r == is_space_of_three(a, b, c),
{
    (a == 0xE1 && b == 0x9A && c == 0x80) || (a == 0xE2 && b == 0x80 && ((0x80 <= c && c <= 0x8A)
        || c == 0xA8 || c == 0xA9 || c == 0xAF)) || (a == 0xE2 && b == 0x81 && c == 0x9F) || (a
        == 0xE3 && b == 0x80 && c == 0x80)
}

/// The number of bytes of the white-space character that starts at index
/// `lo` of `s` and ends before index `hi`, or zero.
fn space_from(s: &[u8], lo: usize, hi: usize) -> (w: usize)
    requires
        lo <= hi <= s@.len(),
    ensures
        w == leading_space(s@.subrange(lo as int, hi as int)),
        w <= hi - lo,
{
    let ghost part = s@.subrange(lo as int, hi as int);
    let n = hi - lo;
    if n >= 1 && space_byte(s[lo]) {
        1
    } else if n >= 2 && s[lo] == 0xC2 && (s[lo + 1] == 0x85 || s[lo + 1] == 0xA0) {
        2
    } else if n >= 3 && space_of_three(s[lo], s[lo + 1], s[lo + 2]) {
        3
    } else {
        0
    }
}

/// The number of bytes of the white-space character that starts at or
/// after index `lo` of `s` and ends at index `hi`, or zero.
fn space_until(s: &[u8], lo: usize, hi: usize) -> (w: usize)
    requires
        lo <= hi <= s@.len(),
    ensures
        w == trailing_space(s@.subrange(lo as int, hi as int)),
        w <= hi - lo,
{
    let ghost part = s@.subrange(lo as int, hi as int);
    let n = hi - lo;
    if n >= 1 && space_byte(s[hi - 1]) {
        1
    } else if n >= 2 && s[hi - 2] == 0xC2 && (s[hi - 1] == 0x85 || s[hi - 1] == 0xA0) {
        2
    } else if n >= 3 && space_of_three(s[hi - 3], s[hi - 2], s[hi - 1]) {
        3
    } else {
        0
    }
}

/// Drops the white-space characters at both ends of `s`.
pub fn trim_bytes<'a>(s: &'a [u8]) -> (r: &'a [u8])
    ensures
        r@ == trim(s@),
{
    let n = s.len();
    let mut lo: usize = 0;
    assert(s@.subrange(0, n as int) =~= s@);
    let mut w = space_from(s, lo, n);
    while w > 0
        invariant
            lo <= n,
            n == s.len(),
            w == leading_space(s@.subrange(lo as int, n as int)),
            w <= n - lo,
            trim_start(s@) == trim_start(s@.subrange(lo as int, n as int)),
        decreases n - lo,
    {
        assert(s@.subrange(lo as int, n as int).skip(w as int) =~= s@.subrange(lo + w, n as int));
        lo = lo + w;
        w = space_from(s, lo, n);
    }
    assert(trim_start(s@) == s@.subrange(lo as int, n as int));
    let mut hi: usize = n;
    let mut v = space_until(s, lo, hi);
    while v > 0
        invariant
            lo <= hi <= n,
            n == s.len(),
            v == trailing_space(s@.subrange(lo as int, hi as int)),
            v <= hi - lo,
            trim(s@) == trim_end(s@.subrange(lo as int, hi as int)),
        decreases hi - lo,
    {
        assert(s@.subrange(lo as int, hi as int).take(hi - lo - v) =~= s@.subrange(
            lo as int,
            hi - v,
        ));
        hi = hi - v;
        v = space_until(s, lo, hi);
    }
    slice_subrange(s, lo, hi)
}

} // verus!
