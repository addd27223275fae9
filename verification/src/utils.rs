//! Repair of the date literals in a raw payload, and the search for the
//! payload in a report.
//!
//! The feed writes timestamps as `new Date(<integer>)`, which is not JSON,
//! and the integer counts milliseconds of civil Helsinki time. Each literal
//! is replaced by the quoted RFC 3339 string of the UTC instant it means.
//! Everything here works on bytes: the patterns are ASCII, so text in UTF-8
//! passes through unharmed.

use vstd::prelude::*;
use vstd::slice::slice_subrange;

use crate::error::{Error, ParseFault};
use crate::time::{quoted_timestamp, quoted_utc};

verus! {

/// The bytes of `new Date(`.
pub open spec fn date_literal_prefix() -> Seq<u8> {
    seq![0x6eu8, 0x65u8, 0x77u8, 0x20u8, 0x44u8, 0x61u8, 0x74u8, 0x65u8, 0x28u8]
}

/// The bytes of `var model = `.
pub open spec fn model_marker() -> Seq<u8> {
    seq![
        0x76u8,
        0x61u8,
        0x72u8,
        0x20u8,
        0x6du8,
        0x6fu8,
        0x64u8,
        0x65u8,
        0x6cu8,
        0x20u8,
        0x3du8,
        0x20u8,
    ]
}

/// `needle` stands in `hay` at index `at`.
pub open spec fn occurs_at(hay: Seq<u8>, needle: Seq<u8>, at: int) -> bool {
    0 <= at && at + needle.len() <= hay.len() && hay.subrange(at, at + needle.len()) == needle
}

/// The first index at or after `from` at which `needle` stands in `hay`.
pub open spec fn first_occurrence(hay: Seq<u8>, needle: Seq<u8>, from: int) -> Option<int>
    decreases hay.len() + 1 - from,
{
    if from < 0 || from + needle.len() > hay.len() {
        None
    } else if occurs_at(hay, needle, from) {
        Some(from)
    } else {
        first_occurrence(hay, needle, from + 1)
    }
}

/// What `first_occurrence` finds is an occurrence, not before `from`, and
/// there is none between `from` and it; where it finds nothing there is
/// none at all from `from` on.
pub proof fn lemma_first_occurrence(hay: Seq<u8>, needle: Seq<u8>, from: int)
    requires
        0 <= from,
    ensures
        match first_occurrence(hay, needle, from) {
            Some(at) => from <= at && occurs_at(hay, needle, at) && forall|i: int|
                from <= i < at ==> !occurs_at(hay, needle, i),
            None => forall|i: int| from <= i ==> !occurs_at(hay, needle, i),
        },
    decreases hay.len() + 1 - from,
{
    if from + needle.len() <= hay.len() && !occurs_at(hay, needle, from) {
        lemma_first_occurrence(hay, needle, from + 1);
    }
}

/// A decimal digit in ASCII.
pub open spec fn is_digit(b: u8) -> bool {
    48 <= b <= 57
}

/// Every byte is a decimal digit.
pub open spec fn all_digits(s: Seq<u8>) -> bool {
    forall|i: int| 0 <= i < s.len() ==> is_digit(#[trigger] s[i])
}

/// The number that a string of decimal digits writes.
pub open spec fn decimal_value(s: Seq<u8>) -> int
    decreases s.len(),
{
    if s.len() == 0 {
        0
    } else {
        decimal_value(s.drop_last()) * 10 + (s.last() - 48)
    }
}

/// The 64-bit integer that a text writes: an optional sign, then at least
/// one decimal digit and nothing else, the number within range.
pub open spec fn parse_int(s: Seq<u8>) -> Option<i64> {
    let negative = s.len() > 0 && s[0] == 45;
    let signed = s.len() > 0 && (s[0] == 45 || s[0] == 43);
    let digits = if signed {
        s.drop_first()
    } else {
        s
    };
    let value = if negative {
        -decimal_value(digits)
    } else {
        decimal_value(digits)
    };
    if digits.len() == 0 || !all_digits(digits) || value < i64::MIN || value > i64::MAX {
        None
    } else {
        Some(value as i64)
    }
}

/// More digits do not make a smaller number.
proof fn lemma_decimal_value_grows(s: Seq<u8>, n: int)
    requires
        all_digits(s),
        0 <= n <= s.len(),
    ensures
        0 <= decimal_value(s.subrange(0, n)) <= decimal_value(s),
    decreases s.len() - n,
{
    if n == s.len() {
        assert(s.subrange(0, n) == s);
        lemma_decimal_value_nonnegative(s);
    } else {
        let longer = s.subrange(0, n + 1);
        assert(longer.drop_last() == s.subrange(0, n));
        lemma_decimal_value_grows(s, n + 1);
        assert(all_digits(s.subrange(0, n)));
        lemma_decimal_value_nonnegative(s.subrange(0, n));
    }
}

proof fn lemma_decimal_value_nonnegative(s: Seq<u8>)
    requires
        all_digits(s),
    ensures
        0 <= decimal_value(s),
    decreases s.len(),
{
    if s.len() > 0 {
        lemma_decimal_value_nonnegative(s.drop_last());
    }
}

/// Tells whether `needle` stands in `hay` at `at`.
pub fn matches_at(hay: &[u8], needle: &[u8], at: usize) -> (r: bool)
    ensures
        r == occurs_at(hay@, needle@, at as int),
{
    if needle.len() > hay.len() || at > hay.len() - needle.len() {
        return false;
    }
    let mut k: usize = 0;
    while k < needle.len()
        invariant
            k <= needle.len(),
            at + needle.len() <= hay.len(),
            forall|j: int| 0 <= j < k ==> hay@[at + j] == needle@[j],
        decreases needle.len() - k,
    {
        if hay[at + k] != needle[k] {
            return false;
        }
        k += 1;
    }
    assert(hay@.subrange(at as int, at + needle.len()) =~= needle@);
    true
}

/// Finds the first place at or after `from` at which `needle` stands in
/// `hay`.
pub fn find(hay: &[u8], needle: &[u8], from: usize) -> (r: Option<usize>)
    ensures
        match r {
            Some(at) => first_occurrence(hay@, needle@, from as int) == Some(at as int),
            None => first_occurrence(hay@, needle@, from as int) is None,
        },
{
    if needle.len() > hay.len() {
        return None;
    }
    let last: usize = hay.len() - needle.len();
    if from > last {
        return None;
    }
    let mut at: usize = from;
    loop
        invariant
            from <= at <= last,
            last + needle.len() == hay.len(),
            first_occurrence(hay@, needle@, from as int) == first_occurrence(
                hay@,
                needle@,
                at as int,
            ),
        decreases last - at,
    {
        if matches_at(hay, needle, at) {
            return Some(at);
        }
        if at == last {
            assert(first_occurrence(hay@, needle@, at + 1) is None);
            return None;
        }
        at += 1;
    }
}

/// Reads a 64-bit decimal integer.
pub fn parse_i64(text: &[u8]) -> (r: Option<i64>)
    ensures
        r == parse_int(text@),
{
    if text.len() == 0 {
        return None;
    }
    let negative = text[0] == 45;
    let first: usize = if text[0] == 45 || text[0] == 43 {
        1
    } else {
        0
    };
    let ghost digits = if first == 1 {
        text@.drop_first()
    } else {
        text@
    };
    if first == text.len() {
        return None;
    }
    let mut acc: i128 = 0;
    let mut i: usize = first;
    while i < text.len()
        invariant
            first <= i <= text.len(),
            text@.len() > 0,
            negative == (text@[0] == 45),
            first == if text@[0] == 45 || text@[0] == 43 { 1int } else { 0int },
            digits == if first == 1 { text@.drop_first() } else { text@ },
            digits.len() == text.len() - first,
            forall|j: int| 0 <= j < digits.len() ==> digits[j] == text@[j + first],
            all_digits(digits.subrange(0, i - first)),
            acc == decimal_value(digits.subrange(0, i - first)),
            0 <= acc <= 0x8000_0000_0000_0000,
        decreases text.len() - i,
    {
        let b = text[i];
        if b < 48 || b > 57 {
            assert(!is_digit(digits[i - first]));
            return None;
        }
        proof {
            let longer = digits.subrange(0, i + 1 - first);
            assert(longer.drop_last() == digits.subrange(0, i - first));
        }
        acc = acc * 10 + (b - 48) as i128;
        i += 1;
        if acc > 0x8000_0000_0000_0000 {
            proof {
                if all_digits(digits) {
                    lemma_decimal_value_grows(digits, i - first);
                }
            }
            return None;
        }
    }
    assert(digits.subrange(0, i - first) == digits);
    if negative {
        Some((-acc) as i64)
    } else if acc > 0x7fff_ffff_ffff_ffff {
        None
    } else {
        Some(acc as i64)
    }
}

/// Appends the bytes of `src` from `from` up to `to`.
pub fn append_range(out: &mut Vec<u8>, src: &[u8], from: usize, to: usize)
    requires
        from <= to <= src@.len(),
    ensures
        final(out)@ == old(out)@ + src@.subrange(from as int, to as int),
{
    let mut i: usize = from;
    while i < to
        invariant
            from <= i <= to <= src@.len(),
            out@ == old(out)@ + src@.subrange(from as int, i as int),
        decreases to - i,
    {
        out.push(src[i]);
        i += 1;
    }
}

/// A result with `head` put before what it holds.
pub open spec fn after(head: Seq<u8>, tail: Result<Seq<u8>, Error>) -> Result<Seq<u8>, Error> {
    match tail {
        Ok(rest) => Ok(head + rest),
        Err(e) => Err(e),
    }
}

/// The text from `from` on with every date literal replaced by its quoted
/// UTC time, or the error of the first literal that cannot be replaced.
pub open spec fn repaired_from(s: Seq<u8>, from: int) -> Result<Seq<u8>, Error>
    decreases s.len() - from,
{
    if from < 0 || from > s.len() {
        Ok(Seq::<u8>::empty())
    } else {
        match first_occurrence(s, date_literal_prefix(), from) {
            None => Ok(s.subrange(from, s.len() as int)),
            Some(start) => match first_occurrence(s, seq![41u8], start + 9) {
                None => Err(
                    Error::Parse { offset: start as usize, fault: ParseFault::Unterminated },
                ),
                Some(end) => match parse_int(s.subrange(start + 9, end)) {
                    None => Err(
                        Error::Parse { offset: start as usize, fault: ParseFault::InvalidInteger },
                    ),
                    Some(millis) => match quoted_utc(millis) {
                        Err(e) => Err(e),
                        Ok(text) => {
                            proof {
                                lemma_first_occurrence(s, date_literal_prefix(), from);
                                lemma_first_occurrence(s, seq![41u8], start + 9);
                            }
                            after(s.subrange(from, start) + text, repaired_from(s, end + 1))
                        },
                    },
                },
            },
        }
    }
}

/// The whole text repaired.
pub open spec fn repaired(s: Seq<u8>) -> Result<Seq<u8>, Error> {
    repaired_from(s, 0)
}

/// A text without a date literal is its own repair.
pub proof fn lemma_repair_without_literal(s: Seq<u8>)
    requires
        forall|i: int| !occurs_at(s, date_literal_prefix(), i),
    ensures
        repaired(s) == Ok::<Seq<u8>, Error>(s),
{
    lemma_first_occurrence(s, date_literal_prefix(), 0);
    assert(s.subrange(0, s.len() as int) == s);
}

/// Replaces every `new Date(<integer>)` of a text by the quoted RFC 3339
/// string of the UTC instant that the integer, taken as milliseconds of
/// civil Helsinki time, denotes. The rest of the text is copied.
pub fn fix_new_date(buf: &[u8]) -> (r: Result<Vec<u8>, Error>)
    ensures
        match r {
            Ok(out) => repaired(buf@) == Ok::<Seq<u8>, Error>(out@),
            Err(e) => repaired(buf@) == Err::<Seq<u8>, Error>(e),
        },
{
    let prefix: Vec<u8> = vec![0x6eu8, 0x65u8, 0x77u8, 0x20u8, 0x44u8, 0x61u8, 0x74u8, 0x65u8, 0x28u8];
    let paren: Vec<u8> = vec![41u8];
    let mut result: Vec<u8> = Vec::new();
    let mut index1: usize = 0;
    loop
        invariant
            index1 <= buf.len(),
            prefix@ == date_literal_prefix(),
            paren@ == seq![41u8],
            repaired(buf@) == after(result@, repaired_from(buf@, index1 as int)),
        decreases buf.len() - index1,
    {
        let start = match find(buf, prefix.as_slice(), index1) {
            None => {
                append_range(&mut result, buf, index1, buf.len());
                return Ok(result);
            },
            Some(start) => start,
        };
        proof {
            lemma_first_occurrence(buf@, date_literal_prefix(), index1 as int);
        }
        let end = match find(buf, paren.as_slice(), start + 9) {
            None => {
                return Err(Error::Parse { offset: start, fault: ParseFault::Unterminated });
            },
            Some(end) => end,
        };
        proof {
            lemma_first_occurrence(buf@, seq![41u8], start + 9);
        }
        let millis = match parse_i64(slice_subrange(buf, start + 9, end)) {
            None => {
                return Err(Error::Parse { offset: start, fault: ParseFault::InvalidInteger });
            },
            Some(millis) => millis,
        };
        let text = match quoted_timestamp(millis) {
            Err(e) => {
                return Err(e);
            },
            Ok(text) => text,
        };
        let ghost before = result@;
        append_range(&mut result, buf, index1, start);
        append_range(&mut result, text.as_slice(), 0, text.len());
        proof {
            let head = buf@.subrange(index1 as int, start as int) + text@;
            assert(result@ == before + head);
            match repaired_from(buf@, end + 1) {
                Ok(rest) => {
                    assert(before + (head + rest) == (before + head) + rest);
                },
                Err(_) => {},
            }
        }
        index1 = end + 1;
    }
}

/// The index of the line feed that ends the line starting at `from`, or the
/// length of the document where none follows.
pub open spec fn line_end(doc: Seq<u8>, from: int) -> int {
    match first_occurrence(doc, seq![10u8], from) {
        Some(at) => at,
        None => doc.len() as int,
    }
}

/// Where the text of the line from `from` to `end` stops: before a carriage
/// return that the line feed at `end` follows.
pub open spec fn text_end(doc: Seq<u8>, from: int, end: int) -> int {
    if from < end < doc.len() && doc[end - 1] == 13 {
        end - 1
    } else {
        end
    }
}

/// The payload of a line that carries the model: what follows the marker,
/// without the last byte of the line, which ends the statement.
pub open spec fn payload_of_line(line: Seq<u8>) -> Option<Seq<u8>> {
    match first_occurrence(line, model_marker(), 0) {
        None => None,
        Some(start) => Some(
            if start + 12 < line.len() {
                line.subrange(start + 12, line.len() - 1)
            } else {
                Seq::<u8>::empty()
            },
        ),
    }
}

/// The payload of the first line at or after `from` that carries the
/// model.
pub open spec fn model_payload(doc: Seq<u8>, from: int) -> Option<Seq<u8>>
    decreases doc.len() + 1 - from,
{
    if from < 0 || from >= doc.len() {
        None
    } else {
        let end = line_end(doc, from);
        match payload_of_line(doc.subrange(from, text_end(doc, from, end))) {
            Some(payload) => Some(payload),
            None => {
                proof {
                    lemma_first_occurrence(doc, seq![10u8], from);
                }
                model_payload(doc, end + 1)
            },
        }
    }
}

/// The repaired payload of a report, or why there is none.
pub open spec fn report_json(doc: Seq<u8>) -> Result<Seq<u8>, Error> {
    match model_payload(doc, 0) {
        None => Err(Error::ModelNotFound),
        Some(payload) => repaired(payload),
    }
}

/// Takes the payload out of a line, if the line carries the model.
pub fn line_payload(line: &[u8]) -> (r: Option<Vec<u8>>)
    ensures
        match r {
            Some(payload) => payload_of_line(line@) == Some(payload@),
            None => payload_of_line(line@) is None,
        },
{
    let marker: Vec<u8> = vec![
        0x76u8,
        0x61u8,
        0x72u8,
        0x20u8,
        0x6du8,
        0x6fu8,
        0x64u8,
        0x65u8,
        0x6cu8,
        0x20u8,
        0x3du8,
        0x20u8,
    ];
    match find(line, marker.as_slice(), 0) {
        None => None,
        Some(start) => {
            proof {
                lemma_first_occurrence(line@, model_marker(), 0);
            }
            let n = line.len();
            let mut payload: Vec<u8> = Vec::new();
            if start + 12 < n {
                append_range(&mut payload, line, start + 12, n - 1);
            }
            Some(payload)
        },
    }
}

/// Finds the line of a report that carries the model, takes the payload
/// out of it and repairs its date literals.
pub fn model_json_from_report(html: &[u8]) -> (r: Result<Vec<u8>, Error>)
    ensures
        match r {
            Ok(json) => report_json(html@) == Ok::<Seq<u8>, Error>(json@),
            Err(e) => report_json(html@) == Err::<Seq<u8>, Error>(e),
        },
{
    let feed: Vec<u8> = vec![10u8];
    let mut from: usize = 0;
    while from < html.len()
        invariant
            feed@ == seq![10u8],
            model_payload(html@, 0) == model_payload(html@, from as int),
        decreases html.len() - from,
    {
        let end: usize = match find(html, feed.as_slice(), from) {
            Some(at) => at,
            None => html.len(),
        };
        proof {
            lemma_first_occurrence(html@, seq![10u8], from as int);
        }
        let stop: usize = if from < end && end < html.len() && html[end - 1] == 13 {
            end - 1
        } else {
            end
        };
        match line_payload(slice_subrange(html, from, stop)) {
            Some(payload) => {
                return fix_new_date(payload.as_slice());
            },
            None => {},
        }
        if end == html.len() {
            assert(model_payload(html@, end + 1) is None);
            return Err(Error::ModelNotFound);
        }
        from = end + 1;
    }
    Err(Error::ModelNotFound)
}

} // verus!
