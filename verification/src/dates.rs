use crate::metadata::CaptureDate;
use crate::text::{chars_of, string_of, trim, trim_chars, CharClass};
use chrono::{Datelike, TimeZone, Timelike};
use vstd::prelude::*;

verus! {

/// What chrono's `DateTime::parse_from_str` reads a text as, in the form that a format gives:
/// the fields of the date and time that stand in the text, and the offset from UTC, in seconds,
/// that stands behind them; none where the text is not of that form.
pub uninterp spec fn offset_date_of(text: Seq<char>, format: Seq<char>) -> Option<
    (CaptureDate, int),
>;

/// What chrono's `NaiveDateTime::parse_from_str` reads a text as, in the form that a format
/// gives: the fields of the date and time that stand in the text; none where the text is not of
/// that form.
pub uninterp spec fn naive_date_of(text: Seq<char>, format: Seq<char>) -> Option<CaptureDate>;

/// Reads `input` as a date and time with an offset from UTC, in the form that `format` gives
/// (chrono's `DateTime::parse_from_str`), and gives the fields of that moment in the time zone
/// of the machine (`with_timezone`). There is a result exactly where the text is of that form;
/// which fields it has, the machine's time zone decides. They lie in the ranges of a calendar
/// date and a time of day.
#[verifier::external_body]
fn parse_zoned(input: &str, format: &str) -> (out: Option<CaptureDate>)
    ensures
        out is Some <==> offset_date_of(input@, format@) is Some,
        out matches Some(d) ==> d.well_formed(),
{
    let parsed = chrono::DateTime::parse_from_str(input, format).ok()?;
    let t = parsed.with_timezone(&chrono::Local);
    let (year, month, day) = (t.year(), t.month(), t.day());
    Some(CaptureDate { year, month, day, hour: t.hour(), minute: t.minute(), second: t.second() })
}

/// Reads `input` as a date and time without an offset, in the form that `format` gives
/// (chrono's `NaiveDateTime::parse_from_str`), and takes it as a time of the machine's time zone
/// (`from_local_datetime`): none where that zone has no such time, or has it twice. A result
/// has the fields that were read. They lie in the ranges of a calendar date and a time of day.
#[verifier::external_body]
fn parse_local(input: &str, format: &str) -> (out: Option<CaptureDate>)
    ensures
        out matches Some(d) ==> naive_date_of(input@, format@) == Some(d),
        out matches Some(d) ==> d.well_formed(),
{
    let naive = chrono::NaiveDateTime::parse_from_str(input, format).ok()?;
    let t = chrono::Local.from_local_datetime(&naive).single()?;
    let (year, month, day) = (t.year(), t.month(), t.day());
    Some(CaptureDate { year, month, day, hour: t.hour(), minute: t.minute(), second: t.second() })
}

/// The first date that is there among `attempts`, from position `i` on.
pub open spec fn first_present(attempts: Seq<Option<CaptureDate>>, i: int) -> Option<CaptureDate>
    decreases attempts.len() - i,
{
    if i < 0 || i >= attempts.len() {
        None
    } else if attempts[i] is Some {
        attempts[i]
    } else {
        first_present(attempts, i + 1)
    }
}

/// The result of the first attempt that gave a date.
pub fn first_date(attempts: &Vec<Option<CaptureDate>>) -> (out: Option<CaptureDate>)
    ensures
        out == first_present(attempts@, 0),
{
    let mut i: usize = 0;
    while i < attempts.len()
        invariant
            i <= attempts.len(),
            first_present(attempts@, 0) == first_present(attempts@, i as int),
        decreases attempts.len() - i,
    {
        if attempts[i].is_some() {
            return attempts[i];
        }
        i += 1;
    }
    None
}

/// The attempt to read a text with an offset, in the form at `k`.
pub open spec fn attempt_with_offset(attempts: Seq<Option<CaptureDate>>, k: int) -> Option<
    CaptureDate,
> {
    attempts[2 * k]
}

/// The attempt to read a text without an offset, in the form at `k`.
pub open spec fn attempt_without_offset(attempts: Seq<Option<CaptureDate>>, k: int) -> Option<
    CaptureDate,
> {
    attempts[2 * k + 1]
}

/// The attempts are those of reading `text` in the forms `formats`: two for each form, in the
/// order of the forms, first with an offset and then without. An attempt with an offset gives
/// a date exactly where the text is of that form; an attempt without an offset gives no date
/// but the one that was read. Every date is well-formed.
pub open spec fn attempts_fit(
    text: Seq<char>,
    formats: Seq<&str>,
    attempts: Seq<Option<CaptureDate>>,
) -> bool {
    &&& attempts.len() == 2 * formats.len()
    &&& forall|k: int|
        0 <= k < formats.len() ==> ((#[trigger] attempt_with_offset(attempts, k)) is Some
            <==> offset_date_of(text, formats[k]@) is Some)
    &&& forall|k: int|
        0 <= k < formats.len() ==> ((#[trigger] attempt_without_offset(attempts, k)) matches Some(
            d,
        ) ==> naive_date_of(text, formats[k]@) == Some(d))
    &&& forall|i: int|
        0 <= i < attempts.len() ==> ((#[trigger] attempts[i]) matches Some(d) ==> d.well_formed())
}

/// `out` is what reading `text` in the forms `formats` gives: the date of the first attempt
/// that gave one.
pub open spec fn is_reading(text: Seq<char>, formats: Seq<&str>, out: Option<CaptureDate>) -> bool {
    exists|attempts: Seq<Option<CaptureDate>>| #[trigger]
        attempts_fit(text, formats, attempts) && out == first_present(attempts, 0)
}

/// The text is a date and time with an offset, in one of the forms.
pub open spec fn reads_with_offset(text: Seq<char>, formats: Seq<&str>) -> bool {
    exists|k: int| 0 <= k < formats.len() && offset_date_of(text, (#[trigger] formats[k])@) is Some
}

/// The text is the date and time `d` without an offset, in one of the forms.
pub open spec fn reads_without_offset_as(text: Seq<char>, formats: Seq<&str>, d: CaptureDate) -> bool {
    exists|k: int|
        0 <= k < formats.len() && naive_date_of(text, (#[trigger] formats[k])@) == Some(d)
}

/// The forms in which embedded metadata writes a capture time, in the order in which they are
/// tried: `2024:01:02 03:04:05`, the same with an offset and with a fraction and an offset,
/// `2024-01-02 03:04:05`, and `2024-01-02T03:04:05` alone, with a fraction, with an offset, and
/// with both.
pub open spec fn exif_date_formats() -> Seq<&'static str> {
    seq![
        "%Y:%m:%d %H:%M:%S",
        "%Y:%m:%d %H:%M:%S%:z",
        "%Y:%m:%d %H:%M:%S%.f%:z",
        "%Y-%m-%d %H:%M:%S",
        "%Y-%m-%dT%H:%M:%S",
        "%Y-%m-%dT%H:%M:%S%.f",
        "%Y-%m-%dT%H:%M:%S%:z",
        "%Y-%m-%dT%H:%M:%S%.f%:z",
    ]
}

/// The forms in which a sidecar writes a capture time, in the order in which they are tried:
/// `2024:01:02 03:04:05`, `2024-01-02 03:04:05`, and `2024-01-02T03:04:05` alone, with a
/// fraction, with an offset, and with both.
pub open spec fn xmp_date_formats() -> Seq<&'static str> {
    seq![
        "%Y:%m:%d %H:%M:%S",
        "%Y-%m-%d %H:%M:%S",
        "%Y-%m-%dT%H:%M:%S",
        "%Y-%m-%dT%H:%M:%S%.f",
        "%Y-%m-%dT%H:%M:%S%:z",
        "%Y-%m-%dT%H:%M:%S%.f%:z",
    ]
}

/// Tries each format on `text`, first with an offset and then without: two attempts for each
/// format, in the order of the formats.
fn attempts_with(text: &str, formats: &Vec<&str>) -> (out: Vec<Option<CaptureDate>>)
    ensures
        attempts_fit(text@, formats@, out@),
{
    let mut out: Vec<Option<CaptureDate>> = Vec::new();
    let mut k: usize = 0;
    while k < formats.len()
        invariant
            k <= formats.len(),
            out.len() == 2 * k,
            forall|j: int|
                0 <= j < k ==> ((#[trigger] attempt_with_offset(out@, j)) is Some
                    <==> offset_date_of(text@, formats@[j]@) is Some),
            forall|j: int|
                0 <= j < k ==> ((#[trigger] attempt_without_offset(out@, j)) matches Some(d)
                    ==> naive_date_of(text@, formats@[j]@) == Some(d)),
            forall|i: int|
                0 <= i < out.len() ==> ((#[trigger] out@[i]) matches Some(d) ==> d.well_formed()),
        decreases formats.len() - k,
    {
        let ghost before = out@;
        out.push(parse_zoned(text, formats[k]));
        out.push(parse_local(text, formats[k]));
        proof {
            assert forall|j: int| 0 <= j < k + 1 implies ((#[trigger] attempt_with_offset(
                out@,
                j,
            )) is Some <==> offset_date_of(text@, formats@[j]@) is Some) by {
                if j < k {
                    assert(attempt_with_offset(out@, j) == attempt_with_offset(before, j));
                }
            }
            assert forall|j: int| 0 <= j < k + 1 implies ((#[trigger] attempt_without_offset(
                out@,
                j,
            )) matches Some(d) ==> naive_date_of(text@, formats@[j]@) == Some(d)) by {
                if j < k {
                    assert(attempt_without_offset(out@, j) == attempt_without_offset(before, j));
                }
            }
            assert forall|i: int| 0 <= i < out.len() implies ((#[trigger] out@[i]) matches Some(
                d,
            ) ==> d.well_formed()) by {
                if i < before.len() {
                    assert(out@[i] == before[i]);
                }
            }
        }
        k += 1;
    }
    out
}

proof fn lemma_first_present_is_member(attempts: Seq<Option<CaptureDate>>, i: int)
    requires
        0 <= i,
    ensures
        first_present(attempts, i) is Some ==> exists|k: int|
            i <= k < attempts.len() && attempts[k] == first_present(attempts, i),
    decreases attempts.len() - i,
{
    if i < attempts.len() && attempts[i] is None {
        lemma_first_present_is_member(attempts, i + 1);
    }
}

proof fn lemma_first_present_finds(attempts: Seq<Option<CaptureDate>>, i: int, at: int)
    requires
        0 <= i <= at < attempts.len(),
        attempts[at] is Some,
    ensures
        first_present(attempts, i) is Some,
    decreases at - i,
{
    if i < at && attempts[i] is None {
        lemma_first_present_finds(attempts, i + 1, at);
    }
}

/// What a reading says: a date that was read is well-formed; a text with an offset, in one of
/// the forms, is read as a date; and a date that was read is that of a text with an offset, or
/// is the date that stands in the text without one.
pub proof fn lemma_reading(text: Seq<char>, formats: Seq<&str>, out: Option<CaptureDate>)
    requires
        is_reading(text, formats, out),
    ensures
        out matches Some(d) ==> d.well_formed(),
        reads_with_offset(text, formats) ==> out is Some,
        out matches Some(d) ==> reads_with_offset(text, formats) || reads_without_offset_as(
            text,
            formats,
            d,
        ),
{
    let attempts = choose|attempts: Seq<Option<CaptureDate>>| #[trigger]
        attempts_fit(text, formats, attempts) && out == first_present(attempts, 0);
    lemma_first_present_is_member(attempts, 0);
    if reads_with_offset(text, formats) {
        let k = choose|k: int|
            0 <= k < formats.len() && offset_date_of(text, (#[trigger] formats[k])@) is Some;
        assert(attempt_with_offset(attempts, k) is Some);
        lemma_first_present_finds(attempts, 0, 2 * k);
    }
    if out is Some {
        let i = choose|i: int| 0 <= i < attempts.len() && attempts[i] == out;
        assert(attempts[i] matches Some(d) ==> d.well_formed());
        let k = i / 2;
        if i % 2 == 0 {
            assert(attempt_with_offset(attempts, k) == attempts[i]);
            assert(offset_date_of(text, formats[k]@) is Some);
        } else {
            assert(attempt_without_offset(attempts, k) == attempts[i]);
            assert(naive_date_of(text, formats[k]@) == Some(out->0));
        }
    }
}

/// The capture time that a text of embedded metadata holds, in the time zone of the machine.
/// The white space around the text does not count. The text is tried in each of the forms of
/// `exif_date_formats`, first as a date with an offset and then as one without: the first
/// attempt that gives a date gives the result. A text with an offset, in one of the forms, is
/// always read; a text without one is read as written, unless the time zone of the machine has
/// no such time, or has it twice.
pub fn parse_exif_date(input: &str) -> (out: Option<CaptureDate>)
    ensures
        is_reading(trim(input@, CharClass::Space), exif_date_formats(), out),
        out matches Some(d) ==> d.well_formed(),
        reads_with_offset(trim(input@, CharClass::Space), exif_date_formats()) ==> out is Some,
        out matches Some(d) ==> reads_with_offset(
            trim(input@, CharClass::Space),
            exif_date_formats(),
        ) || reads_without_offset_as(trim(input@, CharClass::Space), exif_date_formats(), d),
{
    let text = string_of(&trim_chars(&chars_of(input), CharClass::Space));
    let formats = vec![
        "%Y:%m:%d %H:%M:%S",
        "%Y:%m:%d %H:%M:%S%:z",
        "%Y:%m:%d %H:%M:%S%.f%:z",
        "%Y-%m-%d %H:%M:%S",
        "%Y-%m-%dT%H:%M:%S",
        "%Y-%m-%dT%H:%M:%S%.f",
        "%Y-%m-%dT%H:%M:%S%:z",
        "%Y-%m-%dT%H:%M:%S%.f%:z",
    ];
    assert(formats@ =~= exif_date_formats());
    let attempts = attempts_with(text.as_str(), &formats);
    let out = first_date(&attempts);
    proof {
        assert(attempts_fit(text@, exif_date_formats(), attempts@));
        lemma_reading(text@, exif_date_formats(), out);
    }
    out
}

/// The capture time that a text of a sidecar holds, in the time zone of the machine. The text
/// is tried in each of the forms of `xmp_date_formats`, first as a date with an offset and then
/// as one without: the first attempt that gives a date gives the result. A text with an offset,
/// in one of the forms, is always read; a text without one is read as written, unless the time
/// zone of the machine has no such time, or has it twice.
pub fn parse_xmp_date(input: &str) -> (out: Option<CaptureDate>)
    ensures
        is_reading(input@, xmp_date_formats(), out),
        out matches Some(d) ==> d.well_formed(),
        reads_with_offset(input@, xmp_date_formats()) ==> out is Some,
        out matches Some(d) ==> reads_with_offset(input@, xmp_date_formats())
            || reads_without_offset_as(input@, xmp_date_formats(), d),
{
    let formats = vec![
        "%Y:%m:%d %H:%M:%S",
        "%Y-%m-%d %H:%M:%S",
        "%Y-%m-%dT%H:%M:%S",
        "%Y-%m-%dT%H:%M:%S%.f",
        "%Y-%m-%dT%H:%M:%S%:z",
        "%Y-%m-%dT%H:%M:%S%.f%:z",
    ];
    assert(formats@ =~= xmp_date_formats());
    let attempts = attempts_with(input, &formats);
    let out = first_date(&attempts);
    proof {
        assert(attempts_fit(input@, xmp_date_formats(), attempts@));
        lemma_reading(input@, xmp_date_formats(), out);
    }
    out
}

} // verus!
