use crate::dates::{exif_date_formats, is_reading, parse_exif_date};
use crate::metadata::{normalized_make, text_of, CaptureDate, PartialMetadata};
use crate::text::{
    chars_equal, chars_of, contains, equal_ignoring_ascii_case, has_word,
    same_ignoring_ascii_case, string_of, trim, trim_chars, upper, upper_chars, CharClass,
};
use vstd::prelude::*;

verus! {

/// The bytes that a maker note of this vendor starts with: `FUJIFILM`.
pub open spec fn maker_note_prefix() -> Seq<u8> {
    seq![0x46u8, 0x55u8, 0x4au8, 0x49u8, 0x46u8, 0x49u8, 0x4cu8, 0x4du8]
}

/// The tag under which a maker note holds the film mode.
pub const FILM_MODE_TAG: u16 = 0x1401;

/// The two bytes at `offset`, read as a little-endian number; none where they are not there.
pub open spec fn le_u16(data: Seq<u8>, offset: int) -> Option<u16> {
    if 0 <= offset && offset + 2 <= data.len() {
        Some((data[offset] as int + 256 * (data[offset + 1] as int)) as u16)
    } else {
        None
    }
}

/// The four bytes at `offset`, read as a little-endian number; none where they are not there.
pub open spec fn le_u32(data: Seq<u8>, offset: int) -> Option<u32> {
    if 0 <= offset && offset + 4 <= data.len() {
        Some(
            (data[offset] as int + 256 * (data[offset + 1] as int) + 65536 * (data[offset
                + 2] as int) + 16777216 * (data[offset + 3] as int)) as u32,
        )
    } else {
        None
    }
}

/// The value of the directory entry of twelve bytes at `entry`, where it is one short number, or
/// one long number whose low half is taken: a type of 3 with a count of 1 or 2 has the number in
/// the entry, with a larger count at the offset that the entry names; a type of 4 needs a count
/// of 1.
pub open spec fn entry_short(data: Seq<u8>, entry: int) -> Option<u16> {
    let kind = le_u16(data, entry + 2);
    let count = le_u32(data, entry + 4);
    if kind is None || count is None || count->0 == 0 {
        None
    } else if kind->0 == 3 {
        if count->0 <= 2 {
            le_u16(data, entry + 8)
        } else {
            match le_u32(data, entry + 8) {
                Some(at) => le_u16(data, at as int),
                None => None,
            }
        }
    } else if kind->0 == 4 && count->0 == 1 {
        match le_u32(data, entry + 8) {
            Some(v) => Some((v % 65536) as u16),
            None => None,
        }
    } else {
        None
    }
}

/// The short value of the first entry with tag `tag` among the entries `index`, `index + 1`, ...
/// below `count` of the directory at `ifd`; the search ends at an entry that does not lie within
/// the data.
pub open spec fn short_tag_from(data: Seq<u8>, ifd: int, count: int, index: int, tag: u16) -> Option<
    u16,
>
    decreases count - index,
{
    let entry = ifd + 2 + 12 * index;
    if index < 0 || index >= count || entry + 12 > data.len() {
        None
    } else if le_u16(data, entry) != Some(tag) {
        short_tag_from(data, ifd, count, index + 1, tag)
    } else {
        entry_short(data, entry)
    }
}

/// The short value under `tag` in the directory at `ifd`: two bytes of entry count, then entries
/// of twelve bytes each.
pub open spec fn short_tag(data: Seq<u8>, ifd: int, tag: u16) -> Option<u16> {
    match le_u16(data, ifd) {
        Some(count) => short_tag_from(data, ifd, count as int, 0, tag),
        None => None,
    }
}

/// The film mode code of a maker note: looked for in the directory named at byte 12, then in
/// the one named at byte 8.
pub open spec fn film_mode_code(note: Seq<u8>) -> Option<u16> {
    if note.len() < 16 || note.take(8) != maker_note_prefix() {
        None
    } else {
        let first = short_tag(note, le_u32(note, 12)->0 as int, FILM_MODE_TAG);
        if first is Some {
            first
        } else {
            short_tag(note, le_u32(note, 8)->0 as int, FILM_MODE_TAG)
        }
    }
}

/// The name of a film mode code.
pub open spec fn film_mode_name(code: u16) -> Option<Seq<char>> {
    if code == 0x000 {
        Some("PROVIA"@)
    } else if code == 0x100 {
        Some("STUDIO-PORTRAIT"@)
    } else if code == 0x110 {
        Some("STUDIO-PORTRAIT-ENHANCED-SATURATION"@)
    } else if code == 0x120 {
        Some("ASTIA"@)
    } else if code == 0x130 {
        Some("STUDIO-PORTRAIT-INCREASED-SHARPNESS"@)
    } else if code == 0x200 {
        Some("VELVIA"@)
    } else if code == 0x300 {
        Some("STUDIO-PORTRAIT-EX"@)
    } else if code == 0x400 {
        Some("VELVIA"@)
    } else if code == 0x500 {
        Some("PRO-NEG-STD"@)
    } else if code == 0x501 {
        Some("PRO-NEG-HI"@)
    } else if code == 0x600 {
        Some("CLASSIC-CHROME"@)
    } else if code == 0x700 {
        Some("ETERNA"@)
    } else if code == 0x800 {
        Some("CLASSIC-NEG"@)
    } else if code == 0x900 {
        Some("BLEACH-BYPASS"@)
    } else if code == 0xA00 {
        Some("NOSTALGIC-NEG"@)
    } else if code == 0xB00 {
        Some("REALA ACE"@)
    } else {
        None
    }
}

/// The two bytes at `offset`, read as a little-endian number.
pub fn read_le_u16(data: &[u8], offset: usize) -> (out: Option<u16>)
    ensures
        out == le_u16(data@, offset as int),
{
    if data.len() < 2 || offset > data.len() - 2 {
        return None;
    }
    let low: u16 = data[offset] as u16;
    let high: u16 = data[offset + 1] as u16;
    Some(low + 256 * high)
}

/// The four bytes at `offset`, read as a little-endian number.
pub fn read_le_u32(data: &[u8], offset: usize) -> (out: Option<u32>)
    ensures
        out == le_u32(data@, offset as int),
{
    if data.len() < 4 || offset > data.len() - 4 {
        return None;
    }
    let b0: u32 = data[offset] as u32;
    let b1: u32 = data[offset + 1] as u32;
    let b2: u32 = data[offset + 2] as u32;
    let b3: u32 = data[offset + 3] as u32;
    Some(b0 + 256 * b1 + 65536 * b2 + 16777216 * b3)
}

fn read_entry_short(data: &[u8], entry: usize) -> (out: Option<u16>)
    requires
        entry + 12 <= data.len(),
    ensures
        out == entry_short(data@, entry as int),
{
    let kind = match read_le_u16(data, entry + 2) {
        Some(v) => v,
        None => { return None; },
    };
    let count = match read_le_u32(data, entry + 4) {
        Some(v) => v,
        None => { return None; },
    };
    if count == 0 {
        return None;
    }
    if kind == 3 {
        if count <= 2 {
            return read_le_u16(data, entry + 8);
        }
        return match read_le_u32(data, entry + 8) {
            Some(at) => read_le_u16(data, at as usize),
            None => None,
        };
    }
    if kind == 4 && count == 1 {
        return match read_le_u32(data, entry + 8) {
            Some(v) => Some((v % 65536) as u16),
            None => None,
        };
    }
    None
}

/// The short value under `target_tag` in the directory at `ifd_offset`.
pub fn parse_fujifilm_ifd_short_tag(data: &[u8], ifd_offset: usize, target_tag: u16) -> (out:
    Option<u16>)
    ensures
        out == short_tag(data@, ifd_offset as int, target_tag),
{
    let entry_count: usize = match read_le_u16(data, ifd_offset) {
        Some(v) => v as usize,
        None => { return None; },
    };
    let mut index: usize = 0;
    while index < entry_count
        invariant
            index <= entry_count,
            entry_count <= 0xffff,
            ifd_offset + 2 <= data.len(),
            short_tag(data@, ifd_offset as int, target_tag) == short_tag_from(
                data@,
                ifd_offset as int,
                entry_count as int,
                index as int,
                target_tag,
            ),
        decreases entry_count - index,
    {
        let room: usize = data.len() - ifd_offset - 2;
        if room < 12 || index > (room - 12) / 12 {
            return None;
        }
        let entry_offset: usize = ifd_offset + 2 + 12 * index;
        let tag = read_le_u16(data, entry_offset);
        if tag == Some(target_tag) {
            return read_entry_short(data, entry_offset);
        }
        index += 1;
    }
    None
}

fn has_prefix(data: &[u8]) -> (r: bool)
    requires
        data.len() >= 8,
    ensures
        r == (data@.take(8) == maker_note_prefix()),
{
    let r = data[0] == 0x46 && data[1] == 0x55 && data[2] == 0x4a && data[3] == 0x49 && data[4]
        == 0x46 && data[5] == 0x49 && data[6] == 0x4c && data[7] == 0x4d;
    proof {
        if r {
            assert(data@.take(8) =~= maker_note_prefix());
        } else {
            let p = maker_note_prefix();
            assert(data@.take(8)[0] == data@[0] && data@.take(8)[1] == data@[1] && data@.take(
                8,
            )[2] == data@[2] && data@.take(8)[3] == data@[3] && data@.take(8)[4] == data@[4]
                && data@.take(8)[5] == data@[5] && data@.take(8)[6] == data@[6] && data@.take(
                8,
            )[7] == data@[7]);
            assert(p[0] == 0x46 && p[1] == 0x55 && p[2] == 0x4a && p[3] == 0x49 && p[4] == 0x46
                && p[5] == 0x49 && p[6] == 0x4c && p[7] == 0x4d);
        }
    }
    r
}

/// The film mode code of a maker note.
pub fn parse_fujifilm_film_mode_code(maker_note: &[u8]) -> (out: Option<u16>)
    ensures
        out == film_mode_code(maker_note@),
{
    if maker_note.len() < 16 || !has_prefix(maker_note) {
        return None;
    }
    let first = match read_le_u32(maker_note, 12) {
        Some(offset) => parse_fujifilm_ifd_short_tag(maker_note, offset as usize, FILM_MODE_TAG),
        None => None,
    };
    if first.is_some() {
        return first;
    }
    match read_le_u32(maker_note, 8) {
        Some(offset) => parse_fujifilm_ifd_short_tag(maker_note, offset as usize, FILM_MODE_TAG),
        None => None,
    }
}

/// The name of a film mode code.
pub fn map_fujifilm_film_mode(code: u16) -> (out: Option<&'static str>)
    ensures
        match out {
            Some(name) => film_mode_name(code) == Some(name@),
            None => film_mode_name(code) is None,
        },
{
    if code == 0x000 {
        Some("PROVIA")
    } else if code == 0x100 {
        Some("STUDIO-PORTRAIT")
    } else if code == 0x110 {
        Some("STUDIO-PORTRAIT-ENHANCED-SATURATION")
    } else if code == 0x120 {
        Some("ASTIA")
    } else if code == 0x130 {
        Some("STUDIO-PORTRAIT-INCREASED-SHARPNESS")
    } else if code == 0x200 {
        Some("VELVIA")
    } else if code == 0x300 {
        Some("STUDIO-PORTRAIT-EX")
    } else if code == 0x400 {
        Some("VELVIA")
    } else if code == 0x500 {
        Some("PRO-NEG-STD")
    } else if code == 0x501 {
        Some("PRO-NEG-HI")
    } else if code == 0x600 {
        Some("CLASSIC-CHROME")
    } else if code == 0x700 {
        Some("ETERNA")
    } else if code == 0x800 {
        Some("CLASSIC-NEG")
    } else if code == 0x900 {
        Some("BLEACH-BYPASS")
    } else if code == 0xA00 {
        Some("NOSTALGIC-NEG")
    } else if code == 0xB00 {
        Some("REALA ACE")
    } else {
        None
    }
}

/// The film simulation that a saturation setting names: one of the black-and-white family, with
/// its filter; none for any other setting.
pub open spec fn saturation_film(raw: Seq<char>) -> Option<Seq<char>> {
    let u = upper(trim(raw, CharClass::Space));
    if u.len() == 0 {
        None
    } else if contains(u, "ACROS"@) {
        if contains(u, "RED FILTER"@) {
            Some("ACROS+ R FILTER"@)
        } else if contains(u, "YELLOW FILTER"@) {
            Some("ACROS+ Ye FILTER"@)
        } else if contains(u, "GREEN FILTER"@) {
            Some("ACROS+ G FILTER"@)
        } else {
            Some("ACROS"@)
        }
    } else if contains(u, "SEPIA"@) {
        Some("SEPIA"@)
    } else if contains(u, "B&W"@) || contains(u, "MONOCHROME"@) || contains(u, "BLACK & WHITE"@)
        || contains(u, "BLACK-WHITE"@) {
        if contains(u, "RED FILTER"@) {
            Some("MONOCHROME+ R FILTER"@)
        } else if contains(u, "YELLOW FILTER"@) {
            Some("MONOCHROME+ Ye FILTER"@)
        } else if contains(u, "GREEN FILTER"@) {
            Some("MONOCHROME+ G FILTER"@)
        } else if contains(u, "+R"@) {
            Some("MONOCHROME+ R FILTER"@)
        } else if contains(u, "+Y"@) {
            Some("MONOCHROME+ Ye FILTER"@)
        } else if contains(u, "+G"@) {
            Some("MONOCHROME+ G FILTER"@)
        } else {
            Some("MONOCHROME"@)
        }
    } else {
        None
    }
}

/// The film simulation that an upper-case text names; none where it names none.
pub open spec fn known_film(u: Seq<char>) -> Option<Seq<char>> {
    if contains(u, "REALA ACE"@) || contains(u, "REALA-ACE"@) {
        Some("REALA ACE"@)
    } else if contains(u, "NOSTALGIC NEG"@) || contains(u, "NOSTALGIC-NEG"@) {
        Some("NOSTALGIC Neg"@)
    } else if contains(u, "BLEACH BYPASS"@) || contains(u, "BLEACH-BYPASS"@) {
        Some("ETERNA BLEACH BYPASS"@)
    } else if contains(u, "CLASSIC CHROME"@) || contains(u, "CLASSIC-CHROME"@) {
        Some("CLASSIC CHROME"@)
    } else if contains(u, "CLASSIC NEGATIVE"@) || contains(u, "CLASSIC NEG"@) || contains(
        u,
        "CLASSIC-NEG"@,
    ) {
        Some("CLASSIC Neg"@)
    } else if contains(u, "PRO NEG"@) && contains(u, "STD"@) {
        Some("PRO Neg Std"@)
    } else if contains(u, "PRO NEG"@) && contains(u, "HI"@) {
        Some("PRO Neg Hi"@)
    } else if contains(u, "PROVIA"@) || contains(u, "F0/STANDARD"@) {
        Some("PROVIA"@)
    } else if contains(u, "VELVIA"@) {
        Some("Velvia"@)
    } else if contains(u, "ASTIA"@) {
        Some("ASTIA"@)
    } else if contains(u, "ETERNA"@) {
        Some("ETERNA"@)
    } else if contains(u, "ACROS"@) {
        Some("ACROS"@)
    } else if contains(u, "MONOCHROME"@) || contains(u, "BLACK & WHITE"@) || contains(
        u,
        "BLACK-WHITE"@,
    ) || contains(u, "B&W"@) {
        Some("MONOCHROME"@)
    } else if contains(u, "SEPIA"@) {
        Some("SEPIA"@)
    } else {
        None
    }
}

/// The film simulation that a text names. A text that names none stands for itself, without
/// the white space and the double quotes around it, where `allow_unmapped` is set.
pub open spec fn film_name(raw: Seq<char>, allow_unmapped: bool) -> Option<Seq<char>> {
    let text = trim(trim(raw, CharClass::Space), CharClass::Quote);
    if text.len() == 0 {
        None
    } else if known_film(upper(text)) is Some {
        known_film(upper(text))
    } else if allow_unmapped {
        Some(text)
    } else {
        None
    }
}

fn named(name: &str) -> (out: Option<String>)
    ensures
        text_of(out) == Some(name@),
{
    Some(name.to_string())
}

/// The film simulation that a saturation setting names.
pub fn normalize_film_simulation_from_saturation(raw: &str) -> (out: Option<String>)
    ensures
        text_of(out) == saturation_film(raw@),
{
    let u = upper_chars(&trim_chars(&chars_of(raw), CharClass::Space));
    if u.len() == 0 {
        return None;
    }
    if has_word(&u, "ACROS") {
        if has_word(&u, "RED FILTER") {
            return named("ACROS+ R FILTER");
        }
        if has_word(&u, "YELLOW FILTER") {
            return named("ACROS+ Ye FILTER");
        }
        if has_word(&u, "GREEN FILTER") {
            return named("ACROS+ G FILTER");
        }
        return named("ACROS");
    }
    if has_word(&u, "SEPIA") {
        return named("SEPIA");
    }
    if has_word(&u, "B&W") || has_word(&u, "MONOCHROME") || has_word(&u, "BLACK & WHITE")
        || has_word(&u, "BLACK-WHITE") {
        if has_word(&u, "RED FILTER") {
            return named("MONOCHROME+ R FILTER");
        }
        if has_word(&u, "YELLOW FILTER") {
            return named("MONOCHROME+ Ye FILTER");
        }
        if has_word(&u, "GREEN FILTER") {
            return named("MONOCHROME+ G FILTER");
        }
        if has_word(&u, "+R") {
            return named("MONOCHROME+ R FILTER");
        }
        if has_word(&u, "+Y") {
            return named("MONOCHROME+ Ye FILTER");
        }
        if has_word(&u, "+G") {
            return named("MONOCHROME+ G FILTER");
        }
        return named("MONOCHROME");
    }
    None
}

fn known_film_name(u: &Vec<char>) -> (out: Option<String>)
    ensures
        text_of(out) == known_film(u@),
{
    if has_word(u, "REALA ACE") || has_word(u, "REALA-ACE") {
        named("REALA ACE")
    } else if has_word(u, "NOSTALGIC NEG") || has_word(u, "NOSTALGIC-NEG") {
        named("NOSTALGIC Neg")
    } else if has_word(u, "BLEACH BYPASS") || has_word(u, "BLEACH-BYPASS") {
        named("ETERNA BLEACH BYPASS")
    } else if has_word(u, "CLASSIC CHROME") || has_word(u, "CLASSIC-CHROME") {
        named("CLASSIC CHROME")
    } else if has_word(u, "CLASSIC NEGATIVE") || has_word(u, "CLASSIC NEG") || has_word(
        u,
        "CLASSIC-NEG",
    ) {
        named("CLASSIC Neg")
    } else if has_word(u, "PRO NEG") && has_word(u, "STD") {
        named("PRO Neg Std")
    } else if has_word(u, "PRO NEG") && has_word(u, "HI") {
        named("PRO Neg Hi")
    } else if has_word(u, "PROVIA") || has_word(u, "F0/STANDARD") {
        named("PROVIA")
    } else if has_word(u, "VELVIA") {
        named("Velvia")
    } else if has_word(u, "ASTIA") {
        named("ASTIA")
    } else if has_word(u, "ETERNA") {
        named("ETERNA")
    } else if has_word(u, "ACROS") {
        named("ACROS")
    } else if has_word(u, "MONOCHROME") || has_word(u, "BLACK & WHITE") || has_word(
        u,
        "BLACK-WHITE",
    ) || has_word(u, "B&W") {
        named("MONOCHROME")
    } else if has_word(u, "SEPIA") {
        named("SEPIA")
    } else {
        None
    }
}

/// The film simulation that a text names.
pub fn normalize_film_simulation_name(raw: &str, allow_unmapped: bool) -> (out: Option<String>)
    ensures
        text_of(out) == film_name(raw@, allow_unmapped),
{
    let text = trim_chars(&trim_chars(&chars_of(raw), CharClass::Space), CharClass::Quote);
    if text.len() == 0 {
        return None;
    }
    let mapped = known_film_name(&upper_chars(&text));
    if mapped.is_some() {
        return mapped;
    }
    if allow_unmapped {
        return Some(string_of(&text));
    }
    None
}

/// A text without the white space around it; none where nothing is left.
pub fn normalize(value: Option<String>) -> (out: Option<String>)
    ensures
        text_of(out) == normalized_make(value),
{
    match value {
        Some(s) => {
            let t = trim_chars(&chars_of(s.as_str()), CharClass::Space);
            if t.len() == 0 {
                None
            } else {
                Some(string_of(&t))
            }
        },
        None => None,
    }
}

/// A value that the metadata tool reported for a tag.
#[derive(Debug)]
pub enum TagValue {
    Null,
    Bool(bool),
    /// A number, as the tool wrote it.
    Number(String),
    Text(String),
    List(Vec<TagValue>),
    /// A structured value; the resolver reads nothing in it.
    Object,
}

/// One tag that the metadata tool reported, with its value.
#[derive(Debug)]
pub struct TagEntry {
    pub name: String,
    pub value: TagValue,
}

/// The text of the first of `values`, from position `i` on, that has one.
pub open spec fn list_text(values: Seq<TagValue>, i: int) -> Option<Seq<char>>
    decreases values, values.len() - i,
{
    if i < 0 || i >= values.len() {
        None
    } else if value_text(values[i]) is Some {
        value_text(values[i])
    } else {
        list_text(values, i + 1)
    }
}

/// The text that a reported value stands for: a text without the white space around it, unless
/// nothing is left; a number or a truth value as written; the first text of a list.
pub open spec fn value_text(value: TagValue) -> Option<Seq<char>>
    decreases value, 0int,
{
    match value {
        TagValue::Text(s) => {
            let t = trim(s@, CharClass::Space);
            if t.len() == 0 {
                None
            } else {
                Some(t)
            }
        },
        TagValue::Number(s) => Some(s@),
        TagValue::Bool(b) => Some(
            if b {
                "true"@
            } else {
                "false"@
            },
        ),
        TagValue::List(items) => list_text(items@, 0),
        _ => None,
    }
}

/// The value of the first entry named `key`, from position `i` on.
pub open spec fn entry_named(record: Seq<TagEntry>, key: Seq<char>, i: int) -> Option<TagValue>
    decreases record.len() - i,
{
    if i < 0 || i >= record.len() {
        None
    } else if record[i].name@ == key {
        Some(record[i].value)
    } else {
        entry_named(record, key, i + 1)
    }
}

/// The text under one key of a record.
pub open spec fn key_text(record: Seq<TagEntry>, key: Seq<char>) -> Option<Seq<char>> {
    match entry_named(record, key, 0) {
        Some(v) => value_text(v),
        None => None,
    }
}

/// The text under the first of `keys`, from position `k` on, that has one.
pub open spec fn picked_text(record: Seq<TagEntry>, keys: Seq<&str>, k: int) -> Option<Seq<char>>
    decreases keys.len() - k,
{
    if k < 0 || k >= keys.len() {
        None
    } else if key_text(record, keys[k]@) is Some {
        key_text(record, keys[k]@)
    } else {
        picked_text(record, keys, k + 1)
    }
}

/// The film simulation that a record of the metadata tool names: a black-and-white setting under
/// `Saturation` first, then a known name under `ColorMode`, then whatever stands under
/// `FilmSimulationName`, `FilmSimulation` or `FilmMode`, then a known name under `PictureMode`.
pub open spec fn record_film(record: Seq<TagEntry>) -> Option<Seq<char>> {
    let saturation = match key_text(record, "Saturation"@) {
        Some(raw) => saturation_film(raw),
        None => None,
    };
    let color = match key_text(record, "ColorMode"@) {
        Some(raw) => film_name(raw, false),
        None => None,
    };
    let by_name = match key_text(record, "FilmSimulationName"@) {
        Some(raw) => film_name(raw, true),
        None => None,
    };
    let by_simulation = match key_text(record, "FilmSimulation"@) {
        Some(raw) => film_name(raw, true),
        None => None,
    };
    let by_mode = match key_text(record, "FilmMode"@) {
        Some(raw) => film_name(raw, true),
        None => None,
    };
    let picture = match key_text(record, "PictureMode"@) {
        Some(raw) => film_name(raw, false),
        None => None,
    };
    if saturation is Some {
        saturation
    } else if color is Some {
        color
    } else if by_name is Some {
        by_name
    } else if by_simulation is Some {
        by_simulation
    } else if by_mode is Some {
        by_mode
    } else {
        picture
    }
}

/// A text without the white space around it; none where nothing is left or nothing was there.
pub open spec fn trimmed(value: Option<Seq<char>>) -> Option<Seq<char>> {
    match value {
        Some(s) => {
            let t = trim(s, CharClass::Space);
            if t.len() == 0 {
                None
            } else {
                Some(t)
            }
        },
        None => None,
    }
}

/// The tags that hold the capture time, in their order of priority.
pub open spec fn date_keys() -> Seq<&'static str> {
    seq!["DateTimeOriginal", "DateTimeDigitized", "DateTime"]
}

/// The tags that hold the maker of the lens, in their order of priority.
pub open spec fn lens_make_keys() -> Seq<&'static str> {
    seq!["LensMake", "LensManufacturer"]
}

/// The tags that hold the model of the lens, in their order of priority.
pub open spec fn lens_model_keys() -> Seq<&'static str> {
    seq!["LensModel", "Lens", "LensType", "LensInfo", "LensSpecification"]
}

/// The text fields of the metadata that a record of the metadata tool gives.
pub open spec fn record_fields_match(record: Seq<TagEntry>, out: PartialMetadata) -> bool {
    &&& text_of(out.camera_make) == trimmed(key_text(record, "Make"@))
    &&& text_of(out.camera_model) == trimmed(key_text(record, "Model"@))
    &&& text_of(out.lens_make) == trimmed(picked_text(record, lens_make_keys(), 0))
    &&& text_of(out.lens_model) == trimmed(picked_text(record, lens_model_keys(), 0))
    &&& text_of(out.film_sim) == trimmed(record_film(record))
}

/// The text that a reported value stands for.
pub fn json_value_to_string(value: &TagValue) -> (out: Option<String>)
    ensures
        text_of(out) == value_text(*value),
    decreases value,
{
    match value {
        TagValue::Text(v) => {
            let t = trim_chars(&chars_of(v.as_str()), CharClass::Space);
            if t.len() == 0 {
                None
            } else {
                Some(string_of(&t))
            }
        },
        TagValue::Number(v) => Some(v.clone()),
        TagValue::Bool(v) => Some(
            if *v {
                "true".to_string()
            } else {
                "false".to_string()
            },
        ),
        TagValue::List(values) => {
            let mut i: usize = 0;
            while i < values.len()
                invariant
                    i <= values.len(),
                    *value == TagValue::List(*values),
                    list_text(values@, 0) == list_text(values@, i as int),
                decreases values.len() - i,
            {
                let found = json_value_to_string(&values[i]);
                if found.is_some() {
                    return found;
                }
                i += 1;
            }
            None
        },
        _ => None,
    }
}

fn text_under(json: &Vec<TagEntry>, key: &str) -> (out: Option<String>)
    ensures
        text_of(out) == key_text(json@, key@),
{
    let wanted = chars_of(key);
    let mut i: usize = 0;
    while i < json.len()
        invariant
            i <= json.len(),
            wanted@ == key@,
            entry_named(json@, key@, 0) == entry_named(json@, key@, i as int),
        decreases json.len() - i,
    {
        if chars_equal(&chars_of(json[i].name.as_str()), &wanted) {
            return json_value_to_string(&json[i].value);
        }
        i += 1;
    }
    None
}

/// The text under the first of `keys` that has one.
pub fn pick_json_string(json: &Vec<TagEntry>, keys: &Vec<&str>) -> (out: Option<String>)
    ensures
        text_of(out) == picked_text(json@, keys@, 0),
{
    let mut k: usize = 0;
    while k < keys.len()
        invariant
            k <= keys.len(),
            picked_text(json@, keys@, 0) == picked_text(json@, keys@, k as int),
        decreases keys.len() - k,
    {
        let found = text_under(json, keys[k]);
        if found.is_some() {
            return found;
        }
        k += 1;
    }
    None
}

fn film_under(json: &Vec<TagEntry>, key: &str, allow_unmapped: bool) -> (out: Option<String>)
    ensures
        text_of(out) == match key_text(json@, key@) {
            Some(raw) => film_name(raw, allow_unmapped),
            None => None,
        },
{
    match text_under(json, key) {
        Some(raw) => normalize_film_simulation_name(raw.as_str(), allow_unmapped),
        None => None,
    }
}

/// The film simulation that a record of the metadata tool names.
pub fn pick_film_simulation_from_json(json: &Vec<TagEntry>) -> (out: Option<String>)
    ensures
        text_of(out) == record_film(json@),
{
    let saturation = match text_under(json, "Saturation") {
        Some(raw) => normalize_film_simulation_from_saturation(raw.as_str()),
        None => None,
    };
    if saturation.is_some() {
        return saturation;
    }
    let color = film_under(json, "ColorMode", false);
    if color.is_some() {
        return color;
    }
    let by_name = film_under(json, "FilmSimulationName", true);
    if by_name.is_some() {
        return by_name;
    }
    let by_simulation = film_under(json, "FilmSimulation", true);
    if by_simulation.is_some() {
        return by_simulation;
    }
    let by_mode = film_under(json, "FilmMode", true);
    if by_mode.is_some() {
        return by_mode;
    }
    film_under(json, "PictureMode", false)
}

fn normalized(value: Option<String>) -> (out: Option<String>)
    ensures
        text_of(out) == trimmed(text_of(value)),
{
    normalize(value)
}

/// The text, among the tags of a record, that holds the capture time.
pub fn record_date_text(json: &Vec<TagEntry>) -> (out: Option<String>)
    ensures
        text_of(out) == picked_text(json@, date_keys(), 0),
{
    let keys = vec!["DateTimeOriginal", "DateTimeDigitized", "DateTime"];
    assert(keys@ =~= date_keys());
    pick_json_string(json, &keys)
}

/// The metadata that a record of the metadata tool gives, with the capture time as it was read
/// from the record's date text.
pub fn metadata_from_record(json: &Vec<TagEntry>, date: Option<CaptureDate>) -> (out:
    PartialMetadata)
    ensures
        out.date == date,
        record_fields_match(json@, out),
{
    let lens_make_names = vec!["LensMake", "LensManufacturer"];
    assert(lens_make_names@ =~= lens_make_keys());
    let lens_model_names = vec!["LensModel", "Lens", "LensType", "LensInfo", "LensSpecification"];
    assert(lens_model_names@ =~= lens_model_keys());
    PartialMetadata {
        date,
        camera_make: normalized(text_under(json, "Make")),
        camera_model: normalized(text_under(json, "Model")),
        lens_make: normalized(pick_json_string(json, &lens_make_names)),
        lens_model: normalized(pick_json_string(json, &lens_model_names)),
        film_sim: normalized(pick_film_simulation_from_json(json)),
    }
}

/// The metadata that a record of the metadata tool gives. The capture time is what reading the
/// record's date text gives: it is there only where the record holds a date text, and is then
/// a well-formed date.
pub fn read_exif_metadata_with_exiftool(json: &Vec<TagEntry>) -> (out: PartialMetadata)
    ensures
        record_fields_match(json@, out),
        exif_date_read(picked_text(json@, date_keys(), 0), out.date),
        out.date is Some ==> picked_text(json@, date_keys(), 0) is Some,
        out.date matches Some(d) ==> d.well_formed(),
{
    let date = match record_date_text(json) {
        Some(raw) => parse_exif_date(raw.as_str()),
        None => None,
    };
    metadata_from_record(json, date)
}

/// One field of embedded metadata, as plain values.
#[derive(Debug, Clone)]
pub struct ExifField {
    /// The name of the field's tag.
    pub tag_name: String,
    /// The values of a field of text values, as bytes; none for a field of another kind.
    pub ascii: Option<Vec<Vec<u8>>>,
    /// The bytes of a field of bytes, or of undefined kind; none for a field of another kind.
    pub bytes: Option<Vec<u8>>,
    /// The value as it is shown, with its unit.
    pub display: String,
}

/// What the parser of the `exif` crate reads from an image held in memory (a TIFF, JPEG, PNG,
/// HEIF or WebP file): its fields, in their order, each as plain values; none where nothing can
/// be parsed.
pub uninterp spec fn embedded_fields(data: Seq<u8>) -> Option<Seq<ExifField>>;

/// Parses the embedded metadata of an image held in memory (`exif::Reader::read_from_container`,
/// set to continue on errors; after an error, what could be parsed before it, by
/// `exif::Error::distill_partial_result`), and gives its fields in their order
/// (`exif::Exif::fields`): of each the tag's name, the bytes of its value, and the value as
/// shown with its unit. What they are, the library takes from the crate under the name
/// `embedded_fields`.
#[verifier::external_body]
fn parse_fields(data: &[u8]) -> (out: Option<Vec<ExifField>>)
    ensures
        match out {
            Some(fields) => embedded_fields(data@) == Some(fields@),
            None => embedded_fields(data@) is None,
        },
{
    let mut reader = exif::Reader::new();
    reader.continue_on_error(true);
    let read = reader.read_from_container(&mut std::io::Cursor::new(data));
    let parsed = read.or_else(|e| e.distill_partial_result(|_| {  })).ok()?;
    Some(parsed.fields().map(|f| ExifField {
        tag_name: f.tag.to_string(),
        ascii: if let exif::Value::Ascii(v) = &f.value { Some(v.clone()) } else { None },
        bytes: match &f.value {
            exif::Value::Undefined(b, _) | exif::Value::Byte(b) => Some(b.clone()),
            _ => None,
        },
        display: f.display_value().with_unit(&parsed).to_string(),
    }).collect())
}

/// What `String::from_utf8_lossy` returns for bytes: their text, with a replacement character
/// in the place of each sequence that is no UTF-8.
pub uninterp spec fn lossy_text_of(bytes: Seq<u8>) -> Seq<char>;

/// The text of bytes (`String::from_utf8_lossy`). What that text is, the library takes from the
/// standard library under the name `lossy_text_of`.
#[verifier::external_body]
fn lossy_text(bytes: &Vec<u8>) -> (out: String)
    ensures
        out@ == lossy_text_of(bytes@),
{
    String::from_utf8_lossy(bytes).into_owned()
}

/// The first of `values`, from position `i` on, whose text is not empty once the NUL characters
/// and then the white space around it are taken off.
pub open spec fn ascii_text(values: Seq<Vec<u8>>, i: int) -> Option<Seq<char>>
    decreases values.len() - i,
{
    if i < 0 || i >= values.len() {
        None
    } else {
        let t = trim(trim(lossy_text_of(values[i]@), CharClass::Nul), CharClass::Space);
        if t.len() > 0 {
            Some(t)
        } else {
            ascii_text(values, i + 1)
        }
    }
}

/// A shown value without the white space and then the double quotes around it; none where
/// nothing is left.
pub open spec fn display_text(display: Seq<char>) -> Option<Seq<char>> {
    let t = trim(trim(display, CharClass::Space), CharClass::Quote);
    if t.len() == 0 {
        None
    } else {
        Some(t)
    }
}

/// The text of a field: its first text value that is not empty, else its shown value.
pub open spec fn field_text(field: ExifField) -> Option<Seq<char>> {
    match field.ascii {
        Some(values) => if ascii_text(values@, 0) is Some {
            ascii_text(values@, 0)
        } else {
            display_text(field.display@)
        },
        None => display_text(field.display@),
    }
}

/// The text of the first field, from position `i` on, whose tag is named `name`, whatever the
/// case, and which has a text.
pub open spec fn named_field_text(fields: Seq<ExifField>, name: Seq<char>, i: int) -> Option<
    Seq<char>,
>
    decreases fields.len() - i,
{
    if i < 0 || i >= fields.len() {
        None
    } else if same_ignoring_ascii_case(name, fields[i].tag_name@) && field_text(fields[i])
        is Some {
        field_text(fields[i])
    } else {
        named_field_text(fields, name, i + 1)
    }
}

/// The text under the first of `names`, from position `k` on, for which a field has one.
pub open spec fn found_text(fields: Seq<ExifField>, names: Seq<&str>, k: int) -> Option<Seq<char>>
    decreases names.len() - k,
{
    if k < 0 || k >= names.len() {
        None
    } else if named_field_text(fields, names[k]@, 0) is Some {
        named_field_text(fields, names[k]@, 0)
    } else {
        found_text(fields, names, k + 1)
    }
}

/// The bytes of the first field, from position `i` on, that is named `MakerNote`, whatever the
/// case, and holds bytes.
pub open spec fn maker_note(fields: Seq<ExifField>, i: int) -> Option<Seq<u8>>
    decreases fields.len() - i,
{
    if i < 0 || i >= fields.len() {
        None
    } else if same_ignoring_ascii_case(fields[i].tag_name@, "MakerNote"@) && fields[i].bytes
        is Some {
        Some(fields[i].bytes->0@)
    } else {
        maker_note(fields, i + 1)
    }
}

/// The film simulation that the maker note among `fields` names.
pub open spec fn maker_note_film(fields: Seq<ExifField>) -> Option<Seq<char>> {
    match maker_note(fields, 0) {
        Some(note) => match film_mode_code(note) {
            Some(code) => film_mode_name(code),
            None => None,
        },
        None => None,
    }
}

/// The fields that hold the capture time, in their order of priority.
pub open spec fn field_date_names() -> Seq<&'static str> {
    seq!["DateTimeOriginal", "DateTimeDigitized", "DateTime"]
}

/// The fields that hold the maker of the camera, in their order of priority.
pub open spec fn camera_make_names() -> Seq<&'static str> {
    seq!["Make", "CameraMake"]
}

/// The fields that hold the model of the camera, in their order of priority.
pub open spec fn camera_model_names() -> Seq<&'static str> {
    seq!["Model", "CameraModel", "UniqueCameraModel"]
}

/// The fields that hold the film simulation, in their order of priority.
pub open spec fn film_names() -> Seq<&'static str> {
    seq!["FilmMode", "FilmSimulation", "FilmSimulationName", "PictureMode"]
}

/// The film simulation that fields give: a text under one of the film tags, else what the maker
/// note names.
pub open spec fn fields_film(fields: Seq<ExifField>) -> Option<Seq<char>> {
    if found_text(fields, film_names(), 0) is Some {
        found_text(fields, film_names(), 0)
    } else {
        maker_note_film(fields)
    }
}

/// The text fields of the metadata that fields of embedded metadata give.
pub open spec fn fields_match(fields: Seq<ExifField>, out: PartialMetadata) -> bool {
    &&& text_of(out.camera_make) == trimmed(found_text(fields, camera_make_names(), 0))
    &&& text_of(out.camera_model) == trimmed(found_text(fields, camera_model_names(), 0))
    &&& text_of(out.lens_make) == trimmed(found_text(fields, lens_make_keys(), 0))
    &&& text_of(out.lens_model) == trimmed(found_text(fields, lens_model_keys(), 0))
    &&& text_of(out.film_sim) == trimmed(fields_film(fields))
}

/// The shown value of a field, where it is not empty.
pub fn display_value_string(field: &ExifField) -> (out: Option<String>)
    ensures
        text_of(out) == display_text(field.display@),
{
    let t = trim_chars(
        &trim_chars(&chars_of(field.display.as_str()), CharClass::Space),
        CharClass::Quote,
    );
    if t.len() == 0 {
        None
    } else {
        Some(string_of(&t))
    }
}

/// The text of a field.
pub fn field_value_to_string(field: &ExifField) -> (out: Option<String>)
    ensures
        text_of(out) == field_text(*field),
{
    match &field.ascii {
        Some(values) => {
            let mut i: usize = 0;
            while i < values.len()
                invariant
                    i <= values.len(),
                    field.ascii == Some(*values),
                    ascii_text(values@, 0) == ascii_text(values@, i as int),
                decreases values.len() - i,
            {
                let t = trim_chars(
                    &trim_chars(&chars_of(lossy_text(&values[i]).as_str()), CharClass::Nul),
                    CharClass::Space,
                );
                if t.len() > 0 {
                    return Some(string_of(&t));
                }
                i += 1;
            }
            display_value_string(field)
        },
        None => display_value_string(field),
    }
}

fn field_named(fields: &Vec<ExifField>, name: &str) -> (out: Option<String>)
    ensures
        text_of(out) == named_field_text(fields@, name@, 0),
{
    let wanted = chars_of(name);
    let mut i: usize = 0;
    while i < fields.len()
        invariant
            i <= fields.len(),
            wanted@ == name@,
            named_field_text(fields@, name@, 0) == named_field_text(fields@, name@, i as int),
        decreases fields.len() - i,
    {
        if equal_ignoring_ascii_case(&wanted, &chars_of(fields[i].tag_name.as_str())) {
            let found = field_value_to_string(&fields[i]);
            if found.is_some() {
                return found;
            }
        }
        i += 1;
    }
    None
}

/// The text under the first of `names` for which a field has one.
pub fn find_field_value(fields: &Vec<ExifField>, names: &Vec<&str>) -> (out: Option<String>)
    ensures
        text_of(out) == found_text(fields@, names@, 0),
{
    let mut k: usize = 0;
    while k < names.len()
        invariant
            k <= names.len(),
            found_text(fields@, names@, 0) == found_text(fields@, names@, k as int),
        decreases names.len() - k,
    {
        let found = field_named(fields, names[k]);
        if found.is_some() {
            return found;
        }
        k += 1;
    }
    None
}

/// The film simulation that the maker note among the fields names.
pub fn find_fujifilm_film_simulation(fields: &Vec<ExifField>) -> (out: Option<String>)
    ensures
        text_of(out) == maker_note_film(fields@),
{
    let wanted = chars_of("MakerNote");
    let mut i: usize = 0;
    while i < fields.len()
        invariant
            i <= fields.len(),
            wanted@ == "MakerNote"@,
            maker_note(fields@, 0) == maker_note(fields@, i as int),
        decreases fields.len() - i,
    {
        if equal_ignoring_ascii_case(&chars_of(fields[i].tag_name.as_str()), &wanted) {
            match &fields[i].bytes {
                Some(bytes) => {
                    let code = match parse_fujifilm_film_mode_code(bytes.as_slice()) {
                        Some(code) => code,
                        None => { return None; },
                    };
                    return match map_fujifilm_film_mode(code) {
                        Some(name) => Some(name.to_string()),
                        None => None,
                    };
                },
                None => {},
            }
        }
        i += 1;
    }
    None
}

/// The fields of the embedded metadata of an image held in memory; none where it cannot be
/// parsed at all.
pub fn read_exif_fields(data: &[u8]) -> (out: Option<Vec<ExifField>>)
    ensures
        match out {
            Some(fields) => embedded_fields(data@) == Some(fields@),
            None => embedded_fields(data@) is None,
        },
{
    parse_fields(data)
}

/// The text, among the fields, that holds the capture time.
pub fn fields_date_text(fields: &Vec<ExifField>) -> (out: Option<String>)
    ensures
        text_of(out) == found_text(fields@, field_date_names(), 0),
{
    let names = vec!["DateTimeOriginal", "DateTimeDigitized", "DateTime"];
    assert(names@ =~= field_date_names());
    find_field_value(fields, &names)
}

/// The metadata that fields of embedded metadata give, with the capture time as it was read
/// from their date text.
pub fn metadata_from_fields(fields: &Vec<ExifField>, date: Option<CaptureDate>) -> (out:
    PartialMetadata)
    ensures
        out.date == date,
        fields_match(fields@, out),
{
    let make_names = vec!["Make", "CameraMake"];
    assert(make_names@ =~= camera_make_names());
    let model_names = vec!["Model", "CameraModel", "UniqueCameraModel"];
    assert(model_names@ =~= camera_model_names());
    let lens_make_names = vec!["LensMake", "LensManufacturer"];
    assert(lens_make_names@ =~= lens_make_keys());
    let lens_model_names = vec!["LensModel", "Lens", "LensType", "LensInfo", "LensSpecification"];
    assert(lens_model_names@ =~= lens_model_keys());
    let film_tag_names = vec!["FilmMode", "FilmSimulation", "FilmSimulationName", "PictureMode"];
    assert(film_tag_names@ =~= film_names());
    let tagged_film = find_field_value(fields, &film_tag_names);
    let film = if tagged_film.is_some() {
        tagged_film
    } else {
        find_fujifilm_film_simulation(fields)
    };
    PartialMetadata {
        date,
        camera_make: normalized(find_field_value(fields, &make_names)),
        camera_model: normalized(find_field_value(fields, &model_names)),
        lens_make: normalized(find_field_value(fields, &lens_make_names)),
        lens_model: normalized(find_field_value(fields, &lens_model_names)),
        film_sim: normalized(film),
    }
}

/// `date` is what reading the date text of embedded metadata gives: nothing where there is no
/// such text, else the reading of the text without the white space around it.
pub open spec fn exif_date_read(text: Option<Seq<char>>, date: Option<CaptureDate>) -> bool {
    match text {
        Some(t) => is_reading(trim(t, CharClass::Space), exif_date_formats(), date),
        None => date is None,
    }
}

/// The metadata embedded in an image held in memory; none where it cannot be parsed at all.
/// The text fields are those that the fields of the image give; the capture time is what
/// reading their date text gives, and is then a well-formed date.
pub fn read_exif_metadata_with_kamadak(data: &[u8]) -> (out: Option<PartialMetadata>)
    ensures
        match out {
            Some(m) => embedded_fields(data@) is Some && fields_match(
                embedded_fields(data@)->0,
                m,
            ) && exif_date_read(
                found_text(embedded_fields(data@)->0, field_date_names(), 0),
                m.date,
            ),
            None => embedded_fields(data@) is None,
        },
        out matches Some(m) ==> (m.date matches Some(d) ==> d.well_formed()),
{
    match read_exif_fields(data) {
        Some(fields) => {
            let date = match fields_date_text(&fields) {
                Some(raw) => parse_exif_date(raw.as_str()),
                None => None,
            };
            Some(metadata_from_fields(&fields, date))
        },
        None => None,
    }
}

/// One of the fields of `meta` is not there.
pub fn metadata_has_missing_fields(meta: &PartialMetadata) -> (r: bool)
    ensures
        r == meta.has_gaps(),
{
    meta.date.is_none() || meta.camera_make.is_none() || meta.camera_model.is_none()
        || meta.lens_make.is_none() || meta.lens_model.is_none() || meta.film_sim.is_none()
}

/// What reading the metadata of a file gives, from what the metadata tool reported and what is
/// embedded in the file: the tool's metadata, with its gaps filled from the embedded metadata;
/// the embedded metadata alone where the tool gave nothing; nothing where neither is there.
pub open spec fn combined(tool: Option<PartialMetadata>, embedded: Option<PartialMetadata>) -> Option<
    PartialMetadata,
> {
    match tool {
        Some(t) => match embedded {
            Some(e) => Some(t.filled_from(e)),
            None => Some(t),
        },
        None => embedded,
    }
}

/// The metadata of a file, from what the metadata tool reported and what is embedded in it.
pub fn read_exif_metadata(tool: Option<PartialMetadata>, embedded: Option<PartialMetadata>) -> (out:
    Option<PartialMetadata>)
    ensures
        out == combined(tool, embedded),
{
    match tool {
        Some(mut tool_meta) => {
            if metadata_has_missing_fields(&tool_meta) {
                match &embedded {
                    Some(embedded_meta) => {
                        tool_meta.merge_missing_from(embedded_meta);
                    },
                    None => {},
                }
            } else {
                proof {
                    if embedded is Some {
                        assert(tool_meta.filled_from(embedded->0) == tool_meta);
                    }
                }
            }
            Some(tool_meta)
        },
        None => embedded,
    }
}

} // verus!
