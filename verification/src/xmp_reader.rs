use crate::dates::{is_reading, parse_xmp_date, xmp_date_formats};
use crate::exif_reader::{normalize, trimmed};
use crate::metadata::{text_of, CaptureDate, PartialMetadata};
use crate::text::{
    append_chars, char_ascii_lower, char_is_space, chars_equal, chars_of, copy_range, find_from,
    is_space, lower, occurs_at, replace_all, replaced, string_of, trim, trim_chars, CharClass,
};
use vstd::prelude::*;

verus! {

/// White space of the ASCII range: blank, tab, line feed, form feed, carriage return.
pub open spec fn is_ascii_blank(c: char) -> bool {
    c == ' ' || c == '\t' || c == '\n' || c == '\x0c' || c == '\r'
}

/// An ASCII letter or digit.
pub open spec fn is_ascii_alnum(c: char) -> bool {
    ('0' <= c <= '9') || ('a' <= c <= 'z') || ('A' <= c <= 'Z')
}

/// Where a scan over a text stops.
#[derive(Clone, Copy, Debug)]
pub enum Stop {
    /// At ASCII white space.
    Blank,
    /// At anything but ASCII white space.
    NonBlank,
    /// At ASCII white space, `=` or `/`.
    NameEnd,
    /// At Unicode white space.
    Space,
    /// At anything but Unicode white space.
    NonSpace,
    /// At this character.
    Char(char),
}

impl Stop {
    /// The scan stops at `c`.
    pub open spec fn at(self, c: char) -> bool {
        match self {
            Stop::Blank => is_ascii_blank(c),
            Stop::NonBlank => !is_ascii_blank(c),
            Stop::NameEnd => is_ascii_blank(c) || c == '=' || c == '/',
            Stop::Space => is_space(c),
            Stop::NonSpace => !is_space(c),
            Stop::Char(x) => c == x,
        }
    }

    /// Whether the scan stops at `c`.
    pub fn stops_at(&self, c: char) -> (r: bool)
        ensures
            r == self.at(c),
    {
        let blank = c == ' ' || c == '\t' || c == '\n' || c == '\x0c' || c == '\r';
        match self {
            Stop::Blank => blank,
            Stop::NonBlank => !blank,
            Stop::NameEnd => blank || c == '=' || c == '/',
            Stop::Space => char_is_space(c),
            Stop::NonSpace => !char_is_space(c),
            Stop::Char(x) => c == *x,
        }
    }
}

/// The first position at or after `i` where a scan of `s` stops; the length of `s` where it
/// stops nowhere.
pub open spec fn scan(s: Seq<char>, i: int, stop: Stop) -> int
    decreases s.len() - i,
{
    if i < 0 || i >= s.len() || stop.at(s[i]) {
        i
    } else {
        scan(s, i + 1, stop)
    }
}

/// A scan ends at or after its start, where it stops or at the end, and stops nowhere before.
pub proof fn lemma_scan_bounds(s: Seq<char>, i: int, stop: Stop)
    requires
        0 <= i <= s.len(),
    ensures
        i <= scan(s, i, stop) <= s.len(),
        scan(s, i, stop) < s.len() ==> stop.at(s[scan(s, i, stop)]),
        forall|k: int| i <= k < scan(s, i, stop) ==> !stop.at(#[trigger] s[k]),
    decreases s.len() - i,
{
    if i < s.len() && !stop.at(s[i]) {
        lemma_scan_bounds(s, i + 1, stop);
    }
}

/// The first position at or after `i` where a scan of `v` stops.
pub fn scan_to(v: &Vec<char>, i: usize, stop: Stop) -> (j: usize)
    requires
        i <= v.len(),
    ensures
        j == scan(v@, i as int, stop),
        i <= j <= v.len(),
        j < v.len() ==> stop.at(v@[j as int]),
{
    let mut j: usize = i;
    while j < v.len() && !stop.stops_at(v[j])
        invariant
            i <= j <= v.len(),
            scan(v@, i as int, stop) == scan(v@, j as int, stop),
        decreases v.len() - j,
    {
        j += 1;
    }
    j
}

/// The part of `s` after its last `c`; all of `s` where it has none.
pub open spec fn after_last(s: Seq<char>, c: char) -> Seq<char>
    decreases s.len(),
{
    if s.len() == 0 || s.last() == c {
        Seq::empty()
    } else {
        after_last(s.drop_last(), c).push(s.last())
    }
}

/// The ASCII letters and digits of `s`, in order.
pub open spec fn alnum_only(s: Seq<char>) -> Seq<char>
    decreases s.len(),
{
    if s.len() == 0 {
        Seq::empty()
    } else if is_ascii_alnum(s.last()) {
        alnum_only(s.drop_last()).push(s.last())
    } else {
        alnum_only(s.drop_last())
    }
}

/// The key that a tag or attribute name stands for: what follows its last colon, its ASCII
/// letters and digits only, in lower case.
pub open spec fn tag_key(name: Seq<char>) -> Seq<char> {
    lower(alnum_only(after_last(name, ':')))
}

/// The keys that are read from a sidecar.
pub open spec fn is_target_key(key: Seq<char>) -> bool {
    ||| key == "datetimeoriginal"@
    ||| key == "createdate"@
    ||| key == "datecreated"@
    ||| key == "make"@
    ||| key == "model"@
    ||| key == "lensmake"@
    ||| key == "lensmodel"@
    ||| key == "lens"@
    ||| key == "filmsimulation"@
    ||| key == "filmmode"@
    ||| key == "filmsimulationname"@
}

/// `s` with the five basic character references resolved: `&amp;` first, then `&lt;`, `&gt;`,
/// `&quot;` and `&apos;`.
pub open spec fn unescaped(s: Seq<char>) -> Seq<char> {
    replaced(
        replaced(
            replaced(replaced(replaced(s, "&amp;"@, "&"@), "&lt;"@, "<"@), "&gt;"@, ">"@),
            "&quot;"@,
            "\""@,
        ),
        "&apos;"@,
        "'"@,
    )
}

/// `acc` with the value `raw_value` under the key of `raw_name`, unless the key is none of
/// those read, has a value already, or the value is empty but for white space.
pub open spec fn with_value(
    acc: Map<Seq<char>, Seq<char>>,
    raw_name: Seq<char>,
    raw_value: Seq<char>,
) -> Map<Seq<char>, Seq<char>> {
    let key = tag_key(raw_name);
    let value = trim(raw_value, CharClass::Space);
    if !is_target_key(key) || acc.contains_key(key) || value.len() == 0 {
        acc
    } else {
        acc.insert(key, unescaped(value))
    }
}

/// `acc` with the attributes of the tag text `s`, read from position `i` on: names up to `=`,
/// values between quotes or up to the next white space. Reading ends at a `/`, at a value
/// whose quote is not closed, and at the end.
pub open spec fn attributes_from(s: Seq<char>, i: int, acc: Map<Seq<char>, Seq<char>>) -> Map<
    Seq<char>,
    Seq<char>,
>
    decreases s.len() - i,
{
    if i < 0 || i > s.len() {
        acc
    } else {
        let a = scan(s, i, Stop::NonBlank);
        let b = scan(s, a, Stop::NameEnd);
        let c = scan(s, b, Stop::NonBlank);
        let d = scan(s, c + 1, Stop::NonBlank);
        proof {
            lemma_scan_bounds(s, i, Stop::NonBlank);
            lemma_scan_bounds(s, a, Stop::NameEnd);
            lemma_scan_bounds(s, b, Stop::NonBlank);
            if c < s.len() {
                lemma_scan_bounds(s, c + 1, Stop::NonBlank);
                if d < s.len() {
                    lemma_scan_bounds(s, d + 1, Stop::Char(s[d]));
                    lemma_scan_bounds(s, d, Stop::Blank);
                }
            }
            if c <= s.len() {
                lemma_scan_bounds(s, c, Stop::Blank);
            }
        }
        if a >= s.len() || s[a] == '/' {
            acc
        } else if b == a {
            attributes_from(s, a + 1, acc)
        } else if c >= s.len() || s[c] != '=' {
            attributes_from(s, scan(s, c, Stop::Blank), acc)
        } else if d >= s.len() {
            acc
        } else if s[d] == '"' || s[d] == '\'' {
            let e = scan(s, d + 1, Stop::Char(s[d]));
            if e >= s.len() {
                acc
            } else {
                attributes_from(s, e + 1, with_value(acc, s.subrange(a, b), s.subrange(d + 1, e)))
            }
        } else {
            let e = scan(s, d, Stop::Blank);
            attributes_from(s, e, with_value(acc, s.subrange(a, b), s.subrange(d, e)))
        }
    }
}

/// `acc` with the attributes of a tag, whose text `s` begins with the tag's name.
pub open spec fn with_attributes(s: Seq<char>, acc: Map<Seq<char>, Seq<char>>) -> Map<
    Seq<char>,
    Seq<char>,
> {
    attributes_from(s, scan(s, 0, Stop::Blank), acc)
}

/// The first position at or after `from` where `n` stands in `h`; none where it stands nowhere.
pub open spec fn position_of(h: Seq<char>, n: Seq<char>, from: int) -> Option<int>
    decreases h.len() + 1 - from,
{
    if from < 0 || from > h.len() {
        None
    } else if occurs_at(h, n, from) {
        Some(from)
    } else {
        position_of(h, n, from + 1)
    }
}

/// The first word of a tag's text: its name.
pub open spec fn tag_name_of(raw_tag: Seq<char>) -> Seq<char> {
    let a = scan(raw_tag, 0, Stop::NonSpace);
    raw_tag.subrange(a, scan(raw_tag, a, Stop::Space))
}

/// `acc` with the text between the tag that ends at `end` and its closing tag, under the tag's
/// key, where the key is one of those read and has no value yet.
pub open spec fn with_element(
    xml: Seq<char>,
    raw_tag: Seq<char>,
    end: int,
    acc: Map<Seq<char>, Seq<char>>,
) -> Map<Seq<char>, Seq<char>> {
    let name = tag_name_of(raw_tag);
    let key = tag_key(name);
    let close = "</"@ + name + ">"@;
    if !is_target_key(key) || acc.contains_key(key) {
        acc
    } else {
        match position_of(xml, close, end + 1) {
            Some(pos) => {
                let content = trim(xml.subrange(end + 1, pos), CharClass::Space);
                if content.len() == 0 {
                    acc
                } else {
                    acc.insert(key, unescaped(content))
                }
            },
            None => acc,
        }
    }
}

/// `acc` with the values of the tags of `xml` that open at or after `cursor`: for each tag its
/// attributes, then its text. A closing tag, a processing instruction and a declaration give
/// nothing; reading ends at a tag that is not closed by `>`.
pub open spec fn tags_from(xml: Seq<char>, cursor: int, acc: Map<Seq<char>, Seq<char>>) -> Map<
    Seq<char>,
    Seq<char>,
>
    decreases xml.len() - cursor,
{
    if cursor < 0 || cursor > xml.len() {
        acc
    } else {
        let start = scan(xml, cursor, Stop::Char('<'));
        let end = scan(xml, start, Stop::Char('>'));
        proof {
            lemma_scan_bounds(xml, cursor, Stop::Char('<'));
            lemma_scan_bounds(xml, start, Stop::Char('>'));
        }
        if start >= xml.len() || end >= xml.len() {
            acc
        } else {
            let raw_tag = xml.subrange(start + 1, end);
            if raw_tag.len() > 0 && (raw_tag[0] == '/' || raw_tag[0] == '?' || raw_tag[0] == '!') {
                tags_from(xml, end + 1, acc)
            } else {
                tags_from(xml, end + 1, with_element(xml, raw_tag, end, with_attributes(raw_tag, acc)))
            }
        }
    }
}

/// The values that a sidecar text holds, each under its key.
pub open spec fn tag_values(xml: Seq<char>) -> Map<Seq<char>, Seq<char>> {
    tags_from(xml, 0, Map::empty())
}

/// The map that the first `n` pairs of a list stand for: each key with the value of its first
/// pair.
pub open spec fn map_of(entries: Seq<(String, String)>, n: int) -> Map<Seq<char>, Seq<char>>
    decreases n,
{
    if n <= 0 {
        Map::empty()
    } else {
        let m = map_of(entries, n - 1);
        let key = entries[n - 1].0@;
        if m.contains_key(key) {
            m
        } else {
            m.insert(key, entries[n - 1].1@)
        }
    }
}

/// The values read from a sidecar, each under its key.
#[derive(Debug)]
pub struct TagValues {
    pub entries: Vec<(String, String)>,
}

impl View for TagValues {
    type V = Map<Seq<char>, Seq<char>>;

    open spec fn view(&self) -> Map<Seq<char>, Seq<char>> {
        map_of(self.entries@, self.entries@.len() as int)
    }
}

proof fn lemma_map_of_keys(entries: Seq<(String, String)>, n: int, key: Seq<char>)
    requires
        0 <= n <= entries.len(),
    ensures
        map_of(entries, n).contains_key(key) <==> exists|i: int|
            0 <= i < n && (#[trigger] entries[i]).0@ == key,
    decreases n,
{
    if n > 0 {
        lemma_map_of_keys(entries, n - 1, key);
        lemma_map_of_keys(entries, n - 1, entries[n - 1].0@);
        if map_of(entries, n).contains_key(key) {
            if map_of(entries, n - 1).contains_key(key) {
                let i = choose|i: int| 0 <= i < n - 1 && (#[trigger] entries[i]).0@ == key;
                assert(0 <= i < n && entries[i].0@ == key);
            } else {
                assert(entries[n - 1].0@ == key);
            }
        }
        if exists|i: int| 0 <= i < n && (#[trigger] entries[i]).0@ == key {
            let i = choose|i: int| 0 <= i < n && (#[trigger] entries[i]).0@ == key;
            if i < n - 1 {
                assert(map_of(entries, n - 1).contains_key(key));
            }
        }
    }
}

proof fn lemma_map_of_first(entries: Seq<(String, String)>, n: int, i: int)
    requires
        0 <= i < n <= entries.len(),
        forall|j: int| 0 <= j < i ==> (#[trigger] entries[j]).0@ != entries[i].0@,
    ensures
        map_of(entries, n).contains_key(entries[i].0@),
        map_of(entries, n)[entries[i].0@] == entries[i].1@,
    decreases n,
{
    lemma_map_of_keys(entries, i, entries[i].0@);
    if n == i + 1 {
    } else {
        lemma_map_of_first(entries, n - 1, i);
    }
}

impl TagValues {
    /// No values.
    pub fn new() -> (out: TagValues)
        ensures
            out@ == Map::<Seq<char>, Seq<char>>::empty(),
    {
        TagValues { entries: Vec::new() }
    }

    /// The value under `key`.
    pub fn get(&self, key: &str) -> (out: Option<String>)
        ensures
            match out {
                Some(v) => self@.contains_key(key@) && self@[key@] == v@,
                None => !self@.contains_key(key@),
            },
    {
        let wanted = chars_of(key);
        let mut i: usize = 0;
        while i < self.entries.len()
            invariant
                i <= self.entries.len(),
                wanted@ == key@,
                forall|j: int| 0 <= j < i ==> (#[trigger] self.entries@[j]).0@ != key@,
            decreases self.entries.len() - i,
        {
            if chars_equal(&chars_of(self.entries[i].0.as_str()), &wanted) {
                proof {
                    lemma_map_of_first(self.entries@, self.entries@.len() as int, i as int);
                }
                return Some(self.entries[i].1.clone());
            }
            i += 1;
        }
        proof {
            lemma_map_of_keys(self.entries@, self.entries@.len() as int, key@);
        }
        None
    }

    /// Whether there is a value under `key`.
    pub fn contains_key(&self, key: &str) -> (r: bool)
        ensures
            r == self@.contains_key(key@),
    {
        self.get(key).is_some()
    }

    /// Puts `value` under `key`, unless the key has a value already.
    pub fn insert_new(&mut self, key: String, value: String)
        ensures
            final(self)@ == if old(self)@.contains_key(key@) {
                old(self)@
            } else {
                old(self)@.insert(key@, value@)
            },
    {
        let ghost before = self.entries@;
        self.entries.push((key, value));
        proof {
            lemma_map_of_prefix(before, self.entries@, before.len() as int);
        }
    }
}

proof fn lemma_map_of_prefix(a: Seq<(String, String)>, b: Seq<(String, String)>, n: int)
    requires
        0 <= n <= a.len() <= b.len(),
        forall|i: int| 0 <= i < n ==> a[i] == b[i],
    ensures
        map_of(a, n) == map_of(b, n),
    decreases n,
{
    if n > 0 {
        lemma_map_of_prefix(a, b, n - 1);
    }
}

/// The key that a tag or attribute name stands for.
pub fn normalize_tag_name(tag: &Vec<char>) -> (out: Vec<char>)
    ensures
        out@ == tag_key(tag@),
{
    let mut start: usize = tag.len();
    assert(tag@.subrange(start as int, tag.len() as int) == Seq::<char>::empty());
    while start > 0 && tag[start - 1] != ':'
        invariant
            start <= tag.len(),
            after_last(tag@.subrange(start as int, tag.len() as int), ':') == tag@.subrange(
                start as int,
                tag.len() as int,
            ),
            forall|k: int| start <= k < tag.len() ==> tag@[k] != ':',
        decreases start,
    {
        start -= 1;
        proof {
            lemma_after_last_whole(tag@.subrange(start as int, tag.len() as int), ':');
        }
    }
    proof {
        lemma_after_last_split(tag@, ':', start as int);
    }
    let mut out: Vec<char> = Vec::new();
    let mut i: usize = start;
    assert(tag@.subrange(start as int, i as int) == Seq::<char>::empty());
    while i < tag.len()
        invariant
            start <= i <= tag.len(),
            out@ == lower(alnum_only(tag@.subrange(start as int, i as int))),
        decreases tag.len() - i,
    {
        let c = tag[i];
        proof {
            assert(tag@.subrange(start as int, i + 1).drop_last() == tag@.subrange(
                start as int,
                i as int,
            ));
            let kept = alnum_only(tag@.subrange(start as int, i as int));
            assert(lower(kept.push(c)) == lower(kept).push(crate::text::ascii_lower(c)));
        }
        if ('0' <= c && c <= '9') || ('a' <= c && c <= 'z') || ('A' <= c && c <= 'Z') {
            out.push(char_ascii_lower(c));
        }
        i += 1;
    }
    out
}

proof fn lemma_after_last_whole(s: Seq<char>, c: char)
    requires
        forall|k: int| 0 <= k < s.len() ==> s[k] != c,
    ensures
        after_last(s, c) == s,
    decreases s.len(),
{
    if s.len() > 0 {
        lemma_after_last_whole(s.drop_last(), c);
        assert(s.drop_last().push(s.last()) == s);
    }
}

proof fn lemma_after_last_split(s: Seq<char>, c: char, start: int)
    requires
        0 <= start <= s.len(),
        start > 0 ==> s[start - 1] == c,
        forall|k: int| start <= k < s.len() ==> s[k] != c,
    ensures
        after_last(s, c) == s.subrange(start, s.len() as int),
    decreases s.len() - start,
{
    if start == s.len() {
        assert(s.subrange(start, s.len() as int) == Seq::<char>::empty());
        if s.len() > 0 {
        }
    } else {
        lemma_after_last_split(s.drop_last(), c, start);
        assert(s.drop_last().subrange(start, s.len() - 1).push(s.last()) == s.subrange(
            start,
            s.len() as int,
        ));
    }
}

/// `input` with the five basic character references resolved.
pub fn html_unescape_basic(input: &Vec<char>) -> (out: Vec<char>)
    ensures
        out@ == unescaped(input@),
{
    let a = replace_all(input, "&amp;", "&");
    let b = replace_all(&a, "&lt;", "<");
    let c = replace_all(&b, "&gt;", ">");
    let d = replace_all(&c, "&quot;", "\"");
    replace_all(&d, "&apos;", "'")
}

fn key_is_target(key: &Vec<char>) -> (r: bool)
    ensures
        r == is_target_key(key@),
{
    chars_equal(key, &chars_of("datetimeoriginal")) || chars_equal(key, &chars_of("createdate"))
        || chars_equal(key, &chars_of("datecreated")) || chars_equal(key, &chars_of("make"))
        || chars_equal(key, &chars_of("model")) || chars_equal(key, &chars_of("lensmake"))
        || chars_equal(key, &chars_of("lensmodel")) || chars_equal(key, &chars_of("lens"))
        || chars_equal(key, &chars_of("filmsimulation")) || chars_equal(key, &chars_of("filmmode"))
        || chars_equal(key, &chars_of("filmsimulationname"))
}

fn put_value(values: &mut TagValues, raw_name: &Vec<char>, raw_value: &Vec<char>)
    ensures
        final(values)@ == with_value(old(values)@, raw_name@, raw_value@),
{
    let key = normalize_tag_name(raw_name);
    if !key_is_target(&key) {
        return ;
    }
    let key_text = string_of(&key);
    if values.contains_key(key_text.as_str()) {
        return ;
    }
    let value = trim_chars(raw_value, CharClass::Space);
    if value.len() == 0 {
        return ;
    }
    values.insert_new(key_text, string_of(&html_unescape_basic(&value)));
}

/// Takes the attributes of a tag into `values`.
pub fn collect_attribute_values(raw_tag: &Vec<char>, values: &mut TagValues)
    ensures
        final(values)@ == with_attributes(raw_tag@, old(values)@),
{
    let mut cursor: usize = scan_to(raw_tag, 0, Stop::Blank);
    loop
        invariant
            cursor <= raw_tag.len(),
            with_attributes(raw_tag@, old(values)@) == attributes_from(
                raw_tag@,
                cursor as int,
                values@,
            ),
        decreases raw_tag.len() - cursor,
    {
        let a = scan_to(raw_tag, cursor, Stop::NonBlank);
        if a >= raw_tag.len() || raw_tag[a] == '/' {
            return ;
        }
        let b = scan_to(raw_tag, a, Stop::NameEnd);
        if b == a {
            cursor = a + 1;
            continue ;
        }
        let c = scan_to(raw_tag, b, Stop::NonBlank);
        if c >= raw_tag.len() || raw_tag[c] != '=' {
            cursor = scan_to(raw_tag, c, Stop::Blank);
            continue ;
        }
        let d = scan_to(raw_tag, c + 1, Stop::NonBlank);
        if d >= raw_tag.len() {
            return ;
        }
        let name = copy_range(raw_tag, a, b);
        if raw_tag[d] == '"' || raw_tag[d] == '\'' {
            let e = scan_to(raw_tag, d + 1, Stop::Char(raw_tag[d]));
            if e >= raw_tag.len() {
                return ;
            }
            let value = copy_range(raw_tag, d + 1, e);
            put_value(values, &name, &value);
            cursor = e + 1;
        } else {
            let e = scan_to(raw_tag, d, Stop::Blank);
            let value = copy_range(raw_tag, d, e);
            put_value(values, &name, &value);
            cursor = e;
        }
    }
}

fn position_in(h: &Vec<char>, n: &Vec<char>, from: usize) -> (out: Option<usize>)
    requires
        from <= h.len(),
    ensures
        match out {
            Some(p) => position_of(h@, n@, from as int) == Some(p as int) && from <= p
                && p + n.len() <= h.len(),
            None => position_of(h@, n@, from as int) is None,
        },
{
    let found = find_from(h, n, from);
    proof {
        match found {
            Some(p) => {
                lemma_position_skips(h@, n@, from as int, p as int);
            },
            None => {
                lemma_position_none(h@, n@, from as int);
            },
        }
    }
    found
}

proof fn lemma_position_skips(h: Seq<char>, n: Seq<char>, from: int, p: int)
    requires
        0 <= from <= p,
        occurs_at(h, n, p),
        forall|j: int| from <= j < p ==> !#[trigger] occurs_at(h, n, j),
    ensures
        position_of(h, n, from) == Some(p),
    decreases p - from,
{
    if from < p {
        lemma_position_skips(h, n, from + 1, p);
    }
}

proof fn lemma_position_none(h: Seq<char>, n: Seq<char>, from: int)
    requires
        0 <= from,
        forall|j: int| from <= j ==> !#[trigger] occurs_at(h, n, j),
    ensures
        position_of(h, n, from) is None,
    decreases h.len() + 1 - from,
{
    if from <= h.len() {
        lemma_position_none(h, n, from + 1);
    }
}

fn put_element(xml: &Vec<char>, raw_tag: &Vec<char>, end: usize, values: &mut TagValues)
    requires
        end < xml.len(),
    ensures
        final(values)@ == with_element(xml@, raw_tag@, end as int, old(values)@),
{
    let a = scan_to(raw_tag, 0, Stop::NonSpace);
    let b = scan_to(raw_tag, a, Stop::Space);
    let name = copy_range(raw_tag, a, b);
    let key = normalize_tag_name(&name);
    if !key_is_target(&key) {
        return ;
    }
    let key_text = string_of(&key);
    if values.contains_key(key_text.as_str()) {
        return ;
    }
    let mut close = chars_of("</");
    append_chars(&mut close, &name);
    append_chars(&mut close, &chars_of(">"));
    match position_in(xml, &close, end + 1) {
        Some(pos) => {
            let content = trim_chars(&copy_range(xml, end + 1, pos), CharClass::Space);
            if content.len() > 0 {
                values.insert_new(key_text, string_of(&html_unescape_basic(&content)));
            }
        },
        None => {},
    }
}

/// The values that a sidecar text holds.
pub fn collect_tag_values(xml: &str) -> (out: TagValues)
    ensures
        out@ == tag_values(xml@),
{
    let text = chars_of(xml);
    let mut values = TagValues::new();
    let mut cursor: usize = 0;
    loop
        invariant
            cursor <= text.len(),
            text@ == xml@,
            tag_values(xml@) == tags_from(text@, cursor as int, values@),
        decreases text.len() - cursor,
    {
        let start = scan_to(&text, cursor, Stop::Char('<'));
        if start >= text.len() {
            return values;
        }
        let end = scan_to(&text, start, Stop::Char('>'));
        if end >= text.len() {
            return values;
        }
        let raw_tag = copy_range(&text, start + 1, end);
        if raw_tag.len() > 0 && (raw_tag[0] == '/' || raw_tag[0] == '?' || raw_tag[0] == '!') {
            cursor = end + 1;
            continue ;
        }
        collect_attribute_values(&raw_tag, &mut values);
        put_element(&text, &raw_tag, end, &mut values);
        cursor = end + 1;
    }
}

/// The value under the first of `keys`, from position `k` on, that has one.
pub open spec fn picked_value(values: Map<Seq<char>, Seq<char>>, keys: Seq<&str>, k: int) -> Option<
    Seq<char>,
>
    decreases keys.len() - k,
{
    if k < 0 || k >= keys.len() {
        None
    } else if values.contains_key(keys[k]@) {
        Some(values[keys[k]@])
    } else {
        picked_value(values, keys, k + 1)
    }
}

/// The value under the first of `keys` that has one.
pub fn pick_value(values: &TagValues, keys: &Vec<&str>) -> (out: Option<String>)
    ensures
        text_of(out) == picked_value(values@, keys@, 0),
{
    let mut k: usize = 0;
    while k < keys.len()
        invariant
            k <= keys.len(),
            picked_value(values@, keys@, 0) == picked_value(values@, keys@, k as int),
        decreases keys.len() - k,
    {
        let found = values.get(keys[k]);
        if found.is_some() {
            return found;
        }
        k += 1;
    }
    None
}

/// The keys that hold the capture time, in their order of priority.
pub open spec fn date_value_keys() -> Seq<&'static str> {
    seq!["datetimeoriginal", "createdate", "datecreated"]
}

/// The keys that hold the model of the lens, in their order of priority.
pub open spec fn lens_value_keys() -> Seq<&'static str> {
    seq!["lensmodel", "lens"]
}

/// The keys that hold the film simulation, in their order of priority.
pub open spec fn film_value_keys() -> Seq<&'static str> {
    seq!["filmsimulation", "filmmode", "filmsimulationname"]
}

/// The text fields of the metadata that the values of a sidecar give.
pub open spec fn values_match(values: Map<Seq<char>, Seq<char>>, out: PartialMetadata) -> bool {
    &&& text_of(out.camera_make) == trimmed(picked_value(values, seq!["make"], 0))
    &&& text_of(out.camera_model) == trimmed(picked_value(values, seq!["model"], 0))
    &&& text_of(out.lens_make) == trimmed(picked_value(values, seq!["lensmake"], 0))
    &&& text_of(out.lens_model) == trimmed(picked_value(values, lens_value_keys(), 0))
    &&& text_of(out.film_sim) == trimmed(picked_value(values, film_value_keys(), 0))
}

fn picked_and_trimmed(values: &TagValues, keys: &Vec<&str>) -> (out: Option<String>)
    ensures
        text_of(out) == trimmed(picked_value(values@, keys@, 0)),
{
    normalize(pick_value(values, keys))
}

/// The text, among the values of a sidecar, that holds the capture time.
pub fn values_date_text(values: &TagValues) -> (out: Option<String>)
    ensures
        text_of(out) == picked_value(values@, date_value_keys(), 0),
{
    let keys = vec!["datetimeoriginal", "createdate", "datecreated"];
    assert(keys@ =~= date_value_keys());
    pick_value(values, &keys)
}

/// The metadata that the values of a sidecar give, with the capture time as it was read from
/// their date text.
pub fn metadata_from_values(values: &TagValues, date: Option<CaptureDate>) -> (out: PartialMetadata)
    ensures
        out.date == date,
        values_match(values@, out),
{
    let make = vec!["make"];
    assert(make@ =~= seq!["make"]);
    let model = vec!["model"];
    assert(model@ =~= seq!["model"]);
    let lens_make = vec!["lensmake"];
    assert(lens_make@ =~= seq!["lensmake"]);
    let lens = vec!["lensmodel", "lens"];
    assert(lens@ =~= lens_value_keys());
    let film = vec!["filmsimulation", "filmmode", "filmsimulationname"];
    assert(film@ =~= film_value_keys());
    PartialMetadata {
        date,
        camera_make: picked_and_trimmed(values, &make),
        camera_model: picked_and_trimmed(values, &model),
        lens_make: picked_and_trimmed(values, &lens_make),
        lens_model: picked_and_trimmed(values, &lens),
        film_sim: picked_and_trimmed(values, &film),
    }
}

/// `date` is what reading the date text of a sidecar gives: nothing where there is no such
/// text, else the reading of the text.
pub open spec fn xmp_date_read(text: Option<Seq<char>>, date: Option<CaptureDate>) -> bool {
    match text {
        Some(t) => is_reading(t, xmp_date_formats(), date),
        None => date is None,
    }
}

/// The metadata that the text of a sidecar gives. The capture time is what reading the
/// sidecar's date text gives: it is there only where the sidecar holds a date text, and is then
/// a well-formed date.
pub fn read_xmp_metadata(xml: &str) -> (out: PartialMetadata)
    ensures
        values_match(tag_values(xml@), out),
        xmp_date_read(picked_value(tag_values(xml@), date_value_keys(), 0), out.date),
        out.date is Some ==> picked_value(tag_values(xml@), date_value_keys(), 0) is Some,
        out.date matches Some(d) ==> d.well_formed(),
{
    let values = collect_tag_values(xml);
    let date = match values_date_text(&values) {
        Some(raw) => parse_xmp_date(raw.as_str()),
        None => None,
    };
    metadata_from_values(&values, date)
}

} // verus!
