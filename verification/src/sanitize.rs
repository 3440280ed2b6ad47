use crate::text::{
    append_chars, char_is_control, char_is_space, chars_equal, chars_of, copy_range,
    equal_ignoring_ascii_case, find_from, is_control, is_space, occurs_at, same_ignoring_ascii_case,
    string_of, trim, trim_chars, trim_end, trim_end_chars, upper, upper_chars, CharClass,
};
use vstd::prelude::*;

verus! {

/// A character that a run is made of: white space, and in the wide form `-` and `_` too.
pub open spec fn is_run_char(c: char, wide: bool) -> bool {
    is_space(c) || (wide && (c == '-' || c == '_'))
}

/// `s` with every maximal run of run characters replaced by one `sep`.
pub open spec fn squeezed(s: Seq<char>, wide: bool, sep: char) -> Seq<char>
    decreases s.len(),
{
    if s.len() == 0 {
        Seq::empty()
    } else {
        let head = squeezed(s.drop_last(), wide, sep);
        let c = s.last();
        if !is_run_char(c, wide) {
            head.push(c)
        } else if s.len() >= 2 && is_run_char(s[s.len() - 2], wide) {
            head
        } else {
            head.push(sep)
        }
    }
}

/// A separator that a cleanup collapses: `_`, `-` or a blank.
pub open spec fn is_joiner(c: char) -> bool {
    c == '_' || c == '-' || c == ' '
}

/// `s` without the joiners that repeat the character before them.
pub open spec fn without_repeated_joiners(s: Seq<char>) -> Seq<char>
    decreases s.len(),
{
    if s.len() == 0 {
        Seq::empty()
    } else {
        let head = without_repeated_joiners(s.drop_last());
        let c = s.last();
        if is_joiner(c) && s.len() >= 2 && s[s.len() - 2] == c {
            head
        } else {
            head.push(c)
        }
    }
}

/// What `cleanup_filename` returns.
pub open spec fn cleaned(s: Seq<char>) -> Seq<char> {
    trim(without_repeated_joiners(s), CharClass::NameEdge)
}

/// Characters that no file name may hold.
pub open spec fn is_illegal(c: char) -> bool {
    c == '\\' || c == '/' || c == ':' || c == '*' || c == '?' || c == '"' || c == '<' || c == '>'
        || c == '|' || is_control(c)
}

/// `s` with `_` in the place of each character that no file name may hold.
pub open spec fn legal(s: Seq<char>) -> Seq<char> {
    s.map_values(
        |c: char|
            if is_illegal(c) {
                '_'
            } else {
                c
            },
    )
}

/// The part of `s` before its first dot; all of `s` where it has none.
pub open spec fn before_first_dot(s: Seq<char>) -> Seq<char>
    decreases s.len(),
{
    if s.len() == 0 || s[0] == '.' {
        Seq::empty()
    } else {
        seq![s[0]] + before_first_dot(s.drop_first())
    }
}

/// `t` is one of the device names CON, PRN, AUX, NUL, COM1 to COM9 and LPT1 to LPT9.
pub open spec fn is_device_name(t: Seq<char>) -> bool {
    ||| t == "CON"@
    ||| t == "PRN"@
    ||| t == "AUX"@
    ||| t == "NUL"@
    ||| (t.len() == 4 && (t.take(3) == "COM"@ || t.take(3) == "LPT"@) && '1' <= t[3] <= '9')
}

/// The name up to its first dot is a reserved device name, whatever its case.
pub open spec fn is_reserved(s: Seq<char>) -> bool {
    is_device_name(upper(before_first_dot(s)))
}

/// What `sanitize_filename` returns.
pub open spec fn sanitized(s: Seq<char>) -> Seq<char> {
    let t = trim(trim_end(legal(s), CharClass::DotOrBlank), CharClass::Space);
    let u = if t.len() == 0 {
        "untitled"@
    } else {
        t
    };
    if is_reserved(u) {
        u + "_file"@
    } else {
        u
    }
}

/// `p` is a place to cut `s` at an underscore so that the rest fits.
pub open spec fn is_cut(s: Seq<char>, ext_len: int, limit: int, p: int) -> bool {
    0 <= p < s.len() && s[p] == '_' && p + ext_len <= limit
}

/// What `truncate_filename_if_needed` returns for a name of characters `s`, an extension of
/// `ext_len` characters and a limit of `limit` characters.
pub open spec fn truncated(s: Seq<char>, ext_len: int, limit: int) -> Seq<char> {
    if s.len() + ext_len <= limit {
        s
    } else if exists|p: int| is_cut(s, ext_len, limit, p) {
        let p = choose|p: int|
            is_cut(s, ext_len, limit, p) && forall|q: int| is_cut(s, ext_len, limit, q) ==> q <= p;
        s.take(p)
    } else if limit >= ext_len {
        s.take(limit - ext_len)
    } else {
        Seq::empty()
    }
}

fn squeeze(v: &Vec<char>, wide: bool, sep: char) -> (out: Vec<char>)
    ensures
        out@ == squeezed(v@, wide, sep),
{
    let mut out: Vec<char> = Vec::new();
    let mut in_run = false;
    let mut i: usize = 0;
    while i < v.len()
        invariant
            i <= v.len(),
            out@ == squeezed(v@.take(i as int), wide, sep),
            in_run == (i > 0 && is_run_char(v@[i - 1], wide)),
        decreases v.len() - i,
    {
        let c = v[i];
        let run = char_is_space(c) || (wide && (c == '-' || c == '_'));
        proof {
            assert(v@.take(i + 1).drop_last() == v@.take(i as int));
        }
        if run {
            if !in_run {
                out.push(sep);
                in_run = true;
            }
        } else {
            in_run = false;
            out.push(c);
        }
        i += 1;
    }
    assert(v@.take(v.len() as int) == v@);
    out
}

/// `value` with each run of white space turned into one `_`.
pub fn normalize_spaces_to_underscore(value: &str) -> (out: String)
    ensures
        out@ == squeezed(value@, false, '_'),
{
    let v = chars_of(value);
    string_of(&squeeze(&v, false, '_'))
}

/// `term` with each run of white space, `-` and `_` turned into one `separator`.
pub fn normalize_separator_variant(term: &Vec<char>, separator: char) -> (out: Vec<char>)
    ensures
        out@ == squeezed(term@, true, separator),
{
    squeeze(term, true, separator)
}

/// `term` with each run of white space turned into one `separator`.
pub fn replace_whitespace_runs(term: &Vec<char>, separator: char) -> (out: Vec<char>)
    ensures
        out@ == squeezed(term@, false, separator),
{
    squeeze(term, false, separator)
}

/// Whether `ch` is a separator that a cleanup collapses.
pub fn is_collapse_separator(ch: char) -> (r: bool)
    ensures
        r == is_joiner(ch),
{
    ch == '_' || ch == '-' || ch == ' '
}

/// Whether `ch` is a character that no file name may hold.
pub fn is_disallowed_char(ch: char) -> (r: bool)
    ensures
        r == is_illegal(ch),
{
    ch == '\\' || ch == '/' || ch == ':' || ch == '*' || ch == '?' || ch == '"' || ch == '<' || ch
        == '>' || ch == '|' || ch == '\0' || char_is_control(ch)
}

/// `value` without repeated separators, and without separators and dots at its ends.
pub fn cleanup_filename(value: &str) -> (out: String)
    ensures
        out@ == cleaned(value@),
{
    let v = chars_of(value);
    let mut kept: Vec<char> = Vec::new();
    let mut prev_sep: Option<char> = None;
    let mut i: usize = 0;
    while i < v.len()
        invariant
            i <= v.len(),
            kept@ == without_repeated_joiners(v@.take(i as int)),
            prev_sep == if i > 0 && is_joiner(v@[i - 1]) {
                Some(v@[i - 1])
            } else {
                None::<char>
            },
        decreases v.len() - i,
    {
        let ch = v[i];
        proof {
            assert(v@.take(i + 1).drop_last() == v@.take(i as int));
        }
        if is_collapse_separator(ch) {
            let repeated = match prev_sep {
                Some(p) => p == ch,
                None => false,
            };
            if !repeated {
                kept.push(ch);
            }
            prev_sep = Some(ch);
        } else {
            prev_sep = None;
            kept.push(ch);
        }
        i += 1;
    }
    assert(v@.take(v.len() as int) == v@);
    string_of(&trim_chars(&kept, CharClass::NameEdge))
}

fn stem_before_dot(v: &Vec<char>) -> (out: Vec<char>)
    ensures
        out@ == before_first_dot(v@),
{
    let mut i: usize = 0;
    assert(v@.subrange(0, v.len() as int) == v@);
    while i < v.len() && v[i] != '.'
        invariant
            i <= v.len(),
            before_first_dot(v@) == v@.take(i as int) + before_first_dot(
                v@.subrange(i as int, v.len() as int),
            ),
        decreases v.len() - i,
    {
        let ghost rest = v@.subrange(i as int, v.len() as int);
        assert(rest.drop_first() == v@.subrange(i + 1, v.len() as int));
        assert(v@.take(i as int) + seq![rest[0]] == v@.take(i + 1));
        assert(v@.take(i as int) + (seq![rest[0]] + before_first_dot(rest.drop_first()))
            == v@.take(i as int) + seq![rest[0]] + before_first_dot(rest.drop_first()));
        i += 1;
    }
    assert(before_first_dot(v@.subrange(i as int, v.len() as int)) == Seq::<char>::empty());
    assert(v@.take(i as int) + Seq::<char>::empty() == v@.take(i as int));
    copy_range(v, 0, i)
}

/// Whether the name up to its first dot is a reserved device name.
pub fn is_windows_reserved(value: &Vec<char>) -> (r: bool)
    ensures
        r == is_reserved(value@),
{
    let stem = upper_chars(&stem_before_dot(value));
    if chars_equal(&stem, &chars_of("CON")) || chars_equal(&stem, &chars_of("PRN")) || chars_equal(
        &stem,
        &chars_of("AUX"),
    ) || chars_equal(&stem, &chars_of("NUL")) {
        return true;
    }
    if stem.len() != 4 {
        proof {
            reveal_strlit("CON");
            reveal_strlit("PRN");
            reveal_strlit("AUX");
            reveal_strlit("NUL");
        }
        return false;
    }
    let head = copy_range(&stem, 0, 3);
    let digit = stem[3];
    proof {
        reveal_strlit("CON");
        reveal_strlit("PRN");
        reveal_strlit("AUX");
        reveal_strlit("NUL");
    }
    (chars_equal(&head, &chars_of("COM")) || chars_equal(&head, &chars_of("LPT"))) && '1' <= digit
        && digit <= '9'
}

/// `value` as a file name: illegal characters replaced, dots and blanks at the end taken off,
/// `untitled` for an empty name, and `_file` behind a reserved device name.
pub fn sanitize_filename(value: &str) -> (out: String)
    ensures
        out@ == sanitized(value@),
{
    let v = chars_of(value);
    let mut mapped: Vec<char> = Vec::new();
    let mut i: usize = 0;
    while i < v.len()
        invariant
            i <= v.len(),
            mapped@ == legal(v@.take(i as int)),
        decreases v.len() - i,
    {
        let ch = v[i];
        if is_disallowed_char(ch) {
            mapped.push('_');
        } else {
            mapped.push(ch);
        }
        assert(legal(v@.take(i + 1)) == legal(v@.take(i as int)).push(
            if is_illegal(ch) {
                '_'
            } else {
                ch
            },
        ));
        i += 1;
    }
    assert(v@.take(v.len() as int) == v@);
    let mut name = trim_chars(&trim_end_chars(&mapped, CharClass::DotOrBlank), CharClass::Space);
    if name.len() == 0 {
        name = chars_of("untitled");
    }
    if is_windows_reserved(&name) {
        append_chars(&mut name, &chars_of("_file"));
    }
    string_of(&name)
}

/// The name of `name` shortened so that, with an extension of `ext_len` characters, it has at
/// most `limit` characters: cut at the last underscore that makes it fit, else cut off at the
/// limit.
pub fn truncate_chars(name: &Vec<char>, ext_len: usize, limit: usize) -> (out: Vec<char>)
    ensures
        out@ == truncated(name@, ext_len as int, limit as int),
{
    if ext_len <= limit && name.len() <= limit - ext_len {
        return copy_range(name, 0, name.len());
    }
    let mut p: usize = name.len();
    while p > 0
        invariant
            p <= name.len(),
            name.len() + ext_len > limit,
            forall|q: int| p <= q ==> !is_cut(name@, ext_len as int, limit as int, q),
        decreases p,
    {
        p -= 1;
        if name[p] == '_' && ext_len <= limit && p <= limit - ext_len {
            assert(is_cut(name@, ext_len as int, limit as int, p as int));
            let ghost w = choose|w: int|
                is_cut(name@, ext_len as int, limit as int, w) && forall|q: int|
                    is_cut(name@, ext_len as int, limit as int, q) ==> q <= w;
            assert(is_cut(name@, ext_len as int, limit as int, w) && forall|q: int|
                is_cut(name@, ext_len as int, limit as int, q) ==> q <= w) by {
                assert(forall|q: int|
                    is_cut(name@, ext_len as int, limit as int, q) ==> q <= p as int);
            }
            assert(w == p);
            return copy_range(name, 0, p);
        }
    }
    let keep: usize = if limit >= ext_len {
        limit - ext_len
    } else {
        0
    };
    assert(keep <= name.len());
    copy_range(name, 0, keep)
}

/// A name shortened so that, with its extension, it has at most `limit` characters.
pub fn truncate_filename_if_needed(
    filename_without_ext: &str,
    extension_with_dot: &str,
    limit: usize,
) -> (out: String)
    ensures
        out@ == truncated(filename_without_ext@, extension_with_dot@.len() as int, limit as int),
{
    let name = chars_of(filename_without_ext);
    let ext_len = extension_with_dot.unicode_len();
    string_of(&truncate_chars(&name, ext_len, limit))
}

/// What `str::to_lowercase` returns for a text: its lower-case form by the Unicode rules.
pub uninterp spec fn lowercase_of(s: Seq<char>) -> Seq<char>;

/// The lower-case form of `s` (`str::to_lowercase`). What that form is, the library takes from
/// the standard library under the name `lowercase_of`.
#[verifier::external_body]
pub(crate) fn to_lowercase(s: &str) -> (out: String)
    ensures
        out@ == lowercase_of(s@),
{
    s.to_lowercase()
}

/// `h` from position `from` on, without the places where `ln` stands in `lh`, found from the
/// left and not overlapping.
pub open spec fn without_matches(h: Seq<char>, lh: Seq<char>, ln: Seq<char>, from: int) -> Seq<
    char,
>
    decreases lh.len() - from,
{
    if from < 0 || from >= lh.len() || from >= h.len() || ln.len() == 0 {
        Seq::empty()
    } else if occurs_at(lh, ln, from) {
        without_matches(h, lh, ln, from + ln.len())
    } else {
        seq![h[from]] + without_matches(h, lh, ln, from + 1)
    }
}

/// `h` without the places where `ln` stands in `lh`, where `lh` has as many characters as `h`
/// and `ln` is not empty; else `h` itself.
pub open spec fn cut_out(h: Seq<char>, lh: Seq<char>, ln: Seq<char>) -> Seq<char> {
    if ln.len() == 0 || lh.len() != h.len() {
        h
    } else {
        without_matches(h, lh, ln, 0)
    }
}

/// `h` without the places where `n` stands in it, whatever the case of either.
pub open spec fn stripped(h: Seq<char>, n: Seq<char>) -> Seq<char> {
    cut_out(h, lowercase_of(h), lowercase_of(n))
}

proof fn lemma_no_match_keeps(h: Seq<char>, lh: Seq<char>, ln: Seq<char>, from: int, to: int)
    requires
        h.len() == lh.len(),
        ln.len() > 0,
        0 <= from <= to <= h.len(),
        forall|j: int| from <= j < to ==> !#[trigger] occurs_at(lh, ln, j),
    ensures
        without_matches(h, lh, ln, from) == h.subrange(from, to) + without_matches(h, lh, ln, to),
    decreases to - from,
{
    if from == to {
        assert(h.subrange(from, to) + without_matches(h, lh, ln, to) == without_matches(
            h,
            lh,
            ln,
            to,
        ));
    } else {
        lemma_no_match_keeps(h, lh, ln, from + 1, to);
        assert(!occurs_at(lh, ln, from));
        assert(seq![h[from]] + (h.subrange(from + 1, to) + without_matches(h, lh, ln, to))
            == h.subrange(from, to) + without_matches(h, lh, ln, to));
    }
}

/// Cuts out of `h` the places where `ln` stands in `lh`: the two lower-case forms are handed in.
pub fn remove_matches(h: &Vec<char>, lh: &Vec<char>, ln: &Vec<char>) -> (out: Vec<char>)
    ensures
        out@ == cut_out(h@, lh@, ln@),
{
    if ln.len() == 0 || lh.len() != h.len() {
        return copy_range(h, 0, h.len());
    }
    let mut out: Vec<char> = Vec::new();
    let mut cursor: usize = 0;
    loop
        invariant
            cursor <= h.len(),
            h.len() == lh.len(),
            ln.len() > 0,
            without_matches(h@, lh@, ln@, 0) == out@ + without_matches(h@, lh@, ln@, cursor as int),
        decreases h.len() - cursor,
    {
        match find_from(lh, ln, cursor) {
            Some(pos) => {
                proof {
                    lemma_no_match_keeps(h@, lh@, ln@, cursor as int, pos as int);
                    assert(out@ + (h@.subrange(cursor as int, pos as int) + without_matches(
                        h@,
                        lh@,
                        ln@,
                        pos as int,
                    )) == out@ + h@.subrange(cursor as int, pos as int) + without_matches(
                        h@,
                        lh@,
                        ln@,
                        pos as int,
                    ));
                }
                let piece = copy_range(h, cursor, pos);
                append_chars(&mut out, &piece);
                cursor = pos + ln.len();
            },
            None => {
                proof {
                    lemma_no_match_keeps(h@, lh@, ln@, cursor as int, h.len() as int);
                    assert(out@ + (h@.subrange(cursor as int, h.len() as int) + Seq::<
                        char,
                    >::empty()) == out@ + h@.subrange(cursor as int, h.len() as int));
                }
                let piece = copy_range(h, cursor, h.len());
                append_chars(&mut out, &piece);
                return out;
            },
        }
    }
}

/// `haystack` without the places where `needle` stands in it, whatever the case of either. Where
/// the lower-case form of `haystack` has another number of characters, `haystack` is left as it is.
pub fn replace_case_insensitive(haystack: &Vec<char>, needle: &Vec<char>) -> (out: Vec<char>)
    ensures
        out@ == stripped(haystack@, needle@),
{
    let lower_hay = chars_of(to_lowercase(string_of(haystack).as_str()).as_str());
    let lower_needle = chars_of(to_lowercase(string_of(needle).as_str()).as_str());
    remove_matches(haystack, &lower_hay, &lower_needle)
}

/// `s` with every full-width plus sign replaced by `+`.
pub open spec fn plus_normalized(s: Seq<char>) -> Seq<char> {
    s.map_values(
        |c: char|
            if c == '\u{ff0b}' {
                '+'
            } else {
                c
            },
    )
}

/// From position `i` on, `s` holds a `+` after nothing but white space, `-` and `_`.
pub open spec fn plus_follows(s: Seq<char>, i: int) -> bool
    decreases s.len() - i,
{
    if i < 0 || i >= s.len() {
        false
    } else if s[i] == '+' {
        true
    } else if is_run_char(s[i], true) {
        plus_follows(s, i + 1)
    } else {
        false
    }
}

/// `s` from position `i` on, without the white space, `-` and `_` that lead up to a `+`.
pub open spec fn compacted_from(s: Seq<char>, i: int) -> Seq<char>
    decreases s.len() - i,
{
    if i < 0 || i >= s.len() {
        Seq::empty()
    } else if is_run_char(s[i], true) && plus_follows(s, i) {
        compacted_from(s, i + 1)
    } else {
        seq![s[i]] + compacted_from(s, i + 1)
    }
}

/// `s` without the white space, `-` and `_` that lead up to a `+`.
pub open spec fn compacted(s: Seq<char>) -> Seq<char> {
    compacted_from(s, 0)
}

/// The character at `i` is a `+` with a character after it that is neither white space, `-`,
/// `_` nor `+`.
pub open spec fn needs_gap(s: Seq<char>, i: int) -> bool {
    0 <= i && i + 1 < s.len() && s[i] == '+' && !(is_run_char(s[i + 1], true) || s[i + 1] == '+')
}

/// The first `n` characters of `s`, with `sep` put after each `+` that needs a gap.
pub open spec fn gapped_upto(s: Seq<char>, sep: char, n: int) -> Seq<char>
    decreases n,
{
    if n <= 0 {
        Seq::empty()
    } else {
        let head = gapped_upto(s, sep, n - 1).push(s[n - 1]);
        if needs_gap(s, n - 1) {
            head.push(sep)
        } else {
            head
        }
    }
}

/// `s` with `sep` put after each `+` that needs a gap.
pub open spec fn gapped(s: Seq<char>, sep: char) -> Seq<char> {
    gapped_upto(s, sep, s.len() as int)
}

/// `input` with every full-width plus sign replaced by `+`.
pub fn normalize_plus_char(input: &Vec<char>) -> (out: Vec<char>)
    ensures
        out@ == plus_normalized(input@),
{
    let mut out: Vec<char> = Vec::new();
    let mut i: usize = 0;
    while i < input.len()
        invariant
            i <= input.len(),
            out@ == plus_normalized(input@.take(i as int)),
        decreases input.len() - i,
    {
        let ch = input[i];
        if ch == '\u{ff0b}' {
            out.push('+');
        } else {
            out.push(ch);
        }
        assert(plus_normalized(input@.take(i + 1)) == plus_normalized(input@.take(i as int)).push(
            if ch == '\u{ff0b}' {
                '+'
            } else {
                ch
            },
        ));
        i += 1;
    }
    assert(input@.take(input.len() as int) == input@);
    out
}

fn plus_is_next(input: &Vec<char>, i: usize) -> (r: bool)
    ensures
        r == plus_follows(input@, i as int),
{
    let mut j: usize = i;
    while j < input.len() && input[j] != '+' && (char_is_space(input[j]) || input[j] == '-'
        || input[j] == '_')
        invariant
            i <= j,
            plus_follows(input@, i as int) == plus_follows(input@, j as int),
        decreases input.len() - j,
    {
        j += 1;
    }
    j < input.len() && input[j] == '+'
}

/// `input` without the white space, `-` and `_` that lead up to a `+`.
pub fn compact_separator_before_plus(input: &Vec<char>) -> (out: Vec<char>)
    ensures
        out@ == compacted(input@),
{
    let mut out: Vec<char> = Vec::new();
    let mut i: usize = 0;
    while i < input.len()
        invariant
            i <= input.len(),
            compacted(input@) == out@ + compacted_from(input@, i as int),
        decreases input.len() - i,
    {
        let ch = input[i];
        let run = char_is_space(ch) || ch == '-' || ch == '_';
        if !(run && plus_is_next(input, i)) {
            proof {
                assert(out@ + (seq![ch] + compacted_from(input@, i + 1)) == out@.push(ch)
                    + compacted_from(input@, i + 1));
            }
            out.push(ch);
        }
        i += 1;
    }
    assert(out@ + Seq::<char>::empty() == out@);
    out
}

/// `input` with `separator` put after each `+` that is followed by a character other than white
/// space, `-`, `_` and `+`.
pub fn ensure_separator_after_plus(input: &Vec<char>, separator: char) -> (out: Vec<char>)
    ensures
        out@ == gapped(input@, separator),
{
    let mut out: Vec<char> = Vec::new();
    let mut i: usize = 0;
    while i < input.len()
        invariant
            i <= input.len(),
            out@ == gapped_upto(input@, separator, i as int),
        decreases input.len() - i,
    {
        let ch = input[i];
        out.push(ch);
        if ch == '+' && i + 1 < input.len() {
            let n = input[i + 1];
            if !(char_is_space(n) || n == '-' || n == '_' || n == '+') {
                out.push(separator);
            }
        }
        i += 1;
    }
    out
}

/// The texts that a list of character vectors holds.
pub open spec fn views(list: Seq<Vec<char>>) -> Seq<Seq<char>> {
    list.map_values(|v: Vec<char>| v@)
}

/// `v` stands in `list`, whatever the case of its ASCII letters.
pub open spec fn listed(list: Seq<Seq<char>>, v: Seq<char>) -> bool {
    exists|i: int| 0 <= i < list.len() && same_ignoring_ascii_case(#[trigger] list[i], v)
}

/// `list` with `v` at its end, unless `v` is empty or stands in it already.
pub open spec fn with_unique(list: Seq<Seq<char>>, v: Seq<char>) -> Seq<Seq<char>> {
    if v.len() == 0 || listed(list, v) {
        list
    } else {
        list.push(v)
    }
}

/// Puts `value` at the end of `values`, unless it is empty or stands there already, whatever the
/// case of its ASCII letters.
pub fn push_unique_case_insensitive(values: &mut Vec<Vec<char>>, value: Vec<char>)
    ensures
        views(final(values)@) == with_unique(views(old(values)@), value@),
{
    if value.len() == 0 {
        return ;
    }
    let mut i: usize = 0;
    while i < values.len()
        invariant
            i <= values.len(),
            *values == *old(values),
            forall|j: int| 0 <= j < i ==> !same_ignoring_ascii_case(#[trigger] values@[j]@, value@),
        decreases values.len() - i,
    {
        if equal_ignoring_ascii_case(&values[i], &value) {
            assert(same_ignoring_ascii_case(views(values@)[i as int], value@));
            return ;
        }
        i += 1;
    }
    assert(!listed(views(values@), value@)) by {
        if listed(views(values@), value@) {
            let k = choose|k: int|
                0 <= k < views(values@).len() && same_ignoring_ascii_case(
                    #[trigger] views(values@)[k],
                    value@,
                );
            assert(views(values@)[k] == values@[k]@);
        }
    }
    values.push(value);
    assert(views(values@) == views(old(values)@).push(value@));
}

/// The first forms of an exclusion term: the term itself, and the term with its runs of white
/// space, or of white space, `-` and `_`, turned into one `-` or one `_`.
pub open spec fn base_variants(term: Seq<char>) -> Seq<Seq<char>> {
    let c = plus_normalized(term);
    with_unique(
        with_unique(
            with_unique(
                with_unique(with_unique(Seq::empty(), c), squeezed(c, false, '-')),
                squeezed(c, false, '_'),
            ),
            squeezed(c, true, '-'),
        ),
        squeezed(c, true, '_'),
    )
}

/// `acc` with the three forms of `v` around `+`.
pub open spec fn widened(acc: Seq<Seq<char>>, v: Seq<char>) -> Seq<Seq<char>> {
    with_unique(with_unique(with_unique(acc, compacted(v)), gapped(v, '-')), gapped(v, '_'))
}

/// `acc` widened by the first `n` texts of `from`.
pub open spec fn widened_by(acc: Seq<Seq<char>>, from: Seq<Seq<char>>, n: int) -> Seq<Seq<char>>
    decreases n,
{
    if n <= 0 {
        acc
    } else {
        widened(widened_by(acc, from, n - 1), from[n - 1])
    }
}

/// All the forms under which an exclusion term is looked for.
pub open spec fn variants(term: Seq<char>) -> Seq<Seq<char>> {
    let base = base_variants(term);
    widened_by(base, base, base.len() as int)
}

proof fn lemma_with_unique_prefix(list: Seq<Seq<char>>, v: Seq<char>, k: int)
    requires
        0 <= k <= list.len(),
    ensures
        with_unique(list, v).len() >= list.len(),
        with_unique(list, v).take(k) == list.take(k),
{
}

/// All the forms under which an exclusion term is looked for.
pub fn build_exclusion_variants(term: &Vec<char>) -> (out: Vec<Vec<char>>)
    ensures
        views(out@) == variants(term@),
{
    let mut out: Vec<Vec<char>> = Vec::new();
    let canonical = normalize_plus_char(term);
    assert(views(out@) == Seq::<Seq<char>>::empty());
    let first = copy_range(&canonical, 0, canonical.len());
    assert(first@ == canonical@);
    push_unique_case_insensitive(&mut out, first);
    push_unique_case_insensitive(&mut out, replace_whitespace_runs(&canonical, '-'));
    push_unique_case_insensitive(&mut out, replace_whitespace_runs(&canonical, '_'));
    push_unique_case_insensitive(&mut out, normalize_separator_variant(&canonical, '-'));
    push_unique_case_insensitive(&mut out, normalize_separator_variant(&canonical, '_'));
    let count = out.len();
    let ghost base = views(out@);
    assert(base == base_variants(term@));
    let mut k: usize = 0;
    while k < count
        invariant
            k <= count,
            count == base.len(),
            count <= out.len(),
            views(out@).take(count as int) == base,
            views(out@) == widened_by(base, base, k as int),
        decreases count - k,
    {
        let value = copy_range(&out[k], 0, out[k].len());
        assert(value@ == base[k as int]) by {
            assert(views(out@).take(count as int)[k as int] == out@[k as int]@);
        }
        let ghost a0 = views(out@);
        push_unique_case_insensitive(&mut out, compact_separator_before_plus(&value));
        let ghost a1 = views(out@);
        push_unique_case_insensitive(&mut out, ensure_separator_after_plus(&value, '-'));
        let ghost a2 = views(out@);
        push_unique_case_insensitive(&mut out, ensure_separator_after_plus(&value, '_'));
        proof {
            lemma_with_unique_prefix(a0, compacted(value@), count as int);
            lemma_with_unique_prefix(a1, gapped(value@, '-'), count as int);
            lemma_with_unique_prefix(a2, gapped(value@, '_'), count as int);
        }
        k += 1;
    }
    out
}

/// `value` after the first `n` texts of `forms` were cut out of it, one after the other.
pub open spec fn stripped_of(value: Seq<char>, forms: Seq<Seq<char>>, n: int) -> Seq<char>
    decreases n,
{
    if n <= 0 {
        value
    } else {
        stripped(stripped_of(value, forms, n - 1), forms[n - 1])
    }
}

/// `value` without one exclusion term, in all its forms; a term of white space alone changes
/// nothing.
pub open spec fn without_term(value: Seq<char>, term: Seq<char>) -> Seq<char> {
    let t = trim(term, CharClass::Space);
    if t.len() == 0 {
        value
    } else {
        stripped_of(value, variants(t), variants(t).len() as int)
    }
}

/// `value` without the first `n` exclusion terms.
pub open spec fn excluded(value: Seq<char>, terms: Seq<String>, n: int) -> Seq<char>
    decreases n,
{
    if n <= 0 {
        value
    } else {
        without_term(excluded(value, terms, n - 1), terms[n - 1]@)
    }
}

/// `value` without the exclusion terms, each cut out in all its forms, one term after the other.
pub fn apply_exclusions(value: String, exclusions: &[String]) -> (out: String)
    ensures
        out@ == excluded(value@, exclusions@, exclusions@.len() as int),
{
    let mut current = chars_of(value.as_str());
    let mut i: usize = 0;
    while i < exclusions.len()
        invariant
            i <= exclusions.len(),
            current@ == excluded(value@, exclusions@, i as int),
        decreases exclusions.len() - i,
    {
        let term = trim_chars(&chars_of(exclusions[i].as_str()), CharClass::Space);
        if term.len() > 0 {
            let forms = build_exclusion_variants(&term);
            let ghost start = current@;
            let mut k: usize = 0;
            while k < forms.len()
                invariant
                    k <= forms.len(),
                    views(forms@) == variants(term@),
                    current@ == stripped_of(start, views(forms@), k as int),
                decreases forms.len() - k,
            {
                current = replace_case_insensitive(&current, &forms[k]);
                k += 1;
            }
        }
        i += 1;
    }
    string_of(&current)
}

/// Two names that begin alike and differ only behind an underscore, in characters that are
/// no underscores, are shortened to the same name where neither fits.
pub proof fn lemma_truncated_ignores_what_is_cut_off(
    base: Seq<char>,
    first: Seq<char>,
    second: Seq<char>,
    ext_len: int,
    limit: int,
)
    requires
        forall|i: int| 0 <= i < first.len() ==> #[trigger] first[i] != '_',
        forall|i: int| 0 <= i < second.len() ==> #[trigger] second[i] != '_',
        base.len() + 1 + first.len() + ext_len > limit,
        base.len() + 1 + second.len() + ext_len > limit,
        ext_len >= 0,
    ensures
        truncated(base + seq!['_'] + first, ext_len, limit) == truncated(
            base + seq!['_'] + second,
            ext_len,
            limit,
        ),
{
    let a = base + seq!['_'] + first;
    let b = base + seq!['_'] + second;
    let n = base.len() as int;
    assert(a[n] == '_' && b[n] == '_');
    assert forall|p: int| is_cut(a, ext_len, limit, p) == is_cut(b, ext_len, limit, p) by {
        if 0 <= p < n {
            assert(a[p] == base[p] && b[p] == base[p]);
        } else if p > n {
            if p < a.len() {
                assert(a[p] == first[p - n - 1]);
            }
            if p < b.len() {
                assert(b[p] == second[p - n - 1]);
            }
        }
    }
    if exists|p: int| is_cut(a, ext_len, limit, p) {
        let w = choose|p: int| is_cut(a, ext_len, limit, p);
        assert(is_cut(b, ext_len, limit, w));
        lemma_longest_cut_exists(a, ext_len, limit, w);
        lemma_longest_cut_exists(b, ext_len, limit, w);
        let pa = choose|p: int|
            is_cut(a, ext_len, limit, p) && forall|q: int| is_cut(a, ext_len, limit, q) ==> q <= p;
        let pb = choose|p: int|
            is_cut(b, ext_len, limit, p) && forall|q: int| is_cut(b, ext_len, limit, q) ==> q <= p;
        assert(is_cut(b, ext_len, limit, pa));
        assert(is_cut(a, ext_len, limit, pb));
        assert(pa == pb);
        assert(pa <= n) by {
            if pa > n {
                assert(a[pa] == first[pa - n - 1]);
            }
        }
        assert(a.take(pa) =~= b.take(pa));
    } else {
        assert(!is_cut(a, ext_len, limit, n));
        assert(!is_cut(b, ext_len, limit, n));
        if limit >= ext_len {
            assert(a.take(limit - ext_len) =~= b.take(limit - ext_len));
        }
    }
}

proof fn lemma_longest_cut_exists(s: Seq<char>, ext_len: int, limit: int, p: int)
    requires
        is_cut(s, ext_len, limit, p),
    ensures
        exists|w: int|
            is_cut(s, ext_len, limit, w) && forall|q: int| is_cut(s, ext_len, limit, q) ==> q <= w,
    decreases s.len() - p,
{
    if exists|q: int| is_cut(s, ext_len, limit, q) && q > p {
        let q = choose|q: int| is_cut(s, ext_len, limit, q) && q > p;
        lemma_longest_cut_exists(s, ext_len, limit, q);
    } else {
        assert(is_cut(s, ext_len, limit, p) && forall|q: int|
            is_cut(s, ext_len, limit, q) ==> q <= p);
    }
}

} // verus!
