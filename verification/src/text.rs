use vstd::prelude::*;

verus! {

/// Appends one character to a string (`String::push`): the new contents are the old ones
/// followed by `c`.
#[verifier::external_body]
pub(crate) fn push_char(s: &mut String, c: char)
    ensures
        final(s)@ == old(s)@.push(c),
{
    s.push(c);
}

/// The characters of `s`, in order.
pub fn chars_of(s: &str) -> (out: Vec<char>)
    ensures
        out@ == s@,
{
    let mut out: Vec<char> = Vec::new();
    for c in it: s.chars()
        invariant
            out@ == it.seq().take(it.index()),
            it.seq() == s@,
    {
        out.push(c);
    }
    out
}

/// The string made of the characters of `v`, in order.
pub fn string_of(v: &Vec<char>) -> (out: String)
    ensures
        out@ == v@,
{
    let mut out = String::new();
    let mut i: usize = 0;
    while i < v.len()
        invariant
            i <= v.len(),
            out@ == v@.take(i as int),
        decreases v.len() - i,
    {
        push_char(&mut out, v[i]);
        i += 1;
    }
    out
}

/// Unicode white space: the code points with the `White_Space` property.
pub open spec fn is_space(c: char) -> bool {
    let n = c as u32;
    ||| 0x09 <= n <= 0x0d
    ||| n == 0x20
    ||| n == 0x85
    ||| n == 0xa0
    ||| n == 0x1680
    ||| 0x2000 <= n <= 0x200a
    ||| n == 0x2028
    ||| n == 0x2029
    ||| n == 0x202f
    ||| n == 0x205f
    ||| n == 0x3000
}

/// Control characters: the code points of general category `Cc`.
pub open spec fn is_control(c: char) -> bool {
    let n = c as u32;
    n <= 0x1f || 0x7f <= n <= 0x9f
}

/// An ASCII letter in upper case; any other character as it is.
pub open spec fn ascii_upper(c: char) -> char {
    if 'a' <= c <= 'z' {
        ((c as u8 - 32) as u8) as char
    } else {
        c
    }
}

/// An ASCII letter in lower case; any other character as it is.
pub open spec fn ascii_lower(c: char) -> char {
    if 'A' <= c <= 'Z' {
        ((c as u8 + 32) as u8) as char
    } else {
        c
    }
}

/// Whether `c` is Unicode white space.
pub fn char_is_space(c: char) -> (r: bool)
    ensures
        r == is_space(c),
{
    let n: u32 = c as u32;
    (0x09 <= n && n <= 0x0d) || n == 0x20 || n == 0x85 || n == 0xa0 || n == 0x1680 || (0x2000 <= n
        && n <= 0x200a) || n == 0x2028 || n == 0x2029 || n == 0x202f || n == 0x205f || n == 0x3000
}

/// Whether `c` is a control character.
pub fn char_is_control(c: char) -> (r: bool)
    ensures
        r == is_control(c),
{
    let n: u32 = c as u32;
    n <= 0x1f || (0x7f <= n && n <= 0x9f)
}

/// `c` with an ASCII letter in upper case.
pub fn char_ascii_upper(c: char) -> (r: char)
    ensures
        r == ascii_upper(c),
{
    if 'a' <= c && c <= 'z' {
        let b: u8 = c as u8;
        (b - 32) as char
    } else {
        c
    }
}

/// `c` with an ASCII letter in lower case.
pub fn char_ascii_lower(c: char) -> (r: char)
    ensures
        r == ascii_lower(c),
{
    if 'A' <= c && c <= 'Z' {
        let b: u8 = c as u8;
        (b + 32) as char
    } else {
        c
    }
}

/// A set of characters that a trim removes from the ends of a text.
#[derive(Clone, Copy, Debug)]
pub enum CharClass {
    /// Unicode white space.
    Space,
    /// `_`, `-`, a blank or a dot.
    NameEdge,
    /// A blank or a dot.
    DotOrBlank,
    /// The double quote.
    Quote,
    /// The NUL character.
    Nul,
}

impl CharClass {
    /// The class holds `c`.
    pub open spec fn has(self, c: char) -> bool {
        match self {
            CharClass::Space => is_space(c),
            CharClass::NameEdge => c == '_' || c == '-' || c == ' ' || c == '.',
            CharClass::DotOrBlank => c == ' ' || c == '.',
            CharClass::Quote => c == '"',
            CharClass::Nul => c == '\0',
        }
    }

    /// Whether the class holds `c`.
    pub fn holds(&self, c: char) -> (r: bool)
        ensures
            r == self.has(c),
    {
        match self {
            CharClass::Space => char_is_space(c),
            CharClass::NameEdge => c == '_' || c == '-' || c == ' ' || c == '.',
            CharClass::DotOrBlank => c == ' ' || c == '.',
            CharClass::Quote => c == '"',
            CharClass::Nul => c == '\0',
        }
    }
}

/// `s` without its longest prefix of characters of class `k`.
pub open spec fn trim_start(s: Seq<char>, k: CharClass) -> Seq<char>
    decreases s.len(),
{
    if s.len() > 0 && k.has(s[0]) {
        trim_start(s.drop_first(), k)
    } else {
        s
    }
}

/// `s` without its longest suffix of characters of class `k`.
pub open spec fn trim_end(s: Seq<char>, k: CharClass) -> Seq<char>
    decreases s.len(),
{
    if s.len() > 0 && k.has(s.last()) {
        trim_end(s.drop_last(), k)
    } else {
        s
    }
}

/// `s` without the characters of class `k` at either end.
pub open spec fn trim(s: Seq<char>, k: CharClass) -> Seq<char> {
    trim_start(trim_end(s, k), k)
}

/// `s` with its ASCII letters in upper case.
pub open spec fn upper(s: Seq<char>) -> Seq<char> {
    s.map_values(|c: char| ascii_upper(c))
}

/// `s` with its ASCII letters in lower case.
pub open spec fn lower(s: Seq<char>) -> Seq<char> {
    s.map_values(|c: char| ascii_lower(c))
}

/// Equal but for the case of ASCII letters.
pub open spec fn same_ignoring_ascii_case(a: Seq<char>, b: Seq<char>) -> bool {
    lower(a) == lower(b)
}

/// `n` stands in `h` at position `i`.
pub open spec fn occurs_at(h: Seq<char>, n: Seq<char>, i: int) -> bool {
    0 <= i && i + n.len() <= h.len() && h.subrange(i, i + n.len()) == n
}

/// `n` stands somewhere in `h`.
pub open spec fn contains(h: Seq<char>, n: Seq<char>) -> bool {
    exists|i: int| #[trigger] occurs_at(h, n, i)
}

/// The characters of `v` from `from` up to `to`.
pub fn copy_range(v: &Vec<char>, from: usize, to: usize) -> (out: Vec<char>)
    requires
        from <= to <= v.len(),
    ensures
        out@ == v@.subrange(from as int, to as int),
{
    let mut out: Vec<char> = Vec::new();
    let mut i: usize = from;
    while i < to
        invariant
            from <= i <= to <= v.len(),
            out@ == v@.subrange(from as int, i as int),
        decreases to - i,
    {
        out.push(v[i]);
        i += 1;
    }
    out
}

/// Appends the characters of `tail` to `out`.
pub fn append_chars(out: &mut Vec<char>, tail: &Vec<char>)
    ensures
        final(out)@ == old(out)@ + tail@,
{
    let mut i: usize = 0;
    while i < tail.len()
        invariant
            i <= tail.len(),
            out@ == old(out)@ + tail@.take(i as int),
        decreases tail.len() - i,
    {
        out.push(tail[i]);
        i += 1;
    }
    assert(tail@.take(tail.len() as int) == tail@);
}

/// `v` without the characters of class `k` at its end.
pub fn trim_end_chars(v: &Vec<char>, k: CharClass) -> (out: Vec<char>)
    ensures
        out@ == trim_end(v@, k),
{
    let mut end: usize = v.len();
    assert(v@.take(end as int) == v@);
    while end > 0 && k.holds(v[end - 1])
        invariant
            end <= v.len(),
            trim_end(v@, k) == trim_end(v@.take(end as int), k),
        decreases end,
    {
        assert(v@.take(end as int).drop_last() == v@.take(end - 1));
        end -= 1;
    }
    copy_range(v, 0, end)
}

/// `v` without the characters of class `k` at either end.
pub fn trim_chars(v: &Vec<char>, k: CharClass) -> (out: Vec<char>)
    ensures
        out@ == trim(v@, k),
{
    let t = trim_end_chars(v, k);
    let mut start: usize = 0;
    assert(t@.subrange(0, t.len() as int) == t@);
    while start < t.len() && k.holds(t[start])
        invariant
            start <= t.len(),
            trim_start(t@, k) == trim_start(t@.subrange(start as int, t.len() as int), k),
        decreases t.len() - start,
    {
        assert(t@.subrange(start as int, t.len() as int).drop_first() == t@.subrange(
            start + 1,
            t.len() as int,
        ));
        start += 1;
    }
    copy_range(&t, start, t.len())
}

/// `v` with its ASCII letters in upper case.
pub fn upper_chars(v: &Vec<char>) -> (out: Vec<char>)
    ensures
        out@ == upper(v@),
{
    let mut out: Vec<char> = Vec::new();
    let mut i: usize = 0;
    while i < v.len()
        invariant
            i <= v.len(),
            out@ == upper(v@.take(i as int)),
        decreases v.len() - i,
    {
        out.push(char_ascii_upper(v[i]));
        assert(upper(v@.take(i + 1)) == upper(v@.take(i as int)).push(ascii_upper(v@[i as int])));
        i += 1;
    }
    assert(v@.take(v.len() as int) == v@);
    out
}

/// `v` with its ASCII letters in lower case.
pub fn lower_chars(v: &Vec<char>) -> (out: Vec<char>)
    ensures
        out@ == lower(v@),
{
    let mut out: Vec<char> = Vec::new();
    let mut i: usize = 0;
    while i < v.len()
        invariant
            i <= v.len(),
            out@ == lower(v@.take(i as int)),
        decreases v.len() - i,
    {
        out.push(char_ascii_lower(v[i]));
        assert(lower(v@.take(i + 1)) == lower(v@.take(i as int)).push(ascii_lower(v@[i as int])));
        i += 1;
    }
    assert(v@.take(v.len() as int) == v@);
    out
}

/// Whether the two hold the same characters.
pub fn chars_equal(a: &Vec<char>, b: &Vec<char>) -> (r: bool)
    ensures
        r == (a@ == b@),
{
    if a.len() != b.len() {
        return false;
    }
    let mut i: usize = 0;
    while i < a.len()
        invariant
            i <= a.len(),
            a.len() == b.len(),
            forall|j: int| 0 <= j < i ==> a@[j] == b@[j],
        decreases a.len() - i,
    {
        if a[i] != b[i] {
            return false;
        }
        i += 1;
    }
    assert(a@ =~= b@);
    true
}

/// Whether the two are equal but for the case of ASCII letters.
pub fn equal_ignoring_ascii_case(a: &Vec<char>, b: &Vec<char>) -> (r: bool)
    ensures
        r == same_ignoring_ascii_case(a@, b@),
{
    let la = lower_chars(a);
    let lb = lower_chars(b);
    chars_equal(&la, &lb)
}

/// Whether `n` stands in `h` at position `i`.
pub fn starts_at(h: &Vec<char>, n: &Vec<char>, i: usize) -> (r: bool)
    ensures
        r == occurs_at(h@, n@, i as int),
{
    if n.len() > h.len() || i > h.len() - n.len() {
        return false;
    }
    let mut k: usize = 0;
    while k < n.len()
        invariant
            k <= n.len(),
            i + n.len() <= h.len(),
            forall|j: int| 0 <= j < k ==> h@[i + j] == n@[j],
        decreases n.len() - k,
    {
        if h[i + k] != n[k] {
            assert(h@.subrange(i as int, i + n.len())[k as int] != n@[k as int]);
            return false;
        }
        k += 1;
    }
    assert(h@.subrange(i as int, i + n.len()) =~= n@);
    true
}

/// The first position at or after `from` where `n` stands in `h`.
pub fn find_from(h: &Vec<char>, n: &Vec<char>, from: usize) -> (r: Option<usize>)
    ensures
        match r {
            Some(p) => from <= p && occurs_at(h@, n@, p as int) && forall|j: int|
                from <= j < p ==> !#[trigger] occurs_at(h@, n@, j),
            None => forall|j: int| from <= j ==> !#[trigger] occurs_at(h@, n@, j),
        },
{
    let mut p: usize = from;
    while p <= h.len()
        invariant
            from <= p,
            forall|j: int| from <= j < p ==> !#[trigger] occurs_at(h@, n@, j),
        decreases h.len() + 1 - p,
    {
        if starts_at(h, n, p) {
            return Some(p);
        }
        if p == h.len() {
            return None;
        }
        p += 1;
    }
    None
}

/// Whether `n` stands somewhere in `h`.
pub fn has_part(h: &Vec<char>, n: &Vec<char>) -> (r: bool)
    ensures
        r == contains(h@, n@),
{
    find_from(h, n, 0).is_some()
}

/// `h` holds the text of the literal `n`.
pub fn has_word(h: &Vec<char>, n: &str) -> (r: bool)
    ensures
        r == contains(h@, n@),
{
    let w = chars_of(n);
    has_part(h, &w)
}

/// The decimal digit for a number below ten.
pub open spec fn digit(d: int) -> char {
    (('0' as u8) + d) as u8 as char
}

/// The decimal digits of `n`, the first one not zero unless `n` is zero.
pub open spec fn decimal(n: nat) -> Seq<char>
    decreases n,
{
    if n < 10 {
        seq![digit(n as int)]
    } else {
        decimal(n / 10).push(digit((n % 10) as int))
    }
}

/// `count` zeros.
pub open spec fn zeros(count: int) -> Seq<char> {
    Seq::new(
        if count > 0 {
            count as nat
        } else {
            0
        },
        |i: int| '0',
    )
}

/// The decimal digits of `n`, with zeros before them up to `width` characters.
pub open spec fn zero_padded(n: nat, width: int) -> Seq<char> {
    zeros(width - decimal(n).len()) + decimal(n)
}

/// A number as `{:0width$}` writes it: a minus sign for a negative one, then zeros and digits, at
/// least `width` characters in all.
pub open spec fn signed_padded(n: int, width: int) -> Seq<char> {
    if n >= 0 {
        zero_padded(n as nat, width)
    } else {
        seq!['-'] + zero_padded((-n) as nat, width - 1)
    }
}

fn push_decimal(out: &mut Vec<char>, n: u128)
    ensures
        final(out)@ == old(out)@ + decimal(n as nat),
    decreases n,
{
    if n >= 10 {
        push_decimal(out, n / 10);
    }
    let d: u8 = (n % 10) as u8;
    out.push((48u8 + d) as char);
    proof {
        if n >= 10 {
            assert(old(out)@ + decimal(n as nat / 10).push(digit((n % 10) as int)) == (old(out)@
                + decimal(n as nat / 10)).push(digit((n % 10) as int)));
        } else {
            assert(old(out)@ + seq![digit(n as int)] == old(out)@.push(digit(n as int)));
        }
    }
}

/// Appends `n` to `out`, with zeros before it up to `width` characters.
pub fn push_padded(out: &mut Vec<char>, n: u128, width: usize)
    ensures
        final(out)@ == old(out)@ + zero_padded(n as nat, width as int),
{
    let mut digits: Vec<char> = Vec::new();
    push_decimal(&mut digits, n);
    assert(digits@ == decimal(n as nat));
    let mut k: usize = digits.len();
    while k < width
        invariant
            digits.len() <= k,
            k <= width || k == digits.len(),
            digits@ == decimal(n as nat),
            out@ == old(out)@ + zeros(k - digits.len()),
        decreases width - k,
    {
        out.push('0');
        assert(zeros(k + 1 - digits.len()) == zeros(k - digits.len()).push('0'));
        assert(old(out)@ + zeros(k - digits.len()).push('0') == (old(out)@ + zeros(
            k - digits.len(),
        )).push('0'));
        k += 1;
    }
    assert(zeros(k - digits.len()) =~= zeros(width - digits.len()));
    append_chars(out, &digits);
    assert(old(out)@ + zeros(width - digits.len()) + digits@ == old(out)@ + (zeros(
        width - digits.len(),
    ) + digits@));
}

/// Appends `n` to `out` as `{:0width$}` writes it.
pub fn push_signed_padded(out: &mut Vec<char>, n: i64, width: usize)
    requires
        n > i64::MIN,
    ensures
        final(out)@ == old(out)@ + signed_padded(n as int, width as int),
{
    if n >= 0 {
        push_padded(out, n as u128, width);
    } else {
        out.push('-');
        let rest: usize = if width > 0 {
            width - 1
        } else {
            0
        };
        push_padded(out, (-n) as u128, rest);
        proof {
            let m = (-n) as nat;
            assert(zeros(rest - decimal(m).len()) == zeros(width - 1 - decimal(m).len())) by {
                if width == 0 {
                    assert(zeros(0 - decimal(m).len()) =~= zeros(-1 - decimal(m).len()));
                }
            }
            assert(old(out)@.push('-') + zero_padded(m, width - 1) == old(out)@ + (seq!['-']
                + zero_padded(m, width - 1)));
        }
    }
}

/// `h` from position `from` on, with `to` in each place where `n` stands, found from the left
/// and not overlapping. An empty `n` stands nowhere.
pub open spec fn replaced_from(h: Seq<char>, n: Seq<char>, to: Seq<char>, from: int) -> Seq<char>
    decreases h.len() - from,
{
    if from < 0 || from >= h.len() {
        Seq::empty()
    } else if n.len() > 0 && occurs_at(h, n, from) {
        to + replaced_from(h, n, to, from + n.len())
    } else {
        seq![h[from]] + replaced_from(h, n, to, from + 1)
    }
}

/// `h` with `to` in each place where `n` stands.
pub open spec fn replaced(h: Seq<char>, n: Seq<char>, to: Seq<char>) -> Seq<char> {
    replaced_from(h, n, to, 0)
}

proof fn lemma_replaced_keeps(h: Seq<char>, n: Seq<char>, to: Seq<char>, from: int, upto: int)
    requires
        n.len() > 0,
        0 <= from <= upto <= h.len(),
        forall|j: int| from <= j < upto ==> !#[trigger] occurs_at(h, n, j),
    ensures
        replaced_from(h, n, to, from) == h.subrange(from, upto) + replaced_from(h, n, to, upto),
    decreases upto - from,
{
    if from == upto {
        assert(h.subrange(from, upto) + replaced_from(h, n, to, upto) == replaced_from(
            h,
            n,
            to,
            upto,
        ));
    } else {
        lemma_replaced_keeps(h, n, to, from + 1, upto);
        assert(!occurs_at(h, n, from));
        assert(seq![h[from]] + (h.subrange(from + 1, upto) + replaced_from(h, n, to, upto))
            == h.subrange(from, upto) + replaced_from(h, n, to, upto));
    }
}

/// `h` with the text `to` in each place where the text `n` stands.
pub fn replace_all(h: &Vec<char>, n: &str, to: &str) -> (out: Vec<char>)
    ensures
        out@ == replaced(h@, n@, to@),
{
    let needle = chars_of(n);
    let with = chars_of(to);
    if needle.len() == 0 {
        proof {
            lemma_replaced_whole(h@, n@, to@, 0);
        }
        return copy_range(h, 0, h.len());
    }
    let mut out: Vec<char> = Vec::new();
    let mut cursor: usize = 0;
    loop
        invariant
            cursor <= h.len(),
            needle@ == n@,
            with@ == to@,
            needle.len() > 0,
            replaced(h@, n@, to@) == out@ + replaced_from(h@, n@, to@, cursor as int),
        decreases h.len() - cursor,
    {
        match find_from(h, &needle, cursor) {
            Some(pos) => {
                proof {
                    lemma_replaced_keeps(h@, n@, to@, cursor as int, pos as int);
                    let rest = replaced_from(h@, n@, to@, pos + n@.len());
                    assert(out@ + (h@.subrange(cursor as int, pos as int) + (to@ + rest)) == out@
                        + h@.subrange(cursor as int, pos as int) + to@ + rest);
                }
                let piece = copy_range(h, cursor, pos);
                append_chars(&mut out, &piece);
                append_chars(&mut out, &with);
                cursor = pos + needle.len();
            },
            None => {
                proof {
                    lemma_replaced_keeps(h@, n@, to@, cursor as int, h.len() as int);
                    assert(out@ + (h@.subrange(cursor as int, h.len() as int) + Seq::<
                        char,
                    >::empty()) == out@ + h@.subrange(cursor as int, h.len() as int));
                }
                let piece = copy_range(h, cursor, h.len());
                append_chars(&mut out, &piece);
                return out;
            },
        }
    }
}

proof fn lemma_replaced_whole(h: Seq<char>, n: Seq<char>, to: Seq<char>, from: int)
    requires
        n.len() == 0,
        0 <= from <= h.len(),
    ensures
        replaced_from(h, n, to, from) == h.subrange(from, h.len() as int),
    decreases h.len() - from,
{
    if from < h.len() {
        lemma_replaced_whole(h, n, to, from + 1);
        assert(seq![h[from]] + h.subrange(from + 1, h.len() as int) == h.subrange(
            from,
            h.len() as int,
        ));
    } else {
        assert(h.subrange(from, h.len() as int) == Seq::<char>::empty());
    }
}

/// The decimal digits of a number are digits, and a larger number has no fewer of them.
pub proof fn lemma_decimal(a: nat, b: nat)
    requires
        a <= b,
    ensures
        1 <= decimal(a).len() <= decimal(b).len(),
        forall|i: int| 0 <= i < decimal(a).len() ==> '0' <= #[trigger] decimal(a)[i] <= '9',
    decreases b,
{
    if a >= 10 {
        lemma_decimal(a / 10, b / 10);
    } else if b >= 10 {
        lemma_decimal(0, b / 10);
    }
}

/// A number written with zeros before it holds digits only, and a larger number is not
/// written shorter.
pub proof fn lemma_zero_padded(a: nat, b: nat, width: int)
    requires
        a <= b,
    ensures
        1 <= zero_padded(a, width).len() <= zero_padded(b, width).len(),
        forall|i: int|
            0 <= i < zero_padded(a, width).len() ==> '0' <= #[trigger] zero_padded(a, width)[i]
                <= '9',
{
    lemma_decimal(a, b);
    lemma_decimal(b, b);
}

/// Two numbers that are written alike are the same number.
pub proof fn lemma_decimal_is_injective(a: nat, b: nat)
    requires
        decimal(a) == decimal(b),
    ensures
        a == b,
    decreases a,
{
    lemma_decimal(a, a);
    lemma_decimal(b, b);
    if a >= 10 && b >= 10 {
        let da = decimal(a / 10).push(digit((a % 10) as int));
        let db = decimal(b / 10).push(digit((b % 10) as int));
        assert(da.drop_last() == decimal(a / 10));
        assert(db.drop_last() == decimal(b / 10));
        assert(da.last() == digit((a % 10) as int));
        assert(db.last() == digit((b % 10) as int));
        lemma_decimal_is_injective(a / 10, b / 10);
    } else if a >= 10 {
        lemma_decimal(a / 10, a / 10);
    } else if b >= 10 {
        lemma_decimal(b / 10, b / 10);
    } else {
        assert(decimal(a)[0] == digit(a as int));
        assert(decimal(b)[0] == digit(b as int));
    }
}

} // verus!
