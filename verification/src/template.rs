use crate::metadata::{normalized_make, text_of, CaptureDate, PhotoMetadata};
use crate::sanitize::squeezed;
use crate::text::{
    append_chars, chars_equal, chars_of, copy_range, equal_ignoring_ascii_case,
    same_ignoring_ascii_case, string_of, trim, trim_chars, CharClass,
};
use vstd::prelude::*;

verus! {

/// A part of a template: literal text, or a token.
#[derive(Debug, Clone, PartialEq, Eq)]
pub enum TemplatePart {
    Literal(String),
    Token(Token),
}

/// A placeholder of a template.
#[derive(Debug, Clone, Copy, PartialEq, Eq, Structural)]
pub enum Token {
    Date,
    Year,
    Month,
    Day,
    Hour,
    Minute,
    Second,
    CameraMake,
    CameraModel,
    LensMake,
    LensModel,
    FilmSim,
    OrigName,
}

/// Why a template is refused.
#[derive(Debug, Clone, PartialEq, Eq)]
pub enum TemplateError {
    Empty,
    UnbalancedBraces,
    UnknownToken(String),
}

/// A part of a template, with its text as a sequence of characters.
pub enum PartModel {
    Literal(Seq<char>),
    Token(Token),
}

/// A template error, with its text as a sequence of characters.
pub enum ErrorModel {
    Empty,
    UnbalancedBraces,
    UnknownToken(Seq<char>),
}

impl View for TemplatePart {
    type V = PartModel;

    open spec fn view(&self) -> PartModel {
        match self {
            TemplatePart::Literal(s) => PartModel::Literal(s@),
            TemplatePart::Token(t) => PartModel::Token(*t),
        }
    }
}

impl View for TemplateError {
    type V = ErrorModel;

    open spec fn view(&self) -> ErrorModel {
        match self {
            TemplateError::Empty => ErrorModel::Empty,
            TemplateError::UnbalancedBraces => ErrorModel::UnbalancedBraces,
            TemplateError::UnknownToken(s) => ErrorModel::UnknownToken(s@),
        }
    }
}

/// The message of a template error.
pub open spec fn error_message(e: ErrorModel) -> Seq<char> {
    match e {
        ErrorModel::Empty => "テンプレートが空です"@,
        ErrorModel::UnbalancedBraces => "中括弧の対応が不正です"@,
        ErrorModel::UnknownToken(name) => "未対応トークンです: "@ + name,
    }
}

impl TemplateError {
    /// The message of the error.
    pub fn message(&self) -> (out: String)
        ensures
            out@ == error_message(self@),
    {
        match self {
            TemplateError::Empty => "テンプレートが空です".to_string(),
            TemplateError::UnbalancedBraces => "中括弧の対応が不正です".to_string(),
            TemplateError::UnknownToken(name) => {
                let mut out = "未対応トークンです: ".to_string();
                out.append(name.as_str());
                out
            },
        }
    }
}

/// The models of the parts of a list.
pub open spec fn part_models(parts: Seq<TemplatePart>) -> Seq<PartModel> {
    parts.map_values(|p: TemplatePart| p@)
}

/// The token that a name between braces stands for.
pub open spec fn token_named(name: Seq<char>) -> Option<Token> {
    if name == "date"@ {
        Some(Token::Date)
    } else if name == "year"@ {
        Some(Token::Year)
    } else if name == "month"@ {
        Some(Token::Month)
    } else if name == "day"@ {
        Some(Token::Day)
    } else if name == "hour"@ {
        Some(Token::Hour)
    } else if name == "minute"@ {
        Some(Token::Minute)
    } else if name == "second"@ {
        Some(Token::Second)
    } else if name == "camera_maker"@ {
        Some(Token::CameraMake)
    } else if name == "camera_model"@ {
        Some(Token::CameraModel)
    } else if name == "lens_maker"@ {
        Some(Token::LensMake)
    } else if name == "lens_model"@ {
        Some(Token::LensModel)
    } else if name == "film_sim"@ {
        Some(Token::FilmSim)
    } else if name == "orig_name"@ {
        Some(Token::OrigName)
    } else {
        None
    }
}

/// The position of the first brace of `s` at or after `i`; the length of `s` where there is none.
pub open spec fn next_brace(s: Seq<char>, i: int) -> int
    decreases s.len() - i,
{
    if i < 0 || i >= s.len() || s[i] == '{' || s[i] == '}' {
        i
    } else {
        next_brace(s, i + 1)
    }
}

/// The next brace lies at or after the start, at a brace or at the end, with no brace before it.
pub proof fn lemma_next_brace_bounds(s: Seq<char>, i: int)
    requires
        0 <= i <= s.len(),
    ensures
        i <= next_brace(s, i) <= s.len(),
        forall|k: int| i <= k < next_brace(s, i) ==> s[k] != '{' && s[k] != '}',
        next_brace(s, i) < s.len() ==> s[next_brace(s, i)] == '{' || s[next_brace(s, i)] == '}',
    decreases s.len() - i,
{
    if i < s.len() && s[i] != '{' && s[i] != '}' {
        lemma_next_brace_bounds(s, i + 1);
    }
}

/// `tail` with `head` put before its parts, where it has parts.
pub open spec fn after(head: Seq<PartModel>, tail: Result<Seq<PartModel>, ErrorModel>) -> Result<
    Seq<PartModel>,
    ErrorModel,
> {
    match tail {
        Ok(rest) => Ok(head + rest),
        Err(e) => Err(e),
    }
}

/// The parts of the template `s` from position `i` on, or the first error met from there: a
/// closing brace without an opening one, an opening brace whose name is empty, runs into another
/// opening brace or is never closed, or a name that is no token.
pub open spec fn parsed_from(s: Seq<char>, i: int) -> Result<Seq<PartModel>, ErrorModel>
    decreases s.len() - i,
{
    if i < 0 || i >= s.len() {
        Ok(Seq::empty())
    } else if s[i] == '}' {
        Err(ErrorModel::UnbalancedBraces)
    } else if s[i] == '{' {
        let j = next_brace(s, i + 1);
        if j >= s.len() || s[j] == '{' || j == i + 1 {
            Err(ErrorModel::UnbalancedBraces)
        } else {
            let name = s.subrange(i + 1, j);
            match token_named(name) {
                None => Err(ErrorModel::UnknownToken(name)),
                Some(t) => {
                    proof {
                        lemma_next_brace_bounds(s, i + 1);
                    }
                    after(seq![PartModel::Token(t)], parsed_from(s, j + 1))
                },
            }
        }
    } else {
        let j = next_brace(s, i);
        proof {
            lemma_next_brace_bounds(s, i + 1);
        }
        after(seq![PartModel::Literal(s.subrange(i, j))], parsed_from(s, j))
    }
}

/// What parsing the template `s` gives: its parts, or the first error. An empty template is an
/// error of its own.
pub open spec fn parsed(s: Seq<char>) -> Result<Seq<PartModel>, ErrorModel> {
    if s.len() == 0 {
        Err(ErrorModel::Empty)
    } else {
        parsed_from(s, 0)
    }
}

fn brace_after(v: &Vec<char>, i: usize) -> (j: usize)
    requires
        i <= v.len(),
    ensures
        j == next_brace(v@, i as int),
        i <= j <= v.len(),
{
    let mut j: usize = i;
    while j < v.len() && v[j] != '{' && v[j] != '}'
        invariant
            i <= j <= v.len(),
            next_brace(v@, i as int) == next_brace(v@, j as int),
        decreases v.len() - j,
    {
        j += 1;
    }
    j
}

fn is_name(name: &Vec<char>, word: &str) -> (r: bool)
    ensures
        r == (name@ == word@),
{
    chars_equal(name, &chars_of(word))
}

/// The token that a name between braces stands for.
pub fn parse_token(token: &Vec<char>) -> (r: Result<Token, TemplateError>)
    ensures
        match r {
            Ok(t) => token_named(token@) == Some(t),
            Err(e) => token_named(token@) is None && e@ == ErrorModel::UnknownToken(token@),
        },
{
    if is_name(token, "date") {
        Ok(Token::Date)
    } else if is_name(token, "year") {
        Ok(Token::Year)
    } else if is_name(token, "month") {
        Ok(Token::Month)
    } else if is_name(token, "day") {
        Ok(Token::Day)
    } else if is_name(token, "hour") {
        Ok(Token::Hour)
    } else if is_name(token, "minute") {
        Ok(Token::Minute)
    } else if is_name(token, "second") {
        Ok(Token::Second)
    } else if is_name(token, "camera_maker") {
        Ok(Token::CameraMake)
    } else if is_name(token, "camera_model") {
        Ok(Token::CameraModel)
    } else if is_name(token, "lens_maker") {
        Ok(Token::LensMake)
    } else if is_name(token, "lens_model") {
        Ok(Token::LensModel)
    } else if is_name(token, "film_sim") {
        Ok(Token::FilmSim)
    } else if is_name(token, "orig_name") {
        Ok(Token::OrigName)
    } else {
        Err(TemplateError::UnknownToken(string_of(token)))
    }
}

/// The parts of a template, or the first error in it.
pub fn parse_template(input: &str) -> (r: Result<Vec<TemplatePart>, TemplateError>)
    ensures
        match r {
            Ok(parts) => parsed(input@) == Ok::<Seq<PartModel>, ErrorModel>(part_models(parts@))
                && parts@.len() > 0,
            Err(e) => parsed(input@) == Err::<Seq<PartModel>, ErrorModel>(e@),
        },
{
    let v = chars_of(input);
    if v.len() == 0 {
        return Err(TemplateError::Empty);
    }
    let mut parts: Vec<TemplatePart> = Vec::new();
    let mut i: usize = 0;
    assert(part_models(parts@) + Seq::<PartModel>::empty() == Seq::<PartModel>::empty());
    assert(parsed_from(v@, 0) == after(part_models(parts@), parsed_from(v@, 0))) by {
        match parsed_from(v@, 0) {
            Ok(rest) => {
                assert(part_models(parts@) + rest == rest);
            },
            Err(_) => {},
        }
    }
    while i < v.len()
        invariant
            i <= v.len(),
            v@ == input@,
            i > 0 ==> parts@.len() > 0,
            parsed_from(v@, 0) == after(part_models(parts@), parsed_from(v@, i as int)),
        decreases v.len() - i,
    {
        let ch = v[i];
        let ghost before = part_models(parts@);
        if ch == '}' {
            return Err(TemplateError::UnbalancedBraces);
        } else if ch == '{' {
            let j = brace_after(&v, i + 1);
            if j >= v.len() || v[j] == '{' || j == i + 1 {
                return Err(TemplateError::UnbalancedBraces);
            }
            let name = copy_range(&v, i + 1, j);
            match parse_token(&name) {
                Ok(t) => {
                    parts.push(TemplatePart::Token(t));
                    proof {
                        assert(part_models(parts@) == before.push(PartModel::Token(t)));
                        match parsed_from(v@, j + 1) {
                            Ok(rest) => {
                                assert(before + (seq![PartModel::Token(t)] + rest) == before.push(
                                    PartModel::Token(t),
                                ) + rest);
                            },
                            Err(_) => {},
                        }
                    }
                    i = j + 1;
                },
                Err(e) => {
                    return Err(e);
                },
            }
        } else {
            let j = brace_after(&v, i);
            proof {
                lemma_next_brace_bounds(v@, i + 1);
            }
            let text = copy_range(&v, i, j);
            parts.push(TemplatePart::Literal(string_of(&text)));
            proof {
                let part = PartModel::Literal(v@.subrange(i as int, j as int));
                assert(part_models(parts@) == before.push(part));
                match parsed_from(v@, j as int) {
                    Ok(rest) => {
                        assert(before + (seq![part] + rest) == before.push(part) + rest);
                    },
                    Err(_) => {},
                }
            }
            i = j;
        }
    }
    assert(part_models(parts@) + Seq::<PartModel>::empty() == part_models(parts@));
    Ok(parts)
}

/// Whether a template parses; its first error where it does not.
pub fn validate_template(input: &str) -> (r: Result<(), TemplateError>)
    ensures
        match r {
            Ok(_) => parsed(input@) is Ok,
            Err(e) => parsed(input@) == Err::<Seq<PartModel>, ErrorModel>(e@),
        },
{
    match parse_template(input) {
        Ok(_) => Ok(()),
        Err(e) => Err(e),
    }
}

/// A template of plain text, with no brace in it, is accepted as one literal part.
pub proof fn lemma_plain_text_is_accepted(s: Seq<char>)
    requires
        s.len() > 0,
        forall|i: int| 0 <= i < s.len() ==> s[i] != '{' && s[i] != '}',
    ensures
        parsed(s) == Ok::<Seq<PartModel>, ErrorModel>(seq![PartModel::Literal(s)]),
{
    lemma_no_brace(s, 0);
    assert(s.subrange(0, s.len() as int) == s);
    assert(parsed_from(s, s.len() as int) == Ok::<Seq<PartModel>, ErrorModel>(Seq::empty()));
    assert(parsed_from(s, 0) == after(
        seq![PartModel::Literal(s.subrange(0, s.len() as int))],
        parsed_from(s, s.len() as int),
    ));
    assert(seq![PartModel::Literal(s)] + Seq::<PartModel>::empty() == seq![PartModel::Literal(s)]);
}

proof fn lemma_no_brace(s: Seq<char>, i: int)
    requires
        0 <= i <= s.len(),
        forall|k: int| i <= k < s.len() ==> s[k] != '{' && s[k] != '}',
    ensures
        next_brace(s, i) == s.len(),
    decreases s.len() - i,
{
    if i < s.len() {
        lemma_no_brace(s, i + 1);
    }
}

/// The two makers are there and equal but for the case of ASCII letters.
pub open spec fn makers_match(camera: Option<Seq<char>>, lens: Option<Seq<char>>) -> bool {
    match (camera, lens) {
        (Some(c), Some(l)) => same_ignoring_ascii_case(c, l),
        _ => false,
    }
}

/// The text of an optional value; the empty text where it is not there.
pub open spec fn or_empty(value: Option<Seq<char>>) -> Seq<char> {
    match value {
        Some(s) => s,
        None => Seq::empty(),
    }
}

/// A date as fourteen digits and more: year, month, day, hour, minute, second.
pub open spec fn date_text(d: CaptureDate) -> Seq<char> {
    crate::text::signed_padded(d.year as int, 4) + crate::text::zero_padded(d.month as nat, 2)
        + crate::text::zero_padded(d.day as nat, 2) + crate::text::zero_padded(d.hour as nat, 2)
        + crate::text::zero_padded(d.minute as nat, 2) + crate::text::zero_padded(
        d.second as nat,
        2,
    )
}

/// What a token stands for in the metadata of a photo, before its white space is replaced. With
/// `skip_lens_maker` the lens maker stands for nothing.
pub open spec fn token_value(token: Token, m: PhotoMetadata, skip_lens_maker: bool) -> Seq<char> {
    match token {
        Token::Date => date_text(m.date),
        Token::Year => crate::text::signed_padded(m.date.year as int, 4),
        Token::Month => crate::text::zero_padded(m.date.month as nat, 2),
        Token::Day => crate::text::zero_padded(m.date.day as nat, 2),
        Token::Hour => crate::text::zero_padded(m.date.hour as nat, 2),
        Token::Minute => crate::text::zero_padded(m.date.minute as nat, 2),
        Token::Second => crate::text::zero_padded(m.date.second as nat, 2),
        Token::CameraMake => or_empty(normalized_make(m.camera_make)),
        Token::CameraModel => trim(or_empty(text_of(m.camera_model)), CharClass::Space),
        Token::LensMake => if skip_lens_maker {
            Seq::empty()
        } else {
            or_empty(normalized_make(m.lens_make))
        },
        Token::LensModel => trim(or_empty(text_of(m.lens_model)), CharClass::Space),
        Token::FilmSim => trim(or_empty(text_of(m.film_sim)), CharClass::Space),
        Token::OrigName => m.original_name@,
    }
}

/// A literal with each `-` turned into `_`.
pub open spec fn connector_normalized(s: Seq<char>) -> Seq<char> {
    s.map_values(
        |c: char|
            if c == '-' {
                '_'
            } else {
                c
            },
    )
}

/// A token's value without the white space at its ends, and with each run of white space inside
/// it turned into one `-`.
pub open spec fn token_normalized(s: Seq<char>) -> Seq<char> {
    squeezed(trim(s, CharClass::Space), false, '-')
}

/// What one part of a template renders to.
pub open spec fn part_text(part: PartModel, m: PhotoMetadata, skip_lens_maker: bool) -> Seq<char> {
    match part {
        PartModel::Literal(s) => connector_normalized(s),
        PartModel::Token(t) => token_normalized(token_value(t, m, skip_lens_maker)),
    }
}

/// What the first `n` parts render to, one after the other.
pub open spec fn rendered_upto(
    parts: Seq<PartModel>,
    m: PhotoMetadata,
    skip_lens_maker: bool,
    n: int,
) -> Seq<char>
    decreases n,
{
    if n <= 0 {
        Seq::empty()
    } else {
        rendered_upto(parts, m, skip_lens_maker, n - 1) + part_text(
            parts[n - 1],
            m,
            skip_lens_maker,
        )
    }
}

/// What a template renders to for the metadata of a photo. Where `dedupe_same_maker` is set and
/// the camera and the lens are of one maker, the lens maker renders to nothing.
pub open spec fn rendered(parts: Seq<PartModel>, m: PhotoMetadata, dedupe_same_maker: bool) -> Seq<
    char,
> {
    let skip = dedupe_same_maker && makers_match(
        normalized_make(m.camera_make),
        normalized_make(m.lens_make),
    );
    rendered_upto(parts, m, skip, parts.len() as int)
}

/// Whether the two makers are there and equal but for the case of ASCII letters.
pub fn same_maker(camera_make: &Option<String>, lens_make: &Option<String>) -> (r: bool)
    ensures
        r == makers_match(text_of(*camera_make), text_of(*lens_make)),
{
    match (camera_make, lens_make) {
        (Some(camera), Some(lens)) => equal_ignoring_ascii_case(
            &chars_of(camera.as_str()),
            &chars_of(lens.as_str()),
        ),
        _ => false,
    }
}

/// A date as digits: year, month, day, hour, minute, second.
pub fn format_date(date: &CaptureDate) -> (out: Vec<char>)
    ensures
        out@ == date_text(*date),
{
    let mut out: Vec<char> = Vec::new();
    crate::text::push_signed_padded(&mut out, date.year as i64, 4);
    crate::text::push_padded(&mut out, date.month as u128, 2);
    crate::text::push_padded(&mut out, date.day as u128, 2);
    crate::text::push_padded(&mut out, date.hour as u128, 2);
    crate::text::push_padded(&mut out, date.minute as u128, 2);
    crate::text::push_padded(&mut out, date.second as u128, 2);
    out
}

/// A literal with each `-` turned into `_`.
pub fn normalize_literal_connector(input: &Vec<char>) -> (out: Vec<char>)
    ensures
        out@ == connector_normalized(input@),
{
    let mut out: Vec<char> = Vec::new();
    let mut i: usize = 0;
    while i < input.len()
        invariant
            i <= input.len(),
            out@ == connector_normalized(input@.take(i as int)),
        decreases input.len() - i,
    {
        let ch = input[i];
        if ch == '-' {
            out.push('_');
        } else {
            out.push(ch);
        }
        assert(connector_normalized(input@.take(i + 1)) == connector_normalized(
            input@.take(i as int),
        ).push(
            if ch == '-' {
                '_'
            } else {
                ch
            },
        ));
        i += 1;
    }
    assert(input@.take(input.len() as int) == input@);
    out
}

/// The value of a token without the white space at its ends, and with each run of white space
/// inside it turned into one `-`.
pub fn normalize_token_value(input: &Vec<char>) -> (out: Vec<char>)
    ensures
        out@ == token_normalized(input@),
{
    crate::sanitize::replace_whitespace_runs(&trim_chars(input, CharClass::Space), '-')
}

fn text_or_empty(value: &Option<String>) -> (out: Vec<char>)
    ensures
        out@ == or_empty(text_of(*value)),
{
    match value {
        Some(s) => chars_of(s.as_str()),
        None => Vec::new(),
    }
}

fn padded_number(n: u32, width: usize) -> (out: Vec<char>)
    ensures
        out@ == crate::text::zero_padded(n as nat, width as int),
{
    let mut out: Vec<char> = Vec::new();
    crate::text::push_padded(&mut out, n as u128, width);
    out
}

fn token_text(token: Token, metadata: &PhotoMetadata, skip_lens_maker: bool) -> (out: Vec<char>)
    ensures
        out@ == token_value(token, *metadata, skip_lens_maker),
{
    match token {
        Token::Date => format_date(&metadata.date),
        Token::Year => {
            let mut out: Vec<char> = Vec::new();
            crate::text::push_signed_padded(&mut out, metadata.date.year as i64, 4);
            out
        },
        Token::Month => padded_number(metadata.date.month, 2),
        Token::Day => padded_number(metadata.date.day, 2),
        Token::Hour => padded_number(metadata.date.hour, 2),
        Token::Minute => padded_number(metadata.date.minute, 2),
        Token::Second => padded_number(metadata.date.second, 2),
        Token::CameraMake => text_or_empty(&metadata.normalized_camera_make()),
        Token::CameraModel => trim_chars(&text_or_empty(&metadata.camera_model), CharClass::Space),
        Token::LensMake => {
            if skip_lens_maker {
                Vec::new()
            } else {
                text_or_empty(&metadata.normalized_lens_make())
            }
        },
        Token::LensModel => trim_chars(&text_or_empty(&metadata.lens_model), CharClass::Space),
        Token::FilmSim => trim_chars(&text_or_empty(&metadata.film_sim), CharClass::Space),
        Token::OrigName => chars_of(metadata.original_name.as_str()),
    }
}

/// What a template renders to for the metadata of a photo.
pub fn render_template_with_options(
    parts: &[TemplatePart],
    metadata: &PhotoMetadata,
    dedupe_same_maker: bool,
) -> (out: String)
    ensures
        out@ == rendered(part_models(parts@), *metadata, dedupe_same_maker),
{
    let skip = same_maker(&metadata.normalized_camera_make(), &metadata.normalized_lens_make())
        && dedupe_same_maker;
    let mut output: Vec<char> = Vec::new();
    let mut i: usize = 0;
    while i < parts.len()
        invariant
            i <= parts.len(),
            output@ == rendered_upto(part_models(parts@), *metadata, skip, i as int),
        decreases parts.len() - i,
    {
        let piece = match &parts[i] {
            TemplatePart::Literal(s) => normalize_literal_connector(&chars_of(s.as_str())),
            TemplatePart::Token(token) => normalize_token_value(
                &token_text(*token, metadata, skip),
            ),
        };
        append_chars(&mut output, &piece);
        i += 1;
    }
    string_of(&output)
}

/// What a template renders to for the metadata of a photo, with the lens maker left out where it is
/// the maker of the camera.
pub fn render_template(parts: &[TemplatePart], metadata: &PhotoMetadata) -> (out: String)
    ensures
        out@ == rendered(part_models(parts@), *metadata, true),
{
    render_template_with_options(parts, metadata, true)
}

} // verus!
