use crate::metadata::{text_of, CaptureDate, MetadataSource, PartialMetadata, PhotoMetadata};
use crate::matcher::path_model;
use crate::paths::{
    file_name_of, file_stem_of, is_sorted, joined, name_path, parent_of, path_extension_of,
    path_models, paths_contain, sort_paths, starts_with, FilePath, PartModel,
};
use crate::sanitize::{
    apply_exclusions, cleaned, cleanup_filename, excluded, normalize_spaces_to_underscore,
    sanitize_filename, sanitized, squeezed, truncate_filename_if_needed, truncated,
};
use crate::template::{
    parse_template, parsed, part_models, render_template_with_options, rendered, ErrorModel,
    PartModel as TemplatePartModel, TemplateError, TemplatePart,
};
use crate::text::{
    append_chars, chars_equal, chars_of, equal_ignoring_ascii_case, lower, lower_chars,
    push_padded, same_ignoring_ascii_case, string_of, trim, trim_chars, zero_padded, CharClass,
};
use vstd::prelude::*;

verus! {

/// The template that is used where none is given.
pub const DEFAULT_TEMPLATE: &'static str =
    "{year}{month}{day}_{hour}{minute}{second}_{camera_maker}_{camera_model}_{lens_maker}_{lens_model}_{film_sim}_{orig_name}";

/// What a plan is made from.
#[derive(Debug, Clone)]
pub struct PlanOptions {
    pub jpg_input: FilePath,
    pub raw_input: Option<FilePath>,
    pub raw_from_jpg_parent_when_missing: bool,
    pub recursive: bool,
    pub include_hidden: bool,
    pub template: String,
    pub dedupe_same_maker: bool,
    pub exclusions: Vec<String>,
    pub max_filename_len: usize,
}

/// One photo of a plan: where it is, where it goes, and how its name was made. It is `changed`
/// exactly where the two paths differ.
#[derive(Debug, Clone)]
pub struct RenameCandidate {
    pub original_path: FilePath,
    pub target_path: FilePath,
    pub metadata_source: MetadataSource,
    pub source_label: String,
    pub metadata: PhotoMetadata,
    pub rendered_base: String,
    pub changed: bool,
}

/// What was counted while a plan was made.
#[derive(Debug, Clone, Copy, PartialEq, Eq, Structural)]
pub struct RenameStats {
    pub scanned_files: usize,
    pub jpg_files: usize,
    pub skipped_non_jpg: usize,
    pub skipped_hidden: usize,
    pub planned: usize,
    pub unchanged: usize,
}

/// A plan: the roots, the template and the exclusions it was made from, its candidates, and the
/// counts.
#[derive(Debug, Clone)]
pub struct RenamePlan {
    pub jpg_root: FilePath,
    pub jpg_roots: Vec<FilePath>,
    pub template: String,
    pub exclusions: Vec<String>,
    pub candidates: Vec<RenameCandidate>,
    pub stats: RenameStats,
}

/// The metadata of one photo, with the label of the source it came from.
#[derive(Debug, Clone)]
pub struct ResolvedMetadata {
    pub metadata: PhotoMetadata,
    pub source_label: String,
}

impl PlanOptions {
    /// No input, no companion root, the default template, and names of at most 240 characters.
    pub fn default() -> (out: PlanOptions)
        ensures
            out.jpg_input@.len() == 0,
            out.raw_input is None,
            !out.raw_from_jpg_parent_when_missing,
            !out.recursive,
            !out.include_hidden,
            out.template@ == DEFAULT_TEMPLATE@,
            out.dedupe_same_maker,
            out.exclusions@.len() == 0,
            out.max_filename_len == 240,
    {
        PlanOptions {
            jpg_input: FilePath::new(),
            raw_input: None,
            raw_from_jpg_parent_when_missing: false,
            recursive: false,
            include_hidden: false,
            template: DEFAULT_TEMPLATE.to_string(),
            dedupe_same_maker: true,
            exclusions: Vec::new(),
            max_filename_len: 240,
        }
    }
}

impl RenameStats {
    /// All counters at zero.
    pub fn default() -> (out: RenameStats)
        ensures
            out == (RenameStats {
                scanned_files: 0,
                jpg_files: 0,
                skipped_non_jpg: 0,
                skipped_hidden: 0,
                planned: 0,
                unchanged: 0,
            }),
    {
        RenameStats {
            scanned_files: 0,
            jpg_files: 0,
            skipped_non_jpg: 0,
            skipped_hidden: 0,
            planned: 0,
            unchanged: 0,
        }
    }
}

/// The source gives at least one field that `base` lacks.
pub open spec fn fills_a_gap(base: PartialMetadata, source: PartialMetadata) -> bool {
    ||| base.date is None && source.date is Some
    ||| base.camera_make is None && source.camera_make is Some
    ||| base.camera_model is None && source.camera_model is Some
    ||| base.lens_make is None && source.lens_make is Some
    ||| base.lens_model is None && source.lens_model is Some
    ||| base.film_sim is None && source.film_sim is Some
}

/// `base` with its gaps filled from the metadata embedded in the photo itself, where there is
/// any.
pub open spec fn with_fallback(base: PartialMetadata, jpg: Option<PartialMetadata>) -> PartialMetadata {
    match jpg {
        Some(j) => base.filled_from(j),
        None => base,
    }
}

/// The metadata that the sources of a photo give, before a date is made up: from the sidecar
/// where there is one, its gaps filled from the RAW companion and then from the photo itself;
/// else from the RAW companion, its gaps filled from the photo; else from the photo alone.
pub open spec fn cascaded(
    xmp: Option<PartialMetadata>,
    raw: Option<PartialMetadata>,
    jpg: Option<PartialMetadata>,
) -> PartialMetadata {
    match xmp {
        Some(x) => with_fallback(with_fallback(x, raw), jpg),
        None => match raw {
            Some(r) => with_fallback(r, jpg),
            None => match jpg {
                Some(j) => j,
                None => PartialMetadata {
                    date: None,
                    camera_make: None,
                    camera_model: None,
                    lens_make: None,
                    lens_model: None,
                    film_sim: None,
                },
            },
        },
    }
}

/// The source that the metadata of a photo is labelled with: the file's modification time
/// where no source gave a date; else the sidecar, together with the RAW companion where that
/// filled a gap of it; else the RAW companion; else the photo itself.
pub open spec fn cascade_source(
    xmp: Option<PartialMetadata>,
    raw: Option<PartialMetadata>,
    jpg: Option<PartialMetadata>,
) -> MetadataSource {
    if cascaded(xmp, raw, jpg).date is None {
        MetadataSource::FallbackFileModified
    } else if xmp is Some {
        if raw is Some && fills_a_gap(xmp->0, raw->0) {
            MetadataSource::XmpAndRawExif
        } else {
            MetadataSource::Xmp
        }
    } else if raw is Some {
        MetadataSource::RawExif
    } else {
        MetadataSource::JpgExif
    }
}

/// The label of a source: `xmp` for a sidecar, the lower-case extension of the RAW companion
/// (or `raw` where it has none), `jpg` for all else.
pub open spec fn source_label_of(source: MetadataSource, raw_path: Option<Seq<PartModel>>) -> Seq<
    char,
> {
    match source {
        MetadataSource::Xmp | MetadataSource::XmpAndRawExif => "xmp"@,
        MetadataSource::RawExif => {
            let ext = match raw_path {
                Some(p) => match path_extension_of(p) {
                    Some(e) => lower(trim(e, CharClass::Space)),
                    None => Seq::empty(),
                },
                None => Seq::empty(),
            };
            if ext.len() == 0 {
                "raw"@
            } else {
                ext
            }
        },
        MetadataSource::JpgExif | MetadataSource::FallbackFileModified => "jpg"@,
    }
}

/// The name that a photo had: the stem of its file name, or `untitled`.
pub open spec fn original_name_of(jpg_path: Seq<PartModel>) -> Seq<char> {
    match file_stem_of(jpg_path) {
        Some(stem) => stem,
        None => "untitled"@,
    }
}

/// Whether one of the fields is not there.
pub fn metadata_has_missing_fields(meta: &PartialMetadata) -> (r: bool)
    ensures
        r == meta.has_gaps(),
{
    meta.date.is_none() || meta.camera_make.is_none() || meta.camera_model.is_none()
        || meta.lens_make.is_none() || meta.lens_model.is_none() || meta.film_sim.is_none()
}

fn texts_differ(a: &Option<String>, b: &Option<String>) -> (r: bool)
    ensures
        r == (text_of(*a) != text_of(*b)),
{
    match (a, b) {
        (Some(x), Some(y)) => !chars_equal(&chars_of(x.as_str()), &chars_of(y.as_str())),
        (None, None) => false,
        _ => true,
    }
}

fn dates_differ(a: &Option<CaptureDate>, b: &Option<CaptureDate>) -> (r: bool)
    ensures
        r == (*a != *b),
{
    match (a, b) {
        (Some(x), Some(y)) => !(x.year == y.year && x.month == y.month && x.day == y.day && x.hour
            == y.hour && x.minute == y.minute && x.second == y.second),
        (None, None) => false,
        _ => true,
    }
}

/// The two hold different values in some field.
pub open spec fn differs(a: PartialMetadata, b: PartialMetadata) -> bool {
    ||| a.date != b.date
    ||| text_of(a.camera_make) != text_of(b.camera_make)
    ||| text_of(a.camera_model) != text_of(b.camera_model)
    ||| text_of(a.lens_make) != text_of(b.lens_make)
    ||| text_of(a.lens_model) != text_of(b.lens_model)
    ||| text_of(a.film_sim) != text_of(b.film_sim)
}

/// Whether the two hold different values in some field.
pub fn metadata_changed(a: &PartialMetadata, b: &PartialMetadata) -> (r: bool)
    ensures
        r == differs(*a, *b),
{
    dates_differ(&a.date, &b.date) || texts_differ(&a.camera_make, &b.camera_make) || texts_differ(
        &a.camera_model,
        &b.camera_model,
    ) || texts_differ(&a.lens_make, &b.lens_make) || texts_differ(&a.lens_model, &b.lens_model)
        || texts_differ(&a.film_sim, &b.film_sim)
}

/// Filling from a source changes the metadata exactly where the source fills a gap.
pub proof fn lemma_filling_changes_iff_gap_filled(base: PartialMetadata, source: PartialMetadata)
    ensures
        differs(base, base.filled_from(source)) == fills_a_gap(base, source),
{
}

/// `base` with its gaps filled from the metadata embedded in the photo itself, where there is any.
pub fn merge_with_jpg_fallback(base: PartialMetadata, jpg_exif_meta: Option<&PartialMetadata>) -> (out:
    PartialMetadata)
    ensures
        out == match jpg_exif_meta {
            Some(j) => base.filled_from(*j),
            None => base,
        },
{
    let mut base = base;
    match jpg_exif_meta {
        Some(jpg_meta) => {
            base.merge_missing_from(jpg_meta);
        },
        None => {},
    }
    base
}

/// The metadata of a photo from what its sources gave, with `fallback_date` where they gave no
/// date.
pub fn to_photo_metadata(
    partial: PartialMetadata,
    source: MetadataSource,
    fallback_date: CaptureDate,
    original_name: String,
    jpg_path: &FilePath,
) -> (out: PhotoMetadata)
    ensures
        out.source == if partial.date is None {
            MetadataSource::FallbackFileModified
        } else {
            source
        },
        out.date == if partial.date is None {
            fallback_date
        } else {
            partial.date->0
        },
        out.camera_make == partial.camera_make,
        out.camera_model == partial.camera_model,
        out.lens_make == partial.lens_make,
        out.lens_model == partial.lens_model,
        out.film_sim == partial.film_sim,
        out.original_name == original_name,
        out.jpg_path@ == jpg_path@,
{
    let source = if partial.date.is_none() {
        MetadataSource::FallbackFileModified
    } else {
        source
    };
    let date = match partial.date {
        Some(d) => d,
        None => fallback_date,
    };
    PhotoMetadata {
        source,
        date,
        camera_make: partial.camera_make,
        camera_model: partial.camera_model,
        lens_make: partial.lens_make,
        lens_model: partial.lens_model,
        film_sim: partial.film_sim,
        original_name,
        jpg_path: jpg_path.duplicate(),
    }
}

/// The label of a source.
pub fn metadata_source_label(source: MetadataSource, raw_path: Option<&FilePath>) -> (out: String)
    ensures
        out@ == source_label_of(
            source,
            match raw_path {
                Some(p) => Some(p@),
                None => None,
            },
        ),
{
    match source {
        MetadataSource::Xmp => "xmp".to_string(),
        MetadataSource::XmpAndRawExif => "xmp".to_string(),
        MetadataSource::RawExif => {
            let ext = match raw_path {
                Some(p) => match p.extension() {
                    Some(e) => lower_chars(&trim_chars(&chars_of(e.as_str()), CharClass::Space)),
                    None => Vec::new(),
                },
                None => Vec::new(),
            };
            if ext.len() == 0 {
                "raw".to_string()
            } else {
                string_of(&ext)
            }
        },
        MetadataSource::JpgExif => "jpg".to_string(),
        MetadataSource::FallbackFileModified => "jpg".to_string(),
    }
}

/// The metadata of a photo, from what its sources gave: the sidecar `xmp`, the RAW companion
/// `raw` at `raw_path`, and the photo itself, `jpg`; each is none where it is not there or
/// could not be read. Without a companion root the first two are none. Where no source gave a
/// date, the date is `fallback_date` and the source is the file's modification time.
pub fn resolve_metadata(
    xmp: Option<PartialMetadata>,
    raw: Option<PartialMetadata>,
    raw_path: Option<&FilePath>,
    jpg: Option<PartialMetadata>,
    fallback_date: CaptureDate,
    jpg_path: &FilePath,
) -> (out: ResolvedMetadata)
    ensures
        out.metadata.source == cascade_source(xmp, raw, jpg),
        out.metadata.source == MetadataSource::FallbackFileModified <==> cascaded(xmp, raw, jpg).date
            is None,
        out.metadata.date == match cascaded(xmp, raw, jpg).date {
            Some(d) => d,
            None => fallback_date,
        },
        out.metadata.camera_make == cascaded(xmp, raw, jpg).camera_make,
        out.metadata.camera_model == cascaded(xmp, raw, jpg).camera_model,
        out.metadata.lens_make == cascaded(xmp, raw, jpg).lens_make,
        out.metadata.lens_model == cascaded(xmp, raw, jpg).lens_model,
        out.metadata.film_sim == cascaded(xmp, raw, jpg).film_sim,
        out.metadata.original_name@ == original_name_of(jpg_path@),
        out.metadata.jpg_path@ == jpg_path@,
        out.source_label@ == source_label_of(
            cascade_source(xmp, raw, jpg),
            match raw_path {
                Some(p) => Some(p@),
                None => None,
            },
        ),
{
    let original_name = match jpg_path.file_stem() {
        Some(stem) => stem,
        None => "untitled".to_string(),
    };
    match xmp {
        Some(mut xmp_meta) => {
            let mut source = MetadataSource::Xmp;
            if metadata_has_missing_fields(&xmp_meta) {
                match &raw {
                    Some(raw_meta) => {
                        let before = xmp_meta.duplicate();
                        xmp_meta.merge_missing_from(raw_meta);
                        if metadata_changed(&before, &xmp_meta) {
                            source = MetadataSource::XmpAndRawExif;
                        }
                    },
                    None => {},
                }
            }
            let merged = if metadata_has_missing_fields(&xmp_meta) {
                merge_with_jpg_fallback(xmp_meta, jpg.as_ref())
            } else {
                xmp_meta
            };
            let metadata = to_photo_metadata(merged, source, fallback_date, original_name, jpg_path);
            ResolvedMetadata {
                source_label: metadata_source_label(metadata.source, raw_path),
                metadata,
            }
        },
        None => match raw {
            Some(raw_meta) => {
                let merged = if metadata_has_missing_fields(&raw_meta) {
                    merge_with_jpg_fallback(raw_meta, jpg.as_ref())
                } else {
                    raw_meta
                };
                let metadata = to_photo_metadata(
                    merged,
                    MetadataSource::RawExif,
                    fallback_date,
                    original_name,
                    jpg_path,
                );
                ResolvedMetadata {
                    source_label: metadata_source_label(metadata.source, raw_path),
                    metadata,
                }
            },
            None => {
                let jpg_meta = match jpg {
                    Some(j) => j,
                    None => PartialMetadata::blank(),
                };
                let metadata = to_photo_metadata(
                    jpg_meta,
                    MetadataSource::JpgExif,
                    fallback_date,
                    original_name,
                    jpg_path,
                );
                ResolvedMetadata {
                    source_label: metadata_source_label(metadata.source, None),
                    metadata,
                }
            },
        },
    }
}

/// The RAW companion of a photo has to be read: there is no sidecar, or the sidecar leaves
/// gaps.
pub fn companion_needed(xmp: Option<&PartialMetadata>) -> (r: bool)
    ensures
        r == (xmp is None || xmp->0.has_gaps()),
{
    match xmp {
        Some(x) => metadata_has_missing_fields(x),
        None => true,
    }
}

/// The photo's own metadata has to be read: the sidecar and the RAW companion together leave
/// gaps, or neither is there.
pub fn own_metadata_needed(xmp: Option<&PartialMetadata>, raw: Option<&PartialMetadata>) -> (r:
    bool)
    ensures
        r == match (xmp, raw) {
            (Some(x), Some(r)) => x.filled_from(*r).has_gaps(),
            (Some(x), None) => x.has_gaps(),
            (None, Some(r)) => r.has_gaps(),
            (None, None) => true,
        },
{
    match (xmp, raw) {
        (Some(x), Some(r)) => {
            let mut merged = x.duplicate();
            merged.merge_missing_from(r);
            metadata_has_missing_fields(&merged)
        },
        (Some(x), None) => metadata_has_missing_fields(x),
        (None, Some(r)) => metadata_has_missing_fields(r),
        (None, None) => true,
    }
}

/// A source that need not be read changes nothing: where the sidecar leaves no gap, the RAW
/// companion and the photo itself add nothing to the metadata and nothing to its label; where
/// the sidecar and the RAW companion together leave no gap, the photo itself adds nothing.
pub proof fn lemma_unneeded_sources_change_nothing(
    xmp: Option<PartialMetadata>,
    raw: Option<PartialMetadata>,
    jpg: Option<PartialMetadata>,
)
    ensures
        xmp is Some && !xmp->0.has_gaps() ==> cascaded(xmp, raw, jpg) == cascaded(xmp, None, None)
            && cascade_source(xmp, raw, jpg) == cascade_source(xmp, None, None),
        xmp is Some && raw is Some && !xmp->0.filled_from(raw->0).has_gaps() ==> cascaded(
            xmp,
            raw,
            jpg,
        ) == cascaded(xmp, raw, None) && cascade_source(xmp, raw, jpg) == cascade_source(
            xmp,
            raw,
            None,
        ),
        xmp is Some && raw is None && !xmp->0.has_gaps() ==> cascaded(xmp, raw, jpg) == cascaded(
            xmp,
            raw,
            None,
        ),
        xmp is None && raw is Some && !raw->0.has_gaps() ==> cascaded(xmp, raw, jpg) == cascaded(
            xmp,
            raw,
            None,
        ) && cascade_source(xmp, raw, jpg) == cascade_source(xmp, raw, None),
{
}

/// The base name that a rendered text becomes: exclusions cut out, runs of white space turned
/// into `_`, separators cleaned up, illegal characters replaced, and the whole bounded in
/// length together with an extension of `ext_len` characters.
pub open spec fn base_name(
    rendered_text: Seq<char>,
    exclusions: Seq<String>,
    ext_len: int,
    max_len: int,
) -> Seq<char> {
    truncated(
        sanitized(
            cleaned(
                squeezed(
                    excluded(rendered_text, exclusions, exclusions.len() as int),
                    false,
                    '_',
                ),
            ),
        ),
        ext_len,
        max_len,
    )
}

/// The extension of a photo with its dot; empty where the photo has none.
pub open spec fn dotted_extension(jpg_path: Seq<PartModel>) -> Seq<char> {
    match path_extension_of(jpg_path) {
        Some(e) => seq!['.'] + e,
        None => Seq::empty(),
    }
}

/// A photo with the name that was rendered for it, before names are made unique.
#[derive(Debug, Clone)]
pub struct PreparedCandidate {
    pub original_path: FilePath,
    pub metadata: PhotoMetadata,
    pub source_label: String,
    pub rendered_base: String,
    pub extension: String,
}

/// The base name of a rendered text.
pub fn render_base(rendered_text: String, exclusions: &[String], extension: &str, max_len: usize) -> (out:
    String)
    ensures
        out@ == base_name(rendered_text@, exclusions@, extension@.len() as int, max_len as int),
{
    let excluded_text = apply_exclusions(rendered_text, exclusions);
    let normalized_spaces = normalize_spaces_to_underscore(excluded_text.as_str());
    let cleaned_text = cleanup_filename(normalized_spaces.as_str());
    let sanitized_text = sanitize_filename(cleaned_text.as_str());
    truncate_filename_if_needed(sanitized_text.as_str(), extension, max_len)
}

fn extension_with_dot(jpg_path: &FilePath) -> (out: String)
    ensures
        out@ == dotted_extension(jpg_path@),
{
    match jpg_path.extension() {
        Some(e) => {
            let mut out: Vec<char> = Vec::new();
            out.push('.');
            append_chars(&mut out, &chars_of(e.as_str()));
            string_of(&out)
        },
        None => String::new(),
    }
}

/// The candidate for one photo, from its resolved metadata: its name is rendered from the
/// template and made into a base name.
pub fn prepare_candidate(
    parts: &[TemplatePart],
    dedupe_same_maker: bool,
    exclusions: &[String],
    max_filename_len: usize,
    jpg_path: &FilePath,
    resolved: ResolvedMetadata,
) -> (out: PreparedCandidate)
    ensures
        out.original_path@ == jpg_path@,
        out.metadata == resolved.metadata,
        out.source_label == resolved.source_label,
        out.extension@ == dotted_extension(jpg_path@),
        out.rendered_base@ == base_name(
            rendered(part_models(parts@), resolved.metadata, dedupe_same_maker),
            exclusions@,
            dotted_extension(jpg_path@).len() as int,
            max_filename_len as int,
        ),
{
    let rendered_text = render_template_with_options(parts, &resolved.metadata, dedupe_same_maker);
    let extension = extension_with_dot(jpg_path);
    let rendered_base = render_base(rendered_text, exclusions, extension.as_str(), max_filename_len);
    PreparedCandidate {
        original_path: jpg_path.duplicate(),
        metadata: resolved.metadata,
        source_label: resolved.source_label,
        rendered_base,
        extension,
    }
}

/// The file name that a template gives for the metadata of a sample photo; the error of the
/// template where it does not parse.
pub fn render_preview_sample(
    template: &str,
    dedupe_same_maker: bool,
    exclusions: &[String],
    metadata: &PhotoMetadata,
    extension_with_dot: &str,
    max_filename_len: usize,
) -> (out: Result<String, TemplateError>)
    ensures
        match out {
            Ok(name) => parsed(template@) is Ok && name@ == base_name(
                rendered(parsed(template@)->Ok_0, *metadata, dedupe_same_maker),
                exclusions@,
                extension_with_dot@.len() as int,
                max_filename_len as int,
            ) + extension_with_dot@,
            Err(e) => parsed(template@) == Err::<Seq<TemplatePartModel>, ErrorModel>(e@),
        },
{
    let parts = match parse_template(template) {
        Ok(parts) => parts,
        Err(e) => { return Err(e); },
    };
    let rendered_text = render_template_with_options(parts.as_slice(), metadata, dedupe_same_maker);
    let base = render_base(rendered_text, exclusions, extension_with_dot, max_filename_len);
    let mut out = chars_of(base.as_str());
    append_chars(&mut out, &chars_of(extension_with_dot));
    Ok(string_of(&out))
}

/// A managed photo: its extension is `jpg` or `jpeg`, whatever the case.
pub open spec fn is_photo(path: Seq<PartModel>) -> bool {
    path_extension_of(path) is Some && (same_ignoring_ascii_case(path_extension_of(path)->0, "jpg"@)
        || same_ignoring_ascii_case(path_extension_of(path)->0, "jpeg"@))
}

/// A hidden file or directory: its name starts with a dot.
pub open spec fn is_dot_name(path: Seq<PartModel>) -> bool {
    file_name_of(path) is Some && file_name_of(path)->0.len() > 0 && file_name_of(path)->0[0]
        == '.'
}

/// Whether a path names a managed photo.
pub fn is_jpg(path: &FilePath) -> (r: bool)
    ensures
        r == is_photo(path@),
{
    match path.extension() {
        Some(ext) => {
            let e = chars_of(ext.as_str());
            equal_ignoring_ascii_case(&e, &chars_of("jpg")) || equal_ignoring_ascii_case(
                &e,
                &chars_of("jpeg"),
            )
        },
        None => false,
    }
}

/// Whether a path names a hidden file or directory.
pub fn is_hidden(path: &FilePath) -> (r: bool)
    ensures
        r == is_dot_name(path@),
{
    match path.file_name() {
        Some(name) => {
            let n = chars_of(name.as_str());
            n.len() > 0 && n[0] == '.'
        },
        None => false,
    }
}

/// One entry met while a directory is walked.
#[derive(Debug, Clone)]
pub struct ScanEntry {
    pub path: FilePath,
    pub is_dir: bool,
    /// How far below the walked root the entry lies; 0 for the root itself.
    pub depth: usize,
}

/// What the walk does with an entry.
#[derive(Debug, Clone, Copy, PartialEq, Eq, Structural)]
pub enum ScanAction {
    /// A hidden directory: it is counted as skipped, and the walk does not go into it.
    SkipDirectory,
    /// Any other directory: nothing is counted.
    PassDirectory,
    /// A hidden file: it is counted as skipped.
    SkipHidden,
    /// A photo: it is counted and taken.
    TakePhoto,
    /// Any other file: it is counted as no photo.
    SkipOther,
}

/// What the walk does with an entry. In a walk that is not recursive directories are passed
/// over; hidden entries count only where hidden entries are not included.
pub open spec fn scan_action(
    path: Seq<PartModel>,
    is_dir: bool,
    depth: int,
    recursive: bool,
    include_hidden: bool,
) -> ScanAction {
    if is_dir {
        if recursive && depth > 0 && !include_hidden && is_dot_name(path) {
            ScanAction::SkipDirectory
        } else {
            ScanAction::PassDirectory
        }
    } else if is_dot_name(path) && !include_hidden {
        ScanAction::SkipHidden
    } else if is_photo(path) {
        ScanAction::TakePhoto
    } else {
        ScanAction::SkipOther
    }
}

/// The counters after an entry was met.
pub open spec fn counted(stats: RenameStats, action: ScanAction) -> RenameStats {
    match action {
        ScanAction::SkipDirectory | ScanAction::SkipHidden => RenameStats {
            skipped_hidden: (stats.skipped_hidden + 1) as usize,
            ..stats
        },
        ScanAction::PassDirectory => stats,
        ScanAction::TakePhoto => RenameStats {
            scanned_files: (stats.scanned_files + 1) as usize,
            jpg_files: (stats.jpg_files + 1) as usize,
            ..stats
        },
        ScanAction::SkipOther => RenameStats {
            scanned_files: (stats.scanned_files + 1) as usize,
            skipped_non_jpg: (stats.skipped_non_jpg + 1) as usize,
            ..stats
        },
    }
}

/// Takes one entry of a walk: counts it, takes it into `out` where it is a photo, and says what
/// the walk does with it.
pub fn scan_step(
    stats: &mut RenameStats,
    out: &mut Vec<FilePath>,
    entry: &ScanEntry,
    recursive: bool,
    include_hidden: bool,
) -> (action: ScanAction)
    requires
        old(stats).scanned_files < usize::MAX,
        old(stats).jpg_files < usize::MAX,
        old(stats).skipped_non_jpg < usize::MAX,
        old(stats).skipped_hidden < usize::MAX,
    ensures
        action == scan_action(entry.path@, entry.is_dir, entry.depth as int, recursive, include_hidden),
        *final(stats) == counted(*old(stats), action),
        path_models(final(out)@) == if action == ScanAction::TakePhoto {
            path_models(old(out)@).push(entry.path@)
        } else {
            path_models(old(out)@)
        },
{
    if entry.is_dir {
        if recursive && entry.depth > 0 && !include_hidden && is_hidden(&entry.path) {
            stats.skipped_hidden += 1;
            return ScanAction::SkipDirectory;
        }
        return ScanAction::PassDirectory;
    }
    if is_hidden(&entry.path) && !include_hidden {
        stats.skipped_hidden += 1;
        return ScanAction::SkipHidden;
    }
    stats.scanned_files += 1;
    if is_jpg(&entry.path) {
        stats.jpg_files += 1;
        out.push(entry.path.duplicate());
        assert(path_models(out@) =~= path_models(old(out)@).push(
            entry.path@,
        ));
        ScanAction::TakePhoto
    } else {
        stats.skipped_non_jpg += 1;
        ScanAction::SkipOther
    }
}

/// What a path names on disk.
#[derive(Debug, Clone, Copy, PartialEq, Eq, Structural)]
pub enum InputKind {
    Missing,
    Directory,
    File,
    Other,
}

/// Why no plan could be made.
#[derive(Debug, Clone, Copy, PartialEq, Eq, Structural)]
pub enum PlanErrorKind {
    /// The companion root does not exist.
    RawFolderMissing,
    /// The companion root is no directory.
    RawFolderNotDirectory,
    /// The input does not exist.
    JpgInputMissing,
    /// The input is neither a directory nor a file.
    JpgInputNotFileOrDirectory,
    /// A file of the input is no photo.
    NotJpgFile,
    /// A path has no parent directory.
    NoParent,
    /// The list of files is empty.
    NoFilesGiven,
    /// A file of the list does not exist.
    JpgFileMissing,
    /// The parent directory of a file cannot be resolved.
    ParentUnresolved,
    /// The files of the list have no directory in common.
    NoCommonRoot,
    /// No numbered name is free.
    NamesExhausted,
}

/// An error of planning: its kind, and the path it is about (empty where it is about none).
#[derive(Debug, Clone)]
pub struct PlanError {
    pub kind: PlanErrorKind,
    pub path: FilePath,
}

fn plan_error(kind: PlanErrorKind, path: &FilePath) -> (out: PlanError)
    ensures
        out.kind == kind,
        out.path@ == path@,
{
    PlanError { kind, path: path.duplicate() }
}

/// The photos of an input, with their roots.
#[derive(Debug, Clone)]
pub struct ResolvedJpgInput {
    pub jpg_root: FilePath,
    pub jpg_roots: Vec<FilePath>,
    pub jpg_files: Vec<FilePath>,
    /// Each file has its own parent directory as its root; else all have `jpg_root`.
    pub root_is_parent: bool,
}

/// Checks the companion root, where one is given: it has to be a directory.
pub fn validate_raw_input(raw_input: Option<&FilePath>, kind: InputKind) -> (out: Result<
    (),
    PlanError,
>)
    ensures
        match out {
            Ok(_) => raw_input is None || kind == InputKind::Directory,
            Err(e) => raw_input is Some && e.path@ == raw_input->0@ && e.kind == if kind
                == InputKind::Missing {
                PlanErrorKind::RawFolderMissing
            } else {
                PlanErrorKind::RawFolderNotDirectory
            } && kind != InputKind::Directory,
        },
{
    match raw_input {
        Some(path) => match kind {
            InputKind::Missing => Err(plan_error(PlanErrorKind::RawFolderMissing, path)),
            InputKind::Directory => Ok(()),
            _ => Err(plan_error(PlanErrorKind::RawFolderNotDirectory, path)),
        },
        None => Ok(()),
    }
}

/// The error that an input of kind `kind` gives; none where the input is accepted.
pub open spec fn input_fault(jpg_input: Seq<PartModel>, kind: InputKind) -> Option<PlanErrorKind> {
    match kind {
        InputKind::Missing => Some(PlanErrorKind::JpgInputMissing),
        InputKind::Directory => None,
        InputKind::Other => Some(PlanErrorKind::JpgInputNotFileOrDirectory),
        InputKind::File => if !is_photo(jpg_input) {
            Some(PlanErrorKind::NotJpgFile)
        } else if parent_of(jpg_input) is None {
            Some(PlanErrorKind::NoParent)
        } else {
            None
        },
    }
}

/// The photos and the root of an input that is a directory or one photo. For a directory,
/// `collected` holds the photos that the walk took, and `stats` what it counted: the photos
/// are put in ascending order. For one photo the counters are set for that photo.
pub fn resolve_jpg_input(
    jpg_input: &FilePath,
    kind: InputKind,
    collected: Vec<FilePath>,
    stats: &mut RenameStats,
) -> (out: Result<ResolvedJpgInput, PlanError>)
    ensures
        match out {
            Ok(r) => input_fault(jpg_input@, kind) is None && path_models(r.jpg_roots@) == seq![
                r.jpg_root@,
            ] && !r.root_is_parent && if kind == InputKind::Directory {
                r.jpg_root@ == jpg_input@ && is_sorted(path_models(r.jpg_files@)) && path_models(
                    r.jpg_files@,
                ).to_multiset() == path_models(collected@).to_multiset() && *final(stats) == *old(
                    stats,
                )
            } else {
                Some(r.jpg_root@) == parent_of(jpg_input@) && path_models(r.jpg_files@) == seq![
                    jpg_input@,
                ] && *final(stats) == (RenameStats {
                    scanned_files: 1,
                    jpg_files: 1,
                    ..*old(stats)
                })
            },
            Err(e) => input_fault(jpg_input@, kind) == Some(e.kind) && e.path@ == jpg_input@
                && *final(stats) == *old(stats),
        },
{
    match kind {
        InputKind::Missing => {
            return Err(plan_error(PlanErrorKind::JpgInputMissing, jpg_input));
        },
        InputKind::Directory => {
            let mut roots: Vec<FilePath> = Vec::new();
            roots.push(jpg_input.duplicate());
            assert(path_models(roots@) =~= seq![jpg_input@]);
            return Ok(
                ResolvedJpgInput {
                    jpg_root: jpg_input.duplicate(),
                    jpg_roots: roots,
                    jpg_files: sort_paths(&collected),
                    root_is_parent: false,
                },
            );
        },
        InputKind::Other => {
            return Err(plan_error(PlanErrorKind::JpgInputNotFileOrDirectory, jpg_input));
        },
        InputKind::File => {},
    }
    if !is_jpg(jpg_input) {
        return Err(plan_error(PlanErrorKind::NotJpgFile, jpg_input));
    }
    let jpg_root = match jpg_input.parent() {
        Some(p) => p,
        None => { return Err(plan_error(PlanErrorKind::NoParent, jpg_input)); },
    };
    stats.scanned_files = 1;
    stats.jpg_files = 1;
    let mut roots: Vec<FilePath> = Vec::new();
    roots.push(jpg_root.duplicate());
    assert(path_models(roots@) =~= seq![jpg_root@]);
    let mut files: Vec<FilePath> = Vec::new();
    files.push(jpg_input.duplicate());
    assert(path_models(files@) =~= seq![jpg_input@]);
    Ok(ResolvedJpgInput { jpg_root, jpg_roots: roots, jpg_files: files, root_is_parent: false })
}

/// The companion root of a photo: the one given; else, where that is asked for, the parent of
/// the photo's root.
pub fn resolve_raw_root_for_file(
    raw_input: Option<&FilePath>,
    raw_from_jpg_parent_when_missing: bool,
    jpg_root_for_file: &FilePath,
) -> (out: Option<FilePath>)
    ensures
        path_model(out) == match raw_input {
            Some(r) => Some(r@),
            None => if raw_from_jpg_parent_when_missing {
                parent_of(jpg_root_for_file@)
            } else {
                None
            },
        },
{
    match raw_input {
        Some(r) => Some(r.duplicate()),
        None => {
            if !raw_from_jpg_parent_when_missing {
                None
            } else {
                jpg_root_for_file.parent()
            }
        },
    }
}

/// Each of `paths` starts with `prefix`.
pub open spec fn is_common_prefix(prefix: Seq<PartModel>, paths: Seq<Seq<PartModel>>) -> bool {
    forall|i: int| 0 <= i < paths.len() ==> starts_with(#[trigger] paths[i], prefix)
}

/// The longest beginning that all of `paths` share, where they are more than one with something
/// in common, or one alone.
pub fn common_ancestor_path(paths: &Vec<FilePath>) -> (out: Option<FilePath>)
    ensures
        match out {
            Some(p) => paths@.len() > 0 && is_common_prefix(p@, path_models(paths@)) && (
            forall|longer: Seq<PartModel>|
                is_common_prefix(longer, path_models(paths@)) ==> longer.len() <= p@.len()) && (
            paths@.len() > 1 ==> p@.len() > 0),
            None => paths@.len() == 0 || (paths@.len() > 1 && forall|prefix: Seq<PartModel>|
                is_common_prefix(prefix, path_models(paths@)) ==> prefix.len() == 0),
        },
{
    if paths.len() == 0 {
        return None;
    }
    let first = &paths[0];
    let mut prefix_len: usize = first.parts.len();
    let mut i: usize = 1;
    proof {
        assert(first@.take(prefix_len as int) == first@);
        assert forall|longer: Seq<PartModel>|
            is_common_prefix(longer, path_models(paths@).take(1)) implies longer.len()
            <= prefix_len by {
            assert(starts_with(path_models(paths@).take(1)[0], longer));
        }
    }
    while i < paths.len()
        invariant
            1 <= i <= paths.len(),
            first@ == paths@[0]@,
            prefix_len <= first@.len(),
            i > 1 ==> prefix_len > 0,
            is_common_prefix(first@.take(prefix_len as int), path_models(paths@).take(i as int)),
            forall|longer: Seq<PartModel>|
                is_common_prefix(longer, path_models(paths@).take(i as int)) ==> longer.len()
                    <= prefix_len,
        decreases paths.len() - i,
    {
        let other = &paths[i];
        let mut matched: usize = 0;
        while matched < prefix_len && matched < other.parts.len() && first.parts[matched].same_as(
            &other.parts[matched],
        )
            invariant
                matched <= prefix_len <= first@.len(),
                matched <= other@.len(),
                first@.len() == first.parts@.len(),
                other@.len() == other.parts@.len(),
                forall|j: int| 0 <= j < matched ==> first@[j] == other@[j],
            decreases prefix_len - matched,
        {
            matched += 1;
        }
        proof {
            let before = path_models(paths@).take(i as int);
            let now = path_models(paths@).take(i + 1);
            let kept = first@.take(matched as int);
            assert(other@.take(matched as int) =~= kept);
            assert forall|k: int| 0 <= k < now.len() implies starts_with(#[trigger] now[k], kept) by {
                if k < i {
                    assert(now[k] == before[k]);
                    assert(starts_with(before[k], first@.take(prefix_len as int)));
                    assert(now[k].take(matched as int) =~= first@.take(prefix_len as int).take(
                        matched as int,
                    ));
                    assert(first@.take(prefix_len as int).take(matched as int) =~= kept);
                } else {
                    assert(now[k] == other@);
                }
            }
            assert forall|longer: Seq<PartModel>| is_common_prefix(longer, now) implies longer.len()
                <= matched by {
                assert forall|k: int| 0 <= k < before.len() implies starts_with(
                    #[trigger] before[k],
                    longer,
                ) by {
                    assert(now[k] == before[k]);
                }
                assert(is_common_prefix(longer, before));
                assert(longer.len() <= prefix_len);
                assert(starts_with(now[i as int], longer));
                assert(starts_with(now[0], longer));
                if longer.len() > matched {
                    assert(other@.take(longer.len() as int)[matched as int] == longer[matched as int]);
                    assert(first@.take(longer.len() as int)[matched as int] == longer[matched as int]);
                }
            }
        }
        prefix_len = matched;
        if prefix_len == 0 {
            proof {
                let now = path_models(paths@).take(i + 1);
                assert forall|prefix: Seq<PartModel>|
                    is_common_prefix(prefix, path_models(paths@)) implies prefix.len() == 0 by {
                    assert forall|k: int| 0 <= k < now.len() implies starts_with(
                        #[trigger] now[k],
                        prefix,
                    ) by {
                        assert(now[k] == path_models(paths@)[k]);
                    }
                    assert(is_common_prefix(prefix, now));
                }
            }
            return None;
        }
        i += 1;
    }
    assert(path_models(paths@).take(paths.len() as int) == path_models(paths@));
    let mut parts: Vec<crate::paths::PathPart> = Vec::new();
    let mut k: usize = 0;
    while k < prefix_len
        invariant
            k <= prefix_len <= first.parts.len(),
            parts@ == first.parts@.take(k as int),
        decreases prefix_len - k,
    {
        parts.push(first.parts[k].duplicate());
        k += 1;
    }
    let out = FilePath { parts };
    assert(out@ =~= first@.take(prefix_len as int));
    Some(out)
}

/// One file of an explicit list, with what the disk says of it.
#[derive(Debug, Clone)]
pub struct ExplicitFile {
    pub path: FilePath,
    pub exists: bool,
    pub is_file: bool,
    /// The resolved form of the file's parent directory; none where it cannot be resolved.
    pub parent_canonical: Option<FilePath>,
}

/// A file with the path `p` is in `list`.
pub open spec fn has_path(list: Seq<ExplicitFile>, p: Seq<PartModel>) -> bool {
    exists|i: int| 0 <= i < list.len() && (#[trigger] list[i]).path@ == p
}

/// The first `n` files without those whose path came before.
pub open spec fn distinct_upto(files: Seq<ExplicitFile>, n: int) -> Seq<ExplicitFile>
    decreases n,
{
    if n <= 0 {
        Seq::empty()
    } else {
        let d = distinct_upto(files, n - 1);
        if has_path(d, files[n - 1].path@) {
            d
        } else {
            d.push(files[n - 1])
        }
    }
}

/// Why a file of an explicit list is refused; none where it is accepted.
pub open spec fn file_fault(f: ExplicitFile) -> Option<PlanErrorKind> {
    if !f.exists {
        Some(PlanErrorKind::JpgFileMissing)
    } else if !f.is_file || !is_photo(f.path@) {
        Some(PlanErrorKind::NotJpgFile)
    } else if parent_of(f.path@) is None {
        Some(PlanErrorKind::NoParent)
    } else if f.parent_canonical is None {
        Some(PlanErrorKind::ParentUnresolved)
    } else {
        None
    }
}

/// The path that the fault of a file is about: its parent where that cannot be resolved, else
/// the file.
pub open spec fn fault_subject(f: ExplicitFile) -> Seq<PartModel> {
    if file_fault(f) == Some(PlanErrorKind::ParentUnresolved) {
        parent_of(f.path@)->0
    } else {
        f.path@
    }
}

/// The position of the first file of `list`, at or after `i`, that is refused; the length of
/// `list` where none is.
pub open spec fn first_fault(list: Seq<ExplicitFile>, i: int) -> int
    decreases list.len() - i,
{
    if i < 0 || i >= list.len() || file_fault(list[i]) is Some {
        i
    } else {
        first_fault(list, i + 1)
    }
}

/// The resolved parent directories of the first `n` files, each once, in the order in which
/// they come.
pub open spec fn canonical_roots_upto(list: Seq<ExplicitFile>, n: int) -> Seq<Seq<PartModel>>
    decreases n,
{
    if n <= 0 {
        Seq::empty()
    } else {
        let c = canonical_roots_upto(list, n - 1);
        let k = list[n - 1].parent_canonical->0@;
        if c.contains(k) {
            c
        } else {
            c.push(k)
        }
    }
}

/// The parent directories, as given, of those of the first `n` files whose resolved parent
/// directory comes for the first time.
pub open spec fn plain_roots_upto(list: Seq<ExplicitFile>, n: int) -> Seq<Seq<PartModel>>
    decreases n,
{
    if n <= 0 {
        Seq::empty()
    } else {
        let r = plain_roots_upto(list, n - 1);
        let k = list[n - 1].parent_canonical->0@;
        if canonical_roots_upto(list, n - 1).contains(k) {
            r
        } else {
            r.push(parent_of(list[n - 1].path@)->0)
        }
    }
}

/// The paths of the first `n` files.
pub open spec fn file_paths_upto(list: Seq<ExplicitFile>, n: int) -> Seq<Seq<PartModel>>
    decreases n,
{
    if n <= 0 {
        Seq::empty()
    } else {
        file_paths_upto(list, n - 1).push(list[n - 1].path@)
    }
}

/// `prefix` is the longest beginning that all of `paths` share.
pub open spec fn is_longest_common_prefix(prefix: Seq<PartModel>, paths: Seq<Seq<PartModel>>) -> bool {
    is_common_prefix(prefix, paths) && forall|longer: Seq<PartModel>|
        is_common_prefix(longer, paths) ==> longer.len() <= prefix.len()
}

/// What an explicit list of files resolves to.
pub open spec fn explicit_result(
    files: Seq<ExplicitFile>,
    stats_before: RenameStats,
    out: Result<ResolvedJpgInput, PlanError>,
    stats_after: RenameStats,
) -> bool {
    let distinct = distinct_upto(files, files.len() as int);
    let n = distinct.len() as int;
    let fault = first_fault(distinct, 0);
    let canonicals = canonical_roots_upto(distinct, n);
    match out {
        Ok(r) => {
            &&& files.len() > 0
            &&& fault >= n
            &&& r.root_is_parent
            &&& is_sorted(path_models(r.jpg_files@))
            &&& path_models(r.jpg_files@).to_multiset() == file_paths_upto(distinct, n).to_multiset()
            &&& is_sorted(path_models(r.jpg_roots@))
            &&& path_models(r.jpg_roots@).to_multiset() == plain_roots_upto(distinct, n).to_multiset()
            &&& is_longest_common_prefix(r.jpg_root@, canonicals)
            &&& canonicals.len() > 1 ==> r.jpg_root@.len() > 0
            &&& stats_after == (RenameStats {
                scanned_files: n as usize,
                jpg_files: n as usize,
                ..stats_before
            })
        },
        Err(e) => if files.len() == 0 {
            e.kind == PlanErrorKind::NoFilesGiven
        } else if fault < n {
            Some(e.kind) == file_fault(distinct[fault]) && e.path@ == fault_subject(distinct[fault])
        } else {
            e.kind == PlanErrorKind::NoCommonRoot && canonicals.len() > 1 && forall|
                prefix: Seq<PartModel>,
            |
                is_common_prefix(prefix, canonicals) ==> prefix.len() == 0
        },
    }
}

/// The photos and roots of an explicit list of files: the files without repetitions, in
/// ascending order; as roots the parent directories of the files, one for each resolved
/// directory; as common root the longest beginning that the resolved directories share. A file
/// that is missing, is no file or no photo, or whose parent cannot be had, is an error, and so
/// is a list whose directories have nothing in common.
pub fn resolve_explicit_jpg_files(files: &Vec<ExplicitFile>, stats: &mut RenameStats) -> (out:
    Result<ResolvedJpgInput, PlanError>)
    ensures
        explicit_result(files@, *old(stats), out, *final(stats)),
{
    if files.len() == 0 {
        return Err(plan_error(PlanErrorKind::NoFilesGiven, &FilePath::new()));
    }
    let ghost all = distinct_upto(files@, files@.len() as int);
    let mut unique: Vec<usize> = Vec::new();
    let mut unique_paths: Vec<FilePath> = Vec::new();
    let mut i: usize = 0;
    while i < files.len()
        invariant
            i <= files.len(),
            unique@.len() == distinct_upto(files@, i as int).len(),
            unique_paths@.len() == unique@.len(),
            forall|k: int|
                0 <= k < unique@.len() ==> 0 <= #[trigger] unique@[k] < files@.len() && files@[unique@[k] as int]
                    == distinct_upto(files@, i as int)[k],
            forall|k: int|
                0 <= k < unique@.len() ==> (#[trigger] path_models(unique_paths@)[k]) == distinct_upto(
                    files@,
                    i as int,
                )[k].path@,
        decreases files.len() - i,
    {
        let ghost d = distinct_upto(files@, i as int);
        let seen = paths_contain(&unique_paths, &files[i].path);
        proof {
            if seen {
                let k = choose|k: int|
                    0 <= k < path_models(unique_paths@).len() && path_models(unique_paths@)[k]
                        == files@[i as int].path@;
                assert(d[k].path@ == files@[i as int].path@);
            } else if has_path(d, files@[i as int].path@) {
                let k = choose|k: int| 0 <= k < d.len() && (#[trigger] d[k]).path@ == files@[i as int].path@;
                assert(path_models(unique_paths@)[k] == files@[i as int].path@);
            }
        }
        if !seen {
            let ghost paths_before = path_models(unique_paths@);
            unique.push(i);
            unique_paths.push(files[i].path.duplicate());
            assert(path_models(unique_paths@) =~= paths_before.push(files@[i as int].path@));
        }
        i += 1;
    }
    let count = unique.len();
    let mut canonicals: Vec<FilePath> = Vec::new();
    let mut roots: Vec<FilePath> = Vec::new();
    let mut k: usize = 0;
    while k < count
        invariant
            k <= count,
            count == unique@.len(),
            all == distinct_upto(files@, files@.len() as int),
            all.len() == count,
            forall|j: int|
                0 <= j < unique@.len() ==> 0 <= #[trigger] unique@[j] < files@.len() && files@[unique@[j] as int]
                    == all[j],
            first_fault(all, 0) == first_fault(all, k as int),
            path_models(canonicals@) == canonical_roots_upto(all, k as int),
            path_models(roots@) == plain_roots_upto(all, k as int),
            *stats == *old(stats),
        decreases count - k,
    {
        let file = &files[unique[k]];
        assert(*file == all[k as int]);
        if !file.exists {
            return Err(plan_error(PlanErrorKind::JpgFileMissing, &file.path));
        }
        if !file.is_file || !is_jpg(&file.path) {
            return Err(plan_error(PlanErrorKind::NotJpgFile, &file.path));
        }
        let parent = match file.path.parent() {
            Some(p) => p,
            None => { return Err(plan_error(PlanErrorKind::NoParent, &file.path)); },
        };
        let canonical = match &file.parent_canonical {
            Some(c) => c,
            None => { return Err(plan_error(PlanErrorKind::ParentUnresolved, &parent)); },
        };
        if !paths_contain(&canonicals, canonical) {
            canonicals.push(canonical.duplicate());
            roots.push(parent);
            assert(path_models(canonicals@) =~= canonical_roots_upto(all, k as int).push(canonical@));
            assert(path_models(roots@) =~= plain_roots_upto(all, k as int).push(
                parent_of(file.path@)->0,
            ));
        }
        k += 1;
    }
    proof {
        lemma_first_fault_at_end(all, count as int);
        lemma_file_paths(all, path_models(unique_paths@), count as int);
        assert(path_models(unique_paths@).take(count as int) == path_models(unique_paths@));
        lemma_distinct_nonempty(files@, files@.len() as int);
        lemma_canonical_nonempty(all, count as int);
    }
    let jpg_files = sort_paths(&unique_paths);
    let jpg_roots = sort_paths(&roots);
    let jpg_root = match common_ancestor_path(&canonicals) {
        Some(root) => root,
        None => {
            return Err(plan_error(PlanErrorKind::NoCommonRoot, &FilePath::new()));
        },
    };
    stats.scanned_files = count;
    stats.jpg_files = count;
    Ok(ResolvedJpgInput { jpg_root, jpg_roots, jpg_files, root_is_parent: true })
}

proof fn lemma_distinct_nonempty(files: Seq<ExplicitFile>, n: int)
    requires
        0 < n <= files.len(),
    ensures
        distinct_upto(files, n).len() > 0,
    decreases n,
{
    if n > 1 {
        lemma_distinct_nonempty(files, n - 1);
    }
}

proof fn lemma_canonical_nonempty(list: Seq<ExplicitFile>, n: int)
    requires
        0 < n <= list.len(),
    ensures
        canonical_roots_upto(list, n).len() > 0,
    decreases n,
{
    if n > 1 {
        lemma_canonical_nonempty(list, n - 1);
    }
}

proof fn lemma_first_fault_at_end(list: Seq<ExplicitFile>, n: int)
    requires
        n == list.len(),
    ensures
        first_fault(list, n) == n,
{
}

proof fn lemma_file_paths(list: Seq<ExplicitFile>, paths: Seq<Seq<PartModel>>, n: int)
    requires
        0 <= n <= list.len(),
        n <= paths.len(),
        forall|k: int| 0 <= k < n ==> (#[trigger] paths[k]) == list[k].path@,
    ensures
        file_paths_upto(list, n) == paths.take(n),
    decreases n,
{
    if n > 0 {
        lemma_file_paths(list, paths, n - 1);
        assert(paths.take(n - 1).push(paths[n - 1]) =~= paths.take(n));
    } else {
        assert(paths.take(0) =~= Seq::<Seq<PartModel>>::empty());
    }
}

/// The number `n` as it is put behind a name: an underscore and at least three digits.
pub open spec fn numbered_suffix(n: nat) -> Seq<char> {
    seq!['_'] + zero_padded(n, 3)
}

/// The `n`-th name tried for a base and an extension: the base itself for 0, else the base with
/// the number behind it, bounded again in length.
#[verifier::opaque]
pub open spec fn numbered_name(base: Seq<char>, ext: Seq<char>, n: nat, max_len: int) -> Seq<char> {
    if n == 0 {
        base + ext
    } else {
        truncated(base + numbered_suffix(n), ext.len() as int, max_len) + ext
    }
}

/// The `n`-th target tried for a photo in the directory `parent`.
pub open spec fn numbered_target(
    parent: Seq<PartModel>,
    base: Seq<char>,
    ext: Seq<char>,
    n: nat,
    max_len: int,
) -> Seq<PartModel> {
    joined(parent, name_path(numbered_name(base, ext, n, max_len)))
}

/// The path `candidate` can be claimed for the photo at `original`: none has claimed it, and it
/// is the photo's own path or names nothing that exists.
pub open spec fn is_free(
    candidate: Seq<PartModel>,
    original: Seq<PartModel>,
    planned: Seq<Seq<PartModel>>,
    existing: Seq<Seq<PartModel>>,
) -> bool {
    !planned.contains(candidate) && (candidate == original || !existing.contains(candidate))
}

/// `n` is the first number whose target is free.
pub open spec fn is_first_free(
    original: Seq<PartModel>,
    base: Seq<char>,
    ext: Seq<char>,
    max_len: int,
    planned: Seq<Seq<PartModel>>,
    existing: Seq<Seq<PartModel>>,
    n: nat,
) -> bool {
    let parent = parent_of(original)->0;
    &&& n < usize::MAX
    &&& is_free(numbered_target(parent, base, ext, n, max_len), original, planned, existing)
    &&& forall|m: nat|
        m < n ==> !is_free(
            #[trigger] numbered_target(parent, base, ext, m, max_len),
            original,
            planned,
            existing,
        )
}

/// The target that a photo gets: the first free one among its numbered targets; none where the
/// photo has no parent directory or no number below the largest gives a free target.
pub open spec fn target_for(
    original: Seq<PartModel>,
    base: Seq<char>,
    ext: Seq<char>,
    max_len: int,
    planned: Seq<Seq<PartModel>>,
    existing: Seq<Seq<PartModel>>,
) -> Option<Seq<PartModel>> {
    if parent_of(original) is None {
        None
    } else if exists|n: nat| is_first_free(original, base, ext, max_len, planned, existing, n) {
        Some(
            numbered_target(
                parent_of(original)->0,
                base,
                ext,
                choose|n: nat| is_first_free(original, base, ext, max_len, planned, existing, n),
                max_len,
            ),
        )
    } else {
        None
    }
}

proof fn lemma_first_free_is_unique(
    original: Seq<PartModel>,
    base: Seq<char>,
    ext: Seq<char>,
    max_len: int,
    planned: Seq<Seq<PartModel>>,
    existing: Seq<Seq<PartModel>>,
    a: nat,
    b: nat,
)
    requires
        is_first_free(original, base, ext, max_len, planned, existing, a),
        is_first_free(original, base, ext, max_len, planned, existing, b),
    ensures
        a == b,
{
    let parent = parent_of(original)->0;
    if a < b {
        assert(!is_free(numbered_target(parent, base, ext, a, max_len), original, planned, existing));
    } else if b < a {
        assert(!is_free(numbered_target(parent, base, ext, b, max_len), original, planned, existing));
    }
}

proof fn lemma_first_free_is_target(
    original: Seq<PartModel>,
    base: Seq<char>,
    ext: Seq<char>,
    max_len: int,
    planned: Seq<Seq<PartModel>>,
    existing: Seq<Seq<PartModel>>,
    n: nat,
)
    requires
        parent_of(original) is Some,
        n < usize::MAX,
        is_free(
            numbered_target(parent_of(original)->0, base, ext, n, max_len),
            original,
            planned,
            existing,
        ),
        forall|m: nat|
            m < n ==> !is_free(
                #[trigger] numbered_target(parent_of(original)->0, base, ext, m, max_len),
                original,
                planned,
                existing,
            ),
    ensures
        target_for(original, base, ext, max_len, planned, existing) == Some(
            numbered_target(parent_of(original)->0, base, ext, n, max_len),
        ),
{
    assert(is_first_free(original, base, ext, max_len, planned, existing, n));
    let chosen = choose|k: nat| is_first_free(original, base, ext, max_len, planned, existing, k);
    lemma_first_free_is_unique(original, base, ext, max_len, planned, existing, n, chosen);
}

proof fn lemma_nothing_free(
    original: Seq<PartModel>,
    base: Seq<char>,
    ext: Seq<char>,
    max_len: int,
    planned: Seq<Seq<PartModel>>,
    existing: Seq<Seq<PartModel>>,
)
    requires
        forall|m: nat|
            m < usize::MAX ==> !is_free(
                #[trigger] numbered_target(parent_of(original)->0, base, ext, m, max_len),
                original,
                planned,
                existing,
            ),
    ensures
        target_for(original, base, ext, max_len, planned, existing) is None,
{
    assert forall|k: nat| !is_first_free(original, base, ext, max_len, planned, existing, k) by {
        if k < usize::MAX {
            assert(!is_free(
                numbered_target(parent_of(original)->0, base, ext, k, max_len),
                original,
                planned,
                existing,
            ));
        }
    }
}

/// Whether `candidate` can be claimed for the photo at `original_path`.
pub fn is_available(
    candidate: &FilePath,
    original_path: &FilePath,
    planned_paths: &Vec<FilePath>,
    existing: &Vec<FilePath>,
) -> (r: bool)
    ensures
        r == is_free(candidate@, original_path@, path_models(planned_paths@), path_models(existing@)),
{
    if paths_contain(planned_paths, candidate) {
        return false;
    }
    if candidate.same_as(original_path) {
        return true;
    }
    !paths_contain(existing, candidate)
}

/// The number `n` behind `base`, with the extension, does not fit the limit.
pub open spec fn is_overlong(base: Seq<char>, ext: Seq<char>, n: nat, max_len: int) -> bool {
    n > 0 && base.len() + numbered_suffix(n).len() + ext.len() > max_len
}

/// Once a numbered name does not fit, no larger number gives another name: what is cut off
/// takes the number with it.
pub proof fn lemma_overlong_names_repeat(
    base: Seq<char>,
    ext: Seq<char>,
    n: nat,
    m: nat,
    max_len: int,
)
    requires
        n <= m,
        is_overlong(base, ext, n, max_len),
    ensures
        numbered_name(base, ext, m, max_len) == numbered_name(base, ext, n, max_len),
{
    reveal(numbered_name);
    crate::text::lemma_zero_padded(n, m, 3);
    crate::text::lemma_zero_padded(m, m, 3);
    assert(base + numbered_suffix(n) =~= base + seq!['_'] + zero_padded(n, 3));
    assert(base + numbered_suffix(m) =~= base + seq!['_'] + zero_padded(m, 3));
    crate::sanitize::lemma_truncated_ignores_what_is_cut_off(
        base,
        zero_padded(n, 3),
        zero_padded(m, 3),
        ext.len() as int,
        max_len,
    );
}

fn numbered_file_name(base: &Vec<char>, ext: &Vec<char>, n: usize, max_len: usize) -> (out: (
    String,
    bool,
))
    ensures
        out.0@ == numbered_name(base@, ext@, n as nat, max_len as int),
        out.1 == is_overlong(base@, ext@, n as nat, max_len as int),
{
    let mut name: Vec<char> = Vec::new();
    append_chars(&mut name, base);
    assert(name@ == base@);
    reveal(numbered_name);
    let mut overlong = false;
    if n > 0 {
        name.push('_');
        push_padded(&mut name, n as u128, 3);
        assert(name@ == base@ + numbered_suffix(n as nat)) by {
            assert(base@.push('_') + zero_padded(n as nat, 3) =~= base@ + (seq!['_'] + zero_padded(
                n as nat,
                3,
            )));
        }
        overlong = name.len() > max_len || ext.len() > max_len - name.len();
        name = crate::sanitize::truncate_chars(&name, ext.len(), max_len);
    }
    append_chars(&mut name, ext);
    (string_of(&name), overlong)
}

/// Claims a target for the photo at `original_path`: the first free one among the names
/// `base`, `base_001`, `base_002`, ... with the extension, in the photo's directory. `existing`
/// holds the paths that exist in that directory. The search ends without a target at the first
/// numbered name that does not fit the limit and is not free: all names after it are the same.
pub fn resolve_collision(
    original_path: &FilePath,
    base: &str,
    extension: &str,
    planned_paths: &mut Vec<FilePath>,
    max_len: usize,
    existing: &Vec<FilePath>,
) -> (out: Result<FilePath, PlanError>)
    ensures
        match out {
            Ok(target) => target_for(
                original_path@,
                base@,
                extension@,
                max_len as int,
                path_models(old(planned_paths)@),
                path_models(existing@),
            ) == Some(target@) && path_models(final(planned_paths)@) == path_models(
                old(planned_paths)@,
            ).push(target@),
            Err(e) => target_for(
                original_path@,
                base@,
                extension@,
                max_len as int,
                path_models(old(planned_paths)@),
                path_models(existing@),
            ) is None && path_models(final(planned_paths)@) == path_models(old(planned_paths)@)
                && e.path@ == original_path@ && e.kind == if parent_of(original_path@) is None {
                PlanErrorKind::NoParent
            } else {
                PlanErrorKind::NamesExhausted
            },
        },
{
    let parent = match original_path.parent() {
        Some(p) => p,
        None => { return Err(plan_error(PlanErrorKind::NoParent, original_path)); },
    };
    let base_chars = chars_of(base);
    let ext_chars = chars_of(extension);
    let ghost planned = path_models(planned_paths@);
    let ghost listed = path_models(existing@);
    let ghost cap = max_len as int;
    let mut n: usize = 0;
    while n < usize::MAX
        invariant
            *planned_paths == *old(planned_paths),
            planned == path_models(planned_paths@),
            listed == path_models(existing@),
            cap == max_len as int,
            base_chars@ == base@,
            ext_chars@ == extension@,
            parent_of(original_path@) == Some(parent@),
            forall|m: nat|
                m < n ==> !is_free(
                    #[trigger] numbered_target(parent@, base@, extension@, m, cap),
                    original_path@,
                    planned,
                    listed,
                ),
        decreases usize::MAX - n,
    {
        let (name, overlong) = numbered_file_name(&base_chars, &ext_chars, n, max_len);
        let candidate = parent.join_name(name.as_str());
        if is_available(&candidate, original_path, planned_paths, existing) {
            proof {
                lemma_first_free_is_target(
                    original_path@,
                    base@,
                    extension@,
                    cap,
                    planned,
                    listed,
                    n as nat,
                );
            }
            planned_paths.push(candidate.duplicate());
            assert(path_models(planned_paths@) =~= planned.push(candidate@));
            return Ok(candidate);
        }
        if overlong {
            proof {
                assert forall|m: nat| m < usize::MAX implies !is_free(
                    #[trigger] numbered_target(parent@, base@, extension@, m, cap),
                    original_path@,
                    planned,
                    listed,
                ) by {
                    if m >= n {
                        lemma_overlong_names_repeat(base@, extension@, n as nat, m, cap);
                    }
                }
                lemma_nothing_free(original_path@, base@, extension@, cap, planned, listed);
            }
            return Err(plan_error(PlanErrorKind::NamesExhausted, original_path));
        }
        n += 1;
    }
    proof {
        lemma_nothing_free(original_path@, base@, extension@, cap, planned, listed);
    }
    Err(plan_error(PlanErrorKind::NamesExhausted, original_path))
}

/// The targets that the first `n` prepared photos get, each claimed in its turn; none where one
/// of them gets no target.
pub open spec fn targets_upto(
    prepared: Seq<PreparedCandidate>,
    max_len: int,
    existing: Seq<Seq<PartModel>>,
    n: int,
) -> Option<Seq<Seq<PartModel>>>
    decreases n,
{
    if n <= 0 {
        Some(Seq::empty())
    } else {
        match targets_upto(prepared, max_len, existing, n - 1) {
            Some(claimed) => match target_for(
                prepared[n - 1].original_path@,
                prepared[n - 1].rendered_base@,
                prepared[n - 1].extension@,
                max_len,
                claimed,
                existing,
            ) {
                Some(t) => Some(claimed.push(t)),
                None => None,
            },
            None => None,
        }
    }
}

/// How many of the first `n` candidates keep their path.
pub open spec fn unchanged_upto(candidates: Seq<RenameCandidate>, n: int) -> int
    decreases n,
{
    if n <= 0 {
        0
    } else {
        unchanged_upto(candidates, n - 1) + if candidates[n - 1].changed {
            0int
        } else {
            1int
        }
    }
}

/// The candidate was made from the prepared photo, with `target` as its target.
pub open spec fn made_from(c: RenameCandidate, p: PreparedCandidate, target: Seq<PartModel>) -> bool {
    &&& c.original_path@ == p.original_path@
    &&& c.target_path@ == target
    &&& c.metadata_source == p.metadata.source
    &&& c.source_label == p.source_label
    &&& c.metadata == p.metadata
    &&& c.rendered_base == p.rendered_base
    &&& c.changed == (target != p.original_path@)
}

/// The targets of candidates.
pub open spec fn target_models(candidates: Seq<RenameCandidate>) -> Seq<Seq<PartModel>> {
    candidates.map_values(|c: RenameCandidate| c.target_path@)
}

/// Targets claimed in turn differ from each other, and none names something that exists, but
/// for a photo's own path.
pub proof fn lemma_targets_do_not_collide(
    prepared: Seq<PreparedCandidate>,
    max_len: int,
    existing: Seq<Seq<PartModel>>,
    n: int,
)
    requires
        0 <= n <= prepared.len(),
        targets_upto(prepared, max_len, existing, n) is Some,
    ensures
        targets_upto(prepared, max_len, existing, n)->0.len() == n,
        forall|i: int, j: int|
            0 <= i < j < n ==> targets_upto(prepared, max_len, existing, n)->0[i] != targets_upto(
                prepared,
                max_len,
                existing,
                n,
            )->0[j],
        forall|i: int|
            0 <= i < n ==> {
                let t = #[trigger] targets_upto(prepared, max_len, existing, n)->0[i];
                t == prepared[i].original_path@ || !existing.contains(t)
            },
    decreases n,
{
    if n > 0 {
        lemma_targets_do_not_collide(prepared, max_len, existing, n - 1);
        let claimed = targets_upto(prepared, max_len, existing, n - 1)->0;
        let p = prepared[n - 1];
        let t = target_for(
            p.original_path@,
            p.rendered_base@,
            p.extension@,
            max_len,
            claimed,
            existing,
        )->0;
        let k = choose|k: nat|
            is_first_free(
                p.original_path@,
                p.rendered_base@,
                p.extension@,
                max_len,
                claimed,
                existing,
                k,
            );
        assert(is_free(t, p.original_path@, claimed, existing));
        let all = targets_upto(prepared, max_len, existing, n)->0;
        assert(all == claimed.push(t));
        assert forall|i: int, j: int| 0 <= i < j < n implies all[i] != all[j] by {
            if j == n - 1 {
                if all[i] == t {
                    assert(claimed[i] == t);
                    assert(claimed.contains(t));
                }
            } else {
                assert(all[i] == claimed[i] && all[j] == claimed[j]);
            }
        }
        assert forall|i: int| 0 <= i < n implies {
            let t = #[trigger] all[i];
            t == prepared[i].original_path@ || !existing.contains(t)
        } by {
            if i < n - 1 {
                assert(all[i] == claimed[i]);
            }
        }
    }
}

/// What building a plan from prepared photos gives.
pub open spec fn plan_result(
    options: PlanOptions,
    resolved: ResolvedJpgInput,
    stats: RenameStats,
    prepared: Seq<PreparedCandidate>,
    existing: Seq<Seq<PartModel>>,
    out: Result<RenamePlan, PlanError>,
) -> bool {
    let cap = options.max_filename_len as int;
    let n = prepared.len() as int;
    match out {
        Ok(plan) => {
            &&& targets_upto(prepared, cap, existing, n) == Some(target_models(plan.candidates@))
            &&& plan.candidates@.len() == n
            &&& forall|i: int|
                0 <= i < n ==> made_from(
                    #[trigger] plan.candidates@[i],
                    prepared[i],
                    target_models(plan.candidates@)[i],
                )
            &&& forall|i: int, j: int|
                0 <= i < j < n ==> (#[trigger] plan.candidates@[i]).target_path@
                    != (#[trigger] plan.candidates@[j]).target_path@
            &&& forall|i: int|
                0 <= i < n ==> {
                    let c = #[trigger] plan.candidates@[i];
                    c.target_path@ == c.original_path@ || !existing.contains(c.target_path@)
                }
            &&& plan.jpg_root@ == resolved.jpg_root@
            &&& path_models(plan.jpg_roots@) == path_models(resolved.jpg_roots@)
            &&& plan.template@ == options.template@
            &&& plan.exclusions@ == options.exclusions@
            &&& plan.stats == (RenameStats {
                planned: n as usize,
                unchanged: unchanged_upto(plan.candidates@, n) as usize,
                ..stats
            })
            &&& 0 <= unchanged_upto(plan.candidates@, n) <= n
        },
        Err(e) => exists|i: int|
            0 <= i < n && (#[trigger] targets_upto(prepared, cap, existing, i)) is Some
                && targets_upto(prepared, cap, existing, i + 1) is None && e.path@
                == prepared[i].original_path@ && e.kind == if parent_of(prepared[i].original_path@)
                is None {
                PlanErrorKind::NoParent
            } else {
                PlanErrorKind::NamesExhausted
            },
    }
}

fn copy_texts(list: &Vec<String>) -> (out: Vec<String>)
    ensures
        out@ == list@,
{
    let mut out: Vec<String> = Vec::new();
    let mut i: usize = 0;
    while i < list.len()
        invariant
            i <= list.len(),
            out@ == list@.take(i as int),
        decreases list.len() - i,
    {
        out.push(list[i].clone());
        i += 1;
    }
    assert(list@.take(list.len() as int) == list@);
    out
}

/// Builds the plan from the prepared photos, taken in their order: each gets the first free
/// target among its numbered names, which makes the targets of a plan differ from each other
/// and from everything in `existing` but a photo's own path. `existing` holds the paths that
/// exist in the directories of the photos.
pub fn generate_plan_with_resolved_jpg_input(
    options: &PlanOptions,
    resolved: ResolvedJpgInput,
    stats: RenameStats,
    prepared: Vec<PreparedCandidate>,
    existing: &Vec<FilePath>,
) -> (out: Result<RenamePlan, PlanError>)
    ensures
        plan_result(*options, resolved, stats, prepared@, path_models(existing@), out),
{
    let ghost cap = options.max_filename_len as int;
    let ghost listed = path_models(existing@);
    let mut candidates: Vec<RenameCandidate> = Vec::new();
    let mut planned_paths: Vec<FilePath> = Vec::new();
    let mut unchanged: usize = 0;
    let total = prepared.len();
    assert(path_models(planned_paths@) =~= Seq::<Seq<PartModel>>::empty());
    assert(target_models(candidates@) =~= Seq::<Seq<PartModel>>::empty());
    for item in it: prepared
        invariant
            it.seq() == prepared@,
            prepared@.len() == total,
            cap == options.max_filename_len as int,
            listed == path_models(existing@),
            candidates@.len() == it.index(),
            targets_upto(prepared@, cap, listed, it.index() as int) == Some(
                target_models(candidates@),
            ),
            path_models(planned_paths@) == target_models(candidates@),
            forall|i: int|
                0 <= i < it.index() ==> made_from(
                    #[trigger] candidates@[i],
                    prepared@[i],
                    target_models(candidates@)[i],
                ),
            unchanged == unchanged_upto(candidates@, it.index() as int),
            0 <= unchanged <= it.index(),
    {
        let ghost index = it.index() as int;
        let ghost before = candidates@;
        let target = match resolve_collision(
            &item.original_path,
            item.rendered_base.as_str(),
            item.extension.as_str(),
            &mut planned_paths,
            options.max_filename_len,
            existing,
        ) {
            Ok(t) => t,
            Err(e) => {
                assert(targets_upto(prepared@, cap, listed, index + 1) is None);
                return Err(e);
            },
        };
        let changed = !target.same_as(&item.original_path);
        if !changed {
            unchanged += 1;
        }
        candidates.push(
            RenameCandidate {
                original_path: item.original_path,
                target_path: target,
                metadata_source: item.metadata.source,
                source_label: item.source_label,
                metadata: item.metadata,
                rendered_base: item.rendered_base,
                changed,
            },
        );
        proof {
            assert(target_models(candidates@) =~= target_models(before).push(target@));
            assert forall|i: int| 0 <= i < index + 1 implies made_from(
                #[trigger] candidates@[i],
                prepared@[i],
                target_models(candidates@)[i],
            ) by {
                if i < index {
                    assert(candidates@[i] == before[i]);
                    assert(target_models(before)[i] == target_models(candidates@)[i]);
                }
            }
            lemma_unchanged_prefix(before, candidates@, index);
        }
    }
    let ghost n = prepared@.len() as int;
    proof {
        lemma_targets_do_not_collide(prepared@, cap, listed, n);
        assert forall|i: int, j: int| 0 <= i < j < n implies (#[trigger] candidates@[i]).target_path@
            != (#[trigger] candidates@[j]).target_path@ by {
            assert(target_models(candidates@)[i] == candidates@[i].target_path@);
            assert(target_models(candidates@)[j] == candidates@[j].target_path@);
        }
        assert forall|i: int| 0 <= i < n implies {
            let c = #[trigger] candidates@[i];
            c.target_path@ == c.original_path@ || !listed.contains(c.target_path@)
        } by {
            assert(target_models(candidates@)[i] == candidates@[i].target_path@);
            assert(made_from(candidates@[i], prepared@[i], target_models(candidates@)[i]));
        }
    }
    let mut plan_stats = stats;
    plan_stats.planned = candidates.len();
    plan_stats.unchanged = unchanged;
    Ok(
        RenamePlan {
            jpg_root: resolved.jpg_root,
            jpg_roots: resolved.jpg_roots,
            template: options.template.clone(),
            exclusions: copy_texts(&options.exclusions),
            candidates,
            stats: plan_stats,
        },
    )
}

proof fn lemma_unchanged_prefix(before: Seq<RenameCandidate>, after: Seq<RenameCandidate>, n: int)
    requires
        0 <= n <= before.len(),
        n <= after.len(),
        forall|i: int| 0 <= i < n ==> before[i] == after[i],
    ensures
        unchanged_upto(before, n) == unchanged_upto(after, n),
    decreases n,
{
    if n > 0 {
        lemma_unchanged_prefix(before, after, n - 1);
    }
}

/// The metadata of the sample photo that a preview is rendered for where no photo is at hand:
/// fixed but for its date.
pub fn fixed_sample_metadata(date: CaptureDate) -> (out: PhotoMetadata)
    ensures
        out.source == MetadataSource::JpgExif,
        out.date == date,
        text_of(out.camera_make) == Some("FUJIFILM"@),
        text_of(out.camera_model) == Some("X-H2"@),
        text_of(out.lens_make) == Some("FUJIFILM"@),
        text_of(out.lens_model) == Some("XF35mm F1.4 R"@),
        text_of(out.film_sim) == Some("PROVIA"@),
        out.original_name@ == "DSC00001"@,
        out.jpg_path@ == name_path("DSC00001.JPG"@),
{
    let jpg_path = FilePath::new().join_name("DSC00001.JPG");
    PhotoMetadata {
        source: MetadataSource::JpgExif,
        date,
        camera_make: Some("FUJIFILM".to_string()),
        camera_model: Some("X-H2".to_string()),
        lens_make: Some("FUJIFILM".to_string()),
        lens_model: Some("XF35mm F1.4 R".to_string()),
        film_sim: Some("PROVIA".to_string()),
        original_name: "DSC00001".to_string(),
        jpg_path,
    }
}

/// The folder that a path stands for: the path itself where it names a directory, its parent
/// where it names a file that has one; none in all other cases.
pub fn normalize_to_folder(path: &FilePath, kind: InputKind) -> (out: Option<FilePath>)
    ensures
        path_model(out) == match kind {
            InputKind::Directory => Some(path@),
            InputKind::File => parent_of(path@),
            _ => None,
        },
{
    match kind {
        InputKind::Directory => Some(path.duplicate()),
        InputKind::File => path.parent(),
        _ => None,
    }
}

} // verus!
