use crate::paths::FilePath;
use crate::text::{chars_of, string_of, trim, trim_chars, CharClass};
use vstd::prelude::*;

verus! {

/// Where the metadata of a photo came from.
#[derive(Debug, Clone, Copy, PartialEq, Eq, Structural)]
pub enum MetadataSource {
    JpgExif,
    Xmp,
    RawExif,
    XmpAndRawExif,
    FallbackFileModified,
}

/// A capture time, as the fields of a calendar date and a time of day.
#[derive(Debug, Clone, Copy, PartialEq, Eq, Structural)]
pub struct CaptureDate {
    pub year: i32,
    pub month: u32,
    pub day: u32,
    pub hour: u32,
    pub minute: u32,
    pub second: u32,
}

impl CaptureDate {
    /// The fields are those of a calendar date and a time of day.
    pub open spec fn well_formed(self) -> bool {
        &&& 1 <= self.month <= 12
        &&& 1 <= self.day <= 31
        &&& self.hour <= 23
        &&& self.minute <= 59
        &&& self.second <= 59
    }
}

/// The metadata of one photo. The date is always there: the time at which the file was last
/// modified stands in where no source gave one, and the source then says so.
#[derive(Debug, Clone)]
pub struct PhotoMetadata {
    pub source: MetadataSource,
    pub date: CaptureDate,
    pub camera_make: Option<String>,
    pub camera_model: Option<String>,
    pub lens_make: Option<String>,
    pub lens_model: Option<String>,
    pub film_sim: Option<String>,
    pub original_name: String,
    pub jpg_path: FilePath,
}

/// The metadata that one source gave: each field is there or not.
#[derive(Debug, Clone)]
pub struct PartialMetadata {
    pub date: Option<CaptureDate>,
    pub camera_make: Option<String>,
    pub camera_model: Option<String>,
    pub lens_make: Option<String>,
    pub lens_model: Option<String>,
    pub film_sim: Option<String>,
}

/// A maker's name without the white space around it; none where nothing is left.
pub open spec fn normalized_make(make: Option<String>) -> Option<Seq<char>> {
    match make {
        Some(s) => {
            let t = trim(s@, CharClass::Space);
            if t.len() == 0 {
                None
            } else {
                Some(t)
            }
        },
        None => None,
    }
}

/// The text of an optional string.
pub open spec fn text_of(value: Option<String>) -> Option<Seq<char>> {
    match value {
        Some(s) => Some(s@),
        None => None,
    }
}

/// `first` where it is there, else `second`.
pub open spec fn or_else<T>(first: Option<T>, second: Option<T>) -> Option<T> {
    if first is Some {
        first
    } else {
        second
    }
}

/// A copy of an optional text.
pub fn clone_text(value: &Option<String>) -> (out: Option<String>)
    ensures
        out == *value,
{
    match value {
        Some(s) => Some(s.clone()),
        None => None,
    }
}

fn normalize_make(make: &Option<String>) -> (out: Option<String>)
    ensures
        text_of(out) == normalized_make(*make),
{
    match make {
        Some(s) => {
            let t = trim_chars(&chars_of(s.as_str()), CharClass::Space);
            if t.len() == 0 {
                None
            } else {
                Some(string_of(&t))
            }
        },
        None => None,
    }
}

impl PhotoMetadata {
    /// The maker of the camera without the white space around it; none where nothing is left.
    pub fn normalized_camera_make(&self) -> (out: Option<String>)
        ensures
            text_of(out) == normalized_make(self.camera_make),
    {
        normalize_make(&self.camera_make)
    }

    /// The maker of the lens without the white space around it; none where nothing is left.
    pub fn normalized_lens_make(&self) -> (out: Option<String>)
        ensures
            text_of(out) == normalized_make(self.lens_make),
    {
        normalize_make(&self.lens_make)
    }
}

impl PartialMetadata {
    /// No field is there.
    pub open spec fn is_blank(self) -> bool {
        &&& self.date is None
        &&& self.camera_make is None
        &&& self.camera_model is None
        &&& self.lens_make is None
        &&& self.lens_model is None
        &&& self.film_sim is None
    }

    /// At least one field is not there.
    pub open spec fn has_gaps(self) -> bool {
        ||| self.date is None
        ||| self.camera_make is None
        ||| self.camera_model is None
        ||| self.lens_make is None
        ||| self.lens_model is None
        ||| self.film_sim is None
    }

    /// `self` with each field that is not there taken from `fallback`.
    pub open spec fn filled_from(self, fallback: PartialMetadata) -> PartialMetadata {
        PartialMetadata {
            date: or_else(self.date, fallback.date),
            camera_make: or_else(self.camera_make, fallback.camera_make),
            camera_model: or_else(self.camera_model, fallback.camera_model),
            lens_make: or_else(self.lens_make, fallback.lens_make),
            lens_model: or_else(self.lens_model, fallback.lens_model),
            film_sim: or_else(self.film_sim, fallback.film_sim),
        }
    }

    /// Metadata in which no field is there.
    pub fn blank() -> (out: PartialMetadata)
        ensures
            out.is_blank(),
    {
        PartialMetadata {
            date: None,
            camera_make: None,
            camera_model: None,
            lens_make: None,
            lens_model: None,
            film_sim: None,
        }
    }

    /// A copy.
    pub fn duplicate(&self) -> (out: PartialMetadata)
        ensures
            out == *self,
    {
        PartialMetadata {
            date: self.date,
            camera_make: clone_text(&self.camera_make),
            camera_model: clone_text(&self.camera_model),
            lens_make: clone_text(&self.lens_make),
            lens_model: clone_text(&self.lens_model),
            film_sim: clone_text(&self.film_sim),
        }
    }

    /// Fills each field that is not there from `fallback`; a field that is there stays.
    pub fn merge_missing_from(&mut self, fallback: &PartialMetadata)
        ensures
            *final(self) == old(self).filled_from(*fallback),
    {
        if self.date.is_none() {
            self.date = fallback.date;
        }
        if self.camera_make.is_none() {
            self.camera_make = clone_text(&fallback.camera_make);
        }
        if self.camera_model.is_none() {
            self.camera_model = clone_text(&fallback.camera_model);
        }
        if self.lens_make.is_none() {
            self.lens_make = clone_text(&fallback.lens_make);
        }
        if self.lens_model.is_none() {
            self.lens_model = clone_text(&fallback.lens_model);
        }
        if self.film_sim.is_none() {
            self.film_sim = clone_text(&fallback.film_sim);
        }
    }
}

/// Filling from a fallback never changes a field that is there, and a second filling from the
/// same fallback changes nothing.
pub proof fn lemma_fill_keeps_present(base: PartialMetadata, fallback: PartialMetadata)
    ensures
        base.date is Some ==> base.filled_from(fallback).date == base.date,
        base.camera_make is Some ==> base.filled_from(fallback).camera_make == base.camera_make,
        base.camera_model is Some ==> base.filled_from(fallback).camera_model == base.camera_model,
        base.lens_make is Some ==> base.filled_from(fallback).lens_make == base.lens_make,
        base.lens_model is Some ==> base.filled_from(fallback).lens_model == base.lens_model,
        base.film_sim is Some ==> base.filled_from(fallback).film_sim == base.film_sim,
        base.filled_from(fallback).filled_from(fallback) == base.filled_from(fallback),
{
}

} // verus!
