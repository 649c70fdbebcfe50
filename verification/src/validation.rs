//! Photo-creation requests and their validation: the builder that collects
//! the uploaded fields, the rules that reject incomplete requests, and the
//! date check behind them.

use vstd::prelude::*;

use chrono::Datelike;

use crate::models::Date;

verus! {

/// What a date string parses to: the year, month and day of the calendar
/// date the text denotes, or nothing when the text is not a date.
pub uninterp spec fn date_from_str(s: Seq<char>) -> Option<(i32, u32, u32)>;

/// Relies on chrono's `str::parse::<NaiveDate>` (the `%Y-%m-%d` format,
/// depending on the characters alone) and on `Datelike`'s `year`, `month`
/// and `day`, whose results range over 1..=12 and 1..=31 for a valid date.
#[verifier::external_body]
fn parse_date(s: &str) -> (r: Option<(i32, u32, u32)>)
    ensures
        r == date_from_str(s@),
        r matches Some(d) ==> 1 <= d.1 <= 12 && 1 <= d.2 <= 31,
{
    match s.parse::<chrono::NaiveDate>() {
        Ok(d) => Some((d.year(), d.month(), d.day())),
        Err(_) => None,
    }
}

/// A request to register a photo's details, with the date already parsed.
pub struct PhotoCreateRequest {
    pub title: String,
    pub location_taken: String,
    pub date_taken: Date,
    pub filename: String,
}

/// The field a photo-creation request is missing (a date that does not
/// parse counts as missing).
#[derive(Clone, Copy, Debug, PartialEq, Eq, Structural)]
pub enum PhotoCreateRequestBuilderError {
    TitleRequired,
    LocationTakenRequired,
    DateTakenRequired,
    FilenameRequired,
}

/// Collects the fields of a photo-creation request as they arrive (from a
/// multipart upload, say), to be checked all at once by `build`.
pub struct PhotoCreateRequestBuilder {
    title: String,
    location_taken: String,
    date_taken: String,
    filename: String,
}

impl PhotoCreateRequestBuilder {
    /// The collected title, for specification purposes.
    pub closed spec fn title_spec(self) -> Seq<char> {
        self.title@
    }

    /// The collected location, for specification purposes.
    pub closed spec fn location_taken_spec(self) -> Seq<char> {
        self.location_taken@
    }

    /// The collected date text, for specification purposes.
    pub closed spec fn date_taken_spec(self) -> Seq<char> {
        self.date_taken@
    }

    /// The collected filename, for specification purposes.
    pub closed spec fn filename_spec(self) -> Seq<char> {
        self.filename@
    }

    /// A builder with every field still empty.
    pub fn new() -> (r: Self)
        ensures
            r.title_spec().len() == 0,
            r.location_taken_spec().len() == 0,
            r.date_taken_spec().len() == 0,
            r.filename_spec().len() == 0,
    {
        Self::default()
    }

    /// Set the title.
    pub fn title(self, title: String) -> (r: Self)
        ensures
            r.title_spec() == title@,
            r.location_taken_spec() == self.location_taken_spec(),
            r.date_taken_spec() == self.date_taken_spec(),
            r.filename_spec() == self.filename_spec(),
    {
        PhotoCreateRequestBuilder {
            title,
            location_taken: self.location_taken,
            date_taken: self.date_taken,
            filename: self.filename,
        }
    }

    /// Set the location the photo was taken at.
    pub fn location_taken(self, location_taken: String) -> (r: Self)
        ensures
            r.title_spec() == self.title_spec(),
            r.location_taken_spec() == location_taken@,
            r.date_taken_spec() == self.date_taken_spec(),
            r.filename_spec() == self.filename_spec(),
    {
        PhotoCreateRequestBuilder {
            title: self.title,
            location_taken,
            date_taken: self.date_taken,
            filename: self.filename,
        }
    }

    /// Set the date the photo was taken, as text still to be parsed.
    pub fn date_taken(self, date_taken: String) -> (r: Self)
        ensures
            r.title_spec() == self.title_spec(),
            r.location_taken_spec() == self.location_taken_spec(),
            r.date_taken_spec() == date_taken@,
            r.filename_spec() == self.filename_spec(),
    {
        PhotoCreateRequestBuilder {
            title: self.title,
            location_taken: self.location_taken,
            date_taken,
            filename: self.filename,
        }
    }

    /// Set the filename.
    pub fn filename(self, filename: String) -> (r: Self)
        ensures
            r.title_spec() == self.title_spec(),
            r.location_taken_spec() == self.location_taken_spec(),
            r.date_taken_spec() == self.date_taken_spec(),
            r.filename_spec() == filename@,
    {
        PhotoCreateRequestBuilder {
            title: self.title,
            location_taken: self.location_taken,
            date_taken: self.date_taken,
            filename,
        }
    }

    /// Check the collected fields and assemble the request. Each field must
    /// be non-empty (checked in the order title, location, date, filename)
    /// and the date text must parse; the first failure names the field at
    /// fault, and a request is returned exactly when all checks pass.
    pub fn build(self) -> (r: Result<PhotoCreateRequest, PhotoCreateRequestBuilderError>)
        ensures
            match r {
                Ok(req) => {
                    &&& self.title_spec().len() > 0
                    &&& self.location_taken_spec().len() > 0
                    &&& self.date_taken_spec().len() > 0
                    &&& self.filename_spec().len() > 0
                    &&& date_from_str(self.date_taken_spec()) is Some
                    &&& req.title@ == self.title_spec()
                    &&& req.location_taken@ == self.location_taken_spec()
                    &&& req.filename@ == self.filename_spec()
                    &&& ({
                        let d = date_from_str(self.date_taken_spec())->Some_0;
                        req.date_taken == (Date { year: d.0, month: d.1 as u8, day: d.2 as u8 })
                    })
                    &&& req.date_taken.wf()
                },
                Err(e) => match e {
                    PhotoCreateRequestBuilderError::TitleRequired => self.title_spec().len() == 0,
                    PhotoCreateRequestBuilderError::LocationTakenRequired => {
                        &&& self.title_spec().len() > 0
                        &&& self.location_taken_spec().len() == 0
                    },
                    PhotoCreateRequestBuilderError::DateTakenRequired => {
                        &&& self.title_spec().len() > 0
                        &&& self.location_taken_spec().len() > 0
                        &&& (self.date_taken_spec().len() == 0 || (self.filename_spec().len() > 0
                            && date_from_str(self.date_taken_spec()) is None))
                    },
                    PhotoCreateRequestBuilderError::FilenameRequired => {
                        &&& self.title_spec().len() > 0
                        &&& self.location_taken_spec().len() > 0
                        &&& self.date_taken_spec().len() > 0
                        &&& self.filename_spec().len() == 0
                    },
                },
            },
    {
        if self.title.as_str().is_empty() {
            return Err(PhotoCreateRequestBuilderError::TitleRequired);
        }
        if self.location_taken.as_str().is_empty() {
            return Err(PhotoCreateRequestBuilderError::LocationTakenRequired);
        }
        if self.date_taken.as_str().is_empty() {
            return Err(PhotoCreateRequestBuilderError::DateTakenRequired);
        }
        if self.filename.as_str().is_empty() {
            return Err(PhotoCreateRequestBuilderError::FilenameRequired);
        }
        match parse_date(self.date_taken.as_str()) {
            Some(d) => Ok(
                PhotoCreateRequest {
                    title: self.title,
                    location_taken: self.location_taken,
                    date_taken: Date { year: d.0, month: d.1 as u8, day: d.2 as u8 },
                    filename: self.filename,
                },
            ),
            None => Err(PhotoCreateRequestBuilderError::DateTakenRequired),
        }
    }
}

impl Default for PhotoCreateRequestBuilder {
    /// A builder with every field still empty.
    fn default() -> (r: Self)
        ensures
            r.title_spec().len() == 0,
            r.location_taken_spec().len() == 0,
            r.date_taken_spec().len() == 0,
            r.filename_spec().len() == 0,
    {
        PhotoCreateRequestBuilder {
            title: String::new(),
            location_taken: String::new(),
            date_taken: String::new(),
            filename: String::new(),
        }
    }
}

/// A photo as the domain service receives it for creation.
pub struct CreatePhotoRequest {
    pub name: String,
    pub description: String,
    pub url: String,
}

/// Checks photo-creation requests for the domain service.
pub struct PhotoValidator;

impl PhotoValidator {
    /// A request is valid exactly when its name, description and url are
    /// all non-empty.
    pub fn validate_photo(&self, photo: &CreatePhotoRequest) -> (r: bool)
        ensures
            r == (photo.name@.len() > 0 && photo.description@.len() > 0 && photo.url@.len() > 0),
    {
        !photo.name.as_str().is_empty() && !photo.description.as_str().is_empty()
            && !photo.url.as_str().is_empty()
    }
}

/// What an upload reports back: the size of the stored file.
pub struct UploadedPhotoViewModel {
    pub file_size: usize,
}

impl UploadedPhotoViewModel {
    /// Record an upload of `file_size` bytes.
    pub fn new(file_size: usize) -> (r: Self)
        ensures
            r.file_size == file_size,
    {
        UploadedPhotoViewModel { file_size }
    }
}

/// The outcome of an upload request.
pub enum UploadPhotoResponses {
    Success(UploadedPhotoViewModel),
    UploadError,
}

} // verus!
