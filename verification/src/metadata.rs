use vstd::prelude::*;

verus! {

/// `exif::Exif`, the attributes that the exif crate has parsed out of one file.
#[verifier::external_type_specification]
#[verifier::external_body]
pub struct ExExif(exif::Exif);

/// `exif::Error`, the reason for which the exif crate gave a file up.
#[verifier::external_type_specification]
#[verifier::external_body]
pub struct ExExifError(exif::Error);

/// The number of the Exif field that holds the date and time at which a
/// picture was taken.
pub const DATE_TIME_ORIGINAL: u16 = 0x9003;

/// The number of the image file directory of the main image.
pub const PRIMARY: u16 = 0;

/// The form in which a date and time is read. A field that holds
/// `YYYY:MM:DD HH:MM:SS` is shown by the exif crate with hyphens in the
/// date, and it is that text which is parsed.
pub const DATE_FORMAT: &'static str = "%Y-%m-%d %H:%M:%S";

/// The attributes that `exif::Reader::read_from_container` finds in a file
/// of these bytes, `None` where it returns an error.
pub uninterp spec fn container_exif(bytes: Seq<u8>) -> Option<exif::Exif>;

/// The text that the exif crate shows for the Exif field of the given
/// number in the given image file directory, `None` where the attributes
/// hold no such field.
pub uninterp spec fn exif_field_text(exif: exif::Exif, number: u16, ifd: u16) -> Option<Seq<char>>;

/// The year and the month of the date and time that
/// `chrono::NaiveDateTime::parse_from_str` reads from `text` under
/// `format`, `None` where it returns an error.
pub uninterp spec fn parsed_year_month(text: Seq<char>, format: Seq<char>) -> Option<(i32, u32)>;

/// Calls `exif::Reader::read_from_container` on the bytes of a file. The
/// contract only names what comes back: the same bytes give the same
/// attributes or the same refusal.
#[verifier::external_body]
fn read_container(bytes: &[u8]) -> (result: Result<exif::Exif, exif::Error>)
    ensures
        match result {
            Ok(exif) => container_exif(bytes@) == Some(exif),
            Err(_) => container_exif(bytes@) is None,
        },
{
    exif::Reader::new().read_from_container(&mut std::io::Cursor::new(bytes))
}

/// Calls `exif::Exif::get_field` for the Exif field of the given number and
/// image file directory and, where there is one, renders it with
/// `exif::Field::display_value` and `with_unit`. The contract only names
/// what comes back.
#[verifier::external_body]
fn field_text(exif: &exif::Exif, number: u16, ifd: u16) -> (text: Option<String>)
    ensures
        match text {
            Some(text) => exif_field_text(*exif, number, ifd) == Some(text@),
            None => exif_field_text(*exif, number, ifd) is None,
        },
{
    exif.get_field(exif::Tag(exif::Context::Exif, number), exif::In(ifd)).map(
        |field| field.display_value().with_unit(exif).to_string(),
    )
}

/// Calls `chrono::NaiveDateTime::parse_from_str` and takes the year and the
/// month of what it returns. The contract only names what comes back.
#[verifier::external_body]
fn parse_year_month(text: &str, format: &str) -> (date: Option<(i32, u32)>)
    ensures
        date == parsed_year_month(text@, format@),
{
    chrono::NaiveDateTime::parse_from_str(text, format).ok().map(
        |at| (chrono::Datelike::year(&at), chrono::Datelike::month(&at)),
    )
}

/// The year and the month that a date-and-time text stands for, `None`
/// where it is no date and time in the form `DATE_FORMAT`.
pub open spec fn datetime_of(text: Seq<char>) -> Option<(i32, u32)> {
    parsed_year_month(text, DATE_FORMAT@)
}

/// The year and the month at which the picture in a file of these bytes
/// was taken: `None` where the file is no container of Exif attributes,
/// where the attributes lack the field, and where the field holds no date
/// and time.
pub open spec fn capture_date(bytes: Seq<u8>) -> Option<(i32, u32)> {
    match container_exif(bytes) {
        None => None,
        Some(exif) => match exif_field_text(exif, DATE_TIME_ORIGINAL, PRIMARY) {
            None => None,
            Some(text) => datetime_of(text),
        },
    }
}

/// Reads the year and the month from a date-and-time text.
pub fn parse_datetime(text: &str) -> (date: Option<(i32, u32)>)
    ensures
        date == datetime_of(text@),
{
    parse_year_month(text, DATE_FORMAT)
}

/// Reads from the bytes of a file the year and the month at which the
/// picture was taken. A file without such a date is no error: it has no
/// date.
pub fn get_datetime_original(bytes: &[u8]) -> (date: Option<(i32, u32)>)
    ensures
        date == capture_date(bytes@),
{
    let exif = match read_container(bytes) {
        Ok(exif) => exif,
        Err(_) => return None,
    };
    match field_text(&exif, DATE_TIME_ORIGINAL, PRIMARY) {
        None => None,
        Some(text) => parse_datetime(text.as_str()),
    }
}

} // verus!
