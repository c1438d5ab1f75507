use exif::experimental;
use exif::{Field, In, Tag, Value};
use image::RgbImage;
use img_sort::metadata::{
    get_datetime_original, parse_datetime, DATE_FORMAT, DATE_TIME_ORIGINAL, PRIMARY,
};
use std::collections::HashSet;
use std::error::Error;
use std::io::{BufWriter, Cursor, Read, Write};
use std::path::PathBuf;
use tempfile::TempDir;

fn create_image_with_metadata(path: &PathBuf, datetime: &str) -> Result<(), Box<dyn Error>> {
    // Create and save image
    let img = RgbImage::new(32, 32);
    img.save(path)?;

    // Put a new file in the image's place to hold the EXIF data
    let mut file = tempfile::NamedTempFile::new_in(path.parent().unwrap())?;
    let mut writer = BufWriter::new(&mut file);

    // Add the DateTimeOriginal tag
    let mut exif_writer = experimental::Writer::new();
    let datetime_original = Field {
        tag: Tag::DateTimeOriginal,
        ifd_num: In::PRIMARY,
        value: Value::Ascii(vec![datetime.as_bytes().to_vec()]),
    };

    exif_writer.push_field(&datetime_original);
    exif_writer.write(&mut writer, false)?;
    writer.flush()?;
    drop(writer);
    file.persist(path)?;

    Ok(())
}

fn touch(dir: &TempDir, names: &[&str], datetime: Option<&str>) {
    for name in names {
        let file_path = dir.path().join(name);

        if let Some(datetime) = datetime {
            create_image_with_metadata(&file_path, datetime)
                .expect("Failed to create a test file with metadata");
        } else {
            tempfile::Builder::new()
                .prefix(*name)
                .rand_bytes(0)
                .tempfile_in(dir.path())
                .and_then(|file| file.keep().map_err(|error| error.error))
                .expect("Failed to create a test file");
        }
    }
}

fn read(path: &PathBuf) -> Vec<u8> {
    let mut bytes = Vec::new();
    image::io::Reader::open(path)
        .unwrap()
        .into_inner()
        .read_to_end(&mut bytes)
        .unwrap();
    bytes
}

fn exif_bytes(fields: &[Field]) -> Vec<u8> {
    let mut writer = experimental::Writer::new();
    for field in fields {
        writer.push_field(field);
    }
    let mut bytes = Cursor::new(Vec::new());
    writer
        .write(&mut bytes, false)
        .expect("Failed to write the test attributes");
    bytes.into_inner()
}

fn taken(tag: Tag, ifd_num: In, datetime: &str) -> Field {
    Field {
        tag,
        ifd_num,
        value: Value::Ascii(vec![datetime.as_bytes().to_vec()]),
    }
}

#[test]
fn find_existing_datetime() {
    // Ensure that datetimes found are as expected
    let dir = TempDir::new().expect("Failed to create temporary folder");
    let dir_path = dir.path().to_path_buf();
    let files = ["a.png", "b.PNG", "c.jpg", "d.JPG", "e.jpeg", "f.JPEG"];

    // Need metadata or else find will error
    touch(&dir, &files, Some("2024:01:01 00:00:00"));

    // Collect datetimes
    let datetimes: HashSet<Option<(i32, u32)>> = files
        .iter()
        .map(|name| dir_path.join(name))
        .map(|f| get_datetime_original(&read(&f)))
        .collect();

    let expected_datetimes: HashSet<Option<(i32, u32)>> = HashSet::from([Some((2024, 1))]);
    assert_eq!(datetimes, expected_datetimes, "Expected datetime results");
}

#[test]
fn find_non_existing_datetime() {
    // Ensure that no datetime is correctly handled
    let dir = TempDir::new().expect("Failed to create temporary folder");
    let dir_path = dir.path().to_path_buf();
    let files = ["a.png", "b.PNG", "c.jpg", "d.JPG", "e.jpeg", "f.JPEG"];

    // Create files without metadata
    touch(&dir, &files, None);

    // Collect datetimes
    let datetimes: HashSet<Option<(i32, u32)>> = files
        .iter()
        .map(|name| dir_path.join(name))
        .map(|f| get_datetime_original(&read(&f)))
        .collect();

    let expected_datetimes: HashSet<Option<(i32, u32)>> = HashSet::from([None]);
    assert_eq!(datetimes, expected_datetimes, "Expected datetime results");
}

#[test]
fn field_and_format_are_fixed() {
    assert_eq!(DATE_TIME_ORIGINAL, 0x9003);
    assert_eq!(DATE_TIME_ORIGINAL, Tag::DateTimeOriginal.number());
    assert_eq!(PRIMARY, In::PRIMARY.index());
    assert_eq!(DATE_FORMAT, "%Y-%m-%d %H:%M:%S");
}

#[test]
fn date_is_read_from_the_bytes() {
    let bytes = exif_bytes(&[taken(Tag::DateTimeOriginal, In::PRIMARY, "1999:12:31 23:59:59")]);

    assert_eq!(get_datetime_original(&bytes), Some((1999, 12)));
}

#[test]
fn other_date_fields_do_not_count() {
    let bytes = exif_bytes(&[
        taken(Tag::DateTime, In::PRIMARY, "2020:02:02 02:02:02"),
        taken(Tag::DateTimeDigitized, In::PRIMARY, "2021:03:03 03:03:03"),
    ]);

    assert_eq!(get_datetime_original(&bytes), None);
}

#[test]
fn malformed_date_is_no_date() {
    for datetime in [
        "not a date and time",
        "2024:13:01 00:00:00",
        "2024:02:30 00:00:00",
        "2024:01:01 24:00:00",
        "2024-01-01 00:00:00",
        "    :  :     :  :  ",
        "",
    ] {
        let bytes = exif_bytes(&[taken(Tag::DateTimeOriginal, In::PRIMARY, datetime)]);
        assert_eq!(get_datetime_original(&bytes), None, "{datetime}");
    }
}

#[test]
fn bytes_that_are_no_container_have_no_date() {
    assert_eq!(get_datetime_original(&[]), None);
    assert_eq!(get_datetime_original(b"2024:01:01 00:00:00"), None);
    assert_eq!(get_datetime_original(&[0xff, 0xd8, 0xff, 0xd9]), None);
}

#[test]
fn text_is_parsed_as_date_and_time() {
    assert_eq!(parse_datetime("2024-01-01 00:00:00"), Some((2024, 1)));
    assert_eq!(parse_datetime("0001-11-30 12:34:56"), Some((1, 11)));
    assert_eq!(parse_datetime("2024-02-29 23:59:59"), Some((2024, 2)));
    assert_eq!(parse_datetime("2023-02-29 23:59:59"), None);
    assert_eq!(parse_datetime("2024:01:01 00:00:00"), None);
    assert_eq!(parse_datetime("2024-01-01"), None);
    assert_eq!(parse_datetime("2024-00-01 00:00:00"), None);
    assert_eq!(parse_datetime(""), None);
}
