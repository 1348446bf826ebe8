use furl_core::text::ParseIntKind;
use furl_core::{HeaderError, HeaderUtils};
use reqwest::header::{HeaderMap, HeaderValue, CONTENT_DISPOSITION, CONTENT_RANGE};

fn with_disposition(value: &str) -> HeaderMap {
    let mut headers = HeaderMap::new();
    headers.insert(CONTENT_DISPOSITION, value.parse().unwrap());
    headers
}

fn with_range(value: &str) -> HeaderMap {
    let mut headers = HeaderMap::new();
    headers.insert(CONTENT_RANGE, value.parse().unwrap());
    headers
}

#[test]
fn filename_missing_header() {
    assert_eq!(HeaderMap::new().extract_filename(), Err(HeaderError::FilenameNotFound));
}

#[test]
fn filename_without_key() {
    assert_eq!(with_disposition("inline").extract_filename(), Err(HeaderError::FilenameNotFound));
}

#[test]
fn filename_unquoted() {
    assert_eq!(
        with_disposition("attachment; filename=report.pdf").extract_filename(),
        Ok("report.pdf".to_string())
    );
}

#[test]
fn filename_stops_at_second_key() {
    // The second piece of the split runs up to the next `filename=`.
    assert_eq!(
        with_disposition("attachment; filename=\"a.txt\"; filename=\"b.txt\"").extract_filename(),
        Ok("a.txt\"; ".to_string())
    );
}

#[test]
fn filename_all_quotes_is_empty() {
    assert_eq!(with_disposition("attachment; filename=\"\"\"").extract_filename(), Ok(String::new()));
}

#[test]
fn filename_not_visible_ascii() {
    let mut headers = HeaderMap::new();
    headers.insert(
        CONTENT_DISPOSITION,
        HeaderValue::from_bytes(b"attachment; filename=\xe9t\xe9.bin").unwrap(),
    );
    assert_eq!(headers.extract_filename(), Err(HeaderError::NotVisibleAscii));
}

#[test]
fn filename_uses_first_value() {
    let mut headers = with_disposition("attachment; filename=first.bin");
    headers.append(CONTENT_DISPOSITION, "attachment; filename=second.bin".parse().unwrap());
    assert_eq!(headers.extract_filename(), Ok("first.bin".to_string()));
}

#[test]
fn size_missing_header() {
    assert_eq!(HeaderMap::new().extract_file_size(), Err(HeaderError::ContentRangeNotFound));
}

#[test]
fn size_unknown_total() {
    assert_eq!(
        with_range("bytes 0-0/*").extract_file_size(),
        Err(HeaderError::InvalidFileSize(ParseIntKind::InvalidDigit))
    );
}

#[test]
fn size_without_slash() {
    assert_eq!(with_range("12345").extract_file_size(), Ok(12345));
}

#[test]
fn size_with_plus_sign() {
    assert_eq!(with_range("bytes 0-0/+7").extract_file_size(), Ok(7));
}

#[test]
fn size_rejects_signs_spaces_and_overflow() {
    let digit = Err(HeaderError::InvalidFileSize(ParseIntKind::InvalidDigit));
    assert_eq!(with_range("bytes 0-0/-5").extract_file_size(), digit);
    assert_eq!(with_range("bytes 0-0/ 5").extract_file_size(), digit);
    assert_eq!(with_range("bytes 0-0/+").extract_file_size(), digit);
    assert_eq!(with_range("bytes 0-0/-").extract_file_size(), digit);
    assert_eq!(
        with_range("bytes 0-0/").extract_file_size(),
        Err(HeaderError::InvalidFileSize(ParseIntKind::Empty))
    );
    assert_eq!(
        with_range("bytes 0-0/18446744073709551616").extract_file_size(),
        Err(HeaderError::InvalidFileSize(ParseIntKind::PosOverflow))
    );
    // The first offending character decides, as in `u64::from_str`.
    assert_eq!(
        with_range("bytes 0-0/184467440737095516160x").extract_file_size(),
        Err(HeaderError::InvalidFileSize(ParseIntKind::PosOverflow))
    );
    assert_eq!(with_range("bytes 0-0/12x99999999999999999999").extract_file_size(), digit);
}

#[test]
fn size_largest_value() {
    assert_eq!(
        with_range("bytes 0-0/18446744073709551615").extract_file_size(),
        Ok(u64::MAX)
    );
}

#[test]
fn size_read_back_of_written_range() {
    // Law: `bytes <a>-<b>/<total>` gives back `<total>`.
    for total in [0u64, 9, 10, 360996864, u64::MAX] {
        let value = format!("bytes 0-{}/{}", total, total);
        assert_eq!(with_range(&value).extract_file_size(), Ok(total));
    }
}

#[test]
fn size_not_visible_ascii() {
    let mut headers = HeaderMap::new();
    headers.insert(CONTENT_RANGE, HeaderValue::from_bytes(b"bytes 0-0/1\xff").unwrap());
    assert_eq!(headers.extract_file_size(), Err(HeaderError::NotVisibleAscii));
}

#[test]
fn lookup_ignores_name_case_on_insert() {
    let mut headers = HeaderMap::new();
    headers.insert("Content-Range", "bytes 0-9/10".parse().unwrap());
    assert_eq!(headers.extract_file_size(), Ok(10));
}

#[test]
fn filename_read_back_of_written_disposition() {
    // Law: `<prefix>filename="<name>"` gives back `<name>`.
    for (prefix, name) in [("attachment; ", "a b.txt"), ("inline;", "x"), ("", "archive.tar.gz")] {
        let value = format!("{}filename=\"{}\"", prefix, name);
        assert_eq!(with_disposition(&value).extract_filename(), Ok(name.to_string()));
    }
}

#[test]
fn error_messages() {
    assert_eq!(HeaderError::FilenameNotFound.message(), "Unable to extract filename");
    assert_eq!(HeaderError::ContentRangeNotFound.message(), "Content_range not found");
    let to_str = HeaderValue::from_bytes(b"\xff").unwrap().to_str().unwrap_err().to_string();
    assert_eq!(HeaderError::NotVisibleAscii.message(), to_str);
    let cases = [
        ("", ParseIntKind::Empty),
        ("1x", ParseIntKind::InvalidDigit),
        ("18446744073709551616", ParseIntKind::PosOverflow),
    ];
    for (text, kind) in cases {
        let std_message = text.parse::<u64>().unwrap_err().to_string();
        assert_eq!(HeaderError::InvalidFileSize(kind).message(), std_message);
    }
}

#[test]
fn size_errors_match_u64_from_str() {
    for text in ["", "+", "-", "-0", "+0", "007", "1 ", "18446744073709551615", "18446744073709551616",
                 "99999999999999999999x", "x99999999999999999999"] {
        let value = format!("bytes 0-0/{}", text);
        let ours = with_range(&value).extract_file_size().map_err(|e| e.message());
        let std = text.parse::<u64>().map_err(|e| e.to_string());
        assert_eq!(ours, std, "{:?}", text);
    }
}
