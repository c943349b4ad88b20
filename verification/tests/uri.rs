use std::str::FromStr;

use dryguard::lsp::uri::{absolute_path_of, file_uri_of, path_of, AbsolutePathError, PathUriError, UriPathError};
use lsp_types::Uri;

const CURRENT: &str = "/work/repo";

fn uri(text: &str) -> Uri {
    Uri::from_str(text).expect("a URI")
}

#[test]
fn test_file_uri_of_an_absolute_path_keeps_the_separators() {
    let uri = file_uri_of("/home/user/src/pad.ts").expect("a URI");

    assert_eq!(uri.as_str(), "file:///home/user/src/pad.ts");
}

#[test]
fn test_file_uri_of_a_path_with_a_space_encodes_it() {
    let uri = file_uri_of("/home/user/my src/pad.ts").expect("a URI");

    assert_eq!(uri.as_str(), "file:///home/user/my%20src/pad.ts");
}

#[test]
fn test_file_uri_of_a_path_outside_ascii_encodes_each_utf8_byte() {
    let uri = file_uri_of("/home/user/請求/pad.ts").expect("a URI");

    assert_eq!(uri.as_str(), "file:///home/user/%E8%AB%8B%E6%B1%82/pad.ts");
}

#[test]
fn test_file_uri_of_a_path_with_a_percent_encodes_it() {
    let uri = file_uri_of("/home/user/100%/pad.ts").expect("a URI");

    assert_eq!(uri.as_str(), "file:///home/user/100%25/pad.ts");
}

#[test]
fn test_file_uri_of_a_path_with_placeable_punctuation_leaves_it_as_written() {
    let uri = file_uri_of("/home/user/@scope/a+b/pad.ts").expect("a URI");

    assert_eq!(uri.as_str(), "file:///home/user/@scope/a+b/pad.ts");
}

#[test]
fn test_file_uri_of_the_root_directory_keeps_a_path() {
    let uri = file_uri_of("/").expect("a URI");

    assert_eq!(uri.as_str(), "file:///");
}

#[test]
fn test_file_uri_of_a_relative_path_reports_it() {
    let error = file_uri_of("src/pad.ts").expect_err("no URI");

    assert!(matches!(error, PathUriError::NotAbsolute { path } if path == "src/pad.ts"));
}

#[test]
fn test_file_uri_of_a_path_that_still_climbs_reports_it() {
    let error = file_uri_of("/home/user/src/../pad.ts").expect_err("no URI");

    assert!(matches!(error, PathUriError::NotFolded { .. }));
}

#[test]
fn test_absolute_path_of_a_relative_path_starts_at_the_current_directory() {
    let absolute = absolute_path_of("src/pad.ts", CURRENT).expect("an absolute path");

    assert_eq!(absolute, "/work/repo/src/pad.ts");
}

#[test]
fn test_absolute_path_of_folds_the_components_that_climb() {
    let absolute = absolute_path_of("/home/user/src/../lib/./pad.ts", CURRENT).expect("an absolute path");

    assert_eq!(absolute, "/home/user/lib/pad.ts");
}

#[test]
fn test_absolute_path_of_a_path_that_climbs_past_the_root_stops_at_the_root() {
    let absolute = absolute_path_of("/../../pad.ts", CURRENT).expect("an absolute path");

    assert_eq!(absolute, "/pad.ts");
}

#[test]
fn test_absolute_path_of_a_path_that_does_not_exist_still_succeeds() {
    let absolute =
        absolute_path_of("/home/user/dryguard-no-such-file.ts", CURRENT).expect("an absolute path");

    assert_eq!(absolute, "/home/user/dryguard-no-such-file.ts");
}

#[test]
fn test_absolute_path_of_an_empty_path_reports_it() {
    assert_eq!(absolute_path_of("", CURRENT), Err(AbsolutePathError::EmptyPath));
}

#[test]
fn test_absolute_path_of_a_relative_path_climbing_out_of_the_current_directory() {
    assert_eq!(absolute_path_of("../other/./a.ts", CURRENT), Ok("/work/other/a.ts".to_owned()));
}

#[test]
fn test_path_of_a_file_uri_is_the_path_it_spells() {
    let path = path_of(&uri("file:///home/user/src/pad.ts")).expect("a path");

    assert_eq!(path, "/home/user/src/pad.ts");
}

#[test]
fn test_path_of_a_uri_with_an_encoded_space_decodes_it() {
    let path = path_of(&uri("file:///home/user/my%20project/pad.ts")).expect("a path");

    assert_eq!(path, "/home/user/my project/pad.ts");
}

#[test]
fn test_path_of_a_uri_outside_ascii_decodes_each_utf8_byte() {
    let path = path_of(&uri("file:///home/user/%E6%97%A5%E6%9C%AC/pad.ts")).expect("a path");

    assert_eq!(path, "/home/user/日本/pad.ts");
}

#[test]
fn test_path_of_a_uri_a_path_was_turned_into_returns_that_path() {
    let original = "/home/user/my project/日本/pad.ts";

    let path = path_of(&file_uri_of(original).expect("a URI")).expect("a path");

    assert_eq!(path, original);
}

#[test]
fn test_path_of_a_uri_with_a_trailing_separator_does_not_keep_it() {
    let path = path_of(&uri("file:///home/user/src/")).expect("a path");

    assert_eq!(path, "/home/user/src");
}

#[test]
fn test_path_of_a_uri_with_another_scheme_reports_it() {
    let error = path_of(&uri("untitled:Untitled-1")).expect_err("no path");

    assert!(matches!(error, UriPathError::NotAFileUri { .. }));
}

#[test]
fn test_path_of_a_uri_naming_a_host_reports_it() {
    let error = path_of(&uri("file://server/share/pad.ts")).expect_err("no path");

    assert!(matches!(error, UriPathError::HasAuthority { .. }));
}

#[test]
fn test_path_of_a_uri_with_a_drive_letter_reports_it() {
    let error = path_of(&uri("file:///C:/repo/pad.ts")).expect_err("no path");

    assert!(matches!(error, UriPathError::DriveLetter { .. }));
}

#[test]
fn test_path_of_a_uri_encoding_bytes_that_are_not_utf8_reports_it() {
    let error = path_of(&uri("file:///home/user/%FF.ts")).expect_err("no path");

    assert!(matches!(error, UriPathError::NotUtf8 { .. }));
}

#[test]
fn test_path_of_the_root_uri_returns_the_root() {
    let uri = file_uri_of("/").expect("the root has a URI");
    assert_eq!(uri.as_str(), "file:///");
    assert_eq!(path_of(&uri), Ok("/".to_string()));
}
