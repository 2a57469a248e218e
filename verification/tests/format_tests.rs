use stellacomp::format::{check_usage, resolve_format, FormatTag};
use stellacomp::StackError;

fn resolve(path: &str) -> Result<FormatTag, StackError> {
    resolve_format(&path.as_bytes().to_vec())
}

#[test]
fn resolve_raw_extension() {
    assert_eq!(resolve("shot.CR3"), Ok(FormatTag::RawVendor));
    assert_eq!(resolve("dir.with.dots/shot.older.CR3"), Ok(FormatTag::RawVendor));
}

#[test]
fn resolve_raster_extension() {
    assert_eq!(resolve("stack.tiff"), Ok(FormatTag::RasterCodec));
    assert_eq!(resolve("a.b.tiff"), Ok(FormatTag::RasterCodec));
}

#[test]
fn resolve_is_case_sensitive() {
    assert_eq!(resolve("shot.cr3"), Err(StackError::UnsupportedFormat));
    assert_eq!(resolve("stack.TIFF"), Err(StackError::UnsupportedFormat));
}

#[test]
fn resolve_unknown_extension_fails() {
    assert_eq!(resolve("image.png"), Err(StackError::UnsupportedFormat));
    assert_eq!(resolve("archive.tar.gz"), Err(StackError::UnsupportedFormat));
}

#[test]
fn resolve_without_dot_uses_whole_name() {
    // A bare name is its own extension, as splitting on dots leaves it whole.
    assert_eq!(resolve("CR3"), Ok(FormatTag::RawVendor));
    assert_eq!(resolve("tiff"), Ok(FormatTag::RasterCodec));
    assert_eq!(resolve("readme"), Err(StackError::UnsupportedFormat));
}

#[test]
fn resolve_trailing_dot_fails() {
    assert_eq!(resolve("oops."), Err(StackError::UnsupportedFormat));
    assert_eq!(resolve(""), Err(StackError::UnsupportedFormat));
}

#[test]
fn usage_accepts_one_or_two_files() {
    assert_eq!(check_usage(1, 8), Ok(()));
    assert_eq!(check_usage(2, 1), Ok(()));
}

#[test]
fn usage_rejects_bad_invocations() {
    assert_eq!(check_usage(3, 8), Err(StackError::UsageError));
    assert_eq!(check_usage(0, 8), Err(StackError::UsageError));
    assert_eq!(check_usage(1, 0), Err(StackError::UsageError));
}
