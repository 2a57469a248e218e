use vstd::prelude::*;

use crate::StackError;

verus! {

/// The closed set of input formats the loader understands, resolved once
/// from the file name instead of string matching at every call site.
#[derive(Clone, Copy, Debug, PartialEq, Eq, Structural)]
pub enum FormatTag {
    /// A vendor RAW sensor file, decoded by the external raw-decode
    /// collaborator.
    RawVendor,
    /// A generic lossless raster file, decoded by the external codec
    /// collaborator.
    RasterCodec,
}

/// The extension of a path: the bytes after the last `.`, or the whole path
/// when it holds no `.` (so a bare `CR3` counts as a RAW name), or empty when
/// the path ends in `.`.
pub open spec fn spec_ext(path: Seq<u8>) -> Seq<u8>
    decreases path.len(),
{
    if path.len() == 0 {
        path
    } else if path.last() == 46u8 {
        Seq::empty()
    } else {
        spec_ext(path.drop_last()).push(path.last())
    }
}

/// The RAW vendor extension, `CR3`.
pub open spec fn raw_ext() -> Seq<u8> {
    seq![67u8, 82u8, 51u8]
}

/// The raster codec extension, `tiff`.
pub open spec fn raster_ext() -> Seq<u8> {
    seq![116u8, 105u8, 102u8, 102u8]
}

/// Resolves a file name, given as bytes, to the format that will decode it:
/// extension `CR3` names a vendor RAW file and `tiff` a generic raster file;
/// any other extension is rejected with `UnsupportedFormat`.
pub fn resolve_format(path: &Vec<u8>) -> (r: Result<FormatTag, StackError>)
    ensures
        r == (if spec_ext(path@) == raw_ext() {
            Ok::<FormatTag, StackError>(FormatTag::RawVendor)
        } else if spec_ext(path@) == raster_ext() {
            Ok::<FormatTag, StackError>(FormatTag::RasterCodec)
        } else {
            Err::<FormatTag, StackError>(StackError::UnsupportedFormat)
        }),
{
    // Scan backward to the last `.`; `start` ends up at the first byte of the
    // extension.
    let n: usize = path.len();
    let mut start: usize = n;
    proof {
        assert(path@.take(n as int) =~= path@);
        assert(spec_ext(path@.take(n as int)) + path@.skip(n as int) =~= spec_ext(path@));
    }
    while start > 0 && path[start - 1] != 46u8
        invariant
            start <= n,
            n == path@.len(),
            spec_ext(path@) == spec_ext(path@.take(start as int)) + path@.skip(start as int),
        decreases start,
    {
        proof {
            let pre = path@.take(start as int);
            assert(pre.last() == path@[start - 1]);
            assert(pre.drop_last() =~= path@.take(start - 1));
            assert(spec_ext(pre) == spec_ext(path@.take(start - 1)).push(path@[start - 1]));
            assert(path@.skip(start - 1) =~= seq![path@[start - 1]] + path@.skip(start as int));
            assert(spec_ext(path@.take(start - 1)) + path@.skip(start - 1) =~= spec_ext(pre)
                + path@.skip(start as int));
        }
        start = start - 1;
    }
    proof {
        if start > 0 {
            assert(path@.take(start as int).last() == 46u8);
            assert(spec_ext(path@.take(start as int)) =~= Seq::<u8>::empty());
        } else {
            assert(path@.take(0).len() == 0);
        }
        assert(spec_ext(path@) =~= path@.skip(start as int));
    }
    let ext_len: usize = n - start;
    if ext_len == 3 && path[start] == 67u8 && path[start + 1] == 82u8 && path[start + 2] == 51u8 {
        proof {
            assert(spec_ext(path@) =~= raw_ext());
        }
        Ok(FormatTag::RawVendor)
    } else if ext_len == 4 && path[start] == 116u8 && path[start + 1] == 105u8 && path[start + 2]
        == 102u8 && path[start + 3] == 102u8 {
        proof {
            assert(spec_ext(path@) =~= raster_ext());
        }
        Ok(FormatTag::RasterCodec)
    } else {
        proof {
            if spec_ext(path@) == raw_ext() {
                assert(path@.skip(start as int).len() == 3);
                assert(path@[start as int] == 67u8);
                assert(path@[start + 1] == 82u8);
                assert(path@[start + 2] == 51u8);
            }
            if spec_ext(path@) == raster_ext() {
                assert(path@.skip(start as int).len() == 4);
                assert(path@[start as int] == 116u8);
                assert(path@[start + 1] == 105u8);
                assert(path@[start + 2] == 102u8);
                assert(path@[start + 3] == 102u8);
            }
        }
        Err(StackError::UnsupportedFormat)
    }
}

/// Validates a composite invocation: it must name one or two input files and
/// a non-empty output path; anything else is a `UsageError`.
pub fn check_usage(file_count: usize, output_len: usize) -> (r: Result<(), StackError>)
    ensures
        r == (if 1 <= file_count <= 2 && output_len > 0 {
            Ok::<(), StackError>(())
        } else {
            Err::<(), StackError>(StackError::UsageError)
        }),
{
    if file_count >= 1 && file_count <= 2 && output_len > 0 {
        Ok(())
    } else {
        Err(StackError::UsageError)
    }
}

} // verus!
