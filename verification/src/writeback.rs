//! Writing new content into a user code region: the region must still be
//! where the last scan found it, and only its bytes change.
use vstd::prelude::*;
use crate::marker_scan::{regions_view, RegionSpec, ScanError, UserRegion};
use crate::text::str_eq;

verus! {

/// Why a region could not be written.
#[derive(Debug)]
pub enum WritebackError {
    /// The file changed since the region was scanned.
    StaleRegion,
    /// The byte range does not fit a file of the given length.
    InvalidRange((usize, usize), usize),
    /// A fresh scan has no region with the tag.
    RegionNotFound(String),
    ScanError(ScanError),
    IoError(String),
}

/// The first region of `rs` tagged `tag`, from index `i` on.
pub open spec fn tag_index(rs: Seq<RegionSpec>, tag: Seq<char>, i: int) -> Option<int>
    decreases rs.len() - i,
{
    if i < 0 || i >= rs.len() {
        None
    } else if rs[i].tag == tag {
        Some(i)
    } else {
        tag_index(rs, tag, i + 1)
    }
}

/// Checks `region` against a fresh scan of its file: the first region of
/// the scan with the same tag must have the same byte range.
pub fn check_region_fresh(fresh: &[UserRegion], region: &UserRegion) -> (r: Result<(), WritebackError>)
    ensures
        match tag_index(regions_view(fresh@), region.tag@, 0) {
            None => r matches Err(WritebackError::RegionNotFound(t)) && t@ == region.tag@,
            Some(k) => if fresh@[k].byte_range == region.byte_range {
                r is Ok
            } else {
                r matches Err(WritebackError::StaleRegion)
            },
        },
{
    let ghost rs = regions_view(fresh@);
    let mut k: usize = 0;
    while k < fresh.len() && !str_eq(fresh[k].tag.as_str(), region.tag.as_str())
        invariant
            0 <= k <= fresh@.len(),
            rs == regions_view(fresh@),
            tag_index(rs, region.tag@, 0) == tag_index(rs, region.tag@, k as int),
        decreases fresh.len() - k,
    {
        assert(rs[k as int] == fresh@[k as int]@);
        k += 1;
    }
    if k == fresh.len() {
        return Err(WritebackError::RegionNotFound(region.tag.clone()));
    }
    assert(rs[k as int] == fresh@[k as int]@);
    if fresh[k].byte_range.0 != region.byte_range.0 || fresh[k].byte_range.1 != region.byte_range.1 {
        return Err(WritebackError::StaleRegion);
    }
    Ok(())
}

/// The file's bytes with the region's bytes replaced by `new_content`; an
/// error when the range does not fit the file.
pub fn splice_region(content: &[u8], byte_range: (usize, usize), new_content: &str) -> (r: Result<Vec<u8>, WritebackError>)
    ensures
        byte_range.0 <= byte_range.1 <= content@.len() ==> (r matches Ok(v) && v@ == content@.subrange(
            0,
            byte_range.0 as int,
        ) + vstd::utf8::encode_utf8(new_content@) + content@.subrange(byte_range.1 as int, content@.len() as int)),
        !(byte_range.0 <= byte_range.1 <= content@.len()) ==> (r matches Err(
            WritebackError::InvalidRange(br, n),
        ) && br == byte_range && n == content@.len()),
{
    let (start, end) = byte_range;
    if start > end || end > content.len() {
        return Err(WritebackError::InvalidRange(byte_range, content.len()));
    }
    let bytes = new_content.as_bytes();
    let mut out: Vec<u8> = Vec::new();
    let mut i: usize = 0;
    while i < start
        invariant
            0 <= i <= start <= end <= content@.len(),
            out@ == content@.subrange(0, i as int),
        decreases start - i,
    {
        out.push(content[i]);
        i += 1;
        assert(out@ =~= content@.subrange(0, i as int));
    }
    let mut j: usize = 0;
    while j < bytes.len()
        invariant
            0 <= j <= bytes@.len(),
            out@ == content@.subrange(0, start as int) + bytes@.subrange(0, j as int),
        decreases bytes.len() - j,
    {
        out.push(bytes[j]);
        j += 1;
        assert(out@ =~= content@.subrange(0, start as int) + bytes@.subrange(0, j as int));
    }
    assert(bytes@.subrange(0, j as int) =~= bytes@);
    let mut k: usize = end;
    while k < content.len()
        invariant
            end <= k <= content@.len(),
            out@ == content@.subrange(0, start as int) + bytes@ + content@.subrange(end as int, k as int),
        decreases content.len() - k,
    {
        out.push(content[k]);
        k += 1;
        assert(out@ =~= content@.subrange(0, start as int) + bytes@ + content@.subrange(end as int, k as int));
    }
    Ok(out)
}

} // verus!
