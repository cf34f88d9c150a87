//! The JBIG2 file header (ITU T.88 D.4).

use vstd::prelude::*;
use crate::bytes::{be_u32, read_u32_be};
use crate::error::Jbig2Error;

verus! {

/// The 8-byte identification string that opens a JBIG2 file.
pub const MAGIC: [u8; 8] = [0x97, 0x4A, 0x42, 0x32, 0x0D, 0x0A, 0x1A, 0x0A];

/// How segment headers and data are laid out in the file.
#[derive(Debug, Clone, Copy, PartialEq, Eq)]
pub enum Organization {
    Sequential,
    RandomAccess,
}

/// A parsed file header.
#[derive(Debug, Clone, Copy)]
pub struct FileHeader {
    pub organization: Organization,
    /// Number of pages, `None` when unknown.
    pub n_pages: Option<u32>,
}

/// `d` starts with the identification string.
pub open spec fn has_magic(d: Seq<u8>) -> bool {
    d.len() >= 8 && d.subrange(0, 8) == MAGIC@
}

impl FileHeader {
    /// Parse a file header at the start of `data`: `Ok(None)` while more bytes are
    /// needed, otherwise the header and the number of bytes it takes.
    pub fn parse(data: &[u8]) -> (r: Result<Option<(Self, usize)>, Jbig2Error>)
        ensures
            data@.len() < 9 ==> r matches Ok(None),
            data@.len() >= 9 && !has_magic(data@) ==> r matches Err(Jbig2Error::InvalidData(_)),
            data@.len() >= 9 && has_magic(data@) && (data@[8] & 0x04 != 0 || data@[8] & 0x08 != 0)
                ==> r matches Err(Jbig2Error::UnsupportedFeature(_)),
            data@.len() >= 9 && has_magic(data@) && data@[8] & 0x0C == 0 ==> {
                let flags = data@[8];
                let org = if flags & 1 != 0 { Organization::Sequential } else { Organization::RandomAccess };
                if flags & 2 == 0 {
                    if data@.len() < 13 {
                        r matches Ok(None)
                    } else {
                        r matches Ok(Some((h, n))) && n == 13 && h.organization == org && h.n_pages
                            == Some(be_u32(data@, 9))
                    }
                } else {
                    r matches Ok(Some((h, n))) && n == 9 && h.organization == org && h.n_pages
                        is None
                }
            },
    {
        if data.len() < 9 {
            return Ok(None);
        }
        let mut i: usize = 0;
        while i < 8
            invariant
                i <= 8,
                data@.len() >= 9,
                forall|j: int| 0 <= j < i ==> data@[j] == MAGIC@[j],
            decreases 8 - i,
        {
            if data[i] != MAGIC[i] {
                proof {
                    assert(data@.subrange(0, 8)[i as int] != MAGIC@[i as int]);
                }
                return Err(Jbig2Error::InvalidData("invalid JBIG2 magic number".to_owned()));
            }
            i += 1;
        }
        proof {
            assert(data@.subrange(0, 8) =~= MAGIC@);
        }
        let flags = data[8];
        assert((flags & 0x0C == 0) == (flags & 0x04 == 0 && flags & 0x08 == 0)) by (bit_vector);
        if flags & 0x04 != 0 {
            return Err(Jbig2Error::UnsupportedFeature(
                "12 adaptive template pixels (T.88 amendment 2)".to_owned(),
            ));
        }
        if flags & 0x08 != 0 {
            return Err(Jbig2Error::UnsupportedFeature(
                "colored region segments (T.88 amendment 3)".to_owned(),
            ));
        }
        let organization = if flags & 1 != 0 { Organization::Sequential } else { Organization::RandomAccess };
        if flags & 2 == 0 {
            if data.len() < 13 {
                return Ok(None);
            }
            let n_pages = read_u32_be(data, 9);
            Ok(Some((FileHeader { organization, n_pages: Some(n_pages) }, 13)))
        } else {
            Ok(Some((FileHeader { organization, n_pages: None }, 9)))
        }
    }
}

} // verus!
