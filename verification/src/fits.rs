//! Whole files: a sequence of header-data units.

use crate::errors::{ErrorView, FITSError, generic};
use crate::hdu::{HDU, unit_shows, unit_size};
use vstd::prelude::*;
use vstd::slice::slice_subrange;

verus! {

/// The header-data units of a file, in the order of the file.
#[derive(Debug, PartialEq, Clone)]
pub struct FITS {
    pub hdus: Vec<HDU>,
}

/// The offset of unit `k` in `bytes`: the sizes of the units before it,
/// added up.
pub open spec fn unit_offset(bytes: Seq<u8>, k: int) -> int
    decreases k,
{
    if k <= 0 {
        0
    } else {
        let off = unit_offset(bytes, k - 1);
        match unit_size(bytes.skip(off)) {
            Ok(n) => off + n,
            Err(_) => off,
        }
    }
}

/// Whether unit `k` of `bytes` is the first that does not decode, and `e`
/// its error: the units before it decode and start before the end of
/// `bytes`, and so does unit `k`.
pub open spec fn file_fails(bytes: Seq<u8>, k: int, e: ErrorView) -> bool {
    &&& 0 <= k
    &&& forall|j: int|
        0 <= j < k ==> unit_offset(bytes, j) < bytes.len() && #[trigger] unit_size(
            bytes.skip(unit_offset(bytes, j)),
        ) is Ok
    &&& unit_offset(bytes, k) < bytes.len()
    &&& unit_size(bytes.skip(unit_offset(bytes, k))) == Err::<usize, ErrorView>(e)
}

/// Whether `hdus` are the units of `bytes`: each starts before the end of
/// `bytes`, where the unit before it ends, and is the unit that decodes
/// there; and the last ends at or behind the end of `bytes`.
pub open spec fn file_shows(hdus: Seq<HDU>, bytes: Seq<u8>) -> bool {
    &&& unit_offset(bytes, hdus.len() as int) >= bytes.len()
    &&& forall|k: int|
        0 <= k < hdus.len() ==> unit_offset(bytes, k) < bytes.len() && unit_size(
            bytes.skip(unit_offset(bytes, k)),
        ) is Ok && unit_shows(#[trigger] hdus[k], bytes.skip(unit_offset(bytes, k)))
}

impl FITS {
    /// The data of every unit are well formed.
    pub open spec fn wf(&self) -> bool {
        forall|k: int| 0 <= k < self.hdus@.len() ==> (#[trigger] self.hdus@[k]).data.wf()
    }

    /// A file without units.
    pub fn new() -> (r: Self)
        ensures
            r.hdus@.len() == 0,
    {
        FITS { hdus: Vec::new() }
    }

    /// The number of units.
    pub fn len(&self) -> (r: usize)
        ensures
            r == self.hdus@.len(),
    {
        self.hdus.len()
    }

    /// The unit at `index`, or an error where there is none.
    pub fn at(&self, index: usize) -> (r: Result<&HDU, FITSError>)
        ensures
            match r {
                Ok(hdu) => index < self.hdus@.len() && *hdu == self.hdus@[index as int],
                Err(e) => index >= self.hdus@.len() && e@ == ErrorView::GenericError(
                    "Index out of bounds"@,
                ),
            },
    {
        if index < self.hdus.len() {
            Ok(&self.hdus[index])
        } else {
            Err(generic("Index out of bounds"))
        }
    }

    /// The unit at `index`.
    pub fn index(&self, index: usize) -> (r: &HDU)
        requires
            index < self.hdus@.len(),
        ensures
            *r == self.hdus@[index as int],
    {
        &self.hdus[index]
    }

    /// Decodes the units of a file, one behind the other, until the bytes
    /// are all used. The first unit that does not decode fails the file.
    pub fn from_bytes(rawbytes: &[u8]) -> (r: Result<Self, FITSError>)
        ensures
            match r {
                Ok(f) => file_shows(f.hdus@, rawbytes@) && f.wf(),
                Err(e) => exists|k: int| file_fails(rawbytes@, k, e@),
            },
    {
        let len: usize = rawbytes.len();
        let mut fits = FITS::new();
        let mut offset: usize = 0;
        while offset < len
            invariant
                len == rawbytes@.len(),
                offset == unit_offset(rawbytes@, fits.hdus@.len() as int),
                fits.wf(),
                forall|k: int|
                    0 <= k < fits.hdus@.len() ==> unit_offset(rawbytes@, k) < len
                        && #[trigger] unit_size(rawbytes@.skip(unit_offset(rawbytes@, k))) is Ok,
                forall|k: int|
                    0 <= k < fits.hdus@.len() ==> unit_shows(
                        #[trigger] fits.hdus@[k],
                        rawbytes@.skip(unit_offset(rawbytes@, k)),
                    ),
            decreases len - offset,
        {
            let rest = slice_subrange(rawbytes, offset, len);
            assert(rest@ =~= rawbytes@.skip(offset as int));
            let ghost k = fits.hdus@.len() as int;
            let (hdu, nbytes) = match HDU::from_bytes(rest) {
                Ok(u) => u,
                Err(e) => {
                    proof {
                        assert(file_fails(rawbytes@, k, e@));
                    }
                    return Err(e);
                },
            };
            fits.hdus.push(hdu);
            proof {
                assert(unit_offset(rawbytes@, k + 1) == offset + nbytes);
            }
            if nbytes > len - offset {
                return Ok(fits);
            }
            offset = offset + nbytes;
        }
        Ok(fits)
    }
}

impl Default for FITS {
    fn default() -> (r: Self)
        ensures
            r.hdus@.len() == 0,
    {
        FITS::new()
    }
}

} // verus!
