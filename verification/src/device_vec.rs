//! The device array and its transfer protocol.
//!
//! A `DeviceVec` is a fixed-length array of `u32` elements. Its length is
//! chosen at allocation and never changes; the only access host code has to
//! the contents is the explicit upload (`copy_from_slice`) and download
//! (`copy_to_slice`) protocol, both of which reject a host slice of the wrong
//! length with `LengthMismatch` before touching the array.

use crate::error::WgError;
use vstd::prelude::*;

verus! {

/// The transfer protocol's precondition: a host-side length is accepted
/// exactly when it equals the array's element count, and anything else is
/// `LengthMismatch`. Transfers check this before touching the array, and a
/// dispatching front end checks it before issuing any device command.
pub fn check_transfer_len(element_count: usize, host_len: usize) -> (r: Result<(), WgError>)
    ensures
        r is Ok <==> host_len == element_count,
        r is Err ==> r == Err::<(), WgError>(WgError::LengthMismatch),
{
    if host_len == element_count {
        Ok(())
    } else {
        Err(WgError::LengthMismatch)
    }
}

/// A fixed-length array of `u32` elements with explicit upload and download.
pub struct DeviceVec {
    /// The element storage; a dispatching front end mirrors it on the device.
    pub data: Vec<u32>,
}

impl View for DeviceVec {
    type V = Seq<u32>;

    open spec fn view(&self) -> Seq<u32> {
        self.data@
    }
}

impl DeviceVec {
    /// Allocates an array of `len` zero-initialized elements.
    pub fn new(len: usize) -> (v: DeviceVec)
        ensures
            v@.len() == len,
            forall|i: int| 0 <= i < len ==> v@[i] == 0u32,
    {
        let mut data: Vec<u32> = Vec::new();
        let mut i: usize = 0;
        while i < len
            invariant
                i <= len,
                data@.len() == i,
                forall|m: int| 0 <= m < i ==> data@[m] == 0u32,
            decreases len - i,
        {
            data.push(0u32);
            i = i + 1;
        }
        DeviceVec { data }
    }

    /// The element count, fixed at allocation.
    pub fn len(&self) -> (n: usize)
        ensures
            n == self@.len(),
    {
        self.data.len()
    }

    /// Uploads `host` into the array.
    ///
    /// A host slice whose length differs from the element count is rejected
    /// with `LengthMismatch` and the array is left untouched; a slice of the
    /// right length is always accepted, and the array afterwards holds
    /// exactly its contents.
    pub fn copy_from_slice(&mut self, host: &[u32]) -> (r: Result<(), WgError>)
        ensures
            r is Ok <==> host@.len() == old(self)@.len(),
            r == Err::<(), WgError>(WgError::LengthMismatch) <==> host@.len() != old(self)@.len(),
            r is Err ==> final(self)@ == old(self)@,
            r is Ok ==> final(self)@ == host@,
            final(self)@.len() == old(self)@.len(),
    {
        if check_transfer_len(self.data.len(), host.len()).is_err() {
            return Err(WgError::LengthMismatch);
        }
        let n = self.data.len();
        let mut i: usize = 0;
        while i < n
            invariant
                i <= n,
                n == host@.len(),
                self.data@.len() == n,
                forall|m: int| 0 <= m < i ==> self.data@[m] == host@[m],
            decreases n - i,
        {
            let x = host[i];
            self.data.set(i, x);
            i = i + 1;
        }
        assert(self.data@ =~= host@);
        Ok(())
    }

    /// Downloads the array into `out`.
    ///
    /// A host vector whose length differs from the element count is rejected
    /// with `LengthMismatch` and `out` is left untouched; a vector of the
    /// right length is always accepted, and afterwards holds exactly the
    /// contents of the array, so a download right after an upload returns
    /// the uploaded data unchanged.
    pub fn copy_to_slice(&self, out: &mut Vec<u32>) -> (r: Result<(), WgError>)
        ensures
            r is Ok <==> old(out)@.len() == self@.len(),
            r == Err::<(), WgError>(WgError::LengthMismatch) <==> old(out)@.len() != self@.len(),
            r is Err ==> final(out)@ == old(out)@,
            r is Ok ==> final(out)@ == self@,
    {
        if check_transfer_len(self.data.len(), out.len()).is_err() {
            return Err(WgError::LengthMismatch);
        }
        let n = self.data.len();
        let mut i: usize = 0;
        while i < n
            invariant
                i <= n,
                n == self.data@.len(),
                out@.len() == n,
                forall|m: int| 0 <= m < i ==> out@[m] == self.data@[m],
            decreases n - i,
        {
            let x = self.data[i];
            out.set(i, x);
            i = i + 1;
        }
        assert(out@ =~= self.data@);
        Ok(())
    }
}

} // verus!
