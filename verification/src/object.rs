//! The source ELF object: an in-memory byte-buffer adapter. A file-backed
//! adapter belongs to the program around the library, which reads the file
//! and hands the bytes over.
use vstd::prelude::*;
use vstd::string::StringExecFns;
use crate::Error;

verus! {

/// An ELF file stored in memory.
pub struct ElfBinary {
    pub name: String,
    pub bytes: Vec<u8>,
}

impl ElfBinary {
    pub fn new(name: String, bytes: Vec<u8>) -> (r: ElfBinary)
        ensures
            r.name == name,
            r.bytes == bytes,
    {
        ElfBinary { name, bytes }
    }

    /// Read `len` bytes at `offset`: an exact read that fails on a short
    /// range.
    pub fn read(&self, offset: usize, len: usize) -> (r: Result<Vec<u8>, Error>)
        ensures
            offset + len <= self.bytes@.len() <==> r is Ok,
            r matches Ok(v) ==> v@ == self.bytes@.subrange(offset as int, offset + len),
    {
        if offset > self.bytes.len() || self.bytes.len() - offset < len {
            return Err(
                Error::IOError { msg: String::from_str("read past the end of the object") },
            );
        }
        let n = self.bytes.len();
        let mut out: Vec<u8> = Vec::new();
        let mut k: usize = 0;
        while k < len
            invariant
                0 <= k <= len,
                offset + len <= n,
                n == self.bytes@.len(),
                out@.len() == k,
                forall|j: int| 0 <= j < k ==> out@[j] == self.bytes@[offset + j],
            decreases len - k,
        {
            let b = self.bytes[offset + k];
            out.push(b);
            k += 1;
        }
        proof {
            assert(out@ =~= self.bytes@.subrange(offset as int, offset + len));
        }
        Ok(out)
    }

    /// Yield the object's stored name.
    pub fn file_name(&self) -> (r: &str)
        ensures
            r@ == self.name@,
    {
        self.name.as_str()
    }
}

} // verus!
