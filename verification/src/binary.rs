//! The executable-image reader: locates the code segment inside a
//! Minix-style container.
//!
//! Container layout (fixed): a 32-bit little-endian code-segment length at
//! byte offset 8, a 32-bit little-endian data-segment length at offset 12,
//! and the code segment itself starting at offset 0x20.

use vstd::prelude::*;

use crate::DisasmError;

verus! {

/// Little-endian 32-bit value of the four bytes of `s` starting at `i`:
/// `byte0 | byte1<<8 | byte2<<16 | byte3<<24`.
pub open spec fn le32_at(s: Seq<u8>, i: int) -> u32
    recommends
        0 <= i,
        i + 4 <= s.len(),
{
    (s[i] as u32) | ((s[i + 1] as u32) << 8) | ((s[i + 2] as u32) << 16) | ((s[i + 3] as u32)
        << 24)
}

/// The code-segment length recorded in the container header.
pub open spec fn text_len(buf: Seq<u8>) -> u32
    recommends
        buf.len() >= 12,
{
    le32_at(buf, 8)
}

/// A container is valid when the header is present and the recorded code
/// segment lies entirely inside the buffer.
pub open spec fn container_ok(buf: Seq<u8>) -> bool {
    buf.len() >= 12 && 0x20 + text_len(buf) <= buf.len()
}

/// The code segment of a valid container: exactly `text_len(buf)` bytes
/// starting at offset 0x20.
pub open spec fn code_of(buf: Seq<u8>) -> Seq<u8>
    recommends
        container_ok(buf),
{
    buf.subrange(0x20, 0x20 + text_len(buf) as int)
}

/// For a valid container the code view holds exactly `text_len(buf)` bytes,
/// each one taken from inside the buffer: the view never extends past it.
pub proof fn lemma_code_view(buf: Seq<u8>)
    requires
        container_ok(buf),
    ensures
        code_of(buf).len() == text_len(buf),
        0x20 + code_of(buf).len() <= buf.len(),
        forall|i: int| 0 <= i < code_of(buf).len() ==> code_of(buf)[i] == buf[0x20 + i],
{
}

/// A read-only capability over an executable container: the code-segment
/// length and the code bytes themselves.
pub trait BinData {
    /// The raw container bytes.
    spec fn buf(&self) -> Seq<u8>;

    /// The code-segment length from the header, or `OutOfBounds` when the
    /// buffer is too short to hold the header field.
    fn get_text_len(&self) -> (r: Result<u32, DisasmError>)
        ensures
            match r {
                Ok(n) => self.buf().len() >= 12 && n == text_len(self.buf()),
                Err(e) => self.buf().len() < 12 && e == DisasmError::OutOfBounds,
            },
    ;

    /// The data-segment length from the header, or `OutOfBounds` when the
    /// buffer is too short to hold the header field.
    fn get_data_len(&self) -> (r: Result<u32, DisasmError>)
        ensures
            match r {
                Ok(n) => self.buf().len() >= 16 && n == le32_at(self.buf(), 12),
                Err(e) => self.buf().len() < 16 && e == DisasmError::OutOfBounds,
            },
    ;

    /// The code segment: exactly `text_len` bytes starting at offset 0x20,
    /// or `OutOfBounds` when that range runs past the buffer end.
    fn get_text(&self) -> (r: Result<Vec<u8>, DisasmError>)
        ensures
            match r {
                Ok(v) => container_ok(self.buf()) && v@ == code_of(self.buf()),
                Err(e) => !container_ok(self.buf()) && e == DisasmError::OutOfBounds,
            },
    ;
}

/// A Minix-style executable image held as one owned byte buffer.
pub struct MinixBinData {
    data: Vec<u8>,
}

impl MinixBinData {
    /// Wrap a raw container buffer.
    pub fn new(bindata: Vec<u8>) -> (r: Self)
        ensures
            r.buf() == bindata@,
    {
        MinixBinData { data: bindata }
    }

    /// Little-endian 32-bit read of four bytes of `buf` starting at `idx`.
    pub fn read_int(buf: &[u8], idx: usize) -> (r: u32)
        requires
            idx + 4 <= buf@.len(),
        ensures
            r == le32_at(buf@, idx as int),
    {
        let v1: u32 = buf[idx] as u32;
        let v2: u32 = (buf[idx + 1] as u32) << 8;
        let v3: u32 = (buf[idx + 2] as u32) << 16;
        let v4: u32 = (buf[idx + 3] as u32) << 24;
        v1 | v2 | v3 | v4
    }
}

impl BinData for MinixBinData {
    closed spec fn buf(&self) -> Seq<u8> {
        self.data@
    }

    fn get_text_len(&self) -> (r: Result<u32, DisasmError>) {
        if self.data.len() >= 12 {
            Ok(MinixBinData::read_int(self.data.as_slice(), 8))
        } else {
            Err(DisasmError::OutOfBounds)
        }
    }

    fn get_data_len(&self) -> (r: Result<u32, DisasmError>) {
        if self.data.len() >= 16 {
            Ok(MinixBinData::read_int(self.data.as_slice(), 12))
        } else {
            Err(DisasmError::OutOfBounds)
        }
    }

    fn get_text(&self) -> (r: Result<Vec<u8>, DisasmError>) {
        let size32 = match self.get_text_len() {
            Ok(n) => n,
            Err(e) => {
                return Err(e);
            },
        };
        let size = size32 as usize;
        if self.data.len() < 0x20 || size > self.data.len() - 0x20 {
            return Err(DisasmError::OutOfBounds);
        }
        let mut text: Vec<u8> = Vec::new();
        let mut i: usize = 0;
        while i < size
            invariant
                i <= size,
                0x20 + size <= usize::MAX,
                0x20 + size <= self.data@.len(),
                text@ == self.data@.subrange(0x20, 0x20 + i as int),
            decreases size - i,
        {
            let b = self.data[0x20 + i];
            text.push(b);
            proof {
                assert(text@ =~= self.data@.subrange(0x20, 0x20 + (i + 1) as int));
            }
            i = i + 1;
        }
        proof {
            assert(text@ =~= code_of(self.buf()));
        }
        Ok(text)
    }
}

} // verus!
