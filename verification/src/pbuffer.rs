//! The real byte sink: writes final little-endian bytes at the cursor and
//! records the two fixup tables. A dword whose value is relocatable must sit
//! 4-byte aligned; its position is appended to the EPD table (mode 1) or the
//! pointer table (mode 4), and the raw offset component is written as the
//! literal bytes either way.

use vstd::prelude::*;
use crate::error::EudError;
use crate::rlocint::RlocInt;

verus! {

/// The writer's abstract state: the buffer bytes, where the current object
/// started, the cursor, and the two relocation tables (byte positions).
pub struct BufState {
    pub data: Seq<u8>,
    pub start: int,
    pub cur: int,
    pub prt: Seq<usize>,
    pub ort: Seq<usize>,
}

impl BufState {
    /// The cursor never runs behind the start of the current object, and
    /// cursor and buffer stay within the machine's address range.
    pub open spec fn wf(self) -> bool {
        &&& 0 <= self.start <= self.cur <= usize::MAX
        &&& self.data.len() <= usize::MAX
    }
}

pub open spec fn i32_to_u32(v: i32) -> u32 {
    #[verifier::truncate] (v as u32)
}

/// The little-endian bytes of a 32-bit value.
pub open spec fn le_byte0(v: i32) -> u8 {
    #[verifier::truncate] ((i32_to_u32(v) & 0xFF) as u8)
}

pub open spec fn le_byte1(v: i32) -> u8 {
    #[verifier::truncate] (((i32_to_u32(v) >> 8) & 0xFF) as u8)
}

pub open spec fn le_byte2(v: i32) -> u8 {
    #[verifier::truncate] (((i32_to_u32(v) >> 16) & 0xFF) as u8)
}

pub open spec fn le_byte3(v: i32) -> u8 {
    #[verifier::truncate] (((i32_to_u32(v) >> 24) & 0xFF) as u8)
}

/// One byte stored at the cursor.
pub open spec fn byte_write(s: BufState, v: u8) -> BufState {
    BufState { data: s.data.update(s.cur, v), start: s.start, cur: s.cur + 1, prt: s.prt, ort: s.ort }
}

/// A word stored little-endian at the cursor.
pub open spec fn word_write(s: BufState, v: u16) -> BufState {
    BufState {
        data: s.data.update(s.cur, #[verifier::truncate] ((v & 0xFF) as u8)).update(
            s.cur + 1,
            #[verifier::truncate] (((v >> 8) & 0xFF) as u8),
        ),
        start: s.start,
        cur: s.cur + 2,
        prt: s.prt,
        ort: s.ort,
    }
}

/// The four little-endian bytes of `v` laid down at the cursor.
pub open spec fn dword_bytes(data: Seq<u8>, at: int, v: i32) -> Seq<u8> {
    data.update(at, le_byte0(v)).update(at + 1, le_byte1(v)).update(at + 2, le_byte2(v)).update(
        at + 3,
        le_byte3(v),
    )
}

/// A dword write: a relocatable value demands a 4-byte aligned cursor and a
/// known relocation mode, and lands its position in the matching table; the
/// raw offset component is written as the literal bytes regardless.
pub open spec fn dword_write(s: BufState, v: RlocInt) -> Result<BufState, EudError> {
    if v.rlocmode != 0 && s.cur % 4 != 0 {
        Err(EudError::MisalignedRelocation)
    } else if v.rlocmode != 0 && v.rlocmode != 1 && v.rlocmode != 4 {
        Err(EudError::InvalidMode)
    } else {
        Ok(
            BufState {
                data: dword_bytes(s.data, s.cur, v.offset),
                start: s.start,
                cur: s.cur + 4,
                prt: if v.rlocmode == 1 {
                    s.prt.push(s.cur as usize)
                } else {
                    s.prt
                },
                ort: if v.rlocmode == 4 {
                    s.ort.push(s.cur as usize)
                } else {
                    s.ort
                },
            },
        )
    }
}

/// A mixed-width entry: a relocatable value fits only in an aligned full
/// dword; narrower or misaligned slots take constants alone.
pub open spec fn pack_entry_write(s: BufState, width: u8, v: RlocInt) -> Result<
    BufState,
    EudError,
> {
    if !(v.rlocmode == 0 || (width == 4 && s.cur % 4 == 0)) {
        Err(EudError::MisalignedRelocation)
    } else if v.rlocmode != 0 && v.rlocmode != 1 && v.rlocmode != 4 {
        Err(EudError::InvalidMode)
    } else if width == 1 {
        Ok(byte_write(s, le_byte0(v.offset)))
    } else if width == 2 {
        Ok(
            BufState {
                data: s.data.update(s.cur, le_byte0(v.offset)).update(s.cur + 1, le_byte1(v.offset)),
                start: s.start,
                cur: s.cur + 2,
                prt: s.prt,
                ort: s.ort,
            },
        )
    } else {
        Ok(
            BufState {
                data: dword_bytes(s.data, s.cur, v.offset),
                start: s.start,
                cur: s.cur + 4,
                prt: if v.rlocmode == 1 {
                    s.prt.push(s.cur as usize)
                } else {
                    s.prt
                },
                ort: if v.rlocmode == 4 {
                    s.ort.push(s.cur as usize)
                } else {
                    s.ort
                },
            },
        )
    }
}

/// A raw byte run overwriting the buffer at the cursor.
pub open spec fn bytes_write(s: BufState, bytes: Seq<u8>) -> BufState {
    BufState {
        data: Seq::new(
            s.data.len(),
            |j: int|
                if s.cur <= j < s.cur + bytes.len() {
                    bytes[j - s.cur]
                } else {
                    s.data[j]
                },
        ),
        start: s.start,
        cur: s.cur + bytes.len(),
        prt: s.prt,
        ort: s.ort,
    }
}

/// Padding: the cursor advances and nothing is written.
pub open spec fn space_write(s: BufState, n: int) -> BufState {
    BufState { data: s.data, start: s.start, cur: s.cur + n, prt: s.prt, ort: s.ort }
}

/// The buffer where objects write their final bytes.
pub struct PayloadBuffer {
    data: Vec<u8>,
    datastart: usize,
    datacur: usize,
    prttable: Vec<usize>,
    orttable: Vec<usize>,
}

impl View for PayloadBuffer {
    type V = BufState;

    closed spec fn view(&self) -> BufState {
        BufState {
            data: self.data@,
            start: self.datastart as int,
            cur: self.datacur as int,
            prt: self.prttable@,
            ort: self.orttable@,
        }
    }
}

impl PayloadBuffer {
    /// A zeroed buffer of the packer-determined total length.
    pub fn new(totlen: usize) -> (r: PayloadBuffer)
        ensures
            r@.data == Seq::new(totlen as nat, |j: int| 0u8),
            r@.start == 0,
            r@.cur == 0,
            r@.prt == Seq::<usize>::empty(),
            r@.ort == Seq::<usize>::empty(),
            r@.wf(),
    {
        let mut data: Vec<u8> = Vec::new();
        let mut j: usize = 0;
        while j < totlen
            invariant
                j <= totlen,
                data@ == Seq::new(j as nat, |i: int| 0u8),
            decreases totlen - j,
        {
            data.push(0);
            proof {
                assert(data@ =~= Seq::new((j + 1) as nat, |i: int| 0u8));
            }
            j = j + 1;
        }
        PayloadBuffer { data, datastart: 0, datacur: 0, prttable: Vec::new(), orttable: Vec::new() }
    }

    /// Position the cursor at an object's assigned offset.
    pub fn start_write(&mut self, writeaddr: usize)
        ensures
            final(self)@ == (BufState {
                start: writeaddr as int,
                cur: writeaddr as int,
                ..old(self)@
            }),
            final(self)@.wf(),
    {
        let buf_len: usize = self.data.len();
        self.datastart = writeaddr;
        self.datacur = writeaddr;
    }

    /// How many bytes the current object has covered.
    pub fn end_write(&self) -> (r: usize)
        requires
            self@.wf(),
        ensures
            r == self@.cur - self@.start,
    {
        self.datacur - self.datastart
    }

    pub fn len(&self) -> (r: usize)
        ensures
            r == self@.data.len(),
    {
        self.data.len()
    }

    pub fn cursor(&self) -> (r: usize)
        ensures
            r == self@.cur,
    {
        self.datacur
    }

    pub fn write_byte(&mut self, v: u8)
        requires
            old(self)@.wf(),
            old(self)@.cur + 1 <= old(self)@.data.len(),
        ensures
            final(self)@ == byte_write(old(self)@, v),
            final(self)@.wf(),
    {
        let buf_len: usize = self.data.len();
        self.data.set(self.datacur, v);
        self.datacur = self.datacur + 1;
    }

    pub fn write_word(&mut self, v: u16)
        requires
            old(self)@.wf(),
            old(self)@.cur + 2 <= old(self)@.data.len(),
        ensures
            final(self)@ == word_write(old(self)@, v),
            final(self)@.wf(),
    {
        let buf_len: usize = self.data.len();
        self.data.set(self.datacur, #[verifier::truncate] ((v & 0xFF) as u8));
        self.data.set(self.datacur + 1, #[verifier::truncate] (((v >> 8) & 0xFF) as u8));
        self.datacur = self.datacur + 2;
    }

    /// Write an evaluated dword; see `dword_write` for the exact outcome.
    pub fn write_dword(&mut self, v: &RlocInt) -> (r: Result<(), EudError>)
        requires
            old(self)@.wf(),
            old(self)@.cur + 4 <= old(self)@.data.len(),
        ensures
            match dword_write(old(self)@, *v) {
                Ok(s2) => r == Ok::<(), EudError>(()) && final(self)@ == s2,
                Err(e) => r == Err::<(), EudError>(e) && final(self)@ == old(self)@,
            },
            final(self)@.wf(),
    {
        let buf_len: usize = self.data.len();
        let aligned_rem = self.datacur % 4;
        if v.rlocmode != 0 && aligned_rem != 0 {
            return Err(EudError::MisalignedRelocation);
        }
        if v.rlocmode != 0 && v.rlocmode != 1 && v.rlocmode != 4 {
            return Err(EudError::InvalidMode);
        }
        if v.rlocmode == 1 {
            self.prttable.push(self.datacur);
        } else if v.rlocmode == 4 {
            self.orttable.push(self.datacur);
        }
        let u: u32 = #[verifier::truncate] (v.offset as u32);
        self.data.set(self.datacur, #[verifier::truncate] ((u & 0xFF) as u8));
        self.data.set(self.datacur + 1, #[verifier::truncate] (((u >> 8) & 0xFF) as u8));
        self.data.set(self.datacur + 2, #[verifier::truncate] (((u >> 16) & 0xFF) as u8));
        self.data.set(self.datacur + 3, #[verifier::truncate] (((u >> 24) & 0xFF) as u8));
        self.datacur = self.datacur + 4;
        Ok(())
    }

    /// Write one mixed-width entry; see `pack_entry_write`.
    pub fn write_pack_entry(&mut self, width: u8, v: &RlocInt) -> (r: Result<(), EudError>)
        requires
            old(self)@.wf(),
            width == 1 || width == 2 || width == 4,
            old(self)@.cur + width <= old(self)@.data.len(),
        ensures
            match pack_entry_write(old(self)@, width, *v) {
                Ok(s2) => r == Ok::<(), EudError>(()) && final(self)@ == s2,
                Err(e) => r == Err::<(), EudError>(e) && final(self)@ == old(self)@,
            },
            final(self)@.wf(),
    {
        let buf_len: usize = self.data.len();
        let aligned_rem = self.datacur % 4;
        if !(v.rlocmode == 0 || (width == 4 && aligned_rem == 0)) {
            return Err(EudError::MisalignedRelocation);
        }
        if v.rlocmode != 0 && v.rlocmode != 1 && v.rlocmode != 4 {
            return Err(EudError::InvalidMode);
        }
        let u: u32 = #[verifier::truncate] (v.offset as u32);
        if width == 1 {
            self.data.set(self.datacur, #[verifier::truncate] ((u & 0xFF) as u8));
            self.datacur = self.datacur + 1;
        } else if width == 2 {
            self.data.set(self.datacur, #[verifier::truncate] ((u & 0xFF) as u8));
            self.data.set(self.datacur + 1, #[verifier::truncate] (((u >> 8) & 0xFF) as u8));
            self.datacur = self.datacur + 2;
        } else {
            if v.rlocmode == 1 {
                self.prttable.push(self.datacur);
            } else if v.rlocmode == 4 {
                self.orttable.push(self.datacur);
            }
            self.data.set(self.datacur, #[verifier::truncate] ((u & 0xFF) as u8));
            self.data.set(self.datacur + 1, #[verifier::truncate] (((u >> 8) & 0xFF) as u8));
            self.data.set(self.datacur + 2, #[verifier::truncate] (((u >> 16) & 0xFF) as u8));
            self.data.set(self.datacur + 3, #[verifier::truncate] (((u >> 24) & 0xFF) as u8));
            self.datacur = self.datacur + 4;
        }
        Ok(())
    }

    /// Copy a raw byte run at the cursor.
    pub fn write_bytes(&mut self, b: &Vec<u8>)
        requires
            old(self)@.wf(),
            old(self)@.cur + b@.len() <= old(self)@.data.len(),
        ensures
            final(self)@ == bytes_write(old(self)@, b@),
            final(self)@.wf(),
    {
        let buf_len: usize = self.data.len();
        let ghost s0 = self@;
        let mut i: usize = 0;
        while i < b.len()
            invariant
                i <= b@.len(),
                s0.cur + b@.len() <= s0.data.len(),
                0 <= s0.cur,
                self@.start == s0.start,
                self@.cur == s0.cur,
                self@.prt == s0.prt,
                self@.ort == s0.ort,
                self@.data.len() == s0.data.len(),
                s0.data.len() <= usize::MAX,
                forall|j: int|
                    0 <= j < s0.data.len() && !(s0.cur <= j < s0.cur + i as int) ==> self@.data[j]
                        == s0.data[j],
                forall|j: int|
                    s0.cur <= j < s0.cur + i as int ==> self@.data[j] == b@[j - s0.cur],
            decreases b@.len() - i,
        {
            self.data.set(self.datacur + i, b[i]);
            i = i + 1;
        }
        self.datacur = self.datacur + b.len();
        proof {
            assert(self@.data =~= bytes_write(s0, b@).data);
        }
    }

    /// Advance the cursor over padding.
    pub fn write_space(&mut self, n: usize)
        requires
            old(self)@.wf(),
            old(self)@.cur + n <= usize::MAX,
        ensures
            final(self)@ == space_write(old(self)@, n as int),
            final(self)@.wf(),
    {
        let buf_len: usize = self.data.len();
        self.datacur = self.datacur + n;
    }

    /// Hand out the finished buffer and the two relocation tables, leaving
    /// the writer empty.
    pub fn create_payload(&mut self) -> (r: (Vec<u8>, Vec<usize>, Vec<usize>))
        ensures
            r.0@ == old(self)@.data,
            r.1@ == old(self)@.prt,
            r.2@ == old(self)@.ort,
            final(self)@.data == Seq::<u8>::empty(),
            final(self)@.prt == Seq::<usize>::empty(),
            final(self)@.ort == Seq::<usize>::empty(),
    {
        let data = self.data.split_off(0);
        let prt = self.prttable.split_off(0);
        let ort = self.orttable.split_off(0);
        (data, prt, ort)
    }
}

} // verus!
