//! The pipeline around the objects: the write-sink capability every object
//! serializes itself against (with a probing, a collecting and a writing
//! implementation), dependency collection to a fixed point, allocation of
//! every object's offset, and the final relocating write pass that produces
//! the payload bytes and the two fixup tables.

use vstd::prelude::*;
use crate::error::EudError;
use crate::rlocint::RlocInt;
use crate::constexpr::{ConstExpr, Evaluable, ForwardTable, evaluate, spec_evaluate, u32_to_i32};
use crate::prober::{ObjAllocator, occupy_step, push_occupied_n, space_step, bytes_step};
use crate::pbuffer::{PayloadBuffer, BufState, byte_write, word_write, dword_write, bytes_write, space_write};
use crate::collector::{DepCollector, collect_extends, lemma_collect_extends_refl, lemma_found_len_bound};
use crate::packer::{stack_objects, pack, views_of, lemma_pack_wf};

verus! {

broadcast use vstd::seq_lib::group_to_multiset_ensures;

/// Whether `k` more bytes still fit inside the object's declared size.
pub open spec fn writer_fits(b: BufState, size: usize, k: int) -> bool {
    b.cur + k <= b.start + size
}

/// The error reported when an object tries to emit past its declared size:
/// the object's index, the size it declared, and what it had written so far.
pub open spec fn overrun(b: BufState, object: usize, size: usize) -> EudError {
    EudError::Allocation { object, expected: size, actual: (b.cur - b.start) as usize }
}

/// The sink an object serializes itself into. One interface, three
/// behaviours: the prober records occupancy tags, the collector notes object
/// references, the writer lays down final bytes and fixups.
pub enum PayloadSink {
    Probe(ObjAllocator),
    /// The writing sink: the buffer, the index of the object being written,
    /// and the size it declared.
    Write(PayloadBuffer, usize, usize),
    Collect(DepCollector),
}

impl PayloadSink {
    pub open spec fn wf(&self) -> bool {
        match self {
            PayloadSink::Probe(p) => p@.wf(),
            PayloadSink::Write(b, _object, size) => b@.wf() && b@.start + *size as int
                <= b@.data.len() && b@.cur <= b@.start + *size as int,
            PayloadSink::Collect(c) => c@.wf(),
        }
    }
}

/// What any number of sink operations may do: the kind never changes, the
/// writer keeps its buffer length, start and identity and only appends
/// aligned, in-bounds fixup entries, and the collector only extends its
/// discoveries.
pub open spec fn sink_extends(older: PayloadSink, newer: PayloadSink) -> bool {
    match (older, newer) {
        (PayloadSink::Probe(_), PayloadSink::Probe(_)) => true,
        (PayloadSink::Write(b0, o0, s0), PayloadSink::Write(b1, o1, s1)) => {
            &&& o1 == o0
            &&& s1 == s0
            &&& b1@.data.len() == b0@.data.len()
            &&& b1@.start == b0@.start
            &&& b1@.prt.len() >= b0@.prt.len()
            &&& b1@.prt.take(b0@.prt.len() as int) == b0@.prt
            &&& forall|i: int|
                b0@.prt.len() <= i < b1@.prt.len() ==> (#[trigger] b1@.prt[i]) as int % 4 == 0
                    && b1@.prt[i] + 4 <= b1@.data.len()
            &&& b1@.ort.len() >= b0@.ort.len()
            &&& b1@.ort.take(b0@.ort.len() as int) == b0@.ort
            &&& forall|i: int|
                b0@.ort.len() <= i < b1@.ort.len() ==> (#[trigger] b1@.ort[i]) as int % 4 == 0
                    && b1@.ort[i] + 4 <= b1@.data.len()
        },
        (PayloadSink::Collect(c0), PayloadSink::Collect(c1)) => collect_extends(c0@, c1@),
        _ => false,
    }
}

/// The writing sink is, up to its view, the given buffer state with the
/// given identity.
pub open spec fn write_sink_is(s: PayloadSink, b: BufState, object: usize, size: usize) -> bool {
    &&& s is Write
    &&& s->Write_0@ == b
    &&& s->Write_1 == object
    &&& s->Write_2 == size
}

proof fn lemma_take_all<A>(s: Seq<A>)
    ensures
        s.take(s.len() as int) == s,
{
    assert(s.take(s.len() as int) =~= s);
}

proof fn lemma_push_take<A>(s: Seq<A>, v: A)
    ensures
        s.push(v).take(s.len() as int) == s,
{
    assert(s.push(v).take(s.len() as int) =~= s);
}

/// Sink steps compose.
pub proof fn lemma_sink_extends_trans(a: PayloadSink, b: PayloadSink, c: PayloadSink)
    requires
        sink_extends(a, b),
        sink_extends(b, c),
    ensures
        sink_extends(a, c),
{
    match (a, b, c) {
        (PayloadSink::Write(b0, _, _), PayloadSink::Write(b1, _, _), PayloadSink::Write(b2, _, _)) => {
            assert(forall|i: int|
                0 <= i < b1@.prt.len() ==> b2@.prt.take(b1@.prt.len() as int)[i] == #[trigger] b2@.prt[i]);
            assert(forall|i: int|
                0 <= i < b1@.ort.len() ==> b2@.ort.take(b1@.ort.len() as int)[i] == #[trigger] b2@.ort[i]);
            assert(forall|i: int| 0 <= i < b1@.prt.len() ==> #[trigger] b2@.prt[i] == b1@.prt[i]);
            assert(forall|i: int| 0 <= i < b1@.ort.len() ==> #[trigger] b2@.ort[i] == b1@.ort[i]);
            assert(b2@.prt.take(b0@.prt.len() as int) =~= b0@.prt) by {
                assert(forall|i: int|
                    0 <= i < b0@.prt.len() ==> b1@.prt.take(b0@.prt.len() as int)[i] == #[trigger] b1@.prt[i]);
            }
            assert(b2@.ort.take(b0@.ort.len() as int) =~= b0@.ort) by {
                assert(forall|i: int|
                    0 <= i < b0@.ort.len() ==> b1@.ort.take(b0@.ort.len() as int)[i] == #[trigger] b1@.ort[i]);
            }
            assert forall|i: int|
                b0@.prt.len() <= i < b2@.prt.len() implies (#[trigger] b2@.prt[i]) as int % 4 == 0
                    && b2@.prt[i] + 4 <= b2@.data.len() by {
                if i < b1@.prt.len() {
                    assert(b2@.prt[i] == b1@.prt[i]);
                }
            }
            assert forall|i: int|
                b0@.ort.len() <= i < b2@.ort.len() implies (#[trigger] b2@.ort[i]) as int % 4 == 0
                    && b2@.ort[i] + 4 <= b2@.data.len() by {
                if i < b1@.ort.len() {
                    assert(b2@.ort[i] == b1@.ort[i]);
                }
            }
        },
        (PayloadSink::Collect(c0), PayloadSink::Collect(c1), PayloadSink::Collect(c2)) => {
            crate::collector::lemma_collect_extends_trans(c0@, c1@, c2@);
        },
        _ => {},
    }
}

impl PayloadSink {
    /// One meaningful byte.
    pub fn write_byte(&mut self, v: u8) -> (r: Result<(), EudError>)
        requires
            old(self).wf(),
        ensures
            final(self).wf(),
            sink_extends(*old(self), *final(self)),
            (*old(self)) is Probe ==> r == Ok::<(), EudError>(()) && (*final(self)) is Probe
                && (*final(self))->Probe_0@ == occupy_step((*old(self))->Probe_0@),
            (*old(self)) is Collect ==> r == Ok::<(), EudError>(()) && *final(self) == *old(self),
            (*old(self)) is Write ==> ({
                let b0 = (*old(self))->Write_0@;
                let object = (*old(self))->Write_1;
                let size = (*old(self))->Write_2;
                if writer_fits(b0, size, 1) {
                    r == Ok::<(), EudError>(()) && (*final(self)) is Write && (*final(self))->Write_0@
                        == byte_write(b0, v) && (*final(self))->Write_1 == object
                        && (*final(self))->Write_2 == size
                } else {
                    r == Err::<(), EudError>(overrun(b0, object, size)) && *final(self) == *old(self)
                }
            }),
    {
        match self {
            PayloadSink::Probe(p) => {
                p.write_byte();
                Ok(())
            },
            PayloadSink::Collect(c) => {
                proof {
                    lemma_collect_extends_refl(c@);
                }
                Ok(())
            },
            PayloadSink::Write(b, object, size) => {
                let written = b.end_write();
                if written >= *size {
                    proof {
                        lemma_take_all(b@.prt);
                        lemma_take_all(b@.ort);
                    }
                    Err(EudError::Allocation { object: *object, expected: *size, actual: written })
                } else {
                    b.write_byte(v);
                    proof {
                        lemma_take_all(b@.prt);
                        lemma_take_all(b@.ort);
                    }
                    Ok(())
                }
            },
        }
    }

    /// One meaningful little-endian word.
    pub fn write_word(&mut self, v: u16) -> (r: Result<(), EudError>)
        requires
            old(self).wf(),
        ensures
            final(self).wf(),
            sink_extends(*old(self), *final(self)),
            (*old(self)) is Probe ==> r == Ok::<(), EudError>(()) && (*final(self)) is Probe
                && (*final(self))->Probe_0@ == occupy_step(occupy_step((*old(self))->Probe_0@)),
            (*old(self)) is Collect ==> r == Ok::<(), EudError>(()) && *final(self) == *old(self),
            (*old(self)) is Write ==> ({
                let b0 = (*old(self))->Write_0@;
                let object = (*old(self))->Write_1;
                let size = (*old(self))->Write_2;
                if writer_fits(b0, size, 2) {
                    r == Ok::<(), EudError>(()) && (*final(self)) is Write && (*final(self))->Write_0@
                        == word_write(b0, v) && (*final(self))->Write_1 == object
                        && (*final(self))->Write_2 == size
                } else {
                    r == Err::<(), EudError>(overrun(b0, object, size)) && *final(self) == *old(self)
                }
            }),
    {
        match self {
            PayloadSink::Probe(p) => {
                p.write_word();
                Ok(())
            },
            PayloadSink::Collect(c) => {
                proof {
                    lemma_collect_extends_refl(c@);
                }
                Ok(())
            },
            PayloadSink::Write(b, object, size) => {
                let written = b.end_write();
                if 2 > *size - written {
                    proof {
                        lemma_take_all(b@.prt);
                        lemma_take_all(b@.ort);
                    }
                    Err(EudError::Allocation { object: *object, expected: *size, actual: written })
                } else {
                    b.write_word(v);
                    proof {
                        lemma_take_all(b@.prt);
                        lemma_take_all(b@.ort);
                    }
                    Ok(())
                }
            },
        }
    }

    /// One dword. The prober marks a dword whatever the value; the collector
    /// walks the value for object references; the writer evaluates it and
    /// records a fixup when it is relocatable.
    pub fn write_dword(
        &mut self,
        x: &Evaluable,
        addrs: &Vec<u32>,
        forwards: &ForwardTable,
    ) -> (r: Result<(), EudError>)
        requires
            old(self).wf(),
        ensures
            final(self).wf(),
            sink_extends(*old(self), *final(self)),
            (*old(self)) is Probe ==> r == Ok::<(), EudError>(()) && (*final(self)) is Probe
                && (*final(self))->Probe_0@ == push_occupied_n((*old(self))->Probe_0@, 1),
            (*old(self)) is Collect ==> r == Ok::<(), EudError>(()) && (*final(self)) is Collect,
            (*old(self)) is Write ==> ({
                let b0 = (*old(self))->Write_0@;
                let object = (*old(self))->Write_1;
                let size = (*old(self))->Write_2;
                match spec_evaluate(*x, addrs@, forwards@) {
                    Err(e) => r == Err::<(), EudError>(e) && write_sink_is(*final(self), b0, object, size),
                    Ok(v) => if !writer_fits(b0, size, 4) {
                        r == Err::<(), EudError>(overrun(b0, object, size)) && write_sink_is(*final(self), b0, object, size)
                    } else {
                        match dword_write(b0, v) {
                            Err(e) => r == Err::<(), EudError>(e) && write_sink_is(*final(self), b0, object, size),
                            Ok(s2) => r == Ok::<(), EudError>(()) && write_sink_is(*final(self), s2, object, size),
                        }
                    },
                }
            }),
    {
        match self {
            PayloadSink::Probe(p) => {
                p.write_dword();
                Ok(())
            },
            PayloadSink::Collect(c) => {
                c.note_evaluable(x, forwards);
                Ok(())
            },
            PayloadSink::Write(b, object, size) => {
                proof {
                    lemma_take_all(b@.prt);
                    lemma_take_all(b@.ort);
                }
                let v = match evaluate(x, addrs, forwards) {
                    Ok(v) => v,
                    Err(e) => {
                        return Err(e);
                    },
                };
                let written = b.end_write();
                if 4 > *size - written {
                    return Err(
                        EudError::Allocation { object: *object, expected: *size, actual: written },
                    );
                }
                let ghost b0 = b@;
                match b.write_dword(&v) {
                    Ok(()) => {
                        proof {
                            assert(((b0.cur) as usize) as int == b0.cur);
                            if v.rlocmode == 1 {
                                lemma_push_take(b0.prt, (b0.cur) as usize);
                                assert(b@.prt[b0.prt.len() as int] == (b0.cur) as usize);
                            }
                            if v.rlocmode == 4 {
                                lemma_push_take(b0.ort, (b0.cur) as usize);
                                assert(b@.ort[b0.ort.len() as int] == (b0.cur) as usize);
                            }
                        }
                        Ok(())
                    },
                    Err(e) => Err(e),
                }
            },
        }
    }

    /// A raw byte run.
    pub fn write_bytes(&mut self, bytes: &Vec<u8>) -> (r: Result<(), EudError>)
        requires
            old(self).wf(),
        ensures
            final(self).wf(),
            sink_extends(*old(self), *final(self)),
            (*old(self)) is Probe ==> r == Ok::<(), EudError>(()) && (*final(self)) is Probe
                && (*final(self))->Probe_0@ == bytes_step((*old(self))->Probe_0@, bytes@.len() as int),
            (*old(self)) is Collect ==> r == Ok::<(), EudError>(()) && *final(self) == *old(self),
            (*old(self)) is Write ==> ({
                let b0 = (*old(self))->Write_0@;
                let object = (*old(self))->Write_1;
                let size = (*old(self))->Write_2;
                if writer_fits(b0, size, bytes@.len() as int) {
                    r == Ok::<(), EudError>(()) && (*final(self)) is Write && (*final(self))->Write_0@
                        == bytes_write(b0, bytes@) && (*final(self))->Write_1 == object && (*final(self))->Write_2 == size
                } else {
                    r == Err::<(), EudError>(overrun(b0, object, size)) && *final(self) == *old(self)
                }
            }),
    {
        match self {
            PayloadSink::Probe(p) => {
                p.write_bytes(bytes.len());
                Ok(())
            },
            PayloadSink::Collect(c) => {
                proof {
                    lemma_collect_extends_refl(c@);
                }
                Ok(())
            },
            PayloadSink::Write(b, object, size) => {
                let written = b.end_write();
                if bytes.len() > *size - written {
                    proof {
                        lemma_take_all(b@.prt);
                        lemma_take_all(b@.ort);
                    }
                    Err(EudError::Allocation { object: *object, expected: *size, actual: written })
                } else {
                    b.write_bytes(bytes);
                    proof {
                        lemma_take_all(b@.prt);
                        lemma_take_all(b@.ort);
                    }
                    Ok(())
                }
            },
        }
    }

    /// Padding space: the prober advances without marking, the writer leaves
    /// the zeroed bytes in place, the collector ignores it.
    pub fn write_space(&mut self, n: usize) -> (r: Result<(), EudError>)
        requires
            old(self).wf(),
        ensures
            final(self).wf(),
            sink_extends(*old(self), *final(self)),
            (*old(self)) is Probe ==> r == Ok::<(), EudError>(()) && (*final(self)) is Probe
                && (*final(self))->Probe_0@ == space_step((*old(self))->Probe_0@, n as int),
            (*old(self)) is Collect ==> r == Ok::<(), EudError>(()) && *final(self) == *old(self),
            (*old(self)) is Write ==> ({
                let b0 = (*old(self))->Write_0@;
                let object = (*old(self))->Write_1;
                let size = (*old(self))->Write_2;
                if writer_fits(b0, size, n as int) {
                    r == Ok::<(), EudError>(()) && (*final(self)) is Write && (*final(self))->Write_0@
                        == space_write(b0, n as int) && (*final(self))->Write_1 == object && (*final(self))->Write_2 == size
                } else {
                    r == Err::<(), EudError>(overrun(b0, object, size)) && *final(self) == *old(self)
                }
            }),
    {
        match self {
            PayloadSink::Probe(p) => {
                p.write_space(n);
                Ok(())
            },
            PayloadSink::Collect(c) => {
                proof {
                    lemma_collect_extends_refl(c@);
                }
                Ok(())
            },
            PayloadSink::Write(b, object, size) => {
                let written = b.end_write();
                if n > *size - written {
                    proof {
                        lemma_take_all(b@.prt);
                        lemma_take_all(b@.ort);
                    }
                    Err(EudError::Allocation { object: *object, expected: *size, actual: written })
                } else {
                    let buflen = b.len();
                    b.write_space(n);
                    proof {
                        lemma_take_all(b@.prt);
                        lemma_take_all(b@.ort);
                    }
                    Ok(())
                }
            },
        }
    }
}

/// The contract every emittable object meets: it reports its exact
/// serialized size, says whether its dependency list may still change after
/// discovery, and emits itself into whatever sink it is handed, leaving the
/// sink well formed and only extended.
pub trait EudObject {
    /// The object's byte size, fixed once allocation starts.
    fn data_size(&self) -> usize;

    /// Whether the dependency list may change after initial discovery; such
    /// objects are re-scanned until a fixed point.
    fn dynamic_constructed(&self) -> bool;

    /// Emit the object into the sink; must emit exactly `data_size()` bytes,
    /// identically on every pass.
    fn write_payload(
        &self,
        sink: &mut PayloadSink,
        addrs: &Vec<u32>,
        forwards: &ForwardTable,
    ) -> (r: Result<(), EudError>)
        requires
            old(sink).wf(),
        ensures
            final(sink).wf(),
            sink_extends(*old(sink), *final(sink)),
    ;
}

/// An object that is a fixed run of raw bytes.
pub struct DataObject {
    pub bytes: Vec<u8>,
}

impl EudObject for DataObject {
    fn data_size(&self) -> usize {
        self.bytes.len()
    }

    fn dynamic_constructed(&self) -> bool {
        false
    }

    fn write_payload(
        &self,
        sink: &mut PayloadSink,
        addrs: &Vec<u32>,
        forwards: &ForwardTable,
    ) -> (r: Result<(), EudError>) {
        let r = sink.write_bytes(&self.bytes);
        match r {
            Ok(()) => Ok(()),
            Err(e) => Err(e),
        }
    }
}

/// An object that is one dword: the address of another object.
pub struct RefObject {
    pub target: usize,
}

impl EudObject for RefObject {
    fn data_size(&self) -> usize {
        4
    }

    fn dynamic_constructed(&self) -> bool {
        false
    }

    fn write_payload(
        &self,
        sink: &mut PayloadSink,
        addrs: &Vec<u32>,
        forwards: &ForwardTable,
    ) -> (r: Result<(), EudError>) {
        let x = Evaluable::Expr(ConstExpr::object(self.target));
        let r = sink.write_dword(&x, addrs, forwards);
        match r {
            Ok(()) => Ok(()),
            Err(e) => Err(e),
        }
    }
}

/// The outcome of a mixed-width struct write: widths and arguments are
/// zipped (the shorter side decides), each argument is evaluated and written
/// at its width, and the first failure stops everything with the state
/// reached so far.
pub open spec fn pack_write(
    b: BufState,
    widths: Seq<u8>,
    args: Seq<Evaluable>,
    object: usize,
    size: usize,
    addrs: Seq<u32>,
    fwds: Seq<Option<Evaluable>>,
) -> (Result<(), EudError>, BufState)
    decreases widths.len(),
{
    if widths.len() == 0 || args.len() == 0 {
        (Ok(()), b)
    } else {
        match spec_evaluate(args[0], addrs, fwds) {
            Err(e) => (Err(e), b),
            Ok(v) => if !writer_fits(b, size, widths[0] as int) {
                (Err(overrun(b, object, size)), b)
            } else {
                match crate::pbuffer::pack_entry_write(b, widths[0], v) {
                    Err(e) => (Err(e), b),
                    Ok(b2) => pack_write(
                        b2,
                        widths.skip(1),
                        args.skip(1),
                        object,
                        size,
                        addrs,
                        fwds,
                    ),
                }
            },
        }
    }
}

impl PayloadSink {
    /// A mixed-width struct write. The prober coarsens the total byte size
    /// into tags; the collector walks every argument; the writer evaluates
    /// and writes each argument at its width, relocatable values only in
    /// aligned full dwords.
    pub fn write_pack(
        &mut self,
        widths: &Vec<u8>,
        args: &Vec<Evaluable>,
        addrs: &Vec<u32>,
        forwards: &ForwardTable,
    ) -> (r: Result<(), EudError>)
        requires
            old(self).wf(),
            forall|i: int|
                0 <= i < widths@.len() ==> widths@[i] == 1 || widths@[i] == 2 || widths@[i] == 4,
            widths@.len() * 4 <= usize::MAX,
        ensures
            final(self).wf(),
            sink_extends(*old(self), *final(self)),
            (*old(self)) is Probe ==> r == Ok::<(), EudError>(()) && (*final(self)) is Probe
                && (*final(self))->Probe_0@ == bytes_step(
                (*old(self))->Probe_0@,
                crate::prober::widths_total(widths@),
            ),
            (*old(self)) is Collect ==> r == Ok::<(), EudError>(()) && (*final(self)) is Collect,
            (*old(self)) is Write ==> ({
                let b0 = (*old(self))->Write_0@;
                let object = (*old(self))->Write_1;
                let size = (*old(self))->Write_2;
                let outcome = pack_write(b0, widths@, args@, object, size, addrs@, forwards@);
                r == outcome.0 && write_sink_is(*final(self), outcome.1, object, size)
            }),
    {
        match self {
            PayloadSink::Probe(p) => {
                p.write_pack(widths);
                Ok(())
            },
            PayloadSink::Collect(c) => {
                let ghost c0 = c@;
                let mut i: usize = 0;
                proof {
                    lemma_collect_extends_refl(c@);
                }
                while i < args.len()
                    invariant
                        i <= args@.len(),
                        c@.wf(),
                        collect_extends(c0, c@),
                    decreases args@.len() - i,
                {
                    let ghost pre = c@;
                    c.note_evaluable(&args[i], forwards);
                    proof {
                        crate::collector::lemma_collect_extends_trans(c0, pre, c@);
                    }
                    i = i + 1;
                }
                Ok(())
            },
            PayloadSink::Write(b, object, size) => {
                pack_write_loop(b, *object, *size, widths, args, addrs, forwards)
            },
        }
    }
}

/// The writer's side of a mixed-width struct write, one entry at a time.
fn pack_write_loop(
    b: &mut PayloadBuffer,
    object: usize,
    size: usize,
    widths: &Vec<u8>,
    args: &Vec<Evaluable>,
    addrs: &Vec<u32>,
    forwards: &ForwardTable,
) -> (r: Result<(), EudError>)
    requires
        old(b)@.wf(),
        old(b)@.start + size as int <= old(b)@.data.len(),
        old(b)@.cur <= old(b)@.start + size as int,
        forall|i: int|
            0 <= i < widths@.len() ==> widths@[i] == 1 || widths@[i] == 2 || widths@[i] == 4,
    ensures
        final(b)@.wf(),
        final(b)@.start + size as int <= final(b)@.data.len(),
        final(b)@.cur <= final(b)@.start + size as int,
        final(b)@.data.len() == old(b)@.data.len(),
        final(b)@.start == old(b)@.start,
        final(b)@.prt.len() >= old(b)@.prt.len(),
        final(b)@.prt.take(old(b)@.prt.len() as int) == old(b)@.prt,
        forall|t: int|
            old(b)@.prt.len() <= t < final(b)@.prt.len() ==> (#[trigger] final(b)@.prt[t]) as int
                % 4 == 0 && final(b)@.prt[t] + 4 <= final(b)@.data.len(),
        final(b)@.ort.len() >= old(b)@.ort.len(),
        final(b)@.ort.take(old(b)@.ort.len() as int) == old(b)@.ort,
        forall|t: int|
            old(b)@.ort.len() <= t < final(b)@.ort.len() ==> (#[trigger] final(b)@.ort[t]) as int
                % 4 == 0 && final(b)@.ort[t] + 4 <= final(b)@.data.len(),
        ({
            let outcome = pack_write(old(b)@, widths@, args@, object, size, addrs@, forwards@);
            r == outcome.0 && final(b)@ == outcome.1
        }),
{
    let n = if widths.len() < args.len() {
        widths.len()
    } else {
        args.len()
    };
    let ghost b_start = old(b)@;
    let ghost goal = pack_write(b_start, widths@, args@, object, size, addrs@, forwards@);
    let mut idx: usize = 0;
    proof {
        lemma_take_all(b@.prt);
        lemma_take_all(b@.ort);
        assert(widths@.skip(0) =~= widths@);
        assert(args@.skip(0) =~= args@);
    }
    while idx < n
        invariant
            idx <= n,
            b_start == old(b)@,
            goal == pack_write(b_start, widths@, args@, object, size, addrs@, forwards@),
            n == if widths@.len() < args@.len() {
                widths@.len()
            } else {
                args@.len()
            },
            forall|i: int|
                0 <= i < widths@.len() ==> widths@[i] == 1 || widths@[i] == 2 || widths@[i] == 4,
            b@.wf(),
            b@.start + size as int <= b@.data.len(),
            b@.cur <= b@.start + size as int,
            b@.data.len() == b_start.data.len(),
            b@.start == b_start.start,
            b@.prt.len() >= b_start.prt.len(),
            b@.prt.take(b_start.prt.len() as int) == b_start.prt,
            forall|t: int|
                b_start.prt.len() <= t < b@.prt.len() ==> (#[trigger] b@.prt[t]) as int % 4 == 0
                    && b@.prt[t] + 4 <= b@.data.len(),
            b@.ort.len() >= b_start.ort.len(),
            b@.ort.take(b_start.ort.len() as int) == b_start.ort,
            forall|t: int|
                b_start.ort.len() <= t < b@.ort.len() ==> (#[trigger] b@.ort[t]) as int % 4 == 0
                    && b@.ort[t] + 4 <= b@.data.len(),
            pack_write(
                b@,
                widths@.skip(idx as int),
                args@.skip(idx as int),
                object,
                size,
                addrs@,
                forwards@,
            ) == goal,
        decreases n - idx,
    {
        let v = match evaluate(&args[idx], addrs, forwards) {
            Ok(v) => v,
            Err(e) => {
                proof {
                    assert(args@.skip(idx as int)[0] == args@[idx as int]);
                }
                return Err(e);
            },
        };
        proof {
            assert(args@.skip(idx as int)[0] == args@[idx as int]);
            assert(widths@.skip(idx as int)[0] == widths@[idx as int]);
        }
        let written = b.end_write();
        let w = widths[idx];
        if w as usize > size - written {
            return Err(EudError::Allocation { object, expected: size, actual: written });
        }
        let ghost b_pre = b@;
        match b.write_pack_entry(w, &v) {
            Ok(()) => {},
            Err(e) => {
                return Err(e);
            },
        }
        proof {
            if v.rlocmode == 1 && w == 4 {
                lemma_push_take(b_pre.prt, (b_pre.cur) as usize);
                assert(b@.prt[b_pre.prt.len() as int] == (b_pre.cur) as usize);
            }
            if v.rlocmode == 4 && w == 4 {
                lemma_push_take(b_pre.ort, (b_pre.cur) as usize);
                assert(b@.ort[b_pre.ort.len() as int] == (b_pre.cur) as usize);
            }
            assert(b@.prt.take(b_start.prt.len() as int) =~= b_start.prt);
            assert(b@.ort.take(b_start.ort.len() as int) =~= b_start.ort);
            assert(widths@.skip(idx as int).skip(1) =~= widths@.skip(idx as int + 1));
            assert(args@.skip(idx as int).skip(1) =~= args@.skip(idx as int + 1));
        }
        idx = idx + 1;
    }
    proof {
        assert(widths@.skip(idx as int).len() == 0 || args@.skip(idx as int).len() == 0);
        lemma_take_all(b@.prt);
        lemma_take_all(b@.ort);
    }
    Ok(())
}

/// How a writing pass may change a buffer: same length, same object start,
/// and only aligned, in-bounds fixup entries appended.
pub open spec fn buf_extends(b0: BufState, b1: BufState) -> bool {
    &&& b1.data.len() == b0.data.len()
    &&& b1.start == b0.start
    &&& b1.prt.len() >= b0.prt.len()
    &&& b1.prt.take(b0.prt.len() as int) == b0.prt
    &&& forall|i: int|
        b0.prt.len() <= i < b1.prt.len() ==> (#[trigger] b1.prt[i]) as int % 4 == 0 && b1.prt[i]
            + 4 <= b1.data.len()
    &&& b1.ort.len() >= b0.ort.len()
    &&& b1.ort.take(b0.ort.len() as int) == b0.ort
    &&& forall|i: int|
        b0.ort.len() <= i < b1.ort.len() ==> (#[trigger] b1.ort[i]) as int % 4 == 0 && b1.ort[i]
            + 4 <= b1.data.len()
}

proof fn lemma_buf_extends_refl(b: BufState)
    ensures
        buf_extends(b, b),
{
    lemma_take_all(b.prt);
    lemma_take_all(b.ort);
}

proof fn lemma_buf_extends_trans(a: BufState, b: BufState, c: BufState)
    requires
        buf_extends(a, b),
        buf_extends(b, c),
    ensures
        buf_extends(a, c),
{
    assert(forall|i: int|
        0 <= i < b.prt.len() ==> c.prt.take(b.prt.len() as int)[i] == #[trigger] c.prt[i]);
    assert(forall|i: int|
        0 <= i < b.ort.len() ==> c.ort.take(b.ort.len() as int)[i] == #[trigger] c.ort[i]);
    assert(forall|i: int| 0 <= i < b.prt.len() ==> #[trigger] c.prt[i] == b.prt[i]);
    assert(forall|i: int| 0 <= i < b.ort.len() ==> #[trigger] c.ort[i] == b.ort[i]);
    assert(c.prt.take(a.prt.len() as int) =~= a.prt) by {
        assert(forall|i: int|
            0 <= i < a.prt.len() ==> b.prt.take(a.prt.len() as int)[i] == #[trigger] b.prt[i]);
    }
    assert(c.ort.take(a.ort.len() as int) =~= a.ort) by {
        assert(forall|i: int|
            0 <= i < a.ort.len() ==> b.ort.take(a.ort.len() as int)[i] == #[trigger] b.ort[i]);
    }
    assert forall|i: int|
        a.prt.len() <= i < c.prt.len() implies (#[trigger] c.prt[i]) as int % 4 == 0 && c.prt[i]
            + 4 <= c.data.len() by {
        if i < b.prt.len() {
            assert(c.prt[i] == b.prt[i]);
        }
    }
    assert forall|i: int|
        a.ort.len() <= i < c.ort.len() implies (#[trigger] c.ort[i]) as int % 4 == 0 && c.ort[i]
            + 4 <= c.data.len() by {
        if i < b.ort.len() {
            assert(c.ort[i] == b.ort[i]);
        }
    }
}

/// One evaluated dword with the declared-size check: what the writing sink
/// does for `write_dword`.
pub open spec fn checked_dword_write(
    b: BufState,
    x: Evaluable,
    object: usize,
    size: usize,
    addrs: Seq<u32>,
    fwds: Seq<Option<Evaluable>>,
) -> (Result<(), EudError>, BufState) {
    match spec_evaluate(x, addrs, fwds) {
        Err(e) => (Err(e), b),
        Ok(v) => if !writer_fits(b, size, 4) {
            (Err(overrun(b, object, size)), b)
        } else {
            match dword_write(b, v) {
                Err(e) => (Err(e), b),
                Ok(b2) => (Ok(()), b2),
            }
        },
    }
}

/// A run of `n` zero bytes with the declared-size check.
pub open spec fn checked_zeros_write(b: BufState, n: int, object: usize, size: usize) -> (
    Result<(), EudError>,
    BufState,
) {
    if !writer_fits(b, size, n) {
        (Err(overrun(b, object, size)), b)
    } else {
        (Ok(()), bytes_write(b, Seq::new(n as nat, |i: int| 0u8)))
    }
}

/// Padding with the declared-size check.
pub open spec fn checked_space_write(b: BufState, n: int, object: usize, size: usize) -> (
    Result<(), EudError>,
    BufState,
) {
    if !writer_fits(b, size, n) {
        (Err(overrun(b, object, size)), b)
    } else {
        (Ok(()), space_write(b, n))
    }
}

/// One byte with the declared-size check.
pub open spec fn checked_byte_write(b: BufState, v: u8, object: usize, size: usize) -> (
    Result<(), EudError>,
    BufState,
) {
    if !writer_fits(b, size, 1) {
        (Err(overrun(b, object, size)), b)
    } else {
        (Ok(()), byte_write(b, v))
    }
}

/// A run of equally shaped packed rows; the first failure stops everything.
pub open spec fn rows_write(
    b: BufState,
    rows: Seq<Seq<Evaluable>>,
    widths: Seq<u8>,
    object: usize,
    size: usize,
    addrs: Seq<u32>,
    fwds: Seq<Option<Evaluable>>,
) -> (Result<(), EudError>, BufState)
    decreases rows.len(),
{
    if rows.len() == 0 {
        (Ok(()), b)
    } else {
        let o = pack_write(b, widths, rows[0], object, size, addrs, fwds);
        if o.0 is Err {
            o
        } else {
            rows_write(o.1, rows.skip(1), widths, object, size, addrs, fwds)
        }
    }
}

pub open spec fn rows_of(s: Seq<Vec<Evaluable>>) -> Seq<Seq<Evaluable>> {
    Seq::new(s.len(), |i: int| s[i]@)
}

/// The field widths of one trigger condition.
pub open spec fn cond_widths() -> Seq<u8> {
    seq![4u8, 4u8, 4u8, 2u8, 1u8, 1u8, 1u8, 1u8, 2u8]
}

/// The field widths of one trigger action.
pub open spec fn act_widths() -> Seq<u8> {
    seq![4u8, 4u8, 4u8, 4u8, 4u8, 4u8, 2u8, 1u8, 1u8, 1u8, 1u8, 2u8]
}

/// One whole trigger record as the writing sink lays it down: the two
/// pointers, the conditions with their zero terminator and padding, the
/// actions likewise, the flags dword, and the partially meaningful tail.
pub open spec fn trigger_write(
    b: BufState,
    prevptr: Evaluable,
    nextptr: Evaluable,
    conditions: Seq<Seq<Evaluable>>,
    actions: Seq<Seq<Evaluable>>,
    flags: Evaluable,
    object: usize,
    size: usize,
    addrs: Seq<u32>,
    fwds: Seq<Option<Evaluable>>,
) -> (Result<(), EudError>, BufState) {
    let s1 = checked_dword_write(b, prevptr, object, size, addrs, fwds);
    if s1.0 is Err {
        s1
    } else {
        let s2 = checked_dword_write(s1.1, nextptr, object, size, addrs, fwds);
        if s2.0 is Err {
            s2
        } else {
            let s3 = rows_write(s2.1, conditions, cond_widths(), object, size, addrs, fwds);
            if s3.0 is Err {
                s3
            } else {
                let s4 = if conditions.len() < 16 {
                    let sa = checked_zeros_write(s3.1, 20, object, size);
                    if sa.0 is Err {
                        sa
                    } else {
                        checked_space_write(sa.1, 20 * (15 - conditions.len()), object, size)
                    }
                } else {
                    (Ok::<(), EudError>(()), s3.1)
                };
                if s4.0 is Err {
                    s4
                } else {
                    let s5 = rows_write(s4.1, actions, act_widths(), object, size, addrs, fwds);
                    if s5.0 is Err {
                        s5
                    } else {
                        let s6 = if actions.len() < 64 {
                            let sb = checked_zeros_write(s5.1, 32, object, size);
                            if sb.0 is Err {
                                sb
                            } else {
                                checked_space_write(sb.1, 32 * (63 - actions.len()), object, size)
                            }
                        } else {
                            (Ok::<(), EudError>(()), s5.1)
                        };
                        if s6.0 is Err {
                            s6
                        } else {
                            let s7 = checked_dword_write(s6.1, flags, object, size, addrs, fwds);
                            if s7.0 is Err {
                                s7
                            } else {
                                let s8 = checked_space_write(s7.1, 27, object, size);
                                if s8.0 is Err {
                                    s8
                                } else {
                                    checked_byte_write(s8.1, 0u8, object, size)
                                }
                            }
                        }
                    }
                }
            }
        }
    }
}

/// Shorthand for the writer-side well-formedness the sink maintains.
pub open spec fn writer_wf(b: BufState, size: usize) -> bool {
    &&& b.wf()
    &&& b.start + size as int <= b.data.len()
    &&& b.cur <= b.start + size as int
}

fn checked_dword(
    b: &mut PayloadBuffer,
    object: usize,
    size: usize,
    x: &Evaluable,
    addrs: &Vec<u32>,
    forwards: &ForwardTable,
) -> (r: Result<(), EudError>)
    requires
        writer_wf(old(b)@, size),
    ensures
        writer_wf(final(b)@, size),
        buf_extends(old(b)@, final(b)@),
        ({
            let outcome = checked_dword_write(old(b)@, *x, object, size, addrs@, forwards@);
            r == outcome.0 && final(b)@ == outcome.1
        }),
{
    proof {
        lemma_buf_extends_refl(b@);
    }
    let v = match evaluate(x, addrs, forwards) {
        Ok(v) => v,
        Err(e) => {
            return Err(e);
        },
    };
    let written = b.end_write();
    if 4 > size - written {
        return Err(EudError::Allocation { object, expected: size, actual: written });
    }
    let ghost b0 = b@;
    match b.write_dword(&v) {
        Ok(()) => {
            proof {
                if v.rlocmode == 1 {
                    lemma_push_take(b0.prt, (b0.cur) as usize);
                    assert(b@.prt[b0.prt.len() as int] == (b0.cur) as usize);
                }
                if v.rlocmode == 4 {
                    lemma_push_take(b0.ort, (b0.cur) as usize);
                    assert(b@.ort[b0.ort.len() as int] == (b0.cur) as usize);
                }
                lemma_take_all(b0.prt);
                lemma_take_all(b0.ort);
            }
            Ok(())
        },
        Err(e) => Err(e),
    }
}

fn checked_zeros(b: &mut PayloadBuffer, object: usize, size: usize, n: usize) -> (r: Result<
    (),
    EudError,
>)
    requires
        writer_wf(old(b)@, size),
    ensures
        writer_wf(final(b)@, size),
        buf_extends(old(b)@, final(b)@),
        ({
            let outcome = checked_zeros_write(old(b)@, n as int, object, size);
            r == outcome.0 && final(b)@ == outcome.1
        }),
{
    proof {
        lemma_buf_extends_refl(b@);
    }
    let written = b.end_write();
    if n > size - written {
        return Err(EudError::Allocation { object, expected: size, actual: written });
    }
    let mut zeros: Vec<u8> = Vec::new();
    let mut j: usize = 0;
    while j < n
        invariant
            j <= n,
            zeros@ == Seq::new(j as nat, |i: int| 0u8),
        decreases n - j,
    {
        zeros.push(0);
        proof {
            assert(zeros@ =~= Seq::new((j + 1) as nat, |i: int| 0u8));
        }
        j = j + 1;
    }
    b.write_bytes(&zeros);
    Ok(())
}

fn checked_space(b: &mut PayloadBuffer, object: usize, size: usize, n: usize) -> (r: Result<
    (),
    EudError,
>)
    requires
        writer_wf(old(b)@, size),
    ensures
        writer_wf(final(b)@, size),
        buf_extends(old(b)@, final(b)@),
        ({
            let outcome = checked_space_write(old(b)@, n as int, object, size);
            r == outcome.0 && final(b)@ == outcome.1
        }),
{
    proof {
        lemma_buf_extends_refl(b@);
    }
    let written = b.end_write();
    if n > size - written {
        return Err(EudError::Allocation { object, expected: size, actual: written });
    }
    let buf_len = b.len();
    b.write_space(n);
    proof {
        lemma_buf_extends_refl(b@);
    }
    Ok(())
}

fn checked_byte(b: &mut PayloadBuffer, object: usize, size: usize, v: u8) -> (r: Result<
    (),
    EudError,
>)
    requires
        writer_wf(old(b)@, size),
    ensures
        writer_wf(final(b)@, size),
        buf_extends(old(b)@, final(b)@),
        ({
            let outcome = checked_byte_write(old(b)@, v, object, size);
            r == outcome.0 && final(b)@ == outcome.1
        }),
{
    proof {
        lemma_buf_extends_refl(b@);
    }
    let written = b.end_write();
    if written >= size {
        return Err(EudError::Allocation { object, expected: size, actual: written });
    }
    b.write_byte(v);
    proof {
        lemma_buf_extends_refl(b@);
    }
    Ok(())
}

fn rows_write_loop(
    b: &mut PayloadBuffer,
    object: usize,
    size: usize,
    rows: &Vec<Vec<Evaluable>>,
    widths: &Vec<u8>,
    addrs: &Vec<u32>,
    forwards: &ForwardTable,
) -> (r: Result<(), EudError>)
    requires
        writer_wf(old(b)@, size),
        forall|i: int|
            0 <= i < widths@.len() ==> widths@[i] == 1 || widths@[i] == 2 || widths@[i] == 4,
    ensures
        writer_wf(final(b)@, size),
        buf_extends(old(b)@, final(b)@),
        ({
            let outcome = rows_write(
                old(b)@,
                rows_of(rows@),
                widths@,
                object,
                size,
                addrs@,
                forwards@,
            );
            r == outcome.0 && final(b)@ == outcome.1
        }),
{
    let ghost b_start = old(b)@;
    let ghost goal = rows_write(b_start, rows_of(rows@), widths@, object, size, addrs@, forwards@);
    proof {
        lemma_buf_extends_refl(b@);
        assert(rows_of(rows@).skip(0) =~= rows_of(rows@));
    }
    let mut i: usize = 0;
    while i < rows.len()
        invariant
            i <= rows@.len(),
            b_start == old(b)@,
            goal == rows_write(b_start, rows_of(rows@), widths@, object, size, addrs@, forwards@),
            forall|t: int|
                0 <= t < widths@.len() ==> widths@[t] == 1 || widths@[t] == 2 || widths@[t] == 4,
            writer_wf(b@, size),
            buf_extends(b_start, b@),
            rows_write(
                b@,
                rows_of(rows@).skip(i as int),
                widths@,
                object,
                size,
                addrs@,
                forwards@,
            ) == goal,
        decreases rows@.len() - i,
    {
        let ghost b_pre = b@;
        proof {
            assert(rows_of(rows@).skip(i as int)[0] == rows@[i as int]@);
        }
        let wr = pack_write_loop(b, object, size, widths, &rows[i], addrs, forwards);
        proof {
            assert(buf_extends(b_pre, b@));
            lemma_buf_extends_trans(b_start, b_pre, b@);
        }
        match wr {
            Ok(()) => {},
            Err(e) => {
                return Err(e);
            },
        }
        proof {
            assert(rows_of(rows@).skip(i as int).skip(1) =~= rows_of(rows@).skip(i as int + 1));
        }
        i = i + 1;
    }
    proof {
        assert(rows_of(rows@).skip(i as int).len() == 0);
    }
    Ok(())
}

/// The writer's side of one trigger record.
fn trigger_write_loop(
    b: &mut PayloadBuffer,
    object: usize,
    size: usize,
    prevptr: &Evaluable,
    nextptr: &Evaluable,
    conditions: &Vec<Vec<Evaluable>>,
    actions: &Vec<Vec<Evaluable>>,
    flags: &Evaluable,
    addrs: &Vec<u32>,
    forwards: &ForwardTable,
) -> (r: Result<(), EudError>)
    requires
        writer_wf(old(b)@, size),
    ensures
        writer_wf(final(b)@, size),
        buf_extends(old(b)@, final(b)@),
        ({
            let outcome = trigger_write(
                old(b)@,
                *prevptr,
                *nextptr,
                rows_of(conditions@),
                rows_of(actions@),
                *flags,
                object,
                size,
                addrs@,
                forwards@,
            );
            r == outcome.0 && final(b)@ == outcome.1
        }),
{
    let ghost b_start = old(b)@;
    let mut cond_w: Vec<u8> = Vec::new();
    cond_w.push(4);
    cond_w.push(4);
    cond_w.push(4);
    cond_w.push(2);
    cond_w.push(1);
    cond_w.push(1);
    cond_w.push(1);
    cond_w.push(1);
    cond_w.push(2);
    proof {
        assert(cond_w@ =~= cond_widths());
    }
    let mut act_w: Vec<u8> = Vec::new();
    act_w.push(4);
    act_w.push(4);
    act_w.push(4);
    act_w.push(4);
    act_w.push(4);
    act_w.push(4);
    act_w.push(2);
    act_w.push(1);
    act_w.push(1);
    act_w.push(1);
    act_w.push(1);
    act_w.push(2);
    proof {
        assert(act_w@ =~= act_widths());
    }
    let ghost mut reached = b_start;
    let wr = checked_dword(b, object, size, prevptr, addrs, forwards);
    match wr {
        Ok(()) => {},
        Err(e) => {
            return Err(e);
        },
    }
    proof {
        reached = b@;
    }
    let ghost g1 = b@;
    let wr = checked_dword(b, object, size, nextptr, addrs, forwards);
    proof {
        lemma_buf_extends_trans(b_start, g1, b@);
    }
    match wr {
        Ok(()) => {},
        Err(e) => {
            return Err(e);
        },
    }
    let ghost g2 = b@;
    let wr = rows_write_loop(b, object, size, conditions, &cond_w, addrs, forwards);
    proof {
        lemma_buf_extends_trans(b_start, g2, b@);
    }
    match wr {
        Ok(()) => {},
        Err(e) => {
            return Err(e);
        },
    }
    if conditions.len() < 16 {
        let ghost g = b@;
        let wr = checked_zeros(b, object, size, 20);
        proof {
            lemma_buf_extends_trans(b_start, g, b@);
        }
        match wr {
            Ok(()) => {},
            Err(e) => {
                return Err(e);
            },
        }
        let ghost g = b@;
        let wr = checked_space(b, object, size, 20 * (15 - conditions.len()));
        proof {
            lemma_buf_extends_trans(b_start, g, b@);
        }
        match wr {
            Ok(()) => {},
            Err(e) => {
                return Err(e);
            },
        }
    }
    let ghost g5 = b@;
    let wr = rows_write_loop(b, object, size, actions, &act_w, addrs, forwards);
    proof {
        lemma_buf_extends_trans(b_start, g5, b@);
    }
    match wr {
        Ok(()) => {},
        Err(e) => {
            return Err(e);
        },
    }
    if actions.len() < 64 {
        let ghost g = b@;
        let wr = checked_zeros(b, object, size, 32);
        proof {
            lemma_buf_extends_trans(b_start, g, b@);
        }
        match wr {
            Ok(()) => {},
            Err(e) => {
                return Err(e);
            },
        }
        let ghost g = b@;
        let wr = checked_space(b, object, size, 32 * (63 - actions.len()));
        proof {
            lemma_buf_extends_trans(b_start, g, b@);
        }
        match wr {
            Ok(()) => {},
            Err(e) => {
                return Err(e);
            },
        }
    }
    let ghost g7 = b@;
    let wr = checked_dword(b, object, size, flags, addrs, forwards);
    proof {
        lemma_buf_extends_trans(b_start, g7, b@);
    }
    match wr {
        Ok(()) => {},
        Err(e) => {
            return Err(e);
        },
    }
    let ghost g8 = b@;
    let wr = checked_space(b, object, size, 27);
    proof {
        lemma_buf_extends_trans(b_start, g8, b@);
    }
    match wr {
        Ok(()) => {},
        Err(e) => {
            return Err(e);
        },
    }
    let ghost g9 = b@;
    let wr = checked_byte(b, object, size, 0);
    proof {
        lemma_buf_extends_trans(b_start, g9, b@);
    }
    match wr {
        Ok(()) => {},
        Err(e) => {
            return Err(e);
        },
    }
    Ok(())
}

impl PayloadSink {
    /// One whole trigger record. The prober coarsens it into its occupancy
    /// tags from the two counts alone; the collector walks every operand;
    /// the writer lays the record down as `trigger_write` describes.
    pub fn write_trigger(
        &mut self,
        prevptr: &Evaluable,
        nextptr: &Evaluable,
        conditions: &Vec<Vec<Evaluable>>,
        actions: &Vec<Vec<Evaluable>>,
        flags: &Evaluable,
        addrs: &Vec<u32>,
        forwards: &ForwardTable,
    ) -> (r: Result<(), EudError>)
        requires
            old(self).wf(),
            conditions@.len() * 5 <= usize::MAX,
            actions@.len() * 8 <= usize::MAX,
        ensures
            final(self).wf(),
            sink_extends(*old(self), *final(self)),
            (*old(self)) is Probe ==> r == Ok::<(), EudError>(()) && (*final(self)) is Probe
                && (*final(self))->Probe_0@ == crate::prober::trigger_probe_step(
                (*old(self))->Probe_0@,
                conditions@.len() as int,
                actions@.len() as int,
            ),
            (*old(self)) is Collect ==> r == Ok::<(), EudError>(()) && (*final(self)) is Collect,
            (*old(self)) is Write ==> ({
                let b0 = (*old(self))->Write_0@;
                let object = (*old(self))->Write_1;
                let size = (*old(self))->Write_2;
                let outcome = trigger_write(
                    b0,
                    *prevptr,
                    *nextptr,
                    rows_of(conditions@),
                    rows_of(actions@),
                    *flags,
                    object,
                    size,
                    addrs@,
                    forwards@,
                );
                r == outcome.0 && write_sink_is(*final(self), outcome.1, object, size)
            }),
    {
        match self {
            PayloadSink::Probe(p) => {
                p.write_trigger(conditions.len(), actions.len());
                Ok(())
            },
            PayloadSink::Collect(c) => {
                let ghost c0 = c@;
                proof {
                    lemma_collect_extends_refl(c@);
                }
                c.note_evaluable(prevptr, forwards);
                proof {
                    crate::collector::lemma_collect_extends_trans(c0, c0, c@);
                }
                let ghost pre = c@;
                c.note_evaluable(nextptr, forwards);
                proof {
                    crate::collector::lemma_collect_extends_trans(c0, pre, c@);
                }
                let mut i: usize = 0;
                while i < conditions.len()
                    invariant
                        i <= conditions@.len(),
                        c@.wf(),
                        collect_extends(c0, c@),
                    decreases conditions@.len() - i,
                {
                    let row = &conditions[i];
                    let mut j: usize = 0;
                    while j < row.len()
                        invariant
                            j <= row@.len(),
                            c@.wf(),
                            collect_extends(c0, c@),
                        decreases row@.len() - j,
                    {
                        let ghost pre = c@;
                        c.note_evaluable(&row[j], forwards);
                        proof {
                            crate::collector::lemma_collect_extends_trans(c0, pre, c@);
                        }
                        j = j + 1;
                    }
                    i = i + 1;
                }
                let mut i: usize = 0;
                while i < actions.len()
                    invariant
                        i <= actions@.len(),
                        c@.wf(),
                        collect_extends(c0, c@),
                    decreases actions@.len() - i,
                {
                    let row = &actions[i];
                    let mut j: usize = 0;
                    while j < row.len()
                        invariant
                            j <= row@.len(),
                            c@.wf(),
                            collect_extends(c0, c@),
                        decreases row@.len() - j,
                    {
                        let ghost pre = c@;
                        c.note_evaluable(&row[j], forwards);
                        proof {
                            crate::collector::lemma_collect_extends_trans(c0, pre, c@);
                        }
                        j = j + 1;
                    }
                    i = i + 1;
                }
                let ghost pre = c@;
                c.note_evaluable(flags, forwards);
                proof {
                    crate::collector::lemma_collect_extends_trans(c0, pre, c@);
                }
                Ok(())
            },
            PayloadSink::Write(b, object, size) => {
                trigger_write_loop(
                    b,
                    *object,
                    *size,
                    prevptr,
                    nextptr,
                    conditions,
                    actions,
                    flags,
                    addrs,
                    forwards,
                )
            },
        }
    }
}

pub open spec fn sorted_usizes(s: Seq<usize>) -> bool {
    forall|a: int, b: int| 0 <= a < b < s.len() ==> s[a] <= s[b]
}

/// Swapping two distinct positions leaves the multiset of entries alone.
proof fn lemma_swap_multiset(s: Seq<usize>, i: int, j: int)
    requires
        0 <= i < s.len(),
        0 <= j < s.len(),
        i != j,
    ensures
        s.update(i, s[j]).update(j, s[i]).to_multiset() == s.to_multiset(),
{
    let s1 = s.update(i, s[j]);
    let s2 = s1.update(j, s[i]);
    assert(s.contains(s[i]));
    assert(s1.contains(s1[j]));
    assert(s1[j] == s[j]);
    assert(s2.to_multiset() =~= s.to_multiset());
}

/// Sort a table of offsets in place; the entries are kept, only reordered.
fn sort_usizes(v: &mut Vec<usize>)
    ensures
        sorted_usizes(final(v)@),
        final(v)@.to_multiset() == old(v)@.to_multiset(),
        final(v)@.len() == old(v)@.len(),
{
    let mut i: usize = 1;
    while i < v.len()
        invariant
            i >= 1,
            v@.len() == old(v)@.len(),
            v@.to_multiset() == old(v)@.to_multiset(),
            forall|a: int, b: int| 0 <= a < b < i as int && b < v@.len() ==> v@[a] <= v@[b],
        decreases v@.len() - i,
    {
        let mut j: usize = i;
        while j > 0 && v[j - 1] > v[j]
            invariant
                j <= i,
                i < v@.len(),
                v@.len() == old(v)@.len(),
                v@.to_multiset() == old(v)@.to_multiset(),
                forall|a: int, b: int|
                    0 <= a < b <= i as int && b != j as int ==> v@[a] <= v@[b],
            decreases j,
        {
            let ghost pre = v@;
            let x = v[j - 1];
            let y = v[j];
            v.set(j - 1, y);
            v.set(j, x);
            proof {
                lemma_swap_multiset(pre, j as int - 1, j as int);
                assert(v@ =~= pre.update(j as int - 1, pre[j as int]).update(
                    j as int,
                    pre[j as int - 1],
                ));
            }
            j = j - 1;
        }
        proof {
            assert forall|a: int, b: int| 0 <= a < b <= i as int implies v@[a] <= v@[b] by {
                if b == j as int {
                    if j > 0 {
                        if a < j as int - 1 {
                            assert(v@[a] <= v@[j as int - 1]);
                        }
                    }
                }
            }
        }
        i = i + 1;
    }
}

/// Discover every object reachable from the roots: pop one untraversed
/// object at a time and let it report its references against a collecting
/// sink; objects flagged dynamically constructed are re-scanned after the
/// worklist drains, until a full pass adds nothing new.
pub fn collect_objects<T: EudObject>(
    objects: &Vec<T>,
    roots: &Vec<usize>,
    forwards: &ForwardTable,
) -> (r: Result<Vec<usize>, EudError>)
    requires
        forall|i: int| 0 <= i < roots@.len() ==> (#[trigger] roots@[i]) < objects@.len(),
    ensures
        r is Ok ==> r->Ok_0@.no_duplicates(),
        r is Ok ==> forall|i: int|
            0 <= i < r->Ok_0@.len() ==> (#[trigger] r->Ok_0@[i]) < objects@.len(),
        r is Ok ==> forall|i: int|
            0 <= i < roots@.len() ==> r->Ok_0@.contains(#[trigger] roots@[i]),
{
    let n = objects.len();
    let mut col = DepCollector::new(n);
    let mut i: usize = 0;
    while i < roots.len()
        invariant
            i <= roots@.len(),
            col@.wf(),
            col@.seen.len() == objects@.len(),
            n == objects@.len(),
            forall|j: int| 0 <= j < roots@.len() ==> (#[trigger] roots@[j]) < objects@.len(),
            forall|j: int| 0 <= j < i as int ==> col@.found.contains(#[trigger] roots@[j]),
        decreases roots@.len() - i,
    {
        let ghost pre = col@;
        col.depend(roots[i]);
        proof {
            assert forall|j: int| 0 <= j < i as int + 1 implies col@.found.contains(
                #[trigger] roots@[j],
            ) by {
                if j < i as int {
                    crate::collector::lemma_extends_contains(pre, col@, roots@[j]);
                }
            }
        }
        i = i + 1;
    }
    let addrs: Vec<u32> = Vec::new();
    let mut dynlist: Vec<usize> = Vec::new();
    let mut progress: bool = true;
    while progress
        invariant
            col@.wf(),
            col@.seen.len() == objects@.len(),
            n == objects@.len(),
            forall|j: int| 0 <= j < roots@.len() ==> (#[trigger] roots@[j]) < objects@.len(),
            forall|j: int| 0 <= j < roots@.len() ==> col@.found.contains(#[trigger] roots@[j]),
            forall|j: int| 0 <= j < dynlist@.len() ==> (#[trigger] dynlist@[j]) < objects@.len(),
        decreases objects@.len() - col@.found.len(), (if progress {
            1int
        } else {
            0int
        }),
    {
        let ghost f0 = col@.found.len();
        while col.fresh_count() > 0
            invariant
                col@.wf(),
                col@.seen.len() == objects@.len(),
                n == objects@.len(),
                col@.found.len() >= f0,
                forall|j: int| 0 <= j < roots@.len() ==> (#[trigger] roots@[j]) < objects@.len(),
                forall|j: int| 0 <= j < roots@.len() ==> col@.found.contains(#[trigger] roots@[j]),
                forall|j: int| 0 <= j < dynlist@.len() ==> (#[trigger] dynlist@[j]) < objects@.len(),
            decreases objects@.len() - col@.found.len(), col@.fresh.len(),
    {
            proof {
                lemma_found_len_bound(col@);
            }
            let id = match col.pop_fresh() {
                Some(id) => id,
                None => {
                    proof {
                        assert(false);
                    }
                    return Err(EudError::Unbound);
                },
            };
            proof {
                let f = col@.found;
                let k = choose|k: int| 0 <= k < f.len() && f[k] == id;
                assert(f[k] < objects@.len());
            }
            let ghost pre = col@;
            let mut sink = PayloadSink::Collect(col);
            let wr = objects[id].write_payload(&mut sink, &addrs, forwards);
            col = match sink {
                PayloadSink::Collect(c) => c,
                _ => {
                    proof {
                        assert(false);
                    }
                    return Err(EudError::Unbound);
                },
            };
            match wr {
                Ok(()) => {},
                Err(e) => {
                    return Err(e);
                },
            }
            proof {
                lemma_found_len_bound(col@);
                assert forall|j: int| 0 <= j < roots@.len() implies col@.found.contains(
                    #[trigger] roots@[j],
                ) by {
                    crate::collector::lemma_extends_contains(pre, col@, roots@[j]);
                }
            }
            if objects[id].dynamic_constructed() {
                dynlist.push(id);
            }
        }
        let before = col.found_count();
        let mut di: usize = 0;
        while di < dynlist.len()
            invariant
                di <= dynlist@.len(),
                col@.wf(),
                col@.seen.len() == objects@.len(),
                n == objects@.len(),
                col@.found.len() >= before,
                before >= f0,
                forall|j: int| 0 <= j < roots@.len() ==> (#[trigger] roots@[j]) < objects@.len(),
                forall|j: int| 0 <= j < roots@.len() ==> col@.found.contains(#[trigger] roots@[j]),
                forall|j: int| 0 <= j < dynlist@.len() ==> (#[trigger] dynlist@[j]) < objects@.len(),
            decreases dynlist@.len() - di,
        {
            let id = dynlist[di];
            let ghost pre = col@;
            let mut sink = PayloadSink::Collect(col);
            let wr = objects[id].write_payload(&mut sink, &addrs, forwards);
            col = match sink {
                PayloadSink::Collect(c) => c,
                _ => {
                    proof {
                        assert(false);
                    }
                    return Err(EudError::Unbound);
                },
            };
            match wr {
                Ok(()) => {},
                Err(e) => {
                    return Err(e);
                },
            }
            proof {
                lemma_found_len_bound(col@);
                assert forall|j: int| 0 <= j < roots@.len() implies col@.found.contains(
                    #[trigger] roots@[j],
                ) by {
                    crate::collector::lemma_extends_contains(pre, col@, roots@[j]);
                }
            }
            di = di + 1;
        }
        proof {
            lemma_found_len_bound(col@);
        }
        progress = col.found_count() > before;
    }
    Ok(col.into_found())
}

/// The alloctable and total size are, entry for entry, four times some
/// packing of a family of occupancy maps: offsets are byte offsets of dword
/// slots.
pub open spec fn is_packing_of(table: Seq<usize>, size: usize, maps: Seq<Seq<bool>>) -> bool {
    &&& table.len() == maps.len()
    &&& forall|k: int|
        0 <= k < maps.len() ==> (#[trigger] table[k]) as int == 4 * pack(maps).bases[k]
    &&& size as int == 4 * pack(maps).size_dw
}

/// Drives probing, allocation and the final write pass. The placement table
/// maps each object, in discovery order, to its byte offset.
pub struct PayloadBuilder {
    pub alloctable: Vec<usize>,
    pub payload_size: usize,
}

impl PayloadBuilder {
    pub fn new() -> (r: PayloadBuilder)
        ensures
            r.alloctable@ == Seq::<usize>::empty(),
            r.payload_size == 0,
    {
        PayloadBuilder { alloctable: Vec::new(), payload_size: 0 }
    }

    /// Probe every object's occupancy map and assign every offset. An object
    /// whose probed map disagrees with its declared size (in dwords) aborts
    /// the build with an `Allocation` error naming it; a payload beyond the
    /// address space does the same, naming no object.
    pub fn alloc_objects<T: EudObject>(
        &mut self,
        objects: &Vec<T>,
        forwards: &ForwardTable,
    ) -> (r: Result<(), EudError>)
        ensures
            r is Ok ==> final(self).alloctable@.len() == objects@.len(),
            r is Ok ==> exists|maps: Seq<Seq<bool>>|
                #[trigger] is_packing_of(final(self).alloctable@, final(self).payload_size, maps)
                    && maps.len() == objects@.len(),
            r is Err ==> *final(self) == *old(self),
    {
        let n = objects.len();
        let mut dwmaps: Vec<Vec<bool>> = Vec::new();
        let mut obja = ObjAllocator::new();
        let addrs: Vec<u32> = Vec::new();
        let mut i: usize = 0;
        while i < n
            invariant
                i <= n,
                n == objects@.len(),
                dwmaps@.len() == i,
                obja@.wf(),
            decreases n - i,
        {
            obja.start_write();
            let mut sink = PayloadSink::Probe(obja);
            let wr = objects[i].write_payload(&mut sink, &addrs, forwards);
            obja = match sink {
                PayloadSink::Probe(p) => p,
                _ => {
                    proof {
                        assert(false);
                    }
                    return Err(EudError::Unbound);
                },
            };
            match wr {
                Ok(()) => {},
                Err(e) => {
                    return Err(e);
                },
            }
            let map = obja.end_write();
            let ds = objects[i].data_size();
            let dwsize = ds / 4 + (if ds % 4 != 0 {
                1
            } else {
                0
            });
            if map.len() != dwsize {
                return Err(EudError::Allocation { object: i, expected: dwsize, actual: map.len() });
            }
            dwmaps.push(map);
            i = i + 1;
        }
        let packed = stack_objects(&dwmaps);
        let bases_dw = packed.0;
        let size_dw = packed.1;
        let payload_size = match size_dw.checked_mul(4) {
            Some(p) => p,
            None => {
                return Err(
                    EudError::Allocation { object: n, expected: usize::MAX, actual: size_dw },
                );
            },
        };
        proof {
            lemma_pack_wf(views_of(dwmaps@));
        }
        let mut table: Vec<usize> = Vec::new();
        let mut k: usize = 0;
        while k < bases_dw.len()
            invariant
                k <= bases_dw@.len(),
                table@.len() == k,
                bases_dw@.len() == dwmaps@.len(),
                size_dw as int == pack(views_of(dwmaps@)).size_dw,
                payload_size as int == 4 * size_dw as int,
                forall|j: int|
                    0 <= j < bases_dw@.len() ==> (#[trigger] bases_dw@[j]) as int == pack(
                        views_of(dwmaps@),
                    ).bases[j],
                forall|j: int|
                    0 <= j < dwmaps@.len() ==> 0 <= #[trigger] pack(views_of(dwmaps@)).bases[j]
                        <= pack(views_of(dwmaps@)).size_dw,
                forall|j: int|
                    0 <= j < k as int ==> (#[trigger] table@[j]) as int == 4 * pack(
                        views_of(dwmaps@),
                    ).bases[j],
            decreases bases_dw@.len() - k,
        {
            let b4 = match bases_dw[k].checked_mul(4) {
                Some(v) => v,
                None => {
                    proof {
                        assert(false);
                    }
                    return Err(EudError::Unbound);
                },
            };
            table.push(b4);
            k = k + 1;
        }
        self.alloctable = table;
        self.payload_size = payload_size;
        proof {
            assert(is_packing_of(self.alloctable@, self.payload_size, views_of(dwmaps@)));
            assert(views_of(dwmaps@).len() == objects@.len());
        }
        Ok(())
    }

    /// Write every object at its assigned offset and hand out the payload
    /// bytes with the two relocation tables, sorted by offset. An object
    /// whose emitted length disagrees with its declared size aborts the
    /// build with an `Allocation` error naming it.
    pub fn construct_payload<T: EudObject>(
        &self,
        objects: &Vec<T>,
        forwards: &ForwardTable,
    ) -> (r: Result<(Vec<u8>, Vec<usize>, Vec<usize>), EudError>)
        requires
            self.alloctable@.len() == objects@.len(),
        ensures
            r is Ok ==> r->Ok_0.0@.len() == self.payload_size,
            r is Ok ==> sorted_usizes(r->Ok_0.1@) && sorted_usizes(r->Ok_0.2@),
            r is Ok ==> forall|i: int|
                0 <= i < r->Ok_0.1@.len() ==> (#[trigger] r->Ok_0.1@[i]) as int % 4 == 0
                    && r->Ok_0.1@[i] + 4 <= self.payload_size,
            r is Ok ==> forall|i: int|
                0 <= i < r->Ok_0.2@.len() ==> (#[trigger] r->Ok_0.2@[i]) as int % 4 == 0
                    && r->Ok_0.2@[i] + 4 <= self.payload_size,
    {
        let mut buf = PayloadBuffer::new(self.payload_size);
        let mut addrs: Vec<u32> = Vec::new();
        let mut k: usize = 0;
        while k < self.alloctable.len()
            invariant
                k <= self.alloctable@.len(),
                addrs@.len() == k,
            decreases self.alloctable@.len() - k,
        {
            addrs.push(#[verifier::truncate] (self.alloctable[k] as u32));
            k = k + 1;
        }
        let mut i: usize = 0;
        while i < objects.len()
            invariant
                i <= objects@.len(),
                self.alloctable@.len() == objects@.len(),
                buf@.wf(),
                buf@.data.len() == self.payload_size,
                addrs@.len() == objects@.len(),
                forall|t: int|
                    0 <= t < buf@.prt.len() ==> (#[trigger] buf@.prt[t]) as int % 4 == 0
                        && buf@.prt[t] + 4 <= self.payload_size,
                forall|t: int|
                    0 <= t < buf@.ort.len() ==> (#[trigger] buf@.ort[t]) as int % 4 == 0
                        && buf@.ort[t] + 4 <= self.payload_size,
            decreases objects@.len() - i,
        {
            let size = objects[i].data_size();
            let at = self.alloctable[i];
            if at > self.payload_size {
                return Err(EudError::Allocation { object: i, expected: size, actual: 0 });
            }
            if size > self.payload_size - at {
                return Err(
                    EudError::Allocation {
                        object: i,
                        expected: size,
                        actual: self.payload_size - at,
                    },
                );
            }
            buf.start_write(at);
            let ghost b0 = buf@;
            let mut sink = PayloadSink::Write(buf, i, size);
            let wr = objects[i].write_payload(&mut sink, &addrs, forwards);
            buf = match sink {
                PayloadSink::Write(b, _, _) => b,
                _ => {
                    proof {
                        assert(false);
                    }
                    return Err(EudError::Unbound);
                },
            };
            match wr {
                Ok(()) => {},
                Err(e) => {
                    return Err(e);
                },
            }
            proof {
                assert forall|t: int| 0 <= t < buf@.prt.len() implies (#[trigger] buf@.prt[t]) as int
                    % 4 == 0 && buf@.prt[t] + 4 <= self.payload_size by {
                    if t < b0.prt.len() {
                        assert(buf@.prt.take(b0.prt.len() as int)[t] == buf@.prt[t]);
                        assert(b0.prt[t] == buf@.prt[t]);
                    }
                }
                assert forall|t: int| 0 <= t < buf@.ort.len() implies (#[trigger] buf@.ort[t]) as int
                    % 4 == 0 && buf@.ort[t] + 4 <= self.payload_size by {
                    if t < b0.ort.len() {
                        assert(buf@.ort.take(b0.ort.len() as int)[t] == buf@.ort[t]);
                        assert(b0.ort[t] == buf@.ort[t]);
                    }
                }
            }
            let written = buf.end_write();
            if written != size {
                return Err(EudError::Allocation { object: i, expected: size, actual: written });
            }
            i = i + 1;
        }
        let ghost prt0 = buf@.prt;
        let ghost ort0 = buf@.ort;
        let payload = buf.create_payload();
        let data = payload.0;
        let mut prt = payload.1;
        let mut ort = payload.2;
        sort_usizes(&mut prt);
        sort_usizes(&mut ort);
        proof {
            assert forall|t: int| 0 <= t < prt@.len() implies (#[trigger] prt@[t]) as int % 4 == 0
                && prt@[t] + 4 <= self.payload_size by {
                assert(prt@.contains(prt@[t]));
                assert(prt@.to_multiset().count(prt@[t]) > 0);
                assert(prt0.to_multiset().count(prt@[t]) > 0);
                assert(prt0.contains(prt@[t]));
                let w = choose|w: int| 0 <= w < prt0.len() && prt0[w] == prt@[t];
                assert(prt0[w] as int % 4 == 0);
            }
            assert forall|t: int| 0 <= t < ort@.len() implies (#[trigger] ort@[t]) as int % 4 == 0
                && ort@[t] + 4 <= self.payload_size by {
                assert(ort@.contains(ort@[t]));
                assert(ort@.to_multiset().count(ort@[t]) > 0);
                assert(ort0.to_multiset().count(ort@[t]) > 0);
                assert(ort0.contains(ort@[t]));
                let w = choose|w: int| 0 <= w < ort0.len() && ort0[w] == ort@[t];
                assert(ort0[w] as int % 4 == 0);
            }
        }
        Ok((data, prt, ort))
    }

    /// An object's assigned address as a pointer-mode relocatable value.
    pub fn get_object_addr(&self, index: usize) -> (r: RlocInt)
        requires
            index < self.alloctable@.len(),
        ensures
            r.rlocmode == 4,
            r.offset == u32_to_i32(#[verifier::truncate] (self.alloctable@[index as int] as u32)),
    {
        let a: u32 = #[verifier::truncate] (self.alloctable[index] as u32);
        RlocInt { offset: #[verifier::truncate] (a as i32), rlocmode: 4 }
    }
}

/// An object with a fixed header word followed by raw bytes.
pub struct HeaderObject {
    pub tag: u16,
    pub body: Vec<u8>,
}

impl EudObject for HeaderObject {
    /// Two header bytes plus the body (saturating at the address-space
    /// limit, which a real body never reaches).
    fn data_size(&self) -> usize {
        match self.body.len().checked_add(2) {
            Some(n) => n,
            None => usize::MAX,
        }
    }

    fn dynamic_constructed(&self) -> bool {
        false
    }

    fn write_payload(
        &self,
        sink: &mut PayloadSink,
        addrs: &Vec<u32>,
        forwards: &ForwardTable,
    ) -> (r: Result<(), EudError>) {
        let ghost s0 = *sink;
        let r1 = sink.write_word(self.tag);
        match r1 {
            Ok(()) => {},
            Err(e) => {
                return Err(e);
            },
        }
        let ghost s1 = *sink;
        let r2 = sink.write_bytes(&self.body);
        proof {
            lemma_sink_extends_trans(s0, s1, *sink);
        }
        r2
    }
}

} // verus!
