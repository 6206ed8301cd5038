use std::cell::Cell;
use eudalloc::constexpr::{ConstExpr, Evaluable, ForwardTable};
use eudalloc::error::EudError;
use eudalloc::payload::{collect_objects, DataObject, EudObject, HeaderObject, PayloadBuilder, PayloadSink, RefObject};
use eudalloc::pbuffer::PayloadBuffer;
use eudalloc::rlocint::RlocInt;

#[test]
fn data_and_reference_round_trip() {
    let objs = vec![
        Obj::Data(DataObject { bytes: vec![1, 2, 3, 4] }),
        Obj::Ref(RefObject { target: 0 }),
    ];
    let forwards = ForwardTable::new();
    let mut builder = PayloadBuilder::new();
    builder.alloc_objects(&objs, &forwards).unwrap();
    assert_eq!(builder.alloctable, vec![0, 4]);
    assert_eq!(builder.payload_size, 8);
    let (data, prt, ort) = builder.construct_payload(&objs, &forwards).unwrap();
    // the data object's bytes, then the dword address of object 0 (offset 0)
    assert_eq!(data, vec![1, 2, 3, 4, 0, 0, 0, 0]);
    // one pointer-mode fixup for the reference, none for the raw bytes
    assert_eq!(prt, Vec::<usize>::new());
    assert_eq!(ort, vec![4]);
}

enum Obj {
    Data(DataObject),
    Ref(RefObject),
    /// Emits one dword the first pass and two the second: an impure object.
    Flaky(Cell<u32>),
    /// Declares 8 bytes but only ever emits 4.
    ShortEmitter,
    /// Reveals a dependency on object 2 only once the flag is set.
    Dynamic(std::rc::Rc<Cell<bool>>),
    /// Sets the flag when traversed, standing for a resolved static object.
    Setter(std::rc::Rc<Cell<bool>>),
}

impl EudObject for Obj {
    fn data_size(&self) -> usize {
        match self {
            Obj::Data(d) => d.data_size(),
            Obj::Ref(r) => r.data_size(),
            Obj::Flaky(_) => 4,
            Obj::ShortEmitter => 8,
            Obj::Dynamic(_) => 4,
            Obj::Setter(_) => 4,
        }
    }

    fn dynamic_constructed(&self) -> bool {
        matches!(self, Obj::Dynamic(_))
    }

    fn write_payload(
        &self,
        sink: &mut PayloadSink,
        addrs: &Vec<u32>,
        forwards: &ForwardTable,
    ) -> Result<(), EudError> {
        match self {
            Obj::Data(d) => d.write_payload(sink, addrs, forwards),
            Obj::Ref(r) => r.write_payload(sink, addrs, forwards),
            Obj::Flaky(count) => {
                let passes = count.get();
                count.set(passes + 1);
                sink.write_dword(&Evaluable::Int(7), addrs, forwards)?;
                if passes > 0 {
                    sink.write_dword(&Evaluable::Int(8), addrs, forwards)?;
                }
                Ok(())
            },
            Obj::ShortEmitter => sink.write_dword(&Evaluable::Int(1), addrs, forwards),
            Obj::Dynamic(flag) => {
                if flag.get() {
                    sink.write_dword(&Evaluable::Expr(ConstExpr::object(2)), addrs, forwards)
                } else {
                    sink.write_space(4)
                }
            },
            Obj::Setter(flag) => {
                flag.set(true);
                sink.write_dword(&Evaluable::Int(0), addrs, forwards)
            },
        }
    }
}

#[test]
fn emission_size_mismatch_is_an_allocation_error() {
    // probing catches an object whose declared size and emission disagree
    let objs = vec![Obj::ShortEmitter];
    let forwards = ForwardTable::new();
    let mut builder = PayloadBuilder::new();
    assert_eq!(
        builder.alloc_objects(&objs, &forwards),
        Err(EudError::Allocation { object: 0, expected: 2, actual: 1 })
    );
}

#[test]
fn impure_emission_is_caught_at_write_time() {
    // the probe pass sees one dword, the write pass tries to emit two: the
    // writer stops the second dword at the declared size
    let objs = vec![Obj::Flaky(Cell::new(0))];
    let forwards = ForwardTable::new();
    let mut builder = PayloadBuilder::new();
    builder.alloc_objects(&objs, &forwards).unwrap();
    let r = builder.construct_payload(&objs, &forwards);
    assert_eq!(r.unwrap_err(), EudError::Allocation { object: 0, expected: 4, actual: 4 });
}

#[test]
fn pure_emission_probes_identically_before_and_after_allocation() {
    let objs = vec![
        Obj::Data(DataObject { bytes: vec![9, 9, 9] }),
        Obj::Ref(RefObject { target: 0 }),
    ];
    let forwards = ForwardTable::new();
    let mut b1 = PayloadBuilder::new();
    b1.alloc_objects(&objs, &forwards).unwrap();
    let table_before = b1.alloctable.clone();
    // probing again after allocation derives the same maps, hence the same
    // placement
    let mut b2 = PayloadBuilder::new();
    b2.alloc_objects(&objs, &forwards).unwrap();
    assert_eq!(b2.alloctable, table_before);
    assert_eq!(b2.payload_size, b1.payload_size);
}

#[test]
fn dynamic_object_reaches_the_fixed_point() {
    let flag = std::rc::Rc::new(Cell::new(false));
    let objs = vec![
        Obj::Dynamic(flag.clone()),
        Obj::Setter(flag.clone()),
        Obj::Data(DataObject { bytes: vec![5, 5, 5, 5] }),
    ];
    let forwards = ForwardTable::new();
    // the dynamic object is traversed first, while the flag is still unset;
    // only the re-scan after the static object resolved reveals object 2
    let roots = vec![1, 0];
    let found = collect_objects(&objs, &roots, &forwards).unwrap();
    assert!(found.contains(&2));
    assert_eq!(found, vec![1, 0, 2]);
}

#[test]
fn collection_follows_references() {
    let objs = vec![
        Obj::Ref(RefObject { target: 1 }),
        Obj::Ref(RefObject { target: 2 }),
        Obj::Data(DataObject { bytes: vec![1] }),
        Obj::Data(DataObject { bytes: vec![2] }),
    ];
    let forwards = ForwardTable::new();
    let found = collect_objects(&objs, &vec![0], &forwards).unwrap();
    // object 3 is unreachable and stays out; the chain 0 -> 1 -> 2 is found
    assert_eq!(found, vec![0, 1, 2]);
}

#[test]
fn pointer_write_alignment() {
    // writing a pointer-mode value at a misaligned position is refused
    let mut b = PayloadBuffer::new(16);
    b.start_write(1);
    assert_eq!(
        b.write_dword(&RlocInt::new(5, 4)),
        Err(EudError::MisalignedRelocation)
    );
    // the same value at an aligned position appends exactly one entry to the
    // pointer table, at that offset
    let mut b2 = PayloadBuffer::new(16);
    b2.start_write(4);
    b2.write_dword(&RlocInt::new(0x11223344, 4)).unwrap();
    let (data, prt, ort) = b2.create_payload();
    assert_eq!(ort, vec![4]);
    assert_eq!(prt, Vec::<usize>::new());
    assert_eq!(&data[4..8], &[0x44, 0x33, 0x22, 0x11]);
    // an EPD-mode value goes to the other table
    let mut b3 = PayloadBuffer::new(16);
    b3.start_write(8);
    b3.write_dword(&RlocInt::new(-1, 1)).unwrap();
    let (data3, prt3, ort3) = b3.create_payload();
    assert_eq!(prt3, vec![8]);
    assert_eq!(ort3, Vec::<usize>::new());
    assert_eq!(&data3[8..12], &[0xFF, 0xFF, 0xFF, 0xFF]);
    // an unknown relocation mode is refused
    let mut b4 = PayloadBuffer::new(16);
    b4.start_write(0);
    assert_eq!(b4.write_dword(&RlocInt::new(5, 2)), Err(EudError::InvalidMode));
}

#[test]
fn misaligned_relocation_through_the_pipeline() {
    // a 1-byte object shifts its occupied dword; a reference placed after it
    // still lands aligned because placement is dword-granular
    let objs = vec![
        Obj::Data(DataObject { bytes: vec![1, 2, 3, 4, 5] }),
        Obj::Ref(RefObject { target: 0 }),
    ];
    let forwards = ForwardTable::new();
    let mut builder = PayloadBuilder::new();
    builder.alloc_objects(&objs, &forwards).unwrap();
    let (_data, _prt, ort) = builder.construct_payload(&objs, &forwards).unwrap();
    assert_eq!(ort, vec![8]);
}

#[test]
fn relocation_tables_come_out_sorted() {
    let objs = vec![
        Obj::Ref(RefObject { target: 1 }),
        Obj::Ref(RefObject { target: 0 }),
        Obj::Ref(RefObject { target: 2 }),
    ];
    let forwards = ForwardTable::new();
    let mut builder = PayloadBuilder::new();
    builder.alloc_objects(&objs, &forwards).unwrap();
    let (data, prt, ort) = builder.construct_payload(&objs, &forwards).unwrap();
    assert_eq!(data.len(), 12);
    assert_eq!(prt, Vec::<usize>::new());
    assert_eq!(ort, vec![0, 4, 8]);
}

#[test]
fn builder_address_lookup() {
    let objs = vec![
        Obj::Data(DataObject { bytes: vec![0, 0, 0, 0, 0] }),
        Obj::Data(DataObject { bytes: vec![1] }),
    ];
    let forwards = ForwardTable::new();
    let mut builder = PayloadBuilder::new();
    builder.alloc_objects(&objs, &forwards).unwrap();
    let a0 = builder.get_object_addr(0);
    let a1 = builder.get_object_addr(1);
    assert_eq!(a0, RlocInt::new(0, 4));
    assert_eq!(a1, RlocInt::new(8, 4));
}

#[test]
fn header_object_emits_word_then_bytes() {
    let objs = vec![HeaderObject { tag: 0xBBAA, body: vec![1, 2, 3] }];
    let forwards = ForwardTable::new();
    let mut builder = PayloadBuilder::new();
    builder.alloc_objects(&objs, &forwards).unwrap();
    assert_eq!(builder.payload_size, 8);
    let (data, prt, ort) = builder.construct_payload(&objs, &forwards).unwrap();
    assert_eq!(data, vec![0xAA, 0xBB, 1, 2, 3, 0, 0, 0]);
    assert!(prt.is_empty() && ort.is_empty());
}

#[test]
fn trigger_record_through_the_sink() {
    let forwards = ForwardTable::new();
    let addrs: Vec<u32> = vec![0];
    let buf = PayloadBuffer::new(2408);
    let mut sink = PayloadSink::Write(buf, 0, 2408);
    let cond: Vec<Evaluable> = vec![
        Evaluable::Int(10),
        Evaluable::Int(11),
        Evaluable::Int(12),
        Evaluable::Int(13),
        Evaluable::Int(14),
        Evaluable::Int(15),
        Evaluable::Int(16),
        Evaluable::Int(17),
        Evaluable::Int(18),
    ];
    sink.write_trigger(
        &Evaluable::Int(0),
        &Evaluable::Expr(ConstExpr::object(0)),
        &vec![cond],
        &Vec::new(),
        &Evaluable::Int(4),
        &addrs,
        &forwards,
    )
    .unwrap();
    let mut buf = match sink {
        PayloadSink::Write(b, _, _) => b,
        _ => unreachable!(),
    };
    // a trigger record covers exactly its declared 2408 bytes
    assert_eq!(buf.end_write(), 2408);
    let (data, prt, ort) = buf.create_payload();
    // the next-pointer was the only relocatable dword
    assert_eq!(prt, Vec::<usize>::new());
    assert_eq!(ort, vec![4]);
    // the first condition's first field sits right after the two pointers
    assert_eq!(&data[8..12], &[10, 0, 0, 0]);
}

#[test]
fn pack_write_through_the_sink() {
    let forwards = ForwardTable::new();
    let addrs: Vec<u32> = Vec::new();
    let buf = PayloadBuffer::new(12);
    let mut sink = PayloadSink::Write(buf, 0, 12);
    let widths: Vec<u8> = vec![4, 2, 1];
    let args = vec![
        Evaluable::Rloc(RlocInt::new(64, 4)),
        Evaluable::Int(0x0201),
        Evaluable::Int(0x7F),
    ];
    sink.write_pack(&widths, &args, &addrs, &forwards).unwrap();
    let mut buf = match sink {
        PayloadSink::Write(b, _, _) => b,
        _ => unreachable!(),
    };
    let (data, prt, ort) = buf.create_payload();
    assert_eq!(prt, Vec::<usize>::new());
    assert_eq!(ort, vec![0]);
    assert_eq!(&data[0..7], &[64, 0, 0, 0, 0x01, 0x02, 0x7F]);
    // a relocatable value cannot go into a word slot
    let buf2 = PayloadBuffer::new(12);
    let mut sink2 = PayloadSink::Write(buf2, 0, 12);
    let w2: Vec<u8> = vec![2];
    let a2 = vec![Evaluable::Rloc(RlocInt::new(1, 4))];
    assert_eq!(
        sink2.write_pack(&w2, &a2, &addrs, &forwards),
        Err(EudError::MisalignedRelocation)
    );
}
