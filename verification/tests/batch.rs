use loaded_objects::map::{fill_entry_pull, offer_object, ObjectMapEntry, Slot};
use loaded_objects::unix::{ElfSegmentHeader, SegmentFlags, UnixObject};
use loaded_objects::Objects;

fn header(flags: u32) -> ElfSegmentHeader {
    ElfSegmentHeader::new(0, 0x1000, flags)
}

fn snapshot() -> Objects {
    let main = UnixObject::new(Vec::new(), 0x40_0000, vec![header(5)]);
    let first_libx = UnixObject::new(b"libx.so".to_vec(), 0x1000, vec![header(5)]);
    let second_libx = UnixObject::new(b"libx.so".to_vec(), 0x2000, vec![header(5)]);
    let liby = UnixObject::new(b"/opt/liby.so".to_vec(), 0x3000, vec![header(5)]);
    Objects::from_objects(vec![main, first_libx, second_libx, liby])
}

#[test]
fn slot_takes_first_matching_object() {
    let objects = snapshot();
    let mut slot = Slot::new(vec![b"libx.so".to_vec()]);
    objects.fill_map(&mut slot).unwrap();
    let found = slot.found().as_ref().expect("slot should be written");
    assert_eq!(found.name, b"libx.so".to_vec());
    assert_eq!(found.base_addr, 0x1000);
}

#[test]
fn batch_matching_is_exact_not_normalized() {
    // Single lookups normalize the object name; batch slots do not: a
    // candidate without the path prefix matches no object.
    let objects = snapshot();
    let mut slot = Slot::new(vec![b"liby.so".to_vec()]);
    objects.fill_map(&mut slot).unwrap();
    assert!(slot.found().is_none());
}

#[test]
fn unmatched_slot_is_not_a_batch_failure() {
    let objects = snapshot();
    let mut slots = vec![
        Slot::new(vec![b"libx.so".to_vec()]),
        Slot::new(vec![b"nothing-like-this".to_vec()]),
    ];
    let res = objects.fill_map(&mut slots);
    assert!(res.is_ok());
    assert!(slots[0].found().is_some());
    assert!(slots[1].found().is_none());
}

#[test]
fn later_candidates_are_tried() {
    let objects = snapshot();
    let mut slot = Slot::new(vec![b"libz.so".to_vec(), b"/opt/liby.so".to_vec()]);
    objects.fill_map(&mut slot).unwrap();
    let found = slot.found().as_ref().expect("slot should be written");
    assert_eq!(found.base_addr, 0x3000);
}

#[test]
fn written_slot_is_never_revisited() {
    let objects = snapshot();
    let mut slot = Slot::new(vec![b"libx.so".to_vec()]);
    objects.fill_map(&mut slot).unwrap();
    assert_eq!(slot.found().as_ref().unwrap().base_addr, 0x1000);

    // A second pass over objects that would also match changes nothing.
    let other = Objects::from_objects(vec![UnixObject::new(
        b"libx.so".to_vec(),
        0x9000,
        vec![header(5)],
    )]);
    other.fill_map(&mut slot).unwrap();
    assert_eq!(slot.found().as_ref().unwrap().base_addr, 0x1000);
}

#[test]
fn full_map_stays_unchanged() {
    let objects = snapshot();
    let mut slots = vec![
        Slot::new(vec![b"libx.so".to_vec()]),
        Slot::new(vec![b"/opt/liby.so".to_vec()]),
    ];
    objects.fill_map(&mut slots).unwrap();
    assert!(slots.iter().all(|slot| slot.found().is_some()));
    let before: Vec<(Vec<u8>, usize)> = slots
        .iter()
        .map(|slot| {
            let f = slot.found().as_ref().unwrap();
            (f.name.clone(), f.base_addr)
        })
        .collect();

    objects.fill_map(&mut slots).unwrap();
    let after: Vec<(Vec<u8>, usize)> = slots
        .iter()
        .map(|slot| {
            let f = slot.found().as_ref().unwrap();
            (f.name.clone(), f.base_addr)
        })
        .collect();
    assert_eq!(before, after);
}

#[test]
fn slot_reports_its_own_matching() {
    let slot = Slot::new(vec![b"a".to_vec(), b"b".to_vec()]);
    assert!(slot.name_matches(b"a"));
    assert!(slot.name_matches(b"b"));
    assert!(!slot.name_matches(b"c"));
    assert!(!slot.is_written());
}

#[test]
fn rwx_is_not_rx() {
    let objects = Objects::from_objects(vec![UnixObject::new(
        b"lib_rwx.so".to_vec(),
        0x5000,
        vec![header(4 | 2 | 1)],
    )]);
    let flags = objects
        .map_by_name(b"lib_rwx", |object| {
            let mut segments = object.segments();
            let segment = segments.next().expect("one segment");
            let f = segment.flags();
            (f.has_r(), f.has_w(), f.has_x(), f.is_rx())
        })
        .unwrap()
        .expect("object should be found");
    assert_eq!(flags, (true, true, true, false));
}

#[test]
fn exactly_read_execute_is_rx() {
    let objects = Objects::from_objects(vec![UnixObject::new(
        b"lib_rx.so".to_vec(),
        0x6000,
        vec![header(4 | 1)],
    )]);
    let is_rx = objects
        .map_by_name(b"lib_rx", |object| {
            object.segments().next().expect("one segment").flags().is_rx()
        })
        .unwrap();
    assert_eq!(is_rx, Some(true));
}

#[test]
fn offering_one_object_writes_matching_slots_and_signals_full() {
    let mut slots = vec![
        Slot::new(vec![b"libx.so".to_vec()]),
        Slot::new(vec![b"liby.so".to_vec()]),
    ];
    let obj_x = UnixObject::new(b"libx.so".to_vec(), 0x1000, vec![header(5)]);
    assert!(!offer_object(&mut slots, &obj_x));
    assert_eq!(slots[0].found().as_ref().unwrap().base_addr, 0x1000);
    assert!(slots[1].found().is_none());

    let obj_y = UnixObject::new(b"liby.so".to_vec(), 0x2000, vec![header(5)]);
    assert!(offer_object(&mut slots, &obj_y));
    assert_eq!(slots[1].found().as_ref().unwrap().base_addr, 0x2000);
}

#[test]
fn offered_object_never_rewrites_a_slot() {
    let mut slot = Slot::new(vec![b"libx.so".to_vec()]);
    let first = UnixObject::new(b"libx.so".to_vec(), 0x1000, Vec::new());
    assert!(offer_object(&mut slot, &first));
    let second = UnixObject::new(b"libx.so".to_vec(), 0x2000, Vec::new());
    assert!(offer_object(&mut slot, &second));
    assert_eq!(slot.found().as_ref().unwrap().base_addr, 0x1000);
}

#[test]
fn pull_fill_takes_first_resolved_candidate() {
    let mut slot = Slot::new(vec![b"liba.so".to_vec(), b"libb.so".to_vec()]);
    let lookups = vec![
        None,
        Some(UnixObject::new(b"libb.so".to_vec(), 0x7000, Vec::new())),
    ];
    fill_entry_pull(&mut slot, 0, &lookups);
    let found = slot.found().as_ref().expect("slot should be written");
    assert_eq!(found.name, b"libb.so".to_vec());
    assert_eq!(found.base_addr, 0x7000);
}

#[test]
fn pull_fill_leaves_unresolved_slot_unwritten() {
    let mut slot = Slot::new(vec![b"liba.so".to_vec()]);
    let lookups: Vec<Option<UnixObject>> = vec![None];
    fill_entry_pull(&mut slot, 0, &lookups);
    assert!(slot.found().is_none());
}

#[test]
fn pull_fill_never_rewrites_a_written_slot() {
    let mut slot = Slot::new(vec![b"liba.so".to_vec()]);
    let first = vec![Some(UnixObject::new(b"liba.so".to_vec(), 0x1, Vec::new()))];
    fill_entry_pull(&mut slot, 0, &first);
    let second = vec![Some(UnixObject::new(b"liba.so".to_vec(), 0x2, Vec::new()))];
    fill_entry_pull(&mut slot, 0, &second);
    assert_eq!(slot.found().as_ref().unwrap().base_addr, 0x1);
}

#[test]
fn object_records_expose_their_fields() {
    let obj = UnixObject::new(b"/x/liba.so".to_vec(), 0xabc, vec![header(5), header(6)]);
    assert_eq!(obj.name().as_slice(), b"/x/liba.so");
    assert_eq!(obj.base_addr(), 0xabc);
    assert_eq!(obj.n_headers(), 2);
    assert_eq!(obj.headers().len(), 2);
    assert_eq!(obj.headers()[0].virtual_addr(), 0);
    assert_eq!(obj.headers()[1].size(), 0x1000);
    assert!(obj.headers()[1].flags().is_writable());
    assert!(!obj.is_main_program());
    assert!(UnixObject::new(Vec::new(), 0, Vec::new()).is_main_program());
}

#[test]
fn flag_word_algebra() {
    let r = SegmentFlags(4);
    let x = SegmentFlags(1);
    let w = SegmentFlags(2);
    let rx = r.union(x);
    assert!(rx.is(&SegmentFlags(5)));
    assert!(rx.contains(&r));
    assert!(rx.contains(&x));
    assert!(!rx.contains(&w));
    assert!(rx.is_executable());
    assert!(rx.is_readable());
    assert!(!rx.is_writable());
    let union_assoc = r.union(x.union(w));
    assert!(union_assoc.is(&r.union(x).union(w)));
}
