use std::cell::Cell;
use std::ops::ControlFlow;

use loaded_objects::unix::{ElfSegmentHeader, UnixObject};
use loaded_objects::{map_found, Objects, Symbols};

fn rx_header() -> ElfSegmentHeader {
    ElfSegmentHeader::new(0x1000, 0x2000, 4 | 1)
}

fn rw_header() -> ElfSegmentHeader {
    ElfSegmentHeader::new(0x4000, 0x500, 4 | 2)
}

fn sample_process() -> Objects {
    let main = UnixObject::new(Vec::new(), 0x40_0000, vec![rx_header(), rw_header()]);
    let libm = UnixObject::new(
        b"/usr/lib/libm.so.6".to_vec(),
        0x7f00_0000,
        vec![rx_header()],
    );
    let libfoo = UnixObject::new(
        b"/a/b/libfoo.so".to_vec(),
        0x7f10_0000,
        vec![rx_header(), rw_header()],
    );
    Objects::from_objects(vec![main, libm, libfoo])
}

#[test]
fn has_main_program() {
    let objects = sample_process();
    let has_main_program = Cell::new(false);
    objects
        .for_each(|object| {
            let is_main_program = object.is_main_program();
            has_main_program.set(is_main_program);
            is_main_program
        })
        .unwrap();
    assert!(has_main_program.get());
}

#[test]
fn cant_find_invalid() {
    let objects = sample_process();
    assert_eq!(objects.map_by_name(b"\n", move |_| ()).unwrap(), None);
}

#[test]
fn exactly_one_main_program() {
    let objects = sample_process();
    let count = Cell::new(0u32);
    objects
        .for_each(|object| {
            if object.is_main_program() {
                count.set(count.get() + 1);
            }
        })
        .unwrap();
    assert_eq!(count.get(), 1);
}

#[test]
fn absent_name_is_not_an_error() {
    let objects = sample_process();
    let res = objects.map_by_name(b"\0-cannot-exist", |object| object.base_addr());
    assert_eq!(res.unwrap(), None);
}

#[test]
fn map_by_name_matches_raw_name() {
    let objects = sample_process();
    let base = objects
        .map_by_name(b"/usr/lib/libm.so.6", |object| object.base_addr())
        .unwrap();
    assert_eq!(base, Some(0x7f00_0000));
}

#[test]
fn map_by_name_matches_nice_name() {
    let objects = sample_process();
    let base = objects
        .map_by_name(b"libfoo", |object| object.base_addr())
        .unwrap();
    assert_eq!(base, Some(0x7f10_0000));
}

#[test]
fn map_by_name_does_not_normalize_the_query() {
    // The candidate object name is normalized, the query never is: a
    // query spelt with the suffix matches only the raw name.
    let objects = sample_process();
    let res = objects
        .map_by_name(b"libfoo.so", |object| object.base_addr())
        .unwrap();
    assert_eq!(res, None);
}

#[test]
fn find_map_returns_first_yield() {
    let objects = sample_process();
    let found = objects
        .find_map(|object| {
            if object.is_main_program() {
                None
            } else {
                Some(object.base_addr())
            }
        })
        .unwrap();
    assert_eq!(found, Some(0x7f00_0000));
}

#[test]
fn find_map_exhausts_without_yield() {
    let objects = sample_process();
    let found = objects.find_map(|_| None::<u32>).unwrap();
    assert_eq!(found, None);
}

#[test]
fn for_each_stops_on_break_signal() {
    let objects = sample_process();
    let visits = Cell::new(0u32);
    objects
        .for_each(|_| {
            visits.set(visits.get() + 1);
            true
        })
        .unwrap();
    assert_eq!(visits.get(), 1);
}

#[test]
fn for_each_with_unit_visits_everything() {
    let objects = sample_process();
    let visits = Cell::new(0u32);
    objects
        .for_each(|_| {
            visits.set(visits.get() + 1);
        })
        .unwrap();
    assert_eq!(visits.get(), 3);
}

#[test]
fn for_each_understands_control_flow() {
    let objects = sample_process();
    let visits = Cell::new(0u32);
    objects
        .for_each(|object| {
            visits.set(visits.get() + 1);
            if object.is_main_program() {
                ControlFlow::Continue(())
            } else {
                ControlFlow::Break(())
            }
        })
        .unwrap();
    assert_eq!(visits.get(), 2);
}

#[test]
fn empty_enumerator_visits_nothing() {
    let objects = Objects::new();
    assert_eq!(objects.len(), 0);
    let visits = Cell::new(0u32);
    objects
        .for_each(|_| {
            visits.set(visits.get() + 1);
        })
        .unwrap();
    assert_eq!(visits.get(), 0);
}

#[test]
fn main_program_has_an_rx_segment() {
    let objects = sample_process();
    let saw_rx = objects
        .find_map(|object| {
            if !object.is_main_program() {
                return None;
            }
            let mut segments = object.segments();
            let mut any_rx = false;
            while let Some(segment) = segments.next() {
                if segment.flags().is_rx() {
                    any_rx = true;
                }
            }
            Some(any_rx)
        })
        .unwrap();
    assert_eq!(saw_rx, Some(true));
}

#[test]
fn segments_report_their_fields() {
    let objects = sample_process();
    let fields = objects
        .map_by_name(b"libfoo", |object| {
            let mut segments = object.segments();
            let mut out = Vec::new();
            while let Some(segment) = segments.next() {
                out.push((segment.virtual_addr(), segment.size()));
            }
            out
        })
        .unwrap();
    assert_eq!(fields, Some(vec![(0x1000, 0x2000), (0x4000, 0x500)]));
}

#[test]
fn direct_lookup_result_is_mapped() {
    let obj = UnixObject::new(b"libz.so".to_vec(), 0x8000, Vec::new());
    let base = map_found(Some(&obj), |object| object.base_addr());
    assert_eq!(base, Some(0x8000));
    let none = map_found(None, |object| object.base_addr());
    assert_eq!(none, None);
}

#[test]
fn promoting_symbols_keeps_base_and_handle() {
    let objects = sample_process();
    let library = objects
        .map_by_name(b"libm", |object| object.library(Symbols::new(7)))
        .unwrap()
        .expect("libm should be found");
    assert_eq!(library.base_addr(), 0x7f00_0000);
    assert_eq!(library.handle(), 7);
}
