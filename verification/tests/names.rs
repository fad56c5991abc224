use loaded_objects::util::{check_lib_name, to_nice_name};
use loaded_objects::map::default_name_matcher;

#[test]
fn nice_name_strips_path_and_suffix() {
    assert_eq!(to_nice_name(b"/a/b/libfoo.so"), &b"libfoo"[..]);
    assert_eq!(to_nice_name(b"libfoo.so"), &b"libfoo"[..]);
    assert_eq!(to_nice_name(b"libfoo"), &b"libfoo"[..]);
    assert_eq!(to_nice_name(b"/a/b/libfoo"), &b"libfoo"[..]);
}

#[test]
fn nice_name_takes_last_separator_and_first_dot() {
    assert_eq!(to_nice_name(b"/usr/lib/libm.so.6"), &b"libm"[..]);
    assert_eq!(to_nice_name(b"a/b/c/d.e.f"), &b"d"[..]);
    assert_eq!(to_nice_name(b""), &b""[..]);
    assert_eq!(to_nice_name(b"/"), &b""[..]);
    assert_eq!(to_nice_name(b".hidden"), &b""[..]);
}

#[test]
fn nice_name_is_idempotent_on_samples() {
    let samples: [&[u8]; 6] = [
        b"/a/b/libfoo.so",
        b"libfoo.so.1.2",
        b"",
        b"/",
        b"...",
        b"plain",
    ];
    for s in samples {
        let once = to_nice_name(s).to_vec();
        let twice = to_nice_name(&once).to_vec();
        assert_eq!(once, twice);
    }
}

#[test]
fn check_lib_name_tries_raw_then_nice() {
    assert!(check_lib_name(b"/a/b/libfoo.so", b"/a/b/libfoo.so"));
    assert!(check_lib_name(b"/a/b/libfoo.so", b"libfoo"));
    assert!(!check_lib_name(b"/a/b/libfoo.so", b"libfoo.so"));
    assert!(!check_lib_name(b"libbar.so", b"libfoo"));
    assert!(check_lib_name(b"", b""));
}

#[test]
fn default_name_matcher_accepts_nice_or_raw() {
    assert!(default_name_matcher(b"/a/b/libfoo.so", b"libfoo"));
    assert!(default_name_matcher(b"/a/b/libfoo.so", b"/a/b/libfoo.so"));
    assert!(!default_name_matcher(b"/a/b/libfoo.so", b"libfoo.so"));
    assert!(!default_name_matcher(b"/a/b/libfoo.so", b"libbar"));
}
