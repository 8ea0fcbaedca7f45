use etac::diag::{DiagCtx, LabelColor, Level};
use etac::resolve::{interface_file_name, join_strings, missing_interface, File, SeenFiles};
use etac::sources::SourceMap;
use etac::span::Span;

#[test]
fn a_file_reached_twice_is_handed_out_once() {
    let mut sm = SourceMap::new();
    let a = sm.alloc_source("a.eta".to_string(), "x".to_string()).0;
    let b = sm.alloc_source("b.eti".to_string(), String::new()).0;
    let mut seen = SeenFiles::new();
    assert!(!seen.contains(a));
    assert!(seen.insert(a));
    assert!(seen.insert(b));
    assert!(!seen.insert(a));
    assert!(!seen.insert(b));
    assert!(seen.contains(a) && seen.contains(b));
}

#[test]
fn interfaces_are_eti_files() {
    assert_eq!(interface_file_name("io"), "io.eti");
    assert_eq!(interface_file_name(""), ".eti");
}

#[test]
fn searched_places_are_listed_with_commas() {
    assert_eq!(join_strings(&[], ", "), "");
    assert_eq!(join_strings(&["a".to_string()], ", "), "a");
    assert_eq!(join_strings(&["a".to_string(), "b".to_string(), "c".to_string()], ", "), "a, b, c");
}

#[test]
fn a_missing_interface_names_what_was_searched() {
    let mut dcx = DiagCtx::new();
    let searched = vec!["src/io.eti".to_string(), "lib/io.eti".to_string()];
    missing_interface(&dcx, Span::new(4, 10), "io", &searched).finish(&mut dcx);
    let all = dcx.into_diagnostics();
    let d = &all[0];
    assert_eq!(d.level, Level::Error);
    assert_eq!(d.message, "cannot find interface `io`");
    assert_eq!(d.loc, Some(Span::new(4, 10)));
    assert_eq!(d.labels, vec![(Span::new(4, 10), "no `io.eti` on the search path".to_string(), LabelColor::Red)]);
    assert_eq!(d.note.as_deref(), Some("searched: src/io.eti, lib/io.eti"));
    assert_eq!(d.code, None);
}

#[test]
fn a_file_named_twice_is_queued_once() {
    let mut sm = SourceMap::new();
    let a = sm.alloc_source("a.eta".to_string(), "x".to_string()).0;
    let b = sm.alloc_source("io.eti".to_string(), String::new()).0;
    let mut seen = SeenFiles::new();
    let queued = seen.take_new(vec![File::Program(a), File::Interface(b), File::Program(a)]);
    assert_eq!(queued, vec![File::Program(a), File::Interface(b)]);
    assert!(!seen.insert(b));
    assert!(seen.take_new(vec![File::Interface(b)]).is_empty());
}
