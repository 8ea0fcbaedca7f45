use etac::file_names::FileNames;
use etac::line_index::LineIndex;
use etac::sources::SourceMap;
use etac::span::Span;

#[test]
fn files_get_disjoint_windows() {
    let mut sm = SourceMap::new();
    let a = sm.alloc_source("a.eta".to_string(), "abc".to_string()).0;
    let b = sm.alloc_source("b.eta".to_string(), String::new()).0;
    let c = sm.alloc_source("c.eta".to_string(), "xy".to_string()).0;
    assert_eq!(sm.base_offset(a), 0);
    assert_eq!(sm.base_offset(b), 4);
    assert_eq!(sm.base_offset(c), 5);
    assert_eq!(sm.get_source(a).source, "abc");
    assert_eq!(sm.get_source(c).name, "c.eta");
    assert_eq!(sm.get_id("b.eta"), Some(b));
    assert_eq!(sm.get_id("d.eta"), None);
}

#[test]
fn spans_resolve_to_their_file() {
    let mut sm = SourceMap::new();
    let a = sm.alloc_source("a.eta".to_string(), "abc".to_string()).0;
    let b = sm.alloc_source("b.eta".to_string(), String::new()).0;
    let c = sm.alloc_source("c.eta".to_string(), "xy".to_string()).0;
    let (f, r) = sm.local_span(Span::new(5, 6)).unwrap();
    assert_eq!(f, c);
    assert_eq!(r, 0..1);
    let (f, r) = sm.local_span(Span::new(1, 3)).unwrap();
    assert_eq!(f, a);
    assert_eq!(r, 1..3);
    let (f, r) = sm.local_span(Span::new(3, 3)).unwrap();
    assert_eq!(f, a);
    assert_eq!(r, 3..3);
    let (f, r) = sm.local_span(Span::new(4, 4)).unwrap();
    assert_eq!(f, b);
    assert_eq!(r, 0..0);
}

#[test]
fn unresolvable_spans() {
    let sm = SourceMap::new();
    assert!(sm.local_span(Span::new(0, 0)).is_none());
    let mut sm = SourceMap::new();
    sm.alloc_source("a.eta".to_string(), "abc".to_string());
    sm.alloc_source("b.eta".to_string(), "de".to_string());
    assert!(sm.local_span(Span::new(5, 2)).is_none());
}

#[test]
fn multibyte_text_takes_its_byte_length() {
    let mut sm = SourceMap::new();
    sm.alloc_source("u.eta".to_string(), "\u{e9}".to_string());
    let next = sm.alloc_source("v.eta".to_string(), String::new()).0;
    assert_eq!(sm.base_offset(next), 3);
}

#[test]
fn names_are_interned_once() {
    let mut names = FileNames::new();
    let a = names.intern("a.eta");
    let b = names.intern("b.eta");
    let a2 = names.intern("a.eta");
    assert_eq!(a, 0);
    assert_eq!(b, 1);
    assert_eq!(a2, a);
    assert_eq!(names.name(b), "b.eta");
}

#[test]
fn line_columns() {
    let idx = LineIndex::new("ab\ncd\n\nx");
    assert_eq!(idx.line_col(0), (1, 1));
    assert_eq!(idx.line_col(2), (1, 3));
    assert_eq!(idx.line_col(3), (2, 1));
    assert_eq!(idx.line_col(6), (3, 1));
    assert_eq!(idx.line_col(7), (4, 1));
    assert_eq!(idx.line_col(8), (4, 2));
}

#[test]
fn loading_hands_back_the_stored_text() {
    let mut sm = SourceMap::new();
    let (id, text) = sm.alloc_source("a.eta".to_string(), "main() {}".to_string());
    assert_eq!(text, "main() {}");
    assert_eq!(sm.base_offset(id), 0);
}
