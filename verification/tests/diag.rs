use etac::diag::no_file::NoFileDiagnostic;
use etac::diag::{Diag, DiagCtx, DropBomb, LabelColor, Level};
use etac::span::Span;

#[test]
fn counts_follow_the_finished_diagnostics() {
    let mut dcx = DiagCtx::new();
    assert_eq!(dcx.err_count(), 0);
    assert!(!dcx.has_errors());
    dcx.warn(Span::new(0, 1), "w".to_string()).finish(&mut dcx);
    dcx.err(Span::new(1, 2), "e1".to_string()).finish(&mut dcx);
    dcx.err_no_span("e2".to_string()).finish(&mut dcx);
    Diag::new_no_span(Level::Note, "n".to_string()).finish(&mut dcx);
    assert_eq!(dcx.err_count(), 2);
    assert_eq!(dcx.warn_count(), 1);
    assert!(dcx.has_errors());
    let all = dcx.into_diagnostics();
    let messages: Vec<&str> = all.iter().map(|d| d.message.as_str()).collect();
    assert_eq!(messages, vec!["w", "e1", "e2", "n"]);
    assert_eq!(all[1].loc, Some(Span::new(1, 2)));
    assert_eq!(all[2].loc, None);
}

#[test]
fn cancelled_diagnostics_are_not_recorded() {
    let mut dcx = DiagCtx::new();
    dcx.err(Span::new(0, 1), "dropped".to_string()).cancel();
    assert_eq!(dcx.err_count(), 0);
    dcx.err(Span::new(0, 1), "kept".to_string()).finish(&mut dcx);
    assert_eq!(dcx.into_diagnostics().len(), 1);
}

#[test]
fn builder_parts() {
    let mut dcx = DiagCtx::new();
    dcx.err(Span::new(3, 5), "bad".to_string())
        .with_primary_label("here".to_string())
        .with_secondary_label(Span::new(0, 1), "there".to_string())
        .with_note("a note".to_string())
        .with_code("E1".to_string())
        .finish(&mut dcx);
    let all = dcx.into_diagnostics();
    let d = &all[0];
    assert_eq!(d.level, Level::Error);
    assert_eq!(d.labels.len(), 2);
    assert_eq!(d.labels[0], (Span::new(3, 5), "here".to_string(), LabelColor::Red));
    assert_eq!(d.labels[1], (Span::new(0, 1), "there".to_string(), LabelColor::Yellow));
    assert_eq!(d.note.as_deref(), Some("a note"));
    assert_eq!(d.code.as_deref(), Some("E1"));
}

#[test]
fn drop_bomb() {
    let mut b = DropBomb::new();
    assert!(b.armed());
    b.defuse();
    assert!(!b.armed());
}

#[test]
fn no_file_diagnostic_builders() {
    let d = NoFileDiagnostic::error("oops".to_string())
        .with_primary_label(&(1..4), "this".to_string())
        .with_secondary_label(&(5..6), "that".to_string())
        .with_note("n".to_string())
        .with_code("C".to_string());
    assert_eq!(d.level, Level::Error);
    assert_eq!(d.message, "oops");
    assert_eq!(d.labels[0], (1..4, "this".to_string(), LabelColor::Red));
    assert_eq!(d.labels[1], (5..6, "that".to_string(), LabelColor::Yellow));
    assert_eq!(d.note.as_deref(), Some("n"));
    assert_eq!(d.code.as_deref(), Some("C"));
    assert_eq!(NoFileDiagnostic::warning("w".to_string()).level, Level::Warning);
    assert_eq!(NoFileDiagnostic::note("n".to_string()).level, Level::Note);
}

#[test]
fn a_file_less_diagnostic_moves_into_its_file() {
    let d = NoFileDiagnostic::error("bad".to_string())
        .with_primary_label(&(2..5), "here".to_string())
        .with_secondary_label(&(7..8), "there".to_string())
        .with_note("n".to_string())
        .specify_file(100);
    assert_eq!(d.level, Level::Error);
    assert_eq!(d.message, "bad");
    assert_eq!(d.loc, Some(Span::new(102, 105)));
    assert_eq!(d.labels[0], (Span::new(102, 105), "here".to_string(), LabelColor::Red));
    assert_eq!(d.labels[1], (Span::new(107, 108), "there".to_string(), LabelColor::Yellow));
    assert_eq!(d.note.as_deref(), Some("n"));
    let bare = NoFileDiagnostic::warning("w".to_string()).specify_file(7);
    assert_eq!(bare.loc, None);
    assert!(bare.labels.is_empty());
}
