use folix::toolbox::{input_stem, output_name_for, OperationPlan, PdfOperation, PdfToolboxState, SplitMode};

#[test]
fn fresh_toolbox() {
    let s = PdfToolboxState::new();
    assert!(s.input_files.is_empty());
    assert_eq!(s.operation, PdfOperation::Merge);
    assert_eq!(s.split_mode, SplitMode::Range);
    assert_eq!((s.split_start, s.split_end, s.split_every_n), (1, 1, 10));
    assert!(s.output_dir.is_none());
    assert!(!s.running);
    assert_eq!(s.merge_before_after_page, 1);
    assert_eq!(s.default_output_name(), "output");
    assert_eq!(s.resolve_output_dir(), ".");
    assert_eq!(s.operation_name(), "Merge PDFs");
}

#[test]
fn operation_labels() {
    assert_eq!(PdfOperation::Merge.name(), "Merge PDFs");
    assert_eq!(PdfOperation::Split.name(), "Split PDF");
    assert_eq!(PdfOperation::ExtractImages.name(), "Extract Images");
    assert_eq!(PdfOperation::ExtractText.name(), "Extract Text");
    assert_eq!(PdfOperation::ImageToPdf.name(), "Image(s) → PDF");
}

#[test]
fn can_execute_needs_inputs_and_idle() {
    let mut s = PdfToolboxState::new();
    assert!(!s.can_execute());
    s.input_files.push("a.pdf".to_string());
    assert!(!s.can_execute());
    s.input_files.push("b.pdf".to_string());
    assert!(s.can_execute());
    s.running = true;
    assert!(!s.can_execute());
    s.running = false;
    s.operation = PdfOperation::Split;
    s.input_files.truncate(1);
    assert!(s.can_execute());
}

#[test]
fn output_names() {
    assert_eq!(output_name_for(PdfOperation::Merge, Some("book".to_string()), 1, 1), "book_merged.pdf");
    assert_eq!(output_name_for(PdfOperation::Split, Some("book".to_string()), 3, 7), "book_split_p3-p7.pdf");
    assert_eq!(output_name_for(PdfOperation::ExtractImages, Some("book".to_string()), 2, 9), "book_p2.png");
    assert_eq!(output_name_for(PdfOperation::ExtractText, Some("book".to_string()), 1, 1), "book.txt");
    assert_eq!(output_name_for(PdfOperation::ImageToPdf, Some("pic".to_string()), 1, 1), "pic.pdf");
    assert_eq!(output_name_for(PdfOperation::Merge, None, 1, 1), "merged_merged.pdf");
    assert_eq!(output_name_for(PdfOperation::Split, None, 1, 2), "split_split_p1-p2.pdf");
    assert_eq!(output_name_for(PdfOperation::ExtractText, None, 1, 1), "extracted.txt");
    assert_eq!(output_name_for(PdfOperation::ImageToPdf, None, 1, 1), "output.pdf");
}

#[test]
fn default_name_and_folder_from_first_input() {
    let mut s = PdfToolboxState::new();
    s.input_files.push("/books/math.pdf".to_string());
    s.operation = PdfOperation::Split;
    s.split_start = 2;
    s.split_end = 5;
    assert_eq!(s.default_output_name(), "math_split_p2-p5.pdf");
    assert_eq!(s.resolve_output_dir(), "/books");
    s.output_dir = Some("/out".to_string());
    assert_eq!(s.resolve_output_dir(), "/out");
}

#[test]
fn plans_follow_the_operation() {
    let mut s = PdfToolboxState::new();
    s.input_files = vec!["a.pdf".to_string(), "b.pdf".to_string()];
    match s.plan_with("/o", "a_merged.pdf") {
        OperationPlan::Merge { inputs, output } => {
            assert_eq!(inputs, vec!["a.pdf".to_string(), "b.pdf".to_string()]);
            assert_eq!(output, "/o/a_merged.pdf");
        }
        _ => panic!("expected a merge"),
    }
    s.operation = PdfOperation::Split;
    s.split_mode = SplitMode::EveryNPages;
    s.split_every_n = 7;
    match s.plan_with("/o", "x") {
        OperationPlan::SplitEveryN { input, dir, n } => {
            assert_eq!((input.as_str(), dir.as_str(), n), ("a.pdf", "/o", 7));
        }
        _ => panic!("expected a split every n"),
    }
    s.split_mode = SplitMode::Range;
    s.split_start = 4;
    s.split_end = 6;
    match s.plan_with("/o", "a_split_p4-p6.pdf") {
        OperationPlan::SplitRange { input, output, start, end } => {
            assert_eq!((input.as_str(), output.as_str(), start, end), ("a.pdf", "/o/a_split_p4-p6.pdf", 4, 6));
        }
        _ => panic!("expected a range split"),
    }
}

#[test]
fn log_of_an_operation() {
    let mut s = PdfToolboxState::new();
    s.begin_operation();
    s.finish_operation(Ok(vec!["/o/a.pdf".to_string(), "/o/b.pdf".to_string()]));
    let lines: Vec<(&str, bool)> = s.log.iter().map(|e| (e.message.as_str(), e.is_error)).collect();
    assert_eq!(
        lines,
        vec![
            ("Starting: Merge PDFs …", false),
            ("✓ Done. 2 file(s) written.", false),
            ("  → /o/a.pdf", false),
            ("  → /o/b.pdf", false),
        ]
    );
    s.finish_operation(Err("Need at least 2 PDF files".to_string()));
    let last = s.log.last().unwrap();
    assert_eq!(last.message, "✗ Error: Need at least 2 PDF files");
    assert!(last.is_error);
    s.clear_log();
    assert!(s.log.is_empty());
}

#[test]
fn merge_output_named_after_first_input() {
    let mut s = PdfToolboxState::new();
    s.input_files.push("/docs/report.pdf".to_string());
    s.input_files.push("/docs/annex.pdf".to_string());
    s.operation = PdfOperation::Merge;
    assert_eq!(s.default_output_name(), "report_merged.pdf");
    assert_eq!(s.resolve_output_dir(), "/docs");
    match s.plan_operation() {
        OperationPlan::Merge { inputs, output } => {
            assert_eq!(inputs.len(), 2);
            assert_eq!(output, "/docs/report_merged.pdf");
        }
        _ => panic!("expected a merge plan"),
    }
}

fn dir_for(first: &str) -> String {
    let mut s = PdfToolboxState::new();
    s.input_files.push(first.to_string());
    s.resolve_output_dir()
}

#[test]
fn output_folder_follows_the_parent_of_slash_paths() {
    assert_eq!(dir_for("/docs/report.pdf"), "/docs");
    assert_eq!(dir_for("report.pdf"), "");
    assert_eq!(dir_for("./x.pdf"), ".");
    assert_eq!(dir_for("a//b.pdf"), "a");
    assert_eq!(dir_for("dir/sub/"), "dir");
    assert_eq!(dir_for("a/./b.pdf"), "a");
    assert_eq!(dir_for("/x.pdf"), "/");
    assert_eq!(dir_for("/"), ".");
    assert_eq!(dir_for("."), "");
}

#[test]
fn input_stems_of_slash_paths() {
    assert_eq!(input_stem("dir/sub/", "x"), "sub");
    assert_eq!(input_stem("a/..", "x"), "x");
    assert_eq!(input_stem("./.hidden", "x"), ".hidden");
    assert_eq!(input_stem("a.tar.gz", "x"), "a.tar");
    assert_eq!(input_stem("/", "x"), "x");
    assert_eq!(input_stem("a/b.c/.", "x"), "b");
}
