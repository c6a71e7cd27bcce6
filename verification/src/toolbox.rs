//! The PDF toolbox: which operation runs on which files, the names of what
//! it writes, and the log it keeps.
use vstd::prelude::*;
use crate::chapters::{decimal, decimal_chars};
use crate::text::{chars_of, push_all, str_eq, string_from_chars};
use crate::reflow::file_stem;
use crate::paths::{file_name_of, folder_of, has_plain_stem, parent_dir, plain_path, slash_path, std_file_stem, std_parent, stem_of};
use crate::pdfplan::in_dir;

verus! {

/// A chapter of a PDF's table of contents: its title and 0-based page.
pub struct TocChapter {
    pub title: String,
    pub page: usize,
}

/// What the toolbox does with its input files.
#[derive(Clone, Copy, PartialEq, Eq, Structural, Debug)]
pub enum PdfOperation {
    Merge,
    Split,
    ExtractImages,
    ExtractText,
    ImageToPdf,
}

/// The label of an operation.
pub open spec fn operation_label(op: PdfOperation) -> Seq<char> {
    match op {
        PdfOperation::Merge => "Merge PDFs"@,
        PdfOperation::Split => "Split PDF"@,
        PdfOperation::ExtractImages => "Extract Images"@,
        PdfOperation::ExtractText => "Extract Text"@,
        PdfOperation::ImageToPdf => "Image(s) → PDF"@,
    }
}

impl PdfOperation {
    /// The operation's label.
    pub fn name(&self) -> (s: &'static str)
        ensures
            s@ == operation_label(*self),
    {
        match self {
            PdfOperation::Merge => "Merge PDFs",
            PdfOperation::Split => "Split PDF",
            PdfOperation::ExtractImages => "Extract Images",
            PdfOperation::ExtractText => "Extract Text",
            PdfOperation::ImageToPdf => "Image(s) → PDF",
        }
    }
}

/// How a split cuts the document.
#[derive(Clone, Copy, PartialEq, Eq, Structural, Debug)]
pub enum SplitMode {
    Range,
    EveryNPages,
    ByToc,
}

/// A line of the toolbox log.
pub struct LogEntry {
    pub message: String,
    pub is_error: bool,
}

/// The toolbox: input files, the chosen operation and its options, the
/// output folder (when one was chosen) and the log.
pub struct PdfToolboxState {
    pub input_files: Vec<String>,
    pub operation: PdfOperation,
    pub split_mode: SplitMode,
    pub split_start: usize,
    pub split_end: usize,
    pub split_every_n: usize,
    pub output_dir: Option<String>,
    pub log: Vec<LogEntry>,
    pub running: bool,
    pub toc_chapters: Vec<TocChapter>,
    pub merge_before_after_page: usize,
}

/// Strings as plain values.
pub open spec fn strs(v: Seq<String>) -> Seq<Seq<char>> {
    v.map_values(|s: String| s@)
}

/// Log lines as plain values.
pub open spec fn log_view(v: Seq<LogEntry>) -> Seq<(Seq<char>, bool)> {
    v.map_values(|e: LogEntry| (e.message@, e.is_error))
}

/// The stem used in an output name when the input's file name gives none.
pub open spec fn fallback_stem(op: PdfOperation) -> Seq<char> {
    match op {
        PdfOperation::Merge => "merged"@,
        PdfOperation::Split => "split"@,
        PdfOperation::ExtractImages => "extracted"@,
        PdfOperation::ExtractText => "extracted"@,
        PdfOperation::ImageToPdf => "output"@,
    }
}

/// The stem of the first input, or the operation's fallback.
pub open spec fn chosen_stem(op: PdfOperation, stem: Option<Seq<char>>) -> Seq<char> {
    match stem {
        Some(s) => s,
        None => fallback_stem(op),
    }
}

/// The name of the file an operation writes, from the stem of its first
/// input and the split range.
pub open spec fn output_name(op: PdfOperation, stem: Seq<char>, start: nat, end: nat) -> Seq<char> {
    match op {
        PdfOperation::Merge => stem + "_merged.pdf"@,
        PdfOperation::Split => stem + "_split_p"@ + decimal(start) + "-p"@ + decimal(end) + ".pdf"@,
        PdfOperation::ExtractImages => stem + "_p"@ + decimal(start) + ".png"@,
        PdfOperation::ExtractText => stem + ".txt"@,
        PdfOperation::ImageToPdf => stem + ".pdf"@,
    }
}

/// The value in `o`, or `d`.
pub open spec fn or_default(o: Option<Seq<char>>, d: Seq<char>) -> Seq<char> {
    match o {
        Some(t) => t,
        None => d,
    }
}

/// An option of a string as plain values.
pub open spec fn opt_view(o: Option<String>) -> Option<Seq<char>> {
    match o {
        Some(s) => Some(s@),
        None => None,
    }
}

/// The output name for operation `op` given the stem of the first input
/// (`None` when its file name has none).
pub fn output_name_for(op: PdfOperation, stem: Option<String>, start: usize, end: usize) -> (s: String)
    ensures
        s@ == output_name(op, chosen_stem(op, opt_view(stem)), start as nat, end as nat),
{
    proof {
        reveal_strlit("merged");
        reveal_strlit("split");
        reveal_strlit("extracted");
        reveal_strlit("output");
        reveal_strlit("_merged.pdf");
        reveal_strlit("_split_p");
        reveal_strlit("-p");
        reveal_strlit(".pdf");
        reveal_strlit("_p");
        reveal_strlit(".png");
        reveal_strlit(".txt");
    }
    let mut v: Vec<char> = match stem {
        Some(t) => chars_of(t.as_str()),
        None => match op {
            PdfOperation::Merge => chars_of("merged"),
            PdfOperation::Split => chars_of("split"),
            PdfOperation::ExtractImages => chars_of("extracted"),
            PdfOperation::ExtractText => chars_of("extracted"),
            PdfOperation::ImageToPdf => chars_of("output"),
        },
    };
    let ghost st = v@;
    match op {
        PdfOperation::Merge => {
            push_all(&mut v, chars_of("_merged.pdf").as_slice());
        },
        PdfOperation::Split => {
            push_all(&mut v, chars_of("_split_p").as_slice());
            push_all(&mut v, decimal_chars(start).as_slice());
            push_all(&mut v, chars_of("-p").as_slice());
            push_all(&mut v, decimal_chars(end).as_slice());
            push_all(&mut v, chars_of(".pdf").as_slice());
        },
        PdfOperation::ExtractImages => {
            push_all(&mut v, chars_of("_p").as_slice());
            push_all(&mut v, decimal_chars(start).as_slice());
            push_all(&mut v, chars_of(".png").as_slice());
        },
        PdfOperation::ExtractText => {
            push_all(&mut v, chars_of(".txt").as_slice());
        },
        PdfOperation::ImageToPdf => {
            push_all(&mut v, chars_of(".pdf").as_slice());
        },
    }
    assert(v@ =~= output_name(op, st, start as nat, end as nat));
    string_from_chars(v.as_slice())
}

/// The stem of a file name (`std::path::Path::file_stem`), or `fallback`:
/// for a plain path, the stem of its file name.
pub fn input_stem(input: &str, fallback: &str) -> (s: String)
    ensures
        has_plain_stem(input@) ==> s@ == stem_of(file_name_of(input@)),
        slash_path(input@) ==> s@ == or_default(std_file_stem(input@), fallback@),
{
    match file_stem(input) {
        Some(t) => {
            t
        },
        None => {
            let f = String::from_str(fallback);
            f
        },
    }
}

/// Everything but the log is as it was.
pub open spec fn same_but_log(a: PdfToolboxState, b: PdfToolboxState) -> bool {
    &&& a.input_files == b.input_files
    &&& a.operation == b.operation
    &&& a.split_mode == b.split_mode
    &&& a.split_start == b.split_start
    &&& a.split_end == b.split_end
    &&& a.split_every_n == b.split_every_n
    &&& a.output_dir == b.output_dir
    &&& a.running == b.running
    &&& a.toc_chapters == b.toc_chapters
    &&& a.merge_before_after_page == b.merge_before_after_page
}

/// The log lines of a finished operation: how many files it wrote and
/// each of them, or its error.
pub open spec fn outcome_lines(result: Result<Seq<Seq<char>>, Seq<char>>) -> Seq<(Seq<char>, bool)> {
    match result {
        Ok(paths) => seq![("✓ Done. "@ + decimal(paths.len()) + " file(s) written."@, false)] + paths.map_values(
            |p: Seq<char>| ("  → "@ + p, false),
        ),
        Err(e) => seq![("✗ Error: "@ + e, true)],
    }
}

/// A plan: the outside work an operation asks for, with its files.
pub enum OperationPlan {
    Merge { inputs: Vec<String>, output: String },
    SplitRange { input: String, output: String, start: usize, end: usize },
    SplitEveryN { input: String, dir: String, n: usize },
    SplitByToc { input: String, dir: String },
    ExtractImages { input: String, dir: String },
    ExtractText { input: String, output: String },
    ImagesToPdf { inputs: Vec<String>, output: String },
}

/// The plan of the state's operation, given the output folder and the
/// output name.
pub open spec fn planned(st: PdfToolboxState, dir: Seq<char>, name: Seq<char>, plan: OperationPlan) -> bool {
    let files = strs(st.input_files@);
    let out = in_dir(dir, name);
    match st.operation {
        PdfOperation::Merge => plan matches OperationPlan::Merge { inputs, output } && strs(inputs@)
            == files && output@ == out,
        PdfOperation::Split => match st.split_mode {
            SplitMode::Range => plan matches OperationPlan::SplitRange { input, output, start, end }
                && input@ == files[0] && output@ == out && start == st.split_start && end
                == st.split_end,
            SplitMode::EveryNPages => plan matches OperationPlan::SplitEveryN { input, dir: d, n }
                && input@ == files[0] && d@ == dir && n == st.split_every_n,
            SplitMode::ByToc => plan matches OperationPlan::SplitByToc { input, dir: d } && input@
                == files[0] && d@ == dir,
        },
        PdfOperation::ExtractImages => plan matches OperationPlan::ExtractImages { input, dir: d }
            && input@ == files[0] && d@ == dir,
        PdfOperation::ExtractText => plan matches OperationPlan::ExtractText { input, output }
            && input@ == files[0] && output@ == out,
        PdfOperation::ImageToPdf => plan matches OperationPlan::ImagesToPdf { inputs, output }
            && strs(inputs@) == files && output@ == out,
    }
}

/// No input, or a first input with a plain path and a stem.
pub open spec fn plain_inputs(st: PdfToolboxState) -> bool {
    st.input_files@.len() == 0 || has_plain_stem(st.input_files@[0]@)
}

/// The output folder for plain inputs: the chosen one, else the first
/// input's folder, else `.`.
pub open spec fn plain_dir(st: PdfToolboxState) -> Seq<char> {
    match st.output_dir {
        Some(d) => d@,
        None => if st.input_files@.len() == 0 {
            "."@
        } else {
            folder_of(st.input_files@[0]@)
        },
    }
}

/// The output name for plain inputs: `output` without inputs, else
/// `output_name` of the first input's stem.
pub open spec fn plain_name(st: PdfToolboxState) -> Seq<char> {
    if st.input_files@.len() == 0 {
        "output"@
    } else {
        output_name(st.operation, stem_of(file_name_of(st.input_files@[0]@)), st.split_start as nat, st.split_end as nat)
    }
}

/// The operation reads the first input file.
pub open spec fn reads_first_input(op: PdfOperation) -> bool {
    op == PdfOperation::Split || op == PdfOperation::ExtractImages || op == PdfOperation::ExtractText
}

fn copy_strings(v: &Vec<String>) -> (out: Vec<String>)
    ensures
        strs(out@) == strs(v@),
{
    let mut out: Vec<String> = Vec::new();
    let mut i: usize = 0;
    while i < v.len()
        invariant
            i <= v@.len(),
            strs(out@) == strs(v@).take(i as int),
        decreases v@.len() - i,
    {
        let ghost prev = strs(out@);
        let c = v[i].clone();
        assert(c@ == strs(v@)[i as int]);
        out.push(c);
        assert(strs(out@) =~= prev.push(strs(v@)[i as int]));
        assert(strs(v@).take(i + 1) =~= strs(v@).take(i as int).push(strs(v@)[i as int]));
        i += 1;
    }
    assert(strs(v@).take(v@.len() as int) =~= strs(v@));
    out
}

/// `{dir}/{name}`.
fn joined(dir: &str, name: &str) -> (out: String)
    ensures
        out@ == in_dir(dir@, name@),
{
    let mut v = chars_of(dir);
    v.push('/');
    push_all(&mut v, chars_of(name).as_slice());
    proof {
        reveal_strlit("/");
    }
    assert(v@ =~= in_dir(dir@, name@));
    string_from_chars(v.as_slice())
}

impl PdfToolboxState {
    /// A fresh toolbox: merge, range split of page 1, chunks of 10 pages,
    /// no files, no output folder, an empty log.
    pub fn new() -> (s: Self)
        ensures
            s.input_files@.len() == 0,
            s.operation == PdfOperation::Merge,
            s.split_mode == SplitMode::Range,
            s.split_start == 1,
            s.split_end == 1,
            s.split_every_n == 10,
            s.output_dir is None,
            s.log@.len() == 0,
            !s.running,
            s.toc_chapters@.len() == 0,
            s.merge_before_after_page == 1,
    {
        PdfToolboxState {
            input_files: Vec::new(),
            operation: PdfOperation::Merge,
            split_mode: SplitMode::Range,
            split_start: 1,
            split_end: 1,
            split_every_n: 10,
            output_dir: None,
            log: Vec::new(),
            running: false,
            toc_chapters: Vec::new(),
            merge_before_after_page: 1,
        }
    }

    /// Adds an input file unless it is in the list already.
    pub fn add_input(&mut self, path: String)
        ensures
            strs(final(self).input_files@) == if strs(old(self).input_files@).contains(path@) {
                strs(old(self).input_files@)
            } else {
                strs(old(self).input_files@).push(path@)
            },
            final(self).operation == old(self).operation,
            final(self).split_start == old(self).split_start,
            final(self).split_end == old(self).split_end,
            final(self).output_dir == old(self).output_dir,
            final(self).running == old(self).running,
    {
        let ghost v = strs(self.input_files@);
        let mut k: usize = 0;
        while k < self.input_files.len()
            invariant
                k <= self.input_files@.len(),
                v == strs(self.input_files@),
                forall|j: int| 0 <= j < k ==> v[j] != path@,
            decreases self.input_files@.len() - k,
        {
            if str_eq(self.input_files[k].as_str(), path.as_str()) {
                assert(v[k as int] == path@);
                assert(v.contains(path@));
                return;
            }
            k += 1;
        }
        assert(!v.contains(path@));
        self.input_files.push(path);
        assert(strs(self.input_files@) =~= v.push(path@));
    }

    /// Keeps the end of a page range at or after its start.
    pub fn clamp_split_end(&mut self)
        ensures
            final(self).split_end == if old(self).split_end < old(self).split_start {
                old(self).split_start
            } else {
                old(self).split_end
            },
            final(self).split_start == old(self).split_start,
            final(self).input_files@ == old(self).input_files@,
            final(self).operation == old(self).operation,
    {
        if self.split_end < self.split_start {
            self.split_end = self.split_start;
        }
    }

    /// Whether the operation can start: nothing is running and there are
    /// enough input files (two for a merge, one otherwise).
    pub fn can_execute(&self) -> (r: bool)
        ensures
            r == (!self.running && if self.operation == PdfOperation::Merge {
                self.input_files@.len() >= 2
            } else {
                self.input_files@.len() >= 1
            }),
    {
        if self.running {
            return false;
        }
        match self.operation {
            PdfOperation::Merge => self.input_files.len() >= 2,
            _ => self.input_files.len() > 0,
        }
    }

    /// The name of the file the operation writes: `output` without inputs,
    /// else `output_name` of the first input's stem.
    pub fn default_output_name(&self) -> (s: String)
        ensures
            self.input_files@.len() == 0 ==> s@ == "output"@,
            self.input_files@.len() > 0 ==> exists|o: Option<Seq<char>>|
                s@ == output_name(
                    self.operation,
                    #[trigger] chosen_stem(self.operation, o),
                    self.split_start as nat,
                    self.split_end as nat,
                ),
            self.input_files@.len() > 0 && slash_path(self.input_files@[0]@) ==> s@ == output_name(
                self.operation,
                chosen_stem(self.operation, std_file_stem(self.input_files@[0]@)),
                self.split_start as nat,
                self.split_end as nat,
            ),
            self.input_files@.len() > 0 && has_plain_stem(self.input_files@[0]@) ==> s@ == output_name(
                self.operation,
                stem_of(file_name_of(self.input_files@[0]@)),
                self.split_start as nat,
                self.split_end as nat,
            ),
    {
        if self.input_files.len() == 0 {
            return String::from_str("output");
        }
        let stem = file_stem(self.input_files[0].as_str());
        let ghost o = opt_view(stem);
        let s = output_name_for(self.operation, stem, self.split_start, self.split_end);
        assert(s@ == output_name(
            self.operation,
            chosen_stem(self.operation, o),
            self.split_start as nat,
            self.split_end as nat,
        ));
        s
    }

    /// The output folder: the chosen one, else the first input's folder
    /// (`.` when it has none), else `.`.
    pub fn resolve_output_dir(&self) -> (s: String)
        ensures
            self.output_dir matches Some(d) ==> s@ == d@,
            self.output_dir is None && self.input_files@.len() == 0 ==> s@ == "."@,
            self.output_dir is None && self.input_files@.len() > 0 && slash_path(self.input_files@[0]@) ==> s@
                == or_default(std_parent(self.input_files@[0]@), "."@),
            self.output_dir is None && self.input_files@.len() > 0 && plain_path(self.input_files@[0]@) ==> s@
                == folder_of(self.input_files@[0]@),
    {
        match &self.output_dir {
            Some(d) => d.clone(),
            None => {
                if self.input_files.len() > 0 {
                    match parent_dir(self.input_files[0].as_str()) {
                        Some(p) => {
                            assert(p@ == or_default(Some(p@), "."@));
                            p
                        },
                        None => {
                            let d = String::from_str(".");
                            assert(d@ == or_default(None, "."@));
                            d
                        },
                    }
                } else {
                    String::from_str(".")
                }
            },
        }
    }

    /// The label of the chosen operation.
    pub fn operation_name(&self) -> (s: &'static str)
        ensures
            s@ == operation_label(self.operation),
    {
        self.operation.name()
    }

    /// Empties the log.
    pub fn clear_log(&mut self)
        ensures
            final(self).log@.len() == 0,
            same_but_log(*final(self), *old(self)),
    {
        self.log.clear();
    }

    /// Logs the start of the operation: `Starting: {label} …`.
    pub fn begin_operation(&mut self)
        ensures
            log_view(final(self).log@) == log_view(old(self).log@).push(
                ("Starting: "@ + operation_label(old(self).operation) + " …"@, false),
            ),
            same_but_log(*final(self), *old(self)),
    {
        proof {
            reveal_strlit("Starting: ");
            reveal_strlit(" …");
        }
        let mut m = chars_of("Starting: ");
        push_all(&mut m, chars_of(self.operation.name()).as_slice());
        push_all(&mut m, chars_of(" …").as_slice());
        let ghost before = log_view(self.log@);
        self.log.push(LogEntry { message: string_from_chars(m.as_slice()), is_error: false });
        assert(log_view(self.log@) =~= before.push(
            ("Starting: "@ + operation_label(self.operation) + " …"@, false),
        ));
    }

    /// The outside work of the operation: its input files and where its
    /// output goes (`{dir}/{name}` for a single output file, `dir` for
    /// several).  A split or an extraction reads the first input file.
    pub fn plan_with(&self, dir: &str, name: &str) -> (plan: OperationPlan)
        requires
            reads_first_input(self.operation) ==> self.input_files@.len() > 0,
        ensures
            planned(*self, dir@, name@, plan),
    {
        match self.operation {
            PdfOperation::Merge => OperationPlan::Merge {
                inputs: copy_strings(&self.input_files),
                output: joined(dir, name),
            },
            PdfOperation::Split => {
                let input = self.input_files[0].clone();
                match self.split_mode {
                    SplitMode::Range => OperationPlan::SplitRange {
                        input,
                        output: joined(dir, name),
                        start: self.split_start,
                        end: self.split_end,
                    },
                    SplitMode::EveryNPages => OperationPlan::SplitEveryN {
                        input,
                        dir: String::from_str(dir),
                        n: self.split_every_n,
                    },
                    SplitMode::ByToc => OperationPlan::SplitByToc { input, dir: String::from_str(dir) },
                }
            },
            PdfOperation::ExtractImages => OperationPlan::ExtractImages {
                input: self.input_files[0].clone(),
                dir: String::from_str(dir),
            },
            PdfOperation::ExtractText => OperationPlan::ExtractText {
                input: self.input_files[0].clone(),
                output: joined(dir, name),
            },
            PdfOperation::ImageToPdf => OperationPlan::ImagesToPdf {
                inputs: copy_strings(&self.input_files),
                output: joined(dir, name),
            },
        }
    }

    /// The plan of the operation in the resolved output folder under the
    /// default output name.
    pub fn plan_operation(&self) -> (plan: OperationPlan)
        requires
            reads_first_input(self.operation) ==> self.input_files@.len() > 0,
        ensures
            exists|dir: Seq<char>, name: Seq<char>| #[trigger] planned(*self, dir, name, plan),
            plain_inputs(*self) ==> planned(*self, plain_dir(*self), plain_name(*self), plan),
    {
        let dir = self.resolve_output_dir();
        let name = self.default_output_name();
        proof {
            reveal_strlit("output");
            reveal_strlit(".");
        }
        self.plan_with(dir.as_str(), name.as_str())
    }

    /// Logs how the operation ended: the number of files written and each
    /// path, or the error.
    pub fn finish_operation(&mut self, result: Result<Vec<String>, String>)
        ensures
            log_view(final(self).log@) == log_view(old(self).log@) + outcome_lines(
                match result {
                    Ok(v) => Ok(strs(v@)),
                    Err(e) => Err(e@),
                },
            ),
            same_but_log(*final(self), *old(self)),
    {
        proof {
            reveal_strlit("✓ Done. ");
            reveal_strlit(" file(s) written.");
            reveal_strlit("  → ");
            reveal_strlit("✗ Error: ");
        }
        let ghost before = log_view(self.log@);
        match result {
            Ok(paths) => {
                let mut m = chars_of("✓ Done. ");
                push_all(&mut m, decimal_chars(paths.len()).as_slice());
                push_all(&mut m, chars_of(" file(s) written.").as_slice());
                self.log.push(LogEntry { message: string_from_chars(m.as_slice()), is_error: false });
                let ghost pv = strs(paths@);
                let ghost lines = pv.map_values(|p: Seq<char>| ("  → "@ + p, false));
                let ghost head = before.push(("✓ Done. "@ + decimal(pv.len()) + " file(s) written."@, false));
                assert(log_view(self.log@) =~= head);
                let mut i: usize = 0;
                while i < paths.len()
                    invariant
                        i <= paths@.len(),
                        pv == strs(paths@),
                        lines == pv.map_values(|p: Seq<char>| ("  → "@ + p, false)),
                        log_view(self.log@) == head + lines.take(i as int),
                        same_but_log(*self, *old(self)),
                    decreases paths@.len() - i,
                {
                    proof {
                        reveal_strlit("  → ");
                    }
                    let mut l = chars_of("  → ");
                    push_all(&mut l, chars_of(paths[i].as_str()).as_slice());
                    let ghost prev = log_view(self.log@);
                    self.log.push(LogEntry { message: string_from_chars(l.as_slice()), is_error: false });
                    assert(log_view(self.log@) =~= prev.push(lines[i as int]));
                    assert(lines.take(i + 1) =~= lines.take(i as int).push(lines[i as int]));
                    i += 1;
                }
                assert(lines.take(i as int) =~= lines);
                assert(log_view(self.log@) =~= before + outcome_lines(Ok(pv)));
            },
            Err(e) => {
                let mut m = chars_of("✗ Error: ");
                push_all(&mut m, chars_of(e.as_str()).as_slice());
                self.log.push(LogEntry { message: string_from_chars(m.as_slice()), is_error: true });
                assert(log_view(self.log@) =~= before + outcome_lines(Err(e@)));
            },
        }
    }
}

} // verus!
