//! Following a `shred -v` run: what each line of its error stream means
//! (progress, pass number, input/output error), how the run ends up, and the
//! command lines and replies around it.
use vstd::prelude::*;

use crate::text::{
    all_digits, chars_of, contains, contains_chars, decimal, is_ascii_digit, is_digit,
    lowercase_of, parse_u64, parse_u64_chars, push_decimal, push_str, slice_chars,
    starts_with, starts_with_chars, string_views, to_lowercase, trim, trimmed,
};

verus! {

// ---------------------------------------------------------------------------
// Regular expressions
// ---------------------------------------------------------------------------

#[verifier::external_type_specification]
#[verifier::external_body]
pub struct ExRegex(regex::Regex);

/// A compiled regular expression; its view is the pattern it was compiled
/// from.
pub struct CompiledPattern {
    re: regex::Regex,
    source: Ghost<Seq<char>>,
}

impl View for CompiledPattern {
    type V = Seq<char>;

    closed spec fn view(&self) -> Seq<char> {
        self.source@
    }
}

/// Whether `regex::Regex::new` accepts the pattern.
pub uninterp spec fn regex_compiles(pattern: Seq<char>) -> bool;

/// What `regex::Regex::captures` gives on `haystack` for a regex compiled
/// from `pattern`: `None` when it does not match; otherwise the text of each
/// capture group of the leftmost-first match (group 0 is the whole match),
/// `None` for a group that took no part in it.
pub uninterp spec fn regex_captures(pattern: Seq<char>, haystack: Seq<char>) -> Option<
    Seq<Option<Seq<char>>>,
>;

pub open spec fn group_views(g: Seq<Option<String>>) -> Seq<Option<Seq<char>>> {
    g.map_values(|m: Option<String>| crate::system::opt_view(m))
}

/// Calls `regex::Regex::new`: a compiled pattern whose view is `pattern`
/// when the crate accepts it (named `regex_compiles`), `None` otherwise.
#[verifier::external_body]
fn compile_pattern(pattern: &str) -> (res: Option<CompiledPattern>)
    ensures
        res is Some <==> regex_compiles(pattern@),
        res matches Some(p) ==> p@ == pattern@,
{
    match regex::Regex::new(pattern) {
        Ok(re) => Some(CompiledPattern { re, source: Ghost(pattern@) }),
        Err(_) => None,
    }
}

/// Calls `regex::Regex::captures`; the groups' texts are copied out. The
/// result is named `regex_captures` of the pattern and the haystack: the
/// crate's matching is a function of the two alone.
#[verifier::external_body]
fn captures(p: &CompiledPattern, haystack: &str) -> (res: Option<Vec<Option<String>>>)
    ensures
        match res {
            Some(g) => regex_captures(p@, haystack@) == Some(group_views(g@)),
            None => regex_captures(p@, haystack@) is None,
        },
{
    let caps = p.re.captures(haystack)?;
    Some(caps.iter().map(|m| m.map(|m| m.as_str().to_string())).collect())
}

/// The texts of the groups of a match, as values.
pub open spec fn caps_view(c: Option<Vec<Option<String>>>) -> Option<Seq<Option<Seq<char>>>> {
    match c {
        Some(g) => Some(group_views(g@)),
        None => None,
    }
}

/// Group `i` of a match, when the match exists and the group took part.
pub open spec fn group(caps: Option<Seq<Option<Seq<char>>>>, i: int) -> Option<Seq<char>> {
    match caps {
        Some(g) => if 0 <= i < g.len() {
            g[i]
        } else {
            None
        },
        None => None,
    }
}

fn group_of(caps: &Option<Vec<Option<String>>>, i: usize) -> (res: Option<String>)
    ensures
        crate::system::opt_view(res) == group(caps_view(*caps), i as int),
{
    match caps {
        Some(g) => {
            if i < g.len() {
                match &g[i] {
                    Some(s) => Some(s.clone()),
                    None => None,
                }
            } else {
                None
            }
        },
        None => None,
    }
}

/// The pattern of the overall percentage that `shred -v` prints.
pub open spec fn percent_pattern() -> Seq<char> {
    "(\\d+)\\s*%"@
}

/// The pattern of the pass number, "étape <n>/<total>".
pub open spec fn step_pattern() -> Seq<char> {
    "étape\\s+(\\d+)/(\\d+)"@
}

// ---------------------------------------------------------------------------
// Lines of the error stream
// ---------------------------------------------------------------------------

/// The lower-cased line mentions an input/output error.
pub open spec fn mentions_io_error(lower: Seq<char>) -> bool {
    ||| contains(lower, "erreur d'entrée/sortie"@)
    ||| contains(lower, "fdatasync"@)
    ||| contains(lower, "erreur d'écriture au décalage"@)
    ||| contains(lower, "input/output error"@)
    ||| contains(lower, "i/o error"@)
}

/// Whether a line already lower-cased reports an input/output error.
pub fn is_io_error_text(lower: &str) -> (res: bool)
    ensures
        res == mentions_io_error(lower@),
{
    let l = chars_of(lower);
    contains_chars(l.as_slice(), chars_of("erreur d'entrée/sortie").as_slice()) || contains_chars(
        l.as_slice(),
        chars_of("fdatasync").as_slice(),
    ) || contains_chars(l.as_slice(), chars_of("erreur d'écriture au décalage").as_slice())
        || contains_chars(l.as_slice(), chars_of("input/output error").as_slice())
        || contains_chars(l.as_slice(), chars_of("i/o error").as_slice())
}

/// Whether a line of `shred`'s error stream reports an input/output error
/// (matched on its lower-cased form).
pub fn is_io_error_line(line: &str) -> (res: bool)
    ensures
        res == mentions_io_error(lowercase_of(line@)),
{
    let lower = to_lowercase(line);
    is_io_error_text(lower.as_str())
}

/// A number written with one or more ASCII digits, as the progress figures
/// are read.
pub open spec fn is_number_text(s: Seq<char>) -> bool {
    s.len() > 0 && all_digits(s)
}

pub fn is_number_chars(s: &str) -> (res: bool)
    ensures
        res == is_number_text(s@),
{
    let cs = chars_of(s);
    if cs.len() == 0 {
        return false;
    }
    let mut i: usize = 0;
    while i < cs.len()
        invariant
            i <= cs@.len(),
            cs@ == s@,
            forall|k: int| 0 <= k < i ==> is_digit(#[trigger] cs@[k]),
        decreases cs@.len() - i,
    {
        if !is_ascii_digit(cs[i]) {
            return false;
        }
        i = i + 1;
    }
    true
}

/// What the reader of `shred`'s error stream keeps between lines.
pub struct ShredProgress {
    /// the pass being written, as printed (starts at "1")
    pub current_step: String,
    /// the number of passes, as printed (starts at "4")
    pub total_steps: String,
    /// an input/output error was seen
    pub had_io_error: bool,
    /// the non-empty lines read, each followed by a newline
    pub stderr_buffer: String,
}

/// The two patterns that progress lines are read with, compiled once.
pub struct ShredPatterns {
    /// the pattern of the pass number, when it compiled
    step_re: Option<CompiledPattern>,
    /// the pattern of the percentage, when it compiled
    percent_re: Option<CompiledPattern>,
}

impl ShredPatterns {
    /// The pattern of the pass number compiled.
    pub closed spec fn step_ready(&self) -> bool {
        self.step_re is Some
    }

    /// The pattern of the percentage compiled.
    pub closed spec fn percent_ready(&self) -> bool {
        self.percent_re is Some
    }

    /// The compiled patterns are those of the pass number and the percentage.
    pub closed spec fn wf(&self) -> bool {
        &&& (self.step_re matches Some(p) ==> p@ == step_pattern())
        &&& (self.percent_re matches Some(p) ==> p@ == percent_pattern())
    }

    pub fn new() -> (res: Self)
        ensures
            res.wf(),
            res.step_ready() == regex_compiles(step_pattern()),
            res.percent_ready() == regex_compiles(percent_pattern()),
    {
        ShredPatterns {
            step_re: compile_pattern("étape\\s+(\\d+)/(\\d+)"),
            percent_re: compile_pattern("(\\d+)\\s*%"),
        }
    }
}

pub ghost struct ProgressView {
    pub current_step: Seq<char>,
    pub total_steps: Seq<char>,
    pub had_io_error: bool,
    pub stderr_buffer: Seq<char>,
}

impl View for ShredProgress {
    type V = ProgressView;

    open spec fn view(&self) -> ProgressView {
        ProgressView {
            current_step: self.current_step@,
            total_steps: self.total_steps@,
            had_io_error: self.had_io_error,
            stderr_buffer: self.stderr_buffer@,
        }
    }
}

/// What a line of the error stream calls for.
#[derive(Debug)]
pub enum LineOutcome {
    /// an input/output error: stop the process and stop reading
    IoError,
    /// a progress report: `percent` of pass `current_step` of `total_steps`
    Progress { percent: String, current_step: String, total_steps: String },
    /// nothing to report
    Other,
}

pub ghost enum LineOutcomeView {
    IoError,
    Progress { percent: Seq<char>, current_step: Seq<char>, total_steps: Seq<char> },
    Other,
}

impl View for LineOutcome {
    type V = LineOutcomeView;

    open spec fn view(&self) -> LineOutcomeView {
        match self {
            LineOutcome::IoError => LineOutcomeView::IoError,
            LineOutcome::Progress { percent, current_step, total_steps } => LineOutcomeView::Progress {
                percent: percent@,
                current_step: current_step@,
                total_steps: total_steps@,
            },
            LineOutcome::Other => LineOutcomeView::Other,
        }
    }
}

/// The reader's state before the first line.
pub open spec fn progress_start() -> ProgressView {
    ProgressView {
        current_step: "1"@,
        total_steps: "4"@,
        had_io_error: false,
        stderr_buffer: seq![],
    }
}

/// The buffer with a non-empty line appended.
pub open spec fn buffered(buf: Seq<char>, line: Seq<char>) -> Seq<char> {
    if line.len() > 0 {
        buf + line + seq!['\n']
    } else {
        buf
    }
}

/// The reader's state after `line`, and what the line calls for, given the
/// line lower-cased and its matches against the two patterns.
pub open spec fn line_effect(
    st: ProgressView,
    line: Seq<char>,
    lower: Seq<char>,
    step_caps: Option<Seq<Option<Seq<char>>>>,
    percent_caps: Option<Seq<Option<Seq<char>>>>,
) -> (ProgressView, LineOutcomeView) {
    if mentions_io_error(lower) {
        (
            ProgressView {
                had_io_error: true,
                stderr_buffer: buffered(st.stderr_buffer, line),
                ..st
            },
            LineOutcomeView::IoError,
        )
    } else {
        let step = group(step_caps, 1);
        let total = group(step_caps, 2);
        let (cur, tot) = if step is Some && total is Some && is_number_text(step->0)
            && is_number_text(total->0) {
            (step->0, total->0)
        } else {
            (st.current_step, st.total_steps)
        };
        let next = ProgressView {
            current_step: cur,
            total_steps: tot,
            had_io_error: st.had_io_error,
            stderr_buffer: buffered(st.stderr_buffer, line),
        };
        let pct = group(percent_caps, 1);
        if pct is Some && is_number_text(pct->0) {
            (
                next,
                LineOutcomeView::Progress { percent: pct->0, current_step: cur, total_steps: tot },
            )
        } else {
            (next, LineOutcomeView::Other)
        }
    }
}

/// The matches of `line` against `pattern`, none when the pattern did not
/// compile.
pub open spec fn matches_of(compiled: bool, pattern: Seq<char>, line: Seq<char>) -> Option<
    Seq<Option<Seq<char>>>,
> {
    if compiled {
        regex_captures(pattern, line)
    } else {
        None
    }
}

fn pattern_captures(p: &Option<CompiledPattern>, line: &str) -> (res: Option<Vec<Option<String>>>)
    ensures
        match res {
            Some(g) => p matches Some(c) && regex_captures(c@, line@) == Some(group_views(g@)),
            None => p matches Some(c) ==> regex_captures(c@, line@) is None,
        },
{
    match p {
        Some(c) => captures(c, line),
        None => None,
    }
}

impl ShredProgress {
    pub fn new() -> (res: Self)
        ensures
            res@ == progress_start(),
    {
        ShredProgress {
            current_step: String::from_str("1"),
            total_steps: String::from_str("4"),
            had_io_error: false,
            stderr_buffer: String::new(),
        }
    }

    /// Takes one line of `shred`'s error stream into account, given the line
    /// lower-cased and its matches against the pattern of the pass number and
    /// that of the percentage.
    pub fn take_line(
        &mut self,
        line: &str,
        lower: &str,
        step_caps: &Option<Vec<Option<String>>>,
        percent_caps: &Option<Vec<Option<String>>>,
    ) -> (res: LineOutcome)
        ensures
            (final(self)@, res@) == line_effect(
                old(self)@,
                line@,
                lower@,
                caps_view(*step_caps),
                caps_view(*percent_caps),
            ),
    {
        let io = is_io_error_text(lower);
        let nonempty = chars_of(line).len() > 0;
        proof {
            reveal_strlit("\n");
        }
        if nonempty {
            push_str(&mut self.stderr_buffer, line);
            push_str(&mut self.stderr_buffer, "\n");
            assert(self.stderr_buffer@ =~= old(self).stderr_buffer@ + line@ + seq!['\n']);
        }
        assert(self.stderr_buffer@ == buffered(old(self).stderr_buffer@, line@));
        if io {
            self.had_io_error = true;
            return LineOutcome::IoError;
        }
        let step = group_of(step_caps, 1);
        let total = group_of(step_caps, 2);
        match (step, total) {
            (Some(s), Some(t)) => {
                if is_number_chars(s.as_str()) && is_number_chars(t.as_str()) {
                    self.current_step = s;
                    self.total_steps = t;
                }
            },
            _ => {},
        }
        match group_of(percent_caps, 1) {
            Some(p) => {
                if is_number_chars(p.as_str()) {
                    LineOutcome::Progress {
                        percent: p,
                        current_step: self.current_step.clone(),
                        total_steps: self.total_steps.clone(),
                    }
                } else {
                    LineOutcome::Other
                }
            },
            None => LineOutcome::Other,
        }
    }

    /// Takes one line of `shred`'s error stream into account, reading it
    /// with `patterns`.
    pub fn handle_line(&mut self, patterns: &ShredPatterns, line: &str) -> (res: LineOutcome)
        requires
            patterns.wf(),
        ensures
            (final(self)@, res@) == line_effect(
                old(self)@,
                line@,
                lowercase_of(line@),
                matches_of(patterns.step_ready(), step_pattern(), line@),
                matches_of(patterns.percent_ready(), percent_pattern(), line@),
            ),
    {
        let lower = to_lowercase(line);
        let step_caps = pattern_captures(&patterns.step_re, line);
        let percent_caps = pattern_captures(&patterns.percent_re, line);
        self.take_line(line, lower.as_str(), &step_caps, &percent_caps)
    }
}

// ---------------------------------------------------------------------------
// How a run ends
// ---------------------------------------------------------------------------

/// What a run of `shred` left: whether it exited with success, whether an
/// input/output error was seen, its exit code (`None` when a signal ended it)
/// and the lines of its error stream.
#[derive(Debug)]
pub struct ShredResult {
    pub success: bool,
    pub had_io_error: bool,
    pub exit_code: Option<i32>,
    pub stderr: String,
}

/// The state of one disk's wipe, as reported to the interface.
#[derive(Debug)]
pub enum ShredStatus {
    Starting,
    /// `percent` of pass `current_step` of `total_steps`, as printed
    InProgress { percent: String, current_step: String, total_steps: String },
    Completed,
    Stopped,
    FailedIoError { message: String, stderr: String },
    FailedOther { message: String, stderr: String },
}

pub ghost enum ShredStatusView {
    Starting,
    InProgress { percent: Seq<char>, current_step: Seq<char>, total_steps: Seq<char> },
    Completed,
    Stopped,
    FailedIoError { message: Seq<char>, stderr: Seq<char> },
    FailedOther { message: Seq<char>, stderr: Seq<char> },
}

impl View for ShredStatus {
    type V = ShredStatusView;

    open spec fn view(&self) -> ShredStatusView {
        match self {
            ShredStatus::Starting => ShredStatusView::Starting,
            ShredStatus::InProgress { percent, current_step, total_steps } => ShredStatusView::InProgress {
                percent: percent@,
                current_step: current_step@,
                total_steps: total_steps@,
            },
            ShredStatus::Completed => ShredStatusView::Completed,
            ShredStatus::Stopped => ShredStatusView::Stopped,
            ShredStatus::FailedIoError { message, stderr } => ShredStatusView::FailedIoError {
                message: message@,
                stderr: stderr@,
            },
            ShredStatus::FailedOther { message, stderr } => ShredStatusView::FailedOther {
                message: message@,
                stderr: stderr@,
            },
        }
    }
}

/// A message sent while `shred` runs.
#[derive(Debug)]
pub struct ShredMessage {
    pub status: ShredStatus,
}

/// The last status of a run: `Err` is the reason it could not run at all;
/// an input/output error wins over the exit status; exit code 143 or death by
/// a signal means it was stopped.
pub open spec fn final_status_of(
    run: Result<(bool, bool, Option<i32>, Seq<char>), Seq<char>>,
) -> ShredStatusView {
    match run {
        Err(e) => ShredStatusView::FailedOther {
            message: "Impossible d'exécuter shred: "@ + e,
            stderr: seq![],
        },
        Ok((success, had_io_error, code, stderr)) => if had_io_error {
            ShredStatusView::FailedIoError { message: "Erreur d'entrée/sortie détectée"@, stderr }
        } else if success {
            ShredStatusView::Completed
        } else if code == Some(143i32) || code is None {
            ShredStatusView::Stopped
        } else {
            ShredStatusView::FailedOther { message: "Le processus a échoué"@, stderr }
        },
    }
}

pub open spec fn run_view(run: Result<ShredResult, String>) -> Result<
    (bool, bool, Option<i32>, Seq<char>),
    Seq<char>,
> {
    match run {
        Ok(r) => Ok((r.success, r.had_io_error, r.exit_code, r.stderr@)),
        Err(e) => Err(e@),
    }
}

/// The status that ends a run.
pub fn final_status(run: Result<ShredResult, String>) -> (res: ShredStatus)
    ensures
        res@ == final_status_of(run_view(run)),
{
    let result = match run {
        Ok(r) => r,
        Err(e) => {
            let mut message = String::from_str("Impossible d'exécuter shred: ");
            push_str(&mut message, e.as_str());
            return ShredStatus::FailedOther { message, stderr: String::new() };
        },
    };
    if result.had_io_error {
        return ShredStatus::FailedIoError {
            message: String::from_str("Erreur d'entrée/sortie détectée"),
            stderr: result.stderr,
        };
    }
    if result.success {
        return ShredStatus::Completed;
    }
    match result.exit_code {
        Some(143) | None => ShredStatus::Stopped,
        Some(_) => ShredStatus::FailedOther {
            message: String::from_str("Le processus a échoué"),
            stderr: result.stderr,
        },
    }
}

// ---------------------------------------------------------------------------
// Command lines and replies
// ---------------------------------------------------------------------------

/// The number of random passes of a wipe; a last pass of zeros follows.
pub const SHRED_PASSES: u8 = 3;

/// The arguments given to `pkexec` to wipe `disk_path` with `passes` random
/// passes, a last pass of zeros, and progress reports.
pub open spec fn shred_args_of(helper: Seq<char>, passes: u8, disk_path: Seq<char>) -> Seq<
    Seq<char>,
> {
    seq![helper, "shred"@, "-n"@, decimal(passes as nat), "-z"@, "-v"@, disk_path]
}

pub fn shred_args(helper: &str, passes: u8, disk_path: &str) -> (res: Vec<String>)
    ensures
        string_views(res@) == shred_args_of(helper@, passes, disk_path@),
{
    let mut n = String::new();
    push_decimal(&mut n, passes as u64);
    let res = vec![
        String::from_str(helper),
        String::from_str("shred"),
        String::from_str("-n"),
        n,
        String::from_str("-z"),
        String::from_str("-v"),
        String::from_str(disk_path),
    ];
    assert(string_views(res@) =~= shred_args_of(helper@, passes, disk_path@));
    res
}

/// The process number that the helper prints first: the trimmed line is
/// `PID:` followed by a number that fits a `u32`.
pub open spec fn pid_of_line(line: Seq<char>) -> Option<u32> {
    let t = trim(line);
    if starts_with(t, "PID:"@) {
        match parse_u64(t.skip(4)) {
            Some(n) => if n <= u32::MAX {
                Some(n as u32)
            } else {
                None
            },
            None => None,
        }
    } else {
        None
    }
}

pub fn parse_pid_line(line: &str) -> (res: Option<u32>)
    ensures
        res == pid_of_line(line@),
{
    let t = trimmed(chars_of(line).as_slice());
    let prefix = chars_of("PID:");
    proof {
        reveal_strlit("PID:");
    }
    if !starts_with_chars(t.as_slice(), prefix.as_slice()) {
        return None;
    }
    let rest = slice_chars(t.as_slice(), 4, t.len());
    assert(rest@ == trim(line@).skip(4));
    match parse_u64_chars(rest.as_slice()) {
        Some(n) => if n <= 0xffff_ffffu64 {
            Some(n as u32)
        } else {
            None
        },
        None => None,
    }
}

/// Why a stop request through the helper failed, from its error stream.
pub open spec fn stop_failure_of(stderr: Seq<char>) -> Seq<char> {
    if trim(stderr).len() == 0 {
        "L'arrêt a été annulé ou refusé"@
    } else {
        "L'arrêt a échoué: "@ + trim(stderr)
    }
}

pub fn stop_failure_message(stderr: &str) -> (res: String)
    ensures
        res@ == stop_failure_of(stderr@),
{
    let t = trimmed(chars_of(stderr).as_slice());
    if t.len() == 0 {
        String::from_str("L'arrêt a été annulé ou refusé")
    } else {
        let mut m = String::from_str("L'arrêt a échoué: ");
        crate::text::push_chars(&mut m, t.as_slice());
        m
    }
}

// ---------------------------------------------------------------------------
// The privileged helper
// ---------------------------------------------------------------------------

/// What the privileged helper does for an operation name.
#[derive(Debug)]
pub enum HelperTarget {
    /// prints its process number, then becomes this program
    Exec(String),
    /// runs this program and exits with its code
    Run(String),
    /// refuses the operation
    Refused,
}

pub ghost enum HelperTargetView {
    Exec(Seq<char>),
    Run(Seq<char>),
    Refused,
}

impl View for HelperTarget {
    type V = HelperTargetView;

    open spec fn view(&self) -> HelperTargetView {
        match self {
            HelperTarget::Exec(p) => HelperTargetView::Exec(p@),
            HelperTarget::Run(p) => HelperTargetView::Run(p@),
            HelperTarget::Refused => HelperTargetView::Refused,
        }
    }
}

/// The only operations the helper performs, each with a fixed program.
pub open spec fn helper_target_of(op: Seq<char>) -> HelperTargetView {
    if op == "shred"@ {
        HelperTargetView::Exec("/usr/bin/shred"@)
    } else if op == "kill"@ {
        HelperTargetView::Run("/usr/bin/kill"@)
    } else if op == "smartctl"@ {
        HelperTargetView::Run("/usr/sbin/smartctl"@)
    } else if op == "blkid"@ {
        HelperTargetView::Run("/usr/bin/blkid"@)
    } else if op == "true"@ {
        HelperTargetView::Run("/usr/bin/true"@)
    } else {
        HelperTargetView::Refused
    }
}

pub fn helper_target(op: &str) -> (res: HelperTarget)
    ensures
        res@ == helper_target_of(op@),
{
    let o = chars_of(op);
    if crate::text::is_text(o.as_slice(), "shred") {
        HelperTarget::Exec(String::from_str("/usr/bin/shred"))
    } else if crate::text::is_text(o.as_slice(), "kill") {
        HelperTarget::Run(String::from_str("/usr/bin/kill"))
    } else if crate::text::is_text(o.as_slice(), "smartctl") {
        HelperTarget::Run(String::from_str("/usr/sbin/smartctl"))
    } else if crate::text::is_text(o.as_slice(), "blkid") {
        HelperTarget::Run(String::from_str("/usr/bin/blkid"))
    } else if crate::text::is_text(o.as_slice(), "true") {
        HelperTarget::Run(String::from_str("/usr/bin/true"))
    } else {
        HelperTarget::Refused
    }
}

// ---------------------------------------------------------------------------
// Laws
// ---------------------------------------------------------------------------

/// Once an input/output error has been seen, the reader keeps it, whatever
/// lines follow.
pub proof fn lemma_io_error_sticks(
    st: ProgressView,
    line: Seq<char>,
    lower: Seq<char>,
    step_caps: Option<Seq<Option<Seq<char>>>>,
    percent_caps: Option<Seq<Option<Seq<char>>>>,
)
    requires
        st.had_io_error,
    ensures
        line_effect(st, line, lower, step_caps, percent_caps).0.had_io_error,
{
}

/// The error stream kept is exactly the non-empty lines read, in order, each
/// followed by a newline.
pub proof fn lemma_buffer_keeps_lines(
    st: ProgressView,
    line: Seq<char>,
    lower: Seq<char>,
    step_caps: Option<Seq<Option<Seq<char>>>>,
    percent_caps: Option<Seq<Option<Seq<char>>>>,
)
    ensures
        line_effect(st, line, lower, step_caps, percent_caps).0.stderr_buffer == buffered(
            st.stderr_buffer,
            line,
        ),
{
}

/// A run in which an input/output error was seen always ends as an
/// input/output failure carrying its error stream, whatever its exit status.
pub proof fn lemma_io_error_run_fails(success: bool, code: Option<i32>, stderr: Seq<char>)
    ensures
        final_status_of(Ok((success, true, code, stderr))) == (ShredStatusView::FailedIoError {
            message: "Erreur d'entrée/sortie détectée"@,
            stderr,
        }),
{
}

/// The helper runs a program only for the five operations it knows, and
/// every other operation name is refused.
pub proof fn lemma_helper_allows_only_known(op: Seq<char>)
    ensures
        !(helper_target_of(op) is Refused) <==> (op == "shred"@ || op == "kill"@ || op
            == "smartctl"@ || op == "blkid"@ || op == "true"@),
{
}

} // verus!
