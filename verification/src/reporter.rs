//! Output renderers for a finished run: which one to use, the pure line
//! building they share, and the trusted edges (terminal colors, stdout).
//! Rendering is a thin layer over the engine's results; nothing here feeds
//! back into execution.

use vstd::prelude::*;
use vstd::string::StringExecFns;
use vstd::std_specs::iter::IteratorSpec;
use convert_case::{Case, Casing};
use std::io::Write;
use crate::spec::SpecBody;
use crate::suite::{
    total_specs, suite_height, lemma_forest_height_member, lemma_forest_specs_prefix,
    lemma_forest_specs_prefix_le, lemma_forest_specs_whole, Duration, DurationType, Speed, Suite,
};
use crate::suite_context::Hook;
use crate::text::{dec_str, u128_to_string, u32_to_string};

verus! {

/// The output renderer a run hands its finished tree to.
pub enum Reporter {
    Spec,
    Min,
    Dot,
    List,
    Rust,
    Tap,
    /// `true` asks for pretty-printed output.
    Json(bool),
}

/// An elapsed time tagged with the speed class it is shown in.
pub enum SpeedDisplay {
    Fast(Duration),
    OnTime(Duration),
    Slow(Duration),
}

/// Relies on console's `style(..).red().for_stdout()`: the text wrapped in
/// whatever color codes the terminal settings call for.
#[verifier::external_body]
fn red(text: String) -> String {
    console::style(text).red().for_stdout().to_string()
}

/// Relies on console's `style(..).green().for_stdout()`.
#[verifier::external_body]
fn green(text: String) -> String {
    console::style(text).green().for_stdout().to_string()
}

/// Relies on console's `style(..).cyan().for_stdout()`.
#[verifier::external_body]
fn cyan(text: String) -> String {
    console::style(text).cyan().for_stdout().to_string()
}

/// Relies on console's `style(..).dim().for_stdout()`.
#[verifier::external_body]
fn dim(text: String) -> String {
    console::style(text).dim().for_stdout().to_string()
}

/// Relies on console's `style(..).yellow().for_stdout()`.
#[verifier::external_body]
fn yellow(text: String) -> String {
    console::style(text).yellow().for_stdout().to_string()
}

/// The case-folded identifier convert_case renders for a name; a function
/// of the characters alone.
pub uninterp spec fn snake_of(s: Seq<char>) -> Seq<char>;

/// Relies on convert_case's `Casing::to_case` with the snake variant: the
/// result depends on the input characters alone.
#[verifier::external_body]
fn to_snake(s: &str) -> (r: String)
    ensures
        r@ == snake_of(s@),
{
    s.to_case(Case::Snake)
}

/// Relies on std's `writeln!` to stdout: prints one line.
#[verifier::external_body]
fn print_line(s: &str) {
    let _ = writeln!(std::io::stdout(), "{}", s);
}

impl SpeedDisplay {
    /// The tagged duration, colored by its speed class (green, yellow or
    /// red); the color codes come from the terminal settings, so nothing
    /// more is claimed of the text.
    pub fn to_string(&self) -> String {
        match self {
            SpeedDisplay::Fast(duration) => green(duration.to_string()),
            SpeedDisplay::OnTime(duration) => yellow(duration.to_string()),
            SpeedDisplay::Slow(duration) => red(duration.to_string()),
        }
    }
}

/// The duration of a spec, tagged with the unit this run measures in.
fn tagged_duration(d: u128, t: DurationType) -> (r: Duration)
    ensures
        t is Nano ==> r == Duration::Nano(d),
        t is Micro ==> r == Duration::Micro(d),
        t is Mil ==> r == Duration::Mil(d),
        t is Sec ==> r == Duration::Sec(d),
{
    match t {
        DurationType::Nano => Duration::Nano(d),
        DurationType::Micro => Duration::Micro(d),
        DurationType::Mil => Duration::Mil(d),
        DurationType::Sec => Duration::Sec(d),
    }
}

/// Counters the line-oriented renderers accumulate.
struct TallyLines {
    pub passed: u32,
    pub failed: u32,
    pub pending: u32,
    pub error_lines: Vec<String>,
}

/// "s" for a count that needs a plural, else nothing.
fn get_suffix(n: u32) -> (r: String)
    ensures
        n > 1 ==> r@ == "s"@,
        n <= 1 ==> r@.len() == 0,
{
    if n > 1 {
        String::from_str("s")
    } else {
        String::new()
    }
}

/// How many specs the whole tree declares.
fn get_count<B: SpecBody, H: Hook>(suite: &Suite<B, H>) -> (r: u32)
    requires
        total_specs(*suite) <= u32::MAX,
    ensures
        r == total_specs(*suite),
    decreases suite_height(*suite),
{
    let mut count: u32 = suite.context.specs.len() as u32;
    let n = suite.context.suites.len();
    let mut i: usize = 0;
    while i < n
        invariant
            i <= n,
            n == suite.context.suites@.len(),
            total_specs(*suite) <= u32::MAX,
            total_specs(*suite) == suite.context.specs@.len() + crate::suite::forest_specs(
                suite.context.suites@,
            ),
            suite_height(*suite) == 1 + crate::suite::forest_height(suite.context.suites@),
            count == suite.context.specs@.len() + crate::suite::forest_specs(
                suite.context.suites@.subrange(0, i as int),
            ),
        decreases n - i,
    {
        proof {
            lemma_forest_height_member(suite.context.suites@, i as int);
            lemma_forest_specs_prefix(suite.context.suites@, i as int);
            lemma_forest_specs_prefix_le(suite.context.suites@, i as int + 1);
        }
        let c = get_count(&suite.context.suites[i]);
        count = count + c;
        i = i + 1;
    }
    proof {
        lemma_forest_specs_whole(suite.context.suites@);
    }
    count
}

/// Two spaces of indent per tree level.
fn suite_spacing(depth: u32) -> (r: String)
    ensures
        r@.len() == 2 * depth,
    decreases depth,
{
    if depth == 0 {
        String::new()
    } else {
        let mut s = suite_spacing(depth - 1);
        s.append("  ");
        proof {
            reveal_strlit("  ");
        }
        s
    }
}

/// Spec lines sit one level deeper than their suite heading.
fn line_spacing(depth: u32) -> (r: String)
    ensures
        r@.len() == 2 * depth + 2,
{
    let mut s = suite_spacing(depth);
    s.append("  ");
    proof {
        reveal_strlit("  ");
    }
    s
}

/// One space for each decimal digit of `n`, to align error footnotes.
fn space_per_byte(n: u32) -> (r: String)
    ensures
        r@.len() == dec_str(n as nat).len(),
    decreases n,
{
    let mut s = String::from_str(" ");
    proof {
        reveal_strlit(" ");
    }
    if n >= 10 {
        let rest = space_per_byte(n / 10);
        s.append(rest.as_str());
    }
    s
}

/// The same indent rule as `line_spacing`, used by the minimal renderer.
fn line_spacing_for_min(depth: u32) -> (r: String)
    ensures
        r@.len() == 2 * depth + 2,
{
    line_spacing(depth)
}

/// The indented tree lines of the default renderer: a heading per suite, a
/// check or a numbered failure per spec, with colors and timings.
fn get_lines_for_spec<B: SpecBody, H: Hook>(
    suite: &Suite<B, H>,
    depth: u32,
    stats: &mut TallyLines,
    lines: &mut Vec<String>,
)
    decreases suite_height(*suite),
{
    let mut heading = suite_spacing(depth);
    heading.append(suite.name.as_str());
    lines.push(heading);
    let ns = suite.context.specs.len();
    let mut i: usize = 0;
    while i < ns
        invariant
            i <= ns,
            ns == suite.context.specs@.len(),
        decreases ns - i,
    {
        let sp = &suite.context.specs[i];
        match &sp.result {
            Some(r) => match r {
                Err(msg) => {
                    let mut line = line_spacing(depth);
                    line.append(red(u32_to_string(stats.failed)).as_str());
                    line.append(") ");
                    line.append(red(String::from_str(sp.name.as_str())).as_str());
                    lines.push(line);
                    let mut err = u32_to_string(stats.failed);
                    err.append(") ");
                    err.append(sp.name.as_str());
                    err.append(": ");
                    err.append(msg.as_str());
                    stats.error_lines.push(red(err));
                    if stats.failed < u32::MAX {
                        stats.failed = stats.failed + 1;
                    }
                },
                Ok(_) => {
                    let duration = tagged_duration(sp.duration, suite.duration_type);
                    let speed_display = match sp.context.speed_result {
                        Speed::Fast => SpeedDisplay::Fast(duration),
                        Speed::OnTime => SpeedDisplay::OnTime(duration),
                        Speed::Slow => SpeedDisplay::Slow(duration),
                    };
                    let mut line = line_spacing(depth);
                    line.append(green(String::from_str("\u{2713}")).as_str());
                    line.append("  ");
                    line.append(dim(String::from_str(sp.name.as_str())).as_str());
                    line.append(" ");
                    line.append(speed_display.to_string().as_str());
                    lines.push(line);
                    if stats.passed < u32::MAX {
                        stats.passed = stats.passed + 1;
                    }
                },
            },
            None => {
                let mut line = line_spacing(depth);
                line.append("   ");
                line.append(dim(String::from_str(sp.name.as_str())).as_str());
                lines.push(line);
                if stats.pending < u32::MAX {
                    stats.pending = stats.pending + 1;
                }
            },
        }
        i = i + 1;
    }
    let n = suite.context.suites.len();
    let mut k: usize = 0;
    while k < n
        invariant
            k <= n,
            n == suite.context.suites@.len(),
            suite_height(*suite) == 1 + crate::suite::forest_height(suite.context.suites@),
        decreases n - k,
    {
        proof {
            lemma_forest_height_member(suite.context.suites@, k as int);
        }
        let d2 = if depth == u32::MAX {
            depth
        } else {
            depth + 1
        };
        get_lines_for_spec(&suite.context.suites[k], d2, stats, lines);
        k = k + 1;
    }
}

/// The minimal renderer's tally: counts everywhere, text only for failures.
fn get_lines_for_min<B: SpecBody, H: Hook>(
    suite: &Suite<B, H>,
    stats: &mut TallyLines,
    prefix: String,
    depth: u32,
)
    decreases suite_height(*suite),
{
    let ns = suite.context.specs.len();
    let mut i: usize = 0;
    while i < ns
        invariant
            i <= ns,
            ns == suite.context.specs@.len(),
        decreases ns - i,
    {
        let sp = &suite.context.specs[i];
        match &sp.result {
            Some(r) => match r {
                Err(msg) => {
                    if stats.failed < u32::MAX {
                        stats.failed = stats.failed + 1;
                    }
                    let mut err = u32_to_string(stats.failed);
                    err.append(") ");
                    err.append(prefix.as_str());
                    err.append("\n   ");
                    err.append(line_spacing_for_min(depth).as_str());
                    err.append(sp.name.as_str());
                    err.append("\n");
                    err.append(space_per_byte(stats.failed).as_str());
                    err.append("  Error: ");
                    err.append(msg.as_str());
                    stats.error_lines.push(red(err));
                },
                Ok(_) => {
                    if stats.passed < u32::MAX {
                        stats.passed = stats.passed + 1;
                    }
                },
            },
            None => {
                if stats.pending < u32::MAX {
                    stats.pending = stats.pending + 1;
                }
            },
        }
        i = i + 1;
    }
    let n = suite.context.suites.len();
    let mut k: usize = 0;
    while k < n
        invariant
            k <= n,
            n == suite.context.suites@.len(),
            suite_height(*suite) == 1 + crate::suite::forest_height(suite.context.suites@),
        decreases n - k,
    {
        proof {
            lemma_forest_height_member(suite.context.suites@, k as int);
        }
        let mut child_prefix = String::from_str(prefix.as_str());
        child_prefix.append("\n   ");
        child_prefix.append(line_spacing_for_min(depth).as_str());
        child_prefix.append(suite.context.suites[k].name.as_str());
        let d2 = if depth == u32::MAX {
            depth
        } else {
            depth + 1
        };
        get_lines_for_min(&suite.context.suites[k], stats, child_prefix, d2);
        k = k + 1;
    }
}

/// One colored mark per spec: a dot for a pass (colored by speed), `!` for
/// a failure, `,` for a spec that never ran.
fn get_dots<B: SpecBody, H: Hook>(suite: &Suite<B, H>, stats: &mut TallyLines, dots: &mut Vec<
    String,
>)
    decreases suite_height(*suite),
{
    let ns = suite.context.specs.len();
    let mut i: usize = 0;
    while i < ns
        invariant
            i <= ns,
            ns == suite.context.specs@.len(),
        decreases ns - i,
    {
        let sp = &suite.context.specs[i];
        match &sp.result {
            Some(r) => match r {
                Ok(_) => {
                    if stats.passed < u32::MAX {
                        stats.passed = stats.passed + 1;
                    }
                    match sp.context.speed_result {
                        Speed::Fast => dots.push(green(String::from_str("."))),
                        Speed::OnTime => dots.push(yellow(String::from_str("."))),
                        Speed::Slow => dots.push(red(String::from_str("."))),
                    }
                },
                Err(_) => {
                    if stats.failed < u32::MAX {
                        stats.failed = stats.failed + 1;
                    }
                    dots.push(red(String::from_str("!")));
                },
            },
            None => {
                if stats.pending < u32::MAX {
                    stats.pending = stats.pending + 1;
                }
                dots.push(cyan(String::from_str(",")));
            },
        }
        i = i + 1;
    }
    let n = suite.context.suites.len();
    let mut k: usize = 0;
    while k < n
        invariant
            k <= n,
            n == suite.context.suites@.len(),
            suite_height(*suite) == 1 + crate::suite::forest_height(suite.context.suites@),
        decreases n - k,
    {
        proof {
            lemma_forest_height_member(suite.context.suites@, k as int);
        }
        get_dots(&suite.context.suites[k], stats, dots);
        k = k + 1;
    }
}

/// One line per spec, prefixed with the path of suite names.
fn get_list<B: SpecBody, H: Hook>(
    suite: &Suite<B, H>,
    stats: &mut TallyLines,
    prefix: String,
    lines: &mut Vec<String>,
)
    decreases suite_height(*suite),
{
    let ns = suite.context.specs.len();
    let mut i: usize = 0;
    while i < ns
        invariant
            i <= ns,
            ns == suite.context.specs@.len(),
        decreases ns - i,
    {
        let sp = &suite.context.specs[i];
        match &sp.result {
            Some(r) => match r {
                Err(msg) => {
                    let mut body = String::from_str(prefix.as_str());
                    body.append(" ");
                    body.append(sp.name.as_str());
                    body.append(": ");
                    body.append(msg.as_str());
                    let mut line = String::from_str("\u{2716} ");
                    line.append(red(body).as_str());
                    lines.push(line);
                    if stats.failed < u32::MAX {
                        stats.failed = stats.failed + 1;
                    }
                },
                Ok(_) => {
                    let duration = tagged_duration(sp.duration, suite.duration_type);
                    let mut body = String::from_str(prefix.as_str());
                    body.append(" ");
                    body.append(sp.name.as_str());
                    let mut tail = String::from_str(": ");
                    tail.append(duration.to_string().as_str());
                    let mut line = String::from_str("\u{2713} ");
                    line.append(green(body).as_str());
                    line.append(dim(tail).as_str());
                    lines.push(line);
                    if stats.passed < u32::MAX {
                        stats.passed = stats.passed + 1;
                    }
                },
            },
            None => {
                let mut body = String::from_str(prefix.as_str());
                body.append(" ");
                body.append(sp.name.as_str());
                let mut line = String::from_str("  ");
                line.append(dim(body).as_str());
                lines.push(line);
                if stats.pending < u32::MAX {
                    stats.pending = stats.pending + 1;
                }
            },
        }
        i = i + 1;
    }
    let n = suite.context.suites.len();
    let mut k: usize = 0;
    while k < n
        invariant
            k <= n,
            n == suite.context.suites@.len(),
            suite_height(*suite) == 1 + crate::suite::forest_height(suite.context.suites@),
        decreases n - k,
    {
        proof {
            lemma_forest_height_member(suite.context.suites@, k as int);
        }
        let mut child_prefix = String::from_str(prefix.as_str());
        child_prefix.append(" ");
        child_prefix.append(suite.context.suites[k].name.as_str());
        get_list(&suite.context.suites[k], stats, child_prefix, lines);
        k = k + 1;
    }
}

/// TAP lines: `ok`/`not ok`, a running number, and the spec's full path;
/// a spec that never ran is reported as a skip.
fn get_tap_list<B: SpecBody, H: Hook>(
    suite: &Suite<B, H>,
    lines: &mut Vec<String>,
    count: &mut u32,
    prefix: String,
)
    decreases suite_height(*suite),
{
    let ns = suite.context.specs.len();
    let mut i: usize = 0;
    while i < ns
        invariant
            i <= ns,
            ns == suite.context.specs@.len(),
        decreases ns - i,
    {
        let sp = &suite.context.specs[i];
        if *count < u32::MAX {
            *count = *count + 1;
        }
        let mut line: String;
        match &sp.result {
            Some(r) => {
                if r.is_ok() {
                    line = green(String::from_str("ok"));
                } else {
                    line = red(String::from_str("not ok"));
                }
                line.append(" ");
                line.append(u32_to_string(*count).as_str());
                line.append(" - ");
                line.append(prefix.as_str());
                line.append(" ");
                line.append(sp.name.as_str());
            },
            None => {
                line = green(String::from_str("ok"));
                line.append(" ");
                line.append(u32_to_string(*count).as_str());
                line.append(" - # skip ");
                line.append(prefix.as_str());
                line.append(" ");
                line.append(sp.name.as_str());
            },
        }
        lines.push(line);
        i = i + 1;
    }
    let n = suite.context.suites.len();
    let mut k: usize = 0;
    while k < n
        invariant
            k <= n,
            n == suite.context.suites@.len(),
            suite_height(*suite) == 1 + crate::suite::forest_height(suite.context.suites@),
        decreases n - k,
    {
        proof {
            lemma_forest_height_member(suite.context.suites@, k as int);
        }
        let mut child_prefix = String::from_str(prefix.as_str());
        child_prefix.append(" ");
        child_prefix.append(suite.context.suites[k].name.as_str());
        get_tap_list(&suite.context.suites[k], lines, count, child_prefix);
        k = k + 1;
    }
}

/// Lines in the style of Rust's own harness: `test path::name ... ok`,
/// with names folded to snake case.
fn get_list_for_rust<B: SpecBody, H: Hook>(
    suite: &Suite<B, H>,
    stats: &mut TallyLines,
    prefix: String,
    lines: &mut Vec<String>,
)
    decreases suite_height(*suite),
{
    let ns = suite.context.specs.len();
    let mut i: usize = 0;
    while i < ns
        invariant
            i <= ns,
            ns == suite.context.specs@.len(),
        decreases ns - i,
    {
        let sp = &suite.context.specs[i];
        let mut path = String::from_str(prefix.as_str());
        path.append("::");
        path.append(to_snake(sp.name.as_str()).as_str());
        let mut line = String::from_str("test ");
        line.append(path.as_str());
        line.append(" ... ");
        match &sp.result {
            Some(r) => match r {
                Err(_) => {
                    line.append(red(String::from_str("FAILED")).as_str());
                    stats.error_lines.push(path);
                    if stats.failed < u32::MAX {
                        stats.failed = stats.failed + 1;
                    }
                },
                Ok(_) => {
                    line.append(green(String::from_str("ok")).as_str());
                    if stats.passed < u32::MAX {
                        stats.passed = stats.passed + 1;
                    }
                },
            },
            None => {
                line.append(cyan(String::from_str("ignored")).as_str());
                if stats.pending < u32::MAX {
                    stats.pending = stats.pending + 1;
                }
            },
        }
        lines.push(line);
        i = i + 1;
    }
    let n = suite.context.suites.len();
    let mut k: usize = 0;
    while k < n
        invariant
            k <= n,
            n == suite.context.suites@.len(),
            suite_height(*suite) == 1 + crate::suite::forest_height(suite.context.suites@),
        decreases n - k,
    {
        proof {
            lemma_forest_height_member(suite.context.suites@, k as int);
        }
        let mut child_prefix = String::from_str(prefix.as_str());
        child_prefix.append("::");
        child_prefix.append(to_snake(suite.context.suites[k].name.as_str()).as_str());
        get_list_for_rust(&suite.context.suites[k], stats, child_prefix, lines);
        k = k + 1;
    }
}

/// One spec's entry in the JSON report.
struct JsonSpecReport {
    pub title: String,
    pub full_title: String,
    pub duration: u128,
    pub error: Option<String>,
    pub attempts: u32,
}

impl JsonSpecReport {
    /// A content-for-content copy.
    fn copy(&self) -> (r: JsonSpecReport)
        ensures
            r.title@ == self.title@,
            r.full_title@ == self.full_title@,
            r.duration == self.duration,
            r.error is Some <==> self.error is Some,
            (self.error is Some && r.error is Some) ==> r.error->0@ == self.error->0@,
            r.attempts == self.attempts,
    {
        JsonSpecReport {
            title: String::from_str(self.title.as_str()),
            full_title: String::from_str(self.full_title.as_str()),
            duration: self.duration,
            error: match &self.error {
                Some(msg) => Some(String::from_str(msg.as_str())),
                None => None,
            },
            attempts: self.attempts,
        }
    }
}

/// The summary block of the JSON report.
struct JsonStats {
    pub suites: u32,
    pub tests: u32,
    pub passing: u32,
    pub pending: u32,
    pub failing: u32,
    pub start: String,
    pub end: String,
    pub duration: u128,
}

/// The whole JSON report: a summary plus every spec, also bucketed by
/// verdict.
struct JsonReport {
    pub stats: JsonStats,
    pub tests: Vec<JsonSpecReport>,
    pub passing: Vec<JsonSpecReport>,
    pub pending: Vec<JsonSpecReport>,
    pub failing: Vec<JsonSpecReport>,
}

/// Collect every spec's entry and the summary counters, depth-first.
fn get_stats_for_json<B: SpecBody, H: Hook>(
    suite: &Suite<B, H>,
    stats: &mut JsonReport,
    prefix: String,
)
    decreases suite_height(*suite),
{
    let ns = suite.context.specs.len();
    let mut i: usize = 0;
    while i < ns
        invariant
            i <= ns,
            ns == suite.context.specs@.len(),
        decreases ns - i,
    {
        let sp = &suite.context.specs[i];
        let mut full_title = String::from_str(prefix.as_str());
        full_title.append(" ");
        full_title.append(sp.name.as_str());
        let mut spec_stat = JsonSpecReport {
            title: String::from_str(sp.name.as_str()),
            full_title,
            duration: sp.duration,
            error: None,
            attempts: sp.context.attempts,
        };
        match &sp.result {
            Some(r) => match r {
                Err(msg) => {
                    spec_stat.error = Some(String::from_str(msg.as_str()));
                    if stats.stats.failing < u32::MAX {
                        stats.stats.failing = stats.stats.failing + 1;
                    }
                    stats.failing.push(spec_stat.copy());
                },
                Ok(_) => {
                    stats.passing.push(spec_stat.copy());
                    if stats.stats.passing < u32::MAX {
                        stats.stats.passing = stats.stats.passing + 1;
                    }
                },
            },
            None => {
                stats.pending.push(spec_stat.copy());
                if stats.stats.pending < u32::MAX {
                    stats.stats.pending = stats.stats.pending + 1;
                }
            },
        }
        if stats.stats.duration <= u128::MAX - sp.duration {
            stats.stats.duration = stats.stats.duration + sp.duration;
        } else {
            stats.stats.duration = u128::MAX;
        }
        if stats.stats.tests < u32::MAX {
            stats.stats.tests = stats.stats.tests + 1;
        }
        stats.tests.push(spec_stat);
        i = i + 1;
    }
    let n = suite.context.suites.len();
    let mut k: usize = 0;
    while k < n
        invariant
            k <= n,
            n == suite.context.suites@.len(),
            suite_height(*suite) == 1 + crate::suite::forest_height(suite.context.suites@),
        decreases n - k,
    {
        proof {
            lemma_forest_height_member(suite.context.suites@, k as int);
        }
        if stats.stats.suites < u32::MAX {
            stats.stats.suites = stats.stats.suites + 1;
        }
        let mut child_prefix = String::from_str(prefix.as_str());
        child_prefix.append(" ");
        child_prefix.append(suite.context.suites[k].name.as_str());
        get_stats_for_json(&suite.context.suites[k], stats, child_prefix);
        k = k + 1;
    }
}

/// The text with JSON's escapes applied: quotes, backslashes and the
/// common control characters.
fn escape_json(s: &str) -> (r: String) {
    broadcast use vstd::string::next_postcondition;
    broadcast use vstd::string::axiom_spec_iter;

    let mut out = String::new();
    let mut it = s.chars();
    loop
        invariant
            it.obeys_prophetic_iter_laws(),
            it.decrease() is Some,
        decreases it.decrease()->0,
    {
        match it.next() {
            Some(c) => {
                if c == '"' {
                    out.append("\\\"");
                } else if c == '\\' {
                    out.append("\\\\");
                } else if c == '\n' {
                    out.append("\\n");
                } else if c == '\r' {
                    out.append("\\r");
                } else if c == '\t' {
                    out.append("\\t");
                } else {
                    out.push(c);
                }
            },
            None => {
                return out;
            },
        }
    }
}

/// `"<escaped text>"`.
fn json_string(v: &str) -> (r: String) {
    let mut out = String::from_str("\"");
    out.append(escape_json(v).as_str());
    out.append("\"");
    out
}

/// One spec entry as a JSON object.
fn emit_spec_report(r: &JsonSpecReport) -> (out: String) {
    let mut out = String::from_str("{\"title\":");
    out.append(json_string(r.title.as_str()).as_str());
    out.append(",\"full_title\":");
    out.append(json_string(r.full_title.as_str()).as_str());
    out.append(",\"duration\":");
    out.append(u128_to_string(r.duration).as_str());
    out.append(",\"error\":");
    match &r.error {
        Some(msg) => out.append(json_string(msg.as_str()).as_str()),
        None => out.append("null"),
    }
    out.append(",\"attempts\":");
    out.append(u32_to_string(r.attempts).as_str());
    out.append("}");
    out
}

/// A list of spec entries as a JSON array.
fn emit_reports(v: &Vec<JsonSpecReport>, pretty: bool) -> (out: String) {
    let mut out = String::from_str("[");
    let n = v.len();
    let mut i: usize = 0;
    while i < n
        invariant
            i <= n,
            n == v@.len(),
        decreases n - i,
    {
        if i > 0 {
            out.append(",");
        }
        if pretty {
            out.append("\n    ");
        }
        out.append(emit_spec_report(&v[i]).as_str());
        i = i + 1;
    }
    out.append("]");
    out
}

/// The whole report as JSON text; `pretty` adds line breaks.
fn emit_json_report(r: &JsonReport, pretty: bool) -> (out: String) {
    let sep: &str = if pretty {
        ",\n  "
    } else {
        ","
    };
    let mut out = String::from_str(if pretty {
        "{\n  "
    } else {
        "{"
    });
    out.append("\"stats\":{\"suites\":");
    out.append(u32_to_string(r.stats.suites).as_str());
    out.append(",\"tests\":");
    out.append(u32_to_string(r.stats.tests).as_str());
    out.append(",\"passing\":");
    out.append(u32_to_string(r.stats.passing).as_str());
    out.append(",\"pending\":");
    out.append(u32_to_string(r.stats.pending).as_str());
    out.append(",\"failing\":");
    out.append(u32_to_string(r.stats.failing).as_str());
    out.append(",\"start\":");
    out.append(json_string(r.stats.start.as_str()).as_str());
    out.append(",\"end\":");
    out.append(json_string(r.stats.end.as_str()).as_str());
    out.append(",\"duration\":");
    out.append(u128_to_string(r.stats.duration).as_str());
    out.append("}");
    out.append(sep);
    out.append("\"tests\":");
    out.append(emit_reports(&r.tests, pretty).as_str());
    out.append(sep);
    out.append("\"passing\":");
    out.append(emit_reports(&r.passing, pretty).as_str());
    out.append(sep);
    out.append("\"pending\":");
    out.append(emit_reports(&r.pending, pretty).as_str());
    out.append(sep);
    out.append("\"failing\":");
    out.append(emit_reports(&r.failing, pretty).as_str());
    out.append(if pretty {
        "\n}"
    } else {
        "}"
    });
    out
}

fn header() {
    print_line("");
    print_line("### Lab Results Start ###");
    print_line("");
}

fn footer() {
    print_line("");
    print_line("### Lab Results End ###");
    print_line("");
}

/// Render a finished tree with its selected reporter and print it.
pub fn report_to_stdout<B: SpecBody, H: Hook>(suite: &Suite<B, H>)
    requires
        total_specs(*suite) <= u32::MAX,
{
    let mut stats = TallyLines { passed: 0, failed: 0, pending: 0, error_lines: Vec::new() };
    match suite.reporter {
        Reporter::Spec => {
            let mut lines: Vec<String> = Vec::new();
            header();
            get_lines_for_spec(suite, 0, &mut stats, &mut lines);
            print_lines(&lines);
            if stats.failed == 0 {
                let duration = tagged_duration(suite.total_duration, suite.duration_type);
                let mut head = String::from_str(" ");
                head.append(u32_to_string(stats.passed).as_str());
                head.append(" test");
                head.append(get_suffix(stats.passed).as_str());
                head.append(" completed");
                let mut line = green(String::from_str("\u{2713}"));
                line.append(green(head).as_str());
                line.append(" ");
                line.append(dim(duration.to_string()).as_str());
                print_line(line.as_str());
            } else {
                let total = if stats.passed <= u32::MAX - stats.failed {
                    stats.passed + stats.failed
                } else {
                    u32::MAX
                };
                let mut head = String::from_str("\u{2716} ");
                head.append(u32_to_string(stats.failed).as_str());
                head.append(" of ");
                head.append(u32_to_string(total).as_str());
                head.append(" test");
                head.append(get_suffix(stats.failed).as_str());
                head.append(" failed");
                let mut line = String::from_str(" ");
                line.append(red(head).as_str());
                line.append(dim(String::from_str(":")).as_str());
                print_line(line.as_str());
            }
            print_lines(&stats.error_lines);
            footer();
        },
        Reporter::Min => {
            get_lines_for_min(suite, &mut stats, String::from_str(suite.name.as_str()), 0);
            let duration = tagged_duration(suite.total_duration, suite.duration_type);
            header();
            if stats.passed > 0 {
                let mut head = u32_to_string(stats.passed);
                head.append(" test");
                head.append(get_suffix(stats.passed).as_str());
                head.append(" complete");
                let mut line = green(head);
                line.append(" ");
                line.append(dim(duration.to_string()).as_str());
                print_line(line.as_str());
            }
            if stats.pending > 0 {
                let mut head = u32_to_string(stats.pending);
                head.append(" test");
                head.append(get_suffix(stats.pending).as_str());
                head.append(" pending");
                print_line(dim(head).as_str());
            }
            if stats.failed > 0 {
                let mut head = u32_to_string(stats.failed);
                head.append(" test");
                head.append(get_suffix(stats.failed).as_str());
                head.append(" failed");
                print_line(red(head).as_str());
                print_line("");
                print_lines(&stats.error_lines);
            }
            footer();
        },
        Reporter::Dot => {
            let mut dots: Vec<String> = Vec::new();
            get_dots(suite, &mut stats, &mut dots);
            header();
            let mut row = String::new();
            let mut i: usize = 0;
            let n = dots.len();
            while i < n
                invariant
                    i <= n,
                    n == dots@.len(),
                decreases n - i,
            {
                row.append(dots[i].as_str());
                i = i + 1;
            }
            print_line(row.as_str());
            print_line("");
            let mut passing = u32_to_string(stats.passed);
            passing.append(" passing");
            print_line(green(passing).as_str());
            let mut pending = u32_to_string(stats.pending);
            pending.append(" pending");
            print_line(cyan(pending).as_str());
            let mut failed = u32_to_string(stats.failed);
            failed.append(" failed");
            print_line(red(failed).as_str());
            footer();
        },
        Reporter::List => {
            let mut lines: Vec<String> = Vec::new();
            let duration = tagged_duration(suite.total_duration, suite.duration_type);
            get_list(suite, &mut stats, String::from_str(suite.name.as_str()), &mut lines);
            header();
            print_lines(&lines);
            let mut passing = u32_to_string(stats.passed);
            passing.append(" passing ");
            passing.append(duration.to_string().as_str());
            print_line(green(passing).as_str());
            let mut pending = u32_to_string(stats.pending);
            pending.append(" pending");
            print_line(cyan(pending).as_str());
            let mut failed = u32_to_string(stats.failed);
            failed.append(" failed");
            print_line(red(failed).as_str());
            footer();
        },
        Reporter::Tap => {
            let mut lines: Vec<String> = Vec::new();
            let mut count: u32 = 0;
            get_tap_list(suite, &mut lines, &mut count, String::from_str(suite.name.as_str()));
            header();
            let mut plan = String::from_str("1..");
            plan.append(u32_to_string(count).as_str());
            print_line(green(plan).as_str());
            print_lines(&lines);
            footer();
        },
        Reporter::Rust => {
            let count = get_count(suite);
            header();
            let mut running = String::from_str("Running ");
            running.append(u32_to_string(count).as_str());
            running.append(" test");
            running.append(get_suffix(count).as_str());
            print_line(running.as_str());
            print_line("");
            let mut lines: Vec<String> = Vec::new();
            get_list_for_rust(suite, &mut stats, to_snake(suite.name.as_str()), &mut lines);
            print_lines(&lines);
            print_line("");
            let mut passed = u32_to_string(stats.passed);
            passed.append(" passed");
            let passed = green(passed);
            let mut ignored = u32_to_string(stats.pending);
            ignored.append(" ignored");
            let ignored = cyan(ignored);
            if stats.failed == 0 {
                let mut line = String::from_str("test result: ");
                line.append(green(String::from_str("ok")).as_str());
                line.append(". ");
                line.append(passed.as_str());
                line.append("; 0 failed; ");
                line.append(ignored.as_str());
                line.append("; 0 measured; 0 filtered out");
                print_line(line.as_str());
            } else {
                let mut failed = u32_to_string(stats.failed);
                failed.append(" failed");
                let failed = red(failed);
                print_line(red(String::from_str("failures:")).as_str());
                let mut i: usize = 0;
                let n = stats.error_lines.len();
                while i < n
                    invariant
                        i <= n,
                        n == stats.error_lines@.len(),
                    decreases n - i,
                {
                    let mut line = String::from_str("    ");
                    line.append(red(String::from_str(stats.error_lines[i].as_str())).as_str());
                    print_line(line.as_str());
                    i = i + 1;
                }
                print_line("");
                let mut line = String::from_str("test result: ");
                line.append(red(String::from_str("FAILED")).as_str());
                line.append(". ");
                line.append(passed.as_str());
                line.append("; ");
                line.append(failed.as_str());
                line.append("; ");
                line.append(ignored.as_str());
                line.append("; 0 measured; 0 filtered out");
                print_line(line.as_str());
            }
            footer();
        },
        Reporter::Json(pretty) => {
            let mut report = JsonReport {
                stats: JsonStats {
                    suites: 0,
                    tests: 0,
                    passing: 0,
                    pending: 0,
                    failing: 0,
                    start: String::from_str(suite.start_time.as_str()),
                    end: String::from_str(suite.end_time.as_str()),
                    duration: 0,
                },
                tests: Vec::new(),
                passing: Vec::new(),
                pending: Vec::new(),
                failing: Vec::new(),
            };
            get_stats_for_json(suite, &mut report, String::from_str(suite.name.as_str()));
            header();
            print_line(emit_json_report(&report, pretty).as_str());
            footer();
        },
    }
}

/// Print each line in order.
fn print_lines(lines: &Vec<String>) {
    let n = lines.len();
    let mut i: usize = 0;
    while i < n
        invariant
            i <= n,
            n == lines@.len(),
        decreases n - i,
    {
        print_line(lines[i].as_str());
        i = i + 1;
    }
}

} // verus!
