//! The command line: its commands, and what `build` reports.
use vstd::prelude::*;
use crate::ir::pairs_view;
use crate::path::{file_name, file_name_exec};
use crate::pipeline::BuildResult;
use crate::text::{chars_of, decimal, decimal_exec, owned, string_of};

verus! {

/// Parsed command-line arguments.
#[derive(Debug)]
pub struct Cli {
    /// The subcommand to execute.
    pub command: Command,
}

/// The subcommands.
#[derive(Clone, Copy, Debug, PartialEq, Eq, Structural)]
pub enum Command {
    /// Scan lib/ and generate all .g.dart files.
    Build {
        /// Enable verbose output.
        verbose: bool,
    },
    /// Continuously watch lib/ for changes and rebuild.
    Watch,
    /// Delete all .g.dart files under lib/.
    Clean,
}

/// What `build` prints for a result, and whether it ends in failure.
#[derive(Debug)]
pub struct BuildReport {
    /// Lines to print, in order.
    pub lines: Vec<String>,
    /// Whether the build failed (the command then exits with status 1).
    pub failed: bool,
    /// Files processed, written or skipped.
    pub total: u128,
    /// Estimated time of a `build_runner` run for as many files, in milliseconds.
    pub estimate_ms: u128,
}

/// The name shown for a path: its file name, or nothing.
pub open spec fn shown_name(path: Seq<char>) -> Seq<char> {
    match file_name(path) {
        Some(n) => n,
        None => seq![],
    }
}

/// The lines listing the files written: the first three, then how many more.
pub open spec fn written_lines(files: Seq<(Seq<char>, Seq<char>)>) -> Seq<Seq<char>> {
    let shown = if files.len() < 3 {
        files.len()
    } else {
        3
    };
    files.take(shown as int).map_values(|f: (Seq<char>, Seq<char>)| "  ✓ "@ + shown_name(f.0)) + if files.len() > 3 {
        seq!["  ...  ("@ + decimal((files.len() - 3) as nat) + " more)"@]
    } else {
        seq![]
    }
}

/// One line per error: the file name and the message.
pub open spec fn error_lines(errors: Seq<(Seq<char>, Seq<char>)>) -> Seq<Seq<char>> {
    errors.map_values(|e: (Seq<char>, Seq<char>)| "  ✗ "@ + shown_name(e.0) + "  →  "@ + e.1)
}

/// The closing lines of a build.
pub open spec fn closing_lines(total: nat, failed: nat, ms: nat, has_errors: bool, verbose: bool) -> Seq<Seq<char>> {
    if has_errors {
        seq![
            "\n  Done with errors. "@ + decimal(total) + " ok · "@ + decimal(failed) + " failed · "@ + decimal(ms)
                + "ms"@,
        ] + if verbose {
            seq![]
        } else {
            seq!["  Run with --verbose to see full error details."@]
        }
    } else {
        seq!["\n  Done. "@ + decimal(total) + " files · "@ + decimal(ms) + "ms"@]
    }
}

/// What `build` prints for a result: a note when nothing was generated and nothing
/// failed; otherwise the files written, the errors, and a closing line.
pub open spec fn report_lines(r: BuildResult, verbose: bool) -> Seq<Seq<char>> {
    let total = r.files_generated + r.files_skipped;
    if total == 0 && r.errors@.len() == 0 {
        seq!["  Scanning...  0 files with @Data() found.\n"@, "  Nothing to generate. Add @Data() to a class and re-run."@]
    } else {
        seq!["  Generating...\n"@] + written_lines(pairs_view(r.generated_content@)) + error_lines(
            pairs_view(r.errors@),
        ) + closing_lines(total as nat, r.files_failed as nat, r.duration_ms as nat, r.errors@.len() > 0, verbose)
    }
}

/// The name shown for a path.
fn shown_name_exec(path: &str) -> (r: String)
    ensures
        r@ == shown_name(path@),
{
    let p = chars_of(path);
    match file_name_exec(&p) {
        Some(n) => string_of(&n),
        None => String::new(),
    }
}

/// Appends the lines listing the files written.
fn push_written_lines(lines: &mut Vec<String>, files: &Vec<(String, String)>)
    ensures
        crate::text::views(final(lines)@) == crate::text::views(old(lines)@) + written_lines(pairs_view(files@)),
{
    let ghost fs = pairs_view(files@);
    let shown: usize = if files.len() < 3 {
        files.len()
    } else {
        3
    };
    let ghost start = crate::text::views(lines@);
    let ghost mapped = fs.take(shown as int).map_values(|f: (Seq<char>, Seq<char>)| "  ✓ "@ + shown_name(f.0));
    let mut i: usize = 0;
    while i < shown
        invariant
            i <= shown <= files.len(),
            fs == pairs_view(files@),
            shown == (if files.len() < 3 { files.len() } else { 3 }),
            mapped == fs.take(shown as int).map_values(|f: (Seq<char>, Seq<char>)| "  ✓ "@ + shown_name(f.0)),
            crate::text::views(lines@) == start + mapped.take(i as int),
        decreases shown - i,
    {
        let mut line = owned("  ✓ ");
        let name = shown_name_exec(files[i].0.as_str());
        line.append(name.as_str());
        let ghost before = lines@;
        lines.push(line);
        assert(mapped[i as int] == line@) by {
            assert(fs[i as int] == (files@[i as int].0@, files@[i as int].1@));
        }
        assert(crate::text::views(lines@) =~= start + mapped.take(i as int + 1)) by {
            assert(crate::text::views(lines@) == crate::text::views(before).push(line@));
        }
        i = i + 1;
    }
    assert(mapped.take(shown as int) =~= mapped);
    if files.len() > 3 {
        let mut line = owned("  ...  (");
        let more = decimal_exec((files.len() - 3) as u128);
        line.append(more.as_str());
        line.append(" more)");
        let ghost before = lines@;
        lines.push(line);
        assert(crate::text::views(lines@) =~= crate::text::views(before).push(line@));
    }
    assert(crate::text::views(lines@) =~= start + written_lines(fs));
}

/// Appends one line per error.
fn push_error_lines(lines: &mut Vec<String>, errors: &Vec<(String, String)>)
    ensures
        crate::text::views(final(lines)@) == crate::text::views(old(lines)@) + error_lines(pairs_view(errors@)),
{
    let ghost es = pairs_view(errors@);
    let ghost start = crate::text::views(lines@);
    let mut i: usize = 0;
    while i < errors.len()
        invariant
            i <= errors.len(),
            es == pairs_view(errors@),
            crate::text::views(lines@) == start + error_lines(es).take(i as int),
        decreases errors.len() - i,
    {
        let mut line = owned("  ✗ ");
        let name = shown_name_exec(errors[i].0.as_str());
        line.append(name.as_str());
        line.append("  →  ");
        line.append(errors[i].1.as_str());
        let ghost before = lines@;
        lines.push(line);
        assert(error_lines(es)[i as int] == line@) by {
            assert(es[i as int] == (errors@[i as int].0@, errors@[i as int].1@));
        }
        assert(crate::text::views(lines@) =~= start + error_lines(es).take(i as int + 1)) by {
            assert(crate::text::views(lines@) == crate::text::views(before).push(line@));
        }
        i = i + 1;
    }
    assert(error_lines(es).take(errors.len() as int) =~= error_lines(es));
}

/// What `build` prints for `result` and whether it fails: the build fails when
/// there were errors. The estimate counts 240 ms per file processed.
pub fn build_report(result: &BuildResult, verbose: bool) -> (r: BuildReport)
    ensures
        crate::text::views(r.lines@) == report_lines(*result, verbose),
        r.failed == (result.errors@.len() > 0),
        r.total == result.files_generated + result.files_skipped,
        r.estimate_ms == (result.files_generated + result.files_skipped) * 240,
{
    let total: u128 = result.files_generated as u128 + result.files_skipped as u128;
    let estimate_ms: u128 = total * 240;
    let mut lines: Vec<String> = Vec::new();
    if total == 0 && result.errors.len() == 0 {
        lines.push(owned("  Scanning...  0 files with @Data() found.\n"));
        lines.push(owned("  Nothing to generate. Add @Data() to a class and re-run."));
        assert(crate::text::views(lines@) =~= report_lines(*result, verbose));
        return BuildReport { lines, failed: false, total, estimate_ms };
    }
    lines.push(owned("  Generating...\n"));
    let ghost head = crate::text::views(lines@);
    assert(head =~= seq!["  Generating...\n"@]);
    push_written_lines(&mut lines, &result.generated_content);
    push_error_lines(&mut lines, &result.errors);
    let ghost body = crate::text::views(lines@);
    let has_errors = result.errors.len() > 0;
    if has_errors {
        let mut line = owned("\n  Done with errors. ");
        line.append(decimal_exec(total).as_str());
        line.append(" ok · ");
        line.append(decimal_exec(result.files_failed as u128).as_str());
        line.append(" failed · ");
        line.append(decimal_exec(result.duration_ms).as_str());
        line.append("ms");
        lines.push(line);
        if !verbose {
            lines.push(owned("  Run with --verbose to see full error details."));
        }
    } else {
        let mut line = owned("\n  Done. ");
        line.append(decimal_exec(total).as_str());
        line.append(" files · ");
        line.append(decimal_exec(result.duration_ms).as_str());
        line.append("ms");
        lines.push(line);
    }
    assert(crate::text::views(lines@) =~= body + closing_lines(
        total as nat,
        result.files_failed as nat,
        result.duration_ms as nat,
        has_errors,
        verbose,
    ));
    BuildReport { lines, failed: has_errors, total, estimate_ms }
}

/// What `clean` prints after deleting `count` generated files.
pub fn clean_message(count: usize) -> (r: String)
    ensures
        r@ == if count > 0 {
            "  Deleted "@ + decimal(count as nat) + " .g.dart files."@
        } else {
            "  Nothing to clean."@
        },
{
    if count > 0 {
        let mut s = owned("  Deleted ");
        s.append(decimal_exec(count as u128).as_str());
        s.append(" .g.dart files.");
        s
    } else {
        owned("  Nothing to clean.")
    }
}

} // verus!
