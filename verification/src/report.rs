//! How results read to the model: verdict first, then the words themselves.
use vstd::prelude::*;

use crate::text;
use crate::text::{
    decimal, joined, left_aligned, number, signed_decimal, signed_number, texts, trimmed,
    zero_padded,
};
use crate::types::{
    CompileReport, ConfigEntry, Dependency, ExecResult, FsEntry, RevisionInfo, TerminalInfo,
    TerminalOutput,
};

verus! {

/// A text where a condition holds, nothing where it does not.
pub open spec fn given(condition: bool, s: Seq<char>) -> Seq<char> {
    if condition {
        s
    } else {
        Seq::empty()
    }
}

/// Appends a string where a condition holds.
pub fn append_when(out: &mut String, condition: bool, s: &str)
    ensures
        final(out)@ == old(out)@ + given(condition, s@),
{
    if condition {
        out.append(s);
    } else {
        assert(out@ + Seq::<char>::empty() =~= out@);
    }
}

// --- build results ----------------------------------------------------------

/// A revision number, or a question mark where there is none.
pub open spec fn revision_text(revision: Option<u64>) -> Seq<char> {
    match revision {
        Some(r) => decimal(r as nat),
        None => "?"@,
    }
}

/// A build result the way the model needs to read it.
pub open spec fn report_text(report: CompileReport, seconds: Seq<char>) -> Seq<char> {
    (if report.success {
        "BUILD OK — "@ + report.slot@ + " r"@ + revision_text(report.revision) + " in "@ + seconds
            + "s"@ + given(
            report.pending_swap,
            "\nThe new version takes effect when this turn ends."@,
        )
    } else {
        "BUILD FAILED — "@ + report.slot@
            + " (unchanged, still running the previous revision)"@
    }) + given(report.detail@.len() > 0, "\n"@ + report.detail@) + given(
        report.stderr@.len() > 0,
        "\n\n"@ + report.stderr@,
    )
}

/// Renders a build result the way the model needs to read it: verdict first,
/// then the compiler's own words. `seconds` is the duration as shown.
pub fn format_report(report: &CompileReport, seconds: &str) -> (r: String)
    ensures
        r@ == report_text(*report, seconds@),
{
    let mut out = if report.success {
        let revision = match report.revision {
            Some(n) => number(n),
            None => "?".to_owned(),
        };
        let mut ok = "BUILD OK — ".to_owned().concat(report.slot.as_str()).concat(" r").concat(
            revision.as_str(),
        ).concat(" in ").concat(seconds).concat("s");
        append_when(
            &mut ok,
            report.pending_swap,
            "\nThe new version takes effect when this turn ends.",
        );
        ok
    } else {
        "BUILD FAILED — ".to_owned().concat(report.slot.as_str()).concat(
            " (unchanged, still running the previous revision)",
        )
    };
    append_when(
        &mut out,
        !text::is_empty(report.detail.as_str()),
        "\n".to_owned().concat(report.detail.as_str()).as_str(),
    );
    append_when(
        &mut out,
        !text::is_empty(report.stderr.as_str()),
        "\n\n".to_owned().concat(report.stderr.as_str()).as_str(),
    );
    out
}

// --- settings and dependencies ----------------------------------------------

/// One setting on a line, marked where it cannot be changed.
pub open spec fn setting_text(entry: ConfigEntry) -> Seq<char> {
    entry.key@ + " = "@ + entry.value@ + (if !entry.editable {
        "   [read-only]"@
    } else {
        given(!entry.live, "   [needs restart]"@)
    })
}

/// One setting on a line, marked where it cannot be changed.
pub fn format_setting(entry: &ConfigEntry) -> (r: String)
    ensures
        r@ == setting_text(*entry),
{
    let mut line = entry.key.clone().concat(" = ").concat(entry.value.as_str());
    if !entry.editable {
        line.append("   [read-only]");
    } else {
        append_when(&mut line, !entry.live, "   [needs restart]");
    }
    line
}

/// Settings, one on a line.
pub open spec fn settings_text(entries: Seq<ConfigEntry>) -> Seq<char> {
    if entries.len() == 0 {
        "no settings found"@
    } else {
        joined(entries.map_values(|e: ConfigEntry| setting_text(e)), "\n"@)
    }
}

/// Settings, one on a line.
pub fn format_settings(entries: &Vec<ConfigEntry>) -> (r: String)
    ensures
        r@ == settings_text(entries@),
{
    if entries.len() == 0 {
        return "no settings found".to_owned();
    }
    let ghost all = entries@.map_values(|e: ConfigEntry| setting_text(e));
    let mut lines: Vec<String> = Vec::new();
    for i in 0..entries.len()
        invariant
            all == entries@.map_values(|e: ConfigEntry| setting_text(e)),
            texts(lines@) == all.take(i as int),
    {
        let ghost had = lines@;
        let line = format_setting(&entries[i]);
        lines.push(line);
        proof {
            text::lemma_texts_push(had, line);
            assert(all.take(i + 1) =~= all.take(i as int).push(all[i as int]));
        }
    }
    assert(all.take(entries@.len() as int) =~= all);
    text::join(&lines, "\n")
}

/// One dependency on a line, in the shape it takes in the manifest.
pub open spec fn dependency_text(dep: Dependency) -> Seq<char> {
    dep.name@ + " = \""@ + dep.version@ + "\""@ + given(
        dep.features@.len() > 0,
        "   features: "@ + joined(texts(dep.features@), ", "@),
    ) + given(!dep.default_features, "   [no default features]"@)
}

/// One dependency on a line, in the shape it takes in the manifest.
pub fn format_dependency(dep: &Dependency) -> (r: String)
    ensures
        r@ == dependency_text(*dep),
{
    let mut line = dep.name.clone().concat(" = \"").concat(dep.version.as_str()).concat("\"");
    append_when(
        &mut line,
        dep.features.len() > 0,
        "   features: ".to_owned().concat(text::join(&dep.features, ", ").as_str()).as_str(),
    );
    append_when(&mut line, !dep.default_features, "   [no default features]");
    line
}

/// Dependencies, one on a line.
pub open spec fn dependencies_text(deps: Seq<Dependency>) -> Seq<char> {
    if deps.len() == 0 {
        "no dependencies"@
    } else {
        joined(deps.map_values(|d: Dependency| dependency_text(d)), "\n"@)
    }
}

/// Dependencies, one on a line.
pub fn format_dependencies(deps: &Vec<Dependency>) -> (r: String)
    ensures
        r@ == dependencies_text(deps@),
{
    if deps.len() == 0 {
        return "no dependencies".to_owned();
    }
    let ghost all = deps@.map_values(|d: Dependency| dependency_text(d));
    let mut lines: Vec<String> = Vec::new();
    for i in 0..deps.len()
        invariant
            all == deps@.map_values(|d: Dependency| dependency_text(d)),
            texts(lines@) == all.take(i as int),
    {
        let ghost had = lines@;
        let line = format_dependency(&deps[i]);
        lines.push(line);
        proof {
            text::lemma_texts_push(had, line);
            assert(all.take(i + 1) =~= all.take(i as int).push(all[i as int]));
        }
    }
    assert(all.take(deps@.len() as int) =~= all);
    text::join(&lines, "\n")
}

// --- history ----------------------------------------------------------------

/// One revision on a line, in columns.
pub open spec fn revision_line(r: RevisionInfo) -> Seq<char> {
    "r"@ + zero_padded(r.revision as nat, 4) + "  "@ + left_aligned(r.status@, 12) + " "@
        + left_aligned(r.origin@, 10) + " "@ + r.note@
}

fn format_revision(r: &RevisionInfo) -> (line: String)
    ensures
        line@ == revision_line(*r),
{
    "r".to_owned().concat(text::pad_number(r.revision, 4).as_str()).concat("  ").concat(
        text::align_left(r.status.as_str(), 12).as_str(),
    ).concat(" ").concat(text::align_left(r.origin.as_str(), 10).as_str()).concat(" ").concat(
        r.note.as_str(),
    )
}

/// A revision history, one revision on a line.
pub open spec fn history_text(rows: Seq<RevisionInfo>) -> Seq<char> {
    if rows.len() == 0 {
        "no revisions recorded"@
    } else {
        joined(rows.map_values(|r: RevisionInfo| revision_line(r)), "\n"@)
    }
}

/// A revision history, one revision on a line.
pub fn format_history(rows: &Vec<RevisionInfo>) -> (r: String)
    ensures
        r@ == history_text(rows@),
{
    if rows.len() == 0 {
        return "no revisions recorded".to_owned();
    }
    let ghost all = rows@.map_values(|r: RevisionInfo| revision_line(r));
    let mut lines: Vec<String> = Vec::new();
    for i in 0..rows.len()
        invariant
            all == rows@.map_values(|r: RevisionInfo| revision_line(r)),
            texts(lines@) == all.take(i as int),
    {
        let ghost had = lines@;
        let line = format_revision(&rows[i]);
        lines.push(line);
        proof {
            text::lemma_texts_push(had, line);
            assert(all.take(i + 1) =~= all.take(i as int).push(all[i as int]));
        }
    }
    assert(all.take(rows@.len() as int) =~= all);
    text::join(&lines, "\n")
}

// --- directories ------------------------------------------------------------

/// How far apart neighbouring values are, at the size of `n`, in a number
/// format with 53 significant bits.
pub open spec fn spacing(n: nat) -> nat {
    if n < 0x20_0000_0000_0000 {
        1
    } else if n < 0x40_0000_0000_0000 {
        2
    } else if n < 0x80_0000_0000_0000 {
        4
    } else if n < 0x100_0000_0000_0000 {
        8
    } else if n < 0x200_0000_0000_0000 {
        16
    } else if n < 0x400_0000_0000_0000 {
        32
    } else if n < 0x800_0000_0000_0000 {
        64
    } else if n < 0x1000_0000_0000_0000 {
        128
    } else if n < 0x2000_0000_0000_0000 {
        256
    } else if n < 0x4000_0000_0000_0000 {
        512
    } else if n < 0x8000_0000_0000_0000 {
        1024
    } else {
        2048
    }
}

/// A quotient rounded to the nearest whole number, and to the even one of two
/// that are equally near.
pub open spec fn nearest(n: nat, d: nat) -> nat {
    if 2 * (n % d) > d || (2 * (n % d) == d && (n / d) % 2 == 1) {
        n / d + 1
    } else {
        n / d
    }
}

/// A size rounded to 53 significant bits.
pub open spec fn rounded_size(n: nat) -> nat {
    nearest(n, spacing(n)) * spacing(n)
}

/// A number of tenths, with a decimal point.
pub open spec fn tenths_text(tenths: nat) -> Seq<char> {
    decimal(tenths / 10) + "."@ + decimal(tenths % 10)
}

/// A size in the largest of four units that leaves at least one of them, to
/// one decimal place unless it is in bytes.
pub open spec fn size_text(bytes: u64) -> Seq<char> {
    let size = rounded_size(bytes as nat);
    if size < 1024 {
        decimal(bytes as nat) + " B"@
    } else if size < 1024 * 1024 {
        tenths_text(nearest(10 * size, 1024)) + " KB"@
    } else if size < 1024 * 1024 * 1024 {
        tenths_text(nearest(10 * size, 1024 * 1024)) + " MB"@
    } else {
        tenths_text(nearest(10 * size, 1024 * 1024 * 1024)) + " GB"@
    }
}

fn spacing_of(n: u64) -> (r: u64)
    ensures
        r == spacing(n as nat),
        1 <= r <= 2048,
{
    if n < 0x20_0000_0000_0000 {
        1
    } else if n < 0x40_0000_0000_0000 {
        2
    } else if n < 0x80_0000_0000_0000 {
        4
    } else if n < 0x100_0000_0000_0000 {
        8
    } else if n < 0x200_0000_0000_0000 {
        16
    } else if n < 0x400_0000_0000_0000 {
        32
    } else if n < 0x800_0000_0000_0000 {
        64
    } else if n < 0x1000_0000_0000_0000 {
        128
    } else if n < 0x2000_0000_0000_0000 {
        256
    } else if n < 0x4000_0000_0000_0000 {
        512
    } else if n < 0x8000_0000_0000_0000 {
        1024
    } else {
        2048
    }
}

fn nearest_of(n: u128, d: u128) -> (r: u128)
    requires
        0 < d <= 0x4000_0000,
        n <= 0x10_0000_0000_0000_0000_0000,
    ensures
        r == nearest(n as nat, d as nat),
        r <= n / d + 1,
{
    let q: u128 = n / d;
    let rest: u128 = n % d;
    assert(q <= n) by (nonlinear_arith)
        requires
            q == n / d,
            d > 0,
            n >= 0,
    ;
    if 2 * rest > d || (2 * rest == d && q % 2 == 1) {
        q + 1
    } else {
        q
    }
}

fn tenths(size: u128, unit: u128) -> (r: String)
    requires
        1024 <= unit <= 0x4000_0000,
        size <= 0x1_0000_0000_0000_0800,
    ensures
        r@ == tenths_text(nearest((10 * size) as nat, unit as nat)),
{
    let n: u128 = nearest_of(10 * size, unit);
    assert(n <= 10 * size / 1024 + 1) by (nonlinear_arith)
        requires
            n <= (10 * size) / (unit as int) + 1,
            1024 <= unit,
            size >= 0,
    ;
    let whole: u64 = (n / 10) as u64;
    let part: u64 = (n % 10) as u64;
    number(whole).concat(".").concat(number(part).as_str())
}

/// A size in the largest of four units that leaves at least one of them.
pub fn human_size(bytes: u64) -> (r: String)
    ensures
        r@ == size_text(bytes),
{
    let step: u64 = spacing_of(bytes);
    let count: u128 = nearest_of(bytes as u128, step as u128);
    assert(count * step <= bytes + step) by (nonlinear_arith)
        requires
            count <= (bytes as int) / (step as int) + 1,
            step > 0,
            bytes >= 0,
    ;
    assert(count * step == rounded_size(bytes as nat));
    let size: u128 = count * (step as u128);
    if size < 1024 {
        number(bytes).concat(" B")
    } else if size < 1024 * 1024 {
        tenths(size, 1024).concat(" KB")
    } else if size < 1024 * 1024 * 1024 {
        tenths(size, 1024 * 1024).concat(" MB")
    } else {
        tenths(size, 1024 * 1024 * 1024).concat(" GB")
    }
}

/// One member of a directory: a directory with a slash, a file with its size.
pub open spec fn entry_text(e: FsEntry) -> Seq<char> {
    if e.is_dir {
        e.name@ + "/"@
    } else {
        e.name@ + "  ("@ + size_text(e.size) + ")"@
    }
}

/// A directory listing, one member on a line.
pub open spec fn listing_text(entries: Seq<FsEntry>) -> Seq<char> {
    if entries.len() == 0 {
        "[empty directory]"@
    } else {
        joined(entries.map_values(|e: FsEntry| entry_text(e)), "\n"@)
    }
}

/// A directory listing, sized and marked so it reads at a glance.
pub fn format_listing(entries: &Vec<FsEntry>) -> (r: String)
    ensures
        r@ == listing_text(entries@),
{
    if entries.len() == 0 {
        return "[empty directory]".to_owned();
    }
    let ghost all = entries@.map_values(|e: FsEntry| entry_text(e));
    let mut lines: Vec<String> = Vec::new();
    for i in 0..entries.len()
        invariant
            all == entries@.map_values(|e: FsEntry| entry_text(e)),
            texts(lines@) == all.take(i as int),
    {
        let ghost had = lines@;
        let line = if entries[i].is_dir {
            entries[i].name.clone().concat("/")
        } else {
            entries[i].name.clone().concat("  (").concat(
                human_size(entries[i].size).as_str(),
            ).concat(")")
        };
        lines.push(line);
        proof {
            text::lemma_texts_push(had, line);
            assert(all.take(i + 1) =~= all.take(i as int).push(all[i as int]));
        }
    }
    assert(all.take(entries@.len() as int) =~= all);
    text::join(&lines, "\n")
}

// --- commands ---------------------------------------------------------------

/// What a terminal command printed, and what to know about it.
pub open spec fn terminal_text(result: TerminalOutput) -> Seq<char> {
    given(result.truncated, "[earlier output trimmed]\n"@) + (if trimmed(result.output@).len() == 0 {
        "[no output]"@
    } else {
        result.output@
    }) + given(
        result.timed_out,
        "\n\n[still running: the timeout elapsed. Use terminal_read to collect the rest.]"@,
    )
}

/// What a terminal command printed, and what to know about it.
pub fn format_terminal(result: &TerminalOutput) -> (r: String)
    ensures
        r@ == terminal_text(*result),
{
    let mut out = String::new();
    append_when(&mut out, result.truncated, "[earlier output trimmed]\n");
    assert(out@ =~= given(result.truncated, "[earlier output trimmed]\n"@));
    if text::is_blank(result.output.as_str()) {
        out.append("[no output]");
    } else {
        out.append(result.output.as_str());
    }
    append_when(
        &mut out,
        result.timed_out,
        "\n\n[still running: the timeout elapsed. Use terminal_read to collect the rest.]",
    );
    out
}

/// What a session printed since it was last read.
pub open spec fn fresh_text(s: Seq<char>) -> Seq<char> {
    if trimmed(s).len() == 0 {
        "[nothing new]"@
    } else {
        s
    }
}

/// What a session printed since it was last read.
pub fn format_fresh(s: &str) -> (r: String)
    ensures
        r@ == fresh_text(s@),
{
    if text::is_blank(s) {
        "[nothing new]".to_owned()
    } else {
        s.to_owned()
    }
}

/// One open session on a line.
pub open spec fn session_line(s: TerminalInfo) -> Seq<char> {
    s.id@ + "  "@ + s.cwd@ + "  "@ + decimal(s.commands as nat) + " command(s)  "@ + (if s.alive {
        "running"@
    } else {
        "exited"@
    })
}

/// The open sessions, one on a line.
pub open spec fn sessions_text(sessions: Seq<TerminalInfo>) -> Seq<char> {
    if sessions.len() == 0 {
        "no open sessions"@
    } else {
        joined(sessions.map_values(|s: TerminalInfo| session_line(s)), "\n"@)
    }
}

/// The open sessions, one on a line.
pub fn format_sessions(sessions: &Vec<TerminalInfo>) -> (r: String)
    ensures
        r@ == sessions_text(sessions@),
{
    if sessions.len() == 0 {
        return "no open sessions".to_owned();
    }
    let ghost all = sessions@.map_values(|s: TerminalInfo| session_line(s));
    let mut lines: Vec<String> = Vec::new();
    for i in 0..sessions.len()
        invariant
            all == sessions@.map_values(|s: TerminalInfo| session_line(s)),
            texts(lines@) == all.take(i as int),
    {
        let ghost had = lines@;
        let line = sessions[i].id.clone().concat("  ").concat(sessions[i].cwd.as_str()).concat(
            "  ",
        ).concat(number(sessions[i].commands as u64).as_str()).concat(" command(s)  ").concat(
            if sessions[i].alive {
                "running"
            } else {
                "exited"
            },
        );
        lines.push(line);
        proof {
            text::lemma_texts_push(had, line);
            assert(all.take(i + 1) =~= all.take(i as int).push(all[i as int]));
        }
    }
    assert(all.take(sessions@.len() as int) =~= all);
    text::join(&lines, "\n")
}

/// What a sandbox command printed on either stream.
pub open spec fn streams_text(result: ExecResult) -> Seq<char> {
    let head = given(result.timed_out, "[timed out]\n"@) + result.stdout@;
    head + given(
        result.stderr@.len() > 0,
        given(head.len() > 0, "\n"@) + "[stderr]\n"@ + result.stderr@,
    )
}

/// What a sandbox command left behind.
pub open spec fn exec_text(result: ExecResult) -> Seq<char> {
    let out = streams_text(result) + given(
        result.exit_code != 0,
        "\n[exit "@ + signed_decimal(result.exit_code as int) + "]"@,
    ) + given(result.truncated, "\n[output truncated]"@);
    if out.len() == 0 {
        "[no output]"@
    } else {
        out
    }
}

/// What a sandbox command left behind.
pub fn format_exec(result: &ExecResult) -> (r: String)
    ensures
        r@ == exec_text(*result),
{
    let mut out = String::new();
    append_when(&mut out, result.timed_out, "[timed out]\n");
    assert(out@ =~= given(result.timed_out, "[timed out]\n"@));
    out.append(result.stdout.as_str());
    let ghost head = out@;
    let mut errors = String::new();
    append_when(&mut errors, !text::is_empty(out.as_str()), "\n");
    assert(errors@ =~= given(head.len() > 0, "\n"@));
    let errors = errors.concat("[stderr]\n").concat(result.stderr.as_str());
    append_when(&mut out, !text::is_empty(result.stderr.as_str()), errors.as_str());
    assert(out@ == streams_text(*result));
    append_when(
        &mut out,
        result.exit_code != 0,
        "\n[exit ".to_owned().concat(signed_number(result.exit_code as i64).as_str()).concat(
            "]",
        ).as_str(),
    );
    append_when(&mut out, result.truncated, "\n[output truncated]");
    if text::is_empty(out.as_str()) {
        return "[no output]".to_owned();
    }
    out
}

// --- laws -------------------------------------------------------------------

/// What is told of a build names the slot, and where it worked the revision and how long
/// it took; whatever the compiler and the harness said is in it, and a failure never
/// reads as a success.
pub proof fn law_a_build_is_told_as_it_went(report: CompileReport, seconds: Seq<char>)
    ensures
        report.success ==> text::begins(
            report_text(report, seconds),
            "BUILD OK — "@ + report.slot@ + " r"@ + revision_text(report.revision) + " in "@
                + seconds,
        ),
        !report.success ==> text::begins(
            report_text(report, seconds),
            "BUILD FAILED — "@ + report.slot@,
        ),
        report.revision matches Some(r) ==> text::unsigned_value(
            revision_text(report.revision),
            u64::MAX as nat,
        ) == Some(r as nat),
        report.detail@.len() > 0 ==> text::occurs(report_text(report, seconds), report.detail@),
        report.stderr@.len() > 0 ==> text::ends(report_text(report, seconds), report.stderr@),
        report.success && report.pending_swap ==> text::occurs(
            report_text(report, seconds),
            "\nThe new version takes effect when this turn ends."@,
        ),
{
    let detail = given(report.detail@.len() > 0, "\n"@ + report.detail@);
    let stderr = given(report.stderr@.len() > 0, "\n\n"@ + report.stderr@);
    let swap = given(
        report.pending_swap,
        "\nThe new version takes effect when this turn ends."@,
    );
    let good = "BUILD OK — "@ + report.slot@ + " r"@ + revision_text(report.revision) + " in "@
        + seconds;
    let bad = "BUILD FAILED — "@ + report.slot@;
    let front = if report.success {
        good
    } else {
        bad
    };
    let head = if report.success {
        good + "s"@ + swap
    } else {
        bad + " (unchanged, still running the previous revision)"@
    };
    text::lemma_more_follows(front, front, "s"@);
    text::lemma_more_follows(good + "s"@, front, swap);
    text::lemma_more_follows(
        bad,
        front,
        " (unchanged, still running the previous revision)"@,
    );
    text::lemma_more_follows(head, front, detail);
    text::lemma_more_follows(head + detail, front, stderr);
    text::lemma_at_the_end(good + "s"@, swap);
    text::lemma_more_follows(head, swap, detail);
    text::lemma_more_follows(head + detail, swap, stderr);
    text::lemma_at_the_end("\n"@, report.detail@);
    text::lemma_at_the_end(head, detail);
    text::lemma_at_the_end("\n\n"@, report.stderr@);
    text::lemma_at_the_end(head + detail, stderr);
    if report.detail@.len() > 0 {
        lemma_through(head + detail, detail, report.detail@);
        text::lemma_more_follows(head + detail, report.detail@, stderr);
    }
    if report.stderr@.len() > 0 {
        let e = report.stderr@;
        let lead = head + detail + "\n\n"@;
        text::lemma_at_the_end(lead, e);
        text::lemma_regroup(head + detail, "\n\n"@, e);
    }
    if let Some(r) = report.revision {
        text::law_numbers_read_back(r as nat, u64::MAX as nat);
    }
}

proof fn lemma_through(s: Seq<char>, mid: Seq<char>, part: Seq<char>)
    requires
        text::occurs(s, mid),
        text::occurs(mid, part),
    ensures
        text::occurs(s, part),
{
    let i = choose|i: int| text::occurs_at(s, mid, i);
    let j = choose|j: int| text::occurs_at(mid, part, j);
    assert(s.subrange(i + j, i + j + part.len()) =~= mid.subrange(j, j + part.len()));
    assert(text::occurs_at(s, part, i + j));
}

/// A setting is shown as its key and its value, and marked where it cannot be changed
/// or where a change takes a restart.
pub proof fn law_a_setting_is_shown_as_it_is(entry: ConfigEntry)
    ensures
        text::begins(setting_text(entry), entry.key@ + " = "@ + entry.value@),
        entry.editable && entry.live ==> setting_text(entry) == entry.key@ + " = "@ + entry.value@,
        !entry.editable ==> text::ends(setting_text(entry), "[read-only]"@),
        entry.editable && !entry.live ==> text::ends(setting_text(entry), "[needs restart]"@),
{
    let head = entry.key@ + " = "@ + entry.value@;
    let all = setting_text(entry);
    assert(all.subrange(0, head.len() as int) =~= head);
    assert(head + Seq::<char>::empty() =~= head);
    reveal_strlit("   [read-only]");
    reveal_strlit("[read-only]");
    reveal_strlit("   [needs restart]");
    reveal_strlit("[needs restart]");
    if !entry.editable {
        assert(all.subrange(all.len() - 11, all.len() as int) =~= "[read-only]"@);
    } else if !entry.live {
        assert(all.subrange(all.len() - 15, all.len() as int) =~= "[needs restart]"@);
    }
}

/// Every item of a list is told, on a line of its own; and an empty list is told as one.
pub proof fn law_every_item_is_told(
    settings: Seq<ConfigEntry>,
    deps: Seq<Dependency>,
    rows: Seq<RevisionInfo>,
    entries: Seq<FsEntry>,
    sessions: Seq<TerminalInfo>,
    i: int,
)
    ensures
        0 <= i < settings.len() ==> text::occurs(settings_text(settings), setting_text(settings[i])),
        0 <= i < deps.len() ==> text::occurs(dependencies_text(deps), dependency_text(deps[i])),
        0 <= i < rows.len() ==> text::occurs(history_text(rows), revision_line(rows[i])),
        0 <= i < entries.len() ==> text::occurs(listing_text(entries), entry_text(entries[i])),
        0 <= i < sessions.len() ==> text::occurs(sessions_text(sessions), session_line(sessions[i])),
        settings_text(Seq::empty()).len() > 0,
        dependencies_text(Seq::empty()).len() > 0,
        history_text(Seq::empty()).len() > 0,
        listing_text(Seq::empty()).len() > 0,
        sessions_text(Seq::empty()).len() > 0,
{
    reveal_strlit("no settings found");
    reveal_strlit("no dependencies");
    reveal_strlit("no revisions recorded");
    reveal_strlit("[empty directory]");
    reveal_strlit("no open sessions");
    if 0 <= i < settings.len() {
        text::law_joining_loses_nothing(
            settings.map_values(|e: ConfigEntry| setting_text(e)),
            "\n"@,
            i,
        );
    }
    if 0 <= i < deps.len() {
        text::law_joining_loses_nothing(
            deps.map_values(|d: Dependency| dependency_text(d)),
            "\n"@,
            i,
        );
    }
    if 0 <= i < rows.len() {
        text::law_joining_loses_nothing(
            rows.map_values(|r: RevisionInfo| revision_line(r)),
            "\n"@,
            i,
        );
    }
    if 0 <= i < entries.len() {
        text::law_joining_loses_nothing(
            entries.map_values(|e: FsEntry| entry_text(e)),
            "\n"@,
            i,
        );
    }
    if 0 <= i < sessions.len() {
        text::law_joining_loses_nothing(
            sessions.map_values(|s: TerminalInfo| session_line(s)),
            "\n"@,
            i,
        );
    }
}

/// A dependency is told with its name, its version and every feature.
pub proof fn law_a_dependency_is_told_whole(dep: Dependency, i: int)
    ensures
        text::begins(dependency_text(dep), dep.name@ + " = \""@ + dep.version@ + "\""@),
        0 <= i < dep.features@.len() ==> text::occurs(dependency_text(dep), dep.features@[i]@),
        !dep.default_features ==> text::ends(dependency_text(dep), "[no default features]"@),
        dep.default_features && dep.features@.len() == 0 ==> dependency_text(dep) == dep.name@
            + " = \""@ + dep.version@ + "\""@,
{
    let head = dep.name@ + " = \""@ + dep.version@ + "\""@;
    let all = dependency_text(dep);
    let list = joined(texts(dep.features@), ", "@);
    let mid = given(dep.features@.len() > 0, "   features: "@ + list);
    let tail = given(!dep.default_features, "   [no default features]"@);
    assert(all == head + mid + tail);
    assert(all.subrange(0, head.len() as int) =~= head);
    assert(head + Seq::<char>::empty() + Seq::<char>::empty() =~= head);
    if 0 <= i < dep.features@.len() {
        text::law_joining_loses_nothing(texts(dep.features@), ", "@, i);
        text::lemma_occurs_within(head + "   features: "@, list, tail, dep.features@[i]@);
        assert(all =~= head + "   features: "@ + list + tail);
    }
    reveal_strlit("   [no default features]");
    reveal_strlit("[no default features]");
    if !dep.default_features {
        assert(all.subrange(all.len() - 21, all.len() as int) =~= "[no default features]"@);
    }
}

/// A line of a history gives the revision's number, where it stands, where it came from
/// and what was noted, in this order.
pub proof fn law_a_revision_is_told_whole(r: RevisionInfo)
    ensures
        text::begins(revision_line(r), "r"@ + zero_padded(r.revision as nat, 4)),
        text::digits_value(zero_padded(r.revision as nat, 4)) == r.revision,
        text::occurs(revision_line(r), r.status@),
        text::occurs(revision_line(r), r.origin@),
        text::ends(revision_line(r), r.note@),
{
    let n = "r"@ + zero_padded(r.revision as nat, 4);
    let s = left_aligned(r.status@, 12);
    let o = left_aligned(r.origin@, 10);
    let all = revision_line(r);
    text::law_padding_keeps_the_number(r.revision as nat, 4);
    assert(all.subrange(0, n.len() as int) =~= n);
    assert(all.subrange(all.len() - r.note@.len(), all.len() as int) =~= r.note@);
    let sp = text::repeated(' ', 12 - r.status@.len());
    let op = text::repeated(' ', 10 - r.origin@.len());
    text::lemma_occurs_between(n + "  "@, r.status@, sp + " "@ + o + " "@ + r.note@);
    assert(all =~= n + "  "@ + r.status@ + (sp + " "@ + o + " "@ + r.note@));
    text::lemma_occurs_between(n + "  "@ + s + " "@, r.origin@, op + " "@ + r.note@);
    assert(all =~= n + "  "@ + s + " "@ + r.origin@ + (op + " "@ + r.note@));
}

/// A file is listed with its name and its size, a directory with a slash behind it.
pub proof fn law_an_entry_is_told_by_its_kind(e: FsEntry)
    ensures
        text::begins(entry_text(e), e.name@),
        e.is_dir ==> entry_text(e) == e.name@ + seq!['/'],
        !e.is_dir ==> text::occurs(entry_text(e), size_text(e.size)),
{
    reveal_strlit("/");
    assert("/"@ =~= seq!['/']);
    let all = entry_text(e);
    assert(all.subrange(0, e.name@.len() as int) =~= e.name@);
    text::lemma_occurs_between(e.name@ + "  ("@, size_text(e.size), ")"@);
}

/// A number is divided to the nearest whole: what is left over, on either side, is at
/// most half of the divisor, and where it is exactly half the result is even.
pub proof fn law_division_goes_to_the_nearest(n: nat, d: nat)
    requires
        d > 0,
    ensures
        2 * (n - nearest(n, d) * d) <= d,
        2 * (nearest(n, d) * d - n) <= d,
        2 * (n - nearest(n, d) * d) == d || 2 * (nearest(n, d) * d - n) == d ==> nearest(n, d) % 2
            == 0,
{
    let q = n / d;
    let r = n % d;
    assert(n == q * d + r) by (nonlinear_arith)
        requires
            d > 0,
            q == n / d,
            r == n % d,
    ;
    assert((q + 1) * d == q * d + d) by (nonlinear_arith);
    assert(0 <= r < d) by (nonlinear_arith)
        requires
            d > 0,
            r == n % d,
    ;
}

/// A size below a kilobyte is told in bytes, exactly; a larger one in the largest unit
/// that it fills, to the nearest tenth.
pub proof fn law_a_size_is_told_in_its_unit(bytes: u64)
    requires
        bytes < 0x20_0000_0000_0000,
    ensures
        bytes < 1024 ==> size_text(bytes) == decimal(bytes as nat) + " B"@,
        1024 <= bytes < 1_048_576 ==> size_text(bytes) == tenths_text(
            nearest(10 * (bytes as nat), 1024),
        ) + " KB"@,
        1_048_576 <= bytes < 1_073_741_824 ==> size_text(bytes) == tenths_text(
            nearest(10 * (bytes as nat), 1_048_576),
        ) + " MB"@,
        1_073_741_824 <= bytes ==> size_text(bytes) == tenths_text(
            nearest(10 * (bytes as nat), 1_073_741_824),
        ) + " GB"@,
{
    assert(spacing(bytes as nat) == 1);
    assert(nearest(bytes as nat, 1) == bytes as nat);
}

/// What a terminal printed is told as it is; that it is still running, or that earlier
/// output is gone, is told with it.
pub proof fn law_terminal_output_is_told_as_it_is(result: TerminalOutput, s: Seq<char>)
    ensures
        trimmed(result.output@).len() > 0 ==> text::occurs(terminal_text(result), result.output@),
        trimmed(result.output@).len() > 0 && !result.truncated && !result.timed_out
            ==> terminal_text(result) == result.output@,
        result.timed_out ==> text::ends(
            terminal_text(result),
            "\n\n[still running: the timeout elapsed. Use terminal_read to collect the rest.]"@,
        ),
        result.truncated ==> text::begins(terminal_text(result), "[earlier output trimmed]\n"@),
        trimmed(s).len() > 0 ==> fresh_text(s) == s,
        trimmed(s).len() == 0 ==> fresh_text(s) == "[nothing new]"@,
{
    let early = "[earlier output trimmed]\n"@;
    let a = given(result.truncated, early);
    let late = "\n\n[still running: the timeout elapsed. Use terminal_read to collect the rest.]"@;
    let b = given(result.timed_out, late);
    let mid = if trimmed(result.output@).len() == 0 {
        "[no output]"@
    } else {
        result.output@
    };
    text::lemma_at_the_end(a, mid);
    text::lemma_more_follows(a + mid, mid, b);
    text::lemma_more_follows(early, early, mid);
    text::lemma_more_follows(early + mid, early, b);
    text::lemma_at_the_end(a + mid, late);
    if !result.truncated && !result.timed_out {
        assert(a + mid + b =~= mid);
    }
}

/// A session is told with its id, its directory and how many commands it has had, and
/// whether it still runs.
pub proof fn law_a_session_is_told_whole(s: TerminalInfo)
    ensures
        text::begins(session_line(s), s.id@),
        text::occurs(session_line(s), s.cwd@),
        text::occurs(session_line(s), decimal(s.commands as nat)),
        s.alive ==> text::ends(session_line(s), "running"@),
        !s.alive ==> text::ends(session_line(s), "exited"@),
{
    let n = decimal(s.commands as nat);
    let end = if s.alive {
        "running"@
    } else {
        "exited"@
    };
    let all = session_line(s);
    assert(all.subrange(0, s.id@.len() as int) =~= s.id@);
    assert(all.subrange(all.len() - end.len(), all.len() as int) =~= end);
    text::lemma_occurs_between(s.id@ + "  "@, s.cwd@, "  "@ + n + " command(s)  "@ + end);
    assert(all =~= s.id@ + "  "@ + s.cwd@ + ("  "@ + n + " command(s)  "@ + end));
    text::lemma_occurs_between(s.id@ + "  "@ + s.cwd@ + "  "@, n, " command(s)  "@ + end);
    assert(all =~= s.id@ + "  "@ + s.cwd@ + "  "@ + n + (" command(s)  "@ + end));
}

/// What a command left behind is told whole: what it printed, what it complained of,
/// and its exit code where that is not zero; and a command that left nothing is told as
/// one.
pub proof fn law_a_command_is_told_whole(result: ExecResult)
    ensures
        text::occurs(exec_text(result), result.stdout@),
        result.stderr@.len() > 0 ==> text::occurs(exec_text(result), result.stderr@),
        result.exit_code != 0 ==> text::occurs(
            exec_text(result),
            "\n[exit "@ + signed_decimal(result.exit_code as int) + "]"@,
        ),
        result.truncated ==> text::ends(exec_text(result), "\n[output truncated]"@),
        result.timed_out ==> text::begins(exec_text(result), "[timed out]\n"@),
        result.exit_code == 0 && !result.truncated && !result.timed_out && result.stderr@.len() == 0
            && result.stdout@.len() > 0 ==> exec_text(result) == result.stdout@,
        result.exit_code == 0 && !result.truncated && !result.timed_out && result.stderr@.len() == 0
            && result.stdout@.len() == 0 ==> exec_text(result) == "[no output]"@,
{
    let none = Seq::<char>::empty();
    let late = "[timed out]\n"@;
    let head = given(result.timed_out, late) + result.stdout@;
    let lead = given(head.len() > 0, "\n"@) + "[stderr]\n"@;
    let err = given(result.stderr@.len() > 0, lead + result.stderr@);
    let code = "\n[exit "@ + signed_decimal(result.exit_code as int) + "]"@;
    let exit = given(result.exit_code != 0, code);
    let cut = given(result.truncated, "\n[output truncated]"@);
    let out = head + err + exit + cut;
    assert(out == streams_text(result) + exit + cut);
    let all = exec_text(result);
    reveal_strlit("[timed out]\n");
    reveal_strlit("\n[output truncated]");
    assert("[timed out]\n"@.len() == 12 && "\n[output truncated]"@.len() == 19);
    // What was printed.
    text::lemma_at_the_end(given(result.timed_out, late), result.stdout@);
    text::lemma_more_follows(head, result.stdout@, err);
    text::lemma_more_follows(head + err, result.stdout@, exit);
    text::lemma_more_follows(head + err + exit, result.stdout@, cut);
    if out.len() == 0 {
        assert(result.stdout@ =~= none);
        assert(all.subrange(0, 0) =~= none);
        assert(text::occurs_at(all, result.stdout@, 0));
    }
    // What was complained of.
    text::lemma_at_the_end(lead, result.stderr@);
    text::lemma_at_the_end(head, err);
    if result.stderr@.len() > 0 {
        lemma_through(head + err, err, result.stderr@);
        text::lemma_more_follows(head + err, result.stderr@, exit);
        text::lemma_more_follows(head + err + exit, result.stderr@, cut);
    }
    // How it ended.
    text::lemma_at_the_end(head + err, exit);
    text::lemma_more_follows(head + err + exit, exit, cut);
    text::lemma_at_the_end(head + err + exit, cut);
    if result.exit_code != 0 {
        reveal_strlit("\n[exit ");
        assert(code.len() > 0);
    }
    if result.timed_out {
        text::lemma_more_follows(late, late, result.stdout@);
        text::lemma_more_follows(head, late, err);
        text::lemma_more_follows(head + err, late, exit);
        text::lemma_more_follows(head + err + exit, late, cut);
    }
    if result.exit_code == 0 && !result.truncated && !result.timed_out && result.stderr@.len()
        == 0 {
        assert(out =~= result.stdout@);
    }
}

} // verus!
