//! What was found wrong with a network while it was built.

use vstd::prelude::*;

verus! {

/// How grave an issue is.
#[derive(Debug, Clone, Copy, PartialEq, Eq)]
pub enum IssueSeverity {
    Error,
    Warning,
}

/// One thing that was found wrong, and where.
#[derive(Debug, Clone)]
pub struct ValidationIssue {
    pub severity: IssueSeverity,
    pub message: String,
    pub location: Option<String>,
}

/// The errors and the warnings of one run, each in the order in which they
/// were found.
#[derive(Debug, Clone)]
pub struct ValidationResult {
    pub errors: Vec<ValidationIssue>,
    pub warnings: Vec<ValidationIssue>,
}

/// The line that reports an issue: two blanks, the location in brackets
/// where there is one, the message, and a line end.
pub open spec fn issue_line(issue: ValidationIssue) -> Seq<char> {
    match issue.location {
        Some(location) => "  ["@ + location@ + "] "@ + issue.message@ + "\n"@,
        None => "  "@ + issue.message@ + "\n"@,
    }
}

/// The lines that report the first `n` issues.
pub open spec fn issue_lines(issues: Seq<ValidationIssue>, n: int) -> Seq<char>
    decreases n,
{
    if n <= 0 || n > issues.len() {
        Seq::empty()
    } else {
        issue_lines(issues, n - 1) + issue_line(issues[n - 1])
    }
}

/// A heading and the lines of the issues below it; nothing where there
/// are no issues.
pub open spec fn issue_section(heading: Seq<char>, issues: Seq<ValidationIssue>) -> Seq<char> {
    if issues.len() == 0 {
        Seq::empty()
    } else {
        heading + "\n"@ + issue_lines(issues, issues.len() as int)
    }
}

/// The report of a result: the errors, then the warnings.
pub open spec fn report_text(result: ValidationResult) -> Seq<char> {
    issue_section("Errors:"@, result.errors@) + issue_section("Warnings:"@, result.warnings@)
}

/// Appends a heading and the lines of the issues below it.
fn push_section(out: &mut String, heading: &str, issues: &Vec<ValidationIssue>)
    ensures
        final(out)@ == old(out)@ + issue_section(heading@, issues@),
{
    if issues.len() == 0 {
        assert(out@ + Seq::<char>::empty() =~= out@);
        return ;
    }
    out.append(heading);
    out.append("\n");
    let ghost start = out@;
    assert(start =~= old(out)@ + (heading@ + "\n"@));
    assert(start + Seq::<char>::empty() =~= start);
    let mut i: usize = 0;
    while i < issues.len()
        invariant
            i <= issues.len(),
            out@ == start + issue_lines(issues@, i as int),
        decreases issues.len() - i,
    {
        let ghost before = out@;
        let issue = &issues[i];
        match &issue.location {
            Some(location) => {
                out.append("  [");
                out.append(location.as_str());
                out.append("] ");
            },
            None => {
                out.append("  ");
            },
        }
        out.append(issue.message.as_str());
        out.append("\n");
        assert(out@ =~= before + issue_line(issues[i as int]));
        assert(start + issue_lines(issues@, i + 1) =~= before + issue_line(issues[i as int]));
        i += 1;
    }
    assert(out@ =~= old(out)@ + issue_section(heading@, issues@));
}

impl ValidationResult {
    /// A result without issues.
    pub fn new() -> (r: Self)
        ensures
            r.errors@.len() == 0,
            r.warnings@.len() == 0,
    {
        ValidationResult { errors: Vec::new(), warnings: Vec::new() }
    }

    /// Adds an error at the end of the errors.
    pub fn add_error(&mut self, message: String, location: Option<String>)
        ensures
            final(self).errors@ == old(self).errors@.push(
                ValidationIssue { severity: IssueSeverity::Error, message, location },
            ),
            final(self).warnings@ == old(self).warnings@,
    {
        self.errors.push(ValidationIssue { severity: IssueSeverity::Error, message, location });
    }

    /// Adds a warning at the end of the warnings.
    pub fn add_warning(&mut self, message: String, location: Option<String>)
        ensures
            final(self).warnings@ == old(self).warnings@.push(
                ValidationIssue { severity: IssueSeverity::Warning, message, location },
            ),
            final(self).errors@ == old(self).errors@,
    {
        self.warnings.push(
            ValidationIssue { severity: IssueSeverity::Warning, message, location },
        );
    }

    /// Whether there is no error.
    pub fn is_valid(&self) -> (r: bool)
        ensures
            r == (self.errors@.len() == 0),
    {
        self.errors.len() == 0
    }

    /// Whether there is an error or a warning.
    pub fn has_issues(&self) -> (r: bool)
        ensures
            r == (self.errors@.len() > 0 || self.warnings@.len() > 0),
    {
        self.errors.len() > 0 || self.warnings.len() > 0
    }

    /// The report: the errors under `Errors:`, then the warnings under
    /// `Warnings:`, one line each.
    pub fn report(&self) -> (s: String)
        ensures
            s@ == report_text(*self),
    {
        let mut out = String::new();
        push_section(&mut out, "Errors:", &self.errors);
        push_section(&mut out, "Warnings:", &self.warnings);
        assert(out@ =~= report_text(*self));
        out
    }
}

impl Default for ValidationResult {
    /// A result without issues.
    fn default() -> (r: Self)
        ensures
            r.errors@.len() == 0,
            r.warnings@.len() == 0,
    {
        ValidationResult::new()
    }
}

} // verus!
