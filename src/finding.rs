use vstd::prelude::*;
use vstd::string::*;
use crate::span::Span;

verus! {

/// The rules of the engine, in the order they run.
#[derive(Clone, Copy, Debug, PartialEq, Eq, Structural)]
pub enum RuleId {
    MagicNumber,
    CommentedCode,
    MissingDocs,
    Naming,
    UnsafeUsage,
    ErrorHandling,
    Complexity,
    Duplication,
}

#[derive(Clone, Copy, Debug, PartialEq, Eq, Structural)]
pub enum Severity {
    Info,
    Warning,
    Error,
}

/// What a finding reports.
#[derive(Clone, Copy, Debug, PartialEq, Eq, Structural)]
pub enum Issue {
    MagicNumber,
    CommentedCode,
    MissingDocs,
    BadName,
    UnsafeWithoutSafetyComment,
    NeedlessUnsafe,
    Unwrap,
    PanicCall,
    DiscardedResult,
    TooManyStatements,
    TooManyParameters,
    DeepNesting,
    HighComplexity,
    Duplicate,
    NearDuplicate,
}

pub open spec fn rule_of(issue: Issue) -> RuleId {
    match issue {
        Issue::MagicNumber => RuleId::MagicNumber,
        Issue::CommentedCode => RuleId::CommentedCode,
        Issue::MissingDocs => RuleId::MissingDocs,
        Issue::BadName => RuleId::Naming,
        Issue::UnsafeWithoutSafetyComment | Issue::NeedlessUnsafe => RuleId::UnsafeUsage,
        Issue::Unwrap | Issue::PanicCall | Issue::DiscardedResult => RuleId::ErrorHandling,
        Issue::TooManyStatements | Issue::TooManyParameters | Issue::DeepNesting
        | Issue::HighComplexity => RuleId::Complexity,
        Issue::Duplicate | Issue::NearDuplicate => RuleId::Duplication,
    }
}

pub open spec fn severity_of(issue: Issue) -> Severity {
    match issue {
        Issue::MagicNumber | Issue::CommentedCode | Issue::MissingDocs | Issue::BadName
        | Issue::NeedlessUnsafe => Severity::Info,
        Issue::UnsafeWithoutSafetyComment | Issue::PanicCall => Severity::Error,
        _ => Severity::Warning,
    }
}

impl Issue {
    pub fn rule(&self) -> (r: RuleId)
        ensures
            r == rule_of(*self),
    {
        match self {
            Issue::MagicNumber => RuleId::MagicNumber,
            Issue::CommentedCode => RuleId::CommentedCode,
            Issue::MissingDocs => RuleId::MissingDocs,
            Issue::BadName => RuleId::Naming,
            Issue::UnsafeWithoutSafetyComment | Issue::NeedlessUnsafe => RuleId::UnsafeUsage,
            Issue::Unwrap | Issue::PanicCall | Issue::DiscardedResult => RuleId::ErrorHandling,
            Issue::TooManyStatements | Issue::TooManyParameters | Issue::DeepNesting
            | Issue::HighComplexity => RuleId::Complexity,
            Issue::Duplicate | Issue::NearDuplicate => RuleId::Duplication,
        }
    }

    pub fn severity(&self) -> (r: Severity)
        ensures
            r == severity_of(*self),
    {
        match self {
            Issue::MagicNumber | Issue::CommentedCode | Issue::MissingDocs | Issue::BadName
            | Issue::NeedlessUnsafe => Severity::Info,
            Issue::UnsafeWithoutSafetyComment | Issue::PanicCall => Severity::Error,
            _ => Severity::Warning,
        }
    }

    /// A sentence for the reader of a report.
    pub fn message(&self) -> (r: &'static str)
        ensures
            r@ == match *self {
                Issue::MagicNumber => "numeric literal should be a named constant"@,
                Issue::CommentedCode => "comment looks like commented-out code"@,
                Issue::MissingDocs => "public item has no documentation comment"@,
                Issue::BadName => "name does not follow the naming convention for its kind"@,
                Issue::UnsafeWithoutSafetyComment => "unsafe code without a SAFETY comment"@,
                Issue::NeedlessUnsafe => "unsafe block holds no operation that needs it"@,
                Issue::Unwrap => "unwrap or expect may panic"@,
                Issue::PanicCall => "panicking macro outside test code"@,
                Issue::DiscardedResult => "value is discarded without being inspected"@,
                Issue::TooManyStatements => "function has too many statements"@,
                Issue::TooManyParameters => "function has too many parameters"@,
                Issue::DeepNesting => "control flow is nested too deeply"@,
                Issue::HighComplexity => "cyclomatic complexity is too high"@,
                Issue::Duplicate => "code duplicates an earlier function"@,
                Issue::NearDuplicate => "code closely resembles an earlier function"@,
            },
    {
        match self {
            Issue::MagicNumber => "numeric literal should be a named constant",
            Issue::CommentedCode => "comment looks like commented-out code",
            Issue::MissingDocs => "public item has no documentation comment",
            Issue::BadName => "name does not follow the naming convention for its kind",
            Issue::UnsafeWithoutSafetyComment => "unsafe code without a SAFETY comment",
            Issue::NeedlessUnsafe => "unsafe block holds no operation that needs it",
            Issue::Unwrap => "unwrap or expect may panic",
            Issue::PanicCall => "panicking macro outside test code",
            Issue::DiscardedResult => "value is discarded without being inspected",
            Issue::TooManyStatements => "function has too many statements",
            Issue::TooManyParameters => "function has too many parameters",
            Issue::DeepNesting => "control flow is nested too deeply",
            Issue::HighComplexity => "cyclomatic complexity is too high",
            Issue::Duplicate => "code duplicates an earlier function",
            Issue::NearDuplicate => "code closely resembles an earlier function",
        }
    }
}

impl RuleId {
    /// The identifier used in suppression directives.
    pub fn name(&self) -> (r: &'static str)
        ensures
            r.spec_bytes() == crate::suppression::rule_name_bytes(*self),
    {
        match self {
            RuleId::MagicNumber => {
                let s = "magic-number";
                proof {
                    reveal_strlit("magic-number");
                    assert(vstd::utf8::is_ascii_chars(s@));
                    vstd::utf8::is_ascii_chars_encode_utf8(s@);
                    assert(s.spec_bytes() =~= crate::suppression::rule_name_bytes(RuleId::MagicNumber));
                }
                s
            },
            RuleId::CommentedCode => {
                let s = "commented-code";
                proof {
                    reveal_strlit("commented-code");
                    assert(vstd::utf8::is_ascii_chars(s@));
                    vstd::utf8::is_ascii_chars_encode_utf8(s@);
                    assert(s.spec_bytes() =~= crate::suppression::rule_name_bytes(RuleId::CommentedCode));
                }
                s
            },
            RuleId::MissingDocs => {
                let s = "missing-docs";
                proof {
                    reveal_strlit("missing-docs");
                    assert(vstd::utf8::is_ascii_chars(s@));
                    vstd::utf8::is_ascii_chars_encode_utf8(s@);
                    assert(s.spec_bytes() =~= crate::suppression::rule_name_bytes(RuleId::MissingDocs));
                }
                s
            },
            RuleId::Naming => {
                let s = "naming";
                proof {
                    reveal_strlit("naming");
                    assert(vstd::utf8::is_ascii_chars(s@));
                    vstd::utf8::is_ascii_chars_encode_utf8(s@);
                    assert(s.spec_bytes() =~= crate::suppression::rule_name_bytes(RuleId::Naming));
                }
                s
            },
            RuleId::UnsafeUsage => {
                let s = "unsafe-usage";
                proof {
                    reveal_strlit("unsafe-usage");
                    assert(vstd::utf8::is_ascii_chars(s@));
                    vstd::utf8::is_ascii_chars_encode_utf8(s@);
                    assert(s.spec_bytes() =~= crate::suppression::rule_name_bytes(RuleId::UnsafeUsage));
                }
                s
            },
            RuleId::ErrorHandling => {
                let s = "error-handling";
                proof {
                    reveal_strlit("error-handling");
                    assert(vstd::utf8::is_ascii_chars(s@));
                    vstd::utf8::is_ascii_chars_encode_utf8(s@);
                    assert(s.spec_bytes() =~= crate::suppression::rule_name_bytes(RuleId::ErrorHandling));
                }
                s
            },
            RuleId::Complexity => {
                let s = "complexity";
                proof {
                    reveal_strlit("complexity");
                    assert(vstd::utf8::is_ascii_chars(s@));
                    vstd::utf8::is_ascii_chars_encode_utf8(s@);
                    assert(s.spec_bytes() =~= crate::suppression::rule_name_bytes(RuleId::Complexity));
                }
                s
            },
            RuleId::Duplication => {
                let s = "duplication";
                proof {
                    reveal_strlit("duplication");
                    assert(vstd::utf8::is_ascii_chars(s@));
                    vstd::utf8::is_ascii_chars_encode_utf8(s@);
                    assert(s.spec_bytes() =~= crate::suppression::rule_name_bytes(RuleId::Duplication));
                }
                s
            },
        }
    }
}

/// One reported violation. `group` links the members of a duplicate group.
#[derive(Clone, Copy, Debug, PartialEq, Eq, Structural)]
pub struct Finding {
    pub rule: RuleId,
    pub issue: Issue,
    pub severity: Severity,
    pub span: Span,
    pub group: Option<usize>,
}

pub open spec fn finding(issue: Issue, span: Span) -> Finding {
    Finding { rule: rule_of(issue), issue, severity: severity_of(issue), span, group: None }
}

impl Finding {
    pub fn new(issue: Issue, span: Span) -> (r: Finding)
        ensures
            r == finding(issue, span),
    {
        Finding { rule: issue.rule(), issue, severity: issue.severity(), span, group: None }
    }
}

/// Every finding lies within `[0, len)`.
pub open spec fn findings_within(fs: Seq<Finding>, len: int) -> bool {
    forall|i: int| 0 <= i < fs.len() ==> #[trigger] fs[i].span.start <= fs[i].span.end <= len
}

} // verus!
