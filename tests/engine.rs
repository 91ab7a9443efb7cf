use lint_engine::config::Config;
use lint_engine::engine::{analyze, Analysis, AnalysisError};
use lint_engine::finding::{Finding, Issue, RuleId};
use lint_engine::span::Span;
use lint_engine::tree::ParseIssue;
use lint_engine::config::ConfigError;
use lint_engine::position::{line_col, Summary};

fn run(src: &str, cfg: &Config) -> Analysis {
    match analyze(src.as_bytes(), cfg) {
        Ok(a) => a,
        Err(e) => panic!("analysis failed: {:?}", e),
    }
}

fn of_rule(fs: &[Finding], rule: RuleId) -> Vec<Finding> {
    fs.iter().filter(|f| f.rule == rule).cloned().collect()
}

fn span_of(src: &str, needle: &str) -> Span {
    let start = src.find(needle).unwrap();
    Span { start, end: start + needle.len() }
}

#[test]
fn camel_case_function_is_flagged_once_at_its_name() {
    let src = "fn getUserName() -> String {\n    String::new()\n}\n";
    let a = run(src, &Config::standard());
    let naming = of_rule(&a.findings, RuleId::Naming);
    assert_eq!(naming.len(), 1);
    assert_eq!(naming[0].span, span_of(src, "getUserName"));
    assert_eq!(naming[0].issue, Issue::BadName);
}

#[test]
fn snake_case_function_is_not_flagged() {
    let src = "fn get_user_name() -> String {\n    String::new()\n}\n";
    let a = run(src, &Config::standard());
    assert!(of_rule(&a.findings, RuleId::Naming).is_empty());
}

#[test]
fn zero_and_one_are_never_magic() {
    let src = "fn f() -> i32 {\n    let a = 0;\n    let b = 1;\n    a + b\n}\n";
    let a = run(src, &Config::standard());
    assert!(of_rule(&a.findings, RuleId::MagicNumber).is_empty());
}

#[test]
fn price_literal_is_flagged_once() {
    let src = "fn price() -> f64 {\n    let unit_price = 19.99;\n    unit_price\n}\n";
    let a = run(src, &Config::standard());
    let magic = of_rule(&a.findings, RuleId::MagicNumber);
    assert_eq!(magic.len(), 1);
    assert_eq!(magic[0].span, span_of(src, "19.99"));
}

#[test]
fn constants_and_indices_are_not_magic() {
    let src = "const LIMIT: u32 = 250;\nfn f(xs: &[u32]) -> u32 {\n    xs[4] + LIMIT\n}\n";
    let a = run(src, &Config::standard());
    assert!(of_rule(&a.findings, RuleId::MagicNumber).is_empty());
}

#[test]
fn four_nested_ifs_give_one_deep_nesting_finding() {
    let src = "fn deep(a: i32) -> i32 {\n    if a > 0 {\n        if a > 1 {\n            if a > 2 {\n                if a > 3 {\n                    return a;\n                }\n            }\n        }\n    }\n    a\n}\n";
    let a = run(src, &Config::standard());
    let deep: Vec<Finding> = a.findings.iter().filter(|f| f.issue == Issue::DeepNesting).cloned().collect();
    assert_eq!(deep.len(), 1);
    let start = src.find("if a > 3").unwrap();
    let end = src[start..].find('}').unwrap() + start + 1;
    assert_eq!(deep[0].span, Span { start, end });
}

#[test]
fn identical_bodies_form_one_group_of_two() {
    let src = "fn first(x: i32) -> i32 {\n    let y = x * 2;\n    if y > 10 { y } else { x }\n}\n\nfn second(p: i32) -> i32 {\n    let q = p * 3;\n    if q > 20 { q } else { p }\n}\n";
    let a = run(src, &Config::standard());
    let dups = of_rule(&a.findings, RuleId::Duplication);
    assert_eq!(dups.len(), 1);
    let second = src.find("fn second").unwrap();
    assert_eq!(dups[0].span.start, second);
    let g = dups[0].group.unwrap();
    assert_eq!(a.nodes[g].span.start, src.find("fn first").unwrap());
}

#[test]
fn different_bodies_are_not_grouped() {
    let src = "fn first(x: i32) -> i32 {\n    let y = x * 2;\n    if y > 10 { y } else { x }\n}\n\nfn second(p: i32) -> i32 {\n    let q = p * 3;\n    while q > 20 { return q; }\n    p\n}\n";
    let a = run(src, &Config::standard());
    assert!(of_rule(&a.findings, RuleId::Duplication).is_empty());
}

#[test]
fn two_runs_give_identical_findings() {
    let src = "pub fn Bad(x: i32) -> i32 {\n    let v = x.checked_add(7).unwrap();\n    // let old = 3;\n    v * 42\n}\n";
    let cfg = Config::standard();
    let a = run(src, &cfg);
    let b = run(src, &cfg);
    assert!(!a.findings.is_empty());
    assert_eq!(a.findings, b.findings);
}

#[test]
fn spans_nest_and_stay_in_the_source() {
    let src = "pub mod m {\n    pub struct S { pub a: i32 }\n    impl S {\n        pub fn get(&self) -> i32 { if self.a > 3 { 5 } else { 6 } }\n    }\n}\n";
    let a = run(src, &Config::standard());
    for f in &a.findings {
        assert!(f.span.start <= f.span.end && f.span.end <= src.len());
    }
    for (k, n) in a.nodes.iter().enumerate() {
        if k > 0 {
            let p = &a.nodes[n.parent];
            assert!(p.span.start <= n.span.start && n.span.end <= p.span.end);
        }
    }
}

#[test]
fn rule_scoped_directive_removes_only_that_rule() {
    let src = "fn f() {\n    // lint:allow(magic-number)\n    let camelName = 77;\n    let other = 88;\n}\n";
    let a = run(src, &Config::standard());
    let magic = of_rule(&a.findings, RuleId::MagicNumber);
    assert_eq!(magic.len(), 1);
    assert_eq!(magic[0].span, span_of(src, "88"));
    let naming = of_rule(&a.findings, RuleId::Naming);
    assert_eq!(naming.len(), 1);
    assert_eq!(naming[0].span, span_of(src, "camelName"));
}

#[test]
fn unscoped_directive_removes_everything_in_scope() {
    let src = "fn f() {\n    let camelName = 77; // lint:allow\n    let otherName = 88;\n}\n";
    let a = run(src, &Config::standard());
    assert!(a.findings.iter().all(|f| f.span.start > src.find("otherName").unwrap() - 5));
    assert_eq!(of_rule(&a.findings, RuleId::MagicNumber).len(), 1);
    assert_eq!(of_rule(&a.findings, RuleId::Naming).len(), 1);
}

#[test]
fn file_directive_covers_the_whole_input() {
    let src = "// lint:allow-file(naming)\nfn BadOne() {}\nfn BadTwo() {}\n";
    let a = run(src, &Config::standard());
    assert!(of_rule(&a.findings, RuleId::Naming).is_empty());
}

#[test]
fn commented_out_code_is_one_finding_per_run() {
    let src = "fn f() {\n    // This explains the next line\n    // let old = 42;\n    // if old > 40 {\n    //     go();\n    // }\n    let x = 1;\n}\n";
    let a = run(src, &Config::standard());
    let cc = of_rule(&a.findings, RuleId::CommentedCode);
    assert_eq!(cc.len(), 1);
    assert_eq!(cc[0].span.start, src.find("// let old").unwrap());
    assert_eq!(cc[0].span.end, src.find("// }").unwrap() + 4);
}

#[test]
fn public_items_need_documentation() {
    let src = "/// Documented.\npub fn good() {}\npub fn bad() {}\nfn private() {}\npub struct S {\n    pub field: i32,\n}\n";
    let a = run(src, &Config::standard());
    let docs = of_rule(&a.findings, RuleId::MissingDocs);
    let spans: Vec<Span> = docs.iter().map(|f| f.span).collect();
    assert_eq!(spans, vec![span_of(src, "bad"), span_of(src, "S {"), span_of(src, "field")]
        .into_iter().map(|s| if s.end - s.start == 3 && &src[s.start..s.end] == "S {" { Span { start: s.start, end: s.start + 1 } } else { s }).collect::<Vec<_>>());
}

#[test]
fn unsafe_needs_a_safety_comment() {
    let src = "fn f(p: *const i32) -> i32 {\n    // SAFETY: p is valid\n    let a = unsafe { *p };\n    let b = unsafe { *p };\n    unsafe { }\n    a + b\n}\n";
    let a = run(src, &Config::standard());
    let us: Vec<Finding> = of_rule(&a.findings, RuleId::UnsafeUsage);
    let without: Vec<&Finding> = us.iter().filter(|f| f.issue == Issue::UnsafeWithoutSafetyComment).collect();
    assert_eq!(without.len(), 2);
    let needless: Vec<&Finding> = us.iter().filter(|f| f.issue == Issue::NeedlessUnsafe).collect();
    assert_eq!(needless.len(), 1);
}

#[test]
fn error_handling_findings() {
    let src = "fn f(x: Option<i32>) -> i32 {\n    let _ = g();\n    let v = x.unwrap();\n    if v < 0 { panic!(\"no\"); }\n    v\n}\n#[cfg(test)]\nmod tests {\n    fn t() { panic!(\"fine\"); }\n}\n";
    let a = run(src, &Config::standard());
    let issues: Vec<Issue> = of_rule(&a.findings, RuleId::ErrorHandling).iter().map(|f| f.issue).collect();
    assert_eq!(issues, vec![Issue::DiscardedResult, Issue::Unwrap, Issue::PanicCall]);
}

#[test]
fn long_parameter_lists_are_flagged() {
    let src = "fn many(a: i32, b: i32, c: i32, d: i32, e: i32) -> i32 {\n    a\n}\nfn few(a: i32, b: std::string::String) -> i32 {\n    a\n}\n";
    let a = run(src, &Config::standard());
    let params: Vec<Finding> = a.findings.iter().filter(|f| f.issue == Issue::TooManyParameters).cloned().collect();
    assert_eq!(params.len(), 1);
    assert_eq!(params[0].span, span_of(src, "many"));
}

#[test]
fn complexity_counts_decisions() {
    let mut body = String::new();
    for i in 0..10 {
        body.push_str(&format!("    if x == {} {{ return {}; }}\n", i, i));
    }
    let src = format!("fn branchy(x: i32) -> i32 {{\n{}    x\n}}\n", body);
    let a = run(&src, &Config::standard());
    let high: Vec<Finding> = a.findings.iter().filter(|f| f.issue == Issue::HighComplexity).cloned().collect();
    assert_eq!(high.len(), 1);
    assert_eq!(high[0].span, span_of(&src, "fn"));
}

#[test]
fn unterminated_string_is_a_parse_error() {
    match analyze("fn f() { \"abc".as_bytes(), &Config::standard()) {
        Err(AnalysisError::Parse(e)) => assert_eq!(e.issue, ParseIssue::Unterminated),
        _ => panic!("expected a parse error"),
    }
}

#[test]
fn stray_brace_is_a_parse_error() {
    match analyze("fn f() {}\n}".as_bytes(), &Config::standard()) {
        Err(AnalysisError::Parse(e)) => assert_eq!(e.issue, ParseIssue::UnexpectedClose),
        _ => panic!("expected a parse error"),
    }
}

#[test]
fn unclosed_body_is_a_parse_error() {
    match analyze("fn f() {".as_bytes(), &Config::standard()) {
        Err(AnalysisError::Parse(e)) => assert_eq!(e.issue, ParseIssue::Unclosed),
        _ => panic!("expected a parse error"),
    }
}

#[test]
fn bad_configuration_is_refused() {
    let mut cfg = Config::standard();
    cfg.max_nesting = 0;
    match analyze("fn f() {}".as_bytes(), &cfg) {
        Err(AnalysisError::Config(e)) => assert_eq!(e, ConfigError::ZeroThreshold),
        _ => panic!("expected a configuration error"),
    }
    let mut cfg2 = Config::standard();
    cfg2.allowed_numbers.push(Vec::new());
    match analyze("fn f() {}".as_bytes(), &cfg2) {
        Err(AnalysisError::Config(e)) => assert_eq!(e, ConfigError::EmptyAllowedNumber),
        _ => panic!("expected a configuration error"),
    }
}

#[test]
fn clean_input_has_no_findings() {
    let src = "/// Adds.\npub fn add(a: i32, b: i32) -> i32 {\n    a + b\n}\n";
    let a = run(src, &Config::standard());
    assert!(a.findings.is_empty());
}

#[test]
fn line_and_column_of_an_offset() {
    let src = "ab\ncde\n\nf";
    assert_eq!(line_col(src.as_bytes(), 0), (1, 1));
    assert_eq!(line_col(src.as_bytes(), 4), (2, 2));
    assert_eq!(line_col(src.as_bytes(), 8), (4, 1));
}

#[test]
fn summary_counts_severities() {
    let src = "fn f(x: Option<i32>) -> i32 {\n    let y = x.unwrap();\n    panic!(\"no\");\n    y * 7\n}\n";
    let a = run(src, &Config::standard());
    let s = Summary::of(&a.findings);
    assert_eq!(s.info, 1);
    assert_eq!(s.warning, 1);
    assert_eq!(s.error, 1);
    assert!(s.has_errors());
}

#[test]
fn near_duplicates_are_linked_to_the_earlier_function() {
    let src = "fn a(x: i32) -> i32 {\n    let y = x * 2;\n    let z = y + 1;\n    if z > 10 { z } else { y }\n}\n\nfn b(x: i32) -> i32 {\n    let y = x * 2;\n    let z = y - 1;\n    if z > 10 { z } else { y }\n}\n";
    let a = run(src, &Config::standard());
    let dups = of_rule(&a.findings, RuleId::Duplication);
    assert_eq!(dups.len(), 1);
    assert_eq!(dups[0].issue, Issue::NearDuplicate);
    assert_eq!(dups[0].span.start, src.find("fn b").unwrap());
    assert_eq!(a.nodes[dups[0].group.unwrap()].span.start, 0);
    let mut strict = Config::standard();
    strict.similarity_percent = 100;
    assert!(of_rule(&run(src, &strict).findings, RuleId::Duplication).is_empty());
}

#[test]
fn similarity_must_be_a_percentage() {
    let mut cfg = Config::standard();
    cfg.similarity_percent = 101;
    match analyze("fn f() {}".as_bytes(), &cfg) {
        Err(AnalysisError::Config(e)) => assert_eq!(e, ConfigError::BadSimilarity),
        _ => panic!("expected a configuration error"),
    }
}

#[test]
fn parameters_follow_the_variable_convention() {
    let src = "fn helper(InputData: &str, retry_count: u32, map: std::collections::HashMap<u8, u8>) {}\n";
    let a = run(src, &Config::standard());
    let naming = of_rule(&a.findings, RuleId::Naming);
    assert_eq!(naming.len(), 1);
    assert_eq!(naming[0].span, span_of(src, "InputData"));
}

const REALISTIC: &str = r#"
use std::collections::HashMap;
use std::fmt;

/// A profile.
#[derive(Debug, Clone)]
pub struct UserProfile {
    /// Identifier.
    id: u64,
    name: String,
}

/// Processing.
pub trait DataProcessor {
    /// Process data.
    fn process(&self, data: &str) -> Result<String, String>;
}

impl fmt::Display for UserProfile {
    fn fmt(&self, f: &mut fmt::Formatter) -> fmt::Result {
        write!(f, "{}", self.name)
    }
}

/// Constant.
const MAX_RETRY_COUNT: u32 = 3;

/// Generic.
pub fn generic_function<T: Clone>(value: &T) -> T {
    value.clone()
}

fn raw(p: *const i32) -> i32 {
    let x: [u8; 4] = [0; 4];
    let f: fn(i32) -> i32 = |a| a + 1;
    unsafe { *p }
}

pub fn first_word(s: &str) -> &str {
    let bytes = s.as_bytes();
    for (i, &item) in bytes.iter().enumerate() {
        if item == b' ' {
            return &s[0..i];
        }
    }
    s
}

#[cfg(test)]
mod tests {
    use super::*;

    #[test]
    fn test_user_profile_creation() {
        let user = UserProfile { id: 1, name: "Alice".to_string() };
        assert_eq!(user.id, 1);
        panic!("allowed in tests");
    }
}
"#;

#[test]
fn realistic_source_is_analysed() {
    let a = run(REALISTIC, &Config::standard());
    assert!(!a.nodes.is_empty());
    let panics: Vec<Finding> = a.findings.iter().filter(|f| f.issue == Issue::PanicCall).cloned().collect();
    assert!(panics.is_empty());
    let docs = of_rule(&a.findings, RuleId::MissingDocs);
    assert_eq!(docs.len(), 1);
    assert_eq!(docs[0].span, span_of(REALISTIC, "first_word"));
    let unsafe_findings = of_rule(&a.findings, RuleId::UnsafeUsage);
    assert_eq!(unsafe_findings.len(), 1);
    for f in &a.findings {
        assert!(f.span.end <= REALISTIC.len());
    }
}

#[test]
fn directive_markers_are_configurable() {
    let src = "fn f() {\n    // nolint(magic-number)\n    let a = 77;\n    // lint:allow(magic-number)\n    let b = 88;\n}\n";
    let mut cfg = Config::standard();
    cfg.directive_markers = vec![b"nolint".to_vec()];
    let a = run(src, &cfg);
    let magic = of_rule(&a.findings, RuleId::MagicNumber);
    assert_eq!(magic.len(), 1);
    assert_eq!(magic[0].span, span_of(src, "88"));
    cfg.directive_markers.push(Vec::new());
    match analyze(src.as_bytes(), &cfg) {
        Err(AnalysisError::Config(e)) => assert_eq!(e, ConfigError::EmptyMarker),
        _ => panic!("expected a configuration error"),
    }
}

#[test]
fn broken_code_inside_comments_still_parses() {
    let src = "mod feature {\n    /*\n    fn broken_function() {\n        let x = 10\n        return x + y\n    \n    */\n    pub fn feature_stub() {}\n}\n// fn half( {\n";
    let a = run(src, &Config::standard());
    assert!(a.nodes.len() >= 3);
    assert!(of_rule(&a.findings, RuleId::CommentedCode).len() >= 1);
}

#[test]
fn siblings_are_ordered_and_disjoint() {
    let src = "pub struct A { pub x: i32, y: u8 }\nfn f() { if true { 1; } else { 2; } loop { break; } }\nconst C: u8 = 3;\n";
    let a = run(src, &Config::standard());
    for (i, n) in a.nodes.iter().enumerate().skip(1) {
        for m in a.nodes.iter().skip(i + 1) {
            if m.parent == n.parent {
                assert!(n.span.end <= m.span.start);
            }
        }
    }
}

#[test]
fn documented_and_private_items_are_not_flagged() {
    let src = "// A plain comment.\npub fn undocumented_function(x: i32) -> i32 {\n    x * 2\n}\n\n/// This function is properly documented\n///\n/// # Returns\npub fn documented_function(x: i32) -> i32 {\n    x * 2\n}\n\nfn private_function() {}\n";
    let a = run(src, &Config::standard());
    let docs = of_rule(&a.findings, RuleId::MissingDocs);
    assert_eq!(docs.len(), 1);
    assert_eq!(docs[0].span, span_of(src, "undocumented_function"));
}

#[test]
fn duplicated_methods_form_one_group_with_the_later_flagged() {
    let body = "(&self) -> bool {\n        !self.name.is_empty() &&\n        self.name.len() >= 2 &&\n        self.name.len() <= 50\n    }";
    let src = format!("struct User {{ name: String }}\nimpl User {{\n    fn validate_name{}\n}}\nstruct Employee {{ name: String }}\nimpl Employee {{\n    fn validate_name{}\n}}\n", body, body);
    let a = run(&src, &Config::standard());
    let dups = of_rule(&a.findings, RuleId::Duplication);
    assert_eq!(dups.len(), 1);
    let second = src.rfind("fn validate_name").unwrap();
    assert_eq!(dups[0].span.start, second);
    let first = src.find("fn validate_name").unwrap();
    assert_eq!(a.nodes[dups[0].group.unwrap()].span.start, first);
}
