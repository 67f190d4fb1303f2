use fortitude::cli::{read_selectors, resolve_bool_arg, CheckArgs, GlobalConfigArgs, LogLevel, LogLevelArgs};
use fortitude::engine::{check_source, default_registry, Diagnostic, RuleKind};
use fortitude::fix::{apply_edits, apply_fixes, fix_applies, Applicability, Edit, Fix, FixError};
use fortitude::selector::{
    RegisteredRule, Registry, RuleSelector, Selection, SelectorError, SelectorList,
};
use fortitude::source_file::SourceFile;
use fortitude::violation::Violation;

fn registry(codes: &[(&str, bool)]) -> Registry {
    Registry {
        rules: codes
            .iter()
            .map(|(c, p)| RegisteredRule { code: c.to_string(), preview: *p })
            .collect(),
    }
}

fn selection(select: Option<Vec<RuleSelector>>) -> Selection {
    Selection {
        select,
        extend_select: vec![],
        ignore: vec![],
        extend_ignore: vec![],
        file_ignore: vec![],
    }
}

fn code(c: &str) -> RuleSelector {
    RuleSelector::Code(c.to_string())
}

fn prefix(c: &str) -> RuleSelector {
    RuleSelector::Prefix(c.to_string())
}

#[test]
fn select_extend_ignore_precedence() {
    let reg = registry(&[("E001", false), ("E002", false), ("F010", false)]);
    let mut s = selection(Some(vec![code("E001")]));
    s.extend_select = vec![code("F010")];
    s.ignore = vec![code("E001")];
    assert_eq!(reg.resolve(&s, false), Ok(vec![2]));
}

#[test]
fn prefix_selector_expands() {
    let reg = registry(&[("E001", false), ("E002", false), ("F010", false)]);
    let s = selection(Some(vec![prefix("E")]));
    assert_eq!(reg.resolve(&s, false), Ok(vec![0, 1]));
}

#[test]
fn all_selector_skips_preview_rules() {
    let reg = registry(&[("E001", false), ("E002", true), ("F010", false)]);
    let s = selection(Some(vec![RuleSelector::All]));
    assert_eq!(reg.resolve(&s, false), Ok(vec![0, 2]));
    assert_eq!(reg.resolve(&s, true), Ok(vec![0, 1, 2]));
}

#[test]
fn default_set_is_stable_rules() {
    let reg = registry(&[("E001", false), ("E002", true)]);
    assert_eq!(reg.resolve(&selection(None), false), Ok(vec![0]));
    assert_eq!(reg.resolve(&selection(None), true), Ok(vec![0, 1]));
}

#[test]
fn ignore_lists_and_file_ignores_remove() {
    let reg = registry(&[("E001", false), ("E002", false), ("F010", false)]);
    let mut s = selection(None);
    s.extend_ignore = vec![code("E002")];
    s.file_ignore = vec![prefix("F")];
    assert_eq!(reg.resolve(&s, false), Ok(vec![0]));
}

#[test]
fn unmatched_selector_is_an_error() {
    let reg = registry(&[("E001", false), ("F010", false)]);
    let mut s = selection(None);
    s.ignore = vec![code("E001"), prefix("X")];
    assert_eq!(
        reg.resolve(&s, false),
        Err(SelectorError::Unmatched(SelectorList::Ignore, 1))
    );
    let s = selection(Some(vec![code("E00")]));
    assert_eq!(
        reg.resolve(&s, false),
        Err(SelectorError::Unmatched(SelectorList::Select, 0))
    );
}

#[test]
fn default_registry_codes() {
    let reg = default_registry();
    let codes: Vec<String> = reg.rules.iter().map(|r| r.code.clone()).collect();
    assert_eq!(codes, vec!["M001", "T001", "T002", "T003"]);
    let s = selection(Some(vec![prefix("T")]));
    assert_eq!(reg.resolve(&s, false), Ok(vec![1, 2, 3]));
    assert_eq!(RuleKind::from_index(2), Some(RuleKind::InterfaceImplicitTyping));
    assert_eq!(RuleKind::from_index(4), None);
}

const PROGRAM: &str = "
integer function double(x)
  double = 2 * x
end function

module m
contains
  subroutine s()
    implicit none
  end subroutine
end module
";

fn all_rules() -> Vec<RuleKind> {
    vec![
        RuleKind::SuperfluousImplicitNone,
        RuleKind::ImplicitTyping,
        RuleKind::ExternalFunction,
        RuleKind::InterfaceImplicitTyping,
        RuleKind::ExternalFunction,
    ]
}

#[test]
fn engine_sorts_and_deduplicates() {
    let src = SourceFile::new("p.f90".to_string(), PROGRAM.to_string());
    let found = check_source(&all_rules(), &src).unwrap();
    let expected = vec![
        Diagnostic {
            rule: RuleKind::ExternalFunction,
            violation: Violation::new(
                "function not contained within (sub)module or program".to_string(),
                2,
                1,
            ),
        },
        Diagnostic {
            rule: RuleKind::ImplicitTyping,
            violation: Violation::new("module missing 'implicit none'".to_string(), 6, 1),
        },
    ];
    assert_eq!(found, expected);
}

#[test]
fn engine_is_deterministic() {
    let src = SourceFile::new("p.f90".to_string(), PROGRAM.to_string());
    let a = check_source(&all_rules(), &src).unwrap();
    let b = check_source(&all_rules(), &src).unwrap();
    assert_eq!(a, b);
}

#[test]
fn line_index_round_trip() {
    let src = SourceFile::new("f".to_string(), "ab\ncd\r\nef\rg".to_string());
    assert_eq!(src.line_count(), 4);
    assert_eq!(src.line_col(0), (1, 1));
    assert_eq!(src.line_col(2), (1, 3));
    assert_eq!(src.line_col(3), (2, 1));
    assert_eq!(src.line_col(7), (3, 1));
    assert_eq!(src.line_col(10), (4, 1));
    for o in 0..=11 {
        let (l, c) = src.line_col(o);
        assert_eq!(src.offset(l, c), o);
    }
}

#[test]
fn empty_source_has_one_line() {
    let src = SourceFile::new("f".to_string(), String::new());
    assert_eq!(src.line_count(), 1);
    assert_eq!(src.line_col(0), (1, 1));
}

#[test]
fn edits_apply_in_one_pass() {
    let text = b"integer x".to_vec();
    let edits = vec![
        Edit { start: 8, end: 9, content: b"y".to_vec() },
        Edit { start: 0, end: 0, content: b"  ".to_vec() },
    ];
    assert_eq!(apply_edits(&text, &edits), Ok(b"  integer y".to_vec()));
    let at_end = vec![Edit { start: 9, end: 9, content: b"!".to_vec() }];
    assert_eq!(apply_edits(&text, &at_end), Ok(b"integer x!".to_vec()));
    assert_eq!(apply_edits(&text, &vec![]), Ok(text.clone()));
}

#[test]
fn overlapping_edits_are_rejected() {
    let text = b"integer x".to_vec();
    let edits = vec![
        Edit { start: 0, end: 5, content: vec![] },
        Edit { start: 4, end: 6, content: vec![] },
    ];
    assert_eq!(apply_edits(&text, &edits), Err(FixError::Overlap));
    let same_start = vec![
        Edit { start: 2, end: 2, content: b"a".to_vec() },
        Edit { start: 2, end: 2, content: b"b".to_vec() },
    ];
    assert_eq!(apply_edits(&text, &same_start), Err(FixError::Overlap));
    let past_end = vec![Edit { start: 3, end: 10, content: vec![] }];
    assert_eq!(apply_edits(&text, &past_end), Err(FixError::OutOfRange));
}

#[test]
fn unsafe_fixes_need_opt_in() {
    let safe = Fix { edits: vec![], applicability: Applicability::Safe };
    let risky = Fix { edits: vec![], applicability: Applicability::Unsafe };
    assert!(fix_applies(&safe, false));
    assert!(!fix_applies(&risky, false));
    assert!(fix_applies(&risky, true));
}

#[test]
fn log_level_precedence() {
    let args = LogLevelArgs { verbose: true, quiet: true, silent: false };
    assert_eq!(LogLevel::from(&args), LogLevel::Quiet);
    let global = GlobalConfigArgs { log_level_args: args, config_file: None };
    assert_eq!(global.log_level(), LogLevel::Quiet);
    assert_eq!(LogLevel::from(&LogLevelArgs::default()), LogLevel::Default);
    let silent = LogLevelArgs { verbose: true, quiet: true, silent: true };
    assert_eq!(LogLevel::from(&silent), LogLevel::Silent);
    let verbose = LogLevelArgs { verbose: true, quiet: false, silent: false };
    assert_eq!(LogLevel::from(&verbose), LogLevel::Verbose);
}

#[test]
fn paired_flags() {
    assert_eq!(resolve_bool_arg(Some(true), None), Some(true));
    assert_eq!(resolve_bool_arg(None, Some(true)), Some(false));
    assert_eq!(resolve_bool_arg(Some(false), Some(false)), None);
}

#[test]
fn selector_tokens() {
    let reg = registry(&[("E001", false), ("F010", false)]);
    assert_eq!(reg.parse_selector("ALL"), RuleSelector::All);
    assert_eq!(reg.parse_selector("E001"), code("E001"));
    assert_eq!(reg.parse_selector("E0"), prefix("E0"));
}

#[test]
fn only_permitted_fixes_are_applied() {
    let text = b"real x".to_vec();
    let fixes = || {
        vec![
            Fix {
                edits: vec![Edit { start: 0, end: 4, content: b"integer".to_vec() }],
                applicability: Applicability::Unsafe,
            },
            Fix {
                edits: vec![Edit { start: 5, end: 6, content: b"y".to_vec() }],
                applicability: Applicability::Safe,
            },
        ]
    };
    assert_eq!(apply_fixes(&text, fixes(), false), Ok((b"real y".to_vec(), 1)));
    assert_eq!(apply_fixes(&text, fixes(), true), Ok((b"integer y".to_vec(), 2)));
    let clash = vec![
        Fix {
            edits: vec![Edit { start: 0, end: 4, content: vec![] }],
            applicability: Applicability::Safe,
        },
        Fix {
            edits: vec![Edit { start: 2, end: 6, content: vec![] }],
            applicability: Applicability::Safe,
        },
    ];
    assert_eq!(apply_fixes(&text, clash, false), Err(FixError::Overlap));
}

fn check_args() -> CheckArgs {
    CheckArgs {
        files: None,
        fix: None,
        no_fix: None,
        unsafe_fixes: None,
        no_unsafe_fixes: None,
        show_fixes: None,
        no_show_fixes: None,
        fix_only: None,
        no_fix_only: None,
        output_format: None,
        preview: None,
        no_preview: None,
        progress_bar: None,
        ignore: None,
        select: None,
        extend_select: None,
        per_file_ignores: None,
        extend_per_file_ignores: None,
        file_extensions: None,
        exclude: None,
        extend_exclude: None,
        force_exclude: None,
        no_force_exclude: None,
        line_length: None,
    }
}

#[test]
fn check_args_give_selection() {
    let reg = default_registry();
    let mut args = check_args();
    args.select = Some(vec!["T".to_string()]);
    args.extend_select = Some(vec!["M001".to_string()]);
    args.ignore = Some(vec!["T001".to_string(), "ALL".to_string()]);
    let s = args.selection(&reg);
    assert_eq!(s.select, Some(vec![prefix("T")]));
    assert_eq!(s.extend_select, vec![code("M001")]);
    assert_eq!(s.ignore, vec![code("T001"), RuleSelector::All]);
    assert!(s.extend_ignore.is_empty() && s.file_ignore.is_empty());
    assert_eq!(read_selectors(&reg, &None), vec![]);
    args.ignore = Some(vec!["T001".to_string()]);
    assert_eq!(reg.resolve(&args.selection(&reg), false), Ok(vec![0, 2, 3]));
}

#[test]
fn preview_flag_pair() {
    let mut args = check_args();
    assert!(!args.preview_mode());
    args.preview = Some(true);
    assert!(args.preview_mode());
    args.preview = None;
    args.no_preview = Some(true);
    assert!(!args.preview_mode());
}
