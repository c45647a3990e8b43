use purview::gotodef::{
    build_prompt, claude_args, find_definition, grep_args, is_safe_symbol, parse_choice,
    parse_grep_output, pick_candidate, Candidate, Resolution, MAX_CANDIDATES, MAX_TEXT,
};

const PROGRAM: &str = "agent";
const MODEL: &str = "agent-haiku-4-5-20251001";

#[test]
fn parse_choice_extracts_first_int() {
    assert_eq!(parse_choice("3"), Some(3));
    assert_eq!(parse_choice("  3\n"), Some(3));
    assert_eq!(parse_choice("The answer is 12."), Some(12));
    assert_eq!(parse_choice("0"), Some(0));
    assert_eq!(parse_choice("none"), None);
}

#[test]
fn claude_args_are_stable() {
    // Both backends invoke the agent with exactly these args (+ the prompt),
    // so local and remote resolution are identical. Lock the shape.
    assert_eq!(claude_args(PROGRAM), ["-p", "--model", MODEL]);
    assert_eq!(claude_args("/usr/local/bin/agent"), ["-p", "--model", MODEL]);
}

#[test]
fn pick_candidate_maps_reply_to_candidate() {
    let cands = vec![
        Candidate { file: "a.rs".into(), line: 1, text: "fn foo".into() },
        Candidate { file: "b.rs".into(), line: 9, text: "foo()".into() },
    ];
    // 1-based index; "0" and out-of-range / junk → None.
    assert_eq!(pick_candidate("1", &cands), Some(cands[0].clone()));
    assert_eq!(pick_candidate("2\n", &cands), Some(cands[1].clone()));
    assert_eq!(pick_candidate("0", &cands), None);
    assert_eq!(pick_candidate("9", &cands), None);
    assert_eq!(pick_candidate("none", &cands), None);
}

#[test]
fn grep_rejects_non_identifier_symbols() {
    // Shouldn't shell out for junk.
    assert!(grep_args("foo; rm -rf").is_none());
    assert!(grep_args("").is_none());
}

#[test]
fn grep_searches_whole_words_in_untracked_files_too() {
    assert_eq!(
        grep_args("Foo::bar").unwrap(),
        ["grep", "-n", "-w", "--untracked", "--", "Foo::bar"]
    );
}

#[test]
fn prompt_numbers_candidates() {
    let cands = vec![
        Candidate { file: "a.rs".into(), line: 1, text: "fn foo".into() },
        Candidate { file: "b.rs".into(), line: 9, text: "foo()".into() },
    ];
    let p = build_prompt("foo", Some("a.rs:5"), &cands);
    assert!(p.contains("1. a.rs:1: fn foo"));
    assert!(p.contains("2. b.rs:9: foo()"));
    assert!(p.contains("`foo`"));
}

#[test]
fn prompt_is_exactly_this() {
    let cands = vec![Candidate { file: "a.rs".into(), line: 1, text: "fn foo".into() }];
    let head = "You are locating where the symbol `foo` is DEFINED or DECLARED (not merely \
                used) in a codebase.\n";
    let tail = "\nCandidate locations (file:line: code):\nReply with ONLY the number of the \
                candidate that is the definition/declaration. If none is a definition, reply 0. \
                No other text.\n\n1. a.rs:1: fn foo\n";
    assert_eq!(build_prompt("foo", None, &cands), format!("{head}{tail}"));
    assert_eq!(
        build_prompt("foo", Some("x.rs:5"), &cands),
        format!("{head}It is used here: x.rs:5\n{tail}")
    );
}

#[test]
fn parse_grep_output_into_candidates() {
    // The exact text shape `git grep -n` prints (path:line:code), as the
    // remote (SSH) backend pipes it back for parsing.
    let raw = "src/repo.rs:30:pub trait RepoSource {\n\
               src/repo.rs:121:impl RepoSource for LocalRepo {\n\
               src/main.rs:18:use purview::repo::{self, RepoSource};\n";
    let cands = parse_grep_output(raw);
    assert_eq!(cands.len(), 3);
    assert_eq!(cands[0].file, "src/repo.rs");
    assert_eq!(cands[0].line, 30);
    assert_eq!(cands[0].text, "pub trait RepoSource {");
    assert_eq!(cands[1].line, 121);
    assert_eq!(cands[2].file, "src/main.rs");
}

#[test]
fn parse_grep_output_skips_malformed_and_keeps_colons_in_code() {
    // A line with no line-number column is skipped; colons inside the code
    // column survive (splitn(3) stops after the first two separators).
    let raw = "garbage-no-columns\n\
               a.rs:7:let x: HashMap<K, V> = map;\n";
    let cands = parse_grep_output(raw);
    assert_eq!(cands.len(), 1);
    assert_eq!(cands[0].file, "a.rs");
    assert_eq!(cands[0].line, 7);
    assert_eq!(cands[0].text, "let x: HashMap<K, V> = map;");
}

#[test]
fn candidates_are_capped_in_number_and_length() {
    let long = "y".repeat(500);
    let raw: String = (1..200).map(|i| format!("a.rs:{i}:  x{long}\n")).collect();
    let cands = parse_grep_output(&raw);
    assert_eq!(cands.len(), MAX_CANDIDATES);
    assert_eq!(cands[0].text.chars().count(), MAX_TEXT);
    assert!(cands[0].text.starts_with("xy"), "the code is trimmed first");
}

#[test]
fn safe_symbol_guard() {
    assert!(is_safe_symbol("OrderValidator"));
    assert!(is_safe_symbol("Foo::bar"));
    assert!(is_safe_symbol("~Dtor"));
    assert!(!is_safe_symbol(""));
    assert!(!is_safe_symbol("foo; rm -rf"));
    assert!(!is_safe_symbol("a b"));
}

#[test]
fn letters_of_any_script_are_safe() {
    assert!(is_safe_symbol("größe"));
    assert!(!is_safe_symbol("größe!"));
}

#[test]
fn one_candidate_needs_no_model_and_several_do() {
    let a = Candidate { file: "a.rs".into(), line: 1, text: "fn foo".into() };
    let b = Candidate { file: "b.rs".into(), line: 9, text: "foo()".into() };
    assert!(matches!(find_definition("foo", None, &[]), Resolution::Nothing));
    match find_definition("foo", None, &[a.clone()]) {
        Resolution::Only(c) => assert_eq!(c, a),
        other => panic!("{other:?}"),
    }
    match find_definition("foo", None, &[a.clone(), b.clone()]) {
        Resolution::Ask(p) => assert_eq!(p, build_prompt("foo", None, &[a, b])),
        other => panic!("{other:?}"),
    }
}

#[test]
fn the_number_of_a_candidate_chooses_it() {
    let cands: Vec<Candidate> = (0..12)
        .map(|i| Candidate { file: format!("f{i}.rs"), line: i, text: String::new() })
        .collect();
    for (i, c) in cands.iter().enumerate() {
        assert_eq!(pick_candidate(&format!("{}", i + 1), &cands).as_ref(), Some(c));
    }
}
