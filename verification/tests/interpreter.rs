use sbsh::aliases::AliasTable;
use sbsh::dispatch::{clr, Effect};
use sbsh::expr::{extract_assignment, parse_expression, MatchPlan};
use sbsh::interp::handle_builtin;
use sbsh::numbers::{is_numeric_literal, parse_i32, u32_to_string};
use sbsh::process::{classify_wait, wait_diagnostic};
use sbsh::resolver::{resolve, Resolution};
use sbsh::vars::VarStore;

fn command_tokens(r: Resolution) -> Vec<String> {
    match r {
        Resolution::Command(toks) => toks,
        _ => panic!("expected a resolved command"),
    }
}

fn eval_plan(vars: &mut VarStore, plan: &MatchPlan) {
    let left: f64 = plan.left.parse().expect("left operand must be numeric");
    let right: f64 = plan.right.parse().expect("right operand must be numeric");
    let result = match plan.op {
        '+' => left + right,
        '-' => left - right,
        '*' => left * right,
        '/' => left / right,
        '^' => left.powf(right),
        other => panic!("unexpected operator {}", other),
    };
    vars.set(plan.name.as_str(), result.to_string().as_str());
}

fn run_line(line: &str, aliases: &AliasTable, vars: &mut VarStore) -> Vec<Effect> {
    let effects = handle_builtin(line, aliases, vars);
    let mut out = Vec::new();
    for e in effects {
        match e {
            Effect::Eval(plan) => eval_plan(vars, &plan),
            other => out.push(other),
        }
    }
    out
}

#[test]
fn alias_cycle_reports_too_deep() {
    let mut aliases = AliasTable::new();
    aliases.add("a", "b");
    aliases.add("b", "a");
    assert!(matches!(resolve(&aliases, "a"), Resolution::TooDeep));
    assert!(matches!(resolve(&aliases, "a x y"), Resolution::TooDeep));
}

#[test]
fn self_alias_reports_too_deep() {
    let mut aliases = AliasTable::new();
    aliases.add("loop", "loop again");
    assert!(matches!(resolve(&aliases, "loop"), Resolution::TooDeep));
}

#[test]
fn alias_substitution_keeps_trailing_arguments() {
    let mut aliases = AliasTable::new();
    aliases.add("ll", "ls -la");
    let direct = command_tokens(resolve(&aliases, "ls -la /tmp"));
    let through_alias = command_tokens(resolve(&aliases, "ll /tmp"));
    assert_eq!(through_alias, direct);
    assert_eq!(through_alias, vec!["ls", "-la", "/tmp"]);
}

#[test]
fn resolver_honours_quoting() {
    let aliases = AliasTable::new();
    let toks = command_tokens(resolve(&aliases, "echo \"a b\" c"));
    assert_eq!(toks, vec!["echo", "a b", "c"]);
}

#[test]
fn resolver_reports_unbalanced_quote() {
    let aliases = AliasTable::new();
    assert!(matches!(resolve(&aliases, "echo \"unclosed"), Resolution::ParseError));
}

#[test]
fn resolver_treats_blank_lines_as_no_op() {
    let aliases = AliasTable::new();
    assert!(matches!(resolve(&aliases, ""), Resolution::NoOp));
    assert!(matches!(resolve(&aliases, "   "), Resolution::NoOp));
}

#[test]
fn alias_table_operations() {
    let mut aliases = AliasTable::new();
    aliases.add("ll", "ls -la");
    aliases.add("gs", "git status");
    assert_eq!(aliases.get("ll").unwrap(), "ls -la");
    aliases.add("ll", "ls -l");
    assert_eq!(aliases.get("ll").unwrap(), "ls -l");
    let mut names: Vec<String> = aliases.list().into_iter().map(|p| p.0).collect();
    names.sort();
    assert_eq!(names, vec!["gs", "ll"]);
    aliases.remove("ll");
    assert!(aliases.get("ll").is_none());
    aliases.remove("never-was-there");
    aliases.clear();
    assert!(aliases.list().is_empty());
}

#[test]
fn expression_evaluation_is_deterministic() {
    let aliases = AliasTable::new();
    let mut vars = VarStore::new();
    let effects = run_line("var match x = 2 + 3", &aliases, &mut vars);
    assert!(effects.is_empty());
    assert_eq!(vars.get("x").unwrap(), "5");
    let effects = run_line("var match y = x * 2", &aliases, &mut vars);
    assert!(effects.is_empty());
    assert_eq!(vars.get("y").unwrap(), "10");
}

#[test]
fn division_by_zero_yields_infinity() {
    let aliases = AliasTable::new();
    let mut vars = VarStore::new();
    let effects = run_line("var match z = 1 / 0", &aliases, &mut vars);
    assert!(effects.is_empty());
    assert_eq!(vars.get("z").unwrap(), "inf");
}

#[test]
fn power_operator_works() {
    let aliases = AliasTable::new();
    let mut vars = VarStore::new();
    run_line("var match p = 2 ^ 10", &aliases, &mut vars);
    assert_eq!(vars.get("p").unwrap(), "1024");
}

#[test]
fn var_listing_round_trips() {
    let aliases = AliasTable::new();
    let mut vars = VarStore::new();
    assert!(run_line("var A=1", &aliases, &mut vars).is_empty());
    assert!(run_line("var B=2", &aliases, &mut vars).is_empty());
    let effects = run_line("var", &aliases, &mut vars);
    let mut lines: Vec<String> = effects
        .into_iter()
        .map(|e| match e {
            Effect::Out(line) => line,
            other => panic!("unexpected effect {:?}", variant_name(&other)),
        })
        .collect();
    lines.sort();
    assert_eq!(lines, vec!["A=1", "B=2"]);
}

fn variant_name(e: &Effect) -> &'static str {
    match e {
        Effect::Out(_) => "Out",
        Effect::Warn(_) => "Warn",
        Effect::ChangeDir(_) => "ChangeDir",
        Effect::Exit(_) => "Exit",
        Effect::ClearScreen => "ClearScreen",
        Effect::Run(_) => "Run",
        Effect::Eval(_) => "Eval",
    }
}

#[test]
fn print_substitutes_variables() {
    let aliases = AliasTable::new();
    let mut vars = VarStore::new();
    vars.set("GREETING", "hi");
    let effects = run_line("print $GREETING world", &aliases, &mut vars);
    assert_eq!(effects.len(), 1);
    match &effects[0] {
        Effect::Out(line) => assert_eq!(line, "hi world"),
        _ => panic!("expected output"),
    }
}

#[test]
fn print_warns_on_unset_variable() {
    let aliases = AliasTable::new();
    let mut vars = VarStore::new();
    let effects = run_line("print $UNKNOWN", &aliases, &mut vars);
    assert_eq!(effects.len(), 2);
    match &effects[0] {
        Effect::Warn(msg) => assert_eq!(msg, "Varriable not searched!"),
        _ => panic!("expected a warning first"),
    }
    match &effects[1] {
        Effect::Out(line) => assert_eq!(line, ""),
        _ => panic!("expected an empty output line"),
    }
}

#[test]
fn print_stops_at_semicolon() {
    let aliases = AliasTable::new();
    let mut vars = VarStore::new();
    let effects = run_line("print a ; b", &aliases, &mut vars);
    assert_eq!(effects.len(), 1);
    match &effects[0] {
        Effect::Out(line) => assert_eq!(line, "a"),
        _ => panic!("expected output"),
    }
}

#[test]
fn print_without_arguments_prints_empty_line() {
    let aliases = AliasTable::new();
    let mut vars = VarStore::new();
    let effects = run_line("print", &aliases, &mut vars);
    assert_eq!(effects.len(), 1);
    match &effects[0] {
        Effect::Out(line) => assert_eq!(line, ""),
        _ => panic!("expected output"),
    }
}

#[test]
fn exit_codes_propagate() {
    let aliases = AliasTable::new();
    let mut vars = VarStore::new();
    let effects = run_line("exit 7", &aliases, &mut vars);
    assert!(matches!(effects[..], [Effect::Exit(7)]));
    let effects = run_line("exit", &aliases, &mut vars);
    assert!(matches!(effects[..], [Effect::Exit(0)]));
    let effects = run_line("exit banana", &aliases, &mut vars);
    assert!(matches!(effects[..], [Effect::Exit(0)]));
}

#[test]
fn unknown_commands_are_forwarded_verbatim() {
    let aliases = AliasTable::new();
    let mut vars = VarStore::new();
    let effects = run_line("frobnicate --level 3", &aliases, &mut vars);
    assert_eq!(effects.len(), 1);
    match &effects[0] {
        Effect::Run(argv) => assert_eq!(argv, &vec!["frobnicate", "--level", "3"]),
        _ => panic!("expected a spawn request"),
    }
}

#[test]
fn nonzero_child_exit_earns_one_diagnostic() {
    // A wait status whose low bits are zero reports a normal exit; the
    // code sits in the next byte.
    let status_for_3: i32 = 3 << 8;
    assert_eq!(
        wait_diagnostic(0, status_for_3).unwrap(),
        "the program terminated with code 3"
    );
    assert!(wait_diagnostic(0, 0).is_none());
    assert_eq!(wait_diagnostic(-1, 0).unwrap(), "waitpid error");
    let outcome = classify_wait(0, status_for_3).unwrap();
    assert!(outcome.exited_normally);
    assert_eq!(outcome.code, 3);
    assert!(classify_wait(-1, 0).is_none());
}

#[test]
fn alias_to_builtin_dispatches_through() {
    let mut aliases = AliasTable::new();
    aliases.add("greet", "print hello");
    let mut vars = VarStore::new();
    let effects = run_line("greet world", &aliases, &mut vars);
    assert_eq!(effects.len(), 1);
    match &effects[0] {
        Effect::Out(line) => assert_eq!(line, "hello world"),
        _ => panic!("expected output"),
    }
}

#[test]
fn cd_targets() {
    let aliases = AliasTable::new();
    let mut vars = VarStore::new();
    let effects = run_line("cd /tmp", &aliases, &mut vars);
    assert!(matches!(&effects[..], [Effect::ChangeDir(t)] if t == "/tmp"));
    let effects = run_line("cd", &aliases, &mut vars);
    assert!(matches!(&effects[..], [Effect::ChangeDir(t)] if t == "/"));
    vars.set("HOME", "/home/me");
    let effects = run_line("cd", &aliases, &mut vars);
    assert!(matches!(&effects[..], [Effect::ChangeDir(t)] if t == "/home/me"));
}

#[test]
fn clr_emits_clear_sequence() {
    let aliases = AliasTable::new();
    let mut vars = VarStore::new();
    let effects = run_line("clr", &aliases, &mut vars);
    assert!(matches!(effects[..], [Effect::ClearScreen]));
    assert_eq!(clr(), "\x1B[2J\x1B[H");
}

#[test]
fn var_assignment_forms() {
    let aliases = AliasTable::new();
    let mut vars = VarStore::new();
    assert!(run_line("var k=v", &aliases, &mut vars).is_empty());
    assert_eq!(vars.get("k").unwrap(), "v");
    assert!(run_line("var K = a b", &aliases, &mut vars).is_empty());
    assert_eq!(vars.get("K").unwrap(), "a b");
    assert!(run_line("var del K", &aliases, &mut vars).is_empty());
    assert!(vars.get("K").is_none());
    assert!(run_line("var del K", &aliases, &mut vars).is_empty());
    let effects = run_line("var nonsense", &aliases, &mut vars);
    assert!(matches!(&effects[..], [Effect::Warn(m)]
        if m == "var: unknown subcommand or invalid format. Use: var key=value, var del NAME, or var match ..."));
    let effects = run_line("var del", &aliases, &mut vars);
    assert!(matches!(&effects[..], [Effect::Warn(m)] if m == "var del: missing variable name"));
    let effects = run_line("var match", &aliases, &mut vars);
    assert!(matches!(&effects[..], [Effect::Warn(m)] if m == "var match: too few arguments"));
}

#[test]
fn var_match_error_reports() {
    let aliases = AliasTable::new();
    let mut vars = VarStore::new();
    let effects = run_line("var match x 2", &aliases, &mut vars);
    assert!(matches!(&effects[..], [Effect::Warn(m)]
        if m == "var match: expected 'variable = expression'"));
    let effects = run_line("var match x = 2 +", &aliases, &mut vars);
    assert!(matches!(&effects[..], [Effect::Warn(m)]
        if m == "var match: invalid expression: '2 +'"));
    let effects = run_line("var match x = q + 1", &aliases, &mut vars);
    assert!(matches!(&effects[..], [Effect::Warn(m)]
        if m == "Number Invalid: unknown variable 'q'"));
    vars.set("q", "hello");
    let effects = run_line("var match x = q + 1", &aliases, &mut vars);
    assert!(matches!(&effects[..], [Effect::Warn(m)]
        if m == "Number Invalid: variable 'q' contains non-numeric value"));
}

#[test]
fn var_match_stops_at_semicolon() {
    let aliases = AliasTable::new();
    let mut vars = VarStore::new();
    run_line("var match x = 4 - 1 ; trailing junk", &aliases, &mut vars);
    assert_eq!(vars.get("x").unwrap(), "3");
}

#[test]
fn extract_assignment_shapes() {
    let toks: Vec<String> = vec!["x".into(), "=".into(), "1".into(), "+".into(), "2".into()];
    let (name, expr) = extract_assignment(&toks).unwrap();
    assert_eq!(name, "x");
    assert_eq!(expr, vec!["1", "+", "2"]);

    let toks: Vec<String> = vec!["=".into(), "1".into()];
    assert!(extract_assignment(&toks).is_none());

    let toks: Vec<String> = vec!["x=1+2".into()];
    let (name, expr) = extract_assignment(&toks).unwrap();
    assert_eq!(name, "x");
    assert_eq!(expr, vec!["1+2"]);

    let toks: Vec<String> = vec!["a".into(), "b=1".into(), "2".into()];
    let (name, expr) = extract_assignment(&toks).unwrap();
    assert_eq!(name, "b");
    assert_eq!(expr, vec!["1", "2"]);

    let toks: Vec<String> = vec!["x=".into(), "3".into()];
    let (name, expr) = extract_assignment(&toks).unwrap();
    assert_eq!(name, "x");
    assert_eq!(expr, vec!["3"]);

    let toks: Vec<String> = vec!["just".into(), "words".into()];
    assert!(extract_assignment(&toks).is_none());

    let toks: Vec<String> = Vec::new();
    assert!(extract_assignment(&toks).is_none());
}

#[test]
fn parse_expression_shapes() {
    assert_eq!(parse_expression("2 + 3").unwrap(), ("2".to_string(), '+', "3".to_string()));
    assert_eq!(parse_expression("1+2").unwrap(), ("1".to_string(), '+', "2".to_string()));
    assert_eq!(parse_expression("-5 + 3").unwrap(), ("-5".to_string(), '+', "3".to_string()));
    assert_eq!(parse_expression(" 12 * 34 ").unwrap(), ("12".to_string(), '*', "34".to_string()));
    assert_eq!(parse_expression("a / b").unwrap(), ("a".to_string(), '/', "b".to_string()));
    assert_eq!(parse_expression("2 ^ 5").unwrap(), ("2".to_string(), '^', "5".to_string()));
    assert!(parse_expression("-5").is_none());
    assert!(parse_expression("").is_none());
    assert!(parse_expression("   ").is_none());
    assert!(parse_expression("5+").is_none());
    assert!(parse_expression("+5").is_none());
}

#[test]
fn numeric_literal_grammar() {
    for good in ["2", "2.5", ".5", "5.", "1e5", "2.5E-2", "inf", "Infinity", "NAN", "+3", "-2.5e+2"] {
        assert!(is_numeric_literal(good), "{} should be numeric", good);
        assert!(good.parse::<f64>().is_ok(), "{} should parse as f64", good);
    }
    for bad in ["", "+", "-", ".", "1.2.3", "1e", "1e+", "abc", "--1", "in", "0x10"] {
        assert!(!is_numeric_literal(bad), "{} should not be numeric", bad);
        assert!(bad.parse::<f64>().is_err(), "{} should not parse as f64", bad);
    }
}

#[test]
fn integer_parsing_matches_std() {
    for s in ["0", "42", "-7", "+13", "2147483647", "-2147483648", "2147483648", "-2147483649",
        "", "+", "12a", "99999999999999999999"] {
        assert_eq!(parse_i32(s), s.parse::<i32>().ok(), "mismatch on {:?}", s);
    }
}

#[test]
fn decimal_rendering() {
    assert_eq!(u32_to_string(0), "0");
    assert_eq!(u32_to_string(7), "7");
    assert_eq!(u32_to_string(250), "250");
    assert_eq!(u32_to_string(4294967295), "4294967295");
}

#[test]
fn variable_store_operations() {
    let mut vars = VarStore::new();
    assert!(vars.get("A").is_none());
    vars.set("A", "1");
    vars.set("B", "2");
    vars.set("A", "3");
    assert_eq!(vars.get("A").unwrap(), "3");
    let mut pairs: Vec<(String, String)> = vars.list();
    pairs.sort();
    assert_eq!(pairs, vec![
        ("A".to_string(), "3".to_string()),
        ("B".to_string(), "2".to_string()),
    ]);
    vars.delete("A");
    assert!(vars.get("A").is_none());
    vars.delete("A");
    assert_eq!(vars.list().len(), 1);
}

#[test]
fn alias_lookup_precedes_builtin_dispatch() {
    let mut aliases = AliasTable::new();
    aliases.add("print", "echo");
    let mut vars = VarStore::new();
    let effects = run_line("print hi", &aliases, &mut vars);
    assert_eq!(effects.len(), 1);
    match &effects[0] {
        Effect::Run(argv) => assert_eq!(argv, &vec!["echo", "hi"]),
        _ => panic!("expected the aliased command to be forwarded"),
    }
}

#[test]
fn embedded_assignment_with_spaced_tail() {
    let aliases = AliasTable::new();
    let mut vars = VarStore::new();
    run_line("var match t=8 / 2", &aliases, &mut vars);
    assert_eq!(vars.get("t").unwrap(), "4");
}
