use rski::{CombinatoryTerm, Config, LogEntry, Observer, Printer, Signal};

fn normal_form(input: &str) -> String {
    let mut term = CombinatoryTerm::<Printer>::new(input).unwrap();
    term.evaluate();
    term.to_text()
}

#[test]
fn test_s_rule_equivalence_instance() {
    // S x y z and x z (y z) reach the same normal form, here with x = K,
    // y = S, z = I.
    assert_eq!(normal_form("SKSI"), normal_form("KI(SI)"));
}

#[test]
fn test_k_discard_instance() {
    // K x y reaches the same normal form as x alone.
    assert_eq!(normal_form("KSK"), normal_form("S"));
    assert_eq!(normal_form("K(SK)I"), normal_form("SK"));
}

#[test]
fn test_i_identity_instance() {
    // I x reaches the same normal form as x alone.
    assert_eq!(normal_form("IS"), normal_form("S"));
    assert_eq!(normal_form("I(SKK)"), normal_form("SKK"));
}

#[test]
fn test_evaluate_is_idempotent() {
    let mut term = CombinatoryTerm::<Printer>::new("S(KSS)SK").unwrap();
    term.evaluate();
    let once = term.to_text();
    term.evaluate();
    let twice = term.to_text();
    assert_eq!(once, twice);
}

#[test]
fn test_parenthesis_transparency_instance() {
    assert_eq!(normal_form("SKSS"), normal_form("(SKSS)"));
    assert_eq!(normal_form("IK"), normal_form("(IK)"));
}

#[test]
fn test_round_trip_on_stuck_term() {
    // "S(KSS)SK" gets stuck at "SK(SK)"; rendering it and parsing the text
    // again gives a structurally identical term.
    let mut term = CombinatoryTerm::<Printer>::new("S(KSS)SK").unwrap();
    term.evaluate();
    let text = term.to_text();
    assert_eq!(text, "SK(SK)");
    let reparsed = CombinatoryTerm::<Printer>::new(&text).unwrap();
    assert_eq!(reparsed.to_text(), text);
}

#[test]
fn test_render_normalizes_case() {
    let term = CombinatoryTerm::<Printer>::new("s(ks)i").unwrap();
    assert_eq!(term.to_text(), "S(KS)I");
}

#[test]
fn test_unexpected_token_message() {
    let err = CombinatoryTerm::<Printer>::new("s(sk)abc").unwrap_err();
    assert_eq!(err, "Unexpected token: A");
}

#[test]
fn test_mismatched_messages() {
    let err = CombinatoryTerm::<Printer>::new("(((SKS").unwrap_err();
    assert_eq!(err, "Mismatched parentheses in expression");
    let err = CombinatoryTerm::<Printer>::new("((S)").unwrap_err();
    assert_eq!(err, "Mismatched parentheses in expression");
    let err = CombinatoryTerm::<Printer>::new(")S").unwrap_err();
    assert_eq!(err, "Mismatched parentheses in expression");
}

#[test]
fn test_empty_input_evaluates_to_empty() {
    let mut term = CombinatoryTerm::<Printer>::new("").unwrap();
    assert_eq!(term.to_text(), "");
    term.evaluate();
    assert_eq!(term.to_text(), "");
}

#[test]
fn test_empty_group_flattens_away() {
    let mut term = CombinatoryTerm::<Printer>::new("()").unwrap();
    assert_eq!(term.to_text(), "()");
    term.evaluate();
    assert_eq!(term.to_text(), "");
}

#[test]
fn test_stuck_head_still_reduces_arguments() {
    // The bare S at the head lacks arguments, but the nested group is
    // still driven to its own normal form.
    assert_eq!(normal_form("SK(ISS)"), "SK(SS)");
}

#[test]
fn test_printer_counts_steps_and_records_signals() {
    let mut term = CombinatoryTerm::<Printer>::new("SKSS").unwrap();
    term.attach(Printer::new());
    term.evaluate();
    let observers = term.observers();
    assert_eq!(observers.len(), 1);
    let printer = &observers[0];
    // SKSS -> KS(SS) -> S: one S step and one K step.
    assert_eq!(printer.num_steps(), 2);
    let entries: &Vec<LogEntry> = printer.entries();
    assert_eq!(entries.len(), 4);
    assert!(matches!(entries[0].signal, Signal::ComputationStart));
    assert_eq!(entries[0].term, "SKSS");
    assert!(matches!(entries[1].signal, Signal::ComputationStep));
    assert_eq!(entries[1].term, "KS(SS)");
    assert!(matches!(entries[2].signal, Signal::ComputationStep));
    assert_eq!(entries[2].term, "S");
    assert!(matches!(entries[3].signal, Signal::ComputationEnd));
    assert_eq!(entries[3].term, "S");
}

#[test]
fn test_observer_hears_steps_inside_groups() {
    let mut term = CombinatoryTerm::<Printer>::new("SK(IK)").unwrap();
    term.attach(Printer::new());
    term.evaluate();
    // The head is stuck, but the I step inside the group is still
    // reported through the session's channel.
    assert_eq!(term.observers()[0].num_steps(), 1);
    assert_eq!(term.to_text(), "SK(K)");
}

#[test]
fn test_normal_form_delivers_no_steps() {
    // "SK(SK)" is already in normal form: an evaluation call delivers a
    // start and an end, but no step.
    let mut term = CombinatoryTerm::<Printer>::new("SK(SK)").unwrap();
    term.attach(Printer::new());
    term.evaluate();
    let printer = &term.observers()[0];
    assert_eq!(printer.num_steps(), 0);
    assert_eq!(printer.entries().len(), 2);
    assert!(matches!(printer.entries()[0].signal, Signal::ComputationStart));
    assert!(matches!(printer.entries()[1].signal, Signal::ComputationEnd));
}

#[test]
fn test_printer_records_directly() {
    let mut printer = Printer::new();
    printer.notify("SK", Signal::ComputationStart);
    printer.notify("SK", Signal::ComputationStep);
    assert_eq!(printer.num_steps(), 1);
    assert_eq!(printer.entries().len(), 2);
}

#[test]
fn test_config_parse_no_filename() {
    let args = vec!["rski".to_string()];
    let config = Config::parse(args).unwrap();
    assert!(config.filename().is_none());
}

#[test]
fn test_config_parse_with_filename() {
    let args = vec!["rski".to_string(), "script.ski".to_string()];
    let config = Config::parse(args).unwrap();
    assert_eq!(config.filename().as_ref().unwrap().as_str(), "script.ski");
}

#[test]
fn test_config_parse_rejects_bad_counts() {
    let none: Vec<String> = vec![];
    assert_eq!(Config::parse(none).unwrap_err(), "not enough args");
    let many = vec!["rski".to_string(), "a".to_string(), "b".to_string()];
    assert_eq!(Config::parse(many).unwrap_err(), "too many args");
}
