use std::cell::Cell;

use sysml_core::interactive::{
    collect_answers, run_wizard, wizard_next, ChoiceOption, PromptKind, WizardAnswer, WizardResult, WizardRunner, WizardStep,
};

type Step = WizardStep<f64>;
type Answer = WizardAnswer<f64>;
type Answers = WizardResult<f64>;

// -- WizardStep builders -------------------------------------------------

#[test]
fn string_step_defaults() {
    let step = Step::string("name", "What is the part name?");
    assert_eq!(step.id, "name");
    assert_eq!(step.prompt, "What is the part name?");
    assert!(step.required);
    assert!(step.default.is_none());
    assert!(step.explanation.is_none());
    assert!(matches!(step.kind, PromptKind::String));
}

#[test]
fn choice_step_builds_options() {
    let step = Step::choice(
        "kind",
        "Select element kind",
        vec![("part", "Part"), ("port", "Port"), ("action", "Action")],
    );
    assert_eq!(step.id, "kind");
    assert!(step.required);
    if let PromptKind::Choice(opts) = &step.kind {
        assert_eq!(opts.len(), 3);
        assert_eq!(opts[0].value, "part");
        assert_eq!(opts[0].label, "Part");
        assert!(opts[0].description.is_none());
    } else {
        panic!("expected Choice variant");
    }
}

#[test]
fn confirm_step() {
    let step = Step::confirm("proceed", "Continue?");
    assert!(matches!(step.kind, PromptKind::Confirm));
}

#[test]
fn number_step() {
    let step = Step::number("count", "How many?");
    assert!(matches!(step.kind, PromptKind::Number { min: None, max: None }));
}

#[test]
fn multi_select_step() {
    let step = Step::multi_select("features", "Select features", vec![("a", "Alpha"), ("b", "Beta")]);
    if let PromptKind::MultiSelect(opts) = &step.kind {
        assert_eq!(opts.len(), 2);
    } else {
        panic!("expected MultiSelect variant");
    }
}

#[test]
fn builder_chains() {
    let step = Step::string("name", "Name?")
        .with_explanation("The identifier for this element.")
        .with_default("Untitled")
        .optional();

    assert!(!step.required);
    assert_eq!(step.default.as_deref(), Some("Untitled"));
    assert_eq!(step.explanation.as_deref(), Some("The identifier for this element."));
}

#[test]
fn number_bounds() {
    let step = Step::number("weight", "Weight (kg)?").with_bounds(Some(0.0), Some(1000.0));
    if let PromptKind::Number { min, max } = step.kind {
        assert_eq!(min, Some(0.0));
        assert_eq!(max, Some(1000.0));
    } else {
        panic!("expected Number variant");
    }
}

#[test]
fn bounds_ignored_on_non_number() {
    let step = Step::string("x", "X?").with_bounds(Some(1.0), Some(2.0));
    assert!(matches!(step.kind, PromptKind::String));
}

// -- ChoiceOption --------------------------------------------------------

#[test]
fn choice_option_with_description() {
    let opt = ChoiceOption::new("val", "Label").with_description("Some help text");
    assert_eq!(opt.value, "val");
    assert_eq!(opt.label, "Label");
    assert_eq!(opt.description.as_deref(), Some("Some help text"));
}

#[test]
fn choice_option_without_description() {
    let plain = ChoiceOption::new("json", "JSON output");
    assert_eq!(plain.value, "json");
    assert_eq!(plain.label, "JSON output");
    assert!(plain.description.is_none());
}

// -- WizardResult --------------------------------------------------------

#[test]
fn result_starts_empty() {
    let r = Answers::new();
    assert_eq!(r.count(), 0);
    assert!(!r.has("anything"));
}

#[test]
fn set_and_get_string() {
    let mut r = Answers::new();
    r.set("name", Answer::String("Vehicle".into()));
    assert!(r.has("name"));
    assert_eq!(r.get_string("name"), Some("Vehicle"));
    assert_eq!(r.get_bool("name"), None);
    assert_eq!(r.get_number("name"), None);
    assert_eq!(r.get_selected("name"), None);
}

#[test]
fn set_and_get_bool() {
    let mut r = Answers::new();
    r.set("confirm", Answer::Bool(true));
    assert!(r.has("confirm"));
    assert_eq!(r.get_bool("confirm"), Some(true));
    assert_eq!(r.get_string("confirm"), None);
}

#[test]
fn set_and_get_number() {
    let mut r = Answers::new();
    r.set("mass", Answer::Number(42.5));
    assert!(r.has("mass"));
    assert_eq!(r.get_number("mass"), Some(42.5));
}

#[test]
fn set_and_get_selected() {
    let mut r = Answers::new();
    r.set("features", Answer::Selected(vec!["a".into(), "b".into()]));
    assert!(r.has("features"));
    assert_eq!(r.get_selected("features"), Some(["a".to_owned(), "b".to_owned()].as_slice()));
}

#[test]
fn skipped_not_counted_by_has() {
    let mut r = Answers::new();
    r.set("opt", Answer::Skipped);
    assert!(!r.has("opt"));
    assert_eq!(r.count(), 0);
}

#[test]
fn missing_key_returns_none() {
    let r = Answers::new();
    assert_eq!(r.get_string("nope"), None);
    assert_eq!(r.get_bool("nope"), None);
    assert_eq!(r.get_number("nope"), None);
    assert_eq!(r.get_selected("nope"), None);
}

#[test]
fn answered_ids_in_order() {
    let mut r = Answers::new();
    r.set("z_last", Answer::Bool(true));
    r.set("a_first", Answer::String("hi".into()));
    assert_eq!(r.answered_ids(), vec!["a_first", "z_last"]);
}

#[test]
fn count_excludes_skipped() {
    let mut r = Answers::new();
    r.set("a", Answer::String("yes".into()));
    r.set("b", Answer::Skipped);
    r.set("c", Answer::Bool(false));
    assert_eq!(r.count(), 2);
}

#[test]
fn into_map_ownership() {
    let mut r = Answers::new();
    r.set("x", Answer::Number(1.0));
    let map = r.into_map();
    assert!(map.iter().any(|(k, _)| k == "x"));
}

#[test]
fn set_replaces_and_keeps_order() {
    let mut r = Answers::new();
    r.set("b", Answer::Bool(true));
    r.set("a", Answer::Bool(true));
    r.set("c", Answer::Bool(true));
    r.set("b", Answer::String("again".into()));
    r.set("ab", Answer::Skipped);
    assert_eq!(r.answered_ids(), vec!["a", "ab", "b", "c"]);
    assert_eq!(r.get_string("b"), Some("again"));
    assert_eq!(r.get_bool("b"), None);
    assert_eq!(r.count(), 3);
    assert!(r.has("a") && !r.has("ab"));
}

#[test]
fn ids_order_by_character() {
    let mut r = Answers::new();
    r.set("é", Answer::Bool(true));
    r.set("z", Answer::Bool(true));
    r.set("Z", Answer::Bool(true));
    r.set("", Answer::Bool(true));
    assert_eq!(r.answered_ids(), vec!["", "Z", "z", "é"]);
}

// -- WizardRunner and run_wizard -----------------------------------------

/// A runner that hands out pre-loaded answers in order.
struct MockRunner {
    answers: Vec<Option<Answer>>,
    interactive: bool,
    calls: Cell<usize>,
}

impl MockRunner {
    fn new(answers: Vec<Option<Answer>>) -> Self {
        Self { answers, interactive: true, calls: Cell::new(0) }
    }

    fn non_interactive() -> Self {
        Self { answers: vec![], interactive: false, calls: Cell::new(0) }
    }
}

impl WizardRunner<f64> for MockRunner {
    fn run_step(&self, _step: &Step) -> Option<Answer> {
        let idx = self.calls.get();
        self.calls.set(idx + 1);
        self.answers.get(idx).cloned().unwrap_or(Some(Answer::Skipped))
    }

    fn is_interactive(&self) -> bool {
        self.interactive
    }
}

#[test]
fn run_wizard_collects_answers() {
    let steps = vec![Step::string("step_0", "Name?"), Step::confirm("step_1", "OK?")];
    let runner = MockRunner::new(vec![Some(Answer::String("Test".into())), Some(Answer::Bool(true))]);
    let result = run_wizard(&runner, &steps).expect("should succeed");
    assert_eq!(result.get_string("step_0"), Some("Test"));
    assert_eq!(result.get_bool("step_1"), Some(true));
}

#[test]
fn run_wizard_cancellation() {
    let steps = vec![Step::string("step_0", "Name?"), Step::confirm("step_1", "OK?")];
    let runner = MockRunner::new(vec![Some(Answer::String("Test".into())), None]);
    assert!(run_wizard(&runner, &steps).is_none());
}

#[test]
fn is_interactive_flag() {
    let runner = MockRunner::non_interactive();
    assert!(!runner.is_interactive());
}

#[test]
fn run_wizard_without_steps_succeeds() {
    let runner = MockRunner::new(vec![None]);
    let result = run_wizard(&runner, &[]).expect("nothing to cancel");
    assert_eq!(result.count(), 0);
    assert!(result.answered_ids().is_empty());
}

#[test]
fn run_wizard_keeps_last_answer_per_id() {
    let steps = vec![Step::string("x", "First?"), Step::string("x", "Again?")];
    let runner = MockRunner::new(vec![Some(Answer::String("one".into())), Some(Answer::String("two".into()))]);
    let result = run_wizard(&runner, &steps).expect("should succeed");
    assert_eq!(result.get_string("x"), Some("two"));
    assert_eq!(result.count(), 1);
}

#[test]
fn run_wizard_stops_asking_after_a_cancel() {
    let steps = vec![Step::string("a", "A?"), Step::string("b", "B?"), Step::string("c", "C?")];
    let runner = MockRunner::new(vec![Some(Answer::String("x".into())), None, Some(Answer::String("z".into()))]);
    assert!(run_wizard(&runner, &steps).is_none());
    assert_eq!(runner.calls.get(), 2);
}

#[test]
fn wizard_next_hands_out_steps_in_order() {
    let steps = vec![Step::string("a", "A?"), Step::string("b", "B?")];
    assert_eq!(wizard_next(&steps, 0).map(|s| s.id.as_str()), Some("a"));
    assert_eq!(wizard_next(&steps, 1).map(|s| s.id.as_str()), Some("b"));
    assert!(wizard_next(&steps, 2).is_none());
}

#[test]
fn collect_answers_pairs_answers_with_steps() {
    let steps = vec![Step::string("a", "A?"), Step::confirm("b", "B?"), Step::string("a", "Again?")];
    let all = vec![Some(Answer::String("one".into())), Some(Answer::Bool(false)), Some(Answer::String("two".into()))];
    let result = collect_answers(&steps, all).expect("all answered");
    assert_eq!(result.get_string("a"), Some("two"));
    assert_eq!(result.get_bool("b"), Some(false));
    assert_eq!(result.count(), 2);

    let partial = collect_answers(&steps, vec![Some(Answer::Bool(true))]).expect("answered so far");
    assert_eq!(partial.get_bool("a"), Some(true));
    assert!(partial.get_bool("b").is_none());

    assert!(collect_answers(&steps, vec![Some(Answer::Bool(true)), None]).is_none());
}
