use hello_world_plugin::hooks::{pass_on, ActionHandler, FilterHandler, HandlerError, HookRegistry};
use hello_world_plugin::HookToken;

/// A filter that puts its tag behind its input.
struct Tag(&'static str);

impl FilterHandler for Tag {
    fn apply(&self, input: &str) -> Result<String, HandlerError> {
        Ok(format!("{}{}", input, self.0))
    }
}

/// A filter that always fails.
struct Broken;

impl FilterHandler for Broken {
    fn apply(&self, _input: &str) -> Result<String, HandlerError> {
        Err(HandlerError::Failed("broken filter".to_string()))
    }
}

/// A filter that is either of the two.
enum Step {
    Tag(&'static str),
    Broken,
}

impl FilterHandler for Step {
    fn apply(&self, input: &str) -> Result<String, HandlerError> {
        match self {
            Step::Tag(tag) => Tag(tag).apply(input),
            Step::Broken => Broken.apply(input),
        }
    }
}

/// An action that emits its word, or fails where it has none.
struct Say(Option<&'static str>);

impl ActionHandler for Say {
    fn fire(&self) -> Result<String, HandlerError> {
        match self.0 {
            Some(word) => Ok(word.to_string()),
            None => Err(HandlerError::Failed("nothing to say".to_string())),
        }
    }
}

type Registry = HookRegistry<Step, Say>;

#[test]
fn a_hook_without_filters_gives_the_value_back() {
    let registry = Registry::new();
    assert_eq!(registry.apply_filters("anything", "x".to_string()), "x");
    assert_eq!(registry.apply_filters("anything", String::new()), "");
    assert_eq!(registry.apply_filters("", "kept as it is".to_string()), "kept as it is");
}

#[test]
fn filters_of_other_hooks_do_not_run() {
    let mut registry = Registry::new();
    registry.add_filter("one", 10, Step::Tag("A"));
    assert_eq!(registry.apply_filters("two", "x".to_string()), "x");
    assert_eq!(registry.apply_filters("on", "x".to_string()), "x");
    assert_eq!(registry.apply_filters("one", "x".to_string()), "xA");
}

#[test]
fn filters_run_by_priority_and_then_by_registration() {
    let mut registry = Registry::new();
    registry.add_filter("chain", 10, Step::Tag("H1"));
    registry.add_filter("chain", 5, Step::Tag("H2"));
    registry.add_filter("chain", 10, Step::Tag("H3"));
    assert_eq!(registry.apply_filters("chain", String::new()), "H2H1H3");
    assert_eq!(registry.apply_filters("chain", String::new()), "H2H1H3");
}

#[test]
fn equal_priorities_run_in_registration_order() {
    let mut registry = Registry::new();
    for tag in ["a", "b", "c", "d", "e"] {
        registry.add_filter("chain", 7, Step::Tag(tag));
    }
    assert_eq!(registry.apply_filters("chain", ">".to_string()), ">abcde");
}

#[test]
fn priorities_span_the_whole_integer_range() {
    let mut registry = Registry::new();
    registry.add_filter("chain", i32::MAX, Step::Tag("z"));
    registry.add_filter("chain", 0, Step::Tag("m"));
    registry.add_filter("chain", i32::MIN, Step::Tag("a"));
    registry.add_filter("chain", -1, Step::Tag("l"));
    registry.add_filter("chain", 99, Step::Tag("y"));
    registry.add_filter("chain", 10, Step::Tag("n"));
    assert_eq!(registry.apply_filters("chain", String::new()), "almnyz");
}

#[test]
fn hooks_interleaved_in_the_table_keep_their_own_order() {
    let mut registry = Registry::new();
    registry.add_filter("one", 10, Step::Tag("1a"));
    registry.add_filter("two", 5, Step::Tag("2a"));
    registry.add_filter("one", 1, Step::Tag("1b"));
    registry.add_filter("two", 5, Step::Tag("2b"));
    registry.add_filter("one", 10, Step::Tag("1c"));
    assert_eq!(registry.apply_filters("one", String::new()), "1b1a1c");
    assert_eq!(registry.apply_filters("two", String::new()), "2a2b");
}

#[test]
fn a_failing_filter_passes_its_input_on() {
    let mut registry = Registry::new();
    registry.add_filter("chain", 1, Step::Tag("A"));
    registry.add_filter("chain", 2, Step::Broken);
    registry.add_filter("chain", 3, Step::Tag("B"));
    assert_eq!(registry.apply_filters("chain", "x".to_string()), "xAB");
}

#[test]
fn a_chain_of_failing_filters_is_the_identity() {
    let mut registry = Registry::new();
    registry.add_filter("chain", 1, Step::Broken);
    registry.add_filter("chain", 1, Step::Broken);
    assert_eq!(registry.apply_filters("chain", "x".to_string()), "x");
}

#[test]
fn pass_on_takes_the_output_or_keeps_the_input() {
    assert_eq!(pass_on("in".to_string(), Ok("out".to_string())), "out");
    assert_eq!(pass_on("in".to_string(), Ok(String::new())), "");
    assert_eq!(pass_on("in".to_string(), Err(HandlerError::DateUnavailable)), "in");
    assert_eq!(
        pass_on("in".to_string(), Err(HandlerError::Failed("no".to_string()))),
        "in"
    );
}

#[test]
fn a_hook_without_actions_reports_nothing() {
    let registry = Registry::new();
    assert!(registry.run_action("wp_head").is_empty());
}

#[test]
fn actions_run_by_priority_and_then_by_registration() {
    let mut registry = Registry::new();
    registry.add_action("head", 10, Say(Some("first at ten")));
    registry.add_action("head", 5, Say(Some("five")));
    registry.add_action("foot", 1, Say(Some("elsewhere")));
    registry.add_action("head", 10, Say(Some("second at ten")));
    assert_eq!(
        registry.run_action("head"),
        vec![
            Ok("five".to_string()),
            Ok("first at ten".to_string()),
            Ok("second at ten".to_string()),
        ]
    );
    assert_eq!(registry.run_action("foot"), vec![Ok("elsewhere".to_string())]);
}

#[test]
fn a_failing_action_does_not_stop_the_later_ones() {
    let mut registry = Registry::new();
    registry.add_action("head", 1, Say(Some("a")));
    registry.add_action("head", 2, Say(None));
    registry.add_action("head", 3, Say(Some("b")));
    assert_eq!(
        registry.run_action("head"),
        vec![
            Ok("a".to_string()),
            Err(HandlerError::Failed("nothing to say".to_string())),
            Ok("b".to_string()),
        ]
    );
}

#[test]
fn filters_and_actions_of_one_name_are_apart() {
    let mut registry = Registry::new();
    registry.add_filter("same", 10, Step::Tag("f"));
    registry.add_action("same", 10, Say(Some("a")));
    assert_eq!(registry.apply_filters("same", String::new()), "f");
    assert_eq!(registry.run_action("same"), vec![Ok("a".to_string())]);
}

#[test]
fn tokens_count_registrations_of_both_kinds() {
    let mut registry = Registry::new();
    assert_eq!(registry.add_filter("a", 10, Step::Tag("x")), HookToken { id: 0 });
    assert_eq!(registry.add_action("a", 10, Say(None)), HookToken { id: 1 });
    assert_eq!(registry.add_filter("b", -3, Step::Tag("y")), HookToken { id: 2 });
    let mut later = Registry::starting_at(40);
    assert_eq!(later.add_action("a", 10, Say(None)), HookToken { id: 40 });
    assert_eq!(later.add_filter("a", 10, Step::Broken), HookToken { id: 41 });
}

#[test]
fn tokens_are_not_given_twice_after_a_removal() {
    let mut registry = Registry::new();
    let first = registry.add_filter("a", 10, Step::Tag("x"));
    assert!(registry.remove(first));
    let second = registry.add_filter("a", 10, Step::Tag("y"));
    assert_eq!(second, HookToken { id: 1 });
    assert!(!registry.remove(first));
    assert_eq!(registry.apply_filters("a", String::new()), "y");
}

#[test]
fn remove_takes_out_one_registration_and_keeps_the_order() {
    let mut registry = Registry::new();
    registry.add_filter("chain", 10, Step::Tag("H1"));
    let second = registry.add_filter("chain", 5, Step::Tag("H2"));
    registry.add_filter("chain", 10, Step::Tag("H3"));
    let action = registry.add_action("chain", 1, Say(Some("a")));
    assert!(registry.remove(second));
    assert_eq!(registry.apply_filters("chain", String::new()), "H1H3");
    assert_eq!(registry.run_action("chain"), vec![Ok("a".to_string())]);
    assert!(registry.remove(action));
    assert!(registry.run_action("chain").is_empty());
    assert_eq!(registry.apply_filters("chain", String::new()), "H1H3");
}

#[test]
fn remove_of_an_unknown_token_changes_nothing() {
    let mut registry = Registry::new();
    registry.add_filter("chain", 10, Step::Tag("H1"));
    assert!(!registry.remove(HookToken { id: 7 }));
    assert!(!registry.remove(HookToken { id: u64::MAX }));
    assert_eq!(registry.apply_filters("chain", String::new()), "H1");
}

#[test]
fn remove_all_takes_out_the_named_registrations_only() {
    let mut registry = Registry::new();
    let a = registry.add_filter("chain", 1, Step::Tag("a"));
    let b = registry.add_filter("chain", 2, Step::Tag("b"));
    let c = registry.add_filter("chain", 3, Step::Tag("c"));
    let say = registry.add_action("chain", 1, Say(Some("s")));
    registry.add_action("chain", 2, Say(Some("t")));
    registry.remove_all(&vec![c, a, say, HookToken { id: 99 }, a]);
    assert_eq!(registry.apply_filters("chain", String::new()), "b");
    assert_eq!(registry.run_action("chain"), vec![Ok("t".to_string())]);
    registry.remove_all(&Vec::new());
    assert_eq!(registry.apply_filters("chain", String::new()), "b");
    assert!(registry.remove(b));
}

#[test]
fn can_register_counts_the_numbers_that_are_left() {
    let fresh = Registry::new();
    assert!(fresh.can_register(0));
    assert!(fresh.can_register(u64::MAX));
    let mut late = Registry::starting_at(u64::MAX - 1);
    assert!(late.can_register(1));
    assert!(!late.can_register(2));
    late.add_filter("a", 10, Step::Tag("x"));
    assert!(late.can_register(0));
    assert!(!late.can_register(1));
}
