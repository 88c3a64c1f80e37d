use teloxide_plugins::descriptor::{combine_patterns, determine_handler_type};
use teloxide_plugins::pattern::RegexCache;
use teloxide_plugins::{dispatch, register_plugin, DeclarationError, PluginContext, PluginMeta, Registry, TeloxidePlugin};

fn strings(v: &[&str]) -> Vec<String> {
    v.iter().map(|s| s.to_string()).collect()
}

fn declare(name: &str, commands: &[&str], prefixes: &[&str], regex: &[&str], callback: &[&str]) -> PluginMeta {
    TeloxidePlugin(name.to_string(), strings(commands), strings(prefixes), strings(regex), strings(callback)).unwrap()
}

fn text(t: &str) -> PluginContext {
    PluginContext::new(Some(t.to_string()), None)
}

fn callback(c: &str) -> PluginContext {
    PluginContext::new(None, Some(c.to_string()))
}

fn chosen(reg: &mut Registry, ctx: &PluginContext) -> Option<String> {
    dispatch(reg, ctx).map(|i| reg.get(i).name.clone())
}

#[test]
fn commands_with_prefixes_route_to_their_plugin() {
    let mut reg = Registry::new();
    register_plugin(&mut reg, declare("a", &["ping", "p"], &["/", "!"], &[], &[])).unwrap();
    register_plugin(&mut reg, declare("catch_all", &[], &[], &["ping"], &[])).unwrap();
    assert_eq!(chosen(&mut reg, &text("/ping")), Some("a".to_string()));
    assert_eq!(chosen(&mut reg, &text("!p")), Some("a".to_string()));
    assert_eq!(chosen(&mut reg, &text("/p")), Some("a".to_string()));
    assert_eq!(chosen(&mut reg, &text("!ping")), Some("a".to_string()));
    // no prefix: not a command key, so the regex scan decides
    assert_eq!(chosen(&mut reg, &text("ping")), Some("catch_all".to_string()));
}

#[test]
fn bare_command_without_prefix_matches_nothing_without_regex() {
    let mut reg = Registry::new();
    register_plugin(&mut reg, declare("a", &["ping", "p"], &["/", "!"], &[], &[])).unwrap();
    assert_eq!(dispatch(&mut reg, &text("ping")), None);
    assert_eq!(dispatch(&mut reg, &text("/ping now")), None);
}

#[test]
fn regex_trigger_matches_through_fallback_scan() {
    let mut reg = Registry::new();
    register_plugin(&mut reg, declare("a", &["ping"], &["/"], &[], &[])).unwrap();
    register_plugin(&mut reg, declare("b", &[], &[], &["(?i)hello"], &[])).unwrap();
    assert_eq!(chosen(&mut reg, &text("Hello there")), Some("b".to_string()));
    assert_eq!(chosen(&mut reg, &text("say HELLO")), Some("b".to_string()));
    assert_eq!(dispatch(&mut reg, &text("goodbye")), None);
}

#[test]
fn callback_filter_matches_by_equality() {
    let mut reg = Registry::new();
    register_plugin(&mut reg, declare("c", &[], &[], &[], &["confirm"])).unwrap();
    assert_eq!(chosen(&mut reg, &callback("confirm")), Some("c".to_string()));
    assert_eq!(dispatch(&mut reg, &callback("cancel")), None);
    assert_eq!(dispatch(&mut reg, &callback("confirmed")), None);
    // a message with the same text does not fire a callback trigger
    assert_eq!(dispatch(&mut reg, &text("confirm")), None);
}

#[test]
fn exact_command_beats_earlier_regex() {
    let mut reg = Registry::new();
    register_plugin(&mut reg, declare("greedy", &[], &[], &[".*"], &[])).unwrap();
    register_plugin(&mut reg, declare("echo", &["echo"], &["/"], &[], &[])).unwrap();
    assert_eq!(chosen(&mut reg, &text("/echo")), Some("echo".to_string()));
    assert_eq!(chosen(&mut reg, &text("/echo hi")), Some("greedy".to_string()));
}

#[test]
fn first_matching_regex_in_registration_order_wins() {
    let mut reg = Registry::new();
    register_plugin(&mut reg, declare("first", &[], &[], &["wor"], &[])).unwrap();
    register_plugin(&mut reg, declare("second", &[], &[], &["world"], &[])).unwrap();
    assert_eq!(chosen(&mut reg, &text("hello world")), Some("first".to_string()));
    assert_eq!(chosen(&mut reg, &text("worst")), Some("first".to_string()));
}

#[test]
fn colliding_command_keys_keep_the_first_registration() {
    let mut reg = Registry::new();
    register_plugin(&mut reg, declare("one", &["go"], &["/"], &[], &[])).unwrap();
    register_plugin(&mut reg, declare("two", &["go"], &["/"], &["^later"], &[])).unwrap();
    assert_eq!(chosen(&mut reg, &text("/go")), Some("one".to_string()));
    // the second's regex trigger still takes part in the scan
    assert_eq!(chosen(&mut reg, &text("later on")), Some("two".to_string()));
}

#[test]
fn malformed_regex_never_matches_and_blocks_nothing() {
    let mut reg = Registry::new();
    register_plugin(&mut reg, declare("broken", &[], &[], &["(unclosed"], &[])).unwrap();
    register_plugin(&mut reg, declare("fine", &[], &[], &["unclosed"], &[])).unwrap();
    assert_eq!(chosen(&mut reg, &text("(unclosed")), Some("fine".to_string()));
    assert_eq!(chosen(&mut reg, &text("unclosed")), Some("fine".to_string()));
    assert_eq!(dispatch(&mut reg, &text("")), None);
}

#[test]
fn repeated_dispatch_picks_the_same_handler() {
    let mut reg = Registry::new();
    register_plugin(&mut reg, declare("a", &["ping"], &["/"], &[], &[])).unwrap();
    register_plugin(&mut reg, declare("b", &[], &[], &["(?i)hello"], &[])).unwrap();
    for ctx in [text("/ping"), text("hello"), text("nothing"), callback("x")] {
        let first = dispatch(&mut reg, &ctx);
        let second = dispatch(&mut reg, &ctx);
        assert_eq!(first, second);
        assert_eq!(reg.len(), 2);
    }
}

#[test]
fn event_without_payload_is_a_no_op() {
    let mut reg = Registry::new();
    register_plugin(&mut reg, declare("b", &[], &[], &[".*"], &[])).unwrap();
    register_plugin(&mut reg, declare("c", &[], &[], &[], &["x"])).unwrap();
    assert_eq!(dispatch(&mut reg, &PluginContext::new(None, None)), None);
}

#[test]
fn register_hands_back_positions_in_order() {
    let mut reg = Registry::new();
    assert_eq!(register_plugin(&mut reg, declare("a", &["a"], &["/"], &[], &[])), Ok(0));
    assert_eq!(register_plugin(&mut reg, declare("b", &[], &[], &["b"], &[])), Ok(1));
    assert_eq!(reg.len(), 2);
    assert_eq!(reg.get(1).name, "b");
}

#[test]
fn register_rejects_descriptor_with_both_trigger_kinds() {
    let mut reg = Registry::new();
    let meta = PluginMeta {
        name: "both".to_string(),
        commands: strings(&["x"]),
        prefixes: strings(&["/"]),
        regex: None,
        callback_filter: Some("y".to_string()),
    };
    assert_eq!(register_plugin(&mut reg, meta), Err(DeclarationError::BothTriggerKinds));
    assert_eq!(reg.len(), 0);
    assert_eq!(dispatch(&mut reg, &text("/x")), None);
}

#[test]
fn register_rejects_descriptor_without_trigger() {
    let mut reg = Registry::new();
    let meta = PluginMeta {
        name: "none".to_string(),
        commands: Vec::new(),
        prefixes: Vec::new(),
        regex: None,
        callback_filter: None,
    };
    assert_eq!(register_plugin(&mut reg, meta), Err(DeclarationError::NoTrigger));
    assert_eq!(reg.len(), 0);
}

#[test]
fn declaration_errors() {
    let both = TeloxidePlugin("x".to_string(), Vec::new(), Vec::new(), strings(&["a"]), strings(&["b"]));
    assert_eq!(both.err(), Some(DeclarationError::BothTriggerKinds));
    let none = TeloxidePlugin("x".to_string(), Vec::new(), Vec::new(), Vec::new(), Vec::new());
    assert_eq!(none.err(), Some(DeclarationError::NoTrigger));
}

#[test]
fn declaration_combines_patterns_into_alternation() {
    let m = declare("m", &[], &[], &["foo", "bar", "baz"], &[]);
    assert_eq!(m.regex, Some("foo|bar|baz".to_string()));
    assert_eq!(m.callback_filter, None);
    let c = declare("c", &[], &[], &[], &["yes", "no"]);
    assert_eq!(c.callback_filter, Some("yes|no".to_string()));
    let one = declare("o", &[], &[], &["only"], &[]);
    assert_eq!(one.regex, Some("only".to_string()));
}

#[test]
fn combined_regex_matches_any_alternative() {
    let mut reg = Registry::new();
    register_plugin(&mut reg, declare("m", &[], &[], &["^foo$", "^bar$"], &[])).unwrap();
    assert_eq!(chosen(&mut reg, &text("bar")), Some("m".to_string()));
    assert_eq!(chosen(&mut reg, &text("foo")), Some("m".to_string()));
    assert_eq!(dispatch(&mut reg, &text("foobar")), None);
}

#[test]
fn combine_patterns_edges() {
    assert_eq!(combine_patterns(&Vec::new()), None);
    assert_eq!(combine_patterns(&strings(&["a"])), Some("a".to_string()));
    assert_eq!(combine_patterns(&strings(&["a", "", "c"])), Some("a||c".to_string()));
}

#[test]
fn handler_type_of_declarations() {
    assert_eq!(determine_handler_type(&strings(&["x"]), &Vec::new(), &None, &None), Ok(false));
    assert_eq!(determine_handler_type(&Vec::new(), &strings(&["/"]), &None, &None), Ok(false));
    assert_eq!(determine_handler_type(&Vec::new(), &Vec::new(), &Some("r".to_string()), &None), Ok(false));
    assert_eq!(determine_handler_type(&Vec::new(), &Vec::new(), &None, &Some("c".to_string())), Ok(true));
    assert_eq!(
        determine_handler_type(&Vec::new(), &Vec::new(), &Some("r".to_string()), &Some("c".to_string())),
        Err(DeclarationError::BothTriggerKinds)
    );
    assert_eq!(determine_handler_type(&Vec::new(), &Vec::new(), &None, &None), Err(DeclarationError::NoTrigger));
}

#[test]
fn regex_cache_compiles_each_pattern_once() {
    let mut cache = RegexCache::new();
    let p = "h.llo".to_string();
    assert!(cache.is_match(&p, &"hello".to_string()));
    assert!(cache.is_match(&p, &"hallo".to_string()));
    assert!(!cache.is_match(&p, &"help".to_string()));
    assert_eq!(cache.len(), 1);
    let bad = "[".to_string();
    assert!(!cache.is_match(&bad, &"[".to_string()));
    assert!(!cache.is_match(&bad, &"".to_string()));
    assert_eq!(cache.len(), 2);
    assert_eq!(cache.get_or_compile(&p), 0);
    assert_eq!(cache.get_or_compile(&bad), 1);
    assert_eq!(cache.find(&"other".to_string()), None);
}

#[test]
fn command_index_lookup() {
    let mut reg = Registry::new();
    register_plugin(&mut reg, declare("r", &[], &[], &["x"], &[])).unwrap();
    register_plugin(&mut reg, declare("a", &["run", "r"], &["/", "."], &[], &[])).unwrap();
    assert_eq!(reg.find_command_plugin(&".r".to_string()), Some(1));
    assert_eq!(reg.find_command_plugin(&"/run".to_string()), Some(1));
    assert_eq!(reg.find_command_plugin(&"run".to_string()), None);
    assert_eq!(reg.find_command_plugin(&"x".to_string()), None);
}
