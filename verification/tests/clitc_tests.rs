use std::cell::Cell;
use std::rc::Rc;

use clitc::dict::Dict;
use clitc::doc::DocValue;
use clitc::engine::ParamValue;
use clitc::errors::ClitcError;
use clitc::events::{
    EmitHandler, EmitSlot, Event, EventHandler, InfoHandler, PlainHandler, SilentHandler, Split,
    WhitespaceSplitter,
};
use clitc::schema::{CliParameters, SubParam, SubParamType};

fn text(s: &str) -> DocValue {
    DocValue::Text(s.to_string())
}

fn sub_entry(ord: u64, name: Option<&str>, ptype: &str) -> DocValue {
    let mut fields = vec![
        ("ord".to_string(), DocValue::Number(Some(ord))),
        ("type".to_string(), text(ptype)),
    ];
    if let Some(n) = name {
        fields.push(("name".to_string(), text(n)));
    }
    DocValue::Object(fields)
}

fn option_entry(short: Option<&str>, name: &str, descr: Option<&str>, params: Vec<DocValue>) -> DocValue {
    let mut fields = vec![("name".to_string(), text(name))];
    if let Some(s) = short {
        fields.push(("short".to_string(), text(s)));
    }
    if let Some(d) = descr {
        fields.push(("descr".to_string(), text(d)));
    }
    fields.push(("params".to_string(), DocValue::List(params)));
    DocValue::Object(fields)
}

fn example_doc() -> DocValue {
    DocValue::Object(vec![(
        "options".to_string(),
        DocValue::List(vec![
            option_entry(
                Some("-e"),
                "--example",
                Some("an example command"),
                vec![sub_entry(0, None, "string")],
            ),
            option_entry(Some("-v"), "--verbose", None, vec![]),
            option_entry(
                Some("-l"),
                "--lifetime",
                Some("a lifetime command"),
                vec![
                    sub_entry(1, Some("expected_val"), "num"),
                    sub_entry(0, Some("secs"), "int"),
                ],
            ),
        ]),
    )])
}

fn tokens(words: &[&str]) -> Vec<String> {
    words.iter().map(|w| w.to_string()).collect()
}

#[test]
fn schema_from_valid_doc_counts_and_sorts() {
    let schema = CliParameters::from(&example_doc()).expect("valid document");
    let params = schema.iter();
    assert_eq!(params.len(), 3);
    let lifetime = &params[2];
    assert_eq!(lifetime.name, "--lifetime");
    assert_eq!(lifetime.params.len(), 2);
    assert_eq!(lifetime.params[0].ord, 0);
    assert_eq!(lifetime.params[1].ord, 1);
    assert_eq!(lifetime.params[0].name.as_deref(), Some("secs"));
}

#[test]
fn duplicate_ordinal_fails_with_wrong_format() {
    let doc = DocValue::Object(vec![(
        "options".to_string(),
        DocValue::List(vec![option_entry(
            None,
            "cmd",
            None,
            vec![sub_entry(0, Some("a"), "int"), sub_entry(0, Some("b"), "string")],
        )]),
    )]);
    let err = CliParameters::from(&doc).unwrap_err();
    assert!(matches!(err, ClitcError::WrongFormat(_)));
}

#[test]
fn missing_name_fails_with_missing_information() {
    let doc = DocValue::Object(vec![(
        "options".to_string(),
        DocValue::List(vec![DocValue::Object(vec![(
            "descr".to_string(),
            text("no name here"),
        )])]),
    )]);
    let err = CliParameters::from(&doc).unwrap_err();
    assert!(matches!(err, ClitcError::MissingInformation(_)));
}

#[test]
fn missing_ord_or_type_fails_with_missing_information() {
    let no_ord = DocValue::Object(vec![(
        "options".to_string(),
        DocValue::List(vec![option_entry(
            None,
            "cmd",
            None,
            vec![DocValue::Object(vec![("type".to_string(), text("int"))])],
        )]),
    )]);
    assert!(matches!(
        CliParameters::from(&no_ord).unwrap_err(),
        ClitcError::MissingInformation(_)
    ));
    let no_type = DocValue::Object(vec![(
        "options".to_string(),
        DocValue::List(vec![option_entry(
            None,
            "cmd",
            None,
            vec![DocValue::Object(vec![("ord".to_string(), DocValue::Number(Some(0)))])],
        )]),
    )]);
    assert!(matches!(
        CliParameters::from(&no_type).unwrap_err(),
        ClitcError::MissingInformation(_)
    ));
}

#[test]
fn unknown_type_tag_fails_with_wrong_format() {
    let doc = DocValue::Object(vec![(
        "options".to_string(),
        DocValue::List(vec![option_entry(
            None,
            "cmd",
            None,
            vec![sub_entry(0, None, "float")],
        )]),
    )]);
    assert!(matches!(
        CliParameters::from(&doc).unwrap_err(),
        ClitcError::WrongFormat(_)
    ));
}

#[test]
fn missing_options_root_fails_with_wrong_format() {
    let doc = DocValue::Object(vec![("commands".to_string(), DocValue::List(vec![]))]);
    assert!(matches!(
        CliParameters::from(&doc).unwrap_err(),
        ClitcError::WrongFormat(_)
    ));
}

#[test]
fn sequential_parse_of_bare_command_yields_empty_map() {
    let doc = DocValue::Object(vec![(
        "options".to_string(),
        DocValue::List(vec![option_entry(None, "start", None, vec![])]),
    )]);
    let mut schema = CliParameters::from(&doc).expect("valid document");
    schema.set_sequential_processing(true);
    let parsed = schema.parse_str_whitespace("start");
    assert_eq!(parsed.len(), 1);
    let map = parsed.get("start").expect("start matched");
    assert_eq!(map.len(), 0);
}

#[test]
fn sequential_parse_of_example_line_yields_two_commands() {
    let mut schema = CliParameters::from(&example_doc()).expect("valid document");
    schema.set_sequential_processing(true);
    let parsed = schema.parse_str_whitespace("-l 2 2.345 --example MyName");
    assert_eq!(parsed.len(), 2);
    let lifetime = parsed.get("--lifetime").expect("lifetime matched");
    assert_eq!(lifetime.get("secs"), Some(&ParamValue::Int(2)));
    assert_eq!(
        lifetime.get("expected_val"),
        Some(&ParamValue::Num("2.345".to_string()))
    );
    let example = parsed.get("--example").expect("example matched");
    assert_eq!(example.get("0"), Some(&ParamValue::Str("MyName".to_string())));
}

#[test]
fn location_based_parse_of_example_line() {
    let schema = CliParameters::from(&example_doc()).expect("valid document");
    let parsed = schema.parse_vec(tokens(&["--lifetime", "2", "2.345", "--example", "MyName"]));
    assert_eq!(parsed.len(), 2);
    let lifetime = parsed.get("--lifetime").expect("lifetime matched");
    assert_eq!(lifetime.get("secs"), Some(&ParamValue::Int(2)));
    assert_eq!(
        lifetime.get("expected_val"),
        Some(&ParamValue::Num("2.345".to_string()))
    );
    let example = parsed.get("--example").expect("example matched");
    assert_eq!(example.get("0"), Some(&ParamValue::Str("MyName".to_string())));
}

#[test]
fn non_numeric_token_omits_key_without_failing() {
    let mut schema = CliParameters::from(&example_doc()).expect("valid document");
    schema.set_sequential_processing(true);
    let parsed = schema.parse_str_whitespace("-l abc 2.345");
    let lifetime = parsed.get("--lifetime").expect("lifetime matched");
    assert_eq!(lifetime.get("secs"), None);
    assert_eq!(
        lifetime.get("expected_val"),
        Some(&ParamValue::Num("2.345".to_string()))
    );
}

#[test]
fn integer_overflow_token_omits_key() {
    let mut schema = CliParameters::from(&example_doc()).expect("valid document");
    schema.set_sequential_processing(true);
    let parsed = schema.parse_str_whitespace("-l 9223372036854775808 1.0");
    let lifetime = parsed.get("--lifetime").expect("lifetime matched");
    assert_eq!(lifetime.get("secs"), None);
    let parsed = schema.parse_str_whitespace("-l -9223372036854775808 1.0");
    let lifetime = parsed.get("--lifetime").expect("lifetime matched");
    assert_eq!(
        lifetime.get("secs"),
        Some(&ParamValue::Int(i64::MIN))
    );
}

#[test]
fn later_match_of_same_command_overwrites_earlier() {
    let doc = DocValue::Object(vec![(
        "options".to_string(),
        DocValue::List(vec![option_entry(
            None,
            "go",
            None,
            vec![sub_entry(0, None, "string")],
        )]),
    )]);
    let mut schema = CliParameters::from(&doc).expect("valid document");
    schema.set_sequential_processing(true);
    let parsed = schema.parse_str_whitespace("go a go b");
    assert_eq!(parsed.len(), 1);
    let map = parsed.get("go").expect("go matched");
    assert_eq!(map.get("0"), Some(&ParamValue::Str("b".to_string())));
}

#[test]
fn array_slot_copies_remaining_tokens() {
    let doc = DocValue::Object(vec![(
        "options".to_string(),
        DocValue::List(vec![option_entry(
            None,
            "all",
            None,
            vec![sub_entry(0, Some("rest"), "array")],
        )]),
    )]);
    let mut schema = CliParameters::from(&doc).expect("valid document");
    schema.set_sequential_processing(true);
    let parsed = schema.parse_str_whitespace("all x y");
    let map = parsed.get("all").expect("all matched");
    assert_eq!(
        map.get("rest"),
        Some(&ParamValue::Array(tokens(&["x", "y"])))
    );
}

#[test]
fn unnamed_slot_reports_under_ordinal_text() {
    let sp = SubParam { ord: 12, name: None, ptype: SubParamType::Str };
    assert_eq!(sp.get_name(), "12");
    let named = SubParam { ord: 3, name: Some("key".to_string()), ptype: SubParamType::Int };
    assert_eq!(named.get_name(), "key");
}

#[test]
fn info_renders_heading_and_slot_lines() {
    let schema = CliParameters::from(&example_doc()).expect("valid document");
    let lifetime = &schema.iter()[2];
    let lines = lifetime.info();
    assert_eq!(
        lines,
        vec![
            "\t--lifetime/ -l\ta lifetime command".to_string(),
            "\t\tsecs:\tint".to_string(),
            "\t\texpected_val:\tnum".to_string(),
        ]
    );
    let verbose = &schema.iter()[1];
    assert_eq!(verbose.info(), vec!["\t--verbose/ -v\t".to_string()]);
}

#[test]
fn param_value_renders_as_text() {
    assert_eq!(ParamValue::Int(-5).to_text(), "-5");
    assert_eq!(ParamValue::Int(i64::MIN).to_text(), "-9223372036854775808");
    assert_eq!(ParamValue::Int(0).to_text(), "0");
    assert_eq!(ParamValue::Num("2.345".to_string()).to_text(), "2.345");
    assert_eq!(ParamValue::Str("plain".to_string()).to_text(), "plain");
    assert_eq!(ParamValue::Array(tokens(&["a", "b", "c"])).to_text(), "a, b, c");
    assert_eq!(ParamValue::Array(vec![]).to_text(), "");
}

#[test]
fn numeric_token_recognizer_agrees_with_float_parsing() {
    let samples = [
        "2.345", "-1", "+3", "1e5", "1E-5", "-2.5e+7", ".5", "5.", "inf", "INF", "Infinity",
        "nan", "NaN", "-inf", "", ".", "e5", "1e", "1.2.3", "abc", "1a", "--1", "+", " 1", "1 ",
        "0x10", "1_000", "infinityy",
    ];
    for s in samples.iter() {
        assert_eq!(
            clitc::numeric::is_num_token(s),
            s.parse::<f64>().is_ok(),
            "token {:?}",
            s
        );
    }
}

#[test]
fn whitespace_splitter_drops_empty_tokens() {
    let toks = WhitespaceSplitter.split("  a \t b\nc  ".to_string());
    assert_eq!(toks, tokens(&["a", "b", "c"]));
}

#[derive(Clone)]
struct CountingHandler(Rc<Cell<u32>>);

impl PlainHandler<u64> for CountingHandler {
    fn on_command(&self, context: u64, _args: Dict<ParamValue>) {
        assert_eq!(context, 7);
        self.0.set(self.0.get() + 1);
    }
}

struct InfoProbe(Rc<Cell<usize>>);

impl InfoHandler<u64> for InfoProbe {
    fn on_command(&self, _context: u64, _args: Dict<ParamValue>, info: Dict<Vec<String>>) {
        self.0.set(info.len());
    }
}

struct EmitProbe;

impl EmitHandler<u64> for EmitProbe {
    fn on_command(&self, _context: u64, out: EmitSlot, args: Dict<ParamValue>) {
        let greeting = match args.get("0") {
            Some(v) => format!("hello {}", v.to_text()),
            None => "hello".to_string(),
        };
        out.put(greeting);
    }
}

type Dispatcher = EventHandler<WhitespaceSplitter, u64, CountingHandler, InfoProbe, EmitProbe>;

fn dispatcher(single_cmd: bool) -> Dispatcher {
    let schema = CliParameters::from(&example_doc()).expect("valid document");
    EventHandler::new(schema, WhitespaceSplitter, single_cmd, 7)
}

#[test]
fn unmatched_tokens_fail_with_unknown_command() {
    let handler = dispatcher(true);
    let err = handler.pass_command("nothing recognizable".to_string()).unwrap_err();
    assert!(matches!(err, ClitcError::UnknownCommand(_)));
}

#[test]
fn two_commands_under_single_command_policy_fail_with_command_mode() {
    let mut handler = dispatcher(true);
    let count = Rc::new(Cell::new(0));
    handler.attach(
        "--verbose".to_string(),
        Event::Callback(CountingHandler(count.clone())),
    );
    handler.attach(
        "--example".to_string(),
        Event::Callback(CountingHandler(count.clone())),
    );
    let err = handler.pass_command("-v -e x".to_string()).unwrap_err();
    assert!(matches!(err, ClitcError::CommandMode(_)));
    assert_eq!(count.get(), 0);
}

#[test]
fn two_commands_under_multi_command_policy_run_both() {
    let mut handler = dispatcher(false);
    let count = Rc::new(Cell::new(0));
    handler.attach(
        "--verbose".to_string(),
        Event::Callback(CountingHandler(count.clone())),
    );
    handler.attach(
        "--example".to_string(),
        Event::Callback(CountingHandler(count.clone())),
    );
    handler.pass_command("-v -e x".to_string()).expect("both bound");
    assert_eq!(count.get(), 2);
}

#[test]
fn disattach_after_attach_fails_with_no_event() {
    let mut handler = dispatcher(true);
    let count = Rc::new(Cell::new(0));
    handler.attach(
        "--verbose".to_string(),
        Event::Callback(CountingHandler(count.clone())),
    );
    handler.pass_command("-v".to_string()).expect("bound handler runs");
    assert_eq!(count.get(), 1);
    let removed = handler.disattach("--verbose");
    assert!(removed.is_some());
    let err = handler.pass_command("-v".to_string()).unwrap_err();
    assert!(matches!(err, ClitcError::NoEvent(_)));
    assert_eq!(count.get(), 1);
}

#[test]
fn info_handler_receives_every_command() {
    let mut handler = dispatcher(true);
    let seen = Rc::new(Cell::new(0));
    handler.attach(
        "--verbose".to_string(),
        Event::InfoCallback(InfoProbe(seen.clone())),
    );
    handler.pass_command("-v".to_string()).expect("bound handler runs");
    assert_eq!(seen.get(), 3);
}

#[test]
fn emit_handler_fills_the_shared_slot() {
    let mut handler = dispatcher(true);
    let slot = EmitSlot::new();
    handler.attach(
        "--example".to_string(),
        Event::Emit(slot.clone(), EmitProbe),
    );
    handler.pass_command("-e world".to_string()).expect("bound handler runs");
    assert_eq!(slot.take(), Some("hello world".to_string()));
    assert_eq!(slot.take(), None);
}

#[test]
fn emit_slot_put_overwrites() {
    let slot = EmitSlot::new();
    assert_eq!(slot.clone().take(), None);
    slot.put("first".to_string());
    slot.put("second".to_string());
    assert_eq!(slot.take(), Some("second".to_string()));
}

#[test]
fn silent_handler_counts_as_bound() {
    let schema = CliParameters::from(&example_doc()).expect("valid document");
    let mut handler: EventHandler<WhitespaceSplitter, (), SilentHandler, SilentHandler, SilentHandler> =
        EventHandler::new(schema, WhitespaceSplitter, true, ());
    handler.attach("--verbose".to_string(), Event::Callback(SilentHandler));
    handler.pass_command("-v".to_string()).expect("silent handler runs");
}

#[test]
fn error_messages_name_the_failure() {
    let doc = DocValue::Object(vec![("options".to_string(), DocValue::Bool(true))]);
    let err = CliParameters::from(&doc).unwrap_err();
    assert_eq!(err.message(), "Wrong format for params!");
    let handler = dispatcher(true);
    let err = handler.pass_command("junk".to_string()).unwrap_err();
    assert_eq!(err.message(), "Could not find a known command in the statement");
}

#[test]
fn leading_unmatched_tokens_are_discarded_sequentially() {
    let mut schema = CliParameters::from(&example_doc()).expect("valid document");
    schema.set_sequential_processing(true);
    let parsed = schema.parse_str_whitespace("junk more -v");
    assert_eq!(parsed.len(), 1);
    assert!(parsed.get("--verbose").is_some());
}

#[test]
fn parse_str_uses_the_given_splitter() {
    let mut schema = CliParameters::from(&example_doc()).expect("valid document");
    schema.set_sequential_processing(true);
    let parsed = schema.parse_str("-e:MyName", |s: &str| {
        s.split(':').map(|x| x.to_string()).collect()
    });
    let example = parsed.get("--example").expect("example matched");
    assert_eq!(example.get("0"), Some(&ParamValue::Str("MyName".to_string())));
}

#[test]
fn empty_token_sequence_parses_to_nothing() {
    let schema = CliParameters::from(&example_doc()).expect("valid document");
    let parsed = schema.parse_vec(Vec::new());
    assert_eq!(parsed.len(), 0);
    assert!(parsed.is_empty());
}

#[test]
fn empty_line_fails_with_unknown_command() {
    let handler = dispatcher(true);
    let err = handler.pass_command("".to_string()).unwrap_err();
    assert!(matches!(err, ClitcError::UnknownCommand(_)));
}
