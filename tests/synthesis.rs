use nautirust::assoc::bind;
use nautirust::channel::{accepted_options, keep_accepted, Channel, ChannelConfig};
use nautirust::commands::run::RunHandler;
use nautirust::commands::state::{
    arg_kind, ask_channel_config, ask_user_for_channel, configure_lingering, extract_string_array, plain_value, ArgKind, ChannelOptions,
    Ctx, SourceChoice, State, SynthError,
};
use nautirust::commands::user::{
    ask_user_for_serialization, create_valid_tmp_target_fn, get_if_only_one,
};
use nautirust::runner::{retain_known_runners, Runner};
use nautirust::step::{
    admit_steps, number_steps, select_steps, Output, RunThing, Step, StepArg, StepArgument,
    StepArguments, SubStep,
};
use serde_json::Value;

fn strings(v: &[&str]) -> Vec<String> {
    v.iter().map(|s| s.to_string()).collect()
}

fn json(text: &str) -> Value {
    serde_json::from_str(text).unwrap()
}

fn schema(required: &[&str]) -> jsonschema::JSONSchema {
    let required: Vec<Value> = required.iter().map(|s| Value::from(*s)).collect();
    let mut map = serde_json::Map::new();
    map.insert("type".to_string(), Value::from("object"));
    map.insert("required".to_string(), Value::Array(required));
    jsonschema::JSONSchema::compile(&Value::Object(map)).unwrap()
}

fn channel(id: &str, options: Vec<Value>) -> Channel {
    Channel {
        id: id.to_string(),
        required_fields: Vec::new(),
        start: Some(format!("start {}", id)),
        docker: None,
        stop: Some(format!("stop {}", id)),
        options,
        location: None,
    }
}

fn runner(id: &str, channels: &[&str], sers: &[&str]) -> Runner {
    Runner {
        id: id.to_string(),
        start: Some(format!("start {}", id)),
        docker: None,
        stop: Some(format!("stop {}", id)),
        script: "echo {config}".to_string(),
        can_use_channel: strings(channels),
        required_fields: Vec::new(),
        can_use_serialization: strings(sers),
        schema: schema(&[]),
        location: None,
    }
}

fn arg(id: &str, ty: &str, other: &str) -> StepArg {
    StepArg {
        id: id.to_string(),
        ty: ty.to_string(),
        other: json(other),
        default: false,
        value: String::new(),
        description: String::new(),
    }
}

fn step(id: &str, runner_id: &str, args: Vec<StepArg>) -> Step {
    Step {
        id: id.to_string(),
        runner_id: runner_id.to_string(),
        config: json("{}"),
        build: Some(format!("build {}", id)),
        args,
        location: None,
    }
}

fn ctx(channels: &[&str], sers: &[&str]) -> Ctx {
    Ctx { channels: strings(channels), serializations: strings(sers) }
}

fn writer_config(args: &[(String, StepArgument)], id: &str, field: &str) -> Option<ChannelConfig> {
    for (k, a) in args {
        if k == id {
            if let StepArgument::StreamWriter { fields } = a {
                for (f, c) in fields {
                    if f == field {
                        return Some(c.duplicate());
                    }
                }
            }
        }
    }
    None
}

fn same_config(a: &ChannelConfig, b: &ChannelConfig) -> bool {
    a.ty == b.ty && a.serialization == b.serialization && a.config == b.config
}

#[test]
fn zero_steps_give_an_empty_document() {
    let doc = State::new().complete();
    assert!(doc.steps.is_empty());
    assert!(doc.params.is_empty());
}

#[test]
fn single_step_plain_argument() {
    let runners = vec![runner("r1", &[], &[])];
    let s1 = step("s1", "r1", vec![arg("x", "int", "{}")]);
    let steps = admit_steps(vec![s1], &runners);
    assert_eq!(steps[0].id, "s1_1");
    let mut state = State::new();
    let mut args = StepArguments::new(&steps[0]);
    assert_eq!(arg_kind(&steps[0].args[0].ty), ArgKind::Literal);
    args.add_argument("x".to_string(), plain_value("42".to_string()));
    state.finish_step(args).unwrap();
    let doc = state.complete();
    assert_eq!(doc.steps.len(), 1);
    assert!(doc.params.is_empty());
    match &doc.steps[0].args[0] {
        (k, StepArgument::Plain { value }) => {
            assert_eq!(k, "x");
            assert_eq!(value, &Value::from(42));
        }
        _ => panic!("expected a plain argument"),
    }
}

#[test]
fn writer_reader_auto_link() {
    let channels = vec![channel("kafka", vec![json(r#"{"topic":"t1"}"#)])];
    let mut options = ChannelOptions::from_channels(&channels);
    let runners = vec![runner("r1", &["kafka"], &["json"]), runner("r2", &["kafka"], &["json"])];
    let s1 = step("s1", "r1", vec![arg("w", "streamWriter", r#"{"targetIds":["x"]}"#)]);
    let s2 = step("s2", "r2", vec![arg("in", "streamReader", r#"{"sourceIds":["x"]}"#)]);
    let mut state = State::new();

    let c1 = Ctx::for_runner(&runners, &s1.runner_id).unwrap();
    assert_eq!(arg_kind(&s1.args[0].ty), ArgKind::StreamWriter);
    state.apply_writer_arg(&s1, &s1.args[0], &c1);
    state.finish_step(StepArguments::new(&s1)).unwrap();

    let c2 = Ctx::for_runner(&runners, &s2.runner_id).unwrap();
    assert_eq!(arg_kind(&s2.args[0].ty), ArgKind::StreamReader);
    let sources = extract_string_array(&s2.args[0].other, "sourceIds").unwrap();
    assert_eq!(sources, strings(&["x"]));
    let filter = create_valid_tmp_target_fn(&c2.channels, &c2.serializations);
    let candidates = state.reader_candidates(&filter);
    assert_eq!(candidates, vec![0]);
    let pick = state.auto_link(&candidates, &sources[0]).unwrap();
    let target = state.take_target(candidates[pick]);
    let (types, sers) = target.link_choices(&c2);
    let (config, ty) = ask_user_for_channel(&types, 0, &mut options, true, 0).unwrap();
    let ser = ask_user_for_serialization(&sers, 0);
    let shared = ChannelConfig::new(ty, ser, config);
    let mut fields = Vec::new();
    state.link_reader(&mut fields, &sources[0], &target, shared).unwrap();
    let mut a2 = StepArguments::new(&s2);
    a2.add_argument("in".to_string(), StepArgument::StreamReader { fields });
    state.finish_step(a2).unwrap();

    let doc = state.complete();
    assert_eq!(doc.steps.len(), 2);
    let expected = ChannelConfig::new("kafka".to_string(), "json".to_string(), json(r#"{"topic":"t1"}"#));
    let written = writer_config(&doc.steps[0].args, "w", "x").unwrap();
    let read = match &doc.steps[1].args[0].1 {
        StepArgument::StreamReader { fields } => fields[0].1.duplicate(),
        _ => panic!("expected a reader"),
    };
    assert!(same_config(&written, &expected));
    assert!(same_config(&read, &expected));
}

#[test]
fn process_sub_step_is_consumed() {
    let runners = vec![runner("r1", &[], &["json"]), runner("r2", &[], &["json", "xml"])];
    let s1 = step("s1", "r1", vec![]);
    let s2 = step("s2", "r2", vec![arg("data", "string", "{}")]);
    let mut state = State::new();
    state.finish_step(StepArguments::new(&s1)).unwrap();
    let c2 = Ctx::for_runner(&runners, &s2.runner_id).unwrap();
    let sers = state.process_serializations(0, &runners, &c2).unwrap();
    assert_eq!(sers, strings(&["json"]));
    match state.process_output(0, Output::Stdout, &runners, &c2, 1) {
        Err(e) => assert_eq!(e, SynthError::NoChoice),
        Ok(_) => panic!("the choice lies outside the shared serializations"),
    }
    assert!(state.used.is_empty());
    let sub = state.process_output(0, Output::Stdout, &runners, &c2, 0).unwrap();
    match &sub {
        StepArgument::Step { sub } => {
            assert_eq!(sub.run.processor_config.id, "s1");
            assert_eq!(sub.output, Output::Stdout);
            assert_eq!(sub.serialization, "json");
        }
        _ => panic!("expected a sub-step"),
    }
    let mut a2 = StepArguments::new(&s2);
    a2.add_argument("data".to_string(), sub);
    state.finish_step(a2).unwrap();
    let doc = state.complete();
    assert_eq!(doc.steps.len(), 1);
    assert_eq!(doc.steps[0].processor_config.id, "s2");

    let handler = RunHandler::new("/tmp/run".to_string());
    match handler.captured_argument("s1", Output::Stdout, "json".to_string()) {
        StepArgument::File { path, serialization } => {
            assert_eq!(path, "/tmp/run/s1.stdout");
            assert_eq!(serialization, "json");
        }
        _ => panic!("expected a file"),
    }
}

#[test]
fn option_exhaustion_is_fatal() {
    let channels = vec![channel("kafka", vec![json(r#"{"topic":"a"}"#), json(r#"{"topic":"b"}"#)])];
    let mut options = ChannelOptions::from_channels(&channels);
    let types = strings(&["kafka"]);
    let (first, _) = ask_user_for_channel(&types, 0, &mut options, true, 0).unwrap();
    let (second, _) = ask_user_for_channel(&types, 0, &mut options, true, 0).unwrap();
    assert_eq!(first, json(r#"{"topic":"a"}"#));
    assert_eq!(second, json(r#"{"topic":"b"}"#));
    let third = ask_user_for_channel(&types, 0, &mut options, true, 0);
    assert_eq!(third.unwrap_err(), SynthError::NoOptionLeft);
}

#[test]
fn each_pick_removes_exactly_one() {
    let same = json(r#"{"topic":"t"}"#);
    let channels = vec![channel("kafka", vec![same.clone(), same.clone()])];
    let mut options = ChannelOptions::from_channels(&channels);
    let kafka = "kafka".to_string();
    assert_eq!(options.entries[0].1.len(), 2);
    assert_eq!(options.take(&kafka, 1).unwrap(), same);
    assert_eq!(options.entries[0].1.len(), 1);
    assert_eq!(options.take(&kafka, 0).unwrap(), same);
    assert_eq!(options.entries[0].1.len(), 0);
    assert_eq!(options.take(&"other".to_string(), 0).unwrap_err(), SynthError::UnknownChannel);
}

#[test]
fn manual_pick_takes_the_chosen_option() {
    let channels = vec![channel("kafka", vec![json("1"), json("2"), json("3")])];
    let mut options = ChannelOptions::from_channels(&channels);
    let (v, ty) = ask_user_for_channel(&strings(&["kafka"]), 0, &mut options, false, 2).unwrap();
    assert_eq!(v, json("3"));
    assert_eq!(ty, "kafka");
    assert_eq!(options.entries[0].1, vec![json("1"), json("2")]);
}

#[test]
fn lingering_writer_still_gets_a_channel() {
    let runners = vec![runner("r1", &["kafka"], &["json"])];
    let s1 = step("s1", "r1", vec![arg("w", "streamWriter", r#"{"targetIds":["out"]}"#)]);
    let mut state = State::new();
    let c1 = Ctx::for_runner(&runners, &s1.runner_id).unwrap();
    state.apply_writer_arg(&s1, &s1.args[0], &c1);
    state.finish_step(StepArguments::new(&s1)).unwrap();
    let open = state.lingering();
    assert_eq!(open.len(), 1);
    assert_eq!(open[0].name, "out");
    assert_eq!(open[0].writer_id, "w");
    assert!(state.open_channels.is_empty());
    let config = ChannelConfig::new("kafka".to_string(), "json".to_string(), json("{}"));
    state.use_target(&open[0], config).unwrap();
    let doc = state.complete();
    assert!(writer_config(&doc.steps[0].args, "w", "out").is_some());
}

#[test]
fn duplicate_step_ids_are_rejected() {
    let s1 = step("s1", "r1", vec![]);
    let mut state = State::new();
    state.finish_step(StepArguments::new(&s1)).unwrap();
    assert_eq!(state.finish_step(StepArguments::new(&s1)).unwrap_err(), SynthError::DuplicateStep);
}

#[test]
fn writer_of_unfinished_step_is_unknown() {
    let runners = vec![runner("r1", &["kafka"], &["json"])];
    let s1 = step("s1", "r1", vec![arg("w", "streamWriter", r#"{"targetIds":["x"]}"#)]);
    let mut state = State::new();
    let c1 = Ctx::for_runner(&runners, &s1.runner_id).unwrap();
    state.apply_writer_arg(&s1, &s1.args[0], &c1);
    let target = state.take_target(0);
    let config = ChannelConfig::new("kafka".to_string(), "json".to_string(), json("{}"));
    let mut fields = Vec::new();
    let r = state.link_reader(&mut fields, &"x".to_string(), &target, config);
    assert_eq!(r.unwrap_err(), SynthError::UnknownStep);
    assert!(fields.is_empty());
}

#[test]
fn auto_link_needs_exactly_one_named_writer() {
    let runners = vec![runner("r1", &["kafka"], &["json"])];
    let s1 = step("s1", "r1", vec![arg("w", "streamWriter", r#"{"targetIds":["x","x","y"]}"#)]);
    let mut state = State::new();
    let c1 = Ctx::for_runner(&runners, &s1.runner_id).unwrap();
    state.apply_writer_arg(&s1, &s1.args[0], &c1);
    let filter = create_valid_tmp_target_fn(&c1.channels, &c1.serializations);
    let candidates = state.reader_candidates(&filter);
    assert_eq!(candidates, vec![0, 1, 2]);
    assert_eq!(state.auto_link(&candidates, &"x".to_string()), None);
    assert_eq!(state.auto_link(&candidates, &"y".to_string()), Some(2));
    assert_eq!(state.auto_link(&candidates, &"z".to_string()), None);
    let other = create_valid_tmp_target_fn(&strings(&["file"]), &strings(&["json"]));
    assert!(state.reader_candidates(&other).is_empty());
}

#[test]
fn parameters_are_listed() {
    let mut state = State::new();
    match state.add_param("p".to_string()) {
        StepArgument::Param { name } => assert_eq!(name, "p"),
        _ => panic!("expected a parameter"),
    }
    state.add_param("q".to_string());
    assert_eq!(state.complete().params, strings(&["p", "q"]));
}

#[test]
fn plain_text_that_is_not_json_stays_a_string() {
    match plain_value("hello world".to_string()) {
        StepArgument::Plain { value } => assert_eq!(value, Value::from("hello world")),
        _ => panic!("expected a plain argument"),
    }
    match plain_value("[1, 2]".to_string()) {
        StepArgument::Plain { value } => assert_eq!(value, json("[1,2]")),
        _ => panic!("expected a plain argument"),
    }
}

#[test]
fn steps_are_numbered_per_id() {
    let steps = number_steps(vec![step("a", "r", vec![]), step("b", "r", vec![]), step("a", "r", vec![])]);
    let ids: Vec<&str> = steps.iter().map(|s| s.id.as_str()).collect();
    assert_eq!(ids, vec!["a_1", "b_1", "a_2"]);
}

#[test]
fn steps_without_runner_or_valid_config_are_dropped() {
    let mut strict = runner("strict", &[], &[]);
    strict.schema = schema(&["name"]);
    let runners = vec![runner("r1", &[], &[]), strict];
    let mut good = step("good", "strict", vec![]);
    good.config = json(r#"{"name":"n"}"#);
    let steps = vec![
        step("a", "r1", vec![]),
        step("lost", "missing", vec![]),
        step("bad", "strict", vec![]),
        good,
        step("a", "r1", vec![]),
    ];
    let kept = admit_steps(steps, &runners);
    let ids: Vec<&str> = kept.iter().map(|s| s.id.as_str()).collect();
    assert_eq!(ids, vec!["a_1", "good_1", "a_2"]);
}

#[test]
fn runners_naming_unknown_channels_are_dropped() {
    let channels = vec![channel("kafka", vec![])];
    let mut empty = runner("empty", &[], &[]);
    empty.script = String::new();
    let runners = vec![
        runner("ok", &["kafka"], &[]),
        runner("bad", &["kafka", "ws"], &[]),
        empty,
        runner("none", &[], &[]),
    ];
    let kept = retain_known_runners(runners, &channels);
    let ids: Vec<&str> = kept.iter().map(|r| r.id.as_str()).collect();
    assert_eq!(ids, vec!["ok", "none"]);
}

#[test]
fn options_failing_the_schema_are_dropped() {
    let options = vec![json(r#"{"topic":"a"}"#), json(r#"{"other":1}"#), json("3"), json(r#"{"topic":"b","x":1}"#)];
    let kept = accepted_options(&options, &schema(&["topic"]));
    assert_eq!(kept, vec![json(r#"{"topic":"a"}"#), json(r#"{"topic":"b","x":1}"#)]);
}

#[test]
fn later_channel_with_same_id_wins() {
    let channels = vec![channel("kafka", vec![json("1")]), channel("kafka", vec![json("2"), json("3")])];
    let options = ChannelOptions::from_channels(&channels);
    assert_eq!(options.entries.len(), 1);
    assert_eq!(options.entries[0].1, vec![json("2"), json("3")]);
}

#[test]
fn single_item_helpers() {
    assert_eq!(get_if_only_one(vec![7]), Some(7));
    assert_eq!(get_if_only_one(Vec::<u8>::new()), None);
    assert_eq!(get_if_only_one(vec![1, 2]), None);
    assert_eq!(ask_user_for_serialization(&strings(&["json", "turtle"]), 1), "turtle");
    assert_eq!(arg_kind(&"streamReader".to_string()), ArgKind::StreamReader);
    assert_eq!(arg_kind(&"other".to_string()), ArgKind::Literal);
    assert_eq!(extract_string_array(&json(r#"{"k":["a",1,"b"]}"#), "k"), Some(strings(&["a", "b"])));
    assert_eq!(extract_string_array(&json(r#"{"k":"a"}"#), "k"), None);
}

#[test]
fn binding_replaces_an_existing_key() {
    let mut entries: Vec<(String, u8)> = Vec::new();
    bind(&mut entries, "a".to_string(), 1);
    bind(&mut entries, "b".to_string(), 2);
    bind(&mut entries, "a".to_string(), 3);
    assert_eq!(entries, vec![("a".to_string(), 3), ("b".to_string(), 2)]);
}

#[test]
fn reader_source_resolution() {
    let channels = vec![
        channel("kafka", vec![json(r#"{"topic":"t1"}"#), json(r#"{"topic":"t2"}"#)]),
        channel("file", vec![json(r#"{"path":"/p"}"#)]),
    ];
    let mut options = ChannelOptions::from_channels(&channels);
    let runners = vec![
        runner("r1", &["kafka"], &["json", "xml"]),
        runner("r2", &["file", "kafka"], &["xml", "json"]),
    ];
    let s1 = step("s1", "r1", vec![arg("w", "streamWriter", r#"{"targetIds":["x"]}"#)]);
    let s2 = step("s2", "r2", vec![arg("in", "streamReader", r#"{"sourceIds":["x","y"]}"#)]);
    let mut state = State::new();
    let c1 = Ctx::for_runner(&runners, &s1.runner_id).unwrap();
    state.apply_writer_arg(&s1, &s1.args[0], &c1);
    state.finish_step(StepArguments::new(&s1)).unwrap();
    let c2 = Ctx::for_runner(&runners, &s2.runner_id).unwrap();
    let mut fields = Vec::new();

    let out_of_range = SourceChoice { writer: 9, channel_type: 5, option: 0, serialization: 0 };
    let r = ask_channel_config(&mut state, &mut fields, &"x".to_string(), &c2, &mut options, true, out_of_range);
    assert_eq!(r.unwrap_err(), SynthError::NoChoice);
    assert_eq!(state.open_channels.len(), 1);

    // automatic: the writer named "x" is linked whatever the writer pick says;
    // the shared serializations are in the writer's order: json, xml
    let linked = SourceChoice { writer: 9, channel_type: 0, option: 0, serialization: 1 };
    ask_channel_config(&mut state, &mut fields, &"x".to_string(), &c2, &mut options, true, linked).unwrap();
    assert!(state.open_channels.is_empty());

    // no writer left: "y" takes the second channel type of the reader, "kafka"
    let other = SourceChoice { writer: 0, channel_type: 1, option: 0, serialization: 0 };
    ask_channel_config(&mut state, &mut fields, &"y".to_string(), &c2, &mut options, true, other).unwrap();
    let mut a2 = StepArguments::new(&s2);
    a2.add_argument("in".to_string(), StepArgument::StreamReader { fields });
    state.finish_step(a2).unwrap();

    let doc = state.complete();
    let written = writer_config(&doc.steps[0].args, "w", "x").unwrap();
    let t1 = ChannelConfig::new("kafka".to_string(), "xml".to_string(), json(r#"{"topic":"t1"}"#));
    assert!(same_config(&written, &t1));
    match &doc.steps[1].args[0].1 {
        StepArgument::StreamReader { fields } => {
            assert_eq!(fields.len(), 2);
            assert!(same_config(&fields[0].1, &t1));
            let t2 = ChannelConfig::new("kafka".to_string(), "xml".to_string(), json(r#"{"topic":"t2"}"#));
            assert_eq!(fields[1].0, "y");
            assert!(same_config(&fields[1].1, &t2));
        }
        _ => panic!("expected a reader"),
    }
    assert_eq!(options.entries[0].1.len(), 0);
}

#[test]
fn lingering_writer_is_configured_from_answers() {
    let channels = vec![channel("kafka", vec![json("1"), json("2")])];
    let mut options = ChannelOptions::from_channels(&channels);
    let runners = vec![runner("r1", &["kafka"], &["json", "xml"])];
    let s1 = step("s1", "r1", vec![arg("w", "streamWriter", r#"{"targetIds":["out"]}"#)]);
    let mut state = State::new();
    let c1 = Ctx::for_runner(&runners, &s1.runner_id).unwrap();
    state.apply_writer_arg(&s1, &s1.args[0], &c1);
    state.finish_step(StepArguments::new(&s1)).unwrap();
    let open = state.lingering();
    let bad = SourceChoice { writer: 0, channel_type: 0, option: 0, serialization: 2 };
    assert_eq!(
        configure_lingering(&mut state, &open[0], &mut options, false, bad).unwrap_err(),
        SynthError::NoChoice
    );
    let choice = SourceChoice { writer: 0, channel_type: 0, option: 1, serialization: 1 };
    configure_lingering(&mut state, &open[0], &mut options, false, choice).unwrap();
    let doc = state.complete();
    let written = writer_config(&doc.steps[0].args, "w", "out").unwrap();
    let expected = ChannelConfig::new("kafka".to_string(), "xml".to_string(), json("2"));
    assert!(same_config(&written, &expected));
    assert_eq!(options.entries[0].1, vec![json("1")]);
}

#[test]
fn verdicts_select_options_and_steps() {
    let options = vec![json("1"), json("2"), json("3")];
    assert_eq!(keep_accepted(&options, &vec![true, false, true]), vec![json("1"), json("3")]);
    let runners = vec![runner("r1", &[], &[])];
    let steps = vec![
        step("a", "r1", vec![]),
        step("b", "r1", vec![]),
        step("c", "missing", vec![]),
        step("a", "r1", vec![]),
    ];
    let kept = select_steps(steps, &runners, &vec![true, false, true, true]);
    let ids: Vec<&str> = kept.iter().map(|s| s.id.as_str()).collect();
    assert_eq!(ids, vec!["a_1", "a_2"]);
}

#[test]
fn inlined_step_is_never_emitted() {
    let s1 = step("s1", "r1", vec![]);
    let s2 = step("s2", "r1", vec![]);
    let mut state = State::new();
    state.finish_step(StepArguments::new(&s1)).unwrap();
    let inlined = StepArgument::Step {
        sub: SubStep {
            run: RunThing { processor_config: s1.duplicate(), args: Vec::new() },
            serialization: "json".to_string(),
            output: Output::Stderr,
        },
    };
    let mut a2 = StepArguments::new(&s2);
    a2.add_argument("in".to_string(), inlined);
    state.finish_step(a2).unwrap();
    assert_eq!(state.used, strings(&["s1"]));
    let doc = state.complete();
    assert_eq!(doc.steps.len(), 1);
    assert_eq!(doc.steps[0].processor_config.id, "s2");
}

#[test]
fn parameters_are_listed_once() {
    let mut state = State::new();
    state.add_param("p".to_string());
    state.add_param("p".to_string());
    let s1 = step("s1", "r1", vec![]);
    let mut a1 = StepArguments::new(&s1);
    a1.add_argument("x".to_string(), StepArgument::Param { name: "q".to_string() });
    state.finish_step(a1).unwrap();
    assert_eq!(state.complete().params, strings(&["p", "q"]));
}
