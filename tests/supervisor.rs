use nautirust::channel::Channel;
use nautirust::commands::run::{runner_command, RunHandler, SubStepAction};
use nautirust::commands::{docker, expand_tilde, prepare, referenced_types, stop, Launch};
use nautirust::runner::Runner;
use nautirust::step::{RunThing, Step, StepArgument};
use nautirust::text::expand_tilde_with;
use serde_json::Value;

fn strings(v: &[&str]) -> Vec<String> {
    v.iter().map(|s| s.to_string()).collect()
}

fn json(text: &str) -> Value {
    serde_json::from_str(text).unwrap()
}

fn channel(id: &str) -> Channel {
    Channel {
        id: id.to_string(),
        required_fields: Vec::new(),
        start: Some(format!("start {}", id)),
        docker: Some(format!("docker {}", id)),
        stop: Some(format!("stop {}", id)),
        options: Vec::new(),
        location: Some(format!("/cat/{}", id)),
    }
}

fn runner(id: &str, docker: Option<&str>) -> Runner {
    let schema = jsonschema::JSONSchema::compile(&json(r#"{"type":"object","required":[]}"#)).unwrap();
    Runner {
        id: id.to_string(),
        start: Some(format!("start {}", id)),
        docker: docker.map(|d| d.to_string()),
        stop: Some(format!("stop {}", id)),
        script: "run {config} in {cwd}".to_string(),
        can_use_channel: Vec::new(),
        required_fields: Vec::new(),
        can_use_serialization: Vec::new(),
        schema,
        location: None,
    }
}

fn run_thing(id: &str, runner_id: &str) -> RunThing {
    RunThing {
        processor_config: Step {
            id: id.to_string(),
            runner_id: runner_id.to_string(),
            config: json("{}"),
            build: Some(format!("build {}", id)),
            args: Vec::new(),
            location: None,
        },
        args: Vec::new(),
    }
}

fn names(plan: &[Launch]) -> Vec<String> {
    plan.iter().map(|l| l.script.clone()).collect()
}

#[test]
fn prepare_and_stop_are_symmetric() {
    let channels = vec![channel("c1"), channel("c3"), channel("c2")];
    let runners = vec![runner("r1", None), runner("r2", None)];
    let steps = vec![run_thing("s1", "r1")];
    let types = strings(&["c1", "c2", "json"]);
    let prepare = prepare::Command { file: String::new() }.plan(&channels, &runners, &steps, &types);
    assert_eq!(names(&prepare), strings(&["start c1", "start c2", "start r1", "build s1"]));
    assert_eq!(prepare[0].location, Some("/cat/c1".to_string()));
    let stop = stop::Command { file: String::new() }.plan(&channels, &runners, &steps, &types);
    assert_eq!(names(&stop), strings(&["stop r1", "stop c2", "stop c1"]));
}

#[test]
fn compose_export_needs_docker_everywhere() {
    let runners = vec![runner("r1", Some("dock {config}")), runner("r2", None), runner("r3", Some(""))];
    let steps = vec![
        run_thing("s1", "r1"),
        run_thing("s2", "r2"),
        run_thing("s3", "r2"),
        run_thing("s4", "gone"),
        run_thing("s5", "r3"),
    ];
    let cmd = docker::Command { file: String::new(), output: false, tmp_dir: None };
    let missing = cmd.runners_without_docker(&steps, &runners);
    assert_eq!(missing, strings(&["r2", "gone", "r3"]));
    assert!(cmd.runners_without_docker(&vec![run_thing("s1", "r1")], &runners).is_empty());
    let script = cmd.step_script(&runners[0], "/t/s1.json", "/w").unwrap();
    assert_eq!(script, "dock '/t/s1.json'");
    assert!(cmd.step_script(&runners[1], "/t/s2.json", "/w").is_none());
    let services = cmd.channel_services(&vec![channel("c1"), channel("c2")], &strings(&["c2"]));
    assert_eq!(names(&services), strings(&["docker c2"]));
}

#[test]
fn script_placeholders_are_quoted_paths() {
    let command = runner_command("echo {config} && cd {cwd} && cat {config}", "/tmp/a.json", "/work");
    assert_eq!(command, "echo '/tmp/a.json' && cd '/work' && cat '/tmp/a.json'");
    assert_eq!(runner_command("plain", "/a", "/b"), "plain");
}

#[test]
fn tilde_expansion() {
    let home = Some("/home/u".to_string());
    assert_eq!(expand_tilde_with("~", home.clone()), Some("/home/u".to_string()));
    assert_eq!(expand_tilde_with("~/data", home.clone()), Some("/home/u/data".to_string()));
    assert_eq!(expand_tilde_with("/abs/x", home.clone()), Some("/abs/x".to_string()));
    assert_eq!(expand_tilde_with("~user/x", home.clone()), Some("~user/x".to_string()));
    assert_eq!(expand_tilde_with("rel", None), Some("rel".to_string()));
    assert_eq!(expand_tilde_with("~/x", None), None);
    assert_eq!(expand_tilde_with("~/x", Some("/".to_string())), Some("/x".to_string()));
    assert_eq!(expand_tilde_with("~", Some("/".to_string())), Some("/".to_string()));
    assert_eq!(expand_tilde_with("~/x", Some("/home/u/".to_string())), Some("/home/u/x".to_string()));
    assert_eq!(expand_tilde("/plain"), Some("/plain".to_string()));
}

#[test]
fn referenced_types_come_from_the_document() {
    let doc = json(r#"{"values":[{"args":{"a":{"type":"StreamReader","fields":{"x":{"type":"kafka","serialization":"json","config":{}}}}}}],"params":[]}"#);
    let mut types = referenced_types(&doc);
    types.sort();
    assert_eq!(types, strings(&["StreamReader", "kafka"]));
}

#[test]
fn run_handler_files_and_memo() {
    let mut handler = RunHandler::new("/tmp/x/".to_string());
    assert_eq!(handler.get_tmp_file("s1"), "/tmp/x/s1.json");
    assert_eq!(handler.captured_file("s1", nautirust::step::Output::Stderr), "/tmp/x/s1.stderr");
    let id = "s1".to_string();
    assert!(handler.memoised(&id).is_none());
    assert!(matches!(handler.begin_sub_step(&id), SubStepAction::Run));
    assert!(matches!(handler.begin_sub_step(&id), SubStepAction::Cycle));
    let file = handler.finish_sub_step(id.clone(), nautirust::step::Output::Stdout, "json".to_string());
    match &file {
        StepArgument::File { path, serialization } => {
            assert_eq!(path, "/tmp/x/s1.stdout");
            assert_eq!(serialization, "json");
        }
        _ => panic!("expected a file"),
    }
    assert!(handler.resolving.is_empty());
    match handler.begin_sub_step(&id) {
        SubStepAction::Reuse(StepArgument::File { path, .. }) => assert_eq!(path, "/tmp/x/s1.stdout"),
        _ => panic!("expected the remembered file"),
    }
    handler.remember("s2".to_string(), StepArgument::Param { name: "p".to_string() });
    match handler.memoised(&"s2".to_string()) {
        Some(StepArgument::Param { name }) => assert_eq!(name, "p"),
        _ => panic!("expected the remembered argument"),
    }
    match handler.captured_argument("s2", nautirust::step::Output::Stdout, "ttl".to_string()) {
        StepArgument::File { path, .. } => assert_eq!(path, "/tmp/x/s2.stdout"),
        _ => panic!("expected a file"),
    }
}

#[test]
fn cyclic_sub_steps_are_detected() {
    let mut handler = RunHandler::new("/tmp".to_string());
    let a = "a".to_string();
    let b = "b".to_string();
    assert!(handler.enter(&a));
    assert!(handler.enter(&b));
    assert!(!handler.enter(&a));
    handler.leave();
    assert!(handler.enter(&b));
    handler.leave();
    handler.leave();
    assert!(handler.resolving.is_empty());
    handler.leave();
    assert!(handler.enter(&a));
}
