use policy_slicing::add_numbers;
use policy_slicing::bench::{App, EngineChoice, GoTestOutput};
use policy_slicing::openfga::{OpenFgaTuple, TupleKeys, WriteTuplesPayload};
use policy_slicing::tinytodo::{get_port, parse_port, ArgError, Empty, TaskState};

#[test]
fn simple() {
    assert_eq!(add_numbers(1, 2), 3);
}

#[test]
fn port_defaults_to_8080() {
    let args = vec!["todo".to_string()];
    assert_eq!(get_port(&args), Ok(8080));
}

#[test]
fn port_reads_the_first_argument() {
    let args = vec!["todo".to_string(), "9090".to_string()];
    assert_eq!(get_port(&args), Ok(9090));
}

#[test]
fn port_rejects_bad_arguments() {
    for bad in ["", "abc", "12x", "-1", "70000", "+", " 80"] {
        let args = vec!["todo".to_string(), bad.to_string()];
        assert_eq!(get_port(&args), Err(ArgError::Parse), "argument {bad:?}");
    }
}

#[test]
fn port_accepts_edge_values() {
    assert_eq!(parse_port("0"), Ok(0));
    assert_eq!(parse_port("65535"), Ok(65535));
    assert_eq!(parse_port("65536"), Err(ArgError::Parse));
    assert_eq!(parse_port("+123"), Ok(123));
    assert_eq!(parse_port("00080"), Ok(80));
}

#[test]
fn empty_reply_says_ok() {
    assert_eq!(Empty::default().message(), "ok");
}

#[test]
fn task_state_labels() {
    assert_eq!(TaskState::Checked.label(), "checked");
    assert_eq!(TaskState::Unchecked.label(), "unchecked");
}

#[test]
fn engine_and_app_labels() {
    assert_eq!(App::Github.label(), "github");
    assert_eq!(App::GdriveTemplates.label(), "gdrive-templates");
    assert_eq!(App::TinyTodo.label(), "tinytodo");
    assert_eq!(EngineChoice::Cedar.label(), "cedar");
    assert_eq!(EngineChoice::CedarOpt.label(), "cedaropt");
    assert_eq!(EngineChoice::RegoPreTC.label(), "rego_pre_tc");
}

fn tuple(n: usize) -> OpenFgaTuple {
    OpenFgaTuple {
        user: format!("user:{n}"),
        relation: "member".to_string(),
        object: format!("team:{n}"),
    }
}

#[test]
fn tuple_key_lists_report_their_size() {
    let empty = TupleKeys::empty();
    assert!(empty.is_empty());
    assert_eq!(empty.len(), 0);
    let two = TupleKeys::new(vec![tuple(1), tuple(2)]);
    assert!(!two.is_empty());
    assert_eq!(two.len(), 2);
}

#[test]
fn batches_cut_into_full_chunks_plus_remainder() {
    let tuples: Vec<OpenFgaTuple> = (0..25).map(tuple).collect();
    let keys = TupleKeys::new(tuples.clone());
    let batches = keys.batches(10);
    assert_eq!(batches.len(), 3);
    assert_eq!(batches[0].len(), 10);
    assert_eq!(batches[1].len(), 10);
    assert_eq!(batches[2].len(), 5);
    let rejoined: Vec<OpenFgaTuple> = batches
        .iter()
        .flat_map(|b| b.tuple_keys.iter().cloned())
        .collect();
    assert_eq!(rejoined, tuples);
}

#[test]
fn batches_of_an_empty_list_are_none() {
    assert_eq!(TupleKeys::empty().batches(10).len(), 0);
}

#[test]
fn short_lists_fit_in_one_batch() {
    let keys = TupleKeys::new(vec![tuple(1), tuple(2), tuple(3)]);
    let batches = keys.batches(10);
    assert_eq!(batches.len(), 1);
    assert_eq!(batches[0].len(), 3);
}

#[test]
fn write_payload_keeps_its_parts() {
    let writes = TupleKeys::new(vec![tuple(1)]);
    let deletes = TupleKeys::empty();
    let payload = WriteTuplesPayload::new(writes.clone(), deletes.clone(), "model-1");
    assert_eq!(payload.writes, writes);
    assert_eq!(payload.deletes, deletes);
    assert_eq!(payload.authorization_model_id, "model-1");
}

#[test]
fn go_test_output_carries_decision_and_duration() {
    let out = GoTestOutput {
        decision: true,
        dur_nanoseconds: 1500,
    };
    assert!(out.decision);
    assert_eq!(out.dur_nanoseconds, 1500);
}
