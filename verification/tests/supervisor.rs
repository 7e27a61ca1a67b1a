use mcmanage::configuration::Server;
use mcmanage::server_runner::{CommandOutcome, RunnerCommand, ServerRunner};

fn spec(id: usize) -> Server {
    let mut server = Server::new(format!("server {}", id), "1.21".to_string(), true);
    server.id = id;
    server
}

#[test]
fn get_output_for_unknown_identifier_is_absent() {
    let runner = ServerRunner::new();
    assert_eq!(runner.get_output(7), None);
}

#[test]
fn get_output_for_fresh_identifier_is_empty_string_not_absent() {
    let mut runner = ServerRunner::new();
    runner.register_server(1);
    assert_eq!(runner.get_output(1), Some(String::new()));
}

#[test]
fn issued_command_appears_in_later_output() {
    let mut runner = ServerRunner::new();
    runner.register_server(3);
    runner.record_output(3, "booting".to_string());
    let data = runner.issue_command(3, "say hello".to_string());
    assert_eq!(data, Some("say hello\n".to_string()));
    let output = runner.get_output(3).unwrap();
    assert!(output.contains("say hello"));
    assert_eq!(output, "booting\nsay hello");
}

#[test]
fn issue_command_for_unknown_identifier_is_a_no_op() {
    let mut runner = ServerRunner::new();
    runner.register_server(1);
    assert_eq!(runner.issue_command(2, "stop".to_string()), None);
    assert_eq!(runner.get_output(1), Some(String::new()));
}

#[test]
fn output_line_for_unknown_identifier_is_dropped() {
    let mut runner = ServerRunner::new();
    runner.register_server(1);
    runner.record_output(9, "stray".to_string());
    assert_eq!(runner.get_output(9), None);
    assert_eq!(runner.get_output(1), Some(String::new()));
}

#[test]
fn starting_unique_identifiers_registers_each_once() {
    let mut runner = ServerRunner::new();
    for id in [1usize, 2, 3, 4] {
        let existed = runner.remove_server(id);
        assert!(!existed);
        runner.register_server(id);
    }
    for id in [1usize, 2, 3, 4] {
        assert!(runner.is_live(id));
        assert_eq!(runner.get_output(id), Some(String::new()));
    }
    assert!(!runner.is_live(5));
}

#[test]
fn starting_twice_reports_the_old_record_and_leaves_one_fresh_record() {
    let mut runner = ServerRunner::new();
    assert!(!runner.remove_server(1));
    runner.register_server(1);
    runner.record_output(1, "old process output".to_string());
    // The second start finds the old record: exactly then the event loop
    // must kill the old process before spawning the new one.
    assert!(runner.remove_server(1));
    runner.register_server(1);
    assert!(runner.is_live(1));
    assert_eq!(runner.get_output(1), Some(String::new()));
}

#[test]
fn stop_drops_only_the_named_record() {
    let mut runner = ServerRunner::new();
    runner.register_server(1);
    runner.register_server(2);
    assert!(runner.remove_server(1));
    assert!(!runner.remove_server(1));
    assert_eq!(runner.get_output(1), None);
    assert_eq!(runner.get_output(2), Some(String::new()));
}

#[test]
fn stop_all_then_get_output_is_absent_for_every_previous_identifier() {
    let mut runner = ServerRunner::new();
    runner.register_server(1);
    runner.register_server(2);
    runner.record_output(1, "running".to_string());
    runner.remove_all();
    assert_eq!(runner.get_output(1), None);
    assert_eq!(runner.get_output(2), None);
    assert!(!runner.is_live(1));
    assert!(!runner.is_live(2));
}

#[test]
fn ready_then_stop_scenario() {
    // Start identifier 1, let its process echo "ready" once and exit:
    // the reader task reports the line; the query returns it; a stop then
    // makes the identifier absent.
    let mut runner = ServerRunner::new();
    let existed = runner.remove_server(1);
    assert!(!existed);
    runner.register_server(1);
    runner.record_output(1, "ready".to_string());
    assert_eq!(runner.get_output(1), Some("ready".to_string()));
    assert!(runner.remove_server(1));
    assert_eq!(runner.get_output(1), None);
}

#[test]
fn handle_command_start_server_directs_a_launch() {
    let mut runner = ServerRunner::new();
    match runner.handle_command(RunnerCommand::StartServer { server: spec(5) }) {
        CommandOutcome::Launch { servers } => {
            assert_eq!(servers.len(), 1);
            assert_eq!(servers[0].id, 5);
        }
        _ => panic!("expected a launch outcome"),
    }
    // The table itself is only touched when the spawn succeeds.
    assert!(!runner.is_live(5));
}

#[test]
fn handle_command_start_all_hands_back_the_whole_list() {
    let mut runner = ServerRunner::new();
    let cmd = RunnerCommand::StartAll { servers: vec![spec(1), spec(2)] };
    match runner.handle_command(cmd) {
        CommandOutcome::Launch { servers } => {
            assert_eq!(servers.len(), 2);
            assert_eq!(servers[0].id, 1);
            assert_eq!(servers[1].id, 2);
        }
        _ => panic!("expected a launch outcome"),
    }
}

#[test]
fn handle_command_stop_reports_whether_a_kill_is_owed() {
    let mut runner = ServerRunner::new();
    runner.register_server(4);
    match runner.handle_command(RunnerCommand::StopServer { id: 4 }) {
        CommandOutcome::Stopped { existed } => assert!(existed),
        _ => panic!("expected a stopped outcome"),
    }
    match runner.handle_command(RunnerCommand::StopServer { id: 4 }) {
        CommandOutcome::Stopped { existed } => assert!(!existed),
        _ => panic!("expected a stopped outcome"),
    }
}

#[test]
fn handle_command_stop_all_empties_the_table() {
    let mut runner = ServerRunner::new();
    runner.register_server(1);
    runner.register_server(2);
    match runner.handle_command(RunnerCommand::StopAll) {
        CommandOutcome::StoppedAll => {}
        _ => panic!("expected a stopped-all outcome"),
    }
    match runner.handle_command(RunnerCommand::GetOutput { id: 1 }) {
        CommandOutcome::Output { reply } => assert_eq!(reply, None),
        _ => panic!("expected an output outcome"),
    }
}

#[test]
fn handle_command_issue_and_query() {
    let mut runner = ServerRunner::new();
    runner.register_server(8);
    let cmd = RunnerCommand::IssueCommand { id: 8, command: "list".to_string() };
    match runner.handle_command(cmd) {
        CommandOutcome::Stdin { data } => assert_eq!(data, Some("list\n".to_string())),
        _ => panic!("expected a stdin outcome"),
    }
    match runner.handle_command(RunnerCommand::GetOutput { id: 8 }) {
        CommandOutcome::Output { reply } => assert_eq!(reply, Some("list".to_string())),
        _ => panic!("expected an output outcome"),
    }
}
