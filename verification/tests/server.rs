use rcgi::tcp_class::tcp_base::{pipe_step, PipeAction, PipeEvent};
use rcgi::env::Env;
use rcgi::tcp_class::tcp_base::{
    default_register_protocol, plan_script, script_buffer_size, script_command, Registry,
    ScriptRefusal,
};
use rcgi::tcp_class::tcp_file_func::{file_header, select_file, FileKeyError};
use rcgi::tcp_class::tcp_func::tcp_env;
use rcgi::thread_pool::{plan_execute, worker_step, WorkerEvent, WORKER_BUSY, WORKER_EXITED, WORKER_IDLE};
use rcgi::utils::{
    bridge_buffer_size, pump_step, script_file, script_header, PumpAction, PumpEvent, PumpState,
};

#[test]
fn registry_keeps_names_once() {
    let mut r: Registry<u32> = Registry::new();
    default_register_protocol(&mut r, 1);
    default_register_protocol(&mut r, 2);
    assert_eq!(r.handlers().len(), 1);
    assert_eq!(r.handlers()[0], ("HTTP".to_string(), 1));
    assert!(r.register_protocol("WS".to_string(), 3));
    assert!(!r.register_protocol("WS".to_string(), 4));
    assert_eq!(r.handlers().len(), 2);
}

#[test]
fn buffer_sizes() {
    let mut env = Env::new();
    assert_eq!(script_buffer_size(&env), 131072);
    assert_eq!(bridge_buffer_size(&env), None);
    env.insert("Req_Buffer_Size".to_string(), "x".to_string());
    assert_eq!(script_buffer_size(&env), 131072);
    assert_eq!(bridge_buffer_size(&env), None);
    env.insert("Req_Buffer_Size".to_string(), "1024".to_string());
    assert_eq!(script_buffer_size(&env), 1024);
    assert_eq!(bridge_buffer_size(&env), Some(1024));
    assert_eq!(bridge_buffer_size(&script_header()), Some(131072));
}

#[test]
fn script_commands() {
    let mut env = Env::new();
    assert_eq!(script_command(&env), None);
    env.insert("req_script_path".to_string(), "run.sh".to_string());
    assert_eq!(script_command(&env).as_deref(), Some("./run.sh"));
    env.insert("req_script_path".to_string(), "/srv/cgi/run.sh".to_string());
    assert_eq!(script_command(&env).as_deref(), Some("/srv/cgi/run.sh"));
}

#[test]
fn file_selection() {
    let keys = vec!["Alpha".to_string(), "beta ".to_string()];
    let files = vec!["/tmp/a".to_string(), "/tmp/b".to_string(), "/tmp/c".to_string()];
    assert_eq!(select_file(&keys, &files, " ALPHA\n"), Ok("/tmp/a".to_string()));
    assert_eq!(select_file(&keys, &files, "Beta\r\n"), Ok("/tmp/b".to_string()));
    assert_eq!(select_file(&keys, &files, "gamma\n"), Err(FileKeyError::KeyNotExist));
    assert_eq!(select_file(&vec![], &files, "alpha\n"), Err(FileKeyError::KeyInvalid));
    let dup = vec!["k".to_string(), "k".to_string()];
    assert_eq!(select_file(&dup, &files, "k"), Ok("/tmp/b".to_string()));
    let env = file_header("alpha\n");
    assert_eq!(env.get("Req_File_Key").map(|s| s.as_str()), Some("alpha\n"));
    assert_eq!(env.get("Req_Buffer_Size").map(|s| s.as_str()), Some("131072"));
}

#[test]
fn tcp_variables() {
    let env = tcp_env("10.0.0.9", 4242, 65536);
    assert_eq!(env.get("Req_Script_Name").map(|s| s.as_str()), Some("/tcp_handle"));
    assert_eq!(env.get("Req_Peer_Ip").map(|s| s.as_str()), Some("10.0.0.9"));
    assert_eq!(env.get("Req_Peer_Port").map(|s| s.as_str()), Some("4242"));
    assert_eq!(env.get("Req_Buffer_Size").map(|s| s.as_str()), Some("65536"));
}

#[test]
fn pool_plans() {
    let p = plan_execute(&[1, 2, 0], 4);
    assert_eq!((p.idle, p.busy, p.grow), (1, 1, false));
    assert!(p.retire.is_empty());
    let p = plan_execute(&[0, 2, 0, 2], 4);
    assert_eq!((p.idle, p.busy, p.grow), (0, 2, true));
    assert_eq!(p.retire, vec![0, 2]);
    assert_eq!(p.new_id, 2);
    let p = plan_execute(&[2, 2], 2);
    assert!(!p.grow);
    let p = plan_execute(&[], 1);
    assert!(p.grow);
    assert_eq!(p.new_id, 0);
}

#[test]
fn pool_growth_stays_within_max() {
    let p = plan_execute(&[2, 0, 2, 0, 0], 3);
    assert!(p.grow);
    assert_eq!(p.retire, vec![1, 3, 4]);
    assert_eq!(p.new_id + 1, 3);
    let p = plan_execute(&[2, 0, 2, 2], 3);
    assert!(!p.grow);
}

#[test]
fn worker_steps() {
    let s = worker_step(WorkerEvent::Job);
    assert_eq!((s.running, s.after, s.exit), (Some(2), 1, false));
    let s = worker_step(WorkerEvent::Timeout);
    assert_eq!((s.running, s.after, s.exit), (None, 0, true));
}

#[test]
fn script_plans() {
    let mut env = Env::new();
    assert!(matches!(plan_script(&env, "/srv/cgi"), Err(ScriptRefusal::NoScript)));
    env.insert("req_script_path".to_string(), "hello".to_string());
    let launch = plan_script(&env, "/srv/cgi").ok().unwrap();
    assert_eq!(launch.command, "./hello");
    assert_eq!(launch.buffer_size, 131072);
    env.insert("Req_Buffer_Size".to_string(), "2048".to_string());
    env.insert("req_script_path".to_string(), "/srv/cgi/api/run".to_string());
    let launch = plan_script(&env, "/srv/cgi").ok().unwrap();
    assert_eq!(launch.command, "/srv/cgi/api/run");
    assert_eq!(launch.buffer_size, 2048);
    env.insert("req_script_path".to_string(), "/etc/passwd".to_string());
    assert!(matches!(plan_script(&env, "/srv/cgi"), Err(ScriptRefusal::OutsideDir)));
    // Components are compared as written: `..` is not resolved.
    env.insert("req_script_path".to_string(), "../x".to_string());
    let launch = plan_script(&env, "/srv/cgi").ok().unwrap();
    assert_eq!(launch.command, "./../x");
}

#[test]
fn worker_life_moves() {
    let mut state = WORKER_IDLE;
    let mut seen = vec![state];
    for event in [WorkerEvent::Job, WorkerEvent::Job, WorkerEvent::Timeout] {
        let step = worker_step(event);
        if let Some(running) = step.running {
            seen.push(running);
        }
        state = step.after;
        seen.push(state);
        if step.exit {
            break;
        }
    }
    assert_eq!(
        seen,
        vec![WORKER_IDLE, WORKER_BUSY, WORKER_IDLE, WORKER_BUSY, WORKER_IDLE, WORKER_EXITED]
    );
}

#[test]
fn pump_steps() {
    let st = PumpState { chunk: 0, sent: 0 };
    let (st, act) = pump_step(st, PumpEvent::Read(Some(10)));
    assert_eq!(st, PumpState { chunk: 10, sent: 0 });
    assert_eq!(act, PumpAction::Write { from: 0, to: 10 });
    let (st, act) = pump_step(st, PumpEvent::Wrote(4));
    assert_eq!(st, PumpState { chunk: 10, sent: 4 });
    assert_eq!(act, PumpAction::Write { from: 4, to: 10 });
    let (st, act) = pump_step(st, PumpEvent::Wrote(6));
    assert_eq!(st, PumpState { chunk: 10, sent: 10 });
    assert_eq!(act, PumpAction::Read);
    let (_, act) = pump_step(st, PumpEvent::Read(Some(3)));
    assert_eq!(act, PumpAction::Write { from: 0, to: 3 });
    let (_, act) = pump_step(PumpState { chunk: 3, sent: 1 }, PumpEvent::WriteFailed);
    assert_eq!(act, PumpAction::Read);
    assert_eq!(pump_step(st, PumpEvent::Read(Some(0))).1, PumpAction::Close);
    assert_eq!(pump_step(st, PumpEvent::Read(None)).1, PumpAction::Close);
    assert_eq!(pump_step(st, PumpEvent::ReadFailed).1, PumpAction::Close);
}

#[test]
fn script_files() {
    assert_eq!(script_file("/srv/cgi", "/tcp_handle"), "/srv/cgi/tcp_handle");
    assert_eq!(script_file("/srv/cgi", "tcp_handle"), "/srv/cgi/tcp_handle");
    assert_eq!(script_file("/srv/cgi/", "a/b"), "/srv/cgi/a/b");
    assert_eq!(script_file("", "/x"), "x");
}

#[test]
fn plain_path_prefixes() {
    let mut env = Env::new();
    env.insert("req_script_path".to_string(), "/srv/cgix/run".to_string());
    assert!(matches!(plan_script(&env, "/srv/cgi"), Err(ScriptRefusal::OutsideDir)));
    env.insert("req_script_path".to_string(), "/srv/cgi".to_string());
    assert!(plan_script(&env, "/srv/cgi").is_ok());
}

#[test]
fn script_pipe_steps() {
    assert_eq!(pipe_step(0, PipeEvent::Read(Some(7)), false), PipeAction::Write(7));
    assert_eq!(pipe_step(7, PipeEvent::Wrote, false), PipeAction::Read);
    assert_eq!(pipe_step(0, PipeEvent::Wrote, false), PipeAction::Read);
    assert_eq!(pipe_step(0, PipeEvent::Wrote, true), PipeAction::Stop);
    assert_eq!(pipe_step(7, PipeEvent::Wrote, true), PipeAction::Read);
    assert_eq!(pipe_step(7, PipeEvent::Read(None), false), PipeAction::Stop);
    assert_eq!(pipe_step(7, PipeEvent::ReadFailed, true), PipeAction::Stop);
    assert_eq!(pipe_step(7, PipeEvent::WriteFailed, true), PipeAction::Stop);
}
