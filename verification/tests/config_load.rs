use mprocs::config::{
    CmdConfig, Config, ConfigEntry, ConfigValue, ErrorKind, ProcConfig, ServerConfig, Trace,
};
use mprocs::proc::{StopPolicy, StopSignal};

fn os() -> String {
    "linux".to_string()
}

fn s(v: &str) -> ConfigValue {
    ConfigValue::Str(v.to_string())
}

fn obj(pairs: Vec<(ConfigValue, ConfigValue)>) -> ConfigValue {
    ConfigValue::Obj(
        pairs
            .into_iter()
            .map(|(key, value)| ConfigEntry { key, value })
            .collect(),
    )
}

#[test]
fn server_config_from_str_keeps_address() {
    let ServerConfig::Tcp(a) = ServerConfig::from_str("127.0.0.1:4050");
    assert_eq!(a, "127.0.0.1:4050");
}

#[test]
fn trace_renders_path() {
    let t = Trace::empty();
    assert_eq!(t.to_string(), "<config>");
    let t = t.add("procs").add("echo");
    assert_eq!(t.to_string(), "<config>.procs.echo");
}

#[test]
fn shell_line_proc() {
    let v = obj(vec![(s("procs"), obj(vec![(s("echo"), s("echo hi"))]))]);
    let c = Config::from_value(&v, &os()).unwrap();
    assert_eq!(c.procs.len(), 1);
    assert_eq!(c.procs[0].name, "echo");
    assert_eq!(
        c.procs[0].cmd,
        CmdConfig::Shell { shell: "echo hi".to_string() }
    );
    assert!(c.server.is_none());
}

#[test]
fn argv_and_map_form_procs() {
    let v = obj(vec![(
        s("procs"),
        obj(vec![
            (s("list"), ConfigValue::List(vec![s("ls"), s("-l")])),
            (
                s("full"),
                obj(vec![
                    (s("cmd"), ConfigValue::List(vec![s("cat")])),
                    (
                        s("env"),
                        obj(vec![(s("A"), s("1")), (s("B"), ConfigValue::Null)]),
                    ),
                ]),
            ),
            (s("skipped"), ConfigValue::Null),
        ]),
    )]);
    let c = Config::from_value(&v, &os()).unwrap();
    assert_eq!(c.procs.len(), 2);
    assert_eq!(
        c.procs[0].cmd,
        CmdConfig::Cmd { cmd: vec!["ls".to_string(), "-l".to_string()] }
    );
    let env = c.procs[1].env.as_ref().unwrap();
    assert_eq!(env.len(), 2);
    assert_eq!(env[0].name, "A");
    assert_eq!(env[0].value, Some("1".to_string()));
    assert_eq!(env[1].name, "B");
    assert_eq!(env[1].value, None);
}

#[test]
fn select_picks_os_branch_then_else() {
    let sel = obj(vec![
        (s("$select"), s("os")),
        (s("windows"), s("dir")),
        (s("linux"), s("ls")),
    ]);
    let v = obj(vec![(s("procs"), obj(vec![(s("p"), sel)]))]);
    let c = Config::from_value(&v, &os()).unwrap();
    assert_eq!(c.procs[0].cmd, CmdConfig::Shell { shell: "ls".to_string() });

    let sel = obj(vec![(s("$select"), s("os")), (s("$else"), s("fallback"))]);
    let v = obj(vec![(s("procs"), obj(vec![(s("p"), sel)]))]);
    let c = Config::from_value(&v, &os()).unwrap();
    assert_eq!(
        c.procs[0].cmd,
        CmdConfig::Shell { shell: "fallback".to_string() }
    );
}

#[test]
fn config_error_kinds() {
    let no_match = obj(vec![(s("$select"), s("os")), (s("windows"), s("dir"))]);
    let v = obj(vec![(s("procs"), obj(vec![(s("p"), no_match)]))]);
    let e = Config::from_value(&v, &os()).unwrap_err();
    assert_eq!(e.kind, ErrorKind::NoMatchingCondition);

    let bad_sel = obj(vec![(s("$select"), s("arch"))]);
    let v = obj(vec![(s("procs"), obj(vec![(s("p"), bad_sel)]))]);
    let e = Config::from_value(&v, &os()).unwrap_err();
    assert_eq!(e.kind, ErrorKind::ExpectedOsSelect);

    let v = obj(vec![(s("procs"), obj(vec![(s("p"), ConfigValue::Bool(true))]))]);
    let e = Config::from_value(&v, &os()).unwrap_err();
    assert_eq!(e.kind, ErrorKind::InvalidProcValue);

    let v = obj(vec![(s("procs"), obj(vec![(s("p"), obj(vec![]))]))]);
    let e = Config::from_value(&v, &os()).unwrap_err();
    assert_eq!(e.kind, ErrorKind::MissingCommand);

    let both = obj(vec![
        (s("shell"), s("x")),
        (s("cmd"), ConfigValue::List(vec![s("x")])),
    ]);
    let v = obj(vec![(s("procs"), obj(vec![(s("p"), both)]))]);
    let e = Config::from_value(&v, &os()).unwrap_err();
    assert_eq!(e.kind, ErrorKind::ConflictingCommand);

    let bad_env = obj(vec![
        (s("shell"), s("x")),
        (s("env"), obj(vec![(s("A"), ConfigValue::Bool(false))])),
    ]);
    let v = obj(vec![(s("procs"), obj(vec![(s("p"), bad_env)]))]);
    let e = Config::from_value(&v, &os()).unwrap_err();
    assert_eq!(e.kind, ErrorKind::ExpectedStringOrNull);

    let v = obj(vec![(s("procs"), s("nope"))]);
    let e = Config::from_value(&v, &os()).unwrap_err();
    assert_eq!(e.kind, ErrorKind::ExpectedObject);

    let v = obj(vec![(s("server"), ConfigValue::Bool(true))]);
    let e = Config::from_value(&v, &os()).unwrap_err();
    assert_eq!(e.kind, ErrorKind::ExpectedString);

    let bad_cmd = obj(vec![(s("cmd"), s("not a list"))]);
    let v = obj(vec![(s("procs"), obj(vec![(s("p"), bad_cmd)]))]);
    let e = Config::from_value(&v, &os()).unwrap_err();
    assert_eq!(e.kind, ErrorKind::ExpectedArray);

    let v = obj(vec![(ConfigValue::List(vec![]), s("x"))]);
    let e = Config::from_value(&v, &os()).unwrap_err();
    assert_eq!(e.kind, ErrorKind::KeyNotScalar);

    let v = s("top level must be a mapping");
    let e = Config::from_value(&v, &os()).unwrap_err();
    assert_eq!(e.kind, ErrorKind::ExpectedObject);
}

#[test]
fn server_key_is_read() {
    let v = obj(vec![(s("server"), s("127.0.0.1:4050"))]);
    let c = Config::from_value(&v, &os()).unwrap();
    assert!(matches!(c.server, Some(ServerConfig::Tcp(a)) if a == "127.0.0.1:4050"));
}

#[test]
fn default_config_is_empty() {
    let c = Config::default();
    assert!(c.procs.is_empty());
    assert!(c.server.is_none());
}

fn proc_of(cmd: CmdConfig) -> ProcConfig {
    ProcConfig {
        name: "p".to_string(),
        cmd,
        cwd: None,
        env: None,
        autostart: true,
        stop: StopPolicy { signal: StopSignal::Interrupt, grace_ms: 5000 },
    }
}

#[test]
fn command_spec_argv_and_shell() {
    let p = proc_of(CmdConfig::Cmd {
        cmd: vec!["ls".to_string(), "-l".to_string(), "-a".to_string()],
    });
    let cs = p.command_spec(false, Some("/tmp".to_string()));
    assert_eq!(cs.program, "ls");
    assert_eq!(cs.args, vec!["-l".to_string(), "-a".to_string()]);
    assert_eq!(cs.cwd, Some("/tmp".to_string()));

    let p = proc_of(CmdConfig::Shell { shell: "echo hi".to_string() });
    let cs = p.command_spec(false, None);
    assert_eq!(cs.program, "sh");
    assert_eq!(cs.args, vec!["-c".to_string(), "echo hi".to_string()]);
    let cs = p.command_spec(true, None);
    assert_eq!(cs.program, "cmd");
    assert_eq!(cs.args, vec!["/C".to_string(), "echo hi".to_string()]);
}

#[test]
fn nested_select_resolves_through() {
    let inner = obj(vec![(s("$select"), s("os")), (s("linux"), s("ls --color"))]);
    let outer = obj(vec![(s("$select"), s("os")), (s("linux"), inner)]);
    let v = obj(vec![(s("procs"), obj(vec![(s("p"), outer)]))]);
    let c = Config::from_value(&v, &os()).unwrap();
    assert_eq!(
        c.procs[0].cmd,
        CmdConfig::Shell { shell: "ls --color".to_string() }
    );
}
