use thanos::config::{get_config_path, CliConfig, Config, ConfigError, Method, Note, Strategy};
use thanos::number::IntError;

fn strings(v: &[&str]) -> Vec<String> {
    v.iter().map(|s| s.to_string()).collect()
}

fn no_cli() -> CliConfig {
    CliConfig::default()
}

#[test]
fn config_path_under_home() {
    assert_eq!(
        get_config_path(Some("/root".to_string()), None),
        "/root/.config/thanos/thanos.conf"
    );
    assert_eq!(get_config_path(None, None), "/home/.config/thanos/thanos.conf");
    assert_eq!(
        get_config_path(Some("/u".to_string()), Some("/x.conf".to_string())),
        "/u/x.conf"
    );
}

#[test]
fn defaults() {
    let c = Config::default();
    assert_eq!(c.self_port, 8080);
    assert!(c.servers.is_empty());
    assert_eq!(c.core, 1);
    assert_eq!(c.method, Method::Normal);
    assert_eq!(c.strategy, Strategy::RoundRobin);
    let cli = CliConfig::default();
    assert!(cli.servers.is_none() && cli.self_port.is_none() && cli.method.is_none());
    assert!(cli.strategy.is_none() && cli.core.is_none());
}

#[test]
fn statements_of_readme_file() {
    let data = "port = 9000; # Make sure all statements end in ';'\n\
                servers = [127.0.0.1:8888, 127.0.0.1:8889, 127.0.0.1:8890];\n\
                # or server = ...;\n\
                method = \"tproxy\"; # For Setting Transparent Proxy\n\
                strategy = \"roundrobin\";\n\
                core = 2;\n";
    let stmts = Config::split_statements(data);
    assert_eq!(
        stmts,
        strings(&[
            "port = 9000",
            "servers = [127.0.0.1:8888, 127.0.0.1:8889, 127.0.0.1:8890]",
            "method = \"tproxy\"",
            "strategy = \"roundrobin\"",
            "core = 2",
        ])
    );
}

#[test]
fn statements_span_lines_and_crlf() {
    let data = "port =\r\n 81;servers = [a,\r\n b];;\r\n  \r\nlast";
    assert_eq!(
        Config::split_statements(data),
        strings(&["port =\n 81", "servers = [a,\n b]", "last"])
    );
    assert!(Config::split_statements("").is_empty());
    assert!(Config::split_statements("# only a comment;\n;;").is_empty());
    // A '\r' that ends the text without a line ending is white space to trim.
    assert_eq!(Config::split_statements("core = 3\r"), strings(&["core = 3"]));
}

#[test]
fn readme_configuration() {
    let stmts = strings(&[
        "port = 9000",
        "servers = [127.0.0.1:8888, \"127.0.0.1:8889\", '127.0.0.1:8890']",
        "method = \"tproxy\"",
        "strategy = \"leastconnection\"",
        "core = 2",
    ]);
    let r = Config::from_statements(no_cli(), &stmts, 16);
    assert_eq!(
        r.notes,
        vec![
            Note::Port("9000".to_string()),
            Note::Server("127.0.0.1:8888".to_string()),
            Note::Server("127.0.0.1:8889".to_string()),
            Note::Server("127.0.0.1:8890".to_string()),
        ]
    );
    let c = r.outcome.unwrap();
    assert_eq!(c.self_port, 9000);
    assert_eq!(c.servers, strings(&["127.0.0.1:8888", "127.0.0.1:8889", "127.0.0.1:8890"]));
    assert_eq!(c.method, Method::Tproxy);
    assert_eq!(c.strategy, Strategy::LeastConnections);
    assert_eq!(c.core, 2);
}

#[test]
fn command_line_wins() {
    let stmts = strings(&["port = 9000", "servers = [a:1]", "method = tproxy", "core = 4"]);
    let cli = CliConfig {
        servers: Some(strings(&["b:2", "c:3"])),
        self_port: Some(7000),
        method: Some(Method::Normal),
        strategy: Some(Strategy::LeastConnections),
        core: Some(1),
    };
    let c = Config::from_statements(cli, &stmts, 8).outcome.unwrap();
    assert_eq!(c.servers, strings(&["b:2", "c:3"]));
    assert_eq!(c.self_port, 7000);
    assert_eq!(c.method, Method::Normal);
    assert_eq!(c.strategy, Strategy::LeastConnections);
    assert_eq!(c.core, 1);
}

#[test]
fn empty_command_line_servers_keep_the_file_servers() {
    let stmts = strings(&["servers = [a:1]"]);
    let cli = CliConfig { servers: Some(vec![]), ..CliConfig::default() };
    let c = Config::from_statements(cli, &stmts, 8).outcome.unwrap();
    assert_eq!(c.servers, strings(&["a:1"]));
}

#[test]
fn servers_from_command_line_without_file() {
    let cli = CliConfig { servers: Some(strings(&["127.0.0.1:8888"])), ..CliConfig::default() };
    let r = Config::from_statements(cli, &vec![], 8);
    assert!(r.notes.is_empty());
    let c = r.outcome.unwrap();
    assert_eq!(c.servers, strings(&["127.0.0.1:8888"]));
    assert_eq!(c.self_port, 8080);
}

#[test]
fn no_servers_anywhere() {
    let r = Config::from_statements(no_cli(), &strings(&["port = 1"]), 8);
    assert_eq!(r.outcome, Err(ConfigError::NoServers));
    assert_eq!(r.notes, vec![Note::Port("1".to_string())]);
}

#[test]
fn statement_without_one_equals_sign() {
    let r = Config::from_statements(no_cli(), &strings(&["servers = [a:1]", "port 80", "core = 1"]), 8);
    assert_eq!(r.outcome, Err(ConfigError::NotFormatted("port 80".to_string())));
    assert_eq!(r.notes, vec![Note::Server("a:1".to_string())]);
    let r = Config::from_statements(no_cli(), &strings(&["a = b = c"]), 8);
    assert_eq!(r.outcome, Err(ConfigError::NotFormatted("a = b = c".to_string())));
}

#[test]
fn port_errors() {
    let r = Config::from_statements(no_cli(), &strings(&["port = eighty", "servers = [a:1]"]), 8);
    assert_eq!(r.outcome, Err(ConfigError::PortNotNumber(IntError::InvalidDigit)));
    assert_eq!(r.notes, vec![Note::Port("eighty".to_string())]);
    let r = Config::from_statements(no_cli(), &strings(&["port = 70000"]), 8);
    assert_eq!(r.outcome, Err(ConfigError::PortNotNumber(IntError::PosOverflow)));
    let r = Config::from_statements(no_cli(), &strings(&["port ="]), 8);
    assert_eq!(r.outcome, Err(ConfigError::PortNotNumber(IntError::Empty)));
}

#[test]
fn server_list_errors() {
    let r = Config::from_statements(no_cli(), &strings(&["servers = []"]), 8);
    assert_eq!(r.outcome, Err(ConfigError::ServersMisconfigured));
    let r = Config::from_statements(no_cli(), &strings(&["servers = a:1"]), 8);
    assert_eq!(r.outcome, Err(ConfigError::ServersNotBracketed));
    let r = Config::from_statements(no_cli(), &strings(&["server = é"]), 8);
    assert_eq!(r.outcome, Err(ConfigError::ServersMisconfigured));
}

#[test]
fn cores_fall_back_to_physical_count() {
    let r = Config::from_statements(no_cli(), &strings(&["servers = [a:1]", "core = many"]), 12);
    assert_eq!(r.notes, vec![Note::Server("a:1".to_string()), Note::NoCores]);
    assert_eq!(r.outcome.unwrap().core, 12);
}

#[test]
fn unknown_keys_and_comments() {
    let stmts = strings(&["colour = blue", "# port = 1", "  ", "servers = [a:1]"]);
    let r = Config::from_statements(no_cli(), &stmts, 8);
    assert_eq!(
        r.notes,
        vec![Note::UnknownKey("colour".to_string()), Note::Server("a:1".to_string())]
    );
    assert_eq!(r.outcome.unwrap().self_port, 8080);
}

#[test]
fn unrecognised_method_and_strategy_fall_back() {
    let stmts = strings(&["method = fast", "strategy = random", "servers = [a:1]"]);
    let c = Config::from_statements(no_cli(), &stmts, 8).outcome.unwrap();
    assert_eq!(c.method, Method::Normal);
    assert_eq!(c.strategy, Strategy::RoundRobin);
}

#[test]
fn servers_accumulate_over_statements() {
    let stmts = strings(&["servers = [a:1]", "server = [b:2, c:3]"]);
    let c = Config::from_statements(no_cli(), &stmts, 8).outcome.unwrap();
    assert_eq!(c.servers, strings(&["a:1", "b:2", "c:3"]));
}

#[test]
fn get_uses_some_core_count() {
    let stmts = strings(&["servers = [a:1]", "core = 3"]);
    let r = Config::get(no_cli(), &stmts);
    assert_eq!(r.outcome.unwrap().core, 3);
}

fn statements_with_std(data: &str) -> Vec<String> {
    let mut filtered_data = String::new();
    for line in data.lines() {
        if let Some(cmt_idx) = line.find('#') {
            filtered_data.push_str(&line[..cmt_idx]);
        } else {
            filtered_data.push_str(line);
        }
        filtered_data.push('\n');
    }
    filtered_data
        .split(";")
        .map(|s| s.trim().to_string())
        .filter(|s| !s.is_empty())
        .collect::<Vec<String>>()
}

#[test]
fn statements_agree_with_std_text_functions() {
    let samples = [
        "",
        "\n",
        "\r\n",
        "a;b",
        "a\r",
        "a\r\r\nb;\n",
        "x = 1 # c; d\ny = 2;",
        "#;\n;#\n; ;",
        "é = ü;\u{3000}k = v\u{a0};",
        "port = 9000;\n\nservers = [\"127.0.0.1:1\"];\n\n\n",
        "line1\nline2\r\nline3#x\r\n#\n",
    ];
    for data in samples {
        assert_eq!(Config::split_statements(data), statements_with_std(data), "{data:?}");
    }
}
