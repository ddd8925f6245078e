use rustchain::config::{parse_level, parse_uint, AppConfig, AppError, EnvVars, IntParseError, LogLevel};

#[test]
fn should_load_default_config() {
    let config = AppConfig::from_env("test-app", &EnvVars::default()).expect("默认配置应当可用");

    assert_eq!(config.app_name, "test-app");
    assert_eq!(config.api_host, "127.0.0.1");
    assert_eq!(config.api_port, 8080);
    assert_eq!(config.mining_difficulty, 2);
    assert_eq!(config.mining_reward, 50);
}

#[test]
fn variables_should_override_defaults() {
    let env = EnvVars {
        api_host: Some("0.0.0.0".to_string()),
        api_port: Some("9000".to_string()),
        seed_nodes: Some(" a@x , ,b@y ".to_string()),
        mining_difficulty: Some("3".to_string()),
        ..EnvVars::default()
    };
    let config = AppConfig::from_env("node", &env).expect("配置应当可用");
    assert_eq!(config.api_listen_addr(), "0.0.0.0:9000");
    assert_eq!(config.seed_nodes, vec!["a@x".to_string(), "b@y".to_string()]);
    assert_eq!(config.mining_difficulty, 3);
    assert_eq!(config.log_level, "info");
    assert_eq!(config.p2p_bind_addr, "0.0.0.0:7000");
    assert_eq!(config.data_dir, "./data");
}

#[test]
fn malformed_port_should_be_a_config_error() {
    let env = EnvVars { api_port: Some("70000".to_string()), ..EnvVars::default() };
    let result = AppConfig::from_env("node", &env);
    assert!(matches!(result, Err(AppError::Config(_))));
    let env = EnvVars { mining_reward: Some("abc".to_string()), ..EnvVars::default() };
    match AppConfig::from_env("node", &env) {
        Err(AppError::Config(m)) => assert_eq!(m, "RUSTCHAIN_MINING_REWARD 解析失败: invalid digit found in string"),
        other => panic!("unexpected: {other:?}"),
    }
}

#[test]
fn parse_uint_should_match_std_parsing() {
    assert_eq!(parse_uint("42", 100), Ok(42));
    assert_eq!(parse_uint("+7", 100), Ok(7));
    assert_eq!(parse_uint("", 100), Err(IntParseError::Empty));
    assert_eq!(parse_uint("+", 100), Err(IntParseError::InvalidDigit));
    assert_eq!(parse_uint("-1", 100), Err(IntParseError::InvalidDigit));
    assert_eq!(parse_uint("101", 100), Err(IntParseError::PosOverflow));
    assert_eq!(parse_uint("18446744073709551615", u64::MAX), Ok(u64::MAX));
    assert_eq!("abc".parse::<u64>().unwrap_err().to_string(), IntParseError::InvalidDigit.message());
    assert_eq!("".parse::<u64>().unwrap_err().to_string(), IntParseError::Empty.message());
    assert_eq!("99999999999".parse::<u32>().unwrap_err().to_string(), IntParseError::PosOverflow.message());
}

#[test]
fn log_levels_should_parse_in_any_case() {
    assert_eq!(parse_level("INFO"), Ok(LogLevel::Info));
    assert_eq!(parse_level("warning"), Ok(LogLevel::Warn));
    assert_eq!(parse_level("Trace"), Ok(LogLevel::Trace));
    assert_eq!(parse_level("LOUD"), Err(AppError::Config("不支持的日志级别: loud".to_string())));
}

#[test]
fn app_error_messages_should_carry_their_prefix() {
    assert_eq!(AppError::Command("x".to_string()).message(), "命令执行失败: x");
    assert_eq!(AppError::Config("y".to_string()).message(), "配置错误: y");
}
