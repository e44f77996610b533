use brief_measure::config::{env_or_default, env_required, env_setting, EnvValue};
use brief_measure::error::AppError;
use brief_measure::state::{limits, pool_settings, AppState, Environment};

fn text(value: &str) -> EnvValue {
    EnvValue::Text(value.to_string())
}

fn bare(url: EnvValue) -> Environment {
    Environment {
        database_url: url,
        database_max_connections: EnvValue::Missing,
        database_connect_timeout_secs: EnvValue::Missing,
        observation_window_secs: EnvValue::Missing,
        observation_window_cap: EnvValue::Missing,
        observation_default_limit: EnvValue::Missing,
        observation_max_limit: EnvValue::Missing,
    }
}

#[test]
fn required_variable_is_taken_as_it_is() {
    assert_eq!(env_required("DATABASE_URL", &text(" postgres://db ")), Ok(" postgres://db ".to_string()));
    assert_eq!(env_required("DATABASE_URL", &text("")), Ok(String::new()));
}

#[test]
fn required_variable_that_is_missing_is_named() {
    assert_eq!(
        env_required("DATABASE_URL", &EnvValue::Missing),
        Err(AppError::MissingConfig("DATABASE_URL".to_string()))
    );
    assert_eq!(
        env_required("DATABASE_URL", &EnvValue::NotUnicode),
        Err(AppError::InvalidConfig("DATABASE_URL".to_string()))
    );
}

#[test]
fn default_is_taken_where_the_variable_is_missing() {
    assert_eq!(env_or_default::<i64>("CAP", &EnvValue::Missing, 2), Ok(2));
    assert_eq!(env_or_default::<u64>("SECS", &EnvValue::Missing, 86_400), Ok(86_400));
    assert_eq!(env_or_default::<u32>("CONNS", &EnvValue::Missing, 5), Ok(5));
}

#[test]
fn signed_setting_is_read_as_a_decimal_numeral() {
    assert_eq!(env_or_default::<i64>("CAP", &text("17"), 2), Ok(17));
    assert_eq!(env_or_default::<i64>("CAP", &text("+17"), 2), Ok(17));
    assert_eq!(env_or_default::<i64>("CAP", &text("-17"), 2), Ok(-17));
    assert_eq!(env_or_default::<i64>("CAP", &text("-0"), 2), Ok(0));
    assert_eq!(env_or_default::<i64>("CAP", &text("007"), 2), Ok(7));
    assert_eq!(env_or_default::<i64>("CAP", &text("9223372036854775807"), 2), Ok(i64::MAX));
    assert_eq!(env_or_default::<i64>("CAP", &text("-9223372036854775808"), 2), Ok(i64::MIN));
}

#[test]
fn signed_setting_that_is_no_numeral_is_invalid() {
    for value in [
        "", "+", "-", "+-1", "--1", " 1", "1 ", "1_000", "0x10", "1.0", "ten", "\u{661}",
        "9223372036854775808", "-9223372036854775809",
    ] {
        assert_eq!(
            env_or_default::<i64>("CAP", &text(value), 2),
            Err(AppError::InvalidConfig("CAP".to_string()))
        );
    }
    assert_eq!(
        env_or_default::<i64>("CAP", &EnvValue::NotUnicode, 2),
        Err(AppError::InvalidConfig("CAP".to_string()))
    );
}

#[test]
fn unsigned_setting_takes_no_minus_sign() {
    assert_eq!(env_or_default::<u64>("SECS", &text("60"), 1), Ok(60));
    assert_eq!(env_or_default::<u64>("SECS", &text("+60"), 1), Ok(60));
    assert_eq!(env_or_default::<u64>("SECS", &text("18446744073709551615"), 1), Ok(u64::MAX));
    assert_eq!(env_or_default::<u32>("CONNS", &text("4294967295"), 1), Ok(u32::MAX));
    for value in ["-60", "-0", "", "+", "18446744073709551616"] {
        assert_eq!(
            env_or_default::<u64>("SECS", &text(value), 1),
            Err(AppError::InvalidConfig("SECS".to_string()))
        );
    }
    for value in ["-1", "4294967296", "1e3"] {
        assert_eq!(
            env_or_default::<u32>("CONNS", &text(value), 1),
            Err(AppError::InvalidConfig("CONNS".to_string()))
        );
    }
}

fn full() -> Environment {
    Environment {
        database_url: text("postgres://db"),
        database_max_connections: text("12"),
        database_connect_timeout_secs: text("3"),
        observation_window_secs: text("60"),
        observation_window_cap: text("3"),
        observation_default_limit: text("10"),
        observation_max_limit: text("20"),
    }
}

fn missing(key: &str) -> Option<AppError> {
    Some(AppError::MissingConfig(key.to_string()))
}

fn invalid(key: &str) -> Option<AppError> {
    Some(AppError::InvalidConfig(key.to_string()))
}

#[test]
fn required_setting_is_read_or_named() {
    assert_eq!(env_setting::<i64>("CAP", &text("-3")), Ok(-3));
    assert_eq!(env_setting::<u64>("SECS", &text("60")), Ok(60));
    assert_eq!(env_setting::<u32>("CONNS", &text("+5")), Ok(5));
    assert_eq!(env_setting::<i64>("CAP", &EnvValue::Missing).err(), missing("CAP"));
    assert_eq!(env_setting::<u64>("SECS", &EnvValue::Missing).err(), missing("SECS"));
    assert_eq!(env_setting::<u32>("CONNS", &EnvValue::Missing).err(), missing("CONNS"));
    assert_eq!(env_setting::<i64>("CAP", &EnvValue::NotUnicode).err(), invalid("CAP"));
    assert_eq!(env_setting::<i64>("CAP", &text("")).err(), invalid("CAP"));
    assert_eq!(env_setting::<u64>("SECS", &text("-1")).err(), invalid("SECS"));
    assert_eq!(env_setting::<u32>("CONNS", &text("4294967296")).err(), invalid("CONNS"));
}

#[test]
fn pool_settings_are_read_from_the_environment() {
    let settings = pool_settings(&full()).ok().unwrap();
    assert_eq!(settings.database_url, "postgres://db");
    assert_eq!(settings.max_connections, 12);
    assert_eq!(settings.connect_timeout_secs, 3);
}

#[test]
fn pool_settings_are_all_required() {
    assert_eq!(pool_settings(&bare(EnvValue::Missing)).err(), missing("DATABASE_URL"));
    assert_eq!(
        pool_settings(&bare(text("postgres://db"))).err(),
        missing("DATABASE_MAX_CONNECTIONS")
    );
    let mut env = full();
    env.database_max_connections = EnvValue::Missing;
    assert_eq!(pool_settings(&env).err(), missing("DATABASE_MAX_CONNECTIONS"));
    let mut env = full();
    env.database_connect_timeout_secs = EnvValue::Missing;
    assert_eq!(pool_settings(&env).err(), missing("DATABASE_CONNECT_TIMEOUT_SECS"));
}

#[test]
fn pool_settings_name_the_first_wrong_variable() {
    let mut env = full();
    env.database_max_connections = text("many");
    env.database_connect_timeout_secs = text("soon");
    assert_eq!(pool_settings(&env).err(), invalid("DATABASE_MAX_CONNECTIONS"));
    env.database_max_connections = text("3");
    assert_eq!(pool_settings(&env).err(), invalid("DATABASE_CONNECT_TIMEOUT_SECS"));
    env.database_url = EnvValue::NotUnicode;
    assert_eq!(pool_settings(&env).err(), invalid("DATABASE_URL"));
}

#[test]
fn limits_are_read_from_the_environment() {
    let read = limits(&full()).ok().unwrap();
    assert_eq!(read.observation_window, 60);
    assert_eq!(read.observation_window_cap, 3);
    assert_eq!(read.default_observation_limit, 10);
    assert_eq!(read.max_observation_limit, 20);
}

#[test]
fn limits_are_all_required() {
    assert_eq!(limits(&bare(text("postgres://db"))).err(), missing("OBSERVATION_WINDOW_SECS"));
    let mut env = full();
    env.observation_window_secs = EnvValue::Missing;
    assert_eq!(limits(&env).err(), missing("OBSERVATION_WINDOW_SECS"));
    let mut env = full();
    env.observation_window_cap = EnvValue::Missing;
    assert_eq!(limits(&env).err(), missing("OBSERVATION_WINDOW_CAP"));
    let mut env = full();
    env.observation_default_limit = EnvValue::Missing;
    assert_eq!(limits(&env).err(), missing("OBSERVATION_DEFAULT_LIMIT"));
    let mut env = full();
    env.observation_max_limit = EnvValue::Missing;
    assert_eq!(limits(&env).err(), missing("OBSERVATION_MAX_LIMIT"));
}

#[test]
fn limits_name_the_first_wrong_variable() {
    let mut env = full();
    env.observation_max_limit = text("x");
    assert_eq!(limits(&env).err(), invalid("OBSERVATION_MAX_LIMIT"));
    env.observation_default_limit = text("x");
    assert_eq!(limits(&env).err(), invalid("OBSERVATION_DEFAULT_LIMIT"));
    env.observation_window_cap = text("x");
    assert_eq!(limits(&env).err(), invalid("OBSERVATION_WINDOW_CAP"));
    env.observation_window_secs = text("-1");
    assert_eq!(limits(&env).err(), invalid("OBSERVATION_WINDOW_SECS"));
}

#[test]
fn state_starts_empty_with_the_limits_read() {
    let state = AppState::initialize(&full()).ok().unwrap();
    assert_eq!(state.observation_window, 60);
    assert_eq!(state.observation_window_cap, 3);
    assert_eq!(state.default_observation_limit, 10);
    assert_eq!(state.max_observation_limit, 20);
}

#[test]
fn state_does_not_start_without_every_setting() {
    assert_eq!(
        AppState::initialize(&bare(text("postgres://db"))).err(),
        missing("DATABASE_MAX_CONNECTIONS")
    );
    let mut env = full();
    env.database_url = EnvValue::Missing;
    assert_eq!(AppState::initialize(&env).err(), missing("DATABASE_URL"));
    let mut env = full();
    env.database_max_connections = EnvValue::Missing;
    assert_eq!(AppState::initialize(&env).err(), missing("DATABASE_MAX_CONNECTIONS"));
    let mut env = full();
    env.database_connect_timeout_secs = EnvValue::Missing;
    assert_eq!(AppState::initialize(&env).err(), missing("DATABASE_CONNECT_TIMEOUT_SECS"));
    let mut env = full();
    env.observation_window_secs = EnvValue::Missing;
    assert_eq!(AppState::initialize(&env).err(), missing("OBSERVATION_WINDOW_SECS"));
    let mut env = full();
    env.observation_window_cap = EnvValue::Missing;
    assert_eq!(AppState::initialize(&env).err(), missing("OBSERVATION_WINDOW_CAP"));
    let mut env = full();
    env.observation_default_limit = EnvValue::Missing;
    assert_eq!(AppState::initialize(&env).err(), missing("OBSERVATION_DEFAULT_LIMIT"));
    let mut env = full();
    env.observation_max_limit = EnvValue::Missing;
    assert_eq!(AppState::initialize(&env).err(), missing("OBSERVATION_MAX_LIMIT"));
}

#[test]
fn state_reads_the_pool_settings_first() {
    let mut env = full();
    env.database_url = EnvValue::Missing;
    env.observation_window_cap = text("x");
    assert_eq!(AppState::initialize(&env).err(), missing("DATABASE_URL"));
    env.database_url = text("postgres://db");
    assert_eq!(AppState::initialize(&env).err(), invalid("OBSERVATION_WINDOW_CAP"));
}
