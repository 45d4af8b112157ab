use terminalclustering::config::{config_from_fields, parse_config, split_lines, Config, ConfigError};

#[test]
fn threads_with_comment() {
    assert_eq!(parse_config("numAnalysisThreads = 4  # four workers"), Ok(Config { num_analysis_threads: 4 }));
}

#[test]
fn missing_key_fails() {
    assert_eq!(parse_config("maxVisits = 500\n"), Err(ConfigError::MissingKey));
    assert_eq!(parse_config(""), Err(ConfigError::MissingKey));
}

#[test]
fn unrecognized_lines_are_ignored() {
    let text = "foo = bar\n# just a comment\nnot a pair\nnumAnalysisThreads=16\r\nlogDir = gtp_logs\n";
    assert_eq!(parse_config(text), Ok(Config { num_analysis_threads: 16 }));
}

#[test]
fn later_lines_override_earlier_ones() {
    assert_eq!(parse_config("numAnalysisThreads = 2\nnumAnalysisThreads = 8\n"), Ok(Config { num_analysis_threads: 8 }));
}

#[test]
fn invalid_values_fail() {
    assert_eq!(parse_config("numAnalysisThreads = 0"), Err(ConfigError::InvalidValue));
    assert_eq!(parse_config("numAnalysisThreads = many"), Err(ConfigError::InvalidValue));
    assert_eq!(parse_config("numAnalysisThreads = 99999999999999999999999"), Err(ConfigError::InvalidValue));
}

#[test]
fn fields_give_the_config() {
    let fields = vec![
        Some(("numAnalysisThreads".to_string(), "3".to_string())),
        None,
        Some(("other".to_string(), "9".to_string())),
    ];
    assert_eq!(config_from_fields(&fields), Ok(Config { num_analysis_threads: 3 }));
    assert_eq!(config_from_fields(&vec![None]), Err(ConfigError::MissingKey));
}

#[test]
fn line_splitting() {
    assert_eq!(split_lines(""), Vec::<String>::new());
    assert_eq!(split_lines("a\nb"), vec!["a", "b"]);
    assert_eq!(split_lines("a\r\nb\n"), vec!["a", "b"]);
    assert_eq!(split_lines("\n\nc"), vec!["", "", "c"]);
    assert_eq!(split_lines("a\rb\n"), vec!["a\rb"]);
}
