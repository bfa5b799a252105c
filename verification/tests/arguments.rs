use rt::input::Config;

#[test]
fn parse_input_args() {
    let args = &[
        "test".to_string(),
        "input.obj".to_string(),
        "--outdir".to_string(),
        "output".to_string(),
        "--ppm".to_string(),
        "--progress-bar".to_string(),
    ];

    let config = Config::build(args).unwrap().unwrap();

    assert_eq!(config.get_input(), "input.obj");
    assert_eq!(config.outdir(), "output");
    assert!(config.ppm());
    assert!(config.progress_bar());
}

#[test]
fn help_version_early_exit() {
    let args = &["test".to_string(), "--help".to_string()];
    let config = Config::build(args).unwrap();
    assert!(config.is_none());

    let args = &["test".to_string(), "--version".to_string()];
    let config = Config::build(args).unwrap();
    assert!(config.is_none());
}

#[test]
fn defaults_without_options() {
    let args = &["test".to_string(), "scene.xml".to_string()];
    let config = Config::build(args).unwrap().unwrap();
    assert_eq!(config.get_input(), "scene.xml");
    assert_eq!(config.outdir(), "output");
    assert!(!config.ppm());
    assert!(!config.progress_bar());
    assert!(!config.blur());
}

#[test]
fn unknown_long_option_is_rejected() {
    let args = &["test".to_string(), "--frobnicate".to_string()];
    let err = Config::build(args).unwrap_err();
    assert_eq!(err.title(), "Error while parsing Arguments");
    assert_eq!(err.message(), "Unknown long option 'frobnicate'");
}

#[test]
fn unknown_short_option_is_rejected() {
    let args = &["test".to_string(), "-q".to_string()];
    let err = Config::build(args).unwrap_err();
    assert_eq!(err.message(), "Unknown short option 'q'");

    let args = &["test".to_string(), "-pq".to_string()];
    let err = Config::build(args).unwrap_err();
    assert_eq!(err.message(), "Unknown short options 'pq'");
}

#[test]
fn missing_value_for_outdir() {
    let args = &["test".to_string(), "in.xml".to_string(), "--outdir".to_string()];
    let err = Config::build(args).unwrap_err();
    assert_eq!(err.message(), "Expected value for option outdir");

    let args = &["test".to_string(), "in.xml".to_string(), "-o".to_string()];
    let err = Config::build(args).unwrap_err();
    assert_eq!(err.message(), "Expected value for option outdir");
}

#[test]
fn missing_input_path() {
    let args = &["test".to_string(), "--ppm".to_string()];
    let err = Config::build(args).unwrap_err();
    assert_eq!(err.message(), "Missing input path");
}

#[test]
fn short_cluster_sets_each_flag() {
    let args = &[
        "test".to_string(),
        "-po".to_string(),
        "elsewhere".to_string(),
        "scene.xml".to_string(),
    ];
    let config = Config::build(args).unwrap().unwrap();
    assert!(config.progress_bar());
    assert_eq!(config.outdir(), "elsewhere");
    assert_eq!(config.get_input(), "scene.xml");
}

#[test]
fn first_positional_wins() {
    let args = &["test".to_string(), "a.xml".to_string(), "b.xml".to_string()];
    let config = Config::build(args).unwrap().unwrap();
    assert_eq!(config.get_input(), "a.xml");
}

#[test]
fn outdir_consumes_next_argument_blindly() {
    let args = &[
        "test".to_string(),
        "--outdir".to_string(),
        "--ppm".to_string(),
        "scene.xml".to_string(),
    ];
    let config = Config::build(args).unwrap().unwrap();
    assert_eq!(config.outdir(), "--ppm");
    assert!(!config.ppm());
    assert_eq!(config.get_input(), "scene.xml");
}

#[test]
fn lone_dash_is_an_empty_cluster() {
    let args = &["test".to_string(), "-".to_string(), "scene.xml".to_string()];
    let config = Config::build(args).unwrap().unwrap();
    assert_eq!(config.get_input(), "scene.xml");
    assert!(!config.progress_bar());
}

#[test]
fn help_wins_over_version() {
    let args = &["test".to_string(), "--version".to_string(), "--help".to_string()];
    assert!(Config::help_requested(args));
    assert!(Config::build(args).unwrap().is_none());

    let args = &["test".to_string(), "-ph".to_string()];
    assert!(Config::help_requested(args));

    let args = &["test".to_string(), "--version".to_string()];
    assert!(!Config::help_requested(args));

    // A help flag consumed as the value of --outdir is no help request.
    let args = &[
        "test".to_string(),
        "--outdir".to_string(),
        "--help".to_string(),
        "x".to_string(),
    ];
    assert!(!Config::help_requested(args));
}
