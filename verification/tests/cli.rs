use ferrodoc::{
    parse_from, Argument, CliErrorEnvelope, Command, Configuration, ConfigurationError,
    EnvValue, Environment, OutputFormat, PipelineArgs, CLI_ERROR_VERSION,
};

fn args(values: &[&str]) -> Vec<Argument> {
    values.iter().map(|v| Argument::Text((*v).into())).collect()
}

fn message(values: &[Argument]) -> String {
    parse_from(values).unwrap_err().to_string()
}

#[test]
fn parses_convert_options_in_any_position() {
    let command =
        parse_from(&args(&["convert", "--format", "html", "input.pdf", "-o", "out.html"])).unwrap();
    let Command::Convert(arguments) = command else {
        panic!("wrong command")
    };
    assert_eq!(arguments.format, OutputFormat::Html);
    assert_eq!(arguments.pipeline.input, "input.pdf");
    assert_eq!(arguments.output, Some(Argument::Text("out.html".into())));
}

#[test]
fn simple_commands_take_no_arguments() {
    assert_eq!(parse_from(&args(&["--version"])).unwrap(), Command::Version);
    assert_eq!(parse_from(&args(&["-V"])).unwrap(), Command::Version);
    assert_eq!(parse_from(&args(&["status"])).unwrap(), Command::Status);
    assert_eq!(parse_from(&args(&["hardware"])).unwrap(), Command::Hardware);
    assert!(message(&args(&["status", "x"])).starts_with("usage: ferrodoc --version"));
    assert!(message(&[]).starts_with("usage: ferrodoc --version"));
    assert!(message(&[Argument::Raw(vec![0xff])]).starts_with("usage:"));
    assert_eq!(message(&args(&["inspect"])), "usage: ferrodoc inspect <input.pdf>");
    assert_eq!(
        parse_from(&[Argument::Text("inspect".into()), Argument::Raw(vec![0x80])]).unwrap(),
        Command::Inspect { input: Argument::Raw(vec![0x80]) }
    );
}

#[test]
fn pipeline_options_and_their_errors() {
    let Command::Plan(p) = parse_from(&args(&[
        "plan",
        "--native-threshold",
        "+12",
        "in.pdf",
        "--ocr-dpi",
        "200",
        "--ocr-engine",
        "ocrs",
        "--ocrs-model-dir",
        "models",
    ]))
    .unwrap() else {
        panic!("wrong command")
    };
    assert_eq!(
        p,
        PipelineArgs {
            input: "in.pdf".into(),
            model_dir: Some(Argument::Text("models".into())),
            native_threshold: Some(12),
            ocr_dpi: Some(200),
            ocr_engine: Some("ocrs".into()),
        }
    );
    assert_eq!(message(&args(&["plan", "in.pdf", "-o", "x"])), "unknown option \"-o\"");
    assert_eq!(message(&args(&["plan"])), "missing input PDF");
    assert_eq!(message(&args(&["explain", "a", "b"])), "unexpected argument \"b\"");
    assert_eq!(message(&args(&["convert", "a", "--format"])), "missing value for --format");
    assert_eq!(message(&args(&["convert", "a", "--format", "pdf"])), "unsupported output format \"pdf\"");
    assert_eq!(
        message(&args(&["convert", "a", "--ocr-dpi", "-1"])),
        "value for --ocr-dpi must be an unsigned integer"
    );
    assert_eq!(
        message(&[
            Argument::Text("convert".into()),
            Argument::Text("--ocr-engine".into()),
            Argument::Raw(vec![0xfe]),
        ]),
        "value for --ocr-engine must be valid UTF-8"
    );
    assert_eq!(
        message(&[Argument::Text("convert".into()), Argument::Raw(vec![0xfe])]),
        "arguments must be valid UTF-8"
    );
    let Command::Convert(c) = parse_from(&args(&["convert", "a", "--format", "json"])).unwrap() else {
        panic!("wrong command")
    };
    assert_eq!(c.format, OutputFormat::EvidenceJson);
    assert_eq!(c.output, None);
}

fn environment() -> Environment {
    Environment {
        native_character_threshold: EnvValue::Absent,
        ocr_dpi: EnvValue::Absent,
        ocrs_model_dir: EnvValue::Absent,
        cache_dir: EnvValue::Absent,
        ocr_engine: EnvValue::Absent,
    }
}

fn pipeline() -> PipelineArgs {
    PipelineArgs {
        input: "in.pdf".into(),
        model_dir: None,
        native_threshold: None,
        ocr_dpi: None,
        ocr_engine: None,
    }
}

#[test]
fn configuration_prefers_arguments_then_environment_then_defaults() {
    let c = Configuration::load(pipeline(), &environment()).unwrap();
    assert_eq!((c.options.native_character_threshold, c.options.ocr_dpi), (80, 144));
    assert_eq!(c.model_dir, None);
    let mut env = environment();
    env.native_character_threshold = EnvValue::Present("5".into());
    env.ocr_dpi = EnvValue::Present("300".into());
    env.ocrs_model_dir = EnvValue::Present("/models".into());
    env.cache_dir = EnvValue::Present("/cache".into());
    let c = Configuration::load(pipeline(), &env).unwrap();
    assert_eq!((c.options.native_character_threshold, c.options.ocr_dpi), (5, 300));
    assert_eq!(c.model_dir, Some(Argument::Text("/models".into())));
    assert_eq!(c.cache_dir, Some("/cache".into()));
    let mut args = pipeline();
    args.native_threshold = Some(7);
    args.ocr_dpi = Some(72);
    let c = Configuration::load(args, &env).unwrap();
    assert_eq!((c.options.native_character_threshold, c.options.ocr_dpi), (7, 72));
}

#[test]
fn configuration_refusals() {
    let mut env = environment();
    env.ocr_dpi = EnvValue::Present("fast".into());
    assert_eq!(
        Configuration::load(pipeline(), &env).unwrap_err(),
        ConfigurationError::Invalid {
            name: "FERRODOC_OCR_DPI",
            value: "fast".into(),
            reason: "expected an unsigned integer",
        }
    );
    let mut env = environment();
    env.cache_dir = EnvValue::NotUnicode;
    assert_eq!(
        Configuration::load(pipeline(), &env).unwrap_err(),
        ConfigurationError::NonUnicode { name: "FERRODOC_CACHE_DIR" }
    );
    let mut args = pipeline();
    args.ocr_engine = Some("tesseract".into());
    assert!(matches!(
        Configuration::load(args, &environment()).unwrap_err(),
        ConfigurationError::Invalid { name: "OCR engine", .. }
    ));
    let mut args = pipeline();
    args.ocr_dpi = Some(301);
    assert_eq!(
        Configuration::load(args, &environment()).unwrap_err(),
        ConfigurationError::Invalid {
            name: "OCR DPI",
            value: "301".into(),
            reason: "expected an integer from 72 through 300",
        }
    );
}

#[test]
fn error_envelope_is_versioned() {
    let e = CliErrorEnvelope::new("io", "read failed");
    assert_eq!(e.schema_version, CLI_ERROR_VERSION);
    assert_eq!(e.schema_version, "ferrodoc-cli-error/1");
    assert_eq!((e.error.category.as_str(), e.error.message.as_str()), ("io", "read failed"));
}
