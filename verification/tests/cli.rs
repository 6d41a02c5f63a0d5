use adc_oversampling_enob::cli::{
    error, help_text, number, parse, FloatOption, ParsedArgs, Request,
};
use adc_oversampling_enob::config::{NoiseKind, Settings, SignalShape};
use adc_oversampling_enob::report::noise_name;

fn args(list: &[&str]) -> Vec<String> {
    list.iter().map(|s| s.to_string()).collect()
}

fn run_settings(p: ParsedArgs) -> Settings {
    match p.outcome {
        Ok(Request::Run(s)) => s,
        other => panic!("expected a run request, got {:?}", other),
    }
}

fn error_text(p: ParsedArgs) -> String {
    match p.outcome {
        Err(e) => e.text(),
        other => panic!("expected an error, got {:?}", other),
    }
}

#[test]
fn parsing() {
    assert!(matches!(parse(args(&["--help"])).outcome, Ok(Request::Help)));
    assert!(matches!(parse(args(&["sweep"])).outcome, Ok(Request::Sweep(_))));
    for list in [
        vec!["--bits", "x"],
        vec!["--bits"],
        vec!["--wat"],
        vec!["run"],
    ] {
        assert!(error_text(parse(args(&list))).contains("--help"));
    }
    let p = parse(args(&["--signal", "ramp", "--ramp-end", "2", "--osr", "16,4,16"]));
    assert_eq!(p.float_args.len(), 1);
    assert_eq!(p.float_args[0].option, FloatOption::RampEnd);
    assert_eq!(p.float_args[0].text, "2");
    let s = run_settings(p);
    assert_eq!(s.signal, SignalShape::Ramp);
    assert_eq!(s.oversampling, [16, 4, 16]);
    let v = s.validated(true, true, true).unwrap();
    assert_eq!(v.oversampling, [1, 4, 16]);
}

#[test]
fn out_of_range_bits_and_unfit_ratio_fail_validation() {
    for (list, message) in [
        (vec!["--bits", "1"], "--bits must be in 2..=24, got 1"),
        (vec!["--osr", "3"], "--osr 3 must be a power of two dividing --samples"),
    ] {
        let s = run_settings(parse(args(&list)));
        let e = s.validated(true, true, true).unwrap_err();
        let text = error(e.message("3.3", "0.75")).text();
        assert!(text.contains("--help"));
        assert_eq!(text, format!("{message}; use --help for usage"));
    }
}

#[test]
fn defaults_without_options() {
    let p = parse(Vec::new());
    assert!(p.float_args.is_empty());
    let s = run_settings(p);
    let d = Settings::defaults();
    assert_eq!(s.bits, 12);
    assert_eq!(s.sample_count, 1_048_576);
    assert_eq!(s.seed, 42);
    assert_eq!(s.signal, SignalShape::Constant);
    assert_eq!(s.noise, NoiseKind::Gaussian);
    assert_eq!(s.oversampling, [1, 4, 16, 64, 256]);
    assert_eq!(s.histogram_bins, 80);
    assert_eq!(s.output_dir, "results");
    assert_eq!(d.oversampling, s.oversampling);
}

#[test]
fn integer_and_text_options() {
    let s = run_settings(parse(args(&[
        "--bits", "+10", "--samples", "4096", "--seed", "18446744073709551615", "--noise", "uniform",
        "--histogram-bins", "007", "--out", "dir", "--signal", "constant",
    ])));
    assert_eq!(s.bits, 10);
    assert_eq!(s.sample_count, 4096);
    assert_eq!(s.seed, u64::MAX);
    assert_eq!(s.noise, NoiseKind::Uniform);
    assert_eq!(s.histogram_bins, 7);
    assert_eq!(s.output_dir, "dir");
    assert_eq!(s.signal, SignalShape::Constant);
}

#[test]
fn float_options_kept_in_order() {
    let p = parse(args(&[
        "--vref", "3.3", "--voltage", "1", "--ramp-start", "0.5", "--noise-lsb", "x", "--vref", "2",
    ]));
    let got: Vec<(FloatOption, String)> =
        p.float_args.iter().map(|a| (a.option, a.text.clone())).collect();
    assert_eq!(
        got,
        vec![
            (FloatOption::VRef, "3.3".to_string()),
            (FloatOption::Voltage, "1".to_string()),
            (FloatOption::RampStart, "0.5".to_string()),
            (FloatOption::NoiseLsb, "x".to_string()),
            (FloatOption::VRef, "2".to_string()),
        ]
    );
    assert!(matches!(p.outcome, Ok(Request::Run(_))));
}

#[test]
fn stops_at_first_problem_keeping_earlier_floats() {
    let p = parse(args(&["--vref", "abc", "--wat", "--voltage", "1"]));
    assert_eq!(p.float_args.len(), 1);
    assert_eq!(p.float_args[0].text, "abc");
    let e = p.outcome.unwrap_err();
    assert_eq!(e.message, "unknown option or subcommand '--wat'");
    let p = parse(args(&["--voltage", "1", "--help", "--wat"]));
    assert_eq!(p.float_args.len(), 1);
    assert!(matches!(p.outcome, Ok(Request::Help)));
    assert!(matches!(parse(args(&["--version", "--bits", "x"])).outcome, Ok(Request::Version)));
}

#[test]
fn error_messages() {
    let cases: Vec<(Vec<&str>, &str)> = vec![
        (vec!["--bits", "x"], "invalid value 'x' for --bits"),
        (vec!["--bits", "256"], "invalid value '256' for --bits"),
        (vec!["--samples", "-1"], "invalid value '-1' for --samples"),
        (vec!["--samples", "bad"], "invalid value 'bad' for --samples"),
        (vec!["--seed", "18446744073709551616"], "invalid value '18446744073709551616' for --seed"),
        (vec!["--osr", "4,,16"], "invalid value '' for --osr"),
        (vec!["--osr", "4,x6,y"], "invalid value 'x6' for --osr"),
        (vec!["--bits"], "missing value for --bits"),
        (vec!["--bits", "--samples"], "missing value for --bits"),
        (vec!["--wat"], "unknown option or subcommand '--wat'"),
        (vec!["run"], "unknown option or subcommand 'run'"),
        (vec!["sweep", "sweep"], "unknown option or subcommand 'sweep'"),
        (vec!["--noise", "pink"], "invalid --noise 'pink'"),
        (vec!["--signal", "sine"], "invalid --signal 'sine'"),
        (vec!["--out", ""], "--out must not be empty"),
    ];
    for (list, message) in cases {
        let p = parse(args(&list));
        let e = p.outcome.unwrap_err();
        assert_eq!(e.message, message);
        assert_eq!(e.text(), format!("{message}; use --help for usage"));
    }
}

#[test]
fn numbers_follow_unsigned_syntax() {
    assert_eq!(number("--x", "0", 255).unwrap(), 0);
    assert_eq!(number("--x", "+255", 255).unwrap(), 255);
    assert_eq!(number("--x", "000123", 255).unwrap(), 123);
    for bad in ["", "+", "-0", "256", " 1", "1 ", "1_0", "0x10", "++1"] {
        let e = number("--x", bad, 255).unwrap_err();
        assert_eq!(e.message, format!("invalid value '{bad}' for --x"));
    }
    assert_eq!(number("--seed", "18446744073709551615", u64::MAX).unwrap(), u64::MAX);
    assert!(number("--seed", "99999999999999999999", u64::MAX).is_err());
}

#[test]
fn osr_list_values() {
    let s = run_settings(parse(args(&["--osr", "256,1,+2"])));
    assert_eq!(s.oversampling, [256, 1, 2]);
    let s = run_settings(parse(args(&["--osr", "8"])));
    assert_eq!(s.oversampling, [8]);
    assert!(parse(args(&["--osr", "4,"])).outcome.is_err());
}

#[test]
fn noise_names_parse_back() {
    for kind in [NoiseKind::Off, NoiseKind::Uniform, NoiseKind::Gaussian] {
        let s = run_settings(parse(args(&["--noise", noise_name(kind)])));
        assert_eq!(s.noise, kind);
    }
}

#[test]
fn help_text_and_error_text() {
    let h = help_text();
    assert!(h.starts_with("adc-oversampling-enob [sweep] [OPTIONS]"));
    assert!(h.contains("--histogram-bins"));
    assert!(h.ends_with("reuses the seed per run.\n"));
    assert_eq!(error("boom".to_string()).text(), "boom; use --help for usage");
}

#[test]
fn float_value_errors_and_names() {
    let p = parse(args(&["--vref", "abc", "--noise-lsb", "1e", "--ramp-start", "x"]));
    let names: Vec<&str> = p.float_args.iter().map(|a| a.option.name()).collect();
    assert_eq!(names, ["--vref", "--noise-lsb", "--ramp-start"]);
    assert_eq!(p.float_args[0].value_error().message, "invalid value 'abc' for --vref");
    assert_eq!(
        p.float_args[1].value_error().text(),
        "invalid value '1e' for --noise-lsb; use --help for usage"
    );
    assert_eq!(FloatOption::Voltage.name(), "--voltage");
    assert_eq!(FloatOption::RampEnd.name(), "--ramp-end");
}
