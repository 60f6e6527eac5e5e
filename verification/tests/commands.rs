use rbob::arepo_log_file::{ArepoLogFile, LogError};
use rbob::build_config::{build_args, build_command_text, get_binary_source, get_profile, BuildConfig};
use rbob::diff::{get_param_diff, get_param_diffs, sort_diffs, sorted_sim_diffs, diff_value_to_string, ParamDiff};
use rbob::job_params::SystemConfiguration;
use rbob::param_value::ParamValue;
use rbob::run::{get_job_id, get_run_command_args, next_dependency, job_id_from_captures, RunError};
use rbob::sim_params::{SimParams, SimParamsKind};
use rbob::substitutions::ParamMap;
use rbob::yaml::YamlValue;

fn s(x: &str) -> YamlValue {
    YamlValue::Str(x.to_owned())
}

fn big_system() -> SystemConfiguration {
    SystemConfiguration { max_num_cores: 1000, max_num_cores_per_node: 48, partitions: vec![(1, "p".to_owned())] }
}

fn small_system() -> SystemConfiguration {
    SystemConfiguration { max_num_cores: 4, max_num_cores_per_node: 4, partitions: vec![(1, "p".to_owned())] }
}

#[test]
fn run_arguments() {
    assert_eq!(get_run_command_args("/sims/3/job", None), Some(vec!["job".to_owned()]));
    assert_eq!(
        get_run_command_args("/sims/3/job", Some(1234)),
        Some(vec!["--dependency=afterany:1234".to_owned(), "job".to_owned()])
    );
    assert_eq!(get_run_command_args("/", None), None);
}

#[test]
fn job_ids() {
    let out = "Submitted batch job 98765\n";
    assert_eq!(get_job_id(out, &big_system()), Ok(Some(98765)));
    assert_eq!(get_job_id("nothing here", &big_system()), Ok(None));
    assert_eq!(get_job_id(out, &small_system()), Ok(None));
    assert_eq!(get_job_id("Submitted batch job x", &big_system()), Err(RunError::InvalidJobId(String::new())));
    let caps = vec![vec![Some("Submitted batch job 7".to_owned()), Some("7".to_owned())]];
    assert_eq!(job_id_from_captures(&caps), Ok(Some(7)));
    assert_eq!(job_id_from_captures(&vec![]), Ok(None));
}

#[test]
fn dependencies_of_cascade_steps() {
    let conf = small_system();
    let step = SimParams::new("/s/0", vec![(s("cascade"), YamlValue::Bool(true))], SimParamsKind::Output, &conf);
    let plain = SimParams::new("/s/1", vec![], SimParamsKind::Output, &conf);
    assert_eq!(next_dependency(&step, "cascade", "sbatch", None, Some(5)), Ok(Some(5)));
    assert_eq!(next_dependency(&step, "cascade", "bash", Some(3), Some(5)), Ok(Some(3)));
    assert_eq!(next_dependency(&plain, "cascade", "sbatch", Some(3), Some(5)), Ok(Some(3)));
    assert_eq!(next_dependency(&step, "cascade", "sbatch", None, None), Err(RunError::MissingJobId));
}

#[test]
fn log_files() {
    let log = ArepoLogFile::new("/s/0/stdout.log");
    assert_eq!(log.file, "/s/0/stdout.log");
    let contents = "start\nRunning with 16 MPI tasks\nFinished sweep in 1.5s\nFinished sweep in 2.0s\n";
    assert_eq!(log.get_num_cores(contents), Ok(16));
    assert_eq!(log.get_num_sweep_runs(contents), Ok(2));
    assert_eq!(log.get_num_cores("nothing"), Err(LogError::NoMatch));
    assert_eq!(log.get_num_sweep_runs("nothing"), Ok(0));
    assert_eq!(log.get_first_capture_string("(x)(y)?", "x"), Ok("x".to_owned()));
    assert_eq!(log.get_first_capture_string("a(b)", "zab"), Ok("b".to_owned()));
    assert_eq!(log.get_first_capture_string("a(?:b)?", "a"), Err(LogError::NoGroup));
    assert_eq!(log.get_first_capture_string("(", "a"), Err(LogError::InvalidPattern));
    assert_eq!(log.get_num_cores("Running with 99999999999999999999 MPI tasks"), Err(LogError::InvalidNumber("99999999999999999999".to_owned())));
}

fn pmap(entries: &[(&str, ParamValue)]) -> ParamMap {
    ParamMap { entries: entries.iter().map(|(k, v)| (k.to_string(), v.clone())).collect() }
}

#[test]
fn parameter_differences() {
    assert_eq!(diff_value_to_string(None), "Not present");
    assert_eq!(diff_value_to_string(Some(&ParamValue::Int(3))), "3");
    assert_eq!(get_param_diff("a", Some(&ParamValue::Int(1)), Some(&ParamValue::Int(1))), ParamDiff::Same);
    assert_eq!(
        get_param_diff("a", Some(&ParamValue::Int(1)), None),
        ParamDiff::Diff("a".to_owned(), "1".to_owned(), "Not present".to_owned())
    );
    let m1 = pmap(&[("b", ParamValue::Int(1)), ("a", ParamValue::Str("x".to_owned()))]);
    let m2 = pmap(&[("a", ParamValue::Str("y".to_owned())), ("c", ParamValue::Bool(true)), ("b", ParamValue::Int(1))]);
    let diffs = get_param_diffs(&m1, &m2);
    assert_eq!(
        diffs,
        vec![
            ParamDiff::Same,
            ParamDiff::Diff("a".to_owned(), "x".to_owned(), "y".to_owned()),
            ParamDiff::Diff("c".to_owned(), "Not present".to_owned(), "true".to_owned()),
        ]
    );
    let sorted = sort_diffs(diffs);
    assert_eq!(sorted[0], ParamDiff::Same);
    assert_eq!(sorted[1], ParamDiff::Diff("a".to_owned(), "x".to_owned(), "y".to_owned()));
    assert_eq!(sorted[2].show(), Some("< c: Not present\n> c: true".to_owned()));
    assert_eq!(ParamDiff::Same.show(), None);
}

#[test]
fn differences_with_the_same_name_keep_their_order() {
    let diffs = vec![
        ParamDiff::Diff("b".to_owned(), "1".to_owned(), "2".to_owned()),
        ParamDiff::Diff("a".to_owned(), "first".to_owned(), "x".to_owned()),
        ParamDiff::Diff("a".to_owned(), "second".to_owned(), "y".to_owned()),
    ];
    assert_eq!(
        sort_diffs(diffs),
        vec![
            ParamDiff::Diff("a".to_owned(), "first".to_owned(), "x".to_owned()),
            ParamDiff::Diff("a".to_owned(), "second".to_owned(), "y".to_owned()),
            ParamDiff::Diff("b".to_owned(), "1".to_owned(), "2".to_owned()),
        ]
    );
}

#[test]
fn simulation_differences() {
    let conf = small_system();
    let a = SimParams::new("/a", vec![(s("x"), YamlValue::Int(1)), (s("y"), s("u"))], SimParamsKind::Input, &conf);
    let b = SimParams::new("/b", vec![(s("x"), YamlValue::Int(2)), (s("y"), s("u"))], SimParamsKind::Input, &conf);
    let diffs = sorted_sim_diffs(&a, &b);
    let shown: Vec<String> = diffs.iter().filter_map(|d| d.show()).collect();
    assert_eq!(shown, vec!["< x: 1\n> x: 2".to_owned()]);
}

#[test]
fn builds() {
    assert_eq!(get_profile(true, Some("fast")), "dev");
    assert_eq!(get_profile(false, Some("fast")), "fast");
    assert_eq!(get_profile(false, None), "release");
    let release = BuildConfig { features: vec!["mpi".to_owned(), "hdf5".to_owned()], run_example: None, profile: "release".to_owned() };
    let args = build_args(&release);
    assert_eq!(args, vec!["build", "--color=always", "--release", "--features", "mpi,hdf5"]);
    assert_eq!(build_command_text(&args), "cargo build --color=always --release --features mpi,hdf5");
    let debug = BuildConfig { features: vec![], run_example: Some("ex".to_owned()), profile: "dev".to_owned() };
    assert_eq!(build_args(&debug), vec!["build", "--color=always", "--example", "ex"]);
    assert!(debug.debug_build());
    assert_eq!(get_binary_source("/b/target/release", &release), Some("/b/target/release/subsweep".to_owned()));
    assert_eq!(get_binary_source("/b/target/release", &debug), Some("/b/target/debug/examples/ex".to_owned()));
}

#[test]
fn convergence_errors_grouped_by_sweep() {
    let log = ArepoLogFile::new("log");
    let contents = "Sweep PBC iteration 1, Mean error: 1.5e-3\nSweep PBC iteration 2,  Mean error: 2.5e-4\nSweep PBC iteration 1, Mean error: 3.0e-3\n";
    assert_eq!(
        log.get_convergence_errors(contents),
        Ok(vec![vec!["1.5e-3".to_owned(), "2.5e-4".to_owned()], vec!["3.0e-3".to_owned()]])
    );
    assert_eq!(log.get_convergence_errors("no sweeps"), Ok(vec![]));
    assert_eq!(
        log.get_convergence_errors("Sweep PBC iteration 2, Mean error: 1.0e-1"),
        Err(LogError::NoFirstIteration)
    );
}
