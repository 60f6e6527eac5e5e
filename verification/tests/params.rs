use rbob::job_params::{get_core_distribution, JobParams, SystemConfiguration};
use rbob::param_value::{ParamError, ParamValue};
use rbob::sim_params::{get_param_file_path, sim_output_folder, SimParams, SimParamsKind};
use rbob::template::{fill_template, TemplateError};
use rbob::yaml::YamlValue;

fn s(x: &str) -> YamlValue {
    YamlValue::Str(x.to_owned())
}

fn small_system() -> SystemConfiguration {
    SystemConfiguration {
        max_num_cores: 4,
        max_num_cores_per_node: 4,
        partitions: vec![(1, "small".to_owned())],
    }
}

fn base_sim() -> SimParams {
    let params = vec![
        (s("numCores"), YamlValue::Int(8)),
        (s("runParams"), s("-v 21")),
        (
            s("output"),
            YamlValue::Mapping(vec![(s("folder"), s("out")), (s("snapshots"), YamlValue::Int(3))]),
        ),
        (
            s("input"),
            YamlValue::Mapping(vec![(
                s("paths"),
                YamlValue::Sequence(vec![s("ics/a.hdf5"), s("/abs/b.hdf5")]),
            )]),
        ),
        (s("verbose"), YamlValue::Bool(true)),
    ];
    SimParams::new("/sims/run", params, SimParamsKind::Input, &small_system())
}

#[test]
fn new_sim_adds_default_job() {
    let sim = base_sim();
    assert_eq!(sim.folder, "/sims/run");
    assert_eq!(sim.kind, SimParamsKind::Input);
    assert_eq!(sim.get("job/num_cores"), Some(&YamlValue::Int(1)));
    assert_eq!(sim.get("job/num_nodes"), Some(&YamlValue::Int(1)));
    assert_eq!(sim.get("job/partition"), Some(&s("small")));
    assert_eq!(sim.get("job/wall_time"), Some(&s("23:00:00")));
    assert_eq!(sim.get("job/executable_name"), Some(&s("subsweep")));
    assert_eq!(sim.get("job/param_file"), Some(&s("params.yml")));
}

#[test]
fn get_by_path() {
    let sim = base_sim();
    assert_eq!(sim.get("output/folder"), Some(&s("out")));
    assert_eq!(sim.get("output/snapshots"), Some(&YamlValue::Int(3)));
    assert_eq!(sim.get("output/missing"), None);
    assert_eq!(sim.get("numCores/deeper"), None);
    assert_eq!(sim.get("nothing"), None);
}

#[test]
fn insert_then_get_reads_back() {
    let mut sim = base_sim();
    sim.insert("output/folder", &s("elsewhere"));
    assert_eq!(sim.get("output/folder"), Some(&s("elsewhere")));
    assert_eq!(sim.get("output/snapshots"), Some(&YamlValue::Int(3)));
    sim.insert("numCores", &YamlValue::Int(16));
    assert_eq!(sim.get_num_cores(), 16);
}

#[test]
fn insert_top_level_adds_and_replaces() {
    let mut sim = base_sim();
    sim.insert_top_level("sim_label", s("first"));
    assert_eq!(sim.get("sim_label"), Some(&s("first")));
    sim.insert_top_level("sim_label", s("second"));
    assert_eq!(sim.get("sim_label"), Some(&s("second")));
}

#[test]
fn defaults_where_missing() {
    let sim = base_sim();
    assert_eq!(sim.get_default_string("output/folder", "output"), "out");
    assert_eq!(sim.get_default_string("output/other", "output"), "output");
    assert_eq!(sim.get_default_i64("numCores", &1), 8);
    assert_eq!(sim.get_default_i64("missing", &7), 7);
    assert!(sim.get_default_bool("verbose", false));
    assert!(!sim.get_default_bool("quiet", false));
}

#[test]
fn ics_files_and_copies() {
    let sim = base_sim();
    assert_eq!(sim.get_ics_files(), vec!["ics/a.hdf5".to_owned(), "/abs/b.hdf5".to_owned()]);
    let copies = sim.ics_copies("/target");
    assert_eq!(copies, vec![("/sims/run/ics/a.hdf5".to_owned(), "/target/ics/a.hdf5".to_owned())]);
}

#[test]
fn folders_of_a_sim() {
    let sim = base_sim();
    assert_eq!(sim.output_folder(), "/sims/run/out");
    assert_eq!(sim.get_name(), "run");
    assert_eq!(get_param_file_path("/sims/run"), "/sims/run/params.yml");
    assert_eq!(sim_output_folder("/out", 12), "/out/12");
    let moved = sim.with_folder("/elsewhere/3");
    assert_eq!(moved.folder, "/elsewhere/3");
    assert_eq!(moved.get("numCores"), Some(&YamlValue::Int(8)));
}

#[test]
fn param_file_entries_drop_the_job() {
    let sim = base_sim();
    let entries = sim.param_file_entries();
    assert_eq!(entries.len(), 5);
    assert!(entries.iter().all(|(k, _)| *k != s("job")));
}

#[test]
fn job_file_from_template() {
    let sim = base_sim();
    let contents = sim
        .get_job_file_contents_from_job_params("#SBATCH -n {num_cores} -p {partition}\n{{run}} {executable_name}")
        .unwrap();
    assert_eq!(contents, "#SBATCH -n 1 -p small\n{run} subsweep");
    let replacements = sim.get_job_file_replacements();
    assert_eq!(replacements.len(), 11);
    assert_eq!(replacements[0], ("num_nodes".to_owned(), "1".to_owned()));
}

#[test]
fn template_errors() {
    let values = vec![("a".to_owned(), "1".to_owned())];
    assert_eq!(fill_template("x{a}y", &values), Ok("x1y".to_owned()));
    assert_eq!(fill_template("plain text", &values), Ok("plain text".to_owned()));
    assert_eq!(fill_template("{b}", &values), Err(TemplateError::MissingKey("b".to_owned())));
    assert_eq!(fill_template("{a", &values), Err(TemplateError::Unclosed));
    assert_eq!(fill_template("a}b", &values), Err(TemplateError::SingleClose));
    assert_eq!(fill_template("{{}}", &values), Ok("{}".to_owned()));
}

#[test]
fn core_distribution() {
    let conf = SystemConfiguration {
        max_num_cores: 1000,
        max_num_cores_per_node: 48,
        partitions: vec![(1, "micro".to_owned()), (17, "general".to_owned()), (100, "large".to_owned())],
    };
    assert_eq!(get_core_distribution(96, &conf), (2, 48, "micro".to_owned()));
    assert_eq!(get_core_distribution(20, &conf), (1, 20, "micro".to_owned()));
    assert_eq!(get_core_distribution(960, &conf), (20, 48, "general".to_owned()));
    assert_eq!(conf.get_partition(100), "large");
    assert_eq!(conf.get_partition(0), "micro");
    assert!(conf.dependencies_allowed());
    assert!(!small_system().dependencies_allowed());
    let mut job = JobParams::new_default(&conf);
    job.num_cores = 100;
    job.set_core_nums(&conf);
    assert_eq!((job.num_nodes, job.num_cores_per_node, job.partition.as_str()), (2, 48, "micro"));
}

#[test]
fn param_values_from_yaml() {
    assert_eq!(ParamValue::new(&YamlValue::Int(3)), Ok(ParamValue::Int(3)));
    assert_eq!(ParamValue::new(&s("x")), Ok(ParamValue::Str("x".to_owned())));
    assert_eq!(ParamValue::new(&YamlValue::Bool(false)), Ok(ParamValue::Bool(false)));
    assert_eq!(ParamValue::new(&YamlValue::UInt(u64::MAX)), Err(ParamError::InvalidNumber));
    assert_eq!(ParamValue::new(&YamlValue::Sequence(vec![])), Err(ParamError::ListValue));
    assert_eq!(ParamValue::Int(-12).to_display_string(), "-12");
    assert_eq!(ParamValue::Bool(true).to_display_string(), "true");
    assert_eq!(ParamValue::parse_with_float("42", None), ParamValue::Int(42));
    assert_eq!(ParamValue::parse_with_float("true", None), ParamValue::Bool(true));
    assert_eq!(ParamValue::parse_with_float("1.5", Some(7)), ParamValue::Float(7, "1.5".to_owned()));
    assert_eq!(ParamValue::parse_with_float("abc", None), ParamValue::Str("abc".to_owned()));
}
