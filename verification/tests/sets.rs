use rbob::job_cascade::{
    get_command_to_rewrite_snapshot, get_non_cascade_substitutions, get_rewritten_snapshot_name,
    get_substitutions_cascade, repeat, strip_ending, CascadeError, CascadeTimes,
};
use rbob::job_params::SystemConfiguration;
use rbob::param_value::ParamValue;
use rbob::sim_params::{SimParams, SimParamsKind};
use rbob::sim_set::{
    filter_sim_set, get_sim_params, get_sim_params_from_substitutions, numbered_folders, CartesianType,
    CascadeSteps, SimSet, SimSetConfig, SimSetError,
};
use rbob::substitutions::{ParamMap, SubstitutionError};
use rbob::yaml::YamlValue;

fn s(x: &str) -> YamlValue {
    YamlValue::Str(x.to_owned())
}

fn conf() -> SystemConfiguration {
    SystemConfiguration {
        max_num_cores: 4,
        max_num_cores_per_node: 4,
        partitions: vec![(1, "small".to_owned())],
    }
}

fn sim_with(folder: &str, a: i64, b: &str) -> SimParams {
    SimParams::new(
        folder,
        vec![(s("a"), YamlValue::Int(a)), (s("b"), s(b))],
        SimParamsKind::Input,
        &conf(),
    )
}

fn set_of(sims: Vec<SimParams>) -> SimSet {
    SimSet::from_vec(sims.into_iter().enumerate().collect())
}

fn map(entries: &[(&str, ParamValue)]) -> ParamMap {
    ParamMap { entries: entries.iter().map(|(k, v)| (k.to_string(), v.clone())).collect() }
}

#[test]
fn quotient_splits_by_value_in_ascending_order() {
    let set = set_of(vec![
        sim_with("/s/0", 2, "x"),
        sim_with("/s/1", 1, "y"),
        sim_with("/s/2", 2, "z"),
        sim_with("/s/3", 3, "x"),
    ]);
    let parts = set.quotient("a");
    assert_eq!(parts.len(), 3);
    let folders: Vec<Vec<(usize, String)>> = parts
        .iter()
        .map(|p| p.enumerate().iter().map(|(i, sim)| (*i, sim.folder.clone())).collect())
        .collect();
    assert_eq!(folders[0], vec![(0, "/s/1".to_owned())]);
    assert_eq!(folders[1], vec![(0, "/s/0".to_owned()), (1, "/s/2".to_owned())]);
    assert_eq!(folders[2], vec![(0, "/s/3".to_owned())]);
    let total: usize = parts.iter().map(|p| p.len()).sum();
    assert_eq!(total, set.len());
}

#[test]
fn quotient_orders_text_values() {
    let set = set_of(vec![sim_with("/s/0", 1, "b"), sim_with("/s/1", 1, "a")]);
    let parts = set.quotient("b");
    assert_eq!(parts.len(), 2);
    assert_eq!(parts[0].iter()[0].folder, "/s/1");
    assert_eq!(parts[1].iter()[0].folder, "/s/0");
}

#[test]
fn quotients_split_in_turn() {
    let set = set_of(vec![
        sim_with("/s/0", 1, "x"),
        sim_with("/s/1", 1, "y"),
        sim_with("/s/2", 2, "x"),
    ]);
    let parts = set.quotients(&vec!["a".to_owned(), "b".to_owned()]);
    assert_eq!(parts.len(), 3);
    assert_eq!(parts[0].iter()[0].folder, "/s/0");
    assert_eq!(parts[1].iter()[0].folder, "/s/1");
    assert_eq!(parts[2].iter()[0].folder, "/s/2");
    let whole = set.quotients(&vec![]);
    assert_eq!(whole.len(), 1);
    assert_eq!(whole[0].len(), 3);
}

#[test]
fn varies_tells_differences() {
    let set = set_of(vec![sim_with("/s/0", 1, "x"), sim_with("/s/1", 2, "x")]);
    assert!(set.varies("a"));
    assert!(!set.varies("b"));
    assert!(!set.varies("missing"));
    assert!(!set_of(vec![]).varies("a"));
    assert!(set_of(vec![]).is_empty());
}

#[test]
fn join_and_filter() {
    let first = set_of(vec![sim_with("/s/0", 1, "x"), sim_with("/s/1", 2, "x")]);
    let second = set_of(vec![sim_with("/t/0", 3, "y")]);
    let joined = SimSet::join(vec![first, second]);
    let numbers: Vec<(usize, String)> =
        joined.enumerate().iter().map(|(i, sim)| (*i, sim.folder.clone())).collect();
    assert_eq!(
        numbers,
        vec![(0, "/s/0".to_owned()), (1, "/s/1".to_owned()), (2, "/t/0".to_owned())]
    );
    let selected = filter_sim_set(joined.duplicate(), Some(&vec![0, 2]));
    let kept: Vec<usize> = selected.enumerate().iter().map(|(i, _)| *i).collect();
    assert_eq!(kept, vec![0, 2]);
    assert_eq!(filter_sim_set(joined, None).len(), 3);
}

#[test]
fn substitutions_make_simulations() {
    let base = sim_with("/in", 1, "x");
    let subs = vec![
        map(&[("a", ParamValue::Int(5)), ("sim_label", ParamValue::Str("l".to_owned()))]),
        map(&[("b", ParamValue::Bool(true))]),
    ];
    let sims = get_sim_params_from_substitutions(&base, &subs).unwrap();
    assert_eq!(sims.len(), 2);
    assert_eq!(sims[0].0, 0);
    assert_eq!(sims[1].0, 1);
    assert_eq!(sims[0].1.get("a"), Some(&YamlValue::Int(5)));
    assert_eq!(sims[0].1.get("sim_label"), Some(&s("l")));
    assert_eq!(sims[1].1.get("a"), Some(&YamlValue::Int(1)));
    assert_eq!(sims[1].1.get("b"), Some(&YamlValue::Bool(true)));
    assert_eq!(sims[1].1.folder, "/in");
}

#[test]
fn unknown_parameter_is_an_error() {
    let base = sim_with("/in", 1, "x");
    let subs = vec![map(&[("a", ParamValue::Int(5))]), map(&[("nope", ParamValue::Int(1))])];
    assert_eq!(
        get_sim_params_from_substitutions(&base, &subs).unwrap_err(),
        SimSetError::UnknownParam("nope".to_owned())
    );
}

#[test]
fn sim_set_file_dispatch() {
    let base = sim_with("/in", 1, "x");
    let config = SimSetConfig {
        cartesian_type: CartesianType::All,
        substitutions: vec![
            ("a".to_owned(), YamlValue::Sequence(vec![YamlValue::Int(1), YamlValue::Int(2)])),
            ("b".to_owned(), YamlValue::Sequence(vec![s("u"), s("v")])),
        ],
    };
    let sims = get_sim_params(&config, &base, "/bin/bob", "cascade").unwrap();
    assert_eq!(sims.len(), 4);
    assert_eq!(sims[3].1.get("a"), Some(&YamlValue::Int(2)));
    assert_eq!(sims[3].1.get("b"), Some(&s("v")));
    let normal = SimSetConfig { cartesian_type: CartesianType::NoCartesian, substitutions: config.substitutions };
    let sims = get_sim_params(&normal, &base, "/bin/bob", "cascade").unwrap();
    assert_eq!(sims.len(), 2);
    assert_eq!(sims[1].1.get("b"), Some(&s("v")));
    let wrong = SimSetConfig {
        cartesian_type: CartesianType::NoCartesian,
        substitutions: vec![
            ("a".to_owned(), YamlValue::Sequence(vec![YamlValue::Int(1)])),
            ("b".to_owned(), YamlValue::Sequence(vec![s("u"), s("v")])),
        ],
    };
    assert_eq!(
        get_sim_params(&wrong, &base, "/bin/bob", "cascade").unwrap_err(),
        SimSetError::Substitution(SubstitutionError::DifferentLengths)
    );
}

#[test]
fn numbered_output_folders() {
    let folders = vec!["/o/10".to_owned(), "/o/plots".to_owned(), "/o/2".to_owned(), "/o/0".to_owned()];
    let numbered = numbered_folders(&folders).unwrap();
    assert_eq!(
        numbered,
        vec![(0, "/o/0".to_owned()), (2, "/o/2".to_owned()), (10, "/o/10".to_owned())]
    );
    assert_eq!(numbered_folders(&vec!["/".to_owned()]), None);
}

#[test]
fn numbered_folders_with_the_same_number_go_by_path() {
    let folders = vec!["/o/1".to_owned(), "/o/3".to_owned(), "/o/01".to_owned()];
    assert_eq!(
        numbered_folders(&folders).unwrap(),
        vec![(1, "/o/01".to_owned()), (1, "/o/1".to_owned()), (3, "/o/3".to_owned())]
    );
}

fn times(max: &str) -> CascadeTimes {
    CascadeTimes {
        time_begin: ParamValue::Float(0, "0".to_owned()),
        time_max: ParamValue::Float(1, max.to_owned()),
        max_size_timestep: ParamValue::Float(2, "1e-8".to_owned()),
        min_size_timestep: ParamValue::Float(3, "1e-9".to_owned()),
    }
}

#[test]
fn cascade_substitutions() {
    assert_eq!(strip_ending("snap_010.hdf5"), "snap_010");
    assert_eq!(get_rewritten_snapshot_name("snap_010.hdf5"), "snap_010_rewritten.hdf5");
    assert_eq!(get_command_to_rewrite_snapshot(0, "snap_010.hdf5", "/bin/bob"), "");
    assert_eq!(
        get_command_to_rewrite_snapshot(2, "snap_010.hdf5", "/bin/bob"),
        "/bin/bob copy-abundances ../1/ . snap_010_rewritten.hdf5; rm snap_010.hdf5; mv snap_010_rewritten.hdf5 snap_010.hdf5; "
    );
    let subs = vec![("a".to_owned(), YamlValue::Int(1))];
    let files = vec!["ics_0.hdf5".to_owned(), "ics_1.hdf5".to_owned()];
    let steps = vec![times("1.5"), times("2.5")];
    let maps = get_substitutions_cascade(&subs, &files, &steps, "/bin/bob", "cascade").unwrap();
    assert_eq!(maps.len(), 2);
    assert_eq!(maps[1].get("a"), Some(&ParamValue::Int(1)));
    assert_eq!(maps[1].get("InitCondFile"), Some(&ParamValue::Str("ics_1".to_owned())));
    assert_eq!(maps[1].get("TimeMax"), Some(&ParamValue::Float(1, "2.5".to_owned())));
    assert_eq!(maps[0].get("cascade"), Some(&ParamValue::Bool(true)));
    assert_eq!(maps[0].get("additionalCommands"), Some(&ParamValue::Str(String::new())));
    let repeated = repeat(&maps[0], 3);
    assert_eq!(repeated.len(), 3);
    assert_eq!(repeated[2], maps[0]);
}

#[test]
fn cascade_count_mismatch() {
    let subs = vec![("a".to_owned(), YamlValue::Sequence(vec![YamlValue::Int(1), YamlValue::Int(2)]))];
    assert_eq!(
        get_non_cascade_substitutions(&subs, 3).unwrap_err(),
        CascadeError::CountMismatch { sims: 2, files: 3 }
    );
    assert_eq!(get_non_cascade_substitutions(&subs, 2).unwrap().len(), 2);
    let single = vec![("a".to_owned(), YamlValue::Int(1))];
    assert_eq!(get_non_cascade_substitutions(&single, 3).unwrap().len(), 3);
}

#[test]
fn cascade_config_runs_the_cascade() {
    let base = SimParams::new(
        "/in",
        vec![
            (s("InitCondFile"), s("x")),
            (s("TimeBegin"), YamlValue::Int(0)),
            (s("TimeMax"), YamlValue::Int(0)),
            (s("MaxSizeTimestep"), YamlValue::Int(0)),
            (s("MinSizeTimestep"), YamlValue::Int(0)),
            (s("cascade"), YamlValue::Bool(false)),
            (s("additionalCommands"), s("")),
        ],
        SimParamsKind::Input,
        &conf(),
    );
    let config = SimSetConfig {
        cartesian_type: CartesianType::Cascade(CascadeSteps {
            files: vec!["a.hdf5".to_owned()],
            times: vec![times("3")],
        }),
        substitutions: vec![],
    };
    let sims = get_sim_params(&config, &base, "/bin/bob", "cascade").unwrap();
    assert_eq!(sims.len(), 1);
    assert_eq!(sims[0].1.get("InitCondFile"), Some(&s("a")));
    assert_eq!(sims[0].1.get("cascade"), Some(&YamlValue::Bool(true)));
}

#[test]
fn cascade_without_files_or_with_count_mismatch_admits_cascade_names() {
    let subs = vec![
        ("TimeMax".to_owned(), YamlValue::Sequence(vec![YamlValue::Int(1), YamlValue::Int(2)])),
    ];
    let files = vec!["a.hdf5".to_owned(), "b.hdf5".to_owned(), "c.hdf5".to_owned()];
    let steps = vec![times("1"), times("2"), times("3")];
    assert_eq!(
        get_substitutions_cascade(&subs, &files, &steps, "/bin/bob", "cascade").unwrap_err(),
        CascadeError::CountMismatch { sims: 2, files: 3 }
    );
    let none: Vec<String> = vec![];
    let single = vec![("TimeMax".to_owned(), YamlValue::Int(1))];
    assert_eq!(get_substitutions_cascade(&single, &none, &vec![], "/bin/bob", "cascade").unwrap().len(), 0);
}
