use rbob::job_params::SystemConfiguration;
use rbob::plots::{
    Axis, ConvergenceFn, DTypeExpansionFn, FieldIdentifier, IonizationFn, NameError, Named, Plot,
    RTypeExpansionFn, ScalingFn, Slice, SliceFn,
};
use rbob::postprocess::{
    find_latex_file, pic_file_names, get_default_replacements, get_main_plot_file_contents, get_plot_param_file_contents, in_quotes,
    DataPlotInfo, PlotInfo, PlotParams, PostFnKind, PostResult,
};
use rbob::sim_params::{SimParams, SimParamsKind};
use rbob::snapshots::{
    filter_first_snapshot_for_postprocessing_runs, get_snapshot_files, get_snapshot_name, get_source_kind, SourceKind,
};
use rbob::yaml::YamlValue;

fn s(x: &str) -> YamlValue {
    YamlValue::Str(x.to_owned())
}

fn conf() -> SystemConfiguration {
    SystemConfiguration { max_num_cores: 4, max_num_cores_per_node: 4, partitions: vec![(1, "p".to_owned())] }
}

#[test]
fn plot_params_read_back() {
    let mut params = PlotParams::default();
    params.add("minX", "0");
    params.add("maxX", "1.5");
    params.add("minX", "-1");
    assert_eq!(params.0, vec![("minX".to_owned(), "-1".to_owned()), ("maxX".to_owned(), "1.5".to_owned())]);
}

#[test]
fn joining_results_renames_parameters() {
    let mut p0 = PlotParams::default();
    p0.add("a", "1");
    let mut p1 = PlotParams::default();
    p1.add("a", "2");
    p1.add("b", "3");
    let joined = PostResult::join(vec![PostResult::new(p0, vec![10, 11]), PostResult::new(p1, vec![12])]);
    assert_eq!(joined.data, vec![10, 11, 12]);
    assert_eq!(
        joined.params.0,
        vec![("a_0".to_owned(), "1".to_owned()), ("a_1".to_owned(), "2".to_owned()), ("b_1".to_owned(), "3".to_owned())]
    );
    let empty: PostResult<u8> = PostResult::join(vec![]);
    assert!(empty.data.is_empty() && empty.params.0.is_empty());
}

#[test]
fn plot_names() {
    let info = PlotInfo::new("slice", "slice_z_density", None, Some("3"), Some("010"));
    assert_eq!(info.plot_template_name, "slice");
    assert_eq!(info.name, "slice_slice");
    assert_eq!(info.qualified_name, "slice_z_density_slice");
    assert_eq!(info.plot_name, "slice_z_density_slice_3_010");
    let info = PlotInfo::new("scaling", "scaling", Some("tmpl"), Some("3"), None);
    assert_eq!(info.plot_name, "scaling_tmpl_3");
    let info = PlotInfo::new("scaling", "scaling", None, None, Some("ignored"));
    assert_eq!(info.plot_name, "scaling_scaling");
    let data = DataPlotInfo::new(info.clone(), PostResult::new(PlotParams::default(), vec![1u8]));
    assert_eq!(data.info.plot_name, info.plot_name);
    assert_eq!(data.data, vec![1u8]);
}

#[test]
fn function_names() {
    let slice = SliceFn { field: FieldIdentifier::Density, axis: Axis::Z };
    assert_eq!(slice.name(), "slice");
    assert_eq!(slice.qualified_name(), "slice_z_density");
    assert_eq!(slice.get_plot_info(Some("0"), None, None).plot_name, "slice_z_density_slice_0");
    assert_eq!(ConvergenceFn {}.qualified_name(), "convergence");
    assert_eq!(IonizationFn.name(), "ionization");
    assert_eq!(ScalingFn { quotient_parameter: None, ignore_failed: false }.name(), "scaling");
    assert_eq!(RTypeExpansionFn {}.name(), "rtype");
    assert_eq!(DTypeExpansionFn {}.qualified_name(), "dtype");
    assert!(matches!(DTypeExpansionFn {}.kind(), PostFnKind::SimSet));
    assert!(matches!(RTypeExpansionFn {}.kind(), PostFnKind::SimSet));
    assert_eq!(Slice {}.get_command(), "slice --axis z --field Temperature");
}

#[test]
fn axes_and_fields() {
    assert_eq!(Axis::parse("x"), Ok(Axis::X));
    assert_eq!(Axis::parse("z"), Ok(Axis::Z));
    assert_eq!(Axis::parse("w"), Err(NameError::InvalidAxis("w".to_owned())));
    assert_eq!(Axis::Y.to_text(), "y");
    assert_eq!("y".parse::<Axis>(), Ok(Axis::Y));
    assert_eq!("density".parse::<FieldIdentifier>(), Ok(FieldIdentifier::Density));
    assert_eq!(FieldIdentifier::parse("abundance"), Ok(FieldIdentifier::HpAbundance));
    assert_eq!(FieldIdentifier::parse("density"), Ok(FieldIdentifier::Density));
    assert_eq!(FieldIdentifier::parse("photonrates"), Err(NameError::InvalidField("photonrates".to_owned())));
    assert_eq!(FieldIdentifier::PhotonRates.to_text(), "photonrates");
    assert_eq!(FieldIdentifier::HpAbundance.to_text(), "hpabundance");
}

#[test]
fn gnuplot_files() {
    let params = vec![("a".to_owned(), "1".to_owned()), ("b".to_owned(), "\"x\"".to_owned())];
    assert_eq!(get_plot_param_file_contents(&params), "a = 1\nb = \"x\"");
    assert_eq!(get_main_plot_file_contents(&vec!["params.gp".to_owned(), "plot.gp".to_owned()]), "load \"params.gp\"\nload \"plot.gp\"");
    assert_eq!(in_quotes("q"), "\"q\"");
    assert_eq!(
        get_default_replacements(2, "pic", "data/0 data/1"),
        vec![
            ("numFiles".to_owned(), "2".to_owned()),
            ("picFile".to_owned(), "\"pic\"".to_owned()),
            ("files".to_owned(), "\"data/0 data/1\"".to_owned()),
        ]
    );
}

#[test]
fn snapshots_with_the_same_name_keep_their_order() {
    let plain = SimParams::new("/s/1", vec![(s("SWEEP_SOURCES"), YamlValue::Int(9))], SimParamsKind::Output, &conf());
    let files = vec![
        "/s/1/z/snap_001.hdf5".to_owned(),
        "/s/1/a/snap_001.hdf5".to_owned(),
        "/s/1/m/snap_000.hdf5".to_owned(),
    ];
    assert_eq!(
        get_snapshot_files(&plain, files),
        vec!["/s/1/m/snap_000.hdf5".to_owned(), "/s/1/z/snap_001.hdf5".to_owned(), "/s/1/a/snap_001.hdf5".to_owned()]
    );
}

#[test]
fn snapshots_of_a_sim() {
    let post = SimParams::new(
        "/s/0",
        vec![(s("runParams"), s("-v 21")), (s("SnapshotFileBase"), s("snap")), (s("SWEEP_SOURCES"), YamlValue::Int(10)), (s("TestSrcFile"), s("src.bin"))],
        SimParamsKind::Output,
        &conf(),
    );
    let plain = SimParams::new("/s/1", vec![(s("SWEEP_SOURCES"), YamlValue::Int(9))], SimParamsKind::Output, &conf());
    let files = vec![
        "/s/0/out/snap_002.hdf5".to_owned(),
        "/s/0/out/snap_000.hdf5".to_owned(),
        "/s/0/out/notes.txt".to_owned(),
        "/s/0/out/snap_001.hdf5".to_owned(),
    ];
    assert_eq!(filter_first_snapshot_for_postprocessing_runs(&post, files.clone()).len(), 3);
    assert_eq!(filter_first_snapshot_for_postprocessing_runs(&plain, files.clone()).len(), 4);
    assert_eq!(
        get_snapshot_files(&post, files.clone()),
        vec!["/s/0/out/snap_001.hdf5".to_owned(), "/s/0/out/snap_002.hdf5".to_owned()]
    );
    assert_eq!(get_snapshot_files(&plain, files).len(), 3);
    assert_eq!(get_snapshot_name(&post, "/s/0/out/snap_012.hdf5"), Some("012".to_owned()));
    assert_eq!(get_snapshot_name(&post, "/s/0/out/other_012.hdf5"), None);
    assert_eq!(get_snapshot_name(&post, "/s/0/out/snap_012.txt"), None);
    assert_eq!(get_source_kind(&post), SourceKind::File("/s/0/src.bin".to_owned()));
    assert_eq!(get_source_kind(&plain), SourceKind::Params);
}

#[test]
fn pictures_and_latex_files() {
    assert_eq!(pic_file_names("plot"), vec!["plot.pdf".to_owned(), "plot.png".to_owned()]);
    let files = vec!["/p/a.gp".to_owned(), "/p/b.tex".to_owned(), "/p/c.tex".to_owned()];
    assert_eq!(find_latex_file(&files), Some("/p/b.tex".to_owned()));
    assert_eq!(find_latex_file(&vec!["/p/a.gp".to_owned()]), None);
}
