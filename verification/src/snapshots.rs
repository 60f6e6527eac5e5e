//! The snapshots of a simulation: which files they are, in which order,
//! and their names; and where a simulation's sources are read from.
use vstd::prelude::*;
use crate::order::{sort_by_key, str_le, SortKey};
use crate::paths::{extension_of, final_component, joined_path, path_extension, path_file_name, path_join};
use crate::sim_params::SimParams;
use crate::text::{contains_str, has_substring, str_eq, strip_prefix, strip_suffix, without_prefix, without_suffix};
use crate::yaml::{path_get, split_path, YamlValue, YamlView};

verus! {

/// The name of a snapshot: its file name without the extension `.hdf5`,
/// the snapshot base and the underscore that follows it.
pub open spec fn snapshot_name(file_name: Seq<char>, base: Seq<char>) -> Option<Seq<char>> {
    match without_suffix(file_name, ".hdf5"@) {
        None => None,
        Some(a) => match without_prefix(a, base) {
            None => None,
            Some(b) => without_prefix(b, "_"@),
        },
    }
}

/// The snapshot base of a simulation (`SnapshotFileBase`).
pub open spec fn snapshot_base(params: YamlView) -> Option<Seq<char>> {
    match path_get(params, split_path("SnapshotFileBase"@)) {
        Some(YamlView::Str(s)) => Some(s),
        _ => None,
    }
}

/// The name of the snapshot in `file`, where its file name has the form
/// `{base}_{name}.hdf5` for the simulation's snapshot base.
pub fn get_snapshot_name(sim: &SimParams, file: &str) -> (r: Option<String>)
    requires
        snapshot_base(sim.params_view()) is Some,
    ensures
        match final_component(file@) {
            None => r is None,
            Some(f) => match snapshot_name(f, snapshot_base(sim.params_view())->Some_0) {
                None => r is None,
                Some(n) => r matches Some(x) && x@ == n,
            },
        },
{
    let base = match sim.get("SnapshotFileBase") {
        Some(YamlValue::Str(s)) => s,
        _ => {
            return None;
        },
    };
    let f = match path_file_name(file) {
        Some(f) => f,
        None => {
            return None;
        },
    };
    let a = match strip_suffix(f.as_str(), ".hdf5") {
        Some(a) => a,
        None => {
            return None;
        },
    };
    let b = match strip_prefix(a.as_str(), base.as_str()) {
        Some(b) => b,
        None => {
            return None;
        },
    };
    strip_prefix(b.as_str(), "_")
}

/// The simulation is a postprocessing run (its run parameters hold `21`).
pub open spec fn is_postprocessing_run(params: YamlView) -> bool {
    match path_get(params, split_path("runParams"@)) {
        Some(YamlView::Str(s)) => has_substring(s, "21"@),
        _ => false,
    }
}

/// The run parameters, where present, are text.
pub open spec fn run_params_readable(params: YamlView) -> bool {
    path_get(params, split_path("runParams"@)) matches Some(v) ==> v is Str
}

/// Whether `file` is kept: all files are, except the first snapshot of a
/// postprocessing run.
pub open spec fn keeps_file(params: YamlView, file: Seq<char>) -> bool {
    !is_postprocessing_run(params) || final_component(file) != Some("snap_000.hdf5"@)
}

/// The files of a simulation without the first snapshot of a postprocessing
/// run, which a postprocessing run does not write.
pub fn filter_first_snapshot_for_postprocessing_runs(sim: &SimParams, files: Vec<String>) -> (r: Vec<String>)
    requires
        run_params_readable(sim.params_view()),
        is_postprocessing_run(sim.params_view()) ==> forall|i: int|
            0 <= i < files@.len() ==> (#[trigger] final_component(files@[i]@)) is Some,
    ensures
        r.deep_view() == files.deep_view().filter(|f: Seq<char>| keeps_file(sim.params_view(), f)),
{
    let ghost fv = files.deep_view();
    let ghost pred = |f: Seq<char>| keeps_file(sim.params_view(), f);
    let postprocessing = match sim.get("runParams") {
        Some(YamlValue::Str(s)) => contains_str(s.as_str(), "21"),
        _ => false,
    };
    let mut out: Vec<String> = Vec::new();
    let mut i: usize = 0;
    assert(fv.take(0).filter(pred) =~= Seq::<Seq<char>>::empty()) by {
        reveal(Seq::filter);
    }
    while i < files.len()
        invariant
            i <= files@.len(),
            fv == files.deep_view(),
            pred == (|f: Seq<char>| keeps_file(sim.params_view(), f)),
            postprocessing == is_postprocessing_run(sim.params_view()),
            postprocessing ==> forall|k: int| 0 <= k < files@.len() ==> (#[trigger] final_component(files@[k]@)) is Some,
            out.deep_view() == fv.take(i as int).filter(pred),
        decreases files@.len() - i,
    {
        assert(fv.take(i + 1).drop_last() =~= fv.take(i as int));
        assert(fv.take(i + 1).last() == files@[i as int]@);
        let keep = if postprocessing {
            match path_file_name(files[i].as_str()) {
                Some(n) => !str_eq(n.as_str(), "snap_000.hdf5"),
                None => true,
            }
        } else {
            true
        };
        if keep {
            let ghost before = out.deep_view();
            out.push(files[i].clone());
            assert(out.deep_view() =~= before.push(files@[i as int]@));
            assert(fv.take(i + 1).filter(pred) == before.push(files@[i as int]@)) by {
                reveal(Seq::filter);
            }
        } else {
            assert(fv.take(i + 1).filter(pred) == fv.take(i as int).filter(pred)) by {
                reveal(Seq::filter);
            }
        }
        i += 1;
    }
    assert(fv.take(i as int) =~= fv);
    out
}

/// `file` is a snapshot (its extension is `hdf5`).
pub open spec fn is_snapshot_file(file: Seq<char>) -> bool {
    extension_of(file) == Some("hdf5"@)
}

/// The files whose file name is `y`.
pub open spec fn file_named(y: Seq<char>) -> spec_fn(Seq<char>) -> bool {
    |f: Seq<char>| final_component(f)->Some_0 == y
}

/// The snapshot files among the files of a simulation, in the order of
/// their file names (without the first snapshot of a postprocessing run);
/// files with the same file name keep the order they were listed in.
pub fn get_snapshot_files(sim: &SimParams, files: Vec<String>) -> (r: Vec<String>)
    requires
        run_params_readable(sim.params_view()),
        forall|i: int| 0 <= i < files@.len() ==> (#[trigger] final_component(files@[i]@)) is Some,
    ensures
        r.deep_view().to_multiset() == files.deep_view().filter(|f: Seq<char>| keeps_file(sim.params_view(), f)).filter(
            |f: Seq<char>| is_snapshot_file(f),
        ).to_multiset(),
        forall|i: int, j: int|
            0 <= i < j < r@.len() ==> str_le(
                final_component(#[trigger] r@[i]@)->Some_0,
                final_component(#[trigger] r@[j]@)->Some_0,
            ),
        forall|y: Seq<char>|
            r.deep_view().filter(#[trigger] file_named(y)) == files.deep_view().filter(
                |f: Seq<char>| keeps_file(sim.params_view(), f),
            ).filter(|f: Seq<char>| is_snapshot_file(f)).filter(file_named(y)),
{
    let ghost fv = files.deep_view();
    let kept = filter_first_snapshot_for_postprocessing_runs(sim, files);
    let ghost kv = kept.deep_view();
    let ghost is_snap = |f: Seq<char>| is_snapshot_file(f);
    proof {
        assert forall|i: int| 0 <= i < kv.len() implies (#[trigger] final_component(kv[i])) is Some by {
            assert(kv.contains(kv[i]));
            fv.lemma_filter_contains_rev(|f: Seq<char>| keeps_file(sim.params_view(), f), kv[i]);
        }
    }
    // Each snapshot file with its file name, as the key it is sorted by.
    let mut keyed: Vec<(String, String)> = Vec::new();
    let mut i: usize = 0;
    assert(kv.take(0).filter(is_snap) =~= Seq::<Seq<char>>::empty()) by {
        reveal(Seq::filter);
    }
    while i < kept.len()
        invariant
            i <= kept@.len(),
            kv == kept.deep_view(),
            is_snap == (|f: Seq<char>| is_snapshot_file(f)),
            forall|k: int| 0 <= k < kv.len() ==> (#[trigger] final_component(kv[k])) is Some,
            Seq::new(keyed@.len(), |k: int| keyed@[k].1@) == kv.take(i as int).filter(is_snap),
            forall|k: int| 0 <= k < keyed@.len() ==> final_component((#[trigger] keyed@[k]).1@) == Some(keyed@[k].0@),
        decreases kept@.len() - i,
    {
        assert(kv.take(i + 1).drop_last() =~= kv.take(i as int));
        assert(kv.take(i + 1).last() == kept@[i as int]@);
        let ghost before = Seq::new(keyed@.len(), |k: int| keyed@[k].1@);
        let snap = match path_extension(kept[i].as_str()) {
            Some(e) => str_eq(e.as_str(), "hdf5"),
            None => false,
        };
        if snap {
            assert(final_component(kv[i as int]) is Some);
            let name = match path_file_name(kept[i].as_str()) {
                Some(n) => n,
                None => String::new(),
            };
            keyed.push((name, kept[i].clone()));
            assert(Seq::new(keyed@.len(), |k: int| keyed@[k].1@) =~= before.push(kept@[i as int]@));
            assert(kv.take(i + 1).filter(is_snap) == before.push(kept@[i as int]@)) by {
                reveal(Seq::filter);
            }
        } else {
            assert(kv.take(i + 1).filter(is_snap) == kv.take(i as int).filter(is_snap)) by {
                reveal(Seq::filter);
            }
        }
        i += 1;
    }
    assert(kv.take(i as int) =~= kv);
    let ghost kd = keyed@;
    let sorted = sort_by_key(keyed);
    let ghost sk = sorted@;
    let mut out: Vec<String> = Vec::new();
    let mut rest = sorted;
    while rest.len() > 0
        invariant
            out@.len() + rest@.len() == sk.len(),
            rest@ == sk.skip(out@.len() as int),
            forall|k: int| 0 <= k < out@.len() ==> (#[trigger] out@[k]) == sk[k].1,
        decreases rest@.len(),
    {
        let (_, f) = rest.remove(0);
        assert(rest@ =~= sk.skip(out@.len() + 1 as int));
        out.push(f);
    }
    proof {
        broadcast use vstd::seq_lib::group_to_multiset_ensures;

        let f = |p: (String, String)| p.1@;
        crate::order::lemma_map_multiset(sk, kd, f);
        assert(out.deep_view() =~= sk.map_values(f));
        assert(kv.filter(is_snap) =~= kd.map_values(f));
        assert forall|i: int| 0 <= i < sk.len() implies final_component((#[trigger] sk[i]).1@) == Some(sk[i].0@) by {
            assert(sk.contains(sk[i]));
            assert(sk.to_multiset().count(sk[i]) > 0);
            assert(kd.to_multiset().count(sk[i]) > 0);
            assert(kd.contains(sk[i]));
            let k = choose|k: int| 0 <= k < kd.len() && kd[k] == sk[i];
        }
        assert forall|i: int, j: int| 0 <= i < j < out@.len() implies str_le(
            final_component(#[trigger] out@[i]@)->Some_0,
            final_component(#[trigger] out@[j]@)->Some_0,
        ) by {
            assert(sk[i].key_le(sk[j]));
        }
        let name = |f: Seq<char>| final_component(f)->Some_0;
        assert forall|k: int| 0 <= k < kd.len() implies name(f(#[trigger] kd[k])) == kd[k].0@ by {}
        assert forall|y: Seq<char>| out.deep_view().filter(#[trigger] file_named(y)) == kv.filter(is_snap).filter(
            file_named(y),
        ) by {
            crate::order::lemma_stable_by_name(kd, sk, f, name, y);
            assert(crate::order::name_is(name, y) =~= file_named(y));
        }
    }
    out
}

/// Whether every path has a file name.
pub fn all_have_file_names(files: &Vec<String>) -> (r: bool)
    ensures
        r == forall|i: int| 0 <= i < files@.len() ==> (#[trigger] final_component(files@[i]@)) is Some,
{
    let mut i: usize = 0;
    while i < files.len()
        invariant
            i <= files@.len(),
            forall|k: int| 0 <= k < i ==> (#[trigger] final_component(files@[k]@)) is Some,
        decreases files@.len() - i,
    {
        if path_file_name(files[i].as_str()).is_none() {
            return false;
        }
        i += 1;
    }
    true
}

/// The snapshot files among `files`, in the order of their file names, where
/// every file has a name (none otherwise).
pub fn snapshot_files_checked(sim: &SimParams, files: Vec<String>) -> (r: Option<Vec<String>>)
    requires
        run_params_readable(sim.params_view()),
    ensures
        (forall|i: int| 0 <= i < files@.len() ==> (#[trigger] final_component(files@[i]@)) is Some) <==> r is Some,
        r matches Some(v) ==> {
            &&& v.deep_view().to_multiset() == files.deep_view().filter(
                |f: Seq<char>| keeps_file(sim.params_view(), f),
            ).filter(|f: Seq<char>| is_snapshot_file(f)).to_multiset()
            &&& forall|i: int, j: int|
                0 <= i < j < v@.len() ==> str_le(
                    final_component(#[trigger] v@[i]@)->Some_0,
                    final_component(#[trigger] v@[j]@)->Some_0,
                )
            &&& forall|y: Seq<char>|
                v.deep_view().filter(#[trigger] file_named(y)) == files.deep_view().filter(
                    |f: Seq<char>| keeps_file(sim.params_view(), f),
                ).filter(|f: Seq<char>| is_snapshot_file(f)).filter(file_named(y))
        },
{
    if all_have_file_names(&files) {
        Some(get_snapshot_files(sim, files))
    } else {
        None
    }
}

/// Where the sources of a simulation are read from.
#[derive(Debug, Clone, PartialEq, Eq)]
pub enum SourceKind {
    /// From the sources file at this path.
    File(String),
    /// From the simulation's parameters.
    Params,
}

/// The simulation's sources setting (`SWEEP_SOURCES`), where it is an integer.
pub open spec fn sweep_sources(params: YamlView) -> Option<i64> {
    match path_get(params, split_path("SWEEP_SOURCES"@)) {
        Some(YamlView::Int(i)) => Some(i),
        _ => None,
    }
}

/// The sources test file (`TestSrcFile`), where it is text.
pub open spec fn test_source_file(params: YamlView) -> Option<Seq<char>> {
    match path_get(params, split_path("TestSrcFile"@)) {
        Some(YamlView::Str(s)) => Some(s),
        _ => None,
    }
}

/// Where the sources of the simulation are read from: setting 10 reads the
/// test file in the simulation's folder, setting 9 the parameters.
pub fn get_source_kind(sim: &SimParams) -> (r: SourceKind)
    requires
        sweep_sources(sim.params_view()) == Some(9i64) || (sweep_sources(sim.params_view()) == Some(10i64)
            && test_source_file(sim.params_view()) is Some),
    ensures
        sweep_sources(sim.params_view()) == Some(9i64) ==> r == SourceKind::Params,
        sweep_sources(sim.params_view()) == Some(10i64) ==> (r matches SourceKind::File(p) && p@ == joined_path(
            sim.folder@,
            test_source_file(sim.params_view())->Some_0,
        )),
{
    let setting = match sim.get("SWEEP_SOURCES") {
        Some(YamlValue::Int(i)) => *i,
        _ => 0,
    };
    if setting == 10 {
        match sim.get("TestSrcFile") {
            Some(YamlValue::Str(s)) => SourceKind::File(path_join(sim.folder.as_str(), s.as_str())),
            _ => SourceKind::Params,
        }
    } else {
        SourceKind::Params
    }
}

} // verus!
