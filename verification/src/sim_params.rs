//! The parameters of one simulation: its folder and its parameter file,
//! read and written by slash-separated paths, with the job parameters
//! stored under the key `job`.
use vstd::prelude::*;
use crate::job_params::{
    cores_per_node, distributable, div_trunc, partition_for, partitions_view, JobParams,
    SystemConfiguration,
};
use crate::paths::{final_component, is_absolute, joined_path, path_file_name, path_is_absolute, path_join};
use crate::postprocess::{insert_pair, name_insert, pairs_view};
use crate::template::{fill, fill_template, TemplateError};
use crate::text::{decimal, i64_to_string, signed_decimal, string_of, u64_to_decimal};
use crate::yaml::{
    entries_view, find_key, get_path, key_position, map_insert, mapping_insert, path_get,
    path_set, split_path, split_path_exec, with_path_set, YamlValue, YamlView,
};

verus! {

/// Whether a simulation is about to be run or has been run.
#[derive(Debug, Clone, Copy, PartialEq, Eq)]
pub enum SimParamsKind {
    Input,
    Output,
}

/// A simulation: its folder, its parameters, and its kind.
#[derive(Debug)]
pub struct SimParams {
    pub folder: String,
    pub params: Vec<(YamlValue, YamlValue)>,
    pub kind: SimParamsKind,
}

/// The name of the parameter file in a simulation folder.
pub open spec fn param_file_name() -> Seq<char> {
    "params.yml"@
}

/// The job parameters as the YAML mapping that serialising them gives
/// (one entry per field, in the order of declaration).
pub open spec fn job_params_yaml(j: JobParams) -> YamlView {
    YamlView::Mapping(
        seq![
            (YamlView::Str("num_nodes"@), YamlView::Int(j.num_nodes)),
            (YamlView::Str("num_cores"@), YamlView::Int(j.num_cores)),
            (YamlView::Str("num_cores_per_node"@), YamlView::Int(j.num_cores_per_node)),
            (YamlView::Str("partition"@), YamlView::Str(j.partition@)),
            (YamlView::Str("wall_time"@), YamlView::Str(j.wall_time@)),
            (YamlView::Str("job_name"@), YamlView::Str(j.job_name@)),
            (YamlView::Str("log_file"@), YamlView::Str(j.log_file@)),
            (YamlView::Str("run_params"@), YamlView::Str(j.run_params@)),
            (YamlView::Str("executable_name"@), YamlView::Str(j.executable_name@)),
            (YamlView::Str("param_file"@), YamlView::Str(j.param_file@)),
            (YamlView::Str("run_program"@), YamlView::Str(j.run_program@)),
        ],
    )
}

/// The default job of a system: one core, spread as the system requires,
/// with the default wall time, names, run parameters and program.
pub open spec fn is_default_job(j: JobParams, conf: SystemConfiguration) -> bool {
    &&& j.num_cores == 1
    &&& j.num_cores_per_node == cores_per_node(1, conf)
    &&& j.num_nodes == div_trunc(1, j.num_cores_per_node as int)
    &&& j.partition@ == partition_for(partitions_view(conf.partitions@), j.num_nodes as int)
    &&& j.wall_time@ == "23:00:00"@
    &&& j.job_name@ == "subsweep"@
    &&& j.log_file@ == "stdout.log"@
    &&& j.run_params@ == "-v"@
    &&& j.param_file@ == "params.yml"@
    &&& j.run_program@ == "mpirun"@
    &&& j.executable_name@ == "subsweep"@
}

/// The default job parameters of a system, as a YAML mapping.
pub open spec fn default_job_yaml(conf: SystemConfiguration) -> YamlView {
    let per = cores_per_node(1, conf);
    let nodes = div_trunc(1, per);
    YamlView::Mapping(
        seq![
            (YamlView::Str("num_nodes"@), YamlView::Int(nodes as i64)),
            (YamlView::Str("num_cores"@), YamlView::Int(1)),
            (YamlView::Str("num_cores_per_node"@), YamlView::Int(per as i64)),
            (YamlView::Str("partition"@), YamlView::Str(partition_for(partitions_view(conf.partitions@), nodes))),
            (YamlView::Str("wall_time"@), YamlView::Str("23:00:00"@)),
            (YamlView::Str("job_name"@), YamlView::Str("subsweep"@)),
            (YamlView::Str("log_file"@), YamlView::Str("stdout.log"@)),
            (YamlView::Str("run_params"@), YamlView::Str("-v"@)),
            (YamlView::Str("executable_name"@), YamlView::Str("subsweep"@)),
            (YamlView::Str("param_file"@), YamlView::Str("params.yml"@)),
            (YamlView::Str("run_program"@), YamlView::Str("mpirun"@)),
        ],
    )
}

impl JobParams {
    /// The default job parameters on the given system.
    pub fn new_default(system_conf: &SystemConfiguration) -> (r: JobParams)
        requires
            distributable(1, *system_conf),
        ensures
            is_default_job(r, *system_conf),
    {
        let num_cores: i64 = 1;
        let (num_nodes, num_cores_per_node, partition) = crate::job_params::get_core_distribution(
            num_cores,
            system_conf,
        );
        JobParams {
            num_cores,
            num_nodes,
            num_cores_per_node,
            partition,
            wall_time: String::from_str("23:00:00"),
            job_name: String::from_str("subsweep"),
            log_file: String::from_str("stdout.log"),
            run_params: String::from_str("-v"),
            param_file: String::from_str("params.yml"),
            run_program: String::from_str("mpirun"),
            executable_name: String::from_str("subsweep"),
        }
    }

    /// The job parameters as a YAML mapping.
    pub fn to_yaml(&self) -> (r: YamlValue)
        ensures
            r@ == job_params_yaml(*self),
    {
        let mut m: Vec<(YamlValue, YamlValue)> = Vec::new();
        m.push((YamlValue::Str(String::from_str("num_nodes")), YamlValue::Int(self.num_nodes)));
        m.push((YamlValue::Str(String::from_str("num_cores")), YamlValue::Int(self.num_cores)));
        m.push(
            (
                YamlValue::Str(String::from_str("num_cores_per_node")),
                YamlValue::Int(self.num_cores_per_node),
            ),
        );
        m.push((YamlValue::Str(String::from_str("partition")), YamlValue::Str(self.partition.clone())));
        m.push((YamlValue::Str(String::from_str("wall_time")), YamlValue::Str(self.wall_time.clone())));
        m.push((YamlValue::Str(String::from_str("job_name")), YamlValue::Str(self.job_name.clone())));
        m.push((YamlValue::Str(String::from_str("log_file")), YamlValue::Str(self.log_file.clone())));
        m.push((YamlValue::Str(String::from_str("run_params")), YamlValue::Str(self.run_params.clone())));
        m.push(
            (
                YamlValue::Str(String::from_str("executable_name")),
                YamlValue::Str(self.executable_name.clone()),
            ),
        );
        m.push((YamlValue::Str(String::from_str("param_file")), YamlValue::Str(self.param_file.clone())));
        m.push((YamlValue::Str(String::from_str("run_program")), YamlValue::Str(self.run_program.clone())));
        proof {
            crate::yaml::lemma_mapping_view(m);
            assert(entries_view(m@) =~= job_params_yaml(*self)->Mapping_0);
        }
        YamlValue::Mapping(m)
    }
}

impl SimParams {
    /// All parameters, as one YAML mapping.
    pub open spec fn params_view(&self) -> YamlView {
        YamlView::Mapping(entries_view(self.params@))
    }

    /// A simulation in `folder` with the parameters `params`, to which the
    /// default job parameters of the system are added under `job`.
    pub fn new(folder: &str, params: Vec<(YamlValue, YamlValue)>, kind: SimParamsKind, system_conf: &SystemConfiguration) -> (r: SimParams)
        requires
            distributable(1, *system_conf),
        ensures
            r.folder@ == folder@,
            r.kind == kind,
            r.params_view() == YamlView::Mapping(
                map_insert(entries_view(params@), "job"@, default_job_yaml(*system_conf)),
            ),
    {
        let job_params = JobParams::new_default(system_conf);
        let mut params = params;
        let ghost before = entries_view(params@);
        mapping_insert(&mut params, &String::from_str("job"), job_params.to_yaml());
        let r = SimParams { folder: String::from_str(folder), params, kind };
        assert(job_params_yaml(job_params) =~= default_job_yaml(*system_conf));
        r
    }

    /// A copy of the simulation.
    pub fn duplicate(&self) -> (r: SimParams)
        ensures
            r.folder@ == self.folder@,
            r.kind == self.kind,
            r.params_view() == self.params_view(),
    {
        let mut params: Vec<(YamlValue, YamlValue)> = Vec::new();
        let mut i: usize = 0;
        while i < self.params.len()
            invariant
                i <= self.params@.len(),
                params@.len() == i,
                forall|k: int|
                    0 <= k < i ==> (#[trigger] params@[k]).0@ == self.params@[k].0@ && params@[k].1@
                        == self.params@[k].1@,
            decreases self.params@.len() - i,
        {
            params.push((self.params[i].0.duplicate(), self.params[i].1.duplicate()));
            i += 1;
        }
        assert(entries_view(params@) =~= entries_view(self.params@));
        SimParams { folder: self.folder.clone(), params, kind: self.kind }
    }

    /// The value at the slash-separated path `key`.
    pub fn get(&self, key: &str) -> (r: Option<&YamlValue>)
        ensures
            r matches Some(v) ==> path_get(self.params_view(), split_path(key@)) == Some(v@),
            r is None ==> path_get(self.params_view(), split_path(key@)) is None,
    {
        let path = split_path_exec(key);
        let ghost p = path.deep_view();
        let ghost m = entries_view(self.params@);
        assert(p[0] == path@[0]@);
        match find_key(&self.params, &path[0]) {
            None => None,
            Some(i) => {
                assert(p.skip(1) =~= p.drop_first());
                assert(m[i as int].1 == self.params@[i as int].1@);
                get_path(&self.params[i].1, &path, 1)
            },
        }
    }

    /// Replaces the value at the slash-separated path `key`, which must be present.
    pub fn insert(&mut self, key: &str, value: &YamlValue)
        requires
            path_get(old(self).params_view(), split_path(key@)) is Some,
        ensures
            final(self).params_view() == path_set(old(self).params_view(), split_path(key@), value@),
            final(self).folder == old(self).folder,
            final(self).kind == old(self).kind,
    {
        let path = split_path_exec(key);
        let ghost p = path.deep_view();
        let ghost m = entries_view(self.params@);
        assert(p[0] == path@[0]@);
        match find_key(&self.params, &path[0]) {
            None => {},
            Some(i) => {
                assert(p.skip(1) =~= p.drop_first());
                let new_v = with_path_set(&self.params[i].1, &path, 1, value);
                let k = self.params[i].0.duplicate();
                self.params.set(i, (k, new_v));
                assert(entries_view(self.params@) =~= m.update(
                    i as int,
                    (m[i as int].0, path_set(m[i as int].1, p.drop_first(), value@)),
                ));
            },
        }
    }

    /// Sets the top-level parameter `key` (added where it is missing).
    pub fn insert_top_level(&mut self, key: &str, value: YamlValue)
        ensures
            final(self).params_view() == YamlView::Mapping(
                map_insert(old(self).params_view()->Mapping_0, key@, value@),
            ),
            final(self).folder == old(self).folder,
            final(self).kind == old(self).kind,
    {
        mapping_insert(&mut self.params, &String::from_str(key), value);
    }

    /// The string at `key`, or `default` where there is none.
    pub fn get_default_string(&self, key: &str, default: &str) -> (r: String)
        requires
            path_get(self.params_view(), split_path(key@)) matches Some(v) ==> v is Str,
        ensures
            r@ == match path_get(self.params_view(), split_path(key@)) {
                Some(YamlView::Str(s)) => s,
                _ => default@,
            },
    {
        match self.get(key) {
            Some(YamlValue::Str(s)) => s.clone(),
            _ => String::from_str(default),
        }
    }

    /// The integer at `key`, or `default` where there is none.
    pub fn get_default_i64(&self, key: &str, default: &i64) -> (r: i64)
        requires
            path_get(self.params_view(), split_path(key@)) matches Some(v) ==> v is Int,
        ensures
            r == match path_get(self.params_view(), split_path(key@)) {
                Some(YamlView::Int(i)) => i,
                _ => *default,
            },
    {
        match self.get(key) {
            Some(YamlValue::Int(i)) => *i,
            _ => *default,
        }
    }

    /// The boolean at `key`, or `default` where there is none.
    pub fn get_default_bool(&self, key: &str, default: bool) -> (r: bool)
        requires
            path_get(self.params_view(), split_path(key@)) matches Some(v) ==> v is Bool,
        ensures
            r == match path_get(self.params_view(), split_path(key@)) {
                Some(YamlView::Bool(b)) => b,
                _ => default,
            },
    {
        match self.get(key) {
            Some(YamlValue::Bool(b)) => *b,
            _ => default,
        }
    }

    /// The number of cores that the simulation is set up for.
    pub fn get_num_cores(&self) -> (r: i64)
        requires
            self.kind == SimParamsKind::Input,
            path_get(self.params_view(), split_path("numCores"@)) matches Some(v) && v is Int,
        ensures
            path_get(self.params_view(), split_path("numCores"@)) == Some(YamlView::Int(r)),
    {
        match self.get("numCores") {
            Some(YamlValue::Int(i)) => *i,
            _ => 0,
        }
    }

    /// The initial conditions files, listed under `input/paths`.
    pub fn get_ics_files(&self) -> (r: Vec<String>)
        requires
            path_get(self.params_view(), split_path("input/paths"@)) matches Some(v) && v is Sequence
                && forall|i: int| 0 <= i < v->Sequence_0.len() ==> (#[trigger] v->Sequence_0[i]) is Str,
        ensures
            path_get(self.params_view(), split_path("input/paths"@)) matches Some(v) && r@.len()
                == v->Sequence_0.len() && forall|i: int|
                0 <= i < r@.len() ==> YamlView::Str((#[trigger] r@[i])@) == v->Sequence_0[i],
    {
        let mut r: Vec<String> = Vec::new();
        match self.get("input/paths") {
            Some(YamlValue::Sequence(items)) => {
                let ghost vs = YamlValue::Sequence(*items)@->Sequence_0;
                let mut i: usize = 0;
                while i < items.len()
                    invariant
                        i <= items@.len(),
                        r@.len() == i,
                        vs.len() == items@.len(),
                        forall|k: int| 0 <= k < items@.len() ==> vs[k] == (#[trigger] items@[k])@,
                        forall|k: int| 0 <= k < vs.len() ==> (#[trigger] vs[k]) is Str,
                        forall|k: int| 0 <= k < i ==> YamlView::Str((#[trigger] r@[k])@) == vs[k],
                    decreases items@.len() - i,
                {
                    match &items[i] {
                        YamlValue::Str(s) => {
                            r.push(s.clone());
                        },
                        _ => {
                            assert(vs[i as int] is Str);
                            r.push(String::new());
                        },
                    }
                    i += 1;
                }
            },
            _ => {},
        }
        r
    }

    /// The simulation's name: the last component of its folder.
    pub fn get_name(&self) -> (r: String)
        requires
            final_component(self.folder@) is Some,
        ensures
            final_component(self.folder@) == Some(r@),
    {
        match path_file_name(self.folder.as_str()) {
            Some(n) => n,
            None => String::new(),
        }
    }

    /// The simulation's name, where its folder has a last component.
    pub fn try_get_name(&self) -> (r: Option<String>)
        ensures
            match final_component(self.folder@) {
                Some(n) => r matches Some(x) && x@ == n,
                None => r is None,
            },
    {
        match path_file_name(self.folder.as_str()) {
            Some(_) => Some(self.get_name()),
            None => None,
        }
    }

    /// The folder that the simulation writes to: `output/folder`
    /// (by default `output`) inside the simulation's folder.
    pub fn output_folder(&self) -> (r: String)
        requires
            path_get(self.params_view(), split_path("output/folder"@)) matches Some(v) ==> v is Str,
        ensures
            r@ == joined_path(
                self.folder@,
                match path_get(self.params_view(), split_path("output/folder"@)) {
                    Some(YamlView::Str(s)) => s,
                    _ => "output"@,
                },
            ),
    {
        let sub = self.get_default_string("output/folder", "output");
        path_join(self.folder.as_str(), sub.as_str())
    }

    /// The parameters that go to the parameter file: all but the job
    /// parameters (whose entry the last entry takes the place of).
    pub fn param_file_entries(&self) -> (r: Vec<(YamlValue, YamlValue)>)
        ensures
            entries_view(r@) == match key_position(entries_view(self.params@), "job"@) {
                None => entries_view(self.params@),
                Some(i) => entries_view(self.params@).update(i, entries_view(self.params@).last()).drop_last(),
            },
    {
        let copy = self.duplicate();
        let mut entries = copy.params;
        let ghost m = entries_view(entries@);
        match find_key(&entries, &String::from_str("job")) {
            None => entries,
            Some(i) => {
                let last = entries.pop().unwrap();
                if i < entries.len() {
                    entries.set(i, last);
                }
                assert(entries_view(entries@) =~= m.update(i as int, m.last()).drop_last());
                entries
            },
        }
    }
}

/// A value that the job file template can be filled with.
pub open spec fn is_scalar(v: YamlView) -> bool {
    v is Bool || v is Int || v is UInt || v is Float || v is Str
}

/// The text of a scalar value in the job file.
pub open spec fn scalar_text(v: YamlView) -> Seq<char> {
    match v {
        YamlView::Bool(b) => if b {
            "true"@
        } else {
            "false"@
        },
        YamlView::Int(i) => signed_decimal(i as int),
        YamlView::UInt(u) => decimal(u as nat),
        YamlView::Float(_, s) => s,
        YamlView::Str(s) => s,
        _ => Seq::empty(),
    }
}

/// The replacements made of the first `n` job parameters, as their texts,
/// one after another as a map takes them (a later name replaces an earlier).
pub open spec fn job_replacements(m: Seq<(YamlView, YamlView)>, n: nat) -> Seq<(Seq<char>, Seq<char>)>
    decreases n,
{
    if n == 0 {
        Seq::empty()
    } else {
        name_insert(job_replacements(m, (n - 1) as nat), scalar_text(m[n - 1].0), scalar_text(m[n - 1].1))
    }
}

/// The job parameters of a simulation: the mapping under `job`.
pub open spec fn job_mapping(params: YamlView) -> Option<Seq<(YamlView, YamlView)>> {
    match params {
        YamlView::Mapping(top) => match key_position(top, "job"@) {
            Some(i) => match top[i].1 {
                YamlView::Mapping(m) => Some(m),
                _ => None,
            },
            None => None,
        },
        _ => None,
    }
}

/// The text of a scalar value.
pub fn scalar_to_string(v: &YamlValue) -> (r: String)
    requires
        is_scalar(v@),
    ensures
        r@ == scalar_text(v@),
{
    match v {
        YamlValue::Bool(b) => if *b {
            String::from_str("true")
        } else {
            String::from_str("false")
        },
        YamlValue::Int(i) => i64_to_string(*i),
        YamlValue::UInt(u) => string_of(&u64_to_decimal(*u)),
        YamlValue::Float(_, s) => s.clone(),
        YamlValue::Str(s) => s.clone(),
        _ => String::new(),
    }
}

impl SimParams {
    /// The names and values that fill the job file template.
    pub fn get_job_file_replacements(&self) -> (r: Vec<(String, String)>)
        requires
            job_mapping(self.params_view()) matches Some(m) && forall|k: int|
                0 <= k < m.len() ==> is_scalar(#[trigger] m[k].0) && is_scalar(m[k].1),
        ensures
            job_mapping(self.params_view()) matches Some(m) && pairs_view(r@) == job_replacements(
                m,
                m.len(),
            ),
    {
        let mut r: Vec<(String, String)> = Vec::new();
        let ghost top = entries_view(self.params@);
        match find_key(&self.params, &String::from_str("job")) {
            None => r,
            Some(i) => match &self.params[i].1 {
                YamlValue::Mapping(entries) => {
                    let ghost m = entries_view(entries@);
                    proof {
                        crate::yaml::lemma_mapping_view(*entries);
                        assert(top[i as int].1 == self.params@[i as int].1@);
                        assert(self.params@[i as int].1 == YamlValue::Mapping(*entries));
                        assert(job_mapping(self.params_view()) == Some(m));
                        let jm = job_mapping(self.params_view())->Some_0;
                        assert(jm == m);
                        assert forall|x: int| 0 <= x < m.len() implies is_scalar(#[trigger] m[x].0) && is_scalar(m[x].1) by {
                            assert(is_scalar(jm[x].0));
                        }
                    }
                    assert(pairs_view(r@) =~= job_replacements(m, 0));
                    assert(forall|x: int| 0 <= x < entries@.len() ==> is_scalar(#[trigger] entries@[x].0@) && is_scalar(entries@[x].1@)) by {
                        assert forall|x: int| 0 <= x < entries@.len() implies is_scalar(#[trigger] entries@[x].0@) && is_scalar(entries@[x].1@) by {
                            assert(m[x].0 == entries@[x].0@);
                        }
                    }
                    let mut k: usize = 0;
                    while k < entries.len()
                        invariant
                            k <= entries@.len(),
                            m == entries_view(entries@),
                            forall|x: int|
                                0 <= x < entries@.len() ==> is_scalar(#[trigger] entries@[x].0@) && is_scalar(entries@[x].1@),
                            pairs_view(r@) == job_replacements(m, k as nat),
                        decreases entries@.len() - k,
                    {
                        let key = scalar_to_string(&entries[k].0);
                        let value = scalar_to_string(&entries[k].1);
                        insert_pair(&mut r, key, value);
                        k += 1;
                    }
                    r
                },
                _ => r,
            },
        }
    }

    /// The job file: the template filled with the job parameters.
    pub fn get_job_file_contents_from_job_params(&self, template: &str) -> (r: Result<String, TemplateError>)
        requires
            job_mapping(self.params_view()) matches Some(m) && forall|k: int|
                0 <= k < m.len() ==> is_scalar(#[trigger] m[k].0) && is_scalar(m[k].1),
        ensures
            job_mapping(self.params_view()) matches Some(m) && match fill(template@, job_replacements(m, m.len())) {
                Ok(s) => r matches Ok(x) && x@ == s,
                Err(e) => r matches Err(x) && x@ == e,
            },
    {
        let replacements = self.get_job_file_replacements();
        fill_template(template, &replacements)
    }
}

/// The initial conditions files are listed under `input/paths`, as texts.
pub open spec fn ics_readable(params: YamlView) -> bool {
    path_get(params, split_path("input/paths"@)) matches Some(v) && v is Sequence && forall|i: int|
        0 <= i < v->Sequence_0.len() ==> (#[trigger] v->Sequence_0[i]) is Str
}

/// The initial conditions files (their texts).
pub open spec fn ics_files(params: YamlView) -> Seq<Seq<char>> {
    let v = path_get(params, split_path("input/paths"@))->Some_0->Sequence_0;
    Seq::new(v.len(), |i: int| v[i]->Str_0)
}

/// The copies that set up the initial conditions in `target`: each file
/// given by a relative path, from the simulation's folder to `target`.
pub open spec fn ics_copies_view(folder: Seq<char>, files: Seq<Seq<char>>, target: Seq<char>) -> Seq<(Seq<char>, Seq<char>)> {
    files.filter(|f: Seq<char>| !is_absolute(f)).map_values(
        |f: Seq<char>| (joined_path(folder, f), joined_path(target, f)),
    )
}

impl SimParams {
    /// The simulation moved to `folder`.
    pub fn with_folder(&self, folder: &str) -> (r: SimParams)
        ensures
            r.folder@ == folder@,
            r.kind == self.kind,
            r.params_view() == self.params_view(),
    {
        let mut r = self.duplicate();
        r.folder = String::from_str(folder);
        r
    }

    /// The copies (source and target) of the initial conditions files into
    /// `target_folder`; files given by an absolute path stay where they are.
    pub fn ics_copies(&self, target_folder: &str) -> (r: Vec<(String, String)>)
        requires
            ics_readable(self.params_view()),
        ensures
            Seq::new(r@.len(), |i: int| (r@[i].0@, r@[i].1@)) == ics_copies_view(
                self.folder@,
                ics_files(self.params_view()),
                target_folder@,
            ),
    {
        let files = self.get_ics_files();
        let ghost fv = files.deep_view();
        let ghost v = path_get(self.params_view(), split_path("input/paths"@))->Some_0->Sequence_0;
        assert(fv =~= ics_files(self.params_view())) by {
            assert forall|i: int| 0 <= i < fv.len() implies fv[i] == ics_files(self.params_view())[i] by {
                assert(YamlView::Str(files@[i]@) == v[i]);
            }
        }
        let ghost keep = |f: Seq<char>| !is_absolute(f);
        let ghost pair = |f: Seq<char>| (joined_path(self.folder@, f), joined_path(target_folder@, f));
        let mut out: Vec<(String, String)> = Vec::new();
        let mut i: usize = 0;
        assert(fv.take(0).filter(keep) =~= Seq::<Seq<char>>::empty()) by {
            reveal(Seq::filter);
        }
        while i < files.len()
            invariant
                i <= files@.len(),
                fv == files.deep_view(),
                keep == (|f: Seq<char>| !is_absolute(f)),
                pair == (|f: Seq<char>| (joined_path(self.folder@, f), joined_path(target_folder@, f))),
                Seq::new(out@.len(), |k: int| (out@[k].0@, out@[k].1@)) == fv.take(i as int).filter(keep).map_values(pair),
            decreases files@.len() - i,
        {
            assert(fv.take(i + 1).drop_last() =~= fv.take(i as int));
            assert(fv.take(i + 1).last() == files@[i as int]@);
            let ghost before = Seq::new(out@.len(), |k: int| (out@[k].0@, out@[k].1@));
            if !path_is_absolute(files[i].as_str()) {
                let source = path_join(self.folder.as_str(), files[i].as_str());
                let target = path_join(target_folder, files[i].as_str());
                out.push((source, target));
                assert(fv.take(i + 1).filter(keep) == fv.take(i as int).filter(keep).push(files@[i as int]@)) by {
                    reveal(Seq::filter);
                }
                assert(Seq::new(out@.len(), |k: int| (out@[k].0@, out@[k].1@)) =~= before.push(pair(files@[i as int]@)));
                assert(fv.take(i + 1).filter(keep).map_values(pair) =~= fv.take(i as int).filter(keep).map_values(pair).push(pair(files@[i as int]@)));
            } else {
                assert(fv.take(i + 1).filter(keep) == fv.take(i as int).filter(keep)) by {
                    reveal(Seq::filter);
                }
            }
            i += 1;
        }
        assert(fv.take(i as int) =~= fv);
        out
    }
}

/// The folder that simulation `i` is copied to in `output_folder`.
pub fn sim_output_folder(output_folder: &str, i: usize) -> (r: String)
    ensures
        r@ == joined_path(output_folder@, decimal(i as nat)),
{
    let name = crate::text::usize_to_string(i);
    path_join(output_folder, name.as_str())
}

/// The parameter file of the simulation in `folder`.
pub fn get_param_file_path(folder: &str) -> (r: String)
    ensures
        r@ == joined_path(folder@, param_file_name()),
{
    path_join(folder, "params.yml")
}

} // verus!
