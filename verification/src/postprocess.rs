//! Postprocessing: the plot parameters that a postprocessing function hands
//! to gnuplot, its results, the names of its plots, and the names of the
//! functions and of their options.
use vstd::prelude::*;
use crate::text::{cat3, join, join_strings, str_eq, usize_to_string, decimal};
use crate::paths::{extension_of, path_extension};

verus! {

/// Names with string values (what a `HashMap<String, String>` holds).
pub open spec fn pairs_view(p: Seq<(String, String)>) -> Seq<(Seq<char>, Seq<char>)> {
    Seq::new(p.len(), |i: int| (p[i].0@, p[i].1@))
}

/// Position of the entry named `key`.
pub open spec fn name_position(m: Seq<(Seq<char>, Seq<char>)>, key: Seq<char>) -> Option<int>
    decreases m.len(),
{
    if m.len() == 0 {
        None
    } else if m[0].0 == key {
        Some(0)
    } else {
        match name_position(m.drop_first(), key) {
            Some(i) => Some(i + 1),
            None => None,
        }
    }
}

/// The position of a name is that of its first entry.
pub proof fn lemma_name_position(m: Seq<(Seq<char>, Seq<char>)>, key: Seq<char>)
    ensures
        name_position(m, key) matches Some(i) ==> 0 <= i < m.len() && m[i].0 == key && forall|j: int|
            0 <= j < i ==> m[j].0 != key,
        name_position(m, key) is None ==> forall|j: int| 0 <= j < m.len() ==> m[j].0 != key,
    decreases m.len(),
{
    if m.len() > 0 {
        lemma_name_position(m.drop_first(), key);
        assert forall|j: int| 1 <= j < m.len() implies m[j] == m.drop_first()[j - 1] by {}
    }
}

/// `HashMap::insert`: the value of `key` replaced, or a new entry added.
pub open spec fn name_insert(m: Seq<(Seq<char>, Seq<char>)>, key: Seq<char>, value: Seq<char>) -> Seq<(Seq<char>, Seq<char>)> {
    match name_position(m, key) {
        Some(i) => m.update(i, (key, value)),
        None => m.push((key, value)),
    }
}

/// Reading back a set parameter: after `key` is set to `value`, its value is
/// `value`, and every other name keeps its value.
pub proof fn lemma_name_insert_lookup(m: Seq<(Seq<char>, Seq<char>)>, key: Seq<char>, value: Seq<char>, other: Seq<char>)
    ensures
        name_lookup(name_insert(m, key, value), key) == Some(value),
        other != key ==> name_lookup(name_insert(m, key, value), other) == name_lookup(m, other),
{
    let m2 = name_insert(m, key, value);
    lemma_name_position(m, key);
    lemma_name_position(m2, key);
    lemma_name_position(m, other);
    lemma_name_position(m2, other);
    match name_position(m, key) {
        Some(i) => {
            match name_position(m2, key) {
                Some(p) => {
                    if p < i {
                        assert(m2[p] == m[p]);
                    }
                    if p > i {
                        assert(m2[i].0 == key);
                    }
                },
                None => {
                    assert(m2[i].0 == key);
                },
            }
            if other != key {
                match (name_position(m, other), name_position(m2, other)) {
                    (Some(a), Some(b)) => {
                        if a < b {
                            assert(m2[a] == m[a] || a == i);
                        }
                        if b < a {
                            assert(m2[b] == m[b] || b == i);
                        }
                    },
                    (Some(a), None) => {
                        assert(m2[a] == m[a] || a == i);
                    },
                    (None, Some(b)) => {
                        assert(m2[b] == m[b] || b == i);
                    },
                    (None, None) => {},
                }
            }
        },
        None => {
            match name_position(m2, key) {
                Some(p) => {
                    if p < m.len() {
                        assert(m2[p] == m[p]);
                    }
                },
                None => {
                    assert(m2[m.len() as int].0 == key);
                },
            }
            if other != key {
                match (name_position(m, other), name_position(m2, other)) {
                    (Some(a), Some(b)) => {
                        if a < b {
                            assert(m2[a] == m[a]);
                        }
                        if b < a {
                            assert(m2[b] == m[b]);
                        }
                    },
                    (Some(a), None) => {
                        assert(m2[a] == m[a]);
                    },
                    (None, Some(b)) => {
                        if b < m.len() {
                            assert(m2[b] == m[b]);
                        }
                    },
                    (None, None) => {},
                }
            }
        },
    }
}

/// No name occurs twice (as in a map).
pub open spec fn distinct_names(m: Seq<(Seq<char>, Seq<char>)>) -> bool {
    forall|i: int, j: int| 0 <= i < j < m.len() ==> (#[trigger] m[i]).0 != (#[trigger] m[j]).0
}

/// Setting a name keeps the names distinct.
pub proof fn lemma_name_insert_distinct(m: Seq<(Seq<char>, Seq<char>)>, key: Seq<char>, value: Seq<char>)
    requires
        distinct_names(m),
    ensures
        distinct_names(name_insert(m, key, value)),
{
    lemma_name_position(m, key);
    let m2 = name_insert(m, key, value);
    assert forall|i: int, j: int| 0 <= i < j < m2.len() implies (#[trigger] m2[i]).0 != (#[trigger] m2[j]).0 by {
        match name_position(m, key) {
            Some(p) => {
                if i != p && j != p {
                    assert(m2[i] == m[i] && m2[j] == m[j]);
                } else if i == p {
                    assert(m2[j] == m[j]);
                    assert(m[p].0 == key);
                } else {
                    assert(m2[i] == m[i]);
                    assert(m[p].0 == key);
                }
            },
            None => {
                if j < m.len() {
                    assert(m2[i] == m[i] && m2[j] == m[j]);
                } else {
                    assert(m2[i] == m[i]);
                }
            },
        }
    }
}

/// The value of `key`.
pub open spec fn name_lookup(m: Seq<(Seq<char>, Seq<char>)>, key: Seq<char>) -> Option<Seq<char>> {
    match name_position(m, key) {
        Some(i) => Some(m[i].1),
        None => None,
    }
}

/// Inserts into entries with distinct names.
pub fn insert_pair(m: &mut Vec<(String, String)>, key: String, value: String)
    ensures
        pairs_view(final(m)@) == name_insert(pairs_view(old(m)@), key@, value@),
{
    let ghost pv = pairs_view(m@);
    proof {
        lemma_name_position(pv, key@);
    }
    let mut i: usize = 0;
    while i < m.len()
        invariant
            i <= m@.len(),
            pv == pairs_view(m@),
            pv == pairs_view(old(m)@),
            forall|j: int| 0 <= j < i ==> pv[j].0 != key@,
        decreases m@.len() - i,
    {
        if m[i].0 == key {
            assert(pv[i as int].0 == key@);
            proof {
                lemma_name_position(pv, key@);
                match name_position(pv, key@) {
                    Some(p) => {
                        if p < i {
                            assert(pv[p].0 != key@);
                        }
                        if p > i {
                            assert(pv[i as int].0 != key@);
                        }
                    },
                    None => {
                        assert(pv[i as int].0 != key@);
                    },
                }
            }
            m.set(i, (key, value));
            assert(pairs_view(m@) =~= pv.update(i as int, (key@, value@)));
            return;
        }
        i += 1;
    }
    proof {
        lemma_name_position(pv, key@);
        if let Some(p) = name_position(pv, key@) {
            assert(pv[p].0 == key@);
        }
    }
    m.push((key, value));
    assert(pairs_view(m@) =~= pv.push((key@, value@)));
}

/// Parameters handed to a plot template (name and value as text).
pub struct PlotParams(pub Vec<(String, String)>);

impl View for PlotParams {
    type V = Seq<(Seq<char>, Seq<char>)>;

    open spec fn view(&self) -> Seq<(Seq<char>, Seq<char>)> {
        pairs_view(self.0@)
    }
}

impl Default for PlotParams {
    fn default() -> (r: Self)
        ensures
            r@ == Seq::<(Seq<char>, Seq<char>)>::empty(),
    {
        let r = PlotParams(Vec::new());
        assert(r@ =~= Seq::<(Seq<char>, Seq<char>)>::empty());
        r
    }
}

impl PlotParams {
    /// Sets parameter `key` to `value` (the text that `Display` gives of the value).
    pub fn add(&mut self, key: &str, value: &str)
        ensures
            final(self)@ == name_insert(old(self)@, key@, value@),
            distinct_names(old(self)@) ==> distinct_names(final(self)@),
    {
        proof {
            if distinct_names(self@) {
                lemma_name_insert_distinct(self@, key@, value@);
            }
        }
        insert_pair(&mut self.0, String::from_str(key), String::from_str(value));
    }
}

/// What a postprocessing function gives: plot parameters and data sets.
pub struct PostResult<D> {
    pub params: PlotParams,
    pub data: Vec<D>,
}

/// Name `k` of the result with index `i`, once results are joined.
pub open spec fn indexed_name(k: Seq<char>, i: nat) -> Seq<char> {
    k + "_"@ + decimal(i)
}

/// The parameters of `results[..n]` after joining, each renamed by its result's index.
pub open spec fn joined_params(results: Seq<Seq<(Seq<char>, Seq<char>)>>, n: nat) -> Seq<(Seq<char>, Seq<char>)>
    decreases n,
{
    if n == 0 {
        Seq::empty()
    } else {
        joined_entries(joined_params(results, (n - 1) as nat), results[n - 1], (n - 1) as nat, results[n - 1].len())
    }
}

/// `acc` with the first `m` entries of `params` inserted, renamed with index `i`.
pub open spec fn joined_entries(acc: Seq<(Seq<char>, Seq<char>)>, params: Seq<(Seq<char>, Seq<char>)>, i: nat, m: nat) -> Seq<(Seq<char>, Seq<char>)>
    decreases m,
{
    if m == 0 {
        acc
    } else {
        name_insert(joined_entries(acc, params, i, (m - 1) as nat), indexed_name(params[m - 1].0, i), params[m - 1].1)
    }
}

/// The data sets of `results[..n]`, one after the other.
pub open spec fn joined_data<D>(results: Seq<Seq<D>>, n: nat) -> Seq<D>
    decreases n,
{
    if n == 0 {
        Seq::empty()
    } else {
        joined_data(results, (n - 1) as nat) + results[n - 1]
    }
}

impl<D> PostResult<D> {
    /// A result of the parameters `params` and the data sets `data`.
    pub fn new(params: PlotParams, data: Vec<D>) -> (r: Self)
        ensures
            r.params@ == params@,
            r.data@ == data@,
    {
        Self { params, data }
    }

    /// One result from several: all data sets, one after the other, and the
    /// parameters of result `i` renamed `{name}_{i}`.
    pub fn join(results: Vec<PostResult<D>>) -> (r: PostResult<D>)
        ensures
            r.data@ == joined_data(Seq::new(results@.len(), |i: int| results@[i].data@), results@.len()),
            r.params@ == joined_params(Seq::new(results@.len(), |i: int| results@[i].params@), results@.len()),
    {
        let ghost data_seqs = Seq::new(results@.len(), |i: int| results@[i].data@);
        let ghost param_seqs = Seq::new(results@.len(), |i: int| results@[i].params@);
        let mut params: Vec<(String, String)> = Vec::new();
        let mut data: Vec<D> = Vec::new();
        let mut rest = results;
        let total = rest.len();
        let ghost all = rest@;
        let mut i: usize = 0;
        assert(pairs_view(params@) =~= Seq::<(Seq<char>, Seq<char>)>::empty());
        while rest.len() > 0
            invariant
                i + rest@.len() == all.len(),
                all.len() == total,
                rest@ == all.skip(i as int),
                data_seqs == Seq::new(all.len(), |k: int| all[k].data@),
                param_seqs == Seq::new(all.len(), |k: int| all[k].params@),
                data@ == joined_data(data_seqs, i as nat),
                pairs_view(params@) == joined_params(param_seqs, i as nat),
            decreases rest.len(),
        {
            let result = rest.remove(0);
            assert(result == all[i as int]);
            assert(rest@ =~= all.skip(i + 1));
            let mut d = result.data;
            data.append(&mut d);
            let p = result.params.0;
            let ghost pv = pairs_view(p@);
            let ghost before = pairs_view(params@);
            let mut j: usize = 0;
            while j < p.len()
                invariant
                    j <= p@.len(),
                    pv == pairs_view(p@),
                    pairs_view(params@) == joined_entries(before, pv, i as nat, j as nat),
                decreases p@.len() - j,
            {
                let k = cat3(p[j].0.as_str(), "_", usize_to_string(i).as_str());
                proof {
                    reveal_strlit("_");
                }
                insert_pair(&mut params, k, p[j].1.clone());
                j += 1;
            }
            assert(param_seqs[i as int] == pv);
            i += 1;
        }
        PostResult { params: PlotParams(params), data }
    }
}

/// What a postprocessing function runs on.
pub enum PostFnKind {
    Snap,
    Sim,
    SimSet,
    NoPlotSet,
}

/// The names of a plot: of its function, of the function with its options,
/// of the template, and of the picture.
#[derive(Debug, Clone)]
pub struct PlotInfo {
    pub plot_name: String,
    pub name: String,
    pub qualified_name: String,
    pub plot_template_name: String,
}

/// The text of an optional string.
pub open spec fn opt_view(o: Option<&str>) -> Option<Seq<char>> {
    match o {
        Some(s) => Some(s@),
        None => None,
    }
}

/// The names of a plot of the function `name` (`qualified` with its options),
/// drawn with `template` (by default the template named like the function),
/// for the simulation named `sim` and its snapshot named `snap` where given:
/// each name is followed by an underscore and the template's name, and the
/// picture's name adds the simulation's and the snapshot's names.
pub open spec fn plot_info_matches(
    r: PlotInfo,
    name: Seq<char>,
    qualified: Seq<char>,
    template: Option<Seq<char>>,
    sim: Option<Seq<char>>,
    snap: Option<Seq<char>>,
) -> bool {
    &&& r.plot_template_name@ == match template {
        Some(t) => t,
        None => name,
    }
    &&& r.name@ == name + "_"@ + r.plot_template_name@
    &&& r.qualified_name@ == qualified + "_"@ + r.plot_template_name@
    &&& r.plot_name@ == match sim {
        None => r.qualified_name@,
        Some(sim) => match snap {
            None => r.qualified_name@ + "_"@ + sim,
            Some(snap) => r.qualified_name@ + "_"@ + sim + "_"@ + snap,
        },
    }
}

impl PlotInfo {
    /// The names of a plot of the function `name` (`qualified_name` with its
    /// options) drawn with template `plot_template_name`, for the simulation
    /// named `mb_sim_name` and its snapshot named `mb_snap_name` where given.
    pub fn new(
        name: &str,
        qualified_name: &str,
        plot_template_name: Option<&str>,
        mb_sim_name: Option<&str>,
        mb_snap_name: Option<&str>,
    ) -> (r: PlotInfo)
        ensures
            plot_info_matches(
                r,
                name@,
                qualified_name@,
                opt_view(plot_template_name),
                opt_view(mb_sim_name),
                opt_view(mb_snap_name),
            ),
    {
        let plot_template_name: String = match plot_template_name {
            Some(t) => String::from_str(t),
            None => String::from_str(name),
        };
        let name = cat3(name, "_", plot_template_name.as_str());
        let qualified_name = cat3(qualified_name, "_", plot_template_name.as_str());
        let plot_name = match mb_sim_name {
            Some(sim) => match mb_snap_name {
                None => cat3(qualified_name.as_str(), "_", sim),
                Some(snap) => {
                    let a = cat3(qualified_name.as_str(), "_", sim);
                    cat3(a.as_str(), "_", snap)
                },
            },
            None => qualified_name.clone(),
        };
        PlotInfo { plot_name, plot_template_name, name, qualified_name }
    }
}

/// What is written to a plot's info file: its names and its template parameters.
pub struct PlotInfoFileContents {
    pub info: PlotInfo,
    pub replacements: Vec<(String, String)>,
}

/// A plot's names, data sets and template parameters.
pub struct DataPlotInfo<D> {
    pub info: PlotInfo,
    pub data: Vec<D>,
    pub replacements: Vec<(String, String)>,
}

impl<D> DataPlotInfo<D> {
    /// The plot `info` of the result `result`.
    pub fn new(info: PlotInfo, result: PostResult<D>) -> (r: Self)
        ensures
            r.info == info,
            r.data@ == result.data@,
            pairs_view(r.replacements@) == result.params@,
    {
        Self { info, data: result.data, replacements: result.params.0 }
    }
}

/// `s` in double quotes.
pub fn in_quotes(s: &str) -> (r: String)
    ensures
        r@ == "\""@ + s@ + "\""@,
{
    cat3("\"", s, "\"")
}

/// The lines `name = value` of a gnuplot parameter file.
pub open spec fn param_file_lines(m: Seq<(Seq<char>, Seq<char>)>) -> Seq<Seq<char>> {
    Seq::new(m.len(), |i: int| m[i].0 + " = "@ + m[i].1)
}

/// The gnuplot parameter file: one line `name = value` per parameter.
pub fn get_plot_param_file_contents(replacements: &Vec<(String, String)>) -> (r: String)
    ensures
        r@ == join(param_file_lines(pairs_view(replacements@)), "\n"@),
{
    let mut lines: Vec<String> = Vec::new();
    let mut i: usize = 0;
    while i < replacements.len()
        invariant
            i <= replacements@.len(),
            lines@.len() == i,
            forall|k: int|
                0 <= k < i ==> (#[trigger] lines@[k])@ == param_file_lines(pairs_view(replacements@))[k],
        decreases replacements@.len() - i,
    {
        lines.push(cat3(replacements[i].0.as_str(), " = ", replacements[i].1.as_str()));
        i += 1;
    }
    assert(lines.deep_view() =~= param_file_lines(pairs_view(replacements@)));
    join_strings(&lines, "\n")
}

/// The main gnuplot file: a line `load "name"` for each file.
pub fn get_main_plot_file_contents(file_names: &Vec<String>) -> (r: String)
    ensures
        r@ == join(
            Seq::new(file_names@.len(), |i: int| "load \""@ + file_names@[i]@ + "\""@),
            "\n"@,
        ),
{
    let mut lines: Vec<String> = Vec::new();
    let mut i: usize = 0;
    while i < file_names.len()
        invariant
            i <= file_names@.len(),
            lines@.len() == i,
            forall|k: int| 0 <= k < i ==> (#[trigger] lines@[k])@ == "load \""@ + file_names@[k]@ + "\""@,
        decreases file_names@.len() - i,
    {
        lines.push(cat3("load \"", file_names[i].as_str(), "\""));
        i += 1;
    }
    assert(lines.deep_view() =~= Seq::new(
        file_names@.len(),
        |k: int| "load \""@ + file_names@[k]@ + "\""@,
    ));
    join_strings(&lines, "\n")
}

/// The template parameters that every plot gets: the number of data files,
/// the picture's name, and the data files.
pub fn get_default_replacements(num_files: usize, plot_name: &str, joined_file_names: &str) -> (r: Vec<(String, String)>)
    ensures
        pairs_view(r@) == seq![
            ("numFiles"@, decimal(num_files as nat)),
            ("picFile"@, "\""@ + plot_name@ + "\""@),
            ("files"@, "\""@ + joined_file_names@ + "\""@),
        ],
{
    let mut r: Vec<(String, String)> = Vec::new();
    r.push((String::from_str("numFiles"), usize_to_string(num_files)));
    r.push((String::from_str("picFile"), in_quotes(plot_name)));
    r.push((String::from_str("files"), in_quotes(joined_file_names)));
    assert(pairs_view(r@) =~= seq![
        ("numFiles"@, decimal(num_files as nat)),
        ("picFile"@, "\""@ + plot_name@ + "\""@),
        ("files"@, "\""@ + joined_file_names@ + "\""@),
    ]);
    r
}

/// The pictures that a plot may have made: its name with the extension
/// `pdf`, then with `png`.
pub fn pic_file_names(basename: &str) -> (r: Vec<String>)
    ensures
        r.deep_view() == seq![basename@ + ".pdf"@, basename@ + ".png"@],
{
    let mut r: Vec<String> = Vec::new();
    r.push(crate::text::cat(basename, ".pdf"));
    r.push(crate::text::cat(basename, ".png"));
    assert(r.deep_view() =~= seq![basename@ + ".pdf"@, basename@ + ".png"@]);
    r
}

/// The first file with the extension `tex`, where there is one.
pub fn find_latex_file(files: &Vec<String>) -> (r: Option<String>)
    ensures
        match r {
            Some(f) => exists|i: int|
                0 <= i < files@.len() && files@[i]@ == f@ && extension_of(#[trigger] files@[i]@) == Some("tex"@)
                    && forall|j: int| 0 <= j < i ==> extension_of(#[trigger] files@[j]@) != Some("tex"@),
            None => forall|j: int| 0 <= j < files@.len() ==> extension_of(#[trigger] files@[j]@) != Some("tex"@),
        },
{
    let mut i: usize = 0;
    while i < files.len()
        invariant
            i <= files@.len(),
            forall|j: int| 0 <= j < i ==> extension_of(#[trigger] files@[j]@) != Some("tex"@),
        decreases files@.len() - i,
    {
        let is_tex = match path_extension(files[i].as_str()) {
            Some(e) => str_eq(e.as_str(), "tex"),
            None => false,
        };
        if is_tex {
            return Some(files[i].clone());
        }
        i += 1;
    }
    None
}

} // verus!
