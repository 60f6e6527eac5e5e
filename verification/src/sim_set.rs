//! A set of numbered simulations: how it is made from a base simulation and
//! substitutions, and how it is split by the values of a parameter.
use vstd::prelude::*;
use crate::order::SortKey;
use crate::param_value::{param_le, param_of_yaml, ParamValue, ParamView};
use crate::sim_params::{SimParams, SimParamsKind};
use crate::param_value::yaml_of_param;
use crate::job_cascade::{
    cartesian_count, cartesian_map, cartesian_ok, cascade_entries, cascade_names_free, cascade_steps_made,
    get_substitutions_cascade, times_view, CascadeError, CascadeTimes,
};
use crate::substitutions::{
    cartesian, cartesian_convertible, cartesian_row, combination_ok, common_length,
    get_substitutions_cartesian, get_substitutions_normal, group_lengths, groups_view,
    is_special, is_special_param, lengths_differ, normal_convertible, normal_entry, normal_row,
    parameter_groups, product, some_group_differs, subst_view, ParamMap, SubstitutionError,
};
use crate::order::{sort_by_key, str_le, string_le, lemma_str_le_total_order};
use crate::paths::{final_component, path_file_name};
use crate::text::{parse_integer, parse_usize};
use crate::yaml::{map_insert, path_get, path_set, split_path, YamlValue, YamlView};

verus! {

/// The mathematical value of a simulation.
pub struct SimView {
    pub folder: Seq<char>,
    pub params: YamlView,
    pub kind: SimParamsKind,
}

impl View for SimParams {
    type V = SimView;

    open spec fn view(&self) -> SimView {
        SimView { folder: self.folder@, params: self.params_view(), kind: self.kind }
    }
}

/// Numbered simulations.
pub struct SimSet {
    pub simulations: Vec<(usize, SimParams)>,
}

/// The numbered simulations as values.
pub open spec fn sims_view(s: Seq<(usize, SimParams)>) -> Seq<(usize, SimView)> {
    Seq::new(s.len(), |i: int| (s[i].0, s[i].1@))
}

impl View for SimSet {
    type V = Seq<(usize, SimView)>;

    open spec fn view(&self) -> Seq<(usize, SimView)> {
        sims_view(self.simulations@)
    }
}

/// A YAML value that is a single parameter value.
pub open spec fn is_param(v: YamlView) -> bool {
    v is Bool || v is Int || v is Float || v is Str
}

/// The simulation has a single value at `param`.
pub open spec fn has_value(s: SimView, param: Seq<char>) -> bool {
    path_get(s.params, split_path(param)) matches Some(v) && is_param(v)
}

/// The value of the simulation at `param`.
pub open spec fn sim_value(s: SimView, param: Seq<char>) -> ParamView {
    param_of_yaml(path_get(s.params, split_path(param))->Some_0)->Ok_0
}

/// Strictly smaller in the order of parameter values.
pub open spec fn param_lt(a: ParamView, b: ParamView) -> bool {
    param_le(a, b) && a != b
}

/// The values are in strictly ascending order.
pub open spec fn strictly_sorted(vs: Seq<ParamView>) -> bool {
    forall|i: int, j: int| 0 <= i < j < vs.len() ==> param_lt(#[trigger] vs[i], #[trigger] vs[j])
}

/// `x` is the value of one of the simulations at `param`.
pub open spec fn is_value_of(sv: Seq<(usize, SimView)>, param: Seq<char>, x: ParamView) -> bool {
    exists|i: int| 0 <= i < sv.len() && sim_value(#[trigger] sv[i].1, param) == x
}

/// `vs` holds the values of the simulations at `param`, each once, in ascending order.
pub open spec fn are_sorted_values(vs: Seq<ParamView>, sv: Seq<(usize, SimView)>, param: Seq<char>) -> bool {
    &&& strictly_sorted(vs)
    &&& forall|x: ParamView| vs.contains(x) <==> is_value_of(sv, param, x)
}

/// The distinct values of the simulations at `param`, in ascending order.
pub open spec fn sorted_values(sv: Seq<(usize, SimView)>, param: Seq<char>) -> Seq<ParamView> {
    choose|vs: Seq<ParamView>| are_sorted_values(vs, sv, param)
}

/// Whether a numbered simulation has the value `x` at `param`.
pub open spec fn value_is(param: Seq<char>, x: ParamView) -> spec_fn((usize, SimView)) -> bool {
    |e: (usize, SimView)| sim_value(e.1, param) == x
}

/// The simulations, numbered anew from zero.
pub open spec fn renumbered(sv: Seq<(usize, SimView)>) -> Seq<(usize, SimView)> {
    Seq::new(sv.len(), |k: int| (k as usize, sv[k].1))
}

/// The simulations with value `x` at `param`, in their order, numbered anew.
pub open spec fn with_value(sv: Seq<(usize, SimView)>, param: Seq<char>, x: ParamView) -> Seq<(usize, SimView)> {
    renumbered(sv.filter(value_is(param, x)))
}

/// The simulations split by their value at `param`: one set per value, in
/// ascending order of the values.
pub open spec fn quotient_view(sv: Seq<(usize, SimView)>, param: Seq<char>) -> Seq<Seq<(usize, SimView)>> {
    sorted_values(sv, param).map_values(|x: ParamView| with_value(sv, param, x))
}

/// Every simulation has a single value at `param`.
pub open spec fn all_have_value(sv: Seq<(usize, SimView)>, param: Seq<char>) -> bool {
    forall|i: int| 0 <= i < sv.len() ==> has_value(#[trigger] sv[i].1, param)
}

/// The order of parameter values is a total order.
pub proof fn lemma_param_le_order(a: ParamView, b: ParamView, c: ParamView)
    ensures
        param_le(a, a),
        param_le(a, b) || param_le(b, a),
        param_le(a, b) && param_le(b, a) ==> a == b,
        param_le(a, b) && param_le(b, c) ==> param_le(a, c),
{
    match (a, b, c) {
        (ParamView::Str(x), ParamView::Str(y), ParamView::Str(z)) => {
            crate::order::lemma_str_le_total_order(x, y, z);
        },
        (ParamView::Float(_, x), ParamView::Float(_, y), ParamView::Float(_, z)) => {
            crate::order::lemma_str_le_total_order(x, y, z);
        },
        (ParamView::Str(x), ParamView::Str(y), _) => {
            crate::order::lemma_str_le_total_order(x, y, x);
        },
        (ParamView::Float(_, x), ParamView::Float(_, y), _) => {
            crate::order::lemma_str_le_total_order(x, y, x);
        },
        (ParamView::Str(x), _, _) => {
            crate::order::lemma_str_le_total_order(x, x, x);
        },
        (ParamView::Float(_, x), _, _) => {
            crate::order::lemma_str_le_total_order(x, x, x);
        },
        _ => {},
    }
}

/// The strict order of parameter values is a strict total order.
pub proof fn lemma_param_lt_strict(a: ParamView, b: ParamView, c: ParamView)
    ensures
        !param_lt(a, a),
        a != b ==> param_lt(a, b) || param_lt(b, a),
        param_lt(a, b) ==> !param_lt(b, a),
        param_lt(a, b) && param_lt(b, c) ==> param_lt(a, c),
{
    lemma_param_le_order(a, b, c);
    lemma_param_le_order(b, a, c);
    lemma_param_le_order(a, c, b);
    lemma_param_le_order(b, c, a);
}

/// Two strictly sorted sequences of the same values are equal.
proof fn lemma_strictly_sorted_unique(a: Seq<ParamView>, b: Seq<ParamView>)
    requires
        strictly_sorted(a),
        strictly_sorted(b),
        forall|x: ParamView| a.contains(x) <==> b.contains(x),
    ensures
        a == b,
    decreases a.len() + b.len(),
{
    if a.len() == 0 {
        if b.len() > 0 {
            assert(b.contains(b[0]));
        }
        assert(a =~= b);
    } else if b.len() == 0 {
        assert(a.contains(a[0]));
    } else {
        assert(a.contains(a[0]));
        assert(b.contains(b[0]));
        let k = choose|k: int| 0 <= k < b.len() && b[k] == a[0];
        let m = choose|m: int| 0 <= m < a.len() && a[m] == b[0];
        if k > 0 && m > 0 {
            assert(param_lt(b[0], b[k]));
            assert(param_lt(a[0], a[m]));
            lemma_param_lt_strict(a[0], b[0], a[0]);
        } else if k > 0 {
            assert(param_lt(b[0], b[k]));
            lemma_param_lt_strict(b[0], a[0], b[0]);
        } else if m > 0 {
            assert(param_lt(a[0], a[m]));
            lemma_param_lt_strict(a[0], b[0], a[0]);
        }
        assert(a[0] == b[0]);
        let ta = a.drop_first();
        let tb = b.drop_first();
        assert forall|x: ParamView| ta.contains(x) <==> tb.contains(x) by {
            if ta.contains(x) {
                let i = choose|i: int| 0 <= i < ta.len() && ta[i] == x;
                assert(a[i + 1] == x);
                assert(param_lt(a[0], a[i + 1]));
                lemma_param_lt_strict(a[0], x, a[0]);
                assert(b.contains(x));
                let j = choose|j: int| 0 <= j < b.len() && b[j] == x;
                assert(j != 0);
                assert(tb[j - 1] == x);
            }
            if tb.contains(x) {
                let i = choose|i: int| 0 <= i < tb.len() && tb[i] == x;
                assert(b[i + 1] == x);
                assert(param_lt(b[0], b[i + 1]));
                lemma_param_lt_strict(b[0], x, b[0]);
                assert(a.contains(x));
                let j = choose|j: int| 0 <= j < a.len() && a[j] == x;
                assert(j != 0);
                assert(ta[j - 1] == x);
            }
        }
        assert(strictly_sorted(ta)) by {
            assert forall|i: int, j: int| 0 <= i < j < ta.len() implies param_lt(#[trigger] ta[i], #[trigger] ta[j]) by {
                assert(ta[i] == a[i + 1] && ta[j] == a[j + 1]);
            }
        }
        assert(strictly_sorted(tb)) by {
            assert forall|i: int, j: int| 0 <= i < j < tb.len() implies param_lt(#[trigger] tb[i], #[trigger] tb[j]) by {
                assert(tb[i] == b[i + 1] && tb[j] == b[j + 1]);
            }
        }
        lemma_strictly_sorted_unique(ta, tb);
        assert(a =~= seq![a[0]] + ta);
        assert(b =~= seq![b[0]] + tb);
    }
}

/// The value at `param` of a simulation that has one.
pub fn value_at(sim: &SimParams, param: &str) -> (r: ParamValue)
    requires
        has_value(sim@, param@),
    ensures
        r@ == sim_value(sim@, param@),
{
    match sim.get(param) {
        Some(v) => match ParamValue::new(v) {
            Ok(p) => p,
            Err(_) => ParamValue::Bool(false),
        },
        None => ParamValue::Bool(false),
    }
}

/// The views of parameter values.
pub open spec fn param_views(s: Seq<ParamValue>) -> Seq<ParamView> {
    Seq::new(s.len(), |i: int| s[i]@)
}

/// The distinct values of the simulations at `param`, in ascending order.
fn distinct_values(sims: &Vec<(usize, SimParams)>, param: &str) -> (r: Vec<ParamValue>)
    requires
        all_have_value(sims_view(sims@), param@),
    ensures
        are_sorted_values(param_views(r@), sims_view(sims@), param@),
{
    let ghost sv = sims_view(sims@);
    let mut uniq: Vec<ParamValue> = Vec::new();
    let mut i: usize = 0;
    assert(param_views(uniq@) =~= Seq::<ParamView>::empty());
    while i < sims.len()
        invariant
            i <= sims@.len(),
            sv == sims_view(sims@),
            all_have_value(sv, param@),
            strictly_sorted(param_views(uniq@)),
            forall|x: ParamView| param_views(uniq@).contains(x) <==> is_value_of(sv.take(i as int), param@, x),
        decreases sims@.len() - i,
    {
        assert(sv[i as int].1 == sims@[i as int].1@);
        assert(has_value(sv[i as int].1, param@));
        let v = value_at(&sims[i].1, param);
        let ghost old_u = param_views(uniq@);
        let mut pos: usize = 0;
        while pos < uniq.len() && uniq[pos].key_le_exec(&v) && !uniq[pos].same(&v)
            invariant
                pos <= uniq@.len(),
                old_u == param_views(uniq@),
                forall|k: int| 0 <= k < pos ==> param_lt(#[trigger] old_u[k], v@),
            decreases uniq@.len() - pos,
        {
            assert(old_u[pos as int] == uniq@[pos as int]@);
            pos += 1;
        }
        proof {
            assert forall|x: ParamView|
                is_value_of(sv.take(i + 1), param@, x) <==> (is_value_of(sv.take(i as int), param@, x) || x == v@) by {
                if is_value_of(sv.take(i + 1), param@, x) {
                    let w = choose|w: int|
                        0 <= w < sv.take(i + 1).len() && sim_value(#[trigger] sv.take(i + 1)[w].1, param@) == x;
                    if w < i {
                        assert(sv.take(i as int)[w] == sv.take(i + 1)[w]);
                    }
                }
                if is_value_of(sv.take(i as int), param@, x) {
                    let w = choose|w: int|
                        0 <= w < sv.take(i as int).len() && sim_value(#[trigger] sv.take(i as int)[w].1, param@) == x;
                    assert(sv.take(i + 1)[w] == sv.take(i as int)[w]);
                }
                if x == v@ {
                    assert(sim_value(sv.take(i + 1)[i as int].1, param@) == x);
                }
            }
        }
        let found = pos < uniq.len() && uniq[pos].same(&v);
        if !found {
            proof {
                if pos < old_u.len() {
                    assert(old_u[pos as int] == uniq@[pos as int]@);
                    lemma_param_le_order(old_u[pos as int], v@, v@);
                    assert(param_lt(v@, old_u[pos as int]));
                }
            }
            uniq.insert(pos, v);
            proof {
                let nu = param_views(uniq@);
                assert(nu =~= old_u.insert(pos as int, v@));
                assert forall|a: int, b: int| 0 <= a < b < nu.len() implies param_lt(#[trigger] nu[a], #[trigger] nu[b]) by {
                    if b < pos {
                        assert(nu[a] == old_u[a] && nu[b] == old_u[b]);
                    } else if a < pos && b == pos {
                        assert(nu[a] == old_u[a]);
                    } else if a < pos {
                        assert(nu[a] == old_u[a] && nu[b] == old_u[b - 1]);
                        if b - 1 > pos {
                            assert(param_lt(old_u[pos as int], old_u[b - 1]));
                            lemma_param_lt_strict(v@, old_u[pos as int], old_u[b - 1]);
                        }
                        lemma_param_lt_strict(old_u[a], v@, old_u[b - 1]);
                    } else if a == pos {
                        assert(nu[b] == old_u[b - 1]);
                        if b - 1 > pos {
                            assert(param_lt(old_u[pos as int], old_u[b - 1]));
                            lemma_param_lt_strict(v@, old_u[pos as int], old_u[b - 1]);
                        }
                    } else {
                        assert(nu[a] == old_u[a - 1] && nu[b] == old_u[b - 1]);
                    }
                }
                assert forall|x: ParamView| nu.contains(x) <==> (old_u.contains(x) || x == v@) by {
                    if nu.contains(x) {
                        let w = choose|w: int| 0 <= w < nu.len() && nu[w] == x;
                        if w < pos {
                            assert(old_u[w] == x);
                        } else if w > pos {
                            assert(old_u[w - 1] == x);
                        }
                    }
                    if old_u.contains(x) {
                        let w = choose|w: int| 0 <= w < old_u.len() && old_u[w] == x;
                        if w < pos {
                            assert(nu[w] == x);
                        } else {
                            assert(nu[w + 1] == x);
                        }
                    }
                    if x == v@ {
                        assert(nu[pos as int] == x);
                    }
                }
            }
        } else {
            assert(old_u[pos as int] == v@);
        }
        i += 1;
    }
    assert(sv.take(i as int) =~= sv);
    uniq
}

/// The numbered copies of the simulations with value `x` at `param`, numbered anew.
fn sims_with_value(sims: &Vec<(usize, SimParams)>, param: &str, x: &ParamValue) -> (r: Vec<(usize, SimParams)>)
    requires
        all_have_value(sims_view(sims@), param@),
    ensures
        sims_view(r@) == with_value(sims_view(sims@), param@, x@),
{
    let ghost sv = sims_view(sims@);
    let ghost f = value_is(param@, x@);
    let mut out: Vec<(usize, SimParams)> = Vec::new();
    let mut j: usize = 0;
    assert(sv.take(0).filter(f) =~= Seq::<(usize, SimView)>::empty()) by {
        reveal(Seq::filter);
    }
    assert(sims_view(out@) =~= renumbered(sv.take(0).filter(f)));
    while j < sims.len()
        invariant
            j <= sims@.len(),
            sv == sims_view(sims@),
            f == value_is(param@, x@),
            all_have_value(sv, param@),
            sims_view(out@) == renumbered(sv.take(j as int).filter(f)),
        decreases sims@.len() - j,
    {
        assert(sv[j as int].1 == sims@[j as int].1@);
        assert(has_value(sv[j as int].1, param@));
        let v = value_at(&sims[j].1, param);
        let ghost before = sv.take(j as int).filter(f);
        assert(sv.take(j + 1).drop_last() =~= sv.take(j as int));
        assert(sv.take(j + 1).last() == sv[j as int]);
        if v.same(x) {
            let n = out.len();
            let copy = sims[j].1.duplicate();
            let ghost old_out = sims_view(out@);
            out.push((n, copy));
            assert(f(sv.take(j + 1).last()));
            assert(sv.take(j + 1).filter(f) == before.push(sv[j as int])) by {
                reveal(Seq::filter);
            }
            assert(copy@ == sv[j as int].1);
            assert(sims_view(out@) =~= old_out.push((n, sv[j as int].1)));
            assert(sims_view(out@) =~= renumbered(before.push(sv[j as int])));
        } else {
            assert(!f(sv.take(j + 1).last()));
            assert(sv.take(j + 1).filter(f) == before) by {
                reveal(Seq::filter);
            }
        }
        j += 1;
    }
    assert(sv.take(j as int) =~= sv);
    out
}

impl SimSet {
    /// The sets of simulations that share a value at `param`, one per value,
    /// in ascending order of the values; in each, the simulations keep
    /// their order and are numbered anew from zero.
    pub fn quotient(&self, param: &str) -> (r: Vec<SimSet>)
        requires
            all_have_value(self@, param@),
        ensures
            r@.len() == quotient_view(self@, param@).len(),
            forall|k: int| 0 <= k < r@.len() ==> (#[trigger] r@[k])@ == quotient_view(self@, param@)[k],
    {
        let ghost sv = self@;
        let values = distinct_values(&self.simulations, param);
        proof {
            let vs = sorted_values(sv, param@);
            assert(are_sorted_values(vs, sv, param@));
            lemma_strictly_sorted_unique(param_views(values@), vs);
        }
        let mut r: Vec<SimSet> = Vec::new();
        let mut k: usize = 0;
        while k < values.len()
            invariant
                k <= values@.len(),
                sv == self@,
                all_have_value(sv, param@),
                param_views(values@) == sorted_values(sv, param@),
                r@.len() == k,
                forall|l: int| 0 <= l < k ==> (#[trigger] r@[l])@ == quotient_view(sv, param@)[l],
            decreases values@.len() - k,
        {
            let sims = sims_with_value(&self.simulations, param, &values[k]);
            assert(param_views(values@)[k as int] == values@[k as int]@);
            r.push(SimSet { simulations: sims });
            k += 1;
        }
        r
    }
}


/// Every simulation has a single value at each of `params`.
pub open spec fn all_have_values(sv: Seq<(usize, SimView)>, params: Seq<Seq<char>>) -> bool {
    forall|j: int| 0 <= j < params.len() ==> all_have_value(sv, #[trigger] params[j])
}

/// The simulations split by their values at each of `params` in turn: the
/// sets of the first split, each split by the remaining parameters, one
/// after the other.
pub open spec fn quotients_view(sv: Seq<(usize, SimView)>, params: Seq<Seq<char>>) -> Seq<Seq<(usize, SimView)>>
    decreases params.len(), 0nat,
{
    if params.len() == 0 {
        seq![sv]
    } else {
        let qs = quotient_view(sv, params[0]);
        quotients_each(qs, params.drop_first(), qs.len())
    }
}

/// The first `n` of the sets `qs`, each split by `params`, one after the other.
pub open spec fn quotients_each(qs: Seq<Seq<(usize, SimView)>>, params: Seq<Seq<char>>, n: nat) -> Seq<Seq<(usize, SimView)>>
    decreases params.len(), n + 1,
{
    if n == 0 || n > qs.len() {
        Seq::empty()
    } else {
        quotients_each(qs, params, (n - 1) as nat) + quotients_view(qs[n - 1], params)
    }
}

/// The views of simulation sets.
pub open spec fn sets_view(s: Seq<SimSet>) -> Seq<Seq<(usize, SimView)>> {
    Seq::new(s.len(), |i: int| s[i]@)
}

/// The simulations of a split keep their values.
proof fn lemma_with_value_has_values(sv: Seq<(usize, SimView)>, param: Seq<char>, x: ParamView, params: Seq<Seq<char>>)
    requires
        all_have_values(sv, params),
    ensures
        all_have_values(with_value(sv, param, x), params),
{
    let f = value_is(param, x);
    let w = with_value(sv, param, x);
    assert forall|j: int, i: int| 0 <= j < params.len() && 0 <= i < w.len() implies has_value(#[trigger] w[i].1, #[trigger] params[j]) by {
        let e = sv.filter(f)[i];
        assert(sv.filter(f).contains(e));
        sv.lemma_filter_contains_rev(f, e);
        let k = choose|k: int| 0 <= k < sv.len() && sv[k] == e;
        assert(all_have_value(sv, params[j]));
        assert(has_value(sv[k].1, params[j]));
        assert(w[i].1 == e.1);
    }
}

impl SimSet {
    /// A copy of the set.
    pub fn duplicate(&self) -> (r: SimSet)
        ensures
            r@ == self@,
    {
        let mut out: Vec<(usize, SimParams)> = Vec::new();
        let mut i: usize = 0;
        while i < self.simulations.len()
            invariant
                i <= self.simulations@.len(),
                out@.len() == i,
                forall|k: int| 0 <= k < i ==> (#[trigger] sims_view(out@)[k]) == sims_view(self.simulations@)[k],
            decreases self.simulations@.len() - i,
        {
            let n = self.simulations[i].0;
            let s = self.simulations[i].1.duplicate();
            let ghost before = sims_view(out@);
            out.push((n, s));
            proof {
                assert forall|k: int| 0 <= k < i + 1 implies (#[trigger] sims_view(out@)[k]) == sims_view(self.simulations@)[k] by {
                    if k < i {
                        assert(sims_view(out@)[k] == before[k]);
                    }
                }
            }
            i += 1;
        }
        assert(sims_view(out@) =~= sims_view(self.simulations@));
        SimSet { simulations: out }
    }

    /// The set of the given numbered simulations.
    pub fn from_vec(simulations: Vec<(usize, SimParams)>) -> (r: SimSet)
        ensures
            r@ == sims_view(simulations@),
    {
        SimSet { simulations }
    }

    /// The number of simulations.
    pub fn len(&self) -> (r: usize)
        ensures
            r == self@.len(),
    {
        self.simulations.len()
    }

    /// Whether there is no simulation.
    pub fn is_empty(&self) -> (r: bool)
        ensures
            r == (self@.len() == 0),
    {
        self.simulations.len() == 0
    }

    /// The numbered simulations.
    pub fn enumerate(&self) -> (r: &[(usize, SimParams)])
        ensures
            r@ == self.simulations@,
    {
        self.simulations.as_slice()
    }

    /// The simulations, in order.
    pub fn iter(&self) -> (r: Vec<&SimParams>)
        ensures
            r@.len() == self@.len(),
            forall|i: int| 0 <= i < r@.len() ==> (#[trigger] r@[i])@ == self@[i].1,
    {
        let mut r: Vec<&SimParams> = Vec::new();
        let mut i: usize = 0;
        while i < self.simulations.len()
            invariant
                i <= self.simulations@.len(),
                r@.len() == i,
                forall|k: int| 0 <= k < i ==> (#[trigger] r@[k])@ == self@[k].1,
            decreases self.simulations@.len() - i,
        {
            r.push(&self.simulations[i].1);
            i += 1;
        }
        r
    }

    /// Whether the simulations differ at `param` (a missing value counts as a value).
    pub fn varies(&self, param: &str) -> (r: bool)
        ensures
            r == (self@.len() > 0 && exists|i: int|
                0 <= i < self@.len() && path_get(#[trigger] self@[i].1.params, split_path(param@))
                    != path_get(self@[0].1.params, split_path(param@))),
    {
        if self.simulations.len() == 0 {
            return false;
        }
        let first = self.simulations[0].1.get(param);
        let mut i: usize = 0;
        while i < self.simulations.len()
            invariant
                i <= self.simulations@.len(),
                self.simulations@.len() > 0,
                first matches Some(v) ==> path_get(self@[0].1.params, split_path(param@)) == Some(v@),
                first is None ==> path_get(self@[0].1.params, split_path(param@)) is None,
                forall|k: int| 0 <= k < i ==> path_get(#[trigger] self@[k].1.params, split_path(param@))
                    == path_get(self@[0].1.params, split_path(param@)),
            decreases self.simulations@.len() - i,
        {
            let this = self.simulations[i].1.get(param);
            assert(self@[i as int].1 == self.simulations@[i as int].1@);
            let equal = match (this, first) {
                (Some(a), Some(b)) => a.same(b),
                (None, None) => true,
                _ => false,
            };
            if !equal {
                assert(path_get(self@[i as int].1.params, split_path(param@)) != path_get(self@[0].1.params, split_path(param@)));
                return true;
            }
            i += 1;
        }
        false
    }

    /// The simulations split by their values at each of `params` in turn.
    pub fn quotients(&self, params: &Vec<String>) -> (r: Vec<SimSet>)
        requires
            all_have_values(self@, params.deep_view()),
        ensures
            sets_view(r@) == quotients_view(self@, params.deep_view()),
    {
        assert(params.deep_view().skip(0) =~= params.deep_view());
        self.quotients_from(params, 0)
    }

    fn quotients_from(&self, params: &Vec<String>, start: usize) -> (r: Vec<SimSet>)
        requires
            start <= params@.len(),
            all_have_values(self@, params.deep_view().skip(start as int)),
        ensures
            sets_view(r@) == quotients_view(self@, params.deep_view().skip(start as int)),
        decreases params@.len() - start,
    {
        let ghost ps = params.deep_view().skip(start as int);
        if start == params.len() {
            let mut r: Vec<SimSet> = Vec::new();
            r.push(self.duplicate());
            assert(sets_view(r@) =~= seq![self@]);
            return r;
        }
        assert(ps[0] == params@[start as int]@);
        assert(all_have_value(self@, ps[0]));
        let qs = self.quotient(params[start].as_str());
        let ghost qv = quotient_view(self@, ps[0]);
        let ghost rest = ps.drop_first();
        assert(rest =~= params.deep_view().skip(start + 1));
        let next = start + 1;
        let mut r: Vec<SimSet> = Vec::new();
        let mut k: usize = 0;
        assert(sets_view(r@) =~= quotients_each(qv, rest, 0));
        while k < qs.len()
            invariant
                k <= qs@.len(),
                qs@.len() == qv.len(),
                forall|l: int| 0 <= l < qs@.len() ==> (#[trigger] qs@[l])@ == qv[l],
                qv == quotient_view(self@, ps[0]),
                next == start + 1,
                next <= params@.len(),
                rest == params.deep_view().skip(next as int),
                all_have_values(self@, rest),
                sets_view(r@) == quotients_each(qv, rest, k as nat),
            decreases qs@.len() - k,
        {
            proof {
                let vs = sorted_values(self@, ps[0]);
                assert(qv[k as int] == with_value(self@, ps[0], vs[k as int]));
                lemma_with_value_has_values(self@, ps[0], vs[k as int], rest);
            }
            let sub = qs[k].quotients_from(params, next);
            let ghost before = sets_view(r@);
            let mut sub = sub;
            r.append(&mut sub);
            assert(sets_view(r@) =~= before + quotients_view(qv[k as int], rest));
            k += 1;
        }
        assert(forall|j: int| 0 <= j < rest.len() ==> rest[j] == ps[j + 1]);
        r
    }
}


/// Why a simulation set cannot be made.
#[derive(Debug, Clone, PartialEq)]
pub enum SimSetError {
    /// A substituted parameter that is neither in the parameter file nor special.
    UnknownParam(String),
    /// The substitutions cannot be made.
    Substitution(SubstitutionError),
    /// The substitutions of a cascade cannot be made.
    Cascade(CascadeError),
}

/// The parameters after the substitutions `subst` (in order): a parameter
/// that is present is replaced, a special one that is missing is added,
/// and any other missing one is the error.
pub open spec fn apply_substitution(params: YamlView, subst: Seq<(Seq<char>, ParamView)>) -> Result<YamlView, Seq<char>>
    decreases subst.len(),
{
    if subst.len() == 0 {
        Ok(params)
    } else {
        match apply_substitution(params, subst.drop_last()) {
            Err(k) => Err(k),
            Ok(p) => {
                let k = subst.last().0;
                let v = yaml_of_param(subst.last().1);
                if path_get(p, split_path(k)) is Some {
                    Ok(path_set(p, split_path(k), v))
                } else if is_special(k) {
                    Ok(YamlView::Mapping(map_insert(p->Mapping_0, k, v)))
                } else {
                    Err(k)
                }
            },
        }
    }
}

/// The special parameters are `num_cores`, `run_params`,
/// `additional_commands`, `wall_time`, `sim_type` and `sim_label`:
/// substituting one of them into parameters that lack it succeeds and adds it
/// at the top level with the substituted value, every other top-level
/// parameter reading as before; substituting any other parameter that the
/// parameters lack fails with its name.
pub proof fn lemma_special_params_added(m: Seq<(YamlView, YamlView)>, k: Seq<char>, p: ParamView, other: Seq<char>)
    requires
        !k.contains('/'),
        path_get(YamlView::Mapping(m), seq![k]) is None,
    ensures
        (k == "num_cores"@ || k == "run_params"@ || k == "additional_commands"@ || k == "wall_time"@ || k
            == "sim_type"@ || k == "sim_label"@) ==> ({
            let r = apply_substitution(YamlView::Mapping(m), seq![(k, p)]);
            &&& r is Ok
            &&& path_get(r->Ok_0, seq![k]) == Some(yaml_of_param(p))
            &&& other != k ==> path_get(r->Ok_0, seq![other]) == path_get(YamlView::Mapping(m), seq![other])
        }),
        !(k == "num_cores"@ || k == "run_params"@ || k == "additional_commands"@ || k == "wall_time"@ || k
            == "sim_type"@ || k == "sim_label"@) ==> apply_substitution(YamlView::Mapping(m), seq![(k, p)]) == Err::<
            YamlView,
            Seq<char>,
        >(k),
{
    crate::yaml::lemma_split_path_plain(k);
    let sv = seq![(k, p)];
    assert(sv.drop_last() =~= Seq::<(Seq<char>, ParamView)>::empty());
    assert(apply_substitution(YamlView::Mapping(m), sv.drop_last()) == Ok::<YamlView, Seq<char>>(YamlView::Mapping(m)));
    assert(sv.last() == (k, p));
    assert(path_get(YamlView::Mapping(m), split_path(k)) is None);
    crate::yaml::lemma_map_insert_get(m, k, yaml_of_param(p), other);
}

/// Once a substitution fails, it fails with the same key whatever follows.
proof fn lemma_apply_error_stays(params: YamlView, sv: Seq<(Seq<char>, ParamView)>, j: int)
    requires
        0 <= j <= sv.len(),
        apply_substitution(params, sv.take(j)) is Err,
    ensures
        apply_substitution(params, sv) == apply_substitution(params, sv.take(j)),
    decreases sv.len() - j,
{
    if j < sv.len() {
        assert(sv.take(j + 1).drop_last() =~= sv.take(j));
        lemma_apply_error_stays(params, sv, j + 1);
    } else {
        assert(sv.take(j) =~= sv);
    }
}

/// `sim` with the substitution applied.
fn apply_substitution_to(sim: &mut SimParams, subst: &ParamMap) -> (r: Result<(), SimSetError>)
    ensures
        final(sim).folder == old(sim).folder,
        final(sim).kind == old(sim).kind,
        match apply_substitution(old(sim).params_view(), subst@) {
            Ok(p) => r is Ok && final(sim).params_view() == p,
            Err(k) => r matches Err(SimSetError::UnknownParam(x)) && x@ == k,
        },
{
    let ghost start = sim.params_view();
    let ghost sv = subst@;
    let mut i: usize = 0;
    assert(sv.take(0) =~= Seq::<(Seq<char>, ParamView)>::empty());
    while i < subst.entries.len()
        invariant
            i <= subst.entries@.len(),
            sv == subst@,
            sim.folder == old(sim).folder,
            sim.kind == old(sim).kind,
            start == old(sim).params_view(),
            apply_substitution(start, sv.take(i as int)) == Ok::<YamlView, Seq<char>>(sim.params_view()),
        decreases subst.entries@.len() - i,
    {
        let k = &subst.entries[i].0;
        let v = subst.entries[i].1.to_yaml();
        assert(sv.take(i + 1).drop_last() =~= sv.take(i as int));
        assert(sv.take(i + 1).last() == sv[i as int]);
        let present = sim.get(k.as_str()).is_some();
        if present {
            sim.insert(k.as_str(), &v);
        } else if is_special_param(k.as_str()) {
            sim.insert_top_level(k.as_str(), v);
        } else {
            proof {
                lemma_apply_error_stays(start, sv, i + 1);
            }
            return Err(SimSetError::UnknownParam(k.clone()));
        }
        i += 1;
    }
    assert(sv.take(i as int) =~= sv);
    Ok(())
}

/// The simulation `base` after a substitution that applies.
pub open spec fn substituted(base: SimView, subst: Seq<(Seq<char>, ParamView)>) -> SimView {
    SimView { folder: base.folder, params: apply_substitution(base.params, subst)->Ok_0, kind: base.kind }
}

/// The substitutions `subs[..n]` all apply to `base`.
pub open spec fn all_apply(base: YamlView, subs: Seq<Seq<(Seq<char>, ParamView)>>, n: int) -> bool {
    forall|i: int| 0 <= i < n ==> (#[trigger] apply_substitution(base, subs[i])) is Ok
}

/// The views of parameter maps.
pub open spec fn maps_view(m: Seq<ParamMap>) -> Seq<Seq<(Seq<char>, ParamView)>> {
    Seq::new(m.len(), |i: int| m[i]@)
}

/// The simulations made from `base` by each of the substitutions, numbered
/// from zero; the error of the first substitution that fails.
pub fn get_sim_params_from_substitutions(base: &SimParams, substitutions: &Vec<ParamMap>) -> (r: Result<Vec<(usize, SimParams)>, SimSetError>)
    ensures
        ({
            let subs = maps_view(substitutions@);
            &&& r is Ok <==> all_apply(base@.params, subs, subs.len() as int)
            &&& r matches Ok(sims) ==> sims@.len() == subs.len() && forall|i: int|
                0 <= i < sims@.len() ==> (#[trigger] sims@[i]).0 == i && sims@[i].1@ == substituted(base@, subs[i])
            &&& r matches Err(e) ==> e is UnknownParam
            &&& r matches Err(SimSetError::UnknownParam(k)) ==> exists|i: int|
                0 <= i < subs.len() && all_apply(base@.params, subs, i) && #[trigger] apply_substitution(base@.params, subs[i])
                    == Err::<YamlView, Seq<char>>(k@)
        }),
{
    let ghost subs = maps_view(substitutions@);
    let mut out: Vec<(usize, SimParams)> = Vec::new();
    let mut i: usize = 0;
    while i < substitutions.len()
        invariant
            i <= substitutions@.len(),
            subs == maps_view(substitutions@),
            all_apply(base@.params, subs, i as int),
            out@.len() == i,
            forall|j: int|
                0 <= j < i ==> (#[trigger] out@[j]).0 == j && out@[j].1@ == substituted(base@, subs[j]),
        decreases substitutions@.len() - i,
    {
        let mut sim = base.duplicate();
        assert(subs[i as int] == substitutions@[i as int]@);
        match apply_substitution_to(&mut sim, &substitutions[i]) {
            Ok(()) => {
                out.push((i, sim));
            },
            Err(e) => {
                assert(apply_substitution(base@.params, subs[i as int]) == Err::<YamlView, Seq<char>>(e->UnknownParam_0@));
                return Err(e);
            },
        }
        i += 1;
    }
    Ok(out)
}

/// The files and the times of the steps of a cascade.
pub struct CascadeSteps {
    pub files: Vec<String>,
    pub times: Vec<CascadeTimes>,
}

/// How the substitutions make simulations: side by side, as the cartesian
/// product over all parameters or over groups of them, or as a cascade.
pub enum CartesianType {
    NoCartesian,
    All,
    Grouped(Vec<Vec<String>>),
    Cascade(CascadeSteps),
}

/// A simulation-set file: how to combine the substitutions, and the
/// substituted parameters with their values or lists of values.
pub struct SimSetConfig {
    pub cartesian_type: CartesianType,
    pub substitutions: Vec<(String, YamlValue)>,
}

/// The substitutions that a simulation-set file gives, where it gives any.
pub open spec fn substitution_rows(config: SimSetConfig, bob_path: Seq<char>, identifier: Seq<char>) -> Option<Seq<Seq<(Seq<char>, ParamView)>>> {
    let sv = subst_view(config.substitutions@);
    match config.cartesian_type {
        CartesianType::NoCartesian => {
            let l = common_length(sv, None);
            if !lengths_differ(sv, None) && forall|i: int, j: int|
                0 <= i < l && 0 <= j < sv.len() ==> (#[trigger] normal_entry(sv, i, j)) is Ok {
                Some(Seq::new(l, |i: int| normal_row(sv, i)))
            } else {
                None
            }
        },
        CartesianType::All => cartesian_rows(sv, parameter_groups(sv, None)),
        CartesianType::Grouped(g) => cartesian_rows(sv, parameter_groups(sv, Some(g.deep_view()))),
        CartesianType::Cascade(steps) => {
            let n = cartesian_count(sv);
            if cartesian_ok(sv) && (n == 1 || n == steps.files@.len()) {
                Some(
                    Seq::new(
                        steps.files@.len(),
                        |i: int|
                            cartesian_map(
                                sv,
                                if n == 1 {
                                    0
                                } else {
                                    i
                                },
                            ) + cascade_entries(
                                i as nat,
                                steps.files@[i]@,
                                times_view(steps.times@[i]),
                                bob_path,
                                identifier,
                            ),
                    ),
                )
            } else {
                None
            }
        },
    }
}

/// The cartesian substitutions over the groups `pg`, where they can all be made.
pub open spec fn cartesian_rows(sv: Seq<(Seq<char>, YamlView)>, pg: Seq<Seq<Seq<char>>>) -> Option<Seq<Seq<(Seq<char>, ParamView)>>> {
    let ls = group_lengths(sv, pg);
    let combos = cartesian(ls);
    if !some_group_differs(sv, pg) && product(ls) <= usize::MAX && forall|c: int|
        0 <= c < combos.len() ==> combination_ok(sv, pg, #[trigger] combos[c]) {
        Some(Seq::new(combos.len(), |c: int| cartesian_row(sv, pg, combos[c])))
    } else {
        None
    }
}

/// The simulation-set file can be read without a panic.
pub open spec fn config_readable(config: SimSetConfig, identifier: Seq<char>) -> bool {
    let sv = subst_view(config.substitutions@);
    match config.cartesian_type {
        CartesianType::NoCartesian => normal_convertible(sv),
        CartesianType::All => cartesian_convertible(sv, parameter_groups(sv, None)),
        CartesianType::Grouped(g) => cartesian_convertible(sv, parameter_groups(sv, Some(g.deep_view()))),
        CartesianType::Cascade(steps) => {
            &&& cartesian_convertible(sv, parameter_groups(sv, None))
            &&& steps.times@.len() == steps.files@.len()
            &&& cascade_steps_made(sv, steps.files@.len()) ==> cascade_names_free(sv, identifier)
        },
    }
}

/// The simulations of a simulation-set file: the substitutions that it
/// gives, each applied to the base simulation.
pub fn get_sim_params(config: &SimSetConfig, base: &SimParams, bob_path: &str, identifier: &str) -> (r: Result<Vec<(usize, SimParams)>, SimSetError>)
    requires
        config_readable(*config, identifier@),
    ensures
        match substitution_rows(*config, bob_path@, identifier@) {
            None => r matches Err(e) && (e is Substitution || e is Cascade),
            Some(rows) => {
                &&& r is Ok <==> all_apply(base@.params, rows, rows.len() as int)
                &&& r matches Ok(sims) ==> sims@.len() == rows.len() && forall|i: int|
                    0 <= i < sims@.len() ==> (#[trigger] sims@[i]).0 == i && sims@[i].1@ == substituted(base@, rows[i])
                &&& r matches Err(e) ==> e matches SimSetError::UnknownParam(k) && exists|i: int|
                    0 <= i < rows.len() && all_apply(base@.params, rows, i) && #[trigger] apply_substitution(base@.params, rows[i])
                        == Err::<YamlView, Seq<char>>(k@)
            },
        },
{
    let ghost sv = subst_view(config.substitutions@);
    let maps = match &config.cartesian_type {
        CartesianType::NoCartesian => match get_substitutions_normal(&config.substitutions) {
            Ok(m) => {
                assert(maps_view(m@) =~= substitution_rows(*config, bob_path@, identifier@)->Some_0);
                m
            },
            Err(e) => {
                return Err(SimSetError::Substitution(e));
            },
        },
        CartesianType::All => {
            assert(groups_view(None) == None::<Seq<Seq<Seq<char>>>>);
            match get_substitutions_cartesian(&config.substitutions, None) {
                Ok(m) => {
                    let ghost pg = parameter_groups(sv, None);
                    let ghost combos = cartesian(group_lengths(sv, pg));
                    assert(maps_view(m@) =~= substitution_rows(*config, bob_path@, identifier@)->Some_0);
                    m
                },
                Err(e) => {
                    return Err(SimSetError::Substitution(e));
                },
            }
        },
        CartesianType::Grouped(g) => {
            let groups = clone_groups(g);
            assert(groups_view(Some(groups)) == Some(g.deep_view()));
            match get_substitutions_cartesian(&config.substitutions, Some(groups)) {
                Ok(m) => {
                    let ghost pg = parameter_groups(sv, Some(g.deep_view()));
                    let ghost combos = cartesian(group_lengths(sv, pg));
                    assert(maps_view(m@) =~= substitution_rows(*config, bob_path@, identifier@)->Some_0);
                    m
                },
                Err(e) => {
                    return Err(SimSetError::Substitution(e));
                },
            }
        },
        CartesianType::Cascade(steps) => {
            match get_substitutions_cascade(&config.substitutions, &steps.files, &steps.times, bob_path, identifier) {
                Ok(m) => {
                    assert(maps_view(m@) =~= substitution_rows(*config, bob_path@, identifier@)->Some_0);
                    m
                },
                Err(e) => {
                    return Err(SimSetError::Cascade(e));
                },
            }
        },
    };
    get_sim_params_from_substitutions(base, &maps)
}

/// A copy of groups of names.
fn clone_groups(g: &Vec<Vec<String>>) -> (r: Vec<Vec<String>>)
    ensures
        r.deep_view() == g.deep_view(),
{
    let mut r: Vec<Vec<String>> = Vec::new();
    let mut i: usize = 0;
    while i < g.len()
        invariant
            i <= g@.len(),
            r@.len() == i,
            forall|k: int| 0 <= k < i ==> (#[trigger] r@[k]).deep_view() == g@[k].deep_view(),
        decreases g@.len() - i,
    {
        let mut inner: Vec<String> = Vec::new();
        let mut j: usize = 0;
        while j < g[i].len()
            invariant
                i < g@.len(),
                j <= g@[i as int]@.len(),
                inner@.len() == j,
                forall|k: int| 0 <= k < j ==> (#[trigger] inner@[k])@ == g@[i as int]@[k]@,
            decreases g@[i as int]@.len() - j,
        {
            inner.push(g[i][j].clone());
            j += 1;
        }
        assert(inner.deep_view() =~= g@[i as int].deep_view());
        r.push(inner);
        i += 1;
    }
    assert(r.deep_view() =~= g.deep_view());
    r
}

/// The simulations of the sets, one after the other.
pub open spec fn concat_sets(s: Seq<Seq<(usize, SimView)>>) -> Seq<(usize, SimView)>
    decreases s.len(),
{
    if s.len() == 0 {
        Seq::empty()
    } else {
        concat_sets(s.drop_last()) + s.last()
    }
}

impl SimSet {
    /// One set of all simulations of `sets`, one after the other, numbered anew.
    pub fn join(sets: Vec<SimSet>) -> (r: SimSet)
        ensures
            r@ == renumbered(concat_sets(sets_view(sets@))),
    {
        let ghost all = sets_view(sets@);
        let mut out: Vec<(usize, SimParams)> = Vec::new();
        let mut k: usize = 0;
        assert(all.take(0) =~= Seq::<Seq<(usize, SimView)>>::empty());
        assert(sims_view(out@) =~= renumbered(concat_sets(all.take(0))));
        while k < sets.len()
            invariant
                k <= sets@.len(),
                all == sets_view(sets@),
                sims_view(out@) == renumbered(concat_sets(all.take(k as int))),
            decreases sets@.len() - k,
        {
            assert(all.take(k + 1).drop_last() =~= all.take(k as int));
            assert(all.take(k + 1).last() == sets@[k as int]@);
            let ghost before = concat_sets(all.take(k as int));
            let set = &sets[k];
            let mut j: usize = 0;
            while j < set.simulations.len()
                invariant
                    j <= set.simulations@.len(),
                    sims_view(out@) == renumbered(before + set@.take(j as int)),
                decreases set.simulations@.len() - j,
            {
                let n = out.len();
                let ghost old_out = sims_view(out@);
                let copy = set.simulations[j].1.duplicate();
                assert(copy@ == set@[j as int].1);
                assert(old_out.len() == n);
                out.push((n, copy));
                assert(sims_view(out@) =~= old_out.push((n, set@[j as int].1)));
                assert(before + set@.take(j + 1) =~= (before + set@.take(j as int)).push(set@[j as int]));
                assert(sims_view(out@) =~= renumbered(before + set@.take(j + 1)));
                j += 1;
            }
            assert(set@.take(j as int) =~= set@);
            k += 1;
        }
        assert(all.take(k as int) =~= all);
        SimSet { simulations: out }
    }
}

/// The simulations whose numbers are selected (all where none are).
pub fn filter_sim_set(sim_set: SimSet, select: Option<&Vec<usize>>) -> (r: SimSet)
    ensures
        match select {
            None => r@ == sim_set@,
            Some(sel) => r@ == sim_set@.filter(|e: (usize, SimView)| sel@.contains(e.0)),
        },
{
    match select {
        None => sim_set,
        Some(sel) => {
            let ghost sv = sim_set@;
            let ghost f = |e: (usize, SimView)| sel@.contains(e.0);
            let mut out: Vec<(usize, SimParams)> = Vec::new();
            let mut rest = sim_set.simulations;
            let ghost all = rest@;
            let mut i: usize = 0;
            let total = rest.len();
            assert(sv.take(0).filter(f) =~= Seq::<(usize, SimView)>::empty()) by {
                reveal(Seq::filter);
            }
            while rest.len() > 0
                invariant
                    i + rest@.len() == all.len(),
                    total == all.len(),
                    rest@ == all.skip(i as int),
                    sv == sims_view(all),
                    f == (|e: (usize, SimView)| sel@.contains(e.0)),
                    sims_view(out@) == sv.take(i as int).filter(f),
                decreases rest@.len(),
            {
                let e = rest.remove(0);
                assert(e == all[i as int]);
                assert(rest@ =~= all.skip(i + 1));
                assert(sv.take(i + 1).drop_last() =~= sv.take(i as int));
                assert(sv.take(i + 1).last() == sv[i as int]);
                let keep = vec_contains(sel, e.0);
                if keep {
                    let ghost before = sims_view(out@);
                    out.push(e);
                    assert(sims_view(out@) =~= before.push(sv[i as int]));
                    assert(sv.take(i + 1).filter(f) == before.push(sv[i as int])) by {
                        reveal(Seq::filter);
                    }
                } else {
                    assert(sv.take(i + 1).filter(f) == sv.take(i as int).filter(f)) by {
                        reveal(Seq::filter);
                    }
                }
                i += 1;
            }
            assert(sv.take(i as int) =~= sv);
            SimSet { simulations: out }
        },
    }
}

/// Whether `x` is among `v`.
fn vec_contains(v: &Vec<usize>, x: usize) -> (r: bool)
    ensures
        r == v@.contains(x),
{
    let mut i: usize = 0;
    while i < v.len()
        invariant
            i <= v@.len(),
            forall|k: int| 0 <= k < i ==> v@[k] != x,
        decreases v@.len() - i,
    {
        if v[i] == x {
            assert(v@[i as int] == x);
            return true;
        }
        i += 1;
    }
    false
}

/// The folders whose names are numbers, with their numbers, ordered by number.
pub open spec fn numbered(folders: Seq<Seq<char>>) -> Seq<(usize, Seq<char>)> {
    folders.filter(|f: Seq<char>| final_component(f) matches Some(n) && parse_integer(n, false, 0, usize::MAX as int) is Some).map_values(
        |f: Seq<char>| (parse_integer(final_component(f)->Some_0, false, 0, usize::MAX as int)->Some_0 as usize, f),
    )
}

/// A folder with its number, ordered by number and then by path.
pub struct NumberedFolder {
    pub number: usize,
    pub path: String,
}

/// `(a, p)` comes no later than `(b, q)`: a smaller number, or the same number
/// and a path that is no greater.
pub open spec fn number_path_le(a: usize, p: Seq<char>, b: usize, q: Seq<char>) -> bool {
    a < b || (a == b && str_le(p, q))
}

impl SortKey for NumberedFolder {
    open spec fn key_le(self, other: Self) -> bool {
        number_path_le(self.number, self.path@, other.number, other.path@)
    }

    proof fn lemma_key_order(a: Self, b: Self, c: Self) {
        lemma_str_le_total_order(a.path@, b.path@, c.path@);
    }

    fn key_le_exec(&self, other: &Self) -> (r: bool) {
        if self.number != other.number {
            self.number < other.number
        } else {
            string_le(&self.path, &other.path)
        }
    }
}

/// The simulation folders among the folders of an output folder: those whose
/// names are numbers, ordered by number and folders with the same number by
/// path (none where a folder has no name). Paths are compared as text, which
/// for the folders of one folder is the order of their paths.
pub fn numbered_folders(folders: &Vec<String>) -> (r: Option<Vec<(usize, String)>>)
    ensures
        (exists|i: int| 0 <= i < folders@.len() && (#[trigger] final_component(folders@[i]@)) is None) <==> r is None,
        r matches Some(v) ==> {
            &&& Seq::new(v@.len(), |i: int| (v@[i].0, v@[i].1@)).to_multiset() == numbered(folders.deep_view()).to_multiset()
            &&& forall|i: int, j: int|
                0 <= i < j < v@.len() ==> number_path_le(
                    (#[trigger] v@[i]).0,
                    v@[i].1@,
                    (#[trigger] v@[j]).0,
                    v@[j].1@,
                )
        },
{
    let ghost fv = folders.deep_view();
    let ghost keep = |f: Seq<char>| final_component(f) matches Some(n) && parse_integer(n, false, 0, usize::MAX as int) is Some;
    let ghost num = |f: Seq<char>| (parse_integer(final_component(f)->Some_0, false, 0, usize::MAX as int)->Some_0 as usize, f);
    let mut found: Vec<NumberedFolder> = Vec::new();
    let mut i: usize = 0;
    assert(fv.take(0).filter(keep) =~= Seq::<Seq<char>>::empty()) by {
        reveal(Seq::filter);
    }
    while i < folders.len()
        invariant
            i <= folders@.len(),
            fv == folders.deep_view(),
            keep == (|f: Seq<char>| final_component(f) matches Some(n) && parse_integer(n, false, 0, usize::MAX as int) is Some),
            num == (|f: Seq<char>| (parse_integer(final_component(f)->Some_0, false, 0, usize::MAX as int)->Some_0 as usize, f)),
            forall|k: int| 0 <= k < i ==> (#[trigger] final_component(folders@[k]@)) is Some,
            Seq::new(found@.len(), |k: int| (found@[k].number, found@[k].path@)) == fv.take(i as int).filter(keep).map_values(num),
        decreases folders@.len() - i,
    {
        assert(fv.take(i + 1).drop_last() =~= fv.take(i as int));
        assert(fv.take(i + 1).last() == folders@[i as int]@);
        let ghost before = Seq::new(found@.len(), |k: int| (found@[k].number, found@[k].path@));
        let name = match path_file_name(folders[i].as_str()) {
            Some(n) => n,
            None => {
                return None;
            },
        };
        match parse_usize(name.as_str()) {
            Some(n) => {
                found.push(NumberedFolder { number: n, path: folders[i].clone() });
                assert(fv.take(i + 1).filter(keep) == fv.take(i as int).filter(keep).push(folders@[i as int]@)) by {
                    reveal(Seq::filter);
                }
                assert(Seq::new(found@.len(), |k: int| (found@[k].number, found@[k].path@)) =~= before.push(num(folders@[i as int]@)));
                assert(fv.take(i + 1).filter(keep).map_values(num) =~= fv.take(i as int).filter(keep).map_values(num).push(num(folders@[i as int]@)));
            },
            None => {
                assert(fv.take(i + 1).filter(keep) == fv.take(i as int).filter(keep)) by {
                    reveal(Seq::filter);
                }
            },
        }
        i += 1;
    }
    assert(fv.take(i as int) =~= fv);
    let ghost fd = found@;
    let sorted = sort_by_key(found);
    let ghost sk = sorted@;
    let mut out: Vec<(usize, String)> = Vec::new();
    let mut rest = sorted;
    while rest.len() > 0
        invariant
            out@.len() + rest@.len() == sk.len(),
            rest@ == sk.skip(out@.len() as int),
            forall|k: int| 0 <= k < out@.len() ==> (#[trigger] out@[k]).0 == sk[k].number && out@[k].1@ == sk[k].path@,
        decreases rest@.len(),
    {
        let nf = rest.remove(0);
        assert(rest@ =~= sk.skip(out@.len() + 1 as int));
        out.push((nf.number, nf.path));
    }
    proof {
        let f = |p: NumberedFolder| (p.number, p.path@);
        crate::order::lemma_map_multiset(sk, fd, f);
        assert(Seq::new(out@.len(), |k: int| (out@[k].0, out@[k].1@)) =~= sk.map_values(f));
        assert(Seq::new(fd.len(), |k: int| (fd[k].number, fd[k].path@)) =~= fd.map_values(f));
        assert forall|a: int, b: int| 0 <= a < b < out@.len() implies number_path_le(
            (#[trigger] out@[a]).0,
            out@[a].1@,
            (#[trigger] out@[b]).0,
            out@[b].1@,
        ) by {
            assert(sk[a].key_le(sk[b]));
        }
    }
    Some(out)
}



/// Splitting by a parameter partitions the simulations: every set is
/// non-empty and holds exactly the simulations with its value (so every
/// simulation is in the set of its own value and in no other), and the
/// values of the sets are distinct and ascending.
pub proof fn lemma_quotient_partition(sv: Seq<(usize, SimView)>, param: Seq<char>)
    requires
        all_have_value(sv, param),
    ensures
        ({
            let vs = sorted_values(sv, param);
            let q = quotient_view(sv, param);
            &&& q.len() == vs.len()
            &&& strictly_sorted(vs)
            &&& forall|k: int| 0 <= k < q.len() ==> (#[trigger] q[k]).len() > 0
            &&& forall|k: int, i: int|
                0 <= k < q.len() && 0 <= i < q[k].len() ==> sim_value((#[trigger] q[k][i]).1, param) == vs[k]
            &&& forall|i: int| 0 <= i < sv.len() ==> vs.contains(sim_value(#[trigger] sv[i].1, param))
        }),
{
    let vs = sorted_values(sv, param);
    lemma_sorted_values_exist(sv, param);
    let q = quotient_view(sv, param);
    assert forall|k: int| 0 <= k < q.len() implies (#[trigger] q[k]).len() > 0 by {
        let f = value_is(param, vs[k]);
        assert(vs.contains(vs[k]));
        let i = choose|i: int| 0 <= i < sv.len() && sim_value(#[trigger] sv[i].1, param) == vs[k];
        sv.lemma_filter_contains(f, i);
        assert(sv.filter(f).len() > 0);
    }
    assert forall|k: int, i: int| 0 <= k < q.len() && 0 <= i < q[k].len() implies sim_value((#[trigger] q[k][i]).1, param) == vs[k] by {
        let f = value_is(param, vs[k]);
        sv.lemma_filter_pred(f, i);
    }
    assert forall|i: int| 0 <= i < sv.len() implies vs.contains(sim_value(#[trigger] sv[i].1, param)) by {
        assert(is_value_of(sv, param, sim_value(sv[i].1, param)));
    }
}

/// The distinct values, sorted, exist for every set of simulations.
proof fn lemma_sorted_values_exist(sv: Seq<(usize, SimView)>, param: Seq<char>)
    ensures
        are_sorted_values(sorted_values(sv, param), sv, param),
    decreases sv.len(),
{
    let w = sorted_witness(sv, param);
    assert(are_sorted_values(w, sv, param));
}

/// A strictly sorted sequence of the values of the simulations.
proof fn sorted_witness(sv: Seq<(usize, SimView)>, param: Seq<char>) -> (vs: Seq<ParamView>)
    ensures
        are_sorted_values(vs, sv, param),
    decreases sv.len(),
{
    if sv.len() == 0 {
        let vs = Seq::<ParamView>::empty();
        assert forall|x: ParamView| vs.contains(x) <==> is_value_of(sv, param, x) by {}
        vs
    } else {
        let rest = sv.drop_last();
        let ws = sorted_witness(rest, param);
        let x = sim_value(sv.last().1, param);
        let vs = if ws.contains(x) {
            ws
        } else {
            let pos = first_not_below(ws, x, 0);
            let vs = ws.insert(pos, x);
            assert forall|a: int, b: int| 0 <= a < b < vs.len() implies param_lt(#[trigger] vs[a], #[trigger] vs[b]) by {
                if b < pos {
                    assert(vs[a] == ws[a] && vs[b] == ws[b]);
                } else if a < pos && b == pos {
                    assert(vs[a] == ws[a]);
                } else if a < pos {
                    assert(vs[a] == ws[a] && vs[b] == ws[b - 1]);
                    if pos < ws.len() {
                        lemma_param_le_order(ws[pos], x, x);
                        assert(ws[pos] != x);
                        lemma_param_lt_strict(x, ws[pos], ws[b - 1]);
                        if b - 1 > pos {
                            assert(param_lt(ws[pos], ws[b - 1]));
                        }
                    }
                    lemma_param_lt_strict(ws[a], x, ws[b - 1]);
                } else if a == pos {
                    assert(vs[b] == ws[b - 1]);
                    lemma_param_le_order(ws[pos], x, x);
                    assert(ws[pos] != x);
                    lemma_param_lt_strict(x, ws[pos], ws[b - 1]);
                    if b - 1 > pos {
                        assert(param_lt(ws[pos], ws[b - 1]));
                    }
                } else {
                    assert(vs[a] == ws[a - 1] && vs[b] == ws[b - 1]);
                }
            }
            assert forall|y: ParamView| vs.contains(y) <==> (ws.contains(y) || y == x) by {
                if vs.contains(y) {
                    let w = choose|w: int| 0 <= w < vs.len() && vs[w] == y;
                    if w < pos {
                        assert(ws[w] == y);
                    } else if w > pos {
                        assert(ws[w - 1] == y);
                    }
                }
                if ws.contains(y) {
                    let w = choose|w: int| 0 <= w < ws.len() && ws[w] == y;
                    if w < pos {
                        assert(vs[w] == y);
                    } else {
                        assert(vs[w + 1] == y);
                    }
                }
                if y == x {
                    assert(vs[pos] == y);
                }
            }
            vs
        };
        assert forall|y: ParamView| vs.contains(y) <==> is_value_of(sv, param, y) by {
            if is_value_of(sv, param, y) {
                let w = choose|w: int| 0 <= w < sv.len() && sim_value(#[trigger] sv[w].1, param) == y;
                if w < sv.len() - 1 {
                    assert(rest[w] == sv[w]);
                    assert(is_value_of(rest, param, y));
                }
            }
            if is_value_of(rest, param, y) {
                let w = choose|w: int| 0 <= w < rest.len() && sim_value(#[trigger] rest[w].1, param) == y;
                assert(sv[w] == rest[w]);
            }
            if y == x {
                assert(sim_value(sv[sv.len() - 1].1, param) == y);
            }
        }
        vs
    }
}

/// The first position from `from` at which `ws` is not below `x`.
proof fn first_not_below(ws: Seq<ParamView>, x: ParamView, from: int) -> (pos: int)
    requires
        0 <= from <= ws.len(),
        forall|k: int| 0 <= k < from ==> param_lt(#[trigger] ws[k], x),
    ensures
        from <= pos <= ws.len(),
        forall|k: int| 0 <= k < pos ==> param_lt(#[trigger] ws[k], x),
        pos < ws.len() ==> !param_lt(ws[pos], x),
    decreases ws.len() - from,
{
    if from == ws.len() || !param_lt(ws[from], x) {
        from
    } else {
        first_not_below(ws, x, from + 1)
    }
}

/// Substituting a value at a parameter that the simulation has replaces
/// it: the substituted simulation reads back the value.
pub proof fn lemma_substitution_reads_back(params: YamlView, key: Seq<char>, value: ParamView)
    requires
        path_get(params, split_path(key)) is Some,
    ensures
        apply_substitution(params, seq![(key, value)]) matches Ok(p) && path_get(p, split_path(key)) == Some(
            yaml_of_param(value),
        ),
{
    let s = seq![(key, value)];
    assert(s.drop_last() =~= Seq::<(Seq<char>, ParamView)>::empty());
    assert(apply_substitution(params, s.drop_last()) == Ok::<YamlView, Seq<char>>(params));
    assert(s.last() == (key, value));
    crate::yaml::lemma_path_get_set(params, split_path(key), yaml_of_param(value));
    assert(apply_substitution(params, s) == Ok::<YamlView, Seq<char>>(
        path_set(params, split_path(key), yaml_of_param(value)),
    ));
}

} // verus!
