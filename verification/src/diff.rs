//! The differences between the parameters of two simulations.
use vstd::prelude::*;
use crate::order::{lemma_stable_by_name, sort_by_key, SortKey, str_le};
use crate::param_value::{display_of, ParamValue, ParamView};
use crate::substitutions::{entry_value, ParamMap};
use crate::text::cat3;
use crate::param_value::param_of_yaml;
use crate::sim_params::SimParams;
use crate::sim_set::is_param;
use crate::yaml::{entries_view, YamlValue, YamlView};

verus! {

/// A parameter that is the same in both simulations, or its name and the
/// texts of its two values.
#[derive(Debug, Clone, PartialEq, Eq)]
pub enum ParamDiff {
    Same,
    Diff(String, String, String),
}

/// The mathematical value of a `ParamDiff`.
pub enum ParamDiffView {
    Same,
    Diff(Seq<char>, Seq<char>, Seq<char>),
}

impl View for ParamDiff {
    type V = ParamDiffView;

    open spec fn view(&self) -> ParamDiffView {
        match self {
            ParamDiff::Same => ParamDiffView::Same,
            ParamDiff::Diff(n, a, b) => ParamDiffView::Diff(n@, a@, b@),
        }
    }
}

/// The text of a value that may be missing.
pub open spec fn value_text(v: Option<ParamView>) -> Seq<char> {
    match v {
        None => "Not present"@,
        Some(p) => display_of(p),
    }
}

/// The difference at parameter `name` with the values `v1` and `v2`.
pub open spec fn param_diff(name: Seq<char>, v1: Option<ParamView>, v2: Option<ParamView>) -> ParamDiffView {
    if v1 is Some && v2 is Some && v1 == v2 {
        ParamDiffView::Same
    } else {
        ParamDiffView::Diff(name, value_text(v1), value_text(v2))
    }
}

/// The text of a value that may be missing.
pub fn diff_value_to_string(v: Option<&ParamValue>) -> (r: String)
    ensures
        r@ == value_text(
            match v {
                Some(p) => Some(p@),
                None => None,
            },
        ),
{
    match v {
        None => String::from_str("Not present"),
        Some(val) => val.to_display_string(),
    }
}

/// The difference at parameter `name`.
pub fn get_param_diff(name: &str, v1: Option<&ParamValue>, v2: Option<&ParamValue>) -> (r: ParamDiff)
    ensures
        r@ == param_diff(
            name@,
            match v1 {
                Some(p) => Some(p@),
                None => None,
            },
            match v2 {
                Some(p) => Some(p@),
                None => None,
            },
        ),
{
    let s1 = diff_value_to_string(v1);
    let s2 = diff_value_to_string(v2);
    match (v1, v2) {
        (Some(a), Some(b)) => {
            if a.same(b) {
                ParamDiff::Same
            } else {
                ParamDiff::Diff(String::from_str(name), s1, s2)
            }
        },
        _ => ParamDiff::Diff(String::from_str(name), s1, s2),
    }
}

/// The names of the entries.
pub open spec fn names_of(m: Seq<(Seq<char>, ParamView)>) -> Seq<Seq<char>> {
    Seq::new(m.len(), |i: int| m[i].0)
}

/// The differences of two simulations: one for each parameter of the
/// first, then one for each parameter of the second that the first lacks.
pub open spec fn param_diffs(m1: Seq<(Seq<char>, ParamView)>, m2: Seq<(Seq<char>, ParamView)>) -> Seq<ParamDiffView> {
    Seq::new(m1.len(), |i: int| param_diff(m1[i].0, Some(m1[i].1), entry_value(m2, m1[i].0)))
        + m2.filter(|e: (Seq<char>, ParamView)| !names_of(m1).contains(e.0)).map_values(
        |e: (Seq<char>, ParamView)| param_diff(e.0, None, Some(e.1)),
    )
}

proof fn lemma_entry_value_none(m: Seq<(Seq<char>, ParamView)>, key: Seq<char>)
    requires
        !names_of(m).contains(key),
    ensures
        entry_value(m, key) is None,
    decreases m.len(),
{
    if m.len() > 0 {
        assert(names_of(m)[0] == m[0].0);
        assert(forall|i: int| 0 <= i < m.len() - 1 ==> names_of(m.drop_first())[i] == names_of(m)[i + 1]);
        if names_of(m.drop_first()).contains(key) {
            let i = choose|i: int| 0 <= i < m.len() - 1 && names_of(m.drop_first())[i] == key;
            assert(names_of(m)[i + 1] == key);
        }
        lemma_entry_value_none(m.drop_first(), key);
    }
}

/// Whether `key` names one of the entries.
fn has_name(m: &ParamMap, key: &String) -> (r: bool)
    ensures
        r == names_of(m@).contains(key@),
{
    let ghost names = names_of(m@);
    let mut i: usize = 0;
    while i < m.entries.len()
        invariant
            i <= m.entries@.len(),
            names == names_of(m@),
            forall|k: int| 0 <= k < i ==> names[k] != key@,
        decreases m.entries@.len() - i,
    {
        assert(names[i as int] == m.entries@[i as int].0@);
        if m.entries[i].0 == *key {
            assert(names[i as int] == key@);
            return true;
        }
        i += 1;
    }
    false
}

/// The differences between the parameters `sim1` and `sim2`.
pub fn get_param_diffs(sim1: &ParamMap, sim2: &ParamMap) -> (r: Vec<ParamDiff>)
    ensures
        Seq::new(r@.len(), |i: int| r@[i]@) == param_diffs(sim1@, sim2@),
{
    let ghost m1 = sim1@;
    let ghost m2 = sim2@;
    let ghost f = |e: (Seq<char>, ParamView)| !names_of(m1).contains(e.0);
    let ghost g = |e: (Seq<char>, ParamView)| param_diff(e.0, None, Some(e.1));
    let mut out: Vec<ParamDiff> = Vec::new();
    let mut i: usize = 0;
    while i < sim1.entries.len()
        invariant
            i <= sim1.entries@.len(),
            m1 == sim1@,
            m2 == sim2@,
            out@.len() == i,
            forall|k: int|
                0 <= k < i ==> (#[trigger] out@[k])@ == param_diff(m1[k].0, Some(m1[k].1), entry_value(m2, m1[k].0)),
        decreases sim1.entries@.len() - i,
    {
        let name = &sim1.entries[i].0;
        let v2 = sim2.get(name.as_str());
        let d = get_param_diff(name.as_str(), Some(&sim1.entries[i].1), v2);
        out.push(d);
        i += 1;
    }
    let ghost first = Seq::new(out@.len(), |k: int| out@[k]@);
    let mut j: usize = 0;
    assert(m2.take(0).filter(f) =~= Seq::<(Seq<char>, ParamView)>::empty()) by {
        reveal(Seq::filter);
    }
    while j < sim2.entries.len()
        invariant
            j <= sim2.entries@.len(),
            m1 == sim1@,
            m2 == sim2@,
            f == (|e: (Seq<char>, ParamView)| !names_of(m1).contains(e.0)),
            g == (|e: (Seq<char>, ParamView)| param_diff(e.0, None, Some(e.1))),
            first.len() == m1.len(),
            out@.len() >= first.len(),
            Seq::new(out@.len(), |k: int| out@[k]@) == first + m2.take(j as int).filter(f).map_values(g),
        decreases sim2.entries@.len() - j,
    {
        let name = &sim2.entries[j].0;
        let ghost before = Seq::new(out@.len(), |k: int| out@[k]@);
        assert(m2.take(j + 1).drop_last() =~= m2.take(j as int));
        assert(m2.take(j + 1).last() == m2[j as int]);
        assert(m2[j as int].0 == name@);
        if !has_name(sim1, name) {
            proof {
                lemma_entry_value_none(m1, name@);
            }
            let d = get_param_diff(name.as_str(), None, Some(&sim2.entries[j].1));
            out.push(d);
            assert(m2.take(j + 1).filter(f) == m2.take(j as int).filter(f).push(m2[j as int])) by {
                reveal(Seq::filter);
            }
            assert(Seq::new(out@.len(), |k: int| out@[k]@) =~= before.push(g(m2[j as int])));
            assert(m2.take(j + 1).filter(f).map_values(g) =~= m2.take(j as int).filter(f).map_values(g).push(g(m2[j as int])));
        } else {
            assert(m2.take(j + 1).filter(f) == m2.take(j as int).filter(f)) by {
                reveal(Seq::filter);
            }
        }
        j += 1;
    }
    assert(m2.take(j as int) =~= m2);
    assert(first =~= Seq::new(m1.len(), |k: int| param_diff(m1[k].0, Some(m1[k].1), entry_value(m2, m1[k].0))));
    out
}

/// The name that a difference is sorted by (none for `Same`).
pub open spec fn diff_name(d: ParamDiffView) -> Seq<char> {
    match d {
        ParamDiffView::Same => Seq::empty(),
        ParamDiffView::Diff(n, _, _) => n,
    }
}

impl ParamDiff {
    /// The two lines that show the difference (none for `Same`).
    pub fn show(&self) -> (r: Option<String>)
        ensures
            match self@ {
                ParamDiffView::Same => r is None,
                ParamDiffView::Diff(n, a, b) => r matches Some(s) && s@ == "< "@ + n + ": "@ + a + "\n> "@ + n
                    + ": "@ + b,
            },
    {
        match self {
            ParamDiff::Same => None,
            ParamDiff::Diff(n, a, b) => {
                let l1 = cat3("< ", n.as_str(), ": ");
                let l2 = cat3(l1.as_str(), a.as_str(), "\n> ");
                let l3 = cat3(l2.as_str(), n.as_str(), ": ");
                let r = crate::text::cat(l3.as_str(), b.as_str());
                assert(r@ =~= "< "@ + n@ + ": "@ + a@ + "\n> "@ + n@ + ": "@ + b@);
                Some(r)
            },
        }
    }
}

/// The differences with the name `y`.
pub open spec fn named(y: Seq<char>) -> spec_fn(ParamDiffView) -> bool {
    |d: ParamDiffView| diff_name(d) == y
}

/// The differences sorted by the names of the parameters; differences with
/// the same name keep their order.
pub fn sort_diffs(diffs: Vec<ParamDiff>) -> (r: Vec<ParamDiff>)
    ensures
        r@.len() == diffs@.len(),
        forall|i: int, j: int| 0 <= i < j < r@.len() ==> str_le(diff_name(#[trigger] r@[i]@), diff_name(#[trigger] r@[j]@)),
        Seq::new(r@.len(), |i: int| r@[i]@).to_multiset() == Seq::new(diffs@.len(), |i: int| diffs@[i]@).to_multiset(),
        forall|y: Seq<char>|
            Seq::new(r@.len(), |i: int| r@[i]@).filter(#[trigger] named(y)) == Seq::new(diffs@.len(), |i: int| diffs@[i]@).filter(
                named(y),
            ),
{
    let mut keyed: Vec<(String, ParamDiff)> = Vec::new();
    let mut diffs = diffs;
    let ghost orig = diffs@;
    while diffs.len() > 0
        invariant
            keyed@.len() + diffs@.len() == orig.len(),
            diffs@ == orig.skip(keyed@.len() as int),
            forall|k: int| 0 <= k < keyed@.len() ==> (#[trigger] keyed@[k]).1 == orig[k] && keyed@[k].0@ == diff_name(orig[k]@),
        decreases diffs@.len(),
    {
        let d = diffs.remove(0);
        let key = match &d {
            ParamDiff::Same => String::new(),
            ParamDiff::Diff(n, _, _) => n.clone(),
        };
        let ghost before = keyed@.len();
        assert(d == orig[before as int]);
        keyed.push((key, d));
        assert(diffs@ =~= orig.skip(keyed@.len() as int));
    }
    let ghost kd = keyed@;
    let sorted = sort_by_key(keyed);
    let ghost sk = sorted@;
    let mut out: Vec<ParamDiff> = Vec::new();
    let mut rest = sorted;
    while rest.len() > 0
        invariant
            out@.len() + rest@.len() == sk.len(),
            rest@ == sk.skip(out@.len() as int),
            forall|k: int| 0 <= k < out@.len() ==> (#[trigger] out@[k]) == sk[k].1,
        decreases rest@.len(),
    {
        let (_, d) = rest.remove(0);
        assert(rest@ =~= sk.skip(out@.len() + 1 as int));
        out.push(d);
    }
    proof {
        broadcast use vstd::seq_lib::group_to_multiset_ensures;

        let f = |p: (String, ParamDiff)| p.1@;
        crate::order::lemma_map_multiset(sk, kd, f);
        assert(Seq::new(out@.len(), |i: int| out@[i]@) =~= sk.map_values(f));
        assert(Seq::new(orig.len(), |i: int| orig[i]@) =~= kd.map_values(f));
        assert forall|i: int| 0 <= i < sk.len() implies (#[trigger] sk[i]).0@ == diff_name(sk[i].1@) by {
            assert(sk.contains(sk[i]));
            assert(sk.to_multiset().count(sk[i]) > 0);
            assert(kd.to_multiset().count(sk[i]) > 0);
            assert(kd.contains(sk[i]));
            let k = choose|k: int| 0 <= k < kd.len() && kd[k] == sk[i];
            assert(kd[k].0@ == diff_name(orig[k]@));
        }
        assert forall|i: int, j: int| 0 <= i < j < out@.len() implies str_le(
            diff_name(#[trigger] out@[i]@),
            diff_name(#[trigger] out@[j]@),
        ) by {
            assert(sk[i].key_le(sk[j]));
            assert(sk[i].0@ == diff_name(sk[i].1@));
            assert(sk[j].0@ == diff_name(sk[j].1@));
        }
        let name = |d: ParamDiffView| diff_name(d);
        assert forall|k: int| 0 <= k < kd.len() implies name(f(#[trigger] kd[k])) == kd[k].0@ by {}
        assert forall|y: Seq<char>| Seq::new(out@.len(), |i: int| out@[i]@).filter(#[trigger] named(y)) == Seq::new(
            orig.len(),
            |i: int| orig[i]@,
        ).filter(named(y)) by {
            lemma_stable_by_name(kd, sk, f, name, y);
            assert(crate::order::name_is(name, y) =~= named(y));
        }
    }
    out
}

/// The top-level parameters with a name and a single value, in order.
pub open spec fn flat_entries(m: Seq<(YamlView, YamlView)>) -> Seq<(Seq<char>, ParamView)>
    decreases m.len(),
{
    if m.len() == 0 {
        Seq::empty()
    } else {
        let rest = flat_entries(m.drop_last());
        match m.last().0 {
            YamlView::Str(k) => if is_param(m.last().1) {
                rest.push((k, param_of_yaml(m.last().1)->Ok_0))
            } else {
                rest
            },
            _ => rest,
        }
    }
}

/// The top-level parameters of a simulation that have a name and a single value.
pub fn flat_params(sim: &SimParams) -> (r: ParamMap)
    ensures
        r@ == flat_entries(entries_view(sim.params@)),
{
    let ghost m = entries_view(sim.params@);
    let mut entries: Vec<(String, ParamValue)> = Vec::new();
    let mut i: usize = 0;
    while i < sim.params.len()
        invariant
            i <= sim.params@.len(),
            m == entries_view(sim.params@),
            crate::substitutions::param_entries_view(entries@) == flat_entries(m.take(i as int)),
        decreases sim.params@.len() - i,
    {
        assert(m.take(i + 1).drop_last() =~= m.take(i as int));
        assert(m.take(i + 1).last() == m[i as int]);
        let ghost before = crate::substitutions::param_entries_view(entries@);
        match &sim.params[i].0 {
            YamlValue::Str(k) => {
                let v = &sim.params[i].1;
                let single = match v {
                    YamlValue::Bool(_) | YamlValue::Int(_) | YamlValue::Float(_, _) | YamlValue::Str(_) => true,
                    _ => false,
                };
                if single {
                    match ParamValue::new(v) {
                        Ok(p) => {
                            entries.push((k.clone(), p));
                            assert(crate::substitutions::param_entries_view(entries@) =~= before.push((k@, p@)));
                        },
                        Err(_) => {},
                    }
                }
            },
            _ => {},
        }
        i += 1;
    }
    assert(m.take(i as int) =~= m);
    ParamMap { entries }
}

/// The differences between two simulations, in the order of the parameter
/// names (differences with the same name in the order they are found).
pub fn sorted_sim_diffs(sim1: &SimParams, sim2: &SimParams) -> (r: Vec<ParamDiff>)
    ensures
        forall|i: int, j: int| 0 <= i < j < r@.len() ==> str_le(diff_name(#[trigger] r@[i]@), diff_name(#[trigger] r@[j]@)),
        Seq::new(r@.len(), |i: int| r@[i]@).to_multiset() == param_diffs(
            flat_entries(entries_view(sim1.params@)),
            flat_entries(entries_view(sim2.params@)),
        ).to_multiset(),
        forall|y: Seq<char>|
            Seq::new(r@.len(), |i: int| r@[i]@).filter(#[trigger] named(y)) == param_diffs(
                flat_entries(entries_view(sim1.params@)),
                flat_entries(entries_view(sim2.params@)),
            ).filter(named(y)),
{
    let p1 = flat_params(sim1);
    let p2 = flat_params(sim2);
    let diffs = get_param_diffs(&p1, &p2);
    sort_diffs(diffs)
}

} // verus!
