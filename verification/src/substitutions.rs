//! Turning the substitutions of a simulation-set file into the parameter
//! values of each simulation: side by side ("normal") or as a cartesian
//! product over groups of parameters.
use vstd::prelude::*;
use itertools::Itertools;
use vstd::relations::sorted_by;
use crate::order::{lemma_map_multiset, lemma_sorted_unique, lemma_strs_leq_total_ordering, sort_by_key, strs_leq, SortKey};
use crate::param_value::{convertible, param_of_yaml, ParamError, ParamValue, ParamView};
use crate::yaml::{YamlValue, YamlView};

verus! {

/// Parameter names with their values (what a `HashMap<String, ParamValue>` holds).
#[derive(Debug, Clone, PartialEq)]
pub struct ParamMap {
    pub entries: Vec<(String, ParamValue)>,
}

/// The names and values as text and values.
pub open spec fn param_entries_view(entries: Seq<(String, ParamValue)>) -> Seq<(Seq<char>, ParamView)> {
    Seq::new(entries.len(), |i: int| (entries[i].0@, entries[i].1@))
}

impl View for ParamMap {
    type V = Seq<(Seq<char>, ParamView)>;

    open spec fn view(&self) -> Seq<(Seq<char>, ParamView)> {
        param_entries_view(self.entries@)
    }
}

/// The value of the first entry named `key`.
pub open spec fn entry_value(m: Seq<(Seq<char>, ParamView)>, key: Seq<char>) -> Option<ParamView>
    decreases m.len(),
{
    if m.len() == 0 {
        None
    } else if m[0].0 == key {
        Some(m[0].1)
    } else {
        entry_value(m.drop_first(), key)
    }
}

impl ParamMap {
    /// The value of parameter `key`.
    pub fn get(&self, key: &str) -> (r: Option<&ParamValue>)
        ensures
            r matches Some(v) ==> entry_value(self@, key@) == Some(v@),
            r is None ==> entry_value(self@, key@) is None,
    {
        let ghost m = self@;
        let k = String::from_str(key);
        let mut i: usize = 0;
        assert(m.skip(0) =~= m);
        while i < self.entries.len()
            invariant
                i <= self.entries@.len(),
                m == self@,
                k@ == key@,
                entry_value(m, key@) == entry_value(m.skip(i as int), key@),
            decreases self.entries@.len() - i,
        {
            assert(m.skip(i as int).drop_first() =~= m.skip(i + 1));
            assert(m.skip(i as int)[0] == m[i as int]);
            if self.entries[i].0 == k {
                return Some(&self.entries[i].1);
            }
            i += 1;
        }
        None
    }

    /// A copy of the map.
    pub fn duplicate(&self) -> (r: ParamMap)
        ensures
            r@ == self@,
    {
        let mut entries: Vec<(String, ParamValue)> = Vec::new();
        let mut i: usize = 0;
        while i < self.entries.len()
            invariant
                i <= self.entries@.len(),
                entries@.len() == i,
                forall|k: int|
                    0 <= k < i ==> (#[trigger] entries@[k]).0@ == self.entries@[k].0@ && entries@[k].1@
                        == self.entries@[k].1@,
            decreases self.entries@.len() - i,
        {
            entries.push((self.entries[i].0.clone(), self.entries[i].1.duplicate()));
            i += 1;
        }
        let r = ParamMap { entries };
        assert(r@ =~= self@);
        r
    }

    /// The number of parameters.
    pub fn len(&self) -> (r: usize)
        ensures
            r == self@.len(),
    {
        self.entries.len()
    }
}

/// Why the substitutions cannot be turned into simulations.
#[derive(Debug, Clone, PartialEq)]
pub enum SubstitutionError {
    /// Lists of values (of one group) have different lengths.
    DifferentLengths,
    /// A parameter is not listed in any parameter group.
    KeyNotInGroups(String),
    /// A value that is not a parameter value.
    Param(ParamError),
    /// More combinations than can be counted.
    TooManyCombinations,
}

/// The mathematical value of a `SubstitutionError`.
pub enum SubstitutionErrorView {
    DifferentLengths,
    KeyNotInGroups(Seq<char>),
    Param(ParamError),
    TooManyCombinations,
}

impl View for SubstitutionError {
    type V = SubstitutionErrorView;

    open spec fn view(&self) -> SubstitutionErrorView {
        match self {
            SubstitutionError::DifferentLengths => SubstitutionErrorView::DifferentLengths,
            SubstitutionError::KeyNotInGroups(k) => SubstitutionErrorView::KeyNotInGroups(k@),
            SubstitutionError::Param(e) => SubstitutionErrorView::Param(*e),
            SubstitutionError::TooManyCombinations => SubstitutionErrorView::TooManyCombinations,
        }
    }
}

/// The view of the substitutions (names and YAML values).
pub open spec fn subst_view(s: Seq<(String, YamlValue)>) -> Seq<(Seq<char>, YamlView)> {
    Seq::new(s.len(), |i: int| (s[i].0@, s[i].1@))
}

/// Entry `j` takes part (all entries when there is no group).
pub open spec fn selected(sv: Seq<(Seq<char>, YamlView)>, group: Option<Seq<Seq<char>>>, j: int) -> bool {
    match group {
        None => true,
        Some(g) => g.contains(sv[j].0),
    }
}

/// A list of values.
pub open spec fn is_list(v: YamlView) -> bool {
    v is Sequence
}

/// The length of a list of values.
pub open spec fn list_len(v: YamlView) -> nat {
    v->Sequence_0.len()
}

/// Two of the (selected) values are lists of different lengths.
pub open spec fn lengths_differ(sv: Seq<(Seq<char>, YamlView)>, group: Option<Seq<Seq<char>>>) -> bool {
    exists|i: int, j: int|
        0 <= i < sv.len() && 0 <= j < sv.len() && selected(sv, group, i) && selected(sv, group, j)
            && is_list(#[trigger] sv[i].1) && is_list(#[trigger] sv[j].1) && list_len(sv[i].1)
            != list_len(sv[j].1)
}

/// Some (selected) value is a list.
pub open spec fn has_list(sv: Seq<(Seq<char>, YamlView)>, group: Option<Seq<Seq<char>>>) -> bool {
    exists|j: int| 0 <= j < sv.len() && selected(sv, group, j) && is_list(#[trigger] sv[j].1)
}

/// The length of the (selected) lists, or 1 when there is no list.
pub open spec fn common_length(sv: Seq<(Seq<char>, YamlView)>, group: Option<Seq<Seq<char>>>) -> nat {
    if has_list(sv, group) {
        let j = choose|j: int| 0 <= j < sv.len() && selected(sv, group, j) && is_list(#[trigger] sv[j].1);
        list_len(sv[j].1)
    } else {
        1
    }
}

/// The value that simulation `i` takes from `v`: item `i` of a list, or `v` itself.
pub open spec fn element_at(v: YamlView, i: int) -> YamlView {
    match v {
        YamlView::Sequence(s) => s[i],
        _ => v,
    }
}

/// The string sequence `g` contains `key`.
pub fn group_contains(group: &Vec<String>, key: &String) -> (r: bool)
    ensures
        r == group.deep_view().contains(key@),
{
    let mut i: usize = 0;
    while i < group.len()
        invariant
            i <= group.len(),
            forall|j: int| 0 <= j < i ==> group.deep_view()[j] != key@,
        decreases group.len() - i,
    {
        if group[i] == *key {
            assert(group.deep_view()[i as int] == key@);
            return true;
        }
        i += 1;
    }
    false
}

/// The common length of the lists among the selected substitutions (all of
/// them when `group` is `None`, else those named in `group`), or 1 when none is a list.
pub fn count_length_or_singular(subs: &Vec<(String, YamlValue)>, group: Option<&Vec<String>>) -> (r: Result<usize, SubstitutionError>)
    ensures
        r is Err <==> lengths_differ(
            subst_view(subs@),
            match group {
                Some(g) => Some(g.deep_view()),
                None => None,
            },
        ),
        r matches Err(e) ==> e == SubstitutionError::DifferentLengths,
        r matches Ok(l) ==> l == common_length(
            subst_view(subs@),
            match group {
                Some(g) => Some(g.deep_view()),
                None => None,
            },
        ),
{
    let ghost sv = subst_view(subs@);
    let ghost g = match group {
        Some(g) => Some(g.deep_view()),
        None => None,
    };
    let mut length: Option<usize> = None;
    let ghost mut first: int = 0;
    let mut j: usize = 0;
    while j < subs.len()
        invariant
            j <= subs.len(),
            sv == subst_view(subs@),
            g == match group {
                Some(g) => Some(g.deep_view()),
                None => None::<Seq<Seq<char>>>,
            },
            length is None ==> forall|i: int|
                0 <= i < j && selected(sv, g, i) ==> !is_list(#[trigger] sv[i].1),
            length matches Some(l) ==> 0 <= first < j && selected(sv, g, first) && is_list(sv[first].1)
                && list_len(sv[first].1) == l,
            length matches Some(l) ==> forall|i: int|
                0 <= i < j && selected(sv, g, i) && is_list(#[trigger] sv[i].1) ==> list_len(sv[i].1)
                    == l,
        decreases subs.len() - j,
    {
        let sel = match group {
            None => true,
            Some(gr) => group_contains(gr, &subs[j].0),
        };
        assert(sel == selected(sv, g, j as int));
        if sel {
            if let YamlValue::Sequence(s) = &subs[j].1 {
                assert(is_list(sv[j as int].1) && list_len(sv[j as int].1) == s@.len());
                match length {
                    Some(l) => {
                        if l != s.len() {
                            assert(is_list(#[trigger] sv[first].1) && is_list(#[trigger] sv[j as int].1));
                            return Err(SubstitutionError::DifferentLengths);
                        }
                    },
                    None => {
                        length = Some(s.len());
                        proof {
                            first = j as int;
                        }
                    },
                }
            }
        }
        j += 1;
    }
    match length {
        Some(l) => {
            assert(has_list(sv, g)) by {
                assert(is_list(sv[first].1));
            }
            Ok(l)
        },
        None => Ok(1),
    }
}

/// Names of the special parameters, which may be given in substitutions
/// without appearing in the parameter files.
pub open spec fn is_special(k: Seq<char>) -> bool {
    k == "num_cores"@ || k == "run_params"@ || k == "additional_commands"@ || k == "wall_time"@ || k
        == "sim_type"@ || k == "sim_label"@
}

/// Whether `k` is one of the special parameters.
pub fn is_special_param(k: &str) -> (r: bool)
    ensures
        r == is_special(k@),
{
    let k = String::from_str(k);
    let names = [
        String::from_str("num_cores"),
        String::from_str("run_params"),
        String::from_str("additional_commands"),
        String::from_str("wall_time"),
        String::from_str("sim_type"),
        String::from_str("sim_label"),
    ];
    proof {
        reveal_strlit("num_cores");
        reveal_strlit("run_params");
        reveal_strlit("additional_commands");
        reveal_strlit("wall_time");
        reveal_strlit("sim_type");
        reveal_strlit("sim_label");
    }
    k == names[0] || k == names[1] || k == names[2] || k == names[3] || k == names[4] || k == names[5]
}

} // verus!

verus! {

/// The groups that the parameters are combined in, before sorting: the given
/// groups, or one group per parameter.
pub open spec fn group_base(sv: Seq<(Seq<char>, YamlView)>, grouped: Option<Seq<Seq<Seq<char>>>>) -> Seq<Seq<Seq<char>>> {
    match grouped {
        Some(g) => g,
        None => Seq::new(sv.len(), |j: int| seq![sv[j].0]),
    }
}

/// The parameter groups in ascending order (of `Vec<String>`).
pub open spec fn parameter_groups(sv: Seq<(Seq<char>, YamlView)>, grouped: Option<Seq<Seq<Seq<char>>>>) -> Seq<Seq<Seq<char>>> {
    group_base(sv, grouped).sort_by(strs_leq())
}

/// The groups of names as text.
pub open spec fn groups_view(grouped: Option<Vec<Vec<String>>>) -> Option<Seq<Seq<Seq<char>>>> {
    match grouped {
        Some(g) => Some(g.deep_view()),
        None => None,
    }
}

/// The parameter groups: the given ones, or one per parameter; sorted.
pub fn get_parameter_groups(subs: &Vec<(String, YamlValue)>, grouped: Option<Vec<Vec<String>>>) -> (r: Vec<Vec<String>>)
    ensures
        r.deep_view() == parameter_groups(subst_view(subs@), groups_view(grouped)),
{
    let ghost gv = groups_view(grouped);
    let base: Vec<Vec<String>> = match grouped {
        Some(g) => g,
        None => {
            let mut b: Vec<Vec<String>> = Vec::new();
            let mut j: usize = 0;
            while j < subs.len()
                invariant
                    j <= subs.len(),
                    b@.len() == j,
                    forall|i: int| 0 <= i < j ==> (#[trigger] b@[i]).deep_view() == seq![subs@[i].0@],
                decreases subs.len() - j,
            {
                let mut one: Vec<String> = Vec::new();
                one.push(subs[j].0.clone());
                assert(one.deep_view() =~= seq![subs@[j as int].0@]);
                b.push(one);
                j += 1;
            }
            b
        },
    };
    let ghost base_dv = base.deep_view();
    assert(base_dv =~= group_base(subst_view(subs@), gv));
    let r = sort_by_key(base);
    proof {
        let f = |v: Vec<String>| v.deep_view();
        lemma_map_multiset(r@, base@, f);
        assert(r.deep_view() =~= r@.map_values(f));
        assert(base_dv =~= base@.map_values(f));
        lemma_strs_leq_total_ordering();
        assert(sorted_by(r.deep_view(), strs_leq())) by {
            assert forall|i: int, j: int| 0 <= i < j < r.deep_view().len() implies #[trigger] strs_leq()(
                r.deep_view()[i],
                r.deep_view()[j],
            ) by {
                assert(r@[i].key_le(r@[j]));
            }
        }
        base_dv.lemma_sort_by_ensures(strs_leq());
        lemma_sorted_unique(r.deep_view(), base_dv.sort_by(strs_leq()), strs_leq());
    }
    r
}

} // verus!

verus! {

proof fn lemma_common_length(sv: Seq<(Seq<char>, YamlView)>, group: Option<Seq<Seq<char>>>, j: int)
    requires
        !lengths_differ(sv, group),
        0 <= j < sv.len(),
        selected(sv, group, j),
        is_list(sv[j].1),
    ensures
        list_len(sv[j].1) == common_length(sv, group),
{
    assert(has_list(sv, group));
    let k = choose|k: int| 0 <= k < sv.len() && selected(sv, group, k) && is_list(#[trigger] sv[k].1);
    assert(is_list(sv[k].1) && is_list(sv[j].1));
}

/// The parameter value that simulation `i` takes from entry `j`.
pub open spec fn normal_entry(sv: Seq<(Seq<char>, YamlView)>, i: int, j: int) -> Result<ParamView, ParamError> {
    param_of_yaml(element_at(sv[j].1, i))
}

/// The parameters of simulation `i` (when every entry converts).
pub open spec fn normal_row(sv: Seq<(Seq<char>, YamlView)>, i: int) -> Seq<(Seq<char>, ParamView)> {
    Seq::new(sv.len(), |j: int| (sv[j].0, normal_entry(sv, i, j)->Ok_0))
}

/// No entry that a simulation reads is `Null` or a mapping.
pub open spec fn normal_convertible(sv: Seq<(Seq<char>, YamlView)>) -> bool {
    !lengths_differ(sv, None) ==> forall|i: int, j: int|
        0 <= i < common_length(sv, None) && 0 <= j < sv.len() ==> convertible(
            #[trigger] element_at(sv[j].1, i),
        )
}

/// Simulation `i` takes item `i` of every list (all lists have the same
/// length; a single value is taken by every simulation).
pub fn get_substitutions_normal(subs: &Vec<(String, YamlValue)>) -> (r: Result<Vec<ParamMap>, SubstitutionError>)
    requires
        normal_convertible(subst_view(subs@)),
    ensures
        lengths_differ(subst_view(subs@), None) <==> (r matches Err(e) && e is DifferentLengths),
        !lengths_differ(subst_view(subs@), None) ==> {
            let sv = subst_view(subs@);
            let l = common_length(sv, None);
            &&& (r is Ok <==> forall|i: int, j: int|
                0 <= i < l && 0 <= j < sv.len() ==> (#[trigger] normal_entry(sv, i, j)) is Ok)
            &&& (r matches Ok(maps) ==> maps@.len() == l && forall|i: int|
                0 <= i < l ==> (#[trigger] maps@[i])@ == normal_row(sv, i))
            &&& (r matches Err(e) ==> e matches SubstitutionError::Param(pe) && exists|i: int, j: int|
                0 <= i < l && 0 <= j < sv.len() && #[trigger] normal_entry(sv, i, j) == Err::<
                    ParamView,
                    ParamError,
                >(pe))
        },
{
    let ghost sv = subst_view(subs@);
    let length = match count_length_or_singular(subs, None) {
        Ok(l) => l,
        Err(e) => {
            return Err(e);
        },
    };
    let mut result: Vec<ParamMap> = Vec::new();
    let mut i: usize = 0;
    while i < length
        invariant
            i <= length,
            sv == subst_view(subs@),
            !lengths_differ(sv, None),
            length == common_length(sv, None),
            normal_convertible(sv),
            result@.len() == i,
            forall|a: int, j: int|
                0 <= a < i && 0 <= j < sv.len() ==> (#[trigger] normal_entry(sv, a, j)) is Ok,
            forall|a: int| 0 <= a < i ==> (#[trigger] result@[a])@ == normal_row(sv, a),
        decreases length - i,
    {
        let mut row: Vec<(String, ParamValue)> = Vec::new();
        let mut j: usize = 0;
        while j < subs.len()
            invariant
                i < length,
                j <= subs.len(),
                sv == subst_view(subs@),
                !lengths_differ(sv, None),
                length == common_length(sv, None),
                normal_convertible(sv),
                row@.len() == j,
                forall|b: int| 0 <= b < j ==> (#[trigger] normal_entry(sv, i as int, b)) is Ok,
                forall|b: int|
                    0 <= b < j ==> (#[trigger] row@[b]).0@ == sv[b].0 && row@[b].1@ == normal_entry(
                        sv,
                        i as int,
                        b,
                    )->Ok_0,
            decreases subs.len() - j,
        {
            let value: &YamlValue = match &subs[j].1 {
                YamlValue::Sequence(s) => {
                    proof {
                        lemma_common_length(sv, None, j as int);
                    }
                    &s[i]
                },
                v => v,
            };
            assert(value@ == element_at(sv[j as int].1, i as int));
            assert(convertible(element_at(sv[j as int].1, i as int)));
            match ParamValue::new(value) {
                Ok(p) => {
                    row.push((subs[j].0.clone(), p));
                },
                Err(e) => {
                    assert(normal_entry(sv, i as int, j as int) == Err::<ParamView, ParamError>(e));
                    return Err(SubstitutionError::Param(e));
                },
            }
            j += 1;
        }
        let m = ParamMap { entries: row };
        assert(m@ =~= normal_row(sv, i as int));
        result.push(m);
        i += 1;
    }
    Ok(result)
}

} // verus!

verus! {

/// The product of the lengths.
pub open spec fn product(ls: Seq<usize>) -> nat
    decreases ls.len(),
{
    if ls.len() == 0 {
        1
    } else {
        (ls[0] as nat) * product(ls.drop_first())
    }
}

/// All index combinations `c` with `c[j] < ls[j]`, in lexicographic order
/// (the last index changes fastest): combination `k` holds the digits of `k`
/// in the mixed radix `ls`.
pub open spec fn cartesian(ls: Seq<usize>) -> Seq<Seq<usize>> {
    Seq::new(
        product(ls),
        |k: int|
            Seq::new(
                ls.len(),
                |j: int| ((k / (product(ls.skip(j + 1)) as int)) % (ls[j] as int)) as usize,
            ),
    )
}

/// `itertools::Itertools::multi_cartesian_product` over the ranges `0..l` for
/// each `l` in `lengths`, collected: its documentation gives the lexicographic
/// order and the single empty combination when there are no ranges.
#[verifier::external_body]
fn multi_product(lengths: &Vec<usize>) -> (r: Vec<Vec<usize>>)
    requires
        product(lengths@) <= usize::MAX,
    ensures
        r.deep_view() == cartesian(lengths@),
{
    lengths.iter().map(|l| 0..*l).multi_cartesian_product().collect()
}

proof fn lemma_product_positive(ls: Seq<usize>)
    requires
        forall|j: int| 0 <= j < ls.len() ==> ls[j] > 0,
    ensures
        product(ls) >= 1,
        forall|i: int| 0 <= i <= ls.len() ==> product(#[trigger] ls.skip(i)) <= product(ls),
    decreases ls.len(),
{
    if ls.len() > 0 {
        lemma_product_positive(ls.drop_first());
        assert forall|i: int| 0 <= i <= ls.len() implies product(#[trigger] ls.skip(i)) <= product(ls) by {
            if i == 0 {
                assert(ls.skip(0) =~= ls);
            } else {
                assert(ls.drop_first().skip(i - 1) =~= ls.skip(i));
                assert(product(ls) == (ls[0] as nat) * product(ls.drop_first()));
                assert((ls[0] as nat) * product(ls.drop_first()) >= product(ls.drop_first())) by (nonlinear_arith)
                    requires
                        ls[0] >= 1,
                ;
            }
        }
    }
}

proof fn lemma_product_zero(ls: Seq<usize>, j: int)
    requires
        0 <= j < ls.len(),
        ls[j] == 0,
    ensures
        product(ls) == 0,
    decreases ls.len(),
{
    if j > 0 {
        lemma_product_zero(ls.drop_first(), j - 1);
        assert((ls[0] as nat) * product(ls.drop_first()) == 0) by (nonlinear_arith)
            requires
                product(ls.drop_first()) == 0,
        ;
    }
}

proof fn lemma_cartesian_bound(ls: Seq<usize>, k: int, j: int)
    requires
        0 <= k < product(ls),
        0 <= j < ls.len(),
    ensures
        cartesian(ls)[k].len() == ls.len(),
        (cartesian(ls)[k][j] as int) < ls[j] as int,
{
    if ls[j] == 0 {
        lemma_product_zero(ls, j);
    }
    vstd::arithmetic::div_mod::lemma_mod_bound(k / (product(ls.skip(j + 1)) as int), ls[j] as int);
}

/// Product of the lengths, when it fits a `usize`.
fn checked_product(ls: &Vec<usize>) -> (r: Option<usize>)
    ensures
        r matches Some(p) ==> p == product(ls@),
        r is None <==> product(ls@) > usize::MAX,
{
    let mut j: usize = 0;
    while j < ls.len()
        invariant
            j <= ls.len(),
            forall|i: int| 0 <= i < j ==> ls@[i] > 0,
        decreases ls.len() - j,
    {
        if ls[j] == 0 {
            proof {
                lemma_product_zero(ls@, j as int);
            }
            return Some(0);
        }
        j += 1;
    }
    proof {
        lemma_product_positive(ls@);
    }
    let mut acc: usize = 1;
    let mut i: usize = ls.len();
    assert(ls@.skip(ls@.len() as int) =~= Seq::<usize>::empty());
    while i > 0
        invariant
            i <= ls.len(),
            acc == product(ls@.skip(i as int)),
            forall|a: int| 0 <= a < ls@.len() ==> ls@[a] > 0,
            forall|a: int| 0 <= a <= ls@.len() ==> product(#[trigger] ls@.skip(a)) <= product(ls@),
        decreases i,
    {
        let l = ls[i - 1];
        assert(ls@.skip(i - 1).drop_first() =~= ls@.skip(i as int));
        assert(ls@.skip(i - 1)[0] == l);
        match acc.checked_mul(l) {
            Some(p) => {
                acc = p;
            },
            None => {
                assert(product(ls@.skip(i - 1)) == (l as nat) * (acc as nat));
                assert(product(ls@.skip(i - 1)) <= product(ls@));
                return None;
            },
        }
        i -= 1;
    }
    assert(ls@.skip(0) =~= ls@);
    Some(acc)
}

} // verus!

verus! {

/// The first group that names `k`.
pub open spec fn group_index(pg: Seq<Seq<Seq<char>>>, k: Seq<char>) -> Option<int>
    decreases pg.len(),
{
    if pg.len() == 0 {
        None
    } else if pg[0].contains(k) {
        Some(0)
    } else {
        match group_index(pg.drop_first(), k) {
            Some(i) => Some(i + 1),
            None => None,
        }
    }
}

proof fn lemma_group_index(pg: Seq<Seq<Seq<char>>>, k: Seq<char>)
    ensures
        group_index(pg, k) matches Some(g) ==> 0 <= g < pg.len() && pg[g].contains(k) && forall|h: int|
            0 <= h < g ==> !(#[trigger] pg[h]).contains(k),
        group_index(pg, k) is None ==> forall|h: int| 0 <= h < pg.len() ==> !(#[trigger] pg[h]).contains(k),
    decreases pg.len(),
{
    if pg.len() > 0 {
        lemma_group_index(pg.drop_first(), k);
        assert forall|h: int| 1 <= h < pg.len() implies pg[h] == pg.drop_first()[h - 1] by {}
    }
}

/// The common length of the lists of each group.
pub open spec fn group_lengths(sv: Seq<(Seq<char>, YamlView)>, pg: Seq<Seq<Seq<char>>>) -> Seq<usize> {
    Seq::new(pg.len(), |g: int| common_length(sv, Some(pg[g])) as usize)
}

/// The lists of some group have different lengths.
pub open spec fn some_group_differs(sv: Seq<(Seq<char>, YamlView)>, pg: Seq<Seq<Seq<char>>>) -> bool {
    exists|g: int| 0 <= g < pg.len() && lengths_differ(sv, Some(#[trigger] pg[g]))
}

/// What the simulation of index combination `combo` takes from entry `j`.
pub open spec fn cartesian_entry(sv: Seq<(Seq<char>, YamlView)>, pg: Seq<Seq<Seq<char>>>, combo: Seq<usize>, j: int) -> Result<ParamView, SubstitutionErrorView> {
    match group_index(pg, sv[j].0) {
        None => Err(SubstitutionErrorView::KeyNotInGroups(sv[j].0)),
        Some(g) => match param_of_yaml(element_at(sv[j].1, combo[g] as int)) {
            Ok(p) => Ok(p),
            Err(e) => Err(SubstitutionErrorView::Param(e)),
        },
    }
}

/// Every entry converts for the combination `combo`.
pub open spec fn combination_ok(sv: Seq<(Seq<char>, YamlView)>, pg: Seq<Seq<Seq<char>>>, combo: Seq<usize>) -> bool {
    forall|j: int| 0 <= j < sv.len() ==> (#[trigger] cartesian_entry(sv, pg, combo, j)) is Ok
}

/// The parameters of the simulation of index combination `combo`.
pub open spec fn cartesian_row(sv: Seq<(Seq<char>, YamlView)>, pg: Seq<Seq<Seq<char>>>, combo: Seq<usize>) -> Seq<(Seq<char>, ParamView)> {
    Seq::new(sv.len(), |j: int| (sv[j].0, cartesian_entry(sv, pg, combo, j)->Ok_0))
}

/// No entry that a simulation reads is `Null` or a mapping.
pub open spec fn cartesian_convertible(sv: Seq<(Seq<char>, YamlView)>, pg: Seq<Seq<Seq<char>>>) -> bool {
    let ls = group_lengths(sv, pg);
    !some_group_differs(sv, pg) && product(ls) <= usize::MAX ==> forall|c: int, j: int|
        0 <= c < product(ls) && 0 <= j < sv.len() && group_index(pg, sv[j].0) is Some ==> convertible(
            #[trigger] element_at(sv[j].1, cartesian(ls)[c][group_index(pg, sv[j].0)->Some_0] as int),
        )
}

/// One simulation for each combination of the values of the parameter groups:
/// the parameters of one group take their values side by side, the groups
/// vary independently, in the order of the sorted groups.
pub fn get_substitutions_cartesian(subs: &Vec<(String, YamlValue)>, grouped_params: Option<Vec<Vec<String>>>) -> (r: Result<Vec<ParamMap>, SubstitutionError>)
    requires
        cartesian_convertible(subst_view(subs@), parameter_groups(subst_view(subs@), groups_view(grouped_params))),
    ensures
        ({
            let sv = subst_view(subs@);
            let pg = parameter_groups(sv, groups_view(grouped_params));
            let ls = group_lengths(sv, pg);
            let combos = cartesian(ls);
            &&& some_group_differs(sv, pg) <==> (r matches Err(e) && e is DifferentLengths)
            &&& !some_group_differs(sv, pg) ==> (product(ls) > usize::MAX <==> (r matches Err(e)
                && e is TooManyCombinations))
            &&& !some_group_differs(sv, pg) && product(ls) <= usize::MAX ==> {
                &&& (r is Ok <==> forall|c: int|
                    0 <= c < combos.len() ==> combination_ok(sv, pg, #[trigger] combos[c]))
                &&& (r matches Ok(maps) ==> maps@.len() == combos.len() && forall|c: int|
                    0 <= c < combos.len() ==> (#[trigger] maps@[c])@ == cartesian_row(
                        sv,
                        pg,
                        combos[c],
                    ))
                &&& (r matches Err(e) ==> exists|c: int, j: int|
                    0 <= c < combos.len() && 0 <= j < sv.len() && #[trigger] cartesian_entry(
                        sv,
                        pg,
                        combos[c],
                        j,
                    ) == Err::<ParamView, SubstitutionErrorView>(e@) && forall|c2: int|
                        0 <= c2 < c ==> combination_ok(sv, pg, #[trigger] combos[c2]))
            }
        }),
{
    let ghost sv = subst_view(subs@);
    let ghost gv = groups_view(grouped_params);
    let groups = get_parameter_groups(subs, grouped_params);
    let ghost pg = groups.deep_view();
    assert(pg == parameter_groups(sv, gv));
    let mut lengths: Vec<usize> = Vec::new();
    let mut g: usize = 0;
    while g < groups.len()
        invariant
            g <= groups.len(),
            pg == groups.deep_view(),
            pg == parameter_groups(sv, groups_view(grouped_params)),
            sv == subst_view(subs@),
            lengths@.len() == g,
            forall|h: int| 0 <= h < g ==> !lengths_differ(sv, Some(#[trigger] pg[h])),
            forall|h: int| 0 <= h < g ==> lengths@[h] == group_lengths(sv, pg)[h],
        decreases groups.len() - g,
    {
        match count_length_or_singular(subs, Some(&groups[g])) {
            Ok(l) => {
                lengths.push(l);
            },
            Err(e) => {
                assert(lengths_differ(sv, Some(pg[g as int])));
                assert(some_group_differs(sv, pg));
                return Err(e);
            },
        }
        g += 1;
    }
    assert(lengths@ =~= group_lengths(sv, pg));
    let ghost ls = lengths@;
    if checked_product(&lengths).is_none() {
        return Err(SubstitutionError::TooManyCombinations);
    }
    let combos = multi_product(&lengths);
    let ghost cs = combos.deep_view();
    assert(combos@.len() == cs.len());
    let mut result: Vec<ParamMap> = Vec::new();
    let mut c: usize = 0;
    while c < combos.len()
        invariant
            c <= combos.len(),
            pg == groups.deep_view(),
            pg == parameter_groups(sv, groups_view(grouped_params)),
            sv == subst_view(subs@),
            ls == group_lengths(sv, pg),
            cs == combos.deep_view(),
            cs == cartesian(ls),
            combos@.len() == cs.len(),
            product(ls) <= usize::MAX,
            cartesian_convertible(sv, pg),
            !some_group_differs(sv, pg),
            result@.len() == c,
            forall|a: int| 0 <= a < c ==> combination_ok(sv, pg, #[trigger] cs[a]),
            forall|a: int| 0 <= a < c ==> (#[trigger] result@[a])@ == cartesian_row(sv, pg, cs[a]),
        decreases combos.len() - c,
    {
        let combo = &combos[c];
        assert(combo@ == cs[c as int]);
        let mut row: Vec<(String, ParamValue)> = Vec::new();
        let mut j: usize = 0;
        while j < subs.len()
            invariant
                c < combos.len(),
                j <= subs.len(),
                pg == groups.deep_view(),
                pg == parameter_groups(sv, groups_view(grouped_params)),
                sv == subst_view(subs@),
                ls == group_lengths(sv, pg),
                cs == combos.deep_view(),
                cs == cartesian(ls),
                combos@.len() == cs.len(),
                combo@ == cs[c as int],
                forall|a: int| 0 <= a < c ==> combination_ok(sv, pg, #[trigger] cs[a]),
                product(ls) <= usize::MAX,
                cartesian_convertible(sv, pg),
                !some_group_differs(sv, pg),
                row@.len() == j,
                forall|b: int| 0 <= b < j ==> (#[trigger] cartesian_entry(sv, pg, combo@, b)) is Ok,
                forall|b: int|
                    0 <= b < j ==> (#[trigger] row@[b]).0@ == sv[b].0 && row@[b].1@
                        == cartesian_entry(sv, pg, combo@, b)->Ok_0,
            decreases subs.len() - j,
        {
            let mut k_index: usize = 0;
            while k_index < groups.len() && !group_contains(&groups[k_index], &subs[j].0)
                invariant
                    k_index <= groups.len(),
                    pg == groups.deep_view(),
                    sv == subst_view(subs@),
                    j < subs@.len(),
                    forall|h: int| 0 <= h < k_index ==> !(#[trigger] pg[h]).contains(sv[j as int].0),
                decreases groups.len() - k_index,
            {
                k_index += 1;
            }
            proof {
                lemma_group_index(pg, sv[j as int].0);
            }
            if k_index == groups.len() {
                assert(group_index(pg, sv[j as int].0) is None);
                let e = SubstitutionError::KeyNotInGroups(subs[j].0.clone());
                assert(cartesian_entry(sv, pg, cs[c as int], j as int) == Err::<
                    ParamView,
                    SubstitutionErrorView,
                >(e@));
                assert(!combination_ok(sv, pg, cs[c as int]));
                return Err(e);
            }
            assert(group_index(pg, sv[j as int].0) == Some(k_index as int));
            proof {
                lemma_cartesian_bound(ls, c as int, k_index as int);
            }
            let idx = combo[k_index];
            let value: &YamlValue = match &subs[j].1 {
                YamlValue::Sequence(s) => {
                    proof {
                        assert(!lengths_differ(sv, Some(pg[k_index as int])));
                        assert(selected(sv, Some(pg[k_index as int]), j as int));
                        lemma_common_length(sv, Some(pg[k_index as int]), j as int);
                    }
                    &s[idx]
                },
                v => v,
            };
            assert(value@ == element_at(sv[j as int].1, combo@[k_index as int] as int));
            assert(convertible(element_at(sv[j as int].1, cs[c as int][k_index as int] as int)));
            match ParamValue::new(value) {
                Ok(p) => {
                    row.push((subs[j].0.clone(), p));
                },
                Err(e) => {
                    let err = SubstitutionError::Param(e);
                    assert(cartesian_entry(sv, pg, cs[c as int], j as int) == Err::<
                        ParamView,
                        SubstitutionErrorView,
                    >(err@));
                    assert(!combination_ok(sv, pg, cs[c as int]));
                    return Err(err);
                },
            }
            j += 1;
        }
        let m = ParamMap { entries: row };
        assert(m@ =~= cartesian_row(sv, pg, combo@));
        result.push(m);
        c += 1;
    }
    Ok(result)
}

} // verus!
