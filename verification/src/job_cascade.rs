//! A cascade: simulations run one after another, each starting from a
//! snapshot whose abundances the previous simulation rewrites.
use vstd::prelude::*;
use crate::param_value::{ParamValue, ParamView};
use crate::paths::{path_with_extension, with_extension_of};
use crate::substitutions::{cartesian, cartesian_convertible, cartesian_row, combination_ok, group_lengths, get_substitutions_cartesian, groups_view, parameter_groups, product, some_group_differs, subst_view, ParamMap, SubstitutionError};
use crate::text::{cat, cat3, decimal, usize_to_string};
use crate::yaml::YamlValue;

verus! {

/// The times of one step of a cascade, as the parameter values that the
/// simulation of that step gets.
pub struct CascadeTimes {
    pub time_begin: ParamValue,
    pub time_max: ParamValue,
    pub max_size_timestep: ParamValue,
    pub min_size_timestep: ParamValue,
}

/// Why the substitutions of a cascade cannot be made.
#[derive(Debug, Clone, PartialEq)]
pub enum CascadeError {
    /// The substitutions themselves cannot be made.
    Substitution(SubstitutionError),
    /// The number of substituted simulations is neither one nor the number of files.
    CountMismatch { sims: usize, files: usize },
}

/// The file name `s` without its extension.
pub open spec fn without_extension(s: Seq<char>) -> Seq<char> {
    with_extension_of(s, Seq::empty())
}

/// `s` without its extension.
pub fn strip_ending(s: &str) -> (r: String)
    ensures
        r@ == without_extension(s@),
{
    let empty = "";
    proof {
        reveal_strlit("");
        assert(empty@ =~= Seq::<char>::empty());
    }
    path_with_extension(s, empty)
}

/// The name of the snapshot `s` once its abundances are rewritten.
pub open spec fn rewritten_name(s: Seq<char>) -> Seq<char> {
    without_extension(s) + "_rewritten.hdf5"@
}

/// The name of the snapshot `original_snap_name` once its abundances are rewritten.
pub fn get_rewritten_snapshot_name(original_snap_name: &str) -> (r: String)
    ensures
        r@ == rewritten_name(original_snap_name@),
{
    let base = strip_ending(original_snap_name);
    cat(base.as_str(), "_rewritten.hdf5")
}

/// The shell command that step `num` runs first: none for the first step;
/// otherwise copy the abundances of the previous step into its snapshot.
pub open spec fn rewrite_command(num: nat, snap: Seq<char>, bob_path: Seq<char>) -> Seq<char> {
    if num == 0 {
        Seq::empty()
    } else {
        bob_path + " copy-abundances ../"@ + decimal((num - 1) as nat) + "/ . "@ + rewritten_name(snap)
            + "; rm "@ + snap + "; mv "@ + rewritten_name(snap) + " "@ + snap + "; "@
    }
}

/// The shell command that rewrites the snapshot of step `num` (run with the program at `bob_path`).
pub fn get_command_to_rewrite_snapshot(num: usize, snap_name: &str, bob_path: &str) -> (r: String)
    ensures
        r@ == rewrite_command(num as nat, snap_name@, bob_path@),
{
    if num == 0 {
        return String::new();
    }
    let rewritten = get_rewritten_snapshot_name(snap_name);
    let prev = usize_to_string(num - 1);
    let a = cat3(bob_path, " copy-abundances ../", prev.as_str());
    let b = cat3(a.as_str(), "/ . ", rewritten.as_str());
    let c = cat3(b.as_str(), "; rm ", snap_name);
    let d = cat3(c.as_str(), "; mv ", rewritten.as_str());
    let e = cat3(d.as_str(), " ", snap_name);
    let r = cat(e.as_str(), "; ");
    assert(r@ =~= rewrite_command(num as nat, snap_name@, bob_path@));
    r
}

/// `num` copies of `x`.
pub fn repeat(x: &ParamMap, num: usize) -> (r: Vec<ParamMap>)
    ensures
        r@.len() == num,
        forall|i: int| 0 <= i < num ==> (#[trigger] r@[i])@ == x@,
{
    let mut r: Vec<ParamMap> = Vec::new();
    let mut i: usize = 0;
    while i < num
        invariant
            i <= num,
            r@.len() == i,
            forall|k: int| 0 <= k < i ==> (#[trigger] r@[k])@ == x@,
        decreases num - i,
    {
        r.push(x.duplicate());
        i += 1;
    }
    r
}

/// The cartesian substitutions can all be made.
pub open spec fn cartesian_ok(sv: Seq<(Seq<char>, crate::yaml::YamlView)>) -> bool {
    let pg = parameter_groups(sv, None);
    let ls = group_lengths(sv, pg);
    &&& !some_group_differs(sv, pg)
    &&& product(ls) <= usize::MAX
    &&& forall|c: int| 0 <= c < cartesian(ls).len() ==> combination_ok(sv, pg, #[trigger] cartesian(ls)[c])
}

/// The cartesian substitution of number `c` (the product over all parameters).
pub open spec fn cartesian_map(sv: Seq<(Seq<char>, crate::yaml::YamlView)>, c: int) -> Seq<(Seq<char>, ParamView)> {
    let pg = parameter_groups(sv, None);
    cartesian_row(sv, pg, cartesian(group_lengths(sv, pg))[c])
}

/// The number of cartesian substitutions.
pub open spec fn cartesian_count(sv: Seq<(Seq<char>, crate::yaml::YamlView)>) -> nat {
    product(group_lengths(sv, parameter_groups(sv, None)))
}

/// The substitutions of the cascade's simulations other than its own
/// parameters: the cartesian product of the substitutions, which must
/// give one simulation (then repeated for each file) or one per file.
pub fn get_non_cascade_substitutions(subs: &Vec<(String, YamlValue)>, num_cascade_files: usize) -> (r: Result<Vec<ParamMap>, CascadeError>)
    requires
        cartesian_convertible(subst_view(subs@), parameter_groups(subst_view(subs@), None)),
    ensures
        ({
            let sv = subst_view(subs@);
            let n = cartesian_count(sv);
            &&& r is Ok <==> cartesian_ok(sv) && (n == 1 || n == num_cascade_files)
            &&& r matches Ok(maps) ==> maps@.len() == num_cascade_files && forall|i: int|
                0 <= i < num_cascade_files ==> (#[trigger] maps@[i])@ == cartesian_map(
                    sv,
                    if n == 1 {
                        0
                    } else {
                        i
                    },
                )
            &&& r matches Err(CascadeError::CountMismatch { sims, files }) ==> cartesian_ok(sv) && sims
                == n && files == num_cascade_files && n != 1 && n != num_cascade_files
            &&& r matches Err(CascadeError::Substitution(_)) ==> !cartesian_ok(sv)
        }),
{
    let ghost sv = subst_view(subs@);
    assert(groups_view(None) == None::<Seq<Seq<Seq<char>>>>);
    let sims = match get_substitutions_cartesian(subs, None) {
        Ok(sims) => sims,
        Err(e) => {
            return Err(CascadeError::Substitution(e));
        },
    };
    if sims.len() == 1 {
        let r = repeat(&sims[0], num_cascade_files);
        Ok(r)
    } else if sims.len() != num_cascade_files {
        Err(CascadeError::CountMismatch { sims: sims.len(), files: num_cascade_files })
    } else {
        Ok(sims)
    }
}

/// The entries that the cascade adds to the substitution of step `i`.
pub open spec fn cascade_entries(
    i: nat,
    file: Seq<char>,
    times: (ParamView, ParamView, ParamView, ParamView),
    bob_path: Seq<char>,
    identifier: Seq<char>,
) -> Seq<(Seq<char>, ParamView)> {
    seq![
        ("InitCondFile"@, ParamView::Str(without_extension(file))),
        ("TimeBegin"@, times.0),
        ("TimeMax"@, times.1),
        ("MaxSizeTimestep"@, times.2),
        ("MinSizeTimestep"@, times.3),
        (identifier, ParamView::Bool(true)),
        ("additionalCommands"@, ParamView::Str(rewrite_command(i, file, bob_path))),
    ]
}

/// The names that the cascade sets.
pub open spec fn cascade_names(identifier: Seq<char>) -> Seq<Seq<char>> {
    seq![
        "InitCondFile"@,
        "TimeBegin"@,
        "TimeMax"@,
        "MaxSizeTimestep"@,
        "MinSizeTimestep"@,
        identifier,
        "additionalCommands"@,
    ]
}

/// The cascade's names are new to its substitutions, and distinct.
pub open spec fn cascade_names_free(sv: Seq<(Seq<char>, crate::yaml::YamlView)>, identifier: Seq<char>) -> bool {
    &&& forall|j: int| 0 <= j < sv.len() ==> !cascade_names(identifier).contains(#[trigger] sv[j].0)
    &&& cascade_names(identifier).no_duplicates()
}

/// The substitutions of a cascade of `num_files` steps are made and the
/// cascade's parameters are added to them (so a name of the cascade that is
/// already there, or that occurs twice, would be overwritten).
pub open spec fn cascade_steps_made(sv: Seq<(Seq<char>, crate::yaml::YamlView)>, num_files: nat) -> bool {
    let n = cartesian_count(sv);
    cartesian_ok(sv) && (n == 1 || n == num_files) && num_files > 0
}

/// The times of a step as values.
pub open spec fn times_view(t: CascadeTimes) -> (ParamView, ParamView, ParamView, ParamView) {
    (t.time_begin@, t.time_max@, t.max_size_timestep@, t.min_size_timestep@)
}

/// The substitutions of a cascade: those of the simulation-set file (one
/// for all steps, or one per step), each with the cascade's parameters of
/// its step: the snapshot to start from (`files[i]` without its extension),
/// the times `times[i]`, the `identifier` set to true, and the command that
/// rewrites the snapshot (run with the program at `bob_path`).
pub fn get_substitutions_cascade(
    subs: &Vec<(String, YamlValue)>,
    files: &Vec<String>,
    times: &Vec<CascadeTimes>,
    bob_path: &str,
    identifier: &str,
) -> (r: Result<Vec<ParamMap>, CascadeError>)
    requires
        cartesian_convertible(subst_view(subs@), parameter_groups(subst_view(subs@), None)),
        times@.len() == files@.len(),
        cascade_steps_made(subst_view(subs@), files@.len()) ==> cascade_names_free(
            subst_view(subs@),
            identifier@,
        ),
    ensures
        ({
            let sv = subst_view(subs@);
            let n = cartesian_count(sv);
            &&& r is Ok <==> cartesian_ok(sv) && (n == 1 || n == files@.len())
            &&& r matches Ok(maps) ==> maps@.len() == files@.len() && forall|i: int|
                0 <= i < files@.len() ==> (#[trigger] maps@[i])@ == cartesian_map(
                    sv,
                    if n == 1 {
                        0
                    } else {
                        i
                    },
                ) + cascade_entries(i as nat, files@[i]@, times_view(times@[i]), bob_path@, identifier@)
            &&& r matches Err(CascadeError::CountMismatch { sims, files: f }) ==> cartesian_ok(sv)
                && sims == n && f == files@.len() && n != 1 && n != files@.len()
            &&& r matches Err(CascadeError::Substitution(_)) ==> !cartesian_ok(sv)
        }),
{
    let ghost sv = subst_view(subs@);
    let ghost n = cartesian_count(sv);
    let others = match get_non_cascade_substitutions(subs, files.len()) {
        Ok(o) => o,
        Err(e) => {
            return Err(e);
        },
    };
    let mut out: Vec<ParamMap> = Vec::new();
    let mut i: usize = 0;
    while i < files.len()
        invariant
            i <= files@.len(),
            times@.len() == files@.len(),
            others@.len() == files@.len(),
            forall|k: int|
                0 <= k < files@.len() ==> (#[trigger] others@[k])@ == cartesian_map(
                    sv,
                    if n == 1 {
                        0
                    } else {
                        k
                    },
                ),
            out@.len() == i,
            forall|k: int|
                0 <= k < i ==> (#[trigger] out@[k])@ == cartesian_map(
                    sv,
                    if n == 1 {
                        0
                    } else {
                        k
                    },
                ) + cascade_entries(k as nat, files@[k]@, times_view(times@[k]), bob_path@, identifier@),
        decreases files@.len() - i,
    {
        let file = files[i].as_str();
        let t = &times[i];
        let mut m = others[i].duplicate();
        let ghost before = m@;
        m.entries.push((String::from_str("InitCondFile"), ParamValue::Str(strip_ending(file))));
        m.entries.push((String::from_str("TimeBegin"), t.time_begin.duplicate()));
        m.entries.push((String::from_str("TimeMax"), t.time_max.duplicate()));
        m.entries.push((String::from_str("MaxSizeTimestep"), t.max_size_timestep.duplicate()));
        m.entries.push((String::from_str("MinSizeTimestep"), t.min_size_timestep.duplicate()));
        m.entries.push((String::from_str(identifier), ParamValue::Bool(true)));
        let command = get_command_to_rewrite_snapshot(i, file, bob_path);
        m.entries.push((String::from_str("additionalCommands"), ParamValue::Str(command)));
        assert(m@ =~= before + cascade_entries(i as nat, files@[i as int]@, times_view(times@[i as int]), bob_path@, identifier@));
        out.push(m);
        i += 1;
    }
    Ok(out)
}

/// Only the first step of a cascade runs no command first; every later step
/// `num` runs `bob_path copy-abundances ../<num - 1>/ . <rewritten>`, copying
/// the abundances of the previous step into a rewritten snapshot, then
/// removes its snapshot and moves the rewritten one to the snapshot's name.
pub proof fn lemma_rewrite_command_steps(num: nat, snap: Seq<char>, bob_path: Seq<char>)
    ensures
        (rewrite_command(num, snap, bob_path).len() == 0) <==> num == 0,
        num > 0 ==> ({
            let head = bob_path + " copy-abundances ../"@ + decimal((num - 1) as nat) + "/ . "@;
            let tail = " "@ + snap + "; "@;
            let c = rewrite_command(num, snap, bob_path);
            &&& head.len() <= c.len()
            &&& c.subrange(0, head.len() as int) == head
            &&& tail.len() <= c.len()
            &&& c.subrange(c.len() - tail.len(), c.len() as int) == tail
            &&& c == head + rewritten_name(snap) + "; rm "@ + snap + "; mv "@ + rewritten_name(snap) + tail
        }),
{
    reveal_strlit(" copy-abundances ../");
    reveal_strlit("/ . ");
    reveal_strlit(" ");
    reveal_strlit("; ");
    if num > 0 {
        let head = bob_path + " copy-abundances ../"@ + decimal((num - 1) as nat) + "/ . "@;
        let tail = " "@ + snap + "; "@;
        let mid = rewritten_name(snap) + "; rm "@ + snap + "; mv "@ + rewritten_name(snap);
        let c = rewrite_command(num, snap, bob_path);
        assert(c =~= head + mid + tail);
        assert(c.subrange(0, head.len() as int) =~= head);
        assert(c.subrange(c.len() - tail.len(), c.len() as int) =~= tail);
    }
}

} // verus!
