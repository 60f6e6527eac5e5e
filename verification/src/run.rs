//! Submitting the job files of a simulation set: the arguments of the
//! submit command, the job id in its output, and which job the next
//! simulation waits for.
use vstd::prelude::*;
use crate::capture::{all_captures, captures_view, regex_captures};
use crate::job_params::SystemConfiguration;
use crate::paths::{final_component, path_file_name};
use crate::sim_params::SimParams;
use crate::text::{cat, parse_integer, parse_usize, usize_to_string, decimal};
use crate::yaml::{path_get, split_path, YamlValue, YamlView};

verus! {

/// Why a job's id cannot be told, or why the next job cannot wait for it.
#[derive(Debug, Clone, PartialEq, Eq)]
pub enum RunError {
    /// The pattern of the submit message does not compile.
    InvalidPattern,
    /// The submit message matched without its id.
    MissingGroup,
    /// The id in the submit message is not a number.
    InvalidJobId(String),
    /// A step of a cascade was submitted without telling its job id.
    MissingJobId,
}

/// The arguments of the submit command for the job file named `name`:
/// a dependency on job `id` first, where there is one.
pub open spec fn run_args(name: Seq<char>, dependency: Option<usize>) -> Seq<Seq<char>> {
    match dependency {
        Some(id) => seq!["--dependency=afterany:"@ + decimal(id as nat), name],
        None => seq![name],
    }
}

/// The arguments of the submit command for the job file at
/// `job_file_path`, where that path has a file name.
pub fn get_run_command_args(job_file_path: &str, dependency_job_id: Option<usize>) -> (r: Option<Vec<String>>)
    ensures
        match final_component(job_file_path@) {
            None => r is None,
            Some(name) => r matches Some(args) && args.deep_view() == run_args(name, dependency_job_id),
        },
{
    let name = match path_file_name(job_file_path) {
        Some(n) => n,
        None => {
            return None;
        },
    };
    let mut args: Vec<String> = Vec::new();
    match dependency_job_id {
        Some(id) => {
            let id_text = usize_to_string(id);
            args.push(cat("--dependency=afterany:", id_text.as_str()));
        },
        None => {},
    }
    args.push(name);
    assert(args.deep_view() =~= run_args(name@, dependency_job_id));
    Some(args)
}

/// The pattern of the message that tells a submitted job's id.
pub open spec fn job_id_pattern() -> Seq<char> {
    "Submitted batch job ([0-9]*)"@
}

/// The job id that the first match tells, where there is a match.
pub open spec fn job_id_of(caps: Seq<Seq<Option<Seq<char>>>>) -> Result<Option<usize>, Seq<char>> {
    if caps.len() == 0 {
        Ok(None)
    } else {
        let s = caps[0][1]->Some_0;
        match parse_integer(s, false, 0, usize::MAX as int) {
            Some(n) => Ok(Some(n as usize)),
            None => Err(s),
        }
    }
}

/// The first match has its group 1.
pub open spec fn first_has_group(caps: Seq<Seq<Option<Seq<char>>>>) -> bool {
    caps.len() > 0 ==> caps[0].len() > 1 && caps[0][1] is Some
}

/// The job id in the matches of the submit message: none without a match,
/// else group 1 of the first match read as a number.
pub fn job_id_from_captures(caps: &Vec<Vec<Option<String>>>) -> (r: Result<Option<usize>, RunError>)
    requires
        first_has_group(captures_view(caps@)),
    ensures
        match job_id_of(captures_view(caps@)) {
            Ok(id) => r == Ok::<Option<usize>, RunError>(id),
            Err(s) => r matches Err(RunError::InvalidJobId(t)) && t@ == s,
        },
{
    if caps.len() == 0 {
        return Ok(None);
    }
    let ghost cv = captures_view(caps@);
    assert(cv[0] == crate::capture::groups_view(caps@[0]@));
    match &caps[0][1] {
        Some(s) => match parse_usize(s.as_str()) {
            Some(n) => Ok(Some(n)),
            None => Err(RunError::InvalidJobId(s.clone())),
        },
        None => Err(RunError::MissingGroup),
    }
}

/// The id of the job that a submit command printed `output` for: none
/// where the system does not let jobs wait for one another.
pub fn get_job_id(output: &str, system_conf: &SystemConfiguration) -> (r: Result<Option<usize>, RunError>)
    ensures
        system_conf.max_num_cores <= 6 ==> r == Ok::<Option<usize>, RunError>(None),
        system_conf.max_num_cores > 6 ==> match regex_captures(job_id_pattern(), output@) {
            None => r == Err::<Option<usize>, RunError>(RunError::InvalidPattern),
            Some(caps) => if first_has_group(caps) {
                match job_id_of(caps) {
                    Ok(id) => r == Ok::<Option<usize>, RunError>(id),
                    Err(s) => r matches Err(RunError::InvalidJobId(t)) && t@ == s,
                }
            } else {
                r == Err::<Option<usize>, RunError>(RunError::MissingGroup)
            },
        },
{
    if !system_conf.dependencies_allowed() {
        return Ok(None);
    }
    let caps = match all_captures("Submitted batch job ([0-9]*)", output) {
        Some(c) => c,
        None => {
            return Err(RunError::InvalidPattern);
        },
    };
    let ghost cv = captures_view(caps@);
    if caps.len() > 0 && (caps[0].len() <= 1 || caps[0][1].is_none()) {
        assert(cv[0] == crate::capture::groups_view(caps@[0]@));
        return Err(RunError::MissingGroup);
    }
    proof {
        if caps@.len() > 0 {
            assert(cv[0] == crate::capture::groups_view(caps@[0]@));
        }
    }
    job_id_from_captures(&caps)
}

/// The simulation is a step of a cascade (its `identifier` is true).
pub open spec fn is_cascade_step(sim: YamlView, identifier: Seq<char>) -> bool {
    path_get(sim, split_path(identifier)) == Some(YamlView::Bool(true))
}

/// The job that the next simulation waits for, after a simulation was
/// submitted and told `job_id`: a step of a cascade that was submitted to a
/// batch system (not run by `bash`) is waited for, and must have told its id.
pub fn next_dependency(
    sim: &SimParams,
    identifier: &str,
    run_command: &str,
    current: Option<usize>,
    job_id: Option<usize>,
) -> (r: Result<Option<usize>, RunError>)
    ensures
        !is_cascade_step(sim.params_view(), identifier@) || run_command@ == "bash"@ ==> r == Ok::<
            Option<usize>,
            RunError,
        >(current),
        is_cascade_step(sim.params_view(), identifier@) && run_command@ != "bash"@ ==> match job_id {
            Some(id) => r == Ok::<Option<usize>, RunError>(Some(id)),
            None => r == Err::<Option<usize>, RunError>(RunError::MissingJobId),
        },
{
    let cascade = match sim.get(identifier) {
        Some(YamlValue::Bool(b)) => *b,
        _ => false,
    };
    if !cascade || crate::text::str_eq(run_command, "bash") {
        return Ok(current);
    }
    match job_id {
        Some(id) => Ok(Some(id)),
        None => Err(RunError::MissingJobId),
    }
}

} // verus!
