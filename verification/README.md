# rbob

rbob sets up, builds and runs sets of simulations of the radiative-transfer
code subsweep. A simulation-set file (`sims.yml`) lists parameters with
lists of values; rbob turns them into one parameter file per simulation
(side by side, as a cartesian product over groups of parameters, or as a
cascade of simulations that start from one another's snapshots), writes the
job files, builds the program and submits the jobs.

Layout:

- `src/` is the library, verified with Verus: the model of YAML parameter
  files and their slash-separated paths (`yaml`, `sim_params`), the
  substitutions (`substitutions`, `job_cascade`, `sim_set`), job files
  (`job_params`, `template`), submitting (`run`), log files
  (`arepo_log_file`), differences of parameters (`diff`), snapshots
  (`snapshots`), builds (`build_config`) and the names and parameter files
  of plots (`postprocess`, `plots`). Calls into `camino`, `regex` and
  `itertools` stand behind small trusted wrappers (`paths`, `capture`, and
  one in `substitutions`).
- `app/` is the command line: reading and writing files, the configuration
  file, running `cargo` and the job submission command, and the
  floating-point arithmetic of cascade times.
- `tests/` holds the tests of the library.
