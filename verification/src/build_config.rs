//! Building the simulation program: the profile, the arguments of the build
//! command, and where the built program is found.
use vstd::prelude::*;
use crate::paths::{joined_path, parent_of, path_join, path_parent};
use crate::text::{cat, join, join_strings, str_eq};

verus! {

/// What to build: the features, the example to run instead of the main
/// program, and the profile.
#[derive(Debug, Clone)]
pub struct BuildConfig {
    pub features: Vec<String>,
    pub run_example: Option<String>,
    pub profile: String,
}

/// The profile of a build: `dev` for a debug build, else the configured
/// default, else `release`.
pub fn get_profile(debug_build: bool, default_profile: Option<&str>) -> (r: String)
    ensures
        r@ == if debug_build {
            "dev"@
        } else {
            match default_profile {
                Some(p) => p@,
                None => "release"@,
            }
        },
{
    if debug_build {
        String::from_str("dev")
    } else {
        match default_profile {
            Some(p) => String::from_str(p),
            None => String::from_str("release"),
        }
    }
}

/// A debug build (the `dev` profile).
pub open spec fn is_debug(config: BuildConfig) -> bool {
    config.profile@ == "dev"@
}

impl BuildConfig {
    /// Whether the build is a debug build.
    pub fn debug_build(&self) -> (r: bool)
        ensures
            r == is_debug(*self),
    {
        str_eq(self.profile.as_str(), "dev")
    }
}

/// The arguments of `cargo` for a build.
pub open spec fn build_args_view(config: BuildConfig) -> Seq<Seq<char>> {
    let base = seq!["build"@, "--color=always"@];
    let with_release = if is_debug(config) {
        base
    } else {
        base.push("--release"@)
    };
    let with_example = match config.run_example {
        Some(e) => with_release.push("--example"@).push(e@),
        None => with_release,
    };
    if config.features@.len() == 0 {
        with_example
    } else {
        with_example.push("--features"@).push(join(config.features.deep_view(), ","@))
    }
}

/// The arguments of `cargo` for the build `config`.
pub fn build_args(config: &BuildConfig) -> (r: Vec<String>)
    ensures
        r.deep_view() == build_args_view(*config),
{
    let mut args: Vec<String> = Vec::new();
    args.push(String::from_str("build"));
    args.push(String::from_str("--color=always"));
    if !config.debug_build() {
        args.push(String::from_str("--release"));
    }
    match &config.run_example {
        Some(e) => {
            args.push(String::from_str("--example"));
            args.push(e.clone());
        },
        None => {},
    }
    if config.features.len() > 0 {
        args.push(String::from_str("--features"));
        args.push(join_strings(&config.features, ","));
    }
    assert(args.deep_view() =~= build_args_view(*config));
    args
}

/// The build command as it is shown.
pub fn build_command_text(args: &Vec<String>) -> (r: String)
    ensures
        r@ == "cargo "@ + join(args.deep_view(), " "@),
{
    let joined = join_strings(args, " ");
    cat("cargo ", joined.as_str())
}

/// Where the built program is found: in the build folder (for a debug
/// build, the `debug` folder beside it), under `examples` for an example.
pub open spec fn binary_source(build_path: Seq<char>, config: BuildConfig) -> Option<Seq<char>> {
    let folder = if is_debug(config) {
        match parent_of(build_path) {
            Some(p) => Some(joined_path(p, "debug"@)),
            None => None,
        }
    } else {
        Some(build_path)
    };
    match folder {
        None => None,
        Some(f) => match config.run_example {
            Some(e) => Some(joined_path(joined_path(f, "examples"@), e@)),
            None => Some(joined_path(f, "subsweep"@)),
        },
    }
}

/// Where the program built with `config` in `build_path` is found (none
/// for a debug build whose build folder has no parent).
pub fn get_binary_source(build_path: &str, config: &BuildConfig) -> (r: Option<String>)
    ensures
        match binary_source(build_path@, *config) {
            None => r is None,
            Some(p) => r matches Some(x) && x@ == p,
        },
{
    let folder = if config.debug_build() {
        match path_parent(build_path) {
            Some(p) => path_join(p.as_str(), "debug"),
            None => {
                return None;
            },
        }
    } else {
        String::from_str(build_path)
    };
    match &config.run_example {
        Some(e) => {
            let ex = path_join(folder.as_str(), "examples");
            Some(path_join(ex.as_str(), e.as_str()))
        },
        None => Some(path_join(folder.as_str(), "subsweep")),
    }
}

} // verus!
