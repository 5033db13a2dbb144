//! Building a package from source: which commands to run, in which order.

use vstd::prelude::*;
use vstd::string::StringExecFns;
use crate::error::WaxError;
use crate::formula_parser::{BuildSystem, ParsedFormula};
use crate::paths::{join, joined};
use crate::text::{clone_names, concat2, decimal_text, str_eq, to_decimal, views};

verus! {

/// `num_cpus::get`: the number of logical processors available to the
/// process. It depends on the machine, so nothing is stated of it.
#[verifier::external_body]
fn available_cpus() -> (n: usize) {
    num_cpus::get()
}

/// Builds packages from source with a number of parallel jobs.
#[derive(Debug, Clone, Copy)]
pub struct Builder {
    num_cores: usize,
    use_ccache: bool,
}

/// One command of a build.
#[derive(Debug, Clone)]
pub struct BuildStep {
    pub program: String,
    pub args: Vec<String>,
    pub phase: String,
}

/// What the source directory holds that decides how a build starts.
#[derive(Debug, Clone, Copy)]
pub struct SourceProbe {
    pub has_configure: bool,
    pub has_bootstrap: bool,
    pub has_autogen: bool,
    pub has_ninja: bool,
}

/// The jobs to run in parallel on a machine with `detected` processors:
/// one less than there are, but at least one.
pub open spec fn jobs_for(detected: usize) -> usize {
    if detected > 1 {
        (detected - 1) as usize
    } else {
        1
    }
}

/// A step as its program, its arguments and its phase.
pub open spec fn step_view(s: BuildStep) -> (Seq<char>, Seq<Seq<char>>, Seq<char>) {
    (s.program@, views(s.args@), s.phase@)
}

/// The steps as programs, arguments and phases.
pub open spec fn steps_view(steps: Seq<BuildStep>) -> Seq<(Seq<char>, Seq<Seq<char>>, Seq<char>)> {
    Seq::new(steps.len(), |i: int| step_view(steps[i]))
}

/// The option that tells a build tool how many jobs to run.
pub open spec fn jobs_flag(jobs: usize) -> Seq<char> {
    "-j"@ + decimal_text(jobs as nat)
}

/// The steps of a build with autotools.
pub open spec fn autotools_steps(
    prefix: Seq<char>,
    configure_args: Seq<Seq<char>>,
    jobs: usize,
    probe: SourceProbe,
) -> Seq<(Seq<char>, Seq<Seq<char>>, Seq<char>)> {
    let prepare = if probe.has_configure {
        Seq::empty()
    } else if probe.has_bootstrap {
        seq![("./bootstrap"@, Seq::<Seq<char>>::empty(), "Bootstrapping"@)]
    } else if probe.has_autogen {
        seq![("./autogen.sh"@, Seq::<Seq<char>>::empty(), "Generating build files"@)]
    } else {
        Seq::empty()
    };
    prepare + seq![
        ("./configure"@, seq!["--prefix="@ + prefix] + configure_args, "Configuring"@),
        ("make"@, seq![jobs_flag(jobs)], "Compiling"@),
        ("make"@, seq!["install"@], "Installing"@),
    ]
}

/// The steps of a build with CMake.
pub open spec fn cmake_steps(
    source: Seq<char>,
    prefix: Seq<char>,
    configure_args: Seq<Seq<char>>,
    jobs: usize,
    probe: SourceProbe,
) -> Seq<(Seq<char>, Seq<Seq<char>>, Seq<char>)> {
    let build = joined(source, "build"@);
    let generator = if probe.has_ninja {
        "-GNinja"@
    } else {
        "-GUnix Makefiles"@
    };
    seq![
        (
            "cmake"@,
            seq!["-S"@, source, "-B"@, build, "-DCMAKE_INSTALL_PREFIX="@ + prefix, generator]
                + configure_args,
            "Configuring CMake"@,
        ),
        (
            "cmake"@,
            seq!["--build"@, build, "--parallel"@, decimal_text(jobs as nat)],
            "Building"@,
        ),
        ("cmake"@, seq!["--install"@, build], "Installing"@),
    ]
}

/// The steps of a build with Meson.
pub open spec fn meson_steps(
    source: Seq<char>,
    prefix: Seq<char>,
    configure_args: Seq<Seq<char>>,
    jobs: usize,
) -> Seq<(Seq<char>, Seq<Seq<char>>, Seq<char>)> {
    let build = joined(source, "build"@);
    seq![
        (
            "meson"@,
            seq!["setup"@, build, "--prefix="@ + prefix] + configure_args,
            "Configuring Meson"@,
        ),
        ("ninja"@, seq!["-C"@, build, jobs_flag(jobs)], "Building"@),
        ("ninja"@, seq!["-C"@, build, "install"@], "Installing"@),
    ]
}

/// The steps of a build with plain Make.
pub open spec fn make_steps(prefix: Seq<char>, jobs: usize) -> Seq<
    (Seq<char>, Seq<Seq<char>>, Seq<char>),
> {
    seq![
        ("make"@, seq!["PREFIX="@ + prefix, jobs_flag(jobs)], "Building"@),
        ("make"@, seq!["PREFIX="@ + prefix, "install"@], "Installing"@),
    ]
}

/// The steps of a build, by the build system of the formula; none for a
/// build system that is not known.
pub open spec fn build_steps(
    system: BuildSystem,
    source: Seq<char>,
    prefix: Seq<char>,
    configure_args: Seq<Seq<char>>,
    jobs: usize,
    probe: SourceProbe,
) -> Option<Seq<(Seq<char>, Seq<Seq<char>>, Seq<char>)>> {
    match system {
        BuildSystem::Autotools => Some(autotools_steps(prefix, configure_args, jobs, probe)),
        BuildSystem::CMake => Some(cmake_steps(source, prefix, configure_args, jobs, probe)),
        BuildSystem::Meson => Some(meson_steps(source, prefix, configure_args, jobs)),
        BuildSystem::Make => Some(make_steps(prefix, jobs)),
        BuildSystem::Unknown => None,
    }
}

/// A step with these arguments.
fn step(program: &str, args: Vec<String>, phase: &str) -> (s: BuildStep)
    ensures
        step_view(s) == (program@, views(args@), phase@),
{
    BuildStep { program: String::from_str(program), args, phase: String::from_str(phase) }
}

/// `first` followed by copies of `rest`.
fn args_with(first: Vec<String>, rest: &Vec<String>) -> (out: Vec<String>)
    ensures
        views(out@) == views(first@) + views(rest@),
{
    let mut out = first;
    let ghost start = views(out@);
    let mut i: usize = 0;
    assert(views(rest@).take(0) =~= Seq::empty());
    assert(start + Seq::<Seq<char>>::empty() =~= start);
    while i < rest.len()
        invariant
            i <= rest.len(),
            views(out@) == start + views(rest@).take(i as int),
        decreases rest.len() - i,
    {
        let ghost before = views(out@);
        out.push(rest[i].clone());
        proof {
            assert(views(out@) =~= before.push(rest@[i as int]@));
            assert(views(rest@).take(i + 1) =~= views(rest@).take(i as int).push(rest@[i as int]@));
        }
        i += 1;
    }
    assert(views(rest@).take(rest.len() as int) =~= views(rest@));
    out
}

impl Builder {
    /// A builder for this machine; `use_ccache` tells whether `ccache` was found.
    pub fn new(use_ccache: bool) -> (b: Builder)
        ensures
            b.jobs() >= 1,
            b.ccache() == use_ccache,
    {
        Builder { num_cores: Self::detect_cpu_cores(), use_ccache }
    }

    /// A builder for a machine with `detected` processors.
    pub fn with_processors(detected: usize, use_ccache: bool) -> (b: Builder)
        ensures
            b.jobs() == jobs_for(detected),
            b.ccache() == use_ccache,
    {
        Builder { num_cores: Self::jobs_on(detected), use_ccache }
    }

    /// The jobs to run on a machine with `detected` processors.
    pub fn jobs_on(detected: usize) -> (n: usize)
        ensures
            n == jobs_for(detected),
            n >= 1,
    {
        if detected > 1 {
            detected - 1
        } else {
            1
        }
    }

    /// The jobs to run on this machine: what `jobs_for` gives for the number
    /// of processors that the machine reports.
    pub fn detect_cpu_cores() -> (n: usize)
        ensures
            exists|detected: usize| n == jobs_for(detected),
            n >= 1,
    {
        Self::jobs_on(available_cpus())
    }

    /// The number of parallel jobs.
    pub closed spec fn jobs(&self) -> usize {
        self.num_cores
    }

    /// Whether compilers are run through `ccache`.
    pub closed spec fn ccache(&self) -> bool {
        self.use_ccache
    }

    /// The number of parallel jobs.
    pub fn num_cores(&self) -> (n: usize)
        ensures
            n == self.jobs(),
    {
        self.num_cores
    }

    /// Whether compilers are run through `ccache`.
    pub fn use_ccache(&self) -> (r: bool)
        ensures
            r == self.ccache(),
    {
        self.use_ccache
    }

    /// The value of `MAKEFLAGS` for the commands of a build.
    pub fn makeflags(&self) -> (out: String)
        ensures
            out@ == jobs_flag(self.jobs()),
    {
        concat2("-j", to_decimal(self.num_cores).as_str())
    }

    /// Whether `program` is a compiler that is run through `ccache`.
    pub fn wraps_compiler(&self, program: &str) -> (r: bool)
        ensures
            r == (self.ccache() && (program@ == "gcc"@ || program@ == "clang"@ || program@
                == "cc"@)),
    {
        self.use_ccache && (str_eq(program, "gcc") || str_eq(program, "clang") || str_eq(
            program,
            "cc",
        ))
    }

    /// The directory that holds the source after unpacking: the only
    /// entry of the build directory if that is a directory, else the build
    /// directory itself.
    pub fn find_source_directory(build_dir: &str, entries: &Vec<String>, first_is_dir: bool) -> (out:
        String)
        ensures
            out@ == if entries.len() == 1 && first_is_dir {
                joined(build_dir@, entries@[0]@)
            } else {
                build_dir@
            },
    {
        if entries.len() == 1 && first_is_dir {
            join(build_dir, entries[0].as_str())
        } else {
            String::from_str(build_dir)
        }
    }

    /// The commands that build and install `formula` from the source in
    /// `source_dir` into `install_prefix`.
    pub fn plan_build(&self, formula: &ParsedFormula, source_dir: &str, install_prefix: &str, probe: SourceProbe) -> (r: Result<
        Vec<BuildStep>,
        WaxError,
    >)
        ensures
            match r {
                Ok(steps) => build_steps(
                    formula.build_system,
                    source_dir@,
                    install_prefix@,
                    views(formula.configure_args@),
                    self.jobs(),
                    probe,
                ) == Some(steps_view(steps@)),
                Err(WaxError::BuildError(m)) => formula.build_system == BuildSystem::Unknown && m@
                    == "Unknown build system - cannot build from source"@,
                Err(_) => false,
            },
    {
        let jobs = to_decimal(self.num_cores);
        let flag = concat2("-j", jobs.as_str());
        let mut steps: Vec<BuildStep> = Vec::new();
        match formula.build_system {
            BuildSystem::Autotools => {
                if !probe.has_configure {
                    if probe.has_bootstrap {
                        steps.push(step("./bootstrap", Vec::new(), "Bootstrapping"));
                    } else if probe.has_autogen {
                        steps.push(step("./autogen.sh", Vec::new(), "Generating build files"));
                    }
                }
                let mut first: Vec<String> = Vec::new();
                first.push(concat2("--prefix=", install_prefix));
                steps.push(step("./configure", args_with(first, &formula.configure_args), "Configuring"));
                let mut compile: Vec<String> = Vec::new();
                compile.push(flag);
                steps.push(step("make", compile, "Compiling"));
                let mut install: Vec<String> = Vec::new();
                install.push(String::from_str("install"));
                steps.push(step("make", install, "Installing"));
                proof {
                    let want = autotools_steps(
                        install_prefix@,
                        views(formula.configure_args@),
                        self.jobs(),
                        probe,
                    );
                    let n = steps@.len() as int;
                    assert(views(steps@[n - 3].args@) =~= seq!["--prefix="@ + install_prefix@]
                        + views(formula.configure_args@));
                    assert(views(steps@[n - 2].args@) =~= seq![jobs_flag(self.jobs())]);
                    assert(views(steps@[n - 1].args@) =~= seq!["install"@]);
                    if n == 4 {
                        assert(views(steps@[0].args@) =~= Seq::<Seq<char>>::empty());
                    }
                    assert(steps_view(steps@) =~= want);
                }
                Ok(steps)
            },
            BuildSystem::CMake => {
                let build = join(source_dir, "build");
                let mut configure: Vec<String> = Vec::new();
                configure.push(String::from_str("-S"));
                configure.push(String::from_str(source_dir));
                configure.push(String::from_str("-B"));
                configure.push(build.clone());
                configure.push(concat2("-DCMAKE_INSTALL_PREFIX=", install_prefix));
                configure.push(
                    String::from_str(
                        if probe.has_ninja {
                            "-GNinja"
                        } else {
                            "-GUnix Makefiles"
                        },
                    ),
                );
                let ghost head = views(configure@);
                steps.push(
                    step("cmake", args_with(configure, &formula.configure_args), "Configuring CMake"),
                );
                let mut compile: Vec<String> = Vec::new();
                compile.push(String::from_str("--build"));
                compile.push(build.clone());
                compile.push(String::from_str("--parallel"));
                compile.push(jobs);
                steps.push(step("cmake", compile, "Building"));
                let mut install: Vec<String> = Vec::new();
                install.push(String::from_str("--install"));
                install.push(build);
                steps.push(step("cmake", install, "Installing"));
                proof {
                    let b = joined(source_dir@, "build"@);
                    let generator = if probe.has_ninja {
                        "-GNinja"@
                    } else {
                        "-GUnix Makefiles"@
                    };
                    assert(head =~= seq![
                        "-S"@,
                        source_dir@,
                        "-B"@,
                        b,
                        "-DCMAKE_INSTALL_PREFIX="@ + install_prefix@,
                        generator,
                    ]);
                    assert(views(steps@[1].args@) =~= seq![
                        "--build"@,
                        b,
                        "--parallel"@,
                        decimal_text(self.jobs() as nat),
                    ]);
                    assert(views(steps@[2].args@) =~= seq!["--install"@, b]);
                    assert(steps_view(steps@) =~= cmake_steps(
                        source_dir@,
                        install_prefix@,
                        views(formula.configure_args@),
                        self.jobs(),
                        probe,
                    ));
                }
                Ok(steps)
            },
            BuildSystem::Meson => {
                let build = join(source_dir, "build");
                let mut setup: Vec<String> = Vec::new();
                setup.push(String::from_str("setup"));
                setup.push(build.clone());
                setup.push(concat2("--prefix=", install_prefix));
                let ghost head = views(setup@);
                steps.push(step("meson", args_with(setup, &formula.configure_args), "Configuring Meson"));
                let mut compile: Vec<String> = Vec::new();
                compile.push(String::from_str("-C"));
                compile.push(build.clone());
                compile.push(flag);
                steps.push(step("ninja", compile, "Building"));
                let mut install: Vec<String> = Vec::new();
                install.push(String::from_str("-C"));
                install.push(build);
                install.push(String::from_str("install"));
                steps.push(step("ninja", install, "Installing"));
                proof {
                    let b = joined(source_dir@, "build"@);
                    assert(head =~= seq!["setup"@, b, "--prefix="@ + install_prefix@]);
                    assert(views(steps@[1].args@) =~= seq!["-C"@, b, jobs_flag(self.jobs())]);
                    assert(views(steps@[2].args@) =~= seq!["-C"@, b, "install"@]);
                    assert(steps_view(steps@) =~= meson_steps(
                        source_dir@,
                        install_prefix@,
                        views(formula.configure_args@),
                        self.jobs(),
                    ));
                }
                Ok(steps)
            },
            BuildSystem::Make => {
                let mut compile: Vec<String> = Vec::new();
                compile.push(concat2("PREFIX=", install_prefix));
                compile.push(flag);
                steps.push(step("make", compile, "Building"));
                let mut install: Vec<String> = Vec::new();
                install.push(concat2("PREFIX=", install_prefix));
                install.push(String::from_str("install"));
                steps.push(step("make", install, "Installing"));
                proof {
                    assert(views(steps@[0].args@) =~= seq![
                        "PREFIX="@ + install_prefix@,
                        jobs_flag(self.jobs()),
                    ]);
                    assert(views(steps@[1].args@) =~= seq![
                        "PREFIX="@ + install_prefix@,
                        "install"@,
                    ]);
                    assert(steps_view(steps@) =~= make_steps(install_prefix@, self.jobs()));
                }
                Ok(steps)
            },
            BuildSystem::Unknown => Err(
                WaxError::BuildError(
                    String::from_str("Unknown build system - cannot build from source"),
                ),
            ),
        }
    }
}

} // verus!
