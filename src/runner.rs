//! Decisions of the verification driver: the arguments of the three
//! external tools, the order of the steps of one call, the errors they map
//! to, and the reading of the analyser's output.
use vstd::prelude::*;

use crate::promela::{option_args, ModelRunOptions};
use crate::text::{chars_of, push_str, string_views};

verus! {

/// Name of the counter-example file that the analyser leaves on a violation.
pub const TRAIL_FILENAME: &'static str = "MainGathering.pml.trail";

/// Default name of the scratch volume.
pub const VOLUME: &'static str = "SynthLightsRamDisk";

/// Size of the scratch volume, in megabytes.
pub const VOLUME_SIZE_MB: u16 = 512;

/// The line that the analyser prints when its search was not completed.
pub const SEARCH_NOT_COMPLETED: &'static str = "Warning: Search not completed";

/// The outcome of verifying one algorithm.
#[derive(Debug, Clone, Copy, PartialEq, Eq, Structural, PartialOrd, Ord, Hash)]
pub enum SpinOutcome {
    /// The verification fails: a counter-example was produced.
    Fail,
    /// The search was not completed: no conclusion.
    SearchIncomplete,
    /// The algorithm passes the check.
    Pass,
}

impl SpinOutcome {
    /// Whether the outcome is a failure.
    pub fn is_fail(&self) -> (r: bool)
        ensures
            r == (*self == SpinOutcome::Fail),
    {
        *self == SpinOutcome::Fail
    }

    /// The word that reports the outcome.
    pub fn label(&self) -> (r: &'static str)
        ensures
            r@ == outcome_label(*self),
    {
        match self {
            SpinOutcome::Fail => "fail",
            SpinOutcome::Pass => "PASS",
            SpinOutcome::SearchIncomplete => "Incomplete",
        }
    }
}

/// The word that reports an outcome.
pub open spec fn outcome_label(o: SpinOutcome) -> Seq<char> {
    match o {
        SpinOutcome::Fail => "fail"@,
        SpinOutcome::Pass => "PASS"@,
        SpinOutcome::SearchIncomplete => "Incomplete"@,
    }
}

/// The working directory of a run: a scratch volume, by device and path.
#[derive(Debug, Clone, PartialEq, Eq)]
pub enum Workdir {
    Ramdisk(String, String),
}

impl Workdir {
    /// The path of the volume.
    pub fn path(&self) -> (r: &String)
        ensures
            match *self {
                Workdir::Ramdisk(_, p) => r@ == p@,
            },
    {
        match self {
            Workdir::Ramdisk(_, path) => path,
        }
    }
}

/// The name of the scratch volume: the one given, else the default.
pub fn volume_name(ramdisk: Option<String>) -> (r: String)
    ensures
        r@ == match ramdisk {
            Some(name) => name@,
            None => VOLUME@,
        },
{
    match ramdisk {
        Some(name) => name,
        None => String::from_str(VOLUME),
    }
}

/// Relies on `uuid::Uuid::new_v4` and the lower-case hex format of `Uuid`:
/// a fresh random identifier, written hyphenated in 36 characters.
#[verifier::external_body]
fn random_identifier() -> (r: String)
    ensures
        r@.len() == 36,
{
    format!("{:x}", uuid::Uuid::new_v4())
}

/// A fresh name for a worker's enclosure: `enclosure-` followed by a random
/// identifier of 36 characters.
pub fn new_enclosure_name() -> (r: String)
    ensures
        r@.len() == 46,
        r@.subrange(0, 10) == "enclosure-"@,
{
    let mut s = String::from_str("enclosure-");
    let id = random_identifier();
    proof {
        reveal_strlit("enclosure-");
    }
    push_str(&mut s, id.as_str());
    assert(s@.subrange(0, 10) =~= "enclosure-"@);
    s
}

// ---------------------------------------------------------------------------
// Reading the analyser's output

/// Whether some line of `s` starts with `p`.
pub open spec fn some_line_starts_with(s: Seq<char>, p: Seq<char>) -> bool {
    exists|i: int|
        0 <= i && i + p.len() <= s.len() && (i == 0 || s[i - 1] == '\n') && #[trigger] s.subrange(
            i,
            i + p.len(),
        ) == p
}

/// Whether `p` occurs in `s` at position `i`.
fn occurs_at(s: &Vec<char>, p: &Vec<char>, i: usize) -> (r: bool)
    requires
        i <= s.len(),
    ensures
        r == (i + p.len() <= s.len() && s@.subrange(i as int, i + p.len()) == p@),
{
    if p.len() > s.len() - i {
        return false;
    }
    let mut j: usize = 0;
    while j < p.len()
        invariant
            j <= p.len(),
            i + p.len() <= s.len(),
            forall|k: int| 0 <= k < j ==> s@[i + k] == p@[k],
        decreases p.len() - j,
    {
        if s[i + j] != p[j] {
            assert(s@.subrange(i as int, i + p.len())[j as int] != p@[j as int]);
            return false;
        }
        j = j + 1;
    }
    assert(s@.subrange(i as int, i + p.len()) =~= p@);
    true
}

/// Whether some line of `text` starts with `prefix`.
pub fn has_line_starting_with(text: &str, prefix: &str) -> (r: bool)
    ensures
        r == some_line_starts_with(text@, prefix@),
{
    let s = chars_of(text);
    let p = chars_of(prefix);
    let mut i: usize = 0;
    loop
        invariant
            i <= s.len(),
            s@ == text@,
            p@ == prefix@,
            forall|k: int|
                0 <= k < i ==> !(k + p@.len() <= s@.len() && (k == 0 || s@[k - 1] == '\n') && #[trigger] s@.subrange(
                    k,
                    k + p@.len(),
                ) == p@),
        decreases s.len() + 1 - i,
    {
        if (i == 0 || s[i - 1] == '\n') && occurs_at(&s, &p, i) {
            return true;
        }
        if i == s.len() {
            assert forall|k: int| 0 <= k && k + p@.len() <= s@.len() && (k == 0 || s@[k - 1] == '\n')
                implies #[trigger] s@.subrange(k, k + p@.len()) != p@ by {
                assert(k < i || k == i);
            }
            return false;
        }
        i = i + 1;
    }
}

/// The outcome that the analyser's output gives when no counter-example was
/// produced: incomplete when a line starts with the search warning, else a
/// pass.
pub fn outcome_from_output(check_result: &str) -> (r: SpinOutcome)
    ensures
        r == (if some_line_starts_with(check_result@, SEARCH_NOT_COMPLETED@) {
            SpinOutcome::SearchIncomplete
        } else {
            SpinOutcome::Pass
        }),
{
    if has_line_starting_with(check_result, SEARCH_NOT_COMPLETED) {
        SpinOutcome::SearchIncomplete
    } else {
        SpinOutcome::Pass
    }
}

/// The outcome of a verification call: a failure when a counter-example file
/// is present, else what the analyser's output says.
pub fn classify_outcome(trail_present: bool, check_result: &str) -> (r: SpinOutcome)
    ensures
        r == (if trail_present {
            SpinOutcome::Fail
        } else if some_line_starts_with(check_result@, SEARCH_NOT_COMPLETED@) {
            SpinOutcome::SearchIncomplete
        } else {
            SpinOutcome::Pass
        }),
{
    if trail_present {
        SpinOutcome::Fail
    } else {
        outcome_from_output(check_result)
    }
}

// ---------------------------------------------------------------------------
// The steps of one verification call

/// The steps of one verification call in an enclosure, in order.
#[derive(Debug, Clone, Copy, PartialEq, Eq, Structural)]
pub enum DriverStep {
    /// Delete a counter-example file left by an earlier call.
    RemoveStaleTrail,
    /// Write the algorithm's model file.
    InstallModel,
    /// Run the verifier's source generator.
    Generate,
    /// Compile the generated analyser.
    Compile,
    /// Run the analyser.
    Analyse,
    /// Read the outcome.
    Classify,
}

/// Why a verification call failed.
#[derive(Debug, Clone, Copy, PartialEq, Eq, Structural)]
pub enum DriverError {
    /// The counter-example file of an earlier call could not be removed.
    StaleTrail,
    /// The model file could not be written.
    InstallFailed,
    /// The source generator failed.
    GeneratorFailed,
    /// The compiler failed.
    CompileFailed,
    /// The analyser could not be run.
    AnalyserFailed,
}

/// The step that follows a step, if any.
pub open spec fn spec_next_step(s: DriverStep) -> Option<DriverStep> {
    match s {
        DriverStep::RemoveStaleTrail => Some(DriverStep::InstallModel),
        DriverStep::InstallModel => Some(DriverStep::Generate),
        DriverStep::Generate => Some(DriverStep::Compile),
        DriverStep::Compile => Some(DriverStep::Analyse),
        DriverStep::Analyse => Some(DriverStep::Classify),
        DriverStep::Classify => None,
    }
}

/// The error that a failure of a step gives.
pub open spec fn spec_step_error(s: DriverStep) -> DriverError {
    match s {
        DriverStep::RemoveStaleTrail => DriverError::StaleTrail,
        DriverStep::InstallModel => DriverError::InstallFailed,
        DriverStep::Generate => DriverError::GeneratorFailed,
        DriverStep::Compile => DriverError::CompileFailed,
        _ => DriverError::AnalyserFailed,
    }
}

impl DriverStep {
    /// The first step of a call.
    pub fn first() -> (r: DriverStep)
        ensures
            r == DriverStep::RemoveStaleTrail,
    {
        DriverStep::RemoveStaleTrail
    }

    /// The step that follows this one; `None` after the last.
    pub fn next(&self) -> (r: Option<DriverStep>)
        ensures
            r == spec_next_step(*self),
    {
        match self {
            DriverStep::RemoveStaleTrail => Some(DriverStep::InstallModel),
            DriverStep::InstallModel => Some(DriverStep::Generate),
            DriverStep::Generate => Some(DriverStep::Compile),
            DriverStep::Compile => Some(DriverStep::Analyse),
            DriverStep::Analyse => Some(DriverStep::Classify),
            DriverStep::Classify => None,
        }
    }

    /// The error that a failure of this step gives.
    pub fn error(&self) -> (r: DriverError)
        ensures
            r == spec_step_error(*self),
    {
        match self {
            DriverStep::RemoveStaleTrail => DriverError::StaleTrail,
            DriverStep::InstallModel => DriverError::InstallFailed,
            DriverStep::Generate => DriverError::GeneratorFailed,
            DriverStep::Compile => DriverError::CompileFailed,
            _ => DriverError::AnalyserFailed,
        }
    }
}

/// What a stale-trail check decides: after the removal, a trail file that is
/// still there is an error.
pub fn check_trail_removed(still_present: bool) -> (r: Result<(), DriverError>)
    ensures
        r == (if still_present {
            Err::<(), DriverError>(DriverError::StaleTrail)
        } else {
            Ok(())
        }),
{
    if still_present {
        Err(DriverError::StaleTrail)
    } else {
        Ok(())
    }
}

// ---------------------------------------------------------------------------
// Arguments of the external tools

/// Arguments of the verifier's source generator.
pub open spec fn generator_arg_list(o: ModelRunOptions) -> Seq<Seq<char>> {
    seq!["-a"@, "-DALGO=SYNTH"@] + option_args(o) + seq!["MainGathering.pml"@]
}

/// Arguments of the compiler.
pub open spec fn compiler_arg_list() -> Seq<Seq<char>> {
    seq!["-DMEMLIM=16384"@, "-DXUSAFE"@, "-DNOREDUCE"@, "-O2"@, "-w"@, "-o"@, "pan"@, "pan.c"@]
}

/// Arguments of the analyser.
pub open spec fn analyser_arg_list() -> Seq<Seq<char>> {
    seq!["-m100000"@, "-a"@, "-f"@, "-E"@, "-n"@, "gathering"@]
}

/// The arguments of the verifier's source generator for a run: build the
/// analyser (`-a`) of the synthesised algorithm, with the run's options, from
/// the main model file.
pub fn generator_args(options: &ModelRunOptions) -> (r: Vec<String>)
    ensures
        string_views(r@) == generator_arg_list(*options),
{
    let mut r: Vec<String> = Vec::new();
    r.push(String::from_str("-a"));
    r.push(String::from_str("-DALGO=SYNTH"));
    let opts = options.args();
    let ghost head = string_views(r@);
    let mut i: usize = 0;
    while i < opts.len()
        invariant
            i <= opts.len(),
            string_views(r@) == head + string_views(opts@).take(i as int),
        decreases opts.len() - i,
    {
        let ghost prev = r@;
        let arg = opts[i].clone();
        r.push(arg);
        assert(string_views(r@) =~= string_views(prev).push(opts@[i as int]@));
        i = i + 1;
        assert(string_views(r@) =~= head + string_views(opts@).take(i as int));
    }
    let ghost before_last = r@;
    r.push(String::from_str("MainGathering.pml"));
    assert(string_views(r@) =~= string_views(before_last).push("MainGathering.pml"@));
    assert(string_views(opts@).take(opts@.len() as int) =~= string_views(opts@));
    assert(string_views(r@) =~= generator_arg_list(*options));
    r
}

/// The arguments of the compiler: memory limit, unchecked safety, no
/// partial-order reduction, optimised and quiet, `pan` from `pan.c`.
pub fn compiler_args() -> (r: Vec<String>)
    ensures
        string_views(r@) == compiler_arg_list(),
{
    let r = vec![
        String::from_str("-DMEMLIM=16384"),
        String::from_str("-DXUSAFE"),
        String::from_str("-DNOREDUCE"),
        String::from_str("-O2"),
        String::from_str("-w"),
        String::from_str("-o"),
        String::from_str("pan"),
        String::from_str("pan.c"),
    ];
    assert(string_views(r@) =~= compiler_arg_list());
    r
}

/// The arguments of the analyser: memory cap, acceptance cycles, weak
/// fairness, no invalid end states, the `gathering` claim.
pub fn analyser_args() -> (r: Vec<String>)
    ensures
        string_views(r@) == analyser_arg_list(),
{
    let r = vec![
        String::from_str("-m100000"),
        String::from_str("-a"),
        String::from_str("-f"),
        String::from_str("-E"),
        String::from_str("-n"),
        String::from_str("gathering"),
    ];
    assert(string_views(r@) =~= analyser_arg_list());
    r
}

} // verus!
