//! Decisions of the synthesis run: the filter chain and its per-stage
//! counts, the tally of outcomes, the report's lines, and the default name
//! of the report file.
use vstd::prelude::*;

use crate::algorithm::{
    spec_all_colors_used_in_actions, spec_all_colors_used_in_non_gathered, spec_all_gathered_are_stay,
    spec_is_pseudo_canonical, spec_retains_color_iff_other_different, spec_some_non_gathered_is,
    Algorithm, AlgorithmModel,
};
use crate::common::{decimal, scheduler_name, ModelKind, Move, Scheduler};
use crate::runner::{outcome_label, SpinOutcome};
use crate::text::push_str;

verus! {

// ---------------------------------------------------------------------------
// The filter chain

/// Number of stages of the filter chain.
pub const FILTER_STAGES: u8 = 8;

/// Whether stage `s` (from 1 to 8) of the filter chain accepts an algorithm:
/// gathered rules stay; every colour is written; every colour is written by
/// a non-gathered rule; the canonical-form check; then, unless `weak`, some
/// non-gathered rule stays, one moves half way, one moves to the other; and
/// last, when `retain`, the colour-retention condition.
pub open spec fn stage_accepts(m: AlgorithmModel, s: nat, weak: bool, retain: bool) -> bool {
    if s == 1 {
        spec_all_gathered_are_stay(m)
    } else if s == 2 {
        spec_all_colors_used_in_actions(m)
    } else if s == 3 {
        spec_all_colors_used_in_non_gathered(m)
    } else if s == 4 {
        spec_is_pseudo_canonical(m)
    } else if s == 5 {
        weak || spec_some_non_gathered_is(m, Move::Stay)
    } else if s == 6 {
        weak || spec_some_non_gathered_is(m, Move::ToHalf)
    } else if s == 7 {
        weak || spec_some_non_gathered_is(m, Move::ToOther)
    } else {
        !retain || spec_retains_color_iff_other_different(m)
    }
}

/// Whether an algorithm passes the whole filter chain.
pub open spec fn passes_all_stages(m: AlgorithmModel, weak: bool, retain: bool) -> bool {
    forall|s: nat| 1 <= s <= 8 ==> #[trigger] stage_accepts(m, s, weak, retain)
}

/// Applies stage `s` of the filter chain.
pub fn filter_stage_accepts(algo: &Algorithm, s: u8, weak: bool, retain: bool) -> (r: bool)
    requires
        1 <= s <= 8,
    ensures
        r == stage_accepts(algo@, s as nat, weak, retain),
{
    if s == 1 {
        algo.all_gathered_are_stay()
    } else if s == 2 {
        algo.all_colors_used_in_actions()
    } else if s == 3 {
        algo.all_colors_used_in_non_gathered()
    } else if s == 4 {
        algo.is_pseudo_canonical()
    } else if s == 5 {
        weak || algo.some_non_gathered_is_stay()
    } else if s == 6 {
        weak || algo.some_non_gathered_is_to_half()
    } else if s == 7 {
        weak || algo.some_non_gathered_is_to_other()
    } else {
        !retain || algo.retains_color_iif_other_color_different()
    }
}

/// The number of leading stages of the chain that an algorithm passes: the
/// chain stops at the first stage that rejects it.
pub fn filter_stages_passed(algo: &Algorithm, weak: bool, retain: bool) -> (r: u8)
    ensures
        r <= 8,
        forall|s: nat| 1 <= s <= r ==> #[trigger] stage_accepts(algo@, s, weak, retain),
        r < 8 ==> !stage_accepts(algo@, (r + 1) as nat, weak, retain),
{
    let mut s: u8 = 1;
    while s <= FILTER_STAGES
        invariant
            1 <= s <= 9,
            forall|t: nat| 1 <= t < s ==> #[trigger] stage_accepts(algo@, t, weak, retain),
        decreases 9 - s,
    {
        if !filter_stage_accepts(algo, s, weak, retain) {
            return s - 1;
        }
        s = s + 1;
    }
    8
}

/// Whether an algorithm passes the whole filter chain.
pub fn passes_filters(algo: &Algorithm, weak: bool, retain: bool) -> (r: bool)
    ensures
        r == passes_all_stages(algo@, weak, retain),
{
    let k = filter_stages_passed(algo, weak, retain);
    if k < 8 {
        assert(!stage_accepts(algo@, (k + 1) as nat, weak, retain));
    }
    k == 8
}

/// Counts of the algorithms that survive each stage of the filter chain:
/// entry 0 counts every algorithm seen, entry `s` those that passed stages
/// 1 to `s`.
pub struct FilterCounts {
    pub survivors: Vec<u64>,
}

impl FilterCounts {
    /// Counts of nothing yet.
    pub fn new() -> (r: FilterCounts)
        ensures
            r.survivors@ == seq![0u64, 0u64, 0u64, 0u64, 0u64, 0u64, 0u64, 0u64, 0u64],
    {
        FilterCounts { survivors: vec![0, 0, 0, 0, 0, 0, 0, 0, 0] }
    }

    /// Counts an algorithm that passed the first `passed` stages (saturating
    /// at the largest count).
    pub fn record(&mut self, passed: u8)
        requires
            passed <= 8,
            old(self).survivors@.len() == 9,
        ensures
            final(self).survivors@.len() == 9,
            forall|i: int|
                0 <= i < 9 ==> #[trigger] final(self).survivors@[i] == if i <= passed {
                    saturating_increment(old(self).survivors@[i])
                } else {
                    old(self).survivors@[i]
                },
    {
        let ghost start = self.survivors@;
        let mut i: usize = 0;
        while i <= passed as usize
            invariant
                passed <= 8,
                i <= passed + 1,
                self.survivors@.len() == 9,
                start.len() == 9,
                forall|j: int|
                    0 <= j < 9 ==> #[trigger] self.survivors@[j] == if j < i {
                        saturating_increment(start[j])
                    } else {
                        start[j]
                    },
            decreases passed + 1 - i,
        {
            let v = self.survivors[i];
            let w = if v < u64::MAX {
                v + 1
            } else {
                v
            };
            self.survivors.set(i, w);
            i = i + 1;
        }
    }

    /// Counts an algorithm through the filter chain, and tells whether it
    /// passed every stage.
    pub fn count(&mut self, algo: &Algorithm, weak: bool, retain: bool) -> (r: bool)
        requires
            old(self).survivors@.len() == 9,
        ensures
            final(self).survivors@.len() == 9,
            r == passes_all_stages(algo@, weak, retain),
    {
        let k = filter_stages_passed(algo, weak, retain);
        self.record(k);
        if k < 8 {
            assert(!stage_accepts(algo@, (k + 1) as nat, weak, retain));
        }
        k == 8
    }
}

/// One more, unless at the largest count.
pub open spec fn saturating_increment(v: u64) -> u64 {
    if v < u64::MAX {
        (v + 1) as u64
    } else {
        v
    }
}

// ---------------------------------------------------------------------------
// Tally of outcomes and report lines

/// Counts of the outcomes of a run.
#[derive(Debug, Clone, Copy, PartialEq, Eq, Structural)]
pub struct Tally {
    pub algorithms: u64,
    pub pass: u64,
    pub fail: u64,
    pub incomplete: u64,
    pub errors: u64,
}

impl Tally {
    /// No outcome yet.
    pub fn new() -> (r: Tally)
        ensures
            r == (Tally { algorithms: 0, pass: 0, fail: 0, incomplete: 0, errors: 0 }),
    {
        Tally { algorithms: 0, pass: 0, fail: 0, incomplete: 0, errors: 0 }
    }

    /// Counts one algorithm's outcome; `None` for an algorithm whose
    /// verification failed with an error. Counts saturate.
    pub fn record(&mut self, outcome: Option<SpinOutcome>)
        ensures
            final(self).algorithms == saturating_increment(old(self).algorithms),
            final(self).pass == if outcome == Some(SpinOutcome::Pass) {
                saturating_increment(old(self).pass)
            } else {
                old(self).pass
            },
            final(self).fail == if outcome == Some(SpinOutcome::Fail) {
                saturating_increment(old(self).fail)
            } else {
                old(self).fail
            },
            final(self).incomplete == if outcome == Some(SpinOutcome::SearchIncomplete) {
                saturating_increment(old(self).incomplete)
            } else {
                old(self).incomplete
            },
            final(self).errors == if outcome is None {
                saturating_increment(old(self).errors)
            } else {
                old(self).errors
            },
    {
        self.algorithms = increment(self.algorithms);
        match outcome {
            Some(SpinOutcome::Pass) => self.pass = increment(self.pass),
            Some(SpinOutcome::Fail) => self.fail = increment(self.fail),
            Some(SpinOutcome::SearchIncomplete) => self.incomplete = increment(self.incomplete),
            None => self.errors = increment(self.errors),
        }
    }

    /// The summary line of a run.
    pub fn summary_line(&self) -> (r: String)
        ensures
            r@ == summary_text(*self),
    {
        let mut s = String::from_str("Verification Finished with ");
        push_str(&mut s, decimal_u64(self.pass).as_str());
        push_str(&mut s, " pass, ");
        push_str(&mut s, decimal_u64(self.fail).as_str());
        push_str(&mut s, " fail, ");
        push_str(&mut s, decimal_u64(self.incomplete).as_str());
        push_str(&mut s, " incomplete, ");
        push_str(&mut s, decimal_u64(self.errors).as_str());
        push_str(&mut s, " errors (");
        push_str(&mut s, decimal_u64(self.algorithms).as_str());
        push_str(&mut s, " algorithms)");
        assert(s@ =~= summary_text(*self));
        s
    }
}

/// One more, unless at the largest count.
fn increment(v: u64) -> (r: u64)
    ensures
        r == saturating_increment(v),
{
    if v < u64::MAX {
        v + 1
    } else {
        v
    }
}

/// The summary line of a run.
pub open spec fn summary_text(t: Tally) -> Seq<char> {
    "Verification Finished with "@ + decimal(t.pass as nat) + " pass, "@ + decimal(t.fail as nat)
        + " fail, "@ + decimal(t.incomplete as nat) + " incomplete, "@ + decimal(t.errors as nat)
        + " errors ("@ + decimal(t.algorithms as nat) + " algorithms)"@
}

/// Relies on the `Display` of `u64`: decimal notation without leading zeros.
#[verifier::external_body]
pub fn decimal_u64(n: u64) -> (r: String)
    ensures
        r@ == decimal(n as nat),
{
    n.to_string()
}

/// `s` preceded by spaces up to `width` characters.
pub open spec fn padded(s: Seq<char>, width: nat) -> Seq<char> {
    if s.len() < width {
        Seq::new((width - s.len()) as nat, |i: int| ' ') + s
    } else {
        s
    }
}

/// Appends `n` in decimal, right-aligned in four characters.
fn push_index(s: &mut String, n: u64)
    ensures
        final(s)@ == old(s)@ + padded(decimal(n as nat), 4),
{
    let d = decimal_u64(n);
    let len = d.unicode_len();
    let ghost start = s@;
    let mut k: usize = len;
    while k < 4
        invariant
            len == d@.len(),
            len <= k <= 4 || (len > 4 && k == len),
            s@ == start + Seq::new((k - len) as nat, |i: int| ' '),
        decreases 4 - k,
    {
        crate::text::push_char(s, ' ');
        k = k + 1;
        assert(s@ =~= start + Seq::new((k - len) as nat, |i: int| ' '));
    }
    push_str(s, d.as_str());
    if len < 4 {
        assert(final(s)@ =~= old(s)@ + padded(decimal(n as nat), 4));
    } else {
        assert(final(s)@ =~= old(s)@ + padded(decimal(n as nat), 4));
    }
}

/// The progress mark of a failed algorithm of survivor index `i`: a newline
/// before the mark every hundredth, a space after it every tenth.
pub open spec fn progress_text(i: nat) -> Seq<char> {
    if (i + 1) % 100 == 0 {
        "\n."@
    } else if (i + 1) % 10 == 0 {
        ". "@
    } else {
        "."@
    }
}

/// The progress mark of a failed algorithm of survivor index `i`.
pub fn progress_mark(i: u64) -> (r: &'static str)
    ensures
        r@ == progress_text(i as nat),
{
    if i % 100 == 99 {
        "\n."
    } else if i % 10 == 9 {
        ". "
    } else {
        "."
    }
}

/// The report line of an algorithm that did not fail, in a sequential run:
/// its index, its outcome and its code.
pub open spec fn outcome_text(i: nat, o: SpinOutcome, code: Seq<char>) -> Seq<char> {
    padded(decimal(i), 4) + " : "@ + outcome_label(o) + " "@ + code
}

/// The report line of an algorithm that did not fail, in a sequential run.
pub fn outcome_line(i: u64, outcome: SpinOutcome, code: &str) -> (r: String)
    ensures
        r@ == outcome_text(i as nat, outcome, code@),
{
    let mut s = String::new();
    push_index(&mut s, i);
    push_str(&mut s, " : ");
    push_str(&mut s, outcome.label());
    push_str(&mut s, " ");
    push_str(&mut s, code);
    assert(s@ =~= outcome_text(i as nat, outcome, code@));
    s
}

/// The report line of an outcome in a parallel run: a pass, or an
/// incomplete search, with its index and code; nothing for a failure.
pub open spec fn parallel_outcome_text(i: nat, o: SpinOutcome, code: Seq<char>) -> Option<Seq<char>> {
    match o {
        SpinOutcome::Pass => Some(padded(decimal(i), 4) + " : PASS "@ + code),
        SpinOutcome::SearchIncomplete => Some(
            "INCOMPLETE > "@ + padded(decimal(i), 4) + " : SearchIncomplete "@ + code,
        ),
        SpinOutcome::Fail => None,
    }
}

/// The report line of an outcome in a parallel run.
pub fn parallel_outcome_line(i: u64, outcome: SpinOutcome, code: &str) -> (r: Option<String>)
    ensures
        match r {
            Some(l) => parallel_outcome_text(i as nat, outcome, code@) == Some(l@),
            None => parallel_outcome_text(i as nat, outcome, code@) is None,
        },
{
    match outcome {
        SpinOutcome::Pass => {
            let mut s = String::new();
            push_index(&mut s, i);
            push_str(&mut s, " : PASS ");
            push_str(&mut s, code);
            assert(s@ =~= padded(decimal(i as nat), 4) + " : PASS "@ + code@);
            Some(s)
        },
        SpinOutcome::SearchIncomplete => {
            let mut s = String::from_str("INCOMPLETE > ");
            push_index(&mut s, i);
            push_str(&mut s, " : SearchIncomplete ");
            push_str(&mut s, code);
            assert(s@ =~= "INCOMPLETE > "@ + padded(decimal(i as nat), 4) + " : SearchIncomplete "@ + code@);
            Some(s)
        },
        SpinOutcome::Fail => None,
    }
}

// ---------------------------------------------------------------------------
// Options of a run, and the default name of its report

/// Options of a synthesis run.
#[allow(non_snake_case)]
#[derive(Debug, Clone)]
pub struct Cli {
    /// Kind of model.
    pub category: ModelKind,
    /// Number of colours of the model.
    pub n_colors: u8,
    /// Restrict to class-L algorithms.
    pub class_L: bool,
    /// Verify the algorithms one after the other.
    pub sequential: bool,
    /// Leave out the three "some non-gathered rule" stages.
    pub weak_filter: bool,
    /// Add the colour-retention stage.
    pub retain_filter: bool,
    /// Scheduler of the model.
    pub scheduler: Scheduler,
    /// Rigid movements.
    pub rigid: bool,
    /// Quasi self-stabilisation.
    pub quasi_ss: bool,
    /// Write the report to a file, under its default name unless one is given.
    pub to_file: bool,
    /// Path of the report file.
    pub output_dir: Option<String>,
    /// Name of the scratch volume.
    pub ramdisk: Option<String>,
}

/// The name of a model kind in lower case.
pub open spec fn kind_name(k: ModelKind) -> Seq<char> {
    match k {
        ModelKind::Full => "full"@,
        ModelKind::Internal => "internal"@,
        ModelKind::External => "external"@,
    }
}

/// What a scheduler's name is in kebab case.
pub uninterp spec fn kebab_case_of(s: Seq<char>) -> Seq<char>;

/// Relies on convert_case's `Casing::to_case` with `Case::Kebab`: the result
/// depends on the text alone.
#[verifier::external_body]
fn to_kebab_case(s: &str) -> (r: String)
    ensures
        r@ == kebab_case_of(s@),
{
    <&str as convert_case::Casing<&str>>::to_case(&s, convert_case::Case::Kebab)
}

/// The default report name of a run, given its scheduler's name in kebab
/// case: `{output|parout}[_L]_{kind}_{n}_{scheduler}[_rigid][_qss].txt`.
pub open spec fn report_name(cli: Cli, scheduler: Seq<char>) -> Seq<char> {
    (if cli.sequential {
        "output"@
    } else {
        "parout"@
    }) + (if cli.class_L {
        "_L"@
    } else {
        ""@
    }) + "_"@ + kind_name(cli.category) + "_"@ + decimal(cli.n_colors as nat) + "_"@ + scheduler
        + (if cli.rigid {
        "_rigid"@
    } else {
        ""@
    }) + (if cli.quasi_ss {
        "_qss"@
    } else {
        ""@
    }) + ".txt"@
}

/// The default report name of a run, given its scheduler's name in kebab case.
pub fn report_file_name(cli: &Cli, scheduler: &str) -> (r: String)
    ensures
        r@ == report_name(*cli, scheduler@),
{
    let mut s = String::from_str(if cli.sequential { "output" } else { "parout" });
    push_str(&mut s, if cli.class_L { "_L" } else { "" });
    push_str(&mut s, "_");
    push_str(
        &mut s,
        match cli.category {
            ModelKind::Full => "full",
            ModelKind::Internal => "internal",
            ModelKind::External => "external",
        },
    );
    push_str(&mut s, "_");
    crate::text::push_decimal(&mut s, cli.n_colors);
    push_str(&mut s, "_");
    push_str(&mut s, scheduler);
    push_str(&mut s, if cli.rigid { "_rigid" } else { "" });
    push_str(&mut s, if cli.quasi_ss { "_qss" } else { "" });
    push_str(&mut s, ".txt");
    assert(s@ =~= report_name(*cli, scheduler@));
    s
}

/// The default report name of a run.
pub fn suggested_name(cli: &Cli) -> (r: String)
    ensures
        r@ == report_name(*cli, kebab_case_of(scheduler_name(cli.scheduler))),
{
    let kebab = to_kebab_case(cli.scheduler.name());
    report_file_name(cli, kebab.as_str())
}

} // verus!
