//! The verifier's input model of an algorithm, and the options of a run.
use vstd::prelude::*;

use crate::algorithm::{algorithm_code, Action, Algorithm, AlgorithmModel, Guard, Rule};
use crate::common::{decimal, scheduler_macro_name, Distance, Move, Scheduler};
use crate::text::{join_parts, joined, push_decimal, push_str, string_views};

verus! {

/// Name of the file that holds the generated algorithm model.
pub const ALGORITHM_FILE: &'static str = "Algorithms.pml";

/// Name of the main model file, given to the verifier.
pub const MAIN_FILE: &'static str = "MainGathering.pml";

/// Names of the static model files installed in each enclosure.
pub const STATIC_FILES: [&'static str; 4] = ["MainGathering.pml", "Robots.pml", "Schedulers.pml", "Types.pml"];

/// The name of a movement in the model.
pub open spec fn move_macro(m: Move) -> Seq<char> {
    match m {
        Move::Stay => "STAY"@,
        Move::ToHalf => "TO_HALF"@,
        Move::ToOther => "TO_OTHER"@,
    }
}

/// Test of the robot's own colour.
pub open spec fn my_color_test(c: nat) -> Seq<char> {
    "(obs.color.me == "@ + decimal(c) + ")"@
}

/// Test of the other robot's colour.
pub open spec fn other_color_test(c: nat) -> Seq<char> {
    "(obs.color.other == "@ + decimal(c) + ")"@
}

/// Test of the position: the same place when gathered, else not.
pub open spec fn position_test(d: Distance) -> Seq<char> {
    if d == Distance::Same {
        " && (obs.same_position)"@
    } else {
        " && ! (obs.same_position)"@
    }
}

/// The condition that a guard stands for.
pub open spec fn guard_condition(g: Guard) -> Seq<char> {
    match g {
        Guard::Full(s, o, d) => my_color_test(s.0 as nat) + " && "@ + other_color_test(o.0 as nat)
            + position_test(d),
        Guard::Internal(s, d) => my_color_test(s.0 as nat) + position_test(d),
        Guard::External(o, d) => other_color_test(o.0 as nat) + position_test(d),
        Guard::LFull(s, o) => my_color_test(s.0 as nat) + " && "@ + other_color_test(o.0 as nat),
        Guard::LInternal(s) => my_color_test(s.0 as nat),
        Guard::LExternal(o) => other_color_test(o.0 as nat),
    }
}

/// The branch of the choice block that a rule stands for.
pub open spec fn rule_line(g: Guard, a: Action) -> Seq<char> {
    "    :: "@ + guard_condition(g) + " -> command.move = "@ + move_macro(a.1)
        + "; command.new_color = "@ + decimal((a.0).0 as nat) + ";"@
}

/// The branches of an algorithm, one per rule in rule order.
pub open spec fn rule_lines(m: AlgorithmModel) -> Seq<Seq<char>> {
    Seq::new(m.guards.len(), |i: int| rule_line(m.guards[i], m.actions[i]))
}

/// The model of an algorithm: its name, its number of colours, and a
/// procedure that starts from staying with the current colour and then
/// chooses among one branch per rule.
pub open spec fn promela_text(m: AlgorithmModel) -> Seq<char> {
    "\n#ifndef __ALGORITHMS_PML__\n#define __ALGORITHMS_PML__\n#  define ALGO_NAME      \"ALGO_SYNTH_"@
        + algorithm_code(m) + "\"\n#  define Algorithm(o,c) Alg_Synth(o,c)\n#  define MAX_COLOR      ("@
        + decimal(m.num_colors as nat) + ")\n#  define NUM_COLORS     ("@ + decimal(m.num_colors as nat)
        + ")\ninline Alg_Synth(obs, command)\n{\n    command.move      = STAY;\n    command.new_color = obs.color.me;\n"@
        + joined(seq!["    if"@, joined(rule_lines(m), "\n"@), "    fi;"@], "\n"@) + "\n}\n#endif\n"@
}

/// The name of a movement in the model.
fn move_macro_str(m: Move) -> (r: &'static str)
    ensures
        r@ == move_macro(m),
{
    match m {
        Move::Stay => "STAY",
        Move::ToHalf => "TO_HALF",
        Move::ToOther => "TO_OTHER",
    }
}

/// Appends the test of the robot's own colour.
fn push_my_color_test(s: &mut String, c: u8)
    ensures
        final(s)@ == old(s)@ + my_color_test(c as nat),
{
    push_str(s, "(obs.color.me == ");
    push_decimal(s, c);
    push_str(s, ")");
    assert(final(s)@ =~= old(s)@ + my_color_test(c as nat));
}

/// Appends the test of the other robot's colour.
fn push_other_color_test(s: &mut String, c: u8)
    ensures
        final(s)@ == old(s)@ + other_color_test(c as nat),
{
    push_str(s, "(obs.color.other == ");
    push_decimal(s, c);
    push_str(s, ")");
    assert(final(s)@ =~= old(s)@ + other_color_test(c as nat));
}

/// Appends the test of the position.
fn push_position_test(s: &mut String, d: Distance)
    ensures
        final(s)@ == old(s)@ + position_test(d),
{
    if d == Distance::Same {
        push_str(s, " && (obs.same_position)");
    } else {
        push_str(s, " && ! (obs.same_position)");
    }
}

/// The branch of the choice block that a rule stands for.
pub fn promela_rule(rule: Rule) -> (r: String)
    ensures
        r@ == rule_line(rule.0, rule.1),
{
    let Rule(g, a) = rule;
    let mut s = String::new();
    push_str(&mut s, "    :: ");
    let ghost start = s@;
    match g {
        Guard::Full(me, other, d) => {
            push_my_color_test(&mut s, me.0);
            push_str(&mut s, " && ");
            push_other_color_test(&mut s, other.0);
            push_position_test(&mut s, d);
        },
        Guard::Internal(me, d) => {
            push_my_color_test(&mut s, me.0);
            push_position_test(&mut s, d);
        },
        Guard::External(other, d) => {
            push_other_color_test(&mut s, other.0);
            push_position_test(&mut s, d);
        },
        Guard::LFull(me, other) => {
            push_my_color_test(&mut s, me.0);
            push_str(&mut s, " && ");
            push_other_color_test(&mut s, other.0);
        },
        Guard::LInternal(me) => {
            push_my_color_test(&mut s, me.0);
        },
        Guard::LExternal(other) => {
            push_other_color_test(&mut s, other.0);
        },
    }
    assert(s@ =~= start + guard_condition(g));
    push_str(&mut s, " -> command.move = ");
    push_str(&mut s, move_macro_str(a.1));
    push_str(&mut s, "; command.new_color = ");
    push_decimal(&mut s, (a.0).0);
    push_str(&mut s, ";");
    assert(s@ =~= rule_line(g, a));
    s
}

/// The model of an algorithm for the verifier. The text depends on the
/// algorithm alone.
pub fn generate_promela(algo: &Algorithm) -> (r: String)
    ensures
        r@ == promela_text(algo@),
{
    let rules = algo.rules();
    let ghost m = algo@;
    let mut lines: Vec<String> = Vec::new();
    let mut i: usize = 0;
    while i < rules.len()
        invariant
            i <= rules.len(),
            rules@.len() == m.guards.len(),
            forall|k: int| 0 <= k < rules@.len() ==> #[trigger] rules@[k] == Rule(m.guards[k], m.actions[k]),
            string_views(lines@) == rule_lines(m).take(i as int),
        decreases rules.len() - i,
    {
        let line = promela_rule(rules[i]);
        let ghost prev = lines@;
        lines.push(line);
        assert(string_views(lines@) =~= string_views(prev).push(line@));
        i = i + 1;
        assert(string_views(lines@) =~= rule_lines(m).take(i as int));
    }
    assert(rule_lines(m).take(i as int) =~= rule_lines(m));
    let rules_text = join_parts(lines, "\n");
    let mut block: Vec<String> = Vec::new();
    block.push(String::from_str("    if"));
    block.push(rules_text);
    block.push(String::from_str("    fi;"));
    assert(string_views(block@) =~= seq!["    if"@, joined(rule_lines(m), "\n"@), "    fi;"@]);
    let body = join_parts(block, "\n");
    let code = algo.as_code();
    let n = algo.num_colors();
    let mut s = String::new();
    push_str(&mut s, "\n#ifndef __ALGORITHMS_PML__\n#define __ALGORITHMS_PML__\n#  define ALGO_NAME      \"ALGO_SYNTH_");
    push_str(&mut s, code.as_str());
    push_str(&mut s, "\"\n#  define Algorithm(o,c) Alg_Synth(o,c)\n#  define MAX_COLOR      (");
    push_decimal(&mut s, n);
    push_str(&mut s, ")\n#  define NUM_COLORS     (");
    push_decimal(&mut s, n);
    push_str(&mut s, ")\ninline Alg_Synth(obs, command)\n{\n    command.move      = STAY;\n    command.new_color = obs.color.me;\n");
    push_str(&mut s, body.as_str());
    push_str(&mut s, "\n}\n#endif\n");
    assert(s@ =~= promela_text(m));
    s
}

// ---------------------------------------------------------------------------
// Options of a verification run

/// The options of a verification run: the scheduler, and the rigid-movement
/// and quasi self-stabilisation restrictions.
#[derive(Debug, Clone, Copy, PartialEq, Eq, Structural)]
pub struct ModelRunOptions {
    pub scheduler: Scheduler,
    pub rigid: bool,
    pub quasi_ss: bool,
}

/// The arguments that the options give to the verifier's source generator.
pub open spec fn option_args(o: ModelRunOptions) -> Seq<Seq<char>> {
    let sched = seq!["-DSCHEDULER="@ + scheduler_macro_name(o.scheduler)];
    let rigid = if o.rigid {
        seq!["-DMOVEMENT=RIGID"@]
    } else {
        Seq::empty()
    };
    let qss = if o.quasi_ss {
        seq!["-DQUASISS"@]
    } else {
        Seq::empty()
    };
    sched + rigid + qss
}

impl ModelRunOptions {
    /// The arguments for the verifier's source generator: the scheduler,
    /// then the rigid-movement and quasi self-stabilisation macros where set.
    pub fn args(&self) -> (r: Vec<String>)
        ensures
            string_views(r@) == option_args(*self),
    {
        let mut r: Vec<String> = Vec::new();
        let mut sched = String::from_str("-DSCHEDULER=");
        let name = self.scheduler.as_promela();
        push_str(&mut sched, name.as_str());
        r.push(sched);
        if self.rigid {
            r.push(String::from_str("-DMOVEMENT=RIGID"));
        }
        if self.quasi_ss {
            r.push(String::from_str("-DQUASISS"));
        }
        assert(string_views(r@) =~= option_args(*self));
        r
    }
}

} // verus!
