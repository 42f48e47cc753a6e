use synth_lights::algorithm::{Action, Algorithm, Guard};
use synth_lights::common::{Color, Distance, Move, Scheduler};
use synth_lights::promela::{generate_promela, promela_rule, ModelRunOptions};
use synth_lights::algorithm::Rule;

fn guards_for_full_lights_2_cols() -> Vec<Guard> {
    vec![
        Guard::Full(Color(0), Color(0), Distance::Same),
        Guard::Full(Color(0), Color(1), Distance::Same),
        Guard::Full(Color(1), Color(0), Distance::Same),
        Guard::Full(Color(1), Color(1), Distance::Same),
        //
        Guard::Full(Color(0), Color(0), Distance::Near),
        Guard::Full(Color(0), Color(1), Distance::Near),
        Guard::Full(Color(1), Color(0), Distance::Near),
        Guard::Full(Color(1), Color(1), Distance::Near),
    ]
}

fn guards_for_external_3_cols() -> Vec<Guard> {
    vec![
        Guard::External(Color(0), Distance::Same),
        Guard::External(Color(1), Distance::Same),
        Guard::External(Color(2), Distance::Same),
        //
        Guard::External(Color(0), Distance::Near),
        Guard::External(Color(1), Distance::Near),
        Guard::External(Color(2), Distance::Near),
    ]
}

#[test]
fn test_promela_files() {
    let num_colors = 2;
    let guards = guards_for_full_lights_2_cols();
    let actions = [
        // gathered
        Action(Color(0), Move::Stay),
        Action(Color(1), Move::Stay),
        Action(Color(0), Move::Stay),
        Action(Color(1), Move::Stay),
        // non-gathered
        Action(Color(0), Move::ToHalf),
        Action(Color(1), Move::ToHalf),
        Action(Color(0), Move::ToOther),
        Action(Color(1), Move::Stay),
    ];
    let algo = Algorithm::new(num_colors, &guards, &actions);
    println!("{}", generate_promela(&algo));
}

#[test]
fn test_promela_gen() {
    let num_colors = 2;
    let guards = guards_for_full_lights_2_cols();

    let fail_algo = Algorithm::new(
        num_colors,
        &guards,
        &[
            Action(Color(0), Move::Stay),
            Action(Color(0), Move::Stay),
            Action(Color(0), Move::Stay),
            Action(Color(0), Move::Stay),
            Action(Color(0), Move::ToHalf),
            Action(Color(0), Move::ToHalf),
            Action(Color(0), Move::Stay),
            Action(Color(0), Move::Stay),
        ],
    );

    let fail_code = generate_promela(&fail_algo);
    println!("Fail Algo: {}", fail_algo.as_code());
    println!("{}", fail_code);

    let pass_algo = Algorithm::new(
        num_colors,
        &guards,
        &[
            Action(Color(0), Move::Stay),
            Action(Color(0), Move::Stay),
            Action(Color(0), Move::Stay),
            Action(Color(0), Move::Stay),
            Action(Color(0), Move::ToOther),
            Action(Color(0), Move::ToOther),
            Action(Color(0), Move::ToOther),
            Action(Color(0), Move::ToOther),
        ],
    );

    let pass_code = generate_promela(&pass_algo);
    println!("Pass Algo: {}", pass_algo.as_code());
    println!("{}", pass_code);

    let num_colors = 3;
    let guards = &guards_for_external_3_cols();

    let external_algo = Algorithm::new(
        num_colors,
        &guards,
        &[
            Action(Color(0), Move::Stay),
            Action(Color(0), Move::Stay),
            Action(Color(0), Move::Stay),
            Action(Color(0), Move::Stay),
            Action(Color(0), Move::ToHalf),
            Action(Color(0), Move::ToHalf),
        ],
    );

    let external_code = generate_promela(&external_algo);
    println!("External Algo: {}", external_algo.as_code());
    println!("{}", external_code);
}

#[test]
fn promela_text_of_a_small_algorithm() {
    let guards: Vec<Guard> = vec![Guard::LExternal(Color(0)), Guard::LExternal(Color(1))];
    let algo = Algorithm::new(
        2,
        &guards,
        &[Action(Color(1), Move::ToHalf), Action(Color(0), Move::Stay)],
    );
    let expected = "
#ifndef __ALGORITHMS_PML__
#define __ALGORITHMS_PML__
#  define ALGO_NAME      \"ALGO_SYNTH_0_1__H1_S0\"
#  define Algorithm(o,c) Alg_Synth(o,c)
#  define MAX_COLOR      (2)
#  define NUM_COLORS     (2)
inline Alg_Synth(obs, command)
{
    command.move      = STAY;
    command.new_color = obs.color.me;
    if
    :: (obs.color.other == 0) -> command.move = TO_HALF; command.new_color = 1;
    :: (obs.color.other == 1) -> command.move = STAY; command.new_color = 0;
    fi;
}
#endif
";
    assert_eq!(generate_promela(&algo), expected);
    assert_eq!(generate_promela(&algo), generate_promela(&algo.clone()));
}

#[test]
fn promela_rules_for_each_guard_shape() {
    let a = Action(Color(2), Move::ToOther);
    assert_eq!(
        promela_rule(Rule(Guard::Full(Color(0), Color(1), Distance::Same), a)),
        "    :: (obs.color.me == 0) && (obs.color.other == 1) && (obs.same_position) -> command.move = TO_OTHER; command.new_color = 2;"
    );
    assert_eq!(
        promela_rule(Rule(Guard::Full(Color(0), Color(1), Distance::Near), a)),
        "    :: (obs.color.me == 0) && (obs.color.other == 1) && ! (obs.same_position) -> command.move = TO_OTHER; command.new_color = 2;"
    );
    assert_eq!(
        promela_rule(Rule(Guard::Internal(Color(1), Distance::Same), a)),
        "    :: (obs.color.me == 1) && (obs.same_position) -> command.move = TO_OTHER; command.new_color = 2;"
    );
    assert_eq!(
        promela_rule(Rule(Guard::External(Color(1), Distance::Near), a)),
        "    :: (obs.color.other == 1) && ! (obs.same_position) -> command.move = TO_OTHER; command.new_color = 2;"
    );
    assert_eq!(
        promela_rule(Rule(Guard::LFull(Color(1), Color(0)), a)),
        "    :: (obs.color.me == 1) && (obs.color.other == 0) -> command.move = TO_OTHER; command.new_color = 2;"
    );
    assert_eq!(
        promela_rule(Rule(Guard::LInternal(Color(3), ), Action(Color(0), Move::Stay))),
        "    :: (obs.color.me == 3) -> command.move = STAY; command.new_color = 0;"
    );
}

#[test]
fn run_options_arguments() {
    let opts = ModelRunOptions { scheduler: Scheduler::SSYNC, rigid: true, quasi_ss: true };
    assert_eq!(opts.args(), vec!["-DSCHEDULER=SSYNC", "-DMOVEMENT=RIGID", "-DQUASISS"]);
    let opts = ModelRunOptions { scheduler: Scheduler::ASYNC_Move_Safe, rigid: false, quasi_ss: false };
    assert_eq!(opts.args(), vec!["-DSCHEDULER=ASYNC_MOVE_SAFE"]);
}
