use synth_lights::algorithm::{Action, Algorithm, Guard};
use synth_lights::common::{CodeError, Color, Distance, Move};
use synth_lights::ModelKind;

fn guards_for_full_lights_2_cols() -> Vec<Guard> {
    vec![
        Guard::Full(Color(0), Color(0), Distance::Same),
        Guard::Full(Color(0), Color(1), Distance::Same),
        Guard::Full(Color(1), Color(0), Distance::Same),
        Guard::Full(Color(1), Color(1), Distance::Same),
        //
        Guard::Full(Color(0), Color(0), Distance::Near),
        Guard::Full(Color(0), Color(1), Distance::Near),
        Guard::Full(Color(1), Color(0), Distance::Near),
        Guard::Full(Color(1), Color(1), Distance::Near),
    ]
}

#[test]
fn test_pseudo_canonical() {
    let num_colors = 2;
    let guards = guards_for_full_lights_2_cols();
    let actions = [
        // gathered
        Action(Color(0), Move::Stay),
        Action(Color(1), Move::Stay),
        Action(Color(0), Move::Stay),
        Action(Color(1), Move::Stay),
        // non-gathered
        Action(Color(0), Move::Stay),
        Action(Color(1), Move::ToHalf),
        Action(Color(0), Move::Stay),
        Action(Color(1), Move::ToOther),
    ];
    let algo = Algorithm::new(num_colors, &guards, &actions);
    assert!(algo.all_colors_used_in_actions());
    assert!(algo.all_colors_used_in_non_gathered());
    assert!(algo.all_gathered_are_stay());
    assert!(algo.some_non_gathered_is_stay());
    assert!(algo.some_non_gathered_is_to_half());
    assert!(algo.some_non_gathered_is_to_other());
    assert!(algo.is_pseudo_canonical());

    let actions = [
        // gathered
        Action(Color(0), Move::Stay),
        Action(Color(1), Move::Stay),
        Action(Color(0), Move::Stay),
        Action(Color(1), Move::Stay),
        // non-gathered
        Action(Color(0), Move::ToHalf),
        Action(Color(1), Move::ToHalf),
        Action(Color(0), Move::ToOther),
        Action(Color(1), Move::Stay),
    ];
    let algo = Algorithm::new(num_colors, &guards, &actions);
    assert!(algo.all_colors_used_in_actions());
    assert!(algo.all_colors_used_in_non_gathered());
    assert!(algo.all_gathered_are_stay());
    assert!(algo.some_non_gathered_is_stay());
    assert!(algo.some_non_gathered_is_to_half());
    assert!(algo.some_non_gathered_is_to_other());
    assert!(!algo.is_pseudo_canonical());
}

#[test]
fn test_action() {
    let a1 = Action(Color(1), Move::Stay);
    let a2 = Action(Color(2), Move::ToHalf);
    let a3 = Action(Color(3), Move::ToOther);

    assert_eq!(a1.as_code(), "S1");
    assert_eq!(a2.as_code(), "H2");
    assert_eq!(a3.as_code(), "O3");
}

#[test]
fn test_algorithm() {
    let num_colors = 2;
    let guards = guards_for_full_lights_2_cols();
    let actions = [
        // gathered
        Action(Color(0), Move::Stay),
        Action(Color(1), Move::Stay),
        Action(Color(0), Move::Stay),
        Action(Color(1), Move::Stay),
        // non-gathered
        Action(Color(0), Move::ToHalf),
        Action(Color(1), Move::ToHalf),
        Action(Color(0), Move::ToOther),
        Action(Color(1), Move::Stay),
    ];
    let algo = Algorithm::new(num_colors, &guards, &actions);

    assert_eq!(
        algo.as_code(),
        "00s_01s_10s_11s_00d_01d_10d_11d__S0_S1_S0_S1_H0_H1_O0_S1"
    );
}

#[test]
fn test_parse() {
    let num_colors = 2;
    let model = ModelKind::Full;
    let guards = guards_for_full_lights_2_cols();
    let class_l = false;
    let actions = [
        // gathered
        Action(Color(0), Move::Stay),
        Action(Color(1), Move::Stay),
        Action(Color(0), Move::Stay),
        Action(Color(1), Move::Stay),
        // non-gathered
        Action(Color(0), Move::ToHalf),
        Action(Color(1), Move::ToHalf),
        Action(Color(0), Move::ToOther),
        Action(Color(1), Move::Stay),
    ];
    let algo_ref = Algorithm::new(num_colors, &guards, &actions);

    let code = "00s_01s_10s_11s_00d_01d_10d_11d__S0_S1_S0_S1_H0_H1_O0_S1";
    let algo = Algorithm::try_parse(model, num_colors, class_l, code);
    println!("algo: {:?}", algo);

    assert_eq!(algo.unwrap(), algo_ref);
}

#[test]
fn parse_then_code_gives_the_same_text() {
    let code = "00s_01s_10s_11s_00d_01d_10d_11d__S0_S1_S0_S1_H0_H1_O0_S1";
    let algo = Algorithm::try_parse(ModelKind::Full, 2, false, code).unwrap();
    assert_eq!(algo.as_code(), code);
    assert_eq!(algo.model_kind(), ModelKind::Full);
    assert!(!algo.class_L());
    assert_eq!(algo.num_colors(), 2);
    assert_eq!(algo.rules().len(), 8);
}

#[test]
fn code_then_parse_gives_the_algorithm_back() {
    let guards: Vec<Guard> = (0..4).map(|c| Guard::LExternal(Color(c))).collect();
    let actions = [
        Action(Color(1), Move::ToHalf),
        Action(Color(2), Move::Stay),
        Action(Color(3), Move::ToOther),
        Action(Color(0), Move::Stay),
    ];
    let algo = Algorithm::new(4, &guards, &actions);
    assert_eq!(algo.as_code(), "0_1_2_3__H1_S2_O3_S0");
    let back = Algorithm::try_parse(ModelKind::External, 4, true, &algo.as_code()).unwrap();
    assert_eq!(back, algo);
}

#[test]
fn external_guards_with_distance_parse() {
    let code = "0s_1s_2s_0d_1d_2d__S0_S0_S0_O0_H0_H0";
    let algo = Algorithm::try_parse(ModelKind::External, 3, false, code).unwrap();
    assert_eq!(algo.as_code(), code);
    let near = Algorithm::try_parse(ModelKind::External, 3, false, "0s_1s_2s_0n_1n_2n__S0_S0_S0_O0_H0_H0").unwrap();
    assert_eq!(near, algo);
    let internal = Algorithm::try_parse(ModelKind::Internal, 2, false, "0s_1s_0d_1d__s1_h0_o1_S0").unwrap();
    assert_eq!(internal.as_code(), "0s_1s_0d_1d__S1_H0_O1_S0");
}

#[test]
fn parse_errors() {
    // no separator
    assert_eq!(
        Algorithm::try_parse(ModelKind::External, 2, true, "0_1_S0_S1"),
        Err(CodeError::BadCode)
    );
    // no guards
    assert_eq!(
        Algorithm::try_parse(ModelKind::External, 2, true, "__S0_S1"),
        Err(CodeError::BadCode)
    );
    // malformed action
    assert_eq!(
        Algorithm::try_parse(ModelKind::External, 2, true, "0_1__X0_S1"),
        Err(CodeError::BadCode)
    );
    // malformed guard
    assert_eq!(
        Algorithm::try_parse(ModelKind::External, 2, true, "0_a__S0_S1"),
        Err(CodeError::BadCode)
    );
    // too few actions
    assert_eq!(
        Algorithm::try_parse(ModelKind::External, 2, true, "0_1__S0"),
        Err(CodeError::ModelMismatch)
    );
    // guard count does not match the model
    assert_eq!(
        Algorithm::try_parse(ModelKind::External, 3, true, "0_1__S0_S1"),
        Err(CodeError::ModelMismatch)
    );
    // guards out of canonical order
    assert_eq!(
        Algorithm::try_parse(ModelKind::External, 2, true, "1_0__S0_S1"),
        Err(CodeError::ModelMismatch)
    );
    // action colour out of range
    assert_eq!(
        Algorithm::try_parse(ModelKind::External, 2, true, "0_1__S0_S2"),
        Err(CodeError::ModelMismatch)
    );
}

#[test]
fn guard_codes_round_trip() {
    for (model, class_l) in [
        (ModelKind::Full, false),
        (ModelKind::Full, true),
        (ModelKind::External, false),
        (ModelKind::External, true),
        (ModelKind::Internal, false),
        (ModelKind::Internal, true),
    ] {
        let guards = Guard::all_for_model(model, 3, class_l);
        assert_eq!(guards.len(), Guard::number_for_model(model, 3, class_l));
        for g in guards {
            assert_eq!(Guard::try_parse(model, class_l, &g.as_code()), Ok(g));
        }
    }
    assert_eq!(Guard::Full(Color(1), Color(0), Distance::Far).as_code(), "10d");
    assert_eq!(Guard::LFull(Color(1), Color(0)).as_code(), "10");
    assert!(Guard::try_parse(ModelKind::Full, false, "00").is_err());
    assert!(Guard::try_parse(ModelKind::Full, false, "00sx").is_err());
}

#[test]
fn action_codes_round_trip() {
    for m in Move::all() {
        for c in 0..10 {
            let a = Action(Color(c), m);
            assert_eq!(Action::try_parse(&a.as_code()), Ok(a));
        }
    }
    assert_eq!(Action::try_parse("h3"), Ok(Action(Color(3), Move::ToHalf)));
    assert!(Action::try_parse("S").is_err());
    assert!(Action::try_parse("Q1").is_err());
    assert_eq!(Action(Color(12), Move::Stay).as_code(), "S12");
}

#[test]
fn guard_observations() {
    let g = Guard::Full(Color(1), Color(1), Distance::Near);
    assert!(!g.is_gathered());
    assert!(g.same_colors());
    assert_eq!(g.my_color(), Some(Color(1)));
    assert_eq!(g.other_color(), Some(Color(1)));
    assert_eq!(g.distance(), Some(Distance::Near));
    assert_eq!(g.model_kind(), ModelKind::Full);
    assert!(!g.class_L());
    let l = Guard::LExternal(Color(2));
    assert!(l.class_L());
    assert!(l.same_colors());
    assert_eq!(l.my_color(), None);
    assert_eq!(l.distance(), None);
    assert_eq!(l.model_kind(), ModelKind::External);
    assert!(Guard::Internal(Color(0), Distance::Same).is_gathered());
    assert!(!Guard::LFull(Color(0), Color(1)).same_colors());
    assert_eq!(Guard::number_for_model(ModelKind::Full, 2, false), 8);
    assert_eq!(Guard::number_for_model(ModelKind::Internal, 3, true), 3);
}

#[test]
fn retain_filter() {
    let guards: Vec<Guard> = vec![
        Guard::LFull(Color(0), Color(0)),
        Guard::LFull(Color(0), Color(1)),
        Guard::LFull(Color(1), Color(0)),
        Guard::LFull(Color(1), Color(1)),
    ];
    let keeps = Algorithm::new(
        2,
        &guards,
        &[
            Action(Color(1), Move::Stay),
            Action(Color(0), Move::ToHalf),
            Action(Color(1), Move::ToOther),
            Action(Color(0), Move::Stay),
        ],
    );
    assert!(keeps.retains_color_iif_other_color_different());
    let breaks = Algorithm::new(
        2,
        &guards,
        &[
            Action(Color(0), Move::Stay),
            Action(Color(0), Move::ToHalf),
            Action(Color(1), Move::ToOther),
            Action(Color(0), Move::Stay),
        ],
    );
    assert!(!breaks.retains_color_iif_other_color_different());
}

#[test]
fn colour_predicates() {
    let guards = guards_for_full_lights_2_cols();
    let algo = Algorithm::new(
        2,
        &guards,
        &[
            Action(Color(1), Move::Stay),
            Action(Color(0), Move::ToHalf),
            Action(Color(0), Move::Stay),
            Action(Color(0), Move::Stay),
            Action(Color(0), Move::Stay),
            Action(Color(0), Move::Stay),
            Action(Color(0), Move::Stay),
            Action(Color(0), Move::Stay),
        ],
    );
    assert!(algo.all_colors_used_in_actions());
    assert!(!algo.all_colors_used_in_non_gathered());
    assert!(!algo.all_gathered_are_stay());
    assert!(algo.some_non_gathered_is_stay());
    assert!(!algo.some_non_gathered_is_to_half());
    assert!(!algo.some_non_gathered_is_to_other());
    assert!(algo.is_pseudo_canonical());
    let copy = algo.clone();
    assert_eq!(copy, algo);
}
