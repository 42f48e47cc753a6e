use synth_lights::generator::{
    checked_count_algorithms_in_model, count_algorithms_in_model, generate_algorithms_in_model,
};
use synth_lights::ModelKind;

#[test]
fn test_action_iter() {
    const FIRST_FIVE: [&str; 5] = [
        "00s_01s_10s_11s_00d_01d_10d_11d__S0_S0_S0_S0_S0_S0_H0_O1",
        "00s_01s_10s_11s_00d_01d_10d_11d__S0_S0_S0_S0_S0_S0_H1_O0",
        "00s_01s_10s_11s_00d_01d_10d_11d__S0_S0_S0_S0_S0_S0_H1_O1",
        "00s_01s_10s_11s_00d_01d_10d_11d__S0_S0_S0_S0_S0_S0_O0_H1",
        "00s_01s_10s_11s_00d_01d_10d_11d__S0_S0_S0_S0_S0_S0_O1_H0",
    ];

    let mut count_0: usize = 0;
    let mut count_1: usize = 0;
    let mut count_2: usize = 0;
    let mut count_3: usize = 0;
    let mut count_4: usize = 0;
    let mut count_5: usize = 0;
    let mut count_6: usize = 0;
    let mut count_7: usize = 0;

    let mut algo_vec = Vec::new();
    let mut algos = generate_algorithms_in_model(ModelKind::Full, 2, false);
    while let Some(a) = algos.next() {
        count_0 += 1;
        if !a.all_gathered_are_stay() {
            continue;
        }
        count_1 += 1;
        if !a.all_colors_used_in_actions() {
            continue;
        }
        count_2 += 1;
        if !a.all_colors_used_in_non_gathered() {
            continue;
        }
        count_3 += 1;
        if !a.some_non_gathered_is_stay() {
            continue;
        }
        count_4 += 1;
        if !a.some_non_gathered_is_to_half() {
            continue;
        }
        count_5 += 1;
        if !a.some_non_gathered_is_to_other() {
            continue;
        }
        count_6 += 1;
        if !a.is_pseudo_canonical() {
            continue;
        }
        count_7 += 1;
        algo_vec.push(a);
    }

    for (i, algo) in algo_vec.iter().take(5).enumerate() {
        assert_eq!(algo.as_code(), FIRST_FIVE[i]);
    }

    assert_eq!(count_0, 1679616);
    assert_eq!(count_1, 20736);
    assert_eq!(count_2, 20574);
    assert_eq!(count_3, 18144);
    assert_eq!(count_4, 14560);
    assert_eq!(count_5, 11200);
    assert_eq!(count_6, 8064);
    assert_eq!(count_7, 4704);
}

#[test]
fn test_count_algorithms() {
    let test_cases = [
        ((ModelKind::Full, 2, false), 1_679_616),
        ((ModelKind::Full, 2, true), 1_296),
        ((ModelKind::Full, 3, true), 387_420_489),
        ((ModelKind::External, 4, true), 20_736),
        ((ModelKind::External, 7, true), 1_801_088_541),
        ((ModelKind::External, 4, false), 429_981_696),
    ];

    for ((model, n_colors, class_l), expected) in test_cases {
        assert_eq!(
            count_algorithms_in_model(model, n_colors, class_l),
            expected
        );
    }
}

#[test]
fn count_overflow_is_reported() {
    assert_eq!(checked_count_algorithms_in_model(ModelKind::Full, 4, false), None);
    assert_eq!(
        checked_count_algorithms_in_model(ModelKind::Full, 3, false),
        Some(150_094_635_296_999_121)
    );
    assert_eq!(
        checked_count_algorithms_in_model(ModelKind::Internal, 2, false),
        Some(1_296)
    );
    assert_eq!(checked_count_algorithms_in_model(ModelKind::Full, 0, true), Some(1));
}

fn enumerate_codes(model: ModelKind, n: u8, class_l: bool) -> Vec<String> {
    let mut out = Vec::new();
    let mut e = generate_algorithms_in_model(model, n, class_l);
    while let Some(a) = e.next() {
        out.push(a.as_code());
    }
    assert!(e.next().is_none());
    out
}

#[test]
fn enumeration_matches_count_and_is_distinct() {
    for (model, n, class_l) in [
        (ModelKind::External, 2, true),
        (ModelKind::Internal, 2, false),
        (ModelKind::Full, 1, false),
        (ModelKind::Full, 2, true),
        (ModelKind::External, 3, true),
    ] {
        let codes = enumerate_codes(model, n, class_l);
        assert_eq!(codes.len() as u64, count_algorithms_in_model(model, n, class_l));
        let mut sorted = codes.clone();
        sorted.sort();
        sorted.dedup();
        assert_eq!(sorted.len(), codes.len());
    }
}

#[test]
fn enumeration_order() {
    let codes = enumerate_codes(ModelKind::External, 2, true);
    assert_eq!(codes.len(), 36);
    assert_eq!(codes[0], "0_1__S0_S0");
    assert_eq!(codes[1], "0_1__S0_S1");
    assert_eq!(codes[2], "0_1__S0_H0");
    assert_eq!(codes[6], "0_1__S1_S0");
    assert_eq!(codes[35], "0_1__O1_O1");
}

#[test]
fn no_colours_no_algorithms() {
    assert!(enumerate_codes(ModelKind::Full, 0, false).is_empty());
}
