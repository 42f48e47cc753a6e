use synth_lights::algorithm::{Action, Algorithm, Guard};
use synth_lights::common::{CodeError, Color, Distance, Move, Scheduler};
use synth_lights::generator::generate_algorithms_in_model;
use synth_lights::model::Model;
use synth_lights::pipeline::{
    filter_stages_passed, outcome_line, parallel_outcome_line, passes_filters, progress_mark,
    report_file_name, FilterCounts, Tally,
};
use synth_lights::runner::{
    analyser_args, check_trail_removed, classify_outcome, compiler_args, generator_args,
    has_line_starting_with, new_enclosure_name, outcome_from_output, volume_name, DriverError, DriverStep, SpinOutcome,
    Workdir,
};
use synth_lights::promela::ModelRunOptions;
use synth_lights::{suggested_name, Cli, ModelKind};

fn make_test_cli(
    category: ModelKind,
    n_colors: u8,
    class_l: bool,
    sequential: bool,
    scheduler: Scheduler,
    rigid: bool,
    quasi_ss: bool,
) -> Cli {
    Cli {
        category,
        n_colors,
        class_L: class_l,
        sequential,
        scheduler,
        to_file: false,
        output_dir: None,
        ramdisk: None,
        weak_filter: false,
        retain_filter: false,
        rigid,
        quasi_ss,
    }
}

#[test]
fn test_suggested_name() {
    let cli = make_test_cli(
        ModelKind::Full,
        2,
        true,
        false,
        Scheduler::ASYNC_LC_Atomic,
        false,
        false,
    );
    assert_eq!(suggested_name(&cli), "parout_L_full_2_async-lc-atomic.txt");

    let cli = make_test_cli(
        ModelKind::External,
        3,
        false,
        true,
        Scheduler::ASYNC_Move_Regular,
        false,
        false,
    );
    assert_eq!(
        suggested_name(&cli),
        "output_external_3_async-move-regular.txt"
    );

    let cli = make_test_cli(
        ModelKind::Full,
        2,
        true,
        false,
        Scheduler::ASYNC_LC_Atomic,
        true,
        false,
    );
    assert_eq!(
        suggested_name(&cli),
        "parout_L_full_2_async-lc-atomic_rigid.txt"
    );

    let cli = make_test_cli(
        ModelKind::Full,
        2,
        true,
        false,
        Scheduler::ASYNC_LC_Atomic,
        false,
        true,
    );
    assert_eq!(
        suggested_name(&cli),
        "parout_L_full_2_async-lc-atomic_qss.txt"
    );

    let cli = make_test_cli(
        ModelKind::Full,
        2,
        true,
        false,
        Scheduler::ASYNC_LC_Atomic,
        true,
        true,
    );
    assert_eq!(
        suggested_name(&cli),
        "parout_L_full_2_async-lc-atomic_rigid_qss.txt"
    );
}

#[test]
fn report_name_from_given_scheduler_text() {
    let cli = make_test_cli(ModelKind::Internal, 12, false, true, Scheduler::SSYNC, true, false);
    assert_eq!(report_file_name(&cli, "sched"), "output_internal_12_sched_rigid.txt");
    assert_eq!(suggested_name(&cli), "output_internal_12_ssync_rigid.txt");
}

#[test]
fn test_model_from_str() {
    for (model, expected) in &[
        ("F3", Model::from((ModelKind::Full, 3, false))),
        ("E3", Model::from((ModelKind::External, 3, false))),
        ("I3", Model::from((ModelKind::Internal, 3, false))),
        ("F3L", Model::from((ModelKind::Full, 3, true))),
        ("E3L", Model::from((ModelKind::External, 3, true))),
        ("I3L", Model::from((ModelKind::Internal, 3, true))),
        ("F10", Model::from((ModelKind::Full, 10, false))),
        ("E10", Model::from((ModelKind::External, 10, false))),
        ("I10", Model::from((ModelKind::Internal, 10, false))),
        ("F10L", Model::from((ModelKind::Full, 10, true))),
        ("E10L", Model::from((ModelKind::External, 10, true))),
        ("I10L", Model::from((ModelKind::Internal, 10, true))),
    ] {
        assert_eq!(Model::try_from(*model).unwrap(), *expected);
    }
}

#[test]
fn model_name_errors() {
    for bad in ["", "F", "FL", "X3", "F3LL", "F256", "f3", "F3 "] {
        assert_eq!(Model::try_parse(bad), Err(CodeError::BadCode), "{}", bad);
    }
    assert_eq!(
        Model::try_parse("E255L"),
        Ok(Model { category: ModelKind::External, n_colors: 255, class_L: true })
    );
}

#[test]
fn filter_chain_counts_full_2() {
    let mut counts = FilterCounts::new();
    let mut survivors = 0u64;
    let mut algos = generate_algorithms_in_model(ModelKind::Full, 2, true);
    while let Some(a) = algos.next() {
        if counts.count(&a, false, false) {
            survivors += 1;
            assert!(passes_filters(&a, false, false));
        }
    }
    assert_eq!(counts.survivors[0], 1_296);
    assert_eq!(counts.survivors[8], survivors);
    for s in 1..9 {
        assert!(counts.survivors[s] <= counts.survivors[s - 1]);
    }
    assert_eq!(counts.survivors[7], counts.survivors[8]);
}

#[test]
fn filter_stages_of_known_algorithms() {
    let guards: Vec<Guard> = vec![
        Guard::Full(Color(0), Color(0), Distance::Same),
        Guard::Full(Color(0), Color(1), Distance::Same),
        Guard::Full(Color(1), Color(0), Distance::Same),
        Guard::Full(Color(1), Color(1), Distance::Same),
        Guard::Full(Color(0), Color(0), Distance::Near),
        Guard::Full(Color(0), Color(1), Distance::Near),
        Guard::Full(Color(1), Color(0), Distance::Near),
        Guard::Full(Color(1), Color(1), Distance::Near),
    ];
    let good = Algorithm::new(
        2,
        &guards,
        &[
            Action(Color(0), Move::Stay),
            Action(Color(1), Move::Stay),
            Action(Color(0), Move::Stay),
            Action(Color(1), Move::Stay),
            Action(Color(0), Move::Stay),
            Action(Color(1), Move::ToHalf),
            Action(Color(0), Move::Stay),
            Action(Color(1), Move::ToOther),
        ],
    );
    assert_eq!(filter_stages_passed(&good, false, false), 8);
    assert!(passes_filters(&good, false, false));
    let unsorted = Algorithm::new(
        2,
        &guards,
        &[
            Action(Color(0), Move::Stay),
            Action(Color(1), Move::Stay),
            Action(Color(0), Move::Stay),
            Action(Color(1), Move::Stay),
            Action(Color(0), Move::ToHalf),
            Action(Color(1), Move::ToHalf),
            Action(Color(0), Move::ToOther),
            Action(Color(1), Move::Stay),
        ],
    );
    assert_eq!(filter_stages_passed(&unsorted, false, false), 3);
    let all_stay = Algorithm::new(2, &guards, &[Action(Color(0), Move::Stay); 8]);
    assert_eq!(filter_stages_passed(&all_stay, false, false), 1);
    assert_eq!(filter_stages_passed(&all_stay, true, false), 1);
}

#[test]
fn tally_and_summary() {
    let mut t = Tally::new();
    t.record(Some(SpinOutcome::Pass));
    t.record(Some(SpinOutcome::Fail));
    t.record(Some(SpinOutcome::Fail));
    t.record(Some(SpinOutcome::SearchIncomplete));
    t.record(None);
    assert_eq!(
        t.summary_line(),
        "Verification Finished with 1 pass, 2 fail, 1 incomplete, 1 errors (5 algorithms)"
    );
}

#[test]
fn progress_marks() {
    assert_eq!(progress_mark(0), ".");
    assert_eq!(progress_mark(9), ". ");
    assert_eq!(progress_mark(99), "\n.");
    assert_eq!(progress_mark(100), ".");
}

#[test]
fn report_lines() {
    assert_eq!(outcome_line(7, SpinOutcome::Pass, "0_1__S0_O1"), "   7 : PASS 0_1__S0_O1");
    assert_eq!(outcome_line(12345, SpinOutcome::SearchIncomplete, "x"), "12345 : Incomplete x");
    assert_eq!(parallel_outcome_line(42, SpinOutcome::Pass, "c"), Some("  42 : PASS c".to_string()));
    assert_eq!(
        parallel_outcome_line(3, SpinOutcome::SearchIncomplete, "c"),
        Some("INCOMPLETE >    3 : SearchIncomplete c".to_string())
    );
    assert_eq!(parallel_outcome_line(3, SpinOutcome::Fail, "c"), None);
}

#[test]
fn analyser_output_classification() {
    let incomplete = "pan: something\nWarning: Search not completed\n\tmore";
    let complete = "pan: something\n  Warning: Search not completed\n";
    assert_eq!(outcome_from_output(incomplete), SpinOutcome::SearchIncomplete);
    assert_eq!(outcome_from_output(complete), SpinOutcome::Pass);
    assert_eq!(outcome_from_output("Warning: Search not completed"), SpinOutcome::SearchIncomplete);
    assert_eq!(outcome_from_output(""), SpinOutcome::Pass);
    assert_eq!(classify_outcome(true, incomplete), SpinOutcome::Fail);
    assert_eq!(classify_outcome(false, incomplete), SpinOutcome::SearchIncomplete);
    assert!(has_line_starting_with("a\nbc", "b"));
    assert!(!has_line_starting_with("a\nbc", "c"));
    assert!(SpinOutcome::Fail.is_fail());
    assert!(!SpinOutcome::Pass.is_fail());
    assert_eq!(SpinOutcome::Fail.label(), "fail");
}

#[test]
fn driver_steps_and_arguments() {
    let mut step = DriverStep::first();
    let mut errors = vec![step.error()];
    while let Some(next) = step.next() {
        step = next;
        errors.push(step.error());
    }
    assert_eq!(step, DriverStep::Classify);
    assert_eq!(
        errors,
        vec![
            DriverError::StaleTrail,
            DriverError::InstallFailed,
            DriverError::GeneratorFailed,
            DriverError::CompileFailed,
            DriverError::AnalyserFailed,
            DriverError::AnalyserFailed,
        ]
    );
    assert_eq!(check_trail_removed(true), Err(DriverError::StaleTrail));
    assert_eq!(check_trail_removed(false), Ok(()));
    let opts = ModelRunOptions { scheduler: Scheduler::Centralized, rigid: false, quasi_ss: true };
    assert_eq!(
        generator_args(&opts),
        vec!["-a", "-DALGO=SYNTH", "-DSCHEDULER=CENTRALIZED", "-DQUASISS", "MainGathering.pml"]
    );
    assert_eq!(
        compiler_args(),
        vec!["-DMEMLIM=16384", "-DXUSAFE", "-DNOREDUCE", "-O2", "-w", "-o", "pan", "pan.c"]
    );
    assert_eq!(analyser_args(), vec!["-m100000", "-a", "-f", "-E", "-n", "gathering"]);
    assert_eq!(volume_name(None), "SynthLightsRamDisk");
    assert_eq!(volume_name(Some("V".to_string())), "V");
    let w = Workdir::Ramdisk("tmpfs".to_string(), "/mnt/tmp/V".to_string());
    assert_eq!(w.path(), "/mnt/tmp/V");
}

#[test]
fn enclosure_names_are_fresh() {
    let a = new_enclosure_name();
    let b = new_enclosure_name();
    assert!(a.starts_with("enclosure-"));
    assert_eq!(a.len(), 46);
    assert_ne!(a, b);
}
