use synth_lights::common::{Color, Distance, Move, Scheduler};
use synth_lights::ModelKind;
use std::cmp::Ordering::{Equal, Greater, Less};

#[test]
fn test_color() {
    let c0 = Color(0);
    let c1 = Color(1);
    let c2 = Color(2);
    assert_eq!(c0, Color(0));
    assert_ne!(c0, c1);
    assert!(c0 < c1);
    assert!(c2 > c0);
    assert_eq!(std::cmp::max(c0, c2), c2);
    assert_eq!(std::cmp::min(c0, c2), c0);

    let mut ncols_iter = Color::iter_ncols(4).into_iter();
    for i in 0..4 {
        assert_eq!(ncols_iter.next(), Some(Color(i)));
    }
    assert_eq!(ncols_iter.next(), None);
}

#[test]
fn test_move() {
    assert!(Move::Stay < Move::ToHalf);
    assert!(Move::ToOther > Move::ToHalf);
    assert_eq!(std::cmp::max(Move::Stay, Move::ToHalf), Move::ToHalf);
    assert_eq!(std::cmp::min(Move::Stay, Move::ToHalf), Move::Stay);
    let mut iter = Move::all().into_iter();
    assert_eq!(iter.next(), Some(Move::Stay));
    assert_eq!(iter.next(), Some(Move::ToHalf));
    assert_eq!(iter.next(), Some(Move::ToOther));
    assert_eq!(iter.next(), None);
}

#[test]
fn test_distance() {
    assert!(Distance::Same < Distance::Far);
    assert!(Distance::Far > Distance::Near);
    assert_eq!(
        std::cmp::max(Distance::Same, Distance::Near),
        Distance::Near
    );
    assert_eq!(
        std::cmp::min(Distance::Same, Distance::Near),
        Distance::Same
    );
    let mut iter = Distance::all().into_iter();
    assert_eq!(iter.next(), Some(Distance::Same));
    assert_eq!(iter.next(), Some(Distance::Near));
    assert_eq!(iter.next(), Some(Distance::Far));
    assert_eq!(iter.next(), None);
}

#[test]
fn test_scheduler_ordering_reverse() {
    for lhs in Scheduler::all() {
        for rhs in Scheduler::all() {
            match lhs.partial_cmp(&rhs) {
                None => assert_eq!(rhs.partial_cmp(&lhs), None),
                Some(Equal) => assert_eq!(rhs.partial_cmp(&lhs), Some(Equal)),
                Some(Less) => assert_eq!(rhs.partial_cmp(&lhs), Some(Greater)),
                Some(Greater) => assert_eq!(rhs.partial_cmp(&lhs), Some(Less)),
            }
        }
    }
}

#[test]
fn test_scheduler_ordering_transitivity() {
    for lhs in Scheduler::all() {
        for rhs in Scheduler::all() {
            for via in Scheduler::all() {
                match lhs.partial_cmp(&via) {
                    outcome @ (Some(Less) | Some(Greater)) => {
                        if via.partial_cmp(&rhs) == outcome {
                            assert_eq!(lhs.partial_cmp(&rhs), outcome);
                        }
                    }
                    _ => {}
                }
            }
        }
    }
}

#[test]
fn test_scheduler_ordering_irreflexivity() {
    for sched in Scheduler::all() {
        assert_eq!(sched.partial_cmp(&sched), Some(Equal));
    }
}

#[test]
fn scheduler_minima_are_incomparable() {
    assert_eq!(Scheduler::Centralized.partial_cmp(&Scheduler::FSYNC), None);
    assert_eq!(Scheduler::FSYNC.partial_cmp(&Scheduler::Centralized), None);
    assert!(Scheduler::Centralized < Scheduler::SSYNC);
    assert!(Scheduler::SSYNC < Scheduler::ASYNC);
    assert!(Scheduler::ASYNC < Scheduler::ASYNC_Regular);
    assert!(Scheduler::ASYNC_Regular < Scheduler::ASYNC_Safe);
    assert_eq!(
        Scheduler::ASYNC_LC_Strict.partial_cmp(&Scheduler::ASYNC_Move_Atomic),
        None
    );
    assert_eq!(Scheduler::all().len(), 12);
}

#[test]
fn scheduler_names() {
    assert_eq!(Scheduler::ASYNC_LC_Atomic.name(), "ASYNC_LC_Atomic");
    assert_eq!(Scheduler::ASYNC_LC_Atomic.as_promela(), "ASYNC_LC_ATOMIC");
    assert_eq!(Scheduler::Centralized.as_promela(), "CENTRALIZED");
}

#[test]
fn move_codes_and_order() {
    assert_eq!(Move::Stay.as_code(), "S");
    assert_eq!(Move::ToHalf.as_code(), "H");
    assert_eq!(Move::ToOther.as_code(), "O");
    assert!(Move::Stay < Move::ToOther);
    assert_eq!(Move::default(), Move::Stay);
}

#[test]
fn distance_codes() {
    assert_eq!(Distance::try_parse("s"), Ok(Distance::Same));
    assert_eq!(Distance::try_parse("d"), Ok(Distance::Near));
    assert_eq!(Distance::try_parse("n"), Ok(Distance::Near));
    assert_eq!(Distance::try_parse("f"), Ok(Distance::Far));
    assert!(Distance::try_parse("x").is_err());
    assert!(Distance::try_parse("ss").is_err());
    assert_eq!(Distance::default(), Distance::Same);
}

#[test]
fn color_codes() {
    assert_eq!(Color::try_parse("7"), Ok(Color(7)));
    assert_eq!(Color::try_parse("255"), Ok(Color(255)));
    assert!(Color::try_parse("256").is_err());
    assert!(Color::try_parse("").is_err());
    assert!(Color::try_parse("1a").is_err());
}

#[test]
fn move_words() {
    assert_eq!(Move::try_parse("S"), Ok(Move::Stay));
    assert_eq!(Move::try_parse("stay"), Ok(Move::Stay));
    assert_eq!(Move::try_parse("h"), Ok(Move::ToHalf));
    assert_eq!(Move::try_parse("To_Half"), Ok(Move::ToHalf));
    assert_eq!(Move::try_parse("tohalf"), Ok(Move::ToHalf));
    assert_eq!(Move::try_parse("OTHER"), Ok(Move::ToOther));
    assert_eq!(Move::try_parse("to_other"), Ok(Move::ToOther));
    assert!(Move::try_parse("X").is_err());
    assert!(Move::try_parse("").is_err());
}

#[test]
fn model_kind_and_color_from_text() {
    assert_eq!(ModelKind::try_from("F"), Ok(ModelKind::Full));
    assert_eq!(ModelKind::try_from("I"), Ok(ModelKind::Internal));
    assert_eq!(ModelKind::try_from("E"), Ok(ModelKind::External));
    assert!(ModelKind::try_from("Full").is_err());
    assert_eq!(Color::try_from("42"), Ok(Color(42)));
    assert!(Color::try_from("x").is_err());
}
