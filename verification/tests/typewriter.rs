use std::collections::VecDeque;

use prestream::animation::{
    advance_animation, animation_step_ok, apply_animation_req, construct_animation_requests,
    Animation, AnimationReq, STEP_DURATION_MS,
};
use prestream::ease::{in_sine, EASE_ONE};

fn cv(s: &str) -> Vec<char> {
    s.chars().collect()
}

fn text_of(a: &Animation) -> String {
    a.as_str().iter().collect()
}

#[test]
fn easing_endpoints_and_shape() {
    assert_eq!(EASE_ONE, 4096);
    assert_eq!(in_sine(0), 0);
    assert_eq!(in_sine(EASE_ONE), EASE_ONE);
    assert_eq!(in_sine(EASE_ONE + 77), EASE_ONE);
    assert_eq!(in_sine(1024), 311);
    assert_eq!(in_sine(2048), 1198);
    assert_eq!(in_sine(4095), 4012);
    let mut last = 0;
    for t in 0..=4096u64 {
        let e = in_sine(t);
        assert!(e >= last, "easing must never decrease");
        last = e;
    }
}

#[test]
fn prefix_means_single_append() {
    let reqs = construct_animation_requests(&cv("abc"), &cv("abcdef"));
    assert_eq!(reqs.len(), 1);
    match &reqs[0] {
        AnimationReq::Append { additional_chars, animation_duration } => {
            assert_eq!(additional_chars, &cv("def"));
            assert_eq!(*animation_duration, STEP_DURATION_MS);
        }
        r => panic!("expected a single append: {:?}", shape(r)),
    }
}

#[test]
fn mismatch_at_first_char_retypes_everything() {
    let reqs = construct_animation_requests(&cv("hello"), &cv("world"));
    assert_eq!(reqs.len(), 3);
    match &reqs[0] {
        AnimationReq::Wait { wait_time } => assert_eq!(*wait_time, STEP_DURATION_MS),
        r => panic!("expected a wait first: {:?}", shape(r)),
    }
    match &reqs[1] {
        AnimationReq::Delete { desired_len, animation_duration } => {
            assert_eq!(*desired_len, 0);
            assert_eq!(*animation_duration, STEP_DURATION_MS);
        }
        r => panic!("expected a deletion second: {:?}", shape(r)),
    }
    match &reqs[2] {
        AnimationReq::Append { additional_chars, animation_duration } => {
            assert_eq!(additional_chars, &cv("world"));
            assert_eq!(*animation_duration, STEP_DURATION_MS);
        }
        r => panic!("expected an append last: {:?}", shape(r)),
    }
}

#[test]
fn empty_current_appends_everything() {
    let reqs = construct_animation_requests(&cv(""), &cv("anything"));
    assert_eq!(reqs.len(), 1);
    match &reqs[0] {
        AnimationReq::Append { additional_chars, .. } => {
            assert_eq!(additional_chars, &cv("anything"));
        }
        r => panic!("expected a single append: {:?}", shape(r)),
    }
}

#[test]
fn partial_mismatch_deletes_to_common_prefix() {
    let reqs = construct_animation_requests(&cv("stream at 12:00"), &cv("stream at 13:30"));
    assert_eq!(reqs.len(), 3);
    match &reqs[1] {
        AnimationReq::Delete { desired_len, .. } => assert_eq!(*desired_len, 11),
        r => panic!("expected a deletion second: {:?}", shape(r)),
    }
    match &reqs[2] {
        AnimationReq::Append { additional_chars, .. } => {
            assert_eq!(additional_chars, &cv("3:30"));
        }
        r => panic!("expected an append last: {:?}", shape(r)),
    }
}

fn shape(r: &AnimationReq) -> &'static str {
    match r {
        AnimationReq::Delete { .. } => "delete",
        AnimationReq::Wait { .. } => "wait",
        AnimationReq::Append { .. } => "append",
    }
}

#[test]
fn finished_string_has_the_target_length() {
    // a deletion finishes at exactly its target
    let d = apply_animation_req(
        AnimationReq::Delete { desired_len: 2, animation_duration: 1500 },
        cv("hello"),
        100,
    );
    let out = d.into_finished_string();
    assert_eq!(out, cv("he"));

    // an append finishes with everything pending attached
    let a = apply_animation_req(
        AnimationReq::Append { additional_chars: cv("xyz"), animation_duration: 1500 },
        cv("ab"),
        100,
    );
    let out = a.into_finished_string();
    assert_eq!(out, cv("abxyz"));

    // updating first never changes the finished text
    let mut a = apply_animation_req(
        AnimationReq::Append { additional_chars: cv("xyz"), animation_duration: 1500 },
        cv("ab"),
        100,
    );
    a.update(900);
    let out = a.into_finished_string();
    assert_eq!(out, cv("abxyz"));

    let mut d = apply_animation_req(
        AnimationReq::Delete { desired_len: 2, animation_duration: 1500 },
        cv("hello"),
        100,
    );
    d.update(1200);
    assert_eq!(d.into_finished_string(), cv("he"));
}

#[test]
fn deleting_text_length_is_non_increasing() {
    let mut d = apply_animation_req(
        AnimationReq::Delete { desired_len: 0, animation_duration: 1000 },
        cv("abcdef"),
        0,
    );
    let expected = [(0u64, 6usize), (250, 6), (500, 5), (750, 3), (999, 1), (1000, 0), (2000, 0)];
    let mut last = 6usize;
    for (t, want) in expected {
        d.update(t);
        let len = d.as_str().len();
        assert!(len <= last, "deleting must never grow the text");
        assert_eq!(len, want);
        last = len;
    }
    assert!(!d.finished(999));
    assert!(d.finished(1000));
    assert_eq!(text_of(&d), "");
}

#[test]
fn appending_text_length_is_non_decreasing() {
    let mut a = apply_animation_req(
        AnimationReq::Append { additional_chars: cv("abcdef"), animation_duration: 1000 },
        cv(""),
        0,
    );
    let expected = [(0u64, 0usize), (250, 0), (500, 1), (750, 3), (999, 5), (1000, 6)];
    let mut last = 0usize;
    for (t, want) in expected {
        a.update(t);
        let len = a.as_str().len();
        assert!(len >= last, "appending must never shrink the text");
        assert_eq!(len, want);
        last = len;
    }
    assert!(a.finished(1000));
    assert_eq!(text_of(&a), "abcdef");
    // characters arrive in order, from the front of the pending queue
    let mut a = apply_animation_req(
        AnimationReq::Append { additional_chars: cv("abcdef"), animation_duration: 1000 },
        cv(""),
        0,
    );
    a.update(750);
    assert_eq!(text_of(&a), "abc");
}

#[test]
fn wait_and_idle_hold_still() {
    let w = apply_animation_req(AnimationReq::Wait { wait_time: 1500 }, cv("keep"), 100);
    assert!(!w.finished(1600));
    assert!(w.finished(1601));
    let mut w2 = apply_animation_req(AnimationReq::Wait { wait_time: 1500 }, cv("keep"), 100);
    w2.update(5000);
    assert_eq!(text_of(&w2), "keep");
    let idle = Animation::Idle(cv("still"));
    assert!(idle.finished(0));
    assert_eq!(text_of(&idle), "still");
}

#[test]
fn orchestration_cycle_retypes_toward_target() {
    let target = cv("hi");
    let mut queue: VecDeque<AnimationReq> = VecDeque::new();
    let anim = Animation::Idle(cv(""));

    // an idle phase with an empty queue refills the queue from the target
    assert!(animation_step_ok(&anim, &queue));
    let anim = advance_animation(anim, &mut queue, 0, &target);
    assert_eq!(queue.len(), 1);
    assert_eq!(text_of(&anim), "");

    // the next tick pops the append and starts typing
    assert!(animation_step_ok(&anim, &queue));
    let anim = advance_animation(anim, &mut queue, 1, &target);
    assert_eq!(queue.len(), 0);
    assert!(matches!(anim, Animation::Append(_)));

    // well after the duration the phase is finished; the empty queue
    // refills against the (unchanged) target, which needs no retyping
    assert!(animation_step_ok(&anim, &queue));
    let mut anim = advance_animation(anim, &mut queue, 5000, &target);
    anim.update(5000);
    assert_eq!(text_of(&anim), "hi");
}
