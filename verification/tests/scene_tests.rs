use tinyrender::scene::{
    insert_anim, key_of, scalar_le, scalar_lt, Animation, EvalError, EvalOutcome, Scene, Val,
    ValPoint3, VarAnims,
};

fn b(x: f32) -> u32 {
    x.to_bits()
}

fn anim(from: f32, to: f32, t1: f32, t2: f32) -> Animation {
    Animation { from: b(from), to: b(to), t1: b(t1), t2: b(t2) }
}

fn scene_with(name: &str, anims: Vec<Animation>) -> Scene {
    Scene {
        commands: vec![],
        vars: vec![VarAnims { name: name.as_bytes().to_vec(), anims }],
    }
}

/// The interpolation the frame driver applies to an `Interp` outcome, as
/// the renderer computes it.
fn lerp_outcome(a: &Animation, t: f32) -> f32 {
    let (from, to) = (f32::from_bits(a.from), f32::from_bits(a.to));
    let (t1, t2) = (f32::from_bits(a.t1), f32::from_bits(a.t2));
    let p = (t - t1) / (t2 - t1);
    from * (1.0 - p) + to * p
}

#[test]
fn scalar_order_matches_float_order() {
    let samples = [-100.0f32, -1.5, -0.5, -0.0, 0.0, 0.25, 1.0, 2.0, 1e10];
    for &x in &samples {
        for &y in &samples {
            assert_eq!(scalar_lt(b(x), b(y)), x < y, "{} < {}", x, y);
            assert_eq!(scalar_le(b(x), b(y)), x <= y, "{} <= {}", x, y);
        }
    }
    assert!(key_of(b(-1.0)) < key_of(b(1.0)));
}

#[test]
fn raw_value_evaluates_to_itself_at_any_time() {
    let s = Scene { commands: vec![], vars: vec![] };
    for &t in &[-10.0f32, 0.0, 5.0, 1e20] {
        let r = s.eval_at(b(t), &Val::Raw(b(5.0)));
        assert_eq!(r, Ok(EvalOutcome::Value(b(5.0))));
        match r.unwrap() {
            EvalOutcome::Value(v) => assert_eq!(f32::from_bits(v), 5.0),
            _ => panic!("expected a finished value"),
        }
    }
}

#[test]
fn animation_window_interpolates_holds_and_fails() {
    let s = scene_with("v", vec![anim(0.0, 10.0, 0.0, 10.0)]);
    let v = Val::Var(b"v".to_vec());

    for (t, want) in [(0.0f32, 0.0f32), (5.0, 5.0), (10.0, 10.0)] {
        match s.eval_at(b(t), &v) {
            Ok(EvalOutcome::Interp(a)) => assert_eq!(lerp_outcome(&a, t), want, "t={}", t),
            other => panic!("t={}: expected a segment, got {:?}", t, other),
        }
    }
    // Past the window: hold the end value.
    assert_eq!(s.eval_at(b(20.0), &v), Ok(EvalOutcome::Value(b(10.0))));
    // Before every window: no matching animation.
    assert_eq!(s.eval_at(b(-1.0), &v), Err(EvalError::NoMatchingAnimation));
}

#[test]
fn undefined_variable_fails() {
    let s = scene_with("v", vec![anim(0.0, 1.0, 0.0, 1.0)]);
    assert_eq!(
        s.eval_at(b(0.5), &Val::Var(b"w".to_vec())),
        Err(EvalError::UndefinedVariable)
    );
}

#[test]
fn hold_picks_the_latest_ended_window() {
    let s = scene_with("v", vec![anim(0.0, 1.0, 0.0, 1.0), anim(5.0, 7.0, 2.0, 3.0)]);
    let v = Val::Var(b"v".to_vec());
    assert_eq!(s.eval_at(b(10.0), &v), Ok(EvalOutcome::Value(b(7.0))));
    // Between the windows only the first has ended.
    assert_eq!(s.eval_at(b(1.5), &v), Ok(EvalOutcome::Value(b(1.0))));
}

#[test]
fn first_containing_window_wins_in_list_order() {
    // Touching windows share t = 5; the earlier one is picked.
    let s = scene_with("v", vec![anim(0.0, 10.0, 0.0, 5.0), anim(20.0, 30.0, 5.0, 10.0)]);
    match s.eval_at(b(5.0), &Val::Var(b"v".to_vec())) {
        Ok(EvalOutcome::Interp(a)) => assert_eq!(a, anim(0.0, 10.0, 0.0, 5.0)),
        other => panic!("expected the first window, got {:?}", other),
    }
}

#[test]
fn touching_windows_are_accepted_as_non_overlapping() {
    let mut anims = vec![anim(0.0, 10.0, 0.0, 5.0)];
    assert_eq!(insert_anim(&mut anims, anim(10.0, 0.0, 5.0, 10.0)), Ok(()));
    assert_eq!(anims.len(), 2);
    assert_eq!(anims[0], anim(0.0, 10.0, 0.0, 5.0));
    assert_eq!(anims[1], anim(10.0, 0.0, 5.0, 10.0));
}

#[test]
fn overlapping_window_is_refused_and_list_unchanged() {
    let mut anims = vec![anim(0.0, 10.0, 0.0, 5.0)];
    assert_eq!(insert_anim(&mut anims, anim(0.0, 1.0, 3.0, 8.0)), Err(()));
    assert_eq!(anims, vec![anim(0.0, 10.0, 0.0, 5.0)]);
}

#[test]
fn insert_keeps_ascending_start_order() {
    let mut anims = vec![anim(0.0, 1.0, 6.0, 7.0)];
    assert_eq!(insert_anim(&mut anims, anim(0.0, 1.0, 0.0, 1.0)), Ok(()));
    assert_eq!(anims[0], anim(0.0, 1.0, 0.0, 1.0));
    assert_eq!(anims[1], anim(0.0, 1.0, 6.0, 7.0));
}

#[test]
fn touching_window_inserted_before_keeps_order() {
    // The new window ends exactly where the existing one starts: it must
    // land before it, keeping non-decreasing start order.
    let mut anims = vec![anim(10.0, 0.0, 5.0, 10.0)];
    assert_eq!(insert_anim(&mut anims, anim(0.0, 10.0, 0.0, 5.0)), Ok(()));
    assert_eq!(anims[0], anim(0.0, 10.0, 0.0, 5.0));
    assert_eq!(anims[1], anim(10.0, 0.0, 5.0, 10.0));
}

#[test]
fn zero_signs_compare_equal() {
    assert!(scalar_le(b(-0.0), b(0.0)));
    assert!(scalar_le(b(0.0), b(-0.0)));
    assert!(!scalar_lt(b(-0.0), b(0.0)));
    assert!(!scalar_lt(b(0.0), b(-0.0)));
    // A window starting at +0.0 contains time -0.0.
    let s = scene_with("v", vec![anim(1.0, 2.0, 0.0, 1.0)]);
    match s.eval_at(b(-0.0), &Val::Var(b"v".to_vec())) {
        Ok(EvalOutcome::Interp(a)) => assert_eq!(a, anim(1.0, 2.0, 0.0, 1.0)),
        other => panic!("expected the window, got {:?}", other),
    }
}

#[test]
fn overlap_test_is_symmetric() {
    let a = anim(0.0, 1.0, 0.0, 5.0);
    let c = anim(0.0, 1.0, 3.0, 8.0);
    assert!(a.overlaps(&c));
    assert!(c.overlaps(&a));
    let d = anim(0.0, 1.0, 6.0, 9.0);
    assert!(!a.overlaps(&d));
    assert!(!d.overlaps(&a));
}

#[test]
fn negative_window_evaluates_with_total_order() {
    let s = scene_with("v", vec![anim(1.0, 2.0, -5.0, -4.0)]);
    let v = Val::Var(b"v".to_vec());
    match s.eval_at(b(-4.5), &v) {
        Ok(EvalOutcome::Interp(a)) => assert_eq!(a, anim(1.0, 2.0, -5.0, -4.0)),
        other => panic!("expected the window, got {:?}", other),
    }
    // After the window ends the end value holds, even for negative times.
    assert_eq!(s.eval_at(b(-2.0), &v), Ok(EvalOutcome::Value(b(2.0))));
    assert_eq!(s.eval_at(b(-6.0), &v), Err(EvalError::NoMatchingAnimation));
}

#[test]
fn point_triple_evaluates_componentwise() {
    let s = scene_with("v", vec![anim(0.0, 10.0, 0.0, 10.0)]);
    let p = ValPoint3 {
        x: Val::Raw(b(1.0)),
        y: Val::Var(b"v".to_vec()),
        z: Val::Raw(b(3.0)),
    };
    let (x, y, z) = s.eval_point_at(b(20.0), &p).unwrap();
    assert_eq!(x, EvalOutcome::Value(b(1.0)));
    assert_eq!(y, EvalOutcome::Value(b(10.0)));
    assert_eq!(z, EvalOutcome::Value(b(3.0)));

    let bad = ValPoint3 {
        x: Val::Raw(b(1.0)),
        y: Val::Var(b"w".to_vec()),
        z: Val::Raw(b(3.0)),
    };
    assert_eq!(s.eval_point_at(b(0.0), &bad), Err(EvalError::UndefinedVariable));
}
