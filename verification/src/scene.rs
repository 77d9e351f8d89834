//! The scene model: time-varying values, per-variable animation tables, the
//! command list, and evaluation of a value at a point in time.
//!
//! Scalar parameters are carried as the bit patterns of IEEE-754
//! single-precision numbers. The library never does arithmetic on them; it
//! only orders them, through `key`, an order-preserving integer encoding
//! that agrees with the numeric comparison on every non-NaN value (the two
//! zeros included) and places each NaN pattern deterministically beyond the
//! infinity of its sign. Interpolation itself is left to the caller:
//! evaluation returns either a finished value or the segment to
//! interpolate in.

use vstd::prelude::*;

use crate::data::Color;

verus! {

/// A scene-language value: either a literal scalar (as its bit pattern) or
/// a reference to a named animation variable.
#[derive(Debug, Clone)]
pub enum Val {
    Raw(u32),
    Var(Vec<u8>),
}

/// Three values standing for the x, y and z of a point.
#[derive(Debug, Clone)]
pub struct ValPoint3 {
    pub x: Val,
    pub y: Val,
    pub z: Val,
}

/// One keyframe segment: the variable moves linearly from `from` to `to`
/// over the closed time window `[t1, t2]`.
#[derive(Debug, Copy, Clone, PartialEq, Eq, Structural)]
pub struct Animation {
    pub from: u32,
    pub to: u32,
    pub t1: u32,
    pub t2: u32,
}

/// The animation list of one named variable.
#[derive(Debug, Clone)]
pub struct VarAnims {
    pub name: Vec<u8>,
    pub anims: Vec<Animation>,
}

/// A vertex of a mesh, as three scalar bit patterns.
#[derive(Debug, Copy, Clone, PartialEq, Eq, Structural)]
pub struct MeshPoint {
    pub x: u32,
    pub y: u32,
    pub z: u32,
}

/// One scene command, executed in declaration order against the running
/// transform and draw color.
#[derive(Debug, Clone)]
pub enum Command {
    Point { p: ValPoint3, rad: Val },
    Line(ValPoint3, ValPoint3),
    Triangle(ValPoint3, ValPoint3, ValPoint3),
    Mesh { points: Vec<MeshPoint>, triangles: Vec<usize> },
    Identity,
    Translate(Val, Val, Val),
    Scale(Val, Val, Val),
    Rotate { theta: Val, v: ValPoint3 },
    Color(Color),
}

/// A loaded scene: the ordered command list and the variable table.
#[derive(Debug)]
pub struct Scene {
    pub commands: Vec<Command>,
    pub vars: Vec<VarAnims>,
}

/// Why evaluation failed.
#[derive(Debug, Copy, Clone, PartialEq, Eq, Structural)]
pub enum EvalError {
    UndefinedVariable,
    NoMatchingAnimation,
}

/// What evaluation produced: a finished scalar (a literal, or the held end
/// value of a past segment), or the segment the time falls in, which the
/// caller interpolates.
#[derive(Debug, Copy, Clone, PartialEq, Eq, Structural)]
pub enum EvalOutcome {
    Value(u32),
    Interp(Animation),
}

/// The order key of a scalar bit pattern: negative values (sign bit set)
/// map below positive ones, and within each sign the key grows with the
/// value. Negative zero is given positive zero's key, so the order agrees
/// with the numeric comparison on every non-NaN value; NaN patterns sort
/// with the IEEE total order, beyond the infinity of their sign.
pub open spec fn key(b: u32) -> int {
    if b == 0x8000_0000 {
        0x8000_0000
    } else if b >= 0x8000_0000 {
        0xffff_ffff - b
    } else {
        b + 0x8000_0000
    }
}

/// `a <= b` in scalar order.
pub open spec fn sle(a: u32, b: u32) -> bool {
    key(a) <= key(b)
}

/// `a < b` in scalar order.
pub open spec fn slt(a: u32, b: u32) -> bool {
    key(a) < key(b)
}

/// Computes the order key of a scalar bit pattern.
pub fn key_of(b: u32) -> (k: u32)
    ensures
        k == key(b),
{
    if b == 0x8000_0000 {
        0x8000_0000
    } else if b >= 0x8000_0000 {
        0xffff_ffffu32 - b
    } else {
        b + 0x8000_0000
    }
}

/// `a < b` in scalar order, executably.
pub fn scalar_lt(a: u32, b: u32) -> (r: bool)
    ensures
        r == slt(a, b),
{
    key_of(a) < key_of(b)
}

/// `a <= b` in scalar order, executably.
pub fn scalar_le(a: u32, b: u32) -> (r: bool)
    ensures
        r == sle(a, b),
{
    key_of(a) <= key_of(b)
}

/// Two segments overlap when an endpoint of one falls strictly inside the
/// other's window, in either direction.
pub open spec fn spec_overlaps(a: Animation, b: Animation) -> bool {
    ||| (slt(a.t1, b.t1) && slt(b.t1, a.t2))
    ||| (slt(a.t1, b.t2) && slt(b.t2, a.t2))
    ||| (slt(b.t1, a.t1) && slt(a.t1, b.t2))
    ||| (slt(b.t1, a.t2) && slt(a.t2, b.t2))
}

impl Animation {
    /// Whether this segment overlaps `other`.
    pub fn overlaps(&self, other: &Animation) -> (r: bool)
        ensures
            r == spec_overlaps(*self, *other),
    {
        (scalar_lt(self.t1, other.t1) && scalar_lt(other.t1, self.t2)) || (scalar_lt(
            self.t1,
            other.t2,
        ) && scalar_lt(other.t2, self.t2)) || (scalar_lt(other.t1, self.t1) && scalar_lt(
            self.t1,
            other.t2,
        )) || (scalar_lt(other.t1, self.t2) && scalar_lt(self.t2, other.t2))
    }
}

/// Law: the overlap test does not depend on the order of its arguments.
pub proof fn lemma_overlaps_symmetric(a: Animation, b: Animation)
    ensures
        spec_overlaps(a, b) == spec_overlaps(b, a),
{
}

/// Law: two well-ordered windows that merely touch — the first ends exactly
/// where the second begins — do not overlap, so both are accepted.
pub proof fn lemma_touching_windows_accepted(a: Animation, b: Animation)
    requires
        sle(a.t1, a.t2),
        sle(b.t1, b.t2),
        a.t2 == b.t1,
    ensures
        !spec_overlaps(a, b),
        !spec_overlaps(b, a),
{
}

/// Compares two byte strings for equality.
pub fn bytes_eq(a: &Vec<u8>, b: &Vec<u8>) -> (r: bool)
    ensures
        r == (a@ == b@),
{
    if a.len() != b.len() {
        return false;
    }
    let mut i: usize = 0;
    while i < a.len()
        invariant
            i <= a.len(),
            a@.len() == b@.len(),
            forall|k: int| 0 <= k < i ==> a@[k] == b@[k],
        decreases a.len() - i,
    {
        if a[i] != b[i] {
            return false;
        }
        i = i + 1;
    }
    proof {
        assert(a@ =~= b@);
    }
    true
}

/// The position of the first table entry named `name`.
pub open spec fn var_idx(vars: Seq<VarAnims>, name: Seq<u8>) -> Option<int>
    decreases vars.len(),
{
    if vars.len() == 0 {
        None
    } else if vars[0].name@ == name {
        Some(0)
    } else {
        match var_idx(vars.drop_first(), name) {
            None => None,
            Some(k) => Some(k + 1),
        }
    }
}

/// The first segment, in list order, whose closed window contains `t`.
pub open spec fn spec_first_containing(anims: Seq<Animation>, t: u32) -> Option<Animation>
    decreases anims.len(),
{
    if anims.len() == 0 {
        None
    } else if sle(anims[0].t1, t) && sle(t, anims[0].t2) {
        Some(anims[0])
    } else {
        spec_first_containing(anims.drop_first(), t)
    }
}

/// Scans for the segment to hold after all windows have passed: among the
/// segments that end strictly before `t`, the first one with the largest
/// end time, starting from the candidate `best`.
pub open spec fn spec_hold_from(anims: Seq<Animation>, t: u32, best: Option<Animation>) -> Option<
    Animation,
>
    decreases anims.len(),
{
    if anims.len() == 0 {
        best
    } else {
        let a0 = anims[0];
        let keep = match best {
            None => !slt(a0.t2, t),
            Some(b) => !(slt(a0.t2, t) && slt(b.t2, a0.t2)),
        };
        let best2 = if keep {
            best
        } else {
            Some(a0)
        };
        spec_hold_from(anims.drop_first(), t, best2)
    }
}

/// What evaluating `v` at time `t` against the variable table yields: a
/// literal is itself; a variable is interpolated in the first window
/// containing `t`, held at the end value of the latest window that has
/// passed, and otherwise — the variable exists but `t` precedes all its
/// windows — fails with `NoMatchingAnimation`.
pub open spec fn spec_eval(vars: Seq<VarAnims>, t: u32, v: Val) -> Result<
    EvalOutcome,
    EvalError,
> {
    match v {
        Val::Raw(b) => Ok(EvalOutcome::Value(b)),
        Val::Var(name) => match var_idx(vars, name@) {
            None => Err(EvalError::UndefinedVariable),
            Some(j) => {
                let anims = vars[j].anims@;
                match spec_first_containing(anims, t) {
                    Some(a) => Ok(EvalOutcome::Interp(a)),
                    None => match spec_hold_from(anims, t, None) {
                        Some(a) => Ok(EvalOutcome::Value(a.to)),
                        None => Err(EvalError::NoMatchingAnimation),
                    },
                }
            },
        },
    }
}

/// Componentwise evaluation of a value triple; the first failing component
/// fails the whole triple.
pub open spec fn spec_eval_point(vars: Seq<VarAnims>, t: u32, p: ValPoint3) -> Result<
    (EvalOutcome, EvalOutcome, EvalOutcome),
    EvalError,
> {
    match spec_eval(vars, t, p.x) {
        Err(e) => Err(e),
        Ok(a) => match spec_eval(vars, t, p.y) {
            Err(e) => Err(e),
            Ok(b) => match spec_eval(vars, t, p.z) {
                Err(e) => Err(e),
                Ok(c) => Ok((a, b, c)),
            },
        },
    }
}

/// Law: a literal value evaluates to exactly itself at every time and
/// against every variable table.
pub proof fn lemma_raw_evaluates_to_itself(vars: Seq<VarAnims>, t: u32, b: u32)
    ensures
        spec_eval(vars, t, Val::Raw(b)) == Ok::<EvalOutcome, EvalError>(EvalOutcome::Value(b)),
{
}

/// Law: against a table holding one variable with one segment, evaluating
/// that variable interpolates in the segment for every time inside its
/// window, holds the segment's end value for every time past the window,
/// and fails with `NoMatchingAnimation` for every time before it.
pub proof fn lemma_single_window_evaluation(vars: Seq<VarAnims>, val: Val, a: Animation, t: u32)
    requires
        vars.len() == 1,
        vars[0].anims@ == seq![a],
        match val {
            Val::Var(n) => n@ == vars[0].name@,
            Val::Raw(_) => false,
        },
    ensures
        sle(a.t1, t) && sle(t, a.t2) ==> spec_eval(vars, t, val) == Ok::<EvalOutcome, EvalError>(
            EvalOutcome::Interp(a),
        ),
        slt(a.t2, t) ==> spec_eval(vars, t, val) == Ok::<EvalOutcome, EvalError>(
            EvalOutcome::Value(a.to),
        ),
        slt(t, a.t1) && slt(t, a.t2) ==> spec_eval(vars, t, val) == Err::<
            EvalOutcome,
            EvalError,
        >(EvalError::NoMatchingAnimation),
{
    let anims = vars[0].anims@;
    assert(anims[0] == a);
    assert(anims.drop_first() =~= Seq::<Animation>::empty());
    assert(spec_first_containing(Seq::<Animation>::empty(), t) is None);
    assert(spec_hold_from(Seq::<Animation>::empty(), t, None) is None);
    assert(spec_hold_from(Seq::<Animation>::empty(), t, Some(a)) == Some(a));
}

impl Scene {
    /// Evaluates `val` at `time` against this scene's variable table.
    pub fn eval_at(&self, time: u32, val: &Val) -> (r: Result<EvalOutcome, EvalError>)
        ensures
            r == spec_eval(self.vars@, time, *val),
    {
        let name = match val {
            Val::Raw(b) => {
                return Ok(EvalOutcome::Value(*b));
            },
            Val::Var(s) => s,
        };
        let nv = self.vars.len();
        proof {
            assert(self.vars@.skip(0) =~= self.vars@);
        }
        let mut j: usize = 0;
        while j < nv
            invariant
                j <= nv,
                nv == self.vars.len(),
                var_idx(self.vars@, name@) == match var_idx(self.vars@.skip(j as int), name@) {
                    None => None::<int>,
                    Some(k) => Some(k + j),
                },
            decreases nv - j,
        {
            let ghost rest = self.vars@.skip(j as int);
            proof {
                assert(rest[0] == self.vars@[j as int]);
                assert(rest.drop_first() =~= self.vars@.skip(j as int + 1));
            }
            if bytes_eq(&self.vars[j].name, name) {
                return self.eval_in_list(time, j);
            }
            j = j + 1;
        }
        proof {
            assert(self.vars@.skip(nv as int) =~= Seq::<VarAnims>::empty());
        }
        Err(EvalError::UndefinedVariable)
    }

    /// Evaluates a variable known to live at table position `j`.
    fn eval_in_list(&self, time: u32, j: usize) -> (r: Result<EvalOutcome, EvalError>)
        requires
            j < self.vars.len(),
        ensures
            ({
                let anims = self.vars@[j as int].anims@;
                r == match spec_first_containing(anims, time) {
                    Some(a) => Ok::<EvalOutcome, EvalError>(EvalOutcome::Interp(a)),
                    None => match spec_hold_from(anims, time, None) {
                        Some(a) => Ok(EvalOutcome::Value(a.to)),
                        None => Err(EvalError::NoMatchingAnimation),
                    },
                }
            }),
    {
        let anims = &self.vars[j].anims;
        let n = anims.len();
        proof {
            assert(anims@.skip(0) =~= anims@);
        }
        let mut best: Option<Animation> = None;
        let mut i: usize = 0;
        while i < n
            invariant
                i <= n,
                n == anims@.len(),
                anims@ == self.vars@[j as int].anims@,
                spec_first_containing(anims@, time) == spec_first_containing(
                    anims@.skip(i as int),
                    time,
                ),
                spec_hold_from(anims@, time, None) == spec_hold_from(
                    anims@.skip(i as int),
                    time,
                    best,
                ),
            decreases n - i,
        {
            let ghost rest = anims@.skip(i as int);
            proof {
                assert(rest[0] == anims@[i as int]);
                assert(rest.drop_first() =~= anims@.skip(i as int + 1));
            }
            let a = anims[i];
            if scalar_le(a.t1, time) && scalar_le(time, a.t2) {
                return Ok(EvalOutcome::Interp(a));
            }
            let replace = match best {
                None => scalar_lt(a.t2, time),
                Some(b) => scalar_lt(a.t2, time) && scalar_lt(b.t2, a.t2),
            };
            if replace {
                best = Some(a);
            }
            i = i + 1;
        }
        proof {
            assert(anims@.skip(n as int) =~= Seq::<Animation>::empty());
        }
        match best {
            Some(a) => Ok(EvalOutcome::Value(a.to)),
            None => Err(EvalError::NoMatchingAnimation),
        }
    }

    /// Evaluates a value triple at `time`, componentwise.
    pub fn eval_point_at(&self, time: u32, p: &ValPoint3) -> (r: Result<
        (EvalOutcome, EvalOutcome, EvalOutcome),
        EvalError,
    >)
        ensures
            r == spec_eval_point(self.vars@, time, *p),
    {
        let a = match self.eval_at(time, &p.x) {
            Ok(v) => v,
            Err(e) => {
                return Err(e);
            },
        };
        let b = match self.eval_at(time, &p.y) {
            Ok(v) => v,
            Err(e) => {
                return Err(e);
            },
        };
        let c = match self.eval_at(time, &p.z) {
            Ok(v) => v,
            Err(e) => {
                return Err(e);
            },
        };
        Ok((a, b, c))
    }
}

/// A window is well-formed when it starts no later than it ends.
pub open spec fn anim_wf(a: Animation) -> bool {
    sle(a.t1, a.t2)
}

/// The windows of a list are in non-decreasing start order.
pub open spec fn anims_sorted(anims: Seq<Animation>) -> bool {
    forall|i: int, j: int| #![trigger anims[i], anims[j]]
        0 <= i < j < anims.len() ==> sle(anims[i].t1, anims[j].t1)
}

/// No two windows of a list overlap.
pub open spec fn anims_disjoint(anims: Seq<Animation>) -> bool {
    forall|i: int, j: int| #![trigger anims[i], anims[j]]
        0 <= i < j < anims.len() ==> !spec_overlaps(anims[i], anims[j])
}

/// One variable's animation list is well-formed: every window well-formed,
/// non-decreasing start order kept, and no two windows overlapping.
pub open spec fn anims_ok(anims: Seq<Animation>) -> bool {
    &&& forall|i: int| 0 <= i < anims.len() ==> anim_wf(#[trigger] anims[i])
    &&& anims_sorted(anims)
    &&& anims_disjoint(anims)
}

/// Where `a` lands in an existing animation list: inserted before the first
/// entry whose window begins at or after `a`'s end, refused on the first
/// entry it overlaps, appended otherwise.
pub open spec fn spec_insert_anim(anims: Seq<Animation>, a: Animation) -> Option<Seq<Animation>>
    decreases anims.len(),
{
    if anims.len() == 0 {
        Some(seq![a])
    } else if sle(a.t2, anims[0].t1) {
        Some(seq![a] + anims)
    } else if spec_overlaps(a, anims[0]) {
        None
    } else {
        match spec_insert_anim(anims.drop_first(), a) {
            None => None,
            Some(r) => Some(seq![anims[0]] + r),
        }
    }
}

/// Law: inserting a well-formed window into a well-formed list yields a
/// well-formed list again — the start order and the pairwise disjointness
/// the loader maintains survive every accepted insertion, and the result
/// holds exactly the old windows and the new one.
pub proof fn lemma_insert_anim_preserves_order(anims: Seq<Animation>, a: Animation)
    requires
        anim_wf(a),
        anims_ok(anims),
    ensures
        match spec_insert_anim(anims, a) {
            None => true,
            Some(s) => {
                &&& anims_ok(s)
                &&& s.len() == anims.len() + 1
                &&& forall|i: int| 0 <= i < s.len() ==> (s[i] == a || anims.contains(#[trigger] s[i]))
            },
        },
    decreases anims.len(),
{
    if anims.len() == 0 {
        match spec_insert_anim(anims, a) {
            None => {},
            Some(s) => {
                assert(s =~= seq![a]);
            },
        }
    } else if sle(a.t2, anims[0].t1) {
        let s = seq![a] + anims;
        assert forall|i: int, j: int| #![trigger s[i], s[j]] 0 <= i < j < s.len() implies sle(
            s[i].t1,
            s[j].t1,
        ) && !spec_overlaps(s[i], s[j]) by {
            if i == 0 {
                assert(s[j] == anims[j - 1]);
                assert(sle(anims[0].t1, anims[j - 1].t1));
            } else {
                assert(s[i] == anims[i - 1] && s[j] == anims[j - 1]);
            }
        }
        assert forall|i: int| 0 <= i < s.len() implies (s[i] == a || anims.contains(
            #[trigger] s[i],
        )) by {
            if i > 0 {
                assert(s[i] == anims[i - 1]);
            }
        }
        assert forall|i: int| 0 <= i < s.len() implies anim_wf(#[trigger] s[i]) by {
            if i > 0 {
                assert(s[i] == anims[i - 1]);
            } else {
                assert(s[0] == a);
            }
        }
    } else if spec_overlaps(a, anims[0]) {
    } else {
        let h = anims[0];
        let tail = anims.drop_first();
        assert(anims_ok(tail)) by {
            assert forall|i: int| 0 <= i < tail.len() implies anim_wf(#[trigger] tail[i]) by {
                assert(tail[i] == anims[i + 1]);
            }
            assert forall|i: int, j: int| #![trigger tail[i], tail[j]]
                0 <= i < j < tail.len() implies sle(tail[i].t1, tail[j].t1) && !spec_overlaps(
                tail[i],
                tail[j],
            ) by {
                assert(tail[i] == anims[i + 1] && tail[j] == anims[j + 1]);
            }
        }
        lemma_insert_anim_preserves_order(tail, a);
        match spec_insert_anim(tail, a) {
            None => {},
            Some(r) => {
                let s = seq![h] + r;
                // The head starts no later than the new window: otherwise
                // the new window's start would lie strictly inside the
                // head's window, an overlap this branch has excluded.
                assert(sle(h.t1, a.t1));
                assert forall|i: int| 0 <= i < s.len() implies (s[i] == a || anims.contains(
                    #[trigger] s[i],
                )) by {
                    if i == 0 {
                        assert(anims.contains(h)) by {
                            assert(anims[0] == h);
                        }
                    } else {
                        assert(s[i] == r[i - 1]);
                        if r[i - 1] == a {
                        } else {
                            let k = choose|k: int| 0 <= k < tail.len() && tail[k] == r[i - 1];
                            assert(anims[k + 1] == tail[k]);
                            assert(anims.contains(anims[k + 1]));
                        }
                    }
                }
                assert forall|i: int, j: int| #![trigger s[i], s[j]]
                    0 <= i < j < s.len() implies sle(s[i].t1, s[j].t1) && !spec_overlaps(
                    s[i],
                    s[j],
                ) by {
                    if i == 0 {
                        assert(s[j] == r[j - 1]);
                        if r[j - 1] == a {
                            assert(sle(h.t1, a.t1));
                        } else {
                            let k = choose|k: int| 0 <= k < tail.len() && tail[k] == r[j - 1];
                            assert(tail[k] == anims[k + 1]);
                            assert(sle(anims[0].t1, anims[k + 1].t1));
                            assert(!spec_overlaps(anims[0], anims[k + 1]));
                        }
                    } else {
                        assert(s[i] == r[i - 1] && s[j] == r[j - 1]);
                    }
                }
                assert forall|i: int| 0 <= i < s.len() implies anim_wf(#[trigger] s[i]) by {
                    if i > 0 {
                        assert(s[i] == r[i - 1]);
                    }
                }
            },
        }
    }
}

/// Inserts `a` into an ordered animation list, keeping ascending start
/// order and refusing any overlap; on refusal the list is unchanged.
pub fn insert_anim(anims: &mut Vec<Animation>, a: Animation) -> (r: Result<(), ()>)
    ensures
        match spec_insert_anim(old(anims)@, a) {
            Some(s) => r is Ok && final(anims)@ == s,
            None => r is Err && final(anims)@ == old(anims)@,
        },
{
    let n = anims.len();
    proof {
        assert(old(anims)@.skip(0) =~= old(anims)@);
        match spec_insert_anim(old(anims)@, a) {
            None => {},
            Some(r) => {
                assert(old(anims)@.take(0) + r =~= r);
            },
        }
    }
    let mut i: usize = 0;
    while i < n
        invariant
            i <= n,
            n == anims.len(),
            anims@ == old(anims)@,
            spec_insert_anim(old(anims)@, a) == match spec_insert_anim(old(anims)@.skip(i as int), a) {
                None => None::<Seq<Animation>>,
                Some(r) => Some(old(anims)@.take(i as int) + r),
            },
        decreases n - i,
    {
        let other = anims[i];
        let ghost rest = old(anims)@.skip(i as int);
        proof {
            assert(rest[0] == other);
            assert(rest.drop_first() =~= old(anims)@.skip(i as int + 1));
        }
        if scalar_le(a.t2, other.t1) {
            anims.insert(i, a);
            proof {
                assert(anims@ =~= old(anims)@.take(i as int) + (seq![a] + rest));
            }
            return Ok(());
        }
        if a.overlaps(&other) {
            return Err(());
        }
        proof {
            assert(old(anims)@.take(i as int).push(other) =~= old(anims)@.take(i as int + 1));
            assert(match spec_insert_anim(rest.drop_first(), a) {
                None => true,
                Some(r) => old(anims)@.take(i as int) + (seq![rest[0]] + r) =~= old(anims)@.take(
                    i as int + 1,
                ) + r,
            });
        }
        i = i + 1;
    }
    proof {
        assert(old(anims)@.skip(n as int) =~= Seq::<Animation>::empty());
        assert(old(anims)@.take(n as int) =~= old(anims)@);
        assert(old(anims)@.take(n as int) + seq![a] =~= old(anims)@.push(a));
    }
    anims.push(a);
    Ok(())
}

} // verus!
