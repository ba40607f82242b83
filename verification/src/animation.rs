//! The typewriter text animation engine: a finite-state, time-driven string
//! transition system. Text is a sequence of Unicode scalar values, times are
//! monotonic-clock milliseconds handed in by the caller, and interpolation
//! uses the fixed-point easing curve of [`crate::ease`].

use vstd::prelude::*;
use vstd::arithmetic::div_mod::{
    lemma_div_is_ordered, lemma_div_by_multiple, lemma_div_pos_is_pos,
};
use vstd::arithmetic::mul::{
    lemma_mul_inequality, lemma_mul_left_inequality, lemma_mul_nonnegative,
    lemma_mul_strict_inequality,
};
use vstd::arithmetic::div_mod::lemma_multiply_divide_lt;
use std::collections::VecDeque;
use crate::ease::{
    EASE_ONE, in_sine, spec_in_sine, lemma_in_sine_bounds, lemma_in_sine_monotonic,
};

verus! {

/// Milliseconds of each wait / delete / append choreography step.
pub const STEP_DURATION_MS: u64 = 1500;

/// The elapsed fraction of an animation, in fixed point: 0 at or before the
/// start, `EASE_ONE` from the end of the duration on (and always, for a zero
/// duration), linear in between.
pub open spec fn spec_time_factor(now: u64, start: u64, duration: u64) -> int {
    if duration == 0 {
        EASE_ONE as int
    } else if now <= start {
        0
    } else if now - start >= duration {
        EASE_ONE as int
    } else {
        (now - start) * (EASE_ONE as int) / (duration as int)
    }
}

pub proof fn lemma_time_factor_bounds(now: u64, start: u64, duration: u64)
    ensures
        0 <= spec_time_factor(now, start, duration) <= EASE_ONE as int,
{
    if duration != 0 && start < now && now - start < duration {
        let elapsed: int = now - start;
        lemma_mul_nonnegative(elapsed, EASE_ONE as int);
        lemma_div_pos_is_pos(elapsed * (EASE_ONE as int), duration as int);
        lemma_mul_strict_inequality(elapsed, duration as int, EASE_ONE as int);
        lemma_multiply_divide_lt(elapsed * (EASE_ONE as int), duration as int, EASE_ONE as int);
    }
}

pub proof fn lemma_time_factor_monotonic(n1: u64, n2: u64, start: u64, duration: u64)
    requires
        n1 <= n2,
    ensures
        spec_time_factor(n1, start, duration) <= spec_time_factor(n2, start, duration),
{
    lemma_time_factor_bounds(n1, start, duration);
    lemma_time_factor_bounds(n2, start, duration);
    if duration != 0 && start < n1 && n1 - start < duration && start < n2 && n2 - start
        < duration {
        lemma_mul_inequality((n1 - start) as int, (n2 - start) as int, EASE_ONE as int);
        lemma_div_is_ordered(
            (n1 - start) * (EASE_ONE as int),
            (n2 - start) * (EASE_ONE as int),
            duration as int,
        );
    }
}

/// The eased fraction of an animation at time `now`, in fixed point.
pub open spec fn spec_eased_factor(now: u64, start: u64, duration: u64) -> int {
    spec_in_sine(spec_time_factor(now, start, duration))
}

pub proof fn lemma_eased_factor_bounds(now: u64, start: u64, duration: u64)
    ensures
        0 <= spec_eased_factor(now, start, duration) <= EASE_ONE as int,
{
    lemma_time_factor_bounds(now, start, duration);
    lemma_in_sine_bounds(spec_time_factor(now, start, duration));
}

pub proof fn lemma_eased_factor_monotonic(n1: u64, n2: u64, start: u64, duration: u64)
    requires
        n1 <= n2,
    ensures
        spec_eased_factor(n1, start, duration) <= spec_eased_factor(n2, start, duration),
{
    lemma_time_factor_bounds(n1, start, duration);
    lemma_time_factor_monotonic(n1, n2, start, duration);
    lemma_in_sine_monotonic(
        spec_time_factor(n1, start, duration),
        spec_time_factor(n2, start, duration),
    );
}

/// At or past the end of the duration the eased fraction is exactly one.
pub proof fn lemma_eased_factor_full(now: u64, start: u64, duration: u64)
    requires
        duration == 0 || now as int >= start as int + duration as int,
    ensures
        spec_eased_factor(now, start, duration) == EASE_ONE as int,
{
}

fn time_factor_ms(now: u64, start: u64, duration: u64) -> (r: u64)
    ensures
        r == spec_time_factor(now, start, duration),
        r <= EASE_ONE,
{
    proof {
        lemma_time_factor_bounds(now, start, duration);
    }
    if duration == 0 {
        EASE_ONE
    } else if now <= start {
        0
    } else {
        let elapsed = now - start;
        if elapsed >= duration {
            EASE_ONE
        } else {
            let wide: u128 = (elapsed as u128) * (EASE_ONE as u128);
            let r = (wide / (duration as u128)) as u64;
            proof {
                assert((elapsed as int) * (EASE_ONE as int)
                    <= 0xffff_ffff_ffff_ffff * 0x1_0000) by (nonlinear_arith)
                    requires
                        0 <= (elapsed as int) <= 0xffff_ffff_ffff_ffff,
                        EASE_ONE == 4096,
                ;
            }
            r
        }
    }
}

/// `count * eased / EASE_ONE`: how many of `count` characters an eased
/// fraction selects. Never more than `count`, and exactly `count` for a
/// whole-unit fraction.
pub open spec fn spec_eased_count(count: int, eased: int) -> int {
    count * eased / (EASE_ONE as int)
}

pub proof fn lemma_eased_count_bounds(count: int, eased: int)
    requires
        0 <= count,
        0 <= eased <= EASE_ONE as int,
    ensures
        0 <= spec_eased_count(count, eased) <= count,
        eased == EASE_ONE as int ==> spec_eased_count(count, eased) == count,
{
    lemma_mul_nonnegative(count, eased);
    lemma_div_pos_is_pos(count * eased, EASE_ONE as int);
    if count > 0 {
        lemma_mul_left_inequality(count, eased, EASE_ONE as int);
    }
    lemma_div_is_ordered(count * eased, count * (EASE_ONE as int), EASE_ONE as int);
    lemma_div_by_multiple(count, EASE_ONE as int);
}

pub proof fn lemma_eased_count_monotonic(count: int, e1: int, e2: int)
    requires
        0 <= count,
        0 <= e1 <= e2,
    ensures
        spec_eased_count(count, e1) <= spec_eased_count(count, e2),
{
    if count > 0 {
        lemma_mul_left_inequality(count, e1, e2);
    }
    lemma_div_is_ordered(count * e1, count * e2, EASE_ONE as int);
}

fn eased_count(count: usize, eased: u64) -> (r: usize)
    requires
        eased <= EASE_ONE,
    ensures
        r == spec_eased_count(count as int, eased as int),
        r <= count,
{
    proof {
        lemma_eased_count_bounds(count as int, eased as int);
        assert((count as int) * (eased as int) <= 0xffff_ffff_ffff_ffff * 0x1_0000)
            by (nonlinear_arith)
            requires
                0 <= (count as int) <= 0xffff_ffff_ffff_ffff,
                0 <= (eased as int) <= 4096,
        ;
    }
    let wide: u128 = (count as u128) * (eased as u128);
    (wide / (EASE_ONE as u128)) as usize
}

/// One queued step of a choreographed text transition.
pub enum AnimationReq {
    Delete { desired_len: usize, animation_duration: u64 },
    Wait { wait_time: u64 },
    Append { additional_chars: Vec<char>, animation_duration: u64 },
}

/// A running deletion: the text shrinks from `start_len` characters toward
/// `desired_len` as the eased time fraction grows.
pub struct DeleteOverTime {
    pub s: Vec<char>,
    pub start_len: usize,
    pub desired_len: usize,
    pub animation_start: u64,
    pub animation_duration: u64,
}

impl DeleteOverTime {
    /// The bookkeeping invariant: the text sits between the target length
    /// and the length it started from.
    pub open spec fn wf(&self) -> bool {
        self.desired_len <= self.s@.len() <= self.start_len
    }

    /// The length that an update at `now` steers the text toward.
    pub open spec fn spec_len_at(&self, now: u64) -> int {
        self.start_len - spec_eased_count(
            self.start_len - self.desired_len,
            spec_eased_factor(now, self.animation_start, self.animation_duration),
        )
    }

    pub open spec fn spec_finished(&self, now: u64) -> bool {
        spec_time_factor(now, self.animation_start, self.animation_duration) == EASE_ONE as int
    }

    /// Truncates the text to the eased interpolation between `start_len` and
    /// `desired_len` at time `now`.
    pub fn update(&mut self, now: u64)
        requires
            old(self).wf(),
        ensures
            final(self).wf(),
            final(self).s@ == old(self).s@.take(
                vstd::math::min(old(self).s@.len() as int, old(self).spec_len_at(now)),
            ),
            final(self).start_len == old(self).start_len,
            final(self).desired_len == old(self).desired_len,
            final(self).animation_start == old(self).animation_start,
            final(self).animation_duration == old(self).animation_duration,
    {
        let time_factor = self.time_factor(now);
        let delete_factor = in_sine(time_factor);
        proof {
            lemma_eased_count_bounds(
                self.start_len - self.desired_len,
                delete_factor as int,
            );
        }
        let deleted_chars = eased_count(self.start_len - self.desired_len, delete_factor);
        let desired_current_len = self.start_len - deleted_chars;
        self.s.truncate(desired_current_len);
        proof {
            if desired_current_len as int <= old(self).s@.len() {
                assert(self.s@ == old(self).s@.subrange(0, desired_current_len as int));
            }
            assert(self.s@ =~= old(self).s@.take(
                vstd::math::min(old(self).s@.len() as int, old(self).spec_len_at(now)),
            ));
        }
    }

    /// The elapsed fraction of this deletion at `now`, in fixed point.
    pub fn time_factor(&self, now: u64) -> (r: u64)
        ensures
            r == spec_time_factor(now, self.animation_start, self.animation_duration),
            r <= EASE_ONE,
    {
        time_factor_ms(now, self.animation_start, self.animation_duration)
    }

    pub fn finished(&self, now: u64) -> (r: bool)
        ensures
            r == self.spec_finished(now),
    {
        let tf = self.time_factor(now);
        tf == EASE_ONE
    }

    pub fn as_str(&self) -> (r: &Vec<char>)
        ensures
            r@ == self.s@,
    {
        &self.s
    }

    /// The text as it stands once the deletion has run to its end: exactly
    /// the first `desired_len` characters.
    pub fn into_finished_string(self) -> (r: Vec<char>)
        requires
            self.wf(),
        ensures
            r@ == self.s@.take(self.desired_len as int),
            r@.len() == self.desired_len,
    {
        let mut s = self.s;
        s.truncate(self.desired_len);
        s
    }
}

/// A running append: characters move from the pending queue onto the text
/// as the eased time fraction grows.
pub struct AppendOverTime {
    pub s: Vec<char>,
    pub start_len: usize,
    pub additional_characters: VecDeque<char>,
    pub animation_start: u64,
    pub animation_duration: u64,
}

impl AppendOverTime {
    /// The bookkeeping invariant: the text never falls below the length it
    /// started from, and the final length fits the machine.
    pub open spec fn wf(&self) -> bool {
        self.start_len <= self.s@.len()
            && self.s@.len() + self.additional_characters@.len() <= usize::MAX
    }

    /// The length every update steers toward once all pending characters
    /// have been appended; constant across updates.
    pub open spec fn spec_final_len(&self) -> int {
        self.s@.len() + self.additional_characters@.len() as int
    }

    /// The full text this append produces, pending characters included.
    pub open spec fn spec_full_text(&self) -> Seq<char> {
        self.s@ + self.additional_characters@
    }

    /// The length that an update at `now` steers the text toward.
    pub open spec fn spec_len_at(&self, now: u64) -> int {
        self.start_len + spec_eased_count(
            self.spec_final_len() - self.start_len,
            spec_eased_factor(now, self.animation_start, self.animation_duration),
        )
    }

    pub open spec fn spec_finished(&self, now: u64) -> bool {
        spec_time_factor(now, self.animation_start, self.animation_duration) == EASE_ONE as int
    }

    /// Moves pending characters onto the text until it reaches the eased
    /// interpolation between `start_len` and the final length at time `now`.
    /// The pending queue provably never runs dry.
    #[verifier::loop_isolation(false)]
    pub fn update(&mut self, now: u64)
        requires
            old(self).wf(),
        ensures
            final(self).wf(),
            final(self).s@.len() == vstd::math::max(
                old(self).s@.len() as int,
                old(self).spec_len_at(now),
            ),
            final(self).s@ + final(self).additional_characters@ == old(self).spec_full_text(),
            final(self).s@ == old(self).spec_full_text().take(final(self).s@.len() as int),
            final(self).start_len == old(self).start_len,
            final(self).animation_start == old(self).animation_start,
            final(self).animation_duration == old(self).animation_duration,
    {
        let time_factor = self.time_factor(now);
        let append_factor = in_sine(time_factor);
        let current_len = self.s.len();
        let final_len = current_len + self.additional_characters.len();
        proof {
            lemma_eased_count_bounds(final_len - self.start_len, append_factor as int);
        }
        let desired_len = self.start_len + eased_count(final_len - self.start_len, append_factor);
        proof {
            assert(old(self).spec_full_text().take(self.s@.len() as int) =~= self.s@);
        }
        while self.s.len() < desired_len
            invariant
                old(self).start_len == self.start_len,
                old(self).animation_start == self.animation_start,
                old(self).animation_duration == self.animation_duration,
                old(self).s@.len() <= self.s@.len(),
                self.s@.len() <= vstd::math::max(old(self).s@.len() as int, desired_len as int),
                self.s@.len() + self.additional_characters@.len() == final_len,
                self.s@ + self.additional_characters@ == old(self).spec_full_text(),
                self.s@ == old(self).spec_full_text().take(self.s@.len() as int),
            decreases final_len - self.s@.len(),
        {
            let c = match self.additional_characters.pop_front() {
                Some(c) => c,
                None => {
                    proof {
                        assert(false);
                    }
                    ' '
                },
            };
            self.s.push(c);
            proof {
                assert(self.s@ + self.additional_characters@
                    =~= old(self).spec_full_text());
                assert(self.s@ =~= old(self).spec_full_text().take(self.s@.len() as int));
            }
        }
    }

    /// The elapsed fraction of this append at `now`, in fixed point.
    pub fn time_factor(&self, now: u64) -> (r: u64)
        ensures
            r == spec_time_factor(now, self.animation_start, self.animation_duration),
            r <= EASE_ONE,
    {
        time_factor_ms(now, self.animation_start, self.animation_duration)
    }

    pub fn finished(&self, now: u64) -> (r: bool)
        ensures
            r == self.spec_finished(now),
    {
        let tf = self.time_factor(now);
        tf == EASE_ONE
    }

    pub fn as_str(&self) -> (r: &Vec<char>)
        ensures
            r@ == self.s@,
    {
        &self.s
    }

    /// The text as it stands once the append has run to its end: the current
    /// text followed by every pending character.
    pub fn into_finished_string(self) -> (r: Vec<char>)
        requires
            self.wf(),
        ensures
            r@ == self.spec_full_text(),
            r@.len() == self.spec_final_len(),
    {
        let mut s = self.s;
        let mut rest = self.additional_characters;
        proof {
            assert(s@ + rest@ == self.spec_full_text());
        }
        loop
            invariant
                s@ + rest@ == self.spec_full_text(),
                s@.len() + rest@.len() <= usize::MAX,
            ensures
                s@ == self.spec_full_text(),
            decreases rest@.len(),
        {
            match rest.pop_front() {
                Some(c) => {
                    s.push(c);
                    proof {
                        assert(s@ + rest@ =~= self.spec_full_text());
                    }
                },
                None => {
                    proof {
                        assert(s@ =~= self.spec_full_text());
                    }
                    break ;
                },
            }
        }
        s
    }
}

/// `a + b` on the clock, pinned to the top of the range instead of wrapping.
pub open spec fn spec_saturating_add(a: u64, b: u64) -> u64 {
    if a + b <= u64::MAX {
        (a + b) as u64
    } else {
        u64::MAX
    }
}

/// One phase of the typewriter animation; exactly one is live at a time.
pub enum Animation {
    Delete(DeleteOverTime),
    Append(AppendOverTime),
    Wait(Vec<char>, u64),
    Idle(Vec<char>),
}

impl Animation {
    pub open spec fn wf(&self) -> bool {
        match self {
            Animation::Delete(d) => d.wf(),
            Animation::Append(a) => a.wf(),
            Animation::Wait(_, _) => true,
            Animation::Idle(_) => true,
        }
    }

    /// The text currently on display.
    pub open spec fn spec_text(&self) -> Seq<char> {
        match self {
            Animation::Delete(d) => d.s@,
            Animation::Append(a) => a.s@,
            Animation::Wait(s, _) => s@,
            Animation::Idle(s) => s@,
        }
    }

    /// The text this phase settles on once it has run to its end.
    pub open spec fn spec_final_text(&self) -> Seq<char> {
        match self {
            Animation::Delete(d) => d.s@.take(d.desired_len as int),
            Animation::Append(a) => a.spec_full_text(),
            Animation::Wait(s, _) => s@,
            Animation::Idle(s) => s@,
        }
    }

    pub open spec fn spec_finished(&self, now: u64) -> bool {
        match self {
            Animation::Delete(d) => d.spec_finished(now),
            Animation::Append(a) => a.spec_finished(now),
            Animation::Wait(_, t) => now > *t,
            Animation::Idle(_) => true,
        }
    }

    pub fn finished(&self, now: u64) -> (r: bool)
        ensures
            r == self.spec_finished(now),
    {
        match self {
            Animation::Delete(d) => d.finished(now),
            Animation::Append(a) => a.finished(now),
            Animation::Wait(_, t) => now > *t,
            Animation::Idle(_) => true,
        }
    }

    pub fn as_str(&self) -> (r: &Vec<char>)
        ensures
            r@ == self.spec_text(),
    {
        match self {
            Animation::Wait(s, _) => s,
            Animation::Idle(s) => s,
            Animation::Delete(d) => d.as_str(),
            Animation::Append(a) => a.as_str(),
        }
    }

    /// The text once this phase has run to its end: the deletion target for
    /// a deletion, everything pending appended for an append, the held text
    /// otherwise. Its length is always the phase's target length.
    pub fn into_finished_string(self) -> (r: Vec<char>)
        requires
            self.wf(),
        ensures
            r@ == self.spec_final_text(),
    {
        match self {
            Animation::Wait(s, _) => s,
            Animation::Idle(s) => s,
            Animation::Delete(d) => d.into_finished_string(),
            Animation::Append(a) => a.into_finished_string(),
        }
    }

    pub fn update(&mut self, now: u64)
        requires
            old(self).wf(),
        ensures
            final(self).wf(),
            update_rel(*old(self), *final(self), now),
    {
        match self {
            Animation::Delete(d) => d.update(now),
            Animation::Append(a) => a.update(now),
            _ => (),
        }
    }
}

/// How one call of `update` at time `now` relates the phase before the call
/// to the phase after it: deletions truncate to the eased length, appends
/// grow to it, waits and idles hold still.
pub open spec fn update_rel(pre: Animation, post: Animation, now: u64) -> bool {
    match pre {
        Animation::Delete(d) => {
            &&& post matches Animation::Delete(p)
            &&& p.s@ == d.s@.take(vstd::math::min(d.s@.len() as int, d.spec_len_at(now)))
            &&& p.start_len == d.start_len
            &&& p.desired_len == d.desired_len
            &&& p.animation_start == d.animation_start
            &&& p.animation_duration == d.animation_duration
        },
        Animation::Append(a) => {
            &&& post matches Animation::Append(p)
            &&& p.s@.len() == vstd::math::max(a.s@.len() as int, a.spec_len_at(now))
            &&& p.s@ == a.spec_full_text().take(p.s@.len() as int)
            &&& p.s@ + p.additional_characters@ == a.spec_full_text()
            &&& p.start_len == a.start_len
            &&& p.animation_start == a.animation_start
            &&& p.animation_duration == a.animation_duration
        },
        Animation::Wait(s, t) => {
            &&& post matches Animation::Wait(s2, t2)
            &&& s2@ == s@
            &&& t2 == t
        },
        Animation::Idle(s) => {
            &&& post matches Animation::Idle(s2)
            &&& s2@ == s@
        },
    }
}

/// How applying a request to a base text at time `now` relates to the phase
/// it creates.
pub open spec fn apply_rel(req: AnimationReq, base: Seq<char>, now: u64, r: Animation) -> bool {
    match req {
        AnimationReq::Delete { desired_len, animation_duration } => {
            &&& r matches Animation::Delete(d)
            &&& d.s@ == base
            &&& d.start_len == base.len()
            &&& d.desired_len == desired_len
            &&& d.animation_start == now
            &&& d.animation_duration == animation_duration
        },
        AnimationReq::Wait { wait_time } => {
            &&& r matches Animation::Wait(s2, t)
            &&& s2@ == base
            &&& t == spec_saturating_add(now, wait_time)
        },
        AnimationReq::Append { additional_chars, animation_duration } => {
            &&& r matches Animation::Append(a)
            &&& a.s@ == base
            &&& a.start_len == base.len()
            &&& a.additional_characters@ == additional_chars@
            &&& a.animation_start == now
            &&& a.animation_duration == animation_duration
        },
    }
}

/// Turns a queued request into a running phase anchored at `now`, over the
/// text the previous phase finished with.
pub fn apply_animation_req(req: AnimationReq, s: Vec<char>, now: u64) -> (r: Animation)
    requires
        req matches AnimationReq::Delete { desired_len, .. } ==> desired_len <= s@.len(),
        req matches AnimationReq::Append { additional_chars, .. } ==> s@.len()
            + additional_chars@.len() <= usize::MAX,
    ensures
        r.wf(),
        apply_rel(req, s@, now, r),
{
    let s_len = s.len();
    match req {
        AnimationReq::Delete { desired_len, animation_duration } => Animation::Delete(
            DeleteOverTime {
                s,
                start_len: s_len,
                desired_len,
                animation_start: now,
                animation_duration,
            },
        ),
        AnimationReq::Append { additional_chars, animation_duration } => {
            let mut pending: VecDeque<char> = VecDeque::new();
            let mut i: usize = 0;
            while i < additional_chars.len()
                invariant
                    i <= additional_chars@.len(),
                    pending@ == additional_chars@.take(i as int),
                decreases additional_chars@.len() - i,
            {
                pending.push_back(additional_chars[i]);
                i = i + 1;
            }
            proof {
                assert(pending@ =~= additional_chars@);
            }
            Animation::Append(
                AppendOverTime {
                    s,
                    start_len: s_len,
                    additional_characters: pending,
                    animation_start: now,
                    animation_duration,
                },
            )
        },
        AnimationReq::Wait { wait_time } => {
            let end: u64 = if wait_time <= u64::MAX - now {
                now + wait_time
            } else {
                u64::MAX
            };
            Animation::Wait(s, end)
        },
    }
}

/// The index of the first position where `a` and `b` disagree character by
/// character; the length of the shorter one when one is a prefix of the
/// other.
pub open spec fn spec_first_diff(a: Seq<char>, b: Seq<char>) -> int
    decreases a.len(),
{
    if a.len() == 0 || b.len() == 0 {
        0
    } else if a[0] != b[0] {
        0
    } else {
        1 + spec_first_diff(a.drop_first(), b.drop_first())
    }
}

/// Any index that bounds a maximal common prefix is the first difference.
pub proof fn lemma_first_diff_unique(a: Seq<char>, b: Seq<char>, d: int)
    requires
        0 <= d <= a.len(),
        d <= b.len(),
        forall|k: int| 0 <= k < d ==> a[k] == b[k],
        d < a.len() && d < b.len() ==> a[d] != b[d],
    ensures
        d == spec_first_diff(a, b),
    decreases d,
{
    if d == 0 {
    } else {
        assert(a[0] == b[0]);
        lemma_first_diff_unique(a.drop_first(), b.drop_first(), d - 1);
    }
}

fn first_difference(a: &Vec<char>, b: &Vec<char>) -> (d: usize)
    ensures
        d == spec_first_diff(a@, b@),
        d <= a@.len(),
        d <= b@.len(),
{
    let mut i: usize = 0;
    while i < a.len() && i < b.len() && a[i] == b[i]
        invariant
            i <= a@.len(),
            i <= b@.len(),
            forall|k: int| 0 <= k < i ==> a@[k] == b@[k],
        decreases a@.len() - i,
    {
        i = i + 1;
    }
    proof {
        lemma_first_diff_unique(a@, b@, i as int);
    }
    i
}

pub open spec fn req_waits(r: AnimationReq, t: u64) -> bool {
    &&& r matches AnimationReq::Wait { wait_time }
    &&& wait_time == t
}

pub open spec fn req_deletes(r: AnimationReq, len: int, dur: u64) -> bool {
    &&& r matches AnimationReq::Delete { desired_len, animation_duration }
    &&& desired_len == len
    &&& animation_duration == dur
}

pub open spec fn req_appends(r: AnimationReq, chars: Seq<char>, dur: u64) -> bool {
    &&& r matches AnimationReq::Append { additional_chars, animation_duration }
    &&& additional_chars@ == chars
    &&& animation_duration == dur
}

/// The exact request sequence that retypes `a` into `b`: when `a` is a
/// prefix of `b` (or empty), a single append of the missing suffix; else a
/// wait, a deletion back to the common prefix, and an append of the rest.
pub open spec fn spec_requests_shape(a: Seq<char>, b: Seq<char>, reqs: Seq<AnimationReq>) -> bool {
    let d = spec_first_diff(a, b);
    if a.len() == 0 || d == a.len() {
        &&& reqs.len() == 1
        &&& req_appends(reqs[0], b.skip(d), STEP_DURATION_MS)
    } else {
        &&& reqs.len() == 3
        &&& req_waits(reqs[0], STEP_DURATION_MS)
        &&& req_deletes(reqs[1], d, STEP_DURATION_MS)
        &&& req_appends(reqs[2], b.skip(d), STEP_DURATION_MS)
    }
}

/// Diffs the current text against the desired one and queues the retype
/// choreography. A pure function of its two arguments.
pub fn construct_animation_requests(current: &Vec<char>, desired: &Vec<char>) -> (r: VecDeque<
    AnimationReq,
>)
    ensures
        spec_requests_shape(current@, desired@, r@),
{
    let d = first_difference(current, desired);
    let mut ret: VecDeque<AnimationReq> = VecDeque::new();
    if current.len() > 0 && d < current.len() {
        ret.push_back(AnimationReq::Wait { wait_time: STEP_DURATION_MS });
        ret.push_back(
            AnimationReq::Delete { desired_len: d, animation_duration: STEP_DURATION_MS },
        );
    }
    let mut chars: Vec<char> = Vec::new();
    let mut i: usize = d;
    while i < desired.len()
        invariant
            d <= i <= desired@.len(),
            chars@ == desired@.subrange(d as int, i as int),
        decreases desired@.len() - i,
    {
        chars.push(desired[i]);
        i = i + 1;
    }
    proof {
        assert(chars@ =~= desired@.skip(d as int));
    }
    ret.push_back(
        AnimationReq::Append { additional_chars: chars, animation_duration: STEP_DURATION_MS },
    );
    ret
}

/// The first difference never reaches past either string.
pub proof fn lemma_first_diff_bounds(a: Seq<char>, b: Seq<char>)
    ensures
        0 <= spec_first_diff(a, b) <= a.len(),
        spec_first_diff(a, b) <= b.len(),
    decreases a.len(),
{
    if a.len() != 0 && b.len() != 0 && a[0] == b[0] {
        lemma_first_diff_bounds(a.drop_first(), b.drop_first());
    }
}

/// When the current text is a strict prefix of the desired one, the
/// choreography is a single append of exactly the missing suffix: no wait
/// and no deletion.
pub proof fn lemma_requests_for_prefix(a: Seq<char>, b: Seq<char>, reqs: Seq<AnimationReq>)
    requires
        a.len() < b.len(),
        a == b.take(a.len() as int),
        spec_requests_shape(a, b, reqs),
    ensures
        reqs.len() == 1,
        req_appends(reqs[0], b.skip(a.len() as int), STEP_DURATION_MS),
{
    assert(forall|k: int| 0 <= k < a.len() ==> a[k] == b[k]);
    lemma_first_diff_unique(a, b, a.len() as int);
}

/// When the current text is non-empty and already wrong at its first
/// character, the choreography is a wait, a deletion of everything, and an
/// append of the whole desired text.
pub proof fn lemma_requests_for_full_retype(a: Seq<char>, b: Seq<char>, reqs: Seq<AnimationReq>)
    requires
        a.len() > 0,
        b.len() > 0,
        a[0] != b[0],
        spec_requests_shape(a, b, reqs),
    ensures
        reqs.len() == 3,
        req_waits(reqs[0], STEP_DURATION_MS),
        req_deletes(reqs[1], 0, STEP_DURATION_MS),
        req_appends(reqs[2], b, STEP_DURATION_MS),
{
    lemma_first_diff_unique(a, b, 0);
    assert(b.skip(0) =~= b);
}

/// When the current text is empty, the choreography is a single append of
/// the whole desired text.
pub proof fn lemma_requests_for_empty(b: Seq<char>, reqs: Seq<AnimationReq>)
    requires
        spec_requests_shape(Seq::<char>::empty(), b, reqs),
    ensures
        reqs.len() == 1,
        req_appends(reqs[0], b, STEP_DURATION_MS),
{
    lemma_first_diff_unique(Seq::<char>::empty(), b, 0);
    assert(b.skip(0) =~= b);
}

/// For a deleting phase the length an update steers toward never grows as
/// time advances, stays between `desired_len` and `start_len`, and from the
/// end of the duration on is exactly `desired_len`. Since each update also
/// takes the minimum with the current length, the displayed length is
/// non-increasing across updates at any times whatsoever.
pub proof fn lemma_delete_len_monotonic(d: DeleteOverTime, n1: u64, n2: u64)
    requires
        d.wf(),
        n1 <= n2,
    ensures
        d.spec_len_at(n2) <= d.spec_len_at(n1),
        d.desired_len <= d.spec_len_at(n2) <= d.start_len,
        (d.animation_duration == 0 || n2 as int >= d.animation_start as int
            + d.animation_duration as int) ==> d.spec_len_at(n2) == d.desired_len,
{
    let span: int = d.start_len - d.desired_len;
    let e1: int = spec_eased_factor(n1, d.animation_start, d.animation_duration);
    let e2: int = spec_eased_factor(n2, d.animation_start, d.animation_duration);
    lemma_eased_factor_bounds(n1, d.animation_start, d.animation_duration);
    lemma_eased_factor_bounds(n2, d.animation_start, d.animation_duration);
    lemma_eased_factor_monotonic(n1, n2, d.animation_start, d.animation_duration);
    lemma_eased_count_monotonic(span, e1, e2);
    lemma_eased_count_bounds(span, e1);
    lemma_eased_count_bounds(span, e2);
    if d.animation_duration == 0 || n2 as int >= d.animation_start as int
        + d.animation_duration as int {
        lemma_eased_factor_full(n2, d.animation_start, d.animation_duration);
    }
}

/// For an appending phase the length an update steers toward never shrinks
/// as time advances, stays between `start_len` and the final length, and
/// from the end of the duration on is exactly the final length. Since each
/// update also takes the maximum with the current length, the displayed
/// length is non-decreasing across updates at any times whatsoever.
pub proof fn lemma_append_len_monotonic(a: AppendOverTime, n1: u64, n2: u64)
    requires
        a.wf(),
        n1 <= n2,
    ensures
        a.spec_len_at(n1) <= a.spec_len_at(n2),
        a.start_len <= a.spec_len_at(n2) <= a.spec_final_len(),
        (a.animation_duration == 0 || n2 as int >= a.animation_start as int
            + a.animation_duration as int) ==> a.spec_len_at(n2) == a.spec_final_len(),
{
    let span: int = a.spec_final_len() - a.start_len;
    let e1: int = spec_eased_factor(n1, a.animation_start, a.animation_duration);
    let e2: int = spec_eased_factor(n2, a.animation_start, a.animation_duration);
    lemma_eased_factor_bounds(n1, a.animation_start, a.animation_duration);
    lemma_eased_factor_bounds(n2, a.animation_start, a.animation_duration);
    lemma_eased_factor_monotonic(n1, n2, a.animation_start, a.animation_duration);
    lemma_eased_count_monotonic(span, e1, e2);
    lemma_eased_count_bounds(span, e1);
    lemma_eased_count_bounds(span, e2);
    if a.animation_duration == 0 || n2 as int >= a.animation_start as int
        + a.animation_duration as int {
        lemma_eased_factor_full(n2, a.animation_start, a.animation_duration);
    }
}

/// The finished string's length is exactly the phase's target length: the
/// deletion target for a deletion, the started-from length plus everything
/// pending for an append.
pub proof fn lemma_finished_string_length(a: Animation)
    requires
        a.wf(),
    ensures
        a matches Animation::Delete(d) ==> a.spec_final_text().len() == d.desired_len,
        a matches Animation::Append(p) ==> a.spec_final_text().len() == p.s@.len()
            + p.additional_characters@.len(),
{
}

/// Updating a phase never changes the text it will finish with, so the
/// finished string is insensitive to when and how often the phase was
/// updated before being consumed.
pub proof fn lemma_update_preserves_final_text(pre: Animation, post: Animation, now: u64)
    requires
        pre.wf(),
        update_rel(pre, post, now),
    ensures
        post.spec_final_text() == pre.spec_final_text(),
{
    match pre {
        Animation::Delete(d) => {
            lemma_delete_len_monotonic(d, now, now);
            if let Animation::Delete(p) = post {
                assert(p.s@.take(p.desired_len as int) =~= d.s@.take(d.desired_len as int));
            }
        },
        Animation::Append(a) => {
            if let Animation::Append(p) = post {
                assert(p.spec_full_text() == pre.spec_final_text());
            }
        },
        Animation::Wait(_, _) => {},
        Animation::Idle(_) => {},
    }
}

/// Whether a queue of requests can run, in order, starting from a text of
/// `len0` characters: every deletion target is within reach and every
/// append keeps the length within the machine's range.
pub open spec fn reqs_applicable(reqs: Seq<AnimationReq>, len0: int) -> bool
    decreases reqs.len(),
{
    if reqs.len() == 0 {
        true
    } else {
        match reqs[0] {
            AnimationReq::Delete { desired_len, .. } => desired_len <= len0 && reqs_applicable(
                reqs.drop_first(),
                desired_len as int,
            ),
            AnimationReq::Wait { .. } => reqs_applicable(reqs.drop_first(), len0),
            AnimationReq::Append { additional_chars, .. } => len0 + additional_chars@.len()
                <= usize::MAX && reqs_applicable(
                reqs.drop_first(),
                len0 + additional_chars@.len(),
            ),
        }
    }
}

/// The retype choreography for `a` into `b` can always run from `a`.
pub proof fn lemma_requests_applicable(a: Seq<char>, b: Seq<char>, reqs: Seq<AnimationReq>)
    requires
        spec_requests_shape(a, b, reqs),
        a.len() <= usize::MAX,
        b.len() <= usize::MAX,
    ensures
        reqs_applicable(reqs, a.len() as int),
{
    let d = spec_first_diff(a, b);
    lemma_first_diff_bounds(a, b);
    if a.len() == 0 || d == a.len() {
        assert(reqs.drop_first() =~= Seq::<AnimationReq>::empty());
        assert(reqs_applicable(reqs.drop_first(), a.len() + b.skip(d).len() as int));
        assert(reqs_applicable(reqs, a.len() as int));
    } else {
        let q1 = reqs.drop_first();
        let q2 = q1.drop_first();
        assert(q1[0] == reqs[1]);
        assert(q2[0] == reqs[2]);
        assert(q2.drop_first() =~= Seq::<AnimationReq>::empty());
        assert(reqs_applicable(q2.drop_first(), d + b.skip(d).len() as int));
        assert(reqs_applicable(q2, d));
        assert(reqs_applicable(q1, a.len() as int));
        assert(reqs_applicable(reqs, a.len() as int));
    }
}

/// One tick of the orchestration loop. A finished phase is consumed: the
/// next queued request becomes the running phase, or, with the queue empty,
/// the queue is refilled with the choreography from the finished text to
/// `target` and the phase goes idle. A live (or freshly created) phase is
/// then advanced to `now`; the refill path leaves the idle phase untouched.
pub fn advance_animation(
    anim: Animation,
    queue: &mut VecDeque<AnimationReq>,
    now: u64,
    target: &Vec<char>,
) -> (r: Animation)
    requires
        anim.wf(),
        reqs_applicable(old(queue)@, anim.spec_final_text().len() as int),
    ensures
        r.wf(),
        reqs_applicable(final(queue)@, r.spec_final_text().len() as int),
        advance_rel(anim, old(queue)@, now, target@, r, final(queue)@),
{
    let ghost len0: int = anim.spec_final_text().len() as int;
    if !anim.finished(now) {
        let mut r = anim;
        r.update(now);
        proof {
            lemma_update_preserves_final_text(anim, r, now);
        }
        r
    } else {
        let s = anim.into_finished_string();
        match queue.pop_front() {
            Some(req) => {
                proof {
                    assert(old(queue)@[0] == req);
                    assert(old(queue)@.drop_first() =~= queue@);
                }
                let ghost mid_len: int = match &req {
                    AnimationReq::Delete { desired_len, .. } => *desired_len as int,
                    AnimationReq::Wait { .. } => len0,
                    AnimationReq::Append { additional_chars, .. } => len0
                        + additional_chars@.len() as int,
                };
                let mut r = apply_animation_req(req, s, now);
                let ghost mid = r;
                r.update(now);
                proof {
                    lemma_update_preserves_final_text(mid, r, now);
                    assert(mid.spec_final_text().len() == mid_len);
                }
                r
            },
            None => {
                let reqs = construct_animation_requests(&s, target);
                proof {
                    vstd::std_specs::vec::axiom_spec_len(&s);
                    vstd::std_specs::vec::axiom_spec_len(target);
                    lemma_requests_applicable(s@, target@, reqs@);
                }
                *queue = reqs;
                Animation::Idle(s)
            },
        }
    }
}

/// How one orchestration tick relates the phase and queue before it to the
/// phase and queue after it.
pub open spec fn advance_rel(
    pre: Animation,
    q0: Seq<AnimationReq>,
    now: u64,
    target: Seq<char>,
    post: Animation,
    q1: Seq<AnimationReq>,
) -> bool {
    if !pre.spec_finished(now) {
        &&& q1 == q0
        &&& update_rel(pre, post, now)
    } else if q0.len() > 0 {
        &&& q1 == q0.drop_first()
        &&& exists|mid: Animation|
            #[trigger] apply_rel(q0[0], pre.spec_final_text(), now, mid) && update_rel(
                mid,
                post,
                now,
            )
    } else {
        &&& post matches Animation::Idle(s)
        &&& s@ == pre.spec_final_text()
        &&& spec_requests_shape(pre.spec_final_text(), target, q1)
    }
}

/// Runtime check of `advance_animation`'s preconditions, for callers that
/// hold no proof about their phase and queue.
pub fn animation_step_ok(anim: &Animation, queue: &VecDeque<AnimationReq>) -> (r: bool)
    ensures
        r == (anim.wf() && reqs_applicable(queue@, anim.spec_final_text().len() as int)),
{
    let wf_ok: bool = match anim {
        Animation::Delete(d) => d.desired_len <= d.s.len() && d.s.len() <= d.start_len,
        Animation::Append(a) => a.start_len <= a.s.len() && a.additional_characters.len()
            <= usize::MAX - a.s.len(),
        Animation::Wait(_, _) => true,
        Animation::Idle(_) => true,
    };
    if !wf_ok {
        return false;
    }
    let mut len: usize = match anim {
        Animation::Delete(d) => d.desired_len,
        Animation::Append(a) => a.s.len() + a.additional_characters.len(),
        Animation::Wait(s, _) => s.len(),
        Animation::Idle(s) => s.len(),
    };
    let ghost len0: int = len as int;
    let mut i: usize = 0;
    let n = queue.len();
    proof {
        assert(queue@.skip(0) =~= queue@);
    }
    while i < n
        invariant
            i <= n,
            n == queue@.len(),
            anim.wf(),
            len0 == anim.spec_final_text().len(),
            reqs_applicable(queue@, len0) == reqs_applicable(queue@.skip(i as int), len as int),
        decreases n - i,
    {
        proof {
            assert(queue@.skip(i as int)[0] == queue@[i as int]);
            assert(queue@.skip(i as int).drop_first() =~= queue@.skip(i as int + 1));
        }
        match &queue[i] {
            AnimationReq::Delete { desired_len, .. } => {
                if *desired_len > len {
                    return false;
                }
                len = *desired_len;
            },
            AnimationReq::Wait { .. } => {},
            AnimationReq::Append { additional_chars, .. } => {
                if additional_chars.len() > usize::MAX - len {
                    return false;
                }
                len = len + additional_chars.len();
            },
        }
        i = i + 1;
    }
    proof {
        assert(queue@.skip(n as int) =~= Seq::<AnimationReq>::empty());
    }
    true
}

} // verus!
