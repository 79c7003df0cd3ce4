//! Idle behaviour: the base sit+blink clip and one-shot "cute" actions
//! picked on a fixed cooldown without repeating the last ones.
//! Times are nanoseconds on the monotonic clock.
use vstd::prelude::*;

use std::collections::VecDeque;

use crate::clock::unix_now_nanos;

verus! {

/// Default sit+blink clip name (looping base idle).
pub const IDLE_BASE: &'static str = "idle_blink";

/// One-shot pool currently enabled.
pub const IDLE_ACTION_ENABLED: [&'static str; 1] = ["idle_stretch"];

/// Cooldown between one-shot idle actions: one cute action a minute.
pub const IDLE_ACTION_INTERVAL_NANOS: u128 = 60_000_000_000;

/// Shortest cooldown honoured, whatever the configured one.
pub const MIN_ACTION_INTERVAL_NANOS: u128 = 500_000_000;

/// How many recent actions are kept out of the next pick.
pub const HISTORY_LIMIT: usize = 2;

pub open spec fn names_view(v: Seq<String>) -> Seq<Seq<char>> {
    v.map_values(|s: String| s@)
}

pub open spec fn refs_view(v: Seq<&String>) -> Seq<Seq<char>> {
    v.map_values(|s: &String| s@)
}

/// The picker's state as the contracts see it.
pub struct IdleModel {
    pub history: Seq<Seq<char>>,
    pub action_names: Seq<Seq<char>>,
    pub interval: u128,
    pub last_action_at: u128,
    /// Draws taken so far; each clock-seeded pick mixes it into its seed.
    pub draws: u64,
}

/// Picks one-shot idle actions on a fixed cooldown. The timer is reset only
/// by actually starting an action.
#[derive(Debug)]
pub struct IdlePicker {
    history: VecDeque<String>,
    action_names: Vec<String>,
    action_interval: u128,
    last_action_at: u128,
    draws: u64,
}

impl View for IdlePicker {
    type V = IdleModel;

    closed spec fn view(&self) -> IdleModel {
        IdleModel {
            history: names_view(self.history@),
            action_names: names_view(self.action_names@),
            interval: self.action_interval,
            last_action_at: self.last_action_at,
            draws: self.draws,
        }
    }
}

/// Cooldown actually waited: the configured one, at least half a second.
pub open spec fn effective_interval(interval: u128) -> u128 {
    if interval >= MIN_ACTION_INTERVAL_NANOS { interval } else { MIN_ACTION_INTERVAL_NANOS }
}

/// Whether an action is due at `now`.
pub open spec fn action_due_spec(m: IdleModel, now: u128) -> bool {
    m.action_names.len() > 0 && now >= m.last_action_at && now - m.last_action_at >= effective_interval(m.interval)
}

/// Some action was not among the recent picks.
pub open spec fn has_fresh_action(m: IdleModel) -> bool {
    exists|j: int| 0 <= j < m.action_names.len() && !m.history.contains(#[trigger] m.action_names[j])
}

/// History after recording `choice`, trimmed to the most recent picks.
pub open spec fn record_choice(history: Seq<Seq<char>>, choice: Seq<char>) -> Seq<Seq<char>> {
    let h = history.push(choice);
    if h.len() > HISTORY_LIMIT { h.subrange(h.len() - HISTORY_LIMIT, h.len() as int) } else { h }
}

/// Calls nothing outside: a seed from the wall clock's nanoseconds and a
/// draw counter, spread by two multiplies.
pub open spec fn draw_seed(nanos: Option<u128>, counter: u64) -> u64 {
    let t: u64 = match nanos {
        Some(n) => n as u64,
        None => 0,
    };
    vstd::wrapping::u64_specs::wrapping_add(
        vstd::wrapping::u64_specs::wrapping_mul(t, 0x9E37_79B9_7F4A_7C15u64),
        vstd::wrapping::u64_specs::wrapping_mul(counter, 0xBF58_476D_1CE4_E5B9u64),
    )
}

/// The seed `draw_seed` gives for a clock reading and a draw count.
fn seed_for(nanos: Option<u128>, counter: u64) -> (r: u64)
    ensures
        r == draw_seed(nanos, counter),
{
    let t: u64 = match nanos {
        Some(n) => #[verifier::truncate] (n as u64),
        None => 0,
    };
    t.wrapping_mul(0x9E37_79B9_7F4A_7C15).wrapping_add(counter.wrapping_mul(0xBF58_476D_1CE4_E5B9))
}

/// An action name not among the recent picks.
pub open spec fn is_fresh(m: IdleModel) -> spec_fn(Seq<char>) -> bool {
    |n: Seq<char>| !m.history.contains(n)
}

/// The actions not among the recent picks, in their configured order.
pub open spec fn fresh_actions(m: IdleModel) -> Seq<Seq<char>> {
    m.action_names.filter(is_fresh(m))
}

/// Where a pick draws from: the fresh actions, or all of them when every
/// one was picked recently.
pub open spec fn pick_pool(m: IdleModel) -> Seq<Seq<char>> {
    if fresh_actions(m).len() > 0 { fresh_actions(m) } else { m.action_names }
}

/// The action a draw of `seed` picks: the seed, reduced modulo the pool's
/// size, indexes the pool.
pub open spec fn picked_action(m: IdleModel, seed: u64) -> Seq<char> {
    let pool = pick_pool(m);
    pool[((seed as usize) % (pool.len() as usize)) as int]
}

fn string_in(list: &VecDeque<String>, s: &String) -> (r: bool)
    ensures
        r == names_view(list@).contains(s@),
{
    let mut i: usize = 0;
    while i < list.len()
        invariant
            i <= list@.len(),
            forall|j: int| 0 <= j < i ==> list@[j]@ != s@,
        decreases list@.len() - i,
    {
        if list[i] == *s {
            assert(names_view(list@)[i as int] == s@);
            return true;
        }
        i += 1;
    }
    assert forall|j: int| 0 <= j < names_view(list@).len() implies names_view(list@)[j] != s@ by {
        assert(list@[j]@ != s@);
    }
    false
}

impl IdlePicker {
    /// A picker over `action_names` with cooldown `interval` (nanoseconds),
    /// its timer started at `now`.
    pub fn new(action_names: Vec<String>, now: u128, interval: u128) -> (r: Self)
        ensures
            r@.history.len() == 0,
            r@.action_names == names_view(action_names@),
            r@.interval == interval,
            r@.last_action_at == now,
    {
        IdlePicker { history: VecDeque::new(), action_names, action_interval: interval, last_action_at: now, draws: 1 }
    }

    pub fn base_name(&self) -> (r: &'static str)
        ensures
            r@ == IDLE_BASE@,
    {
        IDLE_BASE
    }

    /// Always start from sit+blink; the action timer is not reset.
    pub fn pick_initial(&mut self, now: u128) -> (r: String)
        ensures
            r@ == IDLE_BASE@,
            final(self)@ == old(self)@,
    {
        IDLE_BASE.to_owned()
    }

    /// Restart the cooldown (after an action finishes or a heavy state ends).
    pub fn mark_action_done(&mut self, now: u128)
        ensures
            final(self)@ == (IdleModel { last_action_at: now, ..old(self)@ }),
    {
        self.last_action_at = now;
    }

    /// Back on the base clip: deliberately leaves the cooldown running.
    pub fn mark_base(&mut self, now: u128)
        ensures
            final(self)@ == old(self)@,
    {
    }

    /// True when the cooldown has elapsed (does not consume it).
    pub fn action_due(&self, now: u128) -> (r: bool)
        ensures
            r == action_due_spec(self@, now),
    {
        if self.action_names.len() == 0 {
            return false;
        }
        let need = if self.action_interval >= MIN_ACTION_INTERVAL_NANOS {
            self.action_interval
        } else {
            MIN_ACTION_INTERVAL_NANOS
        };
        let elapsed = if now >= self.last_action_at { now - self.last_action_at } else { 0 };
        elapsed >= need
    }

    pub fn peek_action_names(&self) -> (r: &[String])
        ensures
            names_view(r@) == self@.action_names,
    {
        self.action_names.as_slice()
    }

    /// Nanoseconds until the next action is due (0 once due).
    pub fn nanos_until_action(&self, now: u128) -> (r: u128)
        ensures
            r == if now >= self@.last_action_at && now - self@.last_action_at < self@.interval {
                (self@.interval - (now - self@.last_action_at)) as u128
            } else if now < self@.last_action_at {
                self@.interval
            } else {
                0
            },
    {
        let elapsed = if now >= self.last_action_at { now - self.last_action_at } else { 0 };
        if elapsed < self.action_interval { self.action_interval - elapsed } else { 0 }
    }

    pub fn interval_nanos(&self) -> (r: u128)
        ensures
            r == self@.interval,
    {
        self.action_interval
    }

    /// Pick the action that `seed` draws, preferring ones not among the
    /// recent picks, and record it.
    fn pick_action(&mut self, seed: u64) -> (r: String)
        requires
            old(self)@.action_names.len() > 0,
        ensures
            r@ == picked_action(old(self)@, seed),
            final(self)@ == (IdleModel { history: record_choice(old(self)@.history, r@), ..old(self)@ }),
    {
        let ghost m = self@;
        let mut pool: Vec<&String> = Vec::new();
        let mut i: usize = 0;
        while i < self.action_names.len()
            invariant
                i <= self.action_names@.len(),
                m == self@,
                refs_view(pool@) == m.action_names.take(i as int).filter(is_fresh(m)),
            decreases self.action_names@.len() - i,
        {
            let n = &self.action_names[i];
            assert(m.action_names[i as int] == n@);
            let ghost before = pool@;
            proof {
                let t1 = m.action_names.take(i + 1);
                assert(t1.drop_last() =~= m.action_names.take(i as int));
                assert(t1.last() == n@);
                reveal(Seq::filter);
            }
            if !string_in(&self.history, n) {
                pool.push(n);
                assert(refs_view(pool@) =~= refs_view(before).push(n@));
            }
            i += 1;
        }
        assert(m.action_names.take(self.action_names@.len() as int) =~= m.action_names);
        assert(m.action_names.len() == self.action_names@.len());
        let choice: String = if pool.len() == 0 {
            let idx = ((seed as usize) % self.action_names.len()) as usize;
            assert(m.action_names[idx as int] == self.action_names@[idx as int]@);
            self.action_names[idx].clone()
        } else {
            let idx = ((seed as usize) % pool.len()) as usize;
            assert(refs_view(pool@)[idx as int] == pool@[idx as int]@);
            pool[idx].clone()
        };
        let ghost h0 = self.history@;
        self.history.push_back(choice.clone());
        assert(names_view(self.history@) =~= names_view(h0).push(choice@));
        let ghost h = names_view(h0).push(choice@);
        let ghost mut start: int = 0;
        while self.history.len() > HISTORY_LIMIT
            invariant
                0 <= start,
                h.len() <= HISTORY_LIMIT ==> start == 0,
                h.len() > HISTORY_LIMIT ==> start <= h.len() - HISTORY_LIMIT,
                names_view(self.history@) =~= h.subrange(start, h.len() as int),
                self@.action_names == m.action_names,
                self@.interval == m.interval,
                self@.last_action_at == m.last_action_at,
                self@.draws == m.draws,
            decreases self.history@.len(),
        {
            let ghost h1 = self.history@;
            let _ = self.history.pop_front();
            assert(names_view(self.history@) =~= names_view(h1).subrange(1, names_view(h1).len() as int));
            proof {
                start = start + 1;
            }
        }
        assert(names_view(self.history@) =~= record_choice(m.history, choice@));
        choice
    }

    /// `take_action` for a given draw: when due, the action that `seed`
    /// picks is committed and the cooldown restarts from `now`.
    pub fn take_action_seeded(&mut self, now: u128, seed: u64) -> (r: Option<String>)
        ensures
            !action_due_spec(old(self)@, now) ==> r.is_none() && final(self)@ == old(self)@,
            action_due_spec(old(self)@, now) ==> {
                &&& r matches Some(c)
                &&& c@ == picked_action(old(self)@, seed)
                &&& final(self)@ == (IdleModel {
                    history: record_choice(old(self)@.history, c@),
                    last_action_at: now,
                    ..old(self)@
                })
            },
    {
        if !self.action_due(now) {
            return None;
        }
        let choice = self.pick_action(seed);
        self.last_action_at = now;
        Some(choice)
    }

    /// Pick and commit an action when due; the cooldown restarts from `now`.
    /// The draw is seeded from the wall clock and the draw count, so which
    /// action comes is what `picked_action` gives for some reading of the
    /// clock: one not among the recent picks whenever there is such a one.
    pub fn take_action(&mut self, now: u128) -> (r: Option<String>)
        ensures
            !action_due_spec(old(self)@, now) ==> r.is_none() && final(self)@ == old(self)@,
            action_due_spec(old(self)@, now) ==> {
                &&& r matches Some(c)
                &&& exists|nanos: Option<u128>| c@ == picked_action(old(self)@, #[trigger] draw_seed(nanos, old(self)@.draws))
                &&& old(self)@.action_names.contains(c@)
                &&& has_fresh_action(old(self)@) ==> !old(self)@.history.contains(c@)
                &&& final(self)@ == (IdleModel {
                    history: record_choice(old(self)@.history, c@),
                    last_action_at: now,
                    draws: vstd::wrapping::u64_specs::wrapping_add(old(self)@.draws, 1),
                    ..old(self)@
                })
            },
    {
        if !self.action_due(now) {
            return None;
        }
        let c = self.draws;
        self.draws = c.wrapping_add(1);
        let nanos = unix_now_nanos();
        let seed = seed_for(nanos, c);
        let count = self.action_names.len();
        proof {
            assert(self@.action_names.len() == count);
            assert(count > 0);
            lemma_pick_is_an_action(self@, seed);
        }
        self.take_action_seeded(now, seed)
    }

    /// Due-check and take in one call.
    pub fn maybe_start_action(&mut self, now: u128) -> (r: Option<String>)
        ensures
            !action_due_spec(old(self)@, now) ==> r.is_none() && final(self)@ == old(self)@,
            action_due_spec(old(self)@, now) ==> {
                &&& r matches Some(c)
                &&& old(self)@.action_names.contains(c@)
                &&& has_fresh_action(old(self)@) ==> !old(self)@.history.contains(c@)
                &&& final(self)@.last_action_at == now
            },
    {
        self.take_action(now)
    }
}

/// Taking an action restarts the cooldown: nothing is due again until a
/// full interval after it, and then one is (while there are actions).
pub proof fn lemma_cooldown_restarts(m: IdleModel, t: u128, later: u128)
    requires
        m.action_names.len() > 0,
    ensures
        ({
            let after = IdleModel { last_action_at: t, ..m };
            &&& t <= later < t + effective_interval(m.interval) ==> !action_due_spec(after, later)
            &&& later >= t + effective_interval(m.interval) ==> action_due_spec(after, later)
        }),
{
}

/// The recent-pick history never grows past its limit and always ends with
/// the latest pick.
pub proof fn lemma_history_bounded(history: Seq<Seq<char>>, choice: Seq<char>)
    requires
        history.len() <= HISTORY_LIMIT,
    ensures
        record_choice(history, choice).len() <= HISTORY_LIMIT,
        record_choice(history, choice).last() == choice,
{
}

/// A pick is always one of the actions, and one not among the recent picks
/// whenever there is such a one.
pub proof fn lemma_pick_is_an_action(m: IdleModel, seed: u64)
    requires
        0 < m.action_names.len() <= usize::MAX,
    ensures
        m.action_names.contains(picked_action(m, seed)),
        has_fresh_action(m) ==> !m.history.contains(picked_action(m, seed)),
        has_fresh_action(m) <==> fresh_actions(m).len() > 0,
{
    broadcast use vstd::seq_lib::group_filter_ensures;
    let f = fresh_actions(m);
    if has_fresh_action(m) {
        let j = choose|j: int| 0 <= j < m.action_names.len() && !m.history.contains(#[trigger] m.action_names[j]);
        assert(is_fresh(m)(m.action_names[j]));
        assert(f.contains(m.action_names[j]));
    }
    assert(f.len() <= m.action_names.len());
    if f.len() > 0 {
        let i = ((seed as usize) % (f.len() as usize)) as int;
        assert(0 <= i < f.len());
        assert(is_fresh(m)(f[i]));
        m.action_names.lemma_filter_contains_rev(is_fresh(m), f[i]);
        assert(f.contains(f[i]));
        let j = choose|j: int| 0 <= j < m.action_names.len() && m.action_names[j] == f[i];
        assert(!m.history.contains(m.action_names[j]));
    } else {
        let i = ((seed as usize) % (m.action_names.len() as usize)) as int;
        assert(m.action_names[i] == picked_action(m, seed));
    }
}

} // verus!
