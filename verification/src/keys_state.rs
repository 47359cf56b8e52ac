//! The held-key stack of the monophonic engine.
//!
//! The stack records which note indices are currently held, ordered
//! most-recent-press first, without duplicates.  The note that should sound
//! is the front of the stack ("last-pressed wins").  A press of a note that
//! is already held moves it back to the front (re-trigger); a release of a
//! note that is not held does nothing.

use std::collections::VecDeque;

use vstd::prelude::*;

use crate::types::KeyAction;

verus! {

/// `s` with every occurrence of `k` removed, order of the rest kept.
pub open spec fn strip(s: Seq<i32>, k: i32) -> Seq<i32>
    decreases s.len(),
{
    if s.len() == 0 {
        Seq::empty()
    } else if s[0] == k {
        strip(s.drop_first(), k)
    } else {
        seq![s[0]] + strip(s.drop_first(), k)
    }
}

/// The front of the stack: the note that should sound, if any.
pub open spec fn front_of(s: Seq<i32>) -> Option<i32> {
    if s.len() == 0 {
        None
    } else {
        Some(s[0])
    }
}

/// The stack after one key event: a press puts the note at the front,
/// removing it first if it was already held; a release removes the note.
pub open spec fn apply_event(s: Seq<i32>, e: KeyAction) -> Seq<i32> {
    match e {
        KeyAction::Press(n) => seq![n] + strip(s, n),
        KeyAction::Release(n) => strip(s, n),
    }
}

/// The stack after a sequence of key events, applied in order.
pub open spec fn apply_events(s: Seq<i32>, evs: Seq<KeyAction>) -> Seq<i32>
    decreases evs.len(),
{
    if evs.len() == 0 {
        s
    } else {
        apply_event(apply_events(s, evs.drop_last()), evs.last())
    }
}

/// The stack built by a sequence of key events from the empty stack, as the
/// audio worker builds it from the events it drains.
pub open spec fn stack_of(evs: Seq<KeyAction>) -> Seq<i32> {
    apply_events(Seq::empty(), evs)
}

/// Whether note `n` is held after the events `evs`: the last event that
/// touches `n` is a press.
pub open spec fn held(evs: Seq<KeyAction>, n: i32) -> bool
    decreases evs.len(),
{
    if evs.len() == 0 {
        false
    } else {
        match evs.last() {
            KeyAction::Press(m) => m == n || held(evs.drop_last(), n),
            KeyAction::Release(m) => m != n && held(evs.drop_last(), n),
        }
    }
}

/// The position of the most recent press of `n` in `evs`, or -1 if `n` was
/// never pressed.
pub open spec fn last_down(evs: Seq<KeyAction>, n: i32) -> int
    decreases evs.len(),
{
    if evs.len() == 0 {
        -1
    } else if evs.last() == KeyAction::Press(n) {
        evs.len() - 1
    } else {
        last_down(evs.drop_last(), n)
    }
}

/// The ordered set of currently held note indices, most recent press first.
pub struct KeysState {
    state: VecDeque<i32>,
}

impl View for KeysState {
    type V = Seq<i32>;

    closed spec fn view(&self) -> Seq<i32> {
        self.state@
    }
}

impl KeysState {
    /// The stack never holds a note twice.
    pub open spec fn wf(&self) -> bool {
        self@.no_duplicates()
    }

    /// An empty stack: no key is held.
    pub fn new() -> (r: Self)
        ensures
            r@ == Seq::<i32>::empty(),
            r.wf(),
    {
        Self { state: VecDeque::new() }
    }

    /// The note that should sound now: the most recently pressed held note.
    pub fn current(&self) -> (r: Option<i32>)
        ensures
            r == front_of(self@),
    {
        if self.state.len() > 0 {
            Some(self.state[0])
        } else {
            None
        }
    }

    /// Applies one key event and returns the new front of the stack.
    pub fn key_down(&mut self, key_action: KeyAction) -> (r: Option<i32>)
        requires
            old(self).wf(),
        ensures
            final(self).wf(),
            final(self)@ == apply_event(old(self)@, key_action),
            r == front_of(final(self)@),
    {
        match key_action {
            KeyAction::Press(value) => {
                proof {
                    lemma_strip_no_duplicates(self@, value);
                    lemma_strip_contains(self@, value);
                }
                self.remove_key(value);
                self.state.push_front(value);
                proof {
                    assert(self@ =~= apply_event(old(self)@, key_action));
                }
                self.current()
            },
            KeyAction::Release(value) => {
                self.remove_key(value);
                self.current()
            },
        }
    }

    /// The held notes as a vector, most recent press first.
    pub fn held_keys(&self) -> (r: Vec<i32>)
        ensures
            r@ == self@,
    {
        let mut out: Vec<i32> = Vec::new();
        let mut i: usize = 0;
        while i < self.state.len()
            invariant
                i <= self.state@.len(),
                out@ == self.state@.take(i as int),
            decreases self.state@.len() - i,
        {
            out.push(self.state[i]);
            proof {
                assert(self.state@.take(i as int + 1) =~= self.state@.take(i as int).push(
                    self.state@[i as int],
                ));
            }
            i += 1;
        }
        proof {
            assert(self.state@.take(self.state@.len() as int) =~= self.state@);
        }
        out
    }

    /// Removes `key` from the stack if it is present.
    fn remove_key(&mut self, key: i32)
        requires
            old(self).wf(),
        ensures
            final(self).wf(),
            final(self)@ == strip(old(self)@, key),
    {
        let mut i: usize = 0;
        let len = self.state.len();
        while i < len && self.state[i] != key
            invariant
                i <= len,
                len == self.state.len(),
                forall|j: int| 0 <= j < i ==> self.state@[j] != key,
            decreases len - i,
        {
            i += 1;
        }
        proof {
            lemma_strip_no_duplicates(self.state@, key);
        }
        if i < len {
            proof {
                lemma_strip_removes_first(self.state@, key, i as int);
            }
            self.state.remove(i);
        } else {
            proof {
                lemma_strip_absent(self.state@, key);
            }
        }
    }
}

/// Stripping a value that does not occur leaves the sequence unchanged.
proof fn lemma_strip_absent(s: Seq<i32>, k: i32)
    requires
        forall|j: int| 0 <= j < s.len() ==> s[j] != k,
    ensures
        strip(s, k) == s,
    decreases s.len(),
{
    if s.len() == 0 {
        assert(strip(s, k) =~= s);
    } else {
        lemma_strip_absent(s.drop_first(), k);
        assert(strip(s, k) =~= s);
    }
}

/// Stripping removes every occurrence of `k` and no occurrence of anything
/// else.
proof fn lemma_strip_contains(s: Seq<i32>, k: i32)
    ensures
        !strip(s, k).contains(k),
        forall|m: i32| m != k ==> (#[trigger] strip(s, k).contains(m) <==> s.contains(m)),
    decreases s.len(),
{
    if s.len() == 0 {
    } else {
        lemma_strip_contains(s.drop_first(), k);
        assert forall|m: i32| m != k implies (#[trigger] strip(s, k).contains(m) <==> s.contains(
            m,
        )) by {
            lemma_contains_drop_first(s, m);
            if s[0] != k {
                lemma_contains_head_concat(s[0], strip(s.drop_first(), k), m);
            }
        }
        if s[0] != k {
            lemma_contains_head_concat(s[0], strip(s.drop_first(), k), k);
        }
    }
}

/// A sequence contains `m` exactly when its head is `m` or its tail
/// contains `m`.
proof fn lemma_contains_drop_first(s: Seq<i32>, m: i32)
    requires
        s.len() > 0,
    ensures
        s.contains(m) <==> (s[0] == m || s.drop_first().contains(m)),
{
    if s.contains(m) {
        let j = choose|j: int| 0 <= j < s.len() && s[j] == m;
        if j > 0 {
            assert(s.drop_first()[j - 1] == m);
        }
    }
    if s.drop_first().contains(m) {
        let j = choose|j: int| 0 <= j < s.drop_first().len() && s.drop_first()[j] == m;
        assert(s[j + 1] == m);
    }
}

/// `seq![h] + t` contains `m` exactly when `h == m` or `t` contains `m`.
proof fn lemma_contains_head_concat(h: i32, t: Seq<i32>, m: i32)
    ensures
        (seq![h] + t).contains(m) <==> (h == m || t.contains(m)),
{
    let s = seq![h] + t;
    assert(s[0] == h);
    if t.contains(m) {
        let j = choose|j: int| 0 <= j < t.len() && t[j] == m;
        assert(s[j + 1] == m);
    }
    if s.contains(m) {
        let j = choose|j: int| 0 <= j < s.len() && s[j] == m;
        if j > 0 {
            assert(t[j - 1] == m);
        }
    }
}

/// Stripping keeps a duplicate-free sequence duplicate-free.
proof fn lemma_strip_no_duplicates(s: Seq<i32>, k: i32)
    requires
        s.no_duplicates(),
    ensures
        strip(s, k).no_duplicates(),
    decreases s.len(),
{
    if s.len() == 0 {
    } else {
        assert forall|i: int, j: int|
            0 <= i < s.drop_first().len() && 0 <= j < s.drop_first().len() && i != j implies s
            .drop_first()[i] != s.drop_first()[j] by {
            assert(s.drop_first()[i] == s[i + 1]);
            assert(s.drop_first()[j] == s[j + 1]);
        }
        lemma_strip_no_duplicates(s.drop_first(), k);
        if s[0] != k {
            lemma_strip_contains(s.drop_first(), k);
            let r = seq![s[0]] + strip(s.drop_first(), k);
            assert forall|i: int, j: int| 0 <= i < r.len() && 0 <= j < r.len() && i != j implies r[i]
                != r[j] by {
                lemma_strip_subset(s.drop_first(), k);
                if i == 0 && j > 0 {
                    assert(r[j] == strip(s.drop_first(), k)[j - 1]);
                    assert(strip(s.drop_first(), k).contains(r[j]));
                } else if j == 0 && i > 0 {
                    assert(r[i] == strip(s.drop_first(), k)[i - 1]);
                    assert(strip(s.drop_first(), k).contains(r[i]));
                }
            }
        }
    }
}

/// Every element of the stripped sequence occurs in the original.
proof fn lemma_strip_subset(s: Seq<i32>, k: i32)
    ensures
        forall|m: i32| #[trigger] strip(s, k).contains(m) ==> s.contains(m),
    decreases s.len(),
{
    assert forall|m: i32| #[trigger] strip(s, k).contains(m) implies s.contains(m) by {
        lemma_strip_contains(s, k);
    }
}

/// The stack is ordered by recency: a note nearer the front was pressed
/// more recently than every note behind it.
spec fn ordered_by_recency(evs: Seq<KeyAction>, s: Seq<i32>) -> bool {
    forall|i: int, j: int| 0 <= i < j < s.len() ==> last_down(evs, s[j]) < last_down(evs, s[i])
}

/// The position of the last press of a note lies inside the event sequence.
proof fn lemma_last_down_bound(evs: Seq<KeyAction>, n: i32)
    ensures
        -1 <= last_down(evs, n) < evs.len(),
    decreases evs.len(),
{
    if evs.len() == 0 {
    } else {
        lemma_last_down_bound(evs.drop_last(), n);
    }
}

/// Stripping keeps the recency order of the remaining notes.
proof fn lemma_strip_ordered(evs: Seq<KeyAction>, s: Seq<i32>, k: i32)
    requires
        ordered_by_recency(evs, s),
    ensures
        ordered_by_recency(evs, strip(s, k)),
    decreases s.len(),
{
    if s.len() == 0 {
    } else {
        let d = s.drop_first();
        assert forall|i: int, j: int| 0 <= i < j < d.len() implies last_down(evs, d[j])
            < last_down(evs, d[i]) by {
            assert(d[i] == s[i + 1]);
            assert(d[j] == s[j + 1]);
        }
        lemma_strip_ordered(evs, d, k);
        if s[0] == k {
        } else {
            let t = strip(d, k);
            let r = seq![s[0]] + t;
            assert(strip(s, k) == r);
            lemma_strip_subset(d, k);
            assert forall|i: int, j: int| 0 <= i < j < r.len() implies last_down(evs, r[j])
                < last_down(evs, r[i]) by {
                assert(r[j] == t[j - 1]);
                assert(t.contains(t[j - 1]));
                assert(d.contains(r[j]));
                let a = choose|a: int| 0 <= a < d.len() && d[a] == r[j];
                assert(d[a] == s[a + 1]);
                if i == 0 {
                    assert(last_down(evs, s[a + 1]) < last_down(evs, s[0]));
                } else {
                    assert(r[i] == t[i - 1]);
                }
            }
        }
    }
}

/// Induction behind the public stack laws: after any event sequence the
/// stack is duplicate-free, holds exactly the held notes, and is ordered by
/// recency of last press.
proof fn lemma_stack_invariant(evs: Seq<KeyAction>)
    ensures
        stack_of(evs).no_duplicates(),
        forall|n: i32| #[trigger] stack_of(evs).contains(n) <==> held(evs, n),
        ordered_by_recency(evs, stack_of(evs)),
    decreases evs.len(),
{
    if evs.len() == 0 {
        assert(stack_of(evs) =~= Seq::<i32>::empty());
    } else {
        let prior = evs.drop_last();
        let e = evs.last();
        lemma_stack_invariant(prior);
        let s = stack_of(prior);
        let s2 = stack_of(evs);
        assert(s2 == apply_event(s, e));
        match e {
            KeyAction::Press(n) => {
                lemma_strip_contains(s, n);
                lemma_strip_no_duplicates(s, n);
                lemma_strip_subset(s, n);
                lemma_strip_ordered(prior, s, n);
                let t = strip(s, n);
                assert(s2 == seq![n] + t);
                assert forall|m: i32| #[trigger] s2.contains(m) <==> held(evs, m) by {
                    lemma_contains_head_concat(n, t, m);
                }
                assert forall|i: int, j: int|
                    0 <= i < s2.len() && 0 <= j < s2.len() && i != j implies s2[i] != s2[j] by {
                    if i > 0 {
                        assert(s2[i] == t[i - 1]);
                        assert(t.contains(t[i - 1]));
                    }
                    if j > 0 {
                        assert(s2[j] == t[j - 1]);
                        assert(t.contains(t[j - 1]));
                    }
                }
                assert(s2.no_duplicates());
                assert forall|i: int, j: int| 0 <= i < j < s2.len() implies last_down(evs, s2[j])
                    < last_down(evs, s2[i]) by {
                    assert(s2[j] == t[j - 1]);
                    assert(t.contains(t[j - 1]));
                    assert(s2[j] != n);
                    assert(last_down(evs, s2[j]) == last_down(prior, s2[j]));
                    lemma_last_down_bound(prior, s2[j]);
                    if i == 0 {
                        assert(s2[0] == n);
                        assert(last_down(evs, n) == evs.len() - 1);
                    } else {
                        assert(s2[i] == t[i - 1]);
                        assert(t.contains(t[i - 1]));
                        assert(s2[i] != n);
                        assert(last_down(evs, s2[i]) == last_down(prior, s2[i]));
                        assert(last_down(prior, t[j - 1]) < last_down(prior, t[i - 1]));
                    }
                }
            },
            KeyAction::Release(n) => {
                lemma_strip_contains(s, n);
                lemma_strip_no_duplicates(s, n);
                lemma_strip_subset(s, n);
                lemma_strip_ordered(prior, s, n);
                assert(s2 == strip(s, n));
                assert forall|m: i32| #[trigger] s2.contains(m) <==> held(evs, m) by {}
                assert forall|i: int, j: int| 0 <= i < j < s2.len() implies last_down(evs, s2[j])
                    < last_down(evs, s2[i]) by {
                    assert(last_down(prior, s2[j]) < last_down(prior, s2[i]));
                    assert(last_down(evs, s2[i]) == last_down(prior, s2[i]));
                    assert(last_down(evs, s2[j]) == last_down(prior, s2[j]));
                }
            },
        }
    }
}

/// Key-stack uniqueness: whatever sequence of press and release events the
/// worker drains, the stack it builds from them never holds a note twice.
pub proof fn lemma_stack_no_duplicates(evs: Seq<KeyAction>)
    ensures
        stack_of(evs).no_duplicates(),
{
    lemma_stack_invariant(evs);
}

/// Last-pressed wins: after any sequence of key events, the stack holds
/// exactly the held notes (those whose most recent touch is a press), the
/// front is the held note pressed most recently, and the stack is empty
/// exactly when no note is held.
pub proof fn lemma_last_pressed_wins(evs: Seq<KeyAction>)
    ensures
        forall|n: i32| #[trigger] stack_of(evs).contains(n) <==> held(evs, n),
        forall|n: i32|
            front_of(stack_of(evs)) == Some(n) ==> (held(evs, n) && forall|m: i32|
                #[trigger] held(evs, m) ==> last_down(evs, m) <= last_down(evs, n)),
        (front_of(stack_of(evs)) is None) <==> (forall|n: i32| !held(evs, n)),
{
    lemma_stack_invariant(evs);
    let s = stack_of(evs);
    if s.len() > 0 {
        let n = s[0];
        assert(s.contains(n));
        assert forall|m: i32| #[trigger] held(evs, m) implies last_down(evs, m) <= last_down(
            evs,
            n,
        ) by {
            assert(s.contains(m));
            let i = choose|i: int| 0 <= i < s.len() && s[i] == m;
            if i > 0 {
                assert(last_down(evs, s[i]) < last_down(evs, s[0]));
            }
        }
    } else {
        assert forall|n: i32| !held(evs, n) by {
            assert(!s.contains(n));
        }
    }
}

/// Draining events in batches changes nothing: applying two event
/// sequences one after the other is applying their concatenation.  So the
/// stack a worker holds after any series of callbacks is `stack_of` all the
/// events those callbacks drained, in order.
pub proof fn lemma_apply_events_concat(s: Seq<i32>, a: Seq<KeyAction>, b: Seq<KeyAction>)
    ensures
        apply_events(s, a + b) == apply_events(apply_events(s, a), b),
    decreases b.len(),
{
    if b.len() == 0 {
        assert(a + b =~= a);
        assert(apply_events(s, a + b) == apply_events(s, a));
    } else {
        assert((a + b).drop_last() =~= a + b.drop_last());
        assert((a + b).last() == b.last());
        lemma_apply_events_concat(s, a, b.drop_last());
    }
}

/// Re-trigger on re-press: pressing a note moves it to the front of the
/// stack; the rest of the stack keeps its order, and no other note appears
/// or disappears.
pub proof fn lemma_repress_moves_to_front(s: Seq<i32>, n: i32)
    ensures
        apply_event(s, KeyAction::Press(n)).len() > 0,
        apply_event(s, KeyAction::Press(n))[0] == n,
        apply_event(s, KeyAction::Press(n)).drop_first() == strip(s, n),
        forall|m: i32|
            m != n ==> (#[trigger] apply_event(s, KeyAction::Press(n)).contains(m) <==> s.contains(
                m,
            )),
{
    let r = apply_event(s, KeyAction::Press(n));
    assert(r == seq![n] + strip(s, n));
    assert(r.drop_first() =~= strip(s, n));
    lemma_strip_contains(s, n);
    assert forall|m: i32| m != n implies (#[trigger] r.contains(m) <==> s.contains(m)) by {
        lemma_contains_head_concat(n, strip(s, n), m);
    }
}

/// Release tolerance: releasing a note that is not held leaves the stack
/// unchanged.
pub proof fn lemma_release_not_held(s: Seq<i32>, n: i32)
    requires
        !s.contains(n),
    ensures
        apply_event(s, KeyAction::Release(n)) == s,
{
    assert forall|j: int| 0 <= j < s.len() implies s[j] != n by {
        if s[j] == n {
            assert(s.contains(n));
        }
    }
    lemma_strip_absent(s, n);
}

/// When `k` first occurs at position `i` of a duplicate-free sequence,
/// stripping `k` is the same as removing position `i`.
proof fn lemma_strip_removes_first(s: Seq<i32>, k: i32, i: int)
    requires
        s.no_duplicates(),
        0 <= i < s.len(),
        s[i] == k,
        forall|j: int| 0 <= j < i ==> s[j] != k,
    ensures
        strip(s, k) == s.remove(i),
    decreases s.len(),
{
    if i == 0 {
        assert forall|j: int| 0 <= j < s.drop_first().len() implies s.drop_first()[j] != k by {
            assert(s.drop_first()[j] == s[j + 1]);
        }
        lemma_strip_absent(s.drop_first(), k);
        assert(strip(s, k) =~= s.remove(0));
    } else {
        assert forall|a: int, b: int|
            0 <= a < s.drop_first().len() && 0 <= b < s.drop_first().len() && a != b implies s
            .drop_first()[a] != s.drop_first()[b] by {
            assert(s.drop_first()[a] == s[a + 1]);
            assert(s.drop_first()[b] == s[b + 1]);
        }
        assert(s.drop_first()[i - 1] == s[i]);
        assert forall|j: int| 0 <= j < i - 1 implies s.drop_first()[j] != k by {
            assert(s.drop_first()[j] == s[j + 1]);
        }
        lemma_strip_removes_first(s.drop_first(), k, i - 1);
        assert(strip(s, k) =~= s.remove(i));
    }
}

} // verus!
