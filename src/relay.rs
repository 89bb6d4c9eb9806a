//! The caller's hold queue: incoming messages wait for a delay before they
//! are broadcast and logged, are kept aside while the caller pauses, and
//! can be removed before their time (which the log records as a deletion).
//! Times are milliseconds on the caller's monotonic clock.
use vstd::prelude::*;

verus! {

#[derive(Debug, Clone, PartialEq, Eq)]
pub struct Held {
    pub msg: String,
    pub arrived: u64,
}

#[derive(Debug)]
pub struct Relay {
    /// Messages waiting for their delay, oldest first.
    pub held: Vec<Held>,
    /// Messages that came in while paused, oldest first.
    pub waiting: Vec<String>,
}

/// A held message, as text and arrival time, whose delay has run out at
/// `now`.
pub open spec fn is_due(h: (Seq<char>, u64), now: u64, delay: u64) -> bool {
    h.1 as int + delay as int <= now as int
}

/// How many messages at the front of `s` are due, up to the first that is
/// not.
pub open spec fn due_count(s: Seq<(Seq<char>, u64)>, now: u64, delay: u64) -> nat
    decreases s.len(),
{
    if s.len() == 0 || !is_due(s[0], now, delay) {
        0
    } else {
        1 + due_count(s.subrange(1, s.len() as int), now, delay)
    }
}

pub open spec fn held_view(s: Seq<Held>) -> Seq<(Seq<char>, u64)> {
    s.map_values(|h: Held| (h.msg@, h.arrived))
}

pub open spec fn texts(s: Seq<String>) -> Seq<Seq<char>> {
    s.map_values(|m: String| m@)
}

/// The texts of held messages.
pub open spec fn texts_of(h: Seq<(Seq<char>, u64)>) -> Seq<Seq<char>> {
    h.map_values(|p: (Seq<char>, u64)| p.0)
}

/// Messages that arrive at `now`.
pub open spec fn arriving(s: Seq<String>, now: u64) -> Seq<(Seq<char>, u64)> {
    s.map_values(|m: String| (m@, now))
}

proof fn lemma_due_count_bound(s: Seq<(Seq<char>, u64)>, now: u64, delay: u64)
    ensures
        due_count(s, now, delay) <= s.len(),
        forall|i: int| 0 <= i < due_count(s, now, delay) ==> is_due(#[trigger] s[i], now, delay),
        due_count(s, now, delay) < s.len() ==> !is_due(s[due_count(s, now, delay) as int], now, delay),
    decreases s.len(),
{
    if s.len() > 0 && is_due(s[0], now, delay) {
        let rest = s.subrange(1, s.len() as int);
        lemma_due_count_bound(rest, now, delay);
        assert forall|i: int| 0 <= i < due_count(s, now, delay) implies is_due(#[trigger] s[i], now, delay) by {
            if i > 0 {
                assert(s[i] == rest[i - 1]);
            }
        }
    }
}

fn due(h: &Held, now: u64, delay: u64) -> (r: bool)
    ensures
        r == is_due((h.msg@, h.arrived), now, delay),
{
    now >= h.arrived && now - h.arrived >= delay
}

impl Relay {
    pub fn new() -> (r: Self)
        ensures
            r.held@.len() == 0,
            r.waiting@.len() == 0,
    {
        Relay { held: Vec::new(), waiting: Vec::new() }
    }

    fn hold_all(&mut self, msgs: &Vec<String>, now: u64)
        ensures
            held_view(final(self).held@) == held_view(old(self).held@) + arriving(msgs@, now),
            final(self).waiting@ == old(self).waiting@,
    {
        let ghost h0 = held_view(self.held@);
        let mut i: usize = 0;
        while i < msgs.len()
            invariant
                i <= msgs@.len(),
                held_view(self.held@) == h0 + arriving(msgs@.subrange(0, i as int), now),
                self.waiting@ == old(self).waiting@,
            decreases msgs.len() - i,
        {
            let ghost before = held_view(self.held@);
            let m = msgs[i].clone();
            self.held.push(Held { msg: m, arrived: now });
            assert(msgs@.subrange(0, i + 1) =~= msgs@.subrange(0, i as int).push(msgs@[i as int]));
            assert(arriving(msgs@.subrange(0, i + 1), now) =~= arriving(
                msgs@.subrange(0, i as int),
                now,
            ).push((m@, now)));
            assert(held_view(self.held@) =~= before.push((m@, now)));
            i = i + 1;
        }
        assert(msgs@.subrange(0, msgs@.len() as int) =~= msgs@);
    }
    /// Takes out the messages at the front whose delay has run out, up to
    /// the first that is still waiting, oldest first.
    pub fn release_due(&mut self, now: u64, delay: u64) -> (r: Vec<String>)
        ensures
            ({
                let h = held_view(old(self).held@);
                let k = due_count(h, now, delay) as int;
                &&& k <= h.len()
                &&& texts(r@) == texts_of(h.subrange(0, k))
                &&& held_view(final(self).held@) == h.subrange(k, h.len() as int)
            }),
            final(self).waiting@ == old(self).waiting@,
    {
        let ghost h = held_view(self.held@);
        proof {
            lemma_due_count_bound(h, now, delay);
        }
        let mut out: Vec<String> = Vec::new();
        while self.held.len() > 0 && due(&self.held[0], now, delay)
            invariant
                out@.len() <= h.len(),
                held_view(self.held@) == h.subrange(out@.len() as int, h.len() as int),
                texts(out@) == texts_of(h.subrange(0, out@.len() as int)),
                due_count(h, now, delay) == out@.len() + due_count(held_view(self.held@), now, delay),
                self.waiting@ == old(self).waiting@,
            decreases self.held.len(),
        {
            let ghost rest = held_view(self.held@);
            let ghost t = out@.len() as int;
            assert(rest[0] == h[t]);
            assert(rest.subrange(1, rest.len() as int) =~= h.subrange(t + 1, h.len() as int));
            assert(rest[0].0 == self.held@[0].msg@);
            let ghost out0 = out@;
            let x = self.held.remove(0);
            out.push(x.msg);
            assert(out@ == out0.push(x.msg));
            assert forall|i: int| 0 <= i < t + 1 implies texts(out@)[i] == texts_of(
                h.subrange(0, t + 1),
            )[i] by {
                assert(h.subrange(0, t + 1)[i] == h[i]);
                if i < t {
                    assert(texts(out@)[i] == texts(out0)[i]);
                    assert(texts(out0)[i] == texts_of(h.subrange(0, t))[i]);
                    assert(h.subrange(0, t)[i] == h[i]);
                } else {
                    assert(texts(out@)[i] == x.msg@);
                }
            }
            assert(texts(out@) =~= texts_of(h.subrange(0, t + 1)));
        }
        proof {
            let rest = held_view(self.held@);
            if rest.len() > 0 {
                assert(rest[0] == (self.held@[0].msg@, self.held@[0].arrived));
            }
        }
        out
    }

    /// One round of the caller's loop. While paused, the new messages are
    /// set aside; otherwise those set aside and then the new ones are held
    /// from `now`, and the messages whose delay has run out are released.
    pub fn advance(&mut self, new: &Vec<String>, now: u64, delay: u64, paused: bool) -> (r: Vec<String>)
        ensures
            paused ==> r@.len() == 0 && final(self).waiting@ == old(self).waiting@ + new@
                && final(self).held@ == old(self).held@,
            !paused ==> ({
                let h = held_view(old(self).held@) + arriving(old(self).waiting@, now) + arriving(new@, now);
                let k = due_count(h, now, delay) as int;
                &&& k <= h.len()
                &&& texts(r@) == texts_of(h.subrange(0, k))
                &&& held_view(final(self).held@) == h.subrange(k, h.len() as int)
                &&& final(self).waiting@.len() == 0
            }),
    {
        if paused {
            let mut i: usize = 0;
            while i < new.len()
                invariant
                    i <= new@.len(),
                    self.waiting@ == old(self).waiting@ + new@.subrange(0, i as int),
                    self.held@ == old(self).held@,
                decreases new.len() - i,
            {
                self.waiting.push(new[i].clone());
                assert(new@.subrange(0, i + 1) =~= new@.subrange(0, i as int).push(new@[i as int]));
                assert(self.waiting@ =~= old(self).waiting@ + new@.subrange(0, i + 1));
                i = i + 1;
            }
            assert(new@.subrange(0, new@.len() as int) =~= new@);
            Vec::new()
        } else {
            let mut waiting: Vec<String> = Vec::new();
            std::mem::swap(&mut waiting, &mut self.waiting);
            self.hold_all(&waiting, now);
            self.hold_all(new, now);
            self.release_due(now, delay)
        }
    }

    /// Removes the held message at `index` before its time, for the caller
    /// to log as a deletion.
    pub fn remove_at(&mut self, index: usize) -> (r: String)
        requires
            index < old(self).held@.len(),
        ensures
            r@ == old(self).held@[index as int].msg@,
            held_view(final(self).held@) == held_view(old(self).held@).remove(index as int),
            final(self).waiting@ == old(self).waiting@,
    {
        let ghost h = held_view(self.held@);
        let x = self.held.remove(index);
        assert(held_view(self.held@) =~= h.remove(index as int));
        x.msg
    }
}

} // verus!
