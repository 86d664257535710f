//! The bounded, most-recent-first history of query texts, and the suggestions
//! drawn from it.
use vstd::prelude::*;

use crate::search::texts;
use crate::text::{has_prefix, is_prefix, lower_of, lowercase, trim_of, trimmed};

verus! {

/// Most query texts that the history keeps.
pub const MAX_HISTORY: usize = 100;

/// `h` without any element equal to `q`.
pub open spec fn without(h: Seq<Seq<char>>, q: Seq<char>) -> Seq<Seq<char>>
    decreases h.len(),
{
    if h.len() == 0 {
        h
    } else if h.last() == q {
        without(h.drop_last(), q)
    } else {
        without(h.drop_last(), q).push(h.last())
    }
}

/// The history `h` once `q` has been submitted: `q` first, then the other texts in
/// their order, at most `MAX_HISTORY` in all.
pub open spec fn recorded(h: Seq<Seq<char>>, q: Seq<char>) -> Seq<Seq<char>> {
    let full = seq![q] + without(h, q);
    if full.len() <= MAX_HISTORY {
        full
    } else {
        full.take(MAX_HISTORY as int)
    }
}

/// The texts of `h` whose lower-case form starts with `p`, in order.
pub open spec fn prefix_matches(h: Seq<Seq<char>>, p: Seq<char>) -> Seq<Seq<char>>
    decreases h.len(),
{
    if h.len() == 0 {
        h
    } else if is_prefix(p, lower_of(h.last())) {
        prefix_matches(h.drop_last(), p).push(h.last())
    } else {
        prefix_matches(h.drop_last(), p)
    }
}

/// The first `n` elements of `s`, or all of them where there are fewer.
pub open spec fn first_n<A>(s: Seq<A>, n: int) -> Seq<A> {
    if n < s.len() {
        s.take(n)
    } else {
        s
    }
}

/// Past query texts, most recent first, each once.
pub struct QueryHistory {
    entries: Vec<String>,
}

impl View for QueryHistory {
    type V = Seq<Seq<char>>;

    closed spec fn view(&self) -> Seq<Seq<char>> {
        texts(self.entries@)
    }
}

impl QueryHistory {
    /// An empty history.
    pub fn new() -> (r: Self)
        ensures
            r@ == Seq::<Seq<char>>::empty(),
    {
        let r = QueryHistory { entries: Vec::new() };
        assert(r@ =~= Seq::<Seq<char>>::empty());
        r
    }

    /// Puts `text` first, removing an earlier copy, and keeps at most
    /// `MAX_HISTORY` texts.
    pub fn remember(&mut self, text: &str)
        ensures
            final(self)@ == recorded(old(self)@, text@),
    {
        let ghost h = self@;
        let t = text.to_owned();
        let mut out: Vec<String> = Vec::new();
        out.push(text.to_owned());
        let ghost first = seq![text@];
        assert(texts(out@) =~= first + without(h.take(0), text@));
        let mut i: usize = 0;
        while i < self.entries.len()
            invariant
                h == texts(self.entries@),
                t@ == text@,
                i <= self.entries@.len(),
                texts(out@) == first + without(h.take(i as int), text@),
            decreases self.entries@.len() - i,
        {
            assert(h.take(i + 1).drop_last() =~= h.take(i as int));
            assert(h.take(i + 1).last() == self.entries@[i as int]@);
            if self.entries[i] != t {
                let ghost before = out@;
                out.push(self.entries[i].clone());
                assert(texts(out@) =~= texts(before).push(h[i as int]));
                assert(texts(out@) =~= first + without(h.take(i + 1), text@));
            } else {
                assert(texts(out@) =~= first + without(h.take(i + 1), text@));
            }
            i = i + 1;
        }
        assert(h.take(i as int) =~= h);
        let ghost full = texts(out@);
        out.truncate(MAX_HISTORY);
        assert(texts(out@) =~= recorded(h, text@));
        self.entries = out;
    }

    /// Records a submitted query text without its leading and trailing white space;
    /// a text that is empty or white space alone is not recorded.
    pub fn record(&mut self, text: &str)
        ensures
            trim_of(text@).len() == 0 ==> final(self)@ == old(self)@,
            trim_of(text@).len() != 0 ==> final(self)@ == recorded(old(self)@, trim_of(text@)),
    {
        let t = trimmed(text);
        if !t.is_empty() {
            self.remember(t);
        }
    }

    /// The `limit` most recent texts, most recent first.
    pub fn recent(&self, limit: usize) -> (r: Vec<String>)
        ensures
            texts(r@) == first_n(self@, limit as int),
    {
        let mut out: Vec<String> = Vec::new();
        let mut i: usize = 0;
        while i < self.entries.len() && i < limit
            invariant
                i <= self.entries@.len(),
                i <= limit,
                texts(out@) == self@.take(i as int),
            decreases self.entries@.len() - i,
        {
            let ghost before = out@;
            out.push(self.entries[i].clone());
            assert(texts(out@) =~= texts(before).push(self@[i as int]));
            assert(self@.take(i + 1) =~= self@.take(i as int).push(self@[i as int]));
            i = i + 1;
        }
        assert(texts(out@) =~= first_n(self@, limit as int));
        out
    }

    /// Up to `limit` texts, most recent first, that start with `prefix` when both
    /// are put in lower case.
    pub fn suggest(&self, prefix: &str, limit: usize) -> (r: Vec<String>)
        ensures
            texts(r@) == first_n(prefix_matches(self@, lower_of(prefix@)), limit as int),
    {
        let p = lowercase(prefix);
        let ghost lp = lower_of(prefix@);
        let mut out: Vec<String> = Vec::new();
        for i in 0..self.entries.len()
            invariant
                p@ == lp,
                texts(out@) == first_n(prefix_matches(self@.take(i as int), lp), limit as int),
        {
            let ghost pm = prefix_matches(self@.take(i as int), lp);
            assert(self@.take(i + 1).drop_last() =~= self@.take(i as int));
            let q = lowercase(self.entries[i].as_str());
            if has_prefix(q.as_str(), p.as_str()) {
                assert(prefix_matches(self@.take(i + 1), lp) == pm.push(self@[i as int]));
                if out.len() < limit {
                    let ghost before = out@;
                    out.push(self.entries[i].clone());
                    assert(texts(out@) =~= texts(before).push(self@[i as int]));
                    assert(texts(out@) =~= first_n(pm.push(self@[i as int]), limit as int));
                } else {
                    assert(first_n(pm.push(self@[i as int]), limit as int) =~= first_n(pm, limit as int));
                }
            }
        }
        assert(self@.take(self.entries@.len() as int) =~= self@);
        out
    }
}

proof fn lemma_without(h: Seq<Seq<char>>, q: Seq<char>)
    ensures
        forall|k: int| 0 <= k < without(h, q).len() ==> #[trigger] without(h, q)[k] != q,
    decreases h.len(),
{
    if h.len() > 0 {
        lemma_without(h.drop_last(), q);
        let w = without(h.drop_last(), q);
        if h.last() != q {
            assert forall|k: int| 0 <= k < without(h, q).len() implies #[trigger] without(h, q)[k]
                != q by {
                if k < w.len() {
                    assert(without(h, q)[k] == w[k]);
                }
            }
        }
    }
}

/// Once a text is submitted it stands first in the history and nowhere else.
proof fn lemma_recorded_once(h: Seq<Seq<char>>, q: Seq<char>)
    ensures
        recorded(h, q).len() > 0,
        recorded(h, q)[0] == q,
        forall|k: int| 1 <= k < recorded(h, q).len() ==> #[trigger] recorded(h, q)[k] != q,
{
    lemma_without(h, q);
    let w = without(h, q);
    let full = seq![q] + w;
    assert forall|k: int| 1 <= k < recorded(h, q).len() implies #[trigger] recorded(h, q)[k] != q by {
        assert(recorded(h, q)[k] == full[k]);
        assert(full[k] == w[k - 1]);
    }
}

/// Submitting the same text twice leaves it in the history once, as the most
/// recent entry.
pub proof fn lemma_history_dedup(h: Seq<Seq<char>>, q: Seq<char>)
    ensures
        ({
            let twice = recorded(recorded(h, q), q);
            &&& twice.len() > 0
            &&& twice[0] == q
            &&& forall|k: int| 1 <= k < twice.len() ==> #[trigger] twice[k] != q
        }),
{
    lemma_recorded_once(recorded(h, q), q);
}

} // verus!
