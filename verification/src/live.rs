//! Live actions: the contexts that show one continuously refreshed image, sharing one
//! background worker that runs while at least one context is subscribed.

use vstd::prelude::*;
use crate::text::{chars_of, eq_chars, string_views};

verus! {

broadcast use vstd::string::group_string_axioms;

/// A background worker that refreshes the live images.
pub trait LiveWorker: Sized {
    /// Whether the worker has stopped on its own.
    fn is_finished(&self) -> bool;

    /// Cancels the worker.
    fn stop(self);
}

/// The subscribed contexts of a live action and its worker, if one was started.
pub struct LiveAction<W> {
    contexts: Vec<String>,
    worker: Option<W>,
}

impl<W: LiveWorker> LiveAction<W> {
    /// The subscribed contexts, in subscription order.
    pub closed spec fn subscribed(&self) -> Seq<Seq<char>> {
        string_views(self.contexts@)
    }

    /// Whether a worker is held.
    pub closed spec fn has_worker(&self) -> bool {
        self.worker is Some
    }

    /// The held worker.
    pub closed spec fn worker_spec(&self) -> Option<W> {
        self.worker
    }

    /// Each context is subscribed once.
    pub open spec fn wf(&self) -> bool {
        self.subscribed().no_duplicates()
    }

    /// No context and no worker.
    pub fn new() -> (live: Self)
        ensures
            live.wf(),
            live.subscribed() == Seq::<Seq<char>>::empty(),
            !live.has_worker(),
    {
        let live = LiveAction { contexts: Vec::new(), worker: None };
        assert(live.subscribed() =~= Seq::<Seq<char>>::empty());
        live
    }

    fn position(&self, context: &Vec<char>) -> (r: Option<usize>)
        ensures
            match r {
                Some(i) => i < self.subscribed().len() && self.subscribed()[i as int] == context@,
                None => !self.subscribed().contains(context@),
            },
    {
        let mut i: usize = 0;
        while i < self.contexts.len()
            invariant
                i <= self.contexts@.len(),
                forall|j: int| 0 <= j < i ==> self.subscribed()[j] != context@,
            decreases self.contexts@.len() - i,
        {
            let name = chars_of(self.contexts[i].as_str());
            if eq_chars(&name, context) {
                return Some(i);
            }
            i = i + 1;
        }
        None
    }

    /// Whether the held worker has stopped on its own (as it reports it); never when there
    /// is none. The caller hands this to `subscribe`.
    pub fn worker_finished(&self) -> (r: bool)
        ensures
            !self.has_worker() ==> !r,
    {
        match &self.worker {
            Some(worker) => worker.is_finished(),
            None => false,
        }
    }

    /// Adds `context` (once) and says whether a new worker must be started: there is
    /// none, or the one there has finished (`finished`, from `worker_finished`).
    pub fn subscribe(&mut self, context: String, finished: bool) -> (start: bool)
        requires
            old(self).wf(),
        ensures
            final(self).wf(),
            final(self).subscribed().to_set() == old(self).subscribed().to_set().insert(context@),
            final(self).worker_spec() == old(self).worker_spec(),
            start == (!old(self).has_worker() || finished),
    {
        let key = chars_of(context.as_str());
        match self.position(&key) {
            Some(_) => {
                assert(old(self).subscribed().to_set().insert(context@) =~= old(self).subscribed().to_set());
            },
            None => {
                let ghost before = self.subscribed();
                self.contexts.push(context);
                proof {
                    assert(self.subscribed() =~= before.push(context@));
                    assert forall|x: Seq<char>| #[trigger] self.subscribed().to_set().contains(x) <==> before.to_set().insert(context@).contains(x) by {
                        if self.subscribed().contains(x) {
                            let k = choose|k: int| 0 <= k < self.subscribed().len() && self.subscribed()[k] == x;
                            if k < before.len() {
                                assert(before[k] == x);
                            }
                        }
                        if before.contains(x) {
                            let k = choose|k: int| 0 <= k < before.len() && before[k] == x;
                            assert(self.subscribed()[k] == x);
                        }
                        if x == context@ {
                            assert(self.subscribed()[before.len() as int] == x);
                        }
                    }
                    assert(self.subscribed().to_set() =~= before.to_set().insert(context@));
                }
            },
        }
        !self.worker.is_some() || finished
    }

    /// Makes `worker` the action's worker and returns the previous one, which the caller
    /// must stop.
    pub fn start(&mut self, worker: W) -> (replaced: Option<W>)
        requires
            old(self).wf(),
        ensures
            final(self).wf(),
            final(self).subscribed() == old(self).subscribed(),
            final(self).worker_spec() == Some(worker),
            replaced == old(self).worker_spec(),
    {
        let replaced = self.worker.take();
        self.worker = Some(worker);
        replaced
    }

    /// Removes `context`. When no context is left the worker is released and returned, and
    /// the caller must stop it; otherwise nothing is returned and the worker stays.
    pub fn unsubscribe(&mut self, context: &str) -> (to_stop: Option<W>)
        requires
            old(self).wf(),
        ensures
            final(self).wf(),
            final(self).subscribed().to_set() == old(self).subscribed().to_set().remove(context@),
            final(self).subscribed().len() == 0 ==> !final(self).has_worker(),
            final(self).subscribed().len() > 0 ==> final(self).worker_spec() == old(self).worker_spec(),
            to_stop == (if final(self).subscribed().len() == 0 {
                old(self).worker_spec()
            } else {
                None
            }),
    {
        let key = chars_of(context);
        match self.position(&key) {
            Some(i) => {
                let ghost before = self.subscribed();
                self.contexts.remove(i);
                proof {
                    assert(self.subscribed() =~= before.remove(i as int));
                    assert forall|a: int, b: int|
                        0 <= a < self.subscribed().len() && 0 <= b < self.subscribed().len() && a != b
                        implies self.subscribed()[a] != self.subscribed()[b] by {
                        let a0 = if a < i { a } else { a + 1 };
                        let b0 = if b < i { b } else { b + 1 };
                        assert(self.subscribed()[a] == before[a0]);
                        assert(self.subscribed()[b] == before[b0]);
                    }
                    assert forall|s: Seq<char>| #[trigger] self.subscribed().contains(s) <==> before.to_set().remove(context@).contains(s) by {
                        if self.subscribed().contains(s) {
                            let k = choose|k: int| 0 <= k < self.subscribed().len() && self.subscribed()[k] == s;
                            if k < i {
                                assert(before[k] == s);
                            } else {
                                assert(before[k + 1] == s);
                            }
                            assert(before.contains(s));
                        }
                        if before.to_set().remove(context@).contains(s) {
                            let k = choose|k: int| 0 <= k < before.len() && before[k] == s;
                            assert(k != i);
                            if k < i {
                                assert(self.subscribed()[k] == s);
                            } else {
                                assert(self.subscribed()[k - 1] == s);
                            }
                        }
                    }
                    assert(self.subscribed().to_set() =~= before.to_set().remove(context@));
                }
            },
            None => {
                assert(old(self).subscribed().to_set().remove(context@) =~= old(self).subscribed().to_set());
            },
        }
        if self.contexts.len() == 0 {
            self.worker.take()
        } else {
            None
        }
    }

    /// The subscribed contexts.
    pub fn contexts(&self) -> (r: Vec<String>)
        ensures
            string_views(r@) == self.subscribed(),
    {
        let mut r: Vec<String> = Vec::new();
        let mut i: usize = 0;
        while i < self.contexts.len()
            invariant
                i <= self.contexts@.len(),
                r@.len() == i,
                string_views(r@) == self.subscribed().take(i as int),
            decreases self.contexts@.len() - i,
        {
            let c = self.contexts[i].clone();
            let ghost prev = r@;
            r.push(c);
            proof {
                assert(r@ == prev.push(c));
                assert(c@ == self.contexts@[i as int]@);
                assert forall|k: int| 0 <= k < i + 1 implies #[trigger] string_views(r@)[k] == self.subscribed().take(i + 1)[k] by {
                    if k < i {
                        assert(r@[k] == prev[k]);
                        assert(string_views(prev)[k] == self.subscribed().take(i as int)[k]);
                    }
                }
                assert(string_views(r@) =~= self.subscribed().take(i + 1));
            }
            i = i + 1;
        }
        assert(self.subscribed().take(self.contexts@.len() as int) =~= self.subscribed());
        r
    }
}

/// Contexts share one worker until the last one leaves: removing a context keeps the
/// worker while another context remains subscribed.
pub proof fn lemma_worker_shared_until_last<W: LiveWorker>(
    before: LiveAction<W>,
    after: LiveAction<W>,
    context: Seq<char>,
)
    requires
        before.wf(),
        after.wf(),
        after.subscribed().to_set() == before.subscribed().to_set().remove(context),
        after.subscribed().len() == 0 ==> !after.has_worker(),
        after.subscribed().len() > 0 ==> after.worker_spec() == before.worker_spec(),
        exists|other: Seq<char>| other != context && before.subscribed().contains(other),
    ensures
        after.worker_spec() == before.worker_spec(),
{
    let other = choose|other: Seq<char>| other != context && before.subscribed().contains(other);
    assert(before.subscribed().to_set().contains(other));
    assert(after.subscribed().to_set().contains(other));
    assert(after.subscribed().len() > 0);
}

} // verus!
