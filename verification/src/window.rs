//! The command window of one game day: its number, its deadline, and the
//! managers who have declared themselves ready. The day closes at the deadline
//! or once every manager is ready.
use vstd::prelude::*;
use crate::text::{str_eq, text_views};

verus! {

/// One day's command window. Hosts may show the day and deadline; the ready
/// set is private to the window.
#[derive(Debug, Clone, PartialEq, Eq)]
pub struct DayWindow {
    pub day: u32,
    pub deadline_ms: u64,
    ready: Vec<String>,
}

/// A day window as values: the ready set lists each manager at most once.
pub struct WindowModel {
    pub day: u32,
    pub deadline_ms: u64,
    pub ready: Seq<Seq<char>>,
}

impl View for DayWindow {
    type V = WindowModel;

    closed spec fn view(&self) -> WindowModel {
        WindowModel { day: self.day, deadline_ms: self.deadline_ms, ready: text_views(self.ready@) }
    }
}

/// The ready set after `actor` declares ready.
pub open spec fn with_ready(ready: Seq<Seq<char>>, actor: Seq<char>) -> Seq<Seq<char>> {
    if ready.contains(actor) {
        ready
    } else {
        ready.push(actor)
    }
}

/// Whether a window closes at `now_ms` for the given managers: the deadline has
/// come, or every manager is ready.
pub open spec fn window_closes(w: WindowModel, now_ms: u64, managers: Seq<Seq<char>>) -> bool {
    now_ms >= w.deadline_ms || forall|i: int| 0 <= i < managers.len() ==> w.ready.contains(
        #[trigger] managers[i],
    )
}

impl DayWindow {
    /// A fresh window for `day`, open until `deadline_ms`, nobody ready.
    pub fn new(day: u32, deadline_ms: u64) -> (w: DayWindow)
        ensures
            w@ == (WindowModel { day, deadline_ms, ready: Seq::empty() }),
    {
        let w = DayWindow { day, deadline_ms, ready: Vec::new() };
        assert(text_views(w.ready@) =~= Seq::<Seq<char>>::empty());
        w
    }

    /// The day this window is for.
    pub fn day(&self) -> (d: u32)
        ensures
            d == self@.day,
    {
        self.day
    }

    /// Whether `actor` has declared ready today.
    pub fn is_ready(&self, actor: &str) -> (r: bool)
        ensures
            r == self@.ready.contains(actor@),
    {
        let mut i: usize = 0;
        while i < self.ready.len()
            invariant
                i <= self.ready@.len(),
                forall|j: int| 0 <= j < i ==> (#[trigger] self.ready@[j])@ != actor@,
            decreases self.ready@.len() - i,
        {
            if str_eq(self.ready[i].as_str(), actor) {
                assert(text_views(self.ready@)[i as int] == actor@);
                return true;
            }
            i = i + 1;
        }
        proof {
            if text_views(self.ready@).contains(actor@) {
                let k = choose|k: int| 0 <= k < text_views(self.ready@).len() && text_views(self.ready@)[k] == actor@;
                assert(self.ready@[k]@ == actor@);
            }
        }
        false
    }

    /// Record that `actor` is ready.
    pub fn mark_ready(&mut self, actor: &str)
        ensures
            final(self)@ == (WindowModel { ready: with_ready(old(self)@.ready, actor@), ..old(self)@ }),
    {
        if !self.is_ready(actor) {
            self.ready.push(actor.to_owned());
            assert(text_views(self.ready@) =~= text_views(old(self).ready@).push(actor@));
        }
    }

    /// Whether the window closes at `now_ms` for the given managers.
    pub fn closes(&self, now_ms: u64, managers: &Vec<String>) -> (r: bool)
        ensures
            r == window_closes(self@, now_ms, text_views(managers@)),
    {
        if now_ms >= self.deadline_ms {
            return true;
        }
        let mut i: usize = 0;
        while i < managers.len()
            invariant
                i <= managers@.len(),
                now_ms < self.deadline_ms,
                forall|j: int| 0 <= j < i ==> self@.ready.contains(#[trigger] text_views(managers@)[j]),
            decreases managers@.len() - i,
        {
            assert(text_views(managers@)[i as int] == managers@[i as int]@);
            if !self.is_ready(managers[i].as_str()) {
                assert(!self@.ready.contains(text_views(managers@)[i as int]));
                return false;
            }
            i = i + 1;
        }
        true
    }
}

} // verus!
