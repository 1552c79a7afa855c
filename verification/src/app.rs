//! The window registry of an application and the decisions that its event
//! loop makes: which command does what to the set of open windows, and when
//! the application is done.

use vstd::prelude::*;

verus! {

/// What a window handler asks of the application, by window id (`u64`),
/// handler type `H` and control-flow type `F`.
pub enum Command<H, F> {
    /// Close the window with this id.
    RemoveWindow(u64),
    /// Open a new window driven by this handler.
    AddWindow(H),
    /// Change how the event loop waits for the next event.
    SetControlFlow(F),
}

/// What is left for the event loop to do once a command has been applied to
/// the window registry.
pub enum Effect<H, F> {
    /// Nothing: the command was carried out on the registry.
    Done,
    /// Open a window for this handler and register it under its new id.
    CreateWindow(H),
    /// Hand this control flow to the event loop.
    SetControlFlow(F),
}

/// The open windows, each under a distinct id, in the order they were
/// registered.
pub struct WindowTable<W> {
    ids: Vec<u64>,
    windows: Vec<W>,
}

/// Whether `id` occurs in `ids`.
pub open spec fn has_id(ids: Seq<u64>, id: u64) -> bool {
    exists|i: int| 0 <= i < ids.len() && ids[i] == id
}

impl<W> WindowTable<W> {
    /// The ids, in registration order.
    pub closed spec fn ids(&self) -> Seq<u64> {
        self.ids@
    }

    /// The windows, `windows()[i]` registered under `ids()[i]`.
    pub closed spec fn windows(&self) -> Seq<W> {
        self.windows@
    }

    /// One window per id and no id twice.
    pub open spec fn wf(&self) -> bool {
        &&& self.ids().len() == self.windows().len()
        &&& self.ids().no_duplicates()
    }

    /// Same ids and same windows, in the same order.
    pub open spec fn unchanged_from(&self, other: Self) -> bool {
        self.ids() == other.ids() && self.windows() == other.windows()
    }

    /// The window registered under `id`, if any.
    pub open spec fn lookup(&self, id: u64) -> Option<W> {
        if has_id(self.ids(), id) {
            Some(self.windows()[choose|i: int| 0 <= i < self.ids().len() && self.ids()[i] == id])
        } else {
            None
        }
    }

    /// Under `wf`, the window at index `i` is the one `lookup` finds for its id.
    pub proof fn lemma_lookup_at(&self, i: int)
        requires
            self.wf(),
            0 <= i < self.ids().len(),
        ensures
            self.lookup(self.ids()[i]) == Some(self.windows()[i]),
    {
        let id = self.ids()[i];
        assert(has_id(self.ids(), id));
        let j = choose|j: int| 0 <= j < self.ids().len() && self.ids()[j] == id;
        assert(j == i);
    }

    /// An empty registry.
    pub fn new() -> (t: Self)
        ensures
            t.wf(),
            t.ids() == Seq::<u64>::empty(),
            t.windows() == Seq::<W>::empty(),
    {
        WindowTable { ids: Vec::new(), windows: Vec::new() }
    }

    /// The number of open windows.
    pub fn len(&self) -> (n: usize)
        requires
            self.wf(),
        ensures
            n == self.ids().len(),
    {
        self.ids.len()
    }

    /// Whether no window is open.
    pub fn is_empty(&self) -> (b: bool)
        requires
            self.wf(),
        ensures
            b == (self.ids().len() == 0),
    {
        self.ids.len() == 0
    }

    /// The id of the `i`-th window.
    pub fn id_at(&self, i: usize) -> (id: u64)
        requires
            self.wf(),
            i < self.ids().len(),
        ensures
            id == self.ids()[i as int],
    {
        self.ids[i]
    }

    /// The index under which `id` is registered, if it is.
    pub fn position(&self, id: u64) -> (r: Option<usize>)
        requires
            self.wf(),
        ensures
            match r {
                Some(i) => i < self.ids().len() && self.ids()[i as int] == id,
                None => !has_id(self.ids(), id),
            },
    {
        let n = self.ids.len();
        let mut i: usize = 0;
        while i < n
            invariant
                n == self.ids().len(),
                i <= n,
                forall|j: int| 0 <= j < i ==> self.ids()[j] != id,
            decreases n - i,
        {
            if self.ids[i] == id {
                return Some(i);
            }
            i = i + 1;
        }
        None
    }

    /// The `i`-th window, for reading and writing.
    pub fn window_at_mut(&mut self, i: usize) -> (w: &mut W)
        requires
            old(self).wf(),
            i < old(self).ids().len(),
        ensures
            *w == old(self).windows()[i as int],
            final(self).ids() == old(self).ids(),
            final(self).windows() == old(self).windows().update(i as int, *final(w)),
    {
        &mut self.windows[i]
    }

    /// The `i`-th window.
    pub fn window_at(&self, i: usize) -> (w: &W)
        requires
            self.wf(),
            i < self.ids().len(),
        ensures
            *w == self.windows()[i as int],
    {
        &self.windows[i]
    }

    /// Registers `window` under `id`. A window already under `id` is
    /// replaced in place and handed back; otherwise the new one comes last.
    pub fn insert(&mut self, id: u64, window: W) -> (old_window: Option<W>)
        requires
            old(self).wf(),
        ensures
            final(self).wf(),
            final(self).lookup(id) == Some(window),
            forall|other: u64| other != id ==> final(self).lookup(other) == old(self).lookup(other),
            match old_window {
                Some(w) => {
                    exists|i: int|
                        0 <= i < old(self).ids().len() && old(self).ids()[i] == id
                            && w == old(self).windows()[i] && final(self).ids() == old(self).ids()
                            && final(self).windows() == old(self).windows().update(i, window)
                },
                None => {
                    &&& !has_id(old(self).ids(), id)
                    &&& final(self).ids() == old(self).ids().push(id)
                    &&& final(self).windows() == old(self).windows().push(window)
                },
            },
    {
        match self.position(id) {
            Some(i) => {
                let mut previous = window;
                std::mem::swap(&mut self.windows[i], &mut previous);
                proof {
                    self.lemma_lookup_at(i as int);
                    assert forall|other: u64| other != id implies self.lookup(other) == old(
                        self,
                    ).lookup(other) by {
                        if has_id(self.ids(), other) {
                            let j = choose|j: int| 0 <= j < self.ids().len() && self.ids()[j] == other;
                            self.lemma_lookup_at(j);
                            old(self).lemma_lookup_at(j);
                        }
                    }
                }
                Some(previous)
            },
            None => {
                self.ids.push(id);
                self.windows.push(window);
                proof {
                    assert forall|a: int, b: int|
                        0 <= a < self.ids().len() && 0 <= b < self.ids().len() && a != b
                        implies self.ids()[a] != self.ids()[b] by {
                        if a == self.ids().len() - 1 {
                            assert(old(self).ids()[b] != id);
                        } else if b == self.ids().len() - 1 {
                            assert(old(self).ids()[a] != id);
                        }
                    }
                    self.lemma_lookup_at(self.ids().len() - 1);
                    assert forall|other: u64| other != id implies self.lookup(other) == old(
                        self,
                    ).lookup(other) by {
                        if has_id(old(self).ids(), other) {
                            let j = choose|j: int| 0 <= j < old(self).ids().len() && old(self).ids()[j] == other;
                            self.lemma_lookup_at(j);
                            old(self).lemma_lookup_at(j);
                        } else {
                            assert(!has_id(self.ids(), other)) by {
                                if has_id(self.ids(), other) {
                                    let j = choose|j: int| 0 <= j < self.ids().len() && self.ids()[j] == other;
                                    assert(j < old(self).ids().len());
                                }
                            }
                        }
                    }
                }
                None
            },
        }
    }

    /// Unregisters the window under `id` and hands it back; the others keep
    /// their order.
    pub fn remove(&mut self, id: u64) -> (removed: Option<W>)
        requires
            old(self).wf(),
        ensures
            final(self).wf(),
            final(self).lookup(id) is None,
            forall|other: u64| other != id ==> final(self).lookup(other) == old(self).lookup(other),
            match removed {
                Some(w) => {
                    exists|i: int|
                        0 <= i < old(self).ids().len() && old(self).ids()[i] == id
                            && w == old(self).windows()[i]
                            && final(self).ids() == old(self).ids().remove(i)
                            && final(self).windows() == old(self).windows().remove(i)
                },
                None => {
                    &&& !has_id(old(self).ids(), id)
                    &&& final(self).ids() == old(self).ids()
                    &&& final(self).windows() == old(self).windows()
                },
            },
    {
        match self.position(id) {
            Some(i) => {
                self.ids.remove(i);
                let w = self.windows.remove(i);
                proof {
                    let o = old(self).ids();
                    assert forall|a: int, b: int|
                        0 <= a < self.ids().len() && 0 <= b < self.ids().len() && a != b
                        implies self.ids()[a] != self.ids()[b] by {
                        let oa = if a < i { a } else { a + 1 };
                        let ob = if b < i { b } else { b + 1 };
                        assert(self.ids()[a] == o[oa]);
                        assert(self.ids()[b] == o[ob]);
                    }
                    assert(!has_id(self.ids(), id)) by {
                        if has_id(self.ids(), id) {
                            let j = choose|j: int| 0 <= j < self.ids().len() && self.ids()[j] == id;
                            let oj = if j < i { j } else { j + 1 };
                            assert(o[oj] == id);
                        }
                    }
                    assert forall|other: u64| other != id implies self.lookup(other) == old(
                        self,
                    ).lookup(other) by {
                        if has_id(o, other) {
                            let j = choose|j: int| 0 <= j < o.len() && o[j] == other;
                            old(self).lemma_lookup_at(j);
                            assert(j != i);
                            let nj = if j < i { j } else { j - 1 };
                            assert(self.ids()[nj] == other);
                            self.lemma_lookup_at(nj);
                        } else {
                            assert(!has_id(self.ids(), other)) by {
                                if has_id(self.ids(), other) {
                                    let j = choose|j: int| 0 <= j < self.ids().len() && self.ids()[j] == other;
                                    let oj = if j < i { j } else { j + 1 };
                                    assert(o[oj] == other);
                                }
                            }
                        }
                    }
                }
                Some(w)
            },
            None => None,
        }
    }
}

/// An application: its shared state, the windows still to be opened when
/// the event loop resumes, and the open windows.
pub struct App<S, P, W> {
    /// The windows still to be opened, in order.
    pub new_window_queue: Vec<P>,
    /// The open windows.
    pub windows: WindowTable<W>,
    /// The state that every window handler may read and change.
    pub app_state: S,
}

impl<S, P, W> App<S, P, W> {
    /// An application with `app_state`, no open window, and `first_window`
    /// to be opened when the event loop first resumes.
    pub fn new(app_state: S, first_window: P) -> (app: Self)
        ensures
            app.app_state == app_state,
            app.new_window_queue@ == seq![first_window],
            app.windows.wf(),
            app.windows.ids().len() == 0,
    {
        let mut new_window_queue = Vec::new();
        new_window_queue.push(first_window);
        App { new_window_queue, windows: WindowTable::new(), app_state }
    }

    /// Empties the queue of windows to open and hands its contents back, in
    /// order; nothing else changes.
    pub fn take_new_window_queue(&mut self) -> (queue: Vec<P>)
        ensures
            queue@ == old(self).new_window_queue@,
            final(self).new_window_queue@ == Seq::<P>::empty(),
            final(self).windows == old(self).windows,
            final(self).app_state == old(self).app_state,
    {
        let mut queue = Vec::new();
        std::mem::swap(&mut queue, &mut self.new_window_queue);
        queue
    }

    /// After a window event has been handled: the application is done once
    /// no window is left open.
    pub fn exit_after_window_event(&self) -> (done: bool)
        requires
            self.windows.wf(),
        ensures
            done == (self.windows.ids().len() == 0),
    {
        self.windows.is_empty()
    }

    /// After the handlers have seen the start of a new batch of events: the
    /// application is done once no window is left open, except on the very
    /// first batch (`cause_is_init`), when no window has been opened yet.
    pub fn exit_after_new_events(&self, cause_is_init: bool) -> (done: bool)
        requires
            self.windows.wf(),
        ensures
            done == (self.windows.ids().len() == 0 && !cause_is_init),
    {
        self.windows.is_empty() && !cause_is_init
    }
}

/// Removing a window that was just registered under a fresh id leaves
/// every id finding what it found before.
pub proof fn lemma_remove_undoes_insert<W>(
    before: WindowTable<W>,
    inserted: WindowTable<W>,
    after: WindowTable<W>,
    id: u64,
    window: W,
)
    requires
        before.lookup(id) is None,
        inserted.lookup(id) == Some(window),
        forall|other: u64| other != id ==> inserted.lookup(other) == before.lookup(other),
        after.lookup(id) is None,
        forall|other: u64| other != id ==> after.lookup(other) == inserted.lookup(other),
    ensures
        forall|k: u64| after.lookup(k) == before.lookup(k),
{
}

/// Applies `command` to the registry: a removal is carried out here (the
/// removed window is dropped); opening a window and changing the control
/// flow are handed back to the event loop, with the registry unchanged.
pub fn handle_command<W, H, F>(command: Command<H, F>, windows: &mut WindowTable<W>) -> (effect:
    Effect<H, F>)
    requires
        old(windows).wf(),
    ensures
        final(windows).wf(),
        match command {
            Command::RemoveWindow(id) => {
                &&& effect is Done
                &&& final(windows).lookup(id) is None
                &&& forall|other: u64|
                    other != id ==> final(windows).lookup(other) == old(windows).lookup(other)
                &&& (has_id(old(windows).ids(), id) ==> exists|i: int|
                    0 <= i < old(windows).ids().len() && old(windows).ids()[i] == id
                        && final(windows).ids() == old(windows).ids().remove(i)
                        && final(windows).windows() == old(windows).windows().remove(i))
                &&& (!has_id(old(windows).ids(), id) ==> final(windows).unchanged_from(*old(windows)))
            },
            Command::AddWindow(h) => effect == Effect::<H, F>::CreateWindow(h)
                && final(windows).unchanged_from(*old(windows)),
            Command::SetControlFlow(f) => effect == Effect::<H, F>::SetControlFlow(f)
                && final(windows).unchanged_from(*old(windows)),
        },
{
    match command {
        Command::RemoveWindow(id) => {
            let _ = windows.remove(id);
            Effect::Done
        },
        Command::AddWindow(h) => Effect::CreateWindow(h),
        Command::SetControlFlow(f) => Effect::SetControlFlow(f),
    }
}

} // verus!
