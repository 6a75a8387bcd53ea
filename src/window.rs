//! Bookkeeping for the windows and input timers of the presentation layer.

use vstd::prelude::*;
use crate::text::{chars_of, dec, push_char, write_dec};

verus! {

/// The part of an entry that a window edits.
#[derive(PartialEq, Eq, Structural, Clone, Copy, Debug)]
pub enum DbFields {
    Id,
    Title,
    Fields(usize),
}

/// The name of a part of an entry: `Id`, `Title` or `Fields(n)`.
pub open spec fn field_name(f: DbFields) -> Seq<char> {
    match f {
        DbFields::Id => "Id"@,
        DbFields::Title => "Title"@,
        DbFields::Fields(n) => "Fields("@ + dec(n as nat) + ")"@,
    }
}

impl DbFields {
    /// The name of this part of an entry.
    pub fn name(&self) -> (r: String)
        ensures
            r@ == field_name(*self),
    {
        match self {
            DbFields::Id => "Id".to_owned(),
            DbFields::Title => "Title".to_owned(),
            DbFields::Fields(n) => {
                let mut s = "Fields(".to_owned();
                write_dec(&mut s, *n);
                s.append(")");
                s
            },
        }
    }
}

/// The key of the window that edits part `field` of entry `id`: the id, `-`, then the part's name.
pub fn make_field_path(id: usize, field: &DbFields) -> (r: String)
    ensures
        r@ == dec(id as nat) + seq!['-'] + field_name(*field),
{
    let mut s = String::new();
    write_dec(&mut s, id);
    push_char(&mut s, '-');
    let name = field.name();
    s.append(name.as_str());
    assert(s@ =~= dec(id as nat) + seq!['-'] + field_name(*field));
    s
}

/// The size of a button.
#[derive(PartialEq, Eq, Structural, Clone, Copy, Debug)]
pub enum ButtonVariant {
    Default,
    Tiny,
}

/// A window to open: its key and its title.
pub struct WindowSpec {
    pub id: String,
    pub title: String,
}

/// The open windows, each with its key and the id the window system gave it, in the order
/// they were opened.
pub struct WindowRegistry {
    pub windows: Vec<(String, u64)>,
}

pub open spec fn windows_model(v: Seq<(String, u64)>) -> Seq<(Seq<char>, u64)> {
    v.map_values(|w: (String, u64)| (w.0@, w.1))
}

impl View for WindowRegistry {
    type V = Seq<(Seq<char>, u64)>;

    open spec fn view(&self) -> Self::V {
        windows_model(self.windows@)
    }
}

fn same_key(a: &str, b: &str) -> (r: bool)
    ensures
        r == (a@ == b@),
{
    let x = chars_of(a);
    let y = chars_of(b);
    if x.len() != y.len() {
        return false;
    }
    let mut i: usize = 0;
    while i < x.len()
        invariant
            x@ == a@,
            y@ == b@,
            x@.len() == y@.len(),
            i <= x@.len(),
            forall|k: int| 0 <= k < i ==> x@[k] == y@[k],
        decreases x.len() - i,
    {
        if x[i] != y[i] {
            return false;
        }
        i = i + 1;
    }
    assert(x@ =~= y@);
    true
}

impl WindowRegistry {
    /// No window open.
    pub fn empty() -> (r: WindowRegistry)
        ensures
            r@ == Seq::<(Seq<char>, u64)>::empty(),
    {
        let r = WindowRegistry { windows: Vec::new() };
        assert(r@ =~= Seq::<(Seq<char>, u64)>::empty());
        r
    }

    /// Where the first window with key `id` stands, if one is open.
    pub fn find(&self, id: &str) -> (r: Option<usize>)
        ensures
            match r {
                Some(i) => i < self@.len() && self@[i as int].0 == id@
                    && forall|j: int| 0 <= j < i ==> self@[j].0 != id@,
                None => forall|j: int| 0 <= j < self@.len() ==> self@[j].0 != id@,
            },
    {
        let mut i: usize = 0;
        while i < self.windows.len()
            invariant
                i <= self@.len(),
                self@.len() == self.windows@.len(),
                forall|j: int| 0 <= j < i ==> self@[j].0 != id@,
            decreases self.windows.len() - i,
        {
            if same_key(self.windows[i].0.as_str(), id) {
                return Some(i);
            }
            i = i + 1;
        }
        None
    }

    /// Whether a window with key `id` is open; a second window with the same key is not opened.
    pub fn is_open(&self, id: &str) -> (r: bool)
        ensures
            r == exists|j: int| 0 <= j < self@.len() && self@[j].0 == id@,
    {
        match self.find(id) {
            Some(_) => true,
            None => false,
        }
    }

    /// Records a window that was just opened.
    pub fn register(&mut self, id: String, window: u64)
        ensures
            final(self)@ == old(self)@.push((id@, window)),
    {
        self.windows.push((id, window));
        assert(final(self)@ =~= old(self)@.push((id@, window)));
    }

    /// Forgets the first window with key `id` and hands back its window id, to be closed;
    /// `None` and no change where none is open.
    pub fn closing(&mut self, id: &str) -> (r: Option<u64>)
        ensures
            match r {
                Some(w) => exists|i: int| 0 <= i < old(self)@.len() && old(self)@[i].0 == id@
                    && (forall|j: int| 0 <= j < i ==> old(self)@[j].0 != id@)
                    && old(self)@[i].1 == w && final(self)@ == old(self)@.remove(i),
                None => final(self)@ == old(self)@
                    && forall|j: int| 0 <= j < old(self)@.len() ==> old(self)@[j].0 != id@,
            },
    {
        match self.find(id) {
            Some(i) => {
                let w = self.windows.remove(i);
                assert(final(self)@ =~= old(self)@.remove(i as int));
                Some(w.1)
            },
            None => None,
        }
    }

    /// Forgets every window and hands back their window ids, last opened first, to be closed.
    pub fn close_all(&mut self) -> (r: Vec<u64>)
        ensures
            final(self)@ == Seq::<(Seq<char>, u64)>::empty(),
            r@.len() == old(self)@.len(),
            forall|i: int| 0 <= i < r@.len() ==> r@[i] == old(self)@[old(self)@.len() - 1 - i].1,
    {
        let mut out: Vec<u64> = Vec::new();
        let ghost start = self@;
        while self.windows.len() > 0
            invariant
                self@.len() + out@.len() == start.len(),
                self@ == start.take(self@.len() as int),
                self@.len() == self.windows@.len(),
                forall|i: int| 0 <= i < out@.len() ==> out@[i] == start[start.len() - 1 - i].1,
            decreases self.windows.len(),
        {
            let ghost before = self@;
            let ghost wins = self.windows@;
            let w = self.windows.pop().unwrap();
            assert(w == wins.last());
            assert(before.last().1 == w.1);
            assert(before.last() == start[before.len() - 1]);
            assert(self@ =~= before.drop_last());
            assert(self@ =~= start.take(self@.len() as int));
            let ghost out_before = out@;
            out.push(w.1);
            assert(forall|i: int| 0 <= i < out_before.len() ==> out@[i] == out_before[i]);
        }
        assert(self@ =~= Seq::<(Seq<char>, u64)>::empty());
        out
    }
}

/// Collapses a burst of calls into the last one: each call takes a ticket, and only the
/// ticket still current when its delay has passed runs.
pub struct Debounce {
    pub duration_ms: u64,
    pub counter: u64,
}

impl Default for Debounce {
    fn default() -> (r: Debounce)
        ensures
            r.duration_ms == 100,
            r.counter == 0,
    {
        Debounce { duration_ms: 100, counter: 0 }
    }
}

impl Debounce {
    /// Takes the ticket of a new call.
    pub fn ticket(&mut self) -> (r: u64)
        ensures
            r == (if old(self).counter == u64::MAX { 0 } else { old(self).counter + 1 }),
            final(self).counter == r,
            final(self).duration_ms == old(self).duration_ms,
    {
        self.counter = if self.counter == u64::MAX { 0 } else { self.counter + 1 };
        self.counter
    }

    /// When the delay of call `ticket` has passed: whether it runs. A run resets the counter.
    pub fn fire(&mut self, ticket: u64) -> (r: bool)
        ensures
            r == (old(self).counter == ticket),
            final(self).counter == (if r { 0 } else { old(self).counter }),
            final(self).duration_ms == old(self).duration_ms,
    {
        if self.counter == ticket {
            self.counter = 0;
            true
        } else {
            false
        }
    }
}

} // verus!
