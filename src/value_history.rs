//! A bounded trailing window of decoded values for each sample name.
use std::collections::VecDeque;

use vstd::prelude::*;

use crate::channel::{receive_ready, waiting_count};
use crate::number::{decimal, decimal_string, string_from_chars};
use crate::value_parsing::{records_view, DataValue, Record};

verus! {

/// The windows by name, oldest value first, and the capacity that they share.
pub struct HistoryState {
    pub windows: Map<Seq<char>, Seq<Seq<char>>>,
    pub capacity: nat,
}

pub open spec fn window_view(d: VecDeque<String>) -> Seq<Seq<char>> {
    d@.map_values(|s: String| s@)
}

/// Appends `v` to window `w`; where the window then holds `c` values or more,
/// its oldest value is evicted.
pub open spec fn push_evict(w: Seq<Seq<char>>, v: Seq<char>, c: nat) -> Seq<Seq<char>> {
    let x = w.push(v);
    if x.len() >= c {
        x.drop_first()
    } else {
        x
    }
}

/// The window of `name`; a name never seen has an empty one.
pub open spec fn window_of(h: HistoryState, name: Seq<char>) -> Seq<Seq<char>> {
    if h.windows.contains_key(name) {
        h.windows[name]
    } else {
        Seq::empty()
    }
}

/// Records `v` under `name`.
pub open spec fn store(h: HistoryState, name: Seq<char>, v: Seq<char>) -> HistoryState {
    HistoryState {
        windows: h.windows.insert(name, push_evict(window_of(h, name), v, h.capacity)),
        capacity: h.capacity,
    }
}

/// Records each sample of `rs`, in order.
pub open spec fn store_all(h: HistoryState, rs: Seq<Record>) -> HistoryState
    decreases rs.len(),
{
    if rs.len() == 0 {
        h
    } else {
        let g = store_all(h, rs.drop_last());
        store(g, rs.last().0, rs.last().1)
    }
}

/// The last `c` values of `w`, or all of them where it holds fewer.
pub open spec fn trim(w: Seq<Seq<char>>, c: nat) -> Seq<Seq<char>> {
    if w.len() > c {
        w.skip(w.len() - c)
    } else {
        w
    }
}

/// Sets the capacity to `c` and cuts every window down to it from its oldest end.
pub open spec fn resize(h: HistoryState, c: nat) -> HistoryState {
    HistoryState { windows: h.windows.map_values(|w: Seq<Seq<char>>| trim(w, c)), capacity: c }
}

pub open spec fn fetch_count_name() -> Seq<char> {
    seq!['f', 'e', 't', 'c', 'h', '_', 'c', 'o', 'u', 'n', 't']
}

pub open spec fn pending_messages_name() -> Seq<char> {
    seq!['p', 'e', 'n', 'd', 'i', 'n', 'g', '_', 'm', 'e', 's', 's', 'a', 'g', 'e', 's']
}

/// One update: resize to `c`, record the samples `rs` that were drained, then
/// their number under `fetch_count` and the number `pending` of samples left
/// waiting under `pending_messages`.
pub open spec fn after_update(h: HistoryState, c: nat, rs: Seq<Record>, pending: nat) -> HistoryState {
    let g = store_all(resize(h, c), rs);
    store(store(g, fetch_count_name(), decimal(rs.len())), pending_messages_name(), decimal(pending))
}

/// Keeps, for each sample name, a window of its most recent values (as the
/// text of their literals), oldest first, no longer than a capacity shared by
/// all names.
pub struct ValueHistory {
    names: Vec<String>,
    buffers: Vec<VecDeque<String>>,
    cap: usize,
}

impl View for ValueHistory {
    type V = HistoryState;

    closed spec fn view(&self) -> HistoryState {
        HistoryState {
            windows: Map::new(
                |k: Seq<char>| exists|i: int| 0 <= i < self.names@.len() && #[trigger] self.names@[i]@ == k,
                |k: Seq<char>|
                    window_view(
                        self.buffers@[choose|i: int|
                            0 <= i < self.names@.len() && #[trigger] self.names@[i]@ == k],
                    ),
            ),
            capacity: self.cap as nat,
        }
    }
}

impl ValueHistory {
    /// Each name has one window, and no window is longer than the capacity.
    pub closed spec fn wf(&self) -> bool {
        &&& self.names@.len() == self.buffers@.len()
        &&& forall|i: int, j: int|
            0 <= i < j < self.names@.len() ==> self.names@[i]@ != self.names@[j]@
        &&& forall|i: int| 0 <= i < self.buffers@.len() ==> #[trigger] self.buffers@[i]@.len() <= self.cap
    }

    proof fn lemma_window_at(&self, i: int)
        requires
            self.wf(),
            0 <= i < self.names@.len(),
        ensures
            self@.windows.contains_key(self.names@[i]@),
            self@.windows[self.names@[i]@] == window_view(self.buffers@[i]),
    {
        let k = self.names@[i]@;
        let j = choose|j: int| 0 <= j < self.names@.len() && #[trigger] self.names@[j]@ == k;
        assert(0 <= j < self.names@.len() && self.names@[j]@ == k);
        if j < i {
            assert(self.names@[j]@ != self.names@[i]@);
        }
        if i < j {
            assert(self.names@[i]@ != self.names@[j]@);
        }
    }

    /// An empty history whose windows hold up to `capacity` values.
    pub fn with_capacity(capacity: usize) -> (r: Self)
        ensures
            r.wf(),
            r@ == (HistoryState { windows: Map::empty(), capacity: capacity as nat }),
    {
        let r = ValueHistory { names: Vec::new(), buffers: Vec::new(), cap: capacity };
        assert(r@.windows =~= Map::<Seq<char>, Seq<Seq<char>>>::empty());
        r
    }

    /// Two well-formed histories with the same names and windows equal by
    /// position have the same view, but for the window at `i`.
    proof fn lemma_same_but_window(a: &Self, b: &Self, i: int)
        requires
            a.wf(),
            b.wf(),
            a.cap == b.cap,
            a.names@.len() == b.names@.len(),
            0 <= i < a.names@.len(),
            forall|j: int| 0 <= j < a.names@.len() ==> #[trigger] a.names@[j]@ == b.names@[j]@,
            forall|j: int| 0 <= j < a.names@.len() && j != i ==> #[trigger] a.buffers@[j] == b.buffers@[j],
        ensures
            b@ == (HistoryState {
                windows: a@.windows.insert(a.names@[i]@, window_view(b.buffers@[i])),
                capacity: a@.capacity,
            }),
    {
        let w = a@.windows.insert(a.names@[i]@, window_view(b.buffers@[i]));
        assert forall|k: Seq<char>| #[trigger] b@.windows.contains_key(k) <==> w.contains_key(k) by {
            if b@.windows.contains_key(k) {
                let j = choose|j: int| 0 <= j < b.names@.len() && #[trigger] b.names@[j]@ == k;
                assert(a.names@[j]@ == k);
            }
            if a@.windows.contains_key(k) {
                let j = choose|j: int| 0 <= j < a.names@.len() && #[trigger] a.names@[j]@ == k;
                assert(b.names@[j]@ == k);
            }
            if k == a.names@[i]@ {
                assert(b.names@[i]@ == k);
            }
        }
        assert forall|k: Seq<char>| #[trigger] b@.windows.contains_key(k) implies b@.windows[k]
            == w[k] by {
            let j = choose|j: int| 0 <= j < b.names@.len() && #[trigger] b.names@[j]@ == k;
            b.lemma_window_at(j);
            a.lemma_window_at(j);
            assert(a.names@[j]@ == k);
            if j != i {
                assert(a.names@[i]@ != a.names@[j]@);
            }
        }
        assert(b@.windows =~= w);
    }

    /// A well-formed history with one name added at the end has the view of
    /// the first with that name's window added.
    proof fn lemma_added_window(a: &Self, b: &Self)
        requires
            a.wf(),
            b.wf(),
            a.cap == b.cap,
            b.names@.len() == a.names@.len() + 1,
            forall|j: int| 0 <= j < a.names@.len() ==> #[trigger] a.names@[j] == b.names@[j],
            forall|j: int| 0 <= j < a.names@.len() ==> #[trigger] a.buffers@[j] == b.buffers@[j],
        ensures
            b@ == (HistoryState {
                windows: a@.windows.insert(
                    b.names@[a.names@.len() as int]@,
                    window_view(b.buffers@[a.names@.len() as int]),
                ),
                capacity: a@.capacity,
            }),
    {
        let n = a.names@.len() as int;
        let w = a@.windows.insert(b.names@[n]@, window_view(b.buffers@[n]));
        assert forall|k: Seq<char>| #[trigger] b@.windows.contains_key(k) <==> w.contains_key(k) by {
            if b@.windows.contains_key(k) {
                let j = choose|j: int| 0 <= j < b.names@.len() && #[trigger] b.names@[j]@ == k;
                if j < n {
                    assert(a.names@[j]@ == k);
                }
            }
            if a@.windows.contains_key(k) {
                let j = choose|j: int| 0 <= j < a.names@.len() && #[trigger] a.names@[j]@ == k;
                assert(b.names@[j]@ == k);
            }
            if k == b.names@[n]@ {
                assert(b.names@[n]@ == k);
            }
        }
        assert forall|k: Seq<char>| #[trigger] b@.windows.contains_key(k) implies b@.windows[k]
            == w[k] by {
            let j = choose|j: int| 0 <= j < b.names@.len() && #[trigger] b.names@[j]@ == k;
            b.lemma_window_at(j);
            if j < n {
                a.lemma_window_at(j);
                assert(b.names@[n]@ != b.names@[j]@);
            }
        }
        assert(b@.windows =~= w);
    }

    /// The position of `name` among the names, if it has a window.
    fn position(&self, name: &String) -> (r: Option<usize>)
        requires
            self.wf(),
        ensures
            match r {
                Some(i) => i < self.names@.len() && self.names@[i as int]@ == name@,
                None => forall|j: int| 0 <= j < self.names@.len() ==> #[trigger] self.names@[j]@ != name@,
            },
    {
        let mut i: usize = 0;
        while i < self.names.len()
            invariant
                i <= self.names@.len(),
                forall|j: int| 0 <= j < i ==> #[trigger] self.names@[j]@ != name@,
            decreases self.names@.len() - i,
        {
            if self.names[i] == *name {
                return Some(i);
            }
            i = i + 1;
        }
        None
    }

    fn store_value(&mut self, value: String, key: String)
        requires
            old(self).wf(),
        ensures
            final(self).wf(),
            final(self)@ == store(old(self)@, key@, value@),
    {
        let ghost a = *self;
        match self.position(&key) {
            Some(i) => {
                proof {
                    a.lemma_window_at(i as int);
                }
                self.buffers[i].push_back(value);
                if self.buffers[i].len() >= self.cap {
                    self.buffers[i].pop_front();
                }
                assert(window_view(self.buffers@[i as int]) =~= push_evict(
                    window_view(a.buffers@[i as int]),
                    value@,
                    a.cap as nat,
                ));
                proof {
                    Self::lemma_same_but_window(&a, self, i as int);
                }
            },
            None => {
                assert(!a@.windows.contains_key(key@));
                let mut b = VecDeque::new();
                b.push_back(value);
                if b.len() >= self.cap {
                    b.pop_front();
                }
                assert(window_view(b) =~= push_evict(Seq::empty(), value@, a.cap as nat));
                self.names.push(key);
                self.buffers.push(b);
                assert(self.names@[a.names@.len() as int] == key);
                assert forall|i: int, j: int|
                    0 <= i < j < self.names@.len() implies self.names@[i]@ != self.names@[j]@ by {
                    if j < a.names@.len() {
                        assert(a.names@[i] == self.names@[i]);
                        assert(a.names@[j] == self.names@[j]);
                    } else {
                        assert(a.names@[i] == self.names@[i]);
                    }
                }
                proof {
                    Self::lemma_added_window(&a, self);
                }
            },
        }
    }

    /// Sets the capacity that all windows share, and cuts every window down to
    /// it by discarding its oldest values.
    pub fn set_capacity(&mut self, capacity: usize)
        requires
            old(self).wf(),
        ensures
            final(self).wf(),
            final(self)@ == resize(old(self)@, capacity as nat),
    {
        let ghost a = *self;
        self.cap = capacity;
        let mut i: usize = 0;
        while i < self.buffers.len()
            invariant
                self.names == a.names,
                self.cap == capacity,
                a.wf(),
                self.buffers@.len() == a.buffers@.len(),
                i <= self.buffers@.len(),
                forall|j: int|
                    0 <= j < i ==> window_view(#[trigger] self.buffers@[j]) == trim(
                        window_view(a.buffers@[j]),
                        capacity as nat,
                    ) && self.buffers@[j]@.len() <= capacity,
                forall|j: int| i <= j < self.buffers@.len() ==> #[trigger] self.buffers@[j] == a.buffers@[j],
            decreases self.buffers@.len() - i,
        {
            trim_window(&mut self.buffers[i], capacity);
            i = i + 1;
        }
        proof {
            let w = a@.windows.map_values(|w: Seq<Seq<char>>| trim(w, capacity as nat));
            assert forall|k: Seq<char>| #[trigger] self@.windows.contains_key(k) <==> w.contains_key(
                k,
            ) by {}
            assert forall|k: Seq<char>| #[trigger] self@.windows.contains_key(k) implies self@.windows[k]
                == w[k] by {
                let j = choose|j: int| 0 <= j < self.names@.len() && #[trigger] self.names@[j]@ == k;
                self.lemma_window_at(j);
                a.lemma_window_at(j);
            }
            assert(self@.windows =~= w);
        }
    }

    /// Takes one sample from `rx` if one is ready, without waiting, and
    /// records it. Returns whether it took one.
    pub fn try_receive(&mut self, rx: &mut crossbeam::channel::Receiver<DataValue>) -> (r: bool)
        requires
            old(self).wf(),
        ensures
            final(self).wf(),
            r ==> exists|v: Record| #[trigger] store(old(self)@, v.0, v.1) == final(self)@,
            !r ==> final(self)@ == old(self)@,
    {
        match receive_ready(rx) {
            None => false,
            Some(data) => {
                let ghost v = data@;
                self.store_value(data.value, data.name);
                assert(store(old(self)@, v.0, v.1) == self@);
                true
            },
        }
    }

    /// Resizes the windows to `displayed_values`, records the samples of
    /// `drained` in order, then records their number under `fetch_count` and
    /// `pending` under `pending_messages`.
    pub fn apply_drained(&mut self, displayed_values: usize, drained: Vec<DataValue>, pending: usize)
        requires
            old(self).wf(),
        ensures
            final(self).wf(),
            final(self)@ == after_update(
                old(self)@,
                displayed_values as nat,
                records_view(drained@),
                pending as nat,
            ),
    {
        let ghost start = resize(self@, displayed_values as nat);
        let ghost rs = records_view(drained@);
        self.set_capacity(displayed_values);
        let mut i: usize = 0;
        while i < drained.len()
            invariant
                self.wf(),
                i <= drained@.len(),
                rs == records_view(drained@),
                self@ == store_all(start, rs.take(i as int)),
            decreases drained@.len() - i,
        {
            let d = &drained[i];
            self.store_value(d.value.clone(), d.name.clone());
            assert(rs.take(i + 1).drop_last() =~= rs.take(i as int));
            i = i + 1;
        }
        assert(rs.take(drained@.len() as int) =~= rs);
        let fetch_key = string_from_chars(
            &vec!['f', 'e', 't', 'c', 'h', '_', 'c', 'o', 'u', 'n', 't'],
        );
        self.store_value(decimal_string(drained.len()), fetch_key);
        let pending_key = string_from_chars(
            &vec!['p', 'e', 'n', 'd', 'i', 'n', 'g', '_', 'm', 'e', 's', 's', 'a', 'g', 'e', 's'],
        );
        self.store_value(decimal_string(pending), pending_key);
    }

    /// Takes up to `max_fetch_count` samples that are ready in `receiver`,
    /// without waiting and stopping at the first moment none is, and hands
    /// them, with the number of samples then left waiting, to
    /// [`Self::apply_drained`].
    pub fn update(
        &mut self,
        receiver: &mut crossbeam::channel::Receiver<DataValue>,
        displayed_values: usize,
        max_fetch_count: usize,
    )
        requires
            old(self).wf(),
        ensures
            final(self).wf(),
            exists|rs: Seq<Record>, pending: nat|
                rs.len() <= max_fetch_count && #[trigger] after_update(
                    old(self)@,
                    displayed_values as nat,
                    rs,
                    pending,
                ) == final(self)@,
    {
        let mut drained: Vec<DataValue> = Vec::new();
        let mut ready = true;
        while ready && drained.len() < max_fetch_count
            invariant
                drained@.len() <= max_fetch_count,
            decreases max_fetch_count - drained@.len() + if ready { 1int } else { 0int },
        {
            match receive_ready(receiver) {
                Some(data) => drained.push(data),
                None => ready = false,
            }
        }
        let pending = waiting_count(receiver);
        let ghost rs = records_view(drained@);
        self.apply_drained(displayed_values, drained, pending);
        assert(after_update(old(self)@, displayed_values as nat, rs, pending as nat) == self@);
    }

    /// The names that have a window, each once.
    pub fn names(&self) -> (r: Vec<String>)
        requires
            self.wf(),
        ensures
            forall|k: Seq<char>|
                self@.windows.contains_key(k) <==> exists|i: int|
                    0 <= i < r@.len() && #[trigger] r@[i]@ == k,
            forall|i: int, j: int| 0 <= i < j < r@.len() ==> r@[i]@ != r@[j]@,
    {
        let mut r: Vec<String> = Vec::new();
        let mut i: usize = 0;
        while i < self.names.len()
            invariant
                i <= self.names@.len(),
                r@.len() == i,
                forall|j: int| 0 <= j < i ==> #[trigger] r@[j] == self.names@[j],
            decreases self.names@.len() - i,
        {
            r.push(self.names[i].clone());
            i = i + 1;
        }
        assert forall|k: Seq<char>| self@.windows.contains_key(k) implies exists|i: int|
            0 <= i < r@.len() && #[trigger] r@[i]@ == k by {
            let j = choose|j: int| 0 <= j < self.names@.len() && #[trigger] self.names@[j]@ == k;
            assert(r@[j]@ == k);
        }
        assert forall|k: Seq<char>|
            (exists|i: int| 0 <= i < r@.len() && #[trigger] r@[i]@ == k) implies self@.windows.contains_key(k) by {
            let j = choose|j: int| 0 <= j < r@.len() && #[trigger] r@[j]@ == k;
            assert(self.names@[j]@ == k);
        }
        r
    }

    /// The window of `name`, oldest value first, if it has one.
    pub fn window(&self, name: &String) -> (r: Option<Vec<String>>)
        requires
            self.wf(),
        ensures
            r is Some <==> self@.windows.contains_key(name@),
            r is Some ==> r->0@.map_values(|s: String| s@) == self@.windows[name@],
    {
        match self.position(name) {
            None => None,
            Some(i) => {
                proof {
                    self.lemma_window_at(i as int);
                }
                let b = &self.buffers[i];
                let mut r: Vec<String> = Vec::new();
                let mut j: usize = 0;
                while j < b.len()
                    invariant
                        j <= b@.len(),
                        r@.len() == j,
                        forall|k: int| 0 <= k < j ==> #[trigger] r@[k] == b@[k],
                    decreases b@.len() - j,
                {
                    r.push(b[j].clone());
                    j = j + 1;
                }
                assert(r@.map_values(|s: String| s@) =~= window_view(*b));
                Some(r)
            },
        }
    }

    /// The capacity that all windows share.
    pub fn capacity(&self) -> (r: usize)
        ensures
            r == self@.capacity,
    {
        self.cap
    }

}

fn trim_window(b: &mut VecDeque<String>, c: usize)
    ensures
        window_view(*final(b)) == trim(window_view(*old(b)), c as nat),
        final(b)@.len() <= c,
{
    let ghost orig = window_view(*b);
    while b.len() > c
        invariant
            orig.len() == old(b)@.len(),
            b@.len() <= orig.len(),
            orig.len() > c ==> b@.len() >= c,
            orig.len() <= c ==> b@.len() == orig.len(),
            window_view(*b) == orig.skip(orig.len() - b@.len()),
        decreases b@.len(),
    {
        let ghost before = window_view(*b);
        b.pop_front();
        assert(window_view(*b) =~= before.drop_first());
        assert(orig.skip(orig.len() - b@.len()) =~= before.drop_first());
    }
    assert(orig.skip(0) =~= orig);
}


/// No window of `h` holds more than `n` values.
pub open spec fn bounded(h: HistoryState, n: nat) -> bool {
    forall|k: Seq<char>| #[trigger] h.windows.contains_key(k) ==> h.windows[k].len() <= n
}

/// Successive updates, all with capacity `n`; each batch holds the samples
/// that were drained and the number that was left waiting.
pub open spec fn updates(h: HistoryState, n: nat, batches: Seq<(Seq<Record>, nat)>) -> HistoryState
    decreases batches.len(),
{
    if batches.len() == 0 {
        h
    } else {
        let g = updates(h, n, batches.drop_last());
        after_update(g, n, batches.last().0, batches.last().1)
    }
}

proof fn lemma_store_bounded(h: HistoryState, name: Seq<char>, v: Seq<char>)
    requires
        bounded(h, h.capacity),
    ensures
        bounded(store(h, name, v), h.capacity),
        store(h, name, v).capacity == h.capacity,
{
    let g = store(h, name, v);
    assert forall|k: Seq<char>| #[trigger] g.windows.contains_key(k) implies g.windows[k].len()
        <= h.capacity by {
        if k != name {
            assert(h.windows.contains_key(k));
        }
    }
}

proof fn lemma_store_all_bounded(h: HistoryState, rs: Seq<Record>)
    requires
        bounded(h, h.capacity),
    ensures
        bounded(store_all(h, rs), h.capacity),
        store_all(h, rs).capacity == h.capacity,
    decreases rs.len(),
{
    if rs.len() > 0 {
        lemma_store_all_bounded(h, rs.drop_last());
        lemma_store_bounded(store_all(h, rs.drop_last()), rs.last().0, rs.last().1);
    }
}

proof fn lemma_update_bounded(h: HistoryState, n: nat, rs: Seq<Record>, pending: nat)
    ensures
        bounded(after_update(h, n, rs, pending), n),
        after_update(h, n, rs, pending).capacity == n,
{
    let r = resize(h, n);
    assert forall|k: Seq<char>| #[trigger] r.windows.contains_key(k) implies r.windows[k].len()
        <= n by {}
    lemma_store_all_bounded(r, rs);
    let g = store_all(r, rs);
    lemma_store_bounded(g, fetch_count_name(), decimal(rs.len()));
    lemma_store_bounded(
        store(g, fetch_count_name(), decimal(rs.len())),
        pending_messages_name(),
        decimal(pending),
    );
}

/// After the capacity is set to `n`, no number of updates with that capacity,
/// whatever they drain, leaves a window longer than `n`.
pub proof fn lemma_windows_within_capacity(
    h: HistoryState,
    n: nat,
    batches: Seq<(Seq<Record>, nat)>,
)
    ensures
        bounded(updates(resize(h, n), n, batches), n),
    decreases batches.len(),
{
    if batches.len() == 0 {
        let r = resize(h, n);
        assert forall|k: Seq<char>| #[trigger] r.windows.contains_key(k) implies r.windows[k].len()
            <= n by {}
    } else {
        lemma_update_bounded(
            updates(resize(h, n), n, batches.drop_last()),
            n,
            batches.last().0,
            batches.last().1,
        );
    }
}

/// Records the values `vs` under `name`, in order.
pub open spec fn store_values(h: HistoryState, name: Seq<char>, vs: Seq<Seq<char>>) -> HistoryState
    decreases vs.len(),
{
    if vs.len() == 0 {
        h
    } else {
        store(store_values(h, name, vs.drop_last()), name, vs.last())
    }
}

proof fn lemma_full_window_slides(h: HistoryState, name: Seq<char>, vs: Seq<Seq<char>>)
    requires
        window_of(h, name).len() == h.capacity,
    ensures
        store_values(h, name, vs).capacity == h.capacity,
        window_of(store_values(h, name, vs), name) == (window_of(h, name) + vs).skip(
            vs.len() as int,
        ),
    decreases vs.len(),
{
    if vs.len() == 0 {
        assert((window_of(h, name) + vs).skip(0) =~= window_of(h, name));
    } else {
        let init = vs.drop_last();
        lemma_full_window_slides(h, name, init);
        let w = (window_of(h, name) + init).skip(init.len() as int);
        assert(w.push(vs.last()).drop_first() =~= (window_of(h, name) + vs).skip(vs.len() as int));
    }
}

/// Once a window holds as many values as the capacity, each value recorded
/// under its name evicts the oldest: after more values than the capacity, the
/// window holds the last `capacity` of them, oldest first.
pub proof fn lemma_full_window_keeps_last(h: HistoryState, name: Seq<char>, vs: Seq<Seq<char>>)
    requires
        window_of(h, name).len() == h.capacity,
        vs.len() > h.capacity,
    ensures
        window_of(store_values(h, name, vs), name) == vs.skip(vs.len() - h.capacity),
{
    lemma_full_window_slides(h, name, vs);
    assert((window_of(h, name) + vs).skip(vs.len() as int) =~= vs.skip(vs.len() - h.capacity));
}

proof fn lemma_new_window_grows(h: HistoryState, name: Seq<char>, vs: Seq<Seq<char>>)
    requires
        window_of(h, name).len() == 0,
        h.capacity >= 1,
    ensures
        store_values(h, name, vs).capacity == h.capacity,
        window_of(store_values(h, name, vs), name) == if vs.len() >= h.capacity - 1 {
            vs.skip(vs.len() - (h.capacity - 1))
        } else {
            vs
        },
    decreases vs.len(),
{
    if vs.len() == 0 {
    } else {
        let init = vs.drop_last();
        lemma_new_window_grows(h, name, init);
        let c = h.capacity;
        let w = window_of(store_values(h, name, init), name);
        if init.len() >= c - 1 {
            assert(w.push(vs.last()).drop_first() =~= vs.skip(vs.len() - (c - 1)));
        } else {
            assert(w.push(vs.last()) =~= vs);
            if vs.len() == c - 1 {
                assert(vs.skip(0) =~= vs);
            }
        }
    }
}

/// A window that starts empty keeps at most `capacity - 1` values: the value
/// that makes it reach the capacity evicts the oldest. After at least
/// `capacity - 1` values it holds the last `capacity - 1` of them, oldest first.
pub proof fn lemma_new_window_keeps_last(h: HistoryState, name: Seq<char>, vs: Seq<Seq<char>>)
    requires
        !h.windows.contains_key(name),
        h.capacity >= 1,
        vs.len() >= h.capacity - 1,
    ensures
        window_of(store_values(h, name, vs), name) == vs.skip(vs.len() - (h.capacity - 1)),
{
    lemma_new_window_grows(h, name, vs);
}

}
