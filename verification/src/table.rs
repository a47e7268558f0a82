//! The table of connected sessions.
//!
//! Sessions are kept in ascending order of their identifiers, and every walk
//! over the table goes in that order. Whatever depends on the order of a walk
//! (the order of a broadcast, which of two equally good guesses is met first)
//! is therefore fixed by the identifiers alone.

use crate::coordinate::Coordinate;
use vstd::prelude::*;

verus! {

/// What the server remembers of one connected client.
#[derive(Clone, Debug, PartialEq, Eq)]
pub struct Client {
    /// The display name, once the client has said hello.
    pub name: Option<String>,
    /// The answer recorded for the round that is running.
    pub guess: Option<Coordinate>,
}

/// The mathematical value of a [`Client`].
pub struct ClientView {
    pub name: Option<Seq<char>>,
    pub guess: Option<Coordinate>,
}

impl View for Client {
    type V = ClientView;

    open spec fn view(&self) -> ClientView {
        ClientView {
            name: match self.name {
                Some(name) => Some(name@),
                None => None,
            },
            guess: self.guess,
        }
    }
}

impl Client {
    /// A client that has just connected: no name yet, no guess.
    pub fn new() -> (client: Client)
        ensures
            client@ == (ClientView { name: None, guess: None }),
    {
        Client { name: None, guess: None }
    }
}

/// One row of the table, as a mathematical value.
pub struct SessionView {
    pub id: u32,
    pub name: Option<Seq<char>>,
    pub guess: Option<Coordinate>,
}

/// The row of a session that has just connected.
pub open spec fn fresh(id: u32) -> SessionView {
    SessionView { id, name: None, guess: None }
}

/// A session takes part in rounds once it has a name.
pub open spec fn is_active(s: SessionView) -> bool {
    s.name is Some
}

/// The rows stand in strictly ascending order of their identifiers.
pub open spec fn ascending(t: Seq<SessionView>) -> bool {
    forall|i: int, j: int| 0 <= i < j < t.len() ==> t[i].id < t[j].id
}

/// Some row of the table belongs to `id`.
pub open spec fn knows(t: Seq<SessionView>, id: u32) -> bool {
    exists|i: int| 0 <= i < t.len() && #[trigger] t[i].id == id
}

/// Rows whose identifier lies below `id`.
pub open spec fn below(id: u32) -> spec_fn(SessionView) -> bool {
    |s: SessionView| s.id < id
}

/// Rows whose identifier lies above `id`.
pub open spec fn above(id: u32) -> spec_fn(SessionView) -> bool {
    |s: SessionView| s.id > id
}

/// Rows that do not belong to `id`.
pub open spec fn other_than(id: u32) -> spec_fn(SessionView) -> bool {
    |s: SessionView| s.id != id
}

/// The table with `row` at its place in the order, in place of any row its
/// identifier had before.
pub open spec fn placed(t: Seq<SessionView>, row: SessionView) -> Seq<SessionView> {
    t.filter(below(row.id)).push(row) + t.filter(above(row.id))
}

/// The table after `id` has connected: a fresh row at its place in the
/// order, in place of any row the identifier had before.
pub open spec fn joined(t: Seq<SessionView>, id: u32) -> Seq<SessionView> {
    placed(t, fresh(id))
}

/// The table after `id` has left.
pub open spec fn parted(t: Seq<SessionView>, id: u32) -> Seq<SessionView> {
    t.filter(other_than(id))
}

/// The table after `id` has said hello as `name`.
pub open spec fn named(t: Seq<SessionView>, id: u32, name: Seq<char>) -> Seq<SessionView> {
    t.map_values(
        |s: SessionView|
            if s.id == id {
                SessionView { name: Some(name), ..s }
            } else {
                s
            },
    )
}

/// The table after `id` has sent `guess`: it is recorded unless the session
/// already holds a guess.
pub open spec fn guessed(t: Seq<SessionView>, id: u32, guess: Coordinate) -> Seq<SessionView> {
    t.map_values(
        |s: SessionView|
            if s.id == id && s.guess is None {
                SessionView { guess: Some(guess), ..s }
            } else {
                s
            },
    )
}

/// The table with the guess of every active session wiped.
pub open spec fn cleared(t: Seq<SessionView>) -> Seq<SessionView> {
    t.map_values(
        |s: SessionView|
            if is_active(s) {
                SessionView { guess: None, ..s }
            } else {
                s
            },
    )
}

/// A round is complete when there is an active session and every active
/// session holds a guess.
pub open spec fn round_complete(t: Seq<SessionView>) -> bool {
    &&& exists|i: int| 0 <= i < t.len() && is_active(#[trigger] t[i])
    &&& forall|i: int| 0 <= i < t.len() && is_active(#[trigger] t[i]) ==> t[i].guess is Some
}

/// A sequence whose elements below `p` all pass `pred`, and none from `p` on,
/// filters to its first `p` elements.
pub proof fn lemma_filter_prefix<A>(t: Seq<A>, pred: spec_fn(A) -> bool, p: int)
    requires
        0 <= p <= t.len(),
        forall|i: int| 0 <= i < p ==> pred(#[trigger] t[i]),
        forall|i: int| p <= i < t.len() ==> !pred(#[trigger] t[i]),
    ensures
        t.filter(pred) == t.take(p),
    decreases t.len(),
{
    reveal(Seq::filter);
    if t.len() == 0 {
        assert(t.filter(pred) =~= t.take(p));
    } else {
        let d = t.drop_last();
        if p == t.len() {
            lemma_filter_prefix(d, pred, p - 1);
            assert(d.take(p - 1) =~= d);
            assert(d.push(t.last()) =~= t.take(p));
        } else {
            lemma_filter_prefix(d, pred, p);
            assert(d.take(p) =~= t.take(p));
        }
    }
}

/// A sequence whose elements from `p` on all pass `pred`, and none below
/// `p`, filters to what follows its first `p` elements.
pub proof fn lemma_filter_suffix<A>(t: Seq<A>, pred: spec_fn(A) -> bool, p: int)
    requires
        0 <= p <= t.len(),
        forall|i: int| 0 <= i < p ==> !pred(#[trigger] t[i]),
        forall|i: int| p <= i < t.len() ==> pred(#[trigger] t[i]),
    ensures
        t.filter(pred) == t.skip(p),
    decreases t.len(),
{
    reveal(Seq::filter);
    if t.len() == 0 {
        assert(t.filter(pred) =~= t.skip(p));
    } else {
        let d = t.drop_last();
        if p == t.len() {
            lemma_filter_suffix(d, pred, p - 1);
            assert(d.skip(p - 1) =~= t.skip(p));
        } else {
            lemma_filter_suffix(d, pred, p);
            assert(d.skip(p).push(t.last()) =~= t.skip(p));
        }
    }
}

/// A sequence in which only the element at `p` fails `pred` filters to
/// itself without that element.
pub proof fn lemma_filter_all_but<A>(t: Seq<A>, pred: spec_fn(A) -> bool, p: int)
    requires
        0 <= p < t.len(),
        !pred(t[p]),
        forall|i: int| 0 <= i < t.len() && i != p ==> pred(#[trigger] t[i]),
    ensures
        t.filter(pred) == t.remove(p),
    decreases t.len(),
{
    reveal(Seq::filter);
    let d = t.drop_last();
    if p == t.len() - 1 {
        lemma_filter_prefix(d, pred, d.len() as int);
        assert(d.take(d.len() as int) =~= d);
        assert(d =~= t.remove(p));
    } else {
        lemma_filter_all_but(d, pred, p);
        assert(d.remove(p).push(t.last()) =~= t.remove(p));
    }
}

/// Filtering keeps the order: what is left of an ascending table ascends,
/// and each of its rows is a row of the table that passes `pred`.
pub proof fn lemma_filter_ascending(t: Seq<SessionView>, pred: spec_fn(SessionView) -> bool)
    requires
        ascending(t),
    ensures
        ascending(t.filter(pred)),
        forall|k: int|
            0 <= k < t.filter(pred).len() ==> pred(#[trigger] t.filter(pred)[k]) && t.contains(
                t.filter(pred)[k],
            ),
    decreases t.len(),
{
    reveal(Seq::filter);
    if t.len() > 0 {
        let d = t.drop_last();
        let f = d.filter(pred);
        assert forall|i: int, j: int| 0 <= i < j < d.len() implies d[i].id < d[j].id by {
            assert(t[i].id < t[j].id);
        }
        lemma_filter_ascending(d, pred);
        assert forall|k: int| 0 <= k < f.len() implies t.contains(#[trigger] f[k]) && f[k].id
            < t.last().id by {
            assert(d.contains(f[k]));
            let j = choose|j: int| 0 <= j < d.len() && d[j] == f[k];
            assert(t[j] == f[k]);
            assert(t[j].id < t[t.len() - 1].id);
        }
        if pred(t.last()) {
            let g = f.push(t.last());
            assert(t[t.len() - 1] == t.last());
            assert forall|k: int| 0 <= k < g.len() implies pred(#[trigger] g[k]) && t.contains(
                g[k],
            ) by {
                if k < f.len() {
                    assert(g[k] == f[k]);
                }
            }
            assert forall|i: int, j: int| 0 <= i < j < g.len() implies g[i].id < g[j].id by {
                assert(g[i] == f[i]);
                if j < f.len() {
                    assert(g[j] == f[j]);
                    assert(f[i].id < f[j].id);
                }
            }
        }
    }
}

/// A connection leaves the table in order.
pub proof fn lemma_placed_ascending(t: Seq<SessionView>, row: SessionView)
    requires
        ascending(t),
    ensures
        ascending(placed(t, row)),
        knows(placed(t, row), row.id),
{
    let lo = t.filter(below(row.id));
    let hi = t.filter(above(row.id));
    lemma_filter_ascending(t, below(row.id));
    lemma_filter_ascending(t, above(row.id));
    let u = placed(t, row);
    assert forall|i: int, j: int| 0 <= i < j < u.len() implies u[i].id < u[j].id by {
        if j < lo.len() {
            assert(u[i] == lo[i] && u[j] == lo[j]);
            assert(lo[i].id < lo[j].id);
        } else if j == lo.len() {
            assert(u[i] == lo[i]);
            assert(below(row.id)(lo[i]));
        } else if i < lo.len() {
            assert(u[i] == lo[i]);
            assert(below(row.id)(lo[i]));
            assert(u[j] == hi[j - lo.len() - 1]);
            assert(above(row.id)(hi[j - lo.len() - 1]));
        } else if i == lo.len() {
            assert(u[j] == hi[j - lo.len() - 1]);
            assert(above(row.id)(hi[j - lo.len() - 1]));
        } else {
            assert(u[i] == hi[i - lo.len() - 1]);
            assert(u[j] == hi[j - lo.len() - 1]);
            assert(hi[i - lo.len() - 1].id < hi[j - lo.len() - 1].id);
        }
    }
    assert(u[lo.len() as int].id == row.id);
}

/// A disconnection leaves the table in order, and the session is gone
/// from it.
pub proof fn lemma_parted_ascending(t: Seq<SessionView>, id: u32)
    requires
        ascending(t),
    ensures
        ascending(parted(t, id)),
        !knows(parted(t, id), id),
{
    lemma_filter_ascending(t, other_than(id));
    let u = parted(t, id);
    assert forall|i: int| 0 <= i < u.len() implies (#[trigger] u[i]).id != id by {
        assert(other_than(id)(u[i]));
    }
}

/// One row of the table.
struct Row {
    id: u32,
    client: Client,
}

/// The connected sessions, in ascending order of their identifiers.
pub struct ClientTable {
    rows: Vec<Row>,
}

impl View for ClientTable {
    type V = Seq<SessionView>;

    closed spec fn view(&self) -> Seq<SessionView> {
        self.rows@.map_values(
            |r: Row| SessionView { id: r.id, name: r.client@.name, guess: r.client@.guess },
        )
    }
}

impl ClientTable {
    /// The table's invariant: identifiers ascend strictly, so none occurs twice.
    pub open spec fn wf(&self) -> bool {
        ascending(self@)
    }

    /// The empty table.
    pub fn new() -> (table: ClientTable)
        ensures
            table@ == Seq::<SessionView>::empty(),
            table.wf(),
    {
        let table = ClientTable { rows: Vec::new() };
        assert(table@ =~= Seq::<SessionView>::empty());
        table
    }

    /// The number of sessions.
    pub fn len(&self) -> (n: usize)
        ensures
            n == self@.len(),
    {
        self.rows.len()
    }

    /// The identifier of the session in row `i`.
    pub fn id_at(&self, i: usize) -> (id: u32)
        requires
            i < self@.len(),
        ensures
            id == self@[i as int].id,
    {
        self.rows[i].id
    }

    /// What is remembered of the session in row `i`.
    pub fn client_at(&self, i: usize) -> (client: &Client)
        requires
            i < self@.len(),
        ensures
            client@.name == self@[i as int].name,
            client@.guess == self@[i as int].guess,
    {
        &self.rows[i].client
    }

    /// The number of rows whose identifier lies below `id`: the row of `id`,
    /// if it has one, and otherwise the place where it would stand.
    fn rank(&self, id: u32) -> (p: usize)
        requires
            self.wf(),
        ensures
            p <= self@.len(),
            forall|i: int| 0 <= i < p ==> (#[trigger] self@[i]).id < id,
            forall|i: int| p <= i < self@.len() ==> (#[trigger] self@[i]).id >= id,
    {
        let mut p: usize = 0;
        while p < self.rows.len() && self.rows[p].id < id
            invariant
                self.wf(),
                p <= self@.len(),
                self@.len() == self.rows@.len(),
                forall|i: int| 0 <= i < self@.len() ==> (#[trigger] self@[i]).id == self.rows@[i].id,
                forall|i: int| 0 <= i < p ==> (#[trigger] self@[i]).id < id,
            decreases self.rows.len() - p,
        {
            p += 1;
        }
        proof {
            assert forall|i: int| p <= i < self@.len() implies (#[trigger] self@[i]).id >= id by {
                assert(self@[p as int].id == self.rows@[p as int].id);
                if p < i {
                    assert(self@[p as int].id < self@[i].id);
                }
            }
        }
        p
    }

    /// Puts `client` in the table under `id`, at the identifier's place in
    /// the order. A row that `id` had before is replaced.
    pub fn insert(&mut self, id: u32, client: Client)
        requires
            old(self).wf(),
        ensures
            final(self)@ == placed(
                old(self)@,
                SessionView { id, name: client@.name, guess: client@.guess },
            ),
            final(self).wf(),
    {
        let ghost t = self@;
        let ghost row = SessionView { id, name: client@.name, guess: client@.guess };
        let p = self.rank(id);
        let replaces = p < self.rows.len() && self.rows[p].id == id;
        let ghost q: int = if replaces { p + 1 } else { p as int };
        proof {
            if p < t.len() {
                assert(t[p as int].id == self.rows@[p as int].id);
            }
            lemma_filter_prefix(t, below(id), p as int);
            assert forall|i: int| q <= i < t.len() implies above(id)(#[trigger] t[i]) by {
                if p < i {
                    assert(t[p as int].id < t[i].id);
                }
            }
            lemma_filter_suffix(t, above(id), q);
        }
        if replaces {
            self.rows.set(p, Row { id, client });
        } else {
            self.rows.insert(p, Row { id, client });
        }
        proof {
            let u = t.take(p as int).push(row) + t.skip(q);
            assert(self@ =~= u);
            assert forall|i: int, j: int| 0 <= i < j < u.len() implies u[i].id < u[j].id by {
                if j < p {
                    assert(t[i].id < t[j].id);
                } else if j == p {
                    assert(u[i] == t[i]);
                } else if i == p {
                    assert(u[j] == t[j - p - 1 + q]);
                } else if i < p {
                    assert(u[i] == t[i]);
                    assert(u[j] == t[j - p - 1 + q]);
                    assert(t[i].id < t[j - p - 1 + q].id);
                } else {
                    assert(u[i] == t[i - p - 1 + q]);
                    assert(u[j] == t[j - p - 1 + q]);
                    assert(t[i - p - 1 + q].id < t[j - p - 1 + q].id);
                }
            }
        }
    }

    /// Takes the row of `id` out of the table and hands back what it held.
    /// Nothing changes when `id` is not connected.
    pub fn remove(&mut self, id: u32) -> (removed: Option<Client>)
        requires
            old(self).wf(),
        ensures
            final(self)@ == parted(old(self)@, id),
            final(self).wf(),
            removed is Some <==> knows(old(self)@, id),
            removed matches Some(client) ==> exists|i: int|
                0 <= i < old(self)@.len() && (#[trigger] old(self)@[i]).id == id
                    && client@.name == old(self)@[i].name && client@.guess == old(self)@[i].guess,
    {
        let ghost t = self@;
        match self.position(id) {
            Some(p) => {
                proof {
                    assert forall|i: int| 0 <= i < t.len() && i != p implies other_than(id)(
                        #[trigger] t[i],
                    ) by {
                        if i < p {
                            assert(t[i].id < t[p as int].id);
                        } else {
                            assert(t[p as int].id < t[i].id);
                        }
                    }
                    lemma_filter_all_but(t, other_than(id), p as int);
                }
                let row = self.rows.remove(p);
                proof {
                    let u = t.remove(p as int);
                    assert(self@ =~= u);
                    assert forall|i: int, j: int| 0 <= i < j < u.len() implies u[i].id
                        < u[j].id by {
                        let a = if i < p { i } else { i + 1 };
                        let b = if j < p { j } else { j + 1 };
                        assert(u[i] == t[a]);
                        assert(u[j] == t[b]);
                        assert(t[a].id < t[b].id);
                    }
                    assert(t[p as int].id == id);
                }
                Some(row.client)
            },
            None => {
                proof {
                    lemma_filter_prefix(t, other_than(id), t.len() as int);
                    assert(t.take(t.len() as int) =~= t);
                }
                None
            },
        }
    }

    /// Records `name` as the display name of `id`, over any name it had, and
    /// says whether `id` is connected.
    pub fn set_name(&mut self, id: u32, name: String) -> (known: bool)
        requires
            old(self).wf(),
        ensures
            final(self)@ == named(old(self)@, id, name@),
            final(self).wf(),
            known == knows(old(self)@, id),
    {
        let ghost t = self@;
        match self.position(id) {
            Some(p) => {
                let guess = self.rows[p].client.guess;
                self.rows.set(p, Row { id, client: Client { name: Some(name), guess } });
                proof {
                    let u = named(t, id, name@);
                    assert forall|i: int| 0 <= i < t.len() implies #[trigger] self@[i] == u[i] by {
                        if i < p {
                            assert(t[i].id < t[p as int].id);
                        } else if p < i {
                            assert(t[p as int].id < t[i].id);
                        }
                    }
                    assert(self@ =~= u);
                    assert forall|i: int, j: int| 0 <= i < j < u.len() implies u[i].id
                        < u[j].id by {
                        assert(t[i].id < t[j].id);
                    }
                    assert(t[p as int].id == id);
                }
                true
            },
            None => {
                assert(self@ =~= named(t, id, name@));
                false
            },
        }
    }

    /// Records `guess` as the answer of `id`, unless `id` already holds an
    /// answer or is not connected, and says whether it was recorded.
    pub fn record_guess(&mut self, id: u32, guess: Coordinate) -> (recorded: bool)
        requires
            old(self).wf(),
        ensures
            final(self)@ == guessed(old(self)@, id, guess),
            final(self).wf(),
            recorded <==> exists|i: int|
                0 <= i < old(self)@.len() && (#[trigger] old(self)@[i]).id == id && old(
                    self,
                )@[i].guess is None,
    {
        let ghost t = self@;
        match self.position(id) {
            Some(p) => {
                proof {
                    assert forall|i: int| 0 <= i < t.len() && i != p implies (#[trigger] t[i]).id
                        != id by {
                        if i < p {
                            assert(t[i].id < t[p as int].id);
                        } else {
                            assert(t[p as int].id < t[i].id);
                        }
                    }
                }
                if self.rows[p].client.guess.is_none() {
                    self.rows[p].client.guess = Some(guess);
                    proof {
                        let u = guessed(t, id, guess);
                        assert(self@ =~= u);
                        assert forall|i: int, j: int| 0 <= i < j < u.len() implies u[i].id
                            < u[j].id by {
                            assert(t[i].id < t[j].id);
                        }
                        assert(t[p as int].id == id && t[p as int].guess is None);
                    }
                    true
                } else {
                    assert(self@ =~= guessed(t, id, guess));
                    false
                }
            },
            None => {
                assert(self@ =~= guessed(t, id, guess));
                false
            },
        }
    }

    /// Wipes the guess of every active session.
    pub fn clear_guesses(&mut self)
        requires
            old(self).wf(),
        ensures
            final(self)@ == cleared(old(self)@),
            final(self).wf(),
    {
        let ghost t = self@;
        let mut k: usize = 0;
        while k < self.rows.len()
            invariant
                k <= self.rows@.len(),
                self@.len() == t.len(),
                self.rows@.len() == t.len(),
                forall|i: int| 0 <= i < k ==> #[trigger] self@[i] == cleared(t)[i],
                forall|i: int| k <= i < t.len() ==> #[trigger] self@[i] == t[i],
            decreases self.rows.len() - k,
        {
            let ghost before = self@;
            assert(before[k as int] == t[k as int]);
            assert(before[k as int].name == self.rows@[k as int].client@.name);
            if self.rows[k].client.name.is_some() {
                self.rows[k].client.guess = None;
            }
            proof {
                assert forall|i: int| 0 <= i < t.len() && i != k implies #[trigger] self@[i]
                    == before[i] by {}
                assert(self@[k as int].id == before[k as int].id);
                assert(self@[k as int].name == before[k as int].name);
                assert(self@[k as int] == cleared(t)[k as int]);
            }
            k += 1;
        }
        proof {
            let u = cleared(t);
            assert(self@ =~= u);
            assert forall|i: int, j: int| 0 <= i < j < u.len() implies u[i].id < u[j].id by {
                assert(t[i].id < t[j].id);
            }
        }
    }

    /// Whether the round is complete: some session is active, and every
    /// active session holds a guess.
    pub fn is_complete(&self) -> (complete: bool)
        ensures
            complete == round_complete(self@),
    {
        let mut any_active = false;
        let mut all_guessed = true;
        let mut k: usize = 0;
        while k < self.rows.len()
            invariant
                k <= self.rows@.len(),
                self@.len() == self.rows@.len(),
                any_active <==> exists|i: int| 0 <= i < k && is_active(#[trigger] self@[i]),
                all_guessed <==> forall|i: int|
                    0 <= i < k && is_active(#[trigger] self@[i]) ==> self@[i].guess is Some,
            decreases self.rows.len() - k,
        {
            let client = &self.rows[k].client;
            assert(client@.name == self@[k as int].name);
            assert(client@.guess == self@[k as int].guess);
            if client.name.is_some() {
                any_active = true;
                if client.guess.is_none() {
                    all_guessed = false;
                }
            }
            k += 1;
        }
        any_active && all_guessed
    }

    /// The row of `id`, if it is connected.
    pub fn position(&self, id: u32) -> (found: Option<usize>)
        requires
            self.wf(),
        ensures
            match found {
                Some(p) => p < self@.len() && self@[p as int].id == id,
                None => !knows(self@, id),
            },
    {
        let p = self.rank(id);
        if p < self.rows.len() && self.rows[p].id == id {
            assert(self@[p as int].id == self.rows@[p as int].id);
            Some(p)
        } else {
            proof {
                if p < self@.len() {
                    assert(self@[p as int].id == self.rows@[p as int].id);
                }
                assert forall|i: int| 0 <= i < self@.len() implies (#[trigger] self@[i]).id != id by {
                    if p < i {
                        assert(self@[p as int].id < self@[i].id);
                    }
                }
            }
            None
        }
    }
}

} // verus!
