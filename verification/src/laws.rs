//! What holds of the coordinator whatever reaches it.

use crate::model::{
    active_rounds, addressed, announce, applied, begun, concluded, guess_of, guesses, is_over,
    replies, run, step, valid, EventView, GameView, OutboundView,
};
use crate::protocol::ServerMessageView;
use crate::table::{
    above, ascending, below, cleared, fresh, is_active, joined, knows, lemma_filter_ascending,
    lemma_parted_ascending, lemma_placed_ascending, parted, round_complete, SessionView,
};
use vstd::prelude::*;

verus! {

/// Every message of an announcement carries the announced text and goes to
/// an active session of the table.
pub proof fn lemma_announce_members(t: Seq<SessionView>, message: ServerMessageView, k: int)
    requires
        0 <= k < announce(t, message).len(),
    ensures
        announce(t, message)[k].message == message,
        exists|i: int|
            0 <= i < t.len() && is_active(#[trigger] t[i]) && t[i].id == announce(
                t,
                message,
            )[k].client_id,
{
    let out = announce(t, message);
    assert(out.contains(out[k]));
    t.lemma_filter_map_contains(addressed(message), out[k]);
    let s = choose|s: SessionView| #[trigger] t.contains(s) && addressed(message)(s) == Some(out[k]);
    let i = choose|i: int| 0 <= i < t.len() && t[i] == s;
    assert(is_active(t[i]) && t[i].id == out[k].client_id);
}

/// Every reported guess is the guess that an active session of the table
/// holds.
pub proof fn lemma_guesses_members(t: Seq<SessionView>, k: int)
    requires
        0 <= k < guesses(t).len(),
    ensures
        exists|i: int|
            0 <= i < t.len() && is_active(#[trigger] t[i]) && t[i].id == guesses(t)[k].client_id
                && t[i].guess == Some(guesses(t)[k].guess) && t[i].name == Some(
                guesses(t)[k].name,
            ),
{
    let out = guesses(t);
    assert(out.contains(out[k]));
    t.lemma_filter_map_contains(guess_of(), out[k]);
    let s = choose|s: SessionView| #[trigger] t.contains(s) && guess_of()(s) == Some(out[k]);
    let i = choose|i: int| 0 <= i < t.len() && t[i] == s;
    assert(is_active(t[i]) && t[i].id == out[k].client_id);
}

/// Taking an event in leaves a state that a coordinator can be in, over the
/// same dataset.
pub proof fn lemma_applied_valid(g: GameView, event: EventView)
    requires
        valid(g),
    ensures
        valid(applied(g, event)),
        applied(g, event).cities == g.cities,
{
    let a = applied(g, event);
    match event {
        EventView::Connect(id) => {
            lemma_placed_ascending(g.clients, fresh(id));
        },
        EventView::ClientMessage(id, message) => {
            assert forall|i: int, j: int| 0 <= i < j < a.clients.len() implies a.clients[i].id
                < a.clients[j].id by {
                assert(g.clients[i].id < g.clients[j].id);
            }
        },
        EventView::Disconnect(id) => {
            lemma_parted_ascending(g.clients, id);
        },
    }
}

/// An event leaves a state that a coordinator can be in, over the same
/// dataset.
pub proof fn lemma_step_valid(g: GameView, event: EventView, pick: int)
    requires
        valid(g),
    ensures
        valid(step(g, event, pick).game),
        step(g, event, pick).game.cities == g.cities,
{
    let a = applied(g, event);
    lemma_applied_valid(g, event);
    let t = cleared(a.clients);
    assert forall|i: int, j: int| 0 <= i < j < t.len() implies t[i].id < t[j].id by {
        assert(a.clients[i].id < a.clients[j].id);
    }
}

/// An announcement goes out in ascending order of the identifiers, so to no
/// session twice.
pub proof fn lemma_announce_ascending(
    t: Seq<SessionView>,
    message: ServerMessageView,
    k1: int,
    k2: int,
)
    requires
        ascending(t),
        0 <= k1 < k2 < announce(t, message).len(),
    ensures
        announce(t, message)[k1].client_id < announce(t, message)[k2].client_id,
    decreases t.len(),
{
    if t.len() > 0 {
        let d = t.drop_last();
        let inner = announce(d, message);
        assert forall|i: int, j: int| 0 <= i < j < d.len() implies d[i].id < d[j].id by {
            assert(t[i].id < t[j].id);
        }
        if k2 < inner.len() {
            lemma_announce_ascending(d, message, k1, k2);
        } else {
            lemma_announce_members(d, message, k1);
            let i = choose|i: int|
                0 <= i < d.len() && is_active(#[trigger] d[i]) && d[i].id == inner[k1].client_id;
            assert(t[i].id < t[t.len() - 1].id);
        }
    }
}

/// An announcement reaches every active session of the table.
pub proof fn lemma_announce_reaches(t: Seq<SessionView>, message: ServerMessageView, i: int)
    requires
        0 <= i < t.len(),
        is_active(t[i]),
    ensures
        exists|k: int|
            0 <= k < announce(t, message).len() && #[trigger] announce(t, message)[k] == (
            OutboundView { client_id: t[i].id, message }),
    decreases t.len(),
{
    let d = t.drop_last();
    let inner = announce(d, message);
    let out = announce(t, message);
    if i == t.len() - 1 {
        assert(out[inner.len() as int] == (OutboundView { client_id: t[i].id, message }));
    } else {
        lemma_announce_reaches(d, message, i);
        let k = choose|k: int|
            0 <= k < inner.len() && #[trigger] inner[k] == (OutboundView {
                client_id: d[i].id,
                message,
            });
        assert(out[k] == inner[k]);
    }
}

/// After any event exactly one round is running, and that round is not
/// complete: a round that an event completes is closed by that event, so no
/// round is ever closed twice.
pub proof fn lemma_step_leaves_one_open_round(g: GameView, event: EventView, pick: int)
    ensures
        active_rounds(step(g, event, pick).game) == 1,
        !round_complete(step(g, event, pick).game.clients),
{
    let a = applied(g, event);
    let s = step(g, event, pick);
    if is_over(a) || a.current_city is None {
        let t = cleared(a.clients);
        assert(s.game.clients == t);
        if round_complete(t) {
            let i = choose|i: int| 0 <= i < t.len() && is_active(#[trigger] t[i]);
            assert(t[i].guess is Some);
        }
    }
}

/// The events and draws that [`lemma_run_keeps_one_round`] speaks of: one
/// draw for each event, each the place of a city of the dataset.
pub open spec fn draws_fit(g: GameView, events: Seq<EventView>, picks: Seq<int>) -> bool {
    &&& picks.len() == events.len()
    &&& forall|i: int| 0 <= i < picks.len() ==> 0 <= #[trigger] picks[i] < g.cities.len()
}

/// Whatever sequence of events reaches a coordinator, the number of rounds
/// that are running is never more than one; it is one as soon as an event
/// has been handled, and the round that is running is then not complete.
/// The state stays one that a coordinator can be in.
pub proof fn lemma_run_keeps_one_round(g: GameView, events: Seq<EventView>, picks: Seq<int>)
    requires
        valid(g),
        draws_fit(g, events, picks),
    ensures
        valid(run(g, events, picks)),
        run(g, events, picks).cities == g.cities,
        active_rounds(run(g, events, picks)) <= 1,
        events.len() > 0 ==> active_rounds(run(g, events, picks)) == 1 && !round_complete(
            run(g, events, picks).clients,
        ),
    decreases events.len(),
{
    if events.len() > 0 {
        let before = run(g, events.drop_last(), picks.drop_last());
        assert forall|i: int| 0 <= i < picks.drop_last().len() implies 0 <= #[trigger] picks.drop_last()[i]
            < g.cities.len() by {
            assert(picks.drop_last()[i] == picks[i]);
        }
        lemma_run_keeps_one_round(g, events.drop_last(), picks.drop_last());
        lemma_step_valid(before, events.last(), picks.last());
        lemma_step_leaves_one_open_round(before, events.last(), picks.last());
    }
}

/// A round is completed by an event exactly when a round is running and,
/// once the event is taken in, some session is active and every active
/// session holds a guess. So no event completes a round while an active
/// session is without a guess.
pub proof fn lemma_completion_needs_every_guess(g: GameView, event: EventView, pick: int)
    ensures
        step(g, event, pick).finished is Some <==> is_over(applied(g, event)),
        step(g, event, pick).finished is Some ==> forall|i: int|
            0 <= i < applied(g, event).clients.len() && is_active(
                #[trigger] applied(g, event).clients[i],
            ) ==> applied(g, event).clients[i].guess is Some,
        (exists|i: int|
            0 <= i < applied(g, event).clients.len() && is_active(
                #[trigger] applied(g, event).clients[i],
            ) && applied(g, event).clients[i].guess is None) ==> step(g, event, pick).finished
            is None,
{
}

/// The true location is sent only by an event that completes a round, and
/// only in the announcement that closes the round.
pub proof fn lemma_results_mean_completion(g: GameView, event: EventView, pick: int, k: int)
    requires
        0 <= k < step(g, event, pick).sent.len(),
        step(g, event, pick).sent[k].message is RoundResults,
    ensures
        step(g, event, pick).finished is Some,
        ({
            let first = replies(g, event).len();
            let closing = concluded(applied(g, event)).sent;
            first <= k < first + closing.len() && step(g, event, pick).sent[k] == closing[k
                - first]
        }),
{
    let a = applied(g, event);
    let s = step(g, event, pick);
    let first = replies(g, event);
    let closing = concluded(a);
    let opening = begun(closing.game, pick);
    assert(s.sent == first + (closing.sent + opening.sent));
    if k < first.len() {
        assert(s.sent[k] == first[k]);
    } else if k < first.len() + closing.sent.len() {
        assert(s.sent[k] == closing.sent[k - first.len()]);
    } else {
        let j = k - first.len() - closing.sent.len();
        assert(s.sent[k] == opening.sent[j]);
        if closing.game.current_city is None {
            let city = closing.game.cities[pick];
            lemma_announce_members(
                cleared(closing.game.clients),
                ServerMessageView::NewRound { city_name: city.name },
                j,
            );
        }
    }
}

/// One event sends no session the true location twice, and an event that
/// completes a round sends it to every session that is active when the
/// round is closed: each round has one broadcast of its outcome.
pub proof fn lemma_results_go_out_once(g: GameView, event: EventView, pick: int)
    requires
        valid(g),
    ensures
        forall|k1: int, k2: int|
            0 <= k1 < k2 < step(g, event, pick).sent.len() && (#[trigger] step(
                g,
                event,
                pick,
            ).sent[k1]).message is RoundResults && (#[trigger] step(
                g,
                event,
                pick,
            ).sent[k2]).message is RoundResults ==> step(g, event, pick).sent[k1].client_id
                != step(g, event, pick).sent[k2].client_id,
        step(g, event, pick).finished is Some ==> forall|i: int|
            0 <= i < applied(g, event).clients.len() && is_active(
                #[trigger] applied(g, event).clients[i],
            ) ==> step(g, event, pick).sent.contains(
                OutboundView {
                    client_id: applied(g, event).clients[i].id,
                    message: ServerMessageView::RoundResults {
                        actual_location: applied(g, event).current_city->0.coordinates,
                    },
                },
            ),
{
    let a = applied(g, event);
    let s = step(g, event, pick);
    let first = replies(g, event);
    let closing = concluded(a);
    let opening = begun(closing.game, pick);
    lemma_applied_valid(g, event);
    assert(s.sent == first + (closing.sent + opening.sent));
    assert forall|k1: int, k2: int|
        0 <= k1 < k2 < s.sent.len() && (#[trigger] s.sent[k1]).message is RoundResults && (
        #[trigger] s.sent[k2]).message is RoundResults implies s.sent[k1].client_id
        != s.sent[k2].client_id by {
        lemma_results_mean_completion(g, event, pick, k1);
        lemma_results_mean_completion(g, event, pick, k2);
        let results = ServerMessageView::RoundResults {
            actual_location: a.current_city->0.coordinates,
        };
        lemma_announce_ascending(a.clients, results, k1 - first.len(), k2 - first.len());
    }
    if s.finished is Some {
        let results = ServerMessageView::RoundResults {
            actual_location: a.current_city->0.coordinates,
        };
        assert forall|i: int| 0 <= i < a.clients.len() && is_active(
            #[trigger] a.clients[i],
        ) implies s.sent.contains(OutboundView { client_id: a.clients[i].id, message: results }) by {
            lemma_announce_reaches(a.clients, results, i);
            let k = choose|k: int|
                0 <= k < closing.sent.len() && #[trigger] closing.sent[k] == (OutboundView {
                    client_id: a.clients[i].id,
                    message: results,
                });
            assert(s.sent[first.len() + k] == closing.sent[k]);
        }
    }
}

/// Once an event has sent the true location, no active session holds a
/// guess: the guesses are wiped before the prompt of the next round goes
/// out, and the prompt goes to the sessions of the wiped table.
pub proof fn lemma_results_wipe_guesses(g: GameView, event: EventView, pick: int, k: int)
    requires
        0 <= k < step(g, event, pick).sent.len(),
        step(g, event, pick).sent[k].message is RoundResults,
    ensures
        forall|i: int|
            0 <= i < step(g, event, pick).game.clients.len() && is_active(
                #[trigger] step(g, event, pick).game.clients[i],
            ) ==> step(g, event, pick).game.clients[i].guess is None,
        step(g, event, pick).game.clients == cleared(applied(g, event).clients),
{
    lemma_results_mean_completion(g, event, pick, k);
}

/// A session that disconnects is left out of everything that follows: the
/// round policy is evaluated on the table without it, the report of a round
/// that its leaving completes does not hold its guess, nothing is sent to
/// it, and the table no longer knows it.
pub proof fn lemma_disconnected_is_excluded(g: GameView, id: u32, pick: int)
    requires
        valid(g),
    ensures
        ({
            let s = step(g, EventView::Disconnect(id), pick);
            &&& !knows(s.game.clients, id)
            &&& s.finished is Some <==> g.current_city is Some && round_complete(
                parted(g.clients, id),
            )
            &&& s.finished matches Some(report) ==> forall|k: int|
                0 <= k < report.guesses.len() ==> (#[trigger] report.guesses[k]).client_id != id
            &&& forall|k: int| 0 <= k < s.sent.len() ==> (#[trigger] s.sent[k]).client_id != id
        }),
{
    let event = EventView::Disconnect(id);
    let a = applied(g, event);
    let s = step(g, event, pick);
    let t = a.clients;
    lemma_parted_ascending(g.clients, id);
    let closing = concluded(a);
    let opening = begun(closing.game, pick);
    assert forall|i: int| 0 <= i < s.game.clients.len() implies (#[trigger] s.game.clients[i]).id
        != id by {
        assert(t[i].id == s.game.clients[i].id);
    }
    if s.finished is Some {
        let report = s.finished->0;
        assert forall|k: int| 0 <= k < report.guesses.len() implies (#[trigger] report.guesses[k]).client_id
            != id by {
            lemma_guesses_members(t, k);
        }
    }
    assert(s.sent == Seq::<OutboundView>::empty() + (closing.sent + opening.sent));
    assert forall|k: int| 0 <= k < s.sent.len() implies (#[trigger] s.sent[k]).client_id != id by {
        if k < closing.sent.len() {
            assert(s.sent[k] == closing.sent[k]);
            let city = a.current_city->0;
            lemma_announce_members(
                t,
                ServerMessageView::RoundResults { actual_location: city.coordinates },
                k,
            );
        } else {
            let j = k - closing.sent.len();
            assert(s.sent[k] == opening.sent[j]);
            let city = closing.game.cities[pick];
            let c = cleared(closing.game.clients);
            lemma_announce_members(c, ServerMessageView::NewRound { city_name: city.name }, j);
            let i = choose|i: int|
                0 <= i < c.len() && is_active(#[trigger] c[i]) && c[i].id == announce(
                    c,
                    ServerMessageView::NewRound { city_name: city.name },
                )[j].client_id;
            assert(c[i].id == t[i].id);
        }
    }
}

/// A disconnection that leaves a running round complete closes it, as a
/// guess would have: the true location goes to the active sessions that are
/// left, their guesses are wiped, the prompt of a new round goes to them,
/// and that round is running.
pub proof fn lemma_leaving_completes_round(g: GameView, id: u32, pick: int)
    requires
        g.current_city is Some,
        round_complete(parted(g.clients, id)),
    ensures
        ({
            let s = step(g, EventView::Disconnect(id), pick);
            let left = parted(g.clients, id);
            &&& s.finished is Some
            &&& s.finished->0.guesses == guesses(left)
            &&& s.finished->0.actual_location == g.current_city->0.coordinates
            &&& s.sent == announce(
                left,
                ServerMessageView::RoundResults {
                    actual_location: g.current_city->0.coordinates,
                },
            ) + announce(
                cleared(left),
                ServerMessageView::NewRound { city_name: g.cities[pick].name },
            )
            &&& s.game.clients == cleared(left)
            &&& s.game.current_city == Some(g.cities[pick])
        }),
{
    let s = step(g, EventView::Disconnect(id), pick);
    let left = parted(g.clients, id);
    assert(s.sent =~= announce(
        left,
        ServerMessageView::RoundResults { actual_location: g.current_city->0.coordinates },
    ) + announce(cleared(left), ServerMessageView::NewRound { city_name: g.cities[pick].name }));
}

/// A connection under an identifier that is not in use completes no round
/// and has nothing sent, when a round is running that is not complete.
pub proof fn lemma_connection_completes_nothing(g: GameView, id: u32, pick: int)
    requires
        valid(g),
        !knows(g.clients, id),
        g.current_city is Some,
        !round_complete(g.clients),
    ensures
        step(g, EventView::Connect(id), pick).finished is None,
        step(g, EventView::Connect(id), pick).sent == Seq::<OutboundView>::empty(),
        step(g, EventView::Connect(id), pick).game == (GameView {
            clients: joined(g.clients, id),
            ..g
        }),
{
    let t = g.clients;
    let u = joined(t, id);
    let lo = t.filter(below(id));
    let hi = t.filter(above(id));
    lemma_filter_ascending(t, below(id));
    lemma_filter_ascending(t, above(id));
    if round_complete(u) {
        let k = choose|k: int| 0 <= k < u.len() && is_active(#[trigger] u[k]);
        // The active row is a row of the table as it was.
        if k < lo.len() {
            assert(u[k] == lo[k]);
            assert(t.contains(lo[k]));
        } else {
            assert(u[k] == hi[k - lo.len() - 1]);
            assert(t.contains(hi[k - lo.len() - 1]));
        }
        let i0 = choose|i: int| 0 <= i < t.len() && t[i] == u[k];
        assert(is_active(t[i0]));
        // Every active row of the table as it was is still there, with its guess.
        assert forall|i: int| 0 <= i < t.len() && is_active(#[trigger] t[i]) implies t[i].guess
            is Some by {
            assert(t[i].id != id);
            if t[i].id < id {
                assert(below(id)(t[i]));
                t.lemma_filter_contains(below(id), i);
                let j = choose|j: int| 0 <= j < lo.len() && lo[j] == t[i];
                assert(u[j] == t[i]);
            } else {
                assert(above(id)(t[i]));
                t.lemma_filter_contains(above(id), i);
                let j = choose|j: int| 0 <= j < hi.len() && hi[j] == t[i];
                assert(u[lo.len() + 1 + j] == t[i]);
            }
        }
        assert(round_complete(t));
    }
    let s = step(g, EventView::Connect(id), pick);
    assert(s.sent =~= Seq::<OutboundView>::empty());
}

} // verus!
