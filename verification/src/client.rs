use vstd::prelude::*;

use std::collections::VecDeque;

use crate::info_hash::InfoHash;
use crate::torrent_entry::{
    attach_handle, entries_with_handles, handle_of, handles_of, has_key, insert_entry, keys_distinct, lemma_attach_handle,
    lemma_insert_entry, lookup, TorrentEntry, TorrentTable,
};

verus! {

/// What the client holds, as a mathematical value.
pub struct ClientView<H, S, R, P> {
    pub torrents: Seq<TorrentEntry<H, S>>,
    pub pending_added_torrents: Seq<P>,
    pub currently_saving: Option<R>,
    pub save_requests: Seq<R>,
    pub pending_save_count: nat,
    pub save_failed: bool,
}

/// What a resume-data alert led to.
pub enum SaveProgress<R> {
    /// No save request is in progress: nothing is to be written.
    NoSaveInProgress,
    /// The request in progress still awaits alerts of other torrents; a
    /// torrent's data that arrived is to be written into its directory.
    Awaiting,
    /// The request awaits no more alerts and is handed back to be answered:
    /// `succeeded` tells whether every torrent it awaited was saved. A
    /// torrent's data that arrived is to be written into its directory.
    Finished { request: R, succeeded: bool },
}

/// Save requests that were started by a call: those in `finished` awaited
/// no torrent and are complete (successfully) already; `started` tells
/// whether a request is now in progress that was not before, in which case
/// every torrent with a handle is to be asked for its resume data.
pub struct SaveStart<R> {
    pub finished: Vec<R>,
    pub started: bool,
}

/// What a resume-data alert led to: the progress of the request in
/// progress, and, when it finished, the queued requests that were started.
pub struct AlertOutcome<R> {
    pub progress: SaveProgress<R>,
    pub next: SaveStart<R>,
}

impl<H, S, R, P> ClientView<H, S, R, P> {
    /// The client as it starts: nothing known, nothing pending.
    pub open spec fn initial() -> Self {
        ClientView {
            torrents: Seq::empty(),
            pending_added_torrents: Seq::empty(),
            currently_saving: None,
            save_requests: Seq::empty(),
            pending_save_count: 0,
            save_failed: false,
        }
    }

    /// Well-formed: no torrent has two entries.
    pub open spec fn wf(self) -> bool {
        keys_distinct(self.torrents)
    }

    /// How many torrents can be asked for their resume data: those with a handle.
    pub open spec fn handle_count(self) -> nat {
        handles_of(self.torrents).len()
    }

    /// The torrent `key` is (again) known, with no handle yet and with `status`.
    pub open spec fn add_torrent(self, key: InfoHash, status: S) -> Self {
        ClientView {
            torrents: insert_entry(
                self.torrents,
                TorrentEntry { info_hash: key, handle: None, status },
            ),
            ..self
        }
    }

    /// While no request is in progress, queued requests are started in the
    /// order they arrived. One that would await no alert (no torrent has a
    /// handle to ask) is complete at once and handed back; the first that
    /// awaits some becomes the one in progress, awaiting one alert per handle.
    pub open spec fn try_pop_save_request(self) -> (Self, Seq<R>)
        decreases self.save_requests.len(),
    {
        if self.currently_saving is Some || self.save_requests.len() == 0 {
            (self, Seq::empty())
        } else {
            let request = self.save_requests[0];
            let rest = ClientView { save_requests: self.save_requests.drop_first(), ..self };
            if self.handle_count() == 0 {
                let next = rest.try_pop_save_request();
                (next.0, seq![request] + next.1)
            } else {
                (
                    ClientView {
                        currently_saving: Some(request),
                        pending_save_count: self.handle_count(),
                        save_failed: false,
                        ..rest
                    },
                    Seq::empty(),
                )
            }
        }
    }

    /// A save request arrives: it is queued behind the others, then queued
    /// requests are started if none is in progress.
    pub open spec fn request_save(self, request: R) -> (Self, Seq<R>) {
        ClientView { save_requests: self.save_requests.push(request), ..self }.try_pop_save_request()
    }

    /// The count of awaited alerts after one more alert, which stays at zero.
    pub open spec fn count_after_alert(self) -> nat {
        if self.pending_save_count == 0 {
            0
        } else {
            (self.pending_save_count - 1) as nat
        }
    }

    /// The counting part of a resume-data alert: a torrent's resume data was
    /// saved (`saved`) or failed to be. The request in progress awaits one
    /// alert fewer; once it awaits none, it is finished, successfully when
    /// none of its torrents failed.
    pub open spec fn count_alert(self, saved: bool) -> (Self, SaveProgress<R>) {
        let count = self.count_after_alert();
        match self.currently_saving {
            None => (ClientView { pending_save_count: count, ..self }, SaveProgress::NoSaveInProgress),
            Some(request) => {
                let failed = self.save_failed || !saved;
                if count == 0 {
                    (
                        ClientView {
                            currently_saving: None,
                            pending_save_count: 0,
                            save_failed: false,
                            ..self
                        },
                        SaveProgress::Finished { request, succeeded: !failed },
                    )
                } else {
                    (
                        ClientView { pending_save_count: count, save_failed: failed, ..self },
                        SaveProgress::Awaiting,
                    )
                }
            },
        }
    }

    /// A resume-data alert: it is counted, and when it finishes the request
    /// in progress, the queued requests are started as by
    /// `try_pop_save_request`; those started and complete at once are the
    /// third component.
    pub open spec fn save_alert(self, saved: bool) -> (Self, SaveProgress<R>, Seq<R>) {
        let counted = self.count_alert(saved);
        if counted.1 is Finished {
            let next = counted.0.try_pop_save_request();
            (next.0, counted.1, next.1)
        } else {
            (counted.0, counted.1, Seq::empty())
        }
    }

    /// The requests not answered yet, in the order they will be: the one in
    /// progress, then the queued ones.
    pub open spec fn line(self) -> Seq<R> {
        match self.currently_saving {
            Some(r) => seq![r] + self.save_requests,
            None => self.save_requests,
        }
    }

    /// The requests that a resume-data alert answered, in order.
    pub open spec fn answered_by_alert(self, saved: bool) -> Seq<R> {
        let step = self.save_alert(saved);
        match step.1 {
            SaveProgress::Finished { request, .. } => seq![request] + step.2,
            _ => step.2,
        }
    }

    /// The bookkeeping of saves is consistent: with no request in progress
    /// nothing is queued or awaited; a request in progress awaits some alert.
    pub open spec fn saving_wf(self) -> bool {
        &&& self.currently_saving is None ==> self.save_requests.len() == 0
            && self.pending_save_count == 0 && !self.save_failed
        &&& self.currently_saving is Some ==> self.pending_save_count > 0
    }

    /// The session added the torrent `key` under `handle`: its entry, if
    /// any, takes the handle, and the oldest waiter for an addition is due.
    pub open spec fn add_torrent_done(self, key: InfoHash, handle: H) -> (Self, Option<P>) {
        let torrents = attach_handle(self.torrents, key, handle);
        if self.pending_added_torrents.len() > 0 {
            (
                ClientView {
                    torrents,
                    pending_added_torrents: self.pending_added_torrents.drop_first(),
                    ..self
                },
                Some(self.pending_added_torrents[0]),
            )
        } else {
            (ClientView { torrents, ..self }, None)
        }
    }
}

/// The client after the resume-data alerts `outcomes`, in order (`true`
/// for a torrent saved, `false` for one that failed).
pub open spec fn after_alerts<H, S, R, P>(v: ClientView<H, S, R, P>, outcomes: Seq<bool>) -> ClientView<
    H,
    S,
    R,
    P,
>
    decreases outcomes.len(),
{
    if outcomes.len() == 0 {
        v
    } else {
        after_alerts(v, outcomes.drop_last()).save_alert(outcomes.last()).0
    }
}

/// Registering a torrent makes it known with the given status publisher and
/// no handle, leaves every other torrent as it was, and adds an entry only
/// when the torrent was not known before.
pub proof fn lemma_add_torrent_then_lookup<H, S, R, P>(
    v: ClientView<H, S, R, P>,
    key: InfoHash,
    status: S,
    other: InfoHash,
)
    requires
        v.wf(),
    ensures
        v.add_torrent(key, status).wf(),
        lookup(v.add_torrent(key, status).torrents, key) == Some(
            TorrentEntry::<H, S> { info_hash: key, handle: None, status },
        ),
        other != key ==> lookup(v.add_torrent(key, status).torrents, other) == lookup(
            v.torrents,
            other,
        ),
        has_key(v.torrents, key) ==> v.add_torrent(key, status).torrents.len() == v.torrents.len(),
        !has_key(v.torrents, key) ==> v.add_torrent(key, status).torrents.len() == v.torrents.len()
            + 1,
{
    lemma_insert_entry(v.torrents, TorrentEntry { info_hash: key, handle: None, status }, other);
}

/// When the session reports a torrent as added, the torrent's entry takes
/// the handle and keeps its status publisher; every other torrent stays as
/// it was; the waiters for additions are served first come, first served.
pub proof fn lemma_add_torrent_done_attaches_handle<H, S, R, P>(
    v: ClientView<H, S, R, P>,
    key: InfoHash,
    handle: H,
    other: InfoHash,
)
    requires
        v.wf(),
    ensures
        v.add_torrent_done(key, handle).0.wf(),
        v.add_torrent_done(key, handle).0.torrents.len() == v.torrents.len(),
        lookup(v.torrents, key) is None ==> v.add_torrent_done(key, handle).0.torrents
            == v.torrents,
        lookup(v.torrents, key) matches Some(e) ==> lookup(
            v.add_torrent_done(key, handle).0.torrents,
            key,
        ) == Some(TorrentEntry { handle: Some(handle), ..e }),
        other != key ==> lookup(v.add_torrent_done(key, handle).0.torrents, other) == lookup(
            v.torrents,
            other,
        ),
        v.pending_added_torrents.len() > 0 ==> v.add_torrent_done(key, handle).1 == Some(
            v.pending_added_torrents[0],
        ),
        v.pending_added_torrents.len() == 0 ==> v.add_torrent_done(key, handle).1 is None,
{
    lemma_attach_handle(v.torrents, key, handle, other);
}

/// A save request that arrives while another is in progress waits at the
/// end of the queue; nothing else changes.
pub proof fn lemma_request_waits_behind_current<H, S, R, P>(v: ClientView<H, S, R, P>, request: R)
    requires
        v.currently_saving is Some,
    ensures
        v.request_save(request) == (
        ClientView { save_requests: v.save_requests.push(request), ..v },
        Seq::<R>::empty()),
{
}

/// With no request in progress, the oldest queued request is the next to
/// start: it is in progress awaiting one alert per torrent with a handle,
/// or, when there is no such torrent, it is complete at once and the next
/// ones are considered in turn.
pub proof fn lemma_oldest_request_starts_first<H, S, R, P>(v: ClientView<H, S, R, P>)
    requires
        v.currently_saving is None,
        v.save_requests.len() > 0,
    ensures
        v.handle_count() > 0 ==> v.try_pop_save_request() == (
        ClientView {
            currently_saving: Some(v.save_requests[0]),
            save_requests: v.save_requests.drop_first(),
            pending_save_count: v.handle_count(),
            save_failed: false,
            ..v
        },
        Seq::<R>::empty()),
        v.handle_count() == 0 ==> v.try_pop_save_request() == (
        ClientView { save_requests: Seq::empty(), ..v },
        v.save_requests),
    decreases v.save_requests.len(),
{
    if v.handle_count() == 0 {
        let rest = ClientView { save_requests: v.save_requests.drop_first(), ..v };
        if rest.save_requests.len() > 0 {
            lemma_oldest_request_starts_first(rest);
        } else {
            assert(rest.save_requests =~= Seq::<R>::empty());
        }
        assert(seq![v.save_requests[0]] + rest.try_pop_save_request().1 =~= v.save_requests);
        assert(rest.try_pop_save_request().0 == (ClientView { save_requests: Seq::<R>::empty(), ..v }));
    }
}

/// With no request in progress or queued, a save request starts at once,
/// awaiting one alert per torrent with a handle; when no torrent has one,
/// it is answered at once.
pub proof fn lemma_idle_request_starts_at_once<H, S, R, P>(v: ClientView<H, S, R, P>, request: R)
    requires
        v.currently_saving is None,
        v.save_requests.len() == 0,
    ensures
        v.handle_count() > 0 ==> v.request_save(request) == (
        ClientView {
            currently_saving: Some(request),
            pending_save_count: v.handle_count(),
            save_failed: false,
            ..v
        },
        Seq::<R>::empty()),
        v.handle_count() == 0 ==> v.request_save(request) == (v, seq![request]),
{
    let w = ClientView { save_requests: v.save_requests.push(request), ..v };
    lemma_oldest_request_starts_first(w);
    assert(w.save_requests.drop_first() =~= v.save_requests);
    assert(w.save_requests =~= seq![request]);
    assert(v.save_requests =~= Seq::<R>::empty());
    assert((ClientView { save_requests: Seq::<R>::empty(), ..w }) == v);
}

/// A save request in progress that awaits `n` alerts still awaits
/// `n - k` after `k < n` alerts, and remembers whether any failed; the
/// `n`-th alert finishes it, successfully exactly when none of its alerts
/// reported a failure, and starts the queued requests. Whatever the alerts
/// are, every request in progress is answered after as many alerts as it
/// awaits.
pub proof fn lemma_request_answered_after_awaited_alerts<H, S, R, P>(
    v: ClientView<H, S, R, P>,
    request: R,
    outcomes: Seq<bool>,
    k: nat,
)
    requires
        v.currently_saving == Some(request),
        !v.save_failed,
        outcomes.len() == v.pending_save_count,
        k < outcomes.len(),
    ensures
        after_alerts(v, outcomes.take(k as int)) == (ClientView {
            pending_save_count: (v.pending_save_count - k) as nat,
            save_failed: outcomes.take(k as int).contains(false),
            ..v
        }),
        k + 1 < outcomes.len() ==> (after_alerts(v, outcomes.take(k as int)).save_alert(
            outcomes[k as int],
        ).1 is Awaiting),
        k + 1 == outcomes.len() ==> after_alerts(v, outcomes.take(k as int)).save_alert(
            outcomes[k as int],
        ).1 == (SaveProgress::Finished { request, succeeded: !outcomes.contains(false) }),
        k + 1 == outcomes.len() ==> after_alerts(v, outcomes) == (ClientView {
            currently_saving: None,
            pending_save_count: 0,
            save_failed: false,
            ..v
        }).try_pop_save_request().0,
    decreases k,
{
    if k > 0 {
        lemma_request_answered_after_awaited_alerts(v, request, outcomes, (k - 1) as nat);
        let prev = outcomes.take(k - 1);
        let cur = outcomes.take(k as int);
        assert(cur.drop_last() =~= prev);
        assert(cur.last() == outcomes[k - 1]);
        assert(cur =~= prev.push(outcomes[k - 1]));
        assert(cur.contains(false) == (prev.contains(false) || !outcomes[k - 1])) by {
            if !outcomes[k - 1] {
                assert(cur[k - 1] == false);
            }
            if prev.contains(false) {
                let j = choose|j: int| 0 <= j < prev.len() && prev[j] == false;
                assert(cur[j] == false);
            }
            if cur.contains(false) {
                let j = choose|j: int| 0 <= j < cur.len() && cur[j] == false;
                if j < k - 1 {
                    assert(prev[j] == false);
                }
            }
        }
    } else {
        assert(outcomes.take(0) =~= Seq::<bool>::empty());
    }
    if k + 1 == outcomes.len() {
        let cur = outcomes.take(k as int);
        assert(outcomes.drop_last() =~= cur);
        assert(outcomes.contains(false) == (cur.contains(false) || !outcomes[k as int])) by {
            if !outcomes[k as int] {
                assert(outcomes[k as int] == false);
            }
            if cur.contains(false) {
                let j = choose|j: int| 0 <= j < cur.len() && cur[j] == false;
                assert(outcomes[j] == false);
            }
            if outcomes.contains(false) {
                let j = choose|j: int| 0 <= j < outcomes.len() && outcomes[j] == false;
                if j < k {
                    assert(cur[j] == false);
                }
            }
        }
    }
}

/// Two save requests in a row, on a client that saves nothing and has
/// `n > 0` torrents with a handle: the first starts at once and the second
/// waits; the first is answered at the `n`-th alert, whatever the alerts
/// are, and that alert starts the second, awaiting the same torrents.
pub proof fn lemma_saves_are_answered_in_order<H, S, R, P>(
    v: ClientView<H, S, R, P>,
    first: R,
    second: R,
    outcomes: Seq<bool>,
)
    requires
        v.currently_saving is None,
        v.save_requests.len() == 0,
        v.handle_count() > 0,
        outcomes.len() == v.handle_count(),
    ensures
        after_alerts(two_requests(v, first, second), outcomes.drop_last()).save_alert(
            outcomes.last(),
        ).1 == (SaveProgress::Finished { request: first, succeeded: !outcomes.contains(false) }),
        after_alerts(two_requests(v, first, second), outcomes.drop_last()).save_alert(
            outcomes.last(),
        ).2 == Seq::<R>::empty(),
        after_alerts(two_requests(v, first, second), outcomes) == (ClientView {
            currently_saving: Some(second),
            pending_save_count: v.handle_count(),
            save_failed: false,
            ..v
        }),
{
    let a = v.request_save(first).0;
    lemma_idle_request_starts_at_once(v, first);
    lemma_request_waits_behind_current(a, second);
    let b = two_requests(v, first, second);
    let n = v.handle_count();
    lemma_request_answered_after_awaited_alerts(b, first, outcomes, (n - 1) as nat);
    assert(outcomes.take(n - 1) =~= outcomes.drop_last());
    let c = ClientView { currently_saving: None, pending_save_count: 0, save_failed: false, ..b };
    assert(c.save_requests =~= seq![second]);
    lemma_oldest_request_starts_first(c);
    assert(c.save_requests.drop_first() =~= v.save_requests);
}

/// The client after two save requests.
pub open spec fn two_requests<H, S, R, P>(v: ClientView<H, S, R, P>, first: R, second: R) -> ClientView<
    H,
    S,
    R,
    P,
> {
    v.request_save(first).0.request_save(second).0
}

/// Starting queued requests hands back a prefix of the line of requests
/// not answered yet and keeps the rest in order; afterwards, nothing is
/// queued unless a request is in progress, and a request in progress
/// awaits some alert.
pub proof fn lemma_try_pop_line<H, S, R, P>(v: ClientView<H, S, R, P>)
    requires
        v.saving_wf() || (v.currently_saving is None && v.pending_save_count == 0 && !v.save_failed),
    ensures
        v.try_pop_save_request().1 + v.try_pop_save_request().0.line() == v.line(),
        v.try_pop_save_request().0.saving_wf(),
    decreases v.save_requests.len(),
{
    if v.currently_saving is Some || v.save_requests.len() == 0 {
        assert(Seq::<R>::empty() + v.line() =~= v.line());
    } else {
        let rest = ClientView { save_requests: v.save_requests.drop_first(), ..v };
        if v.handle_count() == 0 {
            lemma_try_pop_line(rest);
            assert(seq![v.save_requests[0]] + rest.line() =~= v.line());
            assert(seq![v.save_requests[0]] + rest.try_pop_save_request().1
                + rest.try_pop_save_request().0.line() =~= seq![v.save_requests[0]] + (
            rest.try_pop_save_request().1 + rest.try_pop_save_request().0.line()));
        } else {
            let w = v.try_pop_save_request().0;
            assert(w.line() =~= seq![v.save_requests[0]] + v.save_requests.drop_first());
            assert(w.line() =~= v.line());
            assert(Seq::<R>::empty() + w.line() =~= v.line());
        }
    }
}

/// Save requests are answered first come, first served, from any state
/// whose bookkeeping is consistent and with any number of requests queued:
/// a new request joins the end of the line of requests not answered yet;
/// each resume-data alert answers a prefix of the line (the request in
/// progress, then those that awaited nothing) and keeps the rest in order;
/// registering torrents and attaching handles leave the line alone. Every
/// step keeps the bookkeeping consistent.
pub proof fn lemma_requests_answered_in_order<H, S, R, P>(
    v: ClientView<H, S, R, P>,
    request: R,
    saved: bool,
    key: InfoHash,
    status: S,
    handle: H,
)
    requires
        v.saving_wf(),
    ensures
        v.request_save(request).1 + v.request_save(request).0.line() == v.line().push(request),
        v.answered_by_alert(saved) + v.save_alert(saved).0.line() == v.line(),
        v.add_torrent(key, status).line() == v.line(),
        v.add_torrent_done(key, handle).0.line() == v.line(),
        v.request_save(request).0.saving_wf(),
        v.save_alert(saved).0.saving_wf(),
        v.add_torrent(key, status).saving_wf(),
        v.add_torrent_done(key, handle).0.saving_wf(),
        ClientView::<H, S, R, P>::initial().saving_wf(),
{
    let q = ClientView { save_requests: v.save_requests.push(request), ..v };
    if v.currently_saving is Some {
        assert(q.saving_wf());
    }
    lemma_try_pop_line(q);
    assert(q.line() =~= v.line().push(request));
    let c = v.count_alert(saved);
    match c.1 {
        SaveProgress::Finished { request: done, .. } => {
            lemma_try_pop_line(c.0);
            assert(c.0.line() =~= v.save_requests);
            assert(v.line() =~= seq![done] + v.save_requests);
            assert(seq![done] + c.0.try_pop_save_request().1 + c.0.try_pop_save_request().0.line()
                =~= seq![done] + (c.0.try_pop_save_request().1
                + c.0.try_pop_save_request().0.line()));
        },
        _ => {
            assert(Seq::<R>::empty() + c.0.line() =~= v.line());
        },
    }
}

/// Saving never changes which torrents the client knows, nor their
/// handles or status publishers, nor the waiters for additions.
pub proof fn lemma_saving_keeps_torrents<H, S, R, P>(
    v: ClientView<H, S, R, P>,
    request: R,
    saved: bool,
)
    ensures
        v.request_save(request).0.torrents == v.torrents,
        v.try_pop_save_request().0.torrents == v.torrents,
        v.save_alert(saved).0.torrents == v.torrents,
        v.request_save(request).0.pending_added_torrents == v.pending_added_torrents,
        v.try_pop_save_request().0.pending_added_torrents == v.pending_added_torrents,
        v.save_alert(saved).0.pending_added_torrents == v.pending_added_torrents,
{
    lemma_try_pop_keeps_torrents(v);
    lemma_try_pop_keeps_torrents(v.count_alert(saved).0);
    lemma_try_pop_keeps_torrents(ClientView { save_requests: v.save_requests.push(request), ..v });
}

proof fn lemma_try_pop_keeps_torrents<H, S, R, P>(v: ClientView<H, S, R, P>)
    ensures
        v.try_pop_save_request().0.torrents == v.torrents,
        v.try_pop_save_request().0.pending_added_torrents == v.pending_added_torrents,
    decreases v.save_requests.len(),
{
    if !(v.currently_saving is Some || v.save_requests.len() == 0) && v.handle_count() == 0 {
        lemma_try_pop_keeps_torrents(ClientView { save_requests: v.save_requests.drop_first(), ..v });
    }
}

/// The torrents of a client and the bookkeeping of its save requests.
///
/// `H` is a torrent handle, `S` the sender of a torrent's status, `R` a
/// save request and `P` a waiter for the addition of a torrent.
pub struct TorrentClientInner<H, S, R, P> {
    torrents: TorrentTable<H, S>,
    pending_added_torrents: VecDeque<P>,
    currently_saving: Option<R>,
    save_requests: VecDeque<R>,
    /// How many torrents are still not saved from current request
    pending_save_count: usize,
    /// Whether a torrent of the current request failed to be saved
    save_failed: bool,
}

impl<H, S, R, P> View for TorrentClientInner<H, S, R, P> {
    type V = ClientView<H, S, R, P>;

    closed spec fn view(&self) -> ClientView<H, S, R, P> {
        ClientView {
            torrents: self.torrents@,
            pending_added_torrents: self.pending_added_torrents@,
            currently_saving: self.currently_saving,
            save_requests: self.save_requests@,
            pending_save_count: self.pending_save_count as nat,
            save_failed: self.save_failed,
        }
    }
}

impl<H, S, R, P> TorrentClientInner<H, S, R, P> {
    pub fn new() -> (r: Self)
        ensures
            r@ == ClientView::<H, S, R, P>::initial(),
            r@.wf(),
    {
        TorrentClientInner {
            torrents: TorrentTable::new(),
            pending_added_torrents: VecDeque::new(),
            currently_saving: None,
            save_requests: VecDeque::new(),
            pending_save_count: 0,
            save_failed: false,
        }
    }

    /// The entry of the torrent `key`, if the client knows it.
    pub fn get(&self, key: &InfoHash) -> (r: Option<&TorrentEntry<H, S>>)
        ensures
            match r {
                Some(e) => lookup(self@.torrents, *key) == Some(*e),
                None => lookup(self@.torrents, *key) is None,
            },
    {
        self.torrents.get(key)
    }

    /// Registers the torrent `info_hash` with the publisher of its status;
    /// an entry of the same torrent is replaced.
    pub fn add_torrent(&mut self, info_hash: InfoHash, status: S)
        ensures
            final(self)@ == old(self)@.add_torrent(info_hash, status),
            final(self)@.wf(),
    {
        self.torrents.insert(TorrentEntry { info_hash, handle: None, status });
    }

    /// The request whose resume data is being written, if any.
    pub fn currently_saving(&self) -> (r: Option<&R>)
        ensures
            match r {
                Some(req) => self@.currently_saving == Some(*req),
                None => self@.currently_saving is None,
            },
    {
        match &self.currently_saving {
            Some(req) => Some(req),
            None => None,
        }
    }

    /// How many resume-data alerts the request in progress still awaits.
    pub fn pending_save_count(&self) -> (r: usize)
        ensures
            r == self@.pending_save_count,
    {
        self.pending_save_count
    }

    /// How many torrents have a handle to ask for their resume data.
    pub fn handle_count(&self) -> (r: usize)
        ensures
            r == self@.handle_count(),
            r == entries_with_handles(self@.torrents).len(),
    {
        self.torrents.handle_count()
    }

    /// While no request is in progress, starts queued requests in the
    /// order they arrived: those that would await no alert are complete at
    /// once and handed back; the first that awaits some stays in progress,
    /// awaiting one alert per torrent with a handle. When `started`, the
    /// caller asks each handle in `torrent_handles` for its resume data.
    pub fn try_pop_save_request(&mut self) -> (r: SaveStart<R>)
        ensures
            (final(self)@, r.finished@) == old(self)@.try_pop_save_request(),
            r.started == (old(self)@.currently_saving is None && final(self)@.currently_saving is Some),
    {
        let ghost goal = self@.try_pop_save_request();
        let mut finished: Vec<R> = Vec::new();
        if self.currently_saving.is_some() {
            return SaveStart { finished, started: false };
        }
        let n = self.handle_count();
        loop
            invariant_except_break
                self@.currently_saving is None,
                n == self@.handle_count(),
                goal == (self@.try_pop_save_request().0, finished@ + self@.try_pop_save_request().1),
            ensures
                goal == (self@, finished@),
            decreases self.save_requests@.len(),
        {
            match self.save_requests.pop_front() {
                None => {
                    assert(finished@ + Seq::<R>::empty() =~= finished@);
                    break;
                },
                Some(request) => {
                    if n == 0 {
                        let ghost before = finished@;
                        finished.push(request);
                        assert(before + (seq![request] + self@.try_pop_save_request().1) =~= finished@
                            + self@.try_pop_save_request().1);
                    } else {
                        self.currently_saving = Some(request);
                        self.pending_save_count = n;
                        self.save_failed = false;
                        assert(finished@ + Seq::<R>::empty() =~= finished@);
                        break;
                    }
                },
            }
        }
        let started = self.currently_saving.is_some();
        SaveStart { finished, started }
    }

    /// Queues a request to save all torrents behind the others, then starts
    /// queued requests if none is in progress.
    pub fn request_save(&mut self, request: R) -> (r: SaveStart<R>)
        ensures
            (final(self)@, r.finished@) == old(self)@.request_save(request),
            r.started == (old(self)@.currently_saving is None && final(self)@.currently_saving is Some),
    {
        self.save_requests.push_back(request);
        self.try_pop_save_request()
    }

    /// The handles of the torrents that have one, in the order of the torrents.
    pub fn torrent_handles(&self) -> (r: Vec<&H>)
        ensures
            r@.len() == handles_of(self@.torrents).len(),
            forall|i: int| 0 <= i < r@.len() ==> *r@[i] == handles_of(self@.torrents)[i],
            r@.len() == entries_with_handles(self@.torrents).len(),
            forall|i: int|
                0 <= i < r@.len() ==> *r@[i] == handle_of(entries_with_handles(self@.torrents)[i]),
    {
        self.torrents.handles()
    }

    /// Counts a resume-data alert: `saved` or failed.
    fn count_alert(&mut self, saved: bool) -> (r: SaveProgress<R>)
        ensures
            (final(self)@, r) == old(self)@.count_alert(saved),
    {
        if self.pending_save_count != 0 {
            self.pending_save_count = self.pending_save_count - 1;
        }
        if self.currently_saving.is_none() {
            return SaveProgress::NoSaveInProgress;
        }
        let failed = self.save_failed || !saved;
        if self.pending_save_count == 0 {
            let request = self.currently_saving.take().unwrap();
            self.save_failed = false;
            SaveProgress::Finished { request, succeeded: !failed }
        } else {
            self.save_failed = failed;
            SaveProgress::Awaiting
        }
    }

    /// Handles a resume-data alert: `saved` or failed.
    fn save_alert(&mut self, saved: bool) -> (r: AlertOutcome<R>)
        ensures
            (final(self)@, r.progress, r.next.finished@) == old(self)@.save_alert(saved),
            r.next.started == (r.progress is Finished && final(self)@.currently_saving is Some),
    {
        let progress = self.count_alert(saved);
        let next = match progress {
            SaveProgress::Finished { .. } => self.try_pop_save_request(),
            _ => SaveStart { finished: Vec::new(), started: false },
        };
        AlertOutcome { progress, next }
    }

    /// A torrent's resume data arrived. The request in progress awaits one
    /// alert fewer; once it awaits none it is handed back to be answered,
    /// and the queued requests are started as by `try_pop_save_request`.
    pub fn handle_save_resume_data(&mut self) -> (r: AlertOutcome<R>)
        ensures
            (final(self)@, r.progress, r.next.finished@) == old(self)@.save_alert(true),
            r.next.started == (r.progress is Finished && final(self)@.currently_saving is Some),
    {
        self.save_alert(true)
    }

    /// Saving a torrent's resume data failed. The request in progress
    /// awaits one alert fewer; once it awaits none it is handed back,
    /// unsuccessful, and the queued requests are started as by
    /// `try_pop_save_request`.
    pub fn handle_save_resume_data_failed(&mut self) -> (r: AlertOutcome<R>)
        ensures
            (final(self)@, r.progress, r.next.finished@) == old(self)@.save_alert(false),
            r.next.started == (r.progress is Finished && final(self)@.currently_saving is Some),
    {
        self.save_alert(false)
    }

    /// The session added the torrent `info_hash` under `handle`: the
    /// torrent's entry, if any, takes the handle, and the oldest waiter for
    /// an addition, if any, is handed back to be notified.
    pub fn handle_add_torrent(&mut self, info_hash: InfoHash, handle: H) -> (r: Option<P>)
        ensures
            (final(self)@, r) == old(self)@.add_torrent_done(info_hash, handle),
            final(self)@.wf(),
    {
        self.torrents.attach_handle(&info_hash, handle);
        self.pending_added_torrents.pop_front()
    }
}

} // verus!
