//! The central broker: owns the registry of live sessions, assigns session
//! ids, counts visitors, and computes every broadcast fan-out. It never
//! performs delivery itself: each operation returns the exact list of
//! deliveries (handle and payload) that the caller is to carry out.

use vstd::prelude::*;
use vstd::seq_lib::*;

verus! {

use crate::codec::{ClientMessage, ClientMessageView, encode_spec, encode_client_message, dec_rep};

/// Payload the server sends to one session: the rendered JSON envelope.
#[derive(Debug, Clone, PartialEq, Eq)]
pub struct Message(pub String);

impl View for Message {
    type V = Seq<char>;

    open spec fn view(&self) -> Seq<char> {
        self.0@
    }
}

/// Request to register a new session: its display name, if any, and the
/// handle token under which the caller will route deliveries to it.
#[derive(Debug, Clone, PartialEq, Eq)]
pub struct Connect {
    /// Client name.
    pub name: Option<String>,
    /// Handle token of the client session.
    pub addr: u64,
}

/// Request to remove a session from the registry.
#[derive(Debug, Clone, Copy, PartialEq, Eq, Structural)]
pub struct Disconnect {
    pub id: u64,
}

/// One delivery of a fan-out: which handle receives which payload.
#[derive(Debug, Clone, PartialEq, Eq)]
pub struct Delivery {
    /// Handle token of the recipient session.
    pub addr: u64,
    /// The payload to hand to it.
    pub msg: Message,
}

/// Mathematical value of a `Delivery`.
pub ghost struct DeliveryView {
    pub addr: u64,
    pub text: Seq<char>,
}

impl View for Delivery {
    type V = DeliveryView;

    open spec fn view(&self) -> DeliveryView {
        DeliveryView { addr: self.addr, text: self.msg@ }
    }
}

/// Mathematical value of the broker: the registry as a sequence of
/// (session id, handle token) entries, and the visitor counter.
pub ghost struct ServerView {
    pub sessions: Seq<(u64, u64)>,
    pub visitors: u64,
    pub next: u64,
}

/// Whether some registry entry carries session id `id`.
pub open spec fn has_id(s: Seq<(u64, u64)>, id: u64) -> bool {
    exists|k: int| 0 <= k < s.len() && s[k].0 == id
}

/// Registry well-formedness: session ids are pairwise distinct, and the
/// reserved sentinel id 0 is never registered.
pub open spec fn view_wf(v: ServerView) -> bool {
    &&& forall|i: int, j: int|
        0 <= i < j < v.sessions.len() ==> v.sessions[i].0 != v.sessions[j].0
    &&& forall|k: int| 0 <= k < v.sessions.len() ==> v.sessions[k].0 != 0
    &&& v.next >= 1
    &&& forall|k: int| 0 <= k < v.sessions.len() ==> v.sessions[k].0 < v.next
}

/// Handle tokens pairwise distinct: each handle is owned by one entry.
pub open spec fn addrs_distinct(s: Seq<(u64, u64)>) -> bool {
    forall|i: int, j: int| 0 <= i < j < s.len() ==> s[i].1 != s[j].1
}

/// The registry with every entry of session id `id` removed.
pub open spec fn remove_sessions(s: Seq<(u64, u64)>, id: u64) -> Seq<(u64, u64)>
    decreases s.len(),
{
    if s.len() == 0 {
        Seq::empty()
    } else if s[0].0 == id {
        remove_sessions(s.drop_first(), id)
    } else {
        seq![s[0]] + remove_sessions(s.drop_first(), id)
    }
}

/// One identical payload fanned out to every entry of `s`, in order.
pub open spec fn fan_out_view(s: Seq<(u64, u64)>, text: Seq<char>) -> Seq<DeliveryView> {
    s.map_values(|e: (u64, u64)| DeliveryView { addr: e.1, text: text })
}

/// A server-synthesized notice: sentinel sender id 0 and no display name.
pub open spec fn server_notice(text: Seq<char>) -> ClientMessageView {
    ClientMessageView { id: 0, name: None, msg: text }
}

/// Text of the visitor-count notice for a previous count of `count`.
pub open spec fn visitors_text(count: u64) -> Seq<char> {
    "Total visitors : "@ + dec_rep(count as nat)
}

/// The registry after a connect: the new entry appended, counter advanced.
pub open spec fn spec_connect(v: ServerView, id: u64, addr: u64) -> ServerView {
    ServerView {
        sessions: v.sessions.push((id, addr)),
        visitors: (v.visitors + 1) as u64,
        next: if id + 1 > v.next {
            (id + 1) as u64
        } else {
            v.next
        },
    }
}

/// The deliveries a connect emits: a join notice to every already-registered
/// session, then a visitor-count notice to the same sessions. The new
/// session itself receives neither.
pub open spec fn spec_connect_deliveries(v: ServerView) -> Seq<DeliveryView> {
    fan_out_view(v.sessions, encode_spec(server_notice("Someone joined"@))) + fan_out_view(
        v.sessions,
        encode_spec(server_notice(visitors_text(v.visitors))),
    )
}

/// The registry after a disconnect: the entry of `id` removed, if present.
pub open spec fn spec_disconnect(v: ServerView, id: u64) -> ServerView {
    ServerView { sessions: remove_sessions(v.sessions, id), visitors: v.visitors, next: v.next }
}

/// The deliveries a disconnect emits: a departure notice to every remaining
/// session when the id was present, nothing otherwise.
pub open spec fn spec_disconnect_deliveries(v: ServerView, id: u64) -> Seq<DeliveryView> {
    if has_id(v.sessions, id) {
        fan_out_view(
            remove_sessions(v.sessions, id),
            encode_spec(server_notice("Someone disconnected"@)),
        )
    } else {
        Seq::empty()
    }
}

/// The deliveries of a broadcast: the rendered envelope of `m` to every
/// registered session whose id differs from the sender's.
pub open spec fn spec_broadcast_deliveries(v: ServerView, m: ClientMessageView) -> Seq<
    DeliveryView,
> {
    fan_out_view(remove_sessions(v.sessions, m.id), encode_spec(m))
}

/// Appending an entry commutes with removal: the appended entry survives
/// exactly when its id is not the removed one.
proof fn lemma_remove_push(s: Seq<(u64, u64)>, e: (u64, u64), id: u64)
    ensures
        remove_sessions(s.push(e), id) == remove_sessions(s, id) + (if e.0 != id {
            seq![e]
        } else {
            Seq::empty()
        }),
    decreases s.len(),
{
    if s.len() == 0 {
        assert(s.push(e).drop_first() =~= Seq::<(u64, u64)>::empty());
        assert(remove_sessions(Seq::empty(), id) == Seq::<(u64, u64)>::empty());
        if e.0 != id {
            assert(remove_sessions(s.push(e), id) =~= remove_sessions(s, id) + seq![e]);
        } else {
            assert(remove_sessions(s.push(e), id) =~= remove_sessions(s, id) + Seq::<(
                u64,
                u64,
            )>::empty());
        }
    } else {
        lemma_remove_push(s.drop_first(), e, id);
        assert(s.push(e).drop_first() =~= s.drop_first().push(e));
        assert(s.push(e)[0] == s[0]);
        if s[0].0 == id {
            assert(remove_sessions(s.push(e), id) == remove_sessions(s.drop_first().push(e), id));
        } else {
            assert(remove_sessions(s.push(e), id) == seq![s[0]] + remove_sessions(
                s.drop_first().push(e),
                id,
            ));
            assert(seq![s[0]] + (remove_sessions(s.drop_first(), id) + (if e.0 != id {
                seq![e]
            } else {
                Seq::empty()
            })) =~= (seq![s[0]] + remove_sessions(s.drop_first(), id)) + (if e.0 != id {
                seq![e]
            } else {
                Seq::empty()
            }));
        }
    }
}

/// Membership of an id in a non-empty registry: in the head entry or in the
/// rest.
proof fn lemma_has_id_cons(s: Seq<(u64, u64)>)
    requires
        s.len() > 0,
    ensures
        forall|x: u64| #[trigger] has_id(s, x) <==> (s[0].0 == x || has_id(s.drop_first(), x)),
{
    assert forall|x: u64| #[trigger] has_id(s, x) implies (s[0].0 == x || has_id(
        s.drop_first(),
        x,
    )) by {
        let k = choose|k: int| 0 <= k < s.len() && s[k].0 == x;
        if k > 0 {
            assert(s.drop_first()[k - 1].0 == x);
        }
    }
    assert forall|x: u64| (s[0].0 == x || has_id(s.drop_first(), x)) implies #[trigger] has_id(
        s,
        x,
    ) by {
        if s[0].0 == x {
            assert(s[0].0 == x);
        } else {
            let k = choose|k: int| 0 <= k < s.drop_first().len() && s.drop_first()[k].0 == x;
            assert(s[k + 1].0 == x);
        }
    }
}

/// What removal keeps: exactly the entries of other ids, well-formedness and
/// handle distinctness preserved, the length down by one when the id was
/// present, and the registry untouched when it was not.
proof fn lemma_remove_props(s: Seq<(u64, u64)>, id: u64)
    ensures
        forall|e: (u64, u64)| #[trigger]
            remove_sessions(s, id).contains(e) <==> (s.contains(e) && e.0 != id),
        !has_id(remove_sessions(s, id), id),
        forall|x: u64|
            x != id ==> (#[trigger] has_id(remove_sessions(s, id), x) <==> has_id(s, x)),
        (forall|i: int, j: int| 0 <= i < j < s.len() ==> s[i].0 != s[j].0) ==> {
            &&& forall|i: int, j: int|
                0 <= i < j < remove_sessions(s, id).len() ==> remove_sessions(s, id)[i].0
                    != remove_sessions(s, id)[j].0
            &&& (has_id(s, id) ==> remove_sessions(s, id).len() == s.len() - 1)
        },
        !has_id(s, id) ==> remove_sessions(s, id) == s,
        addrs_distinct(s) ==> addrs_distinct(remove_sessions(s, id)),
        (forall|k: int| 0 <= k < s.len() ==> s[k].0 != 0) && id != 0 ==> (forall|k: int|
            0 <= k < remove_sessions(s, id).len() ==> remove_sessions(s, id)[k].0 != 0),
        remove_sessions(s, id).len() <= s.len(),
    decreases s.len(),
{
    broadcast use vstd::seq_lib::group_seq_properties;

    if s.len() == 0 {
        assert(remove_sessions(s, id) =~= s);
    } else {
        lemma_remove_props(s.drop_first(), id);
        lemma_has_id_cons(s);
        let d = s.drop_first();
        let t = remove_sessions(s, id);
        let td = remove_sessions(d, id);
        assert(forall|k: int| 0 <= k < d.len() ==> d[k] == s[k + 1]);
        assert(forall|e: (u64, u64)| #[trigger]
            s.contains(e) <==> (e == s[0] || d.contains(e)));
        if s[0].0 == id {
            assert(t == td);
            assert(has_id(s, id)) by {
                assert(s[0].0 == id);
            }
            if forall|i: int, j: int| 0 <= i < j < s.len() ==> s[i].0 != s[j].0 {
                assert(forall|i: int, j: int| 0 <= i < j < d.len() ==> d[i].0 != d[j].0);
                assert(!has_id(d, id));
                assert(td == d);
                assert(t.len() == s.len() - 1);
            }
            if addrs_distinct(s) {
                assert(forall|i: int, j: int| 0 <= i < j < d.len() ==> d[i].1 != d[j].1);
            }
            if (forall|k: int| 0 <= k < s.len() ==> s[k].0 != 0) && id != 0 {
                assert(forall|k: int| 0 <= k < d.len() ==> #[trigger] d[k].0 != 0);
            }
        } else {
            assert(t == seq![s[0]] + td);
            assert(t.len() > 0 && t[0] == s[0]);
            assert(t.drop_first() =~= td);
            lemma_has_id_cons(t);
            assert(forall|k: int| 0 <= k < td.len() ==> t[k + 1] == td[k]);
            assert(forall|e: (u64, u64)| #[trigger]
                t.contains(e) <==> (e == s[0] || td.contains(e)));
            if forall|i: int, j: int| 0 <= i < j < s.len() ==> s[i].0 != s[j].0 {
                assert(forall|i: int, j: int| 0 <= i < j < d.len() ==> d[i].0 != d[j].0);
                assert(!has_id(d, s[0].0));
                assert(!has_id(td, s[0].0));
                assert forall|i: int, j: int| 0 <= i < j < t.len() implies t[i].0 != t[j].0 by {
                    if i > 0 {
                        assert(t[i] == td[i - 1] && t[j] == td[j - 1]);
                    } else {
                        assert(t[j] == td[j - 1]);
                        assert(td.contains(td[j - 1])) by {
                            assert(td[j - 1] == td[j - 1]);
                        }
                        if t[0].0 == t[j].0 {
                            assert(has_id(td, s[0].0)) by {
                                assert(td[j - 1].0 == s[0].0);
                            }
                        }
                    }
                }
                if has_id(s, id) {
                    assert(has_id(d, id));
                    assert(t.len() == s.len() - 1);
                }
            }
            if !has_id(s, id) {
                assert(!has_id(d, id));
                assert(t =~= s);
            }
            if addrs_distinct(s) {
                assert(forall|i: int, j: int| 0 <= i < j < d.len() ==> d[i].1 != d[j].1);
                assert forall|i: int, j: int| 0 <= i < j < t.len() implies t[i].1 != t[j].1 by {
                    if i > 0 {
                        assert(t[i] == td[i - 1] && t[j] == td[j - 1]);
                    } else {
                        assert(t[j] == td[j - 1]);
                        assert(d.contains(td[j - 1])) by {
                            assert(td.contains(td[j - 1]));
                        }
                        let w = choose|k: int| 0 <= k < d.len() && d[k] == td[j - 1];
                        assert(s[w + 1] == td[j - 1]);
                    }
                }
            }
            if (forall|k: int| 0 <= k < s.len() ==> s[k].0 != 0) && id != 0 {
                assert forall|k: int| 0 <= k < t.len() implies t[k].0 != 0 by {
                    if k > 0 {
                        assert(t[k] == td[k - 1]);
                    }
                }
            }
        }
    }
}

/// Appending an entry to the registry: its id is present afterwards exactly
/// when it was present before or is the appended one.
proof fn lemma_has_id_push(s: Seq<(u64, u64)>, e: (u64, u64))
    ensures
        forall|x: u64| #[trigger] has_id(s.push(e), x) <==> (has_id(s, x) || e.0 == x),
{
    assert forall|x: u64| #[trigger] has_id(s.push(e), x) implies (has_id(s, x) || e.0 == x) by {
        let k = choose|k: int| 0 <= k < s.push(e).len() && s.push(e)[k].0 == x;
        if k < s.len() {
            assert(s[k].0 == x);
        }
    }
    assert forall|x: u64| (has_id(s, x) || e.0 == x) implies #[trigger] has_id(s.push(e), x) by {
        if e.0 == x {
            assert(s.push(e)[s.len() as int].0 == x);
        } else {
            let k = choose|k: int| 0 <= k < s.len() && s[k].0 == x;
            assert(s.push(e)[k].0 == x);
        }
    }
}

/// The views of a sequence of deliveries.
pub open spec fn deliveries_view(ds: Seq<Delivery>) -> Seq<DeliveryView> {
    ds.map_values(|d: Delivery| d@)
}

/// The registry after a whole sequence of connects, one entry per connect,
/// in order.
pub open spec fn apply_connects(v: ServerView, ops: Seq<(u64, u64)>) -> ServerView
    decreases ops.len(),
{
    if ops.len() == 0 {
        v
    } else {
        apply_connects(spec_connect(v, ops[0].0, ops[0].1), ops.drop_first())
    }
}

/// Connects only ever add entries: an id present before a run of connects is
/// still present after it.
proof fn lemma_apply_connects_monotone(v: ServerView, ops: Seq<(u64, u64)>)
    ensures
        forall|x: u64| #[trigger]
            has_id(v.sessions, x) ==> has_id(apply_connects(v, ops).sessions, x),
    decreases ops.len(),
{
    if ops.len() > 0 {
        let v1 = spec_connect(v, ops[0].0, ops[0].1);
        lemma_has_id_push(v.sessions, ops[0]);
        lemma_apply_connects_monotone(v1, ops.drop_first());
        assert(apply_connects(v, ops) == apply_connects(v1, ops.drop_first()));
        assert forall|x: u64| #[trigger] has_id(v.sessions, x) implies has_id(
            apply_connects(v, ops).sessions,
            x,
        ) by {
            assert(has_id(v1.sessions, x));
        }
    }
}

/// Law: a sequence of N connects with no intervening disconnect grows the
/// registry by exactly N entries, keeps every session id distinct, leaves
/// each connected id registered, and advances the visitor counter by
/// exactly N. Started from the fresh server, the registry then holds
/// exactly N entries with N distinct ids and the counter equals N.
pub proof fn lemma_connect_sequence(v: ServerView, ops: Seq<(u64, u64)>)
    requires
        view_wf(v),
        v.visitors + ops.len() <= u64::MAX,
        forall|k: int| 0 <= k < ops.len() ==> (#[trigger] ops[k].0) != 0,
        forall|k: int| 0 <= k < ops.len() ==> (#[trigger] ops[k].0) < u64::MAX,
        forall|k: int| 0 <= k < ops.len() ==> !has_id(v.sessions, #[trigger] ops[k].0),
        forall|k1: int, k2: int| 0 <= k1 < k2 < ops.len() ==> ops[k1].0 != ops[k2].0,
    ensures
        view_wf(apply_connects(v, ops)),
        apply_connects(v, ops).sessions.len() == v.sessions.len() + ops.len(),
        apply_connects(v, ops).visitors == v.visitors + ops.len(),
        forall|k: int|
            0 <= k < ops.len() ==> has_id(apply_connects(v, ops).sessions, #[trigger] ops[k].0),
    decreases ops.len(),
{
    if ops.len() > 0 {
        let v1 = spec_connect(v, ops[0].0, ops[0].1);
        lemma_has_id_push(v.sessions, ops[0]);
        assert(view_wf(v1)) by {
            assert forall|i: int, j: int|
                0 <= i < j < v1.sessions.len() implies v1.sessions[i].0 != v1.sessions[j].0 by {
                if j == v1.sessions.len() - 1 {
                    assert(v1.sessions[i] == v.sessions[i]);
                    if v.sessions[i].0 == ops[0].0 {
                        assert(has_id(v.sessions, ops[0].0));
                    }
                }
            }
        }
        let rest = ops.drop_first();
        assert(forall|k: int| 0 <= k < rest.len() ==> rest[k] == ops[k + 1]);
        assert forall|k: int| 0 <= k < rest.len() implies !has_id(
            v1.sessions,
            #[trigger] rest[k].0,
        ) by {
            assert(rest[k] == ops[k + 1]);
        }
        lemma_connect_sequence(v1, rest);
        lemma_apply_connects_monotone(v1, rest);
        assert(apply_connects(v, ops) == apply_connects(v1, rest));
        assert forall|k: int| 0 <= k < ops.len() implies has_id(
            apply_connects(v, ops).sessions,
            #[trigger] ops[k].0,
        ) by {
            if k == 0 {
                assert(has_id(v1.sessions, ops[0].0));
            } else {
                assert(ops[k] == rest[k - 1]);
            }
        }
    }
}

/// Law: a disconnect for an id not in the registry changes nothing and owes
/// no deliveries; a disconnect for a registered id removes exactly that
/// entry, and the registry no longer contains the id afterwards.
pub proof fn lemma_disconnect_removes(v: ServerView, id: u64)
    requires
        view_wf(v),
    ensures
        view_wf(spec_disconnect(v, id)),
        !has_id(spec_disconnect(v, id).sessions, id),
        forall|x: u64|
            x != id ==> (#[trigger] has_id(spec_disconnect(v, id).sessions, x) <==> has_id(
                v.sessions,
                x,
            )),
        has_id(v.sessions, id) ==> spec_disconnect(v, id).sessions.len() == v.sessions.len() - 1,
        !has_id(v.sessions, id) ==> spec_disconnect(v, id) == v && spec_disconnect_deliveries(
            v,
            id,
        ) =~= Seq::<DeliveryView>::empty(),
{
    lemma_remove_props(v.sessions, id);
    let t = remove_sessions(v.sessions, id);
    if id == 0 {
        assert(!has_id(v.sessions, 0)) by {
            if has_id(v.sessions, 0) {
                let k = choose|k: int| 0 <= k < v.sessions.len() && v.sessions[k].0 == 0;
            }
        }
        assert(t == v.sessions);
    }
    assert forall|k: int| 0 <= k < t.len() implies t[k].0 < v.next by {
        assert(t.contains(t[k]));
        let w = choose|w: int| 0 <= w < v.sessions.len() && v.sessions[w] == t[k];
    }
}

/// Law: a broadcast from sender S delivers no copy to S's handle; every
/// other registered session's handle receives exactly one copy, and that
/// copy carries the rendered envelope of the message. The session at
/// index `k` names the one the claim is instantiated for.
pub proof fn lemma_broadcast_exclusion(v: ServerView, m: ClientMessageView, k: int)
    requires
        view_wf(v),
        addrs_distinct(v.sessions),
        0 <= k < v.sessions.len(),
    ensures
        ({
            let ds = spec_broadcast_deliveries(v, m);
            let a = v.sessions[k].1;
            &&& (v.sessions[k].0 == m.id ==> forall|j: int|
                0 <= j < ds.len() ==> (#[trigger] ds[j].addr) != a)
            &&& (v.sessions[k].0 != m.id ==> exists|j: int|
                0 <= j < ds.len() && (#[trigger] ds[j].addr) == a && ds[j].text == encode_spec(m))
            &&& (v.sessions[k].0 != m.id ==> forall|j1: int, j2: int|
                0 <= j1 < ds.len() && 0 <= j2 < ds.len() && ds[j1].addr == a && ds[j2].addr == a
                    ==> j1 == j2)
        }),
{
    lemma_remove_props(v.sessions, m.id);
    let t = remove_sessions(v.sessions, m.id);
    let ds = spec_broadcast_deliveries(v, m);
    let a = v.sessions[k].1;
    assert(forall|j: int|
        0 <= j < ds.len() ==> (#[trigger] ds[j]) == (DeliveryView {
            addr: t[j].1,
            text: encode_spec(m),
        }));
    assert(addrs_distinct(t));
    if v.sessions[k].0 == m.id {
        assert forall|j: int| 0 <= j < ds.len() implies (#[trigger] ds[j].addr) != a by {
            assert(t.contains(t[j]));
            let w = choose|w: int| 0 <= w < v.sessions.len() && v.sessions[w] == t[j];
            assert(w != k);
            if w < k {
                assert(v.sessions[w].1 != v.sessions[k].1);
            }
        }
    } else {
        assert(v.sessions.contains(v.sessions[k]));
        assert(t.contains(v.sessions[k]));
        let j = choose|j: int| 0 <= j < t.len() && t[j] == v.sessions[k];
        assert(0 <= j < ds.len() && ds[j].addr == a && ds[j].text == encode_spec(m));
        assert forall|j1: int, j2: int|
            0 <= j1 < ds.len() && 0 <= j2 < ds.len() && ds[j1].addr == a && ds[j2].addr == a
                implies j1 == j2 by {
            if j1 < j2 {
                assert(t[j1].1 != t[j2].1);
            }
            if j2 < j1 {
                assert(t[j2].1 != t[j1].1);
            }
        }
    }
}

/// Law: when session A connects while session B is registered and then
/// disconnects at once, B is owed exactly one join notice and one
/// visitor-count notice by the connect, and exactly one departure notice
/// by the disconnect; the join notice stands before the departure notice,
/// since the connect's deliveries precede the disconnect's. The session at
/// index `k` plays B; `a_id` and `a_addr` are A's id and handle.
pub proof fn lemma_join_then_leave(v: ServerView, a_id: u64, a_addr: u64, k: int)
    requires
        view_wf(v),
        addrs_distinct(v.sessions),
        0 <= k < v.sessions.len(),
        a_id != 0,
        a_id < u64::MAX,
        !has_id(v.sessions, a_id),
        v.visitors < u64::MAX,
    ensures
        ({
            let b_addr = v.sessions[k].1;
            let ds1 = spec_connect_deliveries(v);
            let ds2 = spec_disconnect_deliveries(spec_connect(v, a_id, a_addr), a_id);
            &&& ds1.len() == 2 * v.sessions.len()
            &&& forall|j: int|
                0 <= j < ds1.len() ==> ((#[trigger] ds1[j].addr) == b_addr <==> (j == k || j
                    == v.sessions.len() + k))
            &&& ds1[k].text == encode_spec(server_notice("Someone joined"@))
            &&& ds1[v.sessions.len() + k].text == encode_spec(
                server_notice(visitors_text(v.visitors)),
            )
            &&& ds2.len() == v.sessions.len()
            &&& forall|j: int|
                0 <= j < ds2.len() ==> ((#[trigger] ds2[j].addr) == b_addr <==> j == k)
            &&& ds2[k].text == encode_spec(server_notice("Someone disconnected"@))
        }),
{
    let n = v.sessions.len() as int;
    let b_addr = v.sessions[k].1;
    let ds1 = spec_connect_deliveries(v);
    let v1 = spec_connect(v, a_id, a_addr);
    let ds2 = spec_disconnect_deliveries(v1, a_id);
    assert forall|j: int| 0 <= j < ds1.len() implies ((#[trigger] ds1[j].addr) == b_addr <==> (j
        == k || j == n + k)) by {
        if j < n {
            assert(ds1[j].addr == v.sessions[j].1);
            if j != k && ds1[j].addr == b_addr {
                if j < k {
                    assert(v.sessions[j].1 != v.sessions[k].1);
                } else {
                    assert(v.sessions[k].1 != v.sessions[j].1);
                }
            }
        } else {
            assert(ds1[j].addr == v.sessions[j - n].1);
            if j - n != k && ds1[j].addr == b_addr {
                if j - n < k {
                    assert(v.sessions[j - n].1 != v.sessions[k].1);
                } else {
                    assert(v.sessions[k].1 != v.sessions[j - n].1);
                }
            }
        }
    }
    lemma_has_id_push(v.sessions, (a_id, a_addr));
    assert(has_id(v1.sessions, a_id));
    lemma_remove_push(v.sessions, (a_id, a_addr), a_id);
    lemma_remove_props(v.sessions, a_id);
    assert(remove_sessions(v.sessions, a_id) + Seq::<(u64, u64)>::empty() =~= remove_sessions(
        v.sessions,
        a_id,
    ));
    assert(remove_sessions(v1.sessions, a_id) == v.sessions);
    assert forall|j: int| 0 <= j < ds2.len() implies ((#[trigger] ds2[j].addr) == b_addr <==> j
        == k) by {
        assert(ds2[j].addr == v.sessions[j].1);
        if j != k && ds2[j].addr == b_addr {
            if j < k {
                assert(v.sessions[j].1 != v.sessions[k].1);
            } else {
                assert(v.sessions[k].1 != v.sessions[j].1);
            }
        }
    }
}

/// The chat server: the sole owner of the registry of live sessions and the
/// visitor counter. All mutation goes through the handlers below, which the
/// surrounding runtime is expected to call one at a time, in request order.
#[derive(Debug)]
pub struct ChatServer {
    sessions: Vec<(u64, u64)>,
    visitor_count: u64,
    next_id: u64,
}

impl View for ChatServer {
    type V = ServerView;

    closed spec fn view(&self) -> ServerView {
        ServerView { sessions: self.sessions@, visitors: self.visitor_count, next: self.next_id }
    }
}

/// Relies on `rand::random`: a value drawn from the thread-local generator.
/// Nothing is assumed about which value comes back.
#[verifier::external_body]
fn random_id() -> u64 {
    rand::random::<u64>()
}

impl ChatServer {
    /// Registry well-formedness, as a predicate on the server itself.
    pub open spec fn wf(&self) -> bool {
        view_wf(self@)
    }

    /// A fresh server: empty registry, zero visitors.
    pub fn new() -> (s: ChatServer)
        ensures
            s@.sessions == Seq::<(u64, u64)>::empty(),
            s@.visitors == 0,
            s@.next == 1,
            s.wf(),
    {
        let s = ChatServer { sessions: Vec::new(), visitor_count: 0, next_id: 1 };
        proof {
            assert(s@.sessions =~= Seq::<(u64, u64)>::empty());
        }
        s
    }

    /// The id the deterministic fallback of `handle_connect` would assign
    /// next; ids are exhausted when it reaches `u64::MAX`.
    pub fn next_id(&self) -> (n: u64)
        ensures
            n == self@.next,
    {
        self.next_id
    }

    /// The current visitor count.
    pub fn visitor_count(&self) -> (n: u64)
        ensures
            n == self@.visitors,
    {
        self.visitor_count
    }

    /// How many sessions are registered.
    pub fn session_count(&self) -> (n: usize)
        ensures
            n == self@.sessions.len(),
    {
        self.sessions.len()
    }

    /// Whether a session with this id is registered.
    pub fn contains_id(&self, id: u64) -> (b: bool)
        ensures
            b == has_id(self@.sessions, id),
    {
        let mut i: usize = 0;
        while i < self.sessions.len()
            invariant
                i <= self.sessions.len(),
                forall|j: int| 0 <= j < i ==> self@.sessions[j].0 != id,
            decreases self.sessions.len() - i,
        {
            if self.sessions[i].0 == id {
                proof {
                    assert(self@.sessions[i as int].0 == id);
                }
                return true;
            }
            i = i + 1;
        }
        false
    }

    /// The handle token registered under this id, if any.
    pub fn addr_of(&self, id: u64) -> (r: Option<u64>)
        ensures
            match r {
                Some(a) => exists|k: int|
                    0 <= k < self@.sessions.len() && self@.sessions[k] == (id, a),
                None => !has_id(self@.sessions, id),
            },
    {
        let mut i: usize = 0;
        while i < self.sessions.len()
            invariant
                i <= self.sessions.len(),
                forall|j: int| 0 <= j < i ==> self@.sessions[j].0 != id,
            decreases self.sessions.len() - i,
        {
            let e = self.sessions[i];
            if e.0 == id {
                proof {
                    assert(self@.sessions[i as int] == (id, e.1));
                }
                return Some(e.1);
            }
            i = i + 1;
        }
        None
    }

    /// Checks registry well-formedness at run time, so that an unverified
    /// caller can test the precondition of the handlers.
    pub fn is_wf(&self) -> (b: bool)
        ensures
            b == self.wf(),
    {
        if self.next_id < 1 {
            return false;
        }
        let n = self.sessions.len();
        let mut i: usize = 0;
        while i < n
            invariant
                n == self.sessions.len(),
                i <= n,
                forall|p: int, q: int|
                    0 <= p < q < i ==> self@.sessions[p].0 != self@.sessions[q].0,
                forall|p: int| 0 <= p < i ==> self@.sessions[p].0 != 0,
                forall|p: int| 0 <= p < i ==> self@.sessions[p].0 < self@.next,
            decreases n - i,
        {
            if self.sessions[i].0 == 0 || self.sessions[i].0 >= self.next_id {
                proof {
                    assert(self@.sessions[i as int].0 == 0 || self@.sessions[i as int].0
                        >= self@.next);
                }
                return false;
            }
            let mut j: usize = 0;
            while j < i
                invariant
                    j <= i,
                    i < n,
                    n == self.sessions.len(),
                    forall|q: int| 0 <= q < j ==> self@.sessions[q].0 != self@.sessions[i as int].0,
                decreases i - j,
            {
                if self.sessions[j].0 == self.sessions[i].0 {
                    proof {
                        assert(self@.sessions[j as int].0 == self@.sessions[i as int].0);
                    }
                    return false;
                }
                j = j + 1;
            }
            i = i + 1;
        }
        true
    }

    /// Sends `message` to every registered session except the one whose id
    /// is `skip_id`: the broadcast fan-out, as the list of deliveries owed.
    pub fn send_message(&self, message: ClientMessage, skip_id: u64) -> (res: Vec<Delivery>)
        ensures
            deliveries_view(res@) == fan_out_view(
                remove_sessions(self@.sessions, skip_id),
                encode_spec(message@),
            ),
    {
        let payload = encode_client_message(&message);
        let mut res: Vec<Delivery> = Vec::new();
        let mut i: usize = 0;
        while i < self.sessions.len()
            invariant
                i <= self.sessions.len(),
                payload@ == encode_spec(message@),
                deliveries_view(res@) == fan_out_view(
                    remove_sessions(self@.sessions.subrange(0, i as int), skip_id),
                    payload@,
                ),
            decreases self.sessions.len() - i,
        {
            let e = self.sessions[i];
            let ghost res0 = res@;
            let ghost pre = self@.sessions.subrange(0, i as int);
            if e.0 != skip_id {
                res.push(Delivery { addr: e.1, msg: Message(payload.clone()) });
            }
            proof {
                lemma_remove_push(pre, self@.sessions[i as int], skip_id);
                assert(self@.sessions.subrange(0, (i + 1) as int) =~= pre.push(
                    self@.sessions[i as int],
                ));
                let kept = remove_sessions(pre, skip_id);
                if e.0 != skip_id {
                    assert(res@ == res0.push(res@[res0.len() as int]));
                    assert(res@[res0.len() as int]@ == DeliveryView { addr: e.1, text: payload@ });
                    assert(deliveries_view(res@) =~= deliveries_view(res0).push(
                        DeliveryView { addr: e.1, text: payload@ },
                    ));
                    assert(fan_out_view(kept + seq![self@.sessions[i as int]], payload@)
                        =~= fan_out_view(kept, payload@).push(
                        DeliveryView { addr: e.1, text: payload@ },
                    ));
                } else {
                    assert(kept + Seq::<(u64, u64)>::empty() =~= kept);
                }
                assert(deliveries_view(res@) =~= fan_out_view(
                    remove_sessions(self@.sessions.subrange(0, (i + 1) as int), skip_id),
                    payload@,
                ));
            }
            i = i + 1;
        }
        proof {
            assert(self@.sessions.subrange(0, self@.sessions.len() as int) =~= self@.sessions);
        }
        res
    }

    /// Sends a server-synthesized notice (sentinel sender id 0, no name) to
    /// every registered session.
    pub fn send_server_message(&self, message: &str) -> (res: Vec<Delivery>)
        ensures
            deliveries_view(res@) == fan_out_view(
                remove_sessions(self@.sessions, 0),
                encode_spec(server_notice(message@)),
            ),
    {
        let m = ClientMessage { id: 0, name: None, msg: message.to_owned() };
        proof {
            assert(m@ == server_notice(message@));
        }
        self.send_message(m, 0)
    }

    /// Registers a new session: assigns a fresh nonzero id, appends the
    /// entry, advances the visitor counter, and owes a join notice and a
    /// visitor-count notice to every previously registered session. The
    /// count in the notice is the count before this connect.
    pub fn handle_connect(&mut self, msg: Connect) -> (res: (u64, Vec<Delivery>))
        requires
            old(self).wf(),
            old(self)@.visitors < u64::MAX,
            old(self)@.next < u64::MAX,
        ensures
            final(self).wf(),
            final(self)@ == spec_connect(old(self)@, res.0, msg.addr),
            res.0 != 0 && !has_id(old(self)@.sessions, res.0),
            deliveries_view(res.1@) == spec_connect_deliveries(old(self)@),
    {
        let r = random_id();
        let id = if r != 0 && r < u64::MAX && !self.contains_id(r) {
            r
        } else {
            self.next_id
        };
        proof {
            assert(id != 0 && id < u64::MAX);
            assert(!has_id(self@.sessions, id)) by {
                if has_id(self@.sessions, id) {
                    let k = choose|k: int|
                        0 <= k < self@.sessions.len() && self@.sessions[k].0 == id;
                }
            }
        }
        proof {
            lemma_remove_props(self@.sessions, 0);
            assert(!has_id(self@.sessions, 0)) by {
                if has_id(self@.sessions, 0) {
                    let k = choose|k: int|
                        0 <= k < self@.sessions.len() && self@.sessions[k].0 == 0;
                }
            }
            assert(remove_sessions(self@.sessions, 0) == self@.sessions);
        }
        let mut ds = self.send_server_message("Someone joined");
        let count = self.visitor_count;
        let mut text: Vec<char> = Vec::new();
        crate::codec::push_str_chars(&mut text, "Total visitors : ");
        crate::codec::push_dec(&mut text, count);
        let text = crate::codec::chars_to_string(text);
        proof {
            assert(text@ == visitors_text(count));
        }
        let mut ds2 = self.send_server_message(text.as_str());
        ds.append(&mut ds2);
        self.sessions.push((id, msg.addr));
        self.visitor_count = self.visitor_count + 1;
        if id + 1 > self.next_id {
            self.next_id = id + 1;
        }
        proof {
            lemma_has_id_push(old(self)@.sessions, (id, msg.addr));
            assert(self@.sessions =~= old(self)@.sessions.push((id, msg.addr)));
            assert forall|i: int, j: int|
                0 <= i < j < self@.sessions.len() implies self@.sessions[i].0
                != self@.sessions[j].0 by {
                if j == self@.sessions.len() - 1 {
                    assert(self@.sessions[i] == old(self)@.sessions[i]);
                }
            }
            assert(deliveries_view(ds@) =~= spec_connect_deliveries(old(self)@));
        }
        (id, ds)
    }

    /// Removes the session of this id, if registered, and then owes a
    /// departure notice to every remaining session; a disconnect for an
    /// unknown id is a silent no-op.
    pub fn handle_disconnect(&mut self, msg: Disconnect) -> (res: Vec<Delivery>)
        requires
            old(self).wf(),
        ensures
            final(self).wf(),
            final(self)@ == spec_disconnect(old(self)@, msg.id),
            deliveries_view(res@) == spec_disconnect_deliveries(old(self)@, msg.id),
            !has_id(old(self)@.sessions, msg.id) ==> final(self)@ == old(self)@ && res@.len()
                == 0,
    {
        let mut kept: Vec<(u64, u64)> = Vec::new();
        let mut removed = false;
        let mut i: usize = 0;
        while i < self.sessions.len()
            invariant
                i <= self.sessions.len(),
                self@ == old(self)@,
                kept@ == remove_sessions(self@.sessions.subrange(0, i as int), msg.id),
                removed == has_id(self@.sessions.subrange(0, i as int), msg.id),
            decreases self.sessions.len() - i,
        {
            let e = self.sessions[i];
            proof {
                let pre = self@.sessions.subrange(0, i as int);
                lemma_remove_push(pre, self@.sessions[i as int], msg.id);
                lemma_has_id_push(pre, self@.sessions[i as int]);
                assert(self@.sessions.subrange(0, (i + 1) as int) =~= pre.push(
                    self@.sessions[i as int],
                ));
            }
            if e.0 != msg.id {
                kept.push(e);
                proof {
                    assert(kept@ =~= remove_sessions(
                        self@.sessions.subrange(0, (i + 1) as int),
                        msg.id,
                    ));
                }
            } else {
                removed = true;
            }
            i = i + 1;
        }
        proof {
            assert(self@.sessions.subrange(0, self@.sessions.len() as int) =~= self@.sessions);
            lemma_remove_props(old(self)@.sessions, msg.id);
        }
        self.sessions = kept;
        proof {
            assert forall|k: int| 0 <= k < self@.sessions.len() implies self@.sessions[k].0
                < self@.next && self@.sessions[k].0 != 0 by {
                assert(self@.sessions.contains(self@.sessions[k]));
                let w = choose|w: int|
                    0 <= w < old(self)@.sessions.len() && old(self)@.sessions[w]
                        == self@.sessions[k];
            }
        }
        if removed {
            proof {
                assert(!has_id(self@.sessions, 0)) by {
                    if has_id(self@.sessions, 0) {
                        let k = choose|k: int|
                            0 <= k < self@.sessions.len() && self@.sessions[k].0 == 0;
                        if msg.id == 0 {
                            assert(!has_id(old(self)@.sessions, 0)) by {
                                if has_id(old(self)@.sessions, 0) {
                                    let w = choose|w: int|
                                        0 <= w < old(self)@.sessions.len() && old(
                                            self,
                                        )@.sessions[w].0 == 0;
                                }
                            }
                            assert(remove_sessions(old(self)@.sessions, 0) == old(self)@.sessions);
                        }
                    }
                }
                lemma_remove_props(self@.sessions, 0);
                assert(remove_sessions(self@.sessions, 0) == self@.sessions);
            }
            let res = self.send_server_message("Someone disconnected");
            res
        } else {
            proof {
                assert(remove_sessions(old(self)@.sessions, msg.id) == old(self)@.sessions);
                assert(deliveries_view(Seq::<Delivery>::empty()) =~= Seq::<DeliveryView>::empty());
            }
            Vec::new()
        }
    }

    /// Relays a client message: the broadcast fan-out to every registered
    /// session other than the sender named inside the message.
    pub fn handle_client_message(&self, msg: ClientMessage) -> (res: Vec<Delivery>)
        ensures
            deliveries_view(res@) == spec_broadcast_deliveries(self@, msg@),
    {
        let msg_id = msg.id;
        self.send_message(msg, msg_id)
    }
}

} // verus!
