//! The OSC control surface: which reply and which field update each incoming
//! OSC message calls for, and how queued field updates reach the field map.
//!
//! Supported messages:
//! - `/field/<name> <number>`: enqueue a field update, reply `/ack`
//! - `/ping`: reply `/pong`
//! - an unsupported address or a malformed payload: reply `/error`

use vstd::prelude::*;
use vstd::string::*;
use crate::path_map::PathMap;
use crate::text::{chars_of, is_prefix_of, occurs_at, strip_all_prefix, trim_start_matches};

verus! {

/// The type of an OSC argument, as far as the control surface tells them apart.
#[derive(Debug, Clone, Copy, PartialEq, Eq, Structural)]
pub enum OscArgKind {
    /// A 32-bit float.
    Float,
    /// A 64-bit float.
    Double,
    /// A 32-bit integer.
    Int,
    /// Any other argument type.
    Other,
}

/// What the control surface does with one OSC message.
#[derive(Debug, Clone, PartialEq, Eq)]
pub enum OscAction {
    /// Reply `/pong "particelle"`.
    Pong,
    /// Enqueue an update of `field` with the message's first argument, and
    /// reply `/ack` with the field name and the value.
    SetField { field: String },
    /// Reply `/error` with this message.
    Error { message: String },
}

/// Whether an argument of this kind carries a number.
pub open spec fn is_numeric(kind: OscArgKind) -> bool {
    kind != OscArgKind::Other
}

/// The field that a `/field/...` address names.
pub open spec fn field_name_of(addr: Seq<char>) -> Seq<char> {
    strip_all_prefix(addr, "/field/"@)
}

/// An action with its texts as characters.
pub enum OscActionView {
    Pong,
    SetField(Seq<char>),
    Error(Seq<char>),
}

impl OscAction {
    pub open spec fn view(&self) -> OscActionView {
        match self {
            OscAction::Pong => OscActionView::Pong,
            OscAction::SetField { field } => OscActionView::SetField(field@),
            OscAction::Error { message } => OscActionView::Error(message@),
        }
    }
}

/// How the control surface answers a message with address `addr` whose first
/// argument has type `first_arg`.
pub open spec fn osc_decision(addr: Seq<char>, first_arg: Option<OscArgKind>) -> OscActionView {
    if addr == "/ping"@ {
        OscActionView::Pong
    } else if !is_prefix_of("/field/"@, addr) {
        OscActionView::Error("Unsupported OSC address '"@ + addr + "'"@)
    } else if field_name_of(addr).len() == 0 {
        OscActionView::Error("Field name cannot be empty"@)
    } else {
        match first_arg {
            None => OscActionView::Error("Missing numeric argument for "@ + addr),
            Some(OscArgKind::Other) => OscActionView::Error("Unsupported argument type for "@ + addr),
            Some(_) => OscActionView::SetField(field_name_of(addr)),
        }
    }
}

/// Decide how to answer an OSC message with address `addr` whose first
/// argument has type `first_arg` (`None` when it has no argument).
pub fn decide_osc_message(addr: &str, first_arg: Option<OscArgKind>) -> (action: OscAction)
    ensures
        action.view() == osc_decision(addr@, first_arg),
        addr@ == "/ping"@ ==> action is Pong,
        addr@ != "/ping"@ && !is_prefix_of("/field/"@, addr@) ==> (action matches OscAction::Error {
            message,
        } && message@ == "Unsupported OSC address '"@ + addr@ + "'"@),
        addr@ != "/ping"@ && is_prefix_of("/field/"@, addr@) && field_name_of(addr@).len() == 0
            ==> (action matches OscAction::Error { message } && message@
            == "Field name cannot be empty"@),
        addr@ != "/ping"@ && is_prefix_of("/field/"@, addr@) && field_name_of(addr@).len() > 0
            && (first_arg matches Some(k) && is_numeric(k)) ==> (action matches OscAction::SetField {
            field,
        } && field@ == field_name_of(addr@)),
        addr@ != "/ping"@ && is_prefix_of("/field/"@, addr@) && field_name_of(addr@).len() > 0
            && first_arg == Some(OscArgKind::Other) ==> (action matches OscAction::Error {
            message,
        } && message@ == "Unsupported argument type for "@ + addr@),
        addr@ != "/ping"@ && is_prefix_of("/field/"@, addr@) && field_name_of(addr@).len() > 0
            && first_arg is None ==> (action matches OscAction::Error { message } && message@
            == "Missing numeric argument for "@ + addr@),
{
    let address = addr.to_owned();
    if address == "/ping".to_owned() {
        return OscAction::Pong;
    }
    let prefix = "/field/";
    let ac = chars_of(addr);
    let pc = chars_of(prefix);
    if !occurs_at(&ac, 0, &pc) {
        proof {
            if is_prefix_of(prefix@, addr@) {
                assert(addr@.subrange(0, prefix@.len() as int) == prefix@);
            }
        }
        let mut message = "Unsupported OSC address '".to_owned();
        message.append(addr);
        message.append("'");
        return OscAction::Error { message };
    }
    proof {
        reveal_strlit("/field/");
    }
    let field = trim_start_matches(addr, prefix);
    if field.unicode_len() == 0 {
        return OscAction::Error { message: "Field name cannot be empty".to_owned() };
    }
    match first_arg {
        Some(OscArgKind::Other) => {
            let mut message = "Unsupported argument type for ".to_owned();
            message.append(addr);
            OscAction::Error { message }
        },
        Some(_) => OscAction::SetField { field },
        None => {
            let mut message = "Missing numeric argument for ".to_owned();
            message.append(addr);
            OscAction::Error { message }
        },
    }
}

/// The field map after applying `updates` in order.
pub open spec fn apply_updates<V>(fields: Map<Seq<char>, V>, updates: Seq<(Seq<char>, V)>) -> Map<
    Seq<char>,
    V,
>
    decreases updates.len(),
{
    if updates.len() == 0 {
        fields
    } else {
        apply_updates(fields, updates.drop_last()).insert(updates.last().0, updates.last().1)
    }
}

/// The queued updates as paths and values.
pub open spec fn update_view<V>(updates: Seq<(String, V)>) -> Seq<(Seq<char>, V)> {
    updates.map_values(|u: (String, V)| (u.0@, u.1))
}

/// Apply all queued field updates to the field map, in queue order, and
/// return how many were applied. When several updates target the same field,
/// the last one wins.
pub fn drain_field_updates<V>(updates: Vec<(String, V)>, fields: &mut PathMap<V>) -> (applied:
    usize)
    requires
        old(fields).wf(),
    ensures
        final(fields).wf(),
        applied == updates@.len(),
        final(fields).view() == apply_updates(old(fields).view(), update_view(updates@)),
{
    let ghost all = updates@;
    let total = updates.len();
    let ghost start = fields.view();
    let mut applied: usize = 0;
    let mut queue = updates;
    let mut pending: Vec<(String, V)> = Vec::new();
    while queue.len() > 0
        invariant
            queue@.len() + pending@.len() == all.len(),
            queue@ == all.take(queue@.len() as int),
            forall|k: int| 0 <= k < pending@.len() ==> #[trigger] pending@[k] == all[all.len() - 1 - k],
        decreases queue@.len(),
    {
        let item = queue.pop().unwrap();
        pending.push(item);
        assert(queue@ =~= all.take(queue@.len() as int));
    }
    assert(update_view(all).take(0) =~= Seq::<(Seq<char>, V)>::empty());
    while pending.len() > 0
        invariant
            fields.wf(),
            total == all.len(),
            applied + pending@.len() == all.len(),
            forall|k: int| 0 <= k < pending@.len() ==> #[trigger] pending@[k] == all[all.len() - 1 - k],
            fields.view() == apply_updates(start, update_view(all).take(applied as int)),
        decreases pending@.len(),
    {
        let (path, value) = pending.pop().unwrap();
        let ghost u = update_view(all)[applied as int];
        assert(all[applied as int] == (path, value));
        fields.insert(path, value);
        proof {
            let taken = update_view(all).take(applied + 1);
            assert(taken.drop_last() =~= update_view(all).take(applied as int));
            assert(taken.last() == u);
        }
        applied = applied + 1;
    }
    assert(update_view(all).take(applied as int) =~= update_view(all));
    applied
}

/// Last write wins: after applying `updates`, a field that some update
/// targets holds the value of the last such update, and any other field keeps
/// what it held before.
pub proof fn law_last_write_wins<V>(fields: Map<Seq<char>, V>, updates: Seq<(Seq<char>, V)>, name: Seq<char>)
    ensures
        forall|i: int| #![trigger updates[i]]
            0 <= i < updates.len() && updates[i].0 == name && (forall|j: int|
                i < j < updates.len() ==> updates[j].0 != name) ==> apply_updates(
                fields,
                updates,
            ).dom().contains(name) && apply_updates(fields, updates)[name] == updates[i].1,
        (forall|i: int| 0 <= i < updates.len() ==> updates[i].0 != name) ==> (apply_updates(
            fields,
            updates,
        ).dom().contains(name) == fields.dom().contains(name) && (fields.dom().contains(name)
            ==> apply_updates(fields, updates)[name] == fields[name])),
    decreases updates.len(),
{
    if updates.len() > 0 {
        let init = updates.drop_last();
        law_last_write_wins(fields, init, name);
        assert forall|i: int| #![trigger updates[i]]
            0 <= i < updates.len() && updates[i].0 == name && (forall|j: int|
                i < j < updates.len() ==> updates[j].0 != name) implies apply_updates(
            fields,
            updates,
        ).dom().contains(name) && apply_updates(fields, updates)[name] == updates[i].1 by {
            if i < updates.len() - 1 {
                assert(init[i] == updates[i]);
                assert forall|j: int| i < j < init.len() implies init[j].0 != name by {
                    assert(init[j] == updates[j]);
                }
            }
        }
        if forall|i: int| 0 <= i < updates.len() ==> updates[i].0 != name {
            assert forall|i: int| 0 <= i < init.len() implies init[i].0 != name by {
                assert(init[i] == updates[i]);
            }
        }
    }
}


/// An OSC argument as the control surface reads it: a number of one of the
/// three numeric types, or anything else.
#[derive(Debug, Clone, Copy, PartialEq)]
pub enum OscArg<V> {
    Float(V),
    Double(V),
    Int(V),
    Other,
}

pub open spec fn arg_kind<V>(arg: Option<OscArg<V>>) -> Option<OscArgKind> {
    match arg {
        None => None,
        Some(OscArg::Float(_)) => Some(OscArgKind::Float),
        Some(OscArg::Double(_)) => Some(OscArgKind::Double),
        Some(OscArg::Int(_)) => Some(OscArgKind::Int),
        Some(OscArg::Other) => Some(OscArgKind::Other),
    }
}

pub open spec fn arg_value<V>(arg: Option<OscArg<V>>) -> Option<V> {
    match arg {
        Some(OscArg::Float(v)) => Some(v),
        Some(OscArg::Double(v)) => Some(v),
        Some(OscArg::Int(v)) => Some(v),
        _ => None,
    }
}

/// An incoming OSC packet: a message (its address and first argument), or a
/// bundle of packets.
#[derive(Debug)]
pub enum OscPacketIn<V> {
    Message { addr: String, first_arg: Option<OscArg<V>> },
    Bundle(Vec<OscPacketIn<V>>),
}

/// A reply of the control surface.
#[derive(Debug, Clone, PartialEq)]
pub enum OscReply<V> {
    /// `/pong "particelle"`.
    Pong,
    /// `/ack <field> <value>`.
    Ack { field: String, value: V },
    /// `/error <message>`.
    Error { message: String },
}

/// A reply with its texts as characters.
pub enum OscReplyView<V> {
    Pong,
    Ack(Seq<char>, V),
    Error(Seq<char>),
}

pub open spec fn reply_view<V>(replies: Seq<OscReply<V>>) -> Seq<OscReplyView<V>> {
    replies.map_values(
        |r: OscReply<V>|
            match r {
                OscReply::Pong => OscReplyView::Pong,
                OscReply::Ack { field, value } => OscReplyView::Ack(field@, value),
                OscReply::Error { message } => OscReplyView::Error(message@),
            },
    )
}

/// The messages of a packet, in the order they are handled: a bundle's
/// packets one after the other.
pub open spec fn messages_of<V>(p: OscPacketIn<V>) -> Seq<(Seq<char>, Option<OscArg<V>>)>
    decreases p, 1int,
{
    match p {
        OscPacketIn::Message { addr, first_arg } => seq![(addr@, first_arg)],
        OscPacketIn::Bundle(ps) => messages_in(ps@),
    }
}

/// The messages of a run of packets, in order.
pub open spec fn messages_in<V>(ps: Seq<OscPacketIn<V>>) -> Seq<(Seq<char>, Option<OscArg<V>>)>
    decreases ps, 0int,
{
    if ps.len() == 0 {
        seq![]
    } else {
        messages_in(ps.drop_last()) + messages_of(ps.last())
    }
}

/// The field updates that a message enqueues.
pub open spec fn updates_for<V>(m: (Seq<char>, Option<OscArg<V>>)) -> Seq<(Seq<char>, V)> {
    match (osc_decision(m.0, arg_kind(m.1)), arg_value(m.1)) {
        (OscActionView::SetField(f), Some(v)) => seq![(f, v)],
        _ => seq![],
    }
}

/// The replies that a message calls for.
pub open spec fn replies_for<V>(m: (Seq<char>, Option<OscArg<V>>)) -> Seq<OscReplyView<V>> {
    match osc_decision(m.0, arg_kind(m.1)) {
        OscActionView::Pong => seq![OscReplyView::Pong],
        OscActionView::SetField(f) => match arg_value(m.1) {
            Some(v) => seq![OscReplyView::Ack(f, v)],
            None => seq![],
        },
        OscActionView::Error(e) => seq![OscReplyView::Error(e)],
    }
}

/// The field updates of a run of messages, in order.
pub open spec fn updates_all<V>(ms: Seq<(Seq<char>, Option<OscArg<V>>)>) -> Seq<(Seq<char>, V)>
    decreases ms.len(),
{
    if ms.len() == 0 {
        seq![]
    } else {
        updates_all(ms.drop_last()) + updates_for(ms.last())
    }
}

/// The replies to a run of messages, in order.
pub open spec fn replies_all<V>(ms: Seq<(Seq<char>, Option<OscArg<V>>)>) -> Seq<OscReplyView<V>>
    decreases ms.len(),
{
    if ms.len() == 0 {
        seq![]
    } else {
        replies_all(ms.drop_last()) + replies_for(ms.last())
    }
}

proof fn lemma_all_concat<V>(a: Seq<(Seq<char>, Option<OscArg<V>>)>, b: Seq<(Seq<char>, Option<OscArg<V>>)>)
    ensures
        updates_all(a + b) == updates_all(a) + updates_all(b),
        replies_all(a + b) == replies_all(a) + replies_all(b),
    decreases b.len(),
{
    if b.len() == 0 {
        assert(a + b =~= a);
        assert(updates_all(a) + updates_all(b) =~= updates_all(a));
        assert(replies_all(a) + replies_all(b) =~= replies_all(a));
    } else {
        lemma_all_concat(a, b.drop_last());
        assert((a + b).drop_last() =~= a + b.drop_last());
        assert((a + b).last() == b.last());
        assert(updates_all(a) + updates_all(b) =~= updates_all(a) + updates_all(b.drop_last())
            + updates_for(b.last()));
        assert(replies_all(a) + replies_all(b) =~= replies_all(a) + replies_all(b.drop_last())
            + replies_for(b.last()));
    }
}

/// Handle one OSC packet: a message gets the reply that `decide_osc_message`
/// calls for, and a field update is enqueued with the message's numeric
/// argument; a bundle's packets are handled in bundle order.
pub fn handle_osc_packet<V: Copy>(
    packet: &OscPacketIn<V>,
    updates: &mut Vec<(String, V)>,
    replies: &mut Vec<OscReply<V>>,
)
    ensures
        update_view(final(updates)@) == update_view(old(updates)@) + updates_all(messages_of(*packet)),
        reply_view(final(replies)@) == reply_view(old(replies)@) + replies_all(messages_of(*packet)),
    decreases packet,
{
    match packet {
        OscPacketIn::Message { addr, first_arg } => {
            let ghost m = (addr@, *first_arg);
            let ghost u0 = updates@;
            let ghost r0 = replies@;
            let kind = match first_arg {
                None => None,
                Some(OscArg::Float(_)) => Some(OscArgKind::Float),
                Some(OscArg::Double(_)) => Some(OscArgKind::Double),
                Some(OscArg::Int(_)) => Some(OscArgKind::Int),
                Some(OscArg::Other) => Some(OscArgKind::Other),
            };
            let value = match first_arg {
                Some(OscArg::Float(v)) => Some(*v),
                Some(OscArg::Double(v)) => Some(*v),
                Some(OscArg::Int(v)) => Some(*v),
                _ => None,
            };
            match decide_osc_message(addr.as_str(), kind) {
                OscAction::Pong => {
                    replies.push(OscReply::Pong);
                },
                OscAction::SetField { field } => {
                    if let Some(v) = value {
                        updates.push((field.clone(), v));
                        replies.push(OscReply::Ack { field, value: v });
                    }
                },
                OscAction::Error { message } => {
                    replies.push(OscReply::Error { message });
                },
            }
            proof {
                let ms = messages_of(*packet);
                assert(ms =~= seq![m]);
                assert(ms.drop_last() =~= Seq::<(Seq<char>, Option<OscArg<V>>)>::empty());
                assert(update_view(updates@) =~= update_view(u0) + updates_for(m));
                assert(reply_view(replies@) =~= reply_view(r0) + replies_for(m));
                assert(ms.last() == m);
                assert(updates_all(ms.drop_last()) =~= Seq::<(Seq<char>, V)>::empty());
                assert(replies_all(ms.drop_last()) =~= Seq::<OscReplyView<V>>::empty());
                assert(updates_all(ms) =~= updates_for(m));
                assert(replies_all(ms) =~= replies_for(m));
            }
        },
        OscPacketIn::Bundle(ps) => {
            let ghost u0 = updates@;
            let ghost r0 = replies@;
            let mut i: usize = 0;
            assert(ps@.take(0) =~= Seq::<OscPacketIn<V>>::empty());
            while i < ps.len()
                invariant
                    i <= ps@.len(),
                    *packet == OscPacketIn::<V>::Bundle(*ps),
                    update_view(updates@) == update_view(u0) + updates_all(messages_in(ps@.take(i as int))),
                    reply_view(replies@) == reply_view(r0) + replies_all(messages_in(ps@.take(i as int))),
                decreases ps@.len() - i,
            {
                assert(packet->0 == *ps);
                assert(decreases_to!(*packet => packet->0));
                assert(decreases_to!(*packet => *ps));
                assert(decreases_to!(*ps => ps@));
                assert(decreases_to!(ps@ => ps@[i as int]));
                assert(decreases_to!(*packet => ps@[i as int]));
                let ghost before_u = updates@;
                let ghost before_r = replies@;
                handle_osc_packet(&ps[i], updates, replies);
                proof {
                    let t = ps@.take(i + 1);
                    assert(t.drop_last() =~= ps@.take(i as int));
                    assert(t.last() == ps@[i as int]);
                    lemma_all_concat(messages_in(ps@.take(i as int)), messages_of(ps@[i as int]));
                    assert(update_view(updates@) =~= update_view(u0) + updates_all(messages_in(t)));
                    assert(reply_view(replies@) =~= reply_view(r0) + replies_all(messages_in(t)));
                }
                i = i + 1;
            }
            assert(ps@.take(ps@.len() as int) =~= ps@);
        },
    }
}


/// The reply a message's decision calls for.
pub open spec fn expected_reply<V>(m: (Seq<char>, Option<OscArg<V>>)) -> OscReplyView<V> {
    match osc_decision(m.0, arg_kind(m.1)) {
        OscActionView::Pong => OscReplyView::Pong,
        OscActionView::SetField(f) => OscReplyView::Ack(f, arg_value(m.1)->0),
        OscActionView::Error(e) => OscReplyView::Error(e),
    }
}

/// Whether a reply acknowledges a field update.
pub open spec fn is_ack<V>(r: OscReplyView<V>) -> bool {
    r is Ack
}

/// The field and value that an acknowledgement names.
pub open spec fn acked<V>(r: OscReplyView<V>) -> (Seq<char>, V) {
    (r->Ack_0, r->Ack_1)
}

/// Every message gets exactly one reply, in message order: `/pong` for a
/// ping, `/ack` with the field and the numeric argument for a field update,
/// and `/error` with the decision's message for every other message, whatever
/// its address. The enqueued field updates are exactly the acknowledged ones,
/// in order.
pub proof fn law_one_reply_per_message<V>(ms: Seq<(Seq<char>, Option<OscArg<V>>)>)
    ensures
        replies_all(ms).len() == ms.len(),
        forall|i: int| 0 <= i < ms.len() ==> #[trigger] replies_all(ms)[i] == expected_reply(ms[i]),
        forall|i: int|
            0 <= i < ms.len() ==> (osc_decision(ms[i].0, arg_kind(ms[i].1)) is SetField
                ==> arg_value(ms[i].1) is Some),
        updates_all(ms) == replies_all(ms).filter(|r: OscReplyView<V>| is_ack(r)).map_values(
            |r: OscReplyView<V>| acked(r),
        ),
    decreases ms.len(),
{
    reveal(Seq::filter);
    if ms.len() > 0 {
        let init = ms.drop_last();
        let m = ms.last();
        law_one_reply_per_message(init);
        let d = osc_decision(m.0, arg_kind(m.1));
        if d is SetField {
            assert(arg_value(m.1) is Some);
        }
        assert(replies_for(m) =~= seq![expected_reply(m)]);
        let all = replies_all(ms);
        assert(all =~= replies_all(init).push(expected_reply(m)));
        assert forall|i: int| 0 <= i < ms.len() implies #[trigger] replies_all(ms)[i]
            == expected_reply(ms[i]) by {
            if i < init.len() {
                assert(ms[i] == init[i]);
                assert(replies_all(init)[i] == expected_reply(init[i]));
            }
        }
        assert forall|i: int| 0 <= i < ms.len() implies (osc_decision(ms[i].0, arg_kind(ms[i].1)) is SetField
            ==> arg_value(ms[i].1) is Some) by {
            if i < init.len() {
                assert(ms[i] == init[i]);
            }
        }
        assert(all.drop_last() =~= replies_all(init));
        let f = |r: OscReplyView<V>| is_ack(r);
        let g = |r: OscReplyView<V>| acked(r);
        if is_ack(expected_reply(m)) {
            assert(all.filter(f) =~= replies_all(init).filter(f).push(expected_reply(m)));
            assert(all.filter(f).map_values(g) =~= replies_all(init).filter(f).map_values(g).push(
                acked(expected_reply(m)),
            ));
            assert(updates_for(m) =~= seq![acked(expected_reply(m))]);
        } else {
            assert(all.filter(f) =~= replies_all(init).filter(f));
            assert(updates_for(m) =~= Seq::<(Seq<char>, V)>::empty());
        }
        assert(updates_all(ms) =~= updates_all(init) + updates_for(m));
    }
}

/// A bundle of messages is handled message by message in bundle order: the
/// `i`-th message handled is the bundle's `i`-th packet.
pub proof fn law_bundle_order<V>(ps: Seq<OscPacketIn<V>>)
    requires
        forall|i: int| 0 <= i < ps.len() ==> #[trigger] ps[i] is Message,
    ensures
        messages_in(ps).len() == ps.len(),
        forall|i: int|
            0 <= i < ps.len() ==> #[trigger] messages_in(ps)[i] == (
                (ps[i]->Message_addr)@,
                ps[i]->Message_first_arg,
            ),
    decreases ps.len(),
{
    if ps.len() > 0 {
        let init = ps.drop_last();
        assert forall|i: int| 0 <= i < init.len() implies #[trigger] init[i] is Message by {
            assert(init[i] == ps[i]);
        }
        law_bundle_order(init);
        let last = ps.last();
        assert(last is Message);
        let m = ((last->Message_addr)@, last->Message_first_arg);
        match last {
            OscPacketIn::Message { addr, first_arg } => {
                assert(messages_of(last) == seq![(addr@, first_arg)]);
            },
            _ => {},
        }
        assert(messages_of(last) =~= seq![m]);
        assert(messages_in(ps) =~= messages_in(init) + seq![m]);
        assert forall|i: int| 0 <= i < ps.len() implies #[trigger] messages_in(ps)[i] == (
            (ps[i]->Message_addr)@,
            ps[i]->Message_first_arg,
        ) by {
            if i < init.len() {
                assert(init[i] == ps[i]);
                assert(messages_in(init)[i] == ((init[i]->Message_addr)@, init[i]->Message_first_arg));
            }
        }
    }
}

} // verus!
