//! The per-peer session automaton. Each step takes one event and the shared
//! Loc-RIB, moves the state machine, updates the tables, and hands back the
//! outside work to perform: connecting, sending a message, or installing
//! kernel routes. The surrounding shell owns the socket and performs them.

use vstd::prelude::*;

use crate::bgp_type::AutonomousSystemNumber;
use crate::config::Config;
use crate::event::Event;
use crate::event_queue::EventQueue;
use crate::packets::message::Message;
use crate::packets::update::UpdateMessage;
use crate::routing::{
    entry_contains_as, install_list, rib_contains, rib_no_loop, update_for_route, AdjRibIn,
    AdjRibOut, LocRib, RibEntryStatus,
};
use crate::state::{state_rank, State};

verus! {

/// Outside work a step asks for: establish the TCP connection per the
/// configured mode, send one whole message, or install routes into the
/// kernel forwarding table.
#[derive(Debug, PartialEq, Eq)]
pub enum Action {
    EstablishConnection,
    SendMessage(Message),
    InstallRoutes(Vec<(crate::routing::Ipv4Network, crate::bgp_type::Ipv4Addr)>),
}

/// One BGP peer: its session state, pending events, configuration, and the
/// two per-peer tables. The TCP connection and the shared Loc-RIB live with
/// the caller, which performs the returned `Action`s.
#[derive(Debug)]
pub struct Peer {
    pub state: State,
    pub event_queue: EventQueue,
    pub config: Config,
    pub adj_rib_out: AdjRibOut,
    pub adj_rib_in: AdjRibIn,
}

/// The event a decoded inbound message turns into.
pub open spec fn event_of_message(m: Message) -> Event {
    match m {
        Message::Open(open) => Event::BgpOpen(open),
        Message::Keepalive(keepalive) => Event::KeepAliveMsg(keepalive),
        Message::Update(update) => Event::UpdateMsg(update),
    }
}

/// The transition table's state column: where each (state, event) pair
/// leads. Every pair the table does not list stays put.
pub open spec fn next_state(s: State, event: Event) -> State {
    match (s, event) {
        (State::Idle, Event::ManualStart) => State::Connect,
        (State::Connect, Event::TcpConnectionConfirmed) => State::OpenSent,
        (State::OpenSent, Event::BgpOpen(_)) => State::OpenConfirm,
        (State::OpenConfirm, Event::KeepAliveMsg(_)) => State::Established,
        _ => s,
    }
}

/// The session only ever moves forward: no transition lowers the state's
/// rank, since this core tears a failed session down rather than returning
/// it to `Idle`.
pub proof fn lemma_fsm_never_moves_backwards(s: State, event: Event)
    ensures
        state_rank(next_state(s, event)) >= state_rank(s),
{
}

/// Loop avoidance: a well-formed peer's Adj-RIB-Out holds no route whose
/// AS_PATH carries the remote peer's ASN. `Peer::new` establishes
/// well-formedness and every step keeps it, so this holds in every
/// reachable state.
pub proof fn lemma_adj_rib_out_avoids_remote_as(p: Peer, i: int)
    requires
        p.wf(),
        0 <= i < p.adj_rib_out@.len(),
    ensures
        !entry_contains_as(p.adj_rib_out@[i].0, p.config.remote_as),
{
}

/// Inbound loop avoidance: a well-formed peer's Adj-RIB-In holds no route
/// whose AS_PATH carries this speaker's own ASN. `Peer::new` establishes
/// well-formedness and every step keeps it.
pub proof fn lemma_adj_rib_in_avoids_local_as(p: Peer, i: int)
    requires
        p.wf(),
        0 <= i < p.adj_rib_in@.len(),
    ensures
        !entry_contains_as(p.adj_rib_in@[i].0, p.config.local_as),
{
}

/// The OPEN message this speaker sends for its configuration.
pub open spec fn open_for_config(c: Config) -> Message {
    Message::Open(
        crate::packets::open::OpenMessage {
            version: 4,
            my_as_number: c.local_as,
            hold_time: 0,
            bgp_identifier: c.local_ip,
        },
    )
}

/// What rebuilding the outbound table from the Loc-RIB did: the table
/// gained only Loc-RIB routes that do not carry the remote ASN, every such
/// route is in it afterwards, and — exactly when the install produced or
/// found a `New` route — `AdjRibOutChanged` was queued and every status
/// swept to `UnChanged`; otherwise nothing changed at all.
pub open spec fn step_rebuild_out_ok(
    pre: Peer,
    post: Peer,
    pre_queue: Seq<Event>,
    rib: LocRib,
) -> bool {
    &&& post.adj_rib_in == pre.adj_rib_in
    &&& post.adj_rib_out@.len() >= pre.adj_rib_out@.len()
    &&& forall|i: int|
        0 <= i < pre.adj_rib_out@.len() ==> (#[trigger] post.adj_rib_out@[i]).0
            == pre.adj_rib_out@[i].0
    &&& forall|i: int|
        pre.adj_rib_out@.len() <= i < post.adj_rib_out@.len() ==> !entry_contains_as(
            (#[trigger] post.adj_rib_out@[i]).0,
            pre.config.remote_as,
        ) && rib_contains(rib@, post.adj_rib_out@[i].0)
    &&& forall|j: int|
        0 <= j < rib@.len() && !entry_contains_as((#[trigger] rib@[j]).0, pre.config.remote_as)
            ==> rib_contains(post.adj_rib_out@, rib@[j].0)
    &&& ({
        ||| {
            &&& crate::routing::rib_has_new(pre.adj_rib_out@) || post.adj_rib_out@.len()
                > pre.adj_rib_out@.len()
            &&& post.event_queue@ == pre_queue.push(Event::AdjRibOutChanged)
            &&& crate::routing::rib_all_unchanged(post.adj_rib_out@)
        }
        ||| {
            &&& !crate::routing::rib_has_new(pre.adj_rib_out@)
            &&& post.adj_rib_out@ == pre.adj_rib_out@
            &&& post.event_queue@ == pre_queue
        }
    })
}

/// Unless the UPDATE's AS_PATH already carries the local ASN, every route
/// it announced is in the table afterwards, under the UPDATE's attributes.
pub open spec fn update_complete_ok(
    post: crate::routing::RibView,
    attrs: Seq<crate::path_attribute::PathAttributeView>,
    nlri: Seq<crate::routing::Ipv4Network>,
    local_as: AutonomousSystemNumber,
) -> bool {
    !crate::routing::attrs_contain_as(attrs, local_as) ==> forall|j: int|
        0 <= j < nlri.len() ==> rib_contains(
            post,
            crate::routing::RibEntryView {
                network_address: #[trigger] nlri[j],
                path_attributes: attrs,
            },
        )
}

/// What handling an inbound UPDATE in `Established` did: the inbound table
/// gained only routes the UPDATE announced, under the UPDATE's own
/// attributes and never with an AS_PATH carrying the local ASN, and holds
/// all of them unless the UPDATE was looped; exactly when the install
/// produced or found a `New` route, `AdjRibInChanged` was queued and every
/// status swept — otherwise nothing changed at all.
pub open spec fn step_update_msg_ok(
    pre: Peer,
    post: Peer,
    pre_queue: Seq<Event>,
    attrs: Seq<crate::path_attribute::PathAttributeView>,
    nlri: Seq<crate::routing::Ipv4Network>,
) -> bool {
    &&& post.adj_rib_out == pre.adj_rib_out
    &&& crate::routing::rib_prefix_preserved(pre.adj_rib_in@, post.adj_rib_in@)
    &&& forall|i: int|
        pre.adj_rib_in@.len() <= i < post.adj_rib_in@.len()
            ==> crate::routing::entry_from_update(
            (#[trigger] post.adj_rib_in@[i]).0,
            attrs,
            nlri,
            pre.config.local_as,
        )
    &&& update_complete_ok(post.adj_rib_in@, attrs, nlri, pre.config.local_as)
    &&& ({
        ||| {
            &&& crate::routing::rib_has_new(pre.adj_rib_in@) || post.adj_rib_in@.len()
                > pre.adj_rib_in@.len()
            &&& post.event_queue@ == pre_queue.push(Event::AdjRibInChanged)
            &&& crate::routing::rib_all_unchanged(post.adj_rib_in@)
        }
        ||| {
            &&& !crate::routing::rib_has_new(pre.adj_rib_in@)
            &&& post.adj_rib_in@ == pre.adj_rib_in@
            &&& post.event_queue@ == pre_queue
        }
    })
}

/// The actions for `AdjRibOutChanged`: one UPDATE per outbound route, in
/// table order, each re-emitted with the local ASN prepended and the local
/// address as next hop.
pub open spec fn update_actions_ok(pre: Peer, actions: Seq<Action>) -> bool {
    &&& actions.len() == pre.adj_rib_out@.len()
    &&& forall|i: int|
        0 <= i < actions.len() ==> #[trigger] actions[i] == Action::SendMessage(
            Message::Update(actions[i]->SendMessage_0->Update_0),
        ) && actions[i]->SendMessage_0->Update_0@ == update_for_route(
            pre.adj_rib_out@[i].0,
            pre.config.local_as,
            pre.config.local_ip,
        )
}

/// What handling `AdjRibInChanged` did: the Loc-RIB gained only the inbound
/// table's routes and now holds all of them. Exactly when the install
/// produced or found a `New` route, the one `InstallRoutes` action carries
/// every `New` route of the pre-sweep table with its next hop,
/// `LocRibChanged` was queued, and the statuses were swept; otherwise
/// nothing changed at all.
pub open spec fn step_rib_in_changed_ok(
    pre: Peer,
    post: Peer,
    pre_queue: Seq<Event>,
    pre_rib: LocRib,
    post_rib: LocRib,
    actions: Seq<Action>,
) -> bool {
    &&& post.adj_rib_out == pre.adj_rib_out
    &&& post.adj_rib_in == pre.adj_rib_in
    &&& post_rib@.len() >= pre_rib@.len()
    &&& forall|i: int| 0 <= i < pre_rib@.len() ==> (#[trigger] post_rib@[i]).0 == pre_rib@[i].0
    &&& forall|i: int|
        pre_rib@.len() <= i < post_rib@.len() ==> rib_contains(
            pre.adj_rib_in@,
            (#[trigger] post_rib@[i]).0,
        )
    &&& forall|j: int|
        0 <= j < pre.adj_rib_in@.len() ==> rib_contains(
            post_rib@,
            (#[trigger] pre.adj_rib_in@[j]).0,
        )
    &&& ({
        ||| {
            &&& crate::routing::rib_has_new(pre_rib@) || post_rib@.len() > pre_rib@.len()
            &&& post.event_queue@ == pre_queue.push(Event::LocRibChanged)
            &&& actions.len() == 1
            &&& actions[0] is InstallRoutes
            &&& actions[0]->InstallRoutes_0@ == install_list(
                crate::routing::pre_sweep(pre_rib@, post_rib@),
            )
            &&& crate::routing::rib_all_unchanged(post_rib@)
        }
        ||| {
            &&& !crate::routing::rib_has_new(pre_rib@)
            &&& post_rib@ == pre_rib@
            &&& post.event_queue@ == pre_queue
            &&& actions == Seq::<Action>::empty()
        }
    })
}

/// What one dispatched event did, branch by branch of the transition table:
/// the actions handed back, the events queued, and how the three tables
/// changed. `pre_queue` is the event queue at handling time (the caller has
/// already dequeued the event being handled); `pre` supplies every other
/// pre-state field.
pub open spec fn event_step_ok(
    pre: Peer,
    post: Peer,
    pre_queue: Seq<Event>,
    pre_rib: LocRib,
    post_rib: LocRib,
    event: Event,
    actions: Seq<Action>,
) -> bool {
    match (pre.state, event) {
        (State::Idle, Event::ManualStart) => {
            &&& actions == seq![Action::EstablishConnection]
            &&& post.event_queue@ == pre_queue
            &&& post.adj_rib_out == pre.adj_rib_out
            &&& post.adj_rib_in == pre.adj_rib_in
            &&& post_rib == pre_rib
        },
        (State::Connect, Event::TcpConnectionConfirmed) => {
            &&& actions == seq![Action::SendMessage(open_for_config(pre.config))]
            &&& post.event_queue@ == pre_queue
            &&& post.adj_rib_out == pre.adj_rib_out
            &&& post.adj_rib_in == pre.adj_rib_in
            &&& post_rib == pre_rib
        },
        (State::OpenSent, Event::BgpOpen(_)) => {
            &&& actions == seq![
                Action::SendMessage(
                    Message::Keepalive(crate::packets::keepalive::KeepaliveMessage),
                ),
            ]
            &&& post.event_queue@ == pre_queue
            &&& post.adj_rib_out == pre.adj_rib_out
            &&& post.adj_rib_in == pre.adj_rib_in
            &&& post_rib == pre_rib
        },
        (State::OpenConfirm, Event::KeepAliveMsg(_)) => {
            &&& actions == Seq::<Action>::empty()
            &&& post.event_queue@ == pre_queue.push(Event::Established)
            &&& post.adj_rib_out == pre.adj_rib_out
            &&& post.adj_rib_in == pre.adj_rib_in
            &&& post_rib == pre_rib
        },
        (State::Established, Event::Established) | (State::Established, Event::LocRibChanged) => {
            &&& actions == Seq::<Action>::empty()
            &&& post_rib == pre_rib
            &&& step_rebuild_out_ok(pre, post, pre_queue, pre_rib)
        },
        (State::Established, Event::AdjRibOutChanged) => {
            &&& update_actions_ok(pre, actions)
            &&& post.event_queue@ == pre_queue
            &&& post.adj_rib_out == pre.adj_rib_out
            &&& post.adj_rib_in == pre.adj_rib_in
            &&& post_rib == pre_rib
        },
        (State::Established, Event::UpdateMsg(update)) => {
            &&& actions == Seq::<Action>::empty()
            &&& post_rib == pre_rib
            &&& step_update_msg_ok(
                pre,
                post,
                pre_queue,
                update@.path_attributes,
                update@.nlri,
            )
        },
        (State::Established, Event::AdjRibInChanged) => step_rib_in_changed_ok(
            pre,
            post,
            pre_queue,
            pre_rib,
            post_rib,
            actions,
        ),
        _ => {
            &&& actions == Seq::<Action>::empty()
            &&& post.event_queue@ == pre_queue
            &&& post.adj_rib_out == pre.adj_rib_out
            &&& post.adj_rib_in == pre.adj_rib_in
            &&& post_rib == pre_rib
        },
    }
}

impl Peer {
    /// Both tables have unique keys, and neither holds a looped route: the
    /// outbound table none carried through the remote peer's ASN, the
    /// inbound table none carried through this speaker's own ASN.
    pub open spec fn wf(self) -> bool {
        &&& crate::routing::rib_wf(self.adj_rib_out@)
        &&& crate::routing::rib_wf(self.adj_rib_in@)
        &&& rib_no_loop(self.adj_rib_out@, self.config.remote_as)
        &&& rib_no_loop(self.adj_rib_in@, self.config.local_as)
    }

    pub fn new(config: Config) -> (r: Self)
        ensures
            r.state == State::Idle,
            r.event_queue@ == Seq::<Event>::empty(),
            r.config == config,
            r.adj_rib_out@ == Seq::<(crate::routing::RibEntryView, RibEntryStatus)>::empty(),
            r.adj_rib_in@ == Seq::<(crate::routing::RibEntryView, RibEntryStatus)>::empty(),
            r.wf(),
    {
        Peer {
            state: State::Idle,
            event_queue: EventQueue::new(),
            config,
            adj_rib_out: AdjRibOut::new(),
            adj_rib_in: AdjRibIn::new(),
        }
    }

    /// Kicks the automaton off by queueing `ManualStart`.
    pub fn start(&mut self)
        ensures
            final(self).event_queue@ == old(self).event_queue@.push(Event::ManualStart),
            final(self).state == old(self).state,
            final(self).config == old(self).config,
            final(self).adj_rib_out == old(self).adj_rib_out,
            final(self).adj_rib_in == old(self).adj_rib_in,
    {
        self.event_queue.enqueue(Event::ManualStart);
    }

    /// Queues an event from outside: the shell reports a confirmed TCP
    /// connection this way.
    pub fn enqueue_event(&mut self, event: Event)
        ensures
            final(self).event_queue@ == old(self).event_queue@.push(event),
            final(self).state == old(self).state,
            final(self).config == old(self).config,
            final(self).adj_rib_out == old(self).adj_rib_out,
            final(self).adj_rib_in == old(self).adj_rib_in,
    {
        self.event_queue.enqueue(event);
    }

    /// Queues the event a decoded inbound message stands for.
    pub fn handle_message(&mut self, message: Message)
        ensures
            final(self).event_queue@ == old(self).event_queue@.push(event_of_message(message)),
            final(self).state == old(self).state,
            final(self).config == old(self).config,
            final(self).adj_rib_out == old(self).adj_rib_out,
            final(self).adj_rib_in == old(self).adj_rib_in,
    {
        match message {
            Message::Open(open) => self.event_queue.enqueue(Event::BgpOpen(open)),
            Message::Keepalive(keepalive) => self.event_queue.enqueue(
                Event::KeepAliveMsg(keepalive),
            ),
            Message::Update(update) => self.event_queue.enqueue(Event::UpdateMsg(update)),
        }
    }

    /// Rebuilds the outbound table from the Loc-RIB, as the `Established` /
    /// `LocRibChanged` row of the transition table says.
    fn rebuild_adj_rib_out(&mut self, loc_rib: &LocRib)
        requires
            old(self).wf(),
        ensures
            final(self).wf(),
            final(self).state == old(self).state,
            final(self).config == old(self).config,
            step_rebuild_out_ok(*old(self), *final(self), old(self).event_queue@, *loc_rib),
    {
        self.adj_rib_out.install_from_loc_rib(loc_rib, &self.config);
        let ghost mid_out = self.adj_rib_out@;
        proof {
            crate::routing::lemma_has_new_split(old(self).adj_rib_out@, mid_out);
        }
        if self.adj_rib_out.does_contain_new_route() {
            self.event_queue.enqueue(Event::AdjRibOutChanged);
            self.adj_rib_out.update_to_all_changed();
            proof {
                assert forall|j: int|
                    0 <= j < loc_rib@.len() && !entry_contains_as(
                        (#[trigger] loc_rib@[j]).0,
                        self.config.remote_as,
                    ) implies rib_contains(self.adj_rib_out@, loc_rib@[j].0) by {
                    crate::routing::lemma_rib_contains_preserved(
                        mid_out,
                        self.adj_rib_out@,
                        loc_rib@[j].0,
                    );
                }
            }
        } else {
            proof {
                assert(self.adj_rib_out@ =~= old(self).adj_rib_out@);
            }
        }
    }

    /// Installs an inbound UPDATE's routes, as the `Established` /
    /// `UpdateMsg` row says.
    #[verifier::rlimit(100)]
    #[verifier::spinoff_prover]
    fn process_update_msg(&mut self, update: UpdateMessage)
        requires
            old(self).wf(),
        ensures
            final(self).wf(),
            final(self).state == old(self).state,
            final(self).config == old(self).config,
            step_update_msg_ok(
                *old(self),
                *final(self),
                old(self).event_queue@,
                update@.path_attributes,
                update@.nlri,
            ),
    {
        self.adj_rib_in.install_from_update(&update, &self.config);
        let ghost mid_in = self.adj_rib_in@;
        proof {
            crate::routing::lemma_has_new_split(old(self).adj_rib_in@, mid_in);
        }
        if self.adj_rib_in.does_contain_new_route() {
            self.event_queue.enqueue(Event::AdjRibInChanged);
            self.adj_rib_in.update_to_all_changed();
        } else {
            proof {
                assert(self.adj_rib_in@ =~= old(self).adj_rib_in@);
            }
        }
        proof {
            assert forall|i: int|
                old(self).adj_rib_in@.len() <= i < self.adj_rib_in@.len()
                    implies crate::routing::entry_from_update(
                (#[trigger] self.adj_rib_in@[i]).0,
                update@.path_attributes,
                update@.nlri,
                old(self).config.local_as,
            ) by {
                assert(self.adj_rib_in@[i].0 == mid_in[i].0);
                assert(crate::routing::entry_from_update(
                    mid_in[i].0,
                    update@.path_attributes,
                    update@.nlri,
                    old(self).config.local_as,
                )) by {
                    assert(self.config == old(self).config);
                }
            }
            assert forall|i: int|
                0 <= i < self.adj_rib_in@.len() implies !entry_contains_as(
                (#[trigger] self.adj_rib_in@[i]).0,
                self.config.local_as,
            ) by {
                if i < old(self).adj_rib_in@.len() {
                    assert(self.adj_rib_in@[i].0 == old(self).adj_rib_in@[i].0);
                    assert(!entry_contains_as(old(self).adj_rib_in@[i].0, self.config.local_as));
                } else {
                    assert(crate::routing::entry_from_update(
                        self.adj_rib_in@[i].0,
                        update@.path_attributes,
                        update@.nlri,
                        old(self).config.local_as,
                    ));
                }
            }
            assert(update_complete_ok(
                self.adj_rib_in@,
                update@.path_attributes,
                update@.nlri,
                old(self).config.local_as,
            )) by {
                if !crate::routing::attrs_contain_as(
                    update@.path_attributes,
                    old(self).config.local_as,
                ) {
                    assert forall|k: int| 0 <= k < update@.nlri.len() implies rib_contains(
                        self.adj_rib_in@,
                        crate::routing::RibEntryView {
                            network_address: #[trigger] update@.nlri[k],
                            path_attributes: update@.path_attributes,
                        },
                    ) by {
                        crate::routing::lemma_rib_contains_preserved(
                            mid_in,
                            self.adj_rib_in@,
                            crate::routing::RibEntryView {
                                network_address: update@.nlri[k],
                                path_attributes: update@.path_attributes,
                            },
                        );
                    }
                }
            }
        }
    }

    /// One UPDATE per outbound route, wrapped for sending, as the
    /// `Established` / `AdjRibOutChanged` row says.
    fn create_update_actions(&self) -> (r: Vec<Action>)
        ensures
            update_actions_ok(*self, r@),
    {
        let mut actions: Vec<Action> = Vec::new();
        let mut updates: Vec<UpdateMessage> = self.adj_rib_out.create_update_messages(
            self.config.local_ip,
            self.config.local_as,
        );
        let ghost target = updates@;
        let updates_len = updates.len();
        proof {
            assert(target.len() == updates_len);
        }
        let mut k: usize = 0;
        while updates.len() > 0
            invariant
                actions@.len() == k,
                k + updates@.len() == target.len(),
                target.len() <= usize::MAX,
                updates@ == target.skip(k as int),
                forall|j: int|
                    0 <= j < k ==> #[trigger] actions@[j] == Action::SendMessage(
                        Message::Update(target[j]),
                    ),
            decreases updates@.len(),
        {
            let u = updates.remove(0);
            proof {
                assert(u == target[k as int]);
                assert(updates@ =~= target.skip(k as int + 1));
            }
            actions.push(Action::SendMessage(Message::Update(u)));
            k = k + 1;
        }
        actions
    }

    /// Copies the inbound table into the Loc-RIB and hands out the kernel
    /// installs, as the `Established` / `AdjRibInChanged` row says.
    fn process_adj_rib_in_changed(&mut self, loc_rib: &mut LocRib) -> (r: Vec<Action>)
        requires
            old(self).wf(),
        ensures
            final(self).wf(),
            final(self).state == old(self).state,
            final(self).config == old(self).config,
            old(loc_rib).wf() ==> final(loc_rib).wf(),
            final(loc_rib).local_as() == old(loc_rib).local_as(),
            step_rib_in_changed_ok(
                *old(self),
                *final(self),
                old(self).event_queue@,
                *old(loc_rib),
                *final(loc_rib),
                r@,
            ),
    {
        let mut actions: Vec<Action> = Vec::new();
        loc_rib.install_from_adj_rib_in(&self.adj_rib_in);
        let ghost mid = loc_rib@;
        proof {
            crate::routing::lemma_has_new_split(old(loc_rib)@, mid);
        }
        if loc_rib.does_contain_new_route() {
            let routes = loc_rib.routes_to_install();
            actions.push(Action::InstallRoutes(routes));
            self.event_queue.enqueue(Event::LocRibChanged);
            loc_rib.update_to_all_changed();
            proof {
                assert forall|i: int|
                    0 <= i < mid.len() implies mid[i] == #[trigger] crate::routing::pre_sweep(
                    old(loc_rib)@,
                    loc_rib@,
                )[i] by {
                    assert(loc_rib@[i].0 == mid[i].0);
                    if i < old(loc_rib)@.len() {
                        assert(mid[i] == old(loc_rib)@[i]);
                    }
                }
                assert(mid =~= crate::routing::pre_sweep(old(loc_rib)@, loc_rib@));
                assert(actions@[0]->InstallRoutes_0@ == install_list(mid));
                assert forall|j: int| 0 <= j < self.adj_rib_in@.len() implies rib_contains(
                    loc_rib@,
                    (#[trigger] self.adj_rib_in@[j]).0,
                ) by {
                    crate::routing::lemma_rib_contains_preserved(
                        mid,
                        loc_rib@,
                        self.adj_rib_in@[j].0,
                    );
                }
            }
        } else {
            proof {
                assert(loc_rib@ =~= old(loc_rib)@);
            }
        }
        actions
    }

    /// Dispatches one event: moves the state as `next_state` says and does
    /// the table work of the transition table's action column, handing the
    /// outside work back as `Action`s. `loc_rib` is the shared Loc-RIB,
    /// which the caller holds locked for the duration of the call.
    pub fn handle_event(&mut self, event: Event, loc_rib: &mut LocRib) -> (r: Vec<Action>)
        requires
            old(self).wf(),
        ensures
            final(self).state == next_state(old(self).state, event),
            final(self).config == old(self).config,
            final(self).wf(),
            old(loc_rib).wf() ==> final(loc_rib).wf(),
            final(loc_rib).local_as() == old(loc_rib).local_as(),
            event_step_ok(
                *old(self),
                *final(self),
                old(self).event_queue@,
                *old(loc_rib),
                *final(loc_rib),
                event,
                r@,
            ),
    {
        let mut actions: Vec<Action> = Vec::new();
        match (&self.state, event) {
            (State::Idle, Event::ManualStart) => {
                actions.push(Action::EstablishConnection);
                self.state = State::Connect;
                proof {
                    assert(actions@ =~= seq![Action::EstablishConnection]);
                }
            },
            (State::Connect, Event::TcpConnectionConfirmed) => {
                let open = Message::new_open(self.config.local_as, self.config.local_ip);
                actions.push(Action::SendMessage(open));
                self.state = State::OpenSent;
                proof {
                    assert(actions@ =~= seq![
                        Action::SendMessage(open_for_config(old(self).config)),
                    ]);
                }
            },
            (State::OpenSent, Event::BgpOpen(_)) => {
                actions.push(Action::SendMessage(Message::new_keepalive()));
                self.state = State::OpenConfirm;
                proof {
                    assert(actions@ =~= seq![
                        Action::SendMessage(
                            Message::Keepalive(crate::packets::keepalive::KeepaliveMessage),
                        ),
                    ]);
                }
            },
            (State::OpenConfirm, Event::KeepAliveMsg(_)) => {
                self.state = State::Established;
                self.event_queue.enqueue(Event::Established);
            },
            (State::Established, Event::Established) | (
                State::Established,
                Event::LocRibChanged,
            ) => {
                self.rebuild_adj_rib_out(loc_rib);
            },
            (State::Established, Event::AdjRibOutChanged) => {
                actions = self.create_update_actions();
            },
            (State::Established, Event::UpdateMsg(update)) => {
                self.process_update_msg(update);
            },
            (State::Established, Event::AdjRibInChanged) => {
                actions = self.process_adj_rib_in_changed(loc_rib);
            },
            _ => {},
        }
        actions
    }

    /// One cooperative step: dequeues at most one event and dispatches it.
    /// The caller separately reads at most one message from the connection
    /// and hands it to `handle_message`.
    #[verifier::rlimit(100)]
    pub fn next(&mut self, loc_rib: &mut LocRib) -> (r: Vec<Action>)
        requires
            old(self).wf(),
        ensures
            final(self).config == old(self).config,
            final(self).wf(),
            old(loc_rib).wf() ==> final(loc_rib).wf(),
            final(loc_rib).local_as() == old(loc_rib).local_as(),
            old(self).event_queue@.len() == 0 ==> ({
                &&& final(self).state == old(self).state
                &&& final(self).event_queue@ == old(self).event_queue@
                &&& final(self).adj_rib_out == old(self).adj_rib_out
                &&& final(self).adj_rib_in == old(self).adj_rib_in
                &&& *final(loc_rib) == *old(loc_rib)
                &&& r@ == Seq::<Action>::empty()
            }),
            old(self).event_queue@.len() > 0 ==> final(self).state == next_state(
                old(self).state,
                old(self).event_queue@[0],
            ) && event_step_ok(
                *old(self),
                *final(self),
                old(self).event_queue@.skip(1),
                *old(loc_rib),
                *final(loc_rib),
                old(self).event_queue@[0],
                r@,
            ),
    {
        match self.event_queue.dequeue() {
            Some(event) => self.handle_event(event, loc_rib),
            None => Vec::new(),
        }
    }
}

} // verus!
