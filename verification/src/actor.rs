//! The simulation actor: the single authoritative owner of all player state.
//!
//! The actor consumes a totally ordered stream of [`Request`]s and answers
//! with directed replies ([`Outbound`] values, each naming the session it is
//! for).  Its whole behaviour is the pure state machine [`spec_step`] over
//! the registry view: the executable [`SimulationActor`] is proved to follow
//! it step for step, and the laws at the end of this file are proved of it.
//!
//! Delivery itself (the per-session reply queues and their draining) is the
//! surrounding process's concern; the actor's output sequence fixes both the
//! recipients and the per-recipient order.

use vstd::prelude::*;
use crate::messages::{
    ClientMsgView, ClientToServerMessage, Position, ServerMsgView, ServerToClientMessage,
    spec_initial_pos, initial_player_pos,
};

verus! {

/// A request travelling from a session loop to the actor.  `Connect` carries
/// no channel: the reply route is implied by the id, which the surrounding
/// process maps to the session's inbox.
pub enum Request {
    Connect(String),
    Player(String, ClientToServerMessage),
    Disconnect(String),
}

/// Ghost view of [`Request`]: ids become `Seq<char>`.
pub ghost enum RequestView {
    Connect(Seq<char>),
    Player(Seq<char>, ClientMsgView),
    Disconnect(Seq<char>),
}

impl View for Request {
    type V = RequestView;

    open spec fn view(&self) -> RequestView {
        match self {
            Request::Connect(id) => RequestView::Connect(id@),
            Request::Player(id, m) => RequestView::Player(id@, m@),
            Request::Disconnect(id) => RequestView::Disconnect(id@),
        }
    }
}

/// A reply directed at one session's inbox.
pub struct Outbound {
    pub to: String,
    pub msg: ServerToClientMessage,
}

/// Ghost view of [`Outbound`].
pub ghost struct OutboundView {
    pub to: Seq<char>,
    pub msg: ServerMsgView,
}

impl View for Outbound {
    type V = OutboundView;

    open spec fn view(&self) -> OutboundView {
        OutboundView { to: self.to@, msg: self.msg@ }
    }
}

impl DeepView for Outbound {
    type V = OutboundView;

    open spec fn deep_view(&self) -> OutboundView {
        self@
    }
}

/// One registered player: its id and its current position.
pub struct PlayerData {
    pub id: String,
    pub pos: Position,
}

/// Ghost view of [`PlayerData`].
pub ghost struct PlayerView {
    pub id: Seq<char>,
    pub pos: Position,
}

impl View for PlayerData {
    type V = PlayerView;

    open spec fn view(&self) -> PlayerView {
        PlayerView { id: self.id@, pos: self.pos }
    }
}

impl DeepView for PlayerData {
    type V = PlayerView;

    open spec fn deep_view(&self) -> PlayerView {
        self@
    }
}

// ---------------------------------------------------------------------------
// The registry and its state machine, at the spec level
// ---------------------------------------------------------------------------

/// Whether some registered player carries this id.
pub open spec fn reg_contains(reg: Seq<PlayerView>, id: Seq<char>) -> bool {
    exists|i: int| 0 <= i < reg.len() && reg[i].id == id
}

/// The index of the player carrying this id.
pub open spec fn reg_index_of(reg: Seq<PlayerView>, id: Seq<char>) -> int {
    choose|i: int| 0 <= i < reg.len() && reg[i].id == id
}

/// No two registered players share an id.
pub open spec fn reg_distinct(reg: Seq<PlayerView>) -> bool {
    forall|i: int, j: int| 0 <= i < j < reg.len() ==> reg[i].id != reg[j].id
}

/// The registry with the position of `id` overwritten.
pub open spec fn reg_update(reg: Seq<PlayerView>, id: Seq<char>, pos: Position) -> Seq<
    PlayerView,
> {
    Seq::new(
        reg.len(),
        |i: int|
            if reg[i].id == id {
                PlayerView { id: reg[i].id, pos }
            } else {
                reg[i]
            },
    )
}

/// One copy of `msg` for every registered session, in registry order.
pub open spec fn broadcast_msgs(reg: Seq<PlayerView>, msg: ServerMsgView) -> Seq<OutboundView> {
    Seq::new(reg.len(), |i: int| OutboundView { to: reg[i].id, msg })
}

/// The world snapshot sent to a newly connected session: one `UpdatePlayer`
/// per already-registered player, in registry order.
pub open spec fn snapshot_msgs(reg: Seq<PlayerView>, to: Seq<char>) -> Seq<OutboundView> {
    Seq::new(
        reg.len(),
        |i: int|
            OutboundView {
                to,
                msg: ServerMsgView::UpdatePlayer { id: reg[i].id, pos: reg[i].pos },
            },
    )
}

/// Connect: rejected if the id is already present.  Otherwise the new session
/// first gets `Initialize`, then the world snapshot; the id is registered at
/// the starting position; and everyone (the new session included) gets the
/// newcomer's `UpdatePlayer`.
pub open spec fn spec_connect(reg: Seq<PlayerView>, id: Seq<char>) -> (Seq<PlayerView>, Seq<
    OutboundView,
>) {
    if reg_contains(reg, id) {
        (reg, Seq::empty())
    } else {
        let reg2 = reg.push(PlayerView { id, pos: spec_initial_pos() });
        (
            reg2,
            seq![OutboundView { to: id, msg: ServerMsgView::Initialize { id } }]
                + snapshot_msgs(reg, id) + broadcast_msgs(
                reg2,
                ServerMsgView::UpdatePlayer { id, pos: spec_initial_pos() },
            ),
        )
    }
}

/// Chat: a registered sender's line is echoed to every registered session,
/// the sender included; a stale id (already disconnected) is dropped silently.
pub open spec fn spec_chat(reg: Seq<PlayerView>, id: Seq<char>, text: Seq<char>) -> (Seq<
    PlayerView,
>, Seq<OutboundView>) {
    if reg_contains(reg, id) {
        (reg, broadcast_msgs(reg, ServerMsgView::Chat { id, text }))
    } else {
        (reg, Seq::empty())
    }
}

/// Move: a registered id's position is overwritten verbatim and announced to
/// every registered session; an unregistered id changes nothing.
pub open spec fn spec_move(reg: Seq<PlayerView>, id: Seq<char>, pos: Position) -> (Seq<
    PlayerView,
>, Seq<OutboundView>) {
    if reg_contains(reg, id) {
        let reg2 = reg_update(reg, id, pos);
        (reg2, broadcast_msgs(reg2, ServerMsgView::UpdatePlayer { id, pos }))
    } else {
        (reg, Seq::empty())
    }
}

/// Disconnect: a registered id is removed and the remaining sessions are told;
/// a duplicate disconnect changes nothing and tells nobody.
pub open spec fn spec_disconnect(reg: Seq<PlayerView>, id: Seq<char>) -> (Seq<PlayerView>, Seq<
    OutboundView,
>) {
    if reg_contains(reg, id) {
        let reg2 = reg.remove(reg_index_of(reg, id));
        (reg2, broadcast_msgs(reg2, ServerMsgView::DeletePlayer { id }))
    } else {
        (reg, Seq::empty())
    }
}

/// One actor step: the next registry and the directed replies it emits.
pub open spec fn spec_step(reg: Seq<PlayerView>, req: RequestView) -> (Seq<PlayerView>, Seq<
    OutboundView,
>) {
    match req {
        RequestView::Connect(id) => spec_connect(reg, id),
        RequestView::Player(id, ClientMsgView::Chat { text }) => spec_chat(reg, id, text),
        RequestView::Player(id, ClientMsgView::MoveTo { pos }) => spec_move(reg, id, pos),
        RequestView::Disconnect(id) => spec_disconnect(reg, id),
    }
}

// ---------------------------------------------------------------------------
// The executable actor
// ---------------------------------------------------------------------------

/// The single-threaded owner of the session registry and every player's
/// position.  Exactly one worker drives it; no other code touches its state.
pub struct SimulationActor {
    players: Vec<PlayerData>,
}

impl View for SimulationActor {
    type V = Seq<PlayerView>;

    closed spec fn view(&self) -> Seq<PlayerView> {
        self.players.deep_view()
    }
}

impl SimulationActor {
    /// Registered ids are pairwise distinct.
    pub open spec fn wf(&self) -> bool {
        reg_distinct(self@)
    }

    /// A fresh actor with an empty registry.
    pub fn new() -> (a: SimulationActor)
        ensures
            a@ == Seq::<PlayerView>::empty(),
            a.wf(),
    {
        let a = SimulationActor { players: Vec::new() };
        proof {
            assert(a@ =~= Seq::<PlayerView>::empty());
        }
        a
    }

    /// How many sessions are registered.
    pub fn len(&self) -> (n: usize)
        ensures
            n == self@.len(),
    {
        self.players.len()
    }

    /// The stored position of a registered id, `None` for an absent one.
    pub fn position_of(&self, id: &String) -> (r: Option<Position>)
        requires
            self.wf(),
        ensures
            match r {
                Some(p) => reg_contains(self@, id@) && p == self@[reg_index_of(self@, id@)].pos,
                None => !reg_contains(self@, id@),
            },
    {
        match self.find_index(id) {
            Some(i) => {
                proof {
                    assert(reg_index_of(self@, id@) == i as int);
                }
                Some(self.players[i].pos)
            },
            None => None,
        }
    }

    fn find_index(&self, id: &String) -> (r: Option<usize>)
        ensures
            match r {
                Some(i) => i < self@.len() && self@[i as int].id == id@,
                None => !reg_contains(self@, id@),
            },
    {
        let mut i: usize = 0;
        while i < self.players.len()
            invariant
                i <= self.players.len(),
                forall|j: int| 0 <= j < i ==> self@[j].id != id@,
            decreases self.players.len() - i,
        {
            if self.players[i].id == *id {
                return Some(i);
            }
            i = i + 1;
        }
        None
    }

    /// Appends one copy of `msg` for every registered session, in registry
    /// order.
    fn push_broadcast(&self, msg: &ServerToClientMessage, out: &mut Vec<Outbound>)
        ensures
            final(out).deep_view() == old(out).deep_view() + broadcast_msgs(self@, msg@),
    {
        let mut i: usize = 0;
        while i < self.players.len()
            invariant
                i <= self.players.len(),
                out.deep_view() == old(out).deep_view() + broadcast_msgs(self@, msg@).take(
                    i as int,
                ),
            decreases self.players.len() - i,
        {
            let ghost pre = out.deep_view();
            out.push(Outbound { to: self.players[i].id.clone(), msg: msg.clone() });
            proof {
                assert(out.deep_view() =~= pre.push(out@[pre.len() as int]@));
                assert(broadcast_msgs(self@, msg@).take(i + 1) =~= broadcast_msgs(
                    self@,
                    msg@,
                ).take(i as int).push(broadcast_msgs(self@, msg@)[i as int]));
                assert(out.deep_view() =~= old(out).deep_view() + broadcast_msgs(
                    self@,
                    msg@,
                ).take(i + 1));
            }
            i = i + 1;
        }
        proof {
            assert(broadcast_msgs(self@, msg@).take(self@.len() as int) =~= broadcast_msgs(
                self@,
                msg@,
            ));
        }
    }

    /// Connect: see [`spec_connect`].
    pub fn handle_connect(&mut self, id: String) -> (out: Vec<Outbound>)
        requires
            old(self).wf(),
        ensures
            final(self).wf(),
            final(self)@ == spec_connect(old(self)@, id@).0,
            out.deep_view() == spec_connect(old(self)@, id@).1,
    {
        let mut out: Vec<Outbound> = Vec::new();
        if self.find_index(&id).is_some() {
            proof {
                assert(out.deep_view() =~= spec_connect(self@, id@).1);
            }
            return out;
        }
        let ghost reg0 = self@;
        out.push(Outbound { to: id.clone(), msg: ServerToClientMessage::Initialize { id: id.clone() } });
        proof {
            assert(out.deep_view() =~= seq![
                OutboundView { to: id@, msg: ServerMsgView::Initialize { id: id@ } },
            ] + snapshot_msgs(reg0, id@).take(0));
        }
        let mut i: usize = 0;
        while i < self.players.len()
            invariant
                i <= self.players.len(),
                self@ == reg0,
                out.deep_view() == seq![
                    OutboundView { to: id@, msg: ServerMsgView::Initialize { id: id@ } },
                ] + snapshot_msgs(reg0, id@).take(i as int),
            decreases self.players.len() - i,
        {
            let ghost pre = out.deep_view();
            out.push(
                Outbound {
                    to: id.clone(),
                    msg: ServerToClientMessage::UpdatePlayer {
                        id: self.players[i].id.clone(),
                        pos: self.players[i].pos,
                    },
                },
            );
            proof {
                assert(out.deep_view() =~= pre.push(out@[pre.len() as int]@));
                assert(snapshot_msgs(reg0, id@).take(i + 1) =~= snapshot_msgs(reg0, id@).take(
                    i as int,
                ).push(snapshot_msgs(reg0, id@)[i as int]));
                assert(out.deep_view() =~= seq![
                    OutboundView { to: id@, msg: ServerMsgView::Initialize { id: id@ } },
                ] + snapshot_msgs(reg0, id@).take(i + 1));
            }
            i = i + 1;
        }
        proof {
            assert(snapshot_msgs(reg0, id@).take(reg0.len() as int) =~= snapshot_msgs(reg0, id@));
        }
        self.players.push(PlayerData { id: id.clone(), pos: initial_player_pos() });
        proof {
            assert(self@ =~= reg0.push(PlayerView { id: id@, pos: spec_initial_pos() }));
        }
        let ghost pre = out.deep_view();
        self.push_broadcast(
            &ServerToClientMessage::UpdatePlayer { id: id, pos: initial_player_pos() },
            &mut out,
        );
        proof {
            assert(out.deep_view() =~= spec_connect(reg0, id@).1);
        }
        out
    }

    /// Chat: see [`spec_chat`].
    pub fn handle_chat(&mut self, id: String, text: String) -> (out: Vec<Outbound>)
        requires
            old(self).wf(),
        ensures
            final(self).wf(),
            final(self)@ == spec_chat(old(self)@, id@, text@).0,
            out.deep_view() == spec_chat(old(self)@, id@, text@).1,
    {
        let mut out: Vec<Outbound> = Vec::new();
        if self.find_index(&id).is_none() {
            proof {
                assert(out.deep_view() =~= spec_chat(self@, id@, text@).1);
            }
            return out;
        }
        self.push_broadcast(&ServerToClientMessage::Chat { id, text }, &mut out);
        proof {
            assert(Seq::<OutboundView>::empty() + broadcast_msgs(
                self@,
                ServerMsgView::Chat { id: id@, text: text@ },
            ) =~= broadcast_msgs(self@, ServerMsgView::Chat { id: id@, text: text@ }));
        }
        out
    }

    /// Move: see [`spec_move`].
    pub fn handle_move(&mut self, id: String, pos: Position) -> (out: Vec<Outbound>)
        requires
            old(self).wf(),
        ensures
            final(self).wf(),
            final(self)@ == spec_move(old(self)@, id@, pos).0,
            out.deep_view() == spec_move(old(self)@, id@, pos).1,
    {
        let mut out: Vec<Outbound> = Vec::new();
        let idx = match self.find_index(&id) {
            Some(i) => i,
            None => {
                proof {
                    assert(out.deep_view() =~= spec_move(self@, id@, pos).1);
                }
                return out;
            },
        };
        let ghost reg0 = self@;
        self.players[idx].pos = pos;
        proof {
            assert(self@ =~= reg_update(reg0, id@, pos));
        }
        self.push_broadcast(&ServerToClientMessage::UpdatePlayer { id, pos }, &mut out);
        proof {
            assert(Seq::<OutboundView>::empty() + broadcast_msgs(
                self@,
                ServerMsgView::UpdatePlayer { id: id@, pos },
            ) =~= broadcast_msgs(self@, ServerMsgView::UpdatePlayer { id: id@, pos }));
        }
        out
    }

    /// Disconnect: see [`spec_disconnect`].
    pub fn handle_disconnect(&mut self, id: String) -> (out: Vec<Outbound>)
        requires
            old(self).wf(),
        ensures
            final(self).wf(),
            final(self)@ == spec_disconnect(old(self)@, id@).0,
            out.deep_view() == spec_disconnect(old(self)@, id@).1,
    {
        let mut out: Vec<Outbound> = Vec::new();
        let idx = match self.find_index(&id) {
            Some(i) => i,
            None => {
                proof {
                    assert(out.deep_view() =~= spec_disconnect(self@, id@).1);
                }
                return out;
            },
        };
        let ghost reg0 = self@;
        proof {
            assert(reg_index_of(reg0, id@) == idx as int);
        }
        self.players.remove(idx);
        proof {
            assert(self@ =~= reg0.remove(idx as int));
        }
        self.push_broadcast(&ServerToClientMessage::DeletePlayer { id }, &mut out);
        proof {
            assert(Seq::<OutboundView>::empty() + broadcast_msgs(
                self@,
                ServerMsgView::DeletePlayer { id: id@ },
            ) =~= broadcast_msgs(self@, ServerMsgView::DeletePlayer { id: id@ }));
        }
        out
    }

    /// Processes one request: the actor follows [`spec_step`] exactly.
    pub fn handle_request(&mut self, req: Request) -> (out: Vec<Outbound>)
        requires
            old(self).wf(),
        ensures
            final(self).wf(),
            final(self)@ == spec_step(old(self)@, req@).0,
            out.deep_view() == spec_step(old(self)@, req@).1,
    {
        match req {
            Request::Connect(id) => self.handle_connect(id),
            Request::Player(id, ClientToServerMessage::Chat { text }) => self.handle_chat(
                id,
                text,
            ),
            Request::Player(id, ClientToServerMessage::MoveTo { pos }) => self.handle_move(
                id,
                pos,
            ),
            Request::Disconnect(id) => self.handle_disconnect(id),
        }
    }
}

// ---------------------------------------------------------------------------
// Laws of the actor
// ---------------------------------------------------------------------------

/// The registry after a whole request stream, processed in arrival order.
pub open spec fn run_steps(reg: Seq<PlayerView>, reqs: Seq<RequestView>) -> Seq<PlayerView>
    decreases reqs.len(),
{
    if reqs.len() == 0 {
        reg
    } else {
        run_steps(spec_step(reg, reqs[0]).0, reqs.drop_first())
    }
}

/// How many Connects of the stream take effect, i.e. arrive while their id
/// is absent.  A Connect for a present id is rejected and counts nothing.
pub open spec fn effective_connects(reg: Seq<PlayerView>, reqs: Seq<RequestView>) -> nat
    decreases reqs.len(),
{
    if reqs.len() == 0 {
        0
    } else {
        let here: nat = if reqs[0] matches RequestView::Connect(id) && !reg_contains(reg, id) {
            1
        } else {
            0
        };
        here + effective_connects(spec_step(reg, reqs[0]).0, reqs.drop_first())
    }
}

/// How many Disconnects of the stream take effect, i.e. arrive while their id
/// is present.  A duplicate Disconnect counts nothing.
pub open spec fn effective_disconnects(reg: Seq<PlayerView>, reqs: Seq<RequestView>) -> nat
    decreases reqs.len(),
{
    if reqs.len() == 0 {
        0
    } else {
        let here: nat = if reqs[0] matches RequestView::Disconnect(id) && reg_contains(reg, id) {
            1
        } else {
            0
        };
        here + effective_disconnects(spec_step(reg, reqs[0]).0, reqs.drop_first())
    }
}

/// Law: after any request stream the registry's size is the starting size
/// plus the effective Connects minus the effective Disconnects — in
/// particular it can never go negative, and no id is ever counted twice,
/// because a Connect for a present id and a Disconnect for an absent id
/// change nothing.
pub proof fn lemma_registry_count(reg: Seq<PlayerView>, reqs: Seq<RequestView>)
    ensures
        run_steps(reg, reqs).len() + effective_disconnects(reg, reqs) == reg.len()
            + effective_connects(reg, reqs),
    decreases reqs.len(),
{
    if reqs.len() == 0 {
    } else {
        let reg1 = spec_step(reg, reqs[0]).0;
        match reqs[0] {
            RequestView::Connect(id) => {
                if reg_contains(reg, id) {
                    assert(reg1 == reg);
                } else {
                    assert(reg1.len() == reg.len() + 1);
                }
            },
            RequestView::Player(id, m) => {
                assert(reg1.len() == reg.len());
            },
            RequestView::Disconnect(id) => {
                if reg_contains(reg, id) {
                    let k = reg_index_of(reg, id);
                    assert(0 <= k < reg.len() && reg[k].id == id);
                    assert(reg1.len() == reg.len() - 1);
                } else {
                    assert(reg1 == reg);
                }
            },
        }
        lemma_registry_count(reg1, reqs.drop_first());
    }
}

/// Law: distinctness of registered ids survives any whole request stream.
pub proof fn lemma_run_steps_preserves_distinct(reg: Seq<PlayerView>, reqs: Seq<RequestView>)
    requires
        reg_distinct(reg),
    ensures
        reg_distinct(run_steps(reg, reqs)),
    decreases reqs.len(),
{
    if reqs.len() > 0 {
        lemma_step_preserves_distinct(reg, reqs[0]);
        lemma_run_steps_preserves_distinct(spec_step(reg, reqs[0]).0, reqs.drop_first());
    }
}

/// Law: a chat from a registered sender changes no state, and every
/// registered session — the sender included — receives exactly one
/// `Chat(id, text)`, in registry order.
pub proof fn lemma_chat_broadcast(reg: Seq<PlayerView>, id: Seq<char>, text: Seq<char>)
    requires
        reg_distinct(reg),
        reg_contains(reg, id),
    ensures
        spec_chat(reg, id, text).0 == reg,
        spec_chat(reg, id, text).1.len() == reg.len(),
        forall|i: int|
            0 <= i < reg.len() ==> #[trigger] spec_chat(reg, id, text).1[i] == (OutboundView {
                to: reg[i].id,
                msg: ServerMsgView::Chat { id, text },
            }),
        forall|i: int, j: int|
            0 <= i < j < reg.len() ==> #[trigger] spec_chat(reg, id, text).1[i].to != #[trigger] spec_chat(
                reg,
                id,
                text,
            ).1[j].to,
{
}

/// Law: a move for an unregistered id mutates no state and broadcasts
/// nothing.
pub proof fn lemma_move_unregistered_noop(reg: Seq<PlayerView>, id: Seq<char>, pos: Position)
    requires
        !reg_contains(reg, id),
    ensures
        spec_move(reg, id, pos).0 == reg,
        spec_move(reg, id, pos).1 == Seq::<OutboundView>::empty(),
{
}

/// Law: on a fresh connect the new session's stream opens with
/// `Initialize(id)`, before any `UpdatePlayer`; the snapshot that follows
/// holds exactly one `UpdatePlayer` per already-registered player; and the id
/// joins the registry at the starting position.
pub proof fn lemma_connect_snapshot(reg: Seq<PlayerView>, id: Seq<char>)
    requires
        reg_distinct(reg),
        !reg_contains(reg, id),
    ensures
        spec_connect(reg, id).0 == reg.push(PlayerView { id, pos: spec_initial_pos() }),
        spec_connect(reg, id).1.len() == 2 * reg.len() + 2,
        spec_connect(reg, id).1[0] == (OutboundView {
            to: id,
            msg: ServerMsgView::Initialize { id },
        }),
        forall|i: int|
            1 <= i <= reg.len() ==> #[trigger] spec_connect(reg, id).1[i] == (OutboundView {
                to: id,
                msg: ServerMsgView::UpdatePlayer { id: reg[i - 1].id, pos: reg[i - 1].pos },
            }),
        forall|i: int, j: int|
            1 <= i < j <= reg.len() ==> #[trigger] spec_connect(reg, id).1[i].msg != #[trigger] spec_connect(
                reg,
                id,
            ).1[j].msg,
{
    let out = spec_connect(reg, id).1;
    assert forall|i: int| 1 <= i <= reg.len() implies #[trigger] out[i] == (OutboundView {
        to: id,
        msg: ServerMsgView::UpdatePlayer { id: reg[i - 1].id, pos: reg[i - 1].pos },
    }) by {
        assert(out[i] == snapshot_msgs(reg, id)[i - 1]);
    }
}

/// Law: a step keeps registered ids pairwise distinct, so the registry never
/// holds one id twice.
pub proof fn lemma_step_preserves_distinct(reg: Seq<PlayerView>, req: RequestView)
    requires
        reg_distinct(reg),
    ensures
        reg_distinct(spec_step(reg, req).0),
{
    let reg1 = spec_step(reg, req).0;
    match req {
        RequestView::Connect(id) => {
            if !reg_contains(reg, id) {
                assert forall|i: int, j: int| 0 <= i < j < reg1.len() implies reg1[i].id
                    != reg1[j].id by {
                    if j == reg.len() {
                        assert(reg1[i] == reg[i]);
                    }
                }
            }
        },
        RequestView::Player(id, m) => {
            assert forall|i: int, j: int| 0 <= i < j < reg1.len() implies reg1[i].id
                != reg1[j].id by {
                assert(reg1[i].id == reg[i].id && reg1[j].id == reg[j].id);
            }
        },
        RequestView::Disconnect(id) => {
            if reg_contains(reg, id) {
                let k = reg_index_of(reg, id);
                assert(0 <= k < reg.len() && reg[k].id == id);
                assert forall|i: int, j: int| 0 <= i < j < reg1.len() implies reg1[i].id
                    != reg1[j].id by {
                    assert(reg1[i] == (if i < k {
                        reg[i]
                    } else {
                        reg[i + 1]
                    }));
                    assert(reg1[j] == (if j < k {
                        reg[j]
                    } else {
                        reg[j + 1]
                    }));
                }
            }
        },
    }
}

/// Law: every reply of a step is addressed to a session that is registered
/// the moment it is sent (in the registry the step leaves behind) — nobody is
/// ever written to after their own disconnect has been processed.
pub proof fn lemma_step_recipients_registered(reg: Seq<PlayerView>, req: RequestView)
    ensures
        forall|i: int|
            0 <= i < spec_step(reg, req).1.len() ==> reg_contains(
                spec_step(reg, req).0,
                #[trigger] spec_step(reg, req).1[i].to,
            ),
{
    let (reg1, out) = spec_step(reg, req);
    match req {
        RequestView::Connect(id) => {
            if !reg_contains(reg, id) {
                assert(reg1[reg.len() as int].id == id);
                assert(reg_contains(reg1, id));
                assert forall|i: int| 0 <= i < out.len() implies reg_contains(
                    reg1,
                    #[trigger] out[i].to,
                ) by {
                    if i < 1 + reg.len() {
                        assert(out[i].to == id);
                    } else {
                        let k = i - 1 - reg.len();
                        assert(out[i] == broadcast_msgs(
                            reg1,
                            ServerMsgView::UpdatePlayer { id, pos: spec_initial_pos() },
                        )[k]);
                        assert(reg1[k].id == out[i].to);
                    }
                }
            }
        },
        RequestView::Player(id, m) => {
            assert forall|i: int| 0 <= i < out.len() implies reg_contains(
                reg1,
                #[trigger] out[i].to,
            ) by {
                assert(reg1[i].id == out[i].to);
            }
        },
        RequestView::Disconnect(id) => {
            assert forall|i: int| 0 <= i < out.len() implies reg_contains(
                reg1,
                #[trigger] out[i].to,
            ) by {
                assert(reg1[i].id == out[i].to);
            }
        },
    }
}

/// Law: disconnecting an id leaves it absent, so a duplicate Disconnect for
/// the same id changes nothing and broadcasts no second `DeletePlayer`.
pub proof fn lemma_disconnect_idempotent(reg: Seq<PlayerView>, id: Seq<char>)
    requires
        reg_distinct(reg),
    ensures
        !reg_contains(spec_disconnect(reg, id).0, id),
        spec_disconnect(spec_disconnect(reg, id).0, id).0 == spec_disconnect(reg, id).0,
        spec_disconnect(spec_disconnect(reg, id).0, id).1 == Seq::<OutboundView>::empty(),
{
    if reg_contains(reg, id) {
        let k = reg_index_of(reg, id);
        assert(0 <= k < reg.len() && reg[k].id == id);
        let reg1 = reg.remove(k);
        assert forall|i: int| 0 <= i < reg1.len() implies reg1[i].id != id by {
            if i < k {
                assert(reg1[i] == reg[i]);
            } else {
                assert(reg1[i] == reg[i + 1]);
            }
        }
        assert(!reg_contains(reg1, id));
    }
}

} // verus!
