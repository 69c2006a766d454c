//! The registry of simulated users that are online in the running application, each with
//! its event bus and the label of its open chat window, and the naming of chat windows.
use std::collections::HashMap;

use tokio::sync::broadcast::{Receiver, Sender};
use vstd::prelude::*;
use vstd::string::*;

use crate::error::{AppError, AppResult};
use crate::models::{InternalEvent, UserProfile};
use crate::text::trim;

verus! {

broadcast use vstd::std_specs::hash::group_hash_axioms;

/// Declares tokio's broadcast sender, which carries a user's events to its chat window.
#[verifier::external_type_specification]
#[verifier::external_body]
#[verifier::reject_recursive_types(T)]
pub struct ExSender<T>(Sender<T>);

/// Declares tokio's broadcast receiver.
#[verifier::external_type_specification]
#[verifier::external_body]
#[verifier::reject_recursive_types(T)]
pub struct ExReceiver<T>(Receiver<T>);

/// How many undelivered events a user's bus holds before the slowest listener lags.
pub const DEFAULT_EVENT_BUS_CAPACITY: usize = 256;

/// `tokio::sync::broadcast::channel(capacity)`, keeping the sender. The channel panics on a
/// capacity of 0 or above `usize::MAX / 2`, which `requires` rules out.
#[verifier::external_body]
fn new_event_bus(capacity: usize) -> Sender<InternalEvent>
    requires
        0 < capacity <= usize::MAX / 2,
{
    tokio::sync::broadcast::channel(capacity).0
}

/// `Sender::clone`: another handle on the same channel.
#[verifier::external_body]
fn clone_event_bus(tx: &Sender<InternalEvent>) -> Sender<InternalEvent> {
    tx.clone()
}

/// `Sender::subscribe`: a new listener on the channel.
#[verifier::external_body]
fn subscribe_event_bus(tx: &Sender<InternalEvent>) -> Receiver<InternalEvent> {
    tx.subscribe()
}

/// An online user: its profile, its event bus, and the label of its chat window when one
/// is open.
pub struct UserContext {
    pub profile: UserProfile,
    pub event_tx: Sender<InternalEvent>,
    pub chat_window_label: Option<String>,
}

/// The views of an optional string.
pub open spec fn opt_view(o: Option<String>) -> Option<Seq<char>> {
    match o {
        Some(s) => Some(s@),
        None => None,
    }
}

fn clone_opt(o: &Option<String>) -> (r: Option<String>)
    ensures
        r == *o,
{
    match o {
        Some(s) => Some(s.clone()),
        None => None,
    }
}

impl UserContext {
    /// The label of the user's open chat window, if any.
    pub open spec fn label(&self) -> Option<String> {
        self.chat_window_label
    }

    /// A context for a user that has just come online: no chat window yet.
    pub fn new(profile: UserProfile) -> (r: Self)
        ensures
            r.profile == profile,
            r.label() is None,
    {
        UserContext {
            profile,
            event_tx: new_event_bus(DEFAULT_EVENT_BUS_CAPACITY),
            chat_window_label: None,
        }
    }

    /// Records the label of the user's chat window, or that none is open.
    pub fn set_chat_window_label(&mut self, label: Option<String>)
        ensures
            final(self).label() == label,
            final(self).profile == old(self).profile,
    {
        self.chat_window_label = label;
    }

    /// The label of the user's chat window, if one is open.
    pub fn chat_window_label(&self) -> (r: Option<String>)
        ensures
            r == self.label(),
    {
        clone_opt(&self.chat_window_label)
    }

    /// Records that the user's chat window is closed.
    pub fn clear_chat_window_label(&mut self)
        ensures
            final(self).label() is None,
            final(self).profile == old(self).profile,
    {
        self.chat_window_label = None;
    }

    /// A new listener for the user's events.
    pub fn subscribe_events(&self) -> Receiver<InternalEvent> {
        subscribe_event_bus(&self.event_tx)
    }

    /// A copy of the context that shares its event bus.
    pub fn duplicate(&self) -> (r: Self)
        ensures
            r.profile == self.profile,
            r.label() == self.label(),
    {
        UserContext {
            profile: self.profile.clone(),
            event_tx: clone_event_bus(&self.event_tx),
            chat_window_label: clone_opt(&self.chat_window_label),
        }
    }
}

/// The decimal digits of `n`.
pub open spec fn decimal(n: nat) -> Seq<char>
    decreases n,
{
    if n < 10 {
        seq![(48 + n) as char]
    } else {
        decimal(n / 10).push((48 + n % 10) as char)
    }
}

/// `n` written in decimal.
pub fn u64_to_decimal(n: u64) -> (r: String)
    ensures
        r@ == decimal(n as nat),
    decreases n,
{
    let digit = ((48 + n % 10) as u8) as char;
    if n < 10 {
        let mut s = String::new();
        crate::text::push_char(&mut s, digit);
        assert(s@ =~= seq![(48 + n) as char]);
        s
    } else {
        let mut s = u64_to_decimal(n / 10);
        crate::text::push_char(&mut s, digit);
        s
    }
}

/// The online users, by user id, and the order in which they came online.
pub struct CoreContainer {
    users: HashMap<u64, UserContext>,
    order: Vec<u64>,
}

/// The message of the error for a user id that is already online.
pub open spec fn already_exists_message(user_id: u64) -> Seq<char> {
    "user "@ + decimal(user_id as nat) + " already exists"@
}

/// The message of the error for a user id that is not online.
pub open spec fn not_registered_message(user_id: u64) -> Seq<char> {
    "user "@ + decimal(user_id as nat) + " is not registered"@
}

/// `after` is `before` with user `user_id` brought online with `profile`: the id joins the
/// online ones with that profile and no chat window recorded, every other user is as before,
/// and the id comes last in the order of coming online.
pub open spec fn comes_online(before: CoreContainer, after: CoreContainer, user_id: u64, profile: UserProfile) -> bool {
    &&& after.contexts().dom() == before.contexts().dom().insert(user_id)
    &&& after.contexts()[user_id].profile == profile
    &&& after.contexts()[user_id].label() is None
    &&& forall|other: u64| other != user_id && #[trigger] before.contexts().contains_key(other)
        ==> after.contexts()[other] == before.contexts()[other]
    &&& after.ids() == before.ids().push(user_id)
}

/// `after` is `before` with user `user_id` taken offline: its context is gone and its id
/// leaves the order, the rest keeping theirs.
pub open spec fn goes_offline(before: CoreContainer, after: CoreContainer, user_id: u64) -> bool {
    &&& after.contexts() == before.contexts().remove(user_id)
    &&& after.ids() == ids_without(before.ids(), user_id)
}

/// `ids` with every occurrence of `user_id` left out, the rest in their order.
pub open spec fn ids_without(ids: Seq<u64>, user_id: u64) -> Seq<u64> {
    ids.filter(|id: u64| id != user_id)
}

impl CoreContainer {
    /// The online users by id.
    pub closed spec fn contexts(&self) -> Map<u64, UserContext> {
        self.users@
    }

    /// The online user ids, in the order they came online.
    pub closed spec fn ids(&self) -> Seq<u64> {
        self.order@
    }

    /// Every online id is listed once, and only online ids are listed.
    pub closed spec fn wf(&self) -> bool {
        &&& self.order@.no_duplicates()
        &&& forall|id: u64| #[trigger] self.users@.contains_key(id) <==> self.order@.contains(id)
    }

    /// No user is online.
    pub fn new() -> (r: Self)
        ensures
            r.wf(),
            r.contexts().is_empty(),
            r.ids().len() == 0,
    {
        let r = CoreContainer { users: HashMap::new(), order: Vec::new() };
        assert(r.contexts() =~= Map::empty());
        r
    }

    /// Brings a user online under `user_id`; a conflict if that id is already online.
    pub fn register_user(&mut self, user_id: u64, profile: UserProfile) -> (r: AppResult<UserContext>)
        requires
            old(self).wf(),
        ensures
            final(self).wf(),
            old(self).contexts().contains_key(user_id) ==> {
                &&& r matches Err(e) && e is Conflict && e.message_view() == already_exists_message(user_id)
                &&& final(self).contexts() == old(self).contexts()
                &&& final(self).ids() == old(self).ids()
            },
            !old(self).contexts().contains_key(user_id) ==> {
                &&& r matches Ok(ctx) && ctx.profile == profile && ctx.label() is None
                &&& comes_online(*old(self), *final(self), user_id, profile)
            },
    {
        if self.users.contains_key(&user_id) {
            let mut msg = String::from_str("user ");
            let id = u64_to_decimal(user_id);
            msg.append(id.as_str());
            msg.append(" already exists");
            return Err(AppError::conflict(msg));
        }
        let context = UserContext::new(profile);
        let copy = context.duplicate();
        self.users.insert(user_id, copy);
        self.order.push(user_id);
        proof {
            assert forall|id: u64| #[trigger] self.users@.contains_key(id) <==> self.order@.contains(id) by {
                if id != user_id && self.order@.contains(id) {
                    let k = choose|k: int| 0 <= k < self.order@.len() && self.order@[k] == id;
                    assert(old(self).order@[k] == id);
                }
                if id == user_id {
                    assert(self.order@[self.order@.len() - 1] == id);
                }
                if old(self).order@.contains(id) {
                    let k = choose|k: int| 0 <= k < old(self).order@.len() && old(self).order@[k] == id;
                    assert(self.order@[k] == id);
                }
            }
            assert(!old(self).order@.contains(user_id));
        }
        Ok(context)
    }

    /// Takes a user offline, returning its context if it was online.
    pub fn unregister_user(&mut self, user_id: u64) -> (r: Option<UserContext>)
        requires
            old(self).wf(),
        ensures
            final(self).wf(),
            goes_offline(*old(self), *final(self), user_id),
            match r {
                Some(ctx) => old(self).contexts().contains_key(user_id) && ctx == old(self).contexts()[user_id],
                None => !old(self).contexts().contains_key(user_id),
            },
    {
        let removed = self.users.remove(&user_id);
        let ghost old_order = self.order@;
        let mut k: usize = 0;
        while k < self.order.len() && self.order[k] != user_id
            invariant
                self.order@ == old_order,
                k <= self.order@.len(),
                forall|j: int| 0 <= j < k ==> self.order@[j] != user_id,
            decreases self.order@.len() - k,
        {
            k += 1;
        }
        proof {
            reveal_with_fuel(Seq::<u64>::filter, 1);
        }
        if k < self.order.len() {
            self.order.remove(k);
            proof {
                let f = |id: u64| id != user_id;
                assert(old_order.no_duplicates());
                lemma_filter_removes_one(old_order, user_id, k as int);
                assert(self.order@ == old_order.remove(k as int));
                assert forall|id: u64| #[trigger] self.users@.contains_key(id) <==> self.order@.contains(id) by {
                    if self.order@.contains(id) {
                        let j = choose|j: int| 0 <= j < self.order@.len() && self.order@[j] == id;
                        if j < k {
                            assert(old_order[j] == id);
                        } else {
                            assert(old_order[j + 1] == id);
                        }
                        assert(old_order.contains(id));
                    }
                    if self.users@.contains_key(id) {
                        assert(old_order.contains(id));
                        let j = choose|j: int| 0 <= j < old_order.len() && old_order[j] == id;
                        if j < k {
                            assert(self.order@[j] == id);
                        } else {
                            assert(j != k);
                            assert(self.order@[j - 1] == id);
                        }
                    }
                }
                assert forall|a: int, b: int| 0 <= a < b < self.order@.len() implies self.order@[a] != self.order@[b] by {
                    let oa = if a < k { a } else { a + 1 };
                    let ob = if b < k { b } else { b + 1 };
                    assert(old_order[oa] != old_order[ob]);
                }
            }
        } else {
            proof {
                lemma_filter_keeps_all(old_order, user_id);
            }
        }
        assert(self.users@ =~= old(self).users@.remove(user_id));
        removed
    }

    /// The context of an online user.
    pub fn user_context(&self, user_id: u64) -> (r: Option<UserContext>)
        requires
            self.wf(),
        ensures
            match r {
                Some(ctx) => self.contexts().contains_key(user_id) && ctx.profile == self.contexts()[user_id].profile
                    && ctx.label() == self.contexts()[user_id].label(),
                None => !self.contexts().contains_key(user_id),
            },
    {
        match self.users.get(&user_id) {
            Some(ctx) => Some(ctx.duplicate()),
            None => None,
        }
    }

    /// The context of an online user, or a not-found error naming the id.
    pub fn require_user_context(&self, user_id: u64) -> (r: AppResult<UserContext>)
        requires
            self.wf(),
        ensures
            match r {
                Ok(ctx) => self.contexts().contains_key(user_id) && ctx.profile == self.contexts()[user_id].profile
                    && ctx.label() == self.contexts()[user_id].label(),
                Err(e) => !self.contexts().contains_key(user_id) && e is NotFound && e.message_view()
                    == not_registered_message(user_id),
            },
    {
        match self.user_context(user_id) {
            Some(ctx) => Ok(ctx),
            None => {
                let mut msg = String::from_str("user ");
                let id = u64_to_decimal(user_id);
                msg.append(id.as_str());
                msg.append(" is not registered");
                Err(AppError::not_found(msg))
            },
        }
    }

    /// The contexts of all online users, in the order they came online.
    pub fn list_user_contexts(&self) -> (r: Vec<UserContext>)
        requires
            self.wf(),
        ensures
            r.len() == self.ids().len(),
            forall|k: int| 0 <= k < r.len() ==> {
                &&& (#[trigger] r@[k]).profile == self.contexts()[self.ids()[k]].profile
                &&& r@[k].label() == self.contexts()[self.ids()[k]].label()
            },
    {
        let mut out: Vec<UserContext> = Vec::new();
        let mut k: usize = 0;
        while k < self.order.len()
            invariant
                self.wf(),
                k <= self.order.len(),
                out.len() == k,
                forall|j: int| 0 <= j < k ==> {
                    &&& (#[trigger] out@[j]).profile == self.users@[self.order@[j]].profile
                    &&& out@[j].label() == self.users@[self.order@[j]].label()
                },
            decreases self.order.len() - k,
        {
            let id = self.order[k];
            assert(self.order@.contains(id));
            assert(self.users@.contains_key(id));
            match self.users.get(&id) {
                Some(ctx) => {
                    out.push(ctx.duplicate());
                },
                None => {
                    assert(false);
                },
            }
            k += 1;
        }
        out
    }

    /// Records the label of an online user's chat window, or that none is open; nothing
    /// changes for a user that is not online.
    pub fn set_chat_window_label(&mut self, user_id: u64, label: Option<String>)
        requires
            old(self).wf(),
        ensures
            final(self).wf(),
            final(self).ids() == old(self).ids(),
            final(self).contexts().dom() == old(self).contexts().dom(),
            old(self).contexts().contains_key(user_id) ==> {
                &&& final(self).contexts()[user_id].profile == old(self).contexts()[user_id].profile
                &&& final(self).contexts()[user_id].label() == label
            },
            forall|other: u64| other != user_id && #[trigger] old(self).contexts().contains_key(other)
                ==> final(self).contexts()[other] == old(self).contexts()[other],
            !old(self).contexts().contains_key(user_id) ==> final(self).contexts() == old(self).contexts(),
    {
        match self.users.remove(&user_id) {
            Some(mut ctx) => {
                ctx.set_chat_window_label(label);
                self.users.insert(user_id, ctx);
                assert(self.users@.dom() =~= old(self).users@.dom());
            },
            None => {
                assert(self.users@ =~= old(self).users@);
            },
        }
    }
}

/// What the application does to show the chat window of a user.
#[derive(Debug, PartialEq, Eq)]
pub enum ChatWindowAction {
    /// The window with this recorded label is open: show and focus it.
    FocusRecorded(String),
    /// A window with this label (`chat-{user_id}`) is open: show and focus it.
    FocusExisting(String),
    /// Create the chat window with this label, title and address.
    Create { label: String, title: String, url: String },
}

impl CoreContainer {
    /// Decides how to show the chat window of `user_id`, given whether the window of the label
    /// recorded for the user is open (`recorded_open`) and whether a window labelled
    /// `chat-{user_id}` is open (`default_open`). User 0 is refused, and so is a user who is not
    /// online. An open recorded window is focused and nothing changes. Otherwise a stale record
    /// is cleared, and the window `chat-{user_id}` is focused when it is open and created when
    /// it is not; its label is recorded (with `set_chat_window_label`) only once that has
    /// succeeded, so a window that could not be shown or built leaves no record.
    pub fn open_user_chat_window(
        &mut self,
        user_id: u64,
        nickname_hint: Option<String>,
        recorded_open: bool,
        default_open: bool,
    ) -> (r: AppResult<ChatWindowAction>)
        requires
            old(self).wf(),
        ensures
            final(self).wf(),
            final(self).ids() == old(self).ids(),
            final(self).contexts().dom() == old(self).contexts().dom(),
            user_id == 0 ==> {
                &&& r matches Err(e) && e is Validation && e.message_view() == "invalid user id"@
                &&& final(self).contexts() == old(self).contexts()
            },
            user_id != 0 && !old(self).contexts().contains_key(user_id) ==> {
                &&& r matches Err(e) && e is NotFound && e.message_view() == not_registered_message(user_id)
                &&& final(self).contexts() == old(self).contexts()
            },
            user_id != 0 && old(self).contexts().contains_key(user_id) && recorded_open
                && old(self).contexts()[user_id].label() is Some ==> {
                &&& r matches Ok(ChatWindowAction::FocusRecorded(l))
                    && old(self).contexts()[user_id].label() == Some(l)
                &&& final(self).contexts() == old(self).contexts()
            },
            user_id != 0 && old(self).contexts().contains_key(user_id) && !(recorded_open
                && old(self).contexts()[user_id].label() is Some) ==> {
                &&& final(self).contexts()[user_id].profile == old(self).contexts()[user_id].profile
                &&& final(self).contexts()[user_id].label() is None
                &&& forall|other: u64| other != user_id && #[trigger] old(self).contexts().contains_key(other)
                    ==> final(self).contexts()[other] == old(self).contexts()[other]
                &&& default_open ==> (r matches Ok(ChatWindowAction::FocusExisting(l)) && l@ == "chat-"@
                    + decimal(user_id as nat))
                &&& !default_open ==> (r matches Ok(ChatWindowAction::Create { label, title, url })
                    && label@ == "chat-"@ + decimal(user_id as nat)
                    && title@ == chat_title_spec(user_id, opt_view(nickname_hint), old(self).contexts()[user_id].profile.nickname@)
                    && url@ == "index.html#/chat/"@ + decimal(user_id as nat))
            },
    {
        if let Err(e) = check_chat_user_id(user_id) {
            return Err(e);
        }
        let context = match self.require_user_context(user_id) {
            Ok(c) => c,
            Err(e) => return Err(e),
        };
        if recorded_open {
            if let Some(recorded) = context.chat_window_label() {
                return Ok(ChatWindowAction::FocusRecorded(recorded));
            }
        }
        let label = chat_window_label(user_id);
        self.set_chat_window_label(user_id, None);
        if default_open {
            Ok(ChatWindowAction::FocusExisting(label))
        } else {
            let title = chat_window_title(user_id, nickname_hint, context.profile.nickname.as_str());
            let url = chat_window_url(user_id);
            Ok(ChatWindowAction::Create { label, title, url })
        }
    }
}

/// The labels recorded for the users `ids`, in that order, skipping users with none.
pub open spec fn recorded_labels(ids: Seq<u64>, contexts: Map<u64, UserContext>) -> Seq<String>
    decreases ids.len(),
{
    if ids.len() == 0 {
        Seq::empty()
    } else {
        let rest = recorded_labels(ids.drop_last(), contexts);
        match contexts[ids.last()].label() {
            Some(l) => rest.push(l),
            None => rest,
        }
    }
}

impl CoreContainer {
    /// When the application closes: the labels of the chat windows still recorded, in the order
    /// the users came online, so that those windows can be closed; every record is cleared.
    pub fn take_chat_window_labels(&mut self) -> (r: Vec<String>)
        requires
            old(self).wf(),
        ensures
            final(self).wf(),
            final(self).ids() == old(self).ids(),
            final(self).contexts().dom() == old(self).contexts().dom(),
            r@ == recorded_labels(old(self).ids(), old(self).contexts()),
            forall|id: u64| #[trigger] old(self).contexts().contains_key(id) ==> {
                &&& final(self).contexts()[id].profile == old(self).contexts()[id].profile
                &&& final(self).contexts()[id].label() is None
            },
    {
        let ghost ids = self.order@;
        let ghost before = self.users@;
        let mut out: Vec<String> = Vec::new();
        let mut k: usize = 0;
        while k < self.order.len()
            invariant
                self.wf(),
                self.order@ == ids,
                ids == old(self).order@,
                before == old(self).users@,
                old(self).wf(),
                k <= ids.len(),
                self.users@.dom() == before.dom(),
                out@ == recorded_labels(ids.take(k as int), before),
                forall|id: u64| #[trigger] before.contains_key(id) ==> self.users@[id].profile == before[id].profile,
                forall|j: int| 0 <= j < k ==> (#[trigger] self.users@[ids[j]]).label() is None,
                forall|j: int| k <= j < ids.len() ==> #[trigger] self.users@[ids[j]] == before[ids[j]],
            decreases ids.len() - k,
        {
            let id = self.order[k];
            proof {
                assert(ids.take(k + 1).drop_last() =~= ids.take(k as int));
                assert(ids.take(k + 1).last() == id);
                assert(ids.contains(id));
                assert(self.users@.contains_key(id));
            }
            let label = match self.users.get(&id) {
                Some(ctx) => ctx.chat_window_label(),
                None => None,
            };
            if let Some(l) = label {
                out.push(l);
            }
            let ghost mid = self.users@;
            self.set_chat_window_label(id, None);
            proof {
                assert forall|j: int| 0 <= j < k + 1 implies (#[trigger] self.users@[ids[j]]).label() is None by {
                    if j < k {
                        assert(ids[j] != id);
                        assert(ids.contains(ids[j]));
                        assert(mid.contains_key(ids[j]));
                        assert(self.users@[ids[j]] == mid[ids[j]]);
                    }
                }
                assert forall|j: int| k + 1 <= j < ids.len() implies #[trigger] self.users@[ids[j]] == before[ids[j]] by {
                    assert(ids[j] != id);
                    assert(ids.contains(ids[j]));
                    assert(mid.contains_key(ids[j]));
                    assert(self.users@[ids[j]] == mid[ids[j]]);
                }
            }
            k += 1;
        }
        proof {
            assert(ids.take(ids.len() as int) =~= ids);
            assert forall|id: u64| #[trigger] before.contains_key(id) implies self.users@[id].label() is None by {
                assert(ids.contains(id));
                let j = choose|j: int| 0 <= j < ids.len() && ids[j] == id;
                assert(self.users@[ids[j]].label() is None);
            }
        }
        out
    }
}

proof fn lemma_filter_removes_one(s: Seq<u64>, x: u64, k: int)
    requires
        s.no_duplicates(),
        0 <= k < s.len(),
        s[k] == x,
    ensures
        ids_without(s, x) == s.remove(k),
    decreases s.len(),
{
    reveal_with_fuel(Seq::<u64>::filter, 1);
    let p = s.drop_last();
    if k == s.len() - 1 {
        lemma_filter_keeps_all(p, x);
        assert(s.remove(k) =~= p);
    } else {
        assert(p.no_duplicates());
        assert(p[k] == x);
        lemma_filter_removes_one(p, x, k);
        assert(s.last() != x);
        assert(s.remove(k) =~= p.remove(k).push(s.last()));
    }
}

proof fn lemma_filter_keeps_all(s: Seq<u64>, x: u64)
    requires
        forall|j: int| 0 <= j < s.len() ==> s[j] != x,
    ensures
        ids_without(s, x) == s,
    decreases s.len(),
{
    reveal_with_fuel(Seq::<u64>::filter, 1);
    if s.len() > 0 {
        lemma_filter_keeps_all(s.drop_last(), x);
        assert(s.drop_last().push(s.last()) =~= s);
    }
}

/// A user who comes online under a free id and then goes offline leaves the container as it
/// was: the same users online, in the same order.
pub proof fn law_register_then_unregister_restores(
    before: CoreContainer,
    mid: CoreContainer,
    after: CoreContainer,
    user_id: u64,
    profile: UserProfile,
)
    requires
        before.wf(),
        !before.contexts().contains_key(user_id),
        comes_online(before, mid, user_id, profile),
        goes_offline(mid, after, user_id),
    ensures
        after.contexts() == before.contexts(),
        after.ids() == before.ids(),
{
    assert(after.contexts() =~= before.contexts()) by {
        assert forall|k: u64| #[trigger] after.contexts().contains_key(k) implies after.contexts()[k]
            == before.contexts()[k] by {
            assert(k != user_id);
            assert(before.contexts().contains_key(k));
        }
    }
    let s = before.ids();
    assert(!s.contains(user_id));
    assert forall|j: int| 0 <= j < s.len() implies s[j] != user_id by {
        if s[j] == user_id {
            assert(s.contains(user_id));
        }
    }
    lemma_filter_keeps_all(s, user_id);
    reveal_with_fuel(Seq::<u64>::filter, 1);
    let t = s.push(user_id);
    assert(t.drop_last() =~= s);
    assert(ids_without(t, user_id) == ids_without(t.drop_last(), user_id));
    assert(mid.ids() == t);
}

/// The label of the chat window of user `user_id`: `chat-{user_id}`.
pub fn chat_window_label(user_id: u64) -> (r: String)
    ensures
        r@ == "chat-"@ + decimal(user_id as nat),
{
    let mut s = String::from_str("chat-");
    let id = u64_to_decimal(user_id);
    s.append(id.as_str());
    s
}

/// The in-app address of the chat page of user `user_id`.
pub fn chat_window_url(user_id: u64) -> (r: String)
    ensures
        r@ == "index.html#/chat/"@ + decimal(user_id as nat),
{
    let mut s = String::from_str("index.html#/chat/");
    let id = u64_to_decimal(user_id);
    s.append(id.as_str());
    s
}

/// The nickname a chat window shows: the hint when it is not blank, else the profile's.
pub open spec fn chosen_nickname(hint: Option<Seq<char>>, profile_nickname: Seq<char>) -> Seq<char> {
    match hint {
        Some(h) => if crate::text::trim_seq(h).len() > 0 {
            h
        } else {
            profile_nickname
        },
        None => profile_nickname,
    }
}

/// The title of a chat window: `聊天 · {nickname}` with the chosen nickname trimmed, or
/// `聊天 · {user_id}` when that is blank.
pub open spec fn chat_title_spec(user_id: u64, hint: Option<Seq<char>>, profile_nickname: Seq<char>) -> Seq<char> {
    let n = crate::text::trim_seq(chosen_nickname(hint, profile_nickname));
    if n.len() == 0 {
        "聊天 · "@ + decimal(user_id as nat)
    } else {
        "聊天 · "@ + n
    }
}

/// A chat window's title is `聊天 · ` followed by a name that is never blank and carries no
/// whitespace at either end: the nickname hint, trimmed, when it is not blank; else the
/// profile's nickname, trimmed, when that is not blank; else the user id in decimal.
pub proof fn law_chat_title_names_the_user(user_id: u64, hint: Option<Seq<char>>, profile_nickname: Seq<char>)
    ensures
        exists|rest: Seq<char>|
            {
                &&& #[trigger] chat_title_spec(user_id, hint, profile_nickname) == "聊天 · "@ + rest
                &&& rest.len() > 0
                &&& crate::text::trim_seq(rest) == rest
                &&& {
                    ||| hint matches Some(h) && crate::text::trim_seq(h).len() > 0 && rest == crate::text::trim_seq(h)
                    ||| !(hint matches Some(h) && crate::text::trim_seq(h).len() > 0)
                        && crate::text::trim_seq(profile_nickname).len() > 0 && rest == crate::text::trim_seq(profile_nickname)
                    ||| !(hint matches Some(h) && crate::text::trim_seq(h).len() > 0)
                        && crate::text::trim_seq(profile_nickname).len() == 0 && rest == decimal(user_id as nat)
                }
            },
{
    let n = crate::text::trim_seq(chosen_nickname(hint, profile_nickname));
    let c = chosen_nickname(hint, profile_nickname);
    crate::text::lemma_trimmed_is_trimmed(c, 0, c.len() as int);
    if n.len() == 0 {
        let d = decimal(user_id as nat);
        crate::repo::law_decimal_is_canonical(user_id as nat);
        crate::text::lemma_ws_fwd_bounds(d, 0, d.len() as int);
        assert(!crate::text::is_unicode_whitespace(d[0]));
        assert(crate::text::ws_fwd(d, 0, d.len() as int) == 0);
        crate::text::lemma_ws_back_bounds(d, 0, d.len() as int);
        assert(!crate::text::is_unicode_whitespace(d[d.len() - 1]));
        assert(crate::text::ws_back(d, 0, d.len() as int) == d.len());
        assert(crate::text::trim_seq(d) =~= d);
        assert(chat_title_spec(user_id, hint, profile_nickname) == "聊天 · "@ + d);
    } else {
        assert(chat_title_spec(user_id, hint, profile_nickname) == "聊天 · "@ + n);
    }
}

/// The title of the chat window of user `user_id`.
pub fn chat_window_title(user_id: u64, nickname_hint: Option<String>, profile_nickname: &str) -> (r: String)
    ensures
        r@ == chat_title_spec(user_id, opt_view(nickname_hint), profile_nickname@),
{
    let chosen = match nickname_hint {
        Some(h) => {
            let t = trim(h.as_str());
            if t.as_str().is_empty() {
                String::from_str(profile_nickname)
            } else {
                h
            }
        },
        None => String::from_str(profile_nickname),
    };
    let name = trim(chosen.as_str());
    let mut s = String::from_str("聊天 · ");
    if name.as_str().is_empty() {
        let id = u64_to_decimal(user_id);
        s.append(id.as_str());
    } else {
        s.append(name.as_str());
    }
    s
}

/// The chat window of user 0 cannot be opened.
pub fn check_chat_user_id(user_id: u64) -> (r: AppResult<()>)
    ensures
        user_id == 0 <==> r is Err,
        r matches Err(e) ==> e is Validation && e.message_view() == "invalid user id"@,
{
    if user_id == 0 {
        Err(AppError::validation(String::from_str("invalid user id")))
    } else {
        Ok(())
    }
}

} // verus!
