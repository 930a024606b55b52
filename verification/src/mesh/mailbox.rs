//! A sender of messages that keeps them until it is told where they go.

use vstd::prelude::*;

verus! {

/// A message that goes to a sender, and whether it is to be checked on its way.
#[derive(Debug, Clone, Copy, PartialEq, Eq)]
pub struct Handed<M> {
    pub message: M,
    pub checked: bool,
}

enum ReconfigurableMailboxSenderState<M, S> {
    Queueing(Vec<M>),
    Configured(S),
}

/// A sender that keeps messages at first, and hands them on once it has another
/// sender to hand them to.
pub struct ReconfigurableMailboxSender<M, S> {
    state: ReconfigurableMailboxSenderState<M, S>,
}

/// What a sender holds: the messages that it keeps, or the sender that messages
/// go to.
pub enum MailboxModel<M, S> {
    Queueing(Seq<M>),
    Configured(S),
}

/// Why there is no sender to give out.
#[derive(Debug, Clone, Copy, PartialEq, Eq, Structural)]
pub struct NotConfigured;

impl NotConfigured {
    /// The error, written for a reader.
    pub fn text(&self) -> (s: String)
        ensures
            s@ == "cannot get inner sender: not configured"@,
    {
        "cannot get inner sender: not configured".to_owned()
    }
}

/// What is done with a sender.
pub enum MailboxEvent<M, S> {
    /// A message comes, and whether it is to be checked on its way.
    Post(Handed<M>),
    /// A sender comes that messages can go to.
    Configure(S),
}

/// What is held after an event.
pub open spec fn held_after<M, S>(held: MailboxModel<M, S>, event: MailboxEvent<M, S>) -> MailboxModel<M, S> {
    match (held, event) {
        (MailboxModel::Queueing(queue), MailboxEvent::Post(h)) => MailboxModel::Queueing(queue.push(h.message)),
        (MailboxModel::Queueing(_), MailboxEvent::Configure(sender)) => MailboxModel::Configured(sender),
        (MailboxModel::Configured(sender), _) => MailboxModel::Configured(sender),
    }
}

/// The messages, each to be checked on its way.
pub open spec fn checked<M>(messages: Seq<M>) -> Seq<Handed<M>> {
    messages.map_values(|message: M| Handed { message, checked: true })
}

/// What goes to the other sender at an event: a message that comes once there is
/// one, as it came, and what was kept when the first one comes, to be checked.
pub open spec fn handed_on<M, S>(held: MailboxModel<M, S>, event: MailboxEvent<M, S>) -> Seq<Handed<M>> {
    match (held, event) {
        (MailboxModel::Queueing(_), MailboxEvent::Post(_)) => Seq::empty(),
        (MailboxModel::Queueing(queue), MailboxEvent::Configure(_)) => checked(queue),
        (MailboxModel::Configured(_), MailboxEvent::Post(h)) => seq![h],
        (MailboxModel::Configured(_), MailboxEvent::Configure(_)) => Seq::empty(),
    }
}

/// A message that comes and is to be handed on at once, if it is.
pub open spec fn passed_on<M, S>(held: MailboxModel<M, S>, handed: Handed<M>) -> Option<Handed<M>> {
    if held is Configured {
        Some(handed)
    } else {
        None
    }
}

/// A message that comes is what goes to the other sender then, or nothing goes;
/// it is kept where nothing does.
pub proof fn a_message_is_kept_or_passed_on<M, S>(held: MailboxModel<M, S>, handed: Handed<M>)
    ensures
        handed_on(held, MailboxEvent::<M, S>::Post(handed)) == (match passed_on(held, handed) {
            Some(h) => seq![h],
            None => Seq::<Handed<M>>::empty(),
        }),
        passed_on(held, handed) is None <==> (held_after(held, MailboxEvent::<M, S>::Post(handed)) matches MailboxModel::Queueing(
            queue,
        ) && queue.len() > 0 && queue.last() == handed.message),
        passed_on(held, handed) matches Some(h) ==> h == handed,
{
}

impl<M, S> View for ReconfigurableMailboxSender<M, S> {
    type V = MailboxModel<M, S>;

    closed spec fn view(&self) -> MailboxModel<M, S> {
        match self.state {
            ReconfigurableMailboxSenderState::Queueing(queue) => MailboxModel::Queueing(queue@),
            ReconfigurableMailboxSenderState::Configured(sender) => MailboxModel::Configured(sender),
        }
    }
}

impl<M, S> ReconfigurableMailboxSender<M, S> {
    /// A sender that keeps what it is handed.
    pub fn new() -> (r: Self)
        ensures
            r@ == MailboxModel::<M, S>::Queueing(Seq::empty()),
    {
        let r = ReconfigurableMailboxSender { state: ReconfigurableMailboxSenderState::Queueing(Vec::new()) };
        assert(r@->Queueing_0 =~= Seq::empty());
        r
    }

    /// Gives the sender that messages go to. Only the first sender is taken; if
    /// this one is, returns what was kept, which is to be handed to it in this
    /// order, each message checked on its way, before anything that comes later.
    pub fn configure(&mut self, sender: S) -> (kept: Option<Vec<M>>)
        ensures
            final(self)@ == held_after(old(self)@, MailboxEvent::Configure(sender)),
            kept is Some == (old(self)@ is Queueing),
            handed_on(old(self)@, MailboxEvent::Configure(sender)) == (match kept {
                Some(messages) => checked(messages@),
                None => Seq::empty(),
            }),
            kept matches Some(messages) ==> messages@ == old(self)@->Queueing_0,
    {
        if let ReconfigurableMailboxSenderState::Configured(_) = &self.state {
            return None;
        }
        let mut state: ReconfigurableMailboxSenderState<M, S> = ReconfigurableMailboxSenderState::Configured(sender);
        std::mem::swap(&mut state, &mut self.state);
        match state {
            ReconfigurableMailboxSenderState::Queueing(queue) => Some(queue),
            ReconfigurableMailboxSenderState::Configured(_) => None,
        }
    }

    /// The sender that messages go to.
    pub fn as_inner(&self) -> (r: Result<&S, NotConfigured>)
        ensures
            match r {
                Ok(s) => self@ == MailboxModel::<M, S>::Configured(*s),
                Err(_) => self@ is Queueing,
            },
    {
        match &self.state {
            ReconfigurableMailboxSenderState::Configured(sender) => Ok(sender),
            ReconfigurableMailboxSenderState::Queueing(_) => Err(NotConfigured),
        }
    }

    /// How many messages are kept.
    pub fn queued(&self) -> (n: usize)
        ensures
            n == (match self@ {
                MailboxModel::Queueing(queue) => queue.len(),
                MailboxModel::Configured(_) => 0,
            }),
    {
        match &self.state {
            ReconfigurableMailboxSenderState::Configured(_) => 0,
            ReconfigurableMailboxSenderState::Queueing(queue) => queue.len(),
        }
    }

    /// Takes a message that is to be checked on its way: keeps it, or returns it
    /// to be handed on at once.
    pub fn post(&mut self, message: M) -> (on: Option<Handed<M>>)
        ensures
            final(self)@ == held_after(
                old(self)@,
                MailboxEvent::<M, S>::Post(Handed { message, checked: true }),
            ),
            on == passed_on(old(self)@, (Handed { message, checked: true })),
    {
        self.take(Handed { message, checked: true })
    }

    /// Takes a message that goes as it is: keeps it, or returns it to be handed
    /// on at once.
    pub fn post_unchecked(&mut self, message: M) -> (on: Option<Handed<M>>)
        ensures
            final(self)@ == held_after(
                old(self)@,
                MailboxEvent::<M, S>::Post(Handed { message, checked: false }),
            ),
            on == passed_on(old(self)@, (Handed { message, checked: false })),
    {
        self.take(Handed { message, checked: false })
    }

    fn take(&mut self, handed: Handed<M>) -> (on: Option<Handed<M>>)
        ensures
            final(self)@ == held_after(old(self)@, MailboxEvent::<M, S>::Post(handed)),
            on == passed_on(old(self)@, handed),
    {
        match &mut self.state {
            ReconfigurableMailboxSenderState::Queueing(queue) => {
                queue.push(handed.message);
                None
            },
            ReconfigurableMailboxSenderState::Configured(_) => Some(handed),
        }
    }
}

/// What is held after a number of events.
pub open spec fn held_after_all<M, S>(events: Seq<MailboxEvent<M, S>>) -> MailboxModel<M, S>
    decreases events.len(),
{
    if events.len() == 0 {
        MailboxModel::Queueing(Seq::empty())
    } else {
        held_after(held_after_all(events.drop_last()), events.last())
    }
}

/// All that went to the other sender over a number of events, in order.
pub open spec fn all_handed_on<M, S>(events: Seq<MailboxEvent<M, S>>) -> Seq<Handed<M>>
    decreases events.len(),
{
    if events.len() == 0 {
        Seq::empty()
    } else {
        all_handed_on(events.drop_last()) + handed_on(held_after_all(events.drop_last()), events.last())
    }
}

/// The messages that came over a number of events, in order.
pub open spec fn posted<M, S>(events: Seq<MailboxEvent<M, S>>) -> Seq<M>
    decreases events.len(),
{
    if events.len() == 0 {
        Seq::empty()
    } else {
        match events.last() {
            MailboxEvent::Post(h) => posted(events.drop_last()).push(h.message),
            MailboxEvent::Configure(_) => posted(events.drop_last()),
        }
    }
}

/// The messages, without how they were handed over.
pub open spec fn messages<M>(handed: Seq<Handed<M>>) -> Seq<M> {
    handed.map_values(|h: Handed<M>| h.message)
}

/// Whatever is done with a new sender, in any order, every message that came is
/// kept, or went on exactly once, and all in the order in which they came; once
/// there is a sender to hand them to, none is kept.
pub proof fn nothing_is_lost_or_reordered<M, S>(events: Seq<MailboxEvent<M, S>>)
    ensures
        match held_after_all(events) {
            MailboxModel::Queueing(queue) => all_handed_on(events).len() == 0 && queue == posted(events),
            MailboxModel::Configured(_) => messages(all_handed_on(events)) == posted(events),
        },
    decreases events.len(),
{
    if events.len() > 0 {
        let before = events.drop_last();
        nothing_is_lost_or_reordered(before);
        let on = handed_on(held_after_all(before), events.last());
        assert(messages(all_handed_on(before) + on) =~= messages(all_handed_on(before)) + messages(on));
        match (held_after_all(before), events.last()) {
            (MailboxModel::Queueing(queue), MailboxEvent::Configure(_)) => {
                assert(messages(all_handed_on(before)) =~= Seq::empty());
                assert(messages(checked(queue)) =~= queue);
            },
            (MailboxModel::Configured(_), MailboxEvent::Post(h)) => {
                assert(messages(seq![h]) =~= seq![h.message]);
                assert(posted(before) + seq![h.message] =~= posted(before).push(h.message));
            },
            (MailboxModel::Configured(_), MailboxEvent::Configure(_)) => {
                assert(messages(Seq::<Handed<M>>::empty()) =~= Seq::empty());
            },
            _ => {},
        }
    }
}

/// The first sender that comes stays the one that messages go to, whatever is
/// done later.
pub proof fn the_first_sender_stays<M, S>(held: MailboxModel<M, S>, event: MailboxEvent<M, S>)
    requires
        held is Configured,
    ensures
        held_after(held, event) == held,
{
}

/// The first sender that comes is the one that messages go to.
pub proof fn the_first_sender_is_taken<M, S>(queue: Seq<M>, sender: S)
    ensures
        held_after(MailboxModel::<M, S>::Queueing(queue), MailboxEvent::Configure(sender)) == MailboxModel::<
            M,
            S,
        >::Configured(sender),
{
}

/// What was kept goes on to be checked, however it came; what comes later goes
/// on as it came, and at once.
pub proof fn kept_messages_are_checked<M, S>(queue: Seq<M>, sender: S, handed: Handed<M>)
    ensures
        ({
            let on = handed_on(MailboxModel::<M, S>::Queueing(queue), MailboxEvent::Configure(sender));
            &&& on.len() == queue.len()
            &&& forall|i: int| 0 <= i < on.len() ==> (#[trigger] on[i]).checked && on[i].message == queue[i]
        }),
        ({
            let on = handed_on(MailboxModel::<M, S>::Configured(sender), MailboxEvent::Post(handed));
            on.len() == 1 && on[0] == handed
        }),
        handed_on(MailboxModel::<M, S>::Queueing(queue), MailboxEvent::Post(handed)).len() == 0,
{
}

}
