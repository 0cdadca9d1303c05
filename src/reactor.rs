use vstd::prelude::*;
use std::marker::PhantomData;
use vstd::std_specs::convert::FromSpec;

verus! {

/// Carries messages of type `Message` to the root reducer, whose messages
/// are of type `Root`.
pub trait Update {
    type Message;

    type Root;

    /// Messages can be carried: every conversion on the way has a
    /// specification.
    spec fn ready() -> bool;

    /// The root message that `message` becomes.
    spec fn lift(message: Self::Message) -> Self::Root;

    /// The root messages delivered so far, in order.
    spec fn sent(&self) -> Seq<Self::Root>;

    fn reduce(&mut self, message: Self::Message)
        requires
            Self::ready(),
        ensures
            final(self).sent() == old(self).sent().push(Self::lift(message)),
    ;
}

/// The root end of a chain of messengers: keeps the messages it is given,
/// in order, until they are taken.
pub struct Mailbox<M> {
    messages: Vec<M>,
}

impl<M> Mailbox<M> {
    /// An empty mailbox.
    pub fn new() -> (r: Mailbox<M>)
        ensures
            r.sent() == Seq::<M>::empty(),
    {
        Mailbox { messages: Vec::new() }
    }

    /// Hands out the messages kept so far, in order, and forgets them.
    pub fn take(&mut self) -> (r: Vec<M>)
        ensures
            r@ == old(self).sent(),
            final(self).sent() == Seq::<M>::empty(),
    {
        let mut r: Vec<M> = Vec::new();
        std::mem::swap(&mut r, &mut self.messages);
        r
    }
}

impl<M> Update for Mailbox<M> {
    type Message = M;

    type Root = M;

    open spec fn ready() -> bool {
        true
    }

    open spec fn lift(message: M) -> M {
        message
    }

    closed spec fn sent(&self) -> Seq<M> {
        self.messages@
    }

    fn reduce(&mut self, message: M) {
        self.messages.push(message);
    }
}

/// A messenger for messages of type `T`, which it converts into the
/// messages of `update` before passing them on.
pub struct Upgrade<U, T> {
    pub update: U,
    pub _message: PhantomData<T>,
}

impl<U: Update, T> Upgrade<U, T> where U::Message: From<T> {
    /// Wraps `update`.
    pub fn wrap(update: U) -> (r: Self)
        ensures
            r.update == update,
    {
        Upgrade { update, _message: PhantomData }
    }
}

impl<U: Update, T> Update for Upgrade<U, T> where U::Message: From<T> {
    type Message = T;

    type Root = U::Root;

    open spec fn ready() -> bool {
        U::ready() && <U::Message as FromSpec<T>>::obeys_from_spec()
    }

    open spec fn lift(message: T) -> U::Root {
        U::lift(<U::Message as FromSpec<T>>::from_spec(message))
    }

    open spec fn sent(&self) -> Seq<U::Root> {
        self.update.sent()
    }

    fn reduce(&mut self, message: T) {
        self.update.reduce(U::Message::from(message));
    }
}

/// The capability, handed to a state, to send messages to the root
/// reducer, and to derive from it one for messages of a narrower type.
pub struct Reactor<U> {
    pub update: U,
}

impl<U: Update> Reactor<U> {
    pub fn new(update: U) -> (r: Self)
        ensures
            r.update == update,
    {
        Reactor { update }
    }

    /// A reactor for messages of type `T`, each converted into a message of
    /// this one on the way.
    pub fn downgrade<T>(self) -> (r: Reactor<Upgrade<U, T>>)
        where U::Message: From<T>,
        ensures
            r.update.update == self.update,
    {
        Reactor { update: Upgrade::wrap(self.update) }
    }

    /// Sends `message` toward the root reducer.
    pub fn send(&mut self, message: U::Message)
        requires
            U::ready(),
        ensures
            final(self).update.sent() == old(self).update.sent().push(U::lift(message)),
    {
        self.update.reduce(message);
    }

    /// The messenger that this reactor sends through.
    pub fn into_inner(self) -> (r: U)
        ensures
            r == self.update,
    {
        self.update
    }
}

/// Sending through two conversions in a row delivers what sending through
/// their composition delivers: a reactor downgraded twice lifts each
/// message as one downgraded once by the composed conversion does.
pub proof fn law_downgrade_composition<U, Mid, L>(message: L)
    where
        U: Update,
        U::Message: From<Mid> + From<L>,
        Mid: From<L>,
    requires
        forall|l: L|
            #[trigger] <U::Message as FromSpec<L>>::from_spec(l) == <U::Message as FromSpec<Mid>>::from_spec(
                <Mid as FromSpec<L>>::from_spec(l),
            ),
    ensures
        <Upgrade<Upgrade<U, Mid>, L> as Update>::lift(message) == <Upgrade<U, L> as Update>::lift(message),
{
}

} // verus!
