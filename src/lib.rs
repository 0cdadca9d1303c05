use vstd::prelude::*;

pub mod block;
pub mod events;
pub mod reactor;
pub mod ui;
pub mod web;

pub use block::{BlockData, Build};
pub use events::Events;
pub use reactor::Reactor;

verus! {

/// The state of an application, changed by its messages. Implemented by
/// each application for its own state.
pub trait State: Sized {
    type Message;

    fn reduce(&mut self, message: Self::Message);
}

} // verus!
