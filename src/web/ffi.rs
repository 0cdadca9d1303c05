use vstd::prelude::*;

use crate::events::{Button, Coordinates, Event, button_of};

verus! {

/// The identifier of a node of the host tree.
///
/// Identifiers are handed out by a `Host`; `AtomId::root()` names the node
/// that the application is mounted under.
#[derive(Clone, Copy, Debug, PartialEq, Eq, Structural, Hash)]
pub struct AtomId(pub u32);

impl AtomId {
    /// The node that the application is mounted under.
    pub fn root() -> (r: AtomId)
        ensures
            r == AtomId(0),
    {
        AtomId(0)
    }

    /// The identifier with the raw value `id`.
    pub fn wrap(id: u32) -> (r: AtomId)
        ensures
            r == AtomId(id),
    {
        AtomId(id)
    }
}

/// The kinds of events that a host node can listen to.
#[derive(Clone, Copy, Debug, PartialEq, Eq, Structural, Hash)]
pub enum EventType {
    Click,
    MouseDown,
    MouseUp,
}

/// The event kind with the raw code `raw`, as the host numbers them.
pub open spec fn event_type_of(raw: u32) -> Option<EventType> {
    if raw == 0 {
        Some(EventType::Click)
    } else if raw == 1 {
        Some(EventType::MouseDown)
    } else if raw == 2 {
        Some(EventType::MouseUp)
    } else {
        None
    }
}

impl EventType {
    /// Decodes the host's code of an event kind: 0, 1 and 2 are a click,
    /// a pressed and a released mouse button; any other code is none.
    pub fn from(raw: u32) -> (r: Option<EventType>)
        ensures
            r == event_type_of(raw),
    {
        if raw == 0 {
            Some(EventType::Click)
        } else if raw == 1 {
            Some(EventType::MouseDown)
        } else if raw == 2 {
            Some(EventType::MouseUp)
        } else {
            None
        }
    }
}

/// The event that the host reports as a kind, a position and, for mouse
/// buttons, a button code; `None` where the button code is unknown.
pub open spec fn event_of(kind: EventType, x: u32, y: u32, button: u32) -> Option<Event> {
    let at = Coordinates { x, y };
    match kind {
        EventType::Click => Some(Event::Click(at)),
        EventType::MouseDown => match button_of(button) {
            Some(b) => Some(Event::MouseDown(at, b)),
            None => None,
        },
        EventType::MouseUp => match button_of(button) {
            Some(b) => Some(Event::MouseUp(at, b)),
            None => None,
        },
    }
}

/// Builds the event that the host reports: its kind, the position, and the
/// code of the button for mouse buttons.
pub fn decode_event(kind: EventType, x: u32, y: u32, button: u32) -> (r: Option<Event>)
    ensures
        r == event_of(kind, x, y, button),
{
    let at = Coordinates { x, y };
    match kind {
        EventType::Click => Some(Event::Click(at)),
        EventType::MouseDown => match Button::from_code(button) {
            Some(b) => Some(Event::MouseDown(at, b)),
            None => None,
        },
        EventType::MouseUp => match Button::from_code(button) {
            Some(b) => Some(Event::MouseUp(at, b)),
            None => None,
        },
    }
}

/// An attribute of a host element.
#[derive(Debug)]
pub struct Attribute {
    pub key: String,
    pub value: String,
}

/// An attribute as a pair of key and value.
pub type AttrView = (Seq<char>, Seq<char>);

impl View for Attribute {
    type V = AttrView;

    open spec fn view(&self) -> AttrView {
        (self.key@, self.value@)
    }
}

/// The attributes of `a`, as pairs of key and value.
pub open spec fn attrs_view(a: Seq<Attribute>) -> Seq<AttrView> {
    a.map_values(|x: Attribute| x@)
}

impl Attribute {
    /// The attribute `key` = `value`.
    pub fn new(key: &str, value: String) -> (r: Attribute)
        ensures
            r@ == (key@, value@),
    {
        Attribute { key: key.to_string(), value }
    }

    /// A copy of this attribute.
    pub fn duplicate(&self) -> (r: Attribute)
        ensures
            r@ == self@,
    {
        Attribute { key: self.key.clone(), value: self.value.clone() }
    }

    /// The attribute as a pair of key and value.
    pub fn into_pair(self) -> (r: (String, String))
        ensures
            (r.0@, r.1@) == self@,
    {
        (self.key, self.value)
    }
}

/// A copy of a list of attributes.
pub fn duplicate_all(a: &Vec<Attribute>) -> (r: Vec<Attribute>)
    ensures
        attrs_view(r@) == attrs_view(a@),
{
    let mut r: Vec<Attribute> = Vec::new();
    let mut i: usize = 0;
    while i < a.len()
        invariant
            i <= a.len(),
            r@.len() == i,
            forall|j: int| 0 <= j < i ==> #[trigger] r@[j]@ == a@[j]@,
        decreases a.len() - i,
    {
        r.push(a[i].duplicate());
        i += 1;
    }
    assert(attrs_view(r@) =~= attrs_view(a@));
    r
}

/// One change to the host tree, as a `Host` records it.
#[derive(Debug)]
pub enum Mutation {
    CreateElement { id: AtomId, parent: AtomId, attributes: Vec<Attribute> },
    CreateTextNode { id: AtomId, parent: AtomId, text: String },
    UpdateTextNode { id: AtomId, text: String },
    UpdateElement { id: AtomId, attributes: Vec<Attribute> },
    TextNodeToElement { id: AtomId, attributes: Vec<Attribute> },
    ElementToTextNode { id: AtomId, text: String },
    DeleteNode { id: AtomId },
    CreateEvent { id: AtomId, kind: EventType },
    InjectStylesheet { sheet: String },
}

/// A `Mutation`, with its strings and attributes as sequences.
pub enum Op {
    CreateElement { id: AtomId, parent: AtomId, attributes: Seq<AttrView> },
    CreateTextNode { id: AtomId, parent: AtomId, text: Seq<char> },
    UpdateTextNode { id: AtomId, text: Seq<char> },
    UpdateElement { id: AtomId, attributes: Seq<AttrView> },
    TextNodeToElement { id: AtomId, attributes: Seq<AttrView> },
    ElementToTextNode { id: AtomId, text: Seq<char> },
    DeleteNode { id: AtomId },
    CreateEvent { id: AtomId, kind: EventType },
    InjectStylesheet { sheet: Seq<char> },
}

impl View for Mutation {
    type V = Op;

    open spec fn view(&self) -> Op {
        match self {
            Mutation::CreateElement { id, parent, attributes } =>
                Op::CreateElement { id: *id, parent: *parent, attributes: attrs_view(attributes@) },
            Mutation::CreateTextNode { id, parent, text } =>
                Op::CreateTextNode { id: *id, parent: *parent, text: text@ },
            Mutation::UpdateTextNode { id, text } => Op::UpdateTextNode { id: *id, text: text@ },
            Mutation::UpdateElement { id, attributes } =>
                Op::UpdateElement { id: *id, attributes: attrs_view(attributes@) },
            Mutation::TextNodeToElement { id, attributes } =>
                Op::TextNodeToElement { id: *id, attributes: attrs_view(attributes@) },
            Mutation::ElementToTextNode { id, text } => Op::ElementToTextNode { id: *id, text: text@ },
            Mutation::DeleteNode { id } => Op::DeleteNode { id: *id },
            Mutation::CreateEvent { id, kind } => Op::CreateEvent { id: *id, kind: *kind },
            Mutation::InjectStylesheet { sheet } => Op::InjectStylesheet { sheet: sheet@ },
        }
    }
}

/// The host tree, seen from the library: the changes asked of it, in order,
/// and the identifier that the next created node gets.
pub struct Host {
    next: u32,
    log: Vec<Mutation>,
}

/// The changes recorded in `log`, in order.
pub open spec fn ops_view(log: Seq<Mutation>) -> Seq<Op> {
    log.map_values(|m: Mutation| m@)
}

impl Host {
    /// The identifier that the next created node gets.
    pub closed spec fn next_id(&self) -> nat {
        self.next as nat
    }

    /// The changes recorded since the host was made or last drained.
    pub closed spec fn ops(&self) -> Seq<Op> {
        ops_view(self.log@)
    }

    /// A host with no recorded change; the first node created gets the
    /// identifier 1, as 0 names the mount node.
    pub fn new() -> (r: Host)
        ensures
            r.next_id() == 1,
            r.ops() == Seq::<Op>::empty(),
    {
        Host { next: 1, log: Vec::new() }
    }

    /// How many more nodes can be created.
    pub fn room(&self) -> (r: u32)
        ensures
            r as nat + self.next_id() == u32::MAX as nat,
    {
        u32::MAX - self.next
    }

    /// Hands out the recorded changes, in order, and forgets them.
    pub fn drain(&mut self) -> (r: Vec<Mutation>)
        ensures
            ops_view(r@) == old(self).ops(),
            final(self).ops() == Seq::<Op>::empty(),
            final(self).next_id() == old(self).next_id(),
    {
        let mut r: Vec<Mutation> = Vec::new();
        std::mem::swap(&mut r, &mut self.log);
        assert(ops_view(self.log@) =~= Seq::<Op>::empty());
        r
    }

    fn record(&mut self, m: Mutation)
        ensures
            final(self).ops() == old(self).ops().push(m@),
            final(self).next_id() == old(self).next_id(),
    {
        self.log.push(m);
        assert(ops_view(self.log@) =~= ops_view(old(self).log@).push(m@));
    }

    fn fresh(&mut self) -> (r: AtomId)
        requires
            old(self).next_id() < u32::MAX,
        ensures
            r == AtomId(old(self).next_id() as u32),
            final(self).next_id() == old(self).next_id() + 1,
            final(self).ops() == old(self).ops(),
    {
        let id = AtomId(self.next);
        self.next = self.next + 1;
        id
    }

    /// Creates an element with `attributes` under `parent`.
    pub fn create_element(&mut self, attributes: Vec<Attribute>, parent: AtomId) -> (r: AtomId)
        requires
            old(self).next_id() < u32::MAX,
        ensures
            r == AtomId(old(self).next_id() as u32),
            final(self).next_id() == old(self).next_id() + 1,
            final(self).ops() == old(self).ops().push(
                Op::CreateElement { id: r, parent, attributes: attrs_view(attributes@) },
            ),
    {
        let id = self.fresh();
        self.record(Mutation::CreateElement { id, parent, attributes });
        id
    }

    /// Creates a text node holding `text` under `parent`.
    pub fn create_text_node(&mut self, text: String, parent: AtomId) -> (r: AtomId)
        requires
            old(self).next_id() < u32::MAX,
        ensures
            r == AtomId(old(self).next_id() as u32),
            final(self).next_id() == old(self).next_id() + 1,
            final(self).ops() == old(self).ops().push(
                Op::CreateTextNode { id: r, parent, text: text@ },
            ),
    {
        let id = self.fresh();
        self.record(Mutation::CreateTextNode { id, parent, text });
        id
    }

    /// Replaces the text of the text node `id`.
    pub fn update_text_node(&mut self, text: String, id: AtomId)
        ensures
            final(self).next_id() == old(self).next_id(),
            final(self).ops() == old(self).ops().push(Op::UpdateTextNode { id, text: text@ }),
    {
        self.record(Mutation::UpdateTextNode { id, text });
    }

    /// Removes the node `id`, with everything under it.
    pub fn delete_node(&mut self, id: AtomId)
        ensures
            final(self).next_id() == old(self).next_id(),
            final(self).ops() == old(self).ops().push(Op::DeleteNode { id }),
    {
        self.record(Mutation::DeleteNode { id });
    }

    /// Turns the text node `id` into an element with `attributes`.
    pub fn text_node_to_element(&mut self, id: AtomId, attributes: Vec<Attribute>)
        ensures
            final(self).next_id() == old(self).next_id(),
            final(self).ops() == old(self).ops().push(
                Op::TextNodeToElement { id, attributes: attrs_view(attributes@) },
            ),
    {
        self.record(Mutation::TextNodeToElement { id, attributes });
    }

    /// Turns the element `id`, with everything under it, into a text node
    /// holding `text`.
    pub fn element_to_text_node(&mut self, id: AtomId, text: String)
        ensures
            final(self).next_id() == old(self).next_id(),
            final(self).ops() == old(self).ops().push(Op::ElementToTextNode { id, text: text@ }),
    {
        self.record(Mutation::ElementToTextNode { id, text });
    }

    /// Replaces all the attributes of the element `id`.
    pub fn update_element(&mut self, id: AtomId, attributes: Vec<Attribute>)
        ensures
            final(self).next_id() == old(self).next_id(),
            final(self).ops() == old(self).ops().push(
                Op::UpdateElement { id, attributes: attrs_view(attributes@) },
            ),
    {
        self.record(Mutation::UpdateElement { id, attributes });
    }

    /// Adds the style sheet `sheet` to the whole document.
    pub fn inject_stylesheet(&mut self, sheet: String)
        ensures
            final(self).next_id() == old(self).next_id(),
            final(self).ops() == old(self).ops().push(Op::InjectStylesheet { sheet: sheet@ }),
    {
        self.record(Mutation::InjectStylesheet { sheet });
    }

    /// Makes the node `id` listen to events of kind `kind`, in place of any
    /// listener of that kind it had.
    pub fn create_event(&mut self, id: AtomId, kind: EventType)
        ensures
            final(self).next_id() == old(self).next_id(),
            final(self).ops() == old(self).ops().push(Op::CreateEvent { id, kind }),
    {
        self.record(Mutation::CreateEvent { id, kind });
    }
}

} // verus!
