use vstd::prelude::*;
use std::marker::PhantomData;
use vstd::std_specs::convert::FromSpec;

verus! {

/// A raw interaction event handed to an event handler.
#[derive(Clone, Copy, Debug, PartialEq, Eq, Structural)]
pub enum Event {
    Render,
    Click(Coordinates),
    MouseDown(Coordinates, Button),
    MouseUp(Coordinates, Button),
}

/// A position on the page, in pixels.
#[derive(Clone, Copy, Debug, PartialEq, Eq, Structural)]
pub struct Coordinates {
    pub x: u32,
    pub y: u32,
}

/// A mouse button.
#[derive(Clone, Copy, Debug, PartialEq, Eq, Structural)]
pub enum Button {
    Left,
    Right,
    Middle,
}

/// Turns raw events into messages of type `Message`.
///
/// `ready` holds of a handler that may be called with any event; `responds`
/// says whether an event yields a message at all, and `handles` which
/// messages an event may yield.
pub trait EventHandler {
    type Message;

    spec fn ready(&self) -> bool;

    spec fn responds(&self, event: Event) -> bool;

    spec fn handles(&self, event: Event, message: Self::Message) -> bool;

    fn event(&self, event: Event) -> (r: Option<Self::Message>)
        requires
            self.ready(),
        ensures
            r.is_some() == self.responds(event),
            r matches Some(m) ==> self.handles(event, m),
    ;
}

/// A distance on the page, in pixels, that may be negative.
#[derive(Clone, Copy, Debug, PartialEq, Eq, Structural)]
pub struct Offset {
    pub x: i32,
    pub y: i32,
}

impl Coordinates {
    /// These coordinates, moved back by `offset`; each axis wraps around as
    /// a 32-bit two's complement number.
    pub fn sub(self, offset: Offset) -> (r: Coordinates)
        ensures
            r.x == (self.x as i32).wrapping_sub(offset.x) as u32,
            r.y == (self.y as i32).wrapping_sub(offset.y) as u32,
    {
        Coordinates {
            x: (self.x as i32).wrapping_sub(offset.x) as u32,
            y: (self.y as i32).wrapping_sub(offset.y) as u32,
        }
    }

    /// These coordinates as an offset from the origin, each axis read as a
    /// 32-bit two's complement number.
    pub fn into_offset(self) -> (r: Offset)
        ensures
            r.x == self.x as i32,
            r.y == self.y as i32,
    {
        Offset { x: self.x as i32, y: self.y as i32 }
    }
}

/// The button that the host numbers `code`: 0 is the left one, 1 the
/// middle one and 2 the right one.
pub open spec fn button_of(code: u32) -> Option<Button> {
    if code == 0 {
        Some(Button::Left)
    } else if code == 1 {
        Some(Button::Middle)
    } else if code == 2 {
        Some(Button::Right)
    } else {
        None
    }
}

impl Button {
    /// Decodes the host's number of a mouse button; any other number is
    /// none.
    pub fn from_code(code: u32) -> (r: Option<Button>)
        ensures
            r == button_of(code),
    {
        if code == 0 {
            Some(Button::Left)
        } else if code == 1 {
            Some(Button::Middle)
        } else if code == 2 {
            Some(Button::Right)
        } else {
            None
        }
    }
}

/// The type of a handler slot of `Events` that was given no handler.
#[derive(Clone, Copy, Debug)]
pub struct Unset;

/// A handler that takes no argument: the one for `Event::Render`.
pub trait RenderSlot<M> {
    spec fn callable(&self) -> bool;

    spec fn gives(&self, m: M) -> bool;

    fn call(&self) -> (m: M)
        requires
            self.callable(),
        ensures
            self.gives(m),
    ;
}

/// A handler that takes the coordinates of a click.
pub trait ClickSlot<M> {
    spec fn callable(&self, c: Coordinates) -> bool;

    spec fn gives(&self, c: Coordinates, m: M) -> bool;

    fn call(&self, c: Coordinates) -> (m: M)
        requires
            self.callable(c),
        ensures
            self.gives(c, m),
    ;
}

/// A handler that takes the coordinates and the button of a mouse event.
pub trait ButtonSlot<M> {
    spec fn callable(&self, c: Coordinates, b: Button) -> bool;

    spec fn gives(&self, c: Coordinates, b: Button, m: M) -> bool;

    fn call(&self, c: Coordinates, b: Button) -> (m: M)
        requires
            self.callable(c, b),
        ensures
            self.gives(c, b, m),
    ;
}

impl<M, F: Fn() -> M> RenderSlot<M> for F {
    open spec fn callable(&self) -> bool {
        self.requires(())
    }

    open spec fn gives(&self, m: M) -> bool {
        self.ensures((), m)
    }

    fn call(&self) -> (m: M) {
        self()
    }
}

impl<M, F: Fn(Coordinates) -> M> ClickSlot<M> for F {
    open spec fn callable(&self, c: Coordinates) -> bool {
        self.requires((c,))
    }

    open spec fn gives(&self, c: Coordinates, m: M) -> bool {
        self.ensures((c,), m)
    }

    fn call(&self, c: Coordinates) -> (m: M) {
        self(c)
    }
}

impl<M, F: Fn(Coordinates, Button) -> M> ButtonSlot<M> for F {
    open spec fn callable(&self, c: Coordinates, b: Button) -> bool {
        self.requires((c, b))
    }

    open spec fn gives(&self, c: Coordinates, b: Button, m: M) -> bool {
        self.ensures((c, b), m)
    }

    fn call(&self, c: Coordinates, b: Button) -> (m: M) {
        self(c, b)
    }
}

impl<M> RenderSlot<M> for Unset {
    open spec fn callable(&self) -> bool {
        false
    }

    open spec fn gives(&self, m: M) -> bool {
        false
    }

    fn call(&self) -> (m: M) {
        vstd::pervasive::unreached()
    }
}

impl<M> ClickSlot<M> for Unset {
    open spec fn callable(&self, c: Coordinates) -> bool {
        false
    }

    open spec fn gives(&self, c: Coordinates, m: M) -> bool {
        false
    }

    fn call(&self, c: Coordinates) -> (m: M) {
        vstd::pervasive::unreached()
    }
}

impl<M> ButtonSlot<M> for Unset {
    open spec fn callable(&self, c: Coordinates, b: Button) -> bool {
        false
    }

    open spec fn gives(&self, c: Coordinates, b: Button, m: M) -> bool {
        false
    }

    fn call(&self, c: Coordinates, b: Button) -> (m: M) {
        vstd::pervasive::unreached()
    }
}

/// An event handler made of one optional handler per kind of event.
pub struct Events<M, R, C, D, U> {
    pub render: Option<R>,
    pub click: Option<C>,
    pub down: Option<D>,
    pub up: Option<U>,
    pub _message: PhantomData<M>,
}

/// The `Events` value with no handler in any slot.
pub type DefaultEvents<M> = Events<M, Unset, Unset, Unset, Unset>;

impl<M> Events<M, Unset, Unset, Unset, Unset> {
    /// A handler that yields no message for any event.
    pub fn new() -> (r: Self)
        ensures
            r.ready(),
            r.render is None,
            r.click is None,
            r.down is None,
            r.up is None,
    {
        Events { render: None, click: None, down: None, up: None, _message: PhantomData }
    }
}

impl<M, R: RenderSlot<M>, C: ClickSlot<M>, D: ButtonSlot<M>, U: ButtonSlot<M>> Events<M, R, C, D, U> {
    /// Sets the handler of clicks; the other slots are kept.
    pub fn click<H>(self, handler: H) -> (r: Events<M, R, H, D, U>)
        where H: Fn(Coordinates) -> M,
        ensures
            self.ready() && (forall|c: Coordinates| handler.requires((c,))) ==> r.ready(),
            r.click == Some(handler),
            r.render == self.render,
            r.down == self.down,
            r.up == self.up,
    {
        Events { render: self.render, click: Some(handler), down: self.down, up: self.up, _message: PhantomData }
    }

    /// Sets the handler of pressed mouse buttons; the other slots are kept.
    pub fn mouse_down<H>(self, handler: H) -> (r: Events<M, R, C, H, U>)
        where H: Fn(Coordinates, Button) -> M,
        ensures
            self.ready() && (forall|c: Coordinates, b: Button| handler.requires((c, b))) ==> r.ready(),
            r.down == Some(handler),
            r.render == self.render,
            r.click == self.click,
            r.up == self.up,
    {
        Events { render: self.render, click: self.click, down: Some(handler), up: self.up, _message: PhantomData }
    }

    /// Sets the handler of released mouse buttons; the other slots are kept.
    pub fn mouse_up<H>(self, handler: H) -> (r: Events<M, R, C, D, H>)
        where H: Fn(Coordinates, Button) -> M,
        ensures
            self.ready() && (forall|c: Coordinates, b: Button| handler.requires((c, b))) ==> r.ready(),
            r.up == Some(handler),
            r.render == self.render,
            r.click == self.click,
            r.down == self.down,
    {
        Events { render: self.render, click: self.click, down: self.down, up: Some(handler), _message: PhantomData }
    }

    /// Sets the handler of render events; the other slots are kept.
    pub fn render<H>(self, handler: H) -> (r: Events<M, H, C, D, U>)
        where H: Fn() -> M,
        ensures
            self.ready() && handler.requires(()) ==> r.ready(),
            r.render == Some(handler),
            r.click == self.click,
            r.down == self.down,
            r.up == self.up,
    {
        Events { render: Some(handler), click: self.click, down: self.down, up: self.up, _message: PhantomData }
    }
}

impl<M, R, C, D, U> EventHandler for Events<M, R, C, D, U>
    where R: RenderSlot<M>, C: ClickSlot<M>, D: ButtonSlot<M>, U: ButtonSlot<M>,
{
    type Message = M;

    open spec fn ready(&self) -> bool {
        &&& (self.render matches Some(h) ==> h.callable())
        &&& (self.click matches Some(h) ==> forall|c: Coordinates| h.callable(c))
        &&& (self.down matches Some(h) ==> forall|c: Coordinates, b: Button| h.callable(c, b))
        &&& (self.up matches Some(h) ==> forall|c: Coordinates, b: Button| h.callable(c, b))
    }

    open spec fn responds(&self, event: Event) -> bool {
        match event {
            Event::Render => self.render is Some,
            Event::Click(_) => self.click is Some,
            Event::MouseDown(_, _) => self.down is Some,
            Event::MouseUp(_, _) => self.up is Some,
        }
    }

    open spec fn handles(&self, event: Event, message: M) -> bool {
        match event {
            Event::Render => self.render matches Some(h) && h.gives(message),
            Event::Click(c) => self.click matches Some(h) && h.gives(c, message),
            Event::MouseDown(c, b) => self.down matches Some(h) && h.gives(c, b, message),
            Event::MouseUp(c, b) => self.up matches Some(h) && h.gives(c, b, message),
        }
    }

    fn event(&self, event: Event) -> (r: Option<M>) {
        match event {
            Event::Render => match &self.render {
                Some(h) => Some(h.call()),
                None => None,
            },
            Event::Click(c) => match &self.click {
                Some(h) => Some(h.call(c)),
                None => None,
            },
            Event::MouseDown(c, b) => match &self.down {
                Some(h) => Some(h.call(c, b)),
                None => None,
            },
            Event::MouseUp(c, b) => match &self.up {
                Some(h) => Some(h.call(c, b)),
                None => None,
            },
        }
    }
}

/// An event handler that converts the messages of `handler` into `M`.
pub struct Upgrade<E, M> {
    pub handler: E,
    pub _message: PhantomData<M>,
}

impl<E: EventHandler, M: From<E::Message>> Upgrade<E, M> {
    /// Wraps `handler`.
    pub fn new(handler: E) -> (r: Self)
        ensures
            r.inner() == handler,
    {
        Upgrade { handler, _message: PhantomData }
    }

    pub open spec fn inner(&self) -> E {
        self.handler
    }
}

/// What `M::from` gives for `m`, where the conversion has a specification.
pub open spec fn converts<A, M: From<A>>(a: A, m: M) -> bool {
    M::obeys_from_spec() ==> m == M::from_spec(a)
}

impl<E: EventHandler, M: From<E::Message>> EventHandler for Upgrade<E, M> {
    type Message = M;

    open spec fn ready(&self) -> bool {
        self.handler.ready()
    }

    open spec fn responds(&self, event: Event) -> bool {
        self.handler.responds(event)
    }

    open spec fn handles(&self, event: Event, message: M) -> bool {
        exists|m: E::Message| #[trigger] self.handler.handles(event, m) && converts(m, message)
    }

    fn event(&self, event: Event) -> (r: Option<M>) {
        match self.handler.event(event) {
            Some(m) => Some(M::from(m)),
            None => None,
        }
    }
}

/// Converting twice equals converting once by the composed conversion: a
/// handler wrapped to yield `Mid` and then wrapped again to yield `T`
/// responds to the same events, with the same messages, as the handler
/// wrapped once with a conversion to `T` that is the composition of the two.
pub proof fn law_upgrade_composition<E, Mid, T>(handler: E, event: Event, message: T)
    where
        E: EventHandler,
        Mid: From<E::Message>,
        T: From<Mid> + From<E::Message>,
    requires
        <Mid as FromSpec<E::Message>>::obeys_from_spec(),
        <T as FromSpec<Mid>>::obeys_from_spec(),
        <T as FromSpec<E::Message>>::obeys_from_spec(),
        forall|l: E::Message|
            #[trigger] <T as FromSpec<E::Message>>::from_spec(l) == <T as FromSpec<Mid>>::from_spec(
                <Mid as FromSpec<E::Message>>::from_spec(l),
            ),
    ensures
        ({
            let once = Upgrade::<E, Mid> { handler, _message: PhantomData };
            let twice = Upgrade::<Upgrade<E, Mid>, T> { handler: once, _message: PhantomData };
            let direct = Upgrade::<E, T> { handler, _message: PhantomData };
            &&& twice.ready() == direct.ready()
            &&& twice.responds(event) == direct.responds(event)
            &&& twice.handles(event, message) == direct.handles(event, message)
        }),
{
    let once = Upgrade::<E, Mid> { handler, _message: PhantomData };
    let twice = Upgrade::<Upgrade<E, Mid>, T> { handler: once, _message: PhantomData };
    let direct = Upgrade::<E, T> { handler, _message: PhantomData };
    if twice.handles(event, message) {
        let mid = choose|mid: Mid| #[trigger] once.handles(event, mid) && converts(mid, message);
        let l = choose|l: E::Message| #[trigger] handler.handles(event, l) && converts(l, mid);
        assert(converts(l, message));
        assert(direct.handles(event, message));
    }
    if direct.handles(event, message) {
        let l = choose|l: E::Message| #[trigger] handler.handles(event, l) && converts(l, message);
        let mid = <Mid as FromSpec<E::Message>>::from_spec(l);
        assert(once.handles(event, mid));
        assert(converts::<Mid, T>(mid, message));
        assert(twice.handles(event, message) == (exists|m: Mid|
            #[trigger] twice.handler.handles(event, m) && converts::<Mid, T>(m, message)));
        assert(twice.handler.handles(event, mid));
    }
}

} // verus!
