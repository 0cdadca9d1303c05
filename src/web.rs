use vstd::prelude::*;

use std::marker::PhantomData;

use crate::State;
use crate::block::{BlockData, layout_handlers, layout_ready, splice};
use crate::events::{Event, EventHandler, Coordinates, Button};
use self::atom::{Atom, Mounted, mount_view, ids_fresh, ids, size, sizes, lemma_sizes_split, upgrade_ops, upgraded, upgrade_alloc};
use self::css::style_css;
use self::ffi::{Attribute, AttrView, AtomId, EventType, Host, Mutation, Op, attrs_view};

pub mod ffi;
pub mod atom;
pub mod css;

verus! {

/// What the reconciler is asked to make the host tree look like: one
/// render's tree, with its handlers.
pub enum Candidate<H> {
    Text(String),
    Element { children: Vec<Candidate<H>>, attributes: Vec<Attribute>, event_handler: H },
}

/// The shape of a tree of nodes: text, or an element with attributes, the
/// kinds of events it listens to, and children in order.
pub enum Shape {
    Text(Seq<char>),
    Element { attributes: Seq<AttrView>, events: Seq<EventType>, children: Seq<Shape> },
}

/// The event that a handler is tried with, for each kind of event, to learn
/// whether it listens to that kind.
pub open spec fn probe_event(kind: EventType) -> Event {
    match kind {
        EventType::Click => Event::Click(Coordinates { x: 0, y: 0 }),
        EventType::MouseDown => Event::MouseDown(Coordinates { x: 0, y: 0 }, Button::Left),
        EventType::MouseUp => Event::MouseUp(Coordinates { x: 0, y: 0 }, Button::Left),
    }
}

/// The kinds of events that `h` listens to, in the order click, pressed
/// button, released button: those whose probe event yields a message.
pub open spec fn listened<H: EventHandler>(h: H) -> Seq<EventType> {
    let a = if h.responds(probe_event(EventType::Click)) {
        seq![EventType::Click]
    } else {
        Seq::empty()
    };
    let b = if h.responds(probe_event(EventType::MouseDown)) {
        a.push(EventType::MouseDown)
    } else {
        a
    };
    if h.responds(probe_event(EventType::MouseUp)) {
        b.push(EventType::MouseUp)
    } else {
        b
    }
}

impl<H: EventHandler> Candidate<H> {
    /// The shape of this tree.
    pub open spec fn shape(&self) -> Shape
        decreases self,
    {
        match self {
            Candidate::Text(t) => Shape::Text(t@),
            Candidate::Element { children, attributes, event_handler } => Shape::Element {
                attributes: attrs_view(attributes@),
                events: listened(*event_handler),
                children: Seq::new(
                    children@.len(),
                    |i: int|
                        if 0 <= i < children@.len() {
                            children@[i].shape()
                        } else {
                            Shape::Text(Seq::empty())
                        },
                ),
            },
        }
    }

    /// Every handler of the tree may be called with any event.
    pub open spec fn wf(&self) -> bool
        decreases self,
    {
        match self {
            Candidate::Text(_) => true,
            Candidate::Element { children, event_handler, .. } => {
                &&& event_handler.ready()
                &&& forall|i: int| 0 <= i < children@.len() ==> (#[trigger] children@[i]).wf()
            },
        }
    }
}

impl<H> Candidate<H> {
    /// The handlers of the elements of this tree, in preorder.
    pub open spec fn handlers(&self) -> Seq<H>
        decreases self, 0nat,
    {
        match self {
            Candidate::Text(_) => Seq::empty(),
            Candidate::Element { children, event_handler, .. } => seq![*event_handler] + handlers_list(
                children@,
                children@.len() as int,
            ),
        }
    }
}

/// The handlers of the elements of the trees `cs[..k]`, in preorder.
pub open spec fn handlers_list<H>(cs: Seq<Candidate<H>>, k: int) -> Seq<H>
    decreases cs, k,
{
    if k <= 0 || k > cs.len() {
        Seq::empty()
    } else {
        handlers_list(cs, k - 1) + cs[k - 1].handlers()
    }
}

/// The handlers of the elements of the trees `cs`, in preorder.
pub open spec fn candidates_handlers<H>(cs: Seq<Candidate<H>>) -> Seq<H> {
    handlers_list(cs, cs.len() as int)
}

proof fn lemma_handlers_prefix<H>(a: Seq<Candidate<H>>, b: Seq<Candidate<H>>, k: int)
    requires
        0 <= k <= a.len(),
    ensures
        handlers_list(a + b, k) == handlers_list(a, k),
    decreases k,
{
    if k > 0 {
        lemma_handlers_prefix(a, b, k - 1);
        assert((a + b)[k - 1] == a[k - 1]);
    }
}

proof fn lemma_handlers_suffix<H>(a: Seq<Candidate<H>>, b: Seq<Candidate<H>>, j: int)
    requires
        0 <= j <= b.len(),
    ensures
        handlers_list(a + b, a.len() + j) == handlers_list(a, a.len() as int) + handlers_list(b, j),
    decreases j,
{
    if j == 0 {
        lemma_handlers_prefix(a, b, a.len() as int);
        assert(handlers_list(a, a.len() as int) + handlers_list(b, 0) =~= handlers_list(a, a.len() as int));
    } else {
        lemma_handlers_suffix(a, b, j - 1);
        assert((a + b)[a.len() + j - 1] == b[j - 1]);
        assert(handlers_list(a + b, a.len() + j) =~= handlers_list(a, a.len() as int) + handlers_list(b, j));
    }
}

/// The handlers of two lists of trees, one after the other, are those of
/// the first list followed by those of the second.
pub proof fn lemma_handlers_append<H>(a: Seq<Candidate<H>>, b: Seq<Candidate<H>>)
    ensures
        candidates_handlers(a + b) == candidates_handlers(a) + candidates_handlers(b),
{
    lemma_handlers_suffix(a, b, b.len() as int);
}

/// The shapes of the trees `cs`.
pub open spec fn shapes<H: EventHandler>(cs: Seq<Candidate<H>>) -> Seq<Shape> {
    Seq::new(cs.len(), |i: int| cs[i].shape())
}

impl<H: EventHandler> Candidate<H> {
    /// The number of nodes of this tree, where it is at most `limit`.
    pub fn size_within(&self, limit: u32) -> (r: Option<u32>)
        ensures
            r matches Some(n) ==> n == size(self.shape()) && n <= limit,
            r is None ==> size(self.shape()) > limit,
        decreases self,
    {
        match self {
            Candidate::Text(_) => if limit >= 1 {
                Some(1)
            } else {
                None
            },
            Candidate::Element { children, .. } => {
                if limit < 1 {
                    return None;
                }
                let ghost cs = shapes(children@);
                proof {
                    assert(cs =~= self.shape()->children);
                    assert forall|j: int| 0 <= j < children@.len() implies decreases_to!(*self => children@[j]) by {
                        vstd::std_specs::vec::axiom_vec_index_decreases(*children, j);
                    }
                }
                let mut total: u32 = 1;
                let mut i: usize = 0;
                while i < children.len()
                    invariant
                        i <= children@.len(),
                        cs == shapes(children@),
                        size(self.shape()) == 1 + sizes(cs, 0, cs.len() as int),
                        forall|j: int| 0 <= j < children@.len() ==> decreases_to!(*self => children@[j]),
                        total == 1 + sizes(cs, 0, i as int),
                        total <= limit,
                    decreases children@.len() - i,
                {
                    proof {
                        lemma_sizes_split(cs, 0, i as int + 1, cs.len() as int);
                        assert(children@[i as int].shape() == cs[i as int]);
                    }
                    match children[i].size_within(limit - total) {
                        Some(n) => {
                            total = total + n;
                        },
                        None => {
                            return None;
                        },
                    }
                    i += 1;
                }
                Some(total)
            },
        }
    }
}

/// The shape of the candidate tree that the root node `b` yields.
pub open spec fn root_shape<H: EventHandler>(b: BlockData<H>) -> Shape {
    Shape::Element {
        attributes: seq![("style"@, style_css(b.data.style))],
        events: listened(b.data.event_handler),
        children: splice(b.child.layout()),
    }
}

/// `app` may be called with any state, and every tree it returns has
/// handlers that may be called with any event.
pub open spec fn app_ready<S, F: Fn(&S) -> BlockData<H>, H: EventHandler>(app: F) -> bool {
    &&& forall|s: S| app.requires((&s,))
    &&& forall|s: S, b: BlockData<H>| #[trigger] app.ensures((&s,), b) ==> layout_ready(b.layout())
}

/// What is mounted, the state, and the function that describes the tree of
/// a state.
pub struct Instance<S, F, H> {
    pub root: Atom<H>,
    pub state: S,
    pub app: F,
}

impl<S: State, F: Fn(&S) -> BlockData<H>, H: EventHandler<Message = S::Message>> Instance<S, F, H> {
    pub fn wrap(root: Atom<H>, state: S, app: F) -> (r: Self)
        ensures
            r.root == root,
            r.state == state,
            r.app == app,
    {
        Instance { root, state, app }
    }

    /// The tree that the current state is described by.
    pub fn render(&self) -> (r: BlockData<H>)
        requires
            app_ready(self.app),
        ensures
            self.app.ensures((&self.state,), r),
            layout_ready(r.layout()),
    {
        (self.app)(&self.state)
    }

    /// Passes `message` to the state's reducer.
    pub fn reduce(&mut self, message: S::Message)
        ensures
            final(self).root == old(self).root,
            final(self).app == old(self).app,
    {
        self.state.reduce(message);
    }
}

/// The handlers of the elements of the root candidate of `b`, in preorder.
pub open spec fn root_handlers<H: EventHandler>(b: BlockData<H>) -> Seq<H> {
    seq![b.data.event_handler] + layout_handlers(b.child.layout())
}

/// A render of the tree `b` fits in the identifiers that `host` has left.
pub open spec fn render_fits<H: EventHandler>(host: Host, b: BlockData<H>) -> bool {
    host.next_id() + size(root_shape(b)) <= u32::MAX
}

/// Rendering `b` took the mounted tree `root0` and the host `host0` to
/// `root1` and `host1`: where it fits, the tree is upgraded to the root
/// candidate of `b` and the host records exactly the changes of that
/// upgrade; where it does not, nothing changes.
pub open spec fn rendered<H: EventHandler>(
    root0: Mounted,
    host0: Host,
    root1: Mounted,
    host1: Host,
    b: BlockData<H>,
) -> bool {
    if render_fits(host0, b) {
        &&& root1 == upgraded(root0, root_shape(b), host0.next_id())
        &&& host1.ops() == host0.ops() + upgrade_ops(root0, root_shape(b), host0.next_id())
        &&& host1.next_id() == host0.next_id() + upgrade_alloc(root0, root_shape(b))
    } else {
        &&& root1 == root0
        &&& host1 == host0
    }
}

/// The single owner of a running application: what is mounted, its state,
/// the changes asked of the host that it has not yet handed out, and the
/// messages handed to the state's reducer so far, in order.
pub struct Handle<S: State, F, H> {
    pub instance: Instance<S, F, H>,
    pub host: Host,
    pub delivered: Ghost<Seq<S::Message>>,
}

impl<S: State, F: Fn(&S) -> BlockData<H>, H: EventHandler<Message = S::Message>> Handle<S, F, H> {
    /// Takes ownership of `instance`, with the host `host`, before any
    /// message.
    pub fn from(instance: Instance<S, F, H>, host: Host) -> (r: Self)
        ensures
            r.instance == instance,
            r.host == host,
            r.delivered@ == Seq::<S::Message>::empty(),
    {
        Handle { instance, host, delivered: Ghost(Seq::empty()) }
    }

    /// Describes the tree of the current state and upgrades the mounted tree
    /// to it. Returns false, and changes nothing, where the host has too few
    /// identifiers left for the new nodes.
    pub fn render(&mut self) -> (r: bool)
        requires
            app_ready(old(self).instance.app),
            old(self).instance.root.wf(),
        ensures
            ids_fresh(old(self).instance.root@, old(self).host.next_id()) ==> ids_fresh(
                final(self).instance.root@,
                final(self).host.next_id(),
            ),
            final(self).instance.state == old(self).instance.state,
            final(self).instance.app == old(self).instance.app,
            final(self).delivered == old(self).delivered,
            final(self).instance.root.wf(),
            !r ==> final(self).instance.root == old(self).instance.root,
            exists|b: BlockData<H>|
                {
                    &&& #[trigger] old(self).instance.app.ensures((&old(self).instance.state,), b)
                    &&& r == render_fits(old(self).host, b)
                    &&& render_fits(old(self).host, b) && ids_fresh(
                        old(self).instance.root@,
                        old(self).host.next_id(),
                    ) ==> forall|i: int|
                        #![trigger root_handlers(b)[i]]
                        0 <= i < root_handlers(b).len() ==> final(self).instance.root.reaches(root_handlers(b)[i])
                    &&& rendered(
                        old(self).instance.root@,
                        old(self).host,
                        final(self).instance.root@,
                        final(self).host,
                        b,
                    )
                },
    {
        let block = self.instance.render();
        let candidate = Candidate::from(block);
        match candidate.size_within(self.host.room()) {
            Some(_) => {
                self.instance.root.upgrade(candidate, &mut self.host);
                true
            },
            None => false,
        }
    }

    /// Passes `message` to the state's reducer, without rendering.
    pub fn message(&mut self, message: S::Message)
        ensures
            final(self).delivered@ == old(self).delivered@.push(message),
            final(self).instance.root == old(self).instance.root,
            final(self).instance.app == old(self).instance.app,
            final(self).host == old(self).host,
    {
        self.instance.reduce(message);
        self.delivered = Ghost(self.delivered@.push(message));
    }

    /// Delivers `message`: the state is reduced by it, then the tree of the
    /// new state is rendered. Returns whether the render took place.
    pub fn deliver(&mut self, message: S::Message) -> (r: bool)
        requires
            app_ready(old(self).instance.app),
            old(self).instance.root.wf(),
        ensures
            ids_fresh(old(self).instance.root@, old(self).host.next_id()) ==> ids_fresh(
                final(self).instance.root@,
                final(self).host.next_id(),
            ),
            final(self).delivered@ == old(self).delivered@.push(message),
            final(self).instance.app == old(self).instance.app,
            final(self).instance.root.wf(),
            exists|b: BlockData<H>|
                {
                    &&& #[trigger] old(self).instance.app.ensures((&final(self).instance.state,), b)
                    &&& r == render_fits(old(self).host, b)
                    &&& render_fits(old(self).host, b) && ids_fresh(
                        old(self).instance.root@,
                        old(self).host.next_id(),
                    ) ==> forall|i: int|
                        #![trigger root_handlers(b)[i]]
                        0 <= i < root_handlers(b).len() ==> final(self).instance.root.reaches(root_handlers(b)[i])
                    &&& rendered(
                        old(self).instance.root@,
                        old(self).host,
                        final(self).instance.root@,
                        final(self).host,
                        b,
                    )
                },
    {
        self.message(message);
        self.render()
    }

    /// Hands `event`, fired on the host node `target`, to that node's
    /// handler, and delivers the message it yields, if any. Returns whether
    /// a message was delivered.
    pub fn dispatch(&mut self, target: AtomId, event: Event) -> (r: bool)
        requires
            app_ready(old(self).instance.app),
            old(self).instance.root.wf(),
        ensures
            forall|h: H|
                ids_fresh(old(self).instance.root@, old(self).host.next_id()) && #[trigger] old(
                    self,
                ).instance.root.holds(target, h) ==> old(self).instance.root.handler_of(target) == Some(h),
            ids_fresh(old(self).instance.root@, old(self).host.next_id()) ==> ids_fresh(
                final(self).instance.root@,
                final(self).host.next_id(),
            ),
            r == (old(self).instance.root.handler_of(target) matches Some(h) && h.responds(event)),
            !r ==> *final(self) == *old(self),
            r ==> exists|m: S::Message, b: BlockData<H>|
                {
                    &&& (old(self).instance.root.handler_of(target) matches Some(h) && h.handles(event, m))
                    &&& final(self).delivered@ == #[trigger] old(self).delivered@.push(m)
                    &&& #[trigger] old(self).instance.app.ensures((&final(self).instance.state,), b)
                    &&& rendered(
                        old(self).instance.root@,
                        old(self).host,
                        final(self).instance.root@,
                        final(self).host,
                        b,
                    )
                },
            final(self).instance.root.wf(),
            final(self).instance.app == old(self).instance.app,
    {
        proof {
            assert forall|h: H|
                ids_fresh(self.instance.root@, self.host.next_id()) && #[trigger] self.instance.root.holds(
                    target,
                    h,
                ) implies self.instance.root.handler_of(target) == Some(h) by {
                self.instance.root.lemma_reach(target, h);
            }
        }
        match self.instance.root.dispatch(target, event) {
            Some(m) => {
                self.deliver(m);
                true
            },
            None => false,
        }
    }

    /// Decodes the event that the host reports on node `target` (its kind,
    /// position and button code) and dispatches it. Returns whether a
    /// message was delivered; an unknown button code delivers none.
    pub fn call(&mut self, kind: EventType, target: AtomId, x: u32, y: u32, button: u32) -> (r: bool)
        requires
            app_ready(old(self).instance.app),
            old(self).instance.root.wf(),
        ensures
            ids_fresh(old(self).instance.root@, old(self).host.next_id()) ==> ids_fresh(
                final(self).instance.root@,
                final(self).host.next_id(),
            ),
            r == (ffi::event_of(kind, x, y, button) matches Some(e) && old(self).instance.root.handler_of(
                target,
            ) matches Some(h) && h.responds(e)),
            !r ==> *final(self) == *old(self),
            r ==> exists|m: S::Message, b: BlockData<H>|
                {
                    &&& (ffi::event_of(kind, x, y, button) matches Some(e)
                        && old(self).instance.root.handler_of(target) matches Some(h) && h.handles(e, m))
                    &&& final(self).delivered@ == #[trigger] old(self).delivered@.push(m)
                    &&& #[trigger] old(self).instance.app.ensures((&final(self).instance.state,), b)
                    &&& rendered(
                        old(self).instance.root@,
                        old(self).host,
                        final(self).instance.root@,
                        final(self).host,
                        b,
                    )
                },
            final(self).instance.root.wf(),
            final(self).instance.app == old(self).instance.app,
    {
        match ffi::decode_event(kind, x, y, button) {
            Some(event) => self.dispatch(target, event),
            None => false,
        }
    }

    /// Hands out the changes asked of the host since the last call, in
    /// order.
    pub fn take_mutations(&mut self) -> (r: Vec<Mutation>)
        ensures
            ffi::ops_view(r@) == old(self).host.ops(),
            final(self).host.ops() == Seq::<Op>::empty(),
            final(self).host.next_id() == old(self).host.next_id(),
            final(self).instance == old(self).instance,
            final(self).delivered == old(self).delivered,
    {
        self.host.drain()
    }
}

/// Starts an application: adds the base style sheet, mounts the root under
/// the host node whose `id` attribute is `mount_id`, and renders the tree
/// of `state` once. The changes to make on the host wait in the returned
/// handle: the style sheet first, then those of the first render.
pub fn launch<S: State, F: Fn(&S) -> BlockData<H>, H: EventHandler<Message = S::Message>>(
    mount_id: String,
    state: S,
    app: F,
) -> (r: Handle<S, F, H>)
    requires
        app_ready(app),
    ensures
        r.instance.state == state,
        r.instance.app == app,
        r.instance.root.wf(),
        r.delivered@ == Seq::<S::Message>::empty(),
        ids_fresh(r.instance.root@, r.host.next_id()),
        exists|b: BlockData<H>|
            {
                &&& #[trigger] app.ensures((&state,), b)
                &&& 1 + size(root_shape(b)) <= u32::MAX ==> {
                    &&& r.instance.root@ == upgraded(mount_view(mount_id@), root_shape(b), 1)
                    &&& r.host.ops() == seq![Op::InjectStylesheet { sheet: css::stylesheet_css() }]
                        + upgrade_ops(mount_view(mount_id@), root_shape(b), 1)
                    &&& r.host.next_id() == 1 + upgrade_alloc(mount_view(mount_id@), root_shape(b))
                    &&& forall|i: int|
                        #![trigger root_handlers(b)[i]]
                        0 <= i < root_handlers(b).len() ==> r.instance.root.reaches(root_handlers(b)[i])
                }
                &&& 1 + size(root_shape(b)) > u32::MAX ==> {
                    &&& r.instance.root@ == mount_view(mount_id@)
                    &&& r.host.ops() == seq![Op::InjectStylesheet { sheet: css::stylesheet_css() }]
                }
            },
{
    let mut host = Host::new();
    css::inject(&mut host);
    let root = Atom::mount(mount_id);
    let instance = Instance::wrap(root, state, app);
    let mut handle = Handle::from(instance, host);
    let ghost ops0 = handle.host.ops();
    proof {
        assert(ids(handle.instance.root@) =~= set![0nat]);
    }
    let _ = handle.render();
    proof {
        assert(ops0 =~= seq![Op::InjectStylesheet { sheet: css::stylesheet_css() }]);
    }
    handle
}

/// The state of an application that has none: no message changes it.
pub struct Stateless<M> {
    pub _message: PhantomData<M>,
}

impl<M> Stateless<M> {
    pub fn new() -> (r: Self) {
        Stateless { _message: PhantomData }
    }
}

impl<M> State for Stateless<M> {
    type Message = M;

    fn reduce(&mut self, message: M) {
    }
}

/// Starts an application without state, for views that never change.
pub fn simple<F: Fn(&Stateless<H::Message>) -> BlockData<H>, H: EventHandler>(
    mount_id: String,
    app: F,
) -> (r: Handle<Stateless<H::Message>, F, H>)
    requires
        app_ready(app),
    ensures
        r.instance.app == app,
        r.instance.root.wf(),
        r.delivered@ == Seq::<H::Message>::empty(),
        ids_fresh(r.instance.root@, r.host.next_id()),
        exists|b: BlockData<H>|
            {
                &&& #[trigger] app.ensures((&r.instance.state,), b)
                &&& 1 + size(root_shape(b)) <= u32::MAX ==> {
                    &&& r.instance.root@ == upgraded(mount_view(mount_id@), root_shape(b), 1)
                    &&& r.host.ops() == seq![Op::InjectStylesheet { sheet: css::stylesheet_css() }]
                        + upgrade_ops(mount_view(mount_id@), root_shape(b), 1)
                    &&& r.host.next_id() == 1 + upgrade_alloc(mount_view(mount_id@), root_shape(b))
                    &&& forall|i: int|
                        #![trigger root_handlers(b)[i]]
                        0 <= i < root_handlers(b).len() ==> r.instance.root.reaches(root_handlers(b)[i])
                }
                &&& 1 + size(root_shape(b)) > u32::MAX ==> {
                    &&& r.instance.root@ == mount_view(mount_id@)
                    &&& r.host.ops() == seq![Op::InjectStylesheet { sheet: css::stylesheet_css() }]
                }
            },
{
    launch(mount_id, Stateless::new(), app)
}

} // verus!
