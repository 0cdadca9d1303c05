use vstd::prelude::*;

use crate::events::EventHandler;
use crate::events::{Event, Coordinates, Button};
use super::{Candidate, Shape, listened, shapes, handlers_list, candidates_handlers, lemma_handlers_append};
use super::ffi::{Attribute, AttrView, AtomId, EventType, Host, Op, attrs_view, duplicate_all};

verus! {

/// A mounted node as the reconciler remembers it: its host identifier and
/// what it was last made to show.
pub enum Mounted {
    Text { id: AtomId, text: Seq<char> },
    Element { id: AtomId, attributes: Seq<AttrView>, events: Seq<EventType>, children: Seq<Mounted> },
}

/// The host identifier of `m`.
pub open spec fn id_of(m: Mounted) -> AtomId {
    match m {
        Mounted::Text { id, .. } => id,
        Mounted::Element { id, .. } => id,
    }
}

/// The mount node before anything is rendered under it: an element with
/// the attribute `id` = `mount_id`, no listener and no child.
pub open spec fn mount_view(mount_id: Seq<char>) -> Mounted {
    Mounted::Element {
        id: AtomId(0),
        attributes: seq![("id"@, mount_id)],
        events: Seq::empty(),
        children: Seq::empty(),
    }
}

/// The identifier with the number `n`.
pub open spec fn nth_id(n: nat) -> AtomId {
    AtomId(n as u32)
}

/// The number of nodes of `c`.
pub open spec fn size(c: Shape) -> nat
    decreases c, 0nat,
{
    match c {
        Shape::Text(_) => 1,
        Shape::Element { children, .. } => 1 + sizes(children, 0, children.len() as int),
    }
}

/// The number of nodes of the trees `cs[lo..hi]`.
pub open spec fn sizes(cs: Seq<Shape>, lo: int, hi: int) -> nat
    decreases cs, hi - lo,
{
    if hi <= lo || lo < 0 || hi > cs.len() {
        0
    } else {
        sizes(cs, lo, hi - 1) + size(cs[hi - 1])
    }
}

/// The changes that make node `id` listen to each kind in `events`, in order.
pub open spec fn event_ops(id: AtomId, events: Seq<EventType>) -> Seq<Op> {
    Seq::new(events.len(), |i: int| Op::CreateEvent { id, kind: events[i] })
}

/// The changes that create `c` under `parent`, its nodes numbered in
/// preorder from `next`: each node is created, then made to listen, then
/// its children follow in order.
pub open spec fn mount_ops(c: Shape, parent: AtomId, next: nat) -> Seq<Op>
    decreases c, 0nat,
{
    match c {
        Shape::Text(t) => seq![Op::CreateTextNode { id: nth_id(next), parent, text: t }],
        Shape::Element { attributes, events, children } =>
            seq![Op::CreateElement { id: nth_id(next), parent, attributes }]
                + event_ops(nth_id(next), events)
                + mount_list_ops(children, 0, children.len() as int, nth_id(next), next + 1),
    }
}

/// The changes that create the trees `cs[lo..hi]` under `parent`, in order,
/// numbered from `next`.
pub open spec fn mount_list_ops(cs: Seq<Shape>, lo: int, hi: int, parent: AtomId, next: nat) -> Seq<Op>
    decreases cs, hi - lo,
{
    if hi <= lo || lo < 0 || hi > cs.len() {
        Seq::empty()
    } else {
        mount_list_ops(cs, lo, hi - 1, parent, next)
            + mount_ops(cs[hi - 1], parent, next + sizes(cs, lo, hi - 1))
    }
}

/// The node that mounting `c` with numbers from `next` leaves.
pub open spec fn mounted(c: Shape, next: nat) -> Mounted
    decreases c, 0nat,
{
    match c {
        Shape::Text(t) => Mounted::Text { id: nth_id(next), text: t },
        Shape::Element { attributes, events, children } => Mounted::Element {
            id: nth_id(next),
            attributes,
            events,
            children: mounted_list(children, 0, children.len() as int, next + 1),
        },
    }
}

/// The nodes that mounting `cs[lo..hi]` with numbers from `next` leaves.
pub open spec fn mounted_list(cs: Seq<Shape>, lo: int, hi: int, next: nat) -> Seq<Mounted>
    decreases cs, hi - lo,
{
    if hi <= lo || lo < 0 || hi > cs.len() {
        Seq::empty()
    } else {
        mounted_list(cs, lo, hi - 1, next).push(mounted(cs[hi - 1], next + sizes(cs, lo, hi - 1)))
    }
}

/// The shape that `m` shows.
pub open spec fn shape_of(m: Mounted) -> Shape
    decreases m,
{
    match m {
        Mounted::Text { text, .. } => Shape::Text(text),
        Mounted::Element { attributes, events, children, .. } => Shape::Element {
            attributes,
            events,
            children: Seq::new(
                children.len(),
                |i: int|
                    if 0 <= i < children.len() {
                        shape_of(children[i])
                    } else {
                        Shape::Text(Seq::empty())
                    },
            ),
        },
    }
}

/// The changes that delete `existing[from..]`, last first.
pub open spec fn drop_ops(existing: Seq<Mounted>, from: int) -> Seq<Op>
    decreases existing.len() - from,
{
    if from < 0 || from >= existing.len() {
        Seq::empty()
    } else {
        drop_ops(existing, from + 1).push(Op::DeleteNode { id: id_of(existing[from]) })
    }
}

/// The number of nodes that the changes `upgrade_ops(m, c, _)` create.
pub open spec fn upgrade_alloc(m: Mounted, c: Shape) -> nat
    decreases c, 0nat,
{
    match c {
        Shape::Text(_) => 0,
        Shape::Element { children: cs, .. } => match m {
            Mounted::Text { .. } => sizes(cs, 0, cs.len() as int),
            Mounted::Element { children: ms, .. } => {
                let k = if ms.len() < cs.len() { ms.len() as int } else { cs.len() as int };
                upgrade_list_alloc(ms, cs, k) + sizes(cs, k, cs.len() as int)
            },
        },
    }
}

/// The number of nodes created to upgrade `ms[..k]` against `cs[..k]`.
pub open spec fn upgrade_list_alloc(ms: Seq<Mounted>, cs: Seq<Shape>, k: int) -> nat
    decreases cs, k,
{
    if k <= 0 || k > cs.len() || k > ms.len() {
        0
    } else {
        upgrade_list_alloc(ms, cs, k - 1) + upgrade_alloc(ms[k - 1], cs[k - 1])
    }
}

/// The changes that make the mounted node `m` show `c`, new nodes being
/// numbered from `next`.
///
/// Text against text changes the text only where it differs. Text against
/// an element, or an element against text, converts the node. An element
/// against an element always rewrites the attributes and listeners, then
/// deletes the trailing children that `c` no longer has, upgrades the
/// children that both have, in order, and mounts the ones that are new.
pub open spec fn upgrade_ops(m: Mounted, c: Shape, next: nat) -> Seq<Op>
    decreases c, 0nat,
{
    match c {
        Shape::Text(t) => match m {
            Mounted::Text { id, text } => if text == t {
                Seq::empty()
            } else {
                seq![Op::UpdateTextNode { id, text: t }]
            },
            Mounted::Element { id, .. } => seq![Op::ElementToTextNode { id, text: t }],
        },
        Shape::Element { attributes, events, children: cs } => match m {
            Mounted::Text { id, .. } =>
                seq![Op::TextNodeToElement { id, attributes }]
                    + event_ops(id, events)
                    + mount_list_ops(cs, 0, cs.len() as int, id, next),
            Mounted::Element { id, children: ms, .. } => {
                let k = if ms.len() < cs.len() { ms.len() as int } else { cs.len() as int };
                seq![Op::UpdateElement { id, attributes }]
                    + event_ops(id, events)
                    + drop_ops(ms, cs.len() as int)
                    + upgrade_list_ops(ms, cs, k, next)
                    + mount_list_ops(cs, k, cs.len() as int, id, next + upgrade_list_alloc(ms, cs, k))
            },
        },
    }
}

/// The changes that upgrade `ms[..k]` against `cs[..k]`, in order.
pub open spec fn upgrade_list_ops(ms: Seq<Mounted>, cs: Seq<Shape>, k: int, next: nat) -> Seq<Op>
    decreases cs, k,
{
    if k <= 0 || k > cs.len() || k > ms.len() {
        Seq::empty()
    } else {
        upgrade_list_ops(ms, cs, k - 1, next)
            + upgrade_ops(ms[k - 1], cs[k - 1], next + upgrade_list_alloc(ms, cs, k - 1))
    }
}

/// The node that `upgrade_ops(m, c, next)` leaves.
pub open spec fn upgraded(m: Mounted, c: Shape, next: nat) -> Mounted
    decreases c, 0nat,
{
    match c {
        Shape::Text(t) => Mounted::Text { id: id_of(m), text: t },
        Shape::Element { attributes, events, children: cs } => match m {
            Mounted::Text { id, .. } => Mounted::Element {
                id,
                attributes,
                events,
                children: mounted_list(cs, 0, cs.len() as int, next),
            },
            Mounted::Element { id, children: ms, .. } => {
                let k = if ms.len() < cs.len() { ms.len() as int } else { cs.len() as int };
                Mounted::Element {
                    id,
                    attributes,
                    events,
                    children: upgraded_list(ms, cs, k, next) + mounted_list(
                        cs,
                        k,
                        cs.len() as int,
                        next + upgrade_list_alloc(ms, cs, k),
                    ),
                }
            },
        },
    }
}

/// The nodes that `upgrade_list_ops(ms, cs, k, next)` leaves.
pub open spec fn upgraded_list(ms: Seq<Mounted>, cs: Seq<Shape>, k: int, next: nat) -> Seq<Mounted>
    decreases cs, k,
{
    if k <= 0 || k > cs.len() || k > ms.len() {
        Seq::empty()
    } else {
        upgraded_list(ms, cs, k - 1, next).push(
            upgraded(ms[k - 1], cs[k - 1], next + upgrade_list_alloc(ms, cs, k - 1)),
        )
    }
}

/// A mounted tree for each node of the candidate: the host tree is mounted
/// by this library.
pub struct Atom<H> {
    id: AtomId,
    content: Rendered<H>,
}

/// What a mounted node shows.
pub enum Rendered<H> {
    Text(String),
    Element {
        children: Vec<Atom<H>>,
        attributes: Vec<Attribute>,
        registered_events: Vec<EventType>,
        event_handler: Option<H>,
    },
}

impl<H> Atom<H> {
    /// The node that this atom shows, with what is under it.
    pub closed spec fn tree(&self) -> Mounted
        decreases self,
    {
        match &self.content {
            Rendered::Text(t) => Mounted::Text { id: self.id, text: t@ },
            Rendered::Element { children, attributes, registered_events, .. } => Mounted::Element {
                id: self.id,
                attributes: attrs_view(attributes@),
                events: registered_events@,
                children: Seq::new(
                    children@.len(),
                    |i: int|
                        if 0 <= i < children@.len() {
                            children@[i].tree()
                        } else {
                            Mounted::Text { id: self.id, text: Seq::empty() }
                        },
                ),
            },
        }
    }
}

impl<H> View for Atom<H> {
    type V = Mounted;

    open spec fn view(&self) -> Mounted {
        self.tree()
    }
}

impl<H> Atom<H> {
    /// The handlers held by the elements of this tree, in preorder.
    pub closed spec fn handlers(&self) -> Seq<H>
        decreases self, 0nat,
    {
        match &self.content {
            Rendered::Text(_) => Seq::empty(),
            Rendered::Element { children, event_handler, .. } => match event_handler {
                Some(h) => seq![*h] + atoms_handlers(children@, children@.len() as int),
                None => atoms_handlers(children@, children@.len() as int),
            },
        }
    }
}

/// The handlers held by the elements of the trees `atoms[..k]`, in
/// preorder.
pub open spec fn atoms_handlers<H>(atoms: Seq<Atom<H>>, k: int) -> Seq<H>
    decreases atoms, k,
{
    if k <= 0 || k > atoms.len() {
        Seq::empty()
    } else {
        atoms_handlers(atoms, k - 1) + atoms[k - 1].handlers()
    }
}

proof fn lemma_atoms_prefix<H>(a: Seq<Atom<H>>, b: Seq<Atom<H>>, k: int)
    requires
        0 <= k <= a.len(),
    ensures
        atoms_handlers(a + b, k) == atoms_handlers(a, k),
    decreases k,
{
    if k > 0 {
        lemma_atoms_prefix(a, b, k - 1);
        assert((a + b)[k - 1] == a[k - 1]);
    }
}

proof fn lemma_atoms_suffix<H>(a: Seq<Atom<H>>, b: Seq<Atom<H>>, j: int)
    requires
        0 <= j <= b.len(),
    ensures
        atoms_handlers(a + b, a.len() + j) == atoms_handlers(a, a.len() as int) + atoms_handlers(b, j),
    decreases j,
{
    if j == 0 {
        lemma_atoms_prefix(a, b, a.len() as int);
        assert(atoms_handlers(a, a.len() as int) + atoms_handlers(b, 0) =~= atoms_handlers(a, a.len() as int));
    } else {
        lemma_atoms_suffix(a, b, j - 1);
        assert((a + b)[a.len() + j - 1] == b[j - 1]);
        assert(atoms_handlers(a + b, a.len() + j) =~= atoms_handlers(a, a.len() as int) + atoms_handlers(b, j));
    }
}

proof fn lemma_atoms_append<H>(a: Seq<Atom<H>>, b: Seq<Atom<H>>)
    ensures
        atoms_handlers(a + b, (a.len() + b.len()) as int) == atoms_handlers(a, a.len() as int) + atoms_handlers(
            b,
            b.len() as int,
        ),
{
    lemma_atoms_suffix(a, b, b.len() as int);
}

proof fn lemma_candidates_split<H>(cs: Seq<Candidate<H>>, k: int)
    requires
        0 <= k <= cs.len(),
    ensures
        candidates_handlers(cs) == handlers_list(cs, k) + candidates_handlers(cs.subrange(k, cs.len() as int)),
{
    let a = cs.subrange(0, k);
    let b = cs.subrange(k, cs.len() as int);
    assert(a + b =~= cs);
    lemma_handlers_append(a, b);
    lemma_candidates_prefix_of(cs, a, k);
}

proof fn lemma_candidates_prefix_of<H>(cs: Seq<Candidate<H>>, a: Seq<Candidate<H>>, k: int)
    requires
        0 <= k <= a.len() <= cs.len(),
        forall|i: int| 0 <= i < a.len() ==> a[i] == cs[i],
    ensures
        handlers_list(a, k) == handlers_list(cs, k),
    decreases k,
{
    if k > 0 {
        lemma_candidates_prefix_of(cs, a, k - 1);
    }
}

/// The nodes that `atoms` show.
pub open spec fn views<H>(atoms: Seq<Atom<H>>) -> Seq<Mounted> {
    Seq::new(atoms.len(), |i: int| atoms[i]@)
}

pub proof fn lemma_sizes_split(cs: Seq<Shape>, lo: int, mid: int, hi: int)
    requires
        0 <= lo <= mid <= hi <= cs.len(),
    ensures
        sizes(cs, lo, hi) == sizes(cs, lo, mid) + sizes(cs, mid, hi),
    decreases hi - mid,
{
    if hi > mid {
        lemma_sizes_split(cs, lo, mid, hi - 1);
    }
}

proof fn lemma_shift(cs: Seq<Shape>, k: int, m: int, j: int, parent: AtomId, next: nat)
    requires
        0 <= k <= m <= cs.len(),
        0 <= j <= m - k,
    ensures
        sizes(cs.subrange(k, m), 0, j) == sizes(cs, k, k + j),
        mount_list_ops(cs.subrange(k, m), 0, j, parent, next) == mount_list_ops(cs, k, k + j, parent, next),
        mounted_list(cs.subrange(k, m), 0, j, next) == mounted_list(cs, k, k + j, next),
    decreases j,
{
    if j > 0 {
        lemma_shift(cs, k, m, j - 1, parent, next);
    }
}

proof fn lemma_alloc_bound(m: Mounted, c: Shape)
    ensures
        upgrade_alloc(m, c) + 1 <= size(c),
    decreases c, 1nat,
{
    match c {
        Shape::Text(_) => {},
        Shape::Element { children: cs, .. } => match m {
            Mounted::Text { .. } => {},
            Mounted::Element { children: ms, .. } => {
                let k = if ms.len() < cs.len() { ms.len() as int } else { cs.len() as int };
                lemma_list_alloc_bound(ms, cs, k);
                lemma_sizes_split(cs, 0, k, cs.len() as int);
            },
        },
    }
}

proof fn lemma_list_alloc_bound(ms: Seq<Mounted>, cs: Seq<Shape>, k: int)
    requires
        0 <= k <= cs.len(),
        k <= ms.len(),
    ensures
        upgrade_list_alloc(ms, cs, k) <= sizes(cs, 0, k),
    decreases cs, k,
{
    if k > 0 {
        lemma_list_alloc_bound(ms, cs, k - 1);
        lemma_alloc_bound(ms[k - 1], cs[k - 1]);
    }
}

/// Makes node `id` listen to each kind of event that `h` responds to.
fn listen<H: EventHandler>(h: &H, id: AtomId, host: &mut Host) -> (r: Vec<EventType>)
    requires
        h.ready(),
    ensures
        r@ == listened(*h),
        final(host).ops() == old(host).ops() + event_ops(id, listened(*h)),
        final(host).next_id() == old(host).next_id(),
{
    let ghost ops0 = host.ops();
    let mut r: Vec<EventType> = Vec::new();
    let zero = Coordinates { x: 0, y: 0 };
    if h.event(Event::Click(zero)).is_some() {
        host.create_event(id, EventType::Click);
        r.push(EventType::Click);
    }
    if h.event(Event::MouseDown(zero, Button::Left)).is_some() {
        host.create_event(id, EventType::MouseDown);
        r.push(EventType::MouseDown);
    }
    if h.event(Event::MouseUp(zero, Button::Left)).is_some() {
        host.create_event(id, EventType::MouseUp);
        r.push(EventType::MouseUp);
    }
    assert(r@ =~= listened(*h));
    assert(host.ops() =~= ops0 + event_ops(id, listened(*h)));
    r
}

impl<H: EventHandler> Atom<H> {
    /// Every handler of the tree may be called with any event.
    pub closed spec fn wf(&self) -> bool
        decreases self,
    {
        match &self.content {
            Rendered::Text(_) => true,
            Rendered::Element { children, event_handler, .. } => {
                &&& (event_handler matches Some(h) ==> h.ready())
                &&& forall|i: int| 0 <= i < children@.len() ==> (#[trigger] children@[i]).wf()
            },
        }
    }

    /// Mounts `candidate` under `parent`, numbering its nodes from the
    /// host's next identifier on.
    fn new(candidate: Candidate<H>, parent: AtomId, host: &mut Host) -> (r: Atom<H>)
        requires
            candidate.wf(),
            old(host).next_id() + size(candidate.shape()) <= u32::MAX,
        ensures
            r@ == mounted(candidate.shape(), old(host).next_id()),
            r.wf(),
            r.handlers() == candidate.handlers(),
            distinct(r@),
            forall|x: nat| #[trigger] ids(r@).contains(x) ==> old(host).next_id() <= x < final(host).next_id(),
            forall|t: AtomId, h: H| #[trigger] r.holds(t, h) ==> r.handler_of(t) == Some(h),
            forall|i: int|
                #![trigger candidate.handlers()[i]]
                0 <= i < candidate.handlers().len() ==> r.reaches(candidate.handlers()[i]),
            final(host).ops() == old(host).ops() + mount_ops(candidate.shape(), parent, old(host).next_id()),
            final(host).next_id() == old(host).next_id() + size(candidate.shape()),
        decreases 3 * size(candidate.shape()),
    {
        let ghost shape = candidate.shape();
        let ghost next = host.next_id();
        let ghost ops0 = host.ops();
        let ghost cand = candidate;
        match candidate {
            Candidate::Text(text) => {
                let id = host.create_text_node(text.clone(), parent);
                assert(host.ops() =~= ops0 + mount_ops(shape, parent, next));
                let r = Atom { id, content: Rendered::Text(text) };
                proof {
                    r.lemma_mounted_facts(shape, next);
                }
                r
            },
            Candidate::Element { children, attributes, event_handler } => {
                let ghost cs = shapes(children@);
                assert(cand->children == children);
                assert(cs =~= shape->children);
                let id = host.create_element(duplicate_all(&attributes), parent);
                let registered_events = listen(&event_handler, id, host);
                let atoms = mount_all(children, id, host);
                let ghost atoms_view = views(atoms@);
                let r = Atom {
                    id,
                    content: Rendered::Element {
                        children: atoms,
                        attributes,
                        registered_events,
                        event_handler: Some(event_handler),
                    },
                };
                assert(host.ops() =~= ops0 + mount_ops(shape, parent, next));
                assert(r@ =~= mounted(shape, next)) by {
                    assert(r@->children =~= atoms_view);
                }
                proof {
                    r.lemma_mounted_facts(shape, next);
                }
                r
            },
        }
    }
}

impl<H: EventHandler> Atom<H> {
    /// The root of a mounted tree: the host node that the application is
    /// mounted under, whose `id` attribute is `mount_id`.
    pub fn mount(mount_id: String) -> (r: Atom<H>)
        ensures
            r@ == mount_view(mount_id@),
            r.wf(),
    {
        let mut attributes: Vec<Attribute> = Vec::new();
        attributes.push(Attribute::new("id", mount_id));
        let r = Atom {
            id: AtomId::root(),
            content: Rendered::Element {
                children: Vec::new(),
                attributes,
                registered_events: Vec::new(),
                event_handler: None,
            },
        };
        assert(r@->attributes =~= seq![("id"@, mount_id@)]);
        assert(r@->children =~= Seq::<Mounted>::empty());
        r
    }

    /// The host identifier of this node.
    pub fn id(&self) -> (r: AtomId)
        ensures
            r == id_of(self@),
    {
        self.id
    }

    /// The handler of the first node, in preorder, whose identifier is
    /// `target` and that has one.
    pub closed spec fn handler_of(&self, target: AtomId) -> Option<H>
        decreases self, 0nat,
    {
        match &self.content {
            Rendered::Text(_) => None,
            Rendered::Element { children, event_handler, .. } => {
                if self.id == target && event_handler is Some {
                    *event_handler
                } else {
                    Self::handler_among(children@, children@.len() as int, target)
                }
            },
        }
    }

    /// `handler_of` over the trees `atoms[..k]`, the first one that has it.
    pub closed spec fn handler_among(atoms: Seq<Atom<H>>, k: int, target: AtomId) -> Option<H>
        decreases atoms, k,
    {
        if k <= 0 || k > atoms.len() {
            None
        } else {
            match Self::handler_among(atoms, k - 1, target) {
                Some(h) => Some(h),
                None => atoms[k - 1].handler_of(target),
            }
        }
    }

    proof fn lemma_handler_among_stays(atoms: Seq<Atom<H>>, k: int, j: int, target: AtomId)
        requires
            0 <= k <= j <= atoms.len(),
            Self::handler_among(atoms, k, target) is Some,
        ensures
            Self::handler_among(atoms, j, target) == Self::handler_among(atoms, k, target),
        decreases j - k,
    {
        if j > k {
            Self::lemma_handler_among_stays(atoms, k, j - 1, target);
        }
    }

    /// Passes `event`, fired on the host node `target`, to the handler that
    /// was last given to that node; `None` where there is no such node or
    /// its handler yields no message.
    pub fn dispatch(&self, target: AtomId, event: Event) -> (r: Option<H::Message>)
        requires
            self.wf(),
        ensures
            r is Some <==> (self.handler_of(target) matches Some(h) && h.responds(event)),
            r matches Some(m) ==> (self.handler_of(target) matches Some(h) && h.handles(event, m)),
        decreases self,
    {
        match &self.content {
            Rendered::Text(_) => None,
            Rendered::Element { children, event_handler, .. } => {
                if self.id == target {
                    if let Some(h) = event_handler {
                        return h.event(event);
                    }
                }
                proof {
                    assert forall|j: int| 0 <= j < children@.len() implies decreases_to!(*self => children@[j]) by {
                        vstd::std_specs::vec::axiom_vec_index_decreases(*children, j);
                    }
                }
                let mut i: usize = 0;
                while i < children.len()
                    invariant
                        i <= children@.len(),
                        forall|j: int| 0 <= j < children@.len() ==> (#[trigger] children@[j]).wf(),
                        forall|j: int| 0 <= j < children@.len() ==> decreases_to!(*self => children@[j]),
                        self.handler_of(target) == Self::handler_among(children@, children@.len() as int, target),
                        (Self::handler_among(children@, i as int, target) is None),
                    decreases children@.len() - i,
                {
                    if children[i].handler_of_exists(target) {
                        proof {
                            Self::lemma_handler_among_stays(children@, i as int + 1, children@.len() as int, target);
                        }
                        return children[i].dispatch(target, event);
                    }
                    i += 1;
                }
                None
            },
        }
    }

    /// Whether some node of this tree has the identifier `target` and a
    /// handler.
    fn handler_of_exists(&self, target: AtomId) -> (r: bool)
        ensures
            r == (self.handler_of(target) is Some),
        decreases self,
    {
        match &self.content {
            Rendered::Text(_) => false,
            Rendered::Element { children, event_handler, .. } => {
                if self.id == target && event_handler.is_some() {
                    return true;
                }
                proof {
                    assert forall|j: int| 0 <= j < children@.len() implies decreases_to!(*self => children@[j]) by {
                        vstd::std_specs::vec::axiom_vec_index_decreases(*children, j);
                    }
                }
                let mut i: usize = 0;
                while i < children.len()
                    invariant
                        i <= children@.len(),
                        forall|j: int| 0 <= j < children@.len() ==> decreases_to!(*self => children@[j]),
                        self.handler_of(target) == Self::handler_among(children@, children@.len() as int, target),
                        (Self::handler_among(children@, i as int, target) is None),
                    decreases children@.len() - i,
                {
                    if children[i].handler_of_exists(target) {
                        proof {
                            Self::lemma_handler_among_stays(children@, i as int + 1, children@.len() as int, target);
                        }
                        return true;
                    }
                    i += 1;
                }
                false
            },
        }
    }

    /// Makes this mounted tree show `candidate`, with as few changes to
    /// the host as the policy of `upgrade_ops` allows; new nodes are
    /// numbered from the host's next identifier on.
    pub fn upgrade(&mut self, candidate: Candidate<H>, host: &mut Host)
        requires
            old(self).wf(),
            candidate.wf(),
            old(host).next_id() + size(candidate.shape()) <= u32::MAX,
        ensures
            final(self)@ == upgraded(old(self)@, candidate.shape(), old(host).next_id()),
            final(self).wf(),
            final(host).ops() == old(host).ops() + upgrade_ops(old(self)@, candidate.shape(), old(host).next_id()),
            final(host).next_id() == old(host).next_id() + upgrade_alloc(old(self)@, candidate.shape()),
            final(self).handlers() == candidate.handlers(),
            ids_fresh(old(self)@, old(host).next_id()) ==> ids_fresh(final(self)@, final(host).next_id()),
            ids_fresh(old(self)@, old(host).next_id()) ==> forall|t: AtomId, h: H|
                #[trigger] final(self).holds(t, h) ==> final(self).handler_of(t) == Some(h),
            ids_fresh(old(self)@, old(host).next_id()) ==> forall|i: int|
                #![trigger candidate.handlers()[i]]
                0 <= i < candidate.handlers().len() ==> final(self).reaches(candidate.handlers()[i]),
            (candidate matches Candidate::Element { event_handler, .. } ==> final(self).handler_of(
                id_of(old(self)@),
            ) == Some(event_handler)),
        decreases 3 * size(candidate.shape()),
    {
        let ghost shape = candidate.shape();
        let ghost before = self@;
        let ghost next = host.next_id();
        let ghost ops0 = host.ops();
        let ghost cand = candidate;
        let mut content = Rendered::Text(String::new());
        std::mem::swap(&mut content, &mut self.content);
        match candidate {
            Candidate::Text(new_text) => {
                match content {
                    Rendered::Text(old_text) => {
                        if old_text == new_text {
                            self.content = Rendered::Text(old_text);
                        } else {
                            host.update_text_node(new_text.clone(), self.id);
                            self.content = Rendered::Text(new_text);
                        }
                    },
                    Rendered::Element { .. } => {
                        host.element_to_text_node(self.id, new_text.clone());
                        self.content = Rendered::Text(new_text);
                    },
                }
                assert(host.ops() =~= ops0 + upgrade_ops(before, shape, next));
            },
            Candidate::Element { children: new_children, attributes, event_handler } => {
                assert(cand->children == new_children);
                assert(shapes(new_children@) =~= shape->children);
                match content {
                    Rendered::Text(_) => {
                        host.text_node_to_element(self.id, duplicate_all(&attributes));
                        let registered_events = listen(&event_handler, self.id, host);
                        let atoms = mount_all(new_children, self.id, host);
                        let ghost atoms_view = views(atoms@);
                        self.content = Rendered::Element {
                            children: atoms,
                            attributes,
                            registered_events,
                            event_handler: Some(event_handler),
                        };
                        assert(self@->children =~= atoms_view);
                    },
                    Rendered::Element { children: old_children, .. } => {
                        let ghost old_view = views(old_children@);
                        assert(old_view =~= before->children);
                        host.update_element(self.id, duplicate_all(&attributes));
                        let registered_events = listen(&event_handler, self.id, host);
                        let atoms = reconcile(old_children, new_children, self.id, host);
                        let ghost atoms_view = views(atoms@);
                        self.content = Rendered::Element {
                            children: atoms,
                            attributes,
                            registered_events,
                            event_handler: Some(event_handler),
                        };
                        assert(self@->children =~= atoms_view);
                    },
                }
                assert(host.ops() =~= ops0 + upgrade_ops(before, shape, next));
                assert(self@ =~= upgraded(before, shape, next));
            },
        }
        proof {
            assert(self@ == upgraded(before, shape, next));
            if ids_fresh(before, next) {
                self.lemma_upgraded_facts(before, shape, next);
            }
        }
    }
}

/// Makes the mounted children `existing` of `parent` show `candidates`:
/// deletes the trailing ones that have no candidate, upgrades each of the
/// others against the candidate at its position, and mounts the candidates
/// that are left over, in order.
fn reconcile<H: EventHandler>(
    existing: Vec<Atom<H>>,
    candidates: Vec<Candidate<H>>,
    parent: AtomId,
    host: &mut Host,
) -> (r: Vec<Atom<H>>)
    requires
        forall|i: int| 0 <= i < existing@.len() ==> (#[trigger] existing@[i]).wf(),
        forall|i: int| 0 <= i < candidates@.len() ==> (#[trigger] candidates@[i]).wf(),
        old(host).next_id() + sizes(shapes(candidates@), 0, candidates@.len() as int) <= u32::MAX,
    ensures
        ({
            let ms = views(existing@);
            let cs = shapes(candidates@);
            let m = cs.len() as int;
            let k = if ms.len() < cs.len() { ms.len() as int } else { m };
            let next = old(host).next_id();
            &&& views(r@) == upgraded_list(ms, cs, k, next) + mounted_list(
                cs,
                k,
                m,
                next + upgrade_list_alloc(ms, cs, k),
            )
            &&& final(host).ops() == old(host).ops() + drop_ops(ms, m) + upgrade_list_ops(ms, cs, k, next)
                + mount_list_ops(cs, k, m, parent, next + upgrade_list_alloc(ms, cs, k))
            &&& final(host).next_id() == next + upgrade_list_alloc(ms, cs, k) + sizes(cs, k, m)
        }),
        atoms_handlers(r@, r@.len() as int) == candidates_handlers(candidates@),
        forall|i: int| 0 <= i < r@.len() ==> (#[trigger] r@[i]).wf(),
    decreases 3 * sizes(shapes(candidates@), 0, candidates@.len() as int) + 2,
{
    let ghost ms = views(existing@);
    let ghost atoms0 = existing@;
    let ghost cands = candidates@;
    let ghost cs = shapes(candidates@);
    let ghost next = host.next_id();
    let ghost ops0 = host.ops();
    let m = candidates.len();
    let ghost k: int = if ms.len() < cs.len() { ms.len() as int } else { m as int };
    let mut old_atoms = existing;
    while old_atoms.len() > m
        invariant
            m == cs.len(),
            ms == views(atoms0),
            old_atoms@.len() <= atoms0.len(),
            old_atoms@ == atoms0.subrange(0, old_atoms@.len() as int),
            old_atoms@.len() >= k,
            k <= m,
            host.ops() == ops0 + drop_ops(ms, old_atoms@.len() as int),
            host.next_id() == next,
        decreases old_atoms@.len(),
    {
        let a = old_atoms.pop().unwrap();
        assert(a == atoms0[old_atoms@.len() as int]);
        assert(id_of(a@) == a.id);
        host.delete_node(a.id);
        assert(host.ops() =~= ops0 + drop_ops(ms, old_atoms@.len() as int));
    }
    assert(old_atoms@.len() == k);
    let mut rest = candidates;
    let mut r: Vec<Atom<H>> = Vec::new();
    let mut i: usize = 0;
    let count = old_atoms.len();
    proof {
        lemma_sizes_split(cs, 0, k, m as int);
    }
    while i < count
        invariant
            count == k,
            k <= m,
            m == cs.len(),
            cands.len() == m,
            cands == candidates@,
            cs == shapes(cands),
            ms == views(atoms0),
            atoms0 == existing@,
            k <= atoms0.len(),
            i <= count,
            old_atoms@ == atoms0.subrange(i as int, k),
            rest@ == cands.subrange(i as int, m as int),
            forall|j: int| 0 <= j < atoms0.len() ==> (#[trigger] atoms0[j]).wf(),
            forall|j: int| 0 <= j < m ==> (#[trigger] cands[j]).wf(),
            next + sizes(cs, 0, m as int) <= u32::MAX,
            sizes(cs, 0, m as int) == sizes(cs, 0, k) + sizes(cs, k, m as int),
            views(r@) == upgraded_list(ms, cs, i as int, next),
            r@.len() == i,
            atoms_handlers(r@, i as int) == handlers_list(cands, i as int),
            forall|j: int| 0 <= j < r@.len() ==> (#[trigger] r@[j]).wf(),
            host.ops() == ops0 + drop_ops(ms, m as int) + upgrade_list_ops(ms, cs, i as int, next),
            host.next_id() == next + upgrade_list_alloc(ms, cs, i as int),
        decreases count - i,
    {
        let mut a = old_atoms.remove(0);
        let c = rest.remove(0);
        assert(a == atoms0[i as int]);
        assert(c == cands[i as int]);
        proof {
            lemma_list_alloc_bound(ms, cs, i as int);
            lemma_sizes_split(cs, 0, i as int + 1, k);
            assert(c.shape() == cs[i as int]);
            assert(a@ == ms[i as int]);
        }
        a.upgrade(c, host);
        proof {
            assert(views(r@.push(a)) =~= views(r@).push(a@));
            assert(r@.push(a) =~= r@ + seq![a]);
            lemma_atoms_prefix(r@, seq![a], i as int);
            assert(host.ops() =~= ops0 + drop_ops(ms, m as int) + upgrade_list_ops(ms, cs, i as int + 1, next));
        }
        r.push(a);
        i += 1;
    }
    let ghost mid = host.next_id();
    let ghost ops1 = host.ops();
    proof {
        lemma_list_alloc_bound(ms, cs, k);
        assert(rest@ == cands.subrange(k, m as int));
        assert(shapes(rest@) =~= cs.subrange(k, m as int));
        lemma_shift(cs, k, m as int, m as int - k, parent, mid);
    }
    let more = mount_all(rest, parent, host);
    let ghost r_view = views(r@);
    let ghost more_view = views(more@);
    let ghost r_atoms = r@;
    let ghost more_atoms = more@;
    let mut more = more;
    r.append(&mut more);
    proof {
        assert(views(r@) =~= r_view + more_view);
        assert(r@ =~= r_atoms + more_atoms);
        lemma_atoms_append(r_atoms, more_atoms);
        lemma_candidates_split(cands, k);
        assert(host.ops() =~= ops0 + drop_ops(ms, m as int) + upgrade_list_ops(ms, cs, k, next)
            + mount_list_ops(cs, k, m as int, parent, next + upgrade_list_alloc(ms, cs, k)));
    }
    r
}

/// Mounts `candidates` under `parent`, in order.
fn mount_all<H: EventHandler>(candidates: Vec<Candidate<H>>, parent: AtomId, host: &mut Host) -> (r: Vec<Atom<H>>)
    requires
        forall|i: int| 0 <= i < candidates@.len() ==> (#[trigger] candidates@[i]).wf(),
        old(host).next_id() + sizes(shapes(candidates@), 0, candidates@.len() as int) <= u32::MAX,
    ensures
        views(r@) == mounted_list(shapes(candidates@), 0, candidates@.len() as int, old(host).next_id()),
        atoms_handlers(r@, r@.len() as int) == candidates_handlers(candidates@),
        r@.len() == candidates@.len(),
        forall|i: int| 0 <= i < r@.len() ==> (#[trigger] r@[i]).wf(),
        final(host).ops() == old(host).ops() + mount_list_ops(
            shapes(candidates@),
            0,
            candidates@.len() as int,
            parent,
            old(host).next_id(),
        ),
        final(host).next_id() == old(host).next_id() + sizes(shapes(candidates@), 0, candidates@.len() as int),
    decreases 3 * sizes(shapes(candidates@), 0, candidates@.len() as int) + 1,
{
    let ghost cands = candidates@;
    let ghost cs = shapes(candidates@);
    let ghost n = candidates@.len() as int;
    let ghost next = host.next_id();
    let ghost ops0 = host.ops();
    let total = candidates.len();
    let mut rest = candidates;
    let mut r: Vec<Atom<H>> = Vec::new();
    let mut i: usize = 0;
    while i < total
        invariant
            total == n,
            cands.len() == n,
            cands == candidates@,
            i <= total,
            rest@ == cands.subrange(i as int, n),
            cs == shapes(cands),
            forall|j: int| 0 <= j < n ==> (#[trigger] cands[j]).wf(),
            next + sizes(cs, 0, n) <= u32::MAX,
            views(r@) == mounted_list(cs, 0, i as int, next),
            r@.len() == i,
            atoms_handlers(r@, i as int) == handlers_list(cands, i as int),
            forall|j: int| 0 <= j < r@.len() ==> (#[trigger] r@[j]).wf(),
            host.ops() == ops0 + mount_list_ops(cs, 0, i as int, parent, next),
            host.next_id() == next + sizes(cs, 0, i as int),
        decreases total - i,
    {
        let c = rest.remove(0);
        assert(c == cands[i as int]);
        proof {
            lemma_sizes_split(cs, 0, i as int + 1, n);
            assert(c.shape() == cs[i as int]);
            assert(sizes(cs, 0, i as int + 1) == sizes(cs, 0, i as int) + size(cs[i as int]));
        }
        let a = Atom::new(c, parent, host);
        proof {
            assert(views(r@.push(a)) =~= views(r@).push(a@));
            assert(r@.push(a) =~= r@ + seq![a]);
            lemma_atoms_prefix(r@, seq![a], i as int);
            assert(host.ops() =~= ops0 + mount_list_ops(cs, 0, i as int + 1, parent, next));
        }
        r.push(a);
        i += 1;
    }
    r
}

} // verus!

verus! {

/// The changes that upgrading `m` against its own shape asks for: each
/// element's attributes and listeners are written again.
pub open spec fn rewrite_ops(m: Mounted) -> Seq<Op>
    decreases m, 0nat,
{
    match m {
        Mounted::Text { .. } => Seq::empty(),
        Mounted::Element { id, attributes, events, children } =>
            seq![Op::UpdateElement { id, attributes }] + event_ops(id, events)
                + rewrite_list_ops(children, children.len() as int),
    }
}

/// The changes `rewrite_ops` of `ms[..k]`, in order.
pub open spec fn rewrite_list_ops(ms: Seq<Mounted>, k: int) -> Seq<Op>
    decreases ms, k,
{
    if k <= 0 || k > ms.len() {
        Seq::empty()
    } else {
        rewrite_list_ops(ms, k - 1) + rewrite_ops(ms[k - 1])
    }
}

/// `op` rewrites the attributes of an element or makes it listen again.
pub open spec fn is_rewrite(op: Op) -> bool {
    op is UpdateElement || op is CreateEvent
}

proof fn lemma_rewrites_only(m: Mounted)
    ensures
        forall|i: int| 0 <= i < rewrite_ops(m).len() ==> is_rewrite(#[trigger] rewrite_ops(m)[i]),
    decreases m, 1nat,
{
    if let Mounted::Element { id, attributes, events, children } = m {
        lemma_rewrite_list_only(children, children.len() as int);
        let a = seq![Op::UpdateElement { id, attributes }] + event_ops(id, events);
        let b = rewrite_list_ops(children, children.len() as int);
        assert forall|i: int| 0 <= i < (a + b).len() implies is_rewrite(#[trigger] (a + b)[i]) by {
            if i >= a.len() {
                assert((a + b)[i] == b[i - a.len()]);
            }
        }
    }
}

proof fn lemma_rewrite_list_only(ms: Seq<Mounted>, k: int)
    requires
        0 <= k <= ms.len(),
    ensures
        forall|i: int|
            0 <= i < rewrite_list_ops(ms, k).len() ==> is_rewrite(#[trigger] rewrite_list_ops(ms, k)[i]),
    decreases ms, k,
{
    if k > 0 {
        lemma_rewrite_list_only(ms, k - 1);
        lemma_rewrites_only(ms[k - 1]);
        let a = rewrite_list_ops(ms, k - 1);
        let b = rewrite_ops(ms[k - 1]);
        assert forall|i: int| 0 <= i < (a + b).len() implies is_rewrite(#[trigger] (a + b)[i]) by {
            if i >= a.len() {
                assert((a + b)[i] == b[i - a.len()]);
            }
        }
    }
}

proof fn lemma_mount_shape(c: Shape, next: nat)
    ensures
        shape_of(mounted(c, next)) == c,
    decreases c, 1nat,
{
    if let Shape::Element { attributes, events, children } = c {
        lemma_mount_list_shape(children, 0, children.len() as int, next + 1);
        assert(shape_of(mounted(c, next))->children =~= children);
    }
}

proof fn lemma_mount_list_shape(cs: Seq<Shape>, lo: int, hi: int, next: nat)
    requires
        0 <= lo <= hi <= cs.len(),
    ensures
        mounted_list(cs, lo, hi, next).len() == hi - lo,
        forall|i: int|
            0 <= i < hi - lo ==> shape_of(#[trigger] mounted_list(cs, lo, hi, next)[i]) == cs[lo + i],
    decreases cs, hi - lo,
{
    if hi > lo {
        lemma_mount_list_shape(cs, lo, hi - 1, next);
        lemma_mount_shape(cs[hi - 1], next + sizes(cs, lo, hi - 1));
    }
}

proof fn lemma_upgrade_shape(m: Mounted, c: Shape, next: nat)
    ensures
        shape_of(upgraded(m, c, next)) == c,
    decreases c, 1nat,
{
    if let Shape::Element { attributes, events, children: cs } = c {
        match m {
            Mounted::Text { .. } => {
                lemma_mount_list_shape(cs, 0, cs.len() as int, next);
                assert(shape_of(upgraded(m, c, next))->children =~= cs);
            },
            Mounted::Element { children: ms, .. } => {
                let k = if ms.len() < cs.len() { ms.len() as int } else { cs.len() as int };
                lemma_upgrade_list_shape(ms, cs, k, next);
                lemma_mount_list_shape(cs, k, cs.len() as int, next + upgrade_list_alloc(ms, cs, k));
                let l = upgraded_list(ms, cs, k, next);
                let r = mounted_list(cs, k, cs.len() as int, next + upgrade_list_alloc(ms, cs, k));
                assert forall|i: int| 0 <= i < cs.len() implies shape_of(#[trigger] (l + r)[i]) == cs[i] by {
                    if i >= k {
                        assert((l + r)[i] == r[i - k]);
                    }
                }
                assert(shape_of(upgraded(m, c, next))->children =~= cs);
            },
        }
    }
}

proof fn lemma_upgrade_list_shape(ms: Seq<Mounted>, cs: Seq<Shape>, k: int, next: nat)
    requires
        0 <= k <= cs.len(),
        k <= ms.len(),
    ensures
        upgraded_list(ms, cs, k, next).len() == k,
        forall|i: int| 0 <= i < k ==> shape_of(#[trigger] upgraded_list(ms, cs, k, next)[i]) == cs[i],
    decreases cs, k,
{
    if k > 0 {
        lemma_upgrade_list_shape(ms, cs, k - 1, next);
        lemma_upgrade_shape(ms[k - 1], cs[k - 1], next + upgrade_list_alloc(ms, cs, k - 1));
    }
}

proof fn lemma_self_upgrade(m: Mounted, next: nat)
    ensures
        upgrade_ops(m, shape_of(m), next) == rewrite_ops(m),
        upgraded(m, shape_of(m), next) == m,
        upgrade_alloc(m, shape_of(m)) == 0,
    decreases m, 1nat,
{
    if let Mounted::Element { id, attributes, events, children: ms } = m {
        let cs = shape_of(m)->children;
        lemma_self_upgrade_list(ms, cs, ms.len() as int, next);
        assert(drop_ops(ms, cs.len() as int) =~= Seq::<Op>::empty());
        assert(mount_list_ops(cs, ms.len() as int, cs.len() as int, id, next) =~= Seq::<Op>::empty());
        assert(upgrade_ops(m, shape_of(m), next) =~= rewrite_ops(m));
        assert(upgraded(m, shape_of(m), next)->children =~= ms);
    }
}

proof fn lemma_self_upgrade_list(ms: Seq<Mounted>, cs: Seq<Shape>, k: int, next: nat)
    requires
        0 <= k <= ms.len(),
        cs.len() == ms.len(),
        forall|i: int| 0 <= i < ms.len() ==> cs[i] == shape_of(#[trigger] ms[i]),
    ensures
        upgrade_list_ops(ms, cs, k, next) == rewrite_list_ops(ms, k),
        upgraded_list(ms, cs, k, next) == ms.subrange(0, k),
        upgrade_list_alloc(ms, cs, k) == 0,
    decreases ms, k,
{
    if k > 0 {
        lemma_self_upgrade_list(ms, cs, k - 1, next);
        lemma_self_upgrade(ms[k - 1], next);
        assert(upgraded_list(ms, cs, k, next) =~= ms.subrange(0, k));
    }
}

/// Mounting a tree leaves a mounted tree that shows exactly that tree.
pub proof fn law_mount_congruent(c: Shape, next: nat)
    ensures
        shape_of(mounted(c, next)) == c,
{
    lemma_mount_shape(c, next);
}

/// After an upgrade the mounted tree shows exactly the candidate: no node
/// keeps stale text, attributes, listeners or children.
pub proof fn law_upgrade_congruent(m: Mounted, c: Shape, next: nat)
    ensures
        shape_of(upgraded(m, c, next)) == c,
{
    lemma_upgrade_shape(m, c, next);
}

/// Upgrading twice in a row against the same candidate: the second upgrade
/// creates, deletes, converts and changes no node and no text; it only
/// writes again each element's attributes and listeners. Against a text
/// candidate it asks for no change at all.
pub proof fn law_upgrade_idempotent(m: Mounted, c: Shape, next1: nat, next2: nat)
    ensures
        ({
            let once = upgraded(m, c, next1);
            &&& upgraded(once, c, next2) == once
            &&& upgrade_alloc(once, c) == 0
            &&& upgrade_ops(once, c, next2) == rewrite_ops(once)
            &&& forall|i: int|
                0 <= i < upgrade_ops(once, c, next2).len() ==> is_rewrite(
                    #[trigger] upgrade_ops(once, c, next2)[i],
                )
            &&& c is Text ==> upgrade_ops(once, c, next2).len() == 0
        }),
{
    let once = upgraded(m, c, next1);
    lemma_upgrade_shape(m, c, next1);
    lemma_self_upgrade(once, next2);
    lemma_rewrites_only(once);
}

/// A text node upgraded against text: no change where the text is equal,
/// else exactly one change of the text.
pub proof fn law_text_update(id: AtomId, old_text: Seq<char>, new_text: Seq<char>, next: nat)
    ensures
        old_text == new_text ==> upgrade_ops(
            Mounted::Text { id, text: old_text },
            Shape::Text(new_text),
            next,
        ) == Seq::<Op>::empty(),
        old_text != new_text ==> upgrade_ops(
            Mounted::Text { id, text: old_text },
            Shape::Text(new_text),
            next,
        ) == seq![Op::UpdateTextNode { id, text: new_text }],
{
}

/// A text node upgraded against an element: one conversion of the node,
/// its listeners, then every child of the candidate mounted afresh, in
/// order.
pub proof fn law_kind_switch(
    id: AtomId,
    text: Seq<char>,
    attributes: Seq<AttrView>,
    events: Seq<EventType>,
    children: Seq<Shape>,
    next: nat,
)
    ensures
        ({
            let m = Mounted::Text { id, text };
            let c = Shape::Element { attributes, events, children };
            &&& upgrade_ops(m, c, next) == seq![Op::TextNodeToElement { id, attributes }]
                + event_ops(id, events) + mount_list_ops(children, 0, children.len() as int, id, next)
            &&& upgraded(m, c, next) == Mounted::Element {
                id,
                attributes,
                events,
                children: mounted_list(children, 0, children.len() as int, next),
            }
        }),
{
}

/// An element upgraded against an element with no more children: the
/// trailing children that the candidate lacks are deleted, one deletion
/// each, last first; the others are upgraded in place, in order; nothing is
/// mounted.
pub proof fn law_child_shrink(
    id: AtomId,
    old_attributes: Seq<AttrView>,
    old_events: Seq<EventType>,
    ms: Seq<Mounted>,
    attributes: Seq<AttrView>,
    events: Seq<EventType>,
    cs: Seq<Shape>,
    next: nat,
)
    requires
        cs.len() <= ms.len(),
    ensures
        ({
            let m = Mounted::Element { id, attributes: old_attributes, events: old_events, children: ms };
            let c = Shape::Element { attributes, events, children: cs };
            let k = cs.len() as int;
            &&& upgrade_ops(m, c, next) == seq![Op::UpdateElement { id, attributes }]
                + event_ops(id, events) + drop_ops(ms, k) + upgrade_list_ops(ms, cs, k, next)
            &&& drop_ops(ms, k) == Seq::new(
                (ms.len() - k) as nat,
                |i: int| Op::DeleteNode { id: id_of(ms[ms.len() - 1 - i]) },
            )
            &&& upgraded(m, c, next) == Mounted::Element {
                id,
                attributes,
                events,
                children: upgraded_list(ms, cs, k, next),
            }
        }),
{
    let k = cs.len() as int;
    lemma_drop_ops(ms, k);
    assert(mount_list_ops(cs, k, k, id, next + upgrade_list_alloc(ms, cs, k)) =~= Seq::<Op>::empty());
    let m = Mounted::Element { id, attributes: old_attributes, events: old_events, children: ms };
    let c = Shape::Element { attributes, events, children: cs };
    assert(upgrade_ops(m, c, next) =~= seq![Op::UpdateElement { id, attributes }]
        + event_ops(id, events) + drop_ops(ms, k) + upgrade_list_ops(ms, cs, k, next));
    assert(upgraded(m, c, next)->children =~= upgraded_list(ms, cs, k, next));
}

proof fn lemma_drop_ops(ms: Seq<Mounted>, from: int)
    requires
        0 <= from <= ms.len(),
    ensures
        drop_ops(ms, from) == Seq::new(
            (ms.len() - from) as nat,
            |i: int| Op::DeleteNode { id: id_of(ms[ms.len() - 1 - i]) },
        ),
    decreases ms.len() - from,
{
    if from < ms.len() {
        lemma_drop_ops(ms, from + 1);
        assert(drop_ops(ms, from) =~= Seq::new(
            (ms.len() - from) as nat,
            |i: int| Op::DeleteNode { id: id_of(ms[ms.len() - 1 - i]) },
        ));
    } else {
        assert(drop_ops(ms, from) =~= Seq::new(
            (ms.len() - from) as nat,
            |i: int| Op::DeleteNode { id: id_of(ms[ms.len() - 1 - i]) },
        ));
    }
}

/// An element upgraded against an element with at least as many children:
/// nothing is deleted, the existing children are upgraded in place, in
/// order, and the extra candidates are mounted after them, in order.
pub proof fn law_child_growth(
    id: AtomId,
    old_attributes: Seq<AttrView>,
    old_events: Seq<EventType>,
    ms: Seq<Mounted>,
    attributes: Seq<AttrView>,
    events: Seq<EventType>,
    cs: Seq<Shape>,
    next: nat,
)
    requires
        ms.len() <= cs.len(),
    ensures
        ({
            let m = Mounted::Element { id, attributes: old_attributes, events: old_events, children: ms };
            let c = Shape::Element { attributes, events, children: cs };
            let k = ms.len() as int;
            let after = next + upgrade_list_alloc(ms, cs, k);
            &&& upgrade_ops(m, c, next) == seq![Op::UpdateElement { id, attributes }]
                + event_ops(id, events) + upgrade_list_ops(ms, cs, k, next)
                + mount_list_ops(cs, k, cs.len() as int, id, after)
            &&& upgraded(m, c, next) == Mounted::Element {
                id,
                attributes,
                events,
                children: upgraded_list(ms, cs, k, next) + mounted_list(cs, k, cs.len() as int, after),
            }
        }),
{
    let k = ms.len() as int;
    assert(drop_ops(ms, cs.len() as int) =~= Seq::<Op>::empty());
    let m = Mounted::Element { id, attributes: old_attributes, events: old_events, children: ms };
    let c = Shape::Element { attributes, events, children: cs };
    let after = next + upgrade_list_alloc(ms, cs, k);
    assert(upgrade_ops(m, c, next) =~= seq![Op::UpdateElement { id, attributes }]
        + event_ops(id, events) + upgrade_list_ops(ms, cs, k, next)
        + mount_list_ops(cs, k, cs.len() as int, id, after));
}

} // verus!

verus! {

/// The identifiers of the nodes of `m`, as numbers.
pub open spec fn ids(m: Mounted) -> Set<nat>
    decreases m, 0nat,
{
    match m {
        Mounted::Text { id, .. } => set![id.0 as nat],
        Mounted::Element { id, children, .. } => ids_list(children, children.len() as int).insert(id.0 as nat),
    }
}

/// The identifiers of the nodes of the trees `ms[..k]`.
pub open spec fn ids_list(ms: Seq<Mounted>, k: int) -> Set<nat>
    decreases ms, k,
{
    if k <= 0 || k > ms.len() {
        Set::empty()
    } else {
        ids_list(ms, k - 1) + ids(ms[k - 1])
    }
}

/// No two nodes of `m` share an identifier.
pub open spec fn distinct(m: Mounted) -> bool
    decreases m, 0nat,
{
    match m {
        Mounted::Text { .. } => true,
        Mounted::Element { id, children, .. } => {
            &&& !ids_list(children, children.len() as int).contains(id.0 as nat)
            &&& distinct_list(children, children.len() as int)
        },
    }
}

/// No two nodes of the trees `ms[..k]` share an identifier.
pub open spec fn distinct_list(ms: Seq<Mounted>, k: int) -> bool
    decreases ms, k,
{
    if k <= 0 || k > ms.len() {
        true
    } else {
        &&& distinct_list(ms, k - 1)
        &&& distinct(ms[k - 1])
        &&& ids_list(ms, k - 1).disjoint(ids(ms[k - 1]))
    }
}

/// No two nodes of `m` share an identifier, and all of them are below
/// `next`, the identifier that the next created node gets.
pub open spec fn ids_fresh(m: Mounted, next: nat) -> bool {
    &&& distinct(m)
    &&& forall|x: nat| #[trigger] ids(m).contains(x) ==> x < next
}

/// The numbers from `lo` up to, not including, `hi`.
pub open spec fn range(lo: nat, hi: nat) -> Set<nat> {
    Set::new(|x: nat| lo <= x < hi)
}

proof fn lemma_ids_list_prefix(a: Seq<Mounted>, b: Seq<Mounted>, k: int)
    requires
        0 <= k <= a.len(),
    ensures
        ids_list(a + b, k) == ids_list(a, k),
        distinct_list(a + b, k) == distinct_list(a, k),
    decreases k,
{
    if k > 0 {
        lemma_ids_list_prefix(a, b, k - 1);
        assert((a + b)[k - 1] == a[k - 1]);
    }
}

proof fn lemma_mount_ids(c: Shape, next: nat)
    requires
        next + size(c) <= u32::MAX,
    ensures
        ids(mounted(c, next)) == range(next, next + size(c)),
        distinct(mounted(c, next)),
    decreases c, 1nat,
{
    if let Shape::Element { children, .. } = c {
        let n = children.len() as int;
        lemma_mount_list_ids(children, 0, n, next + 1);
        lemma_mount_list_shape(children, 0, n, next + 1);
        assert(ids(mounted(c, next)) =~= range(next, next + size(c)));
    } else {
        assert(ids(mounted(c, next)) =~= range(next, next + size(c)));
    }
}

proof fn lemma_mount_list_ids(cs: Seq<Shape>, lo: int, hi: int, next: nat)
    requires
        0 <= lo <= hi <= cs.len(),
        next + sizes(cs, lo, hi) <= u32::MAX,
    ensures
        ids_list(mounted_list(cs, lo, hi, next), hi - lo) == range(next, next + sizes(cs, lo, hi)),
        distinct_list(mounted_list(cs, lo, hi, next), hi - lo),
    decreases cs, hi - lo, 
{
    lemma_mount_list_shape(cs, lo, hi, next);
    if hi > lo {
        let prev = mounted_list(cs, lo, hi - 1, next);
        let x = mounted(cs[hi - 1], next + sizes(cs, lo, hi - 1));
        lemma_mount_list_ids(cs, lo, hi - 1, next);
        lemma_mount_ids(cs[hi - 1], next + sizes(cs, lo, hi - 1));
        lemma_mount_list_shape(cs, lo, hi - 1, next);
        assert(prev.push(x) =~= prev + seq![x]);
        lemma_ids_list_prefix(prev, seq![x], hi - 1 - lo);
        assert(mounted_list(cs, lo, hi, next)[hi - 1 - lo] == x);
        assert(ids_list(mounted_list(cs, lo, hi, next), hi - lo) =~= range(next, next + sizes(cs, lo, hi)));
    } else {
        assert(ids_list(mounted_list(cs, lo, hi, next), hi - lo) =~= range(next, next + sizes(cs, lo, hi)));
    }
}

proof fn lemma_ids_list_grows(ms: Seq<Mounted>, k: int, j: int)
    requires
        0 <= k <= j <= ms.len(),
        distinct_list(ms, j),
    ensures
        ids_list(ms, k).subset_of(ids_list(ms, j)),
        distinct_list(ms, k),
    decreases j - k,
{
    if j > k {
        lemma_ids_list_grows(ms, k, j - 1);
    }
}

proof fn lemma_ids_concat(a: Seq<Mounted>, b: Seq<Mounted>, j: int)
    requires
        0 <= j <= b.len(),
        distinct_list(a, a.len() as int),
        distinct_list(b, j),
        ids_list(a, a.len() as int).disjoint(ids_list(b, j)),
    ensures
        ids_list(a + b, a.len() + j) == ids_list(a, a.len() as int) + ids_list(b, j),
        distinct_list(a + b, a.len() + j),
    decreases j,
{
    if j == 0 {
        lemma_ids_list_prefix(a, b, a.len() as int);
        assert(ids_list(a, a.len() as int) + ids_list(b, 0) =~= ids_list(a, a.len() as int));
    } else {
        lemma_ids_concat(a, b, j - 1);
        assert((a + b)[a.len() + j - 1] == b[j - 1]);
        assert(ids_list(a + b, a.len() + j) =~= ids_list(a, a.len() as int) + ids_list(b, j));
    }
}

proof fn lemma_upgrade_ids(m: Mounted, c: Shape, next: nat)
    requires
        distinct(m),
        forall|x: nat| ids(m).contains(x) ==> x < next,
        next + size(c) <= u32::MAX,
    ensures
        ids(upgraded(m, c, next)).subset_of(ids(m) + range(next, next + upgrade_alloc(m, c))),
        distinct(upgraded(m, c, next)),
    decreases c, 1nat,
{
    lemma_alloc_bound(m, c);
    match c {
        Shape::Text(_) => {
            assert(ids(m).contains(id_of(m).0 as nat));
        },
        Shape::Element { children: cs, .. } => match m {
            Mounted::Text { id, .. } => {
                lemma_mount_list_ids(cs, 0, cs.len() as int, next);
                lemma_mount_list_shape(cs, 0, cs.len() as int, next);
                assert(ids(m).contains(id.0 as nat));
            },
            Mounted::Element { id, children: ms, .. } => {
                let k = if ms.len() < cs.len() { ms.len() as int } else { cs.len() as int };
                let la = upgrade_list_alloc(ms, cs, k);
                let ul = upgraded_list(ms, cs, k, next);
                let ml = mounted_list(cs, k, cs.len() as int, next + la);
                lemma_list_alloc_bound(ms, cs, k);
                lemma_sizes_split(cs, 0, k, cs.len() as int);
                lemma_ids_list_grows(ms, k, ms.len() as int);
                assert forall|x: nat| #[trigger] ids_list(ms, k).contains(x) implies x < next by {
                    assert(ids(m).contains(x));
                }
                lemma_upgrade_list_ids(ms, cs, k, next);
                lemma_upgrade_list_shape(ms, cs, k, next);
                lemma_mount_list_ids(cs, k, cs.len() as int, next + la);
                lemma_mount_list_shape(cs, k, cs.len() as int, next + la);
                assert(ids_list(ul, k).disjoint(ids_list(ml, cs.len() - k)));
                lemma_ids_concat(ul, ml, cs.len() - k);
                let kids = ul + ml;
                assert(upgraded(m, c, next)->children == kids);
                assert(ids_list(kids, kids.len() as int) == ids_list(ul, k) + ids_list(ml, cs.len() - k));
                assert(!ids_list(kids, kids.len() as int).contains(id.0 as nat)) by {
                    assert(ids(m).contains(id.0 as nat));
                }
                assert(ids(upgraded(m, c, next)).subset_of(ids(m) + range(next, next + upgrade_alloc(m, c))));
            },
        },
    }
}

proof fn lemma_upgrade_list_ids(ms: Seq<Mounted>, cs: Seq<Shape>, k: int, next: nat)
    requires
        0 <= k <= cs.len(),
        k <= ms.len(),
        distinct_list(ms, k),
        forall|x: nat| ids_list(ms, k).contains(x) ==> x < next,
        next + sizes(cs, 0, k) <= u32::MAX,
    ensures
        ids_list(upgraded_list(ms, cs, k, next), k).subset_of(
            ids_list(ms, k) + range(next, next + upgrade_list_alloc(ms, cs, k)),
        ),
        distinct_list(upgraded_list(ms, cs, k, next), k),
    decreases cs, k,
{
    lemma_upgrade_list_shape(ms, cs, k, next);
    if k > 0 {
        let prev = upgraded_list(ms, cs, k - 1, next);
        let base = next + upgrade_list_alloc(ms, cs, k - 1);
        let x = upgraded(ms[k - 1], cs[k - 1], base);
        assert forall|y: nat| #[trigger] ids_list(ms, k - 1).contains(y) implies y < next by {
            assert(ids_list(ms, k).contains(y));
        }
        lemma_list_alloc_bound(ms, cs, k - 1);
        lemma_upgrade_list_ids(ms, cs, k - 1, next);
        lemma_upgrade_list_shape(ms, cs, k - 1, next);
        assert forall|y: nat| #[trigger] ids(ms[k - 1]).contains(y) implies y < base by {
            assert(ids_list(ms, k).contains(y));
        }
        lemma_upgrade_ids(ms[k - 1], cs[k - 1], base);
        assert(prev.push(x) =~= prev + seq![x]);
        lemma_ids_list_prefix(prev, seq![x], k - 1);
        assert(upgraded_list(ms, cs, k, next)[k - 1] == x);
        let alloc = upgrade_alloc(ms[k - 1], cs[k - 1]);
        assert(ids_list(ms, k - 1).disjoint(ids(ms[k - 1])));
        assert forall|y: nat| #[trigger] ids_list(prev, k - 1).contains(y) implies !ids(x).contains(y) by {
            assert((ids_list(ms, k - 1) + range(next, base)).contains(y));
            if ids(x).contains(y) {
                assert((ids(ms[k - 1]) + range(base, base + alloc)).contains(y));
                if ids_list(ms, k - 1).contains(y) {
                    assert(!ids(ms[k - 1]).contains(y));
                    assert(y < next);
                } else {
                    assert(next <= y < base);
                    if ids(ms[k - 1]).contains(y) {
                        assert(ids_list(ms, k).contains(y));
                    }
                }
            }
        }
        assert(ids_list(prev, k - 1).disjoint(ids(x)));
        assert(ids_list(upgraded_list(ms, cs, k, next), k).subset_of(
            ids_list(ms, k) + range(next, next + upgrade_list_alloc(ms, cs, k)),
        ));
    }
}

impl<H: EventHandler> Atom<H> {
    /// Some element of this tree has the identifier `target` and holds the
    /// handler `h`.
    pub closed spec fn holds(&self, target: AtomId, h: H) -> bool
        decreases self, 0nat,
    {
        match &self.content {
            Rendered::Text(_) => false,
            Rendered::Element { children, event_handler, .. } => {
                (self.id == target && *event_handler == Some(h))
                    || Self::holds_among(children@, children@.len() as int, target, h)
            },
        }
    }

    /// `holds` of one of the trees `atoms[..k]`.
    pub closed spec fn holds_among(atoms: Seq<Atom<H>>, k: int, target: AtomId, h: H) -> bool
        decreases atoms, k,
    {
        if k <= 0 || k > atoms.len() {
            false
        } else {
            Self::holds_among(atoms, k - 1, target, h) || atoms[k - 1].holds(target, h)
        }
    }

    proof fn lemma_children_view(&self)
        requires
            self.content is Element,
        ensures
            self@->children == views(self.content->children@),
    {
        assert(self@->children =~= views(self.content->children@));
    }

    proof fn lemma_holds_id(&self, target: AtomId, h: H)
        requires
            self.holds(target, h),
        ensures
            ids(self@).contains(target.0 as nat),
        decreases self, 1nat,
    {
        if let Rendered::Element { children, .. } = &self.content {
            if !(self.id == target) {
                self.lemma_children_view();
                Self::lemma_holds_among_id(children@, children@.len() as int, target, h);
            }
        }
    }

    proof fn lemma_holds_among_id(atoms: Seq<Atom<H>>, k: int, target: AtomId, h: H)
        requires
            0 <= k <= atoms.len(),
            Self::holds_among(atoms, k, target, h),
        ensures
            ids_list(views(atoms), k).contains(target.0 as nat),
        decreases atoms, k,
    {
        if k > 0 {
            if Self::holds_among(atoms, k - 1, target, h) {
                Self::lemma_holds_among_id(atoms, k - 1, target, h);
            } else {
                atoms[k - 1].lemma_holds_id(target, h);
            }
        }
    }

    proof fn lemma_absent(&self, target: AtomId)
        requires
            !ids(self@).contains(target.0 as nat),
        ensures
            self.handler_of(target) is None,
        decreases self, 1nat,
    {
        if let Rendered::Element { children, .. } = &self.content {
            self.lemma_children_view();
            Self::lemma_absent_among(children@, children@.len() as int, target);
        }
    }

    proof fn lemma_absent_among(atoms: Seq<Atom<H>>, k: int, target: AtomId)
        requires
            0 <= k <= atoms.len(),
            !ids_list(views(atoms), k).contains(target.0 as nat),
        ensures
            Self::handler_among(atoms, k, target) is None,
        decreases atoms, k,
    {
        if k > 0 {
            Self::lemma_absent_among(atoms, k - 1, target);
            atoms[k - 1].lemma_absent(target);
        }
    }

    /// In a tree whose identifiers are distinct, an event fired on any
    /// element reaches the handler that element holds.
    pub proof fn lemma_reach(&self, target: AtomId, h: H)
        requires
            distinct(self@),
            self.holds(target, h),
        ensures
            self.handler_of(target) == Some(h),
        decreases self, 1nat,
    {
        if let Rendered::Element { children, event_handler, .. } = &self.content {
            self.lemma_children_view();
            if self.id == target && *event_handler == Some(h) {
            } else {
                Self::lemma_reach_among(children@, children@.len() as int, target, h);
                Self::lemma_holds_among_id(children@, children@.len() as int, target, h);
                assert(self.id != target);
            }
        }
    }

    proof fn lemma_reach_among(atoms: Seq<Atom<H>>, k: int, target: AtomId, h: H)
        requires
            0 <= k <= atoms.len(),
            distinct_list(views(atoms), k),
            Self::holds_among(atoms, k, target, h),
        ensures
            Self::handler_among(atoms, k, target) == Some(h),
        decreases atoms, k,
    {
        let vs = views(atoms);
        if Self::holds_among(atoms, k - 1, target, h) {
            Self::lemma_reach_among(atoms, k - 1, target, h);
        } else {
            Self::lemma_holds_id(&atoms[k - 1], target, h);
            assert(vs[k - 1] == atoms[k - 1]@);
            assert(ids_list(vs, k - 1).disjoint(ids(vs[k - 1])));
            Self::lemma_absent_among(atoms, k - 1, target);
            atoms[k - 1].lemma_reach(target, h);
        }
    }
}

impl<H: EventHandler> Atom<H> {
    proof fn lemma_mounted_facts(&self, c: Shape, next: nat)
        requires
            self@ == mounted(c, next),
            next + size(c) <= u32::MAX,
        ensures
            distinct(self@),
            forall|x: nat| #[trigger] ids(self@).contains(x) ==> next <= x < next + size(c),
            forall|t: AtomId, h: H| #[trigger] self.holds(t, h) ==> self.handler_of(t) == Some(h),
            forall|i: int|
                #![trigger self.handlers()[i]]
                0 <= i < self.handlers().len() ==> self.reaches(self.handlers()[i]),
    {
        lemma_mount_ids(c, next);
        self.lemma_all_held();
        assert forall|x: nat| #[trigger] ids(self@).contains(x) implies next <= x < next + size(c) by {
            assert(range(next, next + size(c)).contains(x));
        }
        assert forall|t: AtomId, h: H| #[trigger] self.holds(t, h) implies self.handler_of(t) == Some(h) by {
            self.lemma_reach(t, h);
        }
    }

    proof fn lemma_upgraded_facts(&self, m: Mounted, c: Shape, next: nat)
        requires
            self@ == upgraded(m, c, next),
            ids_fresh(m, next),
            next + size(c) <= u32::MAX,
        ensures
            ids_fresh(self@, next + upgrade_alloc(m, c)),
            forall|t: AtomId, h: H| #[trigger] self.holds(t, h) ==> self.handler_of(t) == Some(h),
            forall|i: int|
                #![trigger self.handlers()[i]]
                0 <= i < self.handlers().len() ==> self.reaches(self.handlers()[i]),
    {
        lemma_upgrade_ids(m, c, next);
        lemma_upgrade_ids_fresh_distinct(m, c, next);
        self.lemma_all_held();
        assert forall|x: nat| #[trigger] ids(self@).contains(x) implies x < next + upgrade_alloc(m, c) by {
            assert((ids(m) + range(next, next + upgrade_alloc(m, c))).contains(x));
        }
        assert forall|t: AtomId, h: H| #[trigger] self.holds(t, h) implies self.handler_of(t) == Some(h) by {
            self.lemma_reach(t, h);
        }
    }
}

impl<H: EventHandler> Atom<H> {
    /// Every handler of the tree, in its preorder list, is held by some
    /// element.
    pub proof fn lemma_handlers_held(&self, i: int)
        requires
            0 <= i < self.handlers().len(),
        ensures
            exists|t: AtomId| #[trigger] self.holds(t, self.handlers()[i]),
        decreases self, 1nat,
    {
        if let Rendered::Element { children, event_handler, .. } = &self.content {
            let n = children@.len() as int;
            match event_handler {
                Some(h) => {
                    if i == 0 {
                        assert(self.handlers()[0] == *h);
                        assert(self.holds(self.id, self.handlers()[i]));
                    } else {
                        Self::lemma_among_held(children@, n, i - 1);
                        let t = choose|t: AtomId| #[trigger] Self::holds_among(children@, n, t, atoms_handlers(children@, n)[i - 1]);
                        assert(self.holds(t, self.handlers()[i]));
                    }
                },
                None => {
                    Self::lemma_among_held(children@, n, i);
                    let t = choose|t: AtomId| #[trigger] Self::holds_among(children@, n, t, atoms_handlers(children@, n)[i]);
                    assert(self.holds(t, self.handlers()[i]));
                },
            }
        }
    }

    proof fn lemma_among_held(atoms: Seq<Atom<H>>, k: int, i: int)
        requires
            0 <= k <= atoms.len(),
            0 <= i < atoms_handlers(atoms, k).len(),
        ensures
            exists|t: AtomId| #[trigger] Self::holds_among(atoms, k, t, atoms_handlers(atoms, k)[i]),
        decreases atoms, k,
    {
        if k > 0 {
            let first = atoms_handlers(atoms, k - 1);
            if i < first.len() {
                Self::lemma_among_held(atoms, k - 1, i);
                let t = choose|t: AtomId| #[trigger] Self::holds_among(atoms, k - 1, t, first[i]);
                assert(Self::holds_among(atoms, k, t, atoms_handlers(atoms, k)[i]));
            } else {
                atoms[k - 1].lemma_handlers_held(i - first.len());
                let t = choose|t: AtomId| #[trigger] atoms[k - 1].holds(t, atoms[k - 1].handlers()[i - first.len()]);
                assert(Self::holds_among(atoms, k, t, atoms_handlers(atoms, k)[i]));
            }
        }
    }
}

impl<H: EventHandler> Atom<H> {
    /// Some element of this tree holds `h`, and an event fired on that
    /// element's identifier reaches `h`.
    pub open spec fn reaches(&self, h: H) -> bool {
        exists|t: AtomId| #[trigger] self.holds(t, h) && self.handler_of(t) == Some(h)
    }

    proof fn lemma_all_held(&self)
        requires
            distinct(self@),
        ensures
            forall|i: int|
                #![trigger self.handlers()[i]]
                0 <= i < self.handlers().len() ==> self.reaches(self.handlers()[i]),
    {
        assert forall|i: int| #![trigger self.handlers()[i]] 0 <= i < self.handlers().len() implies self.reaches(
            self.handlers()[i],
        ) by {
            self.lemma_handlers_held(i);
            let t = choose|t: AtomId| #[trigger] self.holds(t, self.handlers()[i]);
            assert(self.holds(t, self.handlers()[i]));
            self.lemma_reach(t, self.handlers()[i]);
            assert(self.handler_of(t) == Some(self.handlers()[i]));
        }
    }
}

proof fn lemma_upgrade_ids_fresh_distinct(m: Mounted, c: Shape, next: nat)
    requires
        ids_fresh(m, next),
        next + size(c) <= u32::MAX,
    ensures
        distinct(upgraded(m, c, next)),
{
    lemma_upgrade_ids(m, c, next);
}

} // verus!
