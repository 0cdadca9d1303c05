use vstd::prelude::*;

use std::marker::PhantomData;

use crate::events::{DefaultEvents, EventHandler, Events, Upgrade};
use crate::ui::Style;
use crate::web::{Candidate, Shape, listened, shapes, candidates_handlers, handlers_list, lemma_handlers_append};
use crate::web::css::{Inline, style_css};
use crate::web::ffi::Attribute;

verus! {

/// A node being described: its style and its event handler.
pub struct Build<E> {
    pub style: Style,
    pub event_handler: E,
}

impl<M> Build<DefaultEvents<M>> {
    /// A node with the default style that yields no message.
    pub fn new() -> (r: Self)
        ensures
            r.style == Style::default_spec(),
            r.event_handler.render is None,
            r.event_handler.click is None,
            r.event_handler.down is None,
            r.event_handler.up is None,
    {
        Build { style: Style::default(), event_handler: Events::new() }
    }

    /// A node with `style` that yields no message.
    pub fn styled(style: Style) -> (r: Self)
        ensures
            r.style == style,
            r.event_handler.render is None,
            r.event_handler.click is None,
            r.event_handler.down is None,
            r.event_handler.up is None,
    {
        Build { style, event_handler: Events::new() }
    }
}

impl<E> Build<E> {
    /// A node with `style` and `event_handler`.
    pub fn with(style: Style, event_handler: E) -> (r: Self)
        ensures
            r.style == style,
            r.event_handler == event_handler,
    {
        Build { style, event_handler }
    }

    /// The same node with `style` in place of its style.
    pub fn style(self, style: Style) -> (r: Self)
        ensures
            r.style == style,
            r.event_handler == self.event_handler,
    {
        Build { style, event_handler: self.event_handler }
    }

    /// The same node with `handler` in place of its event handler.
    pub fn events<H>(self, handler: H) -> (r: Build<H>)
        ensures
            r.style == self.style,
            r.event_handler == handler,
    {
        Build { style: self.style, event_handler: handler }
    }

    /// The node, with `child` under it.
    pub fn block(self, child: Child<E>) -> (r: BlockData<E>)
        ensures
            r.data == self,
            r.child == child,
    {
        BlockData { data: self, child }
    }
}

/// What stands under a node: nothing, text, an ordered group of children,
/// or another node.
pub enum Child<E> {
    Empty,
    Text(String),
    Group(Vec<Child<E>>),
    Block(Box<BlockData<E>>),
}

/// A node with what stands under it.
pub struct BlockData<E> {
    pub data: Build<E>,
    pub child: Child<E>,
}

/// A description as a mathematical tree: nothing, text, an ordered group,
/// or an element with its style, handler and what stands under it.
pub enum Layout<E> {
    Empty,
    Text(Seq<char>),
    Group(Seq<Layout<E>>),
    Element(Style, E, Box<Layout<E>>),
}

impl<E> Child<E> {
    /// The tree that this description stands for.
    pub open spec fn layout(&self) -> Layout<E>
        decreases self,
    {
        match self {
            Child::Empty => Layout::Empty,
            Child::Text(t) => Layout::Text(t@),
            Child::Group(children) => Layout::Group(
                Seq::new(
                    children@.len(),
                    |i: int|
                        if 0 <= i < children@.len() {
                            children@[i].layout()
                        } else {
                            Layout::Empty
                        },
                ),
            ),
            Child::Block(b) => Layout::Element(
                b.data.style,
                b.data.event_handler,
                Box::new(b.child.layout()),
            ),
        }
    }
}

impl<E> BlockData<E> {
    /// The tree that this node stands for.
    pub open spec fn layout(&self) -> Layout<E> {
        Layout::Element(self.data.style, self.data.event_handler, Box::new(self.child.layout()))
    }
}

/// A description reduced to its uniform shape: nothing, text, an ordered
/// group, or an element with its style, handler and what stands under it.
pub enum Grain<E> {
    Empty,
    Text(String),
    Group(Vec<Grain<E>>),
    Element { style: Style, events: E, child: Box<Grain<E>> },
}

impl<E> Grain<E> {
    /// The tree that this shape stands for.
    pub open spec fn layout(&self) -> Layout<E>
        decreases self,
    {
        match self {
            Grain::Empty => Layout::Empty,
            Grain::Text(t) => Layout::Text(t@),
            Grain::Group(children) => Layout::Group(
                Seq::new(
                    children@.len(),
                    |i: int|
                        if 0 <= i < children@.len() {
                            children@[i].layout()
                        } else {
                            Layout::Empty
                        },
                ),
            ),
            Grain::Element { style, events, child } => Layout::Element(*style, *events, Box::new(child.layout())),
        }
    }
}

/// The trees that `children` stand for.
pub open spec fn layouts<E>(children: Seq<Child<E>>) -> Seq<Layout<E>> {
    Seq::new(children.len(), |i: int| children[i].layout())
}

/// The trees that `grains` stand for.
pub open spec fn grain_layouts<E>(grains: Seq<Grain<E>>) -> Seq<Layout<E>> {
    Seq::new(grains.len(), |i: int| grains[i].layout())
}

impl<E> Child<E> {
    /// Reduces this description to its uniform shape, keeping every node,
    /// text and handler in its place and order.
    pub fn flatten(self) -> (r: Grain<E>)
        ensures
            r.layout() == self.layout(),
        decreases self,
    {
        let ghost this = self;
        match self {
            Child::Empty => Grain::Empty,
            Child::Text(t) => Grain::Text(t),
            Child::Group(children) => {
                let ghost all = children@;
                proof {
                    assert forall|j: int| 0 <= j < all.len() implies decreases_to!(this => all[j]) by {
                        vstd::std_specs::vec::axiom_vec_index_decreases(children, j);
                    }
                }
                let n = children.len();
                let mut rest = children;
                let mut out: Vec<Grain<E>> = Vec::new();
                let mut i: usize = 0;
                while i < n
                    invariant
                        n == all.len(),
                        this == self,
                        i <= n,
                        rest@ == all.subrange(i as int, n as int),
                        forall|j: int| 0 <= j < all.len() ==> decreases_to!(this => all[j]),
                        grain_layouts(out@) == layouts(all).take(i as int),
                    decreases n - i,
                {
                    let c = rest.remove(0);
                    assert(c == all[i as int]);
                    let g = c.flatten();
                    proof {
                        assert(grain_layouts(out@.push(g)) =~= grain_layouts(out@).push(g.layout()));
                        assert(layouts(all).take(i as int + 1) =~= layouts(all).take(i as int).push(
                            layouts(all)[i as int],
                        ));
                    }
                    out.push(g);
                    i += 1;
                }
                proof {
                    assert(layouts(all).take(n as int) =~= layouts(all));
                    assert(Grain::Group(out).layout()->Group_0 =~= grain_layouts(out@));
                    assert(this.layout()->Group_0 =~= layouts(all));
                }
                Grain::Group(out)
            },
            Child::Block(b) => {
                let b = *b;
                let BlockData { data, child } = b;
                let Build { style, event_handler } = data;
                Grain::Element { style, events: event_handler, child: Box::new(child.flatten()) }
            },
        }
    }
}

/// The tree `l` with every handler wrapped so that its messages become `M`.
pub open spec fn upgrade_layout<E, M>(l: Layout<E>) -> Layout<Upgrade<E, M>>
    decreases l,
{
    match l {
        Layout::Empty => Layout::Empty,
        Layout::Text(t) => Layout::Text(t),
        Layout::Group(xs) => Layout::Group(
            Seq::new(
                xs.len(),
                |i: int|
                    if 0 <= i < xs.len() {
                        upgrade_layout::<E, M>(xs[i])
                    } else {
                        Layout::Empty
                    },
            ),
        ),
        Layout::Element(style, h, c) => Layout::Element(
            style,
            Upgrade { handler: h, _message: PhantomData },
            Box::new(upgrade_layout::<E, M>(*c)),
        ),
    }
}

impl<E: EventHandler> Child<E> {
    /// The same description with messages of type `M`: every handler is
    /// wrapped to convert its messages; styles, text, nesting and order are
    /// kept.
    pub fn upgrade<M: From<E::Message>>(self) -> (r: Child<Upgrade<E, M>>)
        ensures
            r.layout() == upgrade_layout::<E, M>(self.layout()),
        decreases self,
    {
        let ghost this = self;
        match self {
            Child::Empty => Child::Empty,
            Child::Text(t) => Child::Text(t),
            Child::Group(children) => {
                let ghost all = children@;
                proof {
                    assert forall|j: int| 0 <= j < all.len() implies decreases_to!(this => all[j]) by {
                        vstd::std_specs::vec::axiom_vec_index_decreases(children, j);
                    }
                }
                let ghost want = Seq::new(all.len(), |j: int| upgrade_layout::<E, M>(all[j].layout()));
                let n = children.len();
                let mut rest = children;
                let mut out: Vec<Child<Upgrade<E, M>>> = Vec::new();
                let mut i: usize = 0;
                while i < n
                    invariant
                        n == all.len(),
                        this == self,
                        i <= n,
                        rest@ == all.subrange(i as int, n as int),
                        forall|j: int| 0 <= j < all.len() ==> decreases_to!(this => all[j]),
                        want == Seq::new(all.len(), |j: int| upgrade_layout::<E, M>(all[j].layout())),
                        layouts(out@) == want.take(i as int),
                    decreases n - i,
                {
                    let c = rest.remove(0);
                    assert(c == all[i as int]);
                    let u = c.upgrade::<M>();
                    proof {
                        assert(layouts(out@.push(u)) =~= layouts(out@).push(u.layout()));
                        assert(want.take(i as int + 1) =~= want.take(i as int).push(want[i as int]));
                    }
                    out.push(u);
                    i += 1;
                }
                proof {
                    assert(want.take(n as int) =~= want);
                    assert(Child::Group(out).layout()->Group_0 =~= layouts(out@));
                    assert(upgrade_layout::<E, M>(this.layout())->Group_0 =~= want);
                }
                Child::Group(out)
            },
            Child::Block(b) => {
                let b = *b;
                let BlockData { data, child } = b;
                let Build { style, event_handler } = data;
                let data = Build { style, event_handler: Upgrade::new(event_handler) };
                Child::Block(Box::new(BlockData { data, child: child.upgrade::<M>() }))
            },
        }
    }
}

impl<E: EventHandler> BlockData<E> {
    /// The same node with messages of type `M`.
    pub fn upgrade<M: From<E::Message>>(self) -> (r: BlockData<Upgrade<E, M>>)
        ensures
            r.layout() == upgrade_layout::<E, M>(self.layout()),
    {
        let BlockData { data, child } = self;
        let Build { style, event_handler } = data;
        BlockData { data: Build { style, event_handler: Upgrade::new(event_handler) }, child: child.upgrade::<M>() }
    }
}

/// The handlers of the elements of `l`, in preorder.
pub open spec fn layout_handlers<E>(l: Layout<E>) -> Seq<E>
    decreases l, 0nat,
{
    match l {
        Layout::Empty => Seq::empty(),
        Layout::Text(_) => Seq::empty(),
        Layout::Group(xs) => layout_handlers_list(xs, xs.len() as int),
        Layout::Element(_, h, c) => seq![h] + layout_handlers(*c),
    }
}

/// The handlers of the elements of `xs[..k]`, in preorder.
pub open spec fn layout_handlers_list<E>(xs: Seq<Layout<E>>, k: int) -> Seq<E>
    decreases xs, k,
{
    if k <= 0 || k > xs.len() {
        Seq::empty()
    } else {
        layout_handlers_list(xs, k - 1) + layout_handlers(xs[k - 1])
    }
}

/// Every handler in `l` may be called with any event.
pub open spec fn layout_ready<E: EventHandler>(l: Layout<E>) -> bool
    decreases l,
{
    match l {
        Layout::Empty => true,
        Layout::Text(_) => true,
        Layout::Group(xs) => forall|i: int| 0 <= i < xs.len() ==> layout_ready(#[trigger] xs[i]),
        Layout::Element(_, h, c) => h.ready() && layout_ready(*c),
    }
}

/// The candidate trees that `l` yields: nothing for nothing, one text node
/// for text, the trees of its members, in order, for a group, and one
/// element for an element, whose only attribute is its style.
pub open spec fn splice<E: EventHandler>(l: Layout<E>) -> Seq<Shape>
    decreases l, 0nat,
{
    match l {
        Layout::Empty => Seq::empty(),
        Layout::Text(t) => seq![Shape::Text(t)],
        Layout::Group(xs) => splice_list(xs, xs.len() as int),
        Layout::Element(style, h, c) => seq![
            Shape::Element {
                attributes: seq![("style"@, style_css(style))],
                events: listened(h),
                children: splice(*c),
            },
        ],
    }
}

/// The candidate trees that `xs[..k]` yield, in order.
pub open spec fn splice_list<E: EventHandler>(xs: Seq<Layout<E>>, k: int) -> Seq<Shape>
    decreases xs, k,
{
    if k <= 0 || k > xs.len() {
        Seq::empty()
    } else {
        splice_list(xs, k - 1) + splice(xs[k - 1])
    }
}

impl<E: EventHandler> Grain<E> {
    /// The candidate trees of this shape, ready to be reconciled.
    pub fn to_candidate(self) -> (r: Vec<Candidate<E>>)
        requires
            layout_ready(self.layout()),
        ensures
            shapes(r@) == splice(self.layout()),
            candidates_handlers(r@) == layout_handlers(self.layout()),
            forall|i: int| 0 <= i < r@.len() ==> (#[trigger] r@[i]).wf(),
        decreases self,
    {
        let ghost this = self;
        match self {
            Grain::Empty => {
                let r: Vec<Candidate<E>> = Vec::new();
                assert(shapes(r@) =~= Seq::<Shape>::empty());
                r
            },
            Grain::Text(t) => {
                let mut r: Vec<Candidate<E>> = Vec::new();
                r.push(Candidate::Text(t));
                assert(shapes(r@) =~= splice(this.layout()));
                proof {
                    reveal_with_fuel(handlers_list, 2);
                    assert(candidates_handlers(r@) =~= Seq::<E>::empty());
                }
                r
            },
            Grain::Group(children) => {
                let ghost all = children@;
                let ghost ls = grain_layouts(all);
                proof {
                    assert forall|j: int| 0 <= j < all.len() implies decreases_to!(this => all[j]) by {
                        vstd::std_specs::vec::axiom_vec_index_decreases(children, j);
                    }
                    assert(this.layout()->Group_0 =~= ls);
                }
                let n = children.len();
                let mut rest = children;
                let mut out: Vec<Candidate<E>> = Vec::new();
                let mut i: usize = 0;
                while i < n
                    invariant
                        n == all.len(),
                        this == self,
                        i <= n,
                        rest@ == all.subrange(i as int, n as int),
                        forall|j: int| 0 <= j < all.len() ==> decreases_to!(this => all[j]),
                        ls == grain_layouts(all),
                        forall|j: int| 0 <= j < ls.len() ==> layout_ready(#[trigger] ls[j]),
                        shapes(out@) == splice_list(ls, i as int),
                        candidates_handlers(out@) == layout_handlers_list(ls, i as int),
                        forall|j: int| 0 <= j < out@.len() ==> (#[trigger] out@[j]).wf(),
                    decreases n - i,
                {
                    let c = rest.remove(0);
                    assert(c == all[i as int]);
                    assert(c.layout() == ls[i as int]);
                    let mut part = c.to_candidate();
                    let ghost before = out@;
                    let ghost added = part@;
                    out.append(&mut part);
                    proof {
                        assert(out@ == before + added);
                        assert(shapes(out@) =~= shapes(before) + shapes(added));
                        lemma_handlers_append(before, added);
                        assert forall|j: int| 0 <= j < out@.len() implies (#[trigger] out@[j]).wf() by {
                            if j >= before.len() {
                                assert(out@[j] == added[j - before.len()]);
                            }
                        }
                    }
                    i += 1;
                }
                out
            },
            Grain::Element { style, events, child } => {
                let css = style.inline();
                let mut attributes: Vec<Attribute> = Vec::new();
                attributes.push(Attribute::new("style", css));
                let children = (*child).to_candidate();
                let ghost kids = children@;
                let c = Candidate::Element { children, attributes, event_handler: events };
                proof {
                    assert(c.shape()->children =~= shapes(kids));
                    assert(c.shape()->attributes =~= seq![("style"@, style_css(style))]);
                }
                let mut r: Vec<Candidate<E>> = Vec::new();
                r.push(c);
                assert(shapes(r@) =~= splice(this.layout()));
                proof {
                    reveal_with_fuel(handlers_list, 2);
                    assert(candidates_handlers(r@) =~= c.handlers());
                }
                r
            },
        }
    }
}

impl<E: EventHandler> Candidate<E> {
    /// The candidate tree of a root node: an element whose only attribute is
    /// its style, with the candidate trees of what stands under it.
    pub fn from(block: BlockData<E>) -> (r: Candidate<E>)
        requires
            layout_ready(block.layout()),
        ensures
            r.shape() == (Shape::Element {
                attributes: seq![("style"@, style_css(block.data.style))],
                events: listened(block.data.event_handler),
                children: splice(block.child.layout()),
            }),
            r.handlers() == seq![block.data.event_handler] + layout_handlers(block.child.layout()),
            r.wf(),
    {
        let BlockData { data, child } = block;
        let Build { style, event_handler } = data;
        let css = style.inline();
        let mut attributes: Vec<Attribute> = Vec::new();
        attributes.push(Attribute::new("style", css));
        let grain = child.flatten();
        let children = grain.to_candidate();
        let ghost kids = children@;
        let ghost h = event_handler;
        let c = Candidate::Element { children, attributes, event_handler };
        proof {
            assert(c.shape()->children =~= shapes(kids));
            assert(c.shape()->attributes =~= seq![("style"@, style_css(style))]);
            assert(c.handlers() == seq![h] + candidates_handlers(kids));
            assert(candidates_handlers(kids) == layout_handlers(child.layout()));
        }
        c
    }
}

} // verus!
