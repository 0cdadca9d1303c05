use blocks::block::{Build, Child};
use blocks::events::{Button, Coordinates, DefaultEvents, Event, Events, EventHandler, Upgrade};
use blocks::reactor::{Mailbox, Reactor};
use blocks::ui::{Color, Style};
use blocks::web::css::{class, Css, Inline};
use blocks::web::ffi::{AtomId, Mutation};
use blocks::web::{launch, Candidate};
use blocks::State;

#[derive(Debug, Clone, Copy, PartialEq)]
enum Msg {
    Increment,
}

struct Counter {
    count: u32,
}

impl State for Counter {
    type Message = Msg;

    fn reduce(&mut self, message: Msg) {
        match message {
            Msg::Increment => self.count += 1,
        }
    }
}

fn increment(_: Coordinates) -> Msg {
    Msg::Increment
}

type ClickFn = fn(Coordinates) -> Msg;
type OnClick = Events<Msg, blocks::events::Unset, ClickFn, blocks::events::Unset, blocks::events::Unset>;

fn counter_view(state: &Counter) -> blocks::block::BlockData<OnClick> {
    Build::with(Style::default(), Events::new().click(increment as ClickFn))
        .block(Child::Text(format!("Count: {}", state.count)))
}

#[test]
fn click_increments_and_updates_one_text() {
    let mut handle = launch("root".to_string(), Counter { count: 0 }, counter_view);
    let first = handle.take_mutations();
    assert!(matches!(first[0], Mutation::InjectStylesheet { .. }));
    assert!(first.iter().any(|m| matches!(m, Mutation::CreateTextNode { text, .. } if text == "Count: 0")));

    let delivered = handle.dispatch(AtomId::root(), Event::Click(Coordinates { x: 4, y: 5 }));
    assert!(delivered);
    assert_eq!(handle.instance.state.count, 1);

    let ops = handle.take_mutations();
    let texts: Vec<&Mutation> = ops.iter().filter(|m| matches!(m, Mutation::UpdateTextNode { .. })).collect();
    assert_eq!(texts.len(), 1);
    assert!(matches!(texts[0], Mutation::UpdateTextNode { id: AtomId(1), text } if text == "Count: 1"));
    assert_eq!(ops.iter().filter(|m| matches!(m, Mutation::UpdateElement { .. })).count(), 1);
    assert!(ops.iter().all(|m| matches!(
        m,
        Mutation::UpdateElement { .. } | Mutation::CreateEvent { .. } | Mutation::UpdateTextNode { .. }
    )));
}

#[test]
fn events_on_unknown_nodes_are_ignored() {
    let mut handle = launch("root".to_string(), Counter { count: 0 }, counter_view);
    handle.take_mutations();
    assert!(!handle.dispatch(AtomId::wrap(1), Event::Click(Coordinates { x: 0, y: 0 })));
    assert!(!handle.dispatch(AtomId::wrap(42), Event::Click(Coordinates { x: 0, y: 0 })));
    assert!(!handle.dispatch(AtomId::root(), Event::MouseDown(Coordinates { x: 0, y: 0 }, Button::Left)));
    assert_eq!(handle.instance.state.count, 0);
    assert!(handle.take_mutations().is_empty());
}

#[derive(Debug, Clone, Copy, PartialEq)]
enum Local {
    Ping,
}

#[derive(Debug, Clone, Copy, PartialEq)]
enum Mid {
    Local(Local),
}

#[derive(Debug, Clone, Copy, PartialEq)]
enum Target {
    Mid(Mid),
}

impl From<Local> for Mid {
    fn from(l: Local) -> Mid {
        Mid::Local(l)
    }
}

impl From<Mid> for Target {
    fn from(m: Mid) -> Target {
        Target::Mid(m)
    }
}

impl From<Local> for Target {
    fn from(l: Local) -> Target {
        Target::Mid(Mid::from(l))
    }
}

fn ping(_: Coordinates) -> Local {
    Local::Ping
}

#[test]
fn double_upgrade_equals_composed_upgrade() {
    type PingFn = fn(Coordinates) -> Local;
    let handler = || Events::new().click(ping as PingFn);
    let twice: Upgrade<Upgrade<_, Mid>, Target> = Upgrade::new(Upgrade::new(handler()));
    let direct: Upgrade<_, Target> = Upgrade::new(handler());
    let e = Event::Click(Coordinates { x: 9, y: 9 });
    assert_eq!(twice.event(e), Some(Target::Mid(Mid::Local(Local::Ping))));
    assert_eq!(twice.event(e), direct.event(e));
    assert_eq!(twice.event(Event::Render), None);
}

#[test]
fn reactor_downgrade_converts_on_the_way() {
    let reactor: Reactor<Mailbox<Target>> = Reactor::new(Mailbox::new());
    let mut local = reactor.downgrade::<Mid>().downgrade::<Local>();
    local.send(Local::Ping);
    let mut mailbox = local.into_inner().update.update;
    assert_eq!(mailbox.take(), vec![Target::Mid(Mid::Local(Local::Ping))]);
}

#[test]
fn colors_as_css() {
    assert_eq!(Color::green().inline(), "rgb(0,128,0)");
    assert_eq!(Color::rgba(255, 10, 0, 0).inline(), "rgba(255,10,0,0.000)");
    assert_eq!(Color::rgba(1, 2, 3, 128).inline(), "rgba(1,2,3,0.502)");
    assert_eq!(Color::white().get_rgba(), (255, 255, 255, 255));
}

#[test]
fn css_joins_declarations() {
    let mut css = Css::new();
    css.property("height", "100%");
    css.property("display", "flex");
    assert_eq!(class("p", &css), "p{height:100%;display:flex}");
    assert_eq!(css.render(), "height:100%;display:flex");
}

#[test]
fn default_style_attribute() {
    let s = Style::default().inline();
    assert_eq!(
        s,
        "font-family:inherit;font-weight:500;font-style:normal;color:rgb(0,0,0);\
         background-color:rgba(0,0,0,0.000);;-moz-user-select:none;-webkit-user-select:none;user-select:none"
    );
}

#[test]
fn groups_splice_into_the_parent() {
    let tree: blocks::block::BlockData<DefaultEvents<u8>> = Build::new().block(Child::Group(vec![
        Child::Group(vec![Child::Text("A".to_string()), Child::Empty, Child::Text("B".to_string())]),
        Child::Text("C".to_string()),
        Child::Block(Box::new(Build::new().block(Child::Empty))),
    ]));
    match Candidate::from(tree) {
        Candidate::Element { children, attributes, .. } => {
            assert_eq!(children.len(), 4);
            assert!(matches!(&children[0], Candidate::Text(t) if t == "A"));
            assert!(matches!(&children[1], Candidate::Text(t) if t == "B"));
            assert!(matches!(&children[2], Candidate::Text(t) if t == "C"));
            assert!(matches!(&children[3], Candidate::Element { children, .. } if children.is_empty()));
            assert_eq!(attributes.len(), 1);
            assert_eq!(attributes[0].key, "style");
        }
        Candidate::Text(_) => panic!("root must be an element"),
    }
}

#[derive(Debug, Clone, Copy, PartialEq)]
enum Step {
    Up,
    Down,
}

struct Level {
    value: i32,
}

impl State for Level {
    type Message = Step;

    fn reduce(&mut self, message: Step) {
        match message {
            Step::Up => self.value += 1,
            Step::Down => self.value -= 1,
        }
    }
}

type StepFn = fn(Coordinates) -> Step;
type OnStep = Events<Step, blocks::events::Unset, StepFn, blocks::events::Unset, blocks::events::Unset>;

fn up(_: Coordinates) -> Step {
    Step::Up
}

fn down(_: Coordinates) -> Step {
    Step::Down
}

fn button(label: &str, f: StepFn) -> Child<OnStep> {
    Child::Block(Box::new(Build::with(Style::default(), Events::new().click(f)).block(Child::Text(label.to_string()))))
}

fn level_view(state: &Level) -> blocks::block::BlockData<OnStep> {
    let quiet: OnStep = Events {
        render: None,
        click: None,
        down: None,
        up: None,
        _message: std::marker::PhantomData,
    };
    Build::with(Style::default(), quiet).block(Child::Group(vec![
        Child::Text(format!("{}", state.value)),
        button("+", up as StepFn),
        button("-", down as StepFn),
    ]))
}

#[test]
fn each_button_keeps_its_own_handler() {
    let mut handle = launch("root".to_string(), Level { value: 0 }, level_view);
    handle.take_mutations();
    // Preorder: 0 root, 1 text, 2 "+" button, 3 its text, 4 "-" button, 5 its text.
    assert!(handle.dispatch(AtomId::wrap(4), Event::Click(Coordinates { x: 1, y: 1 })));
    assert_eq!(handle.instance.state.value, -1);
    assert!(handle.dispatch(AtomId::wrap(2), Event::Click(Coordinates { x: 1, y: 1 })));
    assert!(handle.dispatch(AtomId::wrap(2), Event::Click(Coordinates { x: 1, y: 1 })));
    assert_eq!(handle.instance.state.value, 1);
    assert!(!handle.dispatch(AtomId::root(), Event::Click(Coordinates { x: 1, y: 1 })));
    let ops = handle.take_mutations();
    assert!(ops.iter().any(|m| matches!(m, Mutation::UpdateTextNode { id: AtomId(1), text } if text == "1")));
}

#[test]
fn candidate_elements_carry_their_handlers() {
    match Candidate::from(level_view(&Level { value: 3 })) {
        Candidate::Element { children, .. } => {
            let e = Event::Click(Coordinates { x: 0, y: 0 });
            match (&children[1], &children[2]) {
                (
                    Candidate::Element { event_handler: a, .. },
                    Candidate::Element { event_handler: b, .. },
                ) => {
                    assert_eq!(a.event(e), Some(Step::Up));
                    assert_eq!(b.event(e), Some(Step::Down));
                }
                _ => panic!("buttons must be elements"),
            }
        }
        Candidate::Text(_) => panic!("root must be an element"),
    }
}

#[test]
fn calls_decode_host_events() {
    let mut handle = launch("root".to_string(), Level { value: 0 }, level_view);
    handle.take_mutations();
    assert!(handle.call(blocks::web::ffi::EventType::Click, AtomId::wrap(2), 5, 5, 0));
    assert!(!handle.call(blocks::web::ffi::EventType::MouseDown, AtomId::wrap(2), 5, 5, 0));
    assert_eq!(handle.instance.state.value, 1);
}
