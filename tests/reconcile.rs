use blocks::events::{Coordinates, DefaultEvents, Events, Unset};
use blocks::web::atom::Atom;
use blocks::web::ffi::{AtomId, Attribute, EventType, Host, Mutation};
use blocks::web::Candidate;

type Plain = DefaultEvents<u8>;

fn text(t: &str) -> Candidate<Plain> {
    Candidate::Text(t.to_string())
}

fn element(children: Vec<Candidate<Plain>>) -> Candidate<Plain> {
    Candidate::Element {
        children,
        attributes: vec![Attribute::new("class", "box".to_string())],
        event_handler: Events::new(),
    }
}

fn mounted(children: Vec<Candidate<Plain>>) -> (Atom<Plain>, Host) {
    let mut host = Host::new();
    let mut root: Atom<Plain> = Atom::mount("root".to_string());
    root.upgrade(element(children), &mut host);
    host.drain();
    (root, host)
}

fn count(ops: &[Mutation], pred: fn(&Mutation) -> bool) -> usize {
    ops.iter().filter(|m| pred(m)).count()
}

#[test]
fn same_text_issues_no_update() {
    let (mut root, mut host) = mounted(vec![text("a")]);
    root.upgrade(element(vec![text("a")]), &mut host);
    let ops = host.drain();
    assert_eq!(count(&ops, |m| matches!(m, Mutation::UpdateTextNode { .. })), 0);
    assert_eq!(ops.len(), 1);
    assert!(matches!(ops[0], Mutation::UpdateElement { id: AtomId(0), .. }));
}

#[test]
fn changed_text_issues_one_update() {
    let (mut root, mut host) = mounted(vec![text("a")]);
    root.upgrade(element(vec![text("b")]), &mut host);
    let ops = host.drain();
    assert_eq!(count(&ops, |m| matches!(m, Mutation::UpdateTextNode { .. })), 1);
    match &ops[1] {
        Mutation::UpdateTextNode { id, text } => {
            assert_eq!(*id, AtomId(1));
            assert_eq!(text, "b");
        }
        other => panic!("unexpected {:?}", other),
    }
}

#[test]
fn text_to_element_converts_once_and_mounts_children() {
    let (mut root, mut host) = mounted(vec![text("a")]);
    root.upgrade(element(vec![element(vec![text("x"), text("y")])]), &mut host);
    let ops = host.drain();
    assert_eq!(count(&ops, |m| matches!(m, Mutation::TextNodeToElement { .. })), 1);
    assert!(matches!(ops[1], Mutation::TextNodeToElement { id: AtomId(1), .. }));
    match (&ops[2], &ops[3]) {
        (
            Mutation::CreateTextNode { id: a, parent: pa, text: ta },
            Mutation::CreateTextNode { id: b, parent: pb, text: tb },
        ) => {
            assert_eq!((*a, *pa, ta.as_str()), (AtomId(2), AtomId(1), "x"));
            assert_eq!((*b, *pb, tb.as_str()), (AtomId(3), AtomId(1), "y"));
        }
        other => panic!("unexpected {:?}", other),
    }
    assert_eq!(ops.len(), 4);
}

#[test]
fn element_to_text_converts_once() {
    let (mut root, mut host) = mounted(vec![element(vec![text("x")])]);
    root.upgrade(element(vec![text("t")]), &mut host);
    let ops = host.drain();
    assert_eq!(ops.len(), 2);
    match &ops[1] {
        Mutation::ElementToTextNode { id, text } => {
            assert_eq!(*id, AtomId(1));
            assert_eq!(text, "t");
        }
        other => panic!("unexpected {:?}", other),
    }
}

#[test]
fn child_shrink_drops_only_the_third() {
    let (mut root, mut host) = mounted(vec![text("1"), text("2"), text("3")]);
    root.upgrade(element(vec![text("1'"), text("2'")]), &mut host);
    let ops = host.drain();
    let deletes: Vec<AtomId> = ops
        .iter()
        .filter_map(|m| match m {
            Mutation::DeleteNode { id } => Some(*id),
            _ => None,
        })
        .collect();
    assert_eq!(deletes, vec![AtomId(3)]);
    let updates: Vec<(AtomId, String)> = ops
        .iter()
        .filter_map(|m| match m {
            Mutation::UpdateTextNode { id, text } => Some((*id, text.clone())),
            _ => None,
        })
        .collect();
    assert_eq!(updates, vec![(AtomId(1), "1'".to_string()), (AtomId(2), "2'".to_string())]);
    assert_eq!(count(&ops, |m| matches!(m, Mutation::CreateTextNode { .. } | Mutation::CreateElement { .. })), 0);
}

#[test]
fn child_growth_upgrades_first_and_mounts_two_after_it() {
    let (mut root, mut host) = mounted(vec![text("1")]);
    root.upgrade(element(vec![text("1'"), text("2'"), text("3'")]), &mut host);
    let ops = host.drain();
    assert_eq!(ops.len(), 4);
    assert!(matches!(&ops[1], Mutation::UpdateTextNode { id: AtomId(1), text } if text == "1'"));
    assert!(matches!(&ops[2], Mutation::CreateTextNode { id: AtomId(2), parent: AtomId(0), text } if text == "2'"));
    assert!(matches!(&ops[3], Mutation::CreateTextNode { id: AtomId(3), parent: AtomId(0), text } if text == "3'"));
    assert_eq!(count(&ops, |m| matches!(m, Mutation::DeleteNode { .. })), 0);
}

#[test]
fn two_children_to_none_deletes_two() {
    let (mut root, mut host) = mounted(vec![text("a"), element(vec![text("b")])]);
    root.upgrade(element(vec![]), &mut host);
    let ops = host.drain();
    assert_eq!(count(&ops, |m| matches!(m, Mutation::DeleteNode { .. })), 2);
    assert_eq!(count(&ops, |m| matches!(m, Mutation::CreateTextNode { .. } | Mutation::CreateElement { .. })), 0);
    assert!(matches!(ops[1], Mutation::DeleteNode { id: AtomId(2) }));
    assert!(matches!(ops[2], Mutation::DeleteNode { id: AtomId(1) }));
}

#[test]
fn second_identical_upgrade_only_rewrites_attributes() {
    let mut host = Host::new();
    let mut root: Atom<Plain> = Atom::mount("root".to_string());
    let tree = || element(vec![text("a"), element(vec![text("b")])]);
    root.upgrade(tree(), &mut host);
    host.drain();
    root.upgrade(tree(), &mut host);
    let ops = host.drain();
    assert_eq!(ops.len(), 2);
    assert!(ops.iter().all(|m| matches!(m, Mutation::UpdateElement { .. })));
}

#[test]
fn mount_numbers_nodes_in_preorder() {
    let mut host = Host::new();
    let mut root: Atom<Plain> = Atom::mount("root".to_string());
    root.upgrade(element(vec![element(vec![text("a")]), text("b")]), &mut host);
    let ops = host.drain();
    assert_eq!(ops.len(), 4);
    assert!(matches!(ops[1], Mutation::CreateElement { id: AtomId(1), parent: AtomId(0), .. }));
    assert!(matches!(&ops[2], Mutation::CreateTextNode { id: AtomId(2), parent: AtomId(1), text } if text == "a"));
    assert!(matches!(&ops[3], Mutation::CreateTextNode { id: AtomId(3), parent: AtomId(0), text } if text == "b"));
}

#[test]
fn listeners_follow_probing() {
    let mut host = Host::new();
    let mut root: Atom<Clicking> = Atom::mount("root".to_string());
    root.upgrade(
        Candidate::Element { children: vec![], attributes: vec![], event_handler: clicking() },
        &mut host,
    );
    let ops = host.drain();
    assert_eq!(ops.len(), 2);
    assert!(matches!(ops[1], Mutation::CreateEvent { id: AtomId(0), kind: EventType::Click }));
}

type ClickFn = fn(Coordinates) -> u8;
type Clicking = Events<u8, Unset, ClickFn, Unset, Unset>;

fn five(_: Coordinates) -> u8 {
    5
}

fn clicking() -> Clicking {
    Events::new().click(five as ClickFn)
}

#[test]
fn event_type_codes() {
    assert_eq!(EventType::from(0), Some(EventType::Click));
    assert_eq!(EventType::from(1), Some(EventType::MouseDown));
    assert_eq!(EventType::from(2), Some(EventType::MouseUp));
    assert_eq!(EventType::from(3), None);
}

#[test]
fn room_shrinks_as_nodes_are_made() {
    let mut host = Host::new();
    assert_eq!(host.room(), u32::MAX - 1);
    let id = host.create_text_node("t".to_string(), AtomId::root());
    assert_eq!(id, AtomId::wrap(1));
    assert_eq!(host.room(), u32::MAX - 2);
}
