use blocks::events::{Button, Coordinates, Event, EventHandler, Events};
use blocks::web::ffi::{decode_event, EventType};

#[test]
fn messages() {
    let events = Events::new()
        .click(|_| 1)
        .mouse_down(|_, _| 2)
        .mouse_up(|_, _| 3);

    let coordinates = Coordinates { x: 0, y: 0 };

    let button = Button::Left;

    assert_eq!(Some(1), events.event(Event::Click(coordinates)));
    assert_eq!(Some(2), events.event(Event::MouseDown(coordinates, button)));
    assert_eq!(Some(3), events.event(Event::MouseUp(coordinates, button)));
}

#[test]
fn click() {
    let events = Events::new().click(|Coordinates { x, y }| (x, y));

    assert_eq!(Some((1, 2)), events.event(Event::Click(Coordinates { x: 1, y: 2 })));
}

#[test]
fn mouse_down() {
    let events = Events::new().mouse_down(|Coordinates { x, y }, button| (x, y, button));

    assert_eq!(
        Some((1, 2, Button::Left)),
        events.event(Event::MouseDown(Coordinates { x: 1, y: 2 }, Button::Left))
    );
}

#[test]
fn mouse_up() {
    let events = Events::new().mouse_up(|Coordinates { x, y }, button| (x, y, button));

    assert_eq!(
        Some((1, 2, Button::Left)),
        events.event(Event::MouseUp(Coordinates { x: 1, y: 2 }, Button::Left))
    );
}

#[test]
fn unset_slots_yield_nothing() {
    let events = Events::new().click(|_| 7);
    let c = Coordinates { x: 3, y: 4 };
    assert_eq!(None, events.event(Event::Render));
    assert_eq!(None, events.event(Event::MouseDown(c, Button::Right)));
    assert_eq!(None, events.event(Event::MouseUp(c, Button::Middle)));
    assert_eq!(Some(7), events.event(Event::Click(c)));
}

#[test]
fn render_slot() {
    let events = Events::new().render(|| "drawn");
    assert_eq!(Some("drawn"), events.event(Event::Render));
    assert_eq!(None, events.event(Event::Click(Coordinates { x: 0, y: 0 })));
}

#[test]
fn button_codes() {
    assert_eq!(Button::from_code(0), Some(Button::Left));
    assert_eq!(Button::from_code(1), Some(Button::Middle));
    assert_eq!(Button::from_code(2), Some(Button::Right));
    assert_eq!(Button::from_code(3), None);
}

#[test]
fn host_events_decode() {
    let at = Coordinates { x: 10, y: 20 };
    assert_eq!(decode_event(EventType::Click, 10, 20, 9), Some(Event::Click(at)));
    assert_eq!(decode_event(EventType::MouseDown, 10, 20, 2), Some(Event::MouseDown(at, Button::Right)));
    assert_eq!(decode_event(EventType::MouseUp, 10, 20, 1), Some(Event::MouseUp(at, Button::Middle)));
    assert_eq!(decode_event(EventType::MouseUp, 10, 20, 7), None);
}

#[test]
fn coordinates_relative_to_an_offset() {
    let c = Coordinates { x: 30, y: 5 };
    let o = Coordinates { x: 10, y: 20 }.into_offset();
    assert_eq!((o.x, o.y), (10, 20));
    let r = c.sub(o);
    assert_eq!(r.x, 20);
    assert_eq!(r.y, (5i32 - 20) as u32);
}
