use vstd::prelude::*;
use vstd::string::StringExecFns;

use crate::ui::{Color, Style};
use crate::ui::background::Background;
use crate::ui::font::{Family, Font, Weight};
use crate::ui::font;
use crate::ui::reactive::{Cursor, Reactive};
use super::ffi::{Host, Op};

verus! {

/// The decimal digit `d`.
pub open spec fn digit(d: nat) -> Seq<char> {
    if d == 0 {
        "0"@
    } else if d == 1 {
        "1"@
    } else if d == 2 {
        "2"@
    } else if d == 3 {
        "3"@
    } else if d == 4 {
        "4"@
    } else if d == 5 {
        "5"@
    } else if d == 6 {
        "6"@
    } else if d == 7 {
        "7"@
    } else if d == 8 {
        "8"@
    } else {
        "9"@
    }
}

/// `n` in decimal, without leading zeros.
pub open spec fn decimal(n: nat) -> Seq<char>
    decreases n,
{
    if n < 10 {
        digit(n)
    } else {
        decimal(n / 10) + digit(n % 10)
    }
}

/// The parts joined, with `;` between each two.
pub open spec fn join(parts: Seq<Seq<char>>) -> Seq<char>
    decreases parts.len(),
{
    if parts.len() == 0 {
        Seq::empty()
    } else if parts.len() == 1 {
        parts[0]
    } else {
        join(parts.drop_last()) + ";"@ + parts.last()
    }
}

/// The property `key` with `value`, as a stylesheet writes it.
pub open spec fn property_css(key: Seq<char>, value: Seq<char>) -> Seq<char> {
    key + ":"@ + value
}

/// The opacity `a / 255`, rounded to thousandths, as `0.` and three digits.
pub closed spec fn alpha_css(a: nat) -> Seq<char> {
    let t = (a * 1000 + 127) / 255;
    "0."@ + digit(t / 100) + digit((t / 10) % 10) + digit(t % 10)
}

/// A color as a stylesheet writes it: `rgb(r,g,b)` when opaque, else
/// `rgba(r,g,b,alpha)`.
pub closed spec fn color_css(c: Color) -> Seq<char> {
    if c.3 != 255 {
        "rgba("@ + decimal(c.0 as nat) + ","@ + decimal(c.1 as nat) + ","@ + decimal(c.2 as nat) + ","@
            + alpha_css(c.3 as nat) + ")"@
    } else {
        "rgb("@ + decimal(c.0 as nat) + ","@ + decimal(c.1 as nat) + ","@ + decimal(c.2 as nat) + ")"@
    }
}

pub open spec fn weight_css(w: Weight) -> Seq<char> {
    match w {
        Weight::ExtraLight => "100"@,
        Weight::Light => "300"@,
        Weight::Regular => "500"@,
        Weight::Bold => "700"@,
        Weight::ExtraBold => "900"@,
    }
}

pub open spec fn family_css(f: Family) -> Seq<char> {
    match f {
        Family::Inherit => "inherit"@,
        Family::Name(name) => name@,
    }
}

pub open spec fn font_style_css(s: font::Style) -> Seq<char> {
    match s {
        font::Style::Regular => "normal"@,
        font::Style::Italic => "italic"@,
    }
}

/// The declarations of a font.
pub closed spec fn font_css(f: Font) -> Seq<char> {
    join(
        seq![
            property_css("font-family"@, family_css(f.family)),
            property_css("font-weight"@, weight_css(f.weight)),
            property_css("font-style"@, font_style_css(f.style)),
            property_css("color"@, color_css(f.color)),
        ],
    )
}

/// The declarations of a background.
pub closed spec fn background_css(b: Background) -> Seq<char> {
    match b {
        Background::Color(c) => property_css("background-color"@, color_css(c)),
    }
}

/// The declarations of how a node reacts to the pointer.
pub closed spec fn reactive_css(r: Reactive) -> Seq<char> {
    match r.cursor {
        Cursor::Pointer => property_css("cursor"@, "pointer"@),
        Cursor::Normal => Seq::empty(),
    }
}

/// The declarations that keep the text of a node from being selected.
pub closed spec fn user_select_css() -> Seq<char> {
    join(
        seq![
            property_css("-moz-user-select"@, "none"@),
            property_css("-webkit-user-select"@, "none"@),
            property_css("user-select"@, "none"@),
        ],
    )
}

/// The declarations of a whole style, as a `style` attribute holds them.
pub closed spec fn style_css(s: Style) -> Seq<char> {
    join(seq![font_css(s.font), background_css(s.background), reactive_css(s.reactive), user_select_css()])
}

/// The rule that gives the selector `name` the declarations `body`.
pub open spec fn class_css(name: Seq<char>, body: Seq<char>) -> Seq<char> {
    name + "{"@ + body + "}"@
}

/// The style sheet that is added to every document before the first node
/// is mounted.
pub closed spec fn stylesheet_css() -> Seq<char> {
    class_css("*"@, style_css(Style::default_spec()))
        + class_css(
            "html,body"@,
            join(
                seq![
                    property_css("height"@, "100%"@),
                    property_css("display"@, "flex"@),
                    property_css("flex-direction"@, "column"@),
                ],
            ),
        )
}

/// What a color's declaration value is.
pub proof fn lemma_color_css(c: Color)
    ensures
        color_css(c) == if c.3 != 255 {
            "rgba("@ + decimal(c.0 as nat) + ","@ + decimal(c.1 as nat) + ","@ + decimal(c.2 as nat) + ","@
                + alpha_css(c.3 as nat) + ")"@
        } else {
            "rgb("@ + decimal(c.0 as nat) + ","@ + decimal(c.1 as nat) + ","@ + decimal(c.2 as nat) + ")"@
        },
{
}

/// What an opacity's digits are.
pub proof fn lemma_alpha_css(a: nat)
    ensures
        alpha_css(a) == "0."@ + digit(((a * 1000 + 127) / 255) / 100) + digit(
            (((a * 1000 + 127) / 255) / 10) % 10,
        ) + digit(((a * 1000 + 127) / 255) % 10),
{
}

/// What a font's declarations are.
pub proof fn lemma_font_css(f: Font)
    ensures
        font_css(f) == join(
            seq![
                property_css("font-family"@, family_css(f.family)),
                property_css("font-weight"@, weight_css(f.weight)),
                property_css("font-style"@, font_style_css(f.style)),
                property_css("color"@, color_css(f.color)),
            ],
        ),
{
}

/// What a background's declarations are.
pub proof fn lemma_background_css(b: Background)
    ensures
        background_css(b) == match b {
            Background::Color(c) => property_css("background-color"@, color_css(c)),
        },
{
}

/// What the declarations of a pointer reaction are.
pub proof fn lemma_reactive_css(r: Reactive)
    ensures
        reactive_css(r) == match r.cursor {
            Cursor::Pointer => property_css("cursor"@, "pointer"@),
            Cursor::Normal => Seq::<char>::empty(),
        },
{
}

/// What the declarations that forbid selecting text are.
pub proof fn lemma_user_select_css()
    ensures
        user_select_css() == join(
            seq![
                property_css("-moz-user-select"@, "none"@),
                property_css("-webkit-user-select"@, "none"@),
                property_css("user-select"@, "none"@),
            ],
        ),
{
}

/// What a style's declarations are.
pub proof fn lemma_style_css(s: Style)
    ensures
        style_css(s) == join(
            seq![font_css(s.font), background_css(s.background), reactive_css(s.reactive), user_select_css()],
        ),
{
}

/// What the base style sheet is.
pub proof fn lemma_stylesheet_css()
    ensures
        stylesheet_css() == class_css("*"@, style_css(Style::default_spec())) + class_css(
            "html,body"@,
            join(
                seq![
                    property_css("height"@, "100%"@),
                    property_css("display"@, "flex"@),
                    property_css("flex-direction"@, "column"@),
                ],
            ),
        ),
{
}

/// The declarations of the default font.
pub proof fn lemma_default_font_css()
    ensures
        font_css(Style::default_spec().font)
            == "font-family:inherit;font-weight:500;font-style:normal;color:rgb(0,0,0)"@,
{
    reveal_with_fuel(join, 4);
    reveal_strlit("font-family:inherit;font-weight:500;font-style:normal;color:rgb(0,0,0)");
    reveal_strlit("font-family");
    reveal_strlit("inherit");
    reveal_strlit("font-weight");
    reveal_strlit("500");
    reveal_strlit("font-style");
    reveal_strlit("normal");
    reveal_strlit("color");
    reveal_strlit("rgb(");
    reveal_strlit("0");
    reveal_strlit(",");
    reveal_strlit(")");
    reveal_strlit(":");
    reveal_strlit(";");
    assert(decimal(0) == "0"@);
    assert(font_css(Style::default_spec().font)
        =~= "font-family:inherit;font-weight:500;font-style:normal;color:rgb(0,0,0)"@);
}

/// Something that can be written as stylesheet declarations.
pub trait Inline {
    spec fn css(&self) -> Seq<char>;

    fn inline(&self) -> (r: String)
        ensures
            r@ == self.css(),
    ;
}

/// A list of declarations being written.
#[derive(Clone)]
pub struct Css {
    rendered: Vec<String>,
}

impl View for Css {
    type V = Seq<Seq<char>>;

    closed spec fn view(&self) -> Seq<Seq<char>> {
        self.rendered@.map_values(|s: String| s@)
    }
}

impl Css {
    /// No declaration yet.
    pub fn new() -> (r: Css)
        ensures
            r@ == Seq::<Seq<char>>::empty(),
    {
        let r = Css { rendered: Vec::new() };
        assert(r@ =~= Seq::<Seq<char>>::empty());
        r
    }

    /// Adds the declaration `key:value`.
    pub fn property(&mut self, key: &str, value: &str)
        ensures
            final(self)@ == old(self)@.push(property_css(key@, value@)),
    {
        let mut s = String::from_str(key);
        s.append(":");
        s.append(value);
        self.rendered.push(s);
        assert(self@ =~= old(self)@.push(property_css(key@, value@)));
    }

    /// The declarations, with `;` between each two.
    pub fn render(self) -> (r: String)
        ensures
            r@ == join(self@),
    {
        join_all(&self.rendered)
    }
}

impl Inline for Css {
    open spec fn css(&self) -> Seq<char> {
        join(self@)
    }

    fn inline(&self) -> (r: String) {
        join_all(&self.rendered)
    }
}

/// The strings of `parts`, with `;` between each two.
fn join_all(parts: &Vec<String>) -> (r: String)
    ensures
        r@ == join(parts@.map_values(|s: String| s@)),
{
    let ghost all = parts@.map_values(|s: String| s@);
    let mut r = String::new();
    let mut i: usize = 0;
    while i < parts.len()
        invariant
            i <= parts@.len(),
            all == parts@.map_values(|s: String| s@),
            r@ == join(all.take(i as int)),
        decreases parts@.len() - i,
    {
        if i > 0 {
            r.append(";");
        }
        r.append(parts[i].as_str());
        proof {
            let next = all.take(i as int + 1);
            assert(next.drop_last() =~= all.take(i as int));
            assert(i == 0 ==> next =~= seq![all[0]]);
        }
        i += 1;
    }
    assert(all.take(parts@.len() as int) =~= all);
    r
}

/// The decimal digit `d`.
fn digit_str(d: u8) -> (r: &'static str)
    requires
        d < 10,
    ensures
        r@ == digit(d as nat),
{
    if d == 0 {
        "0"
    } else if d == 1 {
        "1"
    } else if d == 2 {
        "2"
    } else if d == 3 {
        "3"
    } else if d == 4 {
        "4"
    } else if d == 5 {
        "5"
    } else if d == 6 {
        "6"
    } else if d == 7 {
        "7"
    } else if d == 8 {
        "8"
    } else {
        "9"
    }
}

/// Appends `n` in decimal.
fn push_decimal(s: &mut String, n: u8)
    ensures
        final(s)@ == old(s)@ + decimal(n as nat),
{
    proof {
        reveal_with_fuel(decimal, 3);
    }
    if n >= 100 {
        s.append(digit_str(n / 100));
        s.append(digit_str((n / 10) % 10));
        assert(decimal(n as nat / 10) == digit(n as nat / 100) + digit((n as nat / 10) % 10));
    } else if n >= 10 {
        s.append(digit_str(n / 10));
    }
    s.append(digit_str(n % 10));
    assert(final(s)@ =~= old(s)@ + decimal(n as nat));
}

impl Inline for Color {
    open spec fn css(&self) -> Seq<char> {
        color_css(*self)
    }

    fn inline(&self) -> (r: String) {
        let (red, green, blue, a) = self.get_rgba();
        let mut s = if a != 255 {
            String::from_str("rgba(")
        } else {
            String::from_str("rgb(")
        };
        push_decimal(&mut s, red);
        s.append(",");
        push_decimal(&mut s, green);
        s.append(",");
        push_decimal(&mut s, blue);
        if a != 255 {
            s.append(",");
            let t: u32 = (a as u32 * 1000 + 127) / 255;
            s.append("0.");
            s.append(digit_str((t / 100) as u8));
            s.append(digit_str(((t / 10) % 10) as u8));
            s.append(digit_str((t % 10) as u8));
        }
        s.append(")");
        assert(s@ =~= color_css(*self));
        s
    }
}

impl Inline for Font {
    open spec fn css(&self) -> Seq<char> {
        font_css(*self)
    }

    fn inline(&self) -> (r: String) {
        let mut css = Css::new();
        match &self.family {
            Family::Inherit => css.property("font-family", "inherit"),
            Family::Name(name) => css.property("font-family", name.as_str()),
        }
        css.property(
            "font-weight",
            match self.weight {
                Weight::ExtraLight => "100",
                Weight::Light => "300",
                Weight::Regular => "500",
                Weight::Bold => "700",
                Weight::ExtraBold => "900",
            },
        );
        css.property(
            "font-style",
            match self.style {
                font::Style::Regular => "normal",
                font::Style::Italic => "italic",
            },
        );
        let color = self.color.inline();
        css.property("color", color.as_str());
        proof {
            assert(css@ =~= seq![
                property_css("font-family"@, family_css(self.family)),
                property_css("font-weight"@, weight_css(self.weight)),
                property_css("font-style"@, font_style_css(self.style)),
                property_css("color"@, color_css(self.color)),
            ]);
        }
        css.render()
    }
}

impl Inline for Background {
    open spec fn css(&self) -> Seq<char> {
        background_css(*self)
    }

    fn inline(&self) -> (r: String) {
        let mut css = Css::new();
        match self {
            Background::Color(color) => {
                let c = color.inline();
                css.property("background-color", c.as_str());
            },
        }
        proof {
            reveal_with_fuel(join, 2);
        }
        css.render()
    }
}

impl Inline for Reactive {
    open spec fn css(&self) -> Seq<char> {
        reactive_css(*self)
    }

    fn inline(&self) -> (r: String) {
        let mut css = Css::new();
        match self.cursor {
            Cursor::Pointer => {
                css.property("cursor", "pointer");
            },
            Cursor::Normal => {},
        }
        proof {
            reveal_with_fuel(join, 2);
        }
        css.render()
    }
}

impl Inline for Style {
    open spec fn css(&self) -> Seq<char> {
        style_css(*self)
    }

    fn inline(&self) -> (r: String) {
        let mut user_select = Css::new();
        user_select.property("-moz-user-select", "none");
        user_select.property("-webkit-user-select", "none");
        user_select.property("user-select", "none");
        assert(user_select@ =~= seq![
            property_css("-moz-user-select"@, "none"@),
            property_css("-webkit-user-select"@, "none"@),
            property_css("user-select"@, "none"@),
        ]);
        let mut parts: Vec<String> = Vec::new();
        parts.push(self.font.inline());
        parts.push(self.background.inline());
        parts.push(self.reactive.inline());
        parts.push(user_select.render());
        proof {
            assert(parts@.map_values(|s: String| s@) =~= seq![
                font_css(self.font),
                background_css(self.background),
                reactive_css(self.reactive),
                user_select_css(),
            ]);
        }
        join_all(&parts)
    }
}

/// The rule that gives the selector `name` the declarations of `properties`.
pub fn class<T: Inline>(name: &str, properties: &T) -> (r: String)
    ensures
        r@ == class_css(name@, properties.css()),
{
    let mut s = String::from_str(name);
    s.append("{");
    let body = properties.inline();
    s.append(body.as_str());
    s.append("}");
    s
}

/// Adds to the document the style sheet that every application starts
/// from: the default style for every node, and a page that fills the
/// window with its content in a column.
pub fn inject(host: &mut Host)
    ensures
        final(host).ops() == old(host).ops().push(Op::InjectStylesheet { sheet: stylesheet_css() }),
        final(host).next_id() == old(host).next_id(),
{
    let base = class("*", &Style::default());
    let mut container = Css::new();
    container.property("height", "100%");
    container.property("display", "flex");
    container.property("flex-direction", "column");
    assert(container@ =~= seq![
        property_css("height"@, "100%"@),
        property_css("display"@, "flex"@),
        property_css("flex-direction"@, "column"@),
    ]);
    let container = class("html,body", &container);
    let mut sheet = base;
    sheet.append(container.as_str());
    assert(sheet@ =~= stylesheet_css());
    host.inject_stylesheet(sheet);
}

} // verus!
