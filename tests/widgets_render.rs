use simple_gui::{render, Action, Button, Component, Label, Widget, Window};
use std::cell::Cell;
use std::rc::Rc;

struct Noop;

impl Action for Noop {
    fn invoke(&mut self) {}
}

struct Count(Rc<Cell<u32>>);

impl Action for Count {
    fn invoke(&mut self) {
        self.0.set(self.0.get() + 1);
    }
}

fn label(t: &str) -> Component {
    Component::Label(Label::new(t))
}

fn button(t: &str) -> Component {
    Component::Button(Button::new(t, Box::new(Noop)))
}

#[test]
fn label_width_is_text_plus_two() {
    assert_eq!(Label::new("").width(), 2);
    assert_eq!(Label::new("Hi").width(), 4);
    assert_eq!(Label::new("This is a small text GUI demo.").width(), 32);
}

#[test]
fn button_width_is_text_plus_six() {
    assert_eq!(Button::new("", Box::new(Noop)).width(), 6);
    assert_eq!(Button::new("Click me!", Box::new(Noop)).width(), 15);
}

#[test]
fn window_width_is_widest_child() {
    let mut w = Window::new("Title");
    assert_eq!(w.width(), 0);
    w.add_widget(label("Hi"));
    assert_eq!(w.width(), 4);
    w.add_widget(button("Click me!"));
    assert_eq!(w.width(), 15);
    w.add_widget(label("abc"));
    assert_eq!(w.width(), 15);
}

#[test]
fn label_renders_its_text() {
    assert_eq!(render(&Label::new("Hello")), "Hello");
}

#[test]
fn button_renders_a_box() {
    let b = Button::new("Click me!", Box::new(Noop));
    assert_eq!(
        render(&b),
        "+-----------+\n| Click me! |\n+-----------+"
    );
}

#[test]
fn window_with_one_label() {
    let mut w = Window::new("Demo");
    w.add_widget(label("Hi"));
    assert_eq!(render(&w), "+----+\n|Demo|\n+====+\n|Hi  |\n+----+");
}

#[test]
fn empty_window_lets_the_title_overflow() {
    let w = Window::new("Demo");
    assert_eq!(render(&w), "++\n|Demo|\n++\n++");
}

#[test]
fn title_odd_padding_goes_right() {
    let mut w = Window::new("ab");
    w.add_widget(label("xyz"));
    assert_eq!(render(&w), "+-----+\n| ab  |\n+=====+\n|xyz  |\n+-----+");
}

#[test]
fn children_render_in_insertion_order() {
    let mut w = Window::new("W");
    w.add_widget(label("one"));
    w.add_widget(button("two"));
    w.add_widget(label("three"));
    assert_eq!(
        render(&w),
        "+---------+\n|    W    |\n+=========+\n|one      |\n|+-----+  |\n|| two |  |\n|+-----+  |\n|three    |\n+---------+"
    );
}

#[test]
fn nested_window_is_framed_like_any_child() {
    let mut inner = Window::new("In");
    inner.add_widget(label("Hi"));
    let mut outer = Window::new("Out");
    outer.add_widget(Component::Window(inner));
    outer.add_widget(label("a long label"));
    assert_eq!(
        render(&outer),
        "+--------------+\n|     Out      |\n+==============+\n|+----+        |\n|| In |        |\n|+====+        |\n||Hi  |        |\n|+----+        |\n|a long label  |\n+--------------+"
    );
}

#[test]
fn rendering_twice_gives_the_same_text() {
    let mut w = Window::new("Demo");
    w.add_widget(label("Hi"));
    w.add_widget(button("OK"));
    let first = render(&w);
    let second = render(&w);
    assert_eq!(first, second);
}

#[test]
fn draw_into_appends_to_the_buffer() {
    let mut buffer = String::from(">");
    Label::new("x").draw_into(&mut buffer);
    Label::new("y").draw_into(&mut buffer);
    assert_eq!(buffer, ">xy");
}

#[test]
fn multi_line_label_gives_one_body_line_per_line() {
    let mut w = Window::new("T");
    w.add_widget(label("ab\ncd\n"));
    w.add_widget(label(""));
    assert_eq!(render(&w), "+--------+\n|   T    |\n+========+\n|ab      |\n|cd      |\n+--------+");
}

#[test]
fn activating_runs_the_action_and_keeps_the_label() {
    let hits = Rc::new(Cell::new(0));
    let mut b = Button::new("Go", Box::new(Count(hits.clone())));
    assert_eq!(hits.get(), 0);
    b.activate();
    b.activate();
    assert_eq!(hits.get(), 2);
    assert_eq!(b.label.label, "Go");
    assert_eq!(b.width(), 8);
}

#[test]
fn carriage_return_before_newline_ends_the_line() {
    let mut w = Window::new("T");
    w.add_widget(label("a\r\nb"));
    assert_eq!(render(&w), "+------+\n|  T   |\n+======+\n|a     |\n|b     |\n+------+");
}

#[test]
fn lone_carriage_return_stays_in_the_line() {
    let mut w = Window::new("T");
    w.add_widget(label("x\r"));
    assert_eq!(render(&w), "+----+\n| T  |\n+====+\n|x\r  |\n+----+");
}

#[test]
fn button_in_a_window_keeps_its_action() {
    let hits = Rc::new(Cell::new(0));
    let mut w = Window::new("W");
    w.add_widget(Component::Button(Button::new("Go", Box::new(Count(hits.clone())))));
    match &mut w.widgets[0] {
        Component::Button(b) => b.activate(),
        _ => panic!("expected a button"),
    }
    assert_eq!(hits.get(), 1);
}
