//! Labels, buttons and windows: measuring and rendering a widget tree.
use vstd::prelude::*;

verus! {

broadcast use {
    vstd::std_specs::vec::axiom_vec_decreases_to_view,
    vstd::seq::axiom_seq_index_decreases,
    vstd::seq::axiom_seq_subrange_decreases,
};

/// Something an outside dispatcher runs when a button is activated.
pub trait Action {
    fn invoke(&mut self);
}

/// A line of text.
pub struct Label {
    pub label: String,
}

/// A label framed in a box, with the action that activating it runs.
pub struct Button<A: ?Sized = dyn Action> {
    pub label: Label,
    pub callback: Box<A>,
}

/// A titled frame around an ordered list of child widgets.
pub struct Window {
    pub title: String,
    pub widgets: Vec<Component>,
}

/// Any widget that a window can hold.
pub enum Component {
    Label(Label),
    Button(Button),
    Window(Window),
}

/// The natural width of a widget, in columns. Text is measured in chars, not
/// in bytes, so that a frame lines up with text outside ASCII as well.
pub open spec fn width_of(c: Component) -> nat
    decreases c,
{
    match c {
        Component::Label(l) => l.label@.len() + 2,
        Component::Button(b) => b.label.label@.len() + 6,
        Component::Window(w) => max_width(w.widgets@),
    }
}

/// The largest natural width among `s`, or 0 when `s` is empty.
pub open spec fn max_width(s: Seq<Component>) -> nat
    decreases s,
{
    if s.len() == 0 {
        0
    } else {
        let a = max_width(s.drop_last());
        let b = width_of(s.last());
        if a >= b {
            a
        } else {
            b
        }
    }
}



/// `n` copies of `ch`.
pub open spec fn repeat(ch: char, n: nat) -> Seq<char> {
    Seq::new(n, |_i: int| ch)
}

/// A horizontal border: `+`, `w` copies of `fill`, `+`.
pub open spec fn rule(fill: char, w: nat) -> Seq<char> {
    seq!['+'] + repeat(fill, w) + seq!['+']
}

/// `t` centred in `w` columns; an odd spare column goes to the right. Text at
/// least `w` wide is left as it is.
pub open spec fn centered(t: Seq<char>, w: nat) -> Seq<char> {
    if t.len() >= w {
        t
    } else {
        let pad = (w - t.len()) as nat;
        repeat(' ', pad / 2) + t + repeat(' ', (pad - pad / 2) as nat)
    }
}

/// `t` padded on the right with spaces to `w` columns. Text at least `w`
/// wide is left as it is.
pub open spec fn left_aligned(t: Seq<char>, w: nat) -> Seq<char> {
    if t.len() >= w {
        t
    } else {
        t + repeat(' ', (w - t.len()) as nat)
    }
}

/// One body line of a window: `|`, the line padded to `w`, `|`, newline.
pub open spec fn framed_line(t: Seq<char>, w: nat) -> Seq<char> {
    seq!['|'] + left_aligned(t, w) + seq!['|', '\n']
}

/// Each of `ls` as a framed body line, in order.
pub open spec fn framed_lines(ls: Seq<Seq<char>>, w: nat) -> Seq<char>
    decreases ls.len(),
{
    if ls.len() == 0 {
        seq![]
    } else {
        framed_lines(ls.drop_last(), w) + framed_line(ls.last(), w)
    }
}

/// A line ended by a newline, without the carriage return that may stand
/// before that newline.
pub open spec fn without_cr(t: Seq<char>) -> Seq<char> {
    if t.len() > 0 && t.last() == '\r' {
        t.drop_last()
    } else {
        t
    }
}

/// The lines ended so far in `s`, and the unfinished line after them.
pub open spec fn pieces(s: Seq<char>) -> (Seq<Seq<char>>, Seq<char>)
    decreases s.len(),
{
    if s.len() == 0 {
        (seq![], seq![])
    } else {
        let p = pieces(s.drop_last());
        if s.last() == '\n' {
            (p.0.push(without_cr(p.1)), seq![])
        } else {
            (p.0, p.1.push(s.last()))
        }
    }
}

/// The lines of `s`: the text between newlines, where a newline at the very
/// end ends the last line rather than starting an empty one, and a carriage
/// return just before a newline belongs to the line ending. A carriage return
/// anywhere else stays in its line.
pub open spec fn lines(s: Seq<char>) -> Seq<Seq<char>> {
    let p = pieces(s);
    if p.1.len() == 0 {
        p.0
    } else {
        p.0.push(p.1)
    }
}

/// The rendering of a button showing `t`.
pub open spec fn button_rendering(t: Seq<char>) -> Seq<char> {
    let w = t.len() + 2;
    rule('-', w) + seq!['\n', '|', ' '] + t + seq![' ', '|', '\n'] + rule('-', w)
}

/// The top border, title line and separator of a window `w` columns wide.
pub open spec fn window_header(title: Seq<char>, w: nat) -> Seq<char> {
    rule('-', w) + seq!['\n', '|'] + centered(title, w) + seq!['|', '\n'] + rule('=', w) + seq!['\n']
}

/// The body lines that a window `w` columns wide shows for one child.
pub open spec fn child_block(c: Component, w: nat) -> Seq<char> {
    framed_lines(lines(rendering_of(c)), w)
}

/// The body of a window `w` columns wide holding `s`: each child's block, in
/// order.
pub open spec fn window_body(s: Seq<Component>, w: nat) -> Seq<char>
    decreases s,
{
    if s.len() == 0 {
        seq![]
    } else {
        window_body(s.drop_last(), w) + framed_lines(lines(rendering_of(s.last())), w)
    }
}

/// The full rendering of a widget.
pub open spec fn rendering_of(c: Component) -> Seq<char>
    decreases c,
{
    match c {
        Component::Label(l) => l.label@,
        Component::Button(b) => button_rendering(b.label.label@),
        Component::Window(win) => {
            let w = max_width(win.widgets@);
            window_header(win.title@, w) + window_body(win.widgets@, w) + rule('-', w)
        },
    }
}


/// Appends `n` copies of the one character of `fill`.
fn push_repeat(buffer: &mut String, fill: &str, n: usize)
    requires
        fill@.len() == 1,
    ensures
        final(buffer)@ == old(buffer)@ + repeat(fill@[0], n as nat),
{
    let ghost b0 = buffer@;
    let mut i: usize = 0;
    while i < n
        invariant
            fill@.len() == 1,
            i <= n,
            buffer@ == b0 + repeat(fill@[0], i as nat),
        decreases n - i,
    {
        buffer.append(fill);
        assert(repeat(fill@[0], i as nat) + fill@ =~= repeat(fill@[0], (i + 1) as nat));
        assert(b0 + repeat(fill@[0], i as nat) + fill@ =~= b0 + repeat(fill@[0], (i + 1) as nat));
        i += 1;
    }
}

/// Appends a border of width `w` drawn with the one character of `fill`.
fn push_rule(buffer: &mut String, fill: &str, w: usize)
    requires
        fill@.len() == 1,
    ensures
        final(buffer)@ == old(buffer)@ + rule(fill@[0], w as nat),
{
    let ghost b0 = buffer@;
    proof {
        reveal_strlit("+");
    }
    buffer.append("+");
    push_repeat(buffer, fill, w);
    buffer.append("+");
    assert(buffer@ =~= b0 + rule(fill@[0], w as nat));
}

/// Appends `t` padded on the right to `w` columns.
fn push_left_aligned(buffer: &mut String, t: &str, w: usize)
    ensures
        final(buffer)@ == old(buffer)@ + left_aligned(t@, w as nat),
{
    let ghost b0 = buffer@;
    proof {
        reveal_strlit(" ");
    }
    buffer.append(t);
    let n = t.unicode_len();
    if n < w {
        push_repeat(buffer, " ", w - n);
        assert(buffer@ =~= b0 + left_aligned(t@, w as nat));
    }
}

/// Appends `t` centred in `w` columns.
fn push_centered(buffer: &mut String, t: &str, w: usize)
    ensures
        final(buffer)@ == old(buffer)@ + centered(t@, w as nat),
{
    let ghost b0 = buffer@;
    proof {
        reveal_strlit(" ");
    }
    let n = t.unicode_len();
    if n < w {
        let pad = w - n;
        push_repeat(buffer, " ", pad / 2);
        buffer.append(t);
        push_repeat(buffer, " ", pad - pad / 2);
        assert(buffer@ =~= b0 + centered(t@, w as nat));
    } else {
        buffer.append(t);
    }
}

/// Appends `t` as one framed body line of width `w`.
fn push_framed_line(buffer: &mut String, t: &str, w: usize)
    ensures
        final(buffer)@ == old(buffer)@ + framed_line(t@, w as nat),
{
    let ghost b0 = buffer@;
    proof {
        reveal_strlit("|");
        reveal_strlit("|\n");
    }
    buffer.append("|");
    push_left_aligned(buffer, t, w);
    buffer.append("|\n");
    assert(buffer@ =~= b0 + framed_line(t@, w as nat));
}

/// Appends each line of `text` as a framed body line of width `w`.
fn push_framed_lines(buffer: &mut String, text: &str, w: usize)
    ensures
        final(buffer)@ == old(buffer)@ + framed_lines(lines(text@), w as nat),
{
    let ghost b0 = buffer@;
    let ghost mut done: Seq<Seq<char>> = seq![];
    let n = text.unicode_len();
    let mut start: usize = 0;
    let mut i: usize = 0;
    while i < n
        invariant
            n == text@.len(),
            start <= i <= n,
            pieces(text@.subrange(0, i as int)) == (done, text@.subrange(start as int, i as int)),
            buffer@ == b0 + framed_lines(done, w as nat),
        decreases n - i,
    {
        let c = text.get_char(i);
        assert(text@.subrange(0, i + 1).drop_last() == text@.subrange(0, i as int));
        assert(text@.subrange(0, i + 1).last() == c);
        if c == '\n' {
            let mut end = i;
            if start < i && text.get_char(i - 1) == '\r' {
                end = i - 1;
            }
            assert(text@.subrange(start as int, end as int) =~= without_cr(
                text@.subrange(start as int, i as int),
            ));
            let line = text.substring_char(start, end);
            push_framed_line(buffer, line, w);
            proof {
                assert(done.push(line@).drop_last() == done);
                done = done.push(line@);
            }
            start = i + 1;
            assert(text@.subrange(start as int, i + 1) =~= seq![]);
        } else {
            assert(text@.subrange(start as int, i as int).push(c) =~= text@.subrange(start as int, i + 1));
        }
        i += 1;
    }
    assert(text@.subrange(0, n as int) == text@);
    if start < n {
        let line = text.substring_char(start, n);
        push_framed_line(buffer, line, w);
        assert(done.push(line@).drop_last() == done);
    }
}

/// No widget of `s` is wider than `max_width(s)`, a non-empty `s` holds one
/// exactly that wide, and an empty `s` gives 0.
pub proof fn lemma_max_width(s: Seq<Component>)
    ensures
        forall|i: int| 0 <= i < s.len() ==> width_of(#[trigger] s[i]) <= max_width(s),
        s.len() == 0 ==> max_width(s) == 0,
        s.len() > 0 ==> exists|i: int| 0 <= i < s.len() && max_width(s) == width_of(#[trigger] s[i]),
    decreases s.len(),
{
    if s.len() > 0 {
        let t = s.drop_last();
        lemma_max_width(t);
        assert forall|i: int| 0 <= i < s.len() implies width_of(#[trigger] s[i]) <= max_width(s) by {
            if i < t.len() {
                assert(s[i] == t[i]);
            }
        }
        if max_width(t) >= width_of(s.last()) && t.len() > 0 {
            let j = choose|j: int| 0 <= j < t.len() && max_width(t) == width_of(#[trigger] t[j]);
            assert(s[j] == t[j]);
        } else {
            assert(s[s.len() - 1] == s.last());
        }
    }
}

/// The shared capability of every widget: a natural width and a rendering.
pub trait Widget {
    /// The natural width, in columns.
    spec fn spec_width(&self) -> nat;

    /// Returns the natural width.
    fn width(&self) -> (r: usize)
        requires
            self.spec_width() <= usize::MAX,
        ensures
            r == self.spec_width(),
    ;

    /// The full rendering, borders included.
    spec fn spec_rendering(&self) -> Seq<char>;

    /// Appends the rendering to `buffer`.
    fn draw_into(&self, buffer: &mut String)
        requires
            self.spec_width() <= usize::MAX,
        ensures
            final(buffer)@ == old(buffer)@ + self.spec_rendering(),
    ;
}

impl Label {
    /// A label showing `label`.
    pub fn new(label: &str) -> (r: Label)
        ensures
            r.label@ == label@,
    {
        Label { label: String::from_str(label) }
    }
}

impl<A: Action + ?Sized> Button<A> {
    /// A button showing `label` that runs `callback` when activated. The
    /// callback is stored as given and not run.
    pub fn new(label: &str, callback: Box<A>) -> (r: Button<A>)
        ensures
            r.label.label@ == label@,
            r.callback == callback,
    {
        Button { label: Label::new(label), callback }
    }

    /// Runs the button's action; the button's text is left as it was.
    pub fn activate(&mut self)
        ensures
            final(self).label == old(self).label,
    {
        self.callback.invoke();
    }
}

impl Window {
    /// An empty window titled `title`.
    pub fn new(title: &str) -> (r: Window)
        ensures
            r.title@ == title@,
            r.widgets@.len() == 0,
    {
        Window { title: String::from_str(title), widgets: Vec::new() }
    }

    /// Appends `widget` as the last child.
    pub fn add_widget(&mut self, widget: Component)
        ensures
            final(self).title == old(self).title,
            final(self).widgets@ == old(self).widgets@.push(widget),
    {
        self.widgets.push(widget);
    }
}

impl Widget for Label {
    open spec fn spec_width(&self) -> nat {
        width_of(Component::Label(*self))
    }

    fn width(&self) -> (r: usize) {
        self.label.as_str().unicode_len() + 2
    }

    open spec fn spec_rendering(&self) -> Seq<char> {
        self.label@
    }

    fn draw_into(&self, buffer: &mut String) {
        buffer.append(self.label.as_str());
    }
}

impl<A: ?Sized> Widget for Button<A> {
    open spec fn spec_width(&self) -> nat {
        self.label.label@.len() + 6
    }

    fn width(&self) -> (r: usize) {
        self.label.width() + 4
    }

    open spec fn spec_rendering(&self) -> Seq<char> {
        button_rendering(self.label.label@)
    }

    fn draw_into(&self, buffer: &mut String) {
        let ghost b0 = buffer@;
        let ghost t = self.label.label@;
        proof {
            reveal_strlit("-");
            reveal_strlit("\n| ");
            reveal_strlit(" |\n");
        }
        let w = self.label.width();
        push_rule(buffer, "-", w);
        buffer.append("\n| ");
        buffer.append(self.label.label.as_str());
        buffer.append(" |\n");
        push_rule(buffer, "-", w);
        assert(buffer@ =~= b0 + button_rendering(t));
    }
}

impl Widget for Window {
    open spec fn spec_width(&self) -> nat {
        max_width(self.widgets@)
    }

    fn width(&self) -> (r: usize)
        decreases self,
    {
        let ghost s = self.widgets@;
        proof {
            lemma_max_width(s);
        }
        let mut width: usize = 0;
        let mut i: usize = 0;
        while i < self.widgets.len()
            invariant
                s == self.widgets@,
                max_width(s) <= usize::MAX,
                0 <= i <= s.len(),
                forall|k: int| 0 <= k < s.len() ==> width_of(#[trigger] s[k]) <= max_width(s),
                width == max_width(s.subrange(0, i as int)),
            decreases s.len() - i,
        {
            proof {
                assert(decreases_to!(self => self.widgets@[i as int]));
            }
            let w = self.widgets[i].width();
            assert(s.subrange(0, i + 1).drop_last() == s.subrange(0, i as int));
            if w > width {
                width = w;
            }
            i += 1;
        }
        assert(s.subrange(0, i as int) == s);
        width
    }

    open spec fn spec_rendering(&self) -> Seq<char> {
        rendering_of(Component::Window(*self))
    }

    fn draw_into(&self, buffer: &mut String)
        decreases self,
    {
        let ghost b0 = buffer@;
        let ghost s = self.widgets@;
        proof {
            lemma_max_width(s);
            reveal_strlit("-");
            reveal_strlit("=");
            reveal_strlit("\n|");
            reveal_strlit("|\n");
            reveal_strlit("\n");
        }
        let w = self.width();
        push_rule(buffer, "-", w);
        buffer.append("\n|");
        push_centered(buffer, self.title.as_str(), w);
        buffer.append("|\n");
        push_rule(buffer, "=", w);
        buffer.append("\n");
        let ghost b1 = buffer@;
        assert(b1 =~= b0 + window_header(self.title@, w as nat));
        let mut i: usize = 0;
        while i < self.widgets.len()
            invariant
                s == self.widgets@,
                w == max_width(s),
                0 <= i <= s.len(),
                forall|k: int| 0 <= k < s.len() ==> width_of(#[trigger] s[k]) <= max_width(s),
                buffer@ == b1 + window_body(s.subrange(0, i as int), w as nat),
            decreases s.len() - i,
        {
            proof {
                assert(decreases_to!(self => self.widgets@[i as int]));
            }
            let mut tmp = String::new();
            self.widgets[i].draw_into(&mut tmp);
            assert(tmp@ =~= rendering_of(s[i as int]));
            push_framed_lines(buffer, tmp.as_str(), w);
            assert(s.subrange(0, i + 1).drop_last() == s.subrange(0, i as int));
            assert(s.subrange(0, i + 1).last() == s[i as int]);
            i += 1;
        }
        assert(s.subrange(0, i as int) == s);
        push_rule(buffer, "-", w);
        assert(buffer@ =~= b0 + rendering_of(Component::Window(*self)));
    }
}

impl Widget for Component {
    open spec fn spec_width(&self) -> nat {
        width_of(*self)
    }

    fn width(&self) -> (r: usize)
        decreases self,
    {
        match self {
            Component::Label(l) => l.width(),
            Component::Button(b) => b.width(),
            Component::Window(w) => w.width(),
        }
    }

    open spec fn spec_rendering(&self) -> Seq<char> {
        rendering_of(*self)
    }

    fn draw_into(&self, buffer: &mut String)
        decreases self,
    {
        match self {
            Component::Label(l) => l.draw_into(buffer),
            Component::Button(b) => b.draw_into(buffer),
            Component::Window(w) => w.draw_into(buffer),
        }
    }
}

} // verus!

verus! {

/// Renders `w` into a fresh string.
pub fn render<W: Widget>(w: &W) -> (r: String)
    requires
        w.spec_width() <= usize::MAX,
    ensures
        r@ == w.spec_rendering(),
{
    let mut buffer = String::new();
    w.draw_into(&mut buffer);
    assert(buffer@ =~= w.spec_rendering());
    buffer
}

/// A label is two columns wider than its text.
pub proof fn lemma_label_width(l: Label)
    ensures
        l.spec_width() == l.label@.len() + 2,
{
}

/// A button is four columns wider than its label, six wider than the text.
pub proof fn lemma_button_width<A: ?Sized>(b: Button<A>)
    ensures
        b.spec_width() == b.label.spec_width() + 4,
        b.spec_width() == b.label.label@.len() + 6,
{
}

/// A window is as wide as its widest child, and 0 columns wide when empty.
pub proof fn lemma_window_width(w: Window)
    ensures
        forall|i: int|
            0 <= i < w.widgets@.len() ==> (#[trigger] w.widgets@[i]).spec_width() <= w.spec_width(),
        w.widgets@.len() > 0 ==> exists|i: int|
            0 <= i < w.widgets@.len() && w.spec_width() == (#[trigger] w.widgets@[i]).spec_width(),
        w.widgets@.len() == 0 ==> w.spec_width() == 0,
{
    lemma_max_width(w.widgets@);
}

/// Rendering the same widget twice gives the same text.
pub proof fn lemma_render_repeatable(c: Component, first: Seq<char>, second: Seq<char>)
    requires
        first == c.spec_rendering(),
        second == c.spec_rendering(),
    ensures
        first == second,
{
}

/// The body for two lists of children one after the other is the body for the
/// first followed by the body for the second.
pub proof fn lemma_window_body_append(s: Seq<Component>, t: Seq<Component>, w: nat)
    ensures
        window_body(s + t, w) == window_body(s, w) + window_body(t, w),
    decreases t.len(),
{
    if t.len() == 0 {
        assert(s + t =~= s);
        assert(window_body(s, w) + window_body(t, w) =~= window_body(s, w));
    } else {
        lemma_window_body_append(s, t.drop_last(), w);
        assert((s + t).drop_last() =~= s + t.drop_last());
        assert((s + t).last() == t.last());
        assert(window_body(s + t, w) =~= window_body(s, w) + window_body(t, w));
    }
}

/// The body is the block of each child in turn: the children before index
/// `k`, then the block of child `k`, then the children after it.
pub proof fn lemma_window_body_split(s: Seq<Component>, k: int, w: nat)
    requires
        0 <= k < s.len(),
    ensures
        window_body(s, w) == window_body(s.take(k), w) + child_block(s[k], w) + window_body(
            s.skip(k + 1),
            w,
        ),
{
    let single = seq![s[k]];
    assert(single.drop_last() =~= Seq::<Component>::empty());
    assert(single.last() == s[k]);
    assert(window_body(single.drop_last(), w) == Seq::<char>::empty());
    assert(window_body(single, w) =~= child_block(s[k], w));
    lemma_window_body_append(s.take(k), single, w);
    lemma_window_body_append(s.take(k) + single, s.skip(k + 1), w);
    assert(s.take(k) + single + s.skip(k + 1) =~= s);
}

/// A window with three children shows, between its header and its bottom
/// border, the lines of the first, then of the second, then of the third.
pub proof fn lemma_window_children_in_order(
    win: Window,
    c1: Component,
    c2: Component,
    c3: Component,
)
    requires
        win.widgets@ == seq![c1, c2, c3],
    ensures
        ({
            let w = win.spec_width();
            win.spec_rendering() == window_header(win.title@, w) + child_block(c1, w) + child_block(
                c2,
                w,
            ) + child_block(c3, w) + rule('-', w)
        }),
{
    let s = win.widgets@;
    let w = win.spec_width();
    let s1 = s.drop_last().drop_last();
    assert(s1.drop_last() =~= Seq::<Component>::empty());
    assert(s1 =~= seq![c1]);
    assert(s1.last() == c1);
    assert(window_body(s1.drop_last(), w) == Seq::<char>::empty());
    assert(window_body(s1, w) =~= child_block(c1, w));
    assert(s.drop_last() =~= seq![c1, c2]);
    assert(s.drop_last().last() == c2);
    assert(s.last() == c3);
    assert(window_body(s.drop_last(), w) == window_body(s1, w) + child_block(c2, w));
    assert(window_body(s, w) == window_body(s.drop_last(), w) + child_block(c3, w));
    assert(window_body(s, w) =~= child_block(c1, w) + child_block(c2, w) + child_block(c3, w));
    assert(win.spec_rendering() =~= window_header(win.title@, w) + child_block(c1, w)
        + child_block(c2, w) + child_block(c3, w) + rule('-', w));
}

/// A window held by another window is shown as the lines of its own full
/// rendering, each framed and padded to the outer width like any other child.
pub proof fn lemma_nested_window(outer: Window, k: int, inner: Window)
    requires
        0 <= k < outer.widgets@.len(),
        outer.widgets@[k] == Component::Window(inner),
    ensures
        ({
            let w = outer.spec_width();
            let s = outer.widgets@;
            outer.spec_rendering() == window_header(outer.title@, w) + window_body(s.take(k), w)
                + framed_lines(lines(inner.spec_rendering()), w) + window_body(s.skip(k + 1), w)
                + rule('-', w)
        }),
{
    let w = outer.spec_width();
    let s = outer.widgets@;
    lemma_window_body_split(s, k, w);
    assert(outer.spec_rendering() =~= window_header(outer.title@, w) + window_body(s.take(k), w)
        + framed_lines(lines(inner.spec_rendering()), w) + window_body(s.skip(k + 1), w) + rule(
        '-',
        w,
    ));
}

} // verus!
