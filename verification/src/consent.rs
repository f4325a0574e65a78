//! The sequence that authorises a write.
//!
//! Chosen over hold-to-confirm deliberately: it depends only on discrete
//! presses, so it does not rely on the firmware's auto-repeat behaviour, and
//! a buffered burst of repeats cannot walk through it. Five specific presses
//! in order is not something a thumb does by accident.

use crate::style::{shown, Line, LineView, Style};
use crate::text::{filled, filled_text};
use crate::ui::{
    add_hint, clear, clear_draws, drawn, hint_view, hints_of, ink, ink_of, lines_draws, no_hints,
    nothing, put, put_all, put_lines, Draw, DrawView, Hint, Ink, Input, Screen,
};
use vstd::prelude::*;

verus! {

/// How many presses the sequence has.
pub const PRESSES: usize = 5;

/// LEFT RIGHT LEFT RIGHT A.
pub open spec fn sequence() -> Seq<Input> {
    seq![Input::Left, Input::Right, Input::Left, Input::Right, Input::Select]
}

/// LEFT RIGHT LEFT RIGHT A.
pub fn confirm_presses() -> (r: [Input; 5])
    ensures
        r@ == sequence(),
{
    let r: [Input; 5] = [Input::Left, Input::Right, Input::Left, Input::Right, Input::Select];
    assert(r@ =~= sequence());
    r
}

/// What a press is called.
pub open spec fn press_label(i: Input) -> Seq<char> {
    match i {
        Input::Up => "UP"@,
        Input::Down => "DOWN"@,
        Input::Left => "LEFT"@,
        Input::Right => "RIGHT"@,
        Input::Select => "A"@,
        Input::Cancel => "B"@,
        Input::View => "VIEW"@,
    }
}

/// What a press is called.
pub fn step_name(i: Input) -> (r: &'static str)
    ensures
        r@ == press_label(i),
{
    match i {
        Input::Up => "UP",
        Input::Down => "DOWN",
        Input::Left => "LEFT",
        Input::Right => "RIGHT",
        Input::Select => "A",
        Input::Cancel => "B",
        Input::View => "VIEW",
    }
}

/// How far the operator has got.
#[derive(Clone, Copy, PartialEq, Eq, Structural, Debug)]
pub struct Gate {
    /// How many presses of the sequence have been made.
    pub position: usize,
    /// The last press was not the one that was asked for.
    pub wrong: bool,
}

/// What a press at the lock comes to.
#[derive(Clone, Copy, PartialEq, Eq, Structural, Debug)]
pub enum GateStep {
    /// Ask again, from here.
    Waiting(Gate),
    /// The whole sequence was entered.
    Authorised,
    /// The operator backed out.
    Cancelled,
}

impl Gate {
    /// There is a press to wait for.
    pub open spec fn wf(self) -> bool {
        self.position < PRESSES
    }

    /// What a press does.
    ///
    /// B cancels outright. View has been off to the display screen and
    /// back: a legitimate reach for legibility must not also cost the
    /// operator their place in the sequence. Any other press that is not
    /// the one asked for starts again; restarting from a correct first
    /// press is the common case after a fumble, so it counts as one.
    pub open spec fn after(self, input: Input) -> GateStep {
        if input == Input::Cancel {
            GateStep::Cancelled
        } else if input == Input::View {
            GateStep::Waiting(self)
        } else if input == sequence()[self.position as int] {
            if self.position + 1 == PRESSES {
                GateStep::Authorised
            } else {
                GateStep::Waiting(Gate { position: (self.position + 1) as usize, wrong: false })
            }
        } else {
            GateStep::Waiting(
                Gate {
                    position: if input == sequence()[0] {
                        1
                    } else {
                        0
                    },
                    wrong: true,
                },
            )
        }
    }

    /// Nothing pressed yet.
    pub fn new() -> (r: Self)
        ensures
            r == (Gate { position: 0, wrong: false }),
            r.wf(),
    {
        Gate { position: 0, wrong: false }
    }

    /// What a press does.
    pub fn press(self, input: Input) -> (r: GateStep)
        requires
            self.wf(),
        ensures
            r == self.after(input),
            r matches GateStep::Waiting(g) ==> g.wf(),
    {
        let wanted = confirm_presses();
        if input == Input::Cancel {
            return GateStep::Cancelled;
        }
        if input == Input::View {
            return GateStep::Waiting(self);
        }
        if input == wanted[self.position] {
            if self.position + 1 == PRESSES {
                GateStep::Authorised
            } else {
                GateStep::Waiting(Gate { position: self.position + 1, wrong: false })
            }
        } else {
            let position: usize = if input == wanted[0] {
                1
            } else {
                0
            };
            GateStep::Waiting(Gate { position, wrong: true })
        }
    }
}

// ------------------------------------------------------------------ drawing

/// The names of the first `n` presses.
pub open spec fn names_text(n: nat) -> Seq<char>
    decreases n,
{
    if n == 0 {
        "     "@
    } else {
        names_text((n - 1) as nat) + press_label(sequence()[n - 1]) + "  "@
    }
}

/// The box of press `i`: done in green, the one being waited for in cyan,
/// the rest dim.
pub open spec fn box_draws(i: int, position: int) -> Seq<DrawView> {
    seq![
        DrawView::Paint(
            ink(
                if i < position {
                    Style::Good
                } else if i == position {
                    Style::Key
                } else {
                    Style::Dim
                },
            ),
        ),
        DrawView::Text(
            if i < position {
                "[x]"@
            } else {
                "[ ]"@
            },
        ),
        DrawView::Paint(Ink::Body),
        DrawView::Text(filled(' ', (press_label(sequence()[i]).len() - 1) as nat)),
    ]
}

/// The boxes of the first `n` presses.
pub open spec fn boxes_draws(position: int, n: nat) -> Seq<DrawView>
    decreases n,
{
    if n == 0 {
        Seq::empty()
    } else {
        boxes_draws(position, (n - 1) as nat) + box_draws(n - 1, position)
    }
}

/// The progress boxes under the names of the presses.
pub open spec fn steps_draws(position: int) -> Seq<DrawView> {
    seq![
        DrawView::Paint(ink(Style::Dim)),
        DrawView::Row(names_text(PRESSES as nat)),
        DrawView::Paint(Ink::Body),
        DrawView::Text("     "@),
    ] + boxes_draws(position, PRESSES as nat) + seq![DrawView::Row(""@)]
}

/// What the last press came to.
pub open spec fn progress_draws(g: Gate) -> Seq<DrawView> {
    if g.wrong {
        seq![
            DrawView::Paint(ink(Style::Bad)),
            DrawView::Row("  wrong button - sequence reset"@),
            DrawView::Paint(Ink::Body),
        ]
    } else if g.position > 0 {
        seq![
            DrawView::Paint(ink(Style::Key)),
            DrawView::Row("  next: "@ + press_label(sequence()[g.position as int])),
            DrawView::Paint(Ink::Body),
        ]
    } else {
        Seq::empty()
    }
}

/// The request for the sequence.
pub open spec fn request_draws() -> Seq<DrawView> {
    seq![
        DrawView::Row(""@),
        DrawView::Paint(ink(Style::Title)),
        DrawView::Row("  To authorise this, press in order:"@),
        DrawView::Paint(Ink::Body),
        DrawView::Row(""@),
    ]
}

/// The screen that asks for the sequence.
pub open spec fn gate_draws(s: Screen, title: Seq<char>, warning: Seq<LineView>, g: Gate) -> Seq<
    DrawView,
> {
    clear_draws() + s.header_draws(title) + lines_draws(warning, warning.len(), s.cols as int)
        + request_draws() + steps_draws(g.position as int) + seq![DrawView::Row(""@)]
        + progress_draws(g) + s.footer_draws(
        seq![hint_view("B"@, "cancel, nothing is written"@)] + s.display_hint(),
    )
}

proof fn labels_are_not_empty(i: Input)
    ensures
        press_label(i).len() >= 1,
{
    reveal_strlit("UP");
    reveal_strlit("DOWN");
    reveal_strlit("LEFT");
    reveal_strlit("RIGHT");
    reveal_strlit("A");
    reveal_strlit("B");
    reveal_strlit("VIEW");
}

fn draw_steps(position: usize) -> (r: Vec<Draw>)
    ensures
        drawn(r@) == steps_draws(position as int),
{
    let wanted = confirm_presses();
    let mut names = "     ".to_owned();
    let mut i: usize = 0;
    while i < PRESSES
        invariant
            i <= PRESSES,
            wanted@ == sequence(),
            names@ == names_text(i as nat),
        decreases PRESSES - i,
    {
        names.push_str(step_name(wanted[i]));
        names.push_str("  ");
        i += 1;
    }
    let mut out = nothing();
    put(&mut out, Draw::Paint(ink_of(Style::Dim)));
    put(&mut out, Draw::Row(names));
    put(&mut out, Draw::Paint(Ink::Body));
    put(&mut out, Draw::Text("     ".to_owned()));
    let ghost head = drawn(out@);
    let mut i: usize = 0;
    assert(drawn(out@) =~= head + boxes_draws(position as int, 0));
    while i < PRESSES
        invariant
            i <= PRESSES,
            wanted@ == sequence(),
            drawn(out@) == head + boxes_draws(position as int, i as nat),
        decreases PRESSES - i,
    {
        let ghost before = drawn(out@);
        let name = step_name(wanted[i]);
        let style = if i < position {
            Style::Good
        } else if i == position {
            Style::Key
        } else {
            Style::Dim
        };
        put(&mut out, Draw::Paint(ink_of(style)));
        let mark = if i < position {
            "[x]".to_owned()
        } else {
            "[ ]".to_owned()
        };
        put(&mut out, Draw::Text(mark));
        put(&mut out, Draw::Paint(Ink::Body));
        proof {
            labels_are_not_empty(wanted@[i as int]);
        }
        put(&mut out, Draw::Text(filled_text(' ', name.unicode_len() - 1)));
        assert(drawn(out@) =~= before + box_draws(i as int, position as int));
        i += 1;
        assert(drawn(out@) =~= head + boxes_draws(position as int, i as nat));
    }
    let ghost boxes = drawn(out@);
    put(&mut out, Draw::Row("".to_owned()));
    assert(drawn(out@) =~= boxes + seq![DrawView::Row(""@)]);
    out
}

fn draw_request() -> (r: Vec<Draw>)
    ensures
        drawn(r@) == request_draws(),
{
    let mut out = nothing();
    put(&mut out, Draw::Row("".to_owned()));
    put(&mut out, Draw::Paint(ink_of(Style::Title)));
    put(&mut out, Draw::Row("  To authorise this, press in order:".to_owned()));
    put(&mut out, Draw::Paint(Ink::Body));
    put(&mut out, Draw::Row("".to_owned()));
    out
}

fn draw_progress(g: Gate) -> (r: Vec<Draw>)
    requires
        g.wf(),
    ensures
        drawn(r@) == progress_draws(g),
{
    let mut out = nothing();
    if g.wrong {
        put(&mut out, Draw::Paint(ink_of(Style::Bad)));
        put(&mut out, Draw::Row("  wrong button - sequence reset".to_owned()));
        put(&mut out, Draw::Paint(Ink::Body));
    } else if g.position > 0 {
        put(&mut out, Draw::Paint(ink_of(Style::Key)));
        let mut s = "  next: ".to_owned();
        s.push_str(step_name(confirm_presses()[g.position]));
        put(&mut out, Draw::Row(s));
        put(&mut out, Draw::Paint(Ink::Body));
    }
    out
}

/// The screen that asks for the sequence.
pub fn confirm_sequence(s: &Screen, title: &str, warning: &[Line], g: Gate) -> (r: Vec<Draw>)
    requires
        g.wf(),
    ensures
        drawn(r@) == gate_draws(*s, title@, shown(warning@), g),
{
    let mut out = clear();
    put_all(&mut out, s.header(title));
    put_lines(&mut out, warning, s.cols);
    assert(shown(warning@).len() == warning@.len());
    put_all(&mut out, draw_request());
    put_all(&mut out, draw_steps(g.position));
    let ghost before = drawn(out@);
    put(&mut out, Draw::Row("".to_owned()));
    assert(drawn(out@) =~= before + seq![DrawView::Row(""@)]);
    put_all(&mut out, draw_progress(g));
    let mut hints: Vec<Hint<'static>> = no_hints();
    add_hint(&mut hints, "B", "cancel, nothing is written");
    s.add_display_hint(&mut hints);
    assert(hints_of(hints@) == seq![hint_view("B"@, "cancel, nothing is written"@)]
        + s.display_hint());
    put_all(&mut out, s.footer(hints.as_slice()));
    out
}

// --------------------------------------------------------------------- laws

/// What a whole run of presses comes to. The lock is closed by the first
/// press that authorises or cancels.
pub open spec fn gate_after(presses: Seq<Input>) -> GateStep
    decreases presses.len(),
{
    if presses.len() == 0 {
        GateStep::Waiting(Gate { position: 0, wrong: false })
    } else {
        match gate_after(presses.drop_last()) {
            GateStep::Waiting(g) => g.after(presses.last()),
            closed => closed,
        }
    }
}

/// The presses that are not a visit to the display screen.
pub open spec fn counted(presses: Seq<Input>) -> Seq<Input>
    decreases presses.len(),
{
    if presses.len() == 0 {
        Seq::empty()
    } else if presses.last() == Input::View {
        counted(presses.drop_last())
    } else {
        counted(presses.drop_last()).push(presses.last())
    }
}

/// `all` ends with `end`.
pub open spec fn ends_with(all: Seq<Input>, end: Seq<Input>) -> bool {
    all.len() >= end.len() && all.skip(all.len() - end.len()) == end
}

/// While the lock waits, the last presses are the ones of the sequence that
/// were counted.
proof fn waiting_has_its_presses(presses: Seq<Input>)
    ensures
        gate_after(presses) matches GateStep::Waiting(g) ==> g.wf() && ends_with(
            counted(presses),
            sequence().take(g.position as int),
        ) && !presses.contains(Input::Cancel),
    decreases presses.len(),
{
    if presses.len() == 0 {
        assert(counted(presses).skip(0) =~= sequence().take(0));
    } else if let GateStep::Waiting(g) = gate_after(presses) {
        let front = presses.drop_last();
        let last = presses.last();
        waiting_has_its_presses(front);
        let before = gate_after(front)->Waiting_0;
        not_there_either(front, last);
        assert(presses =~= front.push(last));
        let all = counted(presses);
        if last != Input::View {
            let part = counted(front);
            assert(all == part.push(last));
            if last == sequence()[before.position as int] {
                let had = sequence().take(before.position as int);
                assert(all.skip(all.len() - g.position) =~= part.skip(
                    part.len() - had.len(),
                ).push(last));
                assert(sequence().take(g.position as int) =~= had.push(last));
            } else if last == sequence()[0] {
                assert(all.skip(all.len() - 1) =~= sequence().take(1));
            } else {
                assert(all.skip(all.len() as int) =~= sequence().take(0));
            }
        }
    }
}

proof fn not_there_either(front: Seq<Input>, last: Input)
    requires
        !front.contains(Input::Cancel),
        last != Input::Cancel,
    ensures
        !front.push(last).contains(Input::Cancel),
{
}

/// A write is authorised only by the whole sequence: the press that opens
/// the lock is the last of the five, made in order with nothing between
/// them but visits to the display screen, and B was never pressed.
pub proof fn only_the_sequence_authorises(presses: Seq<Input>, last: Input)
    requires
        gate_after(presses) is Waiting,
        gate_after(presses.push(last)) is Authorised,
    ensures
        ends_with(counted(presses.push(last)), sequence()),
        !presses.push(last).contains(Input::Cancel),
{
    let all = presses.push(last);
    assert(all.drop_last() =~= presses);
    waiting_has_its_presses(presses);
    let g = gate_after(presses)->Waiting_0;
    let part = counted(presses);
    let had = sequence().take(g.position as int);
    not_there_either(presses, last);
    assert(counted(all) == part.push(last));
    assert(counted(all).skip(counted(all).len() - 5) =~= part.skip(part.len() - had.len()).push(
        last,
    ));
    assert(sequence() =~= had.push(last));
}

/// The sequence authorises from wherever the operator has got to, as long
/// as the lock still waits and the first press of it is not taken for part
/// of an attempt already under way.
pub proof fn the_sequence_authorises(presses: Seq<Input>)
    requires
        gate_after(presses) matches GateStep::Waiting(g) && g.position == 0,
    ensures
        gate_after(presses + sequence()) is Authorised,
{
    let s = sequence();
    let p1 = presses.push(s[0]);
    let p2 = p1.push(s[1]);
    let p3 = p2.push(s[2]);
    let p4 = p3.push(s[3]);
    let p5 = p4.push(s[4]);
    assert(presses + s =~= p5);
    assert(p5.drop_last() =~= p4);
    assert(p4.drop_last() =~= p3);
    assert(p3.drop_last() =~= p2);
    assert(p2.drop_last() =~= p1);
    assert(p1.drop_last() =~= presses);
    assert(gate_after(p1) == GateStep::Waiting(Gate { position: 1, wrong: false }));
    assert(gate_after(p2) == GateStep::Waiting(Gate { position: 2, wrong: false }));
    assert(gate_after(p3) == GateStep::Waiting(Gate { position: 3, wrong: false }));
    assert(gate_after(p4) == GateStep::Waiting(Gate { position: 4, wrong: false }));
}

/// B closes the lock without authorising anything, whenever it is pressed.
pub proof fn cancel_never_authorises(presses: Seq<Input>)
    requires
        gate_after(presses) is Waiting,
    ensures
        gate_after(presses.push(Input::Cancel)) is Cancelled,
{
    assert(presses.push(Input::Cancel).drop_last() =~= presses);
}


/// A write is authorised exactly by LEFT, RIGHT, LEFT, RIGHT, A, pressed with
/// nothing between them but visits to the display screen: after four of them
/// only the fifth opens the lock.
pub proof fn five_presses_in_order_open_the_lock(presses: Seq<Input>, last: Input)
    requires
        gate_after(presses) is Waiting,
    ensures
        gate_after(presses.push(last)) is Authorised ==> last == Input::Select && counted(
            presses,
        ).len() >= 4 && counted(presses).skip(counted(presses).len() - 4) == seq![
            Input::Left,
            Input::Right,
            Input::Left,
            Input::Right,
        ],
        gate_after(
            Seq::<Input>::empty().push(Input::Left).push(Input::Right).push(Input::Left).push(
                Input::Right,
            ).push(Input::Select),
        ) is Authorised,
{
    if gate_after(presses.push(last)) is Authorised {
        let all = presses.push(last);
        assert(all.drop_last() =~= presses);
        waiting_has_its_presses(presses);
        let g = gate_after(presses)->Waiting_0;
        assert(g.position == 4);
        assert(sequence().take(4) =~= seq![Input::Left, Input::Right, Input::Left, Input::Right]);
    }
    let none = Seq::<Input>::empty();
    assert(gate_after(none) == GateStep::Waiting(Gate { position: 0, wrong: false }));
    the_sequence_authorises(none);
    assert(none + sequence() =~= none.push(Input::Left).push(Input::Right).push(Input::Left).push(
        Input::Right,
    ).push(Input::Select));
}

/// A visit to the display screen costs the operator nothing, and a press that
/// was not asked for costs the whole attempt: what was pressed before it no
/// longer counts.
pub proof fn a_wrong_press_starts_again(g: Gate, input: Input)
    requires
        g.wf(),
    ensures
        g.after(Input::View) == GateStep::Waiting(g),
        input != Input::View && input != Input::Cancel && input != (if g.position == 4 {
            Input::Select
        } else if g.position % 2 == 0 {
            Input::Left
        } else {
            Input::Right
        }) ==> (g.after(input) matches GateStep::Waiting(next) && next.wrong && next.position == (
        if input == Input::Left {
            1int
        } else {
            0int
        })),
{
}

} // verus!
