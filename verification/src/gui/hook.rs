//! A part of the window that tells when the pointer comes, goes and clicks.

use vstd::prelude::*;

verus! {

/// What to tell, each at most once, and whether to show that a click counts.
#[derive(Debug)]
pub struct Hook<T> {
    pub on_hover: Option<T>,
    pub on_leave: Option<T>,
    pub on_click: Option<T>,
    pub show_clickable: bool,
}

/// The message, if there is one and it is due.
pub open spec fn due<T>(m: Option<T>, when: bool) -> Seq<T> {
    match m {
        Some(t) => if when {
            seq![t]
        } else {
            seq![]
        },
        None => seq![],
    }
}

/// What is left of a message once it may have been told.
pub open spec fn left<T>(m: Option<T>, when: bool) -> Option<T> {
    if when {
        None
    } else {
        m
    }
}

impl<T> Hook<T> {
    /// A part that tells nothing.
    pub fn new() -> (r: Self)
        ensures
            r.on_hover is None,
            r.on_leave is None,
            r.on_click is None,
            !r.show_clickable,
    {
        Hook { on_hover: None, on_leave: None, on_click: None, show_clickable: false }
    }

    /// Tells this when the pointer comes.
    pub fn on_hover(self, message: T) -> (r: Self)
        ensures
            r == (Hook { on_hover: Some(message), ..self }),
    {
        Hook { on_hover: Some(message), ..self }
    }

    /// Tells this when the pointer goes.
    pub fn on_leave(self, message: T) -> (r: Self)
        ensures
            r == (Hook { on_leave: Some(message), ..self }),
    {
        Hook { on_leave: Some(message), ..self }
    }

    /// Tells this when there is a click.
    pub fn on_click(self, message: T) -> (r: Self)
        ensures
            r == (Hook { on_click: Some(message), ..self }),
    {
        Hook { on_click: Some(message), ..self }
    }

    /// Whether to show that a click counts.
    pub fn show_clickable(self, show_clickable: bool) -> (r: Self)
        ensures
            r == (Hook { show_clickable, ..self }),
    {
        Hook { show_clickable, ..self }
    }

    /// Takes note of where the pointer is now, and whether it was pressed, and
    /// gives what is to be told.
    pub fn update(&mut self, hovered: &mut bool, over: bool, pressed: bool) -> (r: Vec<T>)
        ensures
            *final(hovered) == over,
            r@ == due(old(self).on_leave, *old(hovered) && !over) + due(
                old(self).on_hover,
                !*old(hovered) && over,
            ) + due(old(self).on_click, over && pressed),
            *final(self) == (Hook {
                on_hover: left(old(self).on_hover, !*old(hovered) && over),
                on_leave: left(old(self).on_leave, *old(hovered) && !over),
                on_click: left(old(self).on_click, over && pressed),
                show_clickable: old(self).show_clickable,
            }),
    {
        let mut r: Vec<T> = Vec::new();
        if *hovered && !over {
            if let Some(m) = self.on_leave.take() {
                r.push(m);
            }
        }
        if !*hovered && over {
            if let Some(m) = self.on_hover.take() {
                r.push(m);
            }
        }
        *hovered = over;
        if over && pressed {
            if let Some(m) = self.on_click.take() {
                r.push(m);
            }
        }
        r
    }

    /// Whether the pointer is shown as one that can click.
    pub fn shows_pointer(&self, over: bool) -> (r: bool)
        ensures
            r == (self.show_clickable && over),
    {
        self.show_clickable && over
    }
}

/// Each message is told at most once: when it was told it is gone, and what is gone
/// is told no more. One that is not due stays.
pub proof fn messages_are_told_once<T>(m: Option<T>, now: bool)
    ensures
        now && m is Some ==> due(m, now) == seq![m->0],
        !now || m is None ==> due(m, now).len() == 0,
        now ==> left(m, now) is None,
        !now ==> left(m, now) == m,
        forall|again: bool|
            #[trigger] due(left(m, now), again).len() + due(m, now).len() <= 1,
{
}

} // verus!
