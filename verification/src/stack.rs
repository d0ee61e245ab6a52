//! The stack of active colours, kept in a vector that is never empty.

use vstd::prelude::*;
use non_empty_vec::NonEmpty;
use crate::palette::Color;

verus! {

/// `non_empty_vec::NonEmpty`: a vector that always holds an element. Its
/// contents are known only through the items below.
#[verifier::external_type_specification]
#[verifier::external_body]
#[verifier::reject_recursive_types(T)]
pub struct ExNonEmpty<T>(NonEmpty<T>);

/// The colours that a non-empty vector holds, bottom first.
pub uninterp spec fn stack_items(s: NonEmpty<Color>) -> Seq<Color>;

/// `NonEmpty::new`: a vector that holds exactly the given element.
#[verifier::external_body]
fn items_new(bottom: Color) -> (s: NonEmpty<Color>)
    ensures
        stack_items(s) == seq![bottom],
{
    NonEmpty::new(bottom)
}

/// `NonEmpty::push`: the element is appended at the end.
#[verifier::external_body]
fn items_push(s: &mut NonEmpty<Color>, c: Color)
    ensures
        stack_items(*final(s)) == stack_items(*old(s)).push(c),
{
    s.push(c)
}

/// `NonEmpty::pop`: with one element left nothing is removed and `None`
/// comes back; otherwise the last element is removed and returned.
#[verifier::external_body]
fn items_pop(s: &mut NonEmpty<Color>) -> (r: Option<Color>)
    ensures
        stack_items(*old(s)).len() <= 1 ==> r.is_none() && stack_items(*final(s)) == stack_items(
            *old(s),
        ),
        stack_items(*old(s)).len() > 1 ==> r == Some(stack_items(*old(s)).last()) && stack_items(
            *final(s),
        ) == stack_items(*old(s)).drop_last(),
{
    s.pop()
}

/// `NonEmpty::last`: the last element, which always exists.
#[verifier::external_body]
fn items_last(s: &NonEmpty<Color>) -> (c: Color)
    ensures
        c == stack_items(*s).last(),
{
    *s.last()
}

/// The colours of the categories that are open, innermost last, above the
/// default colour, which is always at the bottom.
pub struct ColorStack {
    colors: NonEmpty<Color>,
}

impl View for ColorStack {
    type V = Seq<Color>;

    closed spec fn view(&self) -> Seq<Color> {
        stack_items(self.colors)
    }
}

impl ColorStack {
    /// The stack is never empty and rests on the default colour.
    pub open spec fn wf(&self) -> bool {
        self@.len() >= 1 && self@[0] == Color::Reset
    }

    /// A stack that holds the default colour alone.
    pub fn new() -> (s: ColorStack)
        ensures
            s.wf(),
            s@ == seq![Color::Reset],
    {
        ColorStack { colors: items_new(Color::Reset) }
    }

    /// Opens a category: its colour becomes the active one.
    pub fn push(&mut self, c: Color)
        requires
            old(self).wf(),
        ensures
            final(self).wf(),
            final(self)@ == old(self)@.push(c),
    {
        items_push(&mut self.colors, c);
    }

    /// Closes the innermost category and returns its colour. With no
    /// category open the stack stays as it is and `None` is returned.
    pub fn pop(&mut self) -> (r: Option<Color>)
        requires
            old(self).wf(),
        ensures
            final(self).wf(),
            old(self)@.len() == 1 ==> r.is_none() && final(self)@ == old(self)@,
            old(self)@.len() > 1 ==> r == Some(old(self)@.last()),
            old(self)@.len() > 1 ==> final(self)@ == old(self)@.drop_last(),
    {
        items_pop(&mut self.colors)
    }

    /// The active colour: the top of the stack.
    pub fn top(&self) -> (c: Color)
        requires
            self.wf(),
        ensures
            c == self@.last(),
    {
        items_last(&self.colors)
    }
}

} // verus!
