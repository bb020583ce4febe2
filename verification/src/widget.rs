//! Widgets: what an element is made of.

use vstd::prelude::*;
use crate::element::{Element, Node};
use crate::event::Event;
use crate::labels::IntoLabel;
use crate::layout::{Canvas, Layout, Renderer};
use crate::mailbox::{channel, Submitter};
use crate::mapper::Mapper;

verus! {

/// The text of an optional label.
pub open spec fn label_text(label: Option<String>) -> Option<Seq<char>> {
    match label {
        Some(s) => Some(s@),
        None => None,
    }
}

/// Why a widget could not handle an event or draw itself.
#[derive(Debug)]
pub struct WidgetError {
    pub reason: String,
}

/// A piece of user interface: it has a place, may have a label, reacts to
/// events and draws itself.
///
/// An event handler returns quickly. What it has to say it puts in the
/// mailbox it is given.
pub trait Widget<M>: Send + Sync {
    /// The layout that [`Widget::layout`] returns.
    open spec fn spec_layout(&self) -> Layout {
        Layout::zero()
    }

    /// The text of the label that [`Widget::label`] returns.
    open spec fn spec_label(&self) -> Option<Seq<char>> {
        None
    }

    /// Takes in an event, and may answer with messages through `client`.
    ///
    /// A widget that does not say otherwise takes every event, does nothing
    /// with it and keeps its layout and its label.
    #[allow(unused_variables)]
    fn on_event(&mut self, event: Event, client: Submitter<M>) -> (r: Result<(), WidgetError>)
        default_ensures
            r is Ok,
            final(self).spec_layout() == old(self).spec_layout(),
            final(self).spec_label() == old(self).spec_label(),
    {
        Ok(())
    }

    /// Draws the widget on `canvas`.
    ///
    /// A widget that does not say otherwise draws nothing, and succeeds.
    #[allow(unused_variables)]
    fn draw(&self, canvas: Canvas, renderer: &mut Renderer) -> (r: Result<(), WidgetError>)
        default_ensures
            r is Ok,
            *final(renderer) == *old(renderer),
    {
        Ok(())
    }

    fn layout(&self) -> (r: Layout)
        ensures
            r == self.spec_layout(),
    ;

    fn label(&self) -> (r: Option<String>)
        ensures
            label_text(r) == self.spec_label(),
    ;
}

/// A widget that draws nothing and handles no event.
pub struct EmptyWidget {
    pub layout: Layout,
    pub label: Option<String>,
}

impl EmptyWidget {
    /// The same widget with `layout` in place of its layout.
    pub fn layout(self, layout: Layout) -> (r: Self)
        ensures
            r.layout == layout,
            r.label == self.label,
    {
        EmptyWidget { layout, label: self.label }
    }

    /// The same widget with `label` in place of its label.
    pub fn label<L: IntoLabel>(self, label: L) -> (r: Self)
        ensures
            r.layout == self.layout,
            label_text(r.label) == Some(label.text()),
    {
        EmptyWidget { layout: self.layout, label: Some(label.into_label()) }
    }
}

impl<M> Widget<M> for EmptyWidget {
    open spec fn spec_layout(&self) -> Layout {
        self.layout
    }

    open spec fn spec_label(&self) -> Option<Seq<char>> {
        label_text(self.label)
    }

    fn layout(&self) -> (r: Layout) {
        self.layout
    }

    fn label(&self) -> (r: Option<String>) {
        self.label.clone()
    }
}

/// An [`EmptyWidget`] with the zero layout and no label.
pub fn empty() -> (r: EmptyWidget)
    ensures
        r.layout == Layout::zero(),
        r.label is None,
{
    EmptyWidget { layout: Layout::default(), label: None }
}

/// What a mapped element makes of an event that the element it holds has
/// handled: `outcome` is what that element returned and `said` what it put in
/// its mailbox.
///
/// The result is the outcome as it is, beside the messages to send on. After
/// a failure nothing is sent on. After a success each message is sent on, in
/// order, passed through `map`; what becomes of the sends changes nothing of
/// the result.
pub fn relay<A, B>(outcome: Result<(), WidgetError>, said: Vec<A>, map: &Mapper<A, B>) -> (r: (
    Result<(), WidgetError>,
    Vec<B>,
))
    ensures
        r.0 == outcome,
        outcome is Err ==> r.1@.len() == 0,
        outcome is Ok ==> r.1@.len() == said@.len() && forall|i: int|
            0 <= i < said@.len() ==> map.relates(said@[i], #[trigger] r.1@[i]),
{
    let out = if outcome.is_ok() {
        map.map_all(said)
    } else {
        Vec::new()
    };
    (outcome, out)
}

/// An element whose messages pass through a function on their way out.
///
/// It has the layout of the element it holds and no label.
#[verifier::reject_recursive_types(A)]
#[verifier::reject_recursive_types(B)]
pub struct MapWidget<A, B> {
    pub inner: Element<A>,
    pub map: Mapper<A, B>,
}

impl<A, B> MapWidget<A, B> {
    pub fn new(widget: Box<dyn Widget<A>>, map: Mapper<A, B>) -> (r: Self)
        ensures
            r.inner == (Element { node: Node::Single(widget) }),
            r.map == map,
    {
        MapWidget { inner: Element { node: Node::Single(widget) }, map }
    }
}

impl<A: 'static + Send + Sync, B: 'static + Send + Sync> Widget<B> for MapWidget<A, B> {
    open spec fn spec_layout(&self) -> Layout {
        self.inner.spec_layout()
    }

    open spec fn spec_label(&self) -> Option<Seq<char>> {
        None
    }

    fn layout(&self) -> (r: Layout) {
        self.inner.layout()
    }

    fn label(&self) -> (r: Option<String>) {
        None
    }

    /// Hands the event to the element held, then sends on what that element
    /// put in its mailbox, each message through the function. Fails if and
    /// only if the element held fails; a message that the client no longer
    /// takes is dropped.
    fn on_event(&mut self, event: Event, client: Submitter<B>) -> (r: Result<(), WidgetError>)
        ensures
            final(self).map == old(self).map,
            final(self).inner.node is Group <==> old(self).inner.node is Group,
            old(self).inner.node is Group ==> r is Ok && final(self).inner == old(self).inner,
    {
        let (sender, mut receiver) = channel::<A>();
        let outcome = self.inner.on_event(event, sender);
        let said = receiver.drain();
        let (r, out) = relay(outcome, said, &self.map);
        let _ = client.submit_all(out);
        r
    }

    /// Lets the element held draw itself, and fails as it fails.
    fn draw(&self, canvas: Canvas, renderer: &mut Renderer) -> (r: Result<(), WidgetError>)
        ensures
            self.inner.node is Group ==> r is Ok,
    {
        self.inner.draw(canvas, renderer)
    }
}

/// A list of elements that travels as one element.
#[verifier::reject_recursive_types(M)]
pub struct ContainerWidget<M> {
    pub elements: Vec<Element<M>>,
}

/// Marks a widget as what goes into a list.
pub struct AsWidget;

/// Marks a list as what goes into a list.
pub struct AsList;

/// Marks an element as what goes into a list.
pub struct AsElement;

/// What can go into a list of elements: a widget, another list, or an
/// element. `K` tells the three apart and is never written out.
pub trait IntoPart<M, K>: Sized {
    /// The element that [`IntoPart::part`] returns.
    spec fn spec_part(self) -> Element<M>;

    fn part(self) -> (r: Element<M>)
        ensures
            r == self.spec_part(),
    ;
}

impl<M, T: Widget<M> + 'static> IntoPart<M, AsWidget> for T {
    open spec fn spec_part(self) -> Element<M> {
        Element { node: Node::Single(Box::new(self)) }
    }

    fn part(self) -> (r: Element<M>) {
        Element { node: Node::Single(Box::new(self)) }
    }
}

impl<M> IntoPart<M, AsList> for ContainerWidget<M> {
    open spec fn spec_part(self) -> Element<M> {
        Element { node: Node::Group(self.elements) }
    }

    fn part(self) -> (r: Element<M>) {
        Element { node: Node::Group(self.elements) }
    }
}

impl<M> IntoPart<M, AsElement> for Element<M> {
    open spec fn spec_part(self) -> Element<M> {
        self
    }

    fn part(self) -> (r: Element<M>) {
        self
    }
}

impl<M> ContainerWidget<M> {
    /// The same list with one more element at its end.
    pub fn with<K, E: IntoPart<M, K>>(self, element: E) -> (r: Self)
        ensures
            r.elements@ == self.elements@.push(element.spec_part()),
    {
        let mut elements = self.elements;
        elements.push(element.part());
        ContainerWidget { elements }
    }

    /// The elements held.
    pub fn elements(self) -> (r: Vec<Element<M>>)
        ensures
            r == self.elements,
    {
        self.elements
    }

    /// The list as one element.
    pub fn element(self) -> (r: Element<M>)
        ensures
            r == (Element { node: Node::Group(self.elements) }),
    {
        Element { node: Node::Group(self.elements) }
    }
}

/// A [`ContainerWidget`] that holds nothing.
pub fn container<M>() -> (r: ContainerWidget<M>)
    ensures
        r.elements@ == Seq::<Element<M>>::empty(),
{
    ContainerWidget { elements: Vec::new() }
}

} // verus!
