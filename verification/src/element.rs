//! Elements: the nodes of a rendered view.

use vstd::prelude::*;
use crate::event::Event;
use crate::layout::{Canvas, Layout, Renderer};
use crate::mailbox::Submitter;
use crate::mapper::Mapper;
use crate::widget::{empty, label_text, MapWidget, Widget, WidgetError};

verus! {

/// What an element is: one widget, or a list of elements.
#[verifier::reject_recursive_types(M)]
pub enum Node<M> {
    Single(Box<dyn Widget<M>>),
    Group(Vec<Element<M>>),
}

/// A node of a rendered view.
///
/// A backend tracks an element by its label; one without a label is drawn and
/// never tracked.
#[verifier::reject_recursive_types(M)]
pub struct Element<M> {
    pub node: Node<M>,
}

/// What can be turned into an element.
pub trait IntoElement<M>: Sized {
    /// The element that [`IntoElement::element`] returns.
    spec fn spec_element(self) -> Element<M>;

    fn element(self) -> (r: Element<M>)
        ensures
            r == self.spec_element(),
    ;
}

impl<M, T: Widget<M> + 'static> IntoElement<M> for T {
    open spec fn spec_element(self) -> Element<M> {
        Element { node: Node::Single(Box::new(self)) }
    }

    fn element(self) -> (r: Element<M>) {
        Element { node: Node::Single(Box::new(self)) }
    }
}

impl<M> Element<M> {
    /// The label of this element: that of its widget; a list has none.
    pub open spec fn spec_label(&self) -> Option<Seq<char>> {
        match self.node {
            Node::Single(w) => w.spec_label(),
            Node::Group(_) => None,
        }
    }

    /// The layout of this element: that of its widget; a list has the zero
    /// layout.
    pub open spec fn spec_layout(&self) -> Layout {
        match self.node {
            Node::Single(w) => w.spec_layout(),
            Node::Group(_) => Layout::zero(),
        }
    }

    /// This element as a list: the elements of a list, or the element alone.
    pub open spec fn spec_list(self) -> Seq<Element<M>> {
        match self.node {
            Node::Single(_) => seq![self],
            Node::Group(v) => v@,
        }
    }

    /// The labels of [`Element::spec_list`], in its order.
    pub open spec fn spec_labels(&self) -> Seq<Option<Seq<char>>> {
        self.spec_list().map_values(|e: Element<M>| e.spec_label())
    }

    /// An element that shows nothing and has no label.
    pub fn empty() -> (r: Self)
        ensures
            r.node is Single,
            r.spec_label() is None,
            r.spec_layout() == Layout::zero(),
    {
        empty().element()
    }

    pub fn layout(&self) -> (r: Layout)
        ensures
            r == self.spec_layout(),
    {
        match &self.node {
            Node::Single(w) => w.layout(),
            Node::Group(_) => Layout::default(),
        }
    }

    pub fn label(&self) -> (r: Option<String>)
        ensures
            label_text(r) == self.spec_label(),
    {
        match &self.node {
            Node::Single(w) => w.label(),
            Node::Group(_) => None,
        }
    }

    /// Hands an event to the widget of this element, which may answer with
    /// messages through `client`. A list takes no event.
    pub fn on_event(&mut self, event: Event, client: Submitter<M>) -> (r: Result<(), WidgetError>)
        ensures
            old(self).node is Group ==> r is Ok && *final(self) == *old(self),
            final(self).node is Group <==> old(self).node is Group,
    {
        match &mut self.node {
            Node::Single(w) => w.on_event(event, client),
            Node::Group(_) => Ok(()),
        }
    }

    /// Lets the widget of this element draw itself. A list draws nothing.
    pub fn draw(&self, canvas: Canvas, renderer: &mut Renderer) -> (r: Result<(), WidgetError>)
        ensures
            self.node is Group ==> r is Ok,
    {
        match &self.node {
            Node::Single(w) => w.draw(canvas, renderer),
            Node::Group(_) => Ok(()),
        }
    }

    /// The elements of a list, or the element alone.
    pub fn into_list(self) -> (r: Vec<Element<M>>)
        ensures
            r@ == self.spec_list(),
    {
        let is_list = match &self.node {
            Node::Group(_) => true,
            Node::Single(_) => false,
        };
        if is_list {
            match self.node {
                Node::Group(v) => v,
                Node::Single(_) => Vec::new(),
            }
        } else {
            let mut list = Vec::new();
            list.push(self);
            assert(list@ =~= seq![self]);
            list
        }
    }

    /// The label of each element of [`Element::into_list`], in its order.
    pub fn labels(&self) -> (r: Vec<Option<String>>)
        ensures
            r@.map_values(|l: Option<String>| label_text(l)) == self.spec_labels(),
    {
        let mut labels = Vec::new();
        match &self.node {
            Node::Group(v) => {
                let mut i: usize = 0;
                while i < v.len()
                    invariant
                        i <= v.len(),
                        labels@.len() == i,
                        forall|j: int| 0 <= j < i ==> label_text(#[trigger] labels@[j]) == v@[j].spec_label(),
                    decreases v.len() - i,
                {
                    labels.push(v[i].label());
                    i += 1;
                }
                assert(labels@.map_values(|l: Option<String>| label_text(l)) =~= self.spec_labels());
            },
            Node::Single(_) => {
                labels.push(self.label());
                assert(labels@.map_values(|l: Option<String>| label_text(l)) =~= self.spec_labels());
            },
        }
        labels
    }
}

impl<M: 'static + Send + Sync> Element<M> {
    /// This element with every message it sends passed through `map`.
    ///
    /// The result is one widget, whatever this element was: it keeps the
    /// layout and has no label.
    pub fn map<N: 'static + Send + Sync>(self, map: Mapper<M, N>) -> (r: Element<N>)
        ensures
            r == self.spec_map(map),
    {
        Element { node: Node::Single(Box::new(MapWidget { inner: self, map })) }
    }

    /// The element that [`Element::map`] returns.
    pub open spec fn spec_map<N: 'static + Send + Sync>(self, map: Mapper<M, N>) -> Element<N> {
        Element { node: Node::Single(Box::new(MapWidget { inner: self, map })) }
    }
}

} // verus!
