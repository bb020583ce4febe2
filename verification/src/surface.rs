//! What a backend has to decide about surfaces: which elements get one, what
//! kind, and which one a close request means.

use vstd::prelude::*;
use crate::element::Element;
use crate::labels::{has_name, names, texts};
use crate::layout::{KeyboardSensitivity, Layout, Placement};

verus! {

/// The screen edges that a layer is attached to.
#[derive(Clone, Copy, Debug, PartialEq, Eq, Structural)]
pub struct Anchor {
    pub top: bool,
    pub bottom: bool,
    pub left: bool,
    pub right: bool,
}

/// What kind of surface an element gets.
#[derive(Clone, Copy, Debug, PartialEq, Eq, Structural)]
pub enum SurfaceKind {
    /// An ordinary window with the decorations of the window manager; its
    /// title is the label of the element.
    Window,
    /// A layer on top of the windows.
    Layer {
        anchor: Anchor,
        keyboard: KeyboardSensitivity,
        width: u32,
        height: u32,
        /// How much room along its edge the layer keeps other surfaces out
        /// of.
        exclusive_zone: u32,
        margin_top: u32,
        margin_left: u32,
    },
}

/// The surface for `layout`.
///
/// A windowed element gets a window. Any other gets a layer of the size of
/// the layout, pushed from the top left corner by its position. A layer on an
/// edge is attached to that edge and keeps out of its way as much room as it
/// is thick: its height at the top and the bottom, its width at the sides. A
/// floating layer is attached to the top left corner and keeps no room.
pub open spec fn spec_surface_kind(layout: Layout) -> SurfaceKind {
    let none = Anchor { top: false, bottom: false, left: false, right: false };
    match layout.placement {
        Placement::Windowed => SurfaceKind::Window,
        placement => {
            let (anchor, exclusive_zone) = match placement {
                Placement::Top => (Anchor { top: true, ..none }, layout.height),
                Placement::Bottom => (Anchor { bottom: true, ..none }, layout.height),
                Placement::Left => (Anchor { left: true, ..none }, layout.width),
                Placement::Right => (Anchor { right: true, ..none }, layout.width),
                _ => (Anchor { top: true, left: true, ..none }, 0u32),
            };
            SurfaceKind::Layer {
                anchor,
                keyboard: layout.keyboard_sensitivity,
                width: layout.width,
                height: layout.height,
                exclusive_zone,
                margin_top: layout.y,
                margin_left: layout.x,
            }
        },
    }
}

/// The surface for `layout`.
pub fn surface_kind(layout: &Layout) -> (r: SurfaceKind)
    ensures
        r == spec_surface_kind(*layout),
{
    let none = Anchor { top: false, bottom: false, left: false, right: false };
    let (anchor, exclusive_zone) = match layout.placement {
        Placement::Windowed => {
            return SurfaceKind::Window;
        },
        Placement::Top => (Anchor { top: true, ..none }, layout.height),
        Placement::Bottom => (Anchor { bottom: true, ..none }, layout.height),
        Placement::Left => (Anchor { left: true, ..none }, layout.width),
        Placement::Right => (Anchor { right: true, ..none }, layout.width),
        Placement::Floating => (Anchor { top: true, left: true, ..none }, 0u32),
    };
    SurfaceKind::Layer {
        anchor,
        keyboard: layout.keyboard_sensitivity,
        width: layout.width,
        height: layout.height,
        exclusive_zone,
        margin_top: layout.y,
        margin_left: layout.x,
    }
}

/// A surface to create: its kind, and the name it goes by, which is the
/// label of its element.
pub struct Surface {
    pub name: String,
    pub kind: SurfaceKind,
}

/// Why no surface can be created for an element.
#[derive(Clone, Copy, Debug, PartialEq, Eq, Structural)]
pub enum SurfaceError {
    /// The element has no label.
    NoLabel,
}

/// The surface to create for an element with this label and this layout.
///
/// It fails if and only if there is no label. With a label the surface goes
/// by the name of the label and is of the kind that the layout asks for: a
/// window for a windowed element, a layer for every other.
pub fn surface_for(label: Option<String>, layout: &Layout) -> (r: Result<Surface, SurfaceError>)
    ensures
        match label {
            Some(name) => r matches Ok(surface) && surface.name == name && surface.kind
                == spec_surface_kind(*layout),
            None => r == Err::<Surface, SurfaceError>(SurfaceError::NoLabel),
        },
{
    match label {
        Some(name) => Ok(Surface { name, kind: surface_kind(layout) }),
        None => Err(SurfaceError::NoLabel),
    }
}

/// The surface to create for `element`: that for its label and its layout.
///
/// It fails if and only if the element has no label.
pub fn surface_of<M>(element: &Element<M>) -> (r: Result<Surface, SurfaceError>)
    ensures
        match element.spec_label() {
            Some(text) => r matches Ok(surface) && surface.name@ == text && surface.kind
                == spec_surface_kind(element.spec_layout()),
            None => r == Err::<Surface, SurfaceError>(SurfaceError::NoLabel),
        },
{
    let layout = element.layout();
    surface_for(element.label(), &layout)
}

/// Which of `labels` get a surface when the labels in `live` have one: each
/// label that is not live, where it first occurs. An element without a label
/// gets none.
pub open spec fn admitted(live: Seq<Seq<char>>, labels: Seq<Option<Seq<char>>>) -> Seq<bool>
    decreases labels.len(),
{
    if labels.len() == 0 {
        Seq::empty()
    } else {
        let front = labels.drop_last();
        admitted(live, front).push(
            match labels.last() {
                Some(label) => !live.contains(label) && !front.contains(Some(label)),
                None => false,
            },
        )
    }
}

/// The labels that have a surface after `labels` were submitted: those in
/// `live`, and then each new one where it first occurs.
pub open spec fn live_after(live: Seq<Seq<char>>, labels: Seq<Option<Seq<char>>>) -> Seq<
    Seq<char>,
>
    decreases labels.len(),
{
    if labels.len() == 0 {
        live
    } else {
        let front = live_after(live, labels.drop_last());
        match labels.last() {
            Some(label) if !front.contains(label) => front.push(label),
            _ => front,
        }
    }
}

/// After a submission the labels that were live are live, each label
/// submitted is live, and no other; and none is live twice.
pub proof fn lemma_live_after(live: Seq<Seq<char>>, labels: Seq<Option<Seq<char>>>)
    requires
        live.no_duplicates(),
    ensures
        live_after(live, labels).no_duplicates(),
        forall|label: Seq<char>| #[trigger]
            live_after(live, labels).contains(label) <==> (live.contains(label)
                || labels.contains(Some(label))),
    decreases labels.len(),
{
    let r = live_after(live, labels);
    if labels.len() > 0 {
        let front_in = labels.drop_last();
        let front = live_after(live, front_in);
        lemma_live_after(live, front_in);
        assert forall|label: Seq<char>| #[trigger]
            r.contains(label) <==> (live.contains(label) || labels.contains(Some(label))) by {
            if labels.contains(Some(label)) {
                let i = choose|i: int| 0 <= i < labels.len() && labels[i] == Some(label);
                if i < labels.len() - 1 {
                    assert(front_in[i] == Some(label));
                }
            }
            if front_in.contains(Some(label)) {
                let i = choose|i: int| 0 <= i < front_in.len() && front_in[i] == Some(label);
                assert(labels[i] == Some(label));
            }
            if labels.last() == Some(label) {
                assert(labels[labels.len() - 1] == Some(label));
            }
            if front.contains(label) && r != front {
                let i = choose|i: int| 0 <= i < front.len() && front[i] == label;
                assert(r[i] == label);
            }
            if r.contains(label) && r != front {
                let i = choose|i: int| 0 <= i < r.len() && r[i] == label;
                if i < front.len() {
                    assert(front[i] == label);
                }
            }
            if r != front && labels.last() == Some(label) {
                assert(r[r.len() - 1] == label);
            }
        }
    }
}

/// The labels that have a surface.
pub struct Registry {
    live: Vec<String>,
}

impl View for Registry {
    type V = Seq<Seq<char>>;

    closed spec fn view(&self) -> Seq<Seq<char>> {
        names(self.live@)
    }
}

impl Registry {
    #[verifier::type_invariant]
    spec fn well_formed(self) -> bool {
        self@.no_duplicates()
    }

    /// A registry with no surface.
    pub fn new() -> (r: Self)
        ensures
            r@ == Seq::<Seq<char>>::empty(),
    {
        let live: Vec<String> = Vec::new();
        assert(names(live@) =~= Seq::<Seq<char>>::empty());
        Registry { live }
    }

    /// Whether `label` has a surface.
    pub fn is_live(&self, label: &String) -> (r: bool)
        ensures
            r == self@.contains(label@),
    {
        has_name(&self.live, label)
    }

    /// Takes in the labels of the elements that were submitted, and says for
    /// each element whether it gets a surface now.
    ///
    /// An element gets one if it has a label and the label is not live; of
    /// two elements with the same label the first gets it. Every label has a
    /// surface afterwards, and none has two.
    pub fn submit(&mut self, labels: &Vec<Option<String>>) -> (r: Vec<bool>)
        ensures
            r@ == admitted(old(self)@, texts(labels@)),
            final(self)@ == live_after(old(self)@, texts(labels@)),
            final(self)@.no_duplicates(),
    {
        proof {
            use_type_invariant(&*self);
        }
        let mut held = Registry::new();
        std::mem::swap(self, &mut held);
        let Registry { live } = held;
        let mut live = live;
        let ghost before = names(live@);
        let ghost all = texts(labels@);
        let mut r: Vec<bool> = Vec::new();
        let mut i: usize = 0;
        assert(all.take(0) =~= Seq::<Option<Seq<char>>>::empty());
        while i < labels.len()
            invariant
                i <= labels.len(),
                all == texts(labels@),
                before.no_duplicates(),
                r@ == admitted(before, all.take(i as int)),
                names(live@) == live_after(before, all.take(i as int)),
            decreases labels.len() - i,
        {
            let ghost seen = all.take(i as int);
            let ghost grown = all.take(i as int + 1);
            proof {
                assert(grown.drop_last() =~= seen);
                assert(grown.last() == all[i as int]);
                lemma_live_after(before, seen);
            }
            match &labels[i] {
                Some(label) => {
                    let known = has_name(&live, label);
                    if !known {
                        let ghost old_names = names(live@);
                        live.push(label.clone());
                        assert(names(live@) =~= old_names.push(label@));
                    }
                    r.push(!known);
                },
                None => {
                    r.push(false);
                },
            }
            i += 1;
        }
        proof {
            assert(all.take(labels.len() as int) =~= all);
            lemma_live_after(before, all);
        }
        *self = Registry { live };
        r
    }

    /// Takes in a request to close `label`. Returns whether the label had a
    /// surface, which it then has no more; every other label keeps its own.
    pub fn close(&mut self, label: &String) -> (r: bool)
        ensures
            r == old(self)@.contains(label@),
            !final(self)@.contains(label@),
            forall|other: Seq<char>|
                other != label@ ==> (#[trigger] final(self)@.contains(other) <==> old(
                    self,
                )@.contains(other)),
            final(self)@.no_duplicates(),
    {
        proof {
            use_type_invariant(&*self);
        }
        let mut held = Registry::new();
        std::mem::swap(self, &mut held);
        let Registry { live } = held;
        let mut live = live;
        let ghost before = names(live@);
        let mut i: usize = 0;
        while i < live.len()
            invariant
                i <= live.len(),
                names(live@) == before,
                before == old(self)@,
                before.no_duplicates(),
                forall|j: int| 0 <= j < i ==> before[j] != label@,
            decreases live.len() - i,
        {
            if live[i] == *label {
                assert(before[i as int] == label@);
                let _ = live.remove(i);
                proof {
                    let after = names(live@);
                    assert(after =~= before.remove(i as int));
                    assert forall|j: int, k: int|
                        0 <= j < after.len() && 0 <= k < after.len() && j != k implies after[j]
                        != after[k] by {
                        let jj = if j < i { j } else { j + 1 };
                        let kk = if k < i { k } else { k + 1 };
                        assert(after[j] == before[jj] && after[k] == before[kk]);
                    }
                    assert forall|other: Seq<char>| #[trigger]
                        after.contains(other) <==> (before.contains(other) && other
                            != label@) by {
                        if after.contains(other) {
                            let j = choose|j: int| 0 <= j < after.len() && after[j] == other;
                            let jj = if j < i { j } else { j + 1 };
                            assert(before[jj] == other);
                        }
                        if before.contains(other) && other != label@ {
                            let j = choose|j: int| 0 <= j < before.len() && before[j] == other;
                            let jj = if j < i { j } else { j - 1 };
                            assert(after[jj] == other);
                        }
                    }
                }
                *self = Registry { live };
                return true;
            }
            i += 1;
        }
        *self = Registry { live };
        false
    }
}

} // verus!
