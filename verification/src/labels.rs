//! Which labels a new view has dropped.

use vstd::prelude::*;
use crate::widget::label_text;

verus! {

/// What can serve as a label: a string, owned or borrowed.
pub trait IntoLabel: Sized {
    /// The text of the label.
    spec fn text(&self) -> Seq<char>;

    /// The label as a string of its own.
    fn into_label(self) -> (r: String)
        ensures
            r@ == self.text(),
    ;
}

impl IntoLabel for String {
    open spec fn text(&self) -> Seq<char> {
        self@
    }

    fn into_label(self) -> (r: String) {
        self
    }
}

impl<'a> IntoLabel for &'a str {
    open spec fn text(&self) -> Seq<char> {
        self@
    }

    fn into_label(self) -> (r: String) {
        self.to_owned()
    }
}

impl<'a> IntoLabel for &'a String {
    open spec fn text(&self) -> Seq<char> {
        self@
    }

    fn into_label(self) -> (r: String) {
        self.clone()
    }
}

/// The texts of a list of optional labels.
pub open spec fn texts(labels: Seq<Option<String>>) -> Seq<Option<Seq<char>>> {
    labels.map_values(|l: Option<String>| label_text(l))
}

/// The texts of a list of labels.
pub open spec fn names(labels: Seq<String>) -> Seq<Seq<char>> {
    labels.map_values(|l: String| l@)
}

/// The labels that `previous` has and `current` lacks: each once, in the
/// order in which `previous` first has them. An element without a label
/// counts on neither side.
pub open spec fn removed(
    previous: Seq<Option<Seq<char>>>,
    current: Seq<Option<Seq<char>>>,
) -> Seq<Seq<char>>
    decreases previous.len(),
{
    if previous.len() == 0 {
        Seq::empty()
    } else {
        let front = removed(previous.drop_last(), current);
        match previous.last() {
            Some(label) if !current.contains(Some(label)) && !front.contains(label) => front.push(
                label,
            ),
            _ => front,
        }
    }
}

/// What `removed` holds: a label if and only if `previous` has it and
/// `current` does not, and none twice.
pub proof fn lemma_removed(previous: Seq<Option<Seq<char>>>, current: Seq<Option<Seq<char>>>)
    ensures
        removed(previous, current).no_duplicates(),
        forall|label: Seq<char>| #[trigger]
            removed(previous, current).contains(label) <==> (previous.contains(Some(label))
                && !current.contains(Some(label))),
    decreases previous.len(),
{
    let r = removed(previous, current);
    if previous.len() == 0 {
    } else {
        let front_in = previous.drop_last();
        let front = removed(front_in, current);
        lemma_removed(front_in, current);
        assert forall|label: Seq<char>| #[trigger]
            r.contains(label) <==> (previous.contains(Some(label)) && !current.contains(
                Some(label),
            )) by {
            if previous.contains(Some(label)) {
                let i = choose|i: int| 0 <= i < previous.len() && previous[i] == Some(label);
                if i < previous.len() - 1 {
                    assert(front_in[i] == Some(label));
                }
            }
            if front_in.contains(Some(label)) {
                let i = choose|i: int| 0 <= i < front_in.len() && front_in[i] == Some(label);
                assert(previous[i] == Some(label));
            }
            if previous.last() == Some(label) {
                assert(previous[previous.len() - 1] == Some(label));
            }
            if front.contains(label) {
                let i = choose|i: int| 0 <= i < front.len() && front[i] == label;
                if r != front {
                    assert(r[i] == label);
                }
            }
            if r.contains(label) && r != front {
                let i = choose|i: int| 0 <= i < r.len() && r[i] == label;
                if i < front.len() {
                    assert(front[i] == label);
                }
            }
            if r != front && previous.last() == Some(label) {
                assert(r[r.len() - 1] == label);
            }
        }
    }
}

/// Whether one of `labels` has the text of `label`.
pub fn has_label(labels: &Vec<Option<String>>, label: &String) -> (r: bool)
    ensures
        r == texts(labels@).contains(Some(label@)),
{
    let mut i: usize = 0;
    while i < labels.len()
        invariant
            i <= labels.len(),
            forall|j: int| 0 <= j < i ==> texts(labels@)[j] != Some(label@),
        decreases labels.len() - i,
    {
        match &labels[i] {
            Some(l) => {
                if *l == *label {
                    assert(texts(labels@)[i as int] == Some(label@));
                    return true;
                }
            },
            None => {},
        }
        i += 1;
    }
    false
}

/// Whether one of `labels` has the text of `label`.
pub fn has_name(labels: &Vec<String>, label: &String) -> (r: bool)
    ensures
        r == names(labels@).contains(label@),
{
    let mut i: usize = 0;
    while i < labels.len()
        invariant
            i <= labels.len(),
            forall|j: int| 0 <= j < i ==> names(labels@)[j] != label@,
        decreases labels.len() - i,
    {
        if labels[i] == *label {
            assert(names(labels@)[i as int] == label@);
            return true;
        }
        i += 1;
    }
    false
}

/// The labels to close when the view goes from `previous` to `current`:
/// those that `previous` has and `current` lacks, each once, in the order in
/// which `previous` first has them.
pub fn removed_labels(previous: &Vec<Option<String>>, current: &Vec<Option<String>>) -> (r: Vec<
    String,
>)
    ensures
        names(r@) == removed(texts(previous@), texts(current@)),
        names(r@).no_duplicates(),
        forall|label: Seq<char>| #[trigger]
            names(r@).contains(label) <==> (texts(previous@).contains(Some(label)) && !texts(
                current@,
            ).contains(Some(label))),
{
    let mut r: Vec<String> = Vec::new();
    let mut i: usize = 0;
    assert(texts(previous@).take(0) =~= Seq::<Option<Seq<char>>>::empty());
    assert(names(r@) =~= Seq::<Seq<char>>::empty());
    while i < previous.len()
        invariant
            i <= previous.len(),
            names(r@) == removed(texts(previous@).take(i as int), texts(current@)),
        decreases previous.len() - i,
    {
        let ghost before = names(r@);
        proof {
            let grown = texts(previous@).take(i as int + 1);
            assert(grown.drop_last() =~= texts(previous@).take(i as int));
            assert(grown.last() == label_text(previous@[i as int]));
        }
        match &previous[i] {
            Some(label) => {
                if !has_label(current, label) && !has_name(&r, label) {
                    r.push(label.clone());
                    assert(names(r@) =~= before.push(label@));
                }
            },
            None => {},
        }
        i += 1;
    }
    proof {
        assert(texts(previous@).take(previous.len() as int) =~= texts(previous@));
        lemma_removed(texts(previous@), texts(current@));
    }
    r
}

/// A view that is rendered again unchanged closes nothing.
pub proof fn law_same_view_closes_nothing(labels: Seq<Option<Seq<char>>>)
    ensures
        removed(labels, labels) == Seq::<Seq<char>>::empty(),
{
    lemma_removed(labels, labels);
    let r = removed(labels, labels);
    if r.len() > 0 {
        assert(r.contains(r[0]));
    }
    assert(r =~= Seq::<Seq<char>>::empty());
}

/// A label that the previous view had and the new one lacks is closed, once.
/// A label that the new view has, or that the previous view did not have, is
/// not closed.
pub proof fn law_removed_once(
    previous: Seq<Option<Seq<char>>>,
    current: Seq<Option<Seq<char>>>,
    label: Seq<char>,
)
    ensures
        previous.contains(Some(label)) && !current.contains(Some(label)) ==> removed(
            previous,
            current,
        ).filter(|l: Seq<char>| l == label).len() == 1,
        current.contains(Some(label)) || !previous.contains(Some(label)) ==> removed(
            previous,
            current,
        ).filter(|l: Seq<char>| l == label).len() == 0,
{
    lemma_removed(previous, current);
    lemma_count(removed(previous, current), label);
}

/// How often a value occurs in a list in which nothing occurs twice: once if
/// at all.
pub proof fn lemma_count(list: Seq<Seq<char>>, label: Seq<char>)
    requires
        list.no_duplicates(),
    ensures
        list.filter(|l: Seq<char>| l == label).len() == if list.contains(label) {
            1nat
        } else {
            0nat
        },
    decreases list.len(),
{
    reveal(Seq::filter);
    let pred = |l: Seq<char>| l == label;
    if list.len() > 0 {
        let front = list.drop_last();
        assert forall|i: int, j: int| 0 <= i < front.len() && 0 <= j < front.len() && i
            != j implies front[i] != front[j] by {
            assert(front[i] == list[i] && front[j] == list[j]);
        }
        lemma_count(front, label);
        if front.contains(label) {
            let i = choose|i: int| 0 <= i < front.len() && front[i] == label;
            assert(list[i] == label);
            assert(list.last() != label);
        }
        if list.contains(label) && !front.contains(label) {
            let i = choose|i: int| 0 <= i < list.len() && list[i] == label;
            if i < front.len() {
                assert(front[i] == label);
            }
        }
        if list.last() == label {
            assert(list[list.len() - 1] == label);
        }
    }
}

} // verus!
