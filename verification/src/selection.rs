//! Selection-collecting menu models.
//!
//! A menu shows one toggle control per label and a submit action.  The
//! driver that owns the event loop mirrors each user click into the
//! model with `toggle` or `set_checked`, and when the submit control
//! fires it reads the result out of the model.  The result is therefore
//! a pure function of the labels and the toggle states, stated below.

use vstd::prelude::*;

verus! {

/// The labels whose toggle is on, in creation order.  Duplicated labels
/// stay duplicated: selection goes by position, not by text.
pub open spec fn chosen_labels(labels: Seq<Seq<char>>, states: Seq<bool>) -> Seq<Seq<char>>
    recommends
        labels.len() == states.len(),
    decreases labels.len(),
{
    if labels.len() == 0 || states.len() == 0 {
        Seq::empty()
    } else {
        let rest = chosen_labels(labels.drop_last(), states.drop_last());
        if states.last() {
            rest.push(labels.last())
        } else {
            rest
        }
    }
}

/// The label of the last toggle that is on, in creation order, or the
/// empty text when none is on.  This is the tie-break of the radio
/// menu: the toggle group is meant to keep at most one control on, but
/// should several be on, the last one found in creation order wins.
pub open spec fn radio_choice(labels: Seq<Seq<char>>, states: Seq<bool>) -> Seq<char>
    recommends
        labels.len() == states.len(),
    decreases labels.len(),
{
    if labels.len() == 0 || states.len() == 0 {
        Seq::empty()
    } else if states.last() {
        labels.last()
    } else {
        radio_choice(labels.drop_last(), states.drop_last())
    }
}

/// The positions whose toggle is on, in increasing order.
pub open spec fn on_indices(states: Seq<bool>) -> Seq<int>
    decreases states.len(),
{
    if states.len() == 0 {
        Seq::empty()
    } else {
        let rest = on_indices(states.drop_last());
        if states.last() {
            rest.push(states.len() - 1)
        } else {
            rest
        }
    }
}

/// `on_indices` names exactly the positions whose toggle is on, each
/// once, in increasing order.
pub proof fn lemma_on_indices_sound(states: Seq<bool>)
    ensures
        forall|k: int|
            0 <= k < on_indices(states).len() ==> 0 <= #[trigger] on_indices(states)[k]
                < states.len() && states[on_indices(states)[k]],
        forall|k1: int, k2: int|
            0 <= k1 < k2 < on_indices(states).len() ==> on_indices(states)[k1] < on_indices(
                states,
            )[k2],
        forall|i: int|
            0 <= i < states.len() && states[i] ==> #[trigger] on_indices(states).contains(i),
    decreases states.len(),
{
    if states.len() > 0 {
        let prev = on_indices(states.drop_last());
        let cur = on_indices(states);
        lemma_on_indices_sound(states.drop_last());
        assert forall|i: int| 0 <= i < states.len() && states[i] implies #[trigger] cur.contains(
            i,
        ) by {
            if i < states.len() - 1 {
                assert(states.drop_last()[i] == states[i]);
                assert(prev.contains(i));
                let k = choose|k: int| 0 <= k < prev.len() && prev[k] == i;
                assert(cur[k] == i);
            } else {
                assert(cur.last() == i);
            }
        }
    }
}

/// The checkbox result is the labels at the on positions, in their
/// original order: entry `k` of the result is the label at the `k`-th
/// on position.  Together with `lemma_on_indices_sound` this pins the
/// result to the toggled subset in creation order.
pub proof fn lemma_chosen_labels_at_indices(labels: Seq<Seq<char>>, states: Seq<bool>)
    requires
        labels.len() == states.len(),
    ensures
        chosen_labels(labels, states).len() == on_indices(states).len(),
        forall|k: int|
            0 <= k < on_indices(states).len() ==> chosen_labels(labels, states)[k] == labels[
                on_indices(states)[k]],
    decreases labels.len(),
{
    if labels.len() > 0 {
        let lp = labels.drop_last();
        let sp = states.drop_last();
        lemma_chosen_labels_at_indices(lp, sp);
        lemma_on_indices_sound(sp);
        assert forall|k: int|
            0 <= k < on_indices(states).len() implies chosen_labels(labels, states)[k] == labels[
            on_indices(states)[k]] by {
            if k < on_indices(sp).len() {
                assert(chosen_labels(labels, states)[k] == chosen_labels(lp, sp)[k]);
                assert(on_indices(states)[k] == on_indices(sp)[k]);
                assert(0 <= on_indices(sp)[k] < sp.len());
                assert(lp[on_indices(sp)[k]] == labels[on_indices(sp)[k]]);
            } else {
                assert(states.last());
                assert(on_indices(states)[k] == states.len() - 1);
                assert(chosen_labels(labels, states)[k] == labels.last());
            }
        }
    }
}

/// With every toggle off, the checkbox result is empty.
pub proof fn lemma_no_toggle_yields_empty(labels: Seq<Seq<char>>, states: Seq<bool>)
    requires
        labels.len() == states.len(),
        forall|i: int| 0 <= i < states.len() ==> !states[i],
    ensures
        chosen_labels(labels, states).len() == 0,
    decreases labels.len(),
{
    if labels.len() > 0 {
        assert(!states.last());
        assert forall|i: int| 0 <= i < states.drop_last().len() implies !states.drop_last()[i] by {
            assert(states.drop_last()[i] == states[i]);
        }
        lemma_no_toggle_yields_empty(labels.drop_last(), states.drop_last());
    }
}

/// With exactly one toggle on, the radio result is that toggle's label.
pub proof fn lemma_single_radio_choice(labels: Seq<Seq<char>>, states: Seq<bool>, i: int)
    requires
        labels.len() == states.len(),
        0 <= i < states.len(),
        states[i],
        forall|j: int| 0 <= j < states.len() && j != i ==> !states[j],
    ensures
        radio_choice(labels, states) == labels[i],
    decreases labels.len(),
{
    if i == states.len() - 1 {
        assert(states.last());
    } else {
        assert(!states.last());
        assert(states.drop_last()[i] == states[i]);
        assert forall|j: int|
            0 <= j < states.drop_last().len() && j != i implies !states.drop_last()[j] by {
            assert(states.drop_last()[j] == states[j]);
        }
        lemma_single_radio_choice(labels.drop_last(), states.drop_last(), i);
        assert(labels.drop_last()[i] == labels[i]);
    }
}

/// A checkbox menu: one independent toggle per label, plus a submit
/// action that returns the toggled labels in creation order.
pub struct CheckboxMenu {
    labels: Vec<String>,
    checked: Vec<bool>,
}

impl CheckboxMenu {
    /// One toggle state per label.
    pub closed spec fn well_formed(self) -> bool {
        self.labels.len() == self.checked.len()
    }

    /// The label texts, in creation order.
    pub closed spec fn spec_labels(self) -> Seq<Seq<char>> {
        self.labels.deep_view()
    }

    /// The toggle states, in creation order.
    pub closed spec fn spec_checked(self) -> Seq<bool> {
        self.checked@
    }

    /// A fresh menu: every toggle starts off.
    pub fn new(labels: Vec<String>) -> (menu: Self)
        ensures
            menu.well_formed(),
            menu.spec_labels() == labels.deep_view(),
            menu.spec_checked() == Seq::new(labels.deep_view().len(), |i: int| false),
    {
        let n = labels.len();
        let mut checked: Vec<bool> = Vec::new();
        let mut i: usize = 0;
        while i < n
            invariant
                i <= n,
                checked@ == Seq::new(i as nat, |k: int| false),
            decreases n - i,
        {
            checked.push(false);
            proof {
                assert(checked@ =~= Seq::new((i + 1) as nat, |k: int| false));
            }
            i += 1;
        }
        proof {
            assert(labels.deep_view().len() == labels@.len());
        }
        CheckboxMenu { labels, checked }
    }

    /// Flip the toggle at position `i`, as a click on it does.
    pub fn toggle(&mut self, i: usize)
        requires
            old(self).well_formed(),
            i < old(self).spec_checked().len(),
        ensures
            final(self).well_formed(),
            final(self).spec_labels() == old(self).spec_labels(),
            final(self).spec_checked() == old(self).spec_checked().update(
                i as int,
                !old(self).spec_checked()[i as int],
            ),
    {
        let cur: bool = self.checked[i];
        self.checked.set(i, !cur);
    }

    /// Set the toggle at position `i` outright, as a driver that
    /// mirrors a widget's state does.
    pub fn set_checked(&mut self, i: usize, on: bool)
        requires
            old(self).well_formed(),
            i < old(self).spec_checked().len(),
        ensures
            final(self).well_formed(),
            final(self).spec_labels() == old(self).spec_labels(),
            final(self).spec_checked() == old(self).spec_checked().update(i as int, on),
    {
        self.checked.set(i, on);
    }

    /// The submit action: the labels whose toggle is on, in creation
    /// order.  A menu dismissed without any toggle on yields an empty
    /// collection.
    pub fn submit(&self) -> (r: Vec<String>)
        requires
            self.well_formed(),
        ensures
            r.deep_view() == chosen_labels(self.spec_labels(), self.spec_checked()),
    {
        let ghost ldv = self.labels.deep_view();
        let ghost st = self.checked@;
        let n = self.labels.len();
        let mut r: Vec<String> = Vec::new();
        let mut i: usize = 0;
        while i < n
            invariant
                self.well_formed(),
                n == self.labels.len(),
                i <= n,
                ldv == self.labels.deep_view(),
                st == self.checked@,
                r.deep_view() == chosen_labels(ldv.take(i as int), st.take(i as int)),
            decreases n - i,
        {
            proof {
                assert(ldv.take(i + 1).drop_last() =~= ldv.take(i as int));
                assert(st.take(i + 1).drop_last() =~= st.take(i as int));
            }
            let ghost prev = r.deep_view();
            if self.checked[i] {
                let lab = self.labels[i].clone();
                r.push(lab);
                proof {
                    assert(r.deep_view() =~= prev.push(ldv[i as int]));
                }
            }
            i += 1;
        }
        proof {
            assert(ldv.take(n as int) =~= ldv);
            assert(st.take(n as int) =~= st);
        }
        r
    }
}

/// The chosen labels rendered one per line, each followed by a line
/// break, the way the shift menu's output pane shows them.
pub open spec fn joined_lines(items: Seq<Seq<char>>) -> Seq<char>
    decreases items.len(),
{
    if items.len() == 0 {
        Seq::empty()
    } else {
        joined_lines(items.drop_last()) + items.last() + seq!['\n']
    }
}

/// A shift menu: a checkbox column beside an output pane and a shift
/// action.  Each shift appends every label whose toggle is on to the
/// kept list, and shows those labels in the pane; labels toggled
/// across several shifts accumulate, repeats included.
pub struct ShiftMenu {
    menu: CheckboxMenu,
    kept: Vec<String>,
}

impl ShiftMenu {
    /// One toggle state per label.
    pub closed spec fn well_formed(self) -> bool {
        self.menu.well_formed()
    }

    /// The label texts, in creation order.
    pub closed spec fn spec_labels(self) -> Seq<Seq<char>> {
        self.menu.spec_labels()
    }

    /// The toggle states, in creation order.
    pub closed spec fn spec_checked(self) -> Seq<bool> {
        self.menu.spec_checked()
    }

    /// Everything shifted over so far, in shift order.
    pub closed spec fn spec_kept(self) -> Seq<Seq<char>> {
        self.kept.deep_view()
    }

    /// A fresh menu: every toggle off, nothing kept yet.
    pub fn new(labels: Vec<String>) -> (menu: Self)
        ensures
            menu.well_formed(),
            menu.spec_labels() == labels.deep_view(),
            menu.spec_checked() == Seq::new(labels.deep_view().len(), |i: int| false),
            menu.spec_kept() == Seq::<Seq<char>>::empty(),
    {
        let inner = CheckboxMenu::new(labels);
        let kept: Vec<String> = Vec::new();
        proof {
            assert(kept.deep_view() =~= Seq::<Seq<char>>::empty());
        }
        ShiftMenu { menu: inner, kept }
    }

    /// Flip the toggle at position `i`, as a click on it does.
    pub fn toggle(&mut self, i: usize)
        requires
            old(self).well_formed(),
            i < old(self).spec_checked().len(),
        ensures
            final(self).well_formed(),
            final(self).spec_labels() == old(self).spec_labels(),
            final(self).spec_kept() == old(self).spec_kept(),
            final(self).spec_checked() == old(self).spec_checked().update(
                i as int,
                !old(self).spec_checked()[i as int],
            ),
    {
        self.menu.toggle(i);
    }

    /// Set the toggle at position `i` outright, as a driver that
    /// mirrors a widget's state does.
    pub fn set_checked(&mut self, i: usize, on: bool)
        requires
            old(self).well_formed(),
            i < old(self).spec_checked().len(),
        ensures
            final(self).well_formed(),
            final(self).spec_labels() == old(self).spec_labels(),
            final(self).spec_kept() == old(self).spec_kept(),
            final(self).spec_checked() == old(self).spec_checked().update(i as int, on),
    {
        self.menu.set_checked(i, on);
    }

    /// The shift action: append every label whose toggle is on to the
    /// kept list, in creation order, and return what the output pane
    /// now shows, those labels one per line.
    #[verifier::loop_isolation(false)]
    pub fn shift(&mut self) -> (display: String)
        requires
            old(self).well_formed(),
        ensures
            final(self).well_formed(),
            final(self).spec_labels() == old(self).spec_labels(),
            final(self).spec_checked() == old(self).spec_checked(),
            final(self).spec_kept() == old(self).spec_kept() + chosen_labels(
                old(self).spec_labels(),
                old(self).spec_checked(),
            ),
            display@ == joined_lines(
                chosen_labels(old(self).spec_labels(), old(self).spec_checked()),
            ),
    {
        let sel = self.menu.submit();
        let ghost seldv = sel.deep_view();
        let ghost kept0 = self.kept.deep_view();
        let mut display = String::new();
        let n = sel.len();
        let mut i: usize = 0;
        while i < n
            invariant
                i <= n,
                n == sel.len(),
                seldv == sel.deep_view(),
                self.menu == old(self).menu,
                self.kept.deep_view() == kept0 + seldv.take(i as int),
                display@ == joined_lines(seldv.take(i as int)),
            decreases n - i,
        {
            proof {
                assert(seldv.take(i + 1).drop_last() =~= seldv.take(i as int));
                assert(seldv.take(i + 1).last() == seldv[i as int]);
            }
            let ghost kept_before = self.kept.deep_view();
            display.append(sel[i].as_str());
            display.append("\n");
            self.kept.push(sel[i].clone());
            proof {
                reveal_strlit("\n");
                assert(("\n")@ =~= seq!['\n']);
                assert(self.kept.deep_view() =~= kept_before.push(seldv[i as int]));
                assert(kept_before.push(seldv[i as int]) =~= kept0 + seldv.take(i + 1));
                assert(display@ =~= joined_lines(seldv.take(i + 1)));
            }
            i += 1;
        }
        proof {
            assert(seldv.take(n as int) =~= seldv);
            assert(seldv == chosen_labels(old(self).spec_labels(), old(self).spec_checked()));
        }
        display
    }

    /// Hand over everything kept, leaving the menu with an empty kept
    /// list and its toggles as they are.
    pub fn take_kept(&mut self) -> (r: Vec<String>)
        requires
            old(self).well_formed(),
        ensures
            final(self).well_formed(),
            final(self).spec_labels() == old(self).spec_labels(),
            final(self).spec_checked() == old(self).spec_checked(),
            final(self).spec_kept() == Seq::<Seq<char>>::empty(),
            r.deep_view() == old(self).spec_kept(),
    {
        let mut r: Vec<String> = Vec::new();
        core::mem::swap(&mut r, &mut self.kept);
        proof {
            assert(self.kept.deep_view() =~= Seq::<Seq<char>>::empty());
        }
        r
    }
}

/// A radio menu: at most one toggle on at a time, enforced by
/// `select`, plus a submit action that returns the active label.
pub struct RadioMenu {
    labels: Vec<String>,
    active: Vec<bool>,
}

impl RadioMenu {
    /// One toggle state per label.
    pub closed spec fn well_formed(self) -> bool {
        self.labels.len() == self.active.len()
    }

    /// The label texts, in creation order.
    pub closed spec fn spec_labels(self) -> Seq<Seq<char>> {
        self.labels.deep_view()
    }

    /// The toggle states, in creation order.
    pub closed spec fn spec_active(self) -> Seq<bool> {
        self.active@
    }

    /// A fresh menu: every toggle starts off.
    pub fn new(labels: Vec<String>) -> (menu: Self)
        ensures
            menu.well_formed(),
            menu.spec_labels() == labels.deep_view(),
            menu.spec_active() == Seq::new(labels.deep_view().len(), |i: int| false),
    {
        let n = labels.len();
        let mut active: Vec<bool> = Vec::new();
        let mut i: usize = 0;
        while i < n
            invariant
                i <= n,
                active@ == Seq::new(i as nat, |k: int| false),
            decreases n - i,
        {
            active.push(false);
            proof {
                assert(active@ =~= Seq::new((i + 1) as nat, |k: int| false));
            }
            i += 1;
        }
        RadioMenu { labels, active }
    }

    /// Turn the toggle at position `i` on and every other toggle off,
    /// as the exclusive toggle group does on a click.
    pub fn select(&mut self, i: usize)
        requires
            old(self).well_formed(),
            i < old(self).spec_active().len(),
        ensures
            final(self).well_formed(),
            final(self).spec_labels() == old(self).spec_labels(),
            final(self).spec_active() == Seq::new(
                old(self).spec_active().len(),
                |j: int| j == i as int,
            ),
    {
        let n = self.active.len();
        let mut k: usize = 0;
        while k < n
            invariant
                k <= n,
                i < n,
                n == self.active.len(),
                self.labels == old(self).labels,
                self.active@.len() == old(self).spec_active().len(),
                forall|j: int| 0 <= j < k ==> self.active@[j] == (j == i as int),
                forall|j: int| k <= j < n ==> self.active@[j] == old(self).spec_active()[j],
            decreases n - k,
        {
            self.active.set(k, k == i);
            k += 1;
        }
        proof {
            assert(self.active@ =~= Seq::new(old(self).spec_active().len(), |j: int| j == i as int));
        }
    }

    /// The submit action: the label of the last toggle that is on, in
    /// creation order, or empty text when none is on.  With the group
    /// keeping toggles exclusive, that is the one selected label.
    pub fn submit(&self) -> (r: String)
        requires
            self.well_formed(),
        ensures
            r@ == radio_choice(self.spec_labels(), self.spec_active()),
    {
        let ghost ldv = self.labels.deep_view();
        let ghost st = self.active@;
        let n = self.labels.len();
        let mut r: String = String::new();
        let mut i: usize = 0;
        while i < n
            invariant
                self.well_formed(),
                n == self.labels.len(),
                i <= n,
                ldv == self.labels.deep_view(),
                st == self.active@,
                r@ == radio_choice(ldv.take(i as int), st.take(i as int)),
            decreases n - i,
        {
            proof {
                assert(ldv.take(i + 1).drop_last() =~= ldv.take(i as int));
                assert(st.take(i + 1).drop_last() =~= st.take(i as int));
            }
            if self.active[i] {
                r = self.labels[i].clone();
            }
            i += 1;
        }
        proof {
            assert(ldv.take(n as int) =~= ldv);
            assert(st.take(n as int) =~= st);
        }
        r
    }
}

} // verus!

