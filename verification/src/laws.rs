//! The laws of the dispatch semantics: what a change does — and does not
//! do — to the slots of the actions it reaches.

use vstd::prelude::*;

use crate::change::{ButtonChange, InputChange};
use crate::description::{InputDesc, KeyDesc};
use crate::map::{
    button_after_change, button_after_changes, occurrences, signal_after_change, InputMap,
};
use crate::state::{ButtonValue, InputIndex};

verus! {

/// An action occurs in a binding list exactly when its occurrence count is
/// positive.
pub proof fn lemma_occurrences_pos<A>(ids: Seq<A>, i: A)
    ensures
        occurrences(ids, i) > 0 <==> ids.contains(i),
    decreases ids.len(),
{
    reveal(Seq::filter);
    if ids.len() > 0 {
        lemma_occurrences_pos(ids.drop_last(), i);
        if ids.contains(i) && ids.last() != i {
            let w = choose|w: int| 0 <= w < ids.len() && ids[w] == i;
            assert(ids.drop_last()[w] == i);
        }
        if ids.drop_last().contains(i) {
            let w = choose|w: int| 0 <= w < ids.len() - 1 && ids.drop_last()[w] == i;
            assert(ids[w] == i);
        }
    }
}

/// A press and a release of one key description within a single frame
/// leave every action bound to that description with both edge flags set
/// and the level state lowered: `pressed` and `released` both true is
/// valid, not contradictory.
pub proof fn lemma_press_release_same_frame<BI: InputIndex, NI: InputIndex>(
    m: InputMap<BI, NI>,
    kd: KeyDesc,
    i: BI,
    v: ButtonValue,
)
    requires
        m.button_actions(InputDesc::Key(kd)).contains(i),
    ensures
        ({
            let cs = seq![
                InputChange::Key(kd, ButtonChange::Pressed),
                InputChange::Key(kd, ButtonChange::Released),
            ];
            let w = button_after_changes(m, cs, i, v);
            w.pressed && w.released && !w.held
        }),
{
    lemma_occurrences_pos(m.button_actions(InputDesc::Key(kd)), i);
    let c1 = InputChange::Key(kd, ButtonChange::Pressed);
    let c2 = InputChange::Key(kd, ButtonChange::Released);
    let cs = seq![c1, c2];
    let s1 = seq![c1];
    assert(s1.drop_last() =~= Seq::<InputChange>::empty());
    assert(button_after_changes(m, Seq::<InputChange>::empty(), i, v) == v);
    let w1 = button_after_changes(m, s1, i, v);
    assert(w1 == button_after_change(m, c1, i, v));
    assert(cs.drop_last() =~= s1);
    assert(cs.last() == c2);
    assert(button_after_changes(m, cs, i, v) == button_after_change(m, c2, i, w1));
}

/// A single press updates every action bound to the pressed description:
/// when one description is bound to several actions, all of them see
/// `pressed` and `held` rise from the one change.
pub proof fn lemma_press_updates_all_bound<BI: InputIndex, NI: InputIndex>(
    m: InputMap<BI, NI>,
    kd: KeyDesc,
    i: BI,
    v: ButtonValue,
)
    requires
        m.button_actions(InputDesc::Key(kd)).contains(i),
    ensures
        ({
            let w = button_after_change(m, InputChange::Key(kd, ButtonChange::Pressed), i, v);
            w.pressed && w.held && w.released == v.released && w.repeats == v.repeats
        }),
{
    lemma_occurrences_pos(m.button_actions(InputDesc::Key(kd)), i);
}

/// A change whose input description is bound to nothing mutates no state:
/// after `remove(desc)`, an event using that description is inert, and a
/// lookup miss never aborts dispatch.
pub proof fn lemma_unbound_descriptor_is_inert<BI: InputIndex, NI: InputIndex>(
    m: InputMap<BI, NI>,
    c: InputChange,
    i: BI,
    j: NI,
    bv: ButtonValue,
    sv: bool,
)
    requires
        m.button_actions(c.spec_input()) == Seq::<BI>::empty(),
        m.signal_actions(c.spec_input()) == Seq::<NI>::empty(),
    ensures
        button_after_change(m, c, i, bv) == bv,
        signal_after_change(m, c, j, sv) == sv,
{
    match c {
        InputChange::Key(_, _) => {
            crate::map::lemma_occurrences_empty::<BI>(i);
        }
        InputChange::Signal(_) => {}
    }
}

/// A repeat never sets or clears `pressed`, `held` or `released`; it only
/// raises the repeat counter, once per binding of the key to the action,
/// saturating at the counter's maximum. An action the key is not bound to
/// is untouched.
pub proof fn lemma_repeat_only_counts<BI: InputIndex, NI: InputIndex>(
    m: InputMap<BI, NI>,
    kd: KeyDesc,
    i: BI,
    v: ButtonValue,
)
    ensures
        ({
            let w = button_after_change(m, InputChange::Key(kd, ButtonChange::Repeated), i, v);
            let n = occurrences(m.button_actions(InputDesc::Key(kd)), i);
            &&& w.pressed == v.pressed
            &&& w.held == v.held
            &&& w.released == v.released
            &&& w.repeats == if v.repeats + n <= 255 {
                (v.repeats + n) as u8
            } else {
                255u8
            }
            &&& (!m.button_actions(InputDesc::Key(kd)).contains(i) ==> w == v)
        }),
{
    lemma_occurrences_pos(m.button_actions(InputDesc::Key(kd)), i);
}

} // verus!
