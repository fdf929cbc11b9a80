//! A thin front end over the binding table that keeps the older calling
//! vocabulary: `add`/`unbind` for plain key bindings and `map` for
//! dispatching an event.

use vstd::prelude::*;

use crate::change::{DescribeInputChanges, InputChange};
use crate::description::{InputDesc, KeyDesc};
use crate::map::{
    state_after_changes, ButtonUpdateSource, InputMap, NotificationUpdateSource,
};
use crate::state::{InputIndex, InputState};

verus! {

/// Associates abstract input descriptions with game actions, and maps
/// input events to updates of a representation of the game's full action
/// state.
#[derive(Debug, Clone)]
pub struct InputMapper<BI, NI> {
    table: InputMap<BI, NI>,
}

impl<BI: InputIndex, NI: InputIndex> InputMapper<BI, NI> {
    /// The binding table this mapper maintains.
    pub closed spec fn spec_table(self) -> InputMap<BI, NI> {
        self.table
    }

    /// The button actions bound to an input description, in binding order.
    pub open spec fn button_actions(self, d: InputDesc) -> Seq<BI> {
        self.spec_table().button_actions(d)
    }

    /// The signal actions bound to an input description, in binding order.
    pub open spec fn signal_actions(self, d: InputDesc) -> Seq<NI> {
        self.spec_table().signal_actions(d)
    }

    /// The internal shape every operation preserves.
    pub open spec fn wf(self) -> bool {
        self.spec_table().wf()
    }

    /// Creates a new input mapper with nothing bound.
    pub fn new() -> (m: InputMapper<BI, NI>)
        ensures
            m.wf(),
            forall|d: InputDesc| m.button_actions(d) == Seq::<BI>::empty(),
            forall|d: InputDesc| m.signal_actions(d) == Seq::<NI>::empty(),
    {
        InputMapper { table: InputMap::new() }
    }

    /// Adds a mapping from a key description to a button action.
    pub fn add(&mut self, action: BI, desc: KeyDesc)
        requires
            old(self).wf(),
        ensures
            final(self).wf(),
            final(self).button_actions(InputDesc::Key(desc)) == old(self).button_actions(
                InputDesc::Key(desc),
            ).push(action),
            forall|d: InputDesc|
                d != InputDesc::Key(desc) ==> final(self).button_actions(d) == old(
                    self,
                ).button_actions(d),
            forall|d: InputDesc| final(self).signal_actions(d) == old(self).signal_actions(d),
    {
        self.table.add_button(action, ButtonUpdateSource::Key(desc));
    }

    /// Removes all mappings of the given input description, in both
    /// categories.
    pub fn unbind(&mut self, desc: InputDesc)
        requires
            old(self).wf(),
        ensures
            final(self).wf(),
            final(self).button_actions(desc) == Seq::<BI>::empty(),
            final(self).signal_actions(desc) == Seq::<NI>::empty(),
            forall|d: InputDesc|
                d != desc ==> final(self).button_actions(d) == old(self).button_actions(d),
            forall|d: InputDesc|
                d != desc ==> final(self).signal_actions(d) == old(self).signal_actions(d),
    {
        self.table.remove(desc);
    }

    /// Adds a mapping from a button input source to a button action.
    pub fn add_button(&mut self, action: BI, source: ButtonUpdateSource)
        requires
            old(self).wf(),
        ensures
            final(self).wf(),
            final(self).button_actions(source.spec_desc()) == old(self).button_actions(
                source.spec_desc(),
            ).push(action),
            forall|d: InputDesc|
                d != source.spec_desc() ==> final(self).button_actions(d) == old(
                    self,
                ).button_actions(d),
            forall|d: InputDesc| final(self).signal_actions(d) == old(self).signal_actions(d),
    {
        self.table.add_button(action, source);
    }

    /// Adds a mapping from a notification input source to a notification
    /// (signal) action.
    pub fn add_notification(&mut self, action: NI, source: NotificationUpdateSource)
        requires
            old(self).wf(),
        ensures
            final(self).wf(),
            final(self).signal_actions(source.spec_desc()) == old(self).signal_actions(
                source.spec_desc(),
            ).push(action),
            forall|d: InputDesc|
                d != source.spec_desc() ==> final(self).signal_actions(d) == old(
                    self,
                ).signal_actions(d),
            forall|d: InputDesc| final(self).button_actions(d) == old(self).button_actions(d),
    {
        self.table.add_notification(action, source);
    }

    /// Maps the changes described by the given event to changes of the
    /// state, exactly as the underlying table's apply operation would.
    pub fn map<E: DescribeInputChanges, S: InputState<ButtonId = BI, SignalId = NI>>(
        &self,
        event: &E,
        state: &mut S,
    )
        requires
            self.wf(),
            forall|d: InputDesc, i: BI| #[trigger]
                self.button_actions(d).contains(i) ==> old(state).valid_button(i),
            forall|d: InputDesc, j: NI| #[trigger]
                self.signal_actions(d).contains(j) ==> old(state).valid_signal(j),
        ensures
            forall|i: BI| final(state).valid_button(i) == old(state).valid_button(i),
            forall|j: NI| final(state).valid_signal(j) == old(state).valid_signal(j),
            exists|cs: Seq<InputChange>| #[trigger]
                state_after_changes(self.spec_table(), *old(state), *final(state), cs),
    {
        proof {
            assert forall|d: InputDesc, i: BI| #[trigger]
                self.table.button_actions(d).contains(i) implies old(state).valid_button(i) by {
                assert(self.button_actions(d).contains(i));
            }
            assert forall|d: InputDesc, j: NI| #[trigger]
                self.table.signal_actions(d).contains(j) implies old(state).valid_signal(j) by {
                assert(self.signal_actions(d).contains(j));
            }
        }
        self.table.apply(event, state);
    }
}

} // verus!
