//! The binding table: a many-to-many mapping from input descriptions to
//! game actions, split by action category, together with the dispatch
//! algorithm that turns input changes into state updates.

use vstd::prelude::*;

use crate::change::{ButtonChange, DescribeInputChanges, InputChange};
use crate::description::{InputDesc, KeyDesc};
use crate::key::Key;
use crate::notification::Notification;
use crate::state::{button_transition, ButtonValue, InputIndex, InputState};

verus! {

/// A description of events that can change the state of a button-type
/// input. Only keyboard buttons qualify: signals can never be bound to a
/// button action, which keeps the two binding categories disjoint by
/// construction.
#[derive(Debug, Clone, Copy, PartialEq, Eq, Structural)]
pub enum ButtonUpdateSource {
    /// A keyboard button.
    Key(KeyDesc),
}

impl ButtonUpdateSource {
    /// The input description this source stands for.
    pub open spec fn spec_desc(self) -> InputDesc {
        match self {
            ButtonUpdateSource::Key(kd) => InputDesc::Key(kd),
        }
    }

    /// Returns the input description this source stands for.
    pub fn desc(&self) -> (d: InputDesc)
        ensures
            d == self.spec_desc(),
    {
        match *self {
            ButtonUpdateSource::Key(kd) => InputDesc::Key(kd),
        }
    }

    /// The button sources among all input descriptions: a key description
    /// qualifies, a signal does not.
    pub fn try_from(desc: InputDesc) -> (r: Option<ButtonUpdateSource>)
        ensures
            match r {
                Some(s) => s.spec_desc() == desc,
                None => desc is Signal,
            },
    {
        match desc {
            InputDesc::Key(kd) => Some(ButtonUpdateSource::Key(kd)),
            InputDesc::Signal(_) => None,
        }
    }
}

impl From<KeyDesc> for ButtonUpdateSource {
    fn from(keydesc: KeyDesc) -> (s: ButtonUpdateSource)
        ensures
            s == ButtonUpdateSource::Key(keydesc),
    {
        ButtonUpdateSource::Key(keydesc)
    }
}

impl vstd::std_specs::convert::FromSpecImpl<KeyDesc> for ButtonUpdateSource {
    open spec fn obeys_from_spec() -> bool {
        true
    }

    open spec fn from_spec(keydesc: KeyDesc) -> ButtonUpdateSource {
        ButtonUpdateSource::Key(keydesc)
    }
}

impl From<Key> for ButtonUpdateSource {
    fn from(key: Key) -> (s: ButtonUpdateSource)
        ensures
            s == ButtonUpdateSource::Key(KeyDesc::of_key(key)),
    {
        ButtonUpdateSource::Key(KeyDesc::new(key))
    }
}

impl vstd::std_specs::convert::FromSpecImpl<Key> for ButtonUpdateSource {
    open spec fn obeys_from_spec() -> bool {
        true
    }

    open spec fn from_spec(key: Key) -> ButtonUpdateSource {
        ButtonUpdateSource::Key(KeyDesc::of_key(key))
    }
}

/// A description of events that can change the state of a
/// notification-type (signal) input: either the signal itself, or a
/// keyboard button whose press should raise the one-shot flag.
#[derive(Debug, Clone, Copy, PartialEq, Eq, Structural)]
pub enum NotificationUpdateSource {
    /// A notification sent by the OS.
    Notification(Notification),
    /// A keyboard button.
    Key(KeyDesc),
}

impl NotificationUpdateSource {
    /// The input description this source stands for.
    pub open spec fn spec_desc(self) -> InputDesc {
        match self {
            NotificationUpdateSource::Notification(n) => InputDesc::Signal(n.spec_as_signal()),
            NotificationUpdateSource::Key(kd) => InputDesc::Key(kd),
        }
    }

    /// Returns the input description this source stands for.
    pub fn desc(&self) -> (d: InputDesc)
        ensures
            d == self.spec_desc(),
    {
        match *self {
            NotificationUpdateSource::Notification(n) => InputDesc::Signal(n.as_signal()),
            NotificationUpdateSource::Key(kd) => InputDesc::Key(kd),
        }
    }
}

impl From<KeyDesc> for NotificationUpdateSource {
    fn from(keydesc: KeyDesc) -> (s: NotificationUpdateSource)
        ensures
            s == NotificationUpdateSource::Key(keydesc),
    {
        NotificationUpdateSource::Key(keydesc)
    }
}

impl vstd::std_specs::convert::FromSpecImpl<KeyDesc> for NotificationUpdateSource {
    open spec fn obeys_from_spec() -> bool {
        true
    }

    open spec fn from_spec(keydesc: KeyDesc) -> NotificationUpdateSource {
        NotificationUpdateSource::Key(keydesc)
    }
}

impl From<Key> for NotificationUpdateSource {
    fn from(key: Key) -> (s: NotificationUpdateSource)
        ensures
            s == NotificationUpdateSource::Key(KeyDesc::of_key(key)),
    {
        NotificationUpdateSource::Key(KeyDesc::new(key))
    }
}

impl vstd::std_specs::convert::FromSpecImpl<Key> for NotificationUpdateSource {
    open spec fn obeys_from_spec() -> bool {
        true
    }

    open spec fn from_spec(key: Key) -> NotificationUpdateSource {
        NotificationUpdateSource::Key(KeyDesc::of_key(key))
    }
}

impl From<Notification> for NotificationUpdateSource {
    fn from(notification: Notification) -> (s: NotificationUpdateSource)
        ensures
            s == NotificationUpdateSource::Notification(notification),
    {
        NotificationUpdateSource::Notification(notification)
    }
}

impl vstd::std_specs::convert::FromSpecImpl<Notification> for NotificationUpdateSource {
    open spec fn obeys_from_spec() -> bool {
        true
    }

    open spec fn from_spec(notification: Notification) -> NotificationUpdateSource {
        NotificationUpdateSource::Notification(notification)
    }
}

/// The actions listed for `key` in an association list, reading from the
/// front; an absent key has no actions.
spec fn assoc_lookup<K, A>(entries: Seq<(K, Vec<A>)>, key: K) -> Seq<A>
    decreases entries.len(),
{
    if entries.len() == 0 {
        Seq::empty()
    } else if entries[0].0 == key {
        entries[0].1@
    } else {
        assoc_lookup(entries.drop_first(), key)
    }
}

/// Whether an association list has an entry for `key`.
spec fn assoc_has<K, A>(entries: Seq<(K, Vec<A>)>, key: K) -> bool {
    exists|i: int| 0 <= i < entries.len() && entries[i].0 == key
}

/// Whether the keys of an association list are pairwise distinct.
spec fn assoc_distinct<K, A>(entries: Seq<(K, Vec<A>)>) -> bool {
    forall|i: int, j: int| 0 <= i < j < entries.len() ==> entries[i].0 != entries[j].0
}

proof fn lemma_assoc_lookup_at<K, A>(entries: Seq<(K, Vec<A>)>, i: int, key: K)
    requires
        assoc_distinct(entries),
        0 <= i < entries.len(),
        entries[i].0 == key,
    ensures
        assoc_lookup(entries, key) == entries[i].1@,
    decreases entries.len(),
{
    if i == 0 {
    } else {
        assert(entries[0].0 != key);
        assert(entries.drop_first()[i - 1] == entries[i]);
        lemma_assoc_lookup_at(entries.drop_first(), i - 1, key);
    }
}

proof fn lemma_assoc_lookup_absent<K, A>(entries: Seq<(K, Vec<A>)>, key: K)
    requires
        !assoc_has(entries, key),
    ensures
        assoc_lookup(entries, key) == Seq::<A>::empty(),
    decreases entries.len(),
{
    if entries.len() > 0 {
        assert(entries[0].0 != key);
        assert(forall|i: int|
            0 <= i < entries.drop_first().len() ==> entries.drop_first()[i] == entries[i + 1]);
        lemma_assoc_lookup_absent(entries.drop_first(), key);
    }
}

proof fn lemma_assoc_lookup_push<K, A>(entries: Seq<(K, Vec<A>)>, k: K, v: Vec<A>, key: K)
    ensures
        assoc_lookup(entries.push((k, v)), key) == if key == k && !assoc_has(entries, key) {
            v@
        } else {
            assoc_lookup(entries, key)
        },
    decreases entries.len(),
{
    let pushed = entries.push((k, v));
    if entries.len() == 0 {
        if key != k {
            lemma_assoc_lookup_absent(pushed, key);
        }
    } else {
        assert(pushed[0] == entries[0]);
        if entries[0].0 == key {
        } else {
            assert(pushed.drop_first() =~= entries.drop_first().push((k, v)));
            lemma_assoc_lookup_push(entries.drop_first(), k, v, key);
            assert(assoc_has(entries.drop_first(), key) == assoc_has(entries, key)) by {
                if assoc_has(entries, key) {
                    let i = choose|i: int| 0 <= i < entries.len() && entries[i].0 == key;
                    assert(i != 0);
                    assert(entries.drop_first()[i - 1] == entries[i]);
                }
                if assoc_has(entries.drop_first(), key) {
                    let i = choose|i: int|
                        0 <= i < entries.drop_first().len() && entries.drop_first()[i].0 == key;
                    assert(entries[i + 1] == entries.drop_first()[i]);
                }
            }
        }
    }
}

proof fn lemma_assoc_lookup_update<K, A>(entries: Seq<(K, Vec<A>)>, i: int, w: Vec<A>, key: K)
    requires
        assoc_distinct(entries),
        0 <= i < entries.len(),
    ensures
        assoc_lookup(entries.update(i, (entries[i].0, w)), key) == if key == entries[i].0 {
            w@
        } else {
            assoc_lookup(entries, key)
        },
    decreases entries.len(),
{
    let k = entries[i].0;
    let updated = entries.update(i, (k, w));
    if i == 0 {
        if key == k {
        } else {
            assert(updated.drop_first() =~= entries.drop_first());
        }
    } else {
        assert(updated[0] == entries[0]);
        assert(entries[0].0 != k);
        if key == entries[0].0 {
        } else {
            assert(updated.drop_first() =~= entries.drop_first().update(
                i - 1,
                (entries.drop_first()[i - 1].0, w),
            ));
            assert(entries.drop_first()[i - 1] == entries[i]);
            lemma_assoc_lookup_update(entries.drop_first(), i - 1, w, key);
        }
    }
}

proof fn lemma_assoc_lookup_remove<K, A>(entries: Seq<(K, Vec<A>)>, i: int, key: K)
    requires
        assoc_distinct(entries),
        0 <= i < entries.len(),
    ensures
        assoc_lookup(entries.remove(i), key) == if key == entries[i].0 {
            Seq::<A>::empty()
        } else {
            assoc_lookup(entries, key)
        },
    decreases entries.len(),
{
    let removed = entries.remove(i);
    if i == 0 {
        assert(removed =~= entries.drop_first());
        if key == entries[0].0 {
            assert(!assoc_has(removed, key)) by {
                if assoc_has(removed, key) {
                    let j = choose|j: int| 0 <= j < removed.len() && removed[j].0 == key;
                    assert(entries[j + 1] == removed[j]);
                }
            }
            lemma_assoc_lookup_absent(removed, key);
        }
    } else {
        assert(removed[0] == entries[0]);
        if key == entries[0].0 {
            assert(key != entries[i].0);
        } else {
            assert(removed.drop_first() =~= entries.drop_first().remove(i - 1));
            assert(entries.drop_first()[i - 1] == entries[i]);
            lemma_assoc_lookup_remove(entries.drop_first(), i - 1, key);
        }
    }
}

/// Associates abstract input descriptions with game actions, and maps
/// input events to updates of a representation of the game's full action
/// state.
///
/// The table keeps two independent mappings: one from keyboard buttons to
/// button-style actions, one from arbitrary input descriptions to
/// signal-style actions. A description may be bound to many actions, many
/// descriptions may be bound to one action, and duplicate pairs are kept:
/// each occurrence produces an independent mutation at apply time.
#[derive(Debug, Clone)]
pub struct InputMap<BI, NI> {
    buttons: Vec<(KeyDesc, Vec<BI>)>,
    notifications: Vec<(InputDesc, Vec<NI>)>,
}

impl<BI: InputIndex, NI: InputIndex> InputMap<BI, NI> {
    /// The button actions bound to an input description, in binding
    /// (insertion) order. A signal description never has button actions.
    pub closed spec fn button_actions(self, d: InputDesc) -> Seq<BI> {
        match d {
            InputDesc::Key(kd) => assoc_lookup(self.buttons@, kd),
            InputDesc::Signal(_) => Seq::empty(),
        }
    }

    /// The signal actions bound to an input description, in binding
    /// (insertion) order.
    pub closed spec fn signal_actions(self, d: InputDesc) -> Seq<NI> {
        assoc_lookup(self.notifications@, d)
    }

    /// The internal shape the operations below preserve: each description
    /// owns at most one action list per category.
    pub closed spec fn wf(self) -> bool {
        assoc_distinct(self.buttons@) && assoc_distinct(self.notifications@)
    }

    /// Button actions can only be reached through key descriptions: the
    /// two binding categories are disjoint by construction, so a signal
    /// change can never touch a button slot.
    pub proof fn lemma_signal_desc_has_no_buttons(self, d: InputDesc)
        requires
            d is Signal,
        ensures
            self.button_actions(d) == Seq::<BI>::empty(),
    {
    }

    /// Creates a new input map, with nothing bound.
    pub fn new() -> (m: InputMap<BI, NI>)
        ensures
            m.wf(),
            forall|d: InputDesc| m.button_actions(d) == Seq::<BI>::empty(),
            forall|d: InputDesc| m.signal_actions(d) == Seq::<NI>::empty(),
    {
        let m = InputMap { buttons: Vec::new(), notifications: Vec::new() };
        proof {
            assert(forall|d: InputDesc| m.button_actions(d) =~= Seq::<BI>::empty());
            assert(forall|d: InputDesc| m.signal_actions(d) =~= Seq::<NI>::empty());
        }
        m
    }

    /// Adds a mapping from a button input source to a button action.
    ///
    /// Duplicate pairs are allowed and each produces a repeated mutation
    /// at apply time; avoiding that is the caller's responsibility.
    pub fn add_button(&mut self, action: BI, source: ButtonUpdateSource)
        requires
            old(self).wf(),
        ensures
            final(self).wf(),
            final(self).button_actions(source.spec_desc()) == old(self).button_actions(
                source.spec_desc(),
            ).push(action),
            forall|d: InputDesc|
                d != source.spec_desc() ==> final(self).button_actions(d) == old(
                    self,
                ).button_actions(d),
            forall|d: InputDesc| final(self).signal_actions(d) == old(self).signal_actions(d),
    {
        let ButtonUpdateSource::Key(kd) = source;
        let n = self.buttons.len();
        let mut idx: usize = 0;
        while idx < n
            invariant
                idx <= n,
                n == self.buttons@.len(),
                *self == *old(self),
                old(self).wf(),
                source.spec_desc() == InputDesc::Key(kd),
                forall|j: int| 0 <= j < idx ==> self.buttons@[j].0 != kd,
            decreases n - idx,
        {
            if self.buttons[idx].0 == kd {
                let entry = &mut self.buttons[idx];
                entry.1.push(action);
                proof {
                    let entries = old(self).buttons@;
                    let newvec = self.buttons@[idx as int].1;
                    assert(entries[idx as int].0 == kd);
                    assert(newvec@ == entries[idx as int].1@.push(action));
                    assert(self.buttons@ =~= entries.update(idx as int, (kd, newvec)));
                    lemma_assoc_lookup_at(entries, idx as int, kd);
                    assert forall|key: KeyDesc|
                        assoc_lookup(self.buttons@, key) == (if key == kd {
                            assoc_lookup(entries, key).push(action)
                        } else {
                            assoc_lookup(entries, key)
                        }) by {
                        lemma_assoc_lookup_update(entries, idx as int, newvec, key);
                    }
                    assert(assoc_distinct(self.buttons@)) by {
                        assert(forall|j: int|
                            0 <= j < entries.len() ==> self.buttons@[j].0 == entries[j].0);
                    }
                }
                return ;
            }
            idx += 1;
        }
        let mut list: Vec<BI> = Vec::new();
        list.push(action);
        self.buttons.push((kd, list));
        proof {
            let entries = old(self).buttons@;
            assert(!assoc_has(entries, kd));
            lemma_assoc_lookup_absent(entries, kd);
            assert forall|key: KeyDesc|
                assoc_lookup(self.buttons@, key) == if key == kd {
                    assoc_lookup(entries, key).push(action)
                } else {
                    assoc_lookup(entries, key)
                } by {
                lemma_assoc_lookup_push(entries, kd, list, key);
                if key == kd {
                    assert(list@ =~= assoc_lookup(entries, key).push(action));
                }
            }
            assert(assoc_distinct(self.buttons@)) by {
                assert(forall|j: int|
                    0 <= j < entries.len() ==> self.buttons@[j] == entries[j]);
            }
        }
    }

    /// Adds a mapping from a notification input source to a notification
    /// (signal) action.
    ///
    /// Duplicate pairs are allowed and each produces a repeated mutation
    /// at apply time; avoiding that is the caller's responsibility.
    pub fn add_notification(&mut self, action: NI, source: NotificationUpdateSource)
        requires
            old(self).wf(),
        ensures
            final(self).wf(),
            final(self).signal_actions(source.spec_desc()) == old(self).signal_actions(
                source.spec_desc(),
            ).push(action),
            forall|d: InputDesc|
                d != source.spec_desc() ==> final(self).signal_actions(d) == old(
                    self,
                ).signal_actions(d),
            forall|d: InputDesc| final(self).button_actions(d) == old(self).button_actions(d),
    {
        let desc = source.desc();
        let n = self.notifications.len();
        let mut idx: usize = 0;
        while idx < n
            invariant
                idx <= n,
                n == self.notifications@.len(),
                *self == *old(self),
                old(self).wf(),
                desc == source.spec_desc(),
                forall|j: int| 0 <= j < idx ==> self.notifications@[j].0 != desc,
            decreases n - idx,
        {
            if self.notifications[idx].0 == desc {
                let entry = &mut self.notifications[idx];
                entry.1.push(action);
                proof {
                    let entries = old(self).notifications@;
                    let newvec = self.notifications@[idx as int].1;
                    assert(entries[idx as int].0 == desc);
                    assert(newvec@ == entries[idx as int].1@.push(action));
                    assert(self.notifications@ =~= entries.update(idx as int, (desc, newvec)));
                    lemma_assoc_lookup_at(entries, idx as int, desc);
                    assert forall|key: InputDesc|
                        assoc_lookup(self.notifications@, key) == (if key == desc {
                            assoc_lookup(entries, key).push(action)
                        } else {
                            assoc_lookup(entries, key)
                        }) by {
                        lemma_assoc_lookup_update(entries, idx as int, newvec, key);
                    }
                    assert(assoc_distinct(self.notifications@)) by {
                        assert(forall|j: int|
                            0 <= j < entries.len() ==> self.notifications@[j].0 == entries[j].0);
                    }
                }
                return ;
            }
            idx += 1;
        }
        let mut list: Vec<NI> = Vec::new();
        list.push(action);
        self.notifications.push((desc, list));
        proof {
            let entries = old(self).notifications@;
            assert(!assoc_has(entries, desc));
            lemma_assoc_lookup_absent(entries, desc);
            assert forall|key: InputDesc|
                assoc_lookup(self.notifications@, key) == if key == desc {
                    assoc_lookup(entries, key).push(action)
                } else {
                    assoc_lookup(entries, key)
                } by {
                lemma_assoc_lookup_push(entries, desc, list, key);
                if key == desc {
                    assert(list@ =~= assoc_lookup(entries, key).push(action));
                }
            }
            assert(assoc_distinct(self.notifications@)) by {
                assert(forall|j: int|
                    0 <= j < entries.len() ==> self.notifications@[j] == entries[j]);
            }
        }
    }

    /// Drops the button entry of this key description, if there is one.
    fn remove_button_entry(&mut self, kd: KeyDesc)
        requires
            old(self).wf(),
        ensures
            final(self).wf(),
            final(self).button_actions(InputDesc::Key(kd)) == Seq::<BI>::empty(),
            forall|d: InputDesc|
                d != InputDesc::Key(kd) ==> final(self).button_actions(d) == old(
                    self,
                ).button_actions(d),
            forall|d: InputDesc| final(self).signal_actions(d) == old(self).signal_actions(d),
    {
        let n = self.buttons.len();
        let mut idx: usize = 0;
        while idx < n
            invariant
                idx <= n,
                n == self.buttons@.len(),
                *self == *old(self),
                old(self).wf(),
                forall|j: int| 0 <= j < idx ==> self.buttons@[j].0 != kd,
            decreases n - idx,
        {
            if self.buttons[idx].0 == kd {
                self.buttons.remove(idx);
                proof {
                    let entries = old(self).buttons@;
                    assert forall|key: KeyDesc|
                        assoc_lookup(self.buttons@, key) == if key == kd {
                            Seq::<BI>::empty()
                        } else {
                            assoc_lookup(entries, key)
                        } by {
                        lemma_assoc_lookup_remove(entries, idx as int, key);
                    }
                    assert(assoc_distinct(self.buttons@)) by {
                        assert(forall|j: int|
                            0 <= j < self.buttons@.len() ==> self.buttons@[j] == entries.remove(
                                idx as int,
                            )[j]);
                    }
                }
                return ;
            }
            idx += 1;
        }
        proof {
            assert(!assoc_has(self.buttons@, kd));
            lemma_assoc_lookup_absent::<KeyDesc, BI>(self.buttons@, kd);
        }
    }

    /// Drops the notification entry of this input description, if there
    /// is one.
    fn remove_notification_entry(&mut self, desc: InputDesc)
        requires
            old(self).wf(),
        ensures
            final(self).wf(),
            final(self).signal_actions(desc) == Seq::<NI>::empty(),
            forall|d: InputDesc|
                d != desc ==> final(self).signal_actions(d) == old(self).signal_actions(d),
            forall|d: InputDesc| final(self).button_actions(d) == old(self).button_actions(d),
    {
        let n = self.notifications.len();
        let mut idx: usize = 0;
        while idx < n
            invariant
                idx <= n,
                n == self.notifications@.len(),
                *self == *old(self),
                old(self).wf(),
                forall|j: int| 0 <= j < idx ==> self.notifications@[j].0 != desc,
            decreases n - idx,
        {
            if self.notifications[idx].0 == desc {
                self.notifications.remove(idx);
                proof {
                    let entries = old(self).notifications@;
                    assert forall|key: InputDesc|
                        assoc_lookup(self.notifications@, key) == if key == desc {
                            Seq::<NI>::empty()
                        } else {
                            assoc_lookup(entries, key)
                        } by {
                        lemma_assoc_lookup_remove(entries, idx as int, key);
                    }
                    assert(assoc_distinct(self.notifications@)) by {
                        assert(forall|j: int|
                            0 <= j < self.notifications@.len() ==> self.notifications@[j]
                                == entries.remove(idx as int)[j]);
                    }
                }
                return ;
            }
            idx += 1;
        }
        proof {
            assert(!assoc_has(self.notifications@, desc));
            lemma_assoc_lookup_absent::<InputDesc, NI>(self.notifications@, desc);
        }
    }

    /// Removes every binding of the given input description, in both
    /// categories. Removing a description that is not bound is a no-op.
    pub fn remove(&mut self, desc: InputDesc)
        requires
            old(self).wf(),
        ensures
            final(self).wf(),
            final(self).button_actions(desc) == Seq::<BI>::empty(),
            final(self).signal_actions(desc) == Seq::<NI>::empty(),
            forall|d: InputDesc|
                d != desc ==> final(self).button_actions(d) == old(self).button_actions(d),
            forall|d: InputDesc|
                d != desc ==> final(self).signal_actions(d) == old(self).signal_actions(d),
    {
        if let InputDesc::Key(kd) = desc {
            self.remove_button_entry(kd);
        }
        self.remove_notification_entry(desc);
    }

    /// Whether at least one input description is bound to the button
    /// action `i`.
    pub open spec fn binds_button(self, i: BI) -> bool {
        exists|d: InputDesc| #[trigger] self.button_actions(d).contains(i)
    }

    /// The action list bound to this key description in the button
    /// category, if the description is bound there at all.
    fn button_list(&self, kd: &KeyDesc) -> (r: Option<&Vec<BI>>)
        requires
            self.wf(),
        ensures
            match r {
                Some(ids) => ids@ == self.button_actions(InputDesc::Key(*kd)),
                None => self.button_actions(InputDesc::Key(*kd)) == Seq::<BI>::empty(),
            },
    {
        let n = self.buttons.len();
        let mut idx: usize = 0;
        while idx < n
            invariant
                idx <= n,
                n == self.buttons@.len(),
                self.wf(),
                forall|j: int| 0 <= j < idx ==> self.buttons@[j].0 != *kd,
            decreases n - idx,
        {
            if self.buttons[idx].0 == *kd {
                proof {
                    lemma_assoc_lookup_at(self.buttons@, idx as int, *kd);
                }
                return Some(&self.buttons[idx].1);
            }
            idx += 1;
        }
        proof {
            assert(!assoc_has(self.buttons@, *kd));
            lemma_assoc_lookup_absent::<KeyDesc, BI>(self.buttons@, *kd);
        }
        None
    }

    /// The action list bound to this input description in the signal
    /// category, if the description is bound there at all.
    fn notification_list(&self, desc: &InputDesc) -> (r: Option<&Vec<NI>>)
        requires
            self.wf(),
        ensures
            match r {
                Some(ids) => ids@ == self.signal_actions(*desc),
                None => self.signal_actions(*desc) == Seq::<NI>::empty(),
            },
    {
        let n = self.notifications.len();
        let mut idx: usize = 0;
        while idx < n
            invariant
                idx <= n,
                n == self.notifications@.len(),
                self.wf(),
                forall|j: int| 0 <= j < idx ==> self.notifications@[j].0 != *desc,
            decreases n - idx,
        {
            if self.notifications[idx].0 == *desc {
                proof {
                    lemma_assoc_lookup_at(self.notifications@, idx as int, *desc);
                }
                return Some(&self.notifications[idx].1);
            }
            idx += 1;
        }
        proof {
            assert(!assoc_has(self.notifications@, *desc));
            lemma_assoc_lookup_absent::<InputDesc, NI>(self.notifications@, *desc);
        }
        None
    }
}

/// Whether some entry of an association list names `i` in its action list.
spec fn entries_bind<K, A>(entries: Seq<(K, Vec<A>)>, i: A) -> bool {
    exists|e: int, p: int|
        0 <= e < entries.len() && 0 <= p < entries[e].1@.len() && #[trigger] entries[e].1@[p] == i
}

/// Whether `i` is named by an entry that comes strictly before position
/// `p` of entry `e`, in left-to-right reading order.
spec fn entries_bind_before<K, A>(entries: Seq<(K, Vec<A>)>, i: A, e: int, p: int) -> bool {
    exists|e2: int, p2: int|
        0 <= e2 < entries.len() && 0 <= p2 < entries[e2].1@.len() && #[trigger] entries[e2].1@[p2]
            == i && (e2 < e || (e2 == e && p2 < p))
}

proof fn lemma_binds_button_iff<BI: InputIndex, NI: InputIndex>(m: InputMap<BI, NI>, i: BI)
    requires
        m.wf(),
    ensures
        m.binds_button(i) <==> entries_bind(m.buttons@, i),
{
    let entries = m.buttons@;
    if m.binds_button(i) {
        let d = choose|d: InputDesc| #[trigger] m.button_actions(d).contains(i);
        match d {
            InputDesc::Key(kd) => {
                if !assoc_has(entries, kd) {
                    lemma_assoc_lookup_absent::<KeyDesc, BI>(entries, kd);
                } else {
                    let e = choose|e: int| 0 <= e < entries.len() && entries[e].0 == kd;
                    lemma_assoc_lookup_at(entries, e, kd);
                    let p = choose|p: int|
                        0 <= p < entries[e].1@.len() && #[trigger] entries[e].1@[p] == i;
                    assert(entries_bind(entries, i));
                }
            }
            InputDesc::Signal(_) => {}
        }
    }
    if entries_bind(entries, i) {
        let (e, p) = choose|e: int, p: int|
            0 <= e < entries.len() && 0 <= p < entries[e].1@.len() && #[trigger] entries[e].1@[p]
                == i;
        lemma_assoc_lookup_at(entries, e, entries[e].0);
        assert(m.button_actions(InputDesc::Key(entries[e].0)).contains(i));
    }
}

/// Whether a list of action identifiers contains `id`.
fn contains_id<A: InputIndex>(ids: &Vec<A>, id: A) -> (b: bool)
    ensures
        b == ids@.contains(id),
{
    let n = ids.len();
    let mut k: usize = 0;
    while k < n
        invariant
            k <= n,
            n == ids@.len(),
            forall|w: int| 0 <= w < k ==> ids@[w] != id,
        decreases n - k,
    {
        if ids[k].eq_id(&id) {
            proof {
                assert(ids@[k as int] == id);
            }
            return true;
        }
        k += 1;
    }
    false
}

impl<BI: InputIndex, NI: InputIndex> InputMap<BI, NI> {
    /// Returns the identifiers of the button actions bound by this map:
    /// each action with at least one description bound to it, each listed
    /// once.
    pub fn bound_buttons(&self) -> (r: Vec<BI>)
        requires
            self.wf(),
        ensures
            forall|i: BI| #[trigger] r@.contains(i) <==> self.binds_button(i),
            forall|x: int, y: int| 0 <= x < y < r@.len() ==> r@[x] != r@[y],
    {
        let ghost entries = self.buttons@;
        let mut r: Vec<BI> = Vec::new();
        let n = self.buttons.len();
        let mut e: usize = 0;
        while e < n
            invariant
                e <= n,
                n == self.buttons@.len(),
                self.wf(),
                entries == self.buttons@,
                forall|x: int, y: int| 0 <= x < y < r@.len() ==> r@[x] != r@[y],
                forall|w: int|
                    0 <= w < r@.len() ==> entries_bind_before(entries, #[trigger] r@[w], e as int, 0),
                forall|e2: int, p2: int|
                    0 <= e2 < e && 0 <= p2 < entries[e2].1@.len() ==> r@.contains(
                        #[trigger] entries[e2].1@[p2],
                    ),
            decreases n - e,
        {
            let ids = &self.buttons[e].1;
            let m2 = ids.len();
            let mut p: usize = 0;
            while p < m2
                invariant
                    p <= m2,
                    m2 == ids@.len(),
                    e < n,
                    n == self.buttons@.len(),
                    entries == self.buttons@,
                    ids@ == entries[e as int].1@,
                    forall|x: int, y: int| 0 <= x < y < r@.len() ==> r@[x] != r@[y],
                    forall|w: int|
                        0 <= w < r@.len() ==> entries_bind_before(
                            entries,
                            #[trigger] r@[w],
                            e as int,
                            p as int,
                        ),
                    forall|e2: int, p2: int|
                        0 <= e2 < entries.len() && 0 <= p2 < entries[e2].1@.len() && (e2 < e || (e2
                            == e && p2 < p)) ==> r@.contains(#[trigger] entries[e2].1@[p2]),
                decreases m2 - p,
            {
                let id = ids[p];
                let ghost r_old = r@;
                if !contains_id(&r, id) {
                    r.push(id);
                }
                proof {
                    assert(entries[e as int].1@[p as int] == id);
                    assert(r@.contains(id)) by {
                        if r_old.contains(id) {
                            let w = choose|w: int| 0 <= w < r_old.len() && r_old[w] == id;
                            assert(r@[w] == id);
                        } else {
                            assert(r@[r@.len() - 1] == id);
                        }
                    }
                    assert forall|w: int| 0 <= w < r@.len() implies entries_bind_before(
                        entries,
                        #[trigger] r@[w],
                        e as int,
                        p as int + 1,
                    ) by {
                        if w < r_old.len() {
                            assert(r@[w] == r_old[w]);
                            assert(entries_bind_before(entries, r@[w], e as int, p as int));
                        } else {
                            assert(r@[w] == id);
                        }
                    }
                    assert forall|e2: int, p2: int|
                        0 <= e2 < entries.len() && 0 <= p2 < entries[e2].1@.len() && (e2 < e || (e2
                            == e && p2 < p + 1)) implies r@.contains(
                        #[trigger] entries[e2].1@[p2],
                    ) by {
                        if e2 == e && p2 == p {
                        } else {
                            assert(r_old.contains(entries[e2].1@[p2]));
                            let w = choose|w: int|
                                0 <= w < r_old.len() && r_old[w] == entries[e2].1@[p2];
                            assert(r@[w] == entries[e2].1@[p2]);
                        }
                    }
                }
                p += 1;
            }
            proof {
                assert forall|w: int| 0 <= w < r@.len() implies entries_bind_before(
                    entries,
                    #[trigger] r@[w],
                    e as int + 1,
                    0,
                ) by {
                    assert(entries_bind_before(entries, r@[w], e as int, m2 as int));
                }
            }
            e += 1;
        }
        proof {
            assert forall|i: BI| r@.contains(i) <==> self.binds_button(i) by {
                lemma_binds_button_iff(*self, i);
                if r@.contains(i) {
                    let w = choose|w: int| 0 <= w < r@.len() && r@[w] == i;
                    assert(entries_bind_before(entries, r@[w], n as int, 0));
                    assert(entries_bind(entries, i));
                }
                if entries_bind(entries, i) {
                    let (e2, p2) = choose|e2: int, p2: int|
                        0 <= e2 < entries.len() && 0 <= p2 < entries[e2].1@.len()
                            && #[trigger] entries[e2].1@[p2] == i;
                    assert(r@.contains(entries[e2].1@[p2]));
                }
            }
        }
        r
    }

    /// Returns every input source currently bound to the given button
    /// action, each listed once.
    pub fn button_sources(&self, action: BI) -> (r: Vec<ButtonUpdateSource>)
        requires
            self.wf(),
        ensures
            forall|s: ButtonUpdateSource| #[trigger]
                r@.contains(s) <==> self.button_actions(s.spec_desc()).contains(action),
            forall|x: int, y: int| 0 <= x < y < r@.len() ==> r@[x] != r@[y],
    {
        let ghost entries = self.buttons@;
        let mut r: Vec<ButtonUpdateSource> = Vec::new();
        let n = self.buttons.len();
        let mut e: usize = 0;
        while e < n
            invariant
                e <= n,
                n == self.buttons@.len(),
                self.wf(),
                entries == self.buttons@,
                forall|x: int, y: int| 0 <= x < y < r@.len() ==> r@[x] != r@[y],
                forall|w: int|
                    0 <= w < r@.len() ==> exists|e2: int|
                        0 <= e2 < e && #[trigger] r@[w] == ButtonUpdateSource::Key(entries[e2].0)
                            && entries[e2].1@.contains(action),
                forall|e2: int|
                    0 <= e2 < e && (#[trigger] entries[e2].1@).contains(action) ==> r@.contains(
                        ButtonUpdateSource::Key(entries[e2].0),
                    ),
            decreases n - e,
        {
            let ghost r_old = r@;
            let bound_here = contains_id(&self.buttons[e].1, action);
            if bound_here {
                let src = ButtonUpdateSource::Key(self.buttons[e].0);
                proof {
                    assert forall|w: int| 0 <= w < r_old.len() implies r_old[w] != src by {
                        let e2 = choose|e2: int|
                            0 <= e2 < e && r_old[w] == ButtonUpdateSource::Key(entries[e2].0)
                                && entries[e2].1@.contains(action);
                        assert(entries[e2].0 != entries[e as int].0);
                    }
                }
                r.push(src);
            }
            proof {
                assert forall|w: int| 0 <= w < r@.len() implies exists|e2: int|
                    0 <= e2 < e + 1 && #[trigger] r@[w] == ButtonUpdateSource::Key(entries[e2].0)
                        && entries[e2].1@.contains(action) by {
                    if w < r_old.len() {
                        assert(r@[w] == r_old[w]);
                        let e2 = choose|e2: int|
                            0 <= e2 < e && r_old[w] == ButtonUpdateSource::Key(entries[e2].0)
                                && entries[e2].1@.contains(action);
                        assert(0 <= e2 < e + 1 && r@[w] == ButtonUpdateSource::Key(entries[e2].0)
                            && entries[e2].1@.contains(action));
                    } else {
                        assert(r@[w] == ButtonUpdateSource::Key(entries[e as int].0));
                        assert(0 <= (e as int) < e + 1 && r@[w] == ButtonUpdateSource::Key(
                            entries[e as int].0,
                        ) && entries[e as int].1@.contains(action));
                    }
                }
                assert forall|e2: int|
                    0 <= e2 < e + 1 && (#[trigger] entries[e2].1@).contains(
                        action,
                    ) implies r@.contains(ButtonUpdateSource::Key(entries[e2].0)) by {
                    if e2 == e {
                        assert(r@[r@.len() - 1] == ButtonUpdateSource::Key(entries[e as int].0));
                    } else {
                        assert(r_old.contains(ButtonUpdateSource::Key(entries[e2].0)));
                        let w = choose|w: int|
                            0 <= w < r_old.len() && r_old[w] == ButtonUpdateSource::Key(
                                entries[e2].0,
                            );
                        assert(r@[w] == ButtonUpdateSource::Key(entries[e2].0));
                    }
                }
            }
            e += 1;
        }
        proof {
            assert forall|s: ButtonUpdateSource|
                r@.contains(s) <==> self.button_actions(s.spec_desc()).contains(action) by {
                let ButtonUpdateSource::Key(kd) = s;
                if r@.contains(s) {
                    let w = choose|w: int| 0 <= w < r@.len() && r@[w] == s;
                    let e2 = choose|e2: int|
                        0 <= e2 < n && #[trigger] r@[w] == ButtonUpdateSource::Key(entries[e2].0)
                            && entries[e2].1@.contains(action);
                    lemma_assoc_lookup_at(entries, e2, kd);
                }
                if self.button_actions(s.spec_desc()).contains(action) {
                    if !assoc_has(entries, kd) {
                        lemma_assoc_lookup_absent::<KeyDesc, BI>(entries, kd);
                    } else {
                        let e2 = choose|e2: int| 0 <= e2 < entries.len() && entries[e2].0 == kd;
                        lemma_assoc_lookup_at(entries, e2, kd);
                        assert(r@.contains(ButtonUpdateSource::Key(entries[e2].0)));
                    }
                }
            }
        }
        r
    }
}

impl<BI: InputIndex, NI: InputIndex> InputMap<BI, NI> {
    /// Copies every button binding of `other` whose action is not bound by
    /// this map: a table of user-set bindings is completed with defaults
    /// from a fallback table without overriding anything the user set.
    ///
    /// An action already bound here — even to different descriptions — is
    /// left exactly as it was; an action bound only in `other` receives
    /// each of `other`'s descriptions for it once. Notification bindings
    /// are not touched.
    pub fn add_unbound_buttons_from(&mut self, other: &InputMap<BI, NI>)
        requires
            old(self).wf(),
            other.wf(),
        ensures
            final(self).wf(),
            forall|d: InputDesc|
                final(self).signal_actions(d) == old(self).signal_actions(d),
            forall|d: InputDesc|
                (#[trigger] final(self).button_actions(d)).len() >= old(self).button_actions(
                    d,
                ).len(),
            forall|d: InputDesc, nn: int|
                0 <= nn < old(self).button_actions(d).len()
                    ==> #[trigger] final(self).button_actions(d)[nn]
                    == old(self).button_actions(d)[nn],
            forall|d: InputDesc, nn: int|
                old(self).button_actions(d).len() <= nn < final(self).button_actions(d).len()
                    ==> !old(self).binds_button(#[trigger] final(self).button_actions(d)[nn])
                    && other.button_actions(d).contains(final(self).button_actions(d)[nn]),
            forall|d: InputDesc, i: BI|
                #[trigger] final(self).button_actions(d).contains(i)
                    <==> (old(self).button_actions(d).contains(i)
                    || (!old(self).binds_button(i) && other.button_actions(d).contains(i))),
            forall|d: InputDesc, n1: int, n2: int|
                old(self).button_actions(d).len() <= n1 < n2 < final(self).button_actions(d).len()
                    ==> final(self).button_actions(d)[n1] != final(self).button_actions(d)[n2],
    {
        let ghost orig = *old(self);
        let bound = other.bound_buttons();
        let own = self.bound_buttons();
        let ghost bseq = bound@;
        let tb = bound.len();
        let mut t: usize = 0;
        proof {
            assert(bseq.take(0) =~= Seq::<BI>::empty());
        }
        while t < tb
            invariant
                t <= tb,
                tb == bseq.len(),
                bound@ == bseq,
                other.wf(),
                self.wf(),
                orig == *old(self),
                orig.wf(),
                forall|i: BI| #[trigger] bseq.contains(i) <==> other.binds_button(i),
                forall|x: int, y: int| 0 <= x < y < bseq.len() ==> bseq[x] != bseq[y],
                forall|i: BI| #[trigger] own@.contains(i) <==> orig.binds_button(i),
                forall|d: InputDesc| self.signal_actions(d) == orig.signal_actions(d),
                forall|d: InputDesc|
                    (#[trigger] self.button_actions(d)).len() >= orig.button_actions(d).len(),
                forall|d: InputDesc, nn: int|
                    0 <= nn < orig.button_actions(d).len() ==> #[trigger] self.button_actions(
                        d,
                    )[nn] == orig.button_actions(d)[nn],
                forall|d: InputDesc, nn: int|
                    orig.button_actions(d).len() <= nn < self.button_actions(d).len() ==> {
                        &&& !orig.binds_button(#[trigger] self.button_actions(d)[nn])
                        &&& other.button_actions(d).contains(self.button_actions(d)[nn])
                        &&& bseq.take(t as int).contains(self.button_actions(d)[nn])
                    },
                forall|d: InputDesc, i: BI|
                    (!orig.binds_button(i) && #[trigger] other.button_actions(d).contains(i)
                        && bseq.take(t as int).contains(i)) ==> self.button_actions(d).contains(i),
                forall|d: InputDesc, n1: int, n2: int|
                    orig.button_actions(d).len() <= n1 < n2 < self.button_actions(d).len()
                        ==> self.button_actions(d)[n1] != self.button_actions(d)[n2],
            decreases tb - t,
        {
            let b = bound[t];
            proof {
                assert(bseq[t as int] == b);
                assert(bseq.take(t as int + 1) =~= bseq.take(t as int).push(b));
                assert(!bseq.take(t as int).contains(b)) by {
                    if bseq.take(t as int).contains(b) {
                        let w = choose|w: int| 0 <= w < t && #[trigger] bseq.take(t as int)[w] == b;
                        assert(bseq[w] == bseq[t as int]);
                    }
                }
            }
            if !contains_id(&own, b) {
                let sources = other.button_sources(b);
                let ghost sseq = sources@;
                let ghost mid = *self;
                let ns = sources.len();
                let mut s: usize = 0;
                while s < ns
                    invariant
                        s <= ns,
                        ns == sseq.len(),
                        sources@ == sseq,
                        self.wf(),
                        mid.wf(),
                        forall|x: int, y: int| 0 <= x < y < sseq.len() ==> sseq[x] != sseq[y],
                        forall|src: ButtonUpdateSource| #[trigger]
                            sseq.contains(src) <==> other.button_actions(src.spec_desc()).contains(
                                b,
                            ),
                        forall|d: InputDesc| self.signal_actions(d) == mid.signal_actions(d),
                        forall|d: InputDesc|
                            #[trigger] self.button_actions(d) == mid.button_actions(d) + (
                            if (exists|w: int|
                                0 <= w < s && (#[trigger] sseq[w]).spec_desc() == d) {
                                seq![b]
                            } else {
                                Seq::<BI>::empty()
                            }),
                    decreases ns - s,
                {
                    let src = sources[s];
                    let ghost pre = *self;
                    self.add_button(b, src);
                    proof {
                        let d0 = src.spec_desc();
                        assert(!(exists|w: int|
                            0 <= w < s && (#[trigger] sseq[w]).spec_desc() == d0)) by {
                            if exists|w: int| 0 <= w < s && (#[trigger] sseq[w]).spec_desc() == d0 {
                                let w = choose|w: int|
                                    0 <= w < s && (#[trigger] sseq[w]).spec_desc() == d0;
                                assert(sseq[w] == src);
                            }
                        }
                        assert(pre.button_actions(d0) =~= mid.button_actions(d0));
                        assert forall|d: InputDesc| #[trigger] self.button_actions(d)
                            == mid.button_actions(d) + (if (exists|w: int|
                            0 <= w < s + 1 && (#[trigger] sseq[w]).spec_desc() == d) {
                            seq![b]
                        } else {
                            Seq::<BI>::empty()
                        }) by {
                            if d == d0 {
                                assert(sseq[s as int].spec_desc() == d);
                                assert(self.button_actions(d) =~= mid.button_actions(d)
                                    + seq![b]);
                            } else {
                                assert(self.button_actions(d) == pre.button_actions(d));
                                assert((exists|w: int|
                                    0 <= w < s + 1 && (#[trigger] sseq[w]).spec_desc() == d)
                                    == (exists|w: int|
                                    0 <= w < s && (#[trigger] sseq[w]).spec_desc() == d)) by {
                                    if exists|w: int|
                                        0 <= w < s + 1 && (#[trigger] sseq[w]).spec_desc() == d {
                                        let w = choose|w: int|
                                            0 <= w < s + 1 && (#[trigger] sseq[w]).spec_desc()
                                                == d;
                                        assert(w != s);
                                    }
                                }
                            }
                        }
                    }
                    s += 1;
                }
                proof {
                    assert forall|d: InputDesc| #[trigger] self.button_actions(d)
                        == mid.button_actions(d) + (if other.button_actions(d).contains(b) {
                        seq![b]
                    } else {
                        Seq::<BI>::empty()
                    }) by {
                        assert((exists|w: int|
                            0 <= w < ns && (#[trigger] sseq[w]).spec_desc() == d)
                            == other.button_actions(d).contains(b)) by {
                            if exists|w: int| 0 <= w < ns && (#[trigger] sseq[w]).spec_desc() == d {
                                let w = choose|w: int|
                                    0 <= w < ns && (#[trigger] sseq[w]).spec_desc() == d;
                                assert(sseq.contains(sseq[w]));
                            }
                            if other.button_actions(d).contains(b) {
                                match d {
                                    InputDesc::Key(kd) => {
                                        let src2 = ButtonUpdateSource::Key(kd);
                                        assert(sseq.contains(src2));
                                        let w = choose|w: int|
                                            0 <= w < ns && sseq[w] == src2;
                                        assert(sseq[w].spec_desc() == d);
                                    }
                                    InputDesc::Signal(_) => {
                                        other.lemma_signal_desc_has_no_buttons(d);
                                    }
                                }
                            }
                        }
                    }
                    lemma_merge_outer_step(orig, mid, *self, *other, bseq, t as int, b);
                }
            } else {
                proof {
                    assert forall|d: InputDesc, i: BI|
                        (!orig.binds_button(i) && #[trigger] other.button_actions(d).contains(i)
                            && bseq.take(t as int + 1).contains(i)) implies self.button_actions(
                        d,
                    ).contains(i) by {
                        if i == b {
                        } else {
                            assert(bseq.take(t as int).contains(i)) by {
                                let w = choose|w: int|
                                    0 <= w < t + 1 && #[trigger] bseq.take(t as int + 1)[w] == i;
                                assert(w != t);
                                assert(bseq.take(t as int)[w] == i);
                            }
                        }
                    }
                    assert forall|d: InputDesc, nn: int|
                        orig.button_actions(d).len() <= nn < self.button_actions(d).len() implies {
                        &&& !orig.binds_button(#[trigger] self.button_actions(d)[nn])
                        &&& other.button_actions(d).contains(self.button_actions(d)[nn])
                        &&& bseq.take(t as int + 1).contains(self.button_actions(d)[nn])
                    } by {
                        assert(bseq.take(t as int).contains(self.button_actions(d)[nn]));
                        let w = choose|w: int|
                            0 <= w < t && #[trigger] bseq.take(t as int)[w] == self.button_actions(
                                d,
                            )[nn];
                        assert(bseq.take(t as int + 1)[w] == self.button_actions(d)[nn]);
                    }
                }
            }
            t += 1;
        }
        proof {
            assert(bseq.take(tb as int) =~= bseq);
            assert forall|d: InputDesc, i: BI| #[trigger] self.button_actions(d).contains(i)
                <==> (orig.button_actions(d).contains(i) || (!orig.binds_button(i)
                && other.button_actions(d).contains(i))) by {
                if self.button_actions(d).contains(i) {
                    let nn = choose|nn: int|
                        0 <= nn < self.button_actions(d).len() && self.button_actions(d)[nn] == i;
                    if nn < orig.button_actions(d).len() {
                        assert(orig.button_actions(d).contains(i)) by {
                            assert(orig.button_actions(d)[nn] == i);
                        }
                    }
                }
                if orig.button_actions(d).contains(i) {
                    let nn = choose|nn: int|
                        0 <= nn < orig.button_actions(d).len() && orig.button_actions(d)[nn] == i;
                    assert(self.button_actions(d)[nn] == i);
                }
                if !orig.binds_button(i) && other.button_actions(d).contains(i) {
                    assert(other.binds_button(i));
                    assert(bseq.contains(i));
                }
            }
        }
    }
}

/// One step of the merge: the bindings gained while processing one
/// fallback action keep every invariant of the outer pass.
proof fn lemma_merge_outer_step<BI: InputIndex, NI: InputIndex>(
    orig: InputMap<BI, NI>,
    mid: InputMap<BI, NI>,
    cur: InputMap<BI, NI>,
    other: InputMap<BI, NI>,
    bseq: Seq<BI>,
    t: int,
    b: BI,
)
    requires
        0 <= t < bseq.len(),
        bseq[t] == b,
        !bseq.take(t).contains(b),
        !orig.binds_button(b),
        forall|d: InputDesc|
            #[trigger] cur.button_actions(d) == mid.button_actions(d) + (
            if other.button_actions(d).contains(b) {
                seq![b]
            } else {
                Seq::<BI>::empty()
            }),
        forall|d: InputDesc|
            (#[trigger] mid.button_actions(d)).len() >= orig.button_actions(d).len(),
        forall|d: InputDesc, nn: int|
            0 <= nn < orig.button_actions(d).len() ==> #[trigger] mid.button_actions(d)[nn]
                == orig.button_actions(d)[nn],
        forall|d: InputDesc, nn: int|
            orig.button_actions(d).len() <= nn < mid.button_actions(d).len() ==> {
                &&& !orig.binds_button(#[trigger] mid.button_actions(d)[nn])
                &&& other.button_actions(d).contains(mid.button_actions(d)[nn])
                &&& bseq.take(t).contains(mid.button_actions(d)[nn])
            },
        forall|d: InputDesc, i: BI|
            (!orig.binds_button(i) && #[trigger] other.button_actions(d).contains(i)
                && bseq.take(t).contains(i)) ==> mid.button_actions(d).contains(i),
        forall|d: InputDesc, n1: int, n2: int|
            orig.button_actions(d).len() <= n1 < n2 < mid.button_actions(d).len()
                ==> mid.button_actions(d)[n1] != mid.button_actions(d)[n2],
    ensures
        forall|d: InputDesc|
            (#[trigger] cur.button_actions(d)).len() >= orig.button_actions(d).len(),
        forall|d: InputDesc, nn: int|
            0 <= nn < orig.button_actions(d).len() ==> #[trigger] cur.button_actions(d)[nn]
                == orig.button_actions(d)[nn],
        forall|d: InputDesc, nn: int|
            orig.button_actions(d).len() <= nn < cur.button_actions(d).len() ==> {
                &&& !orig.binds_button(#[trigger] cur.button_actions(d)[nn])
                &&& other.button_actions(d).contains(cur.button_actions(d)[nn])
                &&& bseq.take(t + 1).contains(cur.button_actions(d)[nn])
            },
        forall|d: InputDesc, i: BI|
            (!orig.binds_button(i) && #[trigger] other.button_actions(d).contains(i)
                && bseq.take(t + 1).contains(i)) ==> cur.button_actions(d).contains(i),
        forall|d: InputDesc, n1: int, n2: int|
            orig.button_actions(d).len() <= n1 < n2 < cur.button_actions(d).len()
                ==> cur.button_actions(d)[n1] != cur.button_actions(d)[n2],
{
    assert(bseq.take(t + 1) =~= bseq.take(t).push(b));
    assert forall|d: InputDesc, nn: int|
        orig.button_actions(d).len() <= nn < cur.button_actions(d).len() implies {
        &&& !orig.binds_button(#[trigger] cur.button_actions(d)[nn])
        &&& other.button_actions(d).contains(cur.button_actions(d)[nn])
        &&& bseq.take(t + 1).contains(cur.button_actions(d)[nn])
    } by {
        if nn < mid.button_actions(d).len() {
            assert(cur.button_actions(d)[nn] == mid.button_actions(d)[nn]);
            assert(bseq.take(t).contains(mid.button_actions(d)[nn]));
            let w = choose|w: int|
                0 <= w < t && #[trigger] bseq.take(t)[w] == mid.button_actions(d)[nn];
            assert(bseq.take(t + 1)[w] == mid.button_actions(d)[nn]);
        } else {
            assert(other.button_actions(d).contains(b));
            assert(cur.button_actions(d)[nn] == b);
            assert(bseq.take(t + 1)[t] == b);
        }
    }
    assert forall|d: InputDesc, i: BI|
        (!orig.binds_button(i) && #[trigger] other.button_actions(d).contains(i) && bseq.take(
            t + 1,
        ).contains(i)) implies cur.button_actions(d).contains(i) by {
        if i == b {
            assert(cur.button_actions(d)[cur.button_actions(d).len() - 1] == b);
        } else {
            assert(bseq.take(t).contains(i)) by {
                let w = choose|w: int| 0 <= w < t + 1 && #[trigger] bseq.take(t + 1)[w] == i;
                assert(w != t);
                assert(bseq.take(t)[w] == i);
            }
            assert(mid.button_actions(d).contains(i));
            let nn = choose|nn: int|
                0 <= nn < mid.button_actions(d).len() && mid.button_actions(d)[nn] == i;
            assert(cur.button_actions(d)[nn] == i);
        }
    }
    assert forall|d: InputDesc, n1: int, n2: int|
        orig.button_actions(d).len() <= n1 < n2 < cur.button_actions(d).len() implies cur
        .button_actions(d)[n1] != cur.button_actions(d)[n2] by {
        if n2 < mid.button_actions(d).len() {
        } else {
            assert(cur.button_actions(d)[n2] == b);
            if n1 < mid.button_actions(d).len() {
                assert(bseq.take(t).contains(mid.button_actions(d)[n1]));
            }
        }
    }
}

/// How many entries of a binding list name the action `i`: each occurrence
/// produces an independent mutation at apply time.
pub open spec fn occurrences<A>(ids: Seq<A>, i: A) -> nat {
    ids.filter(|x: A| x == i).len()
}

/// The value of a button slot after one button change has been applied to
/// it `n` times in a row. Presses and releases are idempotent; repeats
/// accumulate, saturating at the counter's maximum.
pub open spec fn button_apply_many(v: ButtonValue, change: ButtonChange, n: nat) -> ButtonValue {
    if n == 0 {
        v
    } else {
        match change {
            ButtonChange::Pressed => ButtonValue { pressed: true, held: true, ..v },
            ButtonChange::Released => ButtonValue { released: true, held: false, ..v },
            ButtonChange::Repeated => ButtonValue {
                repeats: if v.repeats + n <= 255 {
                    (v.repeats + n) as u8
                } else {
                    255u8
                },
                ..v
            },
        }
    }
}

/// Applying a change once more is one further transition of the button
/// state machine.
pub proof fn lemma_button_apply_many_step(v: ButtonValue, change: ButtonChange, n: nat)
    ensures
        button_apply_many(v, change, n + 1) == button_transition(
            button_apply_many(v, change, n),
            change,
        ),
{
}

/// Appending a binding adds one occurrence of that action and none of any
/// other.
pub proof fn lemma_occurrences_push<A>(ids: Seq<A>, x: A, i: A)
    ensures
        occurrences(ids.push(x), i) == occurrences(ids, i) + (if x == i {
            1nat
        } else {
            0nat
        }),
{
    reveal(Seq::filter);
    let pushed = ids.push(x);
    assert(pushed.drop_last() =~= ids);
    assert(pushed.last() == x);
}

/// A list with no bindings names no action.
pub proof fn lemma_occurrences_empty<A>(i: A)
    ensures
        occurrences(Seq::<A>::empty(), i) == 0,
{
    reveal(Seq::filter);
}

/// The value of button action `i` after one input change is dispatched
/// through map `m`, starting from value `v`.
///
/// A key change applies its transition once per binding of the key to `i`;
/// a signal change never touches a button slot.
pub open spec fn button_after_change<BI: InputIndex, NI: InputIndex>(
    m: InputMap<BI, NI>,
    c: InputChange,
    i: BI,
    v: ButtonValue,
) -> ButtonValue {
    match c {
        InputChange::Key(kd, bc) => button_apply_many(
            v,
            bc,
            occurrences(m.button_actions(InputDesc::Key(kd)), i),
        ),
        InputChange::Signal(_) => v,
    }
}

/// The value of signal action `j` after one input change is dispatched
/// through map `m`, starting from value `v`.
///
/// A signal change raises the flag of every action its description is
/// bound to; a key press does the same for key-bound signal actions; a key
/// release or repeat routed to a signal action is ignored.
pub open spec fn signal_after_change<BI: InputIndex, NI: InputIndex>(
    m: InputMap<BI, NI>,
    c: InputChange,
    j: NI,
    v: bool,
) -> bool {
    match c {
        InputChange::Key(kd, bc) => v || (bc is Pressed && m.signal_actions(
            InputDesc::Key(kd),
        ).contains(j)),
        InputChange::Signal(s) => v || m.signal_actions(InputDesc::Signal(s)).contains(j),
    }
}

/// The value of button action `i` after a whole list of changes is
/// dispatched in order through map `m`, starting from value `v`.
pub open spec fn button_after_changes<BI: InputIndex, NI: InputIndex>(
    m: InputMap<BI, NI>,
    cs: Seq<InputChange>,
    i: BI,
    v: ButtonValue,
) -> ButtonValue
    decreases cs.len(),
{
    if cs.len() == 0 {
        v
    } else {
        button_after_change(m, cs.last(), i, button_after_changes(m, cs.drop_last(), i, v))
    }
}

/// The value of signal action `j` after a whole list of changes is
/// dispatched in order through map `m`, starting from value `v`.
pub open spec fn signal_after_changes<BI: InputIndex, NI: InputIndex>(
    m: InputMap<BI, NI>,
    cs: Seq<InputChange>,
    j: NI,
    v: bool,
) -> bool
    decreases cs.len(),
{
    if cs.len() == 0 {
        v
    } else {
        signal_after_change(m, cs.last(), j, signal_after_changes(m, cs.drop_last(), j, v))
    }
}

/// Whether state `after` is exactly state `before` with the changes `cs`
/// dispatched through map `m`: every button and signal slot holds the
/// folded value, and no slot appears or disappears.
pub open spec fn state_after_changes<S: InputState>(
    m: InputMap<S::ButtonId, S::SignalId>,
    before: S,
    after: S,
    cs: Seq<InputChange>,
) -> bool {
    &&& forall|i: S::ButtonId| after.valid_button(i) == before.valid_button(i)
    &&& forall|j: S::SignalId| after.valid_signal(j) == before.valid_signal(j)
    &&& forall|i: S::ButtonId|
        before.valid_button(i) ==> after.button_of(i) == button_after_changes(
            m,
            cs,
            i,
            before.button_of(i),
        )
    &&& forall|j: S::SignalId|
        before.valid_signal(j) ==> after.signal_of(j) == signal_after_changes(
            m,
            cs,
            j,
            before.signal_of(j),
        )
}

/// Applies one button change to every listed action slot, in list order.
fn apply_button_ids<S: InputState>(ids: &Vec<S::ButtonId>, bc: ButtonChange, state: &mut S)
    requires
        forall|k: int| 0 <= k < ids@.len() ==> old(state).valid_button(#[trigger] ids@[k]),
    ensures
        forall|i: S::ButtonId| final(state).valid_button(i) == old(state).valid_button(i),
        forall|j: S::SignalId| final(state).valid_signal(j) == old(state).valid_signal(j),
        forall|j: S::SignalId|
            old(state).valid_signal(j) ==> final(state).signal_of(j) == old(state).signal_of(j),
        forall|i: S::ButtonId|
            old(state).valid_button(i) ==> final(state).button_of(i) == button_apply_many(
                old(state).button_of(i),
                bc,
                occurrences(ids@, i),
            ),
{
    let len = ids.len();
    proof {
        assert forall|i: S::ButtonId| occurrences(ids@.take(0), i) == 0 by {
            assert(ids@.take(0) =~= Seq::<S::ButtonId>::empty());
            lemma_occurrences_empty::<S::ButtonId>(i);
        }
    }
    let mut k: usize = 0;
    while k < len
        invariant
            k <= len,
            len == ids@.len(),
            forall|k2: int| 0 <= k2 < ids@.len() ==> old(state).valid_button(#[trigger] ids@[k2]),
            forall|i: S::ButtonId| state.valid_button(i) == old(state).valid_button(i),
            forall|j: S::SignalId| state.valid_signal(j) == old(state).valid_signal(j),
            forall|j: S::SignalId|
                old(state).valid_signal(j) ==> state.signal_of(j) == old(state).signal_of(j),
            forall|i: S::ButtonId|
                old(state).valid_button(i) ==> state.button_of(i) == button_apply_many(
                    old(state).button_of(i),
                    bc,
                    occurrences(ids@.take(k as int), i),
                ),
        decreases len - k,
    {
        let id = ids[k];
        let b = state.get_button(&id);
        b.apply_change(bc);
        proof {
            assert(ids@.take(k as int + 1) =~= ids@.take(k as int).push(ids@[k as int]));
            assert forall|i: S::ButtonId| old(state).valid_button(i) implies state.button_of(i)
                == button_apply_many(
                old(state).button_of(i),
                bc,
                occurrences(ids@.take(k as int + 1), i),
            ) by {
                lemma_occurrences_push(ids@.take(k as int), ids@[k as int], i);
                if i == id {
                    lemma_button_apply_many_step(
                        old(state).button_of(i),
                        bc,
                        occurrences(ids@.take(k as int), i),
                    );
                }
            }
        }
        k += 1;
    }
    proof {
        assert(ids@.take(len as int) =~= ids@);
    }
}

/// Raises the one-shot flag of every listed action slot.
fn raise_signal_ids<S: InputState>(ids: &Vec<S::SignalId>, state: &mut S)
    requires
        forall|k: int| 0 <= k < ids@.len() ==> old(state).valid_signal(#[trigger] ids@[k]),
    ensures
        forall|i: S::ButtonId| final(state).valid_button(i) == old(state).valid_button(i),
        forall|j: S::SignalId| final(state).valid_signal(j) == old(state).valid_signal(j),
        forall|i: S::ButtonId|
            old(state).valid_button(i) ==> final(state).button_of(i) == old(state).button_of(i),
        forall|j: S::SignalId|
            old(state).valid_signal(j) ==> final(state).signal_of(j) == (old(state).signal_of(j)
                || ids@.contains(j)),
{
    let len = ids.len();
    let mut k: usize = 0;
    while k < len
        invariant
            k <= len,
            len == ids@.len(),
            forall|k2: int| 0 <= k2 < ids@.len() ==> old(state).valid_signal(#[trigger] ids@[k2]),
            forall|i: S::ButtonId| state.valid_button(i) == old(state).valid_button(i),
            forall|j: S::SignalId| state.valid_signal(j) == old(state).valid_signal(j),
            forall|i: S::ButtonId|
                old(state).valid_button(i) ==> state.button_of(i) == old(state).button_of(i),
            forall|j: S::SignalId|
                old(state).valid_signal(j) ==> state.signal_of(j) == (old(state).signal_of(j)
                    || ids@.take(k as int).contains(j)),
        decreases len - k,
    {
        let id = ids[k];
        let s = state.get_signal(&id);
        *s = true;
        proof {
            assert forall|j: S::SignalId| old(state).valid_signal(j) implies state.signal_of(j) == (
            old(state).signal_of(j) || ids@.take(k as int + 1).contains(j)) by {
                if j == id {
                    assert(ids@.take(k as int + 1)[k as int] == id);
                    assert(ids@.take(k as int + 1).contains(id));
                } else {
                    assert(ids@.take(k as int + 1).contains(j) == ids@.take(k as int).contains(j))
                        by {
                        if ids@.take(k as int + 1).contains(j) {
                            let w = choose|w: int|
                                0 <= w < k + 1 && #[trigger] ids@.take(k as int + 1)[w] == j;
                            assert(w != k);
                            assert(ids@.take(k as int)[w] == j);
                        }
                        if ids@.take(k as int).contains(j) {
                            let w = choose|w: int|
                                0 <= w < k && #[trigger] ids@.take(k as int)[w] == j;
                            assert(ids@.take(k as int + 1)[w] == j);
                        }
                    }
                }
            }
        }
        k += 1;
    }
    proof {
        assert(ids@.take(len as int) =~= ids@);
    }
}

impl<BI: InputIndex, NI: InputIndex> InputMap<BI, NI> {
    /// Dispatches a single change: looks its description up in both
    /// binding categories and updates every matched action slot.
    fn apply_one_change<S: InputState<ButtonId = BI, SignalId = NI>>(
        &self,
        change: InputChange,
        state: &mut S,
    )
        requires
            self.wf(),
            forall|d: InputDesc, i: BI| #[trigger]
                self.button_actions(d).contains(i) ==> old(state).valid_button(i),
            forall|d: InputDesc, j: NI| #[trigger]
                self.signal_actions(d).contains(j) ==> old(state).valid_signal(j),
        ensures
            forall|i: BI| final(state).valid_button(i) == old(state).valid_button(i),
            forall|j: NI| final(state).valid_signal(j) == old(state).valid_signal(j),
            forall|i: BI|
                old(state).valid_button(i) ==> final(state).button_of(i) == button_after_change(
                    *self,
                    change,
                    i,
                    old(state).button_of(i),
                ),
            forall|j: NI|
                old(state).valid_signal(j) ==> final(state).signal_of(j) == signal_after_change(
                    *self,
                    change,
                    j,
                    old(state).signal_of(j),
                ),
    {
        match change {
            InputChange::Key(kd, bc) => {
                match self.button_list(&kd) {
                    Some(ids) => {
                        proof {
                            assert forall|k2: int|
                                0 <= k2 < ids@.len() implies old(state).valid_button(
                                #[trigger] ids@[k2],
                            ) by {
                                assert(self.button_actions(InputDesc::Key(kd)).contains(
                                    ids@[k2],
                                ));
                            }
                        }
                        apply_button_ids::<S>(ids, bc, state);
                    }
                    None => {
                        proof {
                            assert forall|i: BI|
                                button_after_change(*self, change, i, old(state).button_of(i))
                                    == old(state).button_of(i) by {
                                lemma_occurrences_empty::<BI>(i);
                            }
                        }
                    }
                }
                let ghost mid = *state;
                match bc {
                    ButtonChange::Pressed => {
                        let desc = InputDesc::Key(kd);
                        match self.notification_list(&desc) {
                            Some(nids) => {
                                proof {
                                    assert forall|k2: int|
                                        0 <= k2 < nids@.len() implies mid.valid_signal(
                                        #[trigger] nids@[k2],
                                    ) by {
                                        assert(self.signal_actions(desc).contains(nids@[k2]));
                                    }
                                }
                                raise_signal_ids::<S>(nids, state);
                            }
                            None => {}
                        }
                    }
                    _ => {}
                }
            }
            InputChange::Signal(sig) => {
                let desc = InputDesc::Signal(sig);
                proof {
                    self.lemma_signal_desc_has_no_buttons(desc);
                    assert forall|i: BI|
                        button_after_change(*self, change, i, old(state).button_of(i)) == old(
                            state,
                        ).button_of(i) by {
                        lemma_occurrences_empty::<BI>(i);
                    }
                }
                match self.notification_list(&desc) {
                    Some(nids) => {
                        proof {
                            assert forall|k2: int|
                                0 <= k2 < nids@.len() implies old(state).valid_signal(
                                #[trigger] nids@[k2],
                            ) by {
                                assert(self.signal_actions(desc).contains(nids@[k2]));
                            }
                        }
                        raise_signal_ids::<S>(nids, state);
                    }
                    None => {}
                }
            }
        }
    }

    /// Applies a single input change to the input state.
    ///
    /// The change's description is looked up independently in the button
    /// and the signal binding lists, and every matched action slot is
    /// updated by its category's rule; an unbound description is a no-op.
    pub fn apply_change<S: InputState<ButtonId = BI, SignalId = NI>>(
        &self,
        change: InputChange,
        state: &mut S,
    )
        requires
            self.wf(),
            forall|d: InputDesc, i: BI| #[trigger]
                self.button_actions(d).contains(i) ==> old(state).valid_button(i),
            forall|d: InputDesc, j: NI| #[trigger]
                self.signal_actions(d).contains(j) ==> old(state).valid_signal(j),
        ensures
            forall|i: BI| final(state).valid_button(i) == old(state).valid_button(i),
            forall|j: NI| final(state).valid_signal(j) == old(state).valid_signal(j),
            forall|i: BI|
                old(state).valid_button(i) ==> final(state).button_of(i) == button_after_change(
                    *self,
                    change,
                    i,
                    old(state).button_of(i),
                ),
            forall|j: NI|
                old(state).valid_signal(j) ==> final(state).signal_of(j) == signal_after_change(
                    *self,
                    change,
                    j,
                    old(state).signal_of(j),
                ),
    {
        self.apply_one_change(change, state);
    }

    /// Applies a list of input changes to the input state, in order.
    ///
    /// Every change's description is looked up independently in the button
    /// and the signal binding lists, and every matched action slot is
    /// updated by its category's rule; an unbound description is a no-op,
    /// and never stops the dispatch of further changes.
    pub fn apply_changes<S: InputState<ButtonId = BI, SignalId = NI>>(
        &self,
        changes: &Vec<InputChange>,
        state: &mut S,
    )
        requires
            self.wf(),
            forall|d: InputDesc, i: BI| #[trigger]
                self.button_actions(d).contains(i) ==> old(state).valid_button(i),
            forall|d: InputDesc, j: NI| #[trigger]
                self.signal_actions(d).contains(j) ==> old(state).valid_signal(j),
        ensures
            state_after_changes(*self, *old(state), *final(state), changes@),
    {
        let n = changes.len();
        let mut c: usize = 0;
        proof {
            assert(changes@.take(0) =~= Seq::<InputChange>::empty());
        }
        while c < n
            invariant
                c <= n,
                n == changes@.len(),
                self.wf(),
                forall|d: InputDesc, i: BI| #[trigger]
                    self.button_actions(d).contains(i) ==> old(state).valid_button(i),
                forall|d: InputDesc, j: NI| #[trigger]
                    self.signal_actions(d).contains(j) ==> old(state).valid_signal(j),
                forall|i: BI| state.valid_button(i) == old(state).valid_button(i),
                forall|j: NI| state.valid_signal(j) == old(state).valid_signal(j),
                forall|i: BI|
                    old(state).valid_button(i) ==> state.button_of(i) == button_after_changes(
                        *self,
                        changes@.take(c as int),
                        i,
                        old(state).button_of(i),
                    ),
                forall|j: NI|
                    old(state).valid_signal(j) ==> state.signal_of(j) == signal_after_changes(
                        *self,
                        changes@.take(c as int),
                        j,
                        old(state).signal_of(j),
                    ),
            decreases n - c,
        {
            let ghost mid = *state;
            let change = changes[c];
            self.apply_one_change(change, state);
            proof {
                assert(changes@.take(c as int + 1).drop_last() =~= changes@.take(c as int));
                assert(changes@.take(c as int + 1).last() == changes@[c as int]);
                assert forall|i: BI| old(state).valid_button(i) implies state.button_of(i)
                    == button_after_changes(
                    *self,
                    changes@.take(c as int + 1),
                    i,
                    old(state).button_of(i),
                ) by {
                    assert(state.button_of(i) == button_after_change(
                        *self,
                        change,
                        i,
                        mid.button_of(i),
                    ));
                }
                assert forall|j: NI| old(state).valid_signal(j) implies state.signal_of(j)
                    == signal_after_changes(
                    *self,
                    changes@.take(c as int + 1),
                    j,
                    old(state).signal_of(j),
                ) by {
                    assert(state.signal_of(j) == signal_after_change(
                        *self,
                        change,
                        j,
                        mid.signal_of(j),
                    ));
                }
            }
            c += 1;
        }
        proof {
            assert(changes@.take(n as int) =~= changes@);
        }
    }

    /// Applies the changes described by the given event to the input
    /// state.
    ///
    /// The event is asked to describe its changes; whatever list it hands
    /// back is dispatched exactly as [`InputMap::apply_changes`] would
    /// dispatch it.
    pub fn apply<E: DescribeInputChanges, S: InputState<ButtonId = BI, SignalId = NI>>(
        &self,
        event: &E,
        state: &mut S,
    )
        requires
            self.wf(),
            forall|d: InputDesc, i: BI| #[trigger]
                self.button_actions(d).contains(i) ==> old(state).valid_button(i),
            forall|d: InputDesc, j: NI| #[trigger]
                self.signal_actions(d).contains(j) ==> old(state).valid_signal(j),
        ensures
            forall|i: BI| final(state).valid_button(i) == old(state).valid_button(i),
            forall|j: NI| final(state).valid_signal(j) == old(state).valid_signal(j),
            exists|cs: Seq<InputChange>| #[trigger]
                state_after_changes(*self, *old(state), *final(state), cs),
    {
        let changes = event.describe_changes();
        self.apply_changes(&changes, state);
        proof {
            assert(state_after_changes(*self, *old(state), *final(state), changes@));
        }
    }
}

} // verus!
