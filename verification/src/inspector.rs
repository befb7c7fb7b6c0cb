//! Object inspector: its passing state (texts being typed, the long-text
//! editors, picking from the map, the first values, the view preferences),
//! how it answers what happens in it, and how a reference to another object
//! is labelled.
use std::collections::{BTreeMap, BTreeSet};
use vstd::prelude::*;

use crate::text::{decimal, decimal_text, push_char, trim, trim_end, trimmed, trimmed_end};

verus! {

/// The identity of an object that a field refers to.
#[derive(Debug, Clone, Copy, PartialEq, Eq, Structural, Hash, PartialOrd, Ord)]
pub struct ObjectId(pub u64);

/// The name of the first candidate with the identity, or `#` and its
/// number.
pub open spec fn label_of(candidates: Seq<(ObjectId, Seq<char>)>, object: ObjectId) -> Seq<char>
    decreases candidates.len(),
{
    if candidates.len() == 0 {
        seq!['#'] + decimal(object.0 as nat)
    } else if candidates[0].0 == object {
        candidates[0].1
    } else {
        label_of(candidates.drop_first(), object)
    }
}

/// The candidates as identities and names.
pub open spec fn candidate_views(candidates: Seq<(ObjectId, String)>) -> Seq<(ObjectId, Seq<char>)> {
    candidates.map_values(|c: (ObjectId, String)| (c.0, c.1@))
}

/// How a referenced object is shown: the name it has among the candidates,
/// else `#` and its number.
pub fn object_label(candidates: &[(ObjectId, String)], object: ObjectId) -> (s: String)
    ensures
        s@ == label_of(candidate_views(candidates@), object),
{
    let ghost all = candidate_views(candidates@);
    let mut i: usize = 0;
    proof {
        assert(all.subrange(0, all.len() as int) =~= all);
    }
    while i < candidates.len()
        invariant
            0 <= i <= candidates@.len(),
            all == candidate_views(candidates@),
            label_of(all, object) == label_of(all.subrange(i as int, all.len() as int), object),
        decreases candidates@.len() - i,
    {
        let ghost rest = all.subrange(i as int, all.len() as int);
        if candidates[i].0 == object {
            proof {
                assert(rest[0] == all[i as int]);
            }
            return candidates[i].1.clone();
        }
        proof {
            assert(rest[0] == all[i as int]);
            assert(rest.drop_first() =~= all.subrange(i + 1, all.len() as int));
        }
        i = i + 1;
    }
    let mut s = String::new();
    push_char(&mut s, '#');
    let digits = decimal_text(object.0);
    s.append(digits.as_str());
    s
}

/// A field's number: the application's own.
pub type PropertyId = usize;

/// What happened in the inspector. `V` is the application's value type.
#[derive(Debug, PartialEq)]
pub enum Event<V> {
    /// A text input changed; `value` is the text read by the field's kind.
    Input { id: PropertyId, text: String, value: Result<V, String> },
    /// A value was chosen directly (a list, a calendar, a slider, the arrows).
    Select { id: PropertyId, value: V },
    /// Opens the long-text editor with the text.
    Edit { id: PropertyId, text: String },
    /// The long-text editor's text changed.
    EditorText { id: PropertyId, text: String },
    /// Closes the long-text editor; with `apply` its text is applied.
    CloseEditor { id: PropertyId, apply: bool },
    /// Asks to pick the value on the map; while picking, cancels it.
    Pick(PropertyId),
    /// Go to the object referred to.
    Navigate(PropertyId, ObjectId),
    /// Turns the field back to its value when the inspection began.
    Revert(PropertyId),
    /// Searching the fields.
    Filter(String),
    /// Alphabetical or by categories.
    Alphabetical(bool),
    /// Hides empty fields.
    HideEmpty(bool),
    /// Folds or unfolds a category.
    Collapse(String),
    /// The pointer came over the field; the help section explains it.
    Hover(PropertyId),
}

/// What the application has to do.
#[derive(Debug, Clone, PartialEq)]
pub enum Action<V> {
    /// The field's value changed.
    Change { id: PropertyId, value: V },
    /// The field's long text was applied: `None` when it is blank (the
    /// empty value), else the text without trailing white space.
    Text { id: PropertyId, text: Option<String> },
    /// The user wants to pick the field's value on the map.
    Pick(PropertyId),
    /// Picking on the map was cancelled.
    CancelPick,
    /// The user wants to go to the object referred to.
    Navigate { id: PropertyId, object: ObjectId },
}

/// Text being typed that is not, or not yet, a valid value.
#[derive(Debug, Clone, PartialEq)]
pub struct Draft {
    pub text: String,
    pub error: Option<String>,
}

/// The inspector's passing state.
pub struct State<V> {
    subject: Option<u64>,
    drafts: BTreeMap<PropertyId, Draft>,
    /// The fields whose draft has an error.
    failing: BTreeSet<PropertyId>,
    editors: BTreeMap<PropertyId, String>,
    picking: Option<PropertyId>,
    hovered: Option<PropertyId>,
    /// The fields' values when the inspection began.
    originals: BTreeMap<PropertyId, V>,
    filter: String,
    alphabetical: bool,
    hide_empty: bool,
    /// The folded categories, each once.
    collapsed: Vec<String>,
}

/// The inspector's state as plain values.
pub struct StateView<V> {
    pub subject: Option<u64>,
    pub drafts: Map<PropertyId, Draft>,
    pub editors: Map<PropertyId, Seq<char>>,
    pub picking: Option<PropertyId>,
    pub hovered: Option<PropertyId>,
    pub originals: Map<PropertyId, V>,
    pub filter: Seq<char>,
    pub alphabetical: bool,
    pub hide_empty: bool,
    pub collapsed: Set<Seq<char>>,
}

/// The texts as characters.
pub open spec fn text_views(texts: Seq<String>) -> Seq<Seq<char>> {
    texts.map_values(|t: String| t@)
}

impl<V> View for State<V> {
    type V = StateView<V>;

    closed spec fn view(&self) -> StateView<V> {
        StateView {
            subject: self.subject,
            drafts: self.drafts@,
            editors: self.editors@.map_values(|t: String| t@),
            picking: self.picking,
            hovered: self.hovered,
            originals: self.originals@,
            filter: self.filter@,
            alphabetical: self.alphabetical,
            hide_empty: self.hide_empty,
            collapsed: text_views(self.collapsed@).to_set(),
        }
    }
}

/// Whether some field's typed text has an error.
pub open spec fn any_error(drafts: Map<PropertyId, Draft>) -> bool {
    exists|id: PropertyId| drafts.contains_key(id) && (#[trigger] drafts[id]).error is Some
}

/// The state after `event`: a typed text is kept as the field's draft,
/// with its error if it is not a valid value; a chosen value drops the
/// draft; the long-text editor opens, follows its text and closes (an
/// applied text drops the draft); picking on the map toggles; a revert
/// drops the draft and the editor of a field whose first value is known;
/// the search and the view preferences take what was given, and a category
/// folds or unfolds.
pub open spec fn next_state<V>(s: StateView<V>, event: Event<V>) -> StateView<V> {
    match event {
        Event::Input { id, text, value } => match value {
            Ok(v) => StateView { drafts: s.drafts.insert(id, Draft { text, error: None }), ..s },
            Err(e) => StateView { drafts: s.drafts.insert(id, Draft { text, error: Some(e) }), ..s },
        },
        Event::Select { id, value } => StateView { drafts: s.drafts.remove(id), ..s },
        Event::Edit { id, text } => StateView { editors: s.editors.insert(id, text@), ..s },
        Event::EditorText { id, text } => if s.editors.contains_key(id) {
            StateView { editors: s.editors.insert(id, text@), ..s }
        } else {
            s
        },
        Event::CloseEditor { id, apply } => if !s.editors.contains_key(id) {
            s
        } else if !apply {
            StateView { editors: s.editors.remove(id), ..s }
        } else {
            StateView { editors: s.editors.remove(id), drafts: s.drafts.remove(id), ..s }
        },
        Event::Pick(id) => if s.picking == Some(id) {
            StateView { picking: None, ..s }
        } else {
            StateView { picking: Some(id), ..s }
        },
        Event::Navigate(id, object) => s,
        Event::Revert(id) => if s.originals.contains_key(id) {
            StateView { drafts: s.drafts.remove(id), editors: s.editors.remove(id), ..s }
        } else {
            s
        },
        Event::Filter(filter) => StateView { filter: filter@, ..s },
        Event::Alphabetical(alphabetical) => StateView { alphabetical, ..s },
        Event::HideEmpty(hide_empty) => StateView { hide_empty, ..s },
        Event::Collapse(category) => StateView {
            collapsed: if s.collapsed.contains(category@) {
                s.collapsed.remove(category@)
            } else {
                s.collapsed.insert(category@)
            },
            ..s
        },
        Event::Hover(id) => StateView { hovered: Some(id), ..s },
    }
}

/// The text of an answer's long text, as characters.
pub open spec fn text_view(text: Option<String>) -> Option<Seq<char>> {
    match text {
        Some(t) => Some(t@),
        None => None,
    }
}

/// What the application is told after `event` in the state `s`: a valid
/// typed value or a chosen one changes the field; an applied editor hands
/// its text over; a pick starts or is cancelled; a reference is followed; a
/// revert changes the field back to (a clone of) its first value, if it is
/// known. Nothing else is told.
pub open spec fn answer<V: Clone>(s: StateView<V>, event: Event<V>, r: Option<Action<V>>) -> bool {
    match event {
        Event::Input { id, text, value } => match value {
            Ok(v) => r == Some(Action::Change { id, value: v }),
            Err(e) => r is None,
        },
        Event::Select { id, value } => r == Some(Action::Change { id, value }),
        Event::CloseEditor { id, apply } => if s.editors.contains_key(id) && apply {
            r matches Some(Action::Text { id: i, text }) && i == id && text_view(text) == applied_text(
                s.editors[id],
            )
        } else {
            r is None
        },
        Event::Pick(id) => if s.picking == Some(id) {
            r == Some(Action::<V>::CancelPick)
        } else {
            r == Some(Action::<V>::Pick(id))
        },
        Event::Navigate(id, object) => r == Some(Action::<V>::Navigate { id, object }),
        Event::Revert(id) => if s.originals.contains_key(id) {
            r matches Some(Action::Change { id: i, value }) && i == id && cloned(s.originals[id], value)
        } else {
            r is None
        },
        _ => r is None,
    }
}

/// The long text an applied editor hands over: none if it is blank, else
/// the text without trailing white space.
pub open spec fn applied_text(text: Seq<char>) -> Option<Seq<char>> {
    if trim(trim_end(text)).len() == 0 {
        None
    } else {
        Some(trim_end(text))
    }
}

impl<V> State<V> {
    /// The fields with a failing draft are known, and each folded
    /// category is kept once.
    pub closed spec fn wf(self) -> bool {
        &&& self.failing@ == self.drafts@.dom().filter(|id: PropertyId| self.drafts@[id].error is Some)
        &&& text_views(self.collapsed@).no_duplicates()
    }

    /// Nothing inspected yet, every preference off.
    pub fn new() -> (s: Self)
        ensures
            s.wf(),
            s@.subject is None,
            s@.drafts == Map::<PropertyId, Draft>::empty(),
            s@.editors == Map::<PropertyId, Seq<char>>::empty(),
            s@.picking is None,
            s@.hovered is None,
            s@.originals == Map::<PropertyId, V>::empty(),
            s@.filter == Seq::<char>::empty(),
            !s@.alphabetical,
            !s@.hide_empty,
            s@.collapsed == Set::<Seq<char>>::empty(),
    {
        let s = State {
            subject: None,
            drafts: BTreeMap::new(),
            failing: BTreeSet::new(),
            editors: BTreeMap::new(),
            picking: None,
            hovered: None,
            originals: BTreeMap::new(),
            filter: String::new(),
            alphabetical: false,
            hide_empty: false,
            collapsed: Vec::new(),
        };
        proof {
            assert(s.failing@ =~= s.drafts@.dom().filter(|id: PropertyId| s.drafts@[id].error is Some));
            assert(text_views(s.collapsed@) =~= Seq::<Seq<char>>::empty());
            assert(s.editors@.map_values(|t: String| t@) =~= Map::<PropertyId, Seq<char>>::empty());
            assert(text_views(s.collapsed@).to_set() =~= Set::<Seq<char>>::empty());
        }
        s
    }

    /// The search text.
    pub fn filter(&self) -> (f: &str)
        ensures
            f@ == self@.filter,
    {
        self.filter.as_str()
    }

    /// Whether the fields are listed alphabetically.
    pub fn alphabetical(&self) -> (r: bool)
        ensures
            r == self@.alphabetical,
    {
        self.alphabetical
    }

    /// Whether empty fields are hidden.
    pub fn hide_empty(&self) -> (r: bool)
        ensures
            r == self@.hide_empty,
    {
        self.hide_empty
    }

    /// The field under the pointer.
    pub fn hovered(&self) -> (h: Option<PropertyId>)
        ensures
            h == self@.hovered,
    {
        self.hovered
    }

    /// The text of the field's open long-text editor.
    pub fn editor(&self, id: PropertyId) -> (t: Option<&String>)
        ensures
            match t {
                Some(t) => self@.editors.contains_key(id) && t@ == self@.editors[id],
                None => !self@.editors.contains_key(id),
            },
    {
        self.editors.get(&id)
    }

    /// The field waiting for a pick on the map.
    pub fn picking(&self) -> (p: Option<PropertyId>)
        ensures
            p == self@.picking,
    {
        self.picking
    }

    /// Picking on the map ended (picked or cancelled).
    pub fn stop_picking(&mut self)
        requires
            old(self).wf(),
        ensures
            final(self).wf(),
            final(self)@ == (StateView { picking: None, ..old(self)@ }),
    {
        self.picking = None;
    }

    /// Whether some field's typed text is not a valid value.
    pub fn has_errors(&self) -> (r: bool)
        requires
            self.wf(),
        ensures
            r == any_error(self@.drafts),
    {
        proof {
            if any_error(self@.drafts) {
                let id = choose|id: PropertyId| self@.drafts.contains_key(id) && (#[trigger] self@.drafts[id]).error is Some;
                assert(self.failing@.contains(id));
            }
        }
        !self.failing.is_empty()
    }

    /// The field's value when the inspection began, once it was shown.
    pub fn original(&self, id: PropertyId) -> (v: Option<&V>)
        ensures
            match v {
                Some(v) => self@.originals.contains_key(id) && *v == self@.originals[id],
                None => !self@.originals.contains_key(id),
            },
    {
        self.originals.get(&id)
    }

    /// Keeps the field's value as its first one, the first time it is shown.
    pub fn remember(&mut self, id: PropertyId, value: V)
        requires
            old(self).wf(),
        ensures
            final(self).wf(),
            final(self)@ == (StateView {
                originals: if old(self)@.originals.contains_key(id) {
                    old(self)@.originals
                } else {
                    old(self)@.originals.insert(id, value)
                },
                ..old(self)@
            }),
    {
        if !self.originals.contains_key(&id) {
            self.originals.insert(id, value);
        }
        proof {
            assert(final(self)@.originals =~= if old(self)@.originals.contains_key(id) {
                old(self)@.originals
            } else {
                old(self)@.originals.insert(id, value)
            });
        }
    }

    /// The text being typed in the field, and its error.
    pub fn draft(&self, id: PropertyId) -> (d: Option<&Draft>)
        ensures
            match d {
                Some(d) => self@.drafts.contains_key(id) && *d == self@.drafts[id],
                None => !self@.drafts.contains_key(id),
            },
    {
        self.drafts.get(&id)
    }

    /// Whether the category is folded.
    pub fn is_collapsed(&self, category: &str) -> (r: bool)
        ensures
            r == self@.collapsed.contains(category@),
    {
        self.find_collapsed(category).is_some()
    }

    fn find_collapsed(&self, category: &str) -> (r: Option<usize>)
        ensures
            match r {
                Some(i) => i < self.collapsed@.len() && self.collapsed@[i as int]@ == category@,
                None => !text_views(self.collapsed@).contains(category@),
            },
            r is Some <==> self@.collapsed.contains(category@),
    {
        let target = category.to_owned();
        let mut i: usize = 0;
        while i < self.collapsed.len()
            invariant
                i <= self.collapsed@.len(),
                target@ == category@,
                forall|j: int| 0 <= j < i ==> (#[trigger] self.collapsed@[j])@ != category@,
            decreases self.collapsed@.len() - i,
        {
            if self.collapsed[i] == target {
                proof {
                    assert(text_views(self.collapsed@)[i as int] == category@);
                }
                return Some(i);
            }
            i = i + 1;
        }
        proof {
            if text_views(self.collapsed@).contains(category@) {
                let j = choose|j: int| 0 <= j < text_views(self.collapsed@).len() && text_views(self.collapsed@)[j] == category@;
                assert(self.collapsed@[j]@ == category@);
            }
        }
        None
    }

    /// The inspected object changed: texts being typed, open editors,
    /// picking and first values are dropped; the search and the view
    /// preferences stay.
    pub fn inspect(&mut self, subject: Option<u64>)
        requires
            old(self).wf(),
        ensures
            final(self).wf(),
            old(self)@.subject == subject ==> final(self)@ == old(self)@,
            old(self)@.subject != subject ==> final(self)@ == (StateView {
                subject,
                drafts: Map::empty(),
                editors: Map::empty(),
                picking: None,
                hovered: None,
                originals: Map::empty(),
                ..old(self)@
            }),
    {
        if self.subject != subject {
            self.subject = subject;
            self.drafts = BTreeMap::new();
            self.failing = BTreeSet::new();
            self.editors = BTreeMap::new();
            self.picking = None;
            self.hovered = None;
            self.originals = BTreeMap::new();
            proof {
                assert(self.failing@ =~= self.drafts@.dom().filter(|id: PropertyId| self.drafts@[id].error is Some));
                assert(self.editors@.map_values(|t: String| t@) =~= Map::<PropertyId, Seq<char>>::empty());
            }
        }
    }
}

impl<V> State<V> {
    /// Keeps the draft, and whether it fails.
    fn put_draft(&mut self, id: PropertyId, draft: Draft)
        requires
            old(self).wf(),
        ensures
            final(self).wf(),
            final(self)@ == (StateView { drafts: old(self)@.drafts.insert(id, draft), ..old(self)@ }),
    {
        let fails = draft.error.is_some();
        self.drafts.insert(id, draft);
        if fails {
            self.failing.insert(id);
        } else {
            self.failing.remove(&id);
        }
        proof {
            assert(self.failing@ =~= self.drafts@.dom().filter(|k: PropertyId| self.drafts@[k].error is Some));
        }
    }

    /// Drops the field's draft.
    fn drop_draft(&mut self, id: PropertyId)
        requires
            old(self).wf(),
        ensures
            final(self).wf(),
            final(self)@ == (StateView { drafts: old(self)@.drafts.remove(id), ..old(self)@ }),
    {
        self.drafts.remove(&id);
        self.failing.remove(&id);
        proof {
            assert(self.failing@ =~= self.drafts@.dom().filter(|k: PropertyId| self.drafts@[k].error is Some));
        }
    }

    /// Drops the field's long-text editor, handing its text back.
    fn close_editor(&mut self, id: PropertyId) -> (text: Option<String>)
        requires
            old(self).wf(),
        ensures
            final(self).wf(),
            final(self)@ == (StateView { editors: old(self)@.editors.remove(id), ..old(self)@ }),
            match text {
                Some(t) => old(self)@.editors.contains_key(id) && t@ == old(self)@.editors[id],
                None => !old(self)@.editors.contains_key(id),
            },
    {
        let text = self.editors.remove(&id);
        proof {
            assert(self.editors@.map_values(|t: String| t@) =~= old(self)@.editors.remove(id));
        }
        text
    }

    /// Opens the field's long-text editor with the text, or replaces its text.
    fn put_editor(&mut self, id: PropertyId, text: String)
        requires
            old(self).wf(),
        ensures
            final(self).wf(),
            final(self)@ == (StateView { editors: old(self)@.editors.insert(id, text@), ..old(self)@ }),
    {
        self.editors.insert(id, text);
        proof {
            assert(self.editors@.map_values(|t: String| t@) =~= old(self)@.editors.insert(id, text@));
        }
    }

    /// Folds the category, or unfolds it if it is folded.
    fn toggle_collapsed(&mut self, category: String)
        requires
            old(self).wf(),
        ensures
            final(self).wf(),
            final(self)@ == (StateView {
                collapsed: if old(self)@.collapsed.contains(category@) {
                    old(self)@.collapsed.remove(category@)
                } else {
                    old(self)@.collapsed.insert(category@)
                },
                ..old(self)@
            }),
    {
        let ghost before = text_views(self.collapsed@);
        match self.find_collapsed(category.as_str()) {
            Some(i) => {
                self.collapsed.remove(i);
                proof {
                    let after = text_views(self.collapsed@);
                    assert(after =~= before.remove(i as int));
                    assert(before[i as int] == category@);
                    assert forall|x: Seq<char>| #[trigger] after.to_set().contains(x) <==> before.to_set().remove(category@).contains(x) by {
                        if after.to_set().contains(x) {
                            let j = choose|j: int| 0 <= j < after.len() && after[j] == x;
                            if j < i {
                                assert(before[j] == x);
                                assert(j != i);
                            } else {
                                assert(before[j + 1] == x);
                            }
                            assert(before.contains(x));
                        }
                        if before.to_set().remove(category@).contains(x) {
                            let j = choose|j: int| 0 <= j < before.len() && before[j] == x;
                            assert(j != i);
                            if j < i {
                                assert(after[j] == x);
                            } else {
                                assert(after[j - 1] == x);
                            }
                            assert(after.contains(x));
                        }
                    }
                    assert(after.to_set() =~= before.to_set().remove(category@));
                }
            },
            None => {
                self.collapsed.push(category);
                proof {
                    let after = text_views(self.collapsed@);
                    assert(after =~= before.push(category@));
                    assert forall|x: Seq<char>| #[trigger] after.to_set().contains(x) <==> before.to_set().insert(category@).contains(x) by {
                        if after.to_set().contains(x) {
                            let j = choose|j: int| 0 <= j < after.len() && after[j] == x;
                            if j < before.len() {
                                assert(before[j] == x);
                                assert(before.contains(x));
                            }
                        }
                        if before.to_set().insert(category@).contains(x) {
                            if x == category@ {
                                assert(after[before.len() as int] == x);
                            } else {
                                let j = choose|j: int| 0 <= j < before.len() && before[j] == x;
                                assert(after[j] == x);
                            }
                            assert(after.contains(x));
                        }
                    }
                    assert(after.to_set() =~= before.to_set().insert(category@));
                }
            },
        }
    }
}

impl<V> Default for State<V> {
    /// As `new`: nothing inspected yet.
    fn default() -> (s: Self)
        ensures
            s.wf(),
            s@.drafts == Map::<PropertyId, Draft>::empty(),
            s@.editors == Map::<PropertyId, Seq<char>>::empty(),
            s@.originals == Map::<PropertyId, V>::empty(),
            s@.collapsed == Set::<Seq<char>>::empty(),
            s@.subject is None && s@.picking is None && s@.hovered is None,
            s@.filter == Seq::<char>::empty() && !s@.alphabetical && !s@.hide_empty,
    {
        State::new()
    }
}

impl<V: Clone> State<V> {
    /// Applies what happened; returns what the application has to do, if
    /// anything.
    pub fn update(&mut self, event: Event<V>) -> (r: Option<Action<V>>)
        requires
            old(self).wf(),
        ensures
            final(self).wf(),
            final(self)@ == next_state(old(self)@, event),
            answer(old(self)@, event, r),
    {
        let ghost s = self@;
        let ghost e = event;
        match event {
            Event::Input { id, text, value } => match value {
                Ok(v) => {
                    self.put_draft(id, Draft { text, error: None });
                    Some(Action::Change { id, value: v })
                },
                Err(error) => {
                    self.put_draft(id, Draft { text, error: Some(error) });
                    None
                },
            },
            Event::Select { id, value } => {
                self.drop_draft(id);
                Some(Action::Change { id, value })
            },
            Event::Edit { id, text } => {
                self.put_editor(id, text);
                None
            },
            Event::EditorText { id, text } => {
                if self.editors.contains_key(&id) {
                    self.put_editor(id, text);
                }
                None
            },
            Event::CloseEditor { id, apply } => {
                match self.close_editor(id) {
                    None => {
                        proof {
                            assert(s.editors.remove(id) =~= s.editors);
                        }
                        None
                    },
                    Some(content) => {
                        if apply {
                            let end = trimmed_end(content.as_str());
                            let text = if trimmed(end).unicode_len() == 0 {
                                None
                            } else {
                                Some(end.to_owned())
                            };
                            self.drop_draft(id);
                            Some(Action::Text { id, text })
                        } else {
                            None
                        }
                    },
                }
            },
            Event::Pick(id) => {
                if self.picking == Some(id) {
                    self.picking = None;
                    Some(Action::CancelPick)
                } else {
                    self.picking = Some(id);
                    Some(Action::Pick(id))
                }
            },
            Event::Navigate(id, object) => Some(Action::Navigate { id, object }),
            Event::Revert(id) => {
                let value = match self.originals.get(&id) {
                    Some(original) => original.clone(),
                    None => {
                        return None;
                    },
                };
                self.drop_draft(id);
                self.close_editor(id);
                Some(Action::Change { id, value })
            },
            Event::Filter(filter) => {
                self.filter = filter;
                None
            },
            Event::Alphabetical(alphabetical) => {
                self.alphabetical = alphabetical;
                None
            },
            Event::HideEmpty(hide_empty) => {
                self.hide_empty = hide_empty;
                None
            },
            Event::Collapse(category) => {
                self.toggle_collapsed(category);
                None
            },
            Event::Hover(id) => {
                self.hovered = Some(id);
                None
            },
        }
    }
}

/// How many line feeds the text holds.
pub open spec fn newlines(s: Seq<char>) -> nat
    decreases s.len(),
{
    if s.len() == 0 {
        0
    } else {
        newlines(s.drop_last()) + if s.last() == '\n' {
            1nat
        } else {
            0nat
        }
    }
}

/// How many lines the text has, as std's `str::lines` reads it: a line
/// feed ends a line, and the last line needs none.
pub open spec fn line_count(s: Seq<char>) -> nat {
    if s.len() == 0 {
        0
    } else if s.last() == '\n' {
        newlines(s)
    } else {
        newlines(s) + 1
    }
}

/// Where the first line feed from `i` on stands, or the text's end.
pub open spec fn first_break(s: Seq<char>, i: int) -> int
    decreases s.len() - i,
{
    if i < 0 || i >= s.len() {
        s.len() as int
    } else if s[i] == '\n' {
        i
    } else {
        first_break(s, i + 1)
    }
}

/// The text's first line, without the carriage return before its line
/// feed.
pub open spec fn first_line(s: Seq<char>) -> Seq<char> {
    let e = first_break(s, 0);
    let line = s.subrange(0, e);
    if e < s.len() && line.len() > 0 && line.last() == '\r' {
        line.drop_last()
    } else {
        line
    }
}

/// How a long text shows in its cell: its first line, and how many lines
/// follow it.
pub fn long_text_preview(text: &str) -> (r: (String, usize))
    ensures
        r.0@ == first_line(text@),
        r.1 == if line_count(text@) > 0 {
            line_count(text@) - 1
        } else {
            0
        },
{
    let n = text.unicode_len();
    let ghost s = text@;
    let mut e: usize = 0;
    while e < n && text.get_char(e) != '\n'
        invariant
            e <= n,
            n == s.len(),
            s == text@,
            first_break(s, 0) == first_break(s, e as int),
        decreases n - e,
    {
        e = e + 1;
    }
    let mut end = e;
    if e < n && e > 0 && text.get_char(e - 1) == '\r' {
        end = e - 1;
    }
    let first = text.substring_char(0, end).to_owned();
    proof {
        assert(first_break(s, 0) == e);
        let line = s.subrange(0, e as int);
        if e < n && e > 0 && s[e - 1] == '\r' {
            assert(line.last() == s[e - 1]);
            assert(line.drop_last() =~= s.subrange(0, end as int));
        }
    }
    let mut count: usize = 0;
    let mut i: usize = 0;
    while i < n
        invariant
            i <= n,
            n == s.len(),
            s == text@,
            count == newlines(s.subrange(0, i as int)),
            count <= i,
            i > 0 && s[i - 1] != '\n' ==> count < i,
        decreases n - i,
    {
        proof {
            let p = s.subrange(0, i + 1);
            assert(p.drop_last() =~= s.subrange(0, i as int));
            assert(p.last() == s[i as int]);
        }
        if text.get_char(i) == '\n' {
            count = count + 1;
        }
        i = i + 1;
    }
    proof {
        assert(s.subrange(0, n as int) =~= s);
    }
    let lines = if n == 0 {
        0
    } else if text.get_char(n - 1) == '\n' {
        count
    } else {
        count + 1
    };
    (first, if lines > 0 {
        lines - 1
    } else {
        0
    })
}

} // verus!
