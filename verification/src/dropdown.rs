//! Drop-down panels: a panel that opens under a field and keeps its own
//! state. The panel works with its own messages; only when a value is chosen
//! is a message for the application produced.
use vstd::prelude::*;

verus! {

/// The answer to a panel's own message.
#[derive(Debug, Clone, PartialEq, Eq)]
pub struct Reaction<Message> {
    /// The message to pass to the application.
    pub publish: Option<Message>,
    /// Whether the panel closes.
    pub close: bool,
}

impl<Message> Reaction<Message> {
    /// Only the panel's state changed.
    pub fn stay() -> (r: Self)
        ensures
            r.publish is None,
            !r.close,
    {
        Reaction { publish: None, close: false }
    }

    /// The message is passed on; the panel stays open.
    pub fn publish(message: Message) -> (r: Self)
        ensures
            r.publish == Some(message),
            !r.close,
    {
        Reaction { publish: Some(message), close: false }
    }

    /// The message is passed on and the panel closes.
    pub fn commit(message: Message) -> (r: Self)
        ensures
            r.publish == Some(message),
            r.close,
    {
        Reaction { publish: Some(message), close: true }
    }

    /// The panel closes.
    pub fn close() -> (r: Self)
        ensures
            r.publish is None,
            r.close,
    {
        Reaction { publish: None, close: true }
    }
}

/// Whether the panel is open, its own state while it is, and a revision
/// that grows with each opening, closing and message, so that the panel is
/// rebuilt only when its state changed.
pub struct PanelState<S> {
    pub open: Option<S>,
    pub revision: u64,
}

impl<S> PanelState<S> {
    /// Closed, at revision 0.
    pub fn new() -> (s: Self)
        ensures
            s.open is None,
            s.revision == 0,
    {
        PanelState { open: None, revision: 0 }
    }

    /// Opens the panel with the state that `init` builds, or closes it.
    pub fn toggle<F: FnOnce() -> S>(&mut self, init: F)
        requires
            old(self).revision < u64::MAX,
            old(self).open is None ==> init.requires(()),
        ensures
            final(self).revision == old(self).revision + 1,
            old(self).open is Some ==> final(self).open is None,
            old(self).open is None ==> final(self).open is Some && init.ensures(
                (),
                final(self).open->0,
            ),
    {
        self.revision = self.revision + 1;
        let was_open = self.open.is_some();
        if was_open {
            self.open = None;
        } else {
            self.open = Some(init());
        }
    }
}

/// What happened while the panel was open, as the panel sees it.
#[derive(Debug, Clone, Copy, PartialEq, Eq, Structural)]
pub enum PanelInput {
    /// A mouse button was pressed: over the panel, over the field, and
    /// whether it was the right button.
    Press { over_panel: bool, over_anchor: bool, right: bool },
    /// Escape was pressed.
    Escape,
    /// The window lost the focus.
    Unfocused,
    /// Anything else; whether it is a mouse event over the panel.
    Other { mouse_over_panel: bool },
}

/// What the panel does with an input: whether it closes, whether the input
/// goes no further down, and whether the panel's content sees it.
#[derive(Debug, Clone, Copy, PartialEq, Eq, Structural)]
pub struct InputOutcome {
    pub close: bool,
    pub capture: bool,
    pub forward: bool,
}

/// A press outside the panel closes it, unless it is on the field itself;
/// a right press is left for a context menu. Escape closes the panel and
/// is taken; losing the focus closes it. Anything else goes to the
/// content, and mouse events over the panel go no further down.
pub open spec fn input_outcome(input: PanelInput) -> InputOutcome {
    match input {
        PanelInput::Press { over_panel, over_anchor, right } => if over_panel {
            InputOutcome { close: false, capture: true, forward: true }
        } else if over_anchor {
            InputOutcome { close: false, capture: false, forward: false }
        } else {
            InputOutcome { close: true, capture: !right, forward: false }
        },
        PanelInput::Escape => InputOutcome { close: true, capture: true, forward: false },
        PanelInput::Unfocused => InputOutcome { close: true, capture: false, forward: false },
        PanelInput::Other { mouse_over_panel } => InputOutcome {
            close: false,
            capture: mouse_over_panel,
            forward: true,
        },
    }
}

/// How many of the answers an open panel takes: all of them up to and with
/// the first that closes it.
pub open spec fn taken<Message>(reactions: Seq<Reaction<Message>>) -> int
    decreases reactions.len(),
{
    if reactions.len() == 0 {
        0
    } else if reactions[0].close {
        1
    } else {
        1 + taken(reactions.drop_first())
    }
}

/// The messages that the answers pass on, in order.
pub open spec fn published<Message>(reactions: Seq<Reaction<Message>>) -> Seq<Message>
    decreases reactions.len(),
{
    if reactions.len() == 0 {
        Seq::empty()
    } else {
        let last = reactions.last();
        published(reactions.drop_last()) + match last.publish {
            Some(m) => seq![m],
            None => Seq::empty(),
        }
    }
}

proof fn lemma_taken_bounds<Message>(reactions: Seq<Reaction<Message>>)
    ensures
        0 <= taken(reactions) <= reactions.len(),
        reactions.len() > 0 ==> taken(reactions) >= 1,
    decreases reactions.len(),
{
    if reactions.len() > 0 {
        lemma_taken_bounds(reactions.drop_first());
    }
}

impl<S> PanelState<S> {
    /// The panel's answer to an input while it is open: a closing input
    /// closes it and counts as a revision.
    pub fn input(&mut self, input: PanelInput) -> (r: InputOutcome)
        requires
            old(self).revision < u64::MAX,
        ensures
            r == input_outcome(input),
            r.close ==> final(self).open is None && final(self).revision == old(self).revision + 1,
            !r.close ==> *final(self) == *old(self),
    {
        let r = match input {
            PanelInput::Press { over_panel, over_anchor, right } => if over_panel {
                InputOutcome { close: false, capture: true, forward: true }
            } else if over_anchor {
                InputOutcome { close: false, capture: false, forward: false }
            } else {
                InputOutcome { close: true, capture: !right, forward: false }
            },
            PanelInput::Escape => InputOutcome { close: true, capture: true, forward: false },
            PanelInput::Unfocused => InputOutcome { close: true, capture: false, forward: false },
            PanelInput::Other { mouse_over_panel } => InputOutcome {
                close: false,
                capture: mouse_over_panel,
                forward: true,
            },
        };
        if r.close {
            self.open = None;
            self.revision = self.revision + 1;
        }
        r
    }

    /// Takes the answers to the content's messages in order while the panel
    /// is open: each counts as a revision and passes its message on to the
    /// application; the first that closes the panel ends the run, and the
    /// answers after it are dropped. Returns the messages passed on.
    pub fn answer<Message>(&mut self, reactions: Vec<Reaction<Message>>) -> (out: Vec<Message>)
        requires
            old(self).revision + reactions@.len() <= u64::MAX,
        ensures
            ({
                let n = if old(self).open is Some {
                    taken(reactions@)
                } else {
                    0
                };
                &&& final(self).revision == old(self).revision + n
                &&& out@ == published(reactions@.take(n))
                &&& final(self).open == if n > 0 && reactions@[n - 1].close {
                    None
                } else {
                    old(self).open
                }
            }),
    {
        let ghost all = reactions@;
        let ghost was_open = self.open is Some;
        let mut rest = reactions;
        let total = rest.len();
        assert(all.len() == total);
        let mut out: Vec<Message> = Vec::new();
        let mut i: usize = 0;
        proof {
            lemma_taken_bounds(all);
            assert(all.skip(0) =~= all);
            assert(all.take(0) =~= Seq::<Reaction<Message>>::empty());
        }
        while rest.len() > 0 && self.open.is_some()
            invariant
                i <= all.len(),
                all.len() <= usize::MAX,
                rest@ == all.skip(i as int),
                self.open is Some ==> forall|j: int| 0 <= j < i ==> !(#[trigger] all[j]).close,
                self.revision == old(self).revision + i,
                old(self).revision + all.len() <= u64::MAX,
                out@ == published(all.take(i as int)),
                was_open == (old(self).open is Some),
                self.open is Some ==> self.open == old(self).open && was_open && taken(all) == i
                    + taken(rest@),
                self.open is None ==> (if was_open {
                    i > 0 && all[i - 1].close && taken(all) == i
                } else {
                    i == 0
                }),
            decreases rest.len(),
        {
            let ghost before = rest@;
            assert(before.len() == all.len() - i);
            let reaction = rest.remove(0);
            proof {
                assert(reaction == all[i as int]);
                assert(rest@ =~= all.skip(i + 1));
                assert(all.take(i + 1).drop_last() =~= all.take(i as int));
                assert(all.take(i + 1).last() == reaction);
                assert(before.drop_first() =~= rest@);
                lemma_taken_bounds(rest@);
            }
            self.revision = self.revision + 1;
            let close = reaction.close;
            match reaction.publish {
                Some(message) => out.push(message),
                None => {},
            }
            if close {
                self.open = None;
            }
            i = i + 1;
            proof {
                assert(out@ =~= published(all.take(i as int)));
            }
        }
        proof {
            if self.open is Some {
                assert(rest@.len() == 0);
                assert(taken(all) == i);
            }
        }
        out
    }
}

} // verus!
