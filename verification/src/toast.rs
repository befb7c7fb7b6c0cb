//! Notifications: short messages stacked in the corner of an area that close
//! by themselves.
//!
//! - The severity gives the glyph and the colour of the remaining-time bar.
//! - An action (such as "Geri al") does its work and closes the notification.
//! - The newest notification is the one nearest the corner. At most three are
//!   shown; older ones are counted and can all be closed at once. A repeated
//!   notification is not stacked: its count grows, it becomes the newest and
//!   its time starts over.
//! - Information and success close after 5 seconds, a warning after 8; a
//!   notification with an action stays at least 8 seconds. An error does not
//!   close by itself. Time stands still while the pointer is over the stack.
//!
//! Times are whole milliseconds: durations are lengths and instants are
//! counted from an origin that the caller chooses.
use vstd::prelude::*;

use crate::severity::Severity;

verus! {

/// How many notifications are shown at once.
pub const VISIBLE: usize = 3;

/// Closing time of information and success, in milliseconds.
pub const SHORT: u64 = 5000;

/// Closing time of warnings and of notifications with an action.
pub const LONG: u64 = 8000;

/// The closing time that a severity starts with; errors do not close.
pub open spec fn default_duration(severity: Severity) -> Option<u64> {
    match severity {
        Severity::Info | Severity::Success => Some(SHORT),
        Severity::Warning => Some(LONG),
        Severity::Error => None,
    }
}

/// A notification's identity.
#[derive(Debug, Clone, Copy, PartialEq, Eq, Structural, Hash, PartialOrd, Ord)]
pub struct Id(u64);

impl Id {
    /// The number behind the identity.
    pub closed spec fn value(self) -> u64 {
        self.0
    }
}

/// A notification: severity, title, optional body and action.
#[derive(Debug, Clone)]
pub struct Toast<Message> {
    severity: Severity,
    title: String,
    body: Option<String>,
    action: Option<(String, Message)>,
    duration: Option<u64>,
}

/// What a notification holds, as plain values.
pub struct ToastView<Message> {
    pub severity: Severity,
    pub title: Seq<char>,
    pub body: Option<Seq<char>>,
    pub action: Option<(Seq<char>, Message)>,
    /// Milliseconds until it closes by itself; `None` if it never does.
    pub duration: Option<u64>,
}

pub open spec fn text_view(text: Option<String>) -> Option<Seq<char>> {
    match text {
        Some(s) => Some(s@),
        None => None,
    }
}

pub open spec fn action_view<Message>(action: Option<(String, Message)>) -> Option<
    (Seq<char>, Message),
> {
    match action {
        Some((label, message)) => Some((label@, message)),
        None => None,
    }
}

/// The label of an action, if there is one.
pub open spec fn action_label<Message>(action: Option<(Seq<char>, Message)>) -> Option<Seq<char>> {
    match action {
        Some((label, _)) => Some(label),
        None => None,
    }
}

/// Two notifications are the same when everything but the action's message
/// agrees.
pub open spec fn same_toast<Message>(a: ToastView<Message>, b: ToastView<Message>) -> bool {
    &&& a.severity == b.severity
    &&& a.title == b.title
    &&& a.body == b.body
    &&& action_label(a.action) == action_label(b.action)
}

/// A duration raised to at least `LONG`; `None` stays `None`.
pub open spec fn at_least_long(duration: Option<u64>) -> Option<u64> {
    match duration {
        Some(d) => Some(if d < LONG { LONG } else { d }),
        None => None,
    }
}

impl<Message> View for Toast<Message> {
    type V = ToastView<Message>;

    closed spec fn view(&self) -> ToastView<Message> {
        ToastView {
            severity: self.severity,
            title: self.title@,
            body: text_view(self.body),
            action: action_view(self.action),
            duration: self.duration,
        }
    }
}

fn same_text(a: &Option<String>, b: &Option<String>) -> (r: bool)
    ensures
        r == (text_view(*a) == text_view(*b)),
{
    match (a, b) {
        (Some(a), Some(b)) => *a == *b,
        (None, None) => true,
        _ => false,
    }
}

impl<Message> Toast<Message> {
    /// Information and success close after 5 seconds, warnings after 8;
    /// errors do not close.
    pub fn new(severity: Severity, title: &str) -> (t: Self)
        ensures
            t@.severity == severity,
            t@.title == title@,
            t@.body is None,
            t@.action is None,
            t@.duration == default_duration(severity),
    {
        Toast {
            severity,
            title: title.to_owned(),
            body: None,
            action: None,
            duration: match severity {
                Severity::Info | Severity::Success => Some(SHORT),
                Severity::Warning => Some(LONG),
                Severity::Error => None,
            },
        }
    }

    pub fn info(title: &str) -> (t: Self)
        ensures
            t@.severity == Severity::Info,
            t@.title == title@,
            t@.body is None,
            t@.action is None,
            t@.duration == Some(SHORT),
    {
        Self::new(Severity::Info, title)
    }

    pub fn success(title: &str) -> (t: Self)
        ensures
            t@.severity == Severity::Success,
            t@.title == title@,
            t@.body is None,
            t@.action is None,
            t@.duration == Some(SHORT),
    {
        Self::new(Severity::Success, title)
    }

    pub fn warning(title: &str) -> (t: Self)
        ensures
            t@.severity == Severity::Warning,
            t@.title == title@,
            t@.body is None,
            t@.action is None,
            t@.duration == Some(LONG),
    {
        Self::new(Severity::Warning, title)
    }

    pub fn error(title: &str) -> (t: Self)
        ensures
            t@.severity == Severity::Error,
            t@.title == title@,
            t@.body is None,
            t@.action is None,
            t@.duration is None,
    {
        Self::new(Severity::Error, title)
    }

    /// The text under the title; long text wraps.
    pub fn body(self, body: &str) -> (t: Self)
        ensures
            t@.body == Some(body@),
            t@.severity == self@.severity,
            t@.title == self@.title,
            t@.action == self@.action,
            t@.duration == self@.duration,
    {
        let mut t = self;
        t.body = Some(body.to_owned());
        t
    }

    /// An action button (such as "Geri al"): pressing it sends `message` and
    /// closes the notification. A notification with an action stays at
    /// least 8 seconds.
    pub fn action(self, label: &str, message: Message) -> (t: Self)
        ensures
            t@.action == Some((label@, message)),
            t@.duration == at_least_long(self@.duration),
            t@.severity == self@.severity,
            t@.title == self@.title,
            t@.body == self@.body,
    {
        let mut t = self;
        t.action = Some((label.to_owned(), message));
        t.duration = match t.duration {
            Some(d) => Some(if d < LONG { LONG } else { d }),
            None => None,
        };
        t
    }

    /// The closing time, in milliseconds.
    pub fn duration(self, duration: u64) -> (t: Self)
        ensures
            t@.duration == Some(duration),
            t@.severity == self@.severity,
            t@.title == self@.title,
            t@.body == self@.body,
            t@.action == self@.action,
    {
        let mut t = self;
        t.duration = Some(duration);
        t
    }

    /// Never closes by itself.
    pub fn sticky(self) -> (t: Self)
        ensures
            t@.duration is None,
            t@.severity == self@.severity,
            t@.title == self@.title,
            t@.body == self@.body,
            t@.action == self@.action,
    {
        let mut t = self;
        t.duration = None;
        t
    }

    pub fn severity(&self) -> (s: Severity)
        ensures
            s == self@.severity,
    {
        self.severity
    }

    pub fn title(&self) -> (s: &str)
        ensures
            s@ == self@.title,
    {
        self.title.as_str()
    }

    /// Milliseconds until it closes by itself; `None` if it never does.
    pub fn timeout(&self) -> (d: Option<u64>)
        ensures
            d == self@.duration,
    {
        self.duration
    }

    /// The same notification, apart from the action's message.
    fn same(&self, other: &Self) -> (r: bool)
        ensures
            r == same_toast(self@, other@),
    {
        if self.severity != other.severity {
            return false;
        }
        if self.title != other.title {
            return false;
        }
        if !same_text(&self.body, &other.body) {
            return false;
        }
        match (&self.action, &other.action) {
            (Some((a, _)), Some((b, _))) => *a == *b,
            (None, None) => true,
            _ => false,
        }
    }
}

/// A queued notification: identity, the notification, how many times it
/// came and how many times it was renewed.
#[derive(Debug, Clone)]
struct Item<Message> {
    id: Id,
    toast: Toast<Message>,
    count: u32,
    revision: u32,
}

/// A queued notification, as plain values.
pub struct ItemView<Message> {
    pub id: Id,
    pub toast: ToastView<Message>,
    /// How many times the same notification came.
    pub count: u32,
    /// Grows with each repetition; the notification's time starts over.
    pub revision: u32,
}

impl<Message> Item<Message> {
    closed spec fn view(self) -> ItemView<Message> {
        ItemView { id: self.id, toast: self.toast@, count: self.count, revision: self.revision }
    }
}

/// The notification queue, oldest first.
#[derive(Debug, Clone)]
pub struct Toasts<Message> {
    items: Vec<Item<Message>>,
    next: u64,
}

/// The queue as plain values: items oldest first, and the last identity
/// that was handed out.
pub struct ToastsView<Message> {
    pub items: Seq<ItemView<Message>>,
    pub next: u64,
}

impl<Message> View for Toasts<Message> {
    type V = ToastsView<Message>;

    closed spec fn view(&self) -> ToastsView<Message> {
        ToastsView { items: self.items@.map_values(|item: Item<Message>| item.view()), next: self.next }
    }
}

/// Whether some item has the identity.
pub open spec fn has_id<Message>(items: Seq<ItemView<Message>>, id: Id) -> bool {
    exists|i: int| 0 <= i < items.len() && #[trigger] items[i].id == id
}

/// `i` is the first item that is the same notification as `t`.
pub open spec fn first_same<Message>(
    items: Seq<ItemView<Message>>,
    t: ToastView<Message>,
    i: int,
) -> bool {
    &&& 0 <= i < items.len()
    &&& same_toast(items[i].toast, t)
    &&& forall|j: int| 0 <= j < i ==> !same_toast(#[trigger] items[j].toast, t)
}

/// Some item is the same notification as `t`.
pub open spec fn has_same<Message>(items: Seq<ItemView<Message>>, t: ToastView<Message>) -> bool {
    exists|i: int| 0 <= i < items.len() && same_toast(#[trigger] items[i].toast, t)
}

/// The item at `i`, with the identity `id`.
pub open spec fn item_at<Message>(items: Seq<ItemView<Message>>, i: int, id: Id) -> bool {
    0 <= i < items.len() && items[i].id == id
}

/// The identity numbered `n`.
pub closed spec fn make_id(n: u64) -> Id {
    Id(n)
}

pub proof fn lemma_make_id(n: u64)
    ensures
        make_id(n).value() == n,
        forall|id: Id| id.value() == n ==> id == make_id(n),
{
}

/// The first item that is the same notification as `t`.
pub open spec fn first_same_index<Message>(items: Seq<ItemView<Message>>, t: ToastView<Message>) -> int {
    choose|i: int| first_same(items, t, i)
}

/// The queue after pushing `t`, and the identity `t` gets: a repeated
/// notification takes the place of the newest with its count and renewal
/// count raised; a new one gets the next identity.
pub open spec fn push_result<Message>(q: ToastsView<Message>, t: ToastView<Message>) -> (
    ToastsView<Message>,
    Id,
) {
    if has_same(q.items, t) {
        let i = first_same_index(q.items, t);
        let old_item = q.items[i];
        (
            ToastsView {
                items: q.items.remove(i).push(
                    ItemView {
                        id: old_item.id,
                        toast: t,
                        count: (old_item.count + 1) as u32,
                        revision: (old_item.revision + 1) as u32,
                    },
                ),
                next: q.next,
            },
            old_item.id,
        )
    } else {
        let id = make_id((q.next + 1) as u64);
        (
            ToastsView {
                items: q.items.push(ItemView { id, toast: t, count: 1, revision: 0 }),
                next: (q.next + 1) as u64,
            },
            id,
        )
    }
}

/// The first same notification is only one.
pub proof fn lemma_first_same_unique<Message>(
    items: Seq<ItemView<Message>>,
    t: ToastView<Message>,
    i: int,
    j: int,
)
    requires
        first_same(items, t, i),
        first_same(items, t, j),
    ensures
        i == j,
{
    if i < j {
        assert(!same_toast(items[i].toast, t));
    }
    if j < i {
        assert(!same_toast(items[j].toast, t));
    }
}

/// If some item is the same notification, there is a first one.
pub proof fn lemma_first_same_exists<Message>(items: Seq<ItemView<Message>>, t: ToastView<Message>, k: int)
    requires
        0 <= k < items.len(),
        same_toast(items[k].toast, t),
    ensures
        exists|i: int| first_same(items, t, i),
    decreases k,
{
    if forall|j: int| 0 <= j < k ==> !same_toast(#[trigger] items[j].toast, t) {
        assert(first_same(items, t, k));
    } else {
        let j = choose|j: int| 0 <= j < k && !!same_toast(#[trigger] items[j].toast, t);
        lemma_first_same_exists(items, t, j);
    }
}

impl<Message> ToastsView<Message> {
    /// Identities are distinct, numbered from 1 up to `next`; each item came
    /// at least once and was renewed once less than it came; no two items are
    /// the same notification.
    pub open spec fn wf(self) -> bool {
        &&& forall|i: int, j: int|
            0 <= i < self.items.len() && 0 <= j < self.items.len() && i != j ==> #[trigger] self.items[i].id
                != #[trigger] self.items[j].id
        &&& forall|i: int|
            0 <= i < self.items.len() ==> 1 <= (#[trigger] self.items[i]).id.value() <= self.next
        &&& forall|i: int|
            0 <= i < self.items.len() ==> 1 <= (#[trigger] self.items[i]).count && self.items[i].revision
                + 1 == self.items[i].count
        &&& forall|i: int, j: int|
            0 <= i < self.items.len() && 0 <= j < self.items.len() && i != j ==> !same_toast(
                #[trigger] self.items[i].toast,
                #[trigger] self.items[j].toast,
            )
    }
}

impl<Message> Default for Toasts<Message> {
    /// No notifications.
    fn default() -> (q: Self)
        ensures
            q@.wf(),
            q@.items.len() == 0,
            q@.next == 0,
    {
        Toasts::new()
    }
}

impl<Message> Toasts<Message> {
    pub fn new() -> (q: Self)
        ensures
            q@.wf(),
            q@.items.len() == 0,
            q@.next == 0,
    {
        let q = Toasts { items: Vec::new(), next: 0 };
        assert(q@.items =~= Seq::<ItemView<Message>>::empty());
        q
    }

    /// Adds the notification. If the same one is already queued, no new one
    /// is added: its count grows, it becomes the newest and its time starts
    /// over. Returns the notification's identity.
    pub fn push(&mut self, toast: Toast<Message>) -> (id: Id)
        requires
            old(self)@.wf(),
            old(self)@.next < u64::MAX,
            forall|i: int|
                0 <= i < old(self)@.items.len() ==> (#[trigger] old(self)@.items[i]).count < u32::MAX,
        ensures
            final(self)@.wf(),
            final(self)@.items == push_result(old(self)@, toast@).0.items,
            final(self)@.next == push_result(old(self)@, toast@).0.next,
            id == push_result(old(self)@, toast@).1,
    {
        let ghost before = self@;
        let mut i: usize = 0;
        while i < self.items.len()
            invariant
                self@ == before,
                before == old(self)@,
                before.wf(),
                before.next < u64::MAX,
                forall|k: int| 0 <= k < before.items.len() ==> (#[trigger] before.items[k]).count < u32::MAX,
                0 <= i <= self.items.len(),
                forall|j: int| 0 <= j < i ==> !same_toast(#[trigger] before.items[j].toast, toast@),
            decreases self.items.len() - i,
        {
            if self.items[i].toast.same(&toast) {
                assert(before.items[i as int] == self.items[i as int].view());
                let mut item = self.items.remove(i);
                item.toast = toast;
                item.count = item.count + 1;
                item.revision = item.revision + 1;
                let id = item.id;
                self.items.push(item);
                proof {
                    let n = before.items.remove(i as int).push(item.view());
                    assert(self@.items =~= n);
                    assert(first_same(before.items, toast@, i as int));
                    assert(has_same(before.items, toast@));
                    let c = first_same_index(before.items, toast@);
                    assert(first_same(before.items, toast@, c));
                    lemma_first_same_unique(before.items, toast@, c, i as int);
                    assert forall|a: int, b: int|
                        0 <= a < n.len() && 0 <= b < n.len() && a != b implies #[trigger] n[a].id
                        != #[trigger] n[b].id by {
                        let oa = if a == n.len() - 1 {
                            i as int
                        } else if a < i {
                            a
                        } else {
                            a + 1
                        };
                        let ob = if b == n.len() - 1 {
                            i as int
                        } else if b < i {
                            b
                        } else {
                            b + 1
                        };
                        assert(n[a].id == before.items[oa].id);
                        assert(n[b].id == before.items[ob].id);
                    }
                    assert forall|a: int| 0 <= a < n.len() implies 1 <= (#[trigger] n[a]).id.value()
                        <= self@.next && 1 <= n[a].count && n[a].revision + 1 == n[a].count by {
                        if a < n.len() - 1 {
                            let oa = if a < i {
                                a
                            } else {
                                a + 1
                            };
                            assert(n[a] == before.items[oa]);
                        }
                    }
                }
                return id;
            }
            i = i + 1;
        }
        self.next = self.next + 1;
        let id = Id(self.next);
        let item = Item { id, toast, count: 1, revision: 0 };
        self.items.push(item);
        proof {
            assert(!has_same(before.items, toast@));
            assert(id == make_id(self.next));
            let n = before.items.push(item.view());
            assert(self@.items =~= n);
            assert forall|k: int| 0 <= k < before.items.len() implies !same_toast(
                #[trigger] before.items[k].toast,
                toast@,
            ) by {}
            assert forall|a: int, b: int|
                0 <= a < n.len() && 0 <= b < n.len() && a != b implies #[trigger] n[a].id
                != #[trigger] n[b].id by {
                if a < before.items.len() && b < before.items.len() {
                } else if a < before.items.len() {
                    assert(n[a].id.value() <= before.next);
                } else {
                    assert(n[b].id.value() <= before.next);
                }
            }
            assert forall|a: int| 0 <= a < n.len() implies 1 <= (#[trigger] n[a]).id.value()
                <= self@.next && 1 <= n[a].count && n[a].revision + 1 == n[a].count by {
                if a < before.items.len() {
                    assert(n[a] == before.items[a]);
                }
            }
        }
        id
    }

    /// Closes the notification; `false` if there is none with the identity.
    pub fn dismiss(&mut self, id: Id) -> (found: bool)
        requires
            old(self)@.wf(),
        ensures
            final(self)@.wf(),
            final(self)@.next == old(self)@.next,
            found == has_id(old(self)@.items, id),
            found ==> exists|i: int|
                item_at(old(self)@.items, i, id) && final(self)@.items == old(self)@.items.remove(i),
            !found ==> final(self)@.items == old(self)@.items,
            !has_id(final(self)@.items, id),
    {
        let ghost before = self@;
        let mut i: usize = 0;
        while i < self.items.len()
            invariant
                self@ == before,
                before == old(self)@,
                before.wf(),
                0 <= i <= self.items.len(),
                forall|j: int| 0 <= j < i ==> before.items[j].id != id,
            decreases self.items.len() - i,
        {
            if self.items[i].id == id {
                assert(before.items[i as int].id == id);
                self.items.remove(i);
                proof {
                    let n = before.items.remove(i as int);
                    assert(self@.items =~= n);
                    assert(item_at(before.items, i as int, id));
                    assert forall|a: int, b: int|
                        0 <= a < n.len() && 0 <= b < n.len() && a != b implies #[trigger] n[a].id
                        != #[trigger] n[b].id by {
                        let oa = if a < i {
                            a
                        } else {
                            a + 1
                        };
                        let ob = if b < i {
                            b
                        } else {
                            b + 1
                        };
                        assert(n[a] == before.items[oa]);
                        assert(n[b] == before.items[ob]);
                    }
                    assert forall|a: int| 0 <= a < n.len() implies 1 <= (#[trigger] n[a]).id.value()
                        <= self@.next && 1 <= n[a].count && n[a].revision + 1 == n[a].count by {
                        let oa = if a < i {
                            a
                        } else {
                            a + 1
                        };
                        assert(n[a] == before.items[oa]);
                    }
                    assert forall|a: int| 0 <= a < n.len() implies #[trigger] n[a].id != id by {
                        let oa = if a < i {
                            a
                        } else {
                            a + 1
                        };
                        assert(n[a] == before.items[oa]);
                        assert(before.items[i as int].id == id);
                    }
                }
                return true;
            }
            i = i + 1;
        }
        false
    }

    /// Closes every notification.
    pub fn clear(&mut self)
        requires
            old(self)@.wf(),
        ensures
            final(self)@.wf(),
            final(self)@.items.len() == 0,
            final(self)@.next == old(self)@.next,
    {
        self.items.clear();
        assert(self@.items =~= Seq::<ItemView<Message>>::empty());
    }

    pub fn contains(&self, id: Id) -> (r: bool)
        ensures
            r == has_id(self@.items, id),
    {
        let mut i: usize = 0;
        while i < self.items.len()
            invariant
                0 <= i <= self.items.len(),
                forall|j: int| 0 <= j < i ==> self@.items[j].id != id,
            decreases self.items.len() - i,
        {
            if self.items[i].id == id {
                assert(self@.items[i as int].id == id);
                return true;
            }
            i = i + 1;
        }
        false
    }

    /// Each notification and how many times it came, oldest first.
    pub fn iter(&self) -> (v: Vec<(Id, &Toast<Message>, u32)>)
        ensures
            v@.len() == self@.items.len(),
            forall|i: int|
                0 <= i < v@.len() ==> {
                    &&& (#[trigger] v@[i]).0 == self@.items[i].id
                    &&& v@[i].1@ == self@.items[i].toast
                    &&& v@[i].2 == self@.items[i].count
                },
    {
        let mut v: Vec<(Id, &Toast<Message>, u32)> = Vec::new();
        let mut i: usize = 0;
        while i < self.items.len()
            invariant
                0 <= i <= self.items.len(),
                v@.len() == i,
                forall|j: int|
                    0 <= j < i ==> {
                        &&& (#[trigger] v@[j]).0 == self@.items[j].id
                        &&& v@[j].1@ == self@.items[j].toast
                        &&& v@[j].2 == self@.items[j].count
                    },
            decreases self.items.len() - i,
        {
            let item = &self.items[i];
            v.push((item.id, &item.toast, item.count));
            i = i + 1;
        }
        v
    }

    pub fn len(&self) -> (n: usize)
        ensures
            n == self@.items.len(),
    {
        self.items.len()
    }

    pub fn is_empty(&self) -> (r: bool)
        ensures
            r == (self@.items.len() == 0),
    {
        self.items.len() == 0
    }
}


impl<Message> Toasts<Message> {
    /// How many of the oldest notifications are not shown: all but the
    /// newest `VISIBLE`.
    pub fn hidden(&self) -> (n: usize)
        ensures
            n == if self@.items.len() > VISIBLE {
                self@.items.len() - VISIBLE
            } else {
                0
            },
    {
        self.items.len().saturating_sub(VISIBLE)
    }

    /// The identity and renewal count of each notification, oldest first;
    /// a notification's time starts over when its renewal count changes.
    pub fn revisions(&self) -> (v: Vec<(Id, u32)>)
        ensures
            v@.len() == self@.items.len(),
            forall|i: int|
                0 <= i < v@.len() ==> (#[trigger] v@[i]).0 == self@.items[i].id && v@[i].1
                    == self@.items[i].revision,
    {
        let mut v: Vec<(Id, u32)> = Vec::new();
        let mut i: usize = 0;
        while i < self.items.len()
            invariant
                0 <= i <= self.items.len(),
                v@.len() == i,
                forall|j: int|
                    0 <= j < i ==> (#[trigger] v@[j]).0 == self@.items[j].id && v@[j].1
                        == self@.items[j].revision,
            decreases self.items.len() - i,
        {
            v.push((self.items[i].id, self.items[i].revision));
            i = i + 1;
        }
        v
    }
}

/// `x` if it is positive, else 0.
pub open spec fn above_zero(x: int) -> int {
    if x > 0 {
        x
    } else {
        0
    }
}

/// A shown notification's clock: when it started, how long it stood still
/// while the pointer was over the stack, and since when it stands still.
#[derive(Debug, Clone, Copy, PartialEq, Eq, Structural)]
pub struct Timer {
    pub id: Id,
    pub revision: u32,
    pub started: u64,
    pub paused: u64,
    pub paused_since: Option<u64>,
    /// Its closing was reported; it is not reported again.
    pub expired: bool,
}

/// The time a clock stood still up to `now`.
pub open spec fn paused_total(t: Timer, now: u64) -> int {
    t.paused + match t.paused_since {
        Some(since) => above_zero(now - since),
        None => 0,
    }
}

/// The time a clock ran up to `now`: the time since it started, less the
/// time it stood still; never below zero.
pub open spec fn elapsed_at(t: Timer, now: u64) -> int {
    above_zero(above_zero(now - t.started) - paused_total(t, now))
}

impl Timer {
    /// A clock started at `now`; it stands still from the start if the
    /// pointer is over the stack.
    pub fn new(id: Id, revision: u32, now: u64, hovered: bool) -> (t: Self)
        ensures
            t == (Timer {
                id,
                revision,
                started: now,
                paused: 0,
                paused_since: if hovered {
                    Some(now)
                } else {
                    None
                },
                expired: false,
            }),
    {
        Timer {
            id,
            revision,
            started: now,
            paused: 0,
            paused_since: if hovered {
                Some(now)
            } else {
                None
            },
            expired: false,
        }
    }

    /// The time the clock ran up to `now`.
    pub fn elapsed(&self, now: u64) -> (e: u64)
        requires
            paused_total(*self, now) <= u64::MAX,
        ensures
            e == elapsed_at(*self, now),
    {
        let paused = self.paused + match self.paused_since {
            Some(since) => now.saturating_sub(since),
            None => 0,
        };
        now.saturating_sub(self.started).saturating_sub(paused)
    }

    /// Stops the clock at `now`, unless it already stands still.
    pub fn pause(&mut self, now: u64)
        ensures
            *final(self) == (Timer {
                paused_since: match old(self).paused_since {
                    Some(since) => Some(since),
                    None => Some(now),
                },
                ..*old(self)
            }),
    {
        if self.paused_since.is_none() {
            self.paused_since = Some(now);
        }
    }

    /// Starts the clock again at `now`; the time it stood still is kept.
    pub fn resume(&mut self, now: u64)
        requires
            paused_total(*old(self), now) <= u64::MAX,
        ensures
            *final(self) == (Timer {
                paused: paused_total(*old(self), now) as u64,
                paused_since: None,
                ..*old(self)
            }),
    {
        if let Some(since) = self.paused_since {
            self.paused = self.paused + now.saturating_sub(since);
            self.paused_since = None;
        }
    }
}

/// The clock of `entry` after the shown notifications changed: the earlier
/// clock of the same notification if it was not renewed, else a new one.
pub open spec fn synced_timer(previous: Seq<Timer>, entry: (Id, u32), now: u64, hovering: bool) -> Timer {
    if exists|i: int| 0 <= i < previous.len() && (#[trigger] previous[i]).id == entry.0 {
        let i = choose|i: int|
            0 <= i < previous.len() && (#[trigger] previous[i]).id == entry.0 && forall|j: int|
                0 <= j < i ==> (#[trigger] previous[j]).id != entry.0;
        if previous[i].revision == entry.1 {
            previous[i]
        } else {
            fresh_timer(entry, now, hovering)
        }
    } else {
        fresh_timer(entry, now, hovering)
    }
}

pub open spec fn fresh_timer(entry: (Id, u32), now: u64, hovering: bool) -> Timer {
    Timer {
        id: entry.0,
        revision: entry.1,
        started: now,
        paused: 0,
        paused_since: if hovering {
            Some(now)
        } else {
            None
        },
        expired: false,
    }
}

/// The first clock of the notification, if there is one.
fn find_timer(previous: &Vec<Timer>, id: Id) -> (r: Option<usize>)
    ensures
        match r {
            Some(i) => i < previous@.len() && previous@[i as int].id == id && forall|j: int|
                0 <= j < i ==> (#[trigger] previous@[j]).id != id,
            None => forall|j: int| 0 <= j < previous@.len() ==> (#[trigger] previous@[j]).id != id,
        },
{
    let mut i: usize = 0;
    while i < previous.len()
        invariant
            0 <= i <= previous.len(),
            forall|j: int| 0 <= j < i ==> (#[trigger] previous@[j]).id != id,
        decreases previous.len() - i,
    {
        if previous[i].id == id {
            return Some(i);
        }
        i = i + 1;
    }
    None
}

/// The clocks of the shown notifications after they changed: a notification
/// keeps its clock unless it was renewed; a new or renewed one starts at
/// `now`, standing still if the pointer is over the stack.
pub fn sync_timers(previous: &Vec<Timer>, entries: &Vec<(Id, u32)>, now: u64, hovering: bool) -> (t: Vec<Timer>)
    ensures
        t@.len() == entries@.len(),
        forall|k: int|
            0 <= k < t@.len() ==> #[trigger] t@[k] == synced_timer(previous@, entries@[k], now, hovering),
{
    let mut timers: Vec<Timer> = Vec::new();
    let mut k: usize = 0;
    while k < entries.len()
        invariant
            0 <= k <= entries.len(),
            timers@.len() == k,
            forall|j: int|
                0 <= j < k ==> #[trigger] timers@[j] == synced_timer(previous@, entries@[j], now, hovering),
        decreases entries.len() - k,
    {
        let (id, revision) = entries[k];
        let timer = match find_timer(previous, id) {
            Some(i) => {
                proof {
                    let c = choose|c: int|
                        0 <= c < previous@.len() && (#[trigger] previous@[c]).id == id && forall|j: int|
                            0 <= j < c ==> (#[trigger] previous@[j]).id != id;
                    assert(0 <= i < previous@.len() && previous@[i as int].id == id);
                    if c < i {
                        assert(previous@[c].id != id);
                    }
                    if i < c {
                        assert(previous@[i as int].id != id);
                    }
                    assert(c == i);
                }
                if previous[i].revision == revision {
                    previous[i]
                } else {
                    Timer::new(id, revision, now, hovering)
                }
            },
            None => Timer::new(id, revision, now, hovering),
        };
        timers.push(timer);
        k = k + 1;
    }
    timers
}

/// Stops every clock (the pointer came over the stack) or starts them
/// again (it left).
pub fn hover_timers(timers: &mut Vec<Timer>, over: bool, now: u64)
    requires
        !over ==> forall|i: int| 0 <= i < old(timers)@.len() ==> paused_total(#[trigger] old(timers)@[i], now) <= u64::MAX,
    ensures
        final(timers)@.len() == old(timers)@.len(),
        forall|i: int|
            0 <= i < final(timers)@.len() ==> #[trigger] final(timers)@[i] == (if over {
                Timer {
                    paused_since: match old(timers)@[i].paused_since {
                        Some(since) => Some(since),
                        None => Some(now),
                    },
                    ..old(timers)@[i]
                }
            } else {
                Timer { paused: paused_total(old(timers)@[i], now) as u64, paused_since: None, ..old(timers)@[i] }
            }),
{
    let ghost before = timers@;
    let mut i: usize = 0;
    while i < timers.len()
        invariant
            0 <= i <= timers.len(),
            timers@.len() == before.len(),
            !over ==> forall|k: int| 0 <= k < before.len() ==> paused_total(#[trigger] before[k], now) <= u64::MAX,
            forall|k: int| i <= k < before.len() ==> #[trigger] timers@[k] == before[k],
            forall|k: int|
                0 <= k < i ==> #[trigger] timers@[k] == (if over {
                    Timer {
                        paused_since: match before[k].paused_since {
                            Some(since) => Some(since),
                            None => Some(now),
                        },
                        ..before[k]
                    }
                } else {
                    Timer { paused: paused_total(before[k], now) as u64, paused_since: None, ..before[k] }
                }),
        decreases timers.len() - i,
    {
        let mut timer = timers[i];
        if over {
            timer.pause(now);
        } else {
            timer.resume(now);
        }
        timers.set(i, timer);
        i = i + 1;
    }
}

/// What a redraw at `now` does to the clocks of the shown notifications,
/// whose closing times are `durations`: a clock that ran its time is marked
/// and its notification is to be closed; the other clocks are unchanged.
pub open spec fn expires(t: Timer, duration: Option<u64>, now: u64) -> bool {
    match duration {
        Some(d) => !t.expired && elapsed_at(t, now) >= d,
        None => false,
    }
}

/// Whether the clock still runs toward its closing time.
pub open spec fn runs(t: Timer, duration: Option<u64>, now: u64) -> bool {
    match duration {
        Some(d) => !t.expired && elapsed_at(t, now) < d && t.paused_since is None,
        None => false,
    }
}

/// A redraw at `now`: marks the clocks that ran their time and returns the
/// notifications to close, in order, and whether some clock still runs (so
/// that another redraw is due).
pub fn expire(timers: &mut Vec<Timer>, durations: &Vec<Option<u64>>, now: u64) -> (r: (Vec<Id>, bool))
    requires
        forall|i: int| 0 <= i < old(timers)@.len() ==> paused_total(#[trigger] old(timers)@[i], now) <= u64::MAX,
    ensures
        final(timers)@.len() == old(timers)@.len(),
        forall|i: int|
            0 <= i < final(timers)@.len() ==> #[trigger] final(timers)@[i] == (if i < durations@.len()
                && expires(old(timers)@[i], durations@[i], now) {
                Timer { expired: true, ..old(timers)@[i] }
            } else {
                old(timers)@[i]
            }),
        r.0@ == closed_ids(old(timers)@, durations@, now, min_len(old(timers)@.len(), durations@.len())),
        r.1 == exists|i: int|
            0 <= i < old(timers)@.len() && i < durations@.len() && runs(#[trigger] old(timers)@[i], durations@[i], now),
{
    let ghost before = timers@;
    let n = if timers.len() < durations.len() {
        timers.len()
    } else {
        durations.len()
    };
    let mut closed: Vec<Id> = Vec::new();
    let mut running = false;
    let mut i: usize = 0;
    while i < n
        invariant
            n == min_len(before.len(), durations@.len()),
            0 <= i <= n,
            timers@.len() == before.len(),
            forall|k: int| 0 <= k < before.len() ==> paused_total(#[trigger] before[k], now) <= u64::MAX,
            forall|k: int| i <= k < before.len() ==> #[trigger] timers@[k] == before[k],
            forall|k: int|
                0 <= k < i ==> #[trigger] timers@[k] == (if expires(before[k], durations@[k], now) {
                    Timer { expired: true, ..before[k] }
                } else {
                    before[k]
                }),
            closed@ == closed_ids(before, durations@, now, i as int),
            running == exists|k: int| 0 <= k < i && runs(#[trigger] before[k], durations@[k], now),
        decreases n - i,
    {
        let timer = timers[i];
        match durations[i] {
            Some(d) => {
                if !timer.expired {
                    let e = timer.elapsed(now);
                    if e >= d {
                        timers.set(i, Timer { expired: true, ..timer });
                        closed.push(timer.id);
                    } else if timer.paused_since.is_none() {
                        running = true;
                    }
                }
            },
            None => {},
        }
        proof {
            assert(closed_ids(before, durations@, now, i + 1) == if expires(before[i as int], durations@[i as int], now) {
                closed_ids(before, durations@, now, i as int).push(before[i as int].id)
            } else {
                closed_ids(before, durations@, now, i as int)
            });
            if runs(before[i as int], durations@[i as int], now) {
                assert(exists|k: int| 0 <= k < i + 1 && runs(#[trigger] before[k], durations@[k], now));
            }
        }
        i = i + 1;
    }
    (closed, running)
}

pub open spec fn min_len(a: nat, b: nat) -> int {
    if a < b {
        a as int
    } else {
        b as int
    }
}

/// The notifications among the first `n` whose clocks run out at `now`,
/// in order.
pub open spec fn closed_ids(timers: Seq<Timer>, durations: Seq<Option<u64>>, now: u64, n: int) -> Seq<Id>
    decreases n,
{
    if n <= 0 {
        Seq::empty()
    } else if expires(timers[n - 1], durations[n - 1], now) {
        closed_ids(timers, durations, now, n - 1).push(timers[n - 1].id)
    } else {
        closed_ids(timers, durations, now, n - 1)
    }
}

/// Pushing makes the notification the newest, under the identity that
/// push returns, and keeps the queue well formed.
pub proof fn law_pushed_is_newest<Message>(q: ToastsView<Message>, t: ToastView<Message>)
    requires
        q.wf(),
        q.next < u64::MAX,
        forall|i: int| 0 <= i < q.items.len() ==> (#[trigger] q.items[i]).count < u32::MAX,
    ensures
        ({
            let (p, id) = push_result(q, t);
            &&& p.items.len() > 0
            &&& p.items.last().id == id
            &&& p.items.last().toast == t
            &&& has_id(p.items, id)
        }),
{
    let (p, id) = push_result(q, t);
    assert(p.items[p.items.len() - 1].id == id);
}

/// A repeated notification is counted, not stacked: pushing the same
/// notification again returns the same identity, leaves the number of
/// notifications as it was and raises the newest one's count by one.
pub proof fn law_repeat_is_counted<Message>(
    q: ToastsView<Message>,
    first: ToastView<Message>,
    again: ToastView<Message>,
)
    requires
        q.wf(),
        q.next < u64::MAX - 1,
        forall|i: int| 0 <= i < q.items.len() ==> (#[trigger] q.items[i]).count < u32::MAX - 1,
        same_toast(first, again),
    ensures
        ({
            let (q1, a) = push_result(q, first);
            let (q2, b) = push_result(q1, again);
            &&& b == a
            &&& q2.items.len() == q1.items.len()
            &&& q2.next == q1.next
            &&& q2.items.last().id == a
            &&& q2.items.last().toast == again
            &&& q2.items.last().count == q1.items.last().count + 1
        }),
{
    let (q1, a) = push_result(q, first);
    let n = q1.items.len() - 1;
    assert(q1.items[n].toast == first);
    if has_same(q.items, first) {
        let i = first_same_index(q.items, first);
        let k = choose|k: int| 0 <= k < q.items.len() && same_toast(#[trigger] q.items[k].toast, first);
        lemma_first_same_exists(q.items, first, k);
        assert(first_same(q.items, first, i));
        assert(q.items[i].count < u32::MAX - 1);
    }
    assert(same_toast(q1.items[n].toast, again));
    assert(has_same(q1.items, again));
    let c = first_same_index(q1.items, again);
    lemma_first_same_exists(q1.items, again, n);
    assert(first_same(q1.items, again, c));
    // Earlier items are not the same notification as the newest one.
    assert forall|j: int| 0 <= j < n implies !same_toast(#[trigger] q1.items[j].toast, again) by {
        if has_same(q.items, first) {
            let i = first_same_index(q.items, first);
            let k = choose|k: int| 0 <= k < q.items.len() && same_toast(#[trigger] q.items[k].toast, first);
            lemma_first_same_exists(q.items, first, k);
            let oj = if j < i {
                j
            } else {
                j + 1
            };
            assert(q1.items[j] == q.items.remove(i)[j]);
            assert(q.items.remove(i)[j] == q.items[oj]);
            assert(!same_toast(q.items[oj].toast, q.items[i].toast));
        } else {
            assert(q1.items[j] == q.items[j]);
            assert(!same_toast(q.items[j].toast, first));
        }
    }
    assert(first_same(q1.items, again, n));
    lemma_first_same_unique(q1.items, again, c, n);
}

/// A clock stands still while the pointer is over the stack: between two
/// moments after it was stopped, the time it ran does not change.
pub proof fn law_paused_clock_stands_still(t: Timer, since: u64, now1: u64, now2: u64)
    requires
        t.paused_since == Some(since),
        t.started <= since <= now1 <= now2,
    ensures
        elapsed_at(t, now1) == elapsed_at(t, now2),
{
}

/// Once started again, a clock goes on from the time it had run when it was
/// stopped: the time it stood still is not counted.
pub proof fn law_resumed_clock_goes_on(t: Timer, since: u64, resumed_at: u64, now: u64)
    requires
        t.paused_since == Some(since),
        t.started <= since <= resumed_at <= now,
        t.paused <= since - t.started,
        paused_total(t, resumed_at) <= u64::MAX,
    ensures
        elapsed_at(
            Timer { paused: paused_total(t, resumed_at) as u64, paused_since: None, ..t },
            now,
        ) == elapsed_at(t, resumed_at) + (now - resumed_at),
{
}

/// What a click on the stack of notifications can hit: a notification's
/// action, its close button, or "close all".
#[derive(Debug, Clone, Copy, PartialEq, Eq, Structural)]
pub enum Target {
    Action(Id),
    Close(Id),
    ClearAll,
}

/// What a click asks of the application, in order: a notification's own
/// message, or closing a notification.
#[derive(Debug, Clone, PartialEq)]
pub enum Notice<Message> {
    Publish(Message),
    Dismiss(Id),
}

/// The message of the action of the first shown notification with the
/// identity, from place `k` on.
pub open spec fn shown_action<Message>(items: Seq<ItemView<Message>>, id: Id, k: int) -> Option<Message>
    decreases items.len() - k,
{
    if k < 0 || k >= items.len() {
        None
    } else if items[k].id == id {
        match items[k].toast.action {
            Some((label, message)) => Some(message),
            None => None,
        }
    } else {
        shown_action(items, id, k + 1)
    }
}

/// The first place of a shown notification: all but the newest `VISIBLE`
/// are hidden.
pub open spec fn first_shown(len: int) -> int {
    if len > VISIBLE {
        len - VISIBLE
    } else {
        0
    }
}

impl<Message: Clone> Toasts<Message> {
    /// What a click sends when the button comes up over `released`, having
    /// gone down over `pressed`: nothing unless both are the same. An
    /// action passes its notification's message on (when the shown
    /// notification has one) and closes it; a close button closes its
    /// notification; "close all" closes every notification, hidden ones
    /// first, oldest first.
    pub fn clicked(&self, pressed: Target, released: Option<Target>) -> (r: Vec<Notice<Message>>)
        ensures
            released != Some(pressed) ==> r@.len() == 0,
            released == Some(pressed) ==> match pressed {
                Target::Close(id) => r@ == seq![Notice::<Message>::Dismiss(id)],
                Target::ClearAll => r@ == self@.items.map_values(
                    |item: ItemView<Message>| Notice::<Message>::Dismiss(item.id),
                ),
                Target::Action(id) => match shown_action(
                    self@.items,
                    id,
                    first_shown(self@.items.len() as int),
                ) {
                    Some(message) => r@.len() == 2 && (r@[0] matches Notice::Publish(m) && cloned(
                        message,
                        m,
                    )) && r@[1] == Notice::<Message>::Dismiss(id),
                    None => r@ == seq![Notice::<Message>::Dismiss(id)],
                },
            },
    {
        let mut r: Vec<Notice<Message>> = Vec::new();
        if released != Some(pressed) {
            return r;
        }
        match pressed {
            Target::Close(id) => {
                r.push(Notice::Dismiss(id));
                proof {
                    assert(r@ =~= seq![Notice::<Message>::Dismiss(id)]);
                }
            },
            Target::ClearAll => {
                let ghost items = self@.items;
                let mut k: usize = 0;
                while k < self.items.len()
                    invariant
                        k <= self.items@.len(),
                        items == self@.items,
                        items.len() == self.items@.len(),
                        r@ =~= items.take(k as int).map_values(
                            |item: ItemView<Message>| Notice::<Message>::Dismiss(item.id),
                        ),
                    decreases self.items@.len() - k,
                {
                    proof {
                        assert(items[k as int].id == self.items@[k as int].id);
                        assert(items.take(k + 1) =~= items.take(k as int).push(items[k as int]));
                    }
                    r.push(Notice::Dismiss(self.items[k].id));
                    k = k + 1;
                }
                proof {
                    assert(items.take(k as int) =~= items);
                }
            },
            Target::Action(id) => {
                let ghost items = self@.items;
                let mut k: usize = self.hidden();
                while k < self.items.len() && self.items[k].id != id
                    invariant
                        first_shown(items.len() as int) <= k <= self.items@.len(),
                        items == self@.items,
                        items.len() == self.items@.len(),
                        shown_action(items, id, first_shown(items.len() as int)) == shown_action(
                            items,
                            id,
                            k as int,
                        ),
                    decreases self.items@.len() - k,
                {
                    proof {
                        assert(items[k as int].id == self.items@[k as int].id);
                    }
                    k = k + 1;
                }
                if k < self.items.len() {
                    proof {
                        assert(items[k as int].id == self.items@[k as int].id);
                        assert(items[k as int].toast == self.items@[k as int].toast@);
                    }
                    match &self.items[k].toast.action {
                        Some((_, message)) => r.push(Notice::Publish(message.clone())),
                        None => {},
                    }
                }
                r.push(Notice::Dismiss(id));
                proof {
                    if shown_action(items, id, first_shown(items.len() as int)) is None {
                        assert(r@ =~= seq![Notice::<Message>::Dismiss(id)]);
                    }
                }
            },
        }
        r
    }
}

/// A notification keeps its clock as it was unless it was renewed; a clock
/// that starts (for a notification with no clock yet, or a renewed one)
/// starts now, has stood still for no time, has not closed, and stands
/// still from now exactly when the pointer is over the stack.
pub proof fn law_new_clocks_follow_the_pointer(previous: Seq<Timer>, entry: (Id, u32), now: u64, hovering: bool)
    ensures
        synced_timer(previous, entry, now, hovering).id == entry.0,
        synced_timer(previous, entry, now, hovering).revision == entry.1,
        (forall|i: int| 0 <= i < previous.len() ==> (#[trigger] previous[i]).id != entry.0) ==> {
            let t = synced_timer(previous, entry, now, hovering);
            &&& t.started == now
            &&& t.paused == 0
            &&& !t.expired
            &&& t.paused_since == if hovering {
                Some(now)
            } else {
                None
            }
        },
        forall|i: int|
            0 <= i < previous.len() && (#[trigger] previous[i]).id == entry.0 && (forall|j: int|
                0 <= j < i ==> (#[trigger] previous[j]).id != entry.0) ==> {
                let t = synced_timer(previous, entry, now, hovering);
                &&& previous[i].revision == entry.1 ==> t == previous[i]
                &&& previous[i].revision != entry.1 ==> t.started == now && t.paused == 0 && !t.expired
                    && t.paused_since == if hovering {
                    Some(now)
                } else {
                    None
                }
            },
{
    if exists|i: int| 0 <= i < previous.len() && (#[trigger] previous[i]).id == entry.0 {
        let w = choose|i: int| 0 <= i < previous.len() && (#[trigger] previous[i]).id == entry.0;
        lemma_first_timer(previous, entry.0, w);
    }
}

/// A notification that arrives while the pointer is over the stack does
/// not close while the pointer stays there: its new clock has run for no
/// time at any later moment.
pub proof fn law_arrivals_wait_under_the_pointer(
    previous: Seq<Timer>,
    entry: (Id, u32),
    now: u64,
    later: u64,
    duration: u64,
)
    requires
        forall|i: int| 0 <= i < previous.len() ==> (#[trigger] previous[i]).id != entry.0,
        duration > 0,
    ensures
        elapsed_at(synced_timer(previous, entry, now, true), later) == 0,
        !expires(synced_timer(previous, entry, now, true), Some(duration), later),
{
    law_new_clocks_follow_the_pointer(previous, entry, now, true);
}

proof fn lemma_first_timer(previous: Seq<Timer>, id: Id, w: int)
    requires
        0 <= w < previous.len(),
        previous[w].id == id,
    ensures
        exists|i: int|
            0 <= i < previous.len() && (#[trigger] previous[i]).id == id && forall|j: int|
                0 <= j < i ==> (#[trigger] previous[j]).id != id,
    decreases w,
{
    if exists|j: int| 0 <= j < w && (#[trigger] previous[j]).id == id {
        let j = choose|j: int| 0 <= j < w && (#[trigger] previous[j]).id == id;
        lemma_first_timer(previous, id, j);
    } else {
        assert(forall|j: int| 0 <= j < w ==> (#[trigger] previous[j]).id != id);
    }
}

} // verus!
