//! Rich tooltips: a title, an optional description and a monospaced detail
//! line (such as the command-line equivalent).
use vstd::prelude::*;

verus! {

/// Tooltip content. A tooltip with only a title is shown as a plain
/// one-line label.
#[derive(Debug, Clone, PartialEq, Eq)]
pub struct Tip {
    title: String,
    body: Option<String>,
    detail: Option<String>,
}

/// What a tooltip holds, as plain values.
pub struct TipView {
    pub title: Seq<char>,
    pub body: Option<Seq<char>>,
    pub detail: Option<Seq<char>>,
}

pub open spec fn opt_text(text: Option<String>) -> Option<Seq<char>> {
    match text {
        Some(s) => Some(s@),
        None => None,
    }
}

impl View for Tip {
    type V = TipView;

    closed spec fn view(&self) -> TipView {
        TipView { title: self.title@, body: opt_text(self.body), detail: opt_text(self.detail) }
    }
}

impl Tip {
    pub fn new(title: &str) -> (t: Self)
        ensures
            t@.title == title@,
            t@.body is None,
            t@.detail is None,
    {
        Tip { title: title.to_owned(), body: None, detail: None }
    }

    /// The description of what it does.
    pub fn body(self, body: &str) -> (t: Self)
        ensures
            t@.title == self@.title,
            t@.body == Some(body@),
            t@.detail == self@.detail,
    {
        let mut t = self;
        t.body = Some(body.to_owned());
        t
    }

    /// The monospaced detail line (such as "Komut: CIZGI").
    pub fn detail(self, detail: &str) -> (t: Self)
        ensures
            t@.title == self@.title,
            t@.body == self@.body,
            t@.detail == Some(detail@),
    {
        let mut t = self;
        t.detail = Some(detail.to_owned());
        t
    }

    /// Whether the tooltip is a plain one-line label: only a title.
    pub fn is_plain(&self) -> (r: bool)
        ensures
            r == (self@.body is None && self@.detail is None),
    {
        self.body.is_none() && self.detail.is_none()
    }
}

impl From<String> for Tip {
    /// A tip with only the title.
    fn from(title: String) -> (t: Self)
        ensures
            t@ == (TipView { title: title@, body: None, detail: None }),
    {
        Tip { title, body: None, detail: None }
    }
}

impl vstd::std_specs::convert::FromSpecImpl<String> for Tip {
    open spec fn obeys_from_spec() -> bool {
        true
    }

    closed spec fn from_spec(title: String) -> Tip {
        Tip { title, body: None, detail: None }
    }
}

impl From<&str> for Tip {
    /// A tip with only the title.
    fn from(title: &str) -> (t: Self)
        ensures
            t@ == (TipView { title: title@, body: None, detail: None }),
    {
        Tip::new(title)
    }
}

/// A tip made from a text is stated by `from`'s own `ensures`, over the
/// view: two texts with the same characters give tips with the same view.
impl vstd::std_specs::convert::FromSpecImpl<&str> for Tip {
    open spec fn obeys_from_spec() -> bool {
        false
    }

    open spec fn from_spec(title: &str) -> Tip {
        vstd::pervasive::arbitrary()
    }
}

} // verus!
