//! Rulers and guides: the guide lines that the user drags out of the
//! rulers, kept in the content's units.
use vstd::prelude::*;

verus! {

/// The direction of a guide.
#[derive(Debug, Clone, Copy, PartialEq, Eq, Structural, Hash)]
pub enum Orientation {
    /// A horizontal line (fixed y), dragged out of the top ruler.
    Horizontal,
    /// A vertical line (fixed x), dragged out of the left ruler.
    Vertical,
}

/// A guide line: its direction and its place in the content's units
/// (`V`, a number type of the application's choice).
#[derive(Debug, Clone, Copy, PartialEq)]
pub struct Guide<V> {
    pub orientation: Orientation,
    pub value: V,
}

impl<V> Guide<V> {
    /// A horizontal guide at height `y`.
    pub fn horizontal(y: V) -> (g: Self)
        ensures
            g == (Guide { orientation: Orientation::Horizontal, value: y }),
    {
        Guide { orientation: Orientation::Horizontal, value: y }
    }

    /// A vertical guide at `x`.
    pub fn vertical(x: V) -> (g: Self)
        ensures
            g == (Guide { orientation: Orientation::Vertical, value: x }),
    {
        Guide { orientation: Orientation::Vertical, value: x }
    }
}

/// A change made to the guides on the rulers.
#[derive(Debug, Clone, Copy, PartialEq)]
pub enum Event<V> {
    /// A new guide dragged out of a ruler was dropped on the content.
    Added(Guide<V>),
    /// The guide (by its place in the list) was moved to a new place.
    Moved(usize, V),
    /// The guide was dropped back on its ruler.
    Removed(usize),
}

/// The application's guides, in the order they were added.
#[derive(Debug, Clone, PartialEq)]
pub struct Guides<V>(Vec<Guide<V>>);

impl<V> View for Guides<V> {
    type V = Seq<Guide<V>>;

    closed spec fn view(&self) -> Seq<Guide<V>> {
        self.0@
    }
}

/// The guides after the change: an added guide comes last, a moved one
/// keeps its direction and takes the new place, a removed one leaves; a
/// change to a guide that is not there changes nothing.
pub open spec fn updated<V>(guides: Seq<Guide<V>>, event: Event<V>) -> Seq<Guide<V>> {
    match event {
        Event::Added(guide) => guides.push(guide),
        Event::Moved(index, value) => if index < guides.len() {
            guides.update(index as int, Guide { value, ..guides[index as int] })
        } else {
            guides
        },
        Event::Removed(index) => if index < guides.len() {
            guides.remove(index as int)
        } else {
            guides
        },
    }
}

impl<V> Guides<V> {
    /// No guides.
    pub fn new() -> (g: Self)
        ensures
            g@ == Seq::<Guide<V>>::empty(),
    {
        Guides(Vec::new())
    }

    pub fn push(&mut self, guide: Guide<V>)
        ensures
            final(self)@ == old(self)@.push(guide),
    {
        self.0.push(guide);
    }

    pub fn clear(&mut self)
        ensures
            final(self)@ == Seq::<Guide<V>>::empty(),
    {
        self.0.clear();
    }

    pub fn len(&self) -> (n: usize)
        ensures
            n == self@.len(),
    {
        self.0.len()
    }

    pub fn is_empty(&self) -> (r: bool)
        ensures
            r == (self@.len() == 0),
    {
        self.0.len() == 0
    }

    pub fn as_slice(&self) -> (s: &[Guide<V>])
        ensures
            s@ == self@,
    {
        self.0.as_slice()
    }

    /// Applies the change that the rulers reported.
    pub fn update(&mut self, event: Event<V>)
        ensures
            final(self)@ == updated(old(self)@, event),
    {
        match event {
            Event::Added(guide) => self.0.push(guide),
            Event::Moved(index, value) => {
                if index < self.0.len() {
                    let orientation = self.0[index].orientation;
                    self.0[index] = Guide { orientation, value };
                }
            },
            Event::Removed(index) => {
                if index < self.0.len() {
                    self.0.remove(index);
                }
            },
        }
    }
}

impl<V> Default for Guides<V> {
    fn default() -> (g: Self)
        ensures
            g@ == Seq::<Guide<V>>::empty(),
    {
        Guides(Vec::new())
    }
}

/// Moving a guide changes only its place: the guides keep their count and
/// directions, and the others keep their places.
pub proof fn law_moving_keeps_the_others<V>(guides: Seq<Guide<V>>, index: usize, value: V)
    ensures
        updated(guides, Event::Moved(index, value)).len() == guides.len(),
        forall|i: int|
            0 <= i < guides.len() ==> (#[trigger] updated(guides, Event::Moved(index, value))[i]).orientation
                == guides[i].orientation,
        forall|i: int|
            0 <= i < guides.len() && i != index ==> #[trigger] updated(guides, Event::Moved(index, value))[i]
                == guides[i],
{
}

/// A guide added and then removed from the end leaves the guides as they
/// were.
pub proof fn law_add_then_remove<V>(guides: Seq<Guide<V>>, guide: Guide<V>)
    requires
        guides.len() < usize::MAX,
    ensures
        updated(updated(guides, Event::Added(guide)), Event::Removed(guides.len() as usize))
            == guides,
{
    assert(guides.push(guide).remove(guides.len() as int) =~= guides);
}

} // verus!
