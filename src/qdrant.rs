use vstd::prelude::*;

verus! {

/// One of the two collections that hold the chunks: while one serves
/// searches, a rebuild fills the other, so that a failed rebuild leaves the
/// served one untouched.
#[derive(Clone, Copy, Debug, PartialEq, Eq, Structural)]
pub enum IndexSlot {
    Blue,
    Green,
}

/// The slot that is not `s`.
pub open spec fn other_slot(s: IndexSlot) -> IndexSlot {
    match s {
        IndexSlot::Blue => IndexSlot::Green,
        IndexSlot::Green => IndexSlot::Blue,
    }
}

/// The name of a slot's collection.
pub open spec fn collection_name(s: IndexSlot) -> Seq<char> {
    match s {
        IndexSlot::Blue => "brain-blue"@,
        IndexSlot::Green => "brain-green"@,
    }
}

impl IndexSlot {
    /// The other slot.
    pub fn other(&self) -> (r: IndexSlot)
        ensures
            r == other_slot(*self),
    {
        match self {
            IndexSlot::Blue => IndexSlot::Green,
            IndexSlot::Green => IndexSlot::Blue,
        }
    }

    /// The name of the slot's collection.
    pub fn collection(&self) -> (r: &'static str)
        ensures
            r@ == collection_name(*self),
    {
        match self {
            IndexSlot::Blue => "brain-blue",
            IndexSlot::Green => "brain-green",
        }
    }
}

/// The length of every embedding that the collection holds.
pub const VECTOR_SIZE: u64 = 1536;

/// The best match that the vector index returned for a query: the document
/// identifier that its payload holds under `id`, where that is a string.
#[derive(Clone, Debug)]
pub struct SearchHit {
    pub document_id: Option<String>,
}

impl SearchHit {
    pub fn new(document_id: Option<String>) -> (r: SearchHit)
        ensures
            r.document_id == document_id,
    {
        SearchHit { document_id }
    }
}

} // verus!
