//! Byte ranges in a text snapshot.
//!
//! The ranges are those of rowan, which takes `TextRange` and `TextSize`
//! from the `text_size` crate. A range is built, shifted and turned into
//! slice bounds by rowan; what rowan does there is stated in the contracts of
//! the three private functions that call it, and taken on trust.

use vstd::prelude::*;

verus! {

/// A half-open range of byte offsets, `start..end`.
#[derive(Clone, Copy, Debug, PartialEq, Eq, Structural)]
pub struct TextRange {
    pub start: u32,
    pub end: u32,
}

/// Builds the range through rowan's `TextRange::new`.
///
/// `TextRange::new` asserts `start <= end` and stores both offsets unchanged,
/// so the offsets read back from it are the ones passed in.
#[verifier::external_body]
fn new_range(start: u32, end: u32) -> (range: TextRange)
    requires
        start <= end,
    ensures
        range.start == start,
        range.end == end,
{
    let range = rowan::TextRange::new(rowan::TextSize::from(start), rowan::TextSize::from(end));
    TextRange { start: u32::from(range.start()), end: u32::from(range.end()) }
}

/// Adds two offsets with rowan's `TextSize` addition.
///
/// The `Add` impl of `TextSize` adds the raw `u32` values with `+`, which
/// overflows when the sum does not fit; the precondition excludes that.
#[verifier::external_body]
fn add_offsets(left: u32, right: u32) -> (sum: u32)
    requires
        left + right <= u32::MAX,
    ensures
        sum == left + right,
{
    u32::from(rowan::TextSize::from(left) + rowan::TextSize::from(right))
}

/// Converts a range to `usize` bounds with rowan's `From<TextRange>` impl for
/// `std::ops::Range<usize>`.
///
/// The impl widens the start and the end offset to `usize`, each unchanged.
#[verifier::external_body]
fn index_bounds(range: TextRange) -> (bounds: (usize, usize))
    requires
        range.start <= range.end,
    ensures
        bounds.0 == range.start,
        bounds.1 == range.end,
{
    let bounds = std::ops::Range::<usize>::from(
        rowan::TextRange::new(rowan::TextSize::from(range.start), rowan::TextSize::from(range.end)),
    );
    (bounds.start, bounds.end)
}

impl TextRange {
    /// A range is well formed when it does not end before it starts.
    pub open spec fn wf(self) -> bool {
        self.start <= self.end
    }

    /// Whether `offset` lies in the range or at its end.
    pub open spec fn contains_inclusive(self, offset: int) -> bool {
        self.start <= offset <= self.end
    }

    /// Whether `other` lies completely inside this range.
    pub open spec fn contains_range(self, other: TextRange) -> bool {
        self.start <= other.start && other.end <= self.end
    }

    /// The bytes of `text` that the range selects.
    pub open spec fn slice(self, text: Seq<u8>) -> Seq<u8> {
        text.subrange(self.start as int, self.end as int)
    }

    /// Creates the range `start..end`.
    pub fn new(start: u32, end: u32) -> (range: TextRange)
        requires
            start <= end,
        ensures
            range == (TextRange { start, end }),
    {
        new_range(start, end)
    }

    /// The range without its first byte, which holds a one-byte marker such
    /// as `@` or `\`.
    pub fn without_marker(self) -> (range: TextRange)
        requires
            self.start < self.end,
        ensures
            range == (TextRange { start: (self.start + 1) as u32, end: self.end }),
    {
        new_range(add_offsets(self.start, 1), self.end)
    }

    /// Borrows the bytes of `text` that the range selects.
    pub fn slice_of<'a>(self, text: &'a [u8]) -> (bytes: &'a [u8])
        requires
            self.wf(),
            self.end <= text@.len(),
        ensures
            bytes@ == self.slice(text@),
    {
        let bounds = index_bounds(self);
        vstd::slice::slice_subrange(text, bounds.0, bounds.1)
    }
}

/// Compares two byte strings.
pub fn bytes_equal(left: &[u8], right: &[u8]) -> (equal: bool)
    ensures
        equal == (left@ == right@),
{
    if left.len() != right.len() {
        return false;
    }
    let mut i: usize = 0;
    while i < left.len()
        invariant
            left@.len() == right@.len(),
            i <= left@.len(),
            forall|j: int| 0 <= j < i ==> left@[j] == right@[j],
        decreases left@.len() - i,
    {
        if left[i] != right[i] {
            return false;
        }
        i += 1;
    }
    assert(left@ =~= right@);
    true
}

} // verus!
