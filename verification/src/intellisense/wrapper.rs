//! Cursors into a parsed source file, and the text they stand for.

use vstd::prelude::*;
use vstd::string::StringSliceAdditionalSpecFns;
use vstd::utf8::{
    is_char_boundary, length_of_first_scalar, pop_first_scalar, valid_utf8,
};

verus! {

/// Where a piece of source begins and ends, in bytes from the start of the
/// file.
#[derive(Debug)]
pub struct DxcSourceOffsets {
    pub start_offset: u32,
    pub end_offset: u32,
}

impl DxcSourceOffsets {
    /// Whether the offsets name a piece of `source`: they are in order,
    /// inside the text, and neither splits a character.
    pub open spec fn selects(&self, source: &str) -> bool {
        &&& self.start_offset <= self.end_offset <= source.spec_bytes().len()
        &&& is_char_boundary(source.spec_bytes(), self.start_offset as int)
        &&& is_char_boundary(source.spec_bytes(), self.end_offset as int)
    }

    /// Tests whether the offsets name a piece of `source`.
    pub fn fits(&self, source: &str) -> (ok: bool)
        ensures
            ok == self.selects(source),
    {
        self.start_offset <= self.end_offset && self.end_offset as usize
            <= source.as_bytes().len() && source.is_char_boundary(self.start_offset as usize)
            && source.is_char_boundary(self.end_offset as usize)
    }
}

/// A boundary of a text is a boundary of what follows an earlier boundary.
pub proof fn lemma_boundary_in_suffix(bytes: Seq<u8>, i: int, j: int)
    requires
        valid_utf8(bytes),
        is_char_boundary(bytes, i),
        is_char_boundary(bytes, j),
        i <= j,
    ensures
        valid_utf8(bytes.subrange(i, bytes.len() as int)),
        is_char_boundary(bytes.subrange(i, bytes.len() as int), j - i),
    decreases bytes.len(),
{
    if i == 0 {
        assert(bytes.subrange(0, bytes.len() as int) =~= bytes);
    } else {
        reveal_with_fuel(is_char_boundary, 2);
        reveal_with_fuel(valid_utf8, 2);
        let l = length_of_first_scalar(bytes);
        let rest = pop_first_scalar(bytes);
        lemma_boundary_in_suffix(rest, i - l, j - l);
        assert(rest.subrange(i - l, rest.len() as int) =~= bytes.subrange(i, bytes.len() as int));
    }
}

/// What was read from a cursor: the extent of the source that it covers.
pub struct DxcCursor {
    extent: DxcSourceOffsets,
}

impl DxcCursor {
    /// The extent of the cursor.
    pub closed spec fn extent(&self) -> DxcSourceOffsets {
        self.extent
    }

    /// A cursor of the given extent.
    pub fn new(extent: DxcSourceOffsets) -> (cursor: Self)
        ensures
            cursor.extent() == extent,
    {
        DxcCursor { extent }
    }

    pub fn get_extent(&self) -> (extent: &DxcSourceOffsets)
        ensures
            *extent == self.extent(),
    {
        &self.extent
    }

    /// The piece of `source` that the cursor covers.
    pub fn get_source<'a>(&self, source: &'a str) -> (text: &'a str)
        requires
            self.extent().selects(source),
        ensures
            text.spec_bytes() == source.spec_bytes().subrange(
                self.extent().start_offset as int,
                self.extent().end_offset as int,
            ),
    {
        let start: usize = self.extent.start_offset as usize;
        let end: usize = self.extent.end_offset as usize;
        proof {
            broadcast use vstd::utf8::encode_utf8_valid_utf8;

            lemma_boundary_in_suffix(source.spec_bytes(), start as int, end as int);
        }
        let (_, tail) = source.split_at(start);
        let (text, _) = tail.split_at(end - start);
        assert(text.spec_bytes() =~= source.spec_bytes().subrange(start as int, end as int));
        text
    }
}

/// How many children of a cursor are asked for at a time.
pub const MAX_CHILDREN_PER_CHUNK: u32 = 10;

/// What to do next while a cursor's children are collected.
#[derive(Clone, Copy, Debug, PartialEq, Eq, Structural)]
pub enum ChildrenStep {
    /// Ask for up to `max_count` children behind the first `skip`.
    Fetch { skip: u32, max_count: u32 },
    /// All children are there.
    Done,
}

/// The next step after `collected` children, of which the last answer
/// brought `last_chunk`, or `None` before the first answer. A short answer
/// ends the collection; a full one asks for the children that follow.
pub fn children_step(collected: usize, last_chunk: Option<usize>) -> (step: ChildrenStep)
    ensures
        step == if last_chunk matches Some(n) && n < MAX_CHILDREN_PER_CHUNK {
            ChildrenStep::Done
        } else {
            ChildrenStep::Fetch {
                skip: (collected as int % 0x1_0000_0000) as u32,
                max_count: MAX_CHILDREN_PER_CHUNK,
            }
        },
{
    match last_chunk {
        Some(n) if n < MAX_CHILDREN_PER_CHUNK as usize => ChildrenStep::Done,
        _ => {
            let skip: u32 = #[verifier::truncate]
            (collected as u32);
            assert(skip == (collected as u64) % 0x1_0000_0000) by (bit_vector)
                requires
                    skip == collected as u32,
            ;
            ChildrenStep::Fetch { skip, max_count: MAX_CHILDREN_PER_CHUNK }
        },
    }
}

} // verus!
