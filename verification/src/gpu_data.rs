//! Draw primitives and their packing into batches of words.
//!
//! Every field of a primitive is the bit pattern of a binary32 number, the
//! form in which the device reads it.

use crate::binary32::{binary32, binary32_of_difference};
use crate::camera::Camera;
use crate::device_buffer::BufferClass;
use crate::event::Event;
use std::collections::VecDeque;
use vstd::prelude::*;

verus! {

/// Pattern of 0.0.
pub const ZERO: u32 = 0x0000_0000;

/// Pattern of 1.0.
pub const ONE: u32 = 0x3F80_0000;

/// Pattern of 0.001, the width of an event's rectangle.
pub const EVENT_WIDTH: u32 = 0x3A83_126F;

/// Pattern of 0.04, the height of an event's rectangle.
pub const EVENT_HEIGHT: u32 = 0x3D23_D70A;

/// Pattern of 0.4, the grey of the first palette entry.
pub const GREY: u32 = 0x3ECC_CCCD;

/// Pattern of -1.0, the left edge of the screen.
pub const LEFT_EDGE: u32 = 0xBF80_0000;

/// Pattern of 2.0, the width of the screen.
pub const FULL_WIDTH: u32 = 0x4000_0000;

/// Pattern of 0.002, the height at which the timeline's bar sits.
pub const BAR_Y: u32 = 0x3B03_126F;

/// Pattern of 0.004, the thickness of the timeline's bar.
pub const BAR_HEIGHT: u32 = 0x3B83_126F;

/// A primitive waiting to be uploaded.
#[allow(non_camel_case_types)]
#[derive(Clone, Copy, Debug, PartialEq, Eq, Structural)]
pub enum GPU_Data {
    /// A rectangle. `fixed` is the pattern of 1.0 where the rectangle stays
    /// put on the screen and of 0.0 where it scrolls with the timeline.
    Rect { x: u32, y: u32, w: u32, h: u32, color_index: u32, fixed: u32 },
    /// A palette entry. Its index is its place among the colours appended.
    Color { r: u32, g: u32, b: u32, a: u32 },
}

impl GPU_Data {
    /// The rectangle that shows an event at `timestamp` to a camera with
    /// origin `origin`: placed at the event's distance from the origin, of
    /// the standard size, in palette colour 1, scrolling with the timeline.
    pub open spec fn spec_from_log(timestamp: i64, origin: i64) -> GPU_Data {
        GPU_Data::Rect {
            x: binary32(timestamp - origin) as u32,
            y: ZERO,
            w: EVENT_WIDTH,
            h: EVENT_HEIGHT,
            color_index: ONE,
            fixed: ZERO,
        }
    }

    /// The rectangle that shows `log` to `camera`.
    pub fn from_log(log: &Event, camera: &Camera) -> (primitive: GPU_Data)
        ensures
            primitive == GPU_Data::spec_from_log(log.timestamp, camera.init_pos),
    {
        GPU_Data::Rect {
            x: binary32_of_difference(log.timestamp, camera.init_pos),
            y: ZERO,
            w: EVENT_WIDTH,
            h: EVENT_HEIGHT,
            color_index: ONE,
            fixed: ZERO,
        }
    }

    /// The class of buffer this primitive goes to.
    pub open spec fn spec_class(self) -> BufferClass {
        match self {
            GPU_Data::Rect { .. } => BufferClass::Rect,
            GPU_Data::Color { .. } => BufferClass::Color,
        }
    }

    /// The primitive's fields in the order in which the device reads them.
    pub open spec fn spec_words(self) -> Seq<u32> {
        match self {
            GPU_Data::Rect { x, y, w, h, color_index, fixed } => seq![x, y, w, h, color_index, fixed],
            GPU_Data::Color { r, g, b, a } => seq![r, g, b, a],
        }
    }

    /// The class of buffer this primitive goes to.
    pub fn class(&self) -> (class: BufferClass)
        ensures
            class == self.spec_class(),
    {
        match self {
            GPU_Data::Rect { .. } => BufferClass::Rect,
            GPU_Data::Color { .. } => BufferClass::Color,
        }
    }
}

/// The words of those of `primitives` that belong to `class`, primitive after
/// primitive in the order given; the others are passed over.
pub open spec fn class_words(primitives: Seq<GPU_Data>, class: BufferClass) -> Seq<u32>
    decreases primitives.len(),
{
    if primitives.len() == 0 {
        Seq::empty()
    } else if primitives.last().spec_class() == class {
        class_words(primitives.drop_last(), class) + primitives.last().spec_words()
    } else {
        class_words(primitives.drop_last(), class)
    }
}

/// How many of `primitives` belong to `class`.
pub open spec fn class_count(primitives: Seq<GPU_Data>, class: BufferClass) -> nat
    decreases primitives.len(),
{
    if primitives.len() == 0 {
        0
    } else if primitives.last().spec_class() == class {
        class_count(primitives.drop_last(), class) + 1
    } else {
        class_count(primitives.drop_last(), class)
    }
}

/// A batch is made of whole entries, one per primitive of its class.
pub proof fn lemma_class_words_len(primitives: Seq<GPU_Data>, class: BufferClass)
    ensures
        class_words(primitives, class).len() == class.spec_words() * class_count(
            primitives,
            class,
        ),
        class.spec_whole(class_words(primitives, class).len()),
        class.spec_batch(class_words(primitives, class).len()) == class_count(primitives, class),
        class_count(primitives, class) <= primitives.len(),
    decreases primitives.len(),
{
    if primitives.len() > 0 {
        lemma_class_words_len(primitives.drop_last(), class);
        let n = class_count(primitives.drop_last(), class);
        match class {
            BufferClass::Rect => {
                assert(6 * (n + 1) == 6 * n + 6);
            },
            BufferClass::Color => {
                assert(4 * (n + 1) == 4 * n + 4);
            },
        }
    }
}

/// Every primitive goes to exactly one of the two batches.
pub proof fn lemma_class_count_total(primitives: Seq<GPU_Data>)
    ensures
        class_count(primitives, BufferClass::Rect) + class_count(primitives, BufferClass::Color)
            == primitives.len(),
    decreases primitives.len(),
{
    if primitives.len() > 0 {
        lemma_class_count_total(primitives.drop_last());
    }
}

/// Batching keeps the order within a class: the batch of a run of primitives
/// followed by more is the batch of the run followed by the batch of the rest.
pub proof fn lemma_class_words_concat(a: Seq<GPU_Data>, b: Seq<GPU_Data>, class: BufferClass)
    ensures
        class_words(a + b, class) == class_words(a, class) + class_words(b, class),
        class_count(a + b, class) == class_count(a, class) + class_count(b, class),
    decreases b.len(),
{
    if b.len() == 0 {
        assert(a + b =~= a);
        assert(class_words(a, class) + class_words(b, class) =~= class_words(a, class));
    } else {
        assert((a + b).drop_last() =~= a + b.drop_last());
        assert((a + b).last() == b.last());
        lemma_class_words_concat(a, b.drop_last(), class);
        if b.last().spec_class() == class {
            assert(class_words(a + b, class) =~= class_words(a, class) + class_words(b, class));
        }
    }
}

/// Takes everything out of the queue, first in first out.
pub fn drain_all(queue: &mut VecDeque<GPU_Data>) -> (primitives: Vec<GPU_Data>)
    ensures
        primitives@ == old(queue)@,
        final(queue)@.len() == 0,
{
    let mut primitives: Vec<GPU_Data> = Vec::new();
    let ghost all = queue@;
    while queue.len() > 0
        invariant
            primitives@ + queue@ == all,
        decreases queue@.len(),
    {
        let ghost before = queue@;
        match queue.pop_front() {
            Some(primitive) => {
                primitives.push(primitive);
                assert(primitives@ + queue@ =~= all) by {
                    assert(before =~= seq![before[0]] + before.subrange(1, before.len() as int));
                }
            },
            None => {},
        }
    }
    assert(primitives@ =~= all);
    primitives
}

/// Splits primitives into the batch of rectangles and the batch of colours,
/// each in the order in which its primitives came.
pub fn split_by_class(primitives: &Vec<GPU_Data>) -> (batches: (Vec<u32>, Vec<u32>))
    ensures
        batches.0@ == class_words(primitives@, BufferClass::Rect),
        batches.1@ == class_words(primitives@, BufferClass::Color),
{
    let mut rects: Vec<u32> = Vec::new();
    let mut colors: Vec<u32> = Vec::new();
    let mut i: usize = 0;
    assert(primitives@.take(0) =~= Seq::empty());
    while i < primitives.len()
        invariant
            i <= primitives.len(),
            rects@ == class_words(primitives@.take(i as int), BufferClass::Rect),
            colors@ == class_words(primitives@.take(i as int), BufferClass::Color),
        decreases primitives.len() - i,
    {
        let ghost next = primitives@.take(i + 1);
        assert(next.drop_last() =~= primitives@.take(i as int));
        assert(next.last() == primitives@[i as int]);
        match primitives[i] {
            GPU_Data::Rect { x, y, w, h, color_index, fixed } => {
                let ghost before = rects@;
                rects.push(x);
                rects.push(y);
                rects.push(w);
                rects.push(h);
                rects.push(color_index);
                rects.push(fixed);
                assert(rects@ =~= before + seq![x, y, w, h, color_index, fixed]);
            },
            GPU_Data::Color { r, g, b, a } => {
                let ghost before = colors@;
                colors.push(r);
                colors.push(g);
                colors.push(b);
                colors.push(a);
                assert(colors@ =~= before + seq![r, g, b, a]);
            },
        }
        i = i + 1;
    }
    assert(primitives@.take(i as int) =~= primitives@);
    (rects, colors)
}

} // verus!
