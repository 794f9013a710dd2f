//! What the dialogs offer and what their answers mean.

use vstd::prelude::*;

use crate::i18n::{translated, filled, Catalog};
use crate::msg::Msg;
use crate::text::{chars_of, decimal, decimal_of, extend, text_of};
use crate::wording::{counted, counted_text, fill_one, number_text};

verus! {

/// Those of the sizes that are not `taken`, in order.
pub open spec fn others(sizes: Seq<(u32, u32)>, taken: (u32, u32)) -> Seq<(u32, u32)>
    decreases sizes.len(),
{
    if sizes.len() == 0 {
        seq![]
    } else {
        let before = others(sizes.drop_last(), taken);
        if sizes.last() == taken {
            before
        } else {
            before.push(sizes.last())
        }
    }
}

/// The sizes an oversized import can come in at: the recommended one first,
/// then the presets, none of them twice.
pub fn import_sizes(recommended: (u32, u32), presets: &Vec<(u32, u32)>) -> (r: Vec<(u32, u32)>)
    ensures
        r@ == seq![recommended] + others(presets@, recommended),
{
    let mut r: Vec<(u32, u32)> = Vec::new();
    r.push(recommended);
    let mut i: usize = 0;
    assert(presets@.take(0) =~= seq![]);
    assert(r@ =~= seq![recommended] + others(presets@.take(0), recommended));
    while i < presets.len()
        invariant
            i <= presets@.len(),
            r@ == seq![recommended] + others(presets@.take(i as int), recommended),
        decreases presets@.len() - i,
    {
        let size = presets[i];
        assert(presets@.take(i + 1).drop_last() =~= presets@.take(i as int));
        if size.0 != recommended.0 || size.1 != recommended.1 {
            let ghost before = r@;
            r.push(size);
            assert(r@ =~= seq![recommended] + others(presets@.take(i + 1), recommended));
        }
        i = i + 1;
    }
    assert(presets@.take(i as int) =~= presets@);
    r
}

/// The recommended size stands first and nowhere else.
pub proof fn law_the_recommended_size_is_offered_once(
    recommended: (u32, u32),
    presets: Seq<(u32, u32)>,
)
    ensures
        !others(presets, recommended).contains(recommended),
    decreases presets.len(),
{
    if presets.len() > 0 {
        law_the_recommended_size_is_offered_once(recommended, presets.drop_last());
        let before = others(presets.drop_last(), recommended);
        let all = others(presets, recommended);
        assert forall|i: int| 0 <= i < all.len() implies all[i] != recommended by {
            if i < before.len() {
                assert(all[i] == before[i]);
                assert(before.contains(before[i]));
            }
        }
    }
}

/// A size as the picker lists it.
pub open spec fn size_text(size: (u32, u32)) -> Seq<char> {
    decimal(size.0 as nat) + " × "@ + decimal(size.1 as nat)
}

/// How the picker lists the size at place `i`: the first is the recommended
/// one.
pub fn size_label(catalog: &Catalog, size: (u32, u32), first: bool) -> (r: String)
    requires
        catalog.wf(),
    ensures
        r@ == if first {
            filled(
                translated(catalog@, "{size} (recommended)"@),
                seq![("size"@, size_text(size))],
            )
        } else {
            size_text(size)
        },
{
    let mut out = decimal_of(size.0 as u64);
    extend(&mut out, &chars_of(" × "));
    extend(&mut out, &decimal_of(size.1 as u64));
    let text = text_of(&out);
    if first {
        fill_one(catalog, "{size} (recommended)", "size", text.as_str())
    } else {
        text
    }
}

/// Where a frame goes whose 1-based target position was typed.
pub fn typed_place(typed: usize, count: usize) -> (r: usize)
    requires
        count > 0,
    ensures
        r < count,
        1 <= typed <= count ==> r == typed - 1,
        typed == 0 ==> r == 0,
        typed > count ==> r == count - 1,
{
    let place: usize = if typed == 0 {
        0
    } else {
        typed - 1
    };
    if place < count - 1 {
        place
    } else {
        count - 1
    }
}

/// How wide or tall a crop box that starts at `from` can be: up to the edge of
/// the canvas, a pixel at least.
pub fn crop_room(canvas: u32, from: u32) -> (r: u32)
    ensures
        r == if from < canvas {
            (canvas - from) as u32
        } else {
            1
        },
{
    if from < canvas {
        canvas - from
    } else {
        1
    }
}

/// What a delay dialog names: the one frame by its number, or how many are
/// selected.
pub fn delay_title(catalog: &Catalog, scope: &Vec<usize>) -> (r: String)
    requires
        catalog.wf(),
        forall|k: int| 0 <= k < scope@.len() ==> #[trigger] scope@[k] < usize::MAX,
    ensures
        r@ == if scope@.len() == 1 {
            filled(
                translated(catalog@, "Frame {number}"@),
                seq![("number"@, decimal((scope@[0] + 1) as nat))],
            )
        } else {
            counted_text(
                catalog@,
                "{count} selected frame"@,
                "{count} selected frames"@,
                scope@.len(),
            )
        },
{
    if scope.len() == 1 {
        let number = number_text(scope[0] as u64 + 1);
        fill_one(catalog, "Frame {number}", "number", number.as_str())
    } else {
        counted(catalog, "{count} selected frame", "{count} selected frames", scope.len())
    }
}

/// The optimize menu's three dialogs: the same dialog with a different number
/// in it.
#[derive(Clone, Copy, PartialEq, Eq, Debug, Structural)]
pub enum OptimizeDialog {
    Remove,
    Smart,
    Resize,
}

impl OptimizeDialog {
    /// The least and the most that can be picked, and the step between.
    pub fn bounds(self) -> (r: (u32, u32, u32))
        ensures
            r == match self {
                OptimizeDialog::Remove => (2u32, 60u32, 1u32),
                OptimizeDialog::Smart => (5u32, 90u32, 5u32),
                OptimizeDialog::Resize => (16u32, 8192u32, 2u32),
            },
    {
        match self {
            OptimizeDialog::Remove => (2, 60, 1),
            OptimizeDialog::Smart => (5, 90, 5),
            OptimizeDialog::Resize => (16, 8192, 2),
        }
    }

    /// What is picked when it opens; for a resize, the width.
    pub fn start(self) -> (r: u32)
        ensures
            r == match self {
                OptimizeDialog::Remove => 2u32,
                OptimizeDialog::Smart => 30u32,
                OptimizeDialog::Resize => 480u32,
            },
    {
        match self {
            OptimizeDialog::Remove => 2,
            OptimizeDialog::Smart => 30,
            OptimizeDialog::Resize => 480,
        }
    }

    /// What its answer sends.
    pub fn message(self, value: u32, height: u32) -> (r: Msg)
        ensures
            r == match self {
                OptimizeDialog::Remove => Msg::DropEveryNth(value as usize),
                OptimizeDialog::Smart => Msg::SmartDrop(value as usize),
                OptimizeDialog::Resize => Msg::Resize(value, height),
            },
    {
        match self {
            OptimizeDialog::Remove => Msg::DropEveryNth(value as usize),
            OptimizeDialog::Smart => Msg::SmartDrop(value as usize),
            OptimizeDialog::Resize => Msg::Resize(value, height),
        }
    }
}

} // verus!
