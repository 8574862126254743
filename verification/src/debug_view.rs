use vstd::prelude::*;

use crate::config::str_equals;

verus! {

/// What the renderer shows: the shaded frame or one of its debug visualizations.
#[derive(Clone, Copy, Debug, Default, PartialEq, Eq, Structural)]
pub enum DebugView {
    #[default]
    Default,
    Heatmap,
    WorldPosition,
    Depth,
    Normals,
    SamplingRate,
    MotionVectors,
    Interpolated,
}

/// The number that the shaders receive for each view, in declaration order.
pub open spec fn spec_view_code(view: DebugView) -> u32 {
    match view {
        DebugView::Default => 0,
        DebugView::Heatmap => 1,
        DebugView::WorldPosition => 2,
        DebugView::Depth => 3,
        DebugView::Normals => 4,
        DebugView::SamplingRate => 5,
        DebugView::MotionVectors => 6,
        DebugView::Interpolated => 7,
    }
}

/// The view that the command line names `name`.
pub open spec fn spec_view_named(name: Seq<char>) -> Option<DebugView> {
    if name == "default"@ {
        Some(DebugView::Default)
    } else if name == "heatmap"@ {
        Some(DebugView::Heatmap)
    } else if name == "world-position"@ {
        Some(DebugView::WorldPosition)
    } else if name == "depth"@ {
        Some(DebugView::Depth)
    } else if name == "normals"@ {
        Some(DebugView::Normals)
    } else if name == "sampling-rate"@ {
        Some(DebugView::SamplingRate)
    } else if name == "motion-vectors"@ {
        Some(DebugView::MotionVectors)
    } else if name == "interpolated"@ {
        Some(DebugView::Interpolated)
    } else {
        None
    }
}

/// The name of each view on the command line.
pub open spec fn view_name(view: DebugView) -> Seq<char> {
    match view {
        DebugView::Default => "default"@,
        DebugView::Heatmap => "heatmap"@,
        DebugView::WorldPosition => "world-position"@,
        DebugView::Depth => "depth"@,
        DebugView::Normals => "normals"@,
        DebugView::SamplingRate => "sampling-rate"@,
        DebugView::MotionVectors => "motion-vectors"@,
        DebugView::Interpolated => "interpolated"@,
    }
}

/// The view that digit key `digit` selects: keys 1 to 8 select the views in order.
pub open spec fn spec_view_for_digit(digit: u32) -> Option<DebugView> {
    if digit == 1 {
        Some(DebugView::Default)
    } else if digit == 2 {
        Some(DebugView::Heatmap)
    } else if digit == 3 {
        Some(DebugView::WorldPosition)
    } else if digit == 4 {
        Some(DebugView::Depth)
    } else if digit == 5 {
        Some(DebugView::Normals)
    } else if digit == 6 {
        Some(DebugView::SamplingRate)
    } else if digit == 7 {
        Some(DebugView::MotionVectors)
    } else if digit == 8 {
        Some(DebugView::Interpolated)
    } else {
        None
    }
}

impl DebugView {
    /// The number that the shaders receive for this view.
    pub fn code(self) -> (code: u32)
        ensures
            code == spec_view_code(self),
    {
        match self {
            DebugView::Default => 0,
            DebugView::Heatmap => 1,
            DebugView::WorldPosition => 2,
            DebugView::Depth => 3,
            DebugView::Normals => 4,
            DebugView::SamplingRate => 5,
            DebugView::MotionVectors => 6,
            DebugView::Interpolated => 7,
        }
    }

    /// The view of a `--debug-view` value, or `None` for an unknown name.
    pub fn from_name(name: &str) -> (view: Option<DebugView>)
        ensures
            view == spec_view_named(name@),
    {
        if str_equals(name, "default") {
            Some(DebugView::Default)
        } else if str_equals(name, "heatmap") {
            Some(DebugView::Heatmap)
        } else if str_equals(name, "world-position") {
            Some(DebugView::WorldPosition)
        } else if str_equals(name, "depth") {
            Some(DebugView::Depth)
        } else if str_equals(name, "normals") {
            Some(DebugView::Normals)
        } else if str_equals(name, "sampling-rate") {
            Some(DebugView::SamplingRate)
        } else if str_equals(name, "motion-vectors") {
            Some(DebugView::MotionVectors)
        } else if str_equals(name, "interpolated") {
            Some(DebugView::Interpolated)
        } else {
            None
        }
    }

    /// The view that digit key `digit` selects, or `None` for a key that selects none.
    pub fn for_digit_key(digit: u32) -> (view: Option<DebugView>)
        ensures
            view == spec_view_for_digit(digit),
    {
        match digit {
            1 => Some(DebugView::Default),
            2 => Some(DebugView::Heatmap),
            3 => Some(DebugView::WorldPosition),
            4 => Some(DebugView::Depth),
            5 => Some(DebugView::Normals),
            6 => Some(DebugView::SamplingRate),
            7 => Some(DebugView::MotionVectors),
            8 => Some(DebugView::Interpolated),
            _ => None,
        }
    }
}

/// Distinct views reach the shaders as distinct numbers, and digit key `n + 1` selects the
/// view whose number is `n`.
pub proof fn lemma_view_codes(a: DebugView, b: DebugView, digit: u32)
    ensures
        a != b ==> spec_view_code(a) != spec_view_code(b),
        spec_view_code(a) < 8,
        1 <= digit <= 8 ==> (spec_view_for_digit(digit) matches Some(view) && spec_view_code(view)
            == digit - 1),
        !(1 <= digit <= 8) ==> spec_view_for_digit(digit) is None,
{
}

/// A name reads as a view exactly when it is that view's name: every view can be named,
/// its name reads back as that view, distinct names never read as the same view, and no
/// other text reads as a view.
pub proof fn lemma_view_names(name: Seq<char>, other: Seq<char>, view: DebugView)
    ensures
        spec_view_named(view_name(view)) == Some(view),
        spec_view_named(name) == Some(view) <==> name == view_name(view),
        spec_view_named(name) is Some && spec_view_named(name) == spec_view_named(other) ==> name
            == other,
{
    reveal_strlit("default");
    reveal_strlit("heatmap");
    reveal_strlit("world-position");
    reveal_strlit("depth");
    reveal_strlit("normals");
    reveal_strlit("sampling-rate");
    reveal_strlit("motion-vectors");
    reveal_strlit("interpolated");
    // Names of equal length differ in their first letter.
    assert("default"@.len() == 7 && "default"@[0] == 'd');
    assert("heatmap"@.len() == 7 && "heatmap"@[0] == 'h');
    assert("normals"@.len() == 7 && "normals"@[0] == 'n');
    assert("world-position"@.len() == 14 && "world-position"@[0] == 'w');
    assert("motion-vectors"@.len() == 14 && "motion-vectors"@[0] == 'm');
    assert("depth"@.len() == 5);
    assert("sampling-rate"@.len() == 13);
    assert("interpolated"@.len() == 12);
}

} // verus!
