use vstd::prelude::*;

verus! {

/// A cardinal direction used by focus and move commands.
#[derive(Clone, Copy, Debug, PartialEq, Eq, Structural)]
pub enum Direction {
    Left,
    Right,
    Up,
    Down,
}

impl Direction {
    pub open spec fn spec_inverse(self) -> Direction {
        match self {
            Direction::Left => Direction::Right,
            Direction::Right => Direction::Left,
            Direction::Up => Direction::Down,
            Direction::Down => Direction::Up,
        }
    }

    /// The opposite direction.
    #[verifier::when_used_as_spec(spec_inverse)]
    pub fn inverse(self) -> (res: Direction)
        ensures
            res == self.spec_inverse(),
    {
        match self {
            Direction::Left => Direction::Right,
            Direction::Right => Direction::Left,
            Direction::Up => Direction::Down,
            Direction::Down => Direction::Up,
        }
    }
}

/// The axis (and accordion mode) along which a container lays out its
/// tiling children.
#[derive(Clone, Copy, Debug, PartialEq, Eq, Structural)]
pub enum TilingDirection {
    Horizontal,
    Vertical,
    HorizontalAccordion,
    VerticalAccordion,
}

impl TilingDirection {
    pub open spec fn spec_inverse(self) -> TilingDirection {
        match self {
            TilingDirection::Horizontal => TilingDirection::Vertical,
            TilingDirection::Vertical => TilingDirection::Horizontal,
            TilingDirection::HorizontalAccordion => TilingDirection::VerticalAccordion,
            TilingDirection::VerticalAccordion => TilingDirection::HorizontalAccordion,
        }
    }

    /// Swaps the axis while keeping the accordion mode.
    #[verifier::when_used_as_spec(spec_inverse)]
    pub fn inverse(self) -> (res: TilingDirection)
        ensures
            res == self.spec_inverse(),
    {
        match self {
            TilingDirection::Horizontal => TilingDirection::Vertical,
            TilingDirection::Vertical => TilingDirection::Horizontal,
            TilingDirection::HorizontalAccordion => TilingDirection::VerticalAccordion,
            TilingDirection::VerticalAccordion => TilingDirection::HorizontalAccordion,
        }
    }

    pub open spec fn spec_toggle_accordion(self) -> TilingDirection {
        match self {
            TilingDirection::Horizontal => TilingDirection::HorizontalAccordion,
            TilingDirection::Vertical => TilingDirection::VerticalAccordion,
            TilingDirection::HorizontalAccordion => TilingDirection::Horizontal,
            TilingDirection::VerticalAccordion => TilingDirection::Vertical,
        }
    }

    /// Switches accordion mode on or off while keeping the axis.
    #[verifier::when_used_as_spec(spec_toggle_accordion)]
    pub fn toggle_accordion(self) -> (res: TilingDirection)
        ensures
            res == self.spec_toggle_accordion(),
    {
        match self {
            TilingDirection::Horizontal => TilingDirection::HorizontalAccordion,
            TilingDirection::Vertical => TilingDirection::VerticalAccordion,
            TilingDirection::HorizontalAccordion => TilingDirection::Horizontal,
            TilingDirection::VerticalAccordion => TilingDirection::Vertical,
        }
    }

    pub open spec fn spec_from_direction(direction: Direction) -> TilingDirection {
        match direction {
            Direction::Left | Direction::Right => TilingDirection::Horizontal,
            Direction::Up | Direction::Down => TilingDirection::Vertical,
        }
    }

    /// The tiling direction along which a cardinal direction moves.
    #[verifier::when_used_as_spec(spec_from_direction)]
    pub fn from_direction(direction: Direction) -> (res: TilingDirection)
        ensures
            res == Self::spec_from_direction(direction),
    {
        match direction {
            Direction::Left | Direction::Right => TilingDirection::Horizontal,
            Direction::Up | Direction::Down => TilingDirection::Vertical,
        }
    }

    pub open spec fn spec_is_accordion(self) -> bool {
        self == TilingDirection::HorizontalAccordion || self == TilingDirection::VerticalAccordion
    }

    /// Whether the direction is one of the two accordion directions.
    #[verifier::when_used_as_spec(spec_is_accordion)]
    pub fn is_accordion(self) -> (res: bool)
        ensures
            res == self.spec_is_accordion(),
    {
        match self {
            TilingDirection::HorizontalAccordion | TilingDirection::VerticalAccordion => true,
            _ => false,
        }
    }
}

/// How a direction container arranges its tiling children.
#[derive(Clone, Copy, Debug, PartialEq, Eq, Structural)]
pub enum TilingLayout {
    Tiling,
    Accordion,
    MasterStack { master_window: Option<usize> },
}

impl TilingLayout {
    pub open spec fn spec_inverse(self) -> TilingLayout {
        match self {
            TilingLayout::Accordion => TilingLayout::Tiling,
            _ => TilingLayout::Accordion,
        }
    }

    /// The layout that a layout toggle switches to.
    #[verifier::when_used_as_spec(spec_inverse)]
    pub fn inverse(self) -> (res: TilingLayout)
        ensures
            res == self.spec_inverse(),
    {
        match self {
            TilingLayout::Accordion => TilingLayout::Tiling,
            _ => TilingLayout::Accordion,
        }
    }
}

/// The kind of a node in the container tree.
#[derive(Clone, Copy, Debug, PartialEq, Eq, Structural)]
pub enum ContainerKind {
    Root,
    Monitor,
    Workspace,
    Split,
    TilingWindow,
    NonTilingWindow,
}

impl ContainerKind {
    /// Workspaces and split containers carry a tiling direction and layout.
    pub open spec fn is_direction_container(self) -> bool {
        self == ContainerKind::Workspace || self == ContainerKind::Split
    }

    /// Tiling windows and split containers take part in tiling.
    pub open spec fn is_tiling_container(self) -> bool {
        self == ContainerKind::Split || self == ContainerKind::TilingWindow
    }

    pub open spec fn is_window(self) -> bool {
        self == ContainerKind::TilingWindow || self == ContainerKind::NonTilingWindow
    }
}


/// Turning a direction around twice gives it back.
pub proof fn direction_inverse_is_involution(d: Direction)
    ensures
        d.spec_inverse().spec_inverse() == d,
{
}

/// Swapping a tiling direction's axis twice gives it back, and keeps its
/// accordion mode.
pub proof fn tiling_direction_inverse_is_involution(d: TilingDirection)
    ensures
        d.spec_inverse().spec_inverse() == d,
        d.spec_inverse().spec_is_accordion() == d.spec_is_accordion(),
{
}

/// Toggling accordion mode twice gives the direction back, and each toggle
/// switches accordion mode.
pub proof fn toggle_accordion_is_involution(d: TilingDirection)
    ensures
        d.spec_toggle_accordion().spec_toggle_accordion() == d,
        d.spec_toggle_accordion().spec_is_accordion() != d.spec_is_accordion(),
{
}

/// Toggling the layout of a tiling or accordion container twice gives its
/// layout back.
pub proof fn layout_toggle_twice(l: TilingLayout)
    requires
        l is Tiling || l is Accordion,
    ensures
        l.spec_inverse().spec_inverse() == l,
{
}

} // verus!
