//! Component types that an entity may own.

use vstd::prelude::*;

verus! {

/// A grid cell `(x, y)` and a layer `z` that only orders drawing.
#[derive(Clone, Copy, Debug, PartialEq, Eq, Structural, Hash)]
pub struct Position {
    pub x: u8,
    pub y: u8,
    pub z: u8,
}

/// Tag of a wall.
#[derive(Clone, Copy, Debug, PartialEq, Eq, Structural)]
pub struct Wall {}

/// Tag of an entity that the input moves.
#[derive(Clone, Copy, Debug, PartialEq, Eq, Structural)]
pub struct Player {}

/// Tag of an entity that a push can shift.
#[derive(Clone, Copy, Debug, PartialEq, Eq, Structural)]
pub struct Movable;

/// Tag of an entity that stops a push.
#[derive(Clone, Copy, Debug, PartialEq, Eq, Structural)]
pub struct Immovable;

/// Colour of a box or of a box spot.
#[derive(Clone, Copy, Debug, PartialEq, Eq, Structural)]
pub enum BoxColour {
    Red,
    Blue,
}

impl BoxColour {
    /// The lower-case name of the colour, as it appears in image paths.
    pub open spec fn name(self) -> Seq<char> {
        match self {
            BoxColour::Red => "red"@,
            BoxColour::Blue => "blue"@,
        }
    }

    /// The lower-case name of the colour.
    pub fn to_string(&self) -> (s: String)
        ensures
            s@ == self.name(),
    {
        match self {
            BoxColour::Red => String::from_str("red"),
            BoxColour::Blue => String::from_str("blue"),
        }
    }
}

/// A box of some colour.
#[derive(Clone, Copy, Debug, PartialEq, Eq, Structural)]
pub struct Box {
    pub colour: BoxColour,
}

/// A target cell that a box of the same colour must cover.
#[derive(Clone, Copy, Debug, PartialEq, Eq, Structural)]
pub struct BoxSpot {
    pub colour: BoxColour,
}

/// Whether a renderable shows one image or cycles through several.
#[derive(Clone, Copy, Debug, PartialEq, Eq, Structural)]
pub enum RenderableKind {
    Static,
    Animated,
}

/// The image paths of an entity that is drawn.
#[derive(Debug)]
pub struct Renderable {
    paths: Vec<String>,
}

impl View for Renderable {
    type V = Seq<Seq<char>>;

    /// The image paths, in frame order.
    closed spec fn view(&self) -> Seq<Seq<char>> {
        Seq::new(self.paths@.len(), |i: int| self.paths@[i]@)
    }
}

/// The frame that `path_index` selects among `paths`: indices wrap around.
pub open spec fn frame_of(paths: Seq<Seq<char>>, path_index: int) -> Seq<char>
    recommends
        paths.len() > 0,
        path_index >= 0,
{
    paths[path_index % (paths.len() as int)]
}

impl Renderable {
    /// A renderable can be drawn only if it has at least one image.
    pub open spec fn is_valid(&self) -> bool {
        self@.len() > 0
    }

    /// A renderable with the single image `path`.
    pub fn new_static(path: &str) -> (r: Self)
        ensures
            r@ == seq![path@],
            r.is_valid(),
    {
        let mut paths: Vec<String> = Vec::new();
        paths.push(String::from_str(path));
        let r = Renderable { paths };
        assert(r@ =~= seq![path@]);
        r
    }

    /// A renderable that cycles through `paths`, in that order.
    pub fn new_animated(paths: Vec<&str>) -> (r: Self)
        ensures
            r@.len() == paths@.len(),
            forall|i: int| 0 <= i < paths@.len() ==> r@[i] == (#[trigger] paths@[i])@,
    {
        let mut owned: Vec<String> = Vec::new();
        let mut i: usize = 0;
        while i < paths.len()
            invariant
                i <= paths.len(),
                owned@.len() == i,
                forall|k: int| 0 <= k < i ==> (#[trigger] owned@[k])@ == paths@[k]@,
            decreases paths.len() - i,
        {
            owned.push(String::from_str(paths[i]));
            i += 1;
        }
        Renderable { paths: owned }
    }

    /// The number of images.
    pub fn frames(&self) -> (n: usize)
        ensures
            n == self@.len(),
    {
        self.paths.len()
    }

    /// `Static` for one image, `Animated` for more.
    pub fn kind(&self) -> (k: RenderableKind)
        requires
            self.is_valid(),
        ensures
            k == (if self@.len() == 1 {
                RenderableKind::Static
            } else {
                RenderableKind::Animated
            }),
    {
        if self.paths.len() == 1 {
            RenderableKind::Static
        } else {
            RenderableKind::Animated
        }
    }

    /// The image of frame `path_index`; an index past the last frame wraps
    /// around to the first.
    pub fn path(&self, path_index: usize) -> (p: String)
        requires
            self.is_valid(),
        ensures
            p@ == frame_of(self@, path_index as int),
    {
        self.paths[path_index % self.paths.len()].clone()
    }
}

} // verus!
