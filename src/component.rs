use vstd::prelude::*;

verus! {

/// A property of a host component: its name and the id of its value.
#[derive(Debug, PartialEq, Eq)]
pub struct ComponentProperty {
    pub name: String,
    pub value_id: u64,
}

/// The direction in which a container lays out its children.
#[derive(Debug, Clone, Copy, PartialEq, Eq, Structural)]
pub enum FlexDir {
    Col,
    Row,
}

impl Default for FlexDir {
    fn default() -> (r: Self)
        ensures
            r == FlexDir::Col,
    {
        FlexDir::Col
    }
}

/// A text component.
#[derive(Debug, PartialEq, Eq)]
pub struct Text {
    pub text: String,
}

} // verus!
