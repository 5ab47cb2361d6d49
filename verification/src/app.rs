//! The kinds of deformation that the heightmap generator draws
use vstd::prelude::*;

verus! {

///Types of deformation
#[derive(Debug, Clone, Copy, PartialEq, Eq, Structural)]
pub enum DeformType {
    NONE,
    LINE,
    CIRCLE,
    RECTANGLE,
}

impl Default for DeformType {
    fn default() -> (r: Self)
        ensures
            r == DeformType::NONE,
    {
        DeformType::NONE
    }
}

///Number of tab pages in the application
pub const NO_OF_TABS: usize = 1;

impl DeformType {
    //Current valid types of iteration (ignoring NONE)
    pub const VARIANTS: [DeformType; 3] = [DeformType::LINE, DeformType::CIRCLE, DeformType::RECTANGLE];

    /// The name under which the deformation is shown
    pub fn to_string(&self) -> (r: String)
        ensures
            r@ == match self {
                DeformType::LINE => "Line"@,
                DeformType::CIRCLE => "Circle"@,
                DeformType::RECTANGLE => "Rectangle"@,
                DeformType::NONE => "None"@,
            },
    {
        match self {
            DeformType::LINE => "Line".to_owned(),
            DeformType::CIRCLE => "Circle".to_owned(),
            DeformType::RECTANGLE => "Rectangle".to_owned(),
            DeformType::NONE => "None".to_owned(),
        }
    }
}

} // verus!
