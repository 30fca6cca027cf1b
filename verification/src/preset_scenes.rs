//! The scenes that can be asked for by name.
use vstd::prelude::*;

verus! {

/// A built-in scene.
#[derive(Debug, Clone, Copy, PartialEq, Eq, Structural)]
pub enum PresetScene {
    JumpingBalls,
    TwoSpheres,
    TwoPerlinSpheres,
    Earth,
    SimpleLight,
    CornellBox,
    TransformTest,
    CornellSmoke,
    FinalRender,
    TriangleTest,
    MeshTest,
}

impl Default for PresetScene {
    fn default() -> (r: PresetScene)
        ensures
            r == PresetScene::JumpingBalls,
    {
        PresetScene::JumpingBalls
    }
}

} // verus!
