//! Command-line settings as plain values, and what they select.
use vstd::prelude::*;
use vstd::string::*;
use crate::preset_scenes::PresetScene;

verus! {

/// How the image is divided among the workers.
#[derive(Debug, Clone, Copy, PartialEq, Eq, Structural)]
pub enum RenderStrategy {
    /// One tile covering the whole image, rendered once per worker.
    ProgressiveAverage,
    /// Square tiles, each rendered once at the full sample count.
    TileFull,
    /// Square tiles, each rendered once per worker at a share of the samples.
    TileAverage,
}

impl Default for RenderStrategy {
    fn default() -> (r: RenderStrategy)
        ensures
            r == RenderStrategy::TileAverage,
    {
        RenderStrategy::TileAverage
    }
}

/// Settings that matter only when rendering on several threads.
#[derive(Debug, Clone, Copy, PartialEq, Eq, Structural)]
pub struct MultithreadedSettings {
    pub interactive: bool,
    pub render_strategy: RenderStrategy,
    /// Edge of a tile in pixels.
    pub tile_size: u32,
}

impl Default for MultithreadedSettings {
    fn default() -> (r: MultithreadedSettings)
        ensures
            r == (MultithreadedSettings {
                interactive: false,
                render_strategy: RenderStrategy::TileAverage,
                tile_size: 64,
            }),
    {
        MultithreadedSettings {
            interactive: false,
            render_strategy: RenderStrategy::TileAverage,
            tile_size: 64,
        }
    }
}

/// Everything the command line can say.
#[derive(Debug, Clone)]
pub struct CliArguments {
    /// Target samples per pixel.
    pub num_samples: u32,
    pub multithreaded: bool,
    pub multithreaded_settings: MultithreadedSettings,
    pub output_file: Option<String>,
    pub preset_scene: PresetScene,
}

/// Where the image goes and in which format.
#[derive(Debug, Clone, Copy, PartialEq, Eq, Structural)]
pub enum OutputTarget {
    /// PPM text on standard output.
    PpmStdout,
    /// PPM text in the named file.
    PpmFile,
    /// A PNG image in the named file.
    PngFile,
}

/// Whether a file name, as bytes, ends in `.png`.
pub open spec fn has_png_extension(name: Seq<u8>) -> bool {
    &&& name.len() >= 4
    &&& name[name.len() - 4] == 46
    &&& name[name.len() - 3] == 112
    &&& name[name.len() - 2] == 110
    &&& name[name.len() - 1] == 103
}

/// The target that an optional output file name selects.
pub open spec fn spec_output_target(output_file: Option<String>) -> OutputTarget {
    match output_file {
        None => OutputTarget::PpmStdout,
        Some(name) => if has_png_extension(vstd::utf8::encode_utf8(name@)) {
            OutputTarget::PngFile
        } else {
            OutputTarget::PpmFile
        },
    }
}

/// Selects the output: no file name means PPM on standard output, a name
/// ending in `.png` means a PNG file, and any other name a PPM file.
pub fn output_target(output_file: &Option<String>) -> (target: OutputTarget)
    ensures
        target == spec_output_target(*output_file),
{
    match output_file {
        None => OutputTarget::PpmStdout,
        Some(name) => {
            let bytes = name.as_str().as_bytes();
            let n: usize = bytes.len();
            if n >= 4 && bytes[n - 4] == 46 && bytes[n - 3] == 112 && bytes[n - 2] == 110 && bytes[n
                - 1] == 103 {
                OutputTarget::PngFile
            } else {
                OutputTarget::PpmFile
            }
        },
    }
}

impl CliArguments {
    /// The output that these arguments select.
    pub fn output_target(&self) -> (target: OutputTarget)
        ensures
            target == spec_output_target(self.output_file),
    {
        output_target(&self.output_file)
    }
}

} // verus!
