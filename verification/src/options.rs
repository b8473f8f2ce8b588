use vstd::prelude::*;

verus! {

/// The backend that draws the positioned element tree.
#[derive(Clone, Copy, Debug, PartialEq, Eq, Structural)]
pub enum RendererType {
    Software,
    Wgpu,
}

impl Default for RendererType {
    fn default() -> (renderer: RendererType)
        ensures
            renderer == RendererType::Wgpu,
    {
        RendererType::Wgpu
    }
}

/// What an application chooses at start-up.
#[derive(Clone, Copy, Debug, PartialEq, Eq, Structural)]
pub struct OkuOptions {
    pub renderer: RendererType,
}

impl Default for OkuOptions {
    fn default() -> (options: OkuOptions)
        ensures
            options.renderer == RendererType::Wgpu,
    {
        OkuOptions { renderer: RendererType::Wgpu }
    }
}

/// The options to run with: those given, or the defaults.
pub fn options_or_default(options: Option<OkuOptions>) -> (chosen: OkuOptions)
    ensures
        chosen == (match options {
            Some(o) => o,
            None => OkuOptions { renderer: RendererType::Wgpu },
        }),
{
    match options {
        Some(o) => o,
        None => OkuOptions { renderer: RendererType::Wgpu },
    }
}

} // verus!
