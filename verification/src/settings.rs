//! Settings for the diagram text and for the image made from it.
use vstd::prelude::*;

verus! {

/// All settings of a run.
pub struct Settings {
    pub image_settings: ImageSettings,
    pub diagram_settings: DiagramSettings,
}

/// Settings for turning the diagram into an image.
pub struct ImageSettings {
    pub enabled: bool,
    pub scale: u32,
}

/// Settings for the diagram text.
#[derive(Clone, Copy, Debug)]
pub struct DiagramSettings {
    /// Whether method lines list their parameters.
    pub show_parameters: bool,
}

impl Settings {
    /// Images enabled at scale 5; parameters hidden.
    pub fn defaults() -> (res: Self)
        ensures
            res.image_settings.enabled,
            res.image_settings.scale == 5,
            !res.diagram_settings.show_parameters,
    {
        Settings {
            image_settings: ImageSettings { enabled: true, scale: 5 },
            diagram_settings: DiagramSettings { show_parameters: false },
        }
    }
}

} // verus!
