//! Commands of the heightmap generation page
use vstd::prelude::*;
use crate::app::DeformType;
use crate::update::update_core::{CommandWords, word_is, is_key};

verus! {

/// Why a heightmap generation command was refused
#[derive(Debug, Clone, Copy, PartialEq, Eq, Structural)]
pub enum HmapError {
    ShapeOption,
    OverlayOption,
    AutogenOption,
    SetOption,
    SaveOption,
    GenerationCommand,
    UnrecognisedCommand,
}

/// The message shown for a refused command
pub open spec fn hmap_error_message(e: HmapError) -> Seq<char> {
    match e {
        HmapError::ShapeOption => "Invalid shape option - Current options are: [LINE, CIRCLE, RECTANGLE]"@,
        HmapError::OverlayOption => "Invalid overlay option!"@,
        HmapError::AutogenOption => "Invalid autogen option!"@,
        HmapError::SetOption => "Invalid set option!"@,
        HmapError::SaveOption => "Invalid save option"@,
        HmapError::GenerationCommand => "Invalid generation command"@,
        HmapError::UnrecognisedCommand => "Unrecognised command!"@,
    }
}

impl HmapError {
    /// The message shown for a refused command
    pub fn message(&self) -> (r: String)
        ensures
            r@ == hmap_error_message(*self),
    {
        match self {
            HmapError::ShapeOption => "Invalid shape option - Current options are: [LINE, CIRCLE, RECTANGLE]".to_owned(),
            HmapError::OverlayOption => "Invalid overlay option!".to_owned(),
            HmapError::AutogenOption => "Invalid autogen option!".to_owned(),
            HmapError::SetOption => "Invalid set option!".to_owned(),
            HmapError::SaveOption => "Invalid save option".to_owned(),
            HmapError::GenerationCommand => "Invalid generation command".to_owned(),
            HmapError::UnrecognisedCommand => "Unrecognised command!".to_owned(),
        }
    }
}

/// What a heightmap generation command asks for. The value of a `set` command is the optional
/// variable, to be read as a number; the path of `load` is the variable, that of `save` the
/// optional variable.
#[derive(Debug, Clone, Copy, PartialEq, Eq, Structural)]
pub enum HmapAction {
    SetShape(DeformType),
    SetPosX,
    SetPosY,
    SetRotation,
    SetThickness,
    SetDepth,
    SetOverlay(bool),
    SetAutogen(bool),
    /// Set the shape setting named by the variable
    SetSetting,
    /// Load an empty heightmap
    LoadBlank,
    /// Load a heightmap from a file
    Load,
    /// Save the generated deformation
    SaveGenerated,
    /// Save the loaded heightmap
    SaveCreated,
    /// Draw the deformation
    Generate,
    /// Apply the deformation to the loaded heightmap
    Apply,
    Invalid(HmapError),
}

/// The action of a heightmap generation command with the given words. `var_is_setting` tells
/// whether the variable names a setting of the current shape; `blank_loads` whether
/// `load blank` loads an empty heightmap (else it loads the file named `blank`).
pub open spec fn hmap_action(cmd: Seq<char>, var: Seq<char>, opt: Seq<char>, var_is_setting: bool, blank_loads: bool) -> HmapAction {
    if cmd == "set"@ {
        if var == "shape"@ {
            if opt == "line"@ {
                HmapAction::SetShape(DeformType::LINE)
            } else if opt == "circle"@ {
                HmapAction::SetShape(DeformType::CIRCLE)
            } else if opt == "rectangle"@ {
                HmapAction::SetShape(DeformType::RECTANGLE)
            } else {
                HmapAction::Invalid(HmapError::ShapeOption)
            }
        } else if var == "posx"@ {
            HmapAction::SetPosX
        } else if var == "posy"@ {
            HmapAction::SetPosY
        } else if var == "rot"@ {
            HmapAction::SetRotation
        } else if var == "thickness"@ {
            HmapAction::SetThickness
        } else if var == "depth"@ {
            HmapAction::SetDepth
        } else if var == "overlay"@ {
            if opt == "on"@ {
                HmapAction::SetOverlay(true)
            } else if opt == "off"@ {
                HmapAction::SetOverlay(false)
            } else {
                HmapAction::Invalid(HmapError::OverlayOption)
            }
        } else if var == "autogen"@ {
            if opt == "on"@ {
                HmapAction::SetAutogen(true)
            } else if opt == "off"@ {
                HmapAction::SetAutogen(false)
            } else {
                HmapAction::Invalid(HmapError::AutogenOption)
            }
        } else if var_is_setting {
            HmapAction::SetSetting
        } else {
            HmapAction::Invalid(HmapError::SetOption)
        }
    } else if cmd == "load"@ {
        if blank_loads && var == "blank"@ {
            HmapAction::LoadBlank
        } else {
            HmapAction::Load
        }
    } else if cmd == "save"@ {
        if var == "gen"@ {
            HmapAction::SaveGenerated
        } else if var == "created"@ {
            HmapAction::SaveCreated
        } else {
            HmapAction::Invalid(HmapError::SaveOption)
        }
    } else if cmd == "deform"@ {
        if var == "generate"@ {
            HmapAction::Generate
        } else if var == "apply"@ {
            HmapAction::Apply
        } else {
            HmapAction::Invalid(HmapError::GenerationCommand)
        }
    } else {
        HmapAction::Invalid(HmapError::UnrecognisedCommand)
    }
}

///Parse the user command related to the heightmap generation. `settings_keys` are the names
///of the settings of the current shape.
pub fn hmap_gen_parse_input(cmd_var: &CommandWords, settings_keys: &Vec<Vec<char>>, blank_loads: bool) -> (r: HmapAction)
    ensures
        r == hmap_action(
            cmd_var.cmd@,
            cmd_var.var@,
            cmd_var.opt_var@,
            settings_keys@.map_values(|k: Vec<char>| k@).contains(cmd_var.var@),
            blank_loads,
        ),
{
    let cmd = &cmd_var.cmd;
    let var = &cmd_var.var;
    let opt_var = &cmd_var.opt_var;
    if word_is(cmd, "set") {
        if word_is(var, "shape") {
            if word_is(opt_var, "line") {
                HmapAction::SetShape(DeformType::LINE)
            } else if word_is(opt_var, "circle") {
                HmapAction::SetShape(DeformType::CIRCLE)
            } else if word_is(opt_var, "rectangle") {
                HmapAction::SetShape(DeformType::RECTANGLE)
            } else {
                HmapAction::Invalid(HmapError::ShapeOption)
            }
        } else if word_is(var, "posx") {
            HmapAction::SetPosX
        } else if word_is(var, "posy") {
            HmapAction::SetPosY
        } else if word_is(var, "rot") {
            HmapAction::SetRotation
        } else if word_is(var, "thickness") {
            HmapAction::SetThickness
        } else if word_is(var, "depth") {
            HmapAction::SetDepth
        } else if word_is(var, "overlay") {
            if word_is(opt_var, "on") {
                HmapAction::SetOverlay(true)
            } else if word_is(opt_var, "off") {
                HmapAction::SetOverlay(false)
            } else {
                HmapAction::Invalid(HmapError::OverlayOption)
            }
        } else if word_is(var, "autogen") {
            if word_is(opt_var, "on") {
                HmapAction::SetAutogen(true)
            } else if word_is(opt_var, "off") {
                HmapAction::SetAutogen(false)
            } else {
                HmapAction::Invalid(HmapError::AutogenOption)
            }
        } else if is_key(var, settings_keys) {
            HmapAction::SetSetting
        } else {
            HmapAction::Invalid(HmapError::SetOption)
        }
    } else if word_is(cmd, "load") {
        if blank_loads && word_is(var, "blank") {
            HmapAction::LoadBlank
        } else {
            HmapAction::Load
        }
    } else if word_is(cmd, "save") {
        if word_is(var, "gen") {
            HmapAction::SaveGenerated
        } else if word_is(var, "created") {
            HmapAction::SaveCreated
        } else {
            HmapAction::Invalid(HmapError::SaveOption)
        }
    } else if word_is(cmd, "deform") {
        if word_is(var, "generate") {
            HmapAction::Generate
        } else if word_is(var, "apply") {
            HmapAction::Apply
        } else {
            HmapAction::Invalid(HmapError::GenerationCommand)
        }
    } else {
        HmapAction::Invalid(HmapError::UnrecognisedCommand)
    }
}

/// Whether an action is one of the `set` commands that succeeded
pub open spec fn is_set_action(a: HmapAction) -> bool {
    match a {
        HmapAction::SetShape(_) | HmapAction::SetPosX | HmapAction::SetPosY | HmapAction::SetRotation
        | HmapAction::SetThickness | HmapAction::SetDepth | HmapAction::SetOverlay(_)
        | HmapAction::SetAutogen(_) | HmapAction::SetSetting => true,
        _ => false,
    }
}

/// After a `set` command has been carried out, the deformation is drawn again when the overlay
/// and automatic generation are both on (as they stand after the command)
pub fn regenerates_after(action: &HmapAction, overlay_on: bool, auto_generate: bool) -> (r: bool)
    ensures
        r == (is_set_action(*action) && overlay_on && auto_generate),
{
    let is_set = match action {
        HmapAction::SetShape(_) | HmapAction::SetPosX | HmapAction::SetPosY | HmapAction::SetRotation
        | HmapAction::SetThickness | HmapAction::SetDepth | HmapAction::SetOverlay(_)
        | HmapAction::SetAutogen(_) | HmapAction::SetSetting => true,
        _ => false,
    };
    is_set && overlay_on && auto_generate
}

/// Every `set` command that is not refused is one after which the deformation is drawn again
/// (when the overlay and automatic generation are on), and no other command is
pub proof fn lemma_successful_set_redraws(
    cmd: Seq<char>,
    var: Seq<char>,
    opt: Seq<char>,
    var_is_setting: bool,
    blank_loads: bool,
)
    ensures
        is_set_action(hmap_action(cmd, var, opt, var_is_setting, blank_loads)) <==> (cmd == "set"@
            && !(hmap_action(cmd, var, opt, var_is_setting, blank_loads) is Invalid)),
{
}

/// Setting any shape is a successful `set` command
pub proof fn lemma_set_shape_redraws(t: DeformType)
    ensures
        is_set_action(HmapAction::SetShape(t)),
{
}

} // verus!
