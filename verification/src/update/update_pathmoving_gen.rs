//! Commands of the path generation page
use vstd::prelude::*;
use crate::trajectorygen::{DetectionMode, PathGenMode};
use crate::update::update_core::{CommandWords, word_is, is_key};

verus! {

/// Why a path generation command was refused
#[derive(Debug, Clone, Copy, PartialEq, Eq, Structural)]
pub enum PathError {
    LoadTarget,
    DetectionMode,
    PathGenMode,
    SetOption,
    NoDifferenceMap,
    NoPoints,
    GenerateOption,
    SaveOption,
    UnrecognisedCommand,
}

/// The message shown for a refused command
pub open spec fn path_error_message(e: PathError) -> Seq<char> {
    match e {
        PathError::LoadTarget => "Invalid load target"@,
        PathError::DetectionMode => "invalid detection mode"@,
        PathError::PathGenMode => "invalid pathgen mode"@,
        PathError::SetOption => "Invalid set option!"@,
        PathError::NoDifferenceMap => "No difference map generated"@,
        PathError::NoPoints => "No points to create path from!"@,
        PathError::GenerateOption => "Invalid generate option"@,
        PathError::SaveOption => "Invalid save option"@,
        PathError::UnrecognisedCommand => "Unrecognised command!"@,
    }
}

impl PathError {
    /// The message shown for a refused command
    pub fn message(&self) -> (r: String)
        ensures
            r@ == path_error_message(*self),
    {
        match self {
            PathError::LoadTarget => "Invalid load target".to_owned(),
            PathError::DetectionMode => "invalid detection mode".to_owned(),
            PathError::PathGenMode => "invalid pathgen mode".to_owned(),
            PathError::SetOption => "Invalid set option!".to_owned(),
            PathError::NoDifferenceMap => "No difference map generated".to_owned(),
            PathError::NoPoints => "No points to create path from!".to_owned(),
            PathError::GenerateOption => "Invalid generate option".to_owned(),
            PathError::SaveOption => "Invalid save option".to_owned(),
            PathError::UnrecognisedCommand => "Unrecognised command!".to_owned(),
        }
    }
}

/// What a path generation command asks for. The path of a `load` command and of
/// `save difference` is the optional variable; the value of a setting is the optional
/// variable, to be read as a number.
pub enum PathAction {
    /// Load the current heightmap
    LoadCurrent,
    /// Load the target heightmap
    LoadTarget,
    SetDetectMode(DetectionMode),
    SetPathMode(PathGenMode),
    /// Set the detection setting named by the variable
    SetDetectSetting,
    /// Set the path generation setting named by the variable
    SetPathSetting,
    /// Compute the difference map of the two heightmaps
    GenerateDifference,
    /// Detect the shapes and generate their points
    GeneratePoints,
    /// Turn the points into a trajectory
    GeneratePath,
    SaveDifference,
    SaveDebug,
    Invalid(PathError),
}

/// The action of a path generation command with the given words. `detect_setting` and
/// `path_setting` tell whether the variable names a setting of the detection mode or of the
/// path generation mode; `diff_map_generated` and `has_points` whether a difference map and
/// points have been generated.
pub open spec fn path_action(
    cmd: Seq<char>,
    var: Seq<char>,
    opt: Seq<char>,
    detect_setting: bool,
    path_setting: bool,
    diff_map_generated: bool,
    has_points: bool,
) -> PathAction {
    if cmd == "load"@ {
        if var == "current"@ {
            PathAction::LoadCurrent
        } else if var == "target"@ {
            PathAction::LoadTarget
        } else {
            PathAction::Invalid(PathError::LoadTarget)
        }
    } else if cmd == "set"@ {
        if var == "detmode"@ {
            if opt == "simple"@ {
                PathAction::SetDetectMode(DetectionMode::SIMPLE)
            } else if opt == "scattershot"@ {
                PathAction::SetDetectMode(DetectionMode::SCATTERSHOT)
            } else if opt == "voronoi"@ {
                PathAction::SetDetectMode(DetectionMode::VORONOI)
            } else {
                PathAction::Invalid(PathError::DetectionMode)
            }
        } else if var == "pathmode"@ {
            if opt == "raw"@ {
                PathAction::SetPathMode(PathGenMode::RAW)
            } else if opt == "graph"@ {
                PathAction::SetPathMode(PathGenMode::GRAPH)
            } else if opt == "nearest_neighbour"@ {
                PathAction::SetPathMode(PathGenMode::NEARESTNEIGHBOUR)
            } else if opt == "shape_neighbour"@ {
                PathAction::SetPathMode(PathGenMode::SHAPENEIGHBOUR)
            } else {
                PathAction::Invalid(PathError::PathGenMode)
            }
        } else if detect_setting {
            PathAction::SetDetectSetting
        } else if path_setting {
            PathAction::SetPathSetting
        } else {
            PathAction::Invalid(PathError::SetOption)
        }
    } else if cmd == "generate"@ {
        if var == "difference"@ {
            PathAction::GenerateDifference
        } else if var == "points"@ {
            if diff_map_generated {
                PathAction::GeneratePoints
            } else {
                PathAction::Invalid(PathError::NoDifferenceMap)
            }
        } else if var == "path"@ {
            if has_points {
                PathAction::GeneratePath
            } else {
                PathAction::Invalid(PathError::NoPoints)
            }
        } else {
            PathAction::Invalid(PathError::GenerateOption)
        }
    } else if cmd == "save"@ {
        if var == "difference"@ {
            PathAction::SaveDifference
        } else if var == "debug"@ {
            PathAction::SaveDebug
        } else {
            PathAction::Invalid(PathError::SaveOption)
        }
    } else {
        PathAction::Invalid(PathError::UnrecognisedCommand)
    }
}

///Parse the user command related to the path generation. `detect_keys` and `path_keys` are
///the names of the settings of the current detection and path generation modes.
pub fn path_gen_parse_input(
    cmd_var: &CommandWords,
    detect_keys: &Vec<Vec<char>>,
    path_keys: &Vec<Vec<char>>,
    diff_map_generated: bool,
    has_points: bool,
) -> (r: PathAction)
    ensures
        r == path_action(
            cmd_var.cmd@,
            cmd_var.var@,
            cmd_var.opt_var@,
            detect_keys@.map_values(|k: Vec<char>| k@).contains(cmd_var.var@),
            path_keys@.map_values(|k: Vec<char>| k@).contains(cmd_var.var@),
            diff_map_generated,
            has_points,
        ),
{
    let cmd = &cmd_var.cmd;
    let var = &cmd_var.var;
    let opt_var = &cmd_var.opt_var;
    if word_is(cmd, "load") {
        if word_is(var, "current") {
            PathAction::LoadCurrent
        } else if word_is(var, "target") {
            PathAction::LoadTarget
        } else {
            PathAction::Invalid(PathError::LoadTarget)
        }
    } else if word_is(cmd, "set") {
        if word_is(var, "detmode") {
            if word_is(opt_var, "simple") {
                PathAction::SetDetectMode(DetectionMode::SIMPLE)
            } else if word_is(opt_var, "scattershot") {
                PathAction::SetDetectMode(DetectionMode::SCATTERSHOT)
            } else if word_is(opt_var, "voronoi") {
                PathAction::SetDetectMode(DetectionMode::VORONOI)
            } else {
                PathAction::Invalid(PathError::DetectionMode)
            }
        } else if word_is(var, "pathmode") {
            if word_is(opt_var, "raw") {
                PathAction::SetPathMode(PathGenMode::RAW)
            } else if word_is(opt_var, "graph") {
                PathAction::SetPathMode(PathGenMode::GRAPH)
            } else if word_is(opt_var, "nearest_neighbour") {
                PathAction::SetPathMode(PathGenMode::NEARESTNEIGHBOUR)
            } else if word_is(opt_var, "shape_neighbour") {
                PathAction::SetPathMode(PathGenMode::SHAPENEIGHBOUR)
            } else {
                PathAction::Invalid(PathError::PathGenMode)
            }
        } else if is_key(var, detect_keys) {
            PathAction::SetDetectSetting
        } else if is_key(var, path_keys) {
            PathAction::SetPathSetting
        } else {
            PathAction::Invalid(PathError::SetOption)
        }
    } else if word_is(cmd, "generate") {
        if word_is(var, "difference") {
            PathAction::GenerateDifference
        } else if word_is(var, "points") {
            if diff_map_generated {
                PathAction::GeneratePoints
            } else {
                PathAction::Invalid(PathError::NoDifferenceMap)
            }
        } else if word_is(var, "path") {
            if has_points {
                PathAction::GeneratePath
            } else {
                PathAction::Invalid(PathError::NoPoints)
            }
        } else {
            PathAction::Invalid(PathError::GenerateOption)
        }
    } else if word_is(cmd, "save") {
        if word_is(var, "difference") {
            PathAction::SaveDifference
        } else if word_is(var, "debug") {
            PathAction::SaveDebug
        } else {
            PathAction::Invalid(PathError::SaveOption)
        }
    } else {
        PathAction::Invalid(PathError::UnrecognisedCommand)
    }
}

/// `generate path` builds the path whenever points have been generated, whatever the state
/// of the difference map, and is refused with "No points" otherwise
pub proof fn lemma_generate_path(
    opt: Seq<char>,
    detect_setting: bool,
    path_setting: bool,
    diff_map_generated: bool,
    has_points: bool,
)
    ensures
        path_action("generate"@, "path"@, opt, detect_setting, path_setting, diff_map_generated, has_points)
            == if has_points {
            PathAction::GeneratePath
        } else {
            PathAction::Invalid(PathError::NoPoints)
        },
{
    reveal_strlit("generate");
    reveal_strlit("path");
    reveal_strlit("load");
    reveal_strlit("set");
    reveal_strlit("difference");
    reveal_strlit("points");
    assert("generate"@.len() != "load"@.len());
    assert("generate"@.len() != "set"@.len());
    assert("path"@.len() != "difference"@.len());
    assert("path"@.len() != "points"@.len());
}

/// `generate points` generates the points whenever a difference map has been generated,
/// whatever points exist, and is refused with "No difference map" otherwise
pub proof fn lemma_generate_points(
    opt: Seq<char>,
    detect_setting: bool,
    path_setting: bool,
    diff_map_generated: bool,
    has_points: bool,
)
    ensures
        path_action("generate"@, "points"@, opt, detect_setting, path_setting, diff_map_generated, has_points)
            == if diff_map_generated {
            PathAction::GeneratePoints
        } else {
            PathAction::Invalid(PathError::NoDifferenceMap)
        },
{
    reveal_strlit("generate");
    reveal_strlit("load");
    reveal_strlit("set");
    reveal_strlit("difference");
    reveal_strlit("points");
    assert("generate"@.len() != "load"@.len());
    assert("generate"@.len() != "set"@.len());
    assert("points"@.len() != "difference"@.len());
}

/// Whether a difference map or points exist changes only what `generate points` and
/// `generate path` give: every other command gives the same action either way
pub proof fn lemma_state_only_guards_generation(
    cmd: Seq<char>,
    var: Seq<char>,
    opt: Seq<char>,
    detect_setting: bool,
    path_setting: bool,
    diff1: bool,
    points1: bool,
    diff2: bool,
    points2: bool,
)
    requires
        !(cmd == "generate"@ && (var == "points"@ || var == "path"@)),
    ensures
        path_action(cmd, var, opt, detect_setting, path_setting, diff1, points1) == path_action(
            cmd,
            var,
            opt,
            detect_setting,
            path_setting,
            diff2,
            points2,
        ),
{
}

} // verus!
