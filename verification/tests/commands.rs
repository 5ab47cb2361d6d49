use deformpath::app::DeformType;
use deformpath::trajectorygen::{DetectionMode, PathGenMode};
use deformpath::update::update_core::CommandWords;
use deformpath::update::update_hmap_gen::{
    hmap_gen_parse_input, regenerates_after, HmapAction, HmapError,
};
use deformpath::update::update_pathmoving_gen::{path_gen_parse_input, PathAction, PathError};

fn words(cmd: &str, var: &str, opt: &str) -> CommandWords {
    CommandWords { cmd: cmd.chars().collect(), var: var.chars().collect(), opt_var: opt.chars().collect() }
}

fn keys(names: &[&str]) -> Vec<Vec<char>> {
    names.iter().map(|n| n.chars().collect()).collect()
}

fn hmap(cmd: &str, var: &str, opt: &str) -> HmapAction {
    hmap_gen_parse_input(&words(cmd, var, opt), &keys(&["thickness_two"]), true)
}

fn path(cmd: &str, var: &str, opt: &str, diff: bool, points: bool) -> PathAction {
    path_gen_parse_input(
        &words(cmd, var, opt),
        &keys(&["tool_width", "spacing"]),
        &keys(&["max_edge"]),
        diff,
        points,
    )
}

#[test]
fn hmap_set_shape() {
    assert_eq!(hmap("set", "shape", "line"), HmapAction::SetShape(DeformType::LINE));
    assert_eq!(hmap("set", "shape", "circle"), HmapAction::SetShape(DeformType::CIRCLE));
    assert_eq!(hmap("set", "shape", "rectangle"), HmapAction::SetShape(DeformType::RECTANGLE));
    assert_eq!(hmap("set", "shape", "none"), HmapAction::Invalid(HmapError::ShapeOption));
}

#[test]
fn hmap_set_values() {
    assert_eq!(hmap("set", "posx", "3"), HmapAction::SetPosX);
    assert_eq!(hmap("set", "posy", "3"), HmapAction::SetPosY);
    assert_eq!(hmap("set", "rot", "3"), HmapAction::SetRotation);
    assert_eq!(hmap("set", "thickness", "3"), HmapAction::SetThickness);
    assert_eq!(hmap("set", "depth", "3"), HmapAction::SetDepth);
    assert_eq!(hmap("set", "thickness_two", "3"), HmapAction::SetSetting);
    assert_eq!(hmap("set", "colour", "3"), HmapAction::Invalid(HmapError::SetOption));
}

#[test]
fn hmap_toggles() {
    assert_eq!(hmap("set", "overlay", "on"), HmapAction::SetOverlay(true));
    assert_eq!(hmap("set", "overlay", "off"), HmapAction::SetOverlay(false));
    assert_eq!(hmap("set", "overlay", "none"), HmapAction::Invalid(HmapError::OverlayOption));
    assert_eq!(hmap("set", "autogen", "on"), HmapAction::SetAutogen(true));
    assert_eq!(hmap("set", "autogen", "off"), HmapAction::SetAutogen(false));
    assert_eq!(hmap("set", "autogen", "yes"), HmapAction::Invalid(HmapError::AutogenOption));
}

#[test]
fn hmap_load_save_deform() {
    assert_eq!(hmap("load", "blank", "none"), HmapAction::LoadBlank);
    assert_eq!(hmap("load", "map.png", "none"), HmapAction::Load);
    let no_blank = hmap_gen_parse_input(&words("load", "blank", "none"), &keys(&[]), false);
    assert_eq!(no_blank, HmapAction::Load);
    assert_eq!(hmap("save", "gen", "out.png"), HmapAction::SaveGenerated);
    assert_eq!(hmap("save", "created", "out.png"), HmapAction::SaveCreated);
    assert_eq!(hmap("save", "other", "out.png"), HmapAction::Invalid(HmapError::SaveOption));
    assert_eq!(hmap("deform", "generate", "none"), HmapAction::Generate);
    assert_eq!(hmap("deform", "apply", "none"), HmapAction::Apply);
    assert_eq!(hmap("deform", "twist", "none"), HmapAction::Invalid(HmapError::GenerationCommand));
    assert_eq!(hmap("jump", "x", "none"), HmapAction::Invalid(HmapError::UnrecognisedCommand));
}

#[test]
fn hmap_error_messages() {
    assert_eq!(
        HmapError::ShapeOption.message(),
        "Invalid shape option - Current options are: [LINE, CIRCLE, RECTANGLE]"
    );
    assert_eq!(HmapError::OverlayOption.message(), "Invalid overlay option!");
    assert_eq!(HmapError::AutogenOption.message(), "Invalid autogen option!");
    assert_eq!(HmapError::SetOption.message(), "Invalid set option!");
    assert_eq!(HmapError::SaveOption.message(), "Invalid save option");
    assert_eq!(HmapError::GenerationCommand.message(), "Invalid generation command");
    assert_eq!(HmapError::UnrecognisedCommand.message(), "Unrecognised command!");
}

#[test]
fn regeneration_after_set() {
    assert!(regenerates_after(&HmapAction::SetPosX, true, true));
    assert!(!regenerates_after(&HmapAction::SetPosX, true, false));
    assert!(!regenerates_after(&HmapAction::SetPosX, false, true));
    assert!(!regenerates_after(&HmapAction::Generate, true, true));
    assert!(!regenerates_after(&HmapAction::Invalid(HmapError::SetOption), true, true));
}

#[test]
fn path_load() {
    assert!(matches!(path("load", "current", "a.png", false, false), PathAction::LoadCurrent));
    assert!(matches!(path("load", "target", "a.png", false, false), PathAction::LoadTarget));
    assert!(matches!(
        path("load", "other", "a.png", false, false),
        PathAction::Invalid(PathError::LoadTarget)
    ));
}

#[test]
fn path_set_modes() {
    assert!(matches!(
        path("set", "detmode", "simple", false, false),
        PathAction::SetDetectMode(DetectionMode::SIMPLE)
    ));
    assert!(matches!(
        path("set", "detmode", "scattershot", false, false),
        PathAction::SetDetectMode(DetectionMode::SCATTERSHOT)
    ));
    assert!(matches!(
        path("set", "detmode", "voronoi", false, false),
        PathAction::SetDetectMode(DetectionMode::VORONOI)
    ));
    assert!(matches!(
        path("set", "detmode", "grid", false, false),
        PathAction::Invalid(PathError::DetectionMode)
    ));
    assert!(matches!(
        path("set", "pathmode", "raw", false, false),
        PathAction::SetPathMode(PathGenMode::RAW)
    ));
    assert!(matches!(
        path("set", "pathmode", "graph", false, false),
        PathAction::SetPathMode(PathGenMode::GRAPH)
    ));
    assert!(matches!(
        path("set", "pathmode", "nearest_neighbour", false, false),
        PathAction::SetPathMode(PathGenMode::NEARESTNEIGHBOUR)
    ));
    assert!(matches!(
        path("set", "pathmode", "shape_neighbour", false, false),
        PathAction::SetPathMode(PathGenMode::SHAPENEIGHBOUR)
    ));
    assert!(matches!(
        path("set", "pathmode", "spiral", false, false),
        PathAction::Invalid(PathError::PathGenMode)
    ));
}

#[test]
fn path_set_settings() {
    assert!(matches!(path("set", "spacing", "2", false, false), PathAction::SetDetectSetting));
    assert!(matches!(path("set", "max_edge", "2", false, false), PathAction::SetPathSetting));
    assert!(matches!(
        path("set", "colour", "2", false, false),
        PathAction::Invalid(PathError::SetOption)
    ));
}

#[test]
fn path_generate() {
    assert!(matches!(path("generate", "difference", "none", false, false), PathAction::GenerateDifference));
    assert!(matches!(path("generate", "points", "none", true, false), PathAction::GeneratePoints));
    assert!(matches!(
        path("generate", "points", "none", false, true),
        PathAction::Invalid(PathError::NoDifferenceMap)
    ));
    assert!(matches!(path("generate", "path", "none", false, true), PathAction::GeneratePath));
    assert!(matches!(
        path("generate", "path", "none", true, false),
        PathAction::Invalid(PathError::NoPoints)
    ));
    assert!(matches!(
        path("generate", "mesh", "none", true, true),
        PathAction::Invalid(PathError::GenerateOption)
    ));
}

#[test]
fn path_save_and_unknown() {
    assert!(matches!(path("save", "difference", "d.png", false, false), PathAction::SaveDifference));
    assert!(matches!(path("save", "debug", "d.png", false, false), PathAction::SaveDebug));
    assert!(matches!(
        path("save", "points", "d.png", false, false),
        PathAction::Invalid(PathError::SaveOption)
    ));
    assert!(matches!(
        path("run", "x", "none", false, false),
        PathAction::Invalid(PathError::UnrecognisedCommand)
    ));
}

#[test]
fn path_error_messages() {
    assert_eq!(PathError::LoadTarget.message(), "Invalid load target");
    assert_eq!(PathError::DetectionMode.message(), "invalid detection mode");
    assert_eq!(PathError::PathGenMode.message(), "invalid pathgen mode");
    assert_eq!(PathError::SetOption.message(), "Invalid set option!");
    assert_eq!(PathError::NoDifferenceMap.message(), "No difference map generated");
    assert_eq!(PathError::NoPoints.message(), "No points to create path from!");
    assert_eq!(PathError::GenerateOption.message(), "Invalid generate option");
    assert_eq!(PathError::SaveOption.message(), "Invalid save option");
    assert_eq!(PathError::UnrecognisedCommand.message(), "Unrecognised command!");
}

#[test]
fn mode_names() {
    assert_eq!(DetectionMode::SCATTERSHOT.to_string(), "SCATTERSHOT");
    assert_eq!(PathGenMode::SHAPENEIGHBOUR.to_string(), "NEAREST NEIGHBOUR (BY SHAPE)");
    assert_eq!(PathGenMode::NEARESTNEIGHBOUR.to_string(), "NEAREST NEIGHBOUR");
    assert_eq!(DeformType::CIRCLE.to_string(), "Circle");
    assert_eq!(DeformType::default(), DeformType::NONE);
    assert!(matches!(DetectionMode::default(), DetectionMode::SIMPLE));
    assert!(matches!(PathGenMode::default(), PathGenMode::GRAPH));
    assert_eq!(
        DeformType::VARIANTS,
        [DeformType::LINE, DeformType::CIRCLE, DeformType::RECTANGLE]
    );
}
