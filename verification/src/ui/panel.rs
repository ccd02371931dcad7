//! Settings that the control panel edits: shading modes, materials, mesh and
//! cut choices, panel tabs and the actions a frame of the panel requests.
use vstd::prelude::*;
use crate::color_scheme::ColorScheme;
use crate::export::ExportFormat;
use crate::ui::overrides::{find_override, override_of, overrides_map, remove_override, set_override};

verus! {

/// Rendering modes offered for the mesh surface.
#[derive(Debug, Clone, Copy, PartialEq, Eq, Structural)]
pub enum ShaderMode {
    PBR,
    BlinnPhong,
    Clay,
    Matcap,
    NormalVis,
    Toon,
    RimLight,
    WireframeSolid,
    XRay,
    FresnelGlow,
    Iridescence,
    Hatching,
    Stippling,
    CheckerUV,
    CurvatureHeat,
    AO,
    SSS,
    ClearCoat,
    Anisotropic,
    CelShading,
    Gooch,
    HemiLight,
    Contour,
    FlatShading,
    Glass,
    Chrome,
    Plastic,
    Metallic,
    Velvet,
    Holographic,
    GhostTransparent,
    NeonGlow,
    Crystal,
    Liquid,
    Fire,
    ForceField,
    Blueprint,
    DepthVis,
    Rainbow,
    Frost,
    Plasma,
    Sketch,
}

/// Menu label of a shading mode.
pub open spec fn shader_label(m: ShaderMode) -> Seq<char> {
    match m {
        ShaderMode::PBR => "PBR Metallic-Roughness"@,
        ShaderMode::BlinnPhong => "Enhanced Blinn-Phong"@,
        ShaderMode::Clay => "Clay / Studio"@,
        ShaderMode::Matcap => "Matcap Style"@,
        ShaderMode::NormalVis => "Normal Visualization"@,
        ShaderMode::Toon => "Toon Shading"@,
        ShaderMode::RimLight => "Rim Lighting"@,
        ShaderMode::WireframeSolid => "Wireframe Overlay"@,
        ShaderMode::XRay => "X-Ray (Enhanced)"@,
        ShaderMode::FresnelGlow => "Fresnel Glow"@,
        ShaderMode::Iridescence => "Iridescence"@,
        ShaderMode::Hatching => "Hatching"@,
        ShaderMode::Stippling => "Stippling"@,
        ShaderMode::CheckerUV => "Checkerboard UV"@,
        ShaderMode::CurvatureHeat => "Curvature Heatmap"@,
        ShaderMode::AO => "AO Approximation"@,
        ShaderMode::SSS => "Subsurface Scattering"@,
        ShaderMode::ClearCoat => "Clear Coat"@,
        ShaderMode::Anisotropic => "Anisotropic"@,
        ShaderMode::CelShading => "Cel-Shading (4 Tones)"@,
        ShaderMode::Gooch => "Gooch (Warm-Cool)"@,
        ShaderMode::HemiLight => "Hemispheric Lighting"@,
        ShaderMode::Contour => "Contour / Silhouette"@,
        ShaderMode::FlatShading => "Flat Shading"@,
        ShaderMode::Glass => "Glass (Enhanced)"@,
        ShaderMode::Chrome => "Chrome / Mirror"@,
        ShaderMode::Plastic => "Plastic"@,
        ShaderMode::Metallic => "Metallic"@,
        ShaderMode::Velvet => "Velvet"@,
        ShaderMode::Holographic => "Holographic"@,
        ShaderMode::GhostTransparent => "Ghost Transparency"@,
        ShaderMode::NeonGlow => "Neon Glow"@,
        ShaderMode::Crystal => "Crystal / Diamond"@,
        ShaderMode::Liquid => "Liquid / Water"@,
        ShaderMode::Fire => "Fire / Lava"@,
        ShaderMode::ForceField => "Force Field"@,
        ShaderMode::Blueprint => "Blueprint"@,
        ShaderMode::DepthVis => "Depth Visualization"@,
        ShaderMode::Rainbow => "Rainbow Spectrum"@,
        ShaderMode::Frost => "Frost / Ice"@,
        ShaderMode::Plasma => "Plasma / Energy"@,
        ShaderMode::Sketch => "Sketch / Pencil"@,
    }
}

/// Length and first three characters of a label.
spec fn label_key(s: Seq<char>) -> (nat, char, char, char) {
    (s.len(), s[0], s[1], s[2])
}

/// `label_key` of each mode's label.
spec fn shader_key(m: ShaderMode) -> (nat, char, char, char) {
    match m {
        ShaderMode::PBR => (22nat, 'P', 'B', 'R'),
        ShaderMode::BlinnPhong => (20nat, 'E', 'n', 'h'),
        ShaderMode::Clay => (13nat, 'C', 'l', 'a'),
        ShaderMode::Matcap => (12nat, 'M', 'a', 't'),
        ShaderMode::NormalVis => (20nat, 'N', 'o', 'r'),
        ShaderMode::Toon => (12nat, 'T', 'o', 'o'),
        ShaderMode::RimLight => (12nat, 'R', 'i', 'm'),
        ShaderMode::WireframeSolid => (17nat, 'W', 'i', 'r'),
        ShaderMode::XRay => (16nat, 'X', '-', 'R'),
        ShaderMode::FresnelGlow => (12nat, 'F', 'r', 'e'),
        ShaderMode::Iridescence => (11nat, 'I', 'r', 'i'),
        ShaderMode::Hatching => (8nat, 'H', 'a', 't'),
        ShaderMode::Stippling => (9nat, 'S', 't', 'i'),
        ShaderMode::CheckerUV => (15nat, 'C', 'h', 'e'),
        ShaderMode::CurvatureHeat => (17nat, 'C', 'u', 'r'),
        ShaderMode::AO => (16nat, 'A', 'O', ' '),
        ShaderMode::SSS => (21nat, 'S', 'u', 'b'),
        ShaderMode::ClearCoat => (10nat, 'C', 'l', 'e'),
        ShaderMode::Anisotropic => (11nat, 'A', 'n', 'i'),
        ShaderMode::CelShading => (21nat, 'C', 'e', 'l'),
        ShaderMode::Gooch => (17nat, 'G', 'o', 'o'),
        ShaderMode::HemiLight => (20nat, 'H', 'e', 'm'),
        ShaderMode::Contour => (20nat, 'C', 'o', 'n'),
        ShaderMode::FlatShading => (12nat, 'F', 'l', 'a'),
        ShaderMode::Glass => (16nat, 'G', 'l', 'a'),
        ShaderMode::Chrome => (15nat, 'C', 'h', 'r'),
        ShaderMode::Plastic => (7nat, 'P', 'l', 'a'),
        ShaderMode::Metallic => (8nat, 'M', 'e', 't'),
        ShaderMode::Velvet => (6nat, 'V', 'e', 'l'),
        ShaderMode::Holographic => (11nat, 'H', 'o', 'l'),
        ShaderMode::GhostTransparent => (18nat, 'G', 'h', 'o'),
        ShaderMode::NeonGlow => (9nat, 'N', 'e', 'o'),
        ShaderMode::Crystal => (17nat, 'C', 'r', 'y'),
        ShaderMode::Liquid => (14nat, 'L', 'i', 'q'),
        ShaderMode::Fire => (11nat, 'F', 'i', 'r'),
        ShaderMode::ForceField => (11nat, 'F', 'o', 'r'),
        ShaderMode::Blueprint => (9nat, 'B', 'l', 'u'),
        ShaderMode::DepthVis => (19nat, 'D', 'e', 'p'),
        ShaderMode::Rainbow => (16nat, 'R', 'a', 'i'),
        ShaderMode::Frost => (11nat, 'F', 'r', 'o'),
        ShaderMode::Plasma => (15nat, 'P', 'l', 'a'),
        ShaderMode::Sketch => (15nat, 'S', 'k', 'e'),
    }
}

proof fn lemma_shader_label_key(m: ShaderMode)
    ensures
        label_key(shader_label(m)) == shader_key(m),
{
    match m {
        ShaderMode::PBR => {
            reveal_strlit("PBR Metallic-Roughness");
        },
        ShaderMode::BlinnPhong => {
            reveal_strlit("Enhanced Blinn-Phong");
        },
        ShaderMode::Clay => {
            reveal_strlit("Clay / Studio");
        },
        ShaderMode::Matcap => {
            reveal_strlit("Matcap Style");
        },
        ShaderMode::NormalVis => {
            reveal_strlit("Normal Visualization");
        },
        ShaderMode::Toon => {
            reveal_strlit("Toon Shading");
        },
        ShaderMode::RimLight => {
            reveal_strlit("Rim Lighting");
        },
        ShaderMode::WireframeSolid => {
            reveal_strlit("Wireframe Overlay");
        },
        ShaderMode::XRay => {
            reveal_strlit("X-Ray (Enhanced)");
        },
        ShaderMode::FresnelGlow => {
            reveal_strlit("Fresnel Glow");
        },
        ShaderMode::Iridescence => {
            reveal_strlit("Iridescence");
        },
        ShaderMode::Hatching => {
            reveal_strlit("Hatching");
        },
        ShaderMode::Stippling => {
            reveal_strlit("Stippling");
        },
        ShaderMode::CheckerUV => {
            reveal_strlit("Checkerboard UV");
        },
        ShaderMode::CurvatureHeat => {
            reveal_strlit("Curvature Heatmap");
        },
        ShaderMode::AO => {
            reveal_strlit("AO Approximation");
        },
        ShaderMode::SSS => {
            reveal_strlit("Subsurface Scattering");
        },
        ShaderMode::ClearCoat => {
            reveal_strlit("Clear Coat");
        },
        ShaderMode::Anisotropic => {
            reveal_strlit("Anisotropic");
        },
        ShaderMode::CelShading => {
            reveal_strlit("Cel-Shading (4 Tones)");
        },
        ShaderMode::Gooch => {
            reveal_strlit("Gooch (Warm-Cool)");
        },
        ShaderMode::HemiLight => {
            reveal_strlit("Hemispheric Lighting");
        },
        ShaderMode::Contour => {
            reveal_strlit("Contour / Silhouette");
        },
        ShaderMode::FlatShading => {
            reveal_strlit("Flat Shading");
        },
        ShaderMode::Glass => {
            reveal_strlit("Glass (Enhanced)");
        },
        ShaderMode::Chrome => {
            reveal_strlit("Chrome / Mirror");
        },
        ShaderMode::Plastic => {
            reveal_strlit("Plastic");
        },
        ShaderMode::Metallic => {
            reveal_strlit("Metallic");
        },
        ShaderMode::Velvet => {
            reveal_strlit("Velvet");
        },
        ShaderMode::Holographic => {
            reveal_strlit("Holographic");
        },
        ShaderMode::GhostTransparent => {
            reveal_strlit("Ghost Transparency");
        },
        ShaderMode::NeonGlow => {
            reveal_strlit("Neon Glow");
        },
        ShaderMode::Crystal => {
            reveal_strlit("Crystal / Diamond");
        },
        ShaderMode::Liquid => {
            reveal_strlit("Liquid / Water");
        },
        ShaderMode::Fire => {
            reveal_strlit("Fire / Lava");
        },
        ShaderMode::ForceField => {
            reveal_strlit("Force Field");
        },
        ShaderMode::Blueprint => {
            reveal_strlit("Blueprint");
        },
        ShaderMode::DepthVis => {
            reveal_strlit("Depth Visualization");
        },
        ShaderMode::Rainbow => {
            reveal_strlit("Rainbow Spectrum");
        },
        ShaderMode::Frost => {
            reveal_strlit("Frost / Ice");
        },
        ShaderMode::Plasma => {
            reveal_strlit("Plasma / Energy");
        },
        ShaderMode::Sketch => {
            reveal_strlit("Sketch / Pencil");
        },
    }
}

/// No two shading modes share a menu label.
pub proof fn lemma_shader_labels_distinct(a: ShaderMode, b: ShaderMode)
    requires
        a != b,
    ensures
        shader_label(a) != shader_label(b),
{
    lemma_shader_label_key(a);
    lemma_shader_label_key(b);
}



/// Group a shading mode is listed under.
pub open spec fn shader_category(m: ShaderMode) -> Seq<char> {
    match m {
        ShaderMode::PBR | ShaderMode::BlinnPhong | ShaderMode::Clay | ShaderMode::Plastic | ShaderMode::Metallic | ShaderMode::ClearCoat | ShaderMode::Anisotropic | ShaderMode::Velvet => "Realistic"@,
        ShaderMode::Matcap | ShaderMode::NormalVis | ShaderMode::CheckerUV | ShaderMode::CurvatureHeat | ShaderMode::AO | ShaderMode::DepthVis | ShaderMode::FlatShading => "Analysis"@,
        ShaderMode::Toon | ShaderMode::RimLight | ShaderMode::CelShading | ShaderMode::Gooch | ShaderMode::HemiLight | ShaderMode::Contour | ShaderMode::Sketch => "Stylized"@,
        ShaderMode::XRay | ShaderMode::Glass | ShaderMode::GhostTransparent | ShaderMode::Frost | ShaderMode::Liquid => "Transparent"@,
        ShaderMode::FresnelGlow | ShaderMode::Iridescence | ShaderMode::Holographic | ShaderMode::NeonGlow | ShaderMode::ForceField | ShaderMode::Plasma | ShaderMode::Rainbow => "Effects"@,
        ShaderMode::WireframeSolid | ShaderMode::Hatching | ShaderMode::Stippling | ShaderMode::Blueprint => "Technical"@,
        ShaderMode::SSS | ShaderMode::Chrome | ShaderMode::Crystal | ShaderMode::Fire => "Special"@,
    }
}

/// Every shading mode, in menu order.
pub open spec fn all_shader_modes() -> Seq<ShaderMode> {
    seq![
        ShaderMode::PBR,
        ShaderMode::BlinnPhong,
        ShaderMode::Clay,
        ShaderMode::Matcap,
        ShaderMode::NormalVis,
        ShaderMode::Toon,
        ShaderMode::RimLight,
        ShaderMode::WireframeSolid,
        ShaderMode::XRay,
        ShaderMode::FresnelGlow,
        ShaderMode::Iridescence,
        ShaderMode::Hatching,
        ShaderMode::Stippling,
        ShaderMode::CheckerUV,
        ShaderMode::CurvatureHeat,
        ShaderMode::AO,
        ShaderMode::SSS,
        ShaderMode::ClearCoat,
        ShaderMode::Anisotropic,
        ShaderMode::CelShading,
        ShaderMode::Gooch,
        ShaderMode::HemiLight,
        ShaderMode::Contour,
        ShaderMode::FlatShading,
        ShaderMode::Glass,
        ShaderMode::Chrome,
        ShaderMode::Plastic,
        ShaderMode::Metallic,
        ShaderMode::Velvet,
        ShaderMode::Holographic,
        ShaderMode::GhostTransparent,
        ShaderMode::NeonGlow,
        ShaderMode::Crystal,
        ShaderMode::Liquid,
        ShaderMode::Fire,
        ShaderMode::ForceField,
        ShaderMode::Blueprint,
        ShaderMode::DepthVis,
        ShaderMode::Rainbow,
        ShaderMode::Frost,
        ShaderMode::Plasma,
        ShaderMode::Sketch,
    ]
}

impl ShaderMode {
    /// Every shading mode, in menu order.
    pub fn all() -> (r: &'static [ShaderMode])
        ensures
            r@ == all_shader_modes(),
    {
        &[
            ShaderMode::PBR,
            ShaderMode::BlinnPhong,
            ShaderMode::Clay,
            ShaderMode::Matcap,
            ShaderMode::NormalVis,
            ShaderMode::Toon,
            ShaderMode::RimLight,
            ShaderMode::WireframeSolid,
            ShaderMode::XRay,
            ShaderMode::FresnelGlow,
            ShaderMode::Iridescence,
            ShaderMode::Hatching,
            ShaderMode::Stippling,
            ShaderMode::CheckerUV,
            ShaderMode::CurvatureHeat,
            ShaderMode::AO,
            ShaderMode::SSS,
            ShaderMode::ClearCoat,
            ShaderMode::Anisotropic,
            ShaderMode::CelShading,
            ShaderMode::Gooch,
            ShaderMode::HemiLight,
            ShaderMode::Contour,
            ShaderMode::FlatShading,
            ShaderMode::Glass,
            ShaderMode::Chrome,
            ShaderMode::Plastic,
            ShaderMode::Metallic,
            ShaderMode::Velvet,
            ShaderMode::Holographic,
            ShaderMode::GhostTransparent,
            ShaderMode::NeonGlow,
            ShaderMode::Crystal,
            ShaderMode::Liquid,
            ShaderMode::Fire,
            ShaderMode::ForceField,
            ShaderMode::Blueprint,
            ShaderMode::DepthVis,
            ShaderMode::Rainbow,
            ShaderMode::Frost,
            ShaderMode::Plasma,
            ShaderMode::Sketch,
        ]
    }

    /// Menu label of the mode.
    pub fn label(&self) -> (r: &'static str)
        ensures
            r@ == shader_label(*self),
    {
        match self {
            ShaderMode::PBR => "PBR Metallic-Roughness",
            ShaderMode::BlinnPhong => "Enhanced Blinn-Phong",
            ShaderMode::Clay => "Clay / Studio",
            ShaderMode::Matcap => "Matcap Style",
            ShaderMode::NormalVis => "Normal Visualization",
            ShaderMode::Toon => "Toon Shading",
            ShaderMode::RimLight => "Rim Lighting",
            ShaderMode::WireframeSolid => "Wireframe Overlay",
            ShaderMode::XRay => "X-Ray (Enhanced)",
            ShaderMode::FresnelGlow => "Fresnel Glow",
            ShaderMode::Iridescence => "Iridescence",
            ShaderMode::Hatching => "Hatching",
            ShaderMode::Stippling => "Stippling",
            ShaderMode::CheckerUV => "Checkerboard UV",
            ShaderMode::CurvatureHeat => "Curvature Heatmap",
            ShaderMode::AO => "AO Approximation",
            ShaderMode::SSS => "Subsurface Scattering",
            ShaderMode::ClearCoat => "Clear Coat",
            ShaderMode::Anisotropic => "Anisotropic",
            ShaderMode::CelShading => "Cel-Shading (4 Tones)",
            ShaderMode::Gooch => "Gooch (Warm-Cool)",
            ShaderMode::HemiLight => "Hemispheric Lighting",
            ShaderMode::Contour => "Contour / Silhouette",
            ShaderMode::FlatShading => "Flat Shading",
            ShaderMode::Glass => "Glass (Enhanced)",
            ShaderMode::Chrome => "Chrome / Mirror",
            ShaderMode::Plastic => "Plastic",
            ShaderMode::Metallic => "Metallic",
            ShaderMode::Velvet => "Velvet",
            ShaderMode::Holographic => "Holographic",
            ShaderMode::GhostTransparent => "Ghost Transparency",
            ShaderMode::NeonGlow => "Neon Glow",
            ShaderMode::Crystal => "Crystal / Diamond",
            ShaderMode::Liquid => "Liquid / Water",
            ShaderMode::Fire => "Fire / Lava",
            ShaderMode::ForceField => "Force Field",
            ShaderMode::Blueprint => "Blueprint",
            ShaderMode::DepthVis => "Depth Visualization",
            ShaderMode::Rainbow => "Rainbow Spectrum",
            ShaderMode::Frost => "Frost / Ice",
            ShaderMode::Plasma => "Plasma / Energy",
            ShaderMode::Sketch => "Sketch / Pencil",
        }
    }

    /// Position of the mode in `all()`, as passed to the shader.
    pub fn index(self) -> (r: usize)
        ensures
            r < all_shader_modes().len(),
            all_shader_modes()[r as int] == self,
    {
        match self {
            ShaderMode::PBR => 0,
            ShaderMode::BlinnPhong => 1,
            ShaderMode::Clay => 2,
            ShaderMode::Matcap => 3,
            ShaderMode::NormalVis => 4,
            ShaderMode::Toon => 5,
            ShaderMode::RimLight => 6,
            ShaderMode::WireframeSolid => 7,
            ShaderMode::XRay => 8,
            ShaderMode::FresnelGlow => 9,
            ShaderMode::Iridescence => 10,
            ShaderMode::Hatching => 11,
            ShaderMode::Stippling => 12,
            ShaderMode::CheckerUV => 13,
            ShaderMode::CurvatureHeat => 14,
            ShaderMode::AO => 15,
            ShaderMode::SSS => 16,
            ShaderMode::ClearCoat => 17,
            ShaderMode::Anisotropic => 18,
            ShaderMode::CelShading => 19,
            ShaderMode::Gooch => 20,
            ShaderMode::HemiLight => 21,
            ShaderMode::Contour => 22,
            ShaderMode::FlatShading => 23,
            ShaderMode::Glass => 24,
            ShaderMode::Chrome => 25,
            ShaderMode::Plastic => 26,
            ShaderMode::Metallic => 27,
            ShaderMode::Velvet => 28,
            ShaderMode::Holographic => 29,
            ShaderMode::GhostTransparent => 30,
            ShaderMode::NeonGlow => 31,
            ShaderMode::Crystal => 32,
            ShaderMode::Liquid => 33,
            ShaderMode::Fire => 34,
            ShaderMode::ForceField => 35,
            ShaderMode::Blueprint => 36,
            ShaderMode::DepthVis => 37,
            ShaderMode::Rainbow => 38,
            ShaderMode::Frost => 39,
            ShaderMode::Plasma => 40,
            ShaderMode::Sketch => 41,
        }
    }

    /// Group the mode is listed under.
    pub fn category(&self) -> (r: &'static str)
        ensures
            r@ == shader_category(*self),
    {
        match self {
            ShaderMode::PBR | ShaderMode::BlinnPhong | ShaderMode::Clay | ShaderMode::Plastic | ShaderMode::Metallic | ShaderMode::ClearCoat | ShaderMode::Anisotropic | ShaderMode::Velvet => "Realistic",
            ShaderMode::Matcap | ShaderMode::NormalVis | ShaderMode::CheckerUV | ShaderMode::CurvatureHeat | ShaderMode::AO | ShaderMode::DepthVis | ShaderMode::FlatShading => "Analysis",
            ShaderMode::Toon | ShaderMode::RimLight | ShaderMode::CelShading | ShaderMode::Gooch | ShaderMode::HemiLight | ShaderMode::Contour | ShaderMode::Sketch => "Stylized",
            ShaderMode::XRay | ShaderMode::Glass | ShaderMode::GhostTransparent | ShaderMode::Frost | ShaderMode::Liquid => "Transparent",
            ShaderMode::FresnelGlow | ShaderMode::Iridescence | ShaderMode::Holographic | ShaderMode::NeonGlow | ShaderMode::ForceField | ShaderMode::Plasma | ShaderMode::Rainbow => "Effects",
            ShaderMode::WireframeSolid | ShaderMode::Hatching | ShaderMode::Stippling | ShaderMode::Blueprint => "Technical",
            ShaderMode::SSS | ShaderMode::Chrome | ShaderMode::Crystal | ShaderMode::Fire => "Special",
        }
    }
}

/// How a face is shaded: by a shader mode or by a surface material.
#[derive(Debug, Clone, Copy, PartialEq, Eq, Structural)]
pub enum FaceLook {
    Shader(ShaderMode),
    Material(MaterialType),
}

/// Surface materials a patch can be given.
#[derive(Debug, Clone, Copy, PartialEq, Eq, Structural)]
pub enum MaterialType {
    Default,
    Plastic,
    Glass,
    Transparent,
    Steel,
}

impl MaterialType {
    /// Every material, in menu order.
    pub fn all() -> (r: &'static [MaterialType])
        ensures
            r@ == seq![
                MaterialType::Default,
                MaterialType::Plastic,
                MaterialType::Glass,
                MaterialType::Transparent,
                MaterialType::Steel,
            ],
    {
        &[MaterialType::Default, MaterialType::Plastic, MaterialType::Glass, MaterialType::Transparent, MaterialType::Steel]
    }

    /// Number of the material as passed to the shader.
    pub fn index(self) -> (r: usize)
        ensures
            r == match self {
                MaterialType::Default => 0usize,
                MaterialType::Plastic => 1usize,
                MaterialType::Glass => 2usize,
                MaterialType::Transparent => 3usize,
                MaterialType::Steel => 4usize,
            },
    {
        match self {
            MaterialType::Default => 0,
            MaterialType::Plastic => 1,
            MaterialType::Glass => 2,
            MaterialType::Transparent => 3,
            MaterialType::Steel => 4,
        }
    }

    /// Display name of the material.
    pub fn name(self) -> (r: &'static str)
        ensures
            r@ == match self {
                MaterialType::Default => "Default"@,
                MaterialType::Plastic => "Plastic"@,
                MaterialType::Glass => "Glass"@,
                MaterialType::Transparent => "Transparent"@,
                MaterialType::Steel => "Steel"@,
            },
    {
        match self {
            MaterialType::Default => "Default",
            MaterialType::Plastic => "Plastic",
            MaterialType::Glass => "Glass",
            MaterialType::Transparent => "Transparent",
            MaterialType::Steel => "Steel",
        }
    }
}

/// Where the mesh comes from.
#[derive(Debug, Clone, PartialEq)]
pub enum MeshType {
    Quad,
    Delaunay,
    ObjFile(Vec<String>),
}

/// How faces are coloured.
#[derive(Debug, Clone, Copy, PartialEq, Eq, Structural)]
pub enum ColorMode {
    Solid,
    ByRegion,
}

/// Direction of a grid cut loop.
#[derive(Debug, Clone, Copy, PartialEq, Eq, Structural)]
pub enum CutDirection {
    U,
    V,
}

/// Kind of cut applied to the torus.
#[derive(Debug, Clone, Copy, PartialEq, Eq, Structural)]
pub enum CutMode {
    Grid,
    Knot,
}

impl CutMode {
    /// Display name of the cut mode.
    pub fn label(self) -> (r: &'static str)
        ensures
            r@ == match self {
                CutMode::Grid => "Grid (U/V)"@,
                CutMode::Knot => "Torus Knot"@,
            },
    {
        match self {
            CutMode::Grid => "Grid (U/V)",
            CutMode::Knot => "Torus Knot",
        }
    }
}

/// Whether the torus is shown in space or unfolded.
#[derive(Debug, Clone, Copy, PartialEq, Eq, Structural)]
pub enum ViewMode {
    Torus3D,
    Unfolded,
}

/// Tabs of the control panel, one per workflow step.
#[derive(Debug, Clone, Copy, PartialEq, Eq, Structural)]
pub enum PanelTab {
    Mesh,
    Cut,
    Shader,
    Export,
}

impl PanelTab {
    /// Every tab, in workflow order.
    pub fn all() -> (r: &'static [PanelTab])
        ensures
            r@ == seq![PanelTab::Mesh, PanelTab::Cut, PanelTab::Shader, PanelTab::Export],
    {
        &[PanelTab::Mesh, PanelTab::Cut, PanelTab::Shader, PanelTab::Export]
    }

    /// Numbered label of the tab.
    pub fn icon_label(&self) -> (r: &'static str)
        ensures
            r@ == match *self {
                PanelTab::Mesh => "1.Mesh"@,
                PanelTab::Cut => "2.Cut"@,
                PanelTab::Shader => "3.Shader"@,
                PanelTab::Export => "4.Export"@,
            },
    {
        match self {
            PanelTab::Mesh => "1.Mesh",
            PanelTab::Cut => "2.Cut",
            PanelTab::Shader => "3.Shader",
            PanelTab::Export => "4.Export",
        }
    }
}

/// What a frame of the control panel asks the application to do.
pub struct UiAction {
    pub rebuild: bool,
    pub reapply_cuts: bool,
    pub recolor: bool,
    pub export_obj: bool,
    pub export_obj_by_patch: bool,
    pub open_obj_dialog: bool,
    pub randomize_topology: bool,
    pub refresh_display: bool,
    pub toggle_view: bool,
    pub export_obj_dialog: bool,
    pub export_patch_dialog: bool,
    pub apply_patch_shaders: bool,
}

impl UiAction {
    /// No action requested.
    pub fn new() -> (r: Self)
        ensures
            !r.rebuild && !r.reapply_cuts && !r.recolor && !r.export_obj && !r.export_obj_by_patch
                && !r.open_obj_dialog && !r.randomize_topology && !r.refresh_display && !r.toggle_view
                && !r.export_obj_dialog && !r.export_patch_dialog && !r.apply_patch_shaders,
    {
        UiAction {
            rebuild: false,
            reapply_cuts: false,
            recolor: false,
            export_obj: false,
            export_obj_by_patch: false,
            open_obj_dialog: false,
            randomize_topology: false,
            refresh_display: false,
            toggle_view: false,
            export_obj_dialog: false,
            export_patch_dialog: false,
            apply_patch_shaders: false,
        }
    }
}

/// A grid cut loop: its direction, its number within the direction, and
/// whether it is shown and whether it cuts.
#[derive(Debug, Clone, Copy, PartialEq, Eq, Structural)]
pub struct CutLoop {
    pub direction: CutDirection,
    pub index: usize,
    pub active: bool,
    pub cut: bool,
}

impl CutLoop {
    /// Loop `index` of `direction`, neither shown nor cutting.
    pub fn new(direction: CutDirection, index: usize) -> (r: Self)
        ensures
            r == (CutLoop { direction, index, active: false, cut: false }),
    {
        CutLoop { direction, index, active: false, cut: false }
    }

    /// Display name of the loop: its direction and its number counted from 1.
    pub fn label(&self) -> (r: String)
        requires
            self.index < usize::MAX,
        ensures
            r@ == (match self.direction {
                CutDirection::U => "U-Loop "@,
                CutDirection::V => "V-Loop "@,
            }) + decimal((self.index + 1) as nat),
    {
        let mut s = String::new();
        match self.direction {
            CutDirection::U => s.append("U-Loop "),
            CutDirection::V => s.append("V-Loop "),
        }
        push_decimal(&mut s, self.index + 1);
        s
    }
}

/// The loops `generate_loops(num_u, num_v)` makes: `num_u` loops of `U`
/// then `num_v` of `V`, numbered from 0 within each direction.
pub open spec fn loops_spec(num_u: nat, num_v: nat) -> Seq<CutLoop> {
    Seq::new(
        num_u + num_v,
        |i: int|
            if i < num_u {
                CutLoop { direction: CutDirection::U, index: i as usize, active: false, cut: false }
            } else {
                CutLoop { direction: CutDirection::V, index: (i - num_u) as usize, active: false, cut: false }
            },
    )
}

/// `loops` is not empty and every loop in it is cut.
pub open spec fn all_cut(loops: Seq<CutLoop>) -> bool {
    loops.len() > 0 && forall|i: int| 0 <= i < loops.len() ==> (#[trigger] loops[i]).cut
}

/// `loops` with every loop's `cut` flag set to `cut`.
pub open spec fn with_cut(loops: Seq<CutLoop>, cut: bool) -> Seq<CutLoop> {
    loops.map_values(|l: CutLoop| CutLoop { cut: cut, ..l })
}

/// `loops` with every loop's `active` (shown) flag set to `shown`.
pub open spec fn with_shown(loops: Seq<CutLoop>, shown: bool) -> Seq<CutLoop> {
    loops.map_values(|l: CutLoop| CutLoop { active: shown, ..l })
}

/// Largest loop counts the panel offers (see `UiState::max_loop_counts`).
pub open spec fn loop_limits(s: UiState) -> (usize, usize) {
    match s.mesh_type {
        MeshType::Quad => (
            vstd::math::max(s.resolution_u - 1, 1) as usize,
            vstd::math::max(s.resolution_v - 1, 1) as usize,
        ),
        _ => (20usize, 20usize),
    }
}

/// The loops after the counts changed to `nu` and `nv`: generated afresh,
/// all cut when all of `before` were.
pub open spec fn regenerated_loops(before: Seq<CutLoop>, nu: nat, nv: nat) -> Seq<CutLoop> {
    if all_cut(before) {
        with_cut(loops_spec(nu, nv), true)
    } else {
        loops_spec(nu, nv)
    }
}

/// `x` kept within `lo` and `hi`.
pub open spec fn clamp_spec(x: int, lo: int, hi: int) -> int {
    if x < lo {
        lo
    } else if x > hi {
        hi
    } else {
        x
    }
}

/// Number of loops among the first `n` of `loops` that run in direction `d`
/// and cut.
pub open spec fn cut_count(loops: Seq<CutLoop>, d: CutDirection, n: int) -> nat
    decreases n,
{
    if n <= 0 {
        0
    } else {
        cut_count(loops, d, n - 1) + if loops[n - 1].direction == d && loops[n - 1].cut {
            1nat
        } else {
            0nat
        }
    }
}

/// The integer settings of the control panel that the cutting logic reads.
pub struct UiState {
    pub resolution_u: usize,
    pub resolution_v: usize,
    pub num_u_loops: usize,
    pub num_v_loops: usize,
    pub cut_mode: CutMode,
    pub knot_k1: usize,
    pub knot_k2: usize,
    pub knot_show_1: bool,
    pub knot_show_2: bool,
    pub knot_cut_1: bool,
    pub knot_cut_2: bool,
    pub cut_loops: Vec<CutLoop>,
    pub patch_visible: Vec<bool>,
    pub color_scheme: ColorScheme,
    pub mesh_type: MeshType,
    pub delaunay_points: usize,
    pub color_mode: ColorMode,
    pub smooth_shading: bool,
    pub view_mode: ViewMode,
    pub show_mesh_edges: bool,
    pub show_patch_edges: bool,
    pub mesh_shader: ShaderMode,
    pub default_material: MaterialType,
    /// Materials chosen for single patches, over `default_material` (see
    /// `overrides_map`).
    pub patch_materials: Vec<((usize, usize), MaterialType)>,
    /// Shaders chosen for single patches, over `mesh_shader` when per-patch
    /// shaders are on (see `overrides_map`).
    pub patch_shaders: Vec<((usize, usize), ShaderMode)>,
    pub use_per_patch_shader: bool,
    pub export_format: ExportFormat,
    pub show_properties: bool,
    pub active_tab: PanelTab,
    pub is_building: bool,
}

/// Rounds `a / b` to the nearest integer, halves up.
pub open spec fn round_div(a: nat, b: nat) -> nat {
    (2 * a + b) / (2 * b)
}

impl Default for UiState {
    /// The start-up settings (see `new`).
    fn default() -> (r: Self)
        ensures
            r.resolution_u == 40 && r.resolution_v == 24,
            r.num_u_loops == 4 && r.num_v_loops == 6,
            r.cut_mode == CutMode::Grid,
            r.knot_k1 == 3 && r.knot_k2 == 6,
            r.knot_show_1 && r.knot_show_2 && !r.knot_cut_1 && !r.knot_cut_2,
            r.cut_loops@ == loops_spec(4, 6),
            r.patch_visible@.len() == 0,
            r.color_scheme == ColorScheme::Rainbow,
            r.mesh_type == MeshType::Quad,
            r.delaunay_points == 500,
            r.color_mode == ColorMode::Solid,
            !r.smooth_shading,
            r.view_mode == ViewMode::Torus3D,
            r.show_mesh_edges && r.show_patch_edges,
            r.mesh_shader == ShaderMode::PBR,
            r.default_material == MaterialType::Default,
            r.patch_materials@.len() == 0 && r.patch_shaders@.len() == 0,
            !r.use_per_patch_shader,
            r.export_format == ExportFormat::Obj,
            r.show_properties,
            r.active_tab == PanelTab::Mesh,
            !r.is_building,
    {
        Self::new()
    }
}

impl UiState {
    /// The panel's initial settings.
    pub fn new() -> (r: Self)
        ensures
            r.resolution_u == 40 && r.resolution_v == 24,
            r.num_u_loops == 4 && r.num_v_loops == 6,
            r.cut_mode == CutMode::Grid,
            r.knot_k1 == 3 && r.knot_k2 == 6,
            r.knot_show_1 && r.knot_show_2 && !r.knot_cut_1 && !r.knot_cut_2,
            r.cut_loops@ == loops_spec(4, 6),
            r.patch_visible@.len() == 0,
            r.color_scheme == ColorScheme::Rainbow,
            r.mesh_type == MeshType::Quad,
            r.delaunay_points == 500,
            r.color_mode == ColorMode::Solid,
            !r.smooth_shading,
            r.view_mode == ViewMode::Torus3D,
            r.show_mesh_edges && r.show_patch_edges,
            r.mesh_shader == ShaderMode::PBR,
            r.default_material == MaterialType::Default,
            r.patch_materials@.len() == 0 && r.patch_shaders@.len() == 0,
            !r.use_per_patch_shader,
            r.export_format == ExportFormat::Obj,
            r.show_properties,
            r.active_tab == PanelTab::Mesh,
            !r.is_building,
    {
        UiState {
            resolution_u: 40,
            resolution_v: 24,
            num_u_loops: 4,
            num_v_loops: 6,
            cut_mode: CutMode::Grid,
            knot_k1: 3,
            knot_k2: 6,
            knot_show_1: true,
            knot_show_2: true,
            knot_cut_1: false,
            knot_cut_2: false,
            cut_loops: Self::generate_loops(4, 6),
            patch_visible: Vec::new(),
            color_scheme: ColorScheme::Rainbow,
            mesh_type: MeshType::Quad,
            delaunay_points: 500,
            color_mode: ColorMode::Solid,
            smooth_shading: false,
            view_mode: ViewMode::Torus3D,
            show_mesh_edges: true,
            show_patch_edges: true,
            mesh_shader: ShaderMode::PBR,
            default_material: MaterialType::Default,
            patch_materials: Vec::new(),
            patch_shaders: Vec::new(),
            use_per_patch_shader: false,
            export_format: ExportFormat::Obj,
            show_properties: true,
            active_tab: PanelTab::Mesh,
            is_building: false,
        }
    }

    /// Largest loop counts the panel offers: on a quad mesh the loops snap to
    /// interior grid lines, so at most `res - 1` (and at least 1); otherwise 20.
    pub fn max_loop_counts(&self) -> (r: (usize, usize))
        ensures
            r == loop_limits(*self),
    {
        match self.mesh_type {
            MeshType::Quad => (
                if self.resolution_u > 2 { self.resolution_u - 1 } else { 1 },
                if self.resolution_v > 2 { self.resolution_v - 1 } else { 1 },
            ),
            _ => (20, 20),
        }
    }

    /// Switches the cut mode. A switch leaves no cut chosen in the new mode:
    /// in grid mode no loop is cut, in knot mode no knot. Returns whether
    /// the mode changed (and the cuts are to be applied again).
    pub fn select_cut_mode(&mut self, mode: CutMode) -> (changed: bool)
        ensures
            changed == (old(self).cut_mode != mode),
            !changed ==> *final(self) == *old(self),
            changed && mode == CutMode::Grid ==> *final(self) == (UiState {
                cut_mode: mode,
                cut_loops: final(self).cut_loops,
                ..*old(self)
            }) && final(self).cut_loops@ == with_cut(old(self).cut_loops@, false),
            changed && mode == CutMode::Knot ==> *final(self) == (UiState {
                cut_mode: mode,
                knot_cut_1: false,
                knot_cut_2: false,
                ..*old(self)
            }),
    {
        if self.cut_mode == mode {
            return false;
        }
        self.cut_mode = mode;
        match mode {
            CutMode::Grid => {
                self.set_all_loops_cut(false);
            },
            CutMode::Knot => {
                self.knot_cut_1 = false;
                self.knot_cut_2 = false;
            },
        }
        true
    }

    /// Sets every loop's cut flag to `cut` ("Cut All" / "UnCut All").
    pub fn set_all_loops_cut(&mut self, cut: bool)
        ensures
            *final(self) == (UiState { cut_loops: final(self).cut_loops, ..*old(self) }),
            final(self).cut_loops@ == with_cut(old(self).cut_loops@, cut),
    {
        let n = self.cut_loops.len();
        let mut i: usize = 0;
        while i < n
            invariant
                n == old(self).cut_loops@.len(),
                i <= n,
                *self == (UiState { cut_loops: self.cut_loops, ..*old(self) }),
                self.cut_loops@.len() == n,
                forall|j: int| 0 <= j < i ==> #[trigger] self.cut_loops@[j] == (CutLoop { cut: cut, ..old(self).cut_loops@[j] }),
                forall|j: int| i <= j < n ==> #[trigger] self.cut_loops@[j] == old(self).cut_loops@[j],
            decreases n - i,
        {
            let l = self.cut_loops[i];
            self.cut_loops.set(i, CutLoop { cut: cut, ..l });
            i = i + 1;
        }
        proof {
            assert(self.cut_loops@ =~= with_cut(old(self).cut_loops@, cut));
        }
    }

    /// Shows or hides every loop ("Show All" / "Hide All").
    pub fn set_all_loops_shown(&mut self, shown: bool)
        ensures
            *final(self) == (UiState { cut_loops: final(self).cut_loops, ..*old(self) }),
            final(self).cut_loops@ == with_shown(old(self).cut_loops@, shown),
    {
        let n = self.cut_loops.len();
        let mut i: usize = 0;
        while i < n
            invariant
                n == old(self).cut_loops@.len(),
                i <= n,
                *self == (UiState { cut_loops: self.cut_loops, ..*old(self) }),
                self.cut_loops@.len() == n,
                forall|j: int| 0 <= j < i ==> #[trigger] self.cut_loops@[j] == (CutLoop { active: shown, ..old(self).cut_loops@[j] }),
                forall|j: int| i <= j < n ==> #[trigger] self.cut_loops@[j] == old(self).cut_loops@[j],
            decreases n - i,
        {
            let l = self.cut_loops[i];
            self.cut_loops.set(i, CutLoop { active: shown, ..l });
            i = i + 1;
        }
        proof {
            assert(self.cut_loops@ =~= with_shown(old(self).cut_loops@, shown));
        }
    }

    /// Whether every loop is cut (and there is one).
    fn all_loops_cut(&self) -> (r: bool)
        ensures
            r == all_cut(self.cut_loops@),
    {
        if self.cut_loops.len() == 0 {
            return false;
        }
        let mut i: usize = 0;
        while i < self.cut_loops.len()
            invariant
                i <= self.cut_loops@.len(),
                forall|j: int| 0 <= j < i ==> (#[trigger] self.cut_loops@[j]).cut,
            decreases self.cut_loops@.len() - i,
        {
            if !self.cut_loops[i].cut {
                return false;
            }
            i = i + 1;
        }
        true
    }

    /// Generates the loops afresh for `nu` and `nv` loops, all cut if all
    /// were cut before.
    fn apply_loop_counts(&mut self, nu: usize, nv: usize)
        requires
            nu + nv <= usize::MAX,
        ensures
            *final(self) == (UiState { num_u_loops: nu, num_v_loops: nv, cut_loops: final(self).cut_loops, ..*old(self) }),
            final(self).cut_loops@ == regenerated_loops(old(self).cut_loops@, nu as nat, nv as nat),
    {
        let all_before = self.all_loops_cut();
        let loops = Self::generate_loops(nu, nv);
        self.num_u_loops = nu;
        self.num_v_loops = nv;
        self.cut_loops = loops;
        if all_before {
            self.set_all_loops_cut(true);
        }
    }

    /// Sets the loop counts as the panel's sliders do, each kept within 1 and
    /// `max_loop_counts`. When a count changes, the loops are generated
    /// afresh (see `generate_loops`), all cut if all were cut before.
    /// Returns whether a count changed (and the cuts are to be applied again).
    pub fn set_loop_counts(&mut self, num_u: usize, num_v: usize) -> (changed: bool)
        requires
            old(self).resolution_u + old(self).resolution_v <= usize::MAX,
        ensures
            ({
                let nu = clamp_spec(num_u as int, 1, loop_limits(*old(self)).0 as int) as usize;
                let nv = clamp_spec(num_v as int, 1, loop_limits(*old(self)).1 as int) as usize;
                &&& changed == (nu != old(self).num_u_loops || nv != old(self).num_v_loops)
                &&& !changed ==> *final(self) == *old(self)
                &&& changed ==> *final(self) == (UiState {
                    num_u_loops: nu,
                    num_v_loops: nv,
                    cut_loops: final(self).cut_loops,
                    ..*old(self)
                }) && final(self).cut_loops@ == regenerated_loops(old(self).cut_loops@, nu as nat, nv as nat)
            }),
    {
        let (mu, mv) = self.max_loop_counts();
        let nu = if num_u < 1 { 1 } else if num_u > mu { mu } else { num_u };
        let nv = if num_v < 1 { 1 } else if num_v > mv { mv } else { num_v };
        if nu == self.num_u_loops && nv == self.num_v_loops {
            return false;
        }
        self.apply_loop_counts(nu, nv);
        true
    }

    /// `num_u` loops of `U`, then `num_v` loops of `V`.
    pub fn generate_loops(num_u: usize, num_v: usize) -> (r: Vec<CutLoop>)
        requires
            num_u + num_v <= usize::MAX,
        ensures
            r@ == loops_spec(num_u as nat, num_v as nat),
    {
        let mut loops: Vec<CutLoop> = Vec::new();
        let mut i: usize = 0;
        while i < num_u
            invariant
                i <= num_u,
                loops@ == loops_spec(num_u as nat, num_v as nat).take(i as int),
            decreases num_u - i,
        {
            loops.push(CutLoop::new(CutDirection::U, i));
            proof {
                assert(loops@ =~= loops_spec(num_u as nat, num_v as nat).take(i + 1));
            }
            i = i + 1;
        }
        let mut j: usize = 0;
        while j < num_v
            invariant
                j <= num_v,
                num_u + num_v <= usize::MAX,
                loops@ == loops_spec(num_u as nat, num_v as nat).take(num_u + j),
            decreases num_v - j,
        {
            loops.push(CutLoop::new(CutDirection::V, j));
            proof {
                assert(loops@ =~= loops_spec(num_u as nat, num_v as nat).take(num_u + j + 1));
            }
            j = j + 1;
        }
        proof {
            assert(loops@ =~= loops_spec(num_u as nat, num_v as nat));
        }
        loops
    }

    /// Whether any cut is switched on for the current cut mode.
    pub fn has_cut_loops(&self) -> (r: bool)
        ensures
            r == match self.cut_mode {
                CutMode::Grid => exists|i: int| 0 <= i < self.cut_loops@.len() && (#[trigger] self.cut_loops@[i]).cut,
                CutMode::Knot => self.knot_cut_1 || self.knot_cut_2,
            },
    {
        match self.cut_mode {
            CutMode::Grid => {
                let mut i: usize = 0;
                while i < self.cut_loops.len()
                    invariant
                        self.cut_mode == CutMode::Grid,
                        i <= self.cut_loops@.len(),
                        forall|j: int| 0 <= j < i ==> !(#[trigger] self.cut_loops@[j]).cut,
                    decreases self.cut_loops@.len() - i,
                {
                    if self.cut_loops[i].cut {
                        proof {
                            assert(self.cut_loops@[i as int].cut);
                        }
                        return true;
                    }
                    i = i + 1;
                }
                false
            },
            CutMode::Knot => self.knot_cut_1 || self.knot_cut_2,
        }
    }

    /// Number of cutting loops of direction `d`.
    fn count_cut(&self, d: CutDirection) -> (n: usize)
        ensures
            n == cut_count(self.cut_loops@, d, self.cut_loops@.len() as int),
    {
        let mut n: usize = 0;
        let mut i: usize = 0;
        while i < self.cut_loops.len()
            invariant
                i <= self.cut_loops@.len(),
                n == cut_count(self.cut_loops@, d, i as int),
                n <= i,
            decreases self.cut_loops@.len() - i,
        {
            let l = self.cut_loops[i];
            if l.direction == d && l.cut {
                n = n + 1;
            }
            i = i + 1;
        }
        n
    }

    /// Patches in `u` and `v` a cut gives: with grid cuts, `n` cutting loops
    /// of a direction make `n` bands round the torus (at least 1); knot cuts
    /// are reported as `(4, 1)`.
    pub fn cut_grid_dims(&self) -> (r: (usize, usize))
        ensures
            r == match self.cut_mode {
                CutMode::Grid => (
                    vstd::math::max(cut_count(self.cut_loops@, CutDirection::U, self.cut_loops@.len() as int) as int, 1) as usize,
                    vstd::math::max(cut_count(self.cut_loops@, CutDirection::V, self.cut_loops@.len() as int) as int, 1) as usize,
                ),
                CutMode::Knot => (4usize, 1usize),
            },
    {
        match self.cut_mode {
            CutMode::Grid => {
                let nu = self.count_cut(CutDirection::U);
                let nv = self.count_cut(CutDirection::V);
                (if nu > 1 { nu } else { 1 }, if nv > 1 { nv } else { 1 })
            },
            CutMode::Knot => (4, 1),
        }
    }

    /// Patches in `u` and `v` actually present: one per file for meshes read
    /// from OBJ files (at least 1), one per visible-flag for knot cuts with
    /// more than one region, otherwise `cut_grid_dims`.
    pub fn actual_patch_dims(&self) -> (r: (usize, usize))
        ensures
            r == self.actual_patch_dims_spec(),
    {
        match &self.mesh_type {
            MeshType::ObjFile(paths) => {
                let n = paths.len();
                return (if n > 1 { n } else { 1 }, 1);
            },
            _ => {},
        }
        let dims = self.cut_grid_dims();
        if self.cut_mode == CutMode::Knot && self.patch_visible.len() > 1 {
            (self.patch_visible.len(), 1)
        } else {
            dims
        }
    }

    /// What `actual_patch_dims` returns.
    pub open spec fn actual_patch_dims_spec(&self) -> (usize, usize) {
        match self.mesh_type {
            MeshType::ObjFile(paths) => (vstd::math::max(paths@.len() as int, 1) as usize, 1usize),
            _ => if self.cut_mode == CutMode::Knot && self.patch_visible@.len() > 1 {
                (self.patch_visible@.len() as usize, 1usize)
            } else {
                self.cut_grid_dims_spec()
            },
        }
    }

    /// The shader `patch` is drawn with when per-patch shaders are on: its
    /// own, else the mesh shader.
    pub fn patch_shader(&self, patch: (usize, usize)) -> (r: ShaderMode)
        ensures
            r == match override_of(self.patch_shaders@, patch) {
                Some(m) => m,
                None => self.mesh_shader,
            },
    {
        match find_override(&self.patch_shaders, patch) {
            Some(m) => m,
            None => self.mesh_shader,
        }
    }

    /// Gives `patch` its own shader `mode`.
    pub fn set_patch_shader(&mut self, patch: (usize, usize), mode: ShaderMode)
        ensures
            *final(self) == (UiState { patch_shaders: final(self).patch_shaders, ..*old(self) }),
            overrides_map(final(self).patch_shaders@) == overrides_map(old(self).patch_shaders@).insert(patch, mode),
    {
        set_override(&mut self.patch_shaders, patch, mode);
    }

    /// Drops every patch's own shader: all patches use the mesh shader.
    pub fn reset_patch_shaders(&mut self)
        ensures
            *final(self) == (UiState { patch_shaders: final(self).patch_shaders, ..*old(self) }),
            final(self).patch_shaders@.len() == 0,
            overrides_map(final(self).patch_shaders@) == Map::<(usize, usize), ShaderMode>::empty(),
    {
        self.patch_shaders = Vec::new();
    }

    /// Gives every patch present (see `actual_patch_dims`) the shader `mode`;
    /// the shaders set for patches outside stay.
    pub fn set_all_patch_shaders(&mut self, mode: ShaderMode)
        ensures
            *final(self) == (UiState { patch_shaders: final(self).patch_shaders, ..*old(self) }),
            overrides_map(final(self).patch_shaders@) == overrides_map(old(self).patch_shaders@).union_prefer_right(
                Map::new(
                    |p: (usize, usize)|
                        p.0 < old(self).actual_patch_dims_spec().0 && p.1 < old(self).actual_patch_dims_spec().1,
                    |p: (usize, usize)| mode,
                ),
            ),
    {
        let (nu, nv) = self.actual_patch_dims();
        let ghost m0 = overrides_map(self.patch_shaders@);
        let mut i: usize = 0;
        while i < nu
            invariant
                i <= nu,
                (nu, nv) == old(self).actual_patch_dims_spec(),
                m0 == overrides_map(old(self).patch_shaders@),
                *self == (UiState { patch_shaders: self.patch_shaders, ..*old(self) }),
                overrides_map(self.patch_shaders@) == m0.union_prefer_right(
                    Map::new(|p: (usize, usize)| p.0 < i && p.1 < nv, |p: (usize, usize)| mode),
                ),
            decreases nu - i,
        {
            let mut j: usize = 0;
            while j < nv
                invariant
                    i < nu,
                    j <= nv,
                    (nu, nv) == old(self).actual_patch_dims_spec(),
                    m0 == overrides_map(old(self).patch_shaders@),
                    *self == (UiState { patch_shaders: self.patch_shaders, ..*old(self) }),
                    overrides_map(self.patch_shaders@) == m0.union_prefer_right(
                        Map::new(
                            |p: (usize, usize)| (p.0 < i && p.1 < nv) || (p.0 == i && p.1 < j),
                            |p: (usize, usize)| mode,
                        ),
                    ),
                decreases nv - j,
            {
                let ghost before = overrides_map(self.patch_shaders@);
                set_override(&mut self.patch_shaders, (i, j), mode);
                proof {
                    assert(overrides_map(self.patch_shaders@) =~= m0.union_prefer_right(
                        Map::new(
                            |p: (usize, usize)| (p.0 < i && p.1 < nv) || (p.0 == i && p.1 < j + 1),
                            |p: (usize, usize)| mode,
                        ),
                    ));
                }
                j = j + 1;
            }
            proof {
                assert(overrides_map(self.patch_shaders@) =~= m0.union_prefer_right(
                    Map::new(|p: (usize, usize)| p.0 < i + 1 && p.1 < nv, |p: (usize, usize)| mode),
                ));
            }
            i = i + 1;
        }
    }

    /// The material of `patch`: its own, else the default material.
    pub fn patch_material(&self, patch: (usize, usize)) -> (r: MaterialType)
        ensures
            r == match override_of(self.patch_materials@, patch) {
                Some(m) => m,
                None => self.default_material,
            },
    {
        match find_override(&self.patch_materials, patch) {
            Some(m) => m,
            None => self.default_material,
        }
    }

    /// Gives `patch` the material `mat`; choosing `Default` drops the
    /// patch's own material, so that it falls back to the default material.
    pub fn set_patch_material(&mut self, patch: (usize, usize), mat: MaterialType)
        ensures
            *final(self) == (UiState { patch_materials: final(self).patch_materials, ..*old(self) }),
            overrides_map(final(self).patch_materials@) == if mat == MaterialType::Default {
                overrides_map(old(self).patch_materials@).remove(patch)
            } else {
                overrides_map(old(self).patch_materials@).insert(patch, mat)
            },
    {
        match mat {
            MaterialType::Default => remove_override(&mut self.patch_materials, patch),
            _ => set_override(&mut self.patch_materials, patch, mat),
        }
    }

    /// Whether a face of patch `patch` is drawn: a face without patch is,
    /// and a patch `(pu, pv)` is when its visibility flag, at `pu * nv + pv`
    /// for the grid's `nv` (see `cut_grid_dims`), is set or absent.
    pub fn patch_shown(&self, patch: Option<(usize, usize)>) -> (r: bool)
        ensures
            r == match patch {
                None => true,
                Some(p) => {
                    let idx = p.0 * self.cut_grid_dims_spec().1 + p.1;
                    idx >= self.patch_visible@.len() || self.patch_visible@[idx]
                },
            },
    {
        match patch {
            None => true,
            Some((pu, pv)) => {
                let nv = self.cut_grid_dims().1;
                assert(nv == self.cut_grid_dims_spec().1);
                let idx = match pu.checked_mul(nv) {
                    Some(x) => x.checked_add(pv),
                    None => None,
                };
                let len = self.patch_visible.len();
                assert(idx is None ==> pu * nv + pv > usize::MAX) by (nonlinear_arith)
                    requires
                        idx is None ==> pu * nv > usize::MAX || pu * nv + pv > usize::MAX,
                ;
                match idx {
                    Some(i) => {
                        if i < self.patch_visible.len() {
                            self.patch_visible[i]
                        } else {
                            true
                        }
                    },
                    None => true,
                }
            },
        }
    }

    /// How a face of patch `patch` is shaded: with its patch's shader (see
    /// `patch_shader`; the mesh shader for a face without patch) when
    /// per-patch shaders are on, else with its patch's material (see
    /// `patch_material`; the default material for a face without patch).
    pub fn face_look(&self, patch: Option<(usize, usize)>) -> (r: FaceLook)
        ensures
            r == if self.use_per_patch_shader {
                FaceLook::Shader(
                    match patch {
                        Some(p) => match override_of(self.patch_shaders@, p) {
                            Some(m) => m,
                            None => self.mesh_shader,
                        },
                        None => self.mesh_shader,
                    },
                )
            } else {
                FaceLook::Material(
                    match patch {
                        Some(p) => match override_of(self.patch_materials@, p) {
                            Some(m) => m,
                            None => self.default_material,
                        },
                        None => self.default_material,
                    },
                )
            },
    {
        if self.use_per_patch_shader {
            FaceLook::Shader(
                match patch {
                    Some(p) => self.patch_shader(p),
                    None => self.mesh_shader,
                },
            )
        } else {
            FaceLook::Material(
                match patch {
                    Some(p) => self.patch_material(p),
                    None => self.default_material,
                },
            )
        }
    }

    /// What `cut_grid_dims` returns.
    pub open spec fn cut_grid_dims_spec(&self) -> (usize, usize) {
        match self.cut_mode {
            CutMode::Grid => (
                vstd::math::max(cut_count(self.cut_loops@, CutDirection::U, self.cut_loops@.len() as int) as int, 1) as usize,
                vstd::math::max(cut_count(self.cut_loops@, CutDirection::V, self.cut_loops@.len() as int) as int, 1) as usize,
            ),
            CutMode::Knot => (4usize, 1usize),
        }
    }

    /// Makes the visible-flags `total` long, all set, unless they already
    /// are `total` long.
    pub fn ensure_patch_visible(&mut self, total: usize)
        ensures
            final(self).patch_visible@ == if old(self).patch_visible@.len() == total {
                old(self).patch_visible@
            } else {
                Seq::new(total as nat, |i: int| true)
            },
            final(self).cut_loops@ == old(self).cut_loops@,
            final(self).cut_mode == old(self).cut_mode,
            final(self).mesh_type == old(self).mesh_type,
            final(self).resolution_u == old(self).resolution_u && final(self).resolution_v == old(self).resolution_v,
            final(self).num_u_loops == old(self).num_u_loops && final(self).num_v_loops == old(self).num_v_loops,
            final(self).knot_k1 == old(self).knot_k1 && final(self).knot_k2 == old(self).knot_k2,
            final(self).knot_cut_1 == old(self).knot_cut_1 && final(self).knot_cut_2 == old(self).knot_cut_2,
            final(self).knot_show_1 == old(self).knot_show_1 && final(self).knot_show_2 == old(self).knot_show_2,
            final(self).color_scheme == old(self).color_scheme && final(self).color_mode == old(self).color_mode,
            final(self).export_format == old(self).export_format && final(self).active_tab == old(self).active_tab,
    {
        if self.patch_visible.len() != total {
            let mut v: Vec<bool> = Vec::new();
            let mut i: usize = 0;
            while i < total
                invariant
                    i <= total,
                    v@ == Seq::new(i as nat, |j: int| true),
                decreases total - i,
            {
                v.push(true);
                proof {
                    assert(v@ =~= Seq::new((i + 1) as nat, |j: int| true));
                }
                i = i + 1;
            }
            self.patch_visible = v;
        }
    }
}

/// The grid line a quad-mesh cut loop snaps to: loop `index` of `n` loops
/// spread evenly over `res` grid steps lies at `res * (index + 1) / (n + 1)`
/// steps, rounded to the nearest line (halves up) and kept off the two
/// border lines (`res` and `n` count as at least 2 and 1).
pub fn grid_line_index(res: usize, n: usize, index: usize) -> (k: usize)
    ensures
        ({
            let r = vstd::math::max(res as int, 2);
            let nn = vstd::math::max(n as int, 1);
            let q = round_div((r * (index + 1)) as nat, (nn + 1) as nat) as int;
            k == (if q < 1 { 1 } else if q > r - 1 { r - 1 } else { q })
        }),
{
    let r: u128 = if res > 2 { res as u128 } else { 2 };
    let nn: u128 = if n > 1 { n as u128 } else { 1 };
    assert(r * (index as u128 + 1) <= 0xffff_ffff_ffff_ffff * 0x1_0000_0000_0000_0000) by (nonlinear_arith)
        requires
            r <= 0xffff_ffff_ffff_ffff,
            index + 1 <= 0x1_0000_0000_0000_0000,
    ;
    let a: u128 = r * (index as u128 + 1);
    let b: u128 = nn + 1;
    let qd: u128 = a / b;
    let rm: u128 = a % b;
    let q: u128 = if 2 * rm >= b { qd + 1 } else { qd };
    proof {
        let (ai, bi, qi, ri) = (a as int, b as int, qd as int, rm as int);
        vstd::arithmetic::div_mod::lemma_fundamental_div_mod(ai, bi);
        assert(ai == bi * qi + ri);
        assert(qi * (2 * bi) == 2 * (bi * qi)) by (nonlinear_arith);
        if 2 * rm >= b {
            assert((qi + 1) * (2 * bi) == qi * (2 * bi) + 2 * bi) by (nonlinear_arith);
            vstd::arithmetic::div_mod::lemma_fundamental_div_mod_converse(2 * ai + bi, 2 * bi, qi + 1, 2 * ri - bi);
        } else {
            vstd::arithmetic::div_mod::lemma_fundamental_div_mod_converse(2 * ai + bi, 2 * bi, qi, 2 * ri + bi);
        }
    }
    let k = if q < 1 {
        1
    } else if q > r - 1 {
        r - 1
    } else {
        q
    };
    k as usize
}

/// The character of decimal digit `d`.
pub open spec fn digit_char(d: nat) -> char {
    (48 + d) as char
}

/// Decimal notation of `n`.
pub open spec fn decimal(n: nat) -> Seq<char>
    decreases n,
{
    if n < 10 {
        seq![digit_char(n)]
    } else {
        decimal(n / 10).push(digit_char(n % 10))
    }
}

/// A numbered step: the number right-aligned in two columns, a dot, a
/// space and the text.
pub open spec fn step_label_spec(step: nat, text: Seq<char>) -> Seq<char> {
    (if step < 10 {
        seq![' ']
    } else {
        Seq::empty()
    }) + decimal(step) + seq!['.', ' '] + text
}

/// The one-character string of digit `d`.
fn digit_str(d: usize) -> (r: &'static str)
    requires
        d < 10,
    ensures
        r@ == seq![digit_char(d as nat)],
{
    proof {
        reveal_strlit("0");
        reveal_strlit("1");
        reveal_strlit("2");
        reveal_strlit("3");
        reveal_strlit("4");
        reveal_strlit("5");
        reveal_strlit("6");
        reveal_strlit("7");
        reveal_strlit("8");
        reveal_strlit("9");
    }
    if d == 0 {
        "0"
    } else if d == 1 {
        "1"
    } else if d == 2 {
        "2"
    } else if d == 3 {
        "3"
    } else if d == 4 {
        "4"
    } else if d == 5 {
        "5"
    } else if d == 6 {
        "6"
    } else if d == 7 {
        "7"
    } else if d == 8 {
        "8"
    } else {
        "9"
    }
}

/// Appends the decimal notation of `n`.
fn push_decimal(s: &mut String, n: usize)
    ensures
        final(s)@ == old(s)@ + decimal(n as nat),
    decreases n,
{
    if n >= 10 {
        push_decimal(s, n / 10);
    }
    s.append(digit_str(n % 10));
    proof {
        if n >= 10 {
            assert(old(s)@ + decimal(n as nat) =~= old(s)@ + decimal((n / 10) as nat) + seq![digit_char((n % 10) as nat)]);
        } else {
            assert(old(s)@ + decimal(n as nat) =~= old(s)@ + seq![digit_char((n % 10) as nat)]);
        }
    }
}

/// Label of a numbered workflow step (see `step_label_spec`).
pub fn step_label(step: usize, text: &str) -> (r: String)
    ensures
        r@ == step_label_spec(step as nat, text@),
{
    let mut s = String::new();
    proof {
        reveal_strlit(" ");
        reveal_strlit(". ");
    }
    if step < 10 {
        s.append(" ");
    }
    push_decimal(&mut s, step);
    s.append(". ");
    s.append(text);
    proof {
        assert(s@ =~= step_label_spec(step as nat, text@));
    }
    s
}

} // verus!
