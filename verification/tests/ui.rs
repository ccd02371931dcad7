use torus_grid_cutter::color_scheme::ColorScheme;
use torus_grid_cutter::export::ExportFormat;
use torus_grid_cutter::ui::panel::{
    grid_line_index, step_label, CutDirection, CutLoop, CutMode, FaceLook, MaterialType, MeshType, PanelTab,
    ShaderMode, UiState,
};

fn quad_state() -> UiState {
    let mut s = UiState::new();
    s.mesh_type = MeshType::Quad;
    s.resolution_u = 40;
    s.resolution_v = 24;
    s.num_u_loops = 4;
    s.num_v_loops = 6;
    s.cut_loops = UiState::generate_loops(4, 6);
    s
}

#[test]
fn test_cut_grid_dims_matches_loop_count() {
    let mut s = quad_state();
    for l in &mut s.cut_loops {
        l.cut = true;
    }
    assert_eq!(s.cut_grid_dims(), (4, 6));

    for l in &mut s.cut_loops {
        l.cut = false;
    }
    s.cut_loops[0].cut = true;
    s.cut_loops[4].cut = true;
    assert_eq!(s.cut_grid_dims(), (1, 1));

    for l in &mut s.cut_loops {
        l.cut = false;
    }
    assert_eq!(s.cut_grid_dims(), (1, 1));
}

#[test]
fn test_quad_loop_positions_uniform_on_grid_lines() {
    let s = quad_state();
    let u: Vec<usize> = (0..4).map(|i| grid_line_index(s.resolution_u, s.num_u_loops, i)).collect();
    assert_eq!(u, vec![8, 16, 24, 32]);
    let v: Vec<usize> = (0..6).map(|i| grid_line_index(s.resolution_v, s.num_v_loops, i)).collect();
    assert_eq!(v, vec![3, 7, 10, 14, 17, 21]);
}

#[test]
fn grid_line_index_stays_off_the_borders() {
    // Few grid steps and many loops: every loop is pushed inside [1, res - 1].
    for i in 0..10 {
        let k = grid_line_index(3, 10, i);
        assert!((1..=2).contains(&k));
    }
    assert_eq!(grid_line_index(0, 0, 0), 1);
    assert_eq!(grid_line_index(10, 1, 0), 5);
}

#[test]
fn grid_line_index_handles_large_inputs() {
    let big = usize::MAX;
    assert_eq!(grid_line_index(big, 1, 0), big / 2 + 1);
    assert_eq!(grid_line_index(big, big, big), big - 1);
    assert_eq!(grid_line_index(1 << 40, 3, 1), 1 << 39);
}

#[test]
fn generated_loops_list_u_then_v() {
    let loops = UiState::generate_loops(2, 1);
    assert_eq!(
        loops,
        vec![
            CutLoop::new(CutDirection::U, 0),
            CutLoop::new(CutDirection::U, 1),
            CutLoop::new(CutDirection::V, 0),
        ]
    );
    assert!(loops.iter().all(|l| !l.active && !l.cut));
}

#[test]
fn default_state() {
    let s = UiState::new();
    assert_eq!((s.resolution_u, s.resolution_v), (40, 24));
    assert_eq!((s.num_u_loops, s.num_v_loops), (4, 6));
    assert_eq!(s.cut_loops.len(), 10);
    assert_eq!(s.cut_mode, CutMode::Grid);
    assert_eq!(s.color_scheme, ColorScheme::Rainbow);
    assert_eq!(s.mesh_shader, ShaderMode::PBR);
    assert_eq!(s.default_material, MaterialType::Default);
    assert_eq!(s.export_format, ExportFormat::Obj);
    assert_eq!(s.active_tab, PanelTab::Mesh);
    assert!(!s.has_cut_loops());
}

#[test]
fn has_cut_loops_by_mode() {
    let mut s = quad_state();
    assert!(!s.has_cut_loops());
    s.cut_loops[7].cut = true;
    assert!(s.has_cut_loops());
    s.cut_mode = CutMode::Knot;
    assert!(!s.has_cut_loops());
    s.knot_cut_2 = true;
    assert!(s.has_cut_loops());
    assert_eq!(s.cut_grid_dims(), (4, 1));
}

#[test]
fn actual_patch_dims_cases() {
    let mut s = quad_state();
    for l in &mut s.cut_loops {
        l.cut = true;
    }
    assert_eq!(s.actual_patch_dims(), (4, 6));
    s.cut_mode = CutMode::Knot;
    s.patch_visible = vec![true; 3];
    assert_eq!(s.actual_patch_dims(), (3, 1));
    s.patch_visible = vec![true; 1];
    assert_eq!(s.actual_patch_dims(), (4, 1));
    s.mesh_type = MeshType::ObjFile(vec![String::from("a.obj"), String::from("b.obj")]);
    assert_eq!(s.actual_patch_dims(), (2, 1));
    s.mesh_type = MeshType::ObjFile(vec![]);
    assert_eq!(s.actual_patch_dims(), (1, 1));
}

#[test]
fn ensure_patch_visible_resets_on_size_change() {
    let mut s = quad_state();
    s.ensure_patch_visible(3);
    assert_eq!(s.patch_visible, vec![true, true, true]);
    s.patch_visible[1] = false;
    s.ensure_patch_visible(3);
    assert_eq!(s.patch_visible, vec![true, false, true]);
    s.ensure_patch_visible(2);
    assert_eq!(s.patch_visible, vec![true, true]);
}

#[test]
fn step_labels_pad_to_two_columns() {
    assert_eq!(step_label(3, "Mesh"), " 3. Mesh");
    assert_eq!(step_label(12, "Cut"), "12. Cut");
    assert_eq!(step_label(0, ""), " 0. ");
    assert_eq!(step_label(123, "x"), "123. x");
}

#[test]
fn shader_modes_are_listed_with_distinct_indices() {
    let all = ShaderMode::all();
    for (i, m) in all.iter().enumerate() {
        assert_eq!(m.index(), i);
        assert!(!m.label().is_empty());
        assert!(!m.category().is_empty());
    }
    let mats = MaterialType::all();
    for (i, m) in mats.iter().enumerate() {
        assert_eq!(m.index(), i);
    }
    assert_eq!(PanelTab::all().len(), 4);
    assert_eq!(PanelTab::Export.icon_label(), "4.Export");
    assert_eq!(CutMode::Grid.label(), "Grid (U/V)");
}

#[test]
fn cut_loop_labels_count_from_one() {
    assert_eq!(CutLoop::new(CutDirection::U, 0).label(), "U-Loop 1");
    assert_eq!(CutLoop::new(CutDirection::V, 11).label(), "V-Loop 12");
}

#[test]
fn switching_cut_mode_clears_the_cuts() {
    let mut s = quad_state();
    s.set_all_loops_cut(true);
    s.knot_cut_1 = true;
    assert!(s.select_cut_mode(CutMode::Knot));
    assert!(!s.knot_cut_1 && !s.knot_cut_2);
    assert!(s.cut_loops.iter().all(|l| l.cut));
    assert!(!s.select_cut_mode(CutMode::Knot));
    assert!(s.select_cut_mode(CutMode::Grid));
    assert!(s.cut_loops.iter().all(|l| !l.cut));
}

#[test]
fn loop_counts_follow_the_sliders() {
    let mut s = quad_state();
    s.set_all_loops_cut(true);
    assert!(s.set_loop_counts(2, 3));
    assert_eq!((s.num_u_loops, s.num_v_loops), (2, 3));
    assert_eq!(s.cut_loops.len(), 5);
    assert!(s.cut_loops.iter().all(|l| l.cut));
    assert!(!s.set_loop_counts(2, 3));
    // Quad loop counts stay below the resolution.
    assert!(s.set_loop_counts(1000, 0));
    assert_eq!((s.num_u_loops, s.num_v_loops), (39, 1));
    s.set_all_loops_cut(false);
    assert!(s.set_loop_counts(3, 3));
    assert!(s.cut_loops.iter().all(|l| !l.cut));
    s.mesh_type = MeshType::Delaunay;
    assert!(s.set_loop_counts(50, 50));
    assert_eq!((s.num_u_loops, s.num_v_loops), (20, 20));
    s.set_all_loops_shown(true);
    assert!(s.cut_loops.iter().all(|l| l.active));
    assert_eq!(s.max_loop_counts(), (20, 20));
}

#[test]
fn patch_shader_overrides() {
    let mut s = quad_state();
    for l in &mut s.cut_loops {
        l.cut = true;
    }
    assert_eq!(s.actual_patch_dims(), (4, 6));
    assert_eq!(s.patch_shader((1, 2)), ShaderMode::PBR);

    s.set_patch_shader((1, 2), ShaderMode::Toon);
    s.set_patch_shader((1, 2), ShaderMode::Clay);
    assert_eq!(s.patch_shader((1, 2)), ShaderMode::Clay);
    assert_eq!(s.patch_shaders.len(), 1);
    assert_eq!(s.patch_shader((2, 1)), ShaderMode::PBR);

    // A shader set outside the grid stays when all patches get one.
    s.set_patch_shader((9, 9), ShaderMode::Toon);
    s.set_all_patch_shaders(ShaderMode::Glass);
    for i in 0..4 {
        for j in 0..6 {
            assert_eq!(s.patch_shader((i, j)), ShaderMode::Glass);
        }
    }
    assert_eq!(s.patch_shader((9, 9)), ShaderMode::Toon);
    assert_eq!(s.patch_shader((4, 0)), ShaderMode::PBR);
    assert_eq!(s.patch_shaders.len(), 4 * 6 + 1);

    s.reset_patch_shaders();
    assert!(s.patch_shaders.is_empty());
    assert_eq!(s.patch_shader((0, 0)), ShaderMode::PBR);
}

#[test]
fn patch_material_overrides() {
    let mut s = UiState::new();
    s.default_material = MaterialType::Plastic;
    assert_eq!(s.patch_material((0, 1)), MaterialType::Plastic);
    s.set_patch_material((0, 1), MaterialType::Steel);
    assert_eq!(s.patch_material((0, 1)), MaterialType::Steel);
    assert_eq!(s.patch_material((1, 0)), MaterialType::Plastic);
    // Choosing Default drops the patch's own material.
    s.set_patch_material((0, 1), MaterialType::Default);
    assert_eq!(s.patch_material((0, 1)), MaterialType::Plastic);
    assert!(s.patch_materials.is_empty());
}

#[test]
fn patch_visibility_and_face_look() {
    let mut s = quad_state();
    for l in &mut s.cut_loops {
        l.cut = true;
    }
    // A 4 x 6 grid: patch (1, 2) has flag 1 * 6 + 2.
    s.patch_visible = vec![true; 24];
    s.patch_visible[8] = false;
    assert!(!s.patch_shown(Some((1, 2))));
    assert!(s.patch_shown(Some((2, 1))));
    assert!(s.patch_shown(None));
    // A patch beyond the flags is drawn.
    assert!(s.patch_shown(Some((9, 0))));
    assert!(s.patch_shown(Some((usize::MAX, usize::MAX))));

    s.default_material = MaterialType::Glass;
    s.set_patch_material((1, 2), MaterialType::Steel);
    s.set_patch_shader((1, 2), ShaderMode::Toon);
    assert_eq!(s.face_look(Some((1, 2))), FaceLook::Material(MaterialType::Steel));
    assert_eq!(s.face_look(None), FaceLook::Material(MaterialType::Glass));
    s.use_per_patch_shader = true;
    assert_eq!(s.face_look(Some((1, 2))), FaceLook::Shader(ShaderMode::Toon));
    assert_eq!(s.face_look(Some((0, 0))), FaceLook::Shader(ShaderMode::PBR));
}
