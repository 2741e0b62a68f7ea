use indexmap::IndexMap;
use vadadee_doc::path_effects::{
    find_effect_for_pair, has_effect_for_objects, hidden_effect_sources, node_uses_extended_pick_bounds,
    path_effect_by_form_node, path_effect_form_node_ids, path_effect_move_bundle, BooleanEffect, BooleanOpKind,
    CircularCloneEffect, CircularRotateMode, ClipMaskEffect, ObjectOnPathEffect, OnPathMode, TilingEffect,
    is_pickable_effect_source,
};

fn effect(id: u128, source: u128, path: u128, hide: bool, form: Option<u128>) -> ObjectOnPathEffect {
    ObjectOnPathEffect {
        id,
        source_id: source,
        path_id: path,
        mode: OnPathMode::GapDuplicate,
        gap_bits: 10.0f64.to_bits(),
        count: 5,
        start_offset_bits: 0,
        rotate_to_tangent: true,
        cyclic: false,
        loft_end_scale_bits: 1.0f32.to_bits(),
        loft_end_opacity_bits: 1.0f32.to_bits(),
        hide_source: hide,
        form_node_id: form,
    }
}

fn table() -> IndexMap<u128, ObjectOnPathEffect> {
    let mut m = IndexMap::new();
    m.insert(1, effect(1, 10, 20, true, Some(30)));
    m.insert(2, effect(2, 11, 20, false, None));
    m.insert(3, effect(3, 12, 21, true, Some(31)));
    m
}

#[test]
fn pairs_match_either_way_round() {
    let m = table();
    assert_eq!(find_effect_for_pair(&m, 10, 20).map(|e| e.id), Some(1));
    assert_eq!(find_effect_for_pair(&m, 20, 11).map(|e| e.id), Some(2));
    assert!(find_effect_for_pair(&m, 10, 21).is_none());
    assert!(has_effect_for_objects(&m, &[5, 12], 21));
    assert!(!has_effect_for_objects(&m, &[5, 6], 21));
    assert!(!has_effect_for_objects(&m, &[], 20));
}

#[test]
fn form_nodes_and_hidden_sources() {
    let m = table();
    assert_eq!(path_effect_by_form_node(&m, 31).map(|e| e.id), Some(3));
    assert!(path_effect_by_form_node(&m, 99).is_none());
    let forms = path_effect_form_node_ids(&m);
    assert_eq!(forms.len(), 2);
    assert!(forms.contains(&30) && forms.contains(&31));
    let hidden = hidden_effect_sources(&m);
    assert_eq!(hidden.len(), 2);
    assert!(hidden.contains(&10) && hidden.contains(&12) && !hidden.contains(&11));
}

fn booleans() -> IndexMap<u128, BooleanEffect> {
    let mut m = IndexMap::new();
    m.insert(
        7,
        BooleanEffect { id: 7, a_id: 72, b_id: 71, op: BooleanOpKind::Difference, hide_operands: true, result_node_id: Some(70) },
    );
    m
}

fn clips() -> IndexMap<u128, ClipMaskEffect> {
    let mut m = IndexMap::new();
    m.insert(8, ClipMaskEffect { id: 8, source_id: 80, mask_id: 81, hide_mask: true });
    m
}

#[test]
fn move_bundles_follow_the_effects() {
    let (p, b, c) = (table(), booleans(), clips());
    // The pick proxy drags proxy, source and path, in that order.
    assert_eq!(path_effect_move_bundle(&p, &b, &c, 30), vec![30, 10, 20]);
    // A source or path drags the effect's members, sorted, each once.
    assert_eq!(path_effect_move_bundle(&p, &b, &c, 20), vec![10, 20, 30]);
    assert_eq!(path_effect_move_bundle(&p, &b, &c, 21), vec![12, 21, 31]);
    // A boolean result drags both operands; an operand moves alone.
    assert_eq!(path_effect_move_bundle(&p, &b, &c, 70), vec![70, 71, 72]);
    assert_eq!(path_effect_move_bundle(&p, &b, &c, 71), vec![71]);
    // Clip-mask members and plain nodes move alone.
    assert_eq!(path_effect_move_bundle(&p, &b, &c, 81), vec![81]);
    assert_eq!(path_effect_move_bundle(&p, &b, &c, 99), vec![99]);
}

#[test]
fn extended_pick_bounds_for_effect_members() {
    let p = table();
    let mut t = IndexMap::new();
    t.insert(
        5,
        TilingEffect {
            id: 5,
            source_id: 50,
            gap_x_bits: 48.0f64.to_bits(),
            gap_y_bits: 48.0f64.to_bits(),
            count_x: 3,
            count_y: 3,
            offset_x_bits: 0,
            offset_y_bits: 0,
            row_rotation_bits: 0,
            col_rotation_bits: 0,
            row_scale_bits: 1.0f64.to_bits(),
            col_scale_bits: 1.0f64.to_bits(),
            hide_source: false,
        },
    );
    let mut c = IndexMap::new();
    c.insert(
        6,
        CircularCloneEffect {
            id: 6,
            source_id: 60,
            origin_x_bits: 0,
            origin_y_bits: 0,
            radius_bits: 48.0f64.to_bits(),
            copies: 6,
            angle_offset_bits: 0,
            base_x_bits: 0,
            base_y_bits: 0,
            hide_source: true,
            rotate_mode: CircularRotateMode::Static,
        },
    );
    for id in [10u128, 20, 31, 50, 60] {
        assert!(node_uses_extended_pick_bounds(&p, &t, &c, id), "{id}");
    }
    assert!(!node_uses_extended_pick_bounds(&p, &t, &c, 99));
    assert!(!node_uses_extended_pick_bounds(&IndexMap::new(), &IndexMap::new(), &IndexMap::new(), 10));
}

#[test]
fn effect_defaults() {
    let t = TilingEffect::default();
    assert_eq!((t.source_id, t.count_x, t.count_y, t.hide_source), (0, 3, 3, false));
    assert_eq!(f64::from_bits(t.gap_x_bits), 48.0);
    assert_eq!(f64::from_bits(t.row_scale_bits), 0.0);
    let c = CircularCloneEffect::default();
    assert_eq!((c.copies, c.rotate_mode), (6, CircularRotateMode::ReferenceOrigin));
    assert_eq!(f64::from_bits(c.radius_bits), 48.0);
    let m = ClipMaskEffect::default();
    assert!(m.hide_mask && m.source_id == 0 && m.mask_id == 0);
    let b = BooleanEffect::default();
    assert_eq!((b.op, b.hide_operands, b.result_node_id), (BooleanOpKind::Union, true, None));
    assert_ne!(BooleanEffect::default().id, b.id);
    assert!(is_pickable_effect_source(&table(), &IndexMap::new(), &IndexMap::new(), 12));
}
