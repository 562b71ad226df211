use shader_engine::preprocess::TranspiledUniform;
use shader_engine::uniforms::{
    build_table, default_value, parse_type, type_name_str, CarryReason, ReflectError,
    UniformError, UniformSlot, UniformTable, UniformType, UniformValue,
};
use shader_engine::Bindable;

fn decl(name: &str, ty: &str) -> TranspiledUniform {
    TranspiledUniform { name: name.to_string(), ty: ty.to_string() }
}

#[test]
fn bindable_tracks_dirtiness() {
    let mut b = Bindable::new(3u32);
    assert!(b.is_dirty());
    b.clear_dirty();
    assert!(!b.is_dirty());
    assert_eq!(*b.get(), 3);
    b.set(4);
    assert!(b.is_dirty());
    assert_eq!(*b.get(), 4);
}

#[test]
fn reflection_builds_a_vec3_default() {
    let (table, images) = build_table(&vec![decl("lightPos", "vec3")]).unwrap();
    assert!(images.is_empty());
    assert_eq!(table.len(), 1);
    let slot = table.slot_at(0);
    assert_eq!(slot.name_str(), "lightPos");
    assert_eq!(slot.uniform_type(), UniformType::Vec3);
    assert_eq!(type_name_str(slot.uniform_type()), "vec3");
    // the default of a float vector is three zero components
    assert_eq!(*slot.get_value(), UniformValue::Vec3(0, 0, 0));
    assert_eq!(f32::from_bits(0), 0.0f32);
    assert!(slot.is_dirty());
    assert_eq!(slot.get_location(), None);
}

#[test]
fn reflection_rejects_an_unknown_type() {
    let r = build_table(&vec![decl("m", "mat4")]);
    assert_eq!(
        r.map(|p| p.1),
        Err(ReflectError::UnknownUniformType("mat4".to_string()))
    );
}

#[test]
fn reflection_files_image_names_separately() {
    let (table, images) = build_table(&vec![
        decl("screen", "image2D"),
        decl("time", "float"),
        decl("tex", "sampler3D"),
    ])
    .unwrap();
    assert_eq!(table.len(), 1);
    assert_eq!(images, vec!["screen".to_string(), "tex".to_string()]);
}

#[test]
fn every_tag_of_the_closed_set_parses() {
    let tags = [
        "bool", "int", "uint", "float", "double", "bvec2", "bvec3", "bvec4", "ivec2", "ivec3",
        "ivec4", "uvec2", "uvec3", "uvec4", "vec2", "vec3", "vec4", "dvec2", "dvec3", "dvec4",
    ];
    for tag in tags {
        let t = parse_type(tag).unwrap();
        assert_eq!(type_name_str(t), tag);
        let v = default_value(t);
        let slot = UniformSlot::new("x", t, v);
        assert!(slot.is_dirty());
    }
    assert_eq!(parse_type("sampler2D"), None);
    assert_eq!(parse_type("vec5"), None);
}

#[test]
fn a_repeated_declaration_replaces_the_slot() {
    let (table, _) = build_table(&vec![decl("x", "float"), decl("x", "int")]).unwrap();
    assert_eq!(table.len(), 1);
    assert_eq!(table.slot_at(0).uniform_type(), UniformType::Int);
}

#[test]
fn set_value_checks_name_and_type() {
    let (mut table, _) = build_table(&vec![decl("time", "float")]).unwrap();
    assert_eq!(
        table.set_value("time", UniformValue::Int(1)),
        Err(UniformError::TypeMismatch)
    );
    assert_eq!(
        table.set_value("nope", UniformValue::Float(0)),
        Err(UniformError::UnknownName)
    );
    let bits = 12.5f32.to_bits();
    assert_eq!(table.set_value("time", UniformValue::Float(bits)), Ok(()));
    assert_eq!(table.value_of("time"), Some(UniformValue::Float(bits)));
}

#[test]
fn upload_pass_covers_dirty_located_slots() {
    let (mut table, _) = build_table(&vec![decl("a", "float"), decl("b", "int")]).unwrap();
    // a has a location, b does not
    table.bind_locations(&vec![Some(7), None]);
    let ups = table.take_uploads(false);
    // every fresh slot is dirty, but only the located one uploads
    assert_eq!(ups.len(), 1);
    assert_eq!(ups[0].location, 7);
    assert_eq!(ups[0].value, UniformValue::Float(0));
    // the pass cleared every mark: nothing is owed now
    assert_eq!(table.take_uploads(false).len(), 0);
    // a forced pass covers located slots even when clean
    let forced = table.take_uploads(true);
    assert_eq!(forced.len(), 1);
}

#[test]
fn slot_signature_is_name_and_type() {
    let slot = UniformSlot::new("time", UniformType::Float, UniformValue::Float(0));
    assert_eq!(slot.signature(), "time: float");
}

#[test]
fn splice_carries_a_matching_value_and_forces_dirty() {
    let (mut old, _) = build_table(&vec![decl("time", "float")]).unwrap();
    let bits = 12.5f32.to_bits();
    old.set_value("time", UniformValue::Float(bits)).unwrap();
    // consume the dirtiness, as a running frame loop would have
    old.take_uploads(false);
    assert!(!old.slot_at(0).is_dirty());

    let (fresh, _) = build_table(&vec![decl("time", "float")]).unwrap();
    let (merged, notes) = UniformTable::spliced(&old, &fresh);
    assert!(notes.is_empty());
    assert_eq!(merged.value_of("time"), Some(UniformValue::Float(bits)));
    assert_eq!(f32::from_bits(bits), 12.5f32);
    assert!(merged.slot_at(0).is_dirty());
}

#[test]
fn splice_resets_on_a_type_change_and_reports_it() {
    let (mut old, _) = build_table(&vec![decl("time", "float")]).unwrap();
    old.set_value("time", UniformValue::Float(12.5f32.to_bits())).unwrap();

    let (fresh, _) = build_table(&vec![decl("time", "int")]).unwrap();
    let (merged, notes) = UniformTable::spliced(&old, &fresh);
    assert_eq!(merged.value_of("time"), Some(UniformValue::Int(0)));
    assert!(merged.slot_at(0).is_dirty());
    assert_eq!(notes.len(), 1);
    assert_eq!(notes[0].name, "time");
    assert_eq!(notes[0].reason, CarryReason::TypeChanged);
}

#[test]
fn splice_reports_a_dropped_name() {
    let (old, _) = build_table(&vec![decl("gone", "float")]).unwrap();
    let (fresh, _) = build_table(&vec![decl("other", "float")]).unwrap();
    let (merged, notes) = UniformTable::spliced(&old, &fresh);
    assert_eq!(merged.value_of("gone"), None);
    assert_eq!(notes.len(), 1);
    assert_eq!(notes[0].name, "gone");
    assert_eq!(notes[0].reason, CarryReason::Dropped);
}

#[test]
fn splice_keeps_the_fresh_location() {
    let (old, _) = build_table(&vec![decl("time", "float")]).unwrap();
    let (mut fresh, _) = build_table(&vec![decl("time", "float")]).unwrap();
    fresh.bind_locations(&vec![Some(3)]);
    let (merged, _) = UniformTable::spliced(&old, &fresh);
    assert_eq!(merged.slot_at(0).get_location(), Some(3));
}
