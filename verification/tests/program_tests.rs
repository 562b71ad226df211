use shader_engine::logger::HTMLLogger;
use shader_engine::preprocess::{process_shader, SourceSet};
use shader_engine::program::{ComputeShader, ReloadOutcome, Shader, ShaderProgram};
use shader_engine::timer::Timer;
use shader_engine::uniforms::{UniformError, UniformValue};
use shader_engine::watch::{get_file_watchers, FileWatcher, WatchError};

fn compute_program(
    logger: &mut HTMLLogger,
    content: &str,
    id: u32,
) -> ShaderProgram<ComputeShader> {
    let mut sources = SourceSet::new();
    sources.insert("main.comp".to_string(), content.to_string());
    let unit = process_shader(logger, &sources, "main.comp").unwrap();
    let watchers = get_file_watchers(&unit.included_files, &vec![100]);
    let (program, images) = ShaderProgram::new(
        "RT Shader",
        ComputeShader { compute_file: "main.comp".to_string() },
        id,
        vec![Shader { id: id + 1000, data: unit }],
        watchers,
    )
    .unwrap();
    assert!(images.is_empty());
    program
}

#[test]
fn assembly_reflects_the_stage_declarations() {
    let mut logger = HTMLLogger::new("test");
    let program = compute_program(&mut logger, "uniform float time;\nuniform vec2 resolution;\n", 1);
    assert_eq!(program.id, 1);
    assert!(program.get_uniform("time").is_some());
    assert!(program.get_uniform("resolution").is_some());
    assert!(program.get_uniform("missing").is_none());
    assert_eq!(program.uniform_value("time"), Some(UniformValue::Float(0)));
}

#[test]
fn toggling_use_owes_the_dirty_uploads() {
    let mut logger = HTMLLogger::new("test");
    let mut program = compute_program(&mut logger, "uniform float time;\n", 9);
    program.bind_uniform_locations(&vec![Some(4)]);
    let (bind, uploads) = program.toggle_use();
    assert_eq!(bind, 9);
    assert_eq!(uploads.len(), 1);
    assert_eq!(uploads[0].location, 4);
    let (unbind, none) = program.toggle_use();
    assert_eq!(unbind, 0);
    assert!(none.is_empty());
    // nothing is dirty now, so the next use owes nothing
    let (_, uploads) = program.toggle_use();
    assert!(uploads.is_empty());
}

#[test]
fn set_uniform_marks_dirty_and_checks_types() {
    let mut logger = HTMLLogger::new("test");
    let mut program = compute_program(&mut logger, "uniform float time;\n", 2);
    program.bind_uniform_locations(&vec![Some(0)]);
    program.handle_uniforms(false);
    let bits = 1.5f32.to_bits();
    assert_eq!(program.set_uniform("time", UniformValue::Float(bits)), Ok(()));
    assert_eq!(
        program.set_uniform("time", UniformValue::Int(3)),
        Err(UniformError::TypeMismatch)
    );
    let ups = program.handle_uniforms(false);
    assert_eq!(ups.len(), 1);
    assert_eq!(ups[0].value, UniformValue::Float(bits));
}

#[test]
fn a_failed_reload_changes_nothing() {
    let mut logger = HTMLLogger::new("test");
    let mut program = compute_program(&mut logger, "uniform float time;\n", 5);
    program.bind_uniform_locations(&vec![Some(1)]);
    let bits = 12.5f32.to_bits();
    program.set_uniform("time", UniformValue::Float(bits)).unwrap();

    let before_value = program.uniform_value("time");
    let before_paths = program.watch_paths();
    let before_id = program.id;

    let outcome = program.try_reload(&mut logger, Err("missing file".to_string()));
    match outcome {
        ReloadOutcome::Failed(reason) => assert_eq!(reason, "missing file"),
        ReloadOutcome::Success(_) => panic!("a failed candidate must not commit"),
    }
    assert_eq!(program.uniform_value("time"), before_value);
    assert_eq!(program.watch_paths(), before_paths);
    assert_eq!(program.id, before_id);
}

#[test]
fn a_successful_reload_splices_and_reuploads() {
    let mut logger = HTMLLogger::new("test");
    let mut program = compute_program(&mut logger, "uniform float time;\n", 5);
    program.bind_uniform_locations(&vec![Some(1)]);
    let bits = 12.5f32.to_bits();
    program.set_uniform("time", UniformValue::Float(bits)).unwrap();
    program.handle_uniforms(false);

    let mut candidate = compute_program(&mut logger, "uniform float time;\n", 6);
    candidate.bind_uniform_locations(&vec![Some(2)]);
    let outcome = program.try_reload(&mut logger, Ok(candidate));
    match outcome {
        ReloadOutcome::Success(eff) => {
            assert_eq!(eff.retired_program, 5);
            assert!(eff.notes.is_empty());
            // the carried value is re-uploaded at the fresh location
            assert_eq!(eff.uploads.len(), 1);
            assert_eq!(eff.uploads[0].location, 2);
            assert_eq!(eff.uploads[0].value, UniformValue::Float(bits));
        },
        ReloadOutcome::Failed(_) => panic!("the candidate was sound"),
    }
    assert_eq!(program.id, 6);
    assert_eq!(program.uniform_value("time"), Some(UniformValue::Float(bits)));
}

#[test]
fn a_reload_resets_a_type_changed_uniform() {
    let mut logger = HTMLLogger::new("test");
    let mut program = compute_program(&mut logger, "uniform float time;\n", 5);
    program.set_uniform("time", UniformValue::Float(12.5f32.to_bits())).unwrap();

    let candidate = compute_program(&mut logger, "uniform int time;\n", 6);
    match program.try_reload(&mut logger, Ok(candidate)) {
        ReloadOutcome::Success(eff) => {
            assert_eq!(eff.notes.len(), 1);
            assert_eq!(eff.notes[0].name, "time");
        },
        ReloadOutcome::Failed(_) => panic!("the candidate was sound"),
    }
    assert_eq!(program.uniform_value("time"), Some(UniformValue::Int(0)));
}

#[test]
fn watchers_report_strictly_newer_times() {
    let mut w = FileWatcher::new("res/shaders/a.glsl".to_string(), 10);
    assert_eq!(w.update(Some(10)), Ok(false));
    assert_eq!(w.update(Some(11)), Ok(true));
    // the newer time is now the baseline
    assert_eq!(w.update(Some(11)), Ok(false));
    assert_eq!(
        w.update(None),
        Err(WatchError::WatchTargetMissing("res/shaders/a.glsl".to_string()))
    );
    assert_eq!(w.last_modified(), 11);
}

#[test]
fn file_watchers_resolve_under_the_shader_root() {
    let ws = get_file_watchers(
        &vec!["main.comp".to_string(), "lib/x.glsl".to_string()],
        &vec![1, 2],
    );
    assert_eq!(ws.len(), 2);
    assert_eq!(ws[0].path(), "res/shaders/main.comp");
    assert_eq!(ws[1].path(), "res/shaders/lib/x.glsl");
    assert_eq!(ws[1].last_modified(), 2);
}

#[test]
fn polling_updates_watches_and_reports_changes() {
    let mut logger = HTMLLogger::new("test");
    let mut program = compute_program(&mut logger, "body\n", 1);
    assert_eq!(program.watch_paths(), vec!["res/shaders/main.comp".to_string()]);
    assert_eq!(program.check_watchers(&mut logger, &vec![Some(100)]), Ok(false));
    assert_eq!(program.check_watchers(&mut logger, &vec![Some(101)]), Ok(true));
    assert_eq!(program.check_watchers(&mut logger, &vec![Some(101)]), Ok(false));
    assert_eq!(
        program.check_watchers(&mut logger, &vec![None]),
        Err(WatchError::WatchTargetMissing("res/shaders/main.comp".to_string()))
    );
}

#[test]
fn timers_measure_from_their_start() {
    let mut t = Timer::new(1_000);
    assert_eq!(t.elapsed_nanos(1_500), 500);
    assert_eq!(t.elapsed_nanos(900), 0);
    t.update(2_000);
    assert_eq!(t.elapsed_nanos(2_001), 1);
}

#[test]
fn image_locations_are_filed_by_name() {
    let mut logger = HTMLLogger::new("test");
    let mut program = compute_program(&mut logger, "body\n", 1);
    assert_eq!(program.get_image_location("screen"), None);
    program.add_image("screen", 3);
    assert_eq!(program.get_image_location("screen"), Some(3));
}
