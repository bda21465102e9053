use hydrogen_src::layout::{
    analysis_dir_for_workspace, choose_local_callback, HydrogenConfig, LocalLayout,
};
use hydrogen_src::{FloatVariant, HydrogenError};

fn b(s: &str) -> Vec<u8> {
    s.as_bytes().to_vec()
}

#[test]
fn hydrogen_paths_relative_work_dir() {
    let c = HydrogenConfig::new(b("workspace"), FloatVariant::F32, "output-rubato-512-1");
    let cwd = b"/home/me";
    assert_eq!(c.absolute_work_dir(cwd), b("/home/me/workspace"));
    assert_eq!(
        c.sample_pack_path(cwd),
        b("/home/me/workspace/src-test-32bitfloat.zip")
    );
    assert_eq!(c.sample_pack_dir(cwd), b("/home/me/workspace/32bitfloat"));
    assert_eq!(c.output_dir(cwd), b("/home/me/workspace/output"));
    assert_eq!(c.output_zip_name(), b("output-rubato-512-1-f32.zip"));
    assert_eq!(
        c.output_zip_path(cwd),
        b("/home/me/workspace/output-rubato-512-1-f32.zip")
    );
    assert_eq!(
        c.reported_output_zip_path(),
        b("workspace/output-rubato-512-1-f32.zip")
    );
}

#[test]
fn hydrogen_paths_absolute_work_dir() {
    let c = HydrogenConfig::new(b("/data/ws"), FloatVariant::F64, "out");
    assert_eq!(c.absolute_work_dir(b"/elsewhere"), b("/data/ws"));
    assert_eq!(c.sample_pack_dir(b"/elsewhere"), b("/data/ws/64bitfloat"));
    assert_eq!(c.output_zip_path(b"/elsewhere"), b("/data/ws/out-f64.zip"));
}

#[test]
fn missing_callback_for_variant() {
    let c32 = HydrogenConfig::new(b("w"), FloatVariant::F32, "o");
    assert!(c32.require_callback(true, false).is_ok());
    assert!(matches!(c32.require_callback(false, true), Err(HydrogenError::MissingCallbackF32)));
    let c64 = HydrogenConfig::new(b("w"), FloatVariant::F64, "o");
    assert!(c64.require_callback(false, true).is_ok());
    assert!(matches!(c64.require_callback(true, false), Err(HydrogenError::MissingCallbackF64)));
}

#[test]
fn local_callback_choice() {
    assert!(matches!(choose_local_callback(true, true), Err(HydrogenError::ConflictingLocalCallbacks)));
    assert!(matches!(choose_local_callback(false, false), Err(HydrogenError::MissingLocalCallback)));
    assert!(matches!(choose_local_callback(true, false), Ok(FloatVariant::F32)));
    assert!(matches!(choose_local_callback(false, true), Ok(FloatVariant::F64)));
}

#[test]
fn local_layout_paths() {
    let l = LocalLayout::new(b("ws"), b("scripts/TestScripts"));
    let cwd = b"/r";
    assert_eq!(l.workspace_dir(cwd), b("/r/ws"));
    assert_eq!(l.script_dir(cwd), b("/r/scripts/TestScripts"));
    assert_eq!(l.sample_dir(cwd), b("/r/ws/local_test_generated_samples"));
    assert_eq!(
        l.sample_input_dir(FloatVariant::F32, cwd),
        b("/r/ws/local_test_generated_samples/32bitfloat")
    );
    assert_eq!(
        l.sample_input_dir(FloatVariant::F64, cwd),
        b("/r/ws/local_test_generated_samples/64bitfloat")
    );
    assert_eq!(l.output_dir(cwd), b("/r/ws/local_test_output"));
    assert_eq!(l.analysis_output_dir(cwd), b("/r/ws/analysis_output"));
    assert_eq!(analysis_dir_for_workspace(b"/abs", cwd), b("/abs/analysis_output"));
}

#[test]
fn script_lists_in_order() {
    let l = LocalLayout::new(b("ws"), b("s"));
    let a = l.analysis_script_paths(b"/s");
    assert_eq!(a.len(), 6);
    assert_eq!(a[0], b("/s/aliasing150db.m"));
    assert_eq!(a[5], b("/s/spectogram_sweep_1_to_44kHz_96kHz_srcto_44kHz.m"));
    let g = l.generation_script_paths(b"/s");
    assert_eq!(g.len(), 6);
    assert_eq!(g[0], b("/s/TestSignals96KHzto44KHz/GEN_aliasing150db.m"));
    assert_eq!(g[5], b("/s/TestSignals96KHzto44KHz/GEN_sweep_1_to_48KHz_96KHz.m"));
}
