use image_processor::error::ProcessorError;
use image_processor::frame::{rgba_buffer_len, FrameError, MAX_BUFFER_BYTES};
use image_processor::pipeline::{advance, Stage, Step, StepOutcome};
use image_processor::plugin::{log_level, plugin_dir, plugin_file_name, LogLevel, TargetOs};

#[test]
fn frame_sizes() {
    assert_eq!(rgba_buffer_len(20, 20), Ok(1600));
    assert_eq!(rgba_buffer_len(1, 1), Ok(4));
    assert_eq!(rgba_buffer_len(16384, 16384), Ok(MAX_BUFFER_BYTES));
    assert_eq!(rgba_buffer_len(16384, 16385), Err(FrameError::TooLarge(1073807360)));
    if usize::BITS == 64 {
        assert_eq!(rgba_buffer_len(100_000, 100_000), Err(FrameError::TooLarge(40_000_000_000u64 as usize)));
    }
    assert_eq!(rgba_buffer_len(0, 5), Err(FrameError::ZeroDimension));
}

#[test]
fn frame_size_overflow() {
    if usize::BITS == 64 {
        // the pixel count fits in 64 bits, four bytes per pixel do not
        assert_eq!(rgba_buffer_len(u32::MAX, u32::MAX), Err(FrameError::ByteCountOverflow));
        assert_eq!(rgba_buffer_len(u32::MAX, 1), Err(FrameError::TooLarge(17_179_869_180u64 as usize)));
    } else {
        assert_eq!(rgba_buffer_len(u32::MAX, u32::MAX), Err(FrameError::PixelCountOverflow));
        assert_eq!(rgba_buffer_len(u32::MAX, 1), Err(FrameError::ByteCountOverflow));
    }
}

#[test]
fn error_messages() {
    let cases = vec![
        (ProcessorError::InputFileNotFound("in.png".to_string()), "Input file not found: in.png"),
        (ProcessorError::ParamsFileNotFound("p.json".to_string()), "Parameters file not found: p.json"),
        (ProcessorError::PluginNotFound("libx.so".to_string()), "Plugin not found: libx.so"),
        (ProcessorError::ImageLoadError("bad".to_string()), "Failed to load image: bad"),
        (ProcessorError::ImageSaveError("disk".to_string()), "Failed to save image: disk"),
        (ProcessorError::PluginLoadError("sym".to_string()), "Plugin loading error: sym"),
        (ProcessorError::ParamsReadError("io".to_string()), "Failed to read parameters file: io"),
    ];
    for (e, text) in cases {
        assert_eq!(e.message(), text);
    }
}

#[test]
fn plugin_file_names() {
    assert_eq!(plugin_file_name("blur_plugin", TargetOs::Linux), "libblur_plugin.so");
    assert_eq!(plugin_file_name("blur_plugin", TargetOs::MacOs), "libblur_plugin.dylib");
    assert_eq!(plugin_file_name("blur_plugin", TargetOs::Windows), "blur_plugin.dll");
    assert_eq!(plugin_file_name("mirror_plugin", TargetOs::Other), "libmirror_plugin.so");
}

#[test]
fn target_os_names() {
    assert_eq!(TargetOs::from_name("linux"), TargetOs::Linux);
    assert_eq!(TargetOs::from_name("macos"), TargetOs::MacOs);
    assert_eq!(TargetOs::from_name("windows"), TargetOs::Windows);
    assert_eq!(TargetOs::from_name("freebsd"), TargetOs::Other);
}

#[test]
fn plugin_directories() {
    assert_eq!(plugin_dir(Some("plugins".to_string()), true), "plugins");
    assert_eq!(plugin_dir(None, true), "target/debug");
    assert_eq!(plugin_dir(None, false), "target/release");
}

#[test]
fn log_levels() {
    assert_eq!(log_level(true), LogLevel::Debug);
    assert_eq!(log_level(false), LogLevel::Info);
}

#[test]
fn pipeline_runs_every_stage_in_order() {
    let mut stage = Stage::CheckInput;
    let mut seen = vec![stage];
    loop {
        match advance(stage, StepOutcome::Done) {
            Step::Next(next) => {
                stage = next;
                seen.push(stage);
            }
            Step::Finished(result) => {
                assert_eq!(result, Ok(()));
                break;
            }
        }
    }
    assert_eq!(
        seen,
        vec![
            Stage::CheckInput,
            Stage::CheckParams,
            Stage::LoadImage,
            Stage::ReadParams,
            Stage::LoadPlugin,
            Stage::PrepareParams,
            Stage::RunPlugin,
            Stage::SaveOutput,
        ]
    );
}

#[test]
fn pipeline_failures() {
    let s = |x: &str| x.to_string();
    assert_eq!(
        advance(Stage::CheckInput, StepOutcome::Missing(s("a.png"))),
        Step::Finished(Err(ProcessorError::InputFileNotFound(s("a.png"))))
    );
    assert_eq!(
        advance(Stage::CheckParams, StepOutcome::Missing(s("p.json"))),
        Step::Finished(Err(ProcessorError::ParamsFileNotFound(s("p.json"))))
    );
    assert_eq!(
        advance(Stage::LoadImage, StepOutcome::Failed(s("bad format"))),
        Step::Finished(Err(ProcessorError::ImageLoadError(s("bad format"))))
    );
    assert_eq!(
        advance(Stage::ReadParams, StepOutcome::Failed(s("denied"))),
        Step::Finished(Err(ProcessorError::ParamsReadError(s("denied"))))
    );
    assert_eq!(
        advance(Stage::LoadPlugin, StepOutcome::Missing(s("libx.so"))),
        Step::Finished(Err(ProcessorError::PluginNotFound(s("libx.so"))))
    );
    assert_eq!(
        advance(Stage::LoadPlugin, StepOutcome::Failed(s("no symbol"))),
        Step::Finished(Err(ProcessorError::PluginLoadError(s("no symbol"))))
    );
    assert_eq!(
        advance(Stage::PrepareParams, StepOutcome::Failed(s("nul byte"))),
        Step::Finished(Err(ProcessorError::PluginLoadError(s("nul byte"))))
    );
    assert_eq!(
        advance(Stage::RunPlugin, StepOutcome::Failed(s("ignored"))),
        Step::Finished(Err(ProcessorError::ImageSaveError(s("Failed to create image from raw data"))))
    );
    assert_eq!(
        advance(Stage::SaveOutput, StepOutcome::Failed(s("full disk"))),
        Step::Finished(Err(ProcessorError::ImageSaveError(s("full disk"))))
    );
}
