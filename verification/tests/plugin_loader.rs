use image_processor::mirror;
use image_processor::pixels::buffer_matches;
use image_processor::pixels::checked_buffer_len;
use image_processor::plugin_loader::encode_bytes;
use image_processor::plugin_loader::encode_params;
use image_processor::plugin_loader::library_filename;
use image_processor::plugin_loader::step;
use image_processor::plugin_loader::LoaderAction;
use image_processor::plugin_loader::LoaderError;
use image_processor::plugin_loader::LoaderEvent;
use image_processor::plugin_loader::LoaderState;
use image_processor::plugin_loader::Platform;
use image_processor::plugin_loader::ENTRY_SYMBOL;

/// What the host would see of a library: whether it opens, whether it has
/// the entry symbol, and the transform behind it.
struct FakeLibrary {
    opens: bool,
    has_symbol: bool,
}

/// Runs a call as the host program does, with the flip transform standing in
/// for the library's entry point. Counts the calls of the entry point.
fn process(
    library: &FakeLibrary,
    plugin_path: &str,
    width: u32,
    height: u32,
    rgba_data: &mut Vec<u8>,
    params: &str,
    calls: &mut u32,
) -> Result<(), LoaderError> {
    let mut state = LoaderState::Start;
    let mut event = LoaderEvent::Begin;
    loop {
        assert!(state.accepts(&event));
        let (next, action) = step(state, event, plugin_path, params);
        state = next;
        event = match action {
            LoaderAction::OpenLibrary => {
                if library.opens {
                    LoaderEvent::Opened
                } else {
                    LoaderEvent::OpenFailed { reason: String::from("cannot open shared object file") }
                }
            }
            LoaderAction::ResolveSymbol => {
                if library.has_symbol {
                    LoaderEvent::Resolved
                } else {
                    LoaderEvent::ResolveFailed { reason: String::from("undefined symbol") }
                }
            }
            LoaderAction::Call { params: bytes } => {
                *calls += 1;
                assert_eq!(bytes.last(), Some(&0u8));
                let text = String::from_utf8(bytes[..bytes.len() - 1].to_vec()).unwrap();
                mirror::process_image(width, height, rgba_data, &text);
                LoaderEvent::Returned
            }
            LoaderAction::Succeed => {
                assert_eq!(state, LoaderState::Finished);
                return Ok(());
            }
            LoaderAction::Fail { error } => {
                assert_eq!(state, LoaderState::Finished);
                return Err(error);
            }
        };
    }
}

#[test]
fn test_library_filename_current_platform() {
    let name = library_filename("mirror_plugin", Platform::from_os_name("macos"));
    assert_eq!(name, "libmirror_plugin.dylib");

    let name = library_filename("mirror_plugin", Platform::from_os_name("linux"));
    assert_eq!(name, "libmirror_plugin.so");

    let name = library_filename("mirror_plugin", Platform::from_os_name("windows"));
    assert_eq!(name, "mirror_plugin.dll");
}

#[test]
fn test_process_missing_library_returns_error() {
    let lib_name = library_filename("nonexistent_plugin", Platform::Linux);
    let path = std::path::PathBuf::from("/nonexistent/path").join(&lib_name);
    let mut data = vec![0u8; 16];
    let mut calls = 0;
    let missing = FakeLibrary { opens: false, has_symbol: false };
    let result = process(&missing, path.to_str().unwrap(), 2, 2, &mut data, "{}", &mut calls);

    assert!(result.is_err());
    let err = result.unwrap_err().message();
    assert!(err.contains("Failed to load plugin library"));
    assert!(err.contains("/nonexistent/path/libnonexistent_plugin.so"));
    assert_eq!(calls, 0);
}

#[test]
fn test_process_invalid_params_with_null_byte() {
    let lib_name = library_filename("mirror_plugin", Platform::Linux);
    let plugin_path = std::path::PathBuf::from("../target/debug").join(&lib_name);
    let mut data = vec![0u8; 16];
    let mut calls = 0;
    let present = FakeLibrary { opens: true, has_symbol: true };
    let result =
        process(&present, plugin_path.to_str().unwrap(), 2, 2, &mut data, "null\0byte", &mut calls);

    assert!(result.is_err());
    let err = result.unwrap_err().message();
    assert!(
        err.contains("Invalid params string"),
        "Expected 'Invalid params string' error, got: {}",
        err
    );
    assert_eq!(calls, 0);
    assert_eq!(data, vec![0u8; 16]);
}

#[test]
fn test_process_with_real_plugin() {
    let lib_name = library_filename("mirror_plugin", Platform::Linux);
    let plugin_path = std::path::PathBuf::from("../target/debug").join(&lib_name);

    let mut data = vec![
        255, 0, 0, 255, 0, 255, 0, 255, 0, 0, 255, 255, 255, 255, 0, 255,
    ];
    let mut calls = 0;
    let present = FakeLibrary { opens: true, has_symbol: true };
    let result = process(
        &present,
        plugin_path.to_str().unwrap(),
        2,
        2,
        &mut data,
        r#"{"horizontal": true}"#,
        &mut calls,
    );

    assert!(result.is_ok(), "Expected success, got: {:?}", result);
    assert_eq!(calls, 1);
    assert_eq!(
        data,
        vec![0, 255, 0, 255, 255, 0, 0, 255, 255, 255, 0, 255, 0, 0, 255, 255]
    );
}

#[test]
fn a_library_without_the_symbol_is_refused() {
    let mut data = vec![5u8; 16];
    let mut calls = 0;
    let bare = FakeLibrary { opens: true, has_symbol: false };
    let result = process(&bare, "libother.so", 2, 2, &mut data, "{}", &mut calls);
    match result {
        Err(LoaderError::SymbolNotFound { reason }) => assert_eq!(reason, "undefined symbol"),
        other => panic!("unexpected outcome: {:?}", other),
    }
    assert_eq!(calls, 0);
    assert_eq!(data, vec![5u8; 16]);
    assert_eq!(
        LoaderError::SymbolNotFound { reason: String::new() }.message(),
        "Failed to find process_image symbol"
    );
}

#[test]
fn a_missing_library_is_found_before_bad_parameters() {
    let mut data = vec![0u8; 16];
    let mut calls = 0;
    let missing = FakeLibrary { opens: false, has_symbol: false };
    let result = process(&missing, "/nowhere/libx.so", 2, 2, &mut data, "a\0b", &mut calls);
    match result {
        Err(LoaderError::LibraryLoad { path, reason }) => {
            assert_eq!(path, "/nowhere/libx.so");
            assert_eq!(reason, "cannot open shared object file");
        }
        other => panic!("unexpected outcome: {:?}", other),
    }
    assert_eq!(calls, 0);
}

#[test]
fn the_steps_come_in_order() {
    let (state, action) = step(LoaderState::Start, LoaderEvent::Begin, "p", "{}");
    assert_eq!(state, LoaderState::Opening);
    assert!(matches!(action, LoaderAction::OpenLibrary));

    let (state, action) = step(state, LoaderEvent::Opened, "p", "{}");
    assert_eq!(state, LoaderState::Resolving);
    assert!(matches!(action, LoaderAction::ResolveSymbol));

    let (state, action) = step(state, LoaderEvent::Resolved, "p", "{}");
    assert_eq!(state, LoaderState::Calling);
    match action {
        LoaderAction::Call { params } => assert_eq!(params, vec![b'{', b'}', 0]),
        other => panic!("unexpected action: {:?}", other),
    }

    let (state, action) = step(state, LoaderEvent::Returned, "p", "{}");
    assert_eq!(state, LoaderState::Finished);
    assert!(matches!(action, LoaderAction::Succeed));
}

#[test]
fn events_out_of_turn_are_not_accepted() {
    let failed = LoaderEvent::OpenFailed { reason: String::new() };
    assert!(LoaderState::Start.accepts(&LoaderEvent::Begin));
    assert!(!LoaderState::Start.accepts(&LoaderEvent::Opened));
    assert!(!LoaderState::Start.accepts(&LoaderEvent::Returned));
    assert!(LoaderState::Opening.accepts(&LoaderEvent::Opened));
    assert!(LoaderState::Opening.accepts(&failed));
    assert!(!LoaderState::Opening.accepts(&LoaderEvent::Resolved));
    assert!(LoaderState::Resolving.accepts(&LoaderEvent::Resolved));
    assert!(LoaderState::Resolving.accepts(&LoaderEvent::ResolveFailed { reason: String::new() }));
    assert!(!LoaderState::Resolving.accepts(&failed));
    assert!(LoaderState::Calling.accepts(&LoaderEvent::Returned));
    assert!(!LoaderState::Calling.accepts(&LoaderEvent::Begin));
    assert!(!LoaderState::Finished.accepts(&LoaderEvent::Begin));
    assert!(!LoaderState::Finished.accepts(&LoaderEvent::Returned));
}

#[test]
fn library_names_follow_the_platform() {
    assert_eq!(library_filename("foo", Platform::Linux), "libfoo.so");
    assert_eq!(library_filename("foo", Platform::MacOs), "libfoo.dylib");
    assert_eq!(library_filename("foo", Platform::Windows), "foo.dll");
    assert_eq!(library_filename("foo", Platform::Unknown), "libfoo.so");
    assert_eq!(library_filename("", Platform::Windows), ".dll");
    assert_eq!(library_filename("blur_plugin", Platform::Linux), "libblur_plugin.so");
    assert_eq!(library_filename("größe", Platform::MacOs), "libgröße.dylib");
}

#[test]
fn platforms_are_told_by_name() {
    assert_eq!(Platform::from_os_name("linux"), Platform::Linux);
    assert_eq!(Platform::from_os_name("macos"), Platform::MacOs);
    assert_eq!(Platform::from_os_name("windows"), Platform::Windows);
    assert_eq!(Platform::from_os_name("freebsd"), Platform::Unknown);
    assert_eq!(Platform::from_os_name("Linux"), Platform::Unknown);
    assert_eq!(Platform::from_os_name(""), Platform::Unknown);
}

#[test]
fn parameters_end_in_a_zero_byte() {
    assert_eq!(encode_params("").unwrap(), vec![0]);
    assert_eq!(encode_params("{}").unwrap(), vec![b'{', b'}', 0]);
    assert_eq!(encode_params("é").unwrap(), vec![0xC3, 0xA9, 0]);
    assert_eq!(encode_bytes(vec![1, 2, 3]).unwrap(), vec![1, 2, 3, 0]);
}

#[test]
fn a_zero_byte_inside_is_refused() {
    match encode_params("null\0byte") {
        Err(LoaderError::InvalidParameterEncoding { position }) => assert_eq!(position, 4),
        other => panic!("unexpected outcome: {:?}", other),
    }
    match encode_params("\0") {
        Err(LoaderError::InvalidParameterEncoding { position }) => assert_eq!(position, 0),
        other => panic!("unexpected outcome: {:?}", other),
    }
    match encode_bytes(vec![7, 0, 7, 0]) {
        Err(error) => {
            assert!(matches!(error, LoaderError::InvalidParameterEncoding { position: 1 }));
            assert_eq!(error.message(), "Invalid params string");
        }
        other => panic!("unexpected outcome: {:?}", other),
    }
}

#[test]
fn the_entry_symbol_is_fixed() {
    assert_eq!(ENTRY_SYMBOL, "process_image");
}

#[test]
fn buffer_lengths_are_checked() {
    assert_eq!(checked_buffer_len(0, 0), Some(0));
    assert_eq!(checked_buffer_len(2, 2), Some(16));
    assert_eq!(checked_buffer_len(1920, 1080), Some(8294400));
    assert_eq!(checked_buffer_len(u32::MAX, u32::MAX), None);
    assert!(buffer_matches(16, 2, 2));
    assert!(buffer_matches(0, 0, 9));
    assert!(!buffer_matches(15, 2, 2));
    assert!(!buffer_matches(17, 2, 2));
    assert!(!buffer_matches(0, u32::MAX, u32::MAX));
}
