use gfx_assets::shader::{Cause, Shader, ShaderError, Stage, STATUS_OK};

#[test]
fn status_ok_gives_the_object() {
    assert!(matches!(Shader::compile_outcome(5, STATUS_OK, b"ignored"), Ok(5)));
    assert!(matches!(Shader::link_outcome(9, 1, &[0xff]), Ok(9)));
    assert!(matches!(Shader::outcome(Stage::Compile, 3, 1, b""), Ok(3)));
}

#[test]
fn failed_compilation_carries_the_log() {
    match Shader::compile_outcome(5, 0, b"0:1: syntax error") {
        Err(ShaderError::CompilationError(log)) => assert_eq!(log, "0:1: syntax error"),
        other => panic!("unexpected: {:?}", other),
    }
}

#[test]
fn failed_linking_carries_the_log() {
    match Shader::link_outcome(5, 0, "sortie non li\u{e9}e".as_bytes()) {
        Err(ShaderError::LinkError(log)) => assert_eq!(log, "sortie non li\u{e9}e"),
        other => panic!("unexpected: {:?}", other),
    }
    match Shader::outcome(Stage::Link, 5, -1, b"") {
        Err(ShaderError::LinkError(log)) => assert_eq!(log, ""),
        other => panic!("unexpected: {:?}", other),
    }
}

#[test]
fn log_that_is_no_text_is_an_info_log_error() {
    assert!(matches!(
        Shader::compile_outcome(5, 0, &[b'a', 0xff, b'b']),
        Err(ShaderError::InfoLogError(_))
    ));
    assert!(matches!(
        Shader::link_outcome(5, 0, &[0xc3]),
        Err(ShaderError::InfoLogError(_))
    ));
}

#[test]
fn log_length_leaves_out_the_final_zero() {
    assert_eq!(Shader::info_log_len(1), 0);
    assert_eq!(Shader::info_log_len(18), 17);
    assert_eq!(Shader::info_log_len(0), 0);
    assert_eq!(Shader::info_log_len(-4), 0);
    assert_eq!(Shader::info_log_len(i32::MAX), i32::MAX as usize - 1);
}

#[test]
fn shader_keeps_paths_and_program() {
    let shader = Shader::new("a.vert".to_string(), "a.frag".to_string(), 12);
    assert_eq!(
        shader,
        Shader {
            vertex_path: "a.vert".to_string(),
            fragment_path: "a.frag".to_string(),
            program: 12
        }
    );
}

#[test]
fn using_a_shader_names_its_program_and_leaves_it_as_it_is() {
    let mut shader = Shader::new("a.vert".to_string(), "a.frag".to_string(), 12);
    assert_eq!(shader.use_program(), 12);
    assert_eq!(shader, Shader::new("a.vert".to_string(), "a.frag".to_string(), 12));
}

#[test]
fn errors_read_as_lines() {
    let compile = ShaderError::CompilationError("bad token".to_string());
    assert_eq!(compile.to_string(), "Shader compilation error: bad token");
    assert_eq!(compile.description(), "Error during shader compilation");
    let link = ShaderError::LinkError("no main".to_string());
    assert_eq!(link.to_string(), "Linking error: no main");
    assert_eq!(link.description(), "Error during linking");
}

#[test]
fn outside_errors_convert_and_keep_their_text() {
    let io = std::io::Error::new(std::io::ErrorKind::NotFound, "shader.vert is missing");
    let error = ShaderError::from(io);
    assert!(matches!(error, ShaderError::IoError(_)));
    assert_eq!(error.to_string(), "IO Error: shader.vert is missing");
    let bad = vec![0xffu8];
    let utf8 = std::str::from_utf8(&bad).unwrap_err();
    let error: ShaderError = utf8.into();
    assert!(matches!(error, ShaderError::InfoLogError(_)));
    assert!(error.to_string().starts_with("InfoLog Error: "));
    assert!(!error.description().is_empty());
}

#[test]
fn only_outside_errors_have_a_cause() {
    let io = ShaderError::from(std::io::Error::new(std::io::ErrorKind::Other, "disk on fire"));
    match io.cause() {
        Some(Cause::Io(error)) => assert_eq!(error.to_string(), "disk on fire"),
        other => panic!("unexpected: {:?}", other),
    }
    let bad = vec![b'a', 0xffu8];
    let utf8 = ShaderError::from(std::str::from_utf8(&bad).unwrap_err());
    match utf8.cause() {
        Some(Cause::InfoLog(error)) => assert_eq!(error.valid_up_to(), 1),
        other => panic!("unexpected: {:?}", other),
    }
    assert!(ShaderError::CompilationError("x".to_string()).cause().is_none());
    assert!(ShaderError::LinkError("x".to_string()).cause().is_none());
}
