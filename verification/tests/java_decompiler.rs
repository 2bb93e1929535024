use minecraft_sourcecode_tracker::java_decompiler::command_line;
use minecraft_sourcecode_tracker::java_decompiler::decompiler_arguments;
use minecraft_sourcecode_tracker::java_decompiler::Decompilation;
use minecraft_sourcecode_tracker::java_decompiler::DecompileAction;
use minecraft_sourcecode_tracker::java_decompiler::DecompileEvent;
use minecraft_sourcecode_tracker::java_decompiler::JavaDecompilerError;

#[test]
fn decompiler_arguments_in_order() {
    assert_eq!(
        decompiler_arguments("/tmp/cfr.jar", "/tmp/client.jar", "/tmp/out"),
        vec!["-jar", "/tmp/cfr.jar", "/tmp/client.jar", "--outputdir", "/tmp/out"]
    );
}

#[test]
fn command_line_joins_with_spaces() {
    let args = decompiler_arguments("c.jar", "in.jar", "out");
    assert_eq!(command_line("/usr/bin/java", &args), "/usr/bin/java -jar c.jar in.jar --outputdir out");
    assert_eq!(command_line("java", &vec![]), "java ");
}

#[test]
fn decompiler_error_messages() {
    assert_eq!(JavaDecompilerError::NoJava.message(), "Unable to detect an installed version of java");
    assert_eq!(
        JavaDecompilerError::CFRExtractionFailure.message(),
        "Failed to extract cfr decompiler jar to the temp directory"
    );
    assert_eq!(
        JavaDecompilerError::DecompilationFailure("java -jar c.jar".to_string(), 1).message(),
        "Unable to decompile the java source code, process exited with status code 1\nThe command executed: 'java -jar c.jar'"
    );
    assert_eq!(
        JavaDecompilerError::DecompilationFailure("x".to_string(), -1).message(),
        "Unable to decompile the java source code, process exited with status code -1\nThe command executed: 'x'"
    );
    assert_eq!(
        JavaDecompilerError::DecompilationFailure("x".to_string(), i32::MIN).message(),
        "Unable to decompile the java source code, process exited with status code -2147483648\nThe command executed: 'x'"
    );
    assert_eq!(
        JavaDecompilerError::DecompilationFailure("x".to_string(), 130).message(),
        "Unable to decompile the java source code, process exited with status code 130\nThe command executed: 'x'"
    );
}

#[test]
fn no_java_fails_at_once() {
    let mut d = Decompilation::new("in.jar".to_string(), "out".to_string());
    match d.step(DecompileEvent::JavaLocated(None)) {
        DecompileAction::Finish(Err(JavaDecompilerError::NoJava)) => {},
        other => panic!("unexpected {:?}", other),
    }
    assert!(matches!(d.step(DecompileEvent::CfrExtracted(Some("c".to_string()))), DecompileAction::Wait));
}

#[test]
fn missing_cfr_fails() {
    let mut d = Decompilation::new("in.jar".to_string(), "out".to_string());
    assert!(matches!(d.step(DecompileEvent::JavaLocated(Some("/usr/bin/java".to_string()))), DecompileAction::ExtractCfr));
    match d.step(DecompileEvent::CfrExtracted(None)) {
        DecompileAction::Finish(Err(JavaDecompilerError::CFRExtractionFailure)) => {},
        other => panic!("unexpected {:?}", other),
    }
}

#[test]
fn successful_decompilation() {
    let mut d = Decompilation::new("in.jar".to_string(), "out".to_string());
    d.step(DecompileEvent::JavaLocated(Some("/usr/bin/java".to_string())));
    match d.step(DecompileEvent::CfrExtracted(Some("/tmp/cfr.jar".to_string()))) {
        DecompileAction::Spawn { program, args } => {
            assert_eq!(program, "/usr/bin/java");
            assert_eq!(args, vec!["-jar", "/tmp/cfr.jar", "in.jar", "--outputdir", "out"]);
        },
        other => panic!("unexpected {:?}", other),
    }
    assert!(matches!(d.step(DecompileEvent::Exited { success: true, code: Some(0) }), DecompileAction::Finish(Ok(()))));
}

#[test]
fn failed_decompilation_reports_command_and_code() {
    let mut d = Decompilation::new("in.jar".to_string(), "out".to_string());
    d.step(DecompileEvent::JavaLocated(Some("java".to_string())));
    d.step(DecompileEvent::CfrExtracted(Some("cfr.jar".to_string())));
    match d.step(DecompileEvent::Exited { success: false, code: None }) {
        DecompileAction::Finish(Err(JavaDecompilerError::DecompilationFailure(command, code))) => {
            assert_eq!(command, "java -jar cfr.jar in.jar --outputdir out");
            assert_eq!(code, -1);
        },
        other => panic!("unexpected {:?}", other),
    }
}

#[test]
fn events_out_of_turn_are_ignored() {
    let mut d = Decompilation::new("in.jar".to_string(), "out".to_string());
    assert!(matches!(d.step(DecompileEvent::Exited { success: false, code: Some(3) }), DecompileAction::Wait));
    assert!(matches!(d.step(DecompileEvent::JavaLocated(Some("java".to_string()))), DecompileAction::ExtractCfr));
}
