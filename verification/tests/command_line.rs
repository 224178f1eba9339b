use jamalang::cli::{plan_emission, BinaryToStdout, CompileTarget, Emission};
use jamalang::compiler::entry_point;

#[test]
fn destination_defaults_to_the_source() {
    let emission = plan_emission("dir/a.jm".to_string(), CompileTarget::Binary, None);
    assert_eq!(emission, Ok(Emission::Bitcode { destination: "dir/a.jm".to_string() }));
    assert_eq!(emission.unwrap().extension(), ".bitcode");
    let emission = plan_emission("dir/a.jm".to_string(), CompileTarget::IR, None);
    assert_eq!(emission, Ok(Emission::IrToFile { destination: "dir/a.jm".to_string() }));
    assert_eq!(emission.unwrap().extension(), "ll");
}

#[test]
fn destination_can_be_given() {
    assert_eq!(
        plan_emission("a.jm".to_string(), CompileTarget::Binary, Some("out".to_string())),
        Ok(Emission::Bitcode { destination: "out".to_string() })
    );
    assert_eq!(
        plan_emission("a.jm".to_string(), CompileTarget::IR, Some("out".to_string())),
        Ok(Emission::IrToFile { destination: "out".to_string() })
    );
}

#[test]
fn stdout_takes_text_only() {
    assert_eq!(
        plan_emission("a.jm".to_string(), CompileTarget::IR, Some("stdout".to_string())),
        Ok(Emission::IrToStderr)
    );
    assert_eq!(
        plan_emission("a.jm".to_string(), CompileTarget::Binary, Some("stdout".to_string())),
        Err(BinaryToStdout)
    );
    assert_eq!(plan_emission("stdout".to_string(), CompileTarget::Binary, None), Err(BinaryToStdout));
    assert_eq!(Emission::IrToStderr.extension(), "");
}

#[test]
fn entry_point_name() {
    assert_eq!(entry_point("test_file"), "test_file_entry");
    assert_eq!(entry_point(""), "_entry");
}
