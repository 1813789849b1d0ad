use delo::compiler_runner::{compiler_arguments, CompileStep, CompilerOutcome, CompilerRunner};
use delo::error::CompilerRunnerError;

#[test]
fn compilers_are_tried_in_order() {
    let runner = CompilerRunner::new();
    let names: Vec<&str> = runner.compilers().iter().map(|s| s.as_str()).collect();
    assert_eq!(names, vec!["gcc", "clang", "cc", "cl", "clang-cl"]);
    assert!(matches!(runner.first_step(), CompileStep::Try(0)));
}

#[test]
fn a_missing_compiler_moves_on_to_the_next() {
    let runner = CompilerRunner::new();
    assert!(matches!(runner.next_step(0, CompilerOutcome::NotFound), CompileStep::Try(1)));
    assert!(matches!(runner.next_step(3, CompilerOutcome::NotFound), CompileStep::Try(4)));
}

#[test]
fn no_compiler_found_lists_all_tried() {
    let runner = CompilerRunner::new();
    match runner.next_step(4, CompilerOutcome::NotFound) {
        CompileStep::Stopped(CompilerRunnerError::NoCompilerFound { compilers_tried }) => {
            assert_eq!(compilers_tried, vec!["gcc", "clang", "cc", "cl", "clang-cl"]);
        }
        _ => panic!("expected to stop"),
    }
}

#[test]
fn success_and_failure_stop() {
    let runner = CompilerRunner::new();
    assert!(matches!(runner.next_step(1, CompilerOutcome::Compiled), CompileStep::Succeeded));
    let failed = CompilerOutcome::Failed(CompilerRunnerError::CompilationFailed {
        compiler: "gcc".to_string(),
        status: 1,
        stderr: "error".to_string(),
    });
    assert!(matches!(
        runner.next_step(0, failed),
        CompileStep::Stopped(CompilerRunnerError::CompilationFailed { status: 1, .. })
    ));
}

#[test]
fn gcc_style_arguments() {
    assert_eq!(compiler_arguments("gcc", "p.c", "p", false), vec!["-g", "p.c", "-o", "p", "-lm"]);
    assert_eq!(compiler_arguments("clang", "p.c", "p.exe", true), vec!["-g", "p.c", "-o", "p.exe", "-lm", "-lbcrypt"]);
}

#[test]
fn msvc_style_arguments() {
    assert_eq!(compiler_arguments("cl", "p.c", "p.exe", false), vec!["/Zi", "/Fe", "p.exe", "p.c"]);
    assert_eq!(compiler_arguments("clang-cl", "p.c", "p.exe", true), vec!["/Zi", "/Fe", "p.exe", "p.c", "bcrypt.lib"]);
}

#[test]
fn executable_names() {
    let runner = CompilerRunner::new();
    assert_eq!(runner.executable_name("prog", false), "prog");
    assert_eq!(runner.executable_name("prog", true), "prog.exe");
}
