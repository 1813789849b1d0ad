use vstd::prelude::*;
use crate::c_names::{same_text, strings_view};
use crate::error::CompilerRunnerError;

verus! {

/// The C compilers tried, in order.
pub open spec fn default_compilers() -> Seq<Seq<char>> {
    seq!["gcc"@, "clang"@, "cc"@, "cl"@, "clang-cl"@]
}

/// Compiles generated C code with the first C compiler found.
pub struct CompilerRunner {
    compilers: Vec<String>,
}

/// What running one compiler came to.
pub enum CompilerOutcome {
    /// The compiler produced the executable.
    Compiled,
    /// The compiler is not installed.
    NotFound,
    /// The compiler could not be run, or rejected the code.
    Failed(CompilerRunnerError),
}

/// What to do after a compiler has been run.
pub enum CompileStep {
    /// Run the compiler at this index of the list.
    Try(usize),
    /// Stop: the executable was produced.
    Succeeded,
    /// Stop with this error.
    Stopped(CompilerRunnerError),
}

impl CompilerRunner {
    /// The names of the compilers, in the order they are tried.
    pub closed spec fn compiler_names(&self) -> Seq<Seq<char>> {
        strings_view(self.compilers@)
    }

    /// A runner that tries gcc, clang, cc, cl and clang-cl, in this order.
    pub fn new() -> (r: Self)
        ensures
            r.compiler_names() == default_compilers(),
    {
        let mut compilers: Vec<String> = Vec::new();
        compilers.push("gcc".to_owned());
        compilers.push("clang".to_owned());
        compilers.push("cc".to_owned());
        compilers.push("cl".to_owned());
        compilers.push("clang-cl".to_owned());
        let r = Self { compilers };
        proof {
            assert(r.compiler_names() =~= default_compilers());
        }
        r
    }

    /// The compilers, in the order they are tried.
    pub fn compilers(&self) -> (c: &Vec<String>)
        ensures
            strings_view(c@) == self.compiler_names(),
    {
        &self.compilers
    }

    /// The first step of a compilation: run the first compiler, or stop
    /// when there is none.
    pub fn first_step(&self) -> (step: CompileStep)
        ensures
            self.compiler_names().len() > 0 ==> step matches CompileStep::Try(0),
            self.compiler_names().len() == 0 ==> (step matches CompileStep::Stopped(
                CompilerRunnerError::NoCompilerFound { compilers_tried },
            ) && strings_view(compilers_tried@) == self.compiler_names()),
    {
        proof {
            assert(self.compiler_names().len() == self.compilers@.len());
        }
        if self.compilers.len() > 0 {
            CompileStep::Try(0)
        } else {
            CompileStep::Stopped(CompilerRunnerError::NoCompilerFound { compilers_tried: self.compilers.clone() })
        }
    }

    /// The step after the compiler at `index` came to `outcome`: stop when
    /// it compiled or failed; when it is not installed, try the next one,
    /// and report every compiler tried when it was the last.
    pub fn next_step(&self, index: usize, outcome: CompilerOutcome) -> (step: CompileStep)
        requires
            index < self.compiler_names().len(),
        ensures
            outcome matches CompilerOutcome::Compiled ==> step matches CompileStep::Succeeded,
            outcome matches CompilerOutcome::Failed(e) ==> step == CompileStep::Stopped(e),
            outcome matches CompilerOutcome::NotFound ==> {
                if index + 1 < self.compiler_names().len() {
                    step matches CompileStep::Try(next) && next == index + 1
                } else {
                    step matches CompileStep::Stopped(CompilerRunnerError::NoCompilerFound { compilers_tried })
                        && strings_view(compilers_tried@) == self.compiler_names()
                }
            },
    {
        match outcome {
            CompilerOutcome::Compiled => CompileStep::Succeeded,
            CompilerOutcome::Failed(e) => CompileStep::Stopped(e),
            CompilerOutcome::NotFound => {
                let n = self.compilers.len();
                proof {
                    assert(self.compiler_names().len() == self.compilers@.len());
                }
                if index + 1 < n {
                    CompileStep::Try(index + 1)
                } else {
                    CompileStep::Stopped(CompilerRunnerError::NoCompilerFound { compilers_tried: self.compilers.clone() })
                }
            },
        }
    }

    /// The name of the executable built for `program_name`: the name
    /// itself, with `.exe` after it on Windows.
    pub fn executable_name(&self, program_name: &str, windows: bool) -> (r: String)
        ensures
            r@ == (if windows {
                program_name@ + ".exe"@
            } else {
                program_name@
            }),
    {
        let mut s = program_name.to_owned();
        if windows {
            s.push_str(".exe");
        }
        s
    }
}

/// Whether a compiler takes options in the manner of gcc.
pub open spec fn gcc_like(compiler: Seq<char>) -> bool {
    compiler == "gcc"@ || compiler == "clang"@ || compiler == "cc"@
}

/// The arguments a compiler is run with to build `executable_path` from
/// `c_path`: for gcc, clang and cc, debug information, the source, the
/// output and the maths library; for the others, the options of MSVC.  On
/// Windows the cryptography library is linked too.
pub open spec fn compiler_argument_texts(
    compiler: Seq<char>,
    c_path: Seq<char>,
    executable_path: Seq<char>,
    windows: bool,
) -> Seq<Seq<char>> {
    if gcc_like(compiler) {
        seq!["-g"@, c_path, "-o"@, executable_path, "-lm"@] + (if windows {
            seq!["-lbcrypt"@]
        } else {
            Seq::empty()
        })
    } else {
        seq!["/Zi"@, "/Fe"@, executable_path, c_path] + (if windows {
            seq!["bcrypt.lib"@]
        } else {
            Seq::empty()
        })
    }
}

/// Law: the first three default compilers (gcc, clang and cc) are driven
/// the Unix way: debug information, the source, `-o` and the executable,
/// the maths library, and the cryptography library on Windows; the last
/// two (cl and clang-cl) get the MSVC options.
pub proof fn law_default_compiler_arguments(i: int, c_path: Seq<char>, executable_path: Seq<char>, windows: bool)
    requires
        0 <= i < default_compilers().len(),
    ensures
        i < 3 ==> compiler_argument_texts(default_compilers()[i], c_path, executable_path, windows) == seq![
            "-g"@,
            c_path,
            "-o"@,
            executable_path,
            "-lm"@,
        ] + (if windows {
            seq!["-lbcrypt"@]
        } else {
            Seq::<Seq<char>>::empty()
        }),
        i >= 3 ==> compiler_argument_texts(default_compilers()[i], c_path, executable_path, windows) == seq![
            "/Zi"@,
            "/Fe"@,
            executable_path,
            c_path,
        ] + (if windows {
            seq!["bcrypt.lib"@]
        } else {
            Seq::<Seq<char>>::empty()
        }),
{
    reveal_strlit("gcc");
    reveal_strlit("clang");
    reveal_strlit("cc");
    reveal_strlit("cl");
    reveal_strlit("clang-cl");
    if i >= 3 {
        assert("cl"@[1] != "cc"@[1]);
        assert("clang-cl"@.len() != "gcc"@.len() && "clang-cl"@.len() != "clang"@.len() && "clang-cl"@.len() != "cc"@.len());
        assert("cl"@.len() != "gcc"@.len() && "cl"@.len() != "clang"@.len());
        assert(default_compilers()[i] != "gcc"@ && default_compilers()[i] != "clang"@ && default_compilers()[i] != "cc"@);
    }
}

/// The arguments `compiler` is run with to build `executable_path` from
/// `c_path`.
pub fn compiler_arguments(compiler: &str, c_path: &str, executable_path: &str, windows: bool) -> (r: Vec<String>)
    ensures
        strings_view(r@) == compiler_argument_texts(compiler@, c_path@, executable_path@, windows),
{
    let name = compiler.to_owned();
    let mut r: Vec<String> = Vec::new();
    if same_text(&name, "gcc") || same_text(&name, "clang") || same_text(&name, "cc") {
        r.push("-g".to_owned());
        r.push(c_path.to_owned());
        r.push("-o".to_owned());
        r.push(executable_path.to_owned());
        r.push("-lm".to_owned());
        if windows {
            r.push("-lbcrypt".to_owned());
        }
    } else {
        r.push("/Zi".to_owned());
        r.push("/Fe".to_owned());
        r.push(executable_path.to_owned());
        r.push(c_path.to_owned());
        if windows {
            r.push("bcrypt.lib".to_owned());
        }
    }
    proof {
        assert(strings_view(r@) =~= compiler_argument_texts(compiler@, c_path@, executable_path@, windows));
    }
    r
}

} // verus!
